use typedb_console::command::{
    Argument, Command, CommandInput, CommandLeaf, CommandMatch, Completer, InputReader, InputType,
    Operation, ReplError, Subcommand,
};
use typedb_console::console::{entry_repl, transaction_repl};
use typedb_console::session::TransactionType;
use typedb_console::token::CommandToken;

fn chars(text: &str) -> Vec<char> {
    text.chars().collect()
}

fn shown(arguments: &[Argument]) -> Vec<String> {
    arguments
        .iter()
        .map(|argument| match argument {
            Argument::Given(text) => text.clone(),
            Argument::Hidden(index) => format!("<hidden {}>", index),
        })
        .collect()
}

fn leaf(token: &'static str, executor: Operation) -> Command {
    Command::Leaf(CommandLeaf::new(token, "", executor))
}

fn word_leaf(token: &'static str, executor: Operation) -> Command {
    Command::Leaf(CommandLeaf::new_with_input(
        token,
        "",
        CommandInput::new_required("value", InputReader::Word, None),
        executor,
    ))
}

fn resolve<'a>(group: &'a Subcommand, input: &str) -> CommandMatch<'a> {
    group.match_first(&chars(input), false).unwrap().unwrap()
}

#[test]
fn a_token_matches_after_leading_whitespace() {
    let token = CommandToken::new("list");
    let input = chars("  \tlist all");
    let (matched, remaining, end) = token.match_(&input, false).unwrap();
    assert_eq!(matched, &chars("  \tlist")[..]);
    assert_eq!(remaining, &chars(" all")[..]);
    assert_eq!(end, 7);
    assert!(token.match_(&chars("x list"), false).is_none());
    assert!(token.match_(&chars("lis"), false).is_none());
    assert!(token.match_(&chars(""), false).is_none());
    assert_eq!(token.match_(&chars("listing"), false).unwrap().2, 4);
    assert_eq!(token.match_(&chars(" \n list"), false).unwrap().2, 7);
}

#[test]
fn the_empty_token_matches_without_consuming() {
    let token = CommandToken::new("");
    let input = chars("  anything");
    let (matched, remaining, end) = token.match_(&input, false).unwrap();
    assert!(matched.is_empty());
    assert_eq!(remaining, &input[..]);
    assert_eq!(end, 0);
    assert_eq!(token.match_(&chars(""), true).unwrap().2, 0);
    assert_eq!(token.match_(&chars("\n"), true).unwrap().2, 0);
}

#[test]
fn on_a_single_line_a_newline_is_not_passed_over() {
    let token = CommandToken::new("list");
    assert_eq!(token.match_(&chars(" \t list"), true).unwrap().2, 7);
    assert!(token.match_(&chars("\nlist"), true).is_none());
    assert!(token.match_(&chars("  \n list"), true).is_none());
    assert_eq!(token.match_(&chars("\r list\n"), true).unwrap().2, 6);
    let group = Subcommand::new("database").add(leaf("list", Operation::DatabaseList));
    assert!(group.match_first(&chars("database list"), true).unwrap().is_some());
    assert!(group.match_first(&chars("database\nlist"), false).unwrap().is_some());
    match group.match_first(&chars("database\nlist"), true) {
        Err(ReplError::UnrecognisedSubcommand { token, input }) => {
            assert_eq!(token, "database");
            assert_eq!(input, "list");
        }
        other => panic!("unexpected result: {:?}", other),
    }
}

#[test]
fn a_token_matches_at_its_first_occurrence() {
    let spaced = CommandToken::new(" a");
    assert_eq!(spaced.match_(&chars("  a"), false).unwrap().2, 3);
    assert_eq!(spaced.match_(&chars(" a a"), false).unwrap().2, 2);
    assert!(spaced.match_(&chars("a"), false).is_none());
    assert!(spaced.match_(&chars("x a"), false).is_none());
    let token = CommandToken::new("create");
    let input = chars("  create foo");
    let (matched, remaining, end) = token.match_(&input, false).unwrap();
    assert_eq!(matched, &chars("  create")[..]);
    assert_eq!(remaining, &chars(" foo")[..]);
    assert_eq!(end, 8);
    assert!(token.match_(&chars("x create"), false).is_none());
    assert!(token.match_(&chars("creat  create"), false).is_none());
}

#[test]
fn tokens_are_ordered_as_in_a_dictionary() {
    let less = |a: &'static str, b: &'static str| CommandToken::new(a).less_than(&CommandToken::new(b));
    assert!(less("create", "create-init"));
    assert!(!less("create-init", "create"));
    assert!(less("exit", "help"));
    assert!(less("", "a"));
    assert!(!less("a", ""));
    assert!(!less("a", "a"));
    assert!(less("Z", "a"));
    assert!(less("a", "é"));
    assert!(!less("b", "abc"));
}

#[test]
fn a_token_completes_a_typed_prefix() {
    let token = CommandToken::new("database");
    assert!(token.completes(&chars("data")));
    assert!(token.completes(&chars("  data ")));
    assert!(token.completes(&chars("database")));
    assert!(token.completes(&chars("")));
    assert!(!token.completes(&chars("databases")));
    assert!(!token.completes(&chars("user")));
    assert!(token.same_as(&CommandToken::new("database")));
    assert!(!token.same_as(&CommandToken::new("databasf")));
    assert!(!token.same_as(&CommandToken::new("data")));
    assert_eq!(token.to_string(), "database");
    assert_eq!(token.len(), 8);
}

#[test]
fn database_create_resolves_to_its_leaf() {
    let repl = entry_repl("history".to_string());
    let input = chars("database create foo\n");
    let found = repl.match_first_command(&input, false).unwrap().unwrap();
    assert_eq!(found.command.executor, Operation::DatabaseCreate);
    assert_eq!(found.command.token.to_string(), "create");
    assert_eq!(shown(&found.arguments), vec!["foo"]);
    assert_eq!(found.end, "database create foo".len());
}

#[test]
fn optional_trailing_arguments_may_be_absent() {
    let repl = entry_repl("history".to_string());
    let input = chars("database create-init db schema.tql data.tql");
    let found = repl.match_first_command(&input, false).unwrap().unwrap();
    assert_eq!(found.command.executor, Operation::DatabaseCreateInit);
    assert_eq!(shown(&found.arguments), vec!["db", "schema.tql", "data.tql"]);
    assert_eq!(found.end, input.len());
}

#[test]
fn optional_trailing_arguments_are_read_when_present() {
    let repl = entry_repl("history".to_string());
    let four = chars("database create-init db s.tql d.tql sha256:ab");
    let found = repl.match_first_command(&four, false).unwrap().unwrap();
    assert_eq!(shown(&found.arguments), vec!["db", "s.tql", "d.tql", "sha256:ab"]);
    let five = chars("database create-init db s.tql d.tql ab cd ");
    let found = repl.match_first_command(&five, false).unwrap().unwrap();
    assert_eq!(shown(&found.arguments), vec!["db", "s.tql", "d.tql", "ab", "cd"]);
    assert_eq!(found.end, five.len() - 1);
}

#[test]
fn a_missing_required_argument_is_named() {
    let repl = entry_repl("history".to_string());
    match repl.match_first_command(&chars("database create-init db s.tql"), false) {
        Err(ReplError::MissingArgument { index, usage }) => {
            assert_eq!(index, 3);
            assert_eq!(usage, "data file");
        }
        other => panic!("unexpected result: {:?}", other),
    }
    match repl.match_first_command(&chars("database create  \n"), false) {
        Err(error) => assert_eq!(error.message(), "Missing argument 1: db"),
        other => panic!("unexpected result: {:?}", other),
    }
}

#[test]
fn an_absent_hidden_argument_is_left_to_be_asked_for() {
    let repl = entry_repl("history".to_string());
    let found = repl.match_first_command(&chars("user create bob"), false).unwrap().unwrap();
    assert_eq!(found.command.executor, Operation::UserCreate);
    assert_eq!(shown(&found.arguments), vec!["bob", "<hidden 1>"]);
    assert_eq!(found.end, 15);
    let argument = &found.command.arguments[1];
    assert!(argument.is_hidden());
    assert_eq!(argument.hidden_prompt(), "password: ");
    assert_eq!(argument.request_hidden("s3cret").unwrap(), "s3cret");
    assert_eq!(argument.request_hidden(" s3cret more").unwrap(), " s3cret");
}

#[test]
fn a_hidden_argument_may_be_given_in_the_open() {
    let repl = entry_repl("history".to_string());
    let found = repl
        .match_first_command(&chars("user update-password bob hunter2"), false)
        .unwrap()
        .unwrap();
    assert_eq!(found.command.executor, Operation::UserUpdatePassword);
    assert_eq!(shown(&found.arguments), vec!["bob", "hunter2"]);
}

#[test]
fn hidden_input_is_validated_by_the_hidden_reader() {
    let hidden = CommandInput::new_hidden("password", InputReader::Word, None);
    match hidden.request_hidden("   ") {
        Err(ReplError::UnreadableHidden { usage }) => assert_eq!(usage, "password"),
        other => panic!("unexpected result: {:?}", other),
    }
    assert_eq!(
        hidden.request_hidden("").unwrap_err().message(),
        "Could not read input for 'password'"
    );
    let visible = CommandInput::new_required("name", InputReader::Word, None);
    assert!(!visible.is_hidden());
    match visible.request_hidden("bob") {
        Err(ReplError::NotHidden { usage }) => assert_eq!(usage, "name"),
        other => panic!("unexpected result: {:?}", other),
    }
    let optional = CommandInput::new_optional("hash", InputReader::Word, None);
    assert_eq!(
        optional.request_hidden("x").unwrap_err().message(),
        "hash cannot be requested as a hidden parameter and must be entered as part of the command."
    );
}

#[test]
fn an_unknown_subcommand_is_an_error_of_its_group() {
    let repl = entry_repl("history".to_string());
    match repl.match_first_command(&chars("database drop foo"), false) {
        Err(ReplError::UnrecognisedSubcommand { token, input }) => {
            assert_eq!(token, "database");
            assert_eq!(input, "drop foo");
        }
        other => panic!("unexpected result: {:?}", other),
    }
    let error = repl.match_first_command(&chars("frobnicate"), false).unwrap_err();
    assert_eq!(
        error.message(),
        "Unrecognised '' subcommand: 'frobnicate', please type 'help' to see the help menu."
    );
}

#[test]
fn a_group_declines_what_does_not_start_with_its_token() {
    let group = Subcommand::new("database").add(leaf("list", Operation::DatabaseList));
    assert!(group.match_first(&chars("user list"), false).unwrap().is_none());
    assert!(group.match_first(&chars(""), false).unwrap().is_none());
    let only = CommandLeaf::new("list", "", Operation::DatabaseList);
    assert!(only.match_first(&chars("lis"), false).unwrap().is_none());
    assert_eq!(only.match_first(&chars(" list now"), false).unwrap().unwrap().end, 5);
}

#[test]
fn the_longer_of_two_sibling_tokens_is_tried_first() {
    let declared_short_first = Subcommand::new("")
        .add(word_leaf("create", Operation::DatabaseCreate))
        .add(word_leaf("create-init", Operation::DatabaseCreateInit));
    let declared_long_first = Subcommand::new("")
        .add(word_leaf("create-init", Operation::DatabaseCreateInit))
        .add(word_leaf("create", Operation::DatabaseCreate));
    for group in [&declared_short_first, &declared_long_first] {
        let found = resolve(group, "create-init db");
        assert_eq!(found.command.executor, Operation::DatabaseCreateInit);
        assert_eq!(shown(&found.arguments), vec!["db"]);
        let found = resolve(group, "create db");
        assert_eq!(found.command.executor, Operation::DatabaseCreate);
        let tokens: Vec<String> =
            group.subcommands.iter().map(|command| command.token().to_string()).collect();
        assert_eq!(tokens, vec!["create-init", "create"]);
    }
}

#[test]
fn among_tokens_of_one_length_the_last_added_is_first() {
    let group = Subcommand::new("")
        .add(leaf("aa", Operation::Help))
        .add(leaf("bbb", Operation::Exit))
        .add(leaf("cc", Operation::Clear))
        .add(leaf("", Operation::TransactionQuery))
        .add(leaf("dddd", Operation::UserList));
    let tokens: Vec<String> =
        group.subcommands.iter().map(|command| command.token().to_string()).collect();
    assert_eq!(tokens, vec!["dddd", "bbb", "cc", "aa", ""]);
}

#[test]
fn tokens_are_unique_among_siblings() {
    let group = Subcommand::new("")
        .add(leaf("database", Operation::DatabaseList))
        .add(leaf("data-export", Operation::DatabaseExport));
    assert!(group.contains_token(&CommandToken::new("database")));
    assert!(group.contains_token(&CommandToken::new("data-export")));
    assert!(!group.contains_token(&CommandToken::new("data")));
    assert!(!group.contains_token(&CommandToken::new("")));
    match group.match_first(&chars("data"), false) {
        Err(ReplError::UnrecognisedSubcommand { token, input }) => {
            assert_eq!(token, "");
            assert_eq!(input, "data");
        }
        other => panic!("unexpected result: {:?}", other),
    }
    let repl = entry_repl("history".to_string());
    assert!(repl.contains_token("database"));
    assert!(repl.contains_token("help"));
    assert!(!repl.contains_token("commit"));
}

#[test]
fn optional_arguments_belong_at_the_tail() {
    let required = || CommandInput::new_required("a", InputReader::Word, None);
    let optional = || CommandInput::new_optional("b", InputReader::Word, None);
    let hidden = || CommandInput::new_hidden("c", InputReader::Word, None);
    assert!(CommandLeaf::validate_optionals_at_tail(&[]));
    assert!(CommandLeaf::validate_optionals_at_tail(&[required(), hidden()]));
    assert!(CommandLeaf::validate_optionals_at_tail(&[required(), optional(), optional()]));
    assert!(CommandLeaf::validate_optionals_at_tail(&[optional()]));
    assert!(!CommandLeaf::validate_optionals_at_tail(&[optional(), required()]));
    assert!(!CommandLeaf::validate_optionals_at_tail(&[required(), optional(), hidden()]));
    assert!(!CommandLeaf::validate_optionals_at_tail(&[optional(), optional(), required(), optional()]));
}

#[test]
fn constructors_keep_what_they_are_given() {
    let input = CommandInput::new_hidden("password", InputReader::Word, Some(Completer::Files));
    assert_eq!(input.usage, "password");
    assert_eq!(input.reader, InputReader::Word);
    assert_eq!(input.type_, InputType::RequiredHidden);
    assert_eq!(input.completer, Some(Completer::Files));
    assert_eq!(input.read_end_index_from(&chars("  ab cd"), false), Some(4));
    let leaf = CommandLeaf::new_with_input("t", "d", input, Operation::Help);
    assert_eq!(leaf.token.to_string(), "t");
    assert_eq!(leaf.description, "d");
    assert_eq!(leaf.arguments.len(), 1);
    assert_eq!(leaf.executor, Operation::Help);
    assert_eq!(InputReader::Word.read(&chars("x y"), true), Some(1));
    assert_eq!(InputReader::Query.read(&chars("x y"), true), Some(3));
}

#[test]
fn offsets_add_up_through_nested_groups() {
    let inner = Subcommand::new("b").add(word_leaf("c", Operation::Help));
    let outer = Subcommand::new("a").add(Command::Group(inner));
    let found = resolve(&outer, "  a   b c   value   rest");
    assert_eq!(shown(&found.arguments), vec!["value"]);
    assert_eq!(found.end, "  a   b c   value".len());
}

#[test]
fn in_a_transaction_anything_else_is_a_query() {
    let repl = transaction_repl("db", TransactionType::Write, "history".to_string());
    let commit = repl.match_first_command(&chars("commit"), false).unwrap().unwrap();
    assert_eq!(commit.command.executor, Operation::TransactionCommit);
    assert!(commit.arguments.is_empty());
    assert_eq!(commit.end, 6);
    let close = repl.match_first_command(&chars("close\n"), false).unwrap().unwrap();
    assert_eq!(close.command.executor, Operation::TransactionClose);
    let source = repl.match_first_command(&chars("source data.tql"), false).unwrap().unwrap();
    assert_eq!(source.command.executor, Operation::TransactionSource);
    assert_eq!(shown(&source.arguments), vec!["data.tql"]);
    let input = chars("define entity person;\n\ncommit");
    let query = repl.match_first_command(&input, false).unwrap().unwrap();
    assert_eq!(query.command.executor, Operation::TransactionQuery);
    assert_eq!(shown(&query.arguments), vec!["define entity person;"]);
    assert_eq!(query.end, 23);
}

#[test]
fn a_coerced_query_takes_the_whole_line() {
    let repl = transaction_repl("db", TransactionType::Read, "history".to_string());
    let input = chars(" match $x isa person; ");
    let query = repl.match_first_command(&input, true).unwrap().unwrap();
    assert_eq!(query.command.executor, Operation::TransactionQuery);
    assert_eq!(shown(&query.arguments), vec!["match $x isa person;"]);
    assert_eq!(query.end, input.len());
}

#[test]
fn an_unfinished_query_is_a_missing_argument() {
    let repl = transaction_repl("db", TransactionType::Read, "history".to_string());
    match repl.match_first_command(&chars("match $x isa person;\n"), false) {
        Err(ReplError::MissingArgument { index, usage }) => {
            assert_eq!(index, 1);
            assert_eq!(usage, "query");
        }
        other => panic!("unexpected result: {:?}", other),
    }
}

#[test]
fn an_argument_that_is_empty_makes_no_match() {
    let default = CommandLeaf::new_with_input(
        "",
        "",
        CommandInput::new_required("query", InputReader::Query, None),
        Operation::TransactionQuery,
    );
    assert!(default.match_first(&chars("   "), true).unwrap().is_none());
    assert!(default.match_first(&chars(""), true).unwrap().is_none());
    assert!(default.match_first(&chars(" x "), true).unwrap().is_some());
}
