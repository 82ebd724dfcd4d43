use typedb_console::cli::{Args, RunMode, UsageError};
use typedb_console::command::{Command, CommandInput, CommandLeaf, InputReader, Operation, Subcommand};
use typedb_console::console::{
    answer_count_message, answer_wrote, entry_repl, is_write_query, query_compiled_message,
    query_finished_message, query_type_str, streaming_message, transaction_closed_message,
    transaction_type_str, QueryType,
};
use typedb_console::constants::{
    DEFAULT_TRANSACTION_TIMEOUT_SECONDS, MINUTES_IN_HOUR, SECONDS_IN_HOUR, SECONDS_IN_MINUTE,
};
use typedb_console::document::{document_display_string, document_text_of, JsonFailure};
use typedb_console::exit::{ErrorKind, ExitCode};
use typedb_console::history::{mode_after_keys, on_arrow, on_interrupt, EditorCommand, SearchMode};
use typedb_console::printer::{
    concept_display_string, concept_row_display_string, format_iid, format_isa, format_keyword,
    format_type, indent, line_dash_separator, variable_column_width, Column, Concept,
};
use typedb_console::repl::Repl;
use typedb_console::replicas::{
    header_row, replica_row, replica_rows, replicas_table, role_str, table_fits, ReplicaRole, Row,
    ServerReplica,
};
use typedb_console::session::TransactionType;
use typedb_console::style::{
    error_line, format_argument, format_colored, format_error, format_warning, TextColor, TextStyle,
};
use typedb_console::usage::{format_help, push_decimal, push_spaces, UsageEntry};

fn args() -> Args {
    Args {
        command: Vec::new(),
        script: Vec::new(),
        address: Some("https://localhost:1729".to_string()),
        addresses: None,
        address_translation: None,
        replication_disabled: false,
        username: Some("admin".to_string()),
        password: None,
        tls_disabled: false,
        tls_root_ca: None,
        diagnostics_disabled: false,
        version: false,
    }
}

fn decimal(n: usize) -> String {
    let mut text = String::new();
    push_decimal(&mut text, n);
    text
}

#[test]
fn numbers_are_written_in_decimal() {
    assert_eq!(decimal(0), "0");
    assert_eq!(decimal(7), "7");
    assert_eq!(decimal(10), "10");
    assert_eq!(decimal(1234567890), "1234567890");
    assert_eq!(decimal(usize::MAX), usize::MAX.to_string());
    let mut text = "x".to_string();
    push_spaces(&mut text, 3);
    push_decimal(&mut text, 42);
    assert_eq!(text, "x   42");
}

#[test]
fn arguments_show_how_they_are_given() {
    assert_eq!(CommandInput::new_required("db", InputReader::Word, None).usage(), "db");
    assert_eq!(CommandInput::new_optional("hash", InputReader::Word, None).usage(), "[optional] hash");
    assert_eq!(
        CommandInput::new_hidden("password", InputReader::Word, None).usage(),
        "password (enter in hidden input)"
    );
}

#[test]
fn usage_lines_carry_the_tokens_of_their_groups() {
    let inner = Subcommand::new("create")
        .add(Command::Leaf(CommandLeaf::new_with_inputs(
            "user",
            "Create a user.",
            vec![
                CommandInput::new_required("name", InputReader::Word, None),
                CommandInput::new_hidden("password", InputReader::Word, None),
                CommandInput::new_optional("role", InputReader::Word, None),
            ],
            Operation::UserCreate,
        )))
        .add(Command::Leaf(CommandLeaf::new("db", "Create a database.", Operation::DatabaseCreate)));
    let root = Subcommand::new("").add(Command::Group(inner));
    let entries = root.usage_description();
    let shown: Vec<(String, &str)> =
        entries.iter().map(|entry| (entry.usage.clone(), entry.description)).collect();
    assert_eq!(
        shown,
        vec![
            ("create db".to_string(), "Create a database."),
            (
                "create user <name> <password (enter in hidden input)> <[optional] role>".to_string(),
                "Create a user."
            ),
        ]
    );
}

#[test]
fn the_help_menu_aligns_short_entries() {
    let long = "x".repeat(95);
    let entries = vec![
        UsageEntry { usage: "exit".to_string(), description: "Exit" },
        UsageEntry { usage: "database list".to_string(), description: "List databases." },
        UsageEntry { usage: long.clone(), description: "Too long to fit." },
        UsageEntry { usage: "help".to_string(), description: "Print help menu" },
    ];
    let expected = format!(
        "exit             Exit\ndatabase list    List databases.\n{}\n    Too long to fit.\nhelp             Print help menu",
        long
    );
    assert_eq!(format_help(&entries), expected);
    assert_eq!(format_help(&Vec::new()), "");
    let only_long = vec![UsageEntry { usage: long.clone(), description: "12345" }];
    assert_eq!(format_help(&only_long), format!("{}\n    12345", long));
    let just_fits = vec![UsageEntry { usage: long.clone(), description: "1234" }];
    assert_eq!(format_help(&just_fits), format!("{}    1234", long));
}

#[test]
fn the_entry_session_explains_itself() {
    let help = entry_repl("history".to_string()).help();
    let lines: Vec<&str> = help.lines().collect();
    let inline = |usage: &str, description: &str| format!("{:<70}{}", usage, description);
    assert_eq!(lines[0], inline("clear", "Clear the console."));
    assert_eq!(lines[1], inline("database create <db>", "Create a new database with the given name."));
    assert!(lines.contains(&inline("transaction schema <db>", "Open schema transaction.").as_str()));
    assert!(lines.contains(&inline("database list", "List databases on the server.").as_str()));
    assert!(lines.contains(
        &inline(
            "user update-password <name> <new password (enter in hidden input)>",
            "Set existing user's password."
        )
        .as_str()
    ));
    assert!(lines.contains(&"database export <db> <schema file path> <data file path>"));
    assert!(lines.contains(&"    Export a database into a schema definition and a data files."));
    assert!(lines.contains(&inline("exit", "Exit").as_str()));
    assert_eq!(
        lines.last(),
        Some(
            &inline(
                "user update-password <name> <new password (enter in hidden input)>",
                "Set existing user's password."
            )
            .as_str()
        )
    );
}

#[test]
fn a_new_frame_lists_its_commands_by_token() {
    let repl = Repl::new(">> ".to_string(), "h".to_string(), false, None);
    assert_eq!(
        repl.help(),
        "clear    Clear the console.\nexit     Exit\nhelp     Print help menu"
    );
}

#[test]
fn the_arguments_decide_the_mode() {
    assert_eq!(args().run_mode(), Ok(RunMode::Interactive));
    let mut with = args();
    with.command = vec!["database list".to_string()];
    assert_eq!(with.run_mode(), Ok(RunMode::Commands));
    with.script = vec!["file".to_string()];
    assert_eq!(with.run_mode(), Err(UsageError::CommandsAndScripts));
    with.command.clear();
    assert_eq!(with.run_mode(), Ok(RunMode::Scripts));
    with.version = true;
    with.address = None;
    assert_eq!(with.run_mode(), Ok(RunMode::PrintVersion));
}

#[test]
fn unusable_arguments_are_told_apart() {
    let mut no_address = args();
    no_address.address = None;
    no_address.username = None;
    assert_eq!(no_address.run_mode(), Err(UsageError::MissingAddress));
    let mut no_username = args();
    no_username.username = None;
    no_username.address = Some("localhost:1729".to_string());
    assert_eq!(no_username.run_mode(), Err(UsageError::MissingUsername));
    let mut plain = args();
    plain.address = Some("localhost:1729".to_string());
    assert_eq!(plain.run_mode(), Err(UsageError::TlsNeedsHttps));
    plain.address = Some("http://localhost:1729".to_string());
    assert_eq!(plain.run_mode(), Err(UsageError::TlsNeedsHttps));
    plain.tls_disabled = true;
    assert_eq!(plain.run_mode(), Ok(RunMode::Interactive));
    plain.address = Some("https:".to_string());
    plain.tls_disabled = false;
    assert_eq!(plain.run_mode(), Ok(RunMode::Interactive));
}

#[test]
fn exit_codes_are_stable() {
    assert_eq!(ExitCode::Success.code(), 0);
    assert_eq!(ExitCode::GeneralError.code(), 1);
    assert_eq!(ExitCode::CommandError.code(), 2);
    assert_eq!(ExitCode::ConnectionError.code(), 3);
    assert_eq!(ExitCode::UserInputError.code(), 4);
    assert_eq!(ExitCode::QueryError.code(), 5);
    assert_eq!(ErrorKind::Repl.exit_code(), ExitCode::UserInputError);
    assert_eq!(ErrorKind::Io.exit_code(), ExitCode::GeneralError);
    assert_eq!(ErrorKind::Driver.exit_code(), ExitCode::QueryError);
    assert_eq!(ErrorKind::Command.exit_code(), ExitCode::CommandError);
    assert_eq!(ErrorKind::Other.exit_code(), ExitCode::GeneralError);
    assert_eq!(ErrorKind::Repl.label(), "Error: ");
    assert_eq!(ErrorKind::Io.label(), "I/O Error: ");
    assert_eq!(ErrorKind::Driver.label(), "TypeDB Error: ");
    assert_eq!(ErrorKind::Command.label(), "Command Error: ");
    assert_eq!(ErrorKind::Other.label(), "Error: ");
}

#[test]
fn an_hour_has_its_seconds() {
    assert_eq!(SECONDS_IN_HOUR, SECONDS_IN_MINUTE * MINUTES_IN_HOUR);
    assert_eq!(DEFAULT_TRANSACTION_TIMEOUT_SECONDS, 3600);
}

#[test]
fn the_arrows_walk_or_search_the_history() {
    assert_eq!(on_interrupt(true), EditorCommand::Interrupt);
    assert_eq!(on_interrupt(false), EditorCommand::ClearLine);
    assert_eq!(
        on_arrow(SearchMode::Normal, true, false),
        (SearchMode::InNormalHistory, EditorCommand::PreviousHistory)
    );
    assert_eq!(
        on_arrow(SearchMode::InCompletion, true, true),
        (SearchMode::InNormalHistory, EditorCommand::NextHistory)
    );
    assert_eq!(
        on_arrow(SearchMode::Normal, false, false),
        (SearchMode::InCompletion, EditorCommand::HistorySearchBackward)
    );
    assert_eq!(
        on_arrow(SearchMode::InCompletion, false, true),
        (SearchMode::InCompletion, EditorCommand::HistorySearchForward)
    );
    assert_eq!(
        on_arrow(SearchMode::InNormalHistory, false, true),
        (SearchMode::InNormalHistory, EditorCommand::NextHistory)
    );
    assert_eq!(
        on_arrow(SearchMode::InNormalHistory, false, false),
        (SearchMode::InNormalHistory, EditorCommand::PreviousHistory)
    );
    assert_eq!(mode_after_keys(SearchMode::InCompletion, true), SearchMode::InCompletion);
    assert_eq!(mode_after_keys(SearchMode::InCompletion, false), SearchMode::Normal);
    assert_eq!(mode_after_keys(SearchMode::InNormalHistory, false), SearchMode::Normal);
}

#[test]
fn names_of_kinds_are_lower_case() {
    assert_eq!(transaction_type_str(TransactionType::Read), "read");
    assert_eq!(transaction_type_str(TransactionType::Write), "write");
    assert_eq!(transaction_type_str(TransactionType::Schema), "schema");
    assert_eq!(query_type_str(QueryType::Read), "read");
    assert_eq!(query_type_str(QueryType::Write), "write");
    assert_eq!(query_type_str(QueryType::Schema), "schema");
    assert!(!is_write_query(QueryType::Read));
    assert!(is_write_query(QueryType::Write));
    assert!(is_write_query(QueryType::Schema));
    assert!(answer_wrote(QueryType::Write, true, true));
    assert!(!answer_wrote(QueryType::Schema, true, true));
    assert!(!answer_wrote(QueryType::Read, true, true));
    assert!(answer_wrote(QueryType::Schema, false, true));
    assert!(answer_wrote(QueryType::Schema, true, false));
    assert!(answer_wrote(QueryType::Write, false, false));
    assert!(!answer_wrote(QueryType::Read, false, false));
    assert!(!answer_wrote(QueryType::Read, true, false));
}

#[test]
fn queries_report_their_progress() {
    assert_eq!(query_finished_message(QueryType::Schema), "Finished schema query.");
    assert_eq!(
        query_compiled_message(QueryType::Read),
        "Finished read query validation and compilation..."
    );
    assert_eq!(streaming_message(QueryType::Write, false), "Finished writes. Streaming rows...");
    assert_eq!(streaming_message(QueryType::Write, true), "Finished writes. Streaming rows...");
    assert_eq!(streaming_message(QueryType::Read, false), "Streaming rows...");
    assert_eq!(streaming_message(QueryType::Schema, true), "Streaming documents...");
    assert_eq!(answer_count_message(0), "Finished. Total answers: 0");
    assert_eq!(answer_count_message(305), "Finished. Total answers: 305");
    assert_eq!(transaction_closed_message(TransactionType::Read), "Transaction closed");
    assert_eq!(
        transaction_closed_message(TransactionType::Write),
        "Transaction closed without committing changes."
    );
    assert_eq!(
        transaction_closed_message(TransactionType::Schema),
        "Transaction closed without committing changes."
    );
}

#[test]
fn labels_and_keywords_are_coloured() {
    assert_eq!(format_type("person"), "\x1b[95mperson\x1b[0m");
    assert_eq!(format_keyword("isa"), "\x1b[94misa\x1b[0m");
    assert_eq!(format_isa("person"), "\x1b[94misa\x1b[0m \x1b[95mperson\x1b[0m");
    assert_eq!(format_iid("0x1e00"), "\x1b[94miid\x1b[0m 0x1e00");
}

#[test]
fn every_line_is_indented() {
    assert_eq!(indent("  ", "a\nb"), "  a\n  b");
    assert_eq!(indent("> ", ""), "> ");
    assert_eq!(indent("> ", "a\n"), "> a\n> ");
    assert_eq!(indent("", "a\n\nb"), "a\n\nb");
    assert_eq!(indent("--", "\n"), "--\n--");
    assert_eq!(line_dash_separator(0), "   -------");
    assert_eq!(line_dash_separator(3), "   ----------");
}

#[test]
fn concepts_show_their_type_and_identity() {
    assert_eq!(concept_display_string(None), "");
    let entity_type = Concept::EntityType { label: "person".to_string() };
    assert_eq!(concept_display_string(Some(&entity_type)), "\x1b[95mperson\x1b[0m");
    let role_type = Concept::RoleType { label: "friendship:friend".to_string() };
    assert_eq!(concept_display_string(Some(&role_type)), "\x1b[95mfriendship:friend\x1b[0m");
    let entity = Concept::Entity { type_label: Some("person".to_string()), iid: "0x1e".to_string() };
    assert_eq!(
        concept_display_string(Some(&entity)),
        "\x1b[94misa\x1b[0m \x1b[95mperson\x1b[0m, \x1b[94miid\x1b[0m 0x1e"
    );
    let relation = Concept::Relation { type_label: None, iid: "0x2f".to_string() };
    assert_eq!(concept_display_string(Some(&relation)), ", \x1b[94miid\x1b[0m 0x2f");
    let attribute =
        Concept::Attribute { type_label: Some("name".to_string()), value: "\"Ann\"".to_string() };
    assert_eq!(
        concept_display_string(Some(&attribute)),
        "\x1b[94misa\x1b[0m \x1b[95mname\x1b[0m \"Ann\""
    );
    assert_eq!(concept_display_string(Some(&Concept::Value("12".to_string()))), "12");
    let relation_type = Concept::RelationType { label: "r".to_string() };
    assert_eq!(concept_display_string(Some(&relation_type)), "\x1b[95mr\x1b[0m");
    let attribute_type = Concept::AttributeType { label: "a".to_string() };
    assert_eq!(concept_display_string(Some(&attribute_type)), "\x1b[95ma\x1b[0m");
}

#[test]
fn a_row_is_a_table_of_its_variables() {
    let row = vec![
        Column { name: "x".to_string(), concept: Some(Concept::Value("1".to_string())) },
        Column { name: "name".to_string(), concept: None },
        Column { name: "ab".to_string(), concept: Some(Concept::Value("two\nlines".to_string())) },
    ];
    let width = variable_column_width(&row);
    assert_eq!(width, 4);
    assert_eq!(
        concept_row_display_string(&row, width),
        "    $x    | 1\n    $name | \n    $ab   | two\n    lines\n   -----------"
    );
    let empty: Vec<Column> = Vec::new();
    assert_eq!(variable_column_width(&empty), 0);
    assert_eq!(concept_row_display_string(&empty, 0), "    \n   -------");
}

#[test]
fn documents_are_pretty_printed() {
    assert_eq!(
        document_display_string("{\"name\":\"Ann\",\"age\":[1,2]}"),
        "{\n  \"age\": [\n    1,\n    2\n  ],\n  \"name\": \"Ann\"\n}"
    );
    assert_eq!(document_display_string("[]"), "[]");
    assert_eq!(document_display_string(" 12 "), "12");
    let broken = document_display_string("{\"name\":");
    assert!(broken.starts_with("Error trying to parse JSON: "), "{}", broken);
    assert!(broken.len() > "Error trying to parse JSON: ".len());
}

#[test]
fn failures_of_pretty_printing_are_worded() {
    assert_eq!(document_text_of(Ok("{}".to_string())), "{}");
    assert_eq!(
        document_text_of(Err(JsonFailure::Parse("eof".to_string()))),
        "Error trying to parse JSON: eof"
    );
    assert_eq!(
        document_text_of(Err(JsonFailure::Print("bad key".to_string()))),
        "Error trying to pretty-print JSON: bad key"
    );
}

#[test]
fn styles_wrap_text_in_escape_codes() {
    assert_eq!(format_colored(TextStyle::plain(), "x"), "x");
    assert_eq!(format_colored(TextStyle::red(), "x"), "\x1b[31mx\x1b[0m");
    assert_eq!(format_colored(TextStyle::green(), "ok"), "\x1b[32mok\x1b[0m");
    assert_eq!(format_colored(TextStyle { color: None, bold: true }, "b"), "\x1b[1mb\x1b[0m");
    assert_eq!(TextStyle::error(), TextStyle { color: Some(TextColor::Red), bold: true });
    assert_eq!(TextStyle::warning(), TextStyle { color: Some(TextColor::Yellow), bold: true });
    assert_eq!(TextStyle::argument(), TextStyle { color: Some(TextColor::Yellow), bold: false });
    assert_eq!(format_error("bad"), "\x1b[1m\x1b[31mbad\x1b[0m");
    assert_eq!(format_warning("hm"), "\x1b[1m\x1b[33mhm\x1b[0m");
    assert_eq!(format_argument("--x"), "\x1b[33m--x\x1b[0m");
    assert_eq!(error_line("no such file"), "\x1b[1m\x1b[31merror:\x1b[0m no such file");
}

fn replica(id: u64, address: Option<&str>, role: Option<ReplicaRole>, term: Option<u64>, available: bool) -> ServerReplica {
    ServerReplica { id, address: address.map(|a| a.to_string()), role, term, available }
}

#[test]
fn a_replica_is_a_row_of_texts() {
    let row = replica_row(&replica(3, Some("host:1729"), Some(ReplicaRole::Candidate), Some(40), true));
    assert_eq!(row.cells, vec!["3", "host:1729", "candidate", "40", "available"]);
    assert_eq!(row.status_style, TextStyle::green());
    let unknown = replica_row(&replica(0, None, None, None, false));
    assert_eq!(unknown.cells, vec!["0", "", "", "", "unavailable"]);
    assert_eq!(unknown.status_style, TextStyle::red());
    let header = header_row();
    assert_eq!(header.cells, vec!["id", "address", "role", "term", "status"]);
    assert_eq!(header.status_style, TextStyle::plain());
    assert_eq!(role_str(Some(ReplicaRole::Primary)), "primary");
    assert_eq!(role_str(Some(ReplicaRole::Secondary)), "secondary");
    assert_eq!(role_str(None), "");
}

#[test]
fn replicas_are_tabled_in_the_order_of_their_ids() {
    let rows = replica_rows(vec![
        replica(2, Some("localhost:2729"), Some(ReplicaRole::Secondary), Some(7), true),
        replica(1, None, None, None, false),
        replica(10, Some("h:1"), Some(ReplicaRole::Primary), Some(12), true),
    ]);
    let ids: Vec<&str> = rows.iter().map(|row| row.cells[0].as_str()).collect();
    assert_eq!(ids, vec!["id", "1", "2", "10"]);
    assert!(table_fits(&rows));
    let lines = replicas_table(&rows);
    let plain = |id: &str, address: &str, role: &str, term: &str| {
        format!(" {:<2} | {:<14} | {:<9} | {:<4} |", id, address, role, term)
    };
    assert_eq!(
        lines,
        vec![
            format!("{} status      ", plain("id", "address", "role", "term")),
            "-".repeat(54),
            format!("{} \x1b[31munavailable\x1b[0m ", plain("1", "", "", "")),
            format!("{} \x1b[32mavailable\x1b[0m   ", plain("2", "localhost:2729", "secondary", "7")),
            format!("{} \x1b[32mavailable\x1b[0m   ", plain("10", "h:1", "primary", "12")),
        ]
    );
}

#[test]
fn a_table_needs_five_cells_in_every_row() {
    assert!(table_fits(&Vec::new()));
    assert!(replicas_table(&Vec::new()).is_empty());
    let short = vec![Row { cells: vec!["a".to_string()], status_style: TextStyle::plain() }];
    assert!(!table_fits(&short));
    let only_header = vec![header_row()];
    assert!(table_fits(&only_header));
    assert_eq!(
        replicas_table(&only_header),
        vec![" id | address | role | term | status ".to_string(), "-".repeat(37)]
    );
}
