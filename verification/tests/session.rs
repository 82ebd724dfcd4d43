use typedb_console::command::Operation;
use typedb_console::console::{entry_repl, transaction_prompt, transaction_repl, PROMPT};
use typedb_console::execute::{
    echo_line, executed_queries_message, execution_error_message, script_input,
    sourced_file_error_message, split_statements, unrecognised_command_message, CommandBatch, Step,
};
use typedb_console::repl::{FinishHook, Repl};
use typedb_console::session::{
    end_of_input, Console, SessionEvent, TransactionState, TransactionType,
};

fn console() -> Console {
    Console::new(entry_repl("history".to_string()), "/work".to_string())
}

fn open(console: &mut Console, type_: TransactionType) {
    let frame = transaction_repl("db", type_, "history".to_string());
    assert_eq!(console.apply(SessionEvent::Opened { frame, type_ }), None);
}

fn strings(items: &[&str]) -> Vec<String> {
    items.iter().map(|item| item.to_string()).collect()
}

#[test]
fn a_console_starts_with_its_entry_session() {
    let console = console();
    assert_eq!(console.depth(), 1);
    assert_eq!(console.current_repl().unwrap().prompt, PROMPT);
    assert!(!console.has_changes());
    assert_eq!(console.transaction, None);
    assert_eq!(console.base_dir(), "/work");
}

#[test]
fn opening_a_transaction_enters_a_session() {
    let mut console = console();
    open(&mut console, TransactionType::Write);
    assert_eq!(console.depth(), 2);
    assert_eq!(console.current_repl().unwrap().prompt, "db::write>> ");
    assert!(console.current_repl().unwrap().multiline_input);
    assert_eq!(
        console.transaction,
        Some(TransactionState { type_: TransactionType::Write, has_writes: false })
    );
    assert_eq!(transaction_prompt("data", TransactionType::Schema), "data::schema>> ");
    assert_eq!(transaction_prompt("", TransactionType::Read), "::read>> ");
}

#[test]
fn a_write_marks_the_transaction_and_the_prompt() {
    let mut console = console();
    open(&mut console, TransactionType::Write);
    assert_eq!(console.apply(SessionEvent::Queried { wrote: false, still_open: true }), None);
    assert!(!console.has_changes());
    assert_eq!(console.apply(SessionEvent::Queried { wrote: true, still_open: true }), None);
    assert!(console.has_changes());
    assert_eq!(console.apply(SessionEvent::Queried { wrote: false, still_open: true }), None);
    assert!(console.has_changes());
    assert_eq!(console.depth(), 2);
    let repl = console.current_repl().unwrap();
    assert_eq!(repl.prompt_for(console.has_changes()), "*db::write>> ");
    assert_eq!(repl.prompt_for(false), "db::write>> ");
}

#[test]
fn commit_and_close_leave_the_session() {
    for event in [
        SessionEvent::Committed { succeeded: true },
        SessionEvent::Committed { succeeded: false },
        SessionEvent::Closed,
    ] {
        let mut console = console();
        open(&mut console, TransactionType::Write);
        console.apply(SessionEvent::Queried { wrote: true, still_open: true });
        assert_eq!(console.apply(event), Some(FinishHook::DropTransaction));
        assert_eq!(console.depth(), 1);
        assert_eq!(console.transaction, None);
        assert!(!console.has_changes());
    }
}

#[test]
fn a_rollback_keeps_the_session_unless_it_fails() {
    let mut console = console();
    open(&mut console, TransactionType::Write);
    console.apply(SessionEvent::Queried { wrote: true, still_open: true });
    assert_eq!(console.apply(SessionEvent::RolledBack { succeeded: true }), None);
    assert_eq!(console.depth(), 2);
    assert_eq!(
        console.transaction,
        Some(TransactionState { type_: TransactionType::Write, has_writes: true })
    );
    assert_eq!(
        console.apply(SessionEvent::RolledBack { succeeded: false }),
        Some(FinishHook::DropTransaction)
    );
    assert_eq!(console.depth(), 1);
    assert_eq!(console.transaction, None);
}

#[test]
fn a_query_that_closes_the_transaction_leaves_the_session() {
    let mut console = console();
    open(&mut console, TransactionType::Read);
    assert_eq!(
        console.apply(SessionEvent::Queried { wrote: false, still_open: false }),
        Some(FinishHook::DropTransaction)
    );
    assert_eq!(console.depth(), 1);
    assert_eq!(console.transaction, None);
}

#[test]
fn an_interrupt_on_a_line_that_was_not_empty_does_not_leave() {
    let mut console = console();
    open(&mut console, TransactionType::Read);
    assert_eq!(console.apply(end_of_input(Some(false))), None);
    assert_eq!(console.depth(), 2);
    assert_eq!(console.apply(end_of_input(Some(true))), Some(FinishHook::DropTransaction));
    assert_eq!(console.depth(), 1);
    assert_eq!(console.apply(end_of_input(None)), None);
    assert_eq!(console.depth(), 0);
}

#[test]
fn errors_leave_the_stack_alone() {
    let mut console = console();
    assert_eq!(console.apply(SessionEvent::Failed), None);
    assert_eq!(console.depth(), 1);
    open(&mut console, TransactionType::Schema);
    console.apply(SessionEvent::Queried { wrote: true, still_open: true });
    assert_eq!(console.apply(SessionEvent::Failed), None);
    assert_eq!(console.depth(), 2);
    assert!(console.has_changes());
    assert_eq!(console.apply(SessionEvent::EndOfInput { leave: false }), None);
    assert_eq!(console.depth(), 2);
}

#[test]
fn the_end_of_input_leaves_one_session_at_a_time() {
    let mut console = console();
    open(&mut console, TransactionType::Write);
    console.apply(SessionEvent::Queried { wrote: true, still_open: true });
    assert_eq!(
        console.apply(SessionEvent::EndOfInput { leave: true }),
        Some(FinishHook::DropTransaction)
    );
    assert_eq!(console.depth(), 1);
    assert_eq!(console.transaction, None);
    assert_eq!(console.apply(SessionEvent::EndOfInput { leave: true }), None);
    assert_eq!(console.depth(), 0);
    assert!(console.current_repl().is_none());
    assert_eq!(console.apply(SessionEvent::EndOfInput { leave: true }), None);
    assert_eq!(console.depth(), 0);
}

#[test]
fn the_entry_session_outlives_transaction_events() {
    for event in [
        SessionEvent::Committed { succeeded: true },
        SessionEvent::Closed,
        SessionEvent::RolledBack { succeeded: false },
        SessionEvent::Queried { wrote: true, still_open: false },
    ] {
        let mut console = console();
        assert_eq!(console.apply(event), None);
        assert_eq!(console.depth(), 1);
        assert_eq!(console.transaction, None);
    }
}

#[test]
fn a_frame_has_the_built_in_commands() {
    let repl = Repl::new("> ".to_string(), "file".to_string(), true, None);
    assert_eq!(repl.prompt, "> ");
    assert_eq!(repl.history_file, "file");
    assert!(repl.multiline_input);
    assert_eq!(repl.finished(), None);
    let tokens: Vec<String> =
        repl.commands.subcommands.iter().map(|command| command.token().to_string()).collect();
    assert_eq!(tokens, vec!["clear", "help", "exit"]);
    let input: Vec<char> = "help".chars().collect();
    let found = repl.match_first_command(&input, false).unwrap().unwrap();
    assert_eq!(found.command.executor, Operation::Help);
    let hooked = Repl::new(String::new(), String::new(), false, Some(FinishHook::DropTransaction));
    assert_eq!(hooked.finished(), Some(FinishHook::DropTransaction));
}

#[test]
fn multiline_input_is_accepted_once_complete() {
    let entry = entry_repl("history".to_string());
    assert!(entry.accepts("anything at all"));
    let transaction = transaction_repl("db", TransactionType::Read, "history".to_string());
    assert!(transaction.accepts("commit"));
    assert!(transaction.accepts("help"));
    assert!(!transaction.accepts("match $x isa person;"));
    assert!(transaction.accepts("match $x isa person;\n"));
    assert!(transaction.accepts("match $x isa person; end;"));
    assert!(!transaction.accepts("match $x isa person;\n\nmatch $y isa"));
    assert!(transaction.accepts("source file.tql"));
    assert!(!transaction.accepts("source"));
    assert!(!transaction.accepts(""));
}

#[test]
fn a_buffer_is_executed_command_by_command() {
    let console = console();
    let mut batch = CommandBatch::new("  database list\ndatabase create foo  \n user list");
    match batch.next(&console, false, false) {
        Step::Run { command, arguments, text, echo } => {
            assert_eq!(command.executor, Operation::DatabaseList);
            assert!(arguments.is_empty());
            assert_eq!(text, "database list");
            assert!(echo);
        }
        other => panic!("unexpected step: {:?}", other),
    }
    match batch.next(&console, false, false) {
        Step::Run { command, text, echo, .. } => {
            assert_eq!(command.executor, Operation::DatabaseCreate);
            assert_eq!(text, "database create foo");
            assert!(echo);
        }
        other => panic!("unexpected step: {:?}", other),
    }
    match batch.next(&console, false, false) {
        Step::Run { command, text, echo, .. } => {
            assert_eq!(command.executor, Operation::UserList);
            assert_eq!(text, "user list");
            assert!(echo);
        }
        other => panic!("unexpected step: {:?}", other),
    }
    assert!(matches!(batch.next(&console, false, false), Step::Done));
    assert!(matches!(batch.next(&console, false, false), Step::Done));
}

#[test]
fn a_single_command_is_echoed_only_on_request() {
    let console = console();
    let mut quiet = CommandBatch::new("database list\n");
    assert!(matches!(quiet.next(&console, false, false), Step::Run { echo: false, .. }));
    assert!(matches!(quiet.next(&console, false, false), Step::Done));
    let mut logged = CommandBatch::new("database list\n");
    assert!(matches!(logged.next(&console, true, true), Step::Run { echo: true, .. }));
    let mut blank = CommandBatch::new(" \n ");
    assert!(matches!(blank.next(&console, false, true), Step::Done));
}

#[test]
fn malformed_commands_stop_the_batch() {
    let console = console();
    let mut unknown = CommandBatch::new("database drop foo");
    match unknown.next(&console, false, false) {
        Step::Rejected(error) => assert_eq!(
            error.message(),
            "Unrecognised 'database' subcommand: 'drop foo', please type 'help' to see the help menu."
        ),
        other => panic!("unexpected step: {:?}", other),
    }
    match unknown.next(&console, false, false) {
        Step::Rejected(_) => {}
        other => panic!("unexpected step: {:?}", other),
    }
    let mut empty = Console::new(entry_repl(String::new()), String::new());
    empty.apply(SessionEvent::EndOfInput { leave: true });
    let mut batch = CommandBatch::new("database list");
    assert!(matches!(batch.next(&empty, false, false), Step::Done));
}

#[test]
fn the_current_session_resolves_the_next_command() {
    let mut console = console();
    let mut batch = CommandBatch::new("transaction write db\ninsert $x isa person;\n\ncommit");
    match batch.next(&console, false, true) {
        Step::Run { command, text, .. } => {
            assert_eq!(command.executor, Operation::TransactionWrite);
            assert_eq!(text, "transaction write db");
        }
        other => panic!("unexpected step: {:?}", other),
    }
    open(&mut console, TransactionType::Write);
    match batch.next(&console, false, true) {
        Step::Run { command, text, .. } => {
            assert_eq!(command.executor, Operation::TransactionQuery);
            assert_eq!(text, "insert $x isa person;");
        }
        other => panic!("unexpected step: {:?}", other),
    }
    match batch.next(&console, false, true) {
        Step::Run { command, text, .. } => {
            assert_eq!(command.executor, Operation::TransactionCommit);
            assert_eq!(text, "commit");
        }
        other => panic!("unexpected step: {:?}", other),
    }
    console.apply(SessionEvent::Committed { succeeded: true });
    assert!(matches!(batch.next(&console, false, true), Step::Done));
}

#[test]
fn messages_have_their_wording() {
    assert_eq!(echo_line(1, "database list"), "+ database list");
    assert_eq!(echo_line(3, "commit"), "+++ commit");
    assert_eq!(echo_line(0, ""), " ");
    assert_eq!(unrecognised_command_message("foo bar"), "Unrecognised command: foo bar");
    assert_eq!(
        execution_error_message("commit", "boom"),
        "**Error executing command**\ncommit\n--> Error\nboom"
    );
    assert_eq!(
        sourced_file_error_message("boom", "data.tql", 12, "match $x;"),
        "boom\n### Stopped executing sourced file 'data.tql' at query 12: match $x;"
    );
    assert_eq!(executed_queries_message(0), "Successfully executed 0 queries.");
    assert_eq!(executed_queries_message(2026), "Successfully executed 2026 queries.");
}

#[test]
fn the_lines_of_a_script_are_joined() {
    assert_eq!(script_input(&strings(&["a", "", "b c"])), "\na\n\nb c");
    assert_eq!(script_input(&Vec::new()), "");
    assert_eq!(script_input(&strings(&[""])), "\n");
}

#[test]
fn a_sourced_file_is_cut_at_its_blank_lines() {
    let two = split_statements("insert $x isa person;\n\ninsert $y isa person;\n\n");
    assert_eq!(two.complete, strings(&["insert $x isa person;\n\n", "insert $y isa person;\n\n"]));
    assert_eq!(two.trailing, None);
    let three = split_statements("insert $x isa person;\n\ninsert $y isa person;\n\ninsert $z isa person;");
    assert_eq!(three.complete.len(), 2);
    assert_eq!(three.trailing, Some("insert $z isa person;".to_string()));
    let separated_once = split_statements("match $x isa a;\n\nmatch $y isa b;\n");
    assert_eq!(separated_once.complete, strings(&["match $x isa a;\n\n"]));
    assert_eq!(separated_once.trailing, Some("match $y isa b;\n".to_string()));
    let none = split_statements("");
    assert!(none.complete.is_empty());
    assert_eq!(none.trailing, None);
    let lines = split_statements("match\n$x isa a;\nlimit 1;\n \t\nrest");
    assert_eq!(lines.complete, strings(&["match\n$x isa a;\nlimit 1;\n \t\n"]));
    assert_eq!(lines.trailing, Some("rest".to_string()));
}

#[test]
fn a_sourced_file_reports_its_count_or_its_first_failure() {
    let two = split_statements("insert $x isa person;\n\ninsert $y isa person;\n\n");
    assert_eq!(two.count(), 2);
    assert_eq!(two.report("f.tql", None), Ok("Successfully executed 2 queries.".to_string()));
    let three = split_statements("a;\n\nb;\n\nc;");
    assert_eq!(three.count(), 3);
    assert_eq!(three.get(0), Some(&"a;\n\n".to_string()));
    assert_eq!(three.get(2), Some(&"c;".to_string()));
    assert_eq!(three.get(3), None);
    assert!(three.is_logged(0));
    assert!(three.is_logged(1));
    assert!(!three.is_logged(2));
    assert_eq!(three.report("f.tql", None), Ok("Successfully executed 3 queries.".to_string()));
    assert_eq!(
        three.report("f.tql", Some((2, "boom".to_string()))),
        Err("boom\n### Stopped executing sourced file 'f.tql' at query 3: c;".to_string())
    );
    assert_eq!(
        three.report("f.tql", Some((0, "bad".to_string()))),
        Err("bad\n### Stopped executing sourced file 'f.tql' at query 1: a;\n\n".to_string())
    );
    let none = split_statements("");
    assert_eq!(none.count(), 0);
    assert_eq!(none.get(0), None);
    assert_eq!(none.report("f", None), Ok("Successfully executed 0 queries.".to_string()));
}

#[test]
fn cutting_gives_back_what_was_joined() {
    let statements = ["match $x isa a;", "insert\n$y isa b;", "define entity c;"];
    let mut buffer = String::new();
    for statement in statements {
        buffer.push_str(statement);
        buffer.push_str("\n\n");
    }
    let cut = split_statements(&buffer);
    let expected: Vec<String> = statements.iter().map(|s| format!("{}\n\n", s)).collect();
    assert_eq!(cut.complete, expected);
    assert_eq!(cut.trailing, None);
}
