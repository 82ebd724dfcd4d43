use typedb_console::command::{
    Command, CommandInput, CommandLeaf, Completer, InputReader, Operation, Subcommand,
};
use typedb_console::completion::{
    candidates, count_words, filter_completions, filter_prefix, highlight_hint, hint_for,
    without_partial, CandidateSource, Completion,
};
use typedb_console::completion_cache::CompletionCache;
use typedb_console::console::{entry_repl, transaction_repl};
use typedb_console::session::TransactionType;

fn chars(text: &str) -> Vec<char> {
    text.chars().collect()
}

fn strings(items: &[&str]) -> Vec<String> {
    items.iter().map(|item| item.to_string()).collect()
}

fn shown(completions: &[Completion]) -> Vec<String> {
    completions
        .iter()
        .map(|completion| match &completion.source {
            CandidateSource::Token(text) => format!("{}<-{}", text, completion.partial),
            CandidateSource::Provider(completer) => format!("{:?}({})", completer, completion.partial),
        })
        .collect()
}

fn complete(commands: &Subcommand, line: &str) -> Vec<String> {
    shown(&commands.compute_completions(&chars(line)))
}

#[test]
fn words_are_counted_and_the_last_one_found() {
    assert_eq!(count_words(&chars("")), (0, 0));
    assert_eq!(count_words(&chars("   ")), (0, 3));
    assert_eq!(count_words(&chars("ab")), (1, 0));
    assert_eq!(count_words(&chars(" ab  cd")), (2, 5));
    assert_eq!(count_words(&chars("ab cd ")), (2, 6));
    assert_eq!(count_words(&chars("a\tb\nc")), (3, 4));
}

#[test]
fn a_partial_token_is_completed() {
    let repl = entry_repl("history".to_string());
    assert_eq!(complete(&repl.commands, "data"), vec!["database<-data"]);
    assert_eq!(complete(&repl.commands, "  us"), vec!["user<-us"]);
    assert_eq!(complete(&repl.commands, "database cr"), vec!["create<-cr", "create-init<-cr"]);
    assert_eq!(complete(&repl.commands, "transaction   s"), vec!["schema<-s"]);
    assert_eq!(complete(&repl.commands, "e"), vec!["exit<-e"]);
    assert_eq!(complete(&repl.commands, "xyz"), Vec::<String>::new());
}

#[test]
fn all_subcommands_contribute() {
    let repl = entry_repl("history".to_string());
    assert_eq!(
        complete(&repl.commands, ""),
        vec!["clear<-", "database<-", "exit<-", "help<-", "transaction<-", "user<-"]
    );
    assert_eq!(
        complete(&repl.commands, "transaction"),
        vec!["read<-", "schema<-", "write<-"]
    );
}

#[test]
fn nothing_is_offered_after_trailing_whitespace() {
    let repl = entry_repl("history".to_string());
    assert_eq!(complete(&repl.commands, "database "), Vec::<String>::new());
    assert_eq!(complete(&repl.commands, "data "), Vec::<String>::new());
    assert_eq!(complete(&repl.commands, " "), Vec::<String>::new());
}

#[test]
fn nothing_is_offered_when_the_token_runs_on() {
    let repl = entry_repl("history".to_string());
    assert_eq!(complete(&repl.commands, "databasecr"), Vec::<String>::new());
}

#[test]
fn an_argument_is_completed_by_its_provider() {
    let repl = entry_repl("history".to_string());
    assert_eq!(complete(&repl.commands, "database delete fo"), vec!["DatabaseNames(fo)"]);
    assert_eq!(complete(&repl.commands, "transaction read d"), vec!["DatabaseNames(d)"]);
    assert_eq!(complete(&repl.commands, "database export db sch"), Vec::<String>::new());
    assert_eq!(complete(&repl.commands, "database delete a b"), Vec::<String>::new());
    assert_eq!(complete(&repl.commands, "database create fo"), Vec::<String>::new());
    let transaction = transaction_repl("db", TransactionType::Read, "history".to_string());
    assert_eq!(complete(&transaction.commands, "source dir/fi"), vec!["Files(dir/fi)"]);
}

#[test]
fn a_token_is_never_offered_for_itself() {
    let repl = entry_repl("history".to_string());
    for line in ["", "d", "data", "database", "database c", "database create", "user", "h", "help"] {
        for completion in repl.commands.compute_completions(&chars(line)) {
            if let CandidateSource::Token(text) = &completion.source {
                assert_ne!(*text, completion.partial, "line {:?}", line);
            }
        }
    }
}

#[test]
fn the_editor_is_told_where_the_word_starts() {
    let repl = entry_repl("history".to_string());
    let line = chars("database cr");
    let (start, completions) = repl.commands.complete(&line, line.len());
    assert_eq!(start, 9);
    assert_eq!(shown(&completions), vec!["create<-cr", "create-init<-cr"]);
    let (start, completions) = repl.commands.complete(&line, 4);
    assert_eq!(start, 0);
    assert_eq!(completions.len(), 2);
    let (start, completions) = repl.commands.complete(&chars("   "), 2);
    assert_eq!(start, 0);
    assert!(completions.is_empty());
}

#[test]
fn candidates_equal_to_the_partial_word_are_dropped() {
    assert_eq!(
        filter_completions(strings(&["foo", "fo", "food", "fo", "bar"]), "fo"),
        strings(&["foo", "food", "bar"])
    );
    assert_eq!(filter_completions(strings(&["a"]), "a"), Vec::<String>::new());
    assert_eq!(filter_completions(Vec::new(), "a"), Vec::<String>::new());
    assert_eq!(filter_completions(strings(&["a", ""]), ""), strings(&["a"]));
}

#[test]
fn the_candidates_are_put_together_in_order() {
    let repl = entry_repl("history".to_string());
    let tokens = repl.commands.compute_completions(&chars("database cr"));
    assert_eq!(candidates(&tokens, &vec![Vec::new(), Vec::new()]), strings(&["create", "create-init"]));
    assert_eq!(candidates(&tokens, &Vec::new()), strings(&["create", "create-init"]));
    let names = repl.commands.compute_completions(&chars("database delete fo"));
    assert_eq!(names.len(), 1);
    assert_eq!(
        candidates(&names, &vec![strings(&["foo", "fo", "food", "bar"])]),
        strings(&["foo", "food", "bar"])
    );
    assert_eq!(candidates(&names, &Vec::new()), Vec::<String>::new());
    assert_eq!(candidates(&Vec::new(), &vec![strings(&["x"])]), Vec::<String>::new());
    assert_eq!(without_partial(&strings(&["a", "b", "a"]), "a"), strings(&["b"]));
}

#[test]
fn names_are_filtered_by_prefix() {
    assert_eq!(
        filter_prefix(strings(&["foo", "bar", "fo", "f", "food"]), "fo"),
        strings(&["foo", "fo", "food"])
    );
    assert_eq!(filter_prefix(strings(&["a", "b"]), ""), strings(&["a", "b"]));
    assert_eq!(filter_prefix(strings(&["a", "b"]), "c"), Vec::<String>::new());
}

#[test]
fn a_single_candidate_gives_a_hint() {
    assert_eq!(hint_for(&strings(&["database"]), "data"), Some("base".to_string()));
    assert_eq!(hint_for(&strings(&["database"]), ""), Some("database".to_string()));
    assert_eq!(hint_for(&strings(&["database"]), "database"), Some("".to_string()));
    assert_eq!(hint_for(&strings(&["data"]), "database"), None);
    assert_eq!(hint_for(&strings(&["database", "data"]), "da"), None);
    assert_eq!(hint_for(&Vec::new(), "da"), None);
    assert_eq!(highlight_hint("base"), "\x1b[37mbase\x1b[0m");
}

#[test]
fn an_argument_without_provider_offers_nothing() {
    let plain = CommandLeaf::new_with_input(
        "open",
        "",
        CommandInput::new_required("db", InputReader::Word, None),
        Operation::TransactionRead,
    );
    assert!(plain.compute_completions(&chars("open d")).is_empty());
    assert_eq!(shown(&plain.compute_completions(&chars("op"))), vec!["open<-op"]);
    let provided = CommandInput::new_required("db", InputReader::Word, Some(Completer::Files));
    assert_eq!(shown(&provided.completions(&chars("ab"))), vec!["Files(ab)"]);
    assert!(provided.completions(&chars("")).is_empty());
    let group = Subcommand::new("x").add(Command::Leaf(plain));
    assert_eq!(shown(&group.compute_completions(&chars("x op"))), vec!["open<-op"]);
}

#[test]
fn the_cache_holds_a_set() {
    let mut cache = CompletionCache::new();
    assert!(cache.is_empty());
    assert!(cache.snapshot().is_empty());
    cache.replace_all(strings(&["b", "a", "b", "c", "a"]));
    assert!(!cache.is_empty());
    let mut snapshot = cache.snapshot();
    snapshot.sort();
    assert_eq!(snapshot, strings(&["a", "b", "c"]));
    cache.replace_all(strings(&["z"]));
    assert_eq!(cache.snapshot(), strings(&["z"]));
    cache.clear();
    assert!(cache.is_empty());
    assert!(cache.snapshot().is_empty());
    cache.replace_all(Vec::new());
    assert!(cache.is_empty());
}

#[test]
fn candidates_are_listed_in_the_order_of_their_tokens() {
    let group = Subcommand::new("database")
        .add(Command::Leaf(CommandLeaf::new("list", "", Operation::DatabaseList)))
        .add(Command::Leaf(CommandLeaf::new("delete", "", Operation::DatabaseDelete)))
        .add(Command::Leaf(CommandLeaf::new("create-init", "", Operation::DatabaseCreateInit)))
        .add(Command::Leaf(CommandLeaf::new("create", "", Operation::DatabaseCreate)));
    assert_eq!(group.listing_order(), vec![1, 0, 2, 3]);
    let tried: Vec<String> =
        group.subcommands.iter().map(|command| command.token().to_string()).collect();
    assert_eq!(tried, vec!["create-init", "create", "delete", "list"]);
    assert_eq!(complete(&group, "database cr"), vec!["create<-cr", "create-init<-cr"]);
    assert_eq!(
        complete(&group, "database"),
        vec!["create<-", "create-init<-", "delete<-", "list<-"]
    );
    assert!(Subcommand::new("").listing_order().is_empty());
}

#[test]
fn an_empty_snapshot_is_a_snapshot() {
    let mut cache = CompletionCache::new();
    assert!(!cache.filled());
    cache.replace_all(Vec::new());
    assert!(cache.filled());
    assert!(cache.is_empty());
    assert!(!cache.needs_refresh("da"));
    assert!(cache.needs_refresh("d"));
    cache.clear();
    assert!(!cache.filled());
    assert!(cache.needs_refresh("da"));
    cache.refresh(None);
    assert!(!cache.filled());
    cache.refresh(Some(Vec::new()));
    assert!(cache.filled());
    cache.refresh(None);
    assert!(cache.filled());
}

#[test]
fn a_snapshot_completes_a_word_without_a_fetch() {
    let mut cache = CompletionCache::new();
    cache.replace_all(strings(&["beta", "alpha", "beta", "alps"]));
    assert_eq!(cache.matching("al"), strings(&["alpha", "alps"]));
    assert_eq!(cache.matching(""), strings(&["beta", "alpha", "alps"]));
    assert_eq!(cache.matching("gamma"), Vec::<String>::new());
    assert_eq!(cache.complete_fetched("d", Some(strings(&["db", "data", "x"]))), strings(&["db", "data"]));
    assert_eq!(cache.matching("x"), strings(&["x"]));
    assert_eq!(cache.complete_fetched("d", None), Vec::<String>::new());
    assert_eq!(cache.matching("d"), strings(&["db", "data"]));
}

#[test]
fn the_cache_is_refreshed_for_short_words() {
    let mut cache = CompletionCache::new();
    assert!(cache.needs_refresh("database"));
    cache.refresh(None);
    assert!(cache.is_empty());
    cache.refresh(Some(strings(&["one", "two"])));
    assert!(!cache.needs_refresh("on"));
    assert!(cache.needs_refresh("o"));
    assert!(cache.needs_refresh(""));
    cache.refresh(None);
    let mut snapshot = cache.snapshot();
    snapshot.sort();
    assert_eq!(snapshot, strings(&["one", "two"]));
    assert_eq!(filter_prefix(snapshot, "t"), strings(&["two"]));
}
