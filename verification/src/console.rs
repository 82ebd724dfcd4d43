//! The command grammar of the console: the entry session and the session of
//! an open transaction.

use vstd::prelude::*;
use vstd::string::StringExecFns;
use crate::command::{
    command_token, command_wf, input_models, insertion_point, optionals_at_tail, Command,
    CommandInput, CommandLeaf, CommandModel, Completer, InputModel, InputReader, InputType,
    Operation, Subcommand,
};
use crate::repl::{builtin_commands, plain_leaf, FinishHook, Repl};
use crate::session::TransactionType;

verus! {

/// The prompt of the entry session, and the end of every other prompt.
pub const PROMPT: &'static str = ">> ";

/// The name of a kind of transaction, as shown in prompts.
pub open spec fn transaction_type_name(transaction_type: TransactionType) -> Seq<char> {
    match transaction_type {
        TransactionType::Read => "read"@,
        TransactionType::Write => "write"@,
        TransactionType::Schema => "schema"@,
    }
}

/// The name of a kind of transaction, as shown in prompts.
pub fn transaction_type_str(transaction_type: TransactionType) -> (r: &'static str)
    ensures
        r@ == transaction_type_name(transaction_type),
{
    match transaction_type {
        TransactionType::Read => "read",
        TransactionType::Write => "write",
        TransactionType::Schema => "schema",
    }
}

/// The kinds of query, by what they may change.
#[derive(Clone, Copy, Debug, PartialEq, Eq, Structural)]
pub enum QueryType {
    Read,
    Write,
    Schema,
}

/// The name of a kind of query, as shown in messages.
pub open spec fn query_type_name(query_type: QueryType) -> Seq<char> {
    match query_type {
        QueryType::Read => "read"@,
        QueryType::Write => "write"@,
        QueryType::Schema => "schema"@,
    }
}

/// The name of a kind of query, as shown in messages.
pub fn query_type_str(query_type: QueryType) -> (r: &'static str)
    ensures
        r@ == query_type_name(query_type),
{
    match query_type {
        QueryType::Read => "read",
        QueryType::Write => "write",
        QueryType::Schema => "schema",
    }
}

/// Whether a query of this kind counts as a write: every kind but a read.
pub fn is_write_query(query_type: QueryType) -> (r: bool)
    ensures
        r == !(query_type is Read),
{
    match query_type {
        QueryType::Read => false,
        _ => true,
    }
}

/// Whether an answer marks its transaction as holding writes. Where the
/// answers are streamed and shown, only a write query does; in every other
/// case every query but a read does.
pub fn answer_wrote(query_type: QueryType, streamed: bool, logging: bool) -> (r: bool)
    ensures
        r == if streamed && logging {
            query_type is Write
        } else {
            !(query_type is Read)
        },
{
    if streamed && logging {
        match query_type {
            QueryType::Write => true,
            _ => false,
        }
    } else {
        is_write_query(query_type)
    }
}

/// The message that closes a transaction of this type.
pub fn transaction_closed_message(transaction_type: TransactionType) -> (r: &'static str)
    ensures
        r@ == match transaction_type {
            TransactionType::Read => "Transaction closed"@,
            _ => "Transaction closed without committing changes."@,
        },
{
    match transaction_type {
        TransactionType::Read => "Transaction closed",
        _ => "Transaction closed without committing changes.",
    }
}

/// What `database list` does, as the help menu says it.
pub const DATABASE_LIST_HELP: &'static str = "List databases on the server.";

/// What `database create` does, as the help menu says it.
pub const DATABASE_CREATE_HELP: &'static str = "Create a new database with the given name.";

/// What `database create-init` does, as the help menu says it.
pub const DATABASE_CREATE_INIT_HELP: &'static str =
    "Create a new database with the given name and load schema and data from files. Files may be HTTP-hosted files, or absolute or relative paths. File contents are treated identically to 'transaction source' commands run explicitly, and may contain multiple queries separated by 'end;' markers. File sha256 sums maybe provided.";

/// What `database delete` does, as the help menu says it.
pub const DATABASE_DELETE_HELP: &'static str = "Delete the database with the given name.";

/// What `database schema` does, as the help menu says it.
pub const DATABASE_SCHEMA_HELP: &'static str =
    "Retrieve the TypeQL representation of a database's schema.";

/// What `database import` does, as the help menu says it.
pub const DATABASE_IMPORT_HELP: &'static str =
    "Create a database with the given name based on another previously exported database. File paths must be absolute or relative paths on the local machine.";

/// What `database export` does, as the help menu says it.
pub const DATABASE_EXPORT_HELP: &'static str =
    "Export a database into a schema definition and a data files.";

/// What `user list` does, as the help menu says it.
pub const USER_LIST_HELP: &'static str = "List users.";

/// What `user create` does, as the help menu says it.
pub const USER_CREATE_HELP: &'static str = "Create new user.";

/// What `user delete` does, as the help menu says it.
pub const USER_DELETE_HELP: &'static str = "Delete existing user.";

/// What `user update-password` does, as the help menu says it.
pub const USER_UPDATE_PASSWORD_HELP: &'static str = "Set existing user's password.";

/// What `transaction read` does, as the help menu says it.
pub const TRANSACTION_READ_HELP: &'static str = "Open read transaction.";

/// What `transaction write` does, as the help menu says it.
pub const TRANSACTION_WRITE_HELP: &'static str = "Open write transaction.";

/// What `transaction schema` does, as the help menu says it.
pub const TRANSACTION_SCHEMA_HELP: &'static str = "Open schema transaction.";

/// What `commit` does, as the help menu says it.
pub const COMMIT_HELP: &'static str = "Commit the current transaction.";

/// What `rollback` does, as the help menu says it.
pub const ROLLBACK_HELP: &'static str =
    "Roll back the current transaction to the initial snapshot state.";

/// What `close` does, as the help menu says it.
pub const CLOSE_HELP: &'static str = "Close the current transaction.";

/// What `source` does, as the help menu says it.
pub const SOURCE_HELP: &'static str =
    "Synchronously execute a file containing a sequence of TypeQL queries with full validation. Queries can be explicitly separated with 'end;' if required. May be a HTTP-hosted file, an absolute path, or a relative path. Relative paths are relative to the invoking script (if there is one) or else a path relative to the current working directory. A sha256 may be optionally provided.";

/// What the leaf without token does, as the help menu says it.
pub const QUERY_HELP: &'static str = "Execute query string.";

/// The model of an argument that is one word and must be on the command line.
pub open spec fn required(usage: Seq<char>, completer: Option<Completer>) -> InputModel {
    InputModel { usage, reader: InputReader::Word, type_: InputType::RequiredVisible, completer }
}

/// The model of an argument that is one word and may be left out.
pub open spec fn optional(usage: Seq<char>) -> InputModel {
    InputModel { usage, reader: InputReader::Word, type_: InputType::Optional, completer: None }
}

/// The model of an argument that is one word and is asked for in hidden input
/// when it is not on the command line.
pub open spec fn hidden(usage: Seq<char>) -> InputModel {
    InputModel {
        usage,
        reader: InputReader::Word,
        type_: InputType::RequiredHidden,
        completer: None,
    }
}

/// The model of the name of a database as an argument.
pub open spec fn database(completer: Option<Completer>) -> InputModel {
    required("db"@, completer)
}

/// The model of a leaf.
pub open spec fn leaf(
    token: Seq<char>,
    description: Seq<char>,
    arguments: Seq<InputModel>,
    executor: Operation,
) -> CommandModel {
    CommandModel::Leaf { token, description, arguments, executor }
}

/// The `database` group.
pub open spec fn database_commands() -> CommandModel {
    let names = Some(Completer::DatabaseNames);
    CommandModel::Group {
        token: "database"@,
        subcommands: seq![
            leaf(
                "create-init"@,
                DATABASE_CREATE_INIT_HELP@,
                seq![
                    database(None),
                    required("schema file"@, None),
                    required("data file"@, None),
                    optional("schema file sha256 (hex or sha256:hex)"@),
                    optional("data file sha256 (hex or sha256:hex)"@),
                ],
                Operation::DatabaseCreateInit,
            ),
            leaf(
                "export"@,
                DATABASE_EXPORT_HELP@,
                seq![
                    database(names),
                    required("schema file path"@, None),
                    required("data file path"@, None),
                ],
                Operation::DatabaseExport,
            ),
            leaf(
                "import"@,
                DATABASE_IMPORT_HELP@,
                seq![
                    database(None),
                    required("schema file path"@, None),
                    required("data file path"@, None),
                ],
                Operation::DatabaseImport,
            ),
            leaf("schema"@, DATABASE_SCHEMA_HELP@, seq![database(names)], Operation::DatabaseSchema),
            leaf("delete"@, DATABASE_DELETE_HELP@, seq![database(names)], Operation::DatabaseDelete),
            leaf("create"@, DATABASE_CREATE_HELP@, seq![database(None)], Operation::DatabaseCreate),
            plain_leaf("list"@, DATABASE_LIST_HELP@, Operation::DatabaseList),
        ],
    }
}

/// The `user` group.
pub open spec fn user_commands() -> CommandModel {
    CommandModel::Group {
        token: "user"@,
        subcommands: seq![
            leaf(
                "update-password"@,
                USER_UPDATE_PASSWORD_HELP@,
                seq![required("name"@, None), hidden("new password"@)],
                Operation::UserUpdatePassword,
            ),
            leaf("delete"@, USER_DELETE_HELP@, seq![required("name"@, None)], Operation::UserDelete),
            leaf(
                "create"@,
                USER_CREATE_HELP@,
                seq![required("name"@, None), hidden("password"@)],
                Operation::UserCreate,
            ),
            plain_leaf("list"@, USER_LIST_HELP@, Operation::UserList),
        ],
    }
}

/// The `transaction` group.
pub open spec fn transaction_commands() -> CommandModel {
    let names = Some(Completer::DatabaseNames);
    CommandModel::Group {
        token: "transaction"@,
        subcommands: seq![
            leaf(
                "schema"@,
                TRANSACTION_SCHEMA_HELP@,
                seq![database(names)],
                Operation::TransactionSchema,
            ),
            leaf("write"@, TRANSACTION_WRITE_HELP@, seq![database(names)], Operation::TransactionWrite),
            leaf("read"@, TRANSACTION_READ_HELP@, seq![database(names)], Operation::TransactionRead),
        ],
    }
}

/// The command tree of the entry session, in the order in which its commands
/// are tried.
pub open spec fn entry_commands() -> CommandModel {
    CommandModel::Group {
        token: Seq::empty(),
        subcommands: seq![
            transaction_commands(),
            database_commands(),
            builtin_commands()[0],
            user_commands(),
            builtin_commands()[1],
            builtin_commands()[2],
        ],
    }
}

/// The command tree of the session of a transaction, in the order in which
/// its commands are tried. The leaf without token comes last: it takes as a
/// query whatever no other command matches.
pub open spec fn transaction_session_commands() -> CommandModel {
    CommandModel::Group {
        token: Seq::empty(),
        subcommands: seq![
            plain_leaf("rollback"@, ROLLBACK_HELP@, Operation::TransactionRollback),
            leaf(
                "source"@,
                SOURCE_HELP@,
                seq![
                    required("file"@, Some(Completer::Files)),
                    optional("file sha256 (hex or sha256:hex)"@),
                ],
                Operation::TransactionSource,
            ),
            plain_leaf("commit"@, COMMIT_HELP@, Operation::TransactionCommit),
            plain_leaf("close"@, CLOSE_HELP@, Operation::TransactionClose),
            builtin_commands()[0],
            builtin_commands()[1],
            builtin_commands()[2],
            leaf(
                ""@,
                QUERY_HELP@,
                seq![
                    InputModel {
                        usage: "query"@,
                        reader: InputReader::Query,
                        type_: InputType::RequiredVisible,
                        completer: None,
                    },
                ],
                Operation::TransactionQuery,
            ),
        ],
    }
}

/// A leaf as a command, with the given arguments.
fn leaf_command(
    token: &'static str,
    description: &'static str,
    arguments: Vec<CommandInput>,
    executor: Operation,
) -> (r: Command)
    requires
        optionals_at_tail(arguments@),
    ensures
        r@ == leaf(token@, description@, input_models(arguments@), executor),
        command_token(r) == token@,
        command_wf(r),
{
    Command::Leaf(CommandLeaf::new_with_inputs(token, description, arguments, executor))
}

/// A leaf as a command, with one argument.
fn leaf_command_with(
    token: &'static str,
    description: &'static str,
    argument: CommandInput,
    executor: Operation,
) -> (r: Command)
    ensures
        r@ == leaf(token@, description@, seq![argument@], executor),
        command_token(r) == token@,
        command_wf(r),
{
    let mut arguments = Vec::new();
    arguments.push(argument);
    proof {
        assert(input_models(arguments@) =~= seq![argument@]);
        assert(arguments@ =~= seq![argument]);
    }
    leaf_command(token, description, arguments, executor)
}

/// A leaf as a command, without arguments.
fn plain_command(token: &'static str, description: &'static str, executor: Operation) -> (r: Command)
    ensures
        r@ == plain_leaf(token@, description@, executor),
        command_token(r) == token@,
        command_wf(r),
{
    let arguments = Vec::new();
    proof {
        assert(input_models(arguments@) =~= Seq::<InputModel>::empty());
    }
    leaf_command(token, description, arguments, executor)
}

fn required_word(usage: &'static str, completer: Option<Completer>) -> (r: CommandInput)
    ensures
        r@ == required(usage@, completer),
        r.type_ is RequiredVisible,
{
    CommandInput::new_required(usage, InputReader::Word, completer)
}

fn optional_word(usage: &'static str) -> (r: CommandInput)
    ensures
        r@ == optional(usage@),
        r.type_ is Optional,
{
    CommandInput::new_optional(usage, InputReader::Word, None)
}

fn hidden_word(usage: &'static str) -> (r: CommandInput)
    ensures
        r@ == hidden(usage@),
        r.type_ is RequiredHidden,
{
    CommandInput::new_hidden(usage, InputReader::Word, None)
}

/// The `database` group.
fn database_group() -> (r: Command)
    ensures
        r@ == database_commands(),
        command_token(r) == "database"@,
        command_wf(r),
{
    proof {
        reveal_strlit("list");
        reveal_strlit("create");
        reveal_strlit("create-init");
        reveal_strlit("delete");
        reveal_strlit("schema");
        reveal_strlit("import");
        reveal_strlit("export");
        assert("create"@[0] == 'c' && "delete"@[0] == 'd' && "schema"@[0] == 's' && "import"@[0]
            == 'i' && "export"@[0] == 'e');
        reveal_with_fuel(insertion_point, 8);
    }
    let names = Some(Completer::DatabaseNames);
    let list = plain_command("list", DATABASE_LIST_HELP, Operation::DatabaseList);
    let create = leaf_command_with(
        "create",
        DATABASE_CREATE_HELP,
        required_word("db", None),
        Operation::DatabaseCreate,
    );
    let mut inputs = Vec::new();
    inputs.push(required_word("db", None));
    inputs.push(required_word("schema file", None));
    inputs.push(required_word("data file", None));
    inputs.push(optional_word("schema file sha256 (hex or sha256:hex)"));
    inputs.push(optional_word("data file sha256 (hex or sha256:hex)"));
    proof {
        assert(input_models(inputs@) =~= seq![
            database(None),
            required("schema file"@, None),
            required("data file"@, None),
            optional("schema file sha256 (hex or sha256:hex)"@),
            optional("data file sha256 (hex or sha256:hex)"@),
        ]);
    }
    let create_init = leaf_command(
        "create-init",
        DATABASE_CREATE_INIT_HELP,
        inputs,
        Operation::DatabaseCreateInit,
    );
    let delete = leaf_command_with(
        "delete",
        DATABASE_DELETE_HELP,
        required_word("db", names),
        Operation::DatabaseDelete,
    );
    let schema = leaf_command_with(
        "schema",
        DATABASE_SCHEMA_HELP,
        required_word("db", names),
        Operation::DatabaseSchema,
    );
    let mut inputs = Vec::new();
    inputs.push(required_word("db", None));
    inputs.push(required_word("schema file path", None));
    inputs.push(required_word("data file path", None));
    proof {
        assert(input_models(inputs@) =~= seq![
            database(None),
            required("schema file path"@, None),
            required("data file path"@, None),
        ]);
    }
    let import = leaf_command("import", DATABASE_IMPORT_HELP, inputs, Operation::DatabaseImport);
    let mut inputs = Vec::new();
    inputs.push(required_word("db", names));
    inputs.push(required_word("schema file path", None));
    inputs.push(required_word("data file path", None));
    proof {
        assert(input_models(inputs@) =~= seq![
            database(names),
            required("schema file path"@, None),
            required("data file path"@, None),
        ]);
    }
    let export = leaf_command("export", DATABASE_EXPORT_HELP, inputs, Operation::DatabaseExport);
    let group = Subcommand::new("database");
    let group = group.add(list);
    proof {
        assert(group.subcommands@ =~= seq![list]);
    }
    let group = group.add(create);
    proof {
        assert(group.subcommands@ =~= seq![create, list]);
    }
    let group = group.add(create_init);
    proof {
        assert(group.subcommands@ =~= seq![create_init, create, list]);
    }
    let group = group.add(delete);
    proof {
        assert(group.subcommands@ =~= seq![create_init, delete, create, list]);
    }
    let group = group.add(schema);
    proof {
        assert(group.subcommands@ =~= seq![create_init, schema, delete, create, list]);
    }
    let group = group.add(import);
    proof {
        assert(group.subcommands@ =~= seq![create_init, import, schema, delete, create, list]);
    }
    let group = group.add(export);
    proof {
        assert(group.subcommands@ =~= seq![
            create_init,
            export,
            import,
            schema,
            delete,
            create,
            list,
        ]);
        assert(group@->Group_subcommands =~= database_commands()->Group_subcommands);
    }
    Command::Group(group)
}

/// The `user` group.
fn user_group() -> (r: Command)
    ensures
        r@ == user_commands(),
        command_token(r) == "user"@,
        command_wf(r),
{
    proof {
        reveal_strlit("list");
        reveal_strlit("create");
        reveal_strlit("delete");
        reveal_strlit("update-password");
        assert("create"@[0] == 'c' && "delete"@[0] == 'd');
        reveal_with_fuel(insertion_point, 5);
    }
    let list = plain_command("list", USER_LIST_HELP, Operation::UserList);
    let mut inputs = Vec::new();
    inputs.push(required_word("name", None));
    inputs.push(hidden_word("password"));
    proof {
        assert(input_models(inputs@) =~= seq![required("name"@, None), hidden("password"@)]);
    }
    let create = leaf_command("create", USER_CREATE_HELP, inputs, Operation::UserCreate);
    let delete = leaf_command_with(
        "delete",
        USER_DELETE_HELP,
        required_word("name", None),
        Operation::UserDelete,
    );
    let mut inputs = Vec::new();
    inputs.push(required_word("name", None));
    inputs.push(hidden_word("new password"));
    proof {
        assert(input_models(inputs@) =~= seq![required("name"@, None), hidden("new password"@)]);
    }
    let update = leaf_command(
        "update-password",
        USER_UPDATE_PASSWORD_HELP,
        inputs,
        Operation::UserUpdatePassword,
    );
    let group = Subcommand::new("user");
    let group = group.add(list);
    proof {
        assert(group.subcommands@ =~= seq![list]);
    }
    let group = group.add(create);
    proof {
        assert(group.subcommands@ =~= seq![create, list]);
    }
    let group = group.add(delete);
    proof {
        assert(group.subcommands@ =~= seq![delete, create, list]);
    }
    let group = group.add(update);
    proof {
        assert(group.subcommands@ =~= seq![update, delete, create, list]);
        assert(group@->Group_subcommands =~= user_commands()->Group_subcommands);
    }
    Command::Group(group)
}

/// The `transaction` group.
fn transaction_group() -> (r: Command)
    ensures
        r@ == transaction_commands(),
        command_token(r) == "transaction"@,
        command_wf(r),
{
    proof {
        reveal_strlit("read");
        reveal_strlit("write");
        reveal_strlit("schema");
        reveal_with_fuel(insertion_point, 4);
    }
    let names = Some(Completer::DatabaseNames);
    let read = leaf_command_with(
        "read",
        TRANSACTION_READ_HELP,
        required_word("db", names),
        Operation::TransactionRead,
    );
    let write = leaf_command_with(
        "write",
        TRANSACTION_WRITE_HELP,
        required_word("db", names),
        Operation::TransactionWrite,
    );
    let schema = leaf_command_with(
        "schema",
        TRANSACTION_SCHEMA_HELP,
        required_word("db", names),
        Operation::TransactionSchema,
    );
    let group = Subcommand::new("transaction");
    let group = group.add(read);
    proof {
        assert(group.subcommands@ =~= seq![read]);
    }
    let group = group.add(write);
    proof {
        assert(group.subcommands@ =~= seq![write, read]);
    }
    let group = group.add(schema);
    proof {
        assert(group.subcommands@ =~= seq![schema, write, read]);
        assert(group@->Group_subcommands =~= transaction_commands()->Group_subcommands);
    }
    Command::Group(group)
}

/// The entry session: the built-in commands and the `database`, `user` and
/// `transaction` groups. Its input is one line at a time.
pub fn entry_repl(history_file: String) -> (r: Repl)
    ensures
        r.wf(),
        r.prompt@ == PROMPT@,
        r.history_file == history_file,
        !r.multiline_input,
        r.on_finish is None,
        r.commands@ == entry_commands(),
{
    proof {
        reveal_strlit("exit");
        reveal_strlit("help");
        reveal_strlit("clear");
        reveal_strlit("database");
        reveal_strlit("user");
        reveal_strlit("transaction");
        assert("exit"@[0] == 'e' && "help"@[0] == 'h' && "user"@[0] == 'u');
        reveal_with_fuel(insertion_point, 7);
    }
    let mut prompt = String::new();
    prompt.append(PROMPT);
    let repl = Repl::new(prompt, history_file, false, None);
    let ghost builtin = repl.commands.subcommands@;
    proof {
        let models = repl.commands@->Group_subcommands;
        assert(models.len() == 3);
        assert(models[0] == builtin[0]@ && models[1] == builtin[1]@ && models[2] == builtin[2]@);
        assert(builtin.len() == 3);
    }
    let database = database_group();
    let user = user_group();
    let transaction = transaction_group();
    let repl = repl.add(database);
    proof {
        assert(repl.commands.subcommands@ =~= seq![database, builtin[0], builtin[1], builtin[2]]);
    }
    let repl = repl.add(user);
    proof {
        assert(repl.commands.subcommands@ =~= seq![
            database,
            builtin[0],
            user,
            builtin[1],
            builtin[2],
        ]);
    }
    let repl = repl.add(transaction);
    proof {
        assert(repl.commands.subcommands@ =~= seq![
            transaction,
            database,
            builtin[0],
            user,
            builtin[1],
            builtin[2],
        ]);
        assert(repl.commands@->Group_subcommands =~= entry_commands()->Group_subcommands);
    }
    repl
}

/// The prompt of the session of a transaction: the database, two colons, the
/// kind of transaction and the common prompt.
pub fn transaction_prompt(database: &str, transaction_type: TransactionType) -> (r: String)
    ensures
        r@ == database@ + "::"@ + transaction_type_name(transaction_type) + PROMPT@,
{
    let mut prompt = String::new();
    prompt.append(database);
    prompt.append("::");
    prompt.append(transaction_type_str(transaction_type));
    prompt.append(PROMPT);
    proof {
        assert(prompt@ =~= database@ + "::"@ + transaction_type_name(transaction_type) + PROMPT@);
    }
    prompt
}

/// The session of an open transaction: the built-in commands, `commit`,
/// `rollback`, `close` and `source`, and the leaf without token that takes
/// anything else as a query. Its input may span lines, and when it ends the
/// transaction is dropped.
pub fn transaction_repl(database: &str, transaction_type: TransactionType, history_file: String) -> (r:
    Repl)
    ensures
        r.wf(),
        r.prompt@ == database@ + "::"@ + transaction_type_name(transaction_type) + PROMPT@,
        r.history_file == history_file,
        r.multiline_input,
        r.on_finish == Some(FinishHook::DropTransaction),
        r.commands@ == transaction_session_commands(),
{
    proof {
        reveal_strlit("exit");
        reveal_strlit("help");
        reveal_strlit("clear");
        reveal_strlit("commit");
        reveal_strlit("rollback");
        reveal_strlit("close");
        reveal_strlit("source");
        reveal_strlit("");
        assert("clear"@[2] == 'e' && "close"@[2] == 'o');
        assert("commit"@[0] == 'c' && "source"@[0] == 's');
        reveal_with_fuel(insertion_point, 9);
    }
    let prompt = transaction_prompt(database, transaction_type);
    let repl = Repl::new(prompt, history_file, true, Some(FinishHook::DropTransaction));
    let ghost builtin = repl.commands.subcommands@;
    proof {
        let models = repl.commands@->Group_subcommands;
        assert(models.len() == 3);
        assert(models[0] == builtin[0]@ && models[1] == builtin[1]@ && models[2] == builtin[2]@);
        assert(builtin.len() == 3);
    }
    let commit = plain_command("commit", COMMIT_HELP, Operation::TransactionCommit);
    let rollback = plain_command("rollback", ROLLBACK_HELP, Operation::TransactionRollback);
    let close = plain_command("close", CLOSE_HELP, Operation::TransactionClose);
    let mut inputs = Vec::new();
    inputs.push(required_word("file", Some(Completer::Files)));
    inputs.push(optional_word("file sha256 (hex or sha256:hex)"));
    proof {
        assert(input_models(inputs@) =~= seq![
            required("file"@, Some(Completer::Files)),
            optional("file sha256 (hex or sha256:hex)"@),
        ]);
    }
    let source = leaf_command("source", SOURCE_HELP, inputs, Operation::TransactionSource);
    let query = leaf_command_with(
        "",
        QUERY_HELP,
        CommandInput::new_required("query", InputReader::Query, None),
        Operation::TransactionQuery,
    );
    let repl = repl.add(commit);
    proof {
        assert(repl.commands.subcommands@ =~= seq![commit, builtin[0], builtin[1], builtin[2]]);
    }
    let repl = repl.add(rollback);
    proof {
        assert(repl.commands.subcommands@ =~= seq![
            rollback,
            commit,
            builtin[0],
            builtin[1],
            builtin[2],
        ]);
    }
    let repl = repl.add(close);
    proof {
        assert(repl.commands.subcommands@ =~= seq![
            rollback,
            commit,
            close,
            builtin[0],
            builtin[1],
            builtin[2],
        ]);
    }
    let repl = repl.add(source);
    proof {
        assert(repl.commands.subcommands@ =~= seq![
            rollback,
            source,
            commit,
            close,
            builtin[0],
            builtin[1],
            builtin[2],
        ]);
    }
    let repl = repl.add(query);
    proof {
        assert(repl.commands.subcommands@ =~= seq![
            rollback,
            source,
            commit,
            close,
            builtin[0],
            builtin[1],
            builtin[2],
            query,
        ]);
        assert(repl.commands@->Group_subcommands =~= transaction_session_commands()->Group_subcommands);
    }
    repl
}

/// The message after a query that returned no answers was run.
pub fn query_finished_message(query_type: QueryType) -> (r: String)
    ensures
        r@ == "Finished "@ + query_type_name(query_type) + " query."@,
{
    let mut text = String::new();
    text.append("Finished ");
    text.append(query_type_str(query_type));
    text.append(" query.");
    proof {
        assert(text@ =~= "Finished "@ + query_type_name(query_type) + " query."@);
    }
    text
}

/// The message after a query was validated and compiled.
pub fn query_compiled_message(query_type: QueryType) -> (r: String)
    ensures
        r@ == "Finished "@ + query_type_name(query_type)
            + " query validation and compilation..."@,
{
    let mut text = String::new();
    text.append("Finished ");
    text.append(query_type_str(query_type));
    text.append(" query validation and compilation...");
    proof {
        assert(text@ =~= "Finished "@ + query_type_name(query_type)
            + " query validation and compilation..."@);
    }
    text
}

/// The message before the answers of a query are streamed.
pub fn streaming_message(query_type: QueryType, documents: bool) -> (r: &'static str)
    ensures
        r@ == if query_type is Write {
            "Finished writes. Streaming rows..."@
        } else if documents {
            "Streaming documents..."@
        } else {
            "Streaming rows..."@
        },
{
    match query_type {
        QueryType::Write => "Finished writes. Streaming rows...",
        _ => if documents {
            "Streaming documents..."
        } else {
            "Streaming rows..."
        },
    }
}

/// The message after the last answer of a query.
pub fn answer_count_message(count: usize) -> (r: String)
    ensures
        r@ == "Finished. Total answers: "@ + crate::usage::decimal(count as nat),
{
    let mut text = String::new();
    text.append("Finished. Total answers: ");
    crate::usage::push_decimal(&mut text, count);
    text
}

} // verus!
