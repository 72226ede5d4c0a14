//! The database commands (`INSERT`, `LOOKUP`, `DELETE` and their bulk forms)
//! and the routing of a network command to them.

use std::time::Duration;

use tokio::time::Instant;

use vstd::prelude::*;

use crate::json::{array_value, json_array, json_string, string_value};
use crate::protocol::{failure_reply, success_reply, DbValue, NetCommand, NetResponse, Reply};
use crate::text::{to_uppercase, uppercase_of};
use crate::store::Store;
use crate::ttl::{stored, Entry};

verus! {

/// One item of a bulk command.
pub struct CommandParams {
    pub key: Option<String>,
    pub value: Option<serde_json::Value>,
    pub ttl: Option<Duration>,
}

/// The arguments of a command: one key and value, or many items.
pub enum CommandArgs {
    Single(Option<String>, Option<DbValue>),
    Many(Vec<CommandParams>),
}

/// One item of a bulk command, with its key as a sequence of characters.
pub struct ParamView {
    pub key: Option<Seq<char>>,
    pub value: Option<serde_json::Value>,
    pub ttl: Option<Duration>,
}

/// The arguments of a command, with keys as sequences of characters.
pub enum ArgsView {
    Single(Option<Seq<char>>, Option<DbValue>),
    Many(Seq<ParamView>),
}

/// The view of an optional key.
pub open spec fn key_view(key: Option<String>) -> Option<Seq<char>> {
    match key {
        Some(k) => Some(k@),
        None => None,
    }
}

impl View for CommandParams {
    type V = ParamView;

    open spec fn view(&self) -> ParamView {
        ParamView { key: key_view(self.key), value: self.value, ttl: self.ttl }
    }
}

impl View for CommandArgs {
    type V = ArgsView;

    open spec fn view(&self) -> ArgsView {
        match self {
            CommandArgs::Single(k, v) => ArgsView::Single(key_view(*k), *v),
            CommandArgs::Many(ps) => ArgsView::Many(ps@.map_values(|p: CommandParams| p@)),
        }
    }
}

/// The contents of the database.
pub type Table = Map<Seq<char>, Entry>;

/// The value a successful insert or single delete answers with.
pub open spec fn ok_value() -> serde_json::Value {
    json_string("OK"@)
}

/// `parts` joined with `sep` between each two of them.
pub open spec fn join(parts: Seq<Seq<char>>, sep: Seq<char>) -> Seq<char>
    decreases parts.len(),
{
    if parts.len() == 0 {
        seq![]
    } else if parts.len() == 1 {
        parts[0]
    } else {
        join(parts.drop_last(), sep) + sep + parts.last()
    }
}

/// What is wrong with one item of a bulk insert, if anything.
pub open spec fn bulk_insert_error(p: ParamView) -> Option<Seq<char>> {
    match (p.key, p.value) {
        (Some(_), Some(_)) => None,
        (Some(k), None) => Some("Missing value for key: "@ + k),
        (None, Some(_)) => Some("Key is missing for provided value"@),
        (None, None) => Some("Both key and value are missing"@),
    }
}

/// The complaints about the items of a bulk insert, in order.
pub open spec fn bulk_insert_errors(ps: Seq<ParamView>) -> Seq<Seq<char>>
    decreases ps.len(),
{
    if ps.len() == 0 {
        seq![]
    } else {
        let rest = bulk_insert_errors(ps.drop_last());
        match bulk_insert_error(ps.last()) {
            Some(e) => rest.push(e),
            None => rest,
        }
    }
}

/// `db` with the complete items of `ps` stored at `now`, one after the other.
pub open spec fn insert_params(db: Table, ps: Seq<ParamView>, now: Instant) -> Table
    decreases ps.len(),
{
    if ps.len() == 0 {
        db
    } else {
        let m = insert_params(db, ps.drop_last(), now);
        let p = ps.last();
        match (p.key, p.value) {
            (Some(k), Some(v)) => m.insert(k, stored(DbValue { value: v, expires_in: p.ttl }, now)),
            _ => m,
        }
    }
}

/// The reply to `INSERT` at the clock reading `now`, and the contents of the
/// database after it.
pub open spec fn insert_outcome(args: ArgsView, db: Table, now: Instant) -> (Reply, Table) {
    match args {
        ArgsView::Single(Some(k), Some(v)) => (success_reply(Some(ok_value())), db.insert(k, stored(v, now))),
        ArgsView::Single(None, _) => (failure_reply("No key provided for insert."@), db),
        ArgsView::Single(Some(_), None) => (failure_reply("No value provided for insert."@), db),
        ArgsView::Many(ps) => {
            let errors = bulk_insert_errors(ps);
            if errors.len() == 0 {
                (success_reply(Some(ok_value())), insert_params(db, ps, now))
            } else {
                (failure_reply(join(errors, ", "@)), db)
            }
        },
    }
}

/// The values found in `db` under the keys of `ps`, in order, skipping
/// missing keys.
pub open spec fn found_values(db: Table, ps: Seq<ParamView>) -> Seq<serde_json::Value>
    decreases ps.len(),
{
    if ps.len() == 0 {
        seq![]
    } else {
        let rest = found_values(db, ps.drop_last());
        match ps.last().key {
            Some(k) => if db.contains_key(k) {
                rest.push(db[k].spec_data().value)
            } else {
                rest
            },
            None => rest,
        }
    }
}

/// Some item of `ps` has no key.
pub open spec fn some_key_missing(ps: Seq<ParamView>) -> bool {
    exists|i: int| 0 <= i < ps.len() && (#[trigger] ps[i]).key is None
}

/// The reply to `LOOKUP`; it leaves the database as it is.
pub open spec fn lookup_reply(args: ArgsView, db: Table) -> Reply {
    match args {
        ArgsView::Single(Some(k), _) => if db.contains_key(k) {
            success_reply(Some(db[k].spec_data().value))
        } else {
            success_reply(None)
        },
        ArgsView::Single(None, _) => failure_reply("No key provided for lookup."@),
        ArgsView::Many(ps) => if some_key_missing(ps) {
            failure_reply("Missing key in bulk lookup."@)
        } else {
            success_reply(Some(json_array(found_values(db, ps))))
        },
    }
}

/// The keys that a bulk delete removes, in order, and the database after it.
pub open spec fn delete_params(db: Table, ps: Seq<ParamView>) -> (Seq<Seq<char>>, Table)
    decreases ps.len(),
{
    if ps.len() == 0 {
        (seq![], db)
    } else {
        let (removed, m) = delete_params(db, ps.drop_last());
        match ps.last().key {
            Some(k) => if m.contains_key(k) {
                (removed.push(k), m.remove(k))
            } else {
                (removed, m)
            },
            None => (removed, m),
        }
    }
}

/// The JSON strings of `keys`, in order.
pub open spec fn key_strings(keys: Seq<Seq<char>>) -> Seq<serde_json::Value> {
    keys.map_values(|k: Seq<char>| json_string(k))
}

/// The reply to `DELETE` and the contents of the database after it.
pub open spec fn delete_outcome(args: ArgsView, db: Table) -> (Reply, Table) {
    match args {
        ArgsView::Single(Some(k), _) => if db.contains_key(k) {
            (success_reply(Some(ok_value())), db.remove(k))
        } else {
            (failure_reply("Key '"@ + k + "' not found."@), db)
        },
        ArgsView::Single(None, _) => (failure_reply("No key provided for delete."@), db),
        ArgsView::Many(ps) => {
            let (removed, m) = delete_params(db, ps);
            (success_reply(Some(json_array(key_strings(removed)))), m)
        },
    }
}


/// The views of a list of bulk items.
pub open spec fn params_view(params: Seq<CommandParams>) -> Seq<ParamView> {
    params.map_values(|p: CommandParams| p@)
}

/// Joins `parts` with `sep` between each two of them.
pub fn join_with(parts: &Vec<String>, sep: &str) -> (r: String)
    ensures
        r@ == join(parts@.map_values(|p: String| p@), sep@),
{
    let ghost views = parts@.map_values(|p: String| p@);
    let mut r = String::new();
    let mut i: usize = 0;
    while i < parts.len()
        invariant
            i <= parts@.len(),
            views == parts@.map_values(|p: String| p@),
            r@ == join(views.take(i as int), sep@),
        decreases parts@.len() - i,
    {
        assert(views.take(i + 1).drop_last() =~= views.take(i as int));
        if i != 0 {
            r.append(sep);
        }
        r.append(parts[i].as_str());
        i = i + 1;
    }
    assert(views.take(parts@.len() as int) =~= views);
    r
}

/// Executes `INSERT`: puts one value, or all the items of a bulk insert, into
/// the database.
pub fn insert_command(args: CommandArgs, db: &mut Store<Entry>, now: Instant) -> (r: NetResponse)
    requires
        old(db).wf(),
    ensures
        final(db).wf(),
        (r@, final(db)@) == insert_outcome(args@, old(db)@, now),
{
    match args {
        CommandArgs::Single(Some(key), Some(value)) => {
            db.insert(key, Entry::new(value, now));
            NetResponse::success(Some(string_value("OK".to_owned())))
        },
        CommandArgs::Single(None, _) => NetResponse::failure("No key provided for insert.".to_owned()),
        CommandArgs::Single(Some(_), None) => NetResponse::failure(
            "No value provided for insert.".to_owned(),
        ),
        CommandArgs::Many(params) => insert_many(&params, db, now),
    }
}

/// A bulk insert: all of the items go in, or, where one is incomplete, none.
fn insert_many(params: &Vec<CommandParams>, db: &mut Store<Entry>, now: Instant) -> (r: NetResponse)
    requires
        old(db).wf(),
    ensures
        final(db).wf(),
        (r@, final(db)@) == insert_outcome(ArgsView::Many(params_view(params@)), old(db)@, now),
{
    let ghost ps = params_view(params@);
    let mut errors: Vec<String> = Vec::new();
    let mut i: usize = 0;
    while i < params.len()
        invariant
            i <= params@.len(),
            ps == params_view(params@),
            errors@.map_values(|e: String| e@) == bulk_insert_errors(ps.take(i as int)),
        decreases params@.len() - i,
    {
        assert(ps.take(i + 1).drop_last() =~= ps.take(i as int));
        let p = &params[i];
        match (&p.key, &p.value) {
            (Some(_), Some(_)) => {},
            (Some(key), None) => {
                let mut m = "Missing value for key: ".to_owned();
                m.append(key.as_str());
                errors.push(m);
            },
            (None, Some(_)) => {
                errors.push("Key is missing for provided value".to_owned());
            },
            (None, None) => {
                errors.push("Both key and value are missing".to_owned());
            },
        }
        assert(errors@.map_values(|e: String| e@) =~= bulk_insert_errors(ps.take(i + 1)));
        i = i + 1;
    }
    assert(ps.take(params@.len() as int) =~= ps);
    if errors.len() == 0 {
        let mut j: usize = 0;
        while j < params.len()
            invariant
                j <= params@.len(),
                ps == params_view(params@),
                db.wf(),
                db@ == insert_params(old(db)@, ps.take(j as int), now),
            decreases params@.len() - j,
        {
            assert(ps.take(j + 1).drop_last() =~= ps.take(j as int));
            let p = &params[j];
            match (&p.key, &p.value) {
                (Some(key), Some(value)) => {
                    db.insert(
                        key.clone(),
                        Entry::new(DbValue { value: value.clone(), expires_in: p.ttl }, now),
                    );
                },
                _ => {},
            }
            j = j + 1;
        }
        NetResponse::success(Some(string_value("OK".to_owned())))
    } else {
        NetResponse::failure(join_with(&errors, ", "))
    }
}

/// Executes `LOOKUP`: reads one value, or the values of many keys.
pub fn lookup_command(args: CommandArgs, db: &Store<Entry>) -> (r: NetResponse)
    requires
        db.wf(),
    ensures
        r@ == lookup_reply(args@, db@),
{
    match args {
        CommandArgs::Single(Some(key), _) => match db.get(&key) {
            Some(entry) => NetResponse::success(Some(entry.data().value.clone())),
            None => NetResponse::success(None),
        },
        CommandArgs::Single(None, _) => NetResponse::failure("No key provided for lookup.".to_owned()),
        CommandArgs::Many(params) => lookup_many(&params, db),
    }
}

/// A bulk lookup: the values found, in the order of the keys.
fn lookup_many(params: &Vec<CommandParams>, db: &Store<Entry>) -> (r: NetResponse)
    requires
        db.wf(),
    ensures
        r@ == lookup_reply(ArgsView::Many(params_view(params@)), db@),
{
    let ghost ps = params_view(params@);
    let mut results: Vec<serde_json::Value> = Vec::new();
    let mut i: usize = 0;
    while i < params.len()
        invariant
            i <= params@.len(),
            ps == params_view(params@),
            db.wf(),
            results@ == found_values(db@, ps.take(i as int)),
            forall|j: int| 0 <= j < i ==> (#[trigger] ps[j]).key is Some,
        decreases params@.len() - i,
    {
        assert(ps.take(i + 1).drop_last() =~= ps.take(i as int));
        match &params[i].key {
            Some(key) => {
                match db.get(key) {
                    Some(entry) => {
                        results.push(entry.data().value.clone());
                    },
                    None => {},
                }
            },
            None => {
                assert(ps[i as int].key is None);
                return NetResponse::failure("Missing key in bulk lookup.".to_owned());
            },
        }
        i = i + 1;
    }
    assert(ps.take(params@.len() as int) =~= ps);
    NetResponse::success(Some(array_value(results)))
}

/// Executes `DELETE`: removes one key, or many keys, from the database.
pub fn delete_command(args: CommandArgs, db: &mut Store<Entry>) -> (r: NetResponse)
    requires
        old(db).wf(),
    ensures
        final(db).wf(),
        (r@, final(db)@) == delete_outcome(args@, old(db)@),
{
    match args {
        CommandArgs::Single(Some(key), _) => match db.remove(&key) {
            Some(_) => NetResponse::success(Some(string_value("OK".to_owned()))),
            None => {
                let mut m = "Key '".to_owned();
                m.append(key.as_str());
                m.append("' not found.");
                NetResponse::failure(m)
            },
        },
        CommandArgs::Single(None, _) => NetResponse::failure("No key provided for delete.".to_owned()),
        CommandArgs::Many(params) => delete_many(&params, db),
    }
}

/// A bulk delete: answers with the keys that were there and are now gone.
fn delete_many(params: &Vec<CommandParams>, db: &mut Store<Entry>) -> (r: NetResponse)
    requires
        old(db).wf(),
    ensures
        final(db).wf(),
        (r@, final(db)@) == delete_outcome(ArgsView::Many(params_view(params@)), old(db)@),
{
    let ghost ps = params_view(params@);
    let ghost mut removed: Seq<Seq<char>> = seq![];
    let mut results: Vec<serde_json::Value> = Vec::new();
    let mut i: usize = 0;
    while i < params.len()
        invariant
            i <= params@.len(),
            ps == params_view(params@),
            db.wf(),
            (removed, db@) == delete_params(old(db)@, ps.take(i as int)),
            results@ == key_strings(removed),
        decreases params@.len() - i,
    {
        assert(ps.take(i + 1).drop_last() =~= ps.take(i as int));
        match &params[i].key {
            Some(key) => {
                match db.remove(key) {
                    Some(_) => {
                        results.push(string_value(key.clone()));
                        proof {
                            removed = removed.push(key@);
                        }
                        assert(results@ =~= key_strings(removed));
                    },
                    None => {},
                }
            },
            None => {},
        }
        i = i + 1;
    }
    assert(ps.take(params@.len() as int) =~= ps);
    NetResponse::success(Some(array_value(results)))
}


/// The commands the server can run.
#[derive(Debug, Clone, Copy, PartialEq, Eq, Structural)]
pub enum Executor {
    Insert,
    Lookup,
    Delete,
}

/// The command registered under `name`, if any.
pub open spec fn executor_named(name: Seq<char>) -> Option<Executor> {
    if name == "INSERT"@ || name == "INSERT *"@ {
        Some(Executor::Insert)
    } else if name == "LOOKUP"@ || name == "LOOKUP *"@ {
        Some(Executor::Lookup)
    } else if name == "DELETE"@ || name == "DELETE *"@ {
        Some(Executor::Delete)
    } else {
        None
    }
}

/// The reply of command `e` on `args` and the database after it.
pub open spec fn executor_outcome(e: Executor, args: ArgsView, db: Table, now: Instant) -> (Reply, Table) {
    match e {
        Executor::Insert => insert_outcome(args, db, now),
        Executor::Lookup => (lookup_reply(args, db), db),
        Executor::Delete => delete_outcome(args, db),
    }
}

/// Whether two texts are the same.
pub fn same_text(a: &str, b: &str) -> (r: bool)
    ensures
        r == (a@ == b@),
{
    a.to_owned() == b.to_owned()
}

/// Looks up the command registered under `name`.
pub fn executor_for(name: &str) -> (r: Option<Executor>)
    ensures
        r == executor_named(name@),
{
    if same_text(name, "INSERT") || same_text(name, "INSERT *") {
        Some(Executor::Insert)
    } else if same_text(name, "LOOKUP") || same_text(name, "LOOKUP *") {
        Some(Executor::Lookup)
    } else if same_text(name, "DELETE") || same_text(name, "DELETE *") {
        Some(Executor::Delete)
    } else {
        None
    }
}

/// Runs a command on the database.
pub trait CommandExecutor {
    /// Runs the command with `args` on `db` at the clock reading `now`.
    fn execute(&self, args: CommandArgs, db: &mut Store<Entry>, now: Instant) -> (r: NetResponse)
        requires
            old(db).wf(),
        ensures
            final(db).wf(),
    ;
}

impl CommandExecutor for Executor {
    fn execute(&self, args: CommandArgs, db: &mut Store<Entry>, now: Instant) -> (r: NetResponse)
        ensures
            (r@, final(db)@) == executor_outcome(*self, args@, old(db)@, now),
    {
        match self {
            Executor::Insert => insert_command(args, db, now),
            Executor::Lookup => lookup_command(args, db),
            Executor::Delete => delete_command(args, db),
        }
    }
}

/// Runs the command registered under `command_name`, or answers that it is unknown.
pub fn execute_command(command_name: &str, args: CommandArgs, db: &mut Store<Entry>, now: Instant) -> (r: NetResponse)
    requires
        old(db).wf(),
    ensures
        final(db).wf(),
        (r@, final(db)@) == match executor_named(command_name@) {
            Some(e) => executor_outcome(e, args@, old(db)@, now),
            None => (failure_reply("Error: Unknown command."@), old(db)@),
        },
{
    match executor_for(command_name) {
        Some(executor) => executor.execute(args, db, now),
        None => NetResponse::failure("Error: Unknown command.".to_owned()),
    }
}


/// The six command names are different texts.
pub proof fn lemma_command_names_distinct()
    ensures
        "INSERT"@ != "LOOKUP"@,
        "INSERT"@ != "DELETE"@,
        "INSERT"@ != "INSERT *"@,
        "INSERT"@ != "LOOKUP *"@,
        "INSERT"@ != "DELETE *"@,
        "LOOKUP"@ != "DELETE"@,
        "LOOKUP"@ != "INSERT *"@,
        "LOOKUP"@ != "LOOKUP *"@,
        "LOOKUP"@ != "DELETE *"@,
        "DELETE"@ != "INSERT *"@,
        "DELETE"@ != "LOOKUP *"@,
        "DELETE"@ != "DELETE *"@,
        "INSERT *"@ != "LOOKUP *"@,
        "INSERT *"@ != "DELETE *"@,
        "LOOKUP *"@ != "DELETE *"@,
{
    reveal_strlit("INSERT");
    reveal_strlit("LOOKUP");
    reveal_strlit("DELETE");
    reveal_strlit("INSERT *");
    reveal_strlit("LOOKUP *");
    reveal_strlit("DELETE *");
    assert("INSERT"@[0] != "LOOKUP"@[0]);
    assert("INSERT"@[0] != "DELETE"@[0]);
    assert("LOOKUP"@[0] != "DELETE"@[0]);
    assert("INSERT *"@[0] != "LOOKUP *"@[0]);
    assert("INSERT *"@[0] != "DELETE *"@[0]);
    assert("LOOKUP *"@[0] != "DELETE *"@[0]);
    assert("INSERT"@.len() != "INSERT *"@.len());
    assert("LOOKUP"@.len() != "LOOKUP *"@.len());
    assert("DELETE"@.len() != "DELETE *"@.len());
}

/// `CREATE`, `DESTROY` and `EXIT` are different texts, and different from the
/// six data command names.
pub proof fn lemma_session_names_distinct()
    ensures
        "CREATE"@ != "INSERT"@,
        "CREATE"@ != "LOOKUP"@,
        "CREATE"@ != "DELETE"@,
        "CREATE"@ != "INSERT *"@,
        "CREATE"@ != "LOOKUP *"@,
        "CREATE"@ != "DELETE *"@,
        "DESTROY"@ != "INSERT"@,
        "DESTROY"@ != "LOOKUP"@,
        "DESTROY"@ != "DELETE"@,
        "DESTROY"@ != "INSERT *"@,
        "DESTROY"@ != "LOOKUP *"@,
        "DESTROY"@ != "DELETE *"@,
        "DESTROY"@ != "CREATE"@,
        "EXIT"@ != "INSERT"@,
        "EXIT"@ != "LOOKUP"@,
        "EXIT"@ != "DELETE"@,
        "EXIT"@ != "INSERT *"@,
        "EXIT"@ != "LOOKUP *"@,
        "EXIT"@ != "DELETE *"@,
        "EXIT"@ != "CREATE"@,
        "EXIT"@ != "DESTROY"@,
{
    reveal_strlit("INSERT");
    reveal_strlit("LOOKUP");
    reveal_strlit("DELETE");
    reveal_strlit("INSERT *");
    reveal_strlit("LOOKUP *");
    reveal_strlit("DELETE *");
    reveal_strlit("CREATE");
    reveal_strlit("DESTROY");
    reveal_strlit("EXIT");
    assert("CREATE"@[0] != "INSERT"@[0]);
    assert("CREATE"@[0] != "LOOKUP"@[0]);
    assert("CREATE"@[0] != "DELETE"@[0]);
    assert("CREATE"@.len() != "INSERT *"@.len());
    assert("CREATE"@.len() != "LOOKUP *"@.len());
    assert("CREATE"@.len() != "DELETE *"@.len());
    assert("DESTROY"@.len() != "INSERT"@.len());
    assert("DESTROY"@.len() != "LOOKUP"@.len());
    assert("DESTROY"@.len() != "DELETE"@.len());
    assert("DESTROY"@.len() != "INSERT *"@.len());
    assert("DESTROY"@.len() != "LOOKUP *"@.len());
    assert("DESTROY"@.len() != "DELETE *"@.len());
    assert("DESTROY"@.len() != "CREATE"@.len());
    assert("EXIT"@.len() != "INSERT"@.len());
    assert("EXIT"@.len() != "LOOKUP"@.len());
    assert("EXIT"@.len() != "DELETE"@.len());
    assert("EXIT"@.len() != "INSERT *"@.len());
    assert("EXIT"@.len() != "LOOKUP *"@.len());
    assert("EXIT"@.len() != "DELETE *"@.len());
    assert("EXIT"@.len() != "CREATE"@.len());
    assert("EXIT"@.len() != "DESTROY"@.len());
}

/// The value `EXIT` answers with.
pub open spec fn exit_value() -> serde_json::Value {
    json_string("EXITING"@)
}

/// The reply to `CREATE` of `key` with `value` at `now`: the value is stored
/// only where the key is new.
pub open spec fn create_outcome(key: Seq<char>, value: DbValue, db: Table, now: Instant) -> (Reply, Table) {
    if db.contains_key(key) {
        (failure_reply("Key '"@ + key + "' already exists."@), db)
    } else {
        (success_reply(Some(ok_value())), db.insert(key, stored(value, now)))
    }
}

/// Executes `CREATE`: stores `value` under `key` at `now` if the key is new,
/// and refuses otherwise.
pub fn create_command(key: String, value: DbValue, db: &mut Store<Entry>, now: Instant) -> (r: NetResponse)
    requires
        old(db).wf(),
    ensures
        final(db).wf(),
        (r@, final(db)@) == create_outcome(key@, value, old(db)@, now),
{
    if db.contains_key(&key) {
        let mut m = "Key '".to_owned();
        m.append(key.as_str());
        m.append("' already exists.");
        NetResponse::failure(m)
    } else {
        db.insert(key, Entry::new(value, now));
        NetResponse::success(Some(string_value("OK".to_owned())))
    }
}

/// Executes `DESTROY`: drops every value of the database.
pub fn destroy_command(db: &mut Store<Entry>) -> (r: NetResponse)
    ensures
        final(db).wf(),
        final(db)@ == Map::<Seq<char>, Entry>::empty(),
        r@ == success_reply(Some(ok_value())),
{
    db.clear();
    NetResponse::success(Some(string_value("OK".to_owned())))
}

/// Executes `EXIT`: answers that the session ends; the database stays as it is.
pub fn exit_command() -> (r: NetResponse)
    ensures
        r@ == success_reply(Some(exit_value())),
{
    NetResponse::success(Some(string_value("EXITING".to_owned())))
}

/// Whether the command named `command_name`, in any letter case, ends the
/// client's session.
pub fn ends_session(command_name: &str) -> (r: bool)
    ensures
        r == (uppercase_of(command_name@) == "EXIT"@),
{
    let upper = to_uppercase(command_name);
    same_text(upper.as_str(), "EXIT")
}

/// The first element of an optional list, if there is one.
pub open spec fn first<T>(s: Option<Seq<T>>) -> Option<T> {
    match s {
        Some(s) => if s.len() > 0 {
            Some(s[0])
        } else {
            None
        },
        None => None,
    }
}

/// The smaller of two lengths.
pub open spec fn min_len(a: nat, b: nat) -> nat {
    if a <= b {
        a
    } else {
        b
    }
}

/// The items of a bulk insert: keys paired with values, as far as both go.
pub open spec fn bulk_insert_params(ks: Seq<Seq<char>>, vs: Seq<DbValue>) -> Seq<ParamView> {
    Seq::new(
        min_len(ks.len(), vs.len()),
        |i: int| ParamView { key: Some(ks[i]), value: Some(vs[i].value), ttl: vs[i].expires_in },
    )
}

/// The items of a bulk lookup or delete: the keys alone.
pub open spec fn key_params(ks: Seq<Seq<char>>) -> Seq<ParamView> {
    ks.map_values(|k: Seq<char>| ParamView { key: Some(k), value: None, ttl: None })
}

/// The reply to a command named `name` (already in upper case) with `keys`
/// and `values` at the clock reading `now`, and the database after it.
pub open spec fn route_outcome(
    name: Seq<char>,
    keys: Option<Seq<Seq<char>>>,
    values: Option<Seq<DbValue>>,
    db: Table,
    now: Instant,
) -> (Reply, Table) {
    if name == "INSERT"@ {
        match (first(keys), first(values)) {
            (Some(k), Some(v)) => insert_outcome(ArgsView::Single(Some(k), Some(v)), db, now),
            _ => (failure_reply("Error: Missing key or value for INSERT command."@), db),
        }
    } else if name == "LOOKUP"@ {
        match first(keys) {
            Some(k) => (lookup_reply(ArgsView::Single(Some(k), None), db), db),
            None => (failure_reply("Error: Missing key for LOOKUP command."@), db),
        }
    } else if name == "DELETE"@ {
        match first(keys) {
            Some(k) => delete_outcome(ArgsView::Single(Some(k), None), db),
            None => (failure_reply("Error: Missing key for DELETE command."@), db),
        }
    } else if name == "INSERT *"@ {
        match (keys, values) {
            (Some(ks), Some(vs)) => insert_outcome(ArgsView::Many(bulk_insert_params(ks, vs)), db, now),
            _ => (failure_reply("Error: Missing keys or values for bulk insert."@), db),
        }
    } else if name == "LOOKUP *"@ {
        match keys {
            Some(ks) => (lookup_reply(ArgsView::Many(key_params(ks)), db), db),
            None => (failure_reply("Error: Missing keys for bulk lookup."@), db),
        }
    } else if name == "DELETE *"@ {
        match keys {
            Some(ks) => delete_outcome(ArgsView::Many(key_params(ks)), db),
            None => (failure_reply("Error: Missing keys for bulk delete."@), db),
        }
    } else if name == "CREATE"@ {
        match (first(keys), first(values)) {
            (Some(k), Some(v)) => create_outcome(k, v, db, now),
            _ => (failure_reply("Error: Missing key or value for CREATE command."@), db),
        }
    } else if name == "DESTROY"@ {
        (success_reply(Some(ok_value())), Map::empty())
    } else if name == "EXIT"@ {
        (success_reply(Some(exit_value())), db)
    } else {
        (failure_reply("Error: Unknown command."@), db)
    }
}

/// The views of an optional list of keys.
pub open spec fn keys_view(keys: Option<Vec<String>>) -> Option<Seq<Seq<char>>> {
    match keys {
        Some(ks) => Some(ks@.map_values(|k: String| k@)),
        None => None,
    }
}

/// The views of an optional list of values.
pub open spec fn values_view(values: Option<Vec<DbValue>>) -> Option<Seq<DbValue>> {
    match values {
        Some(vs) => Some(vs@),
        None => None,
    }
}

/// Takes the first element out of an optional list.
fn take_first<T>(list: Option<Vec<T>>) -> (r: Option<T>)
    ensures
        r == first(match list {
            Some(l) => Some(l@),
            None => None,
        }),
{
    match list {
        Some(mut l) => if l.len() > 0 {
            Some(l.remove(0))
        } else {
            None
        },
        None => None,
    }
}

/// `INSERT`: inserts the first key with the first value.
fn handle_insert(keys: Option<Vec<String>>, values: Option<Vec<DbValue>>, db: &mut Store<Entry>, now: Instant) -> (r: NetResponse)
    requires
        old(db).wf(),
    ensures
        final(db).wf(),
        (r@, final(db)@) == route_outcome("INSERT"@, keys_view(keys), values_view(values), old(db)@, now),
{
    proof {
        lemma_command_names_distinct();
    }
    let ghost kv = keys_view(keys);
    match (take_first(keys), take_first(values)) {
        (Some(key), Some(data)) => {
            proof {
                assert(first(kv) == Some(key@));
            }
            execute_command(
                "INSERT",
                CommandArgs::Single(Some(key), Some(DbValue { value: data.value, expires_in: data.expires_in })),
                db,
                now,
            )
        },
        _ => NetResponse::failure("Error: Missing key or value for INSERT command.".to_owned()),
    }
}

/// `INSERT *`: inserts each key with the value at the same position.
fn handle_insert_bulk(keys: Option<Vec<String>>, values: Option<Vec<DbValue>>, db: &mut Store<Entry>, now: Instant) -> (r: NetResponse)
    requires
        old(db).wf(),
    ensures
        final(db).wf(),
        (r@, final(db)@) == route_outcome("INSERT *"@, keys_view(keys), values_view(values), old(db)@, now),
{
    proof {
        lemma_command_names_distinct();
    }
    match (keys, values) {
        (Some(keys), Some(values)) => {
            let ghost ks = keys@.map_values(|k: String| k@);
            let mut params: Vec<CommandParams> = Vec::new();
            let mut i: usize = 0;
            while i < keys.len() && i < values.len()
                invariant
                    i <= keys@.len(),
                    i <= values@.len(),
                    ks == keys@.map_values(|k: String| k@),
                    params@.len() == i,
                    forall|j: int|
                        0 <= j < i ==> (#[trigger] params@[j])@ == bulk_insert_params(ks, values@)[j],
                decreases keys@.len() - i,
            {
                params.push(
                    CommandParams {
                        key: Some(keys[i].clone()),
                        value: Some(values[i].value.clone()),
                        ttl: values[i].expires_in,
                    },
                );
                i = i + 1;
            }
            assert(params_view(params@) =~= bulk_insert_params(ks, values@));
            execute_command("INSERT *", CommandArgs::Many(params), db, now)
        },
        _ => NetResponse::failure("Error: Missing keys or values for bulk insert.".to_owned()),
    }
}

/// The items of a bulk lookup or delete, one for each key.
fn key_only_params(keys: Vec<String>) -> (r: Vec<CommandParams>)
    ensures
        params_view(r@) == key_params(keys@.map_values(|k: String| k@)),
{
    let ghost ks = keys@.map_values(|k: String| k@);
    let mut params: Vec<CommandParams> = Vec::new();
    let mut i: usize = 0;
    while i < keys.len()
        invariant
            i <= keys@.len(),
            ks == keys@.map_values(|k: String| k@),
            params@.len() == i,
            forall|j: int| 0 <= j < i ==> (#[trigger] params@[j])@ == key_params(ks)[j],
        decreases keys@.len() - i,
    {
        params.push(CommandParams { key: Some(keys[i].clone()), value: None, ttl: None });
        i = i + 1;
    }
    assert(params_view(params@) =~= key_params(ks));
    params
}

/// `LOOKUP`: reads the first key.
fn handle_lookup(keys: Option<Vec<String>>, db: &mut Store<Entry>, now: Instant) -> (r: NetResponse)
    requires
        old(db).wf(),
    ensures
        final(db).wf(),
        (r@, final(db)@) == route_outcome("LOOKUP"@, keys_view(keys), None, old(db)@, now),
{
    proof {
        lemma_command_names_distinct();
    }
    let ghost kv = keys_view(keys);
    match take_first(keys) {
        Some(key) => {
            proof {
                assert(first(kv) == Some(key@));
            }
            execute_command("LOOKUP", CommandArgs::Single(Some(key), None), db, now)
        },
        None => NetResponse::failure("Error: Missing key for LOOKUP command.".to_owned()),
    }
}

/// `LOOKUP *`: reads every key.
fn handle_lookup_bulk(keys: Option<Vec<String>>, db: &mut Store<Entry>, now: Instant) -> (r: NetResponse)
    requires
        old(db).wf(),
    ensures
        final(db).wf(),
        (r@, final(db)@) == route_outcome("LOOKUP *"@, keys_view(keys), None, old(db)@, now),
{
    proof {
        lemma_command_names_distinct();
    }
    match keys {
        Some(keys) => execute_command("LOOKUP *", CommandArgs::Many(key_only_params(keys)), db, now),
        None => NetResponse::failure("Error: Missing keys for bulk lookup.".to_owned()),
    }
}

/// `DELETE`: removes the first key.
fn handle_delete(keys: Option<Vec<String>>, db: &mut Store<Entry>, now: Instant) -> (r: NetResponse)
    requires
        old(db).wf(),
    ensures
        final(db).wf(),
        (r@, final(db)@) == route_outcome("DELETE"@, keys_view(keys), None, old(db)@, now),
{
    proof {
        lemma_command_names_distinct();
    }
    let ghost kv = keys_view(keys);
    match take_first(keys) {
        Some(key) => {
            proof {
                assert(first(kv) == Some(key@));
            }
            execute_command("DELETE", CommandArgs::Single(Some(key), None), db, now)
        },
        None => NetResponse::failure("Error: Missing key for DELETE command.".to_owned()),
    }
}

/// `DELETE *`: removes every key.
fn handle_delete_bulk(keys: Option<Vec<String>>, db: &mut Store<Entry>, now: Instant) -> (r: NetResponse)
    requires
        old(db).wf(),
    ensures
        final(db).wf(),
        (r@, final(db)@) == route_outcome("DELETE *"@, keys_view(keys), None, old(db)@, now),
{
    proof {
        lemma_command_names_distinct();
    }
    match keys {
        Some(keys) => execute_command("DELETE *", CommandArgs::Many(key_only_params(keys)), db, now),
        None => NetResponse::failure("Error: Missing keys for bulk delete.".to_owned()),
    }
}

/// Runs the command named `command_name`, which is already in upper case.
pub fn route(
    command_name: &str,
    keys: Option<Vec<String>>,
    values: Option<Vec<DbValue>>,
    db: &mut Store<Entry>,
    now: Instant,
) -> (r: NetResponse)
    requires
        old(db).wf(),
    ensures
        final(db).wf(),
        (r@, final(db)@) == route_outcome(command_name@, keys_view(keys), values_view(values), old(db)@, now),
{
    if same_text(command_name, "INSERT") {
        handle_insert(keys, values, db, now)
    } else if same_text(command_name, "LOOKUP") {
        handle_lookup(keys, db, now)
    } else if same_text(command_name, "DELETE") {
        handle_delete(keys, db, now)
    } else if same_text(command_name, "INSERT *") {
        handle_insert_bulk(keys, values, db, now)
    } else if same_text(command_name, "LOOKUP *") {
        handle_lookup_bulk(keys, db, now)
    } else if same_text(command_name, "DELETE *") {
        handle_delete_bulk(keys, db, now)
    } else if same_text(command_name, "CREATE") {
        handle_create(keys, values, db, now)
    } else if same_text(command_name, "DESTROY") {
        proof {
            lemma_command_names_distinct();
            lemma_session_names_distinct();
        }
        destroy_command(db)
    } else if same_text(command_name, "EXIT") {
        proof {
            lemma_command_names_distinct();
            lemma_session_names_distinct();
        }
        exit_command()
    } else {
        NetResponse::failure("Error: Unknown command.".to_owned())
    }
}

/// `CREATE`: stores the first value under the first key, if that key is new.
fn handle_create(keys: Option<Vec<String>>, values: Option<Vec<DbValue>>, db: &mut Store<Entry>, now: Instant) -> (r: NetResponse)
    requires
        old(db).wf(),
    ensures
        final(db).wf(),
        (r@, final(db)@) == route_outcome("CREATE"@, keys_view(keys), values_view(values), old(db)@, now),
{
    proof {
        lemma_command_names_distinct();
        lemma_session_names_distinct();
    }
    let ghost kv = keys_view(keys);
    match (take_first(keys), take_first(values)) {
        (Some(key), Some(data)) => {
            proof {
                assert(first(kv) == Some(key@));
            }
            create_command(key, data, db, now)
        },
        _ => NetResponse::failure("Error: Missing key or value for CREATE command.".to_owned()),
    }
}


/// The keys of a network command, as text.
pub open spec fn command_keys(command: NetCommand) -> Option<Seq<Seq<char>>> {
    match command.keys {
        Some(ks) => Some(ks@.map_values(|k: &str| k@)),
        None => None,
    }
}

/// The values of a network command, each living for the time-to-live at the
/// same position, as far as both lists go.
pub open spec fn command_values(command: NetCommand) -> Option<Seq<DbValue>> {
    match (command.values, command.ttls) {
        (Some(vs), Some(ts)) => Some(
            Seq::new(
                min_len(vs@.len(), ts@.len()),
                |i: int| DbValue { value: vs@[i].value, expires_in: Some(ts@[i]) },
            ),
        ),
        _ => None,
    }
}

/// The keys of a network command as owned text.
fn owned_keys(keys: Option<Vec<&str>>) -> (r: Option<Vec<String>>)
    ensures
        keys_view(r) == match keys {
            Some(ks) => Some(ks@.map_values(|k: &str| k@)),
            None => None,
        },
{
    match keys {
        Some(ks) => {
            let mut out: Vec<String> = Vec::new();
            let mut i: usize = 0;
            while i < ks.len()
                invariant
                    i <= ks@.len(),
                    out@.len() == i,
                    forall|j: int| 0 <= j < i ==> (#[trigger] out@[j])@ == ks@[j]@,
                decreases ks@.len() - i,
            {
                out.push(ks[i].to_owned());
                i = i + 1;
            }
            assert(out@.map_values(|k: String| k@) =~= ks@.map_values(|k: &str| k@));
            Some(out)
        },
        None => None,
    }
}

/// Pairs each value with the time-to-live at the same position.
fn values_with_ttls(values: Option<Vec<DbValue>>, ttls: Option<Vec<std::time::Duration>>) -> (r: Option<Vec<DbValue>>)
    requires
        values is Some ==> ttls is Some,
    ensures
        values_view(r) == match (values, ttls) {
            (Some(vs), Some(ts)) => Some(
                Seq::new(
                    min_len(vs@.len(), ts@.len()),
                    |i: int| DbValue { value: vs@[i].value, expires_in: Some(ts@[i]) },
                ),
            ),
            _ => None,
        },
{
    match values {
        Some(vs) => {
            let ts = match ttls {
                Some(ts) => ts,
                None => Vec::new(),
            };
            let ghost want = Seq::new(
                min_len(vs@.len(), ts@.len()),
                |i: int| DbValue { value: vs@[i].value, expires_in: Some(ts@[i]) },
            );
            let mut out: Vec<DbValue> = Vec::new();
            let mut i: usize = 0;
            while i < vs.len() && i < ts.len()
                invariant
                    i <= vs@.len(),
                    i <= ts@.len(),
                    want == Seq::new(
                        min_len(vs@.len(), ts@.len()),
                        |i: int| DbValue { value: vs@[i].value, expires_in: Some(ts@[i]) },
                    ),
                    out@.len() == i,
                    forall|j: int| 0 <= j < i ==> #[trigger] out@[j] == want[j],
                decreases vs@.len() - i,
            {
                out.push(DbValue { value: vs[i].value.clone(), expires_in: Some(ts[i]) });
                i = i + 1;
            }
            assert(out@ =~= want);
            Some(out)
        },
        None => None,
    }
}

/// Handles a command received from the network at the clock reading `now`:
/// puts its name in upper case, gives each value its time-to-live and runs
/// it on the database.
pub fn handler(command: NetCommand, db: &mut Store<Entry>, now: Instant) -> (r: NetResponse)
    requires
        old(db).wf(),
        command.values is Some ==> command.ttls is Some,
    ensures
        final(db).wf(),
        (r@, final(db)@) == route_outcome(
            uppercase_of(command.name@),
            command_keys(command),
            command_values(command),
            old(db)@,
            now,
        ),
{
    let command_name = to_uppercase(command.name);
    let keys = owned_keys(command.keys);
    let values = values_with_ttls(command.values, command.ttls);
    route(command_name.as_str(), keys, values, db, now)
}

} // verus!
