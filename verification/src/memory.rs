//! The command-execution engine: the command datatype, the per-command
//! policy of one execution unit, and the database that couples the shared
//! store with its snapshot file.
//!
//! Every mutating command is write-through: before an execution unit reports
//! success, the snapshot file model holds the serialization of the store as
//! of that unit's write.  A unit applies its store mutation and its snapshot
//! as one step; a caller that runs several units concurrently must keep the
//! mutate-plus-snapshot pair of each unit in one critical section, which
//! trades the snapshot-lag race away for a slightly longer lock hold.

use vstd::prelude::*;
use crate::parser::{split_ws, int_token_valid, signed_val, tokenize, parse_i64};
use crate::persistence::{SnapshotFile, SnapshotView, json_of, write_local};
use crate::store::{Pairs, Store, as_map, lookup, remove_key, upsert};

verus! {

/// The verbs of the command protocol.
#[derive(Clone, Copy, PartialEq, Eq, Structural, Debug)]
pub enum Commands {
    Insert,
    Get,
    List,
    Delete,
    Clear,
    Exit,
}

/// One parsed command: a verb, a key and an optional value.
#[derive(Clone, PartialEq, Eq, Debug)]
pub struct Command {
    pub command: Commands,
    pub key: String,
    pub value: Option<String>,
}

/// A command as specifications see it.
#[verifier::ext_equal]
pub struct CommandView {
    pub command: Commands,
    pub key: Seq<char>,
    pub value: Option<Seq<char>>,
}

impl View for Command {
    type V = CommandView;

    open spec fn view(&self) -> CommandView {
        CommandView { command: self.command, key: self.key@, value: self.value.deep_view() }
    }
}

/// The success message of `set` and of a `get` that found its key.
pub open spec fn msg_kv(k: Seq<char>, v: Seq<char>) -> Seq<char> {
    "key: "@ + k + ", value: "@ + v
}

/// The message of a `get` whose key is absent: a normal result, not an
/// error.
pub open spec fn msg_absent(k: Seq<char>) -> Seq<char> {
    "key '"@ + k + "' does not exist"@
}

/// The success message of `delete`.
pub open spec fn msg_removed(k: Seq<char>) -> Seq<char> {
    "key removed: "@ + k
}

/// The success message of `clear`.
pub open spec fn msg_cleared() -> Seq<char> {
    "database cleared"@
}

/// The validation error for an empty key.
pub open spec fn err_key() -> Seq<char> {
    "Key required length > 0"@
}

/// The validation error for a missing or empty value.
pub open spec fn err_value() -> Seq<char> {
    "Value required length > 0"@
}

/// One list entry, before quoting.
pub open spec fn entry_text(k: Seq<char>, v: Seq<char>) -> Seq<char> {
    "key '"@ + k + "', value '"@ + v + "'"@
}

/// How one character is escaped inside a quoted list entry.
pub open spec fn esc_char(c: char) -> Seq<char> {
    if c == '"' {
        "\\\""@
    } else if c == '\\' {
        "\\\\"@
    } else {
        seq![c]
    }
}

/// Quote-escaping of a whole entry.
pub open spec fn esc(s: Seq<char>) -> Seq<char>
    decreases s.len(),
{
    if s.len() == 0 {
        Seq::empty()
    } else {
        esc(s.drop_last()) + esc_char(s.last())
    }
}

/// One list entry, quoted and escaped.
pub open spec fn quoted_entry(p: (Seq<char>, Seq<char>)) -> Seq<char> {
    "\""@ + esc(entry_text(p.0, p.1)) + "\""@
}

/// The comma-separated quoted entries.
pub open spec fn render_inner(ps: Pairs) -> Seq<char>
    decreases ps.len(),
{
    if ps.len() == 0 {
        Seq::empty()
    } else if ps.len() == 1 {
        quoted_entry(ps[0])
    } else {
        render_inner(ps.drop_last()) + ", "@ + quoted_entry(ps.last())
    }
}

/// The one-line rendering of the whole store that `list` answers with: the
/// quoted entries in store order, between brackets.
pub open spec fn render_list(ps: Pairs) -> Seq<char> {
    "["@ + render_inner(ps) + "]"@
}

/// The store and its snapshot file, as specifications see them.
#[verifier::ext_equal]
pub struct DbView {
    pub pairs: Pairs,
    pub file: SnapshotView,
}

/// The shared store together with the snapshot file it persists to.
pub struct Database {
    pub store: Store,
    pub file: SnapshotFile,
}

impl View for Database {
    type V = DbView;

    open spec fn view(&self) -> DbView {
        DbView { pairs: self.store@, file: self.file@ }
    }
}

impl Database {
    /// The database's invariant: the store's keys are pairwise distinct.
    pub open spec fn wf(&self) -> bool {
        self.store.wf()
    }

    /// Couple a store with its snapshot file.
    pub fn new(store: Store, file: SnapshotFile) -> (db: Database)
        ensures
            db@.pairs == store@,
            db@.file == file@,
    {
        Database { store, file }
    }
}

/// The result of one execution unit, as specifications see it.
pub open spec fn res_view(r: Result<String, String>) -> Result<Seq<char>, Seq<char>> {
    match r {
        Ok(m) => Ok(m@),
        Err(e) => Err(e@),
    }
}

/// A mutating verb: one that changes the store and must snapshot.
pub open spec fn is_mutating(c: Commands) -> bool {
    c == Commands::Insert || c == Commands::Delete || c == Commands::Clear
}

/// The snapshot file state after persisting `ps`.
pub open spec fn snapshotted(ps: Pairs) -> SnapshotView {
    SnapshotView { primary: Some(json_of(as_map(ps))), temp: None }
}

/// What one execution unit does: the next database state and the unit's
/// result.  `Exit` never reaches a unit (it terminates the caller instead),
/// so its arm is arbitrary.
pub open spec fn step(c: CommandView, s: DbView) -> (DbView, Result<Seq<char>, Seq<char>>) {
    match c.command {
        Commands::Insert => {
            if c.key.len() == 0 {
                (s, Err(err_key()))
            } else {
                match c.value {
                    Some(v) => {
                        if v.len() == 0 {
                            (s, Err(err_value()))
                        } else {
                            let ps = upsert(s.pairs, c.key, v);
                            (DbView { pairs: ps, file: snapshotted(ps) }, Ok(msg_kv(c.key, v)))
                        }
                    },
                    None => (s, Err(err_value())),
                }
            }
        },
        Commands::Get => {
            if c.key.len() == 0 {
                (s, Err(err_key()))
            } else {
                match lookup(s.pairs, c.key) {
                    Some(v) => (s, Ok(msg_kv(c.key, v))),
                    None => (s, Ok(msg_absent(c.key))),
                }
            }
        },
        Commands::List => (s, Ok(render_list(s.pairs))),
        Commands::Delete => {
            if c.key.len() == 0 {
                (s, Err(err_key()))
            } else {
                let ps = remove_key(s.pairs, c.key);
                (DbView { pairs: ps, file: snapshotted(ps) }, Ok(msg_removed(c.key)))
            }
        },
        Commands::Clear => {
            let ps = Seq::<(Seq<char>, Seq<char>)>::empty();
            (DbView { pairs: ps, file: snapshotted(ps) }, Ok(msg_cleared()))
        },
        Commands::Exit => (s, Err(Seq::<char>::empty())),
    }
}

/// Reject an empty key, with the fixed validation error.
pub fn require_key(command: &Command) -> (r: Result<(), String>)
    ensures
        r is Ok <==> command@.key.len() > 0,
        r is Err ==> r->Err_0@ == err_key(),
{
    if command.key.as_str().is_empty() {
        Err("Key required length > 0".to_owned())
    } else {
        Ok(())
    }
}

/// Reject a missing or empty value, with the fixed validation error.
pub fn require_value(command: &Command) -> (r: Result<(), String>)
    ensures
        r is Ok <==> (command@.value matches Some(v) && v.len() > 0),
        r is Err ==> r->Err_0@ == err_value(),
{
    match &command.value {
        Some(v) => {
            if v.as_str().is_empty() {
                Err("Value required length > 0".to_owned())
            } else {
                Ok(())
            }
        },
        None => Err("Value required length > 0".to_owned()),
    }
}

/// Build `"key: {k}, value: {v}"`.
fn format_kv(k: &String, v: &String) -> (r: String)
    ensures
        r@ == msg_kv(k@, v@),
{
    let mut out = "key: ".to_owned();
    out.append(k.as_str());
    out.append(", value: ");
    out.append(v.as_str());
    out
}

/// Append the escaped form of `s` to `out`.
fn escape_into(out: &mut String, s: &String)
    ensures
        final(out)@ == old(out)@ + esc(s@),
{
    let n = s.as_str().unicode_len();
    let mut i: usize = 0;
    proof {
        assert(s@.take(0) =~= Seq::<char>::empty());
        assert(out@ + esc(s@.take(0)) =~= out@);
    }
    while i < n
        invariant
            n == s@.len(),
            i <= n,
            out@ == old(out)@ + esc(s@.take(i as int)),
        decreases n - i,
    {
        let c = s.as_str().get_char(i);
        if c == '"' {
            out.append("\\\"");
        } else if c == '\\' {
            out.append("\\\\");
        } else {
            let piece = s.as_str().substring_char(i, i + 1);
            proof {
                assert(piece@ =~= seq![c]);
            }
            out.append(piece);
        }
        proof {
            let p = s@.take(i + 1);
            assert(p.drop_last() =~= s@.take(i as int));
            assert(p.last() == s@[i as int]);
            assert(out@ =~= old(out)@ + esc(s@.take(i + 1)));
        }
        i += 1;
    }
    proof {
        assert(s@.take(n as int) =~= s@);
    }
}

/// Render the whole store as `list` answers it.
fn format_list(store: &Store) -> (r: String)
    ensures
        r@ == render_list(store@),
{
    let mut out = "[".to_owned();
    let n = store.len();
    let mut i: usize = 0;
    proof {
        assert(store@.take(0) =~= Seq::<(Seq<char>, Seq<char>)>::empty());
        assert(out@ + render_inner(store@.take(0)) =~= out@);
    }
    while i < n
        invariant
            n == store@.len(),
            i <= n,
            out@ == "["@ + render_inner(store@.take(i as int)),
        decreases n - i,
    {
        if i > 0 {
            out.append(", ");
        }
        out.append("\"");
        let mut entry = "key '".to_owned();
        entry.append(store.pairs[i].0.as_str());
        entry.append("', value '");
        entry.append(store.pairs[i].1.as_str());
        entry.append("'");
        proof {
            assert(entry@ == entry_text(store@[i as int].0, store@[i as int].1));
        }
        escape_into(&mut out, &entry);
        out.append("\"");
        proof {
            let p = store@.take(i + 1);
            assert(p.drop_last() =~= store@.take(i as int));
            assert(p.last() == store@[i as int]);
            assert(out@ =~= "["@ + render_inner(store@.take(i + 1)));
        }
        i += 1;
    }
    proof {
        assert(store@.take(n as int) =~= store@);
    }
    out.append("]");
    out
}

/// Apply one command to the database: the per-command policy of a single
/// execution unit.  Mutating commands persist a snapshot before they report
/// success; `Exit` is the caller's business and never reaches a unit.
pub fn exec(command: &Command, db: &mut Database) -> (r: Result<String, String>)
    requires
        old(db).wf(),
        command.command != Commands::Exit,
    ensures
        final(db).wf(),
        final(db)@ == step(command@, old(db)@).0,
        res_view(r) == step(command@, old(db)@).1,
{
    match command.command {
        Commands::Insert => {
            match require_key(command) {
                Err(e) => Err(e),
                Ok(()) => match require_value(command) {
                    Err(e) => Err(e),
                    Ok(()) => {
                        let value = match &command.value {
                            Some(v) => v.clone(),
                            None => vstd::pervasive::unreached(),
                        };
                        db.store.insert(command.key.clone(), value.clone());
                        let w = write_local(&db.store, &mut db.file);
                        proof {
                            assert(db@ =~= step(command@, old(db)@).0);
                        }
                        match w {
                            Ok(()) => Ok(format_kv(&command.key, &value)),
                            Err(e) => Err(e),
                        }
                    },
                },
            }
        },
        Commands::Get => exec_read(command, db),
        Commands::List => exec_read(command, db),
        Commands::Delete => {
            match require_key(command) {
                Err(e) => Err(e),
                Ok(()) => {
                    db.store.remove(&command.key);
                    let w = write_local(&db.store, &mut db.file);
                    proof {
                        assert(db@ =~= step(command@, old(db)@).0);
                    }
                    match w {
                        Ok(()) => {
                            let mut out = "key removed: ".to_owned();
                            out.append(command.key.as_str());
                            Ok(out)
                        },
                        Err(e) => Err(e),
                    }
                },
            }
        },
        Commands::Clear => {
            db.store.clear();
            let w = write_local(&db.store, &mut db.file);
            proof {
                assert(db@ =~= step(command@, old(db)@).0);
            }
            match w {
                Ok(()) => Ok("database cleared".to_owned()),
                Err(e) => Err(e),
            }
        },
        Commands::Exit => vstd::pervasive::unreached(),
    }
}

/// Apply a read-only command, `get` or `list`: shared access to the
/// database suffices, several readers may run at once, and the database is
/// left untouched.
pub fn exec_read(command: &Command, db: &Database) -> (r: Result<String, String>)
    requires
        command.command == Commands::Get || command.command == Commands::List,
    ensures
        res_view(r) == step(command@, db@).1,
{
    match command.command {
        Commands::Get => {
            match require_key(command) {
                Err(e) => Err(e),
                Ok(()) => {
                    match db.store.get(&command.key) {
                        Some(v) => Ok(format_kv(&command.key, &v)),
                        None => {
                            let mut out = "key '".to_owned();
                            out.append(command.key.as_str());
                            out.append("' does not exist");
                            Ok(out)
                        },
                    }
                },
            }
        },
        Commands::List => Ok(format_list(&db.store)),
        _ => vstd::pervasive::unreached(),
    }
}

/// The database states and unit results of `n` execution units run one
/// after the other on the same command.
pub open spec fn run_units(c: CommandView, s: DbView, n: nat) -> (DbView, Seq<
    Result<Seq<char>, Seq<char>>,
>)
    decreases n,
{
    if n == 0 {
        (s, Seq::empty())
    } else {
        let first = step(c, s);
        let rest = run_units(c, first.0, (n - 1) as nat);
        (rest.0, seq![first.1] + rest.1)
    }
}

/// Running one more unit appends its result after the earlier ones.
pub proof fn lemma_run_units_snoc(c: CommandView, s: DbView, n: nat)
    ensures
        run_units(c, s, n + 1).0 == step(c, run_units(c, s, n).0).0,
        run_units(c, s, n + 1).1 == run_units(c, s, n).1.push(
            step(c, run_units(c, s, n).0).1,
        ),
    decreases n,
{
    reveal_with_fuel(run_units, 2);
    if n == 0 {
        assert(run_units(c, s, 1).1 =~= run_units(c, s, 0).1.push(
            step(c, run_units(c, s, 0).0).1,
        ));
    } else {
        let first = step(c, s);
        lemma_run_units_snoc(c, first.0, (n - 1) as nat);
        assert(seq![first.1] + run_units(c, first.0, (n - 1) as nat).1.push(
            step(c, run_units(c, first.0, (n - 1) as nat).0).1,
        ) =~= (seq![first.1] + run_units(c, first.0, (n - 1) as nat).1).push(
            step(c, run_units(c, first.0, (n - 1) as nat).0).1,
        ));
    }
}

/// The unit results of one dispatch, as specifications see them.
pub open spec fn results_view(rs: Seq<Result<String, String>>) -> Seq<
    Result<Seq<char>, Seq<char>>,
> {
    rs.map_values(|r: Result<String, String>| res_view(r))
}

/// The dispatch outcome, as specifications see it.
pub open spec fn outcome_view(r: Result<Vec<String>, String>) -> Result<
    Seq<Seq<char>>,
    Seq<char>,
> {
    match r {
        Ok(ms) => Ok(ms.deep_view()),
        Err(e) => Err(e@),
    }
}

/// How a dispatch aggregates its units' results: every unit succeeded and
/// the success messages are kept in arrival order, or the first error
/// becomes the dispatch's error and the successes are discarded.
pub open spec fn aggregate_spec(rs: Seq<Result<Seq<char>, Seq<char>>>) -> Result<
    Seq<Seq<char>>,
    Seq<char>,
>
    decreases rs.len(),
{
    if rs.len() == 0 {
        Ok(Seq::empty())
    } else {
        match rs[0] {
            Err(e) => Err(e),
            Ok(m) => match aggregate_spec(rs.drop_first()) {
                Ok(ms) => Ok(seq![m] + ms),
                Err(e) => Err(e),
            },
        }
    }
}

/// Partition unit results: all success messages in order if no unit
/// failed, otherwise the first error.  The successes of a failed dispatch
/// are discarded here, but the units' side effects have already happened
/// and are not rolled back.
pub fn aggregate(results: Vec<Result<String, String>>) -> (r: Result<Vec<String>, String>)
    ensures
        outcome_view(r) == aggregate_spec(results_view(results@)),
{
    let ghost all = results_view(results@);
    let n = results.len();
    let mut oks: Vec<String> = Vec::new();
    let mut first_err: Option<String> = None;
    let mut i: usize = 0;
    proof {
        assert(all.skip(0) =~= all);
        assert(oks.deep_view() =~= Seq::<Seq<char>>::empty());
    }
    while i < n
        invariant
            n == results.len(),
            i <= n,
            all == results_view(results@),
            first_err is None ==> aggregate_spec(all) == match aggregate_spec(
                all.skip(i as int),
            ) {
                Ok(ms) => Ok::<Seq<Seq<char>>, Seq<char>>(oks.deep_view() + ms),
                Err(e) => Err(e),
            },
            first_err matches Some(e) ==> aggregate_spec(all) == Err::<
                Seq<Seq<char>>,
                Seq<char>,
            >(e@),
        decreases n - i,
    {
        proof {
            assert(all.skip(i as int).drop_first() =~= all.skip(i + 1));
            assert(all[i as int] == res_view(results@[i as int]));
        }
        match &results[i] {
            Ok(m) => {
                let ghost pre = oks.deep_view();
                oks.push(m.clone());
                proof {
                    assert(oks.deep_view() =~= pre.push(m@));
                    if first_err is None {
                        match aggregate_spec(all.skip(i + 1)) {
                            Ok(ms) => {
                                assert(pre.push(m@) + ms =~= pre + (seq![m@] + ms));
                            },
                            Err(_) => {},
                        }
                    }
                }
            },
            Err(e) => {
                if first_err.is_none() {
                    first_err = Some(e.clone());
                }
            },
        }
        i += 1;
    }
    proof {
        assert(all.skip(n as int) =~= Seq::<Result<Seq<char>, Seq<char>>>::empty());
        if first_err is None {
            assert(oks.deep_view() + Seq::<Seq<char>>::empty() =~= oks.deep_view());
        }
    }
    match first_err {
        Some(e) => Err(e),
        None => Ok(oks),
    }
}

/// The parse error for a line whose first token is no verb (or which has no
/// tokens at all).
pub open spec fn err_unknown() -> Seq<char> {
    "Unknown command"@
}

/// The parse error for a multiplier token that is not a 64-bit decimal
/// integer.
pub open spec fn err_multiplier() -> Seq<char> {
    "invalid multiplier"@
}

/// The verb a token names, if any.
pub open spec fn verb_of(t: Seq<char>) -> Option<Commands> {
    if t == "set"@ {
        Some(Commands::Insert)
    } else if t == "get"@ {
        Some(Commands::Get)
    } else if t == "list"@ {
        Some(Commands::List)
    } else if t == "delete"@ {
        Some(Commands::Delete)
    } else if t == "clear"@ {
        Some(Commands::Clear)
    } else if t == "exit"@ {
        Some(Commands::Exit)
    } else {
        None
    }
}

/// Whether the verb's line carries a key token.
pub open spec fn takes_key(c: Commands) -> bool {
    c == Commands::Insert || c == Commands::Get || c == Commands::Delete
}

/// Where the verb's optional multiplier token sits; `0` for a verb that
/// takes none.
pub open spec fn mult_index(c: Commands) -> int {
    match c {
        Commands::Insert => 3,
        Commands::Get => 2,
        Commands::Delete => 2,
        Commands::List => 1,
        Commands::Clear => 1,
        Commands::Exit => 0,
    }
}

/// What parsing a command line yields: the command and its multiplier, or
/// the parse error for that line.  The first token is the verb; `set` takes
/// a key and a value, `get` and `delete` a key, `list`, `clear` and `exit`
/// none (an absent key reads as `default`).  The next position holds the
/// optional multiplier: absent means one run, non-numeric is a parse error.
/// Extra tokens are ignored.
pub open spec fn parse_line(line: Seq<char>) -> Result<(CommandView, int), Seq<char>> {
    let toks = split_ws(line);
    if toks.len() == 0 {
        Err(err_unknown())
    } else {
        match verb_of(toks[0]) {
            None => Err(err_unknown()),
            Some(cmd) => {
                let key = if takes_key(cmd) && toks.len() >= 2 {
                    toks[1]
                } else {
                    "default"@
                };
                let value = if cmd == Commands::Insert && toks.len() >= 3 {
                    Some(toks[2])
                } else {
                    None
                };
                let mi = mult_index(cmd);
                if mi > 0 && toks.len() > mi && !int_token_valid(toks[mi]) {
                    Err(err_multiplier())
                } else {
                    let m: int = if mi > 0 && toks.len() > mi {
                        signed_val(toks[mi])
                    } else {
                        1
                    };
                    Ok((CommandView { command: cmd, key, value }, m))
                }
            },
        }
    }
}

/// Whether a token equals a fixed word.
fn tok_eq(tok: &String, lit: &str) -> (b: bool)
    ensures
        b == (tok@ == lit@),
{
    let l: String = lit.to_owned();
    *tok == l
}

/// Parse one command line: tokens separated by ASCII whitespace, a verb, an
/// optional key and value, and an optional multiplier.  A bad line is a
/// parse error for that line only; the caller's loop goes on.
pub fn parse_arguments(line: String) -> (r: Result<(Command, i64), String>)
    ensures
        r matches Ok(p) ==> (parse_line(line@) matches Ok(q) && p.0@ == q.0 && p.1 as int
            == q.1),
        r matches Err(e) ==> (parse_line(line@) matches Err(m) && e@ == m),
{
    let tokens = tokenize(line.as_str());
    if tokens.len() == 0 {
        return Err("Unknown command".to_owned());
    }
    let verb = &tokens[0];
    let cmd_kind: Commands = if tok_eq(verb, "set") {
        Commands::Insert
    } else if tok_eq(verb, "get") {
        Commands::Get
    } else if tok_eq(verb, "list") {
        Commands::List
    } else if tok_eq(verb, "delete") {
        Commands::Delete
    } else if tok_eq(verb, "clear") {
        Commands::Clear
    } else if tok_eq(verb, "exit") {
        Commands::Exit
    } else {
        return Err("Unknown command".to_owned());
    };
    let wants_key: bool = match cmd_kind {
        Commands::Insert => true,
        Commands::Get => true,
        Commands::Delete => true,
        _ => false,
    };
    let key: String = if wants_key && tokens.len() >= 2 {
        tokens[1].clone()
    } else {
        "default".to_owned()
    };
    let value: Option<String> = match cmd_kind {
        Commands::Insert => {
            if tokens.len() >= 3 {
                Some(tokens[2].clone())
            } else {
                None
            }
        },
        _ => None,
    };
    let mi: usize = match cmd_kind {
        Commands::Insert => 3,
        Commands::Get => 2,
        Commands::Delete => 2,
        Commands::List => 1,
        Commands::Clear => 1,
        Commands::Exit => 0,
    };
    let multiplier: i64 = if mi > 0 && tokens.len() > mi {
        match parse_i64(tokens[mi].as_str()) {
            Some(v) => v,
            None => {
                return Err("invalid multiplier".to_owned());
            },
        }
    } else {
        1
    };
    let command = Command { command: cmd_kind, key, value };
    proof {
        let toks = split_ws(line@);
        assert(toks[0] == tokens.deep_view()[0]);
        assert(command@ =~= parse_line(line@)->Ok_0.0);
    }
    Ok((command, multiplier))
}

/// How many execution units a multiplier asks for.
pub open spec fn n_units(multiplier: i64) -> nat {
    if multiplier <= 0 {
        0nat
    } else {
        multiplier as nat
    }
}

/// The fan-out coordinator: run `multiplier` execution units of one command
/// against the same database, collect every unit's result, and aggregate
/// them.  Units whose side effects landed before another unit's error are
/// not rolled back.
pub fn execute_command(command: &Command, db: &mut Database, multiplier: i64) -> (r: Result<
    Vec<String>,
    String,
>)
    requires
        old(db).wf(),
        command.command != Commands::Exit,
    ensures
        final(db).wf(),
        final(db)@ == run_units(command@, old(db)@, n_units(multiplier)).0,
        outcome_view(r) == aggregate_spec(run_units(command@, old(db)@, n_units(multiplier)).1),
{
    let mut results: Vec<Result<String, String>> = Vec::new();
    let mut k: i64 = 0;
    if multiplier > 0 {
        proof {
            assert(results_view(results@) =~= run_units(command@, old(db)@, 0).1);
        }
        while k < multiplier
            invariant
                0 <= k <= multiplier,
                db.wf(),
                command.command != Commands::Exit,
                db@ == run_units(command@, old(db)@, k as nat).0,
                results_view(results@) == run_units(command@, old(db)@, k as nat).1,
            decreases multiplier - k,
        {
            let ghost pre = results_view(results@);
            let one = exec(command, db);
            proof {
                lemma_run_units_snoc(command@, old(db)@, k as nat);
            }
            results.push(one);
            proof {
                assert(results_view(results@) =~= pre.push(res_view(one)));
            }
            k += 1;
        }
    } else {
        proof {
            assert(results_view(results@) =~= run_units(
                command@,
                old(db)@,
                n_units(multiplier),
            ).1);
        }
    }
    aggregate(results)
}

} // verus!
