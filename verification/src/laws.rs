//! Laws of the command engine, stated over the specification-level step
//! function and proved once and for all.

use vstd::prelude::*;
use crate::memory::{
    CommandView, Commands, DbView, aggregate_spec, is_mutating, msg_cleared, msg_kv, msg_removed,
    run_units, snapshotted, step,
};
use crate::store::{
    as_map, has_key, lemma_lookup_as_map, lemma_remove_key, lemma_upsert, unique_keys, upsert,
};

verus! {

/// The snapshot file reflects the store: what write-through leaves behind.
pub open spec fn synced(s: DbView) -> bool {
    s.file == snapshotted(s.pairs)
}

/// Write-through: when a mutating command reports success, the snapshot
/// file holds the serialization of the store as of that write.
pub proof fn lemma_write_through(c: CommandView, s: DbView)
    requires
        is_mutating(c.command),
        step(c, s).1 is Ok,
    ensures
        synced(step(c, s).0),
{
}

/// Reads change nothing: `get` and `list` leave the database exactly as it
/// was.
pub proof fn lemma_read_only(c: CommandView, s: DbView)
    requires
        c.command == Commands::Get || c.command == Commands::List,
    ensures
        step(c, s).0 == s,
{
}

/// Setting a key and then getting it answers with the value just set; both
/// units answer the same message, and a dispatch of either command with
/// multiplier one aggregates to exactly that one message.
pub proof fn lemma_set_then_get(k: Seq<char>, v: Seq<char>, s: DbView)
    requires
        k.len() > 0,
        v.len() > 0,
        unique_keys(s.pairs),
    ensures
        ({
            let set_cmd = CommandView { command: Commands::Insert, key: k, value: Some(v) };
            let get_cmd = CommandView { command: Commands::Get, key: k, value: None };
            let first = step(set_cmd, s);
            let second = step(get_cmd, first.0);
            &&& first.1 == Ok::<Seq<char>, Seq<char>>(msg_kv(k, v))
            &&& second.1 == Ok::<Seq<char>, Seq<char>>(msg_kv(k, v))
            &&& second.0 == first.0
            &&& run_units(set_cmd, s, 1).0 == first.0
            &&& aggregate_spec(run_units(get_cmd, first.0, 1).1) == Ok::<
                Seq<Seq<char>>,
                Seq<char>,
            >(seq![msg_kv(k, v)])
        }),
{
    reveal_with_fuel(run_units, 2);
    reveal_with_fuel(aggregate_spec, 2);
    let ps1 = upsert(s.pairs, k, v);
    lemma_upsert(s.pairs, k, v);
    lemma_lookup_as_map(ps1, k);
    assert(as_map(ps1).contains_key(k));
    assert(as_map(ps1)[k] == v);
    let set_cmd = CommandView { command: Commands::Insert, key: k, value: Some(v) };
    let get_cmd = CommandView { command: Commands::Get, key: k, value: None };
    let first = step(set_cmd, s);
    assert(run_units(get_cmd, first.0, 1).1 =~= seq![step(get_cmd, first.0).1]);
    assert(seq![msg_kv(k, v)] + Seq::<Seq<char>>::empty() =~= seq![msg_kv(k, v)]);
}

/// Clearing is idempotent: after one `clear` the store is empty and the
/// snapshot file holds the serialization of the empty mapping, and a second
/// `clear` answers the same message and leaves the state exactly as the
/// first did.
pub proof fn lemma_clear_idempotent(s: DbView)
    ensures
        ({
            let clear_cmd = CommandView { command: Commands::Clear, key: "default"@, value: None };
            let first = step(clear_cmd, s);
            let second = step(clear_cmd, first.0);
            &&& first.1 == Ok::<Seq<char>, Seq<char>>(msg_cleared())
            &&& first.0.pairs.len() == 0
            &&& as_map(first.0.pairs) =~= Map::<Seq<char>, Seq<char>>::empty()
            &&& synced(first.0)
            &&& second.0 == first.0
            &&& second.1 == first.1
        }),
{
}

/// Deleting an absent key succeeds — a message, not an error — and changes
/// neither the store nor the persisted content.
pub proof fn lemma_delete_absent(k: Seq<char>, s: DbView)
    requires
        k.len() > 0,
        unique_keys(s.pairs),
        !has_key(s.pairs, k),
        synced(s),
    ensures
        ({
            let del_cmd = CommandView { command: Commands::Delete, key: k, value: None };
            let first = step(del_cmd, s);
            &&& first.1 == Ok::<Seq<char>, Seq<char>>(msg_removed(k))
            &&& first.0 == s
        }),
{
    lemma_remove_key(s.pairs, k);
    let del_cmd = CommandView { command: Commands::Delete, key: k, value: None };
    assert(step(del_cmd, s).0 =~= s);
}

/// The database states a sequence of execution units leaves behind, one
/// unit after the other.
pub open spec fn run_seq(cs: Seq<CommandView>, s: DbView) -> DbView
    decreases cs.len(),
{
    if cs.len() == 0 {
        s
    } else {
        run_seq(cs.drop_first(), step(cs[0], s).0)
    }
}

/// Every unit sets the same key to some non-empty value.
pub open spec fn all_set_key(cs: Seq<CommandView>, k: Seq<char>) -> bool {
    forall|i: int|
        0 <= i < cs.len() ==> {
            &&& (#[trigger] cs[i]).command == Commands::Insert
            &&& cs[i].key == k
            &&& cs[i].value is Some
            &&& cs[i].value->0.len() > 0
        }
}

/// Concurrent fan-out of several `set`s of one key: whatever order the
/// units land in, the store ends up holding exactly the value of the unit
/// that landed last — one of the dispatched values — and the snapshot file
/// reflects that final state.
pub proof fn lemma_same_key_sets(cs: Seq<CommandView>, s: DbView, k: Seq<char>)
    requires
        cs.len() > 0,
        k.len() > 0,
        all_set_key(cs, k),
        unique_keys(s.pairs),
    ensures
        ({
            let fin = run_seq(cs, s);
            &&& as_map(fin.pairs) == as_map(s.pairs).insert(k, cs.last().value->0)
            &&& unique_keys(fin.pairs)
            &&& synced(fin)
        }),
    decreases cs.len(),
{
    reveal_with_fuel(run_seq, 2);
    let v0 = cs[0].value->0;
    lemma_upsert(s.pairs, k, v0);
    let s1 = step(cs[0], s).0;
    if cs.len() == 1 {
        assert(run_seq(cs, s) == s1);
    } else {
        let rest = cs.drop_first();
        lemma_same_key_sets(rest, s1, k);
        assert(rest.last() == cs.last());
        let fin = run_seq(cs, s);
        assert(as_map(fin.pairs) == as_map(s.pairs).insert(k, v0).insert(
            k,
            cs.last().value->0,
        ));
        assert(as_map(s.pairs).insert(k, v0).insert(k, cs.last().value->0)
            =~= as_map(s.pairs).insert(k, cs.last().value->0));
    }
}

} // verus!
