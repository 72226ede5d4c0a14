//! Properties that relate the commands of the database to each other.

use vstd::prelude::*;

use crate::commands::{
    bulk_insert_params, command_keys, command_values, join, key_strings, min_len,
    bulk_insert_errors, delete_outcome, found_values, key_params, some_key_missing, delete_params, insert_outcome, insert_params,
    lemma_command_names_distinct, lemma_session_names_distinct, lookup_reply, ok_value, route_outcome, ArgsView, ParamView, Table,
};
use crate::json::json_array;
use crate::protocol::{success_reply, DbValue, NetActions, NetCommand};
use crate::text::uppercase_of;
use crate::ttl::{instant_after, instant_reached, stored, unexpired};
use tokio::time::Instant;
use crate::store::Store;
use crate::text_protocol::{flush, white_space, words_from, request_of, text_effect, text_reply, text_table, words, TextRequest, TextTable};

verus! {

broadcast use crate::ttl::lemma_stored;

/// A value written with `INSERT` is what `LOOKUP` then reads under its key.
pub proof fn law_lookup_reads_insert(db: Table, key: Seq<char>, value: DbValue, now: Instant)
    ensures
        ({
            let (reply, after) = insert_outcome(ArgsView::Single(Some(key), Some(value)), db, now);
            &&& reply == success_reply(Some(ok_value()))
            &&& lookup_reply(ArgsView::Single(Some(key), None), after) == success_reply(Some(value.value))
        }),
{
}

/// After `DELETE` of a key, `LOOKUP` of that key finds nothing.
pub proof fn law_lookup_after_delete(db: Table, key: Seq<char>)
    ensures
        lookup_reply(ArgsView::Single(Some(key), None), delete_outcome(ArgsView::Single(Some(key), None), db).1)
            == success_reply(None),
{
}

/// Inserting a new key and deleting it again gives back the table as it was.
pub proof fn law_delete_undoes_insert(db: Table, key: Seq<char>, value: DbValue, now: Instant)
    requires
        !db.contains_key(key),
    ensures
        delete_outcome(
            ArgsView::Single(Some(key), None),
            insert_outcome(ArgsView::Single(Some(key), Some(value)), db, now).1,
        ) == (success_reply(Some(ok_value())), db),
{
    assert(db.insert(key, stored(value, now)).remove(key) =~= db);
}

/// `LOOKUP` never changes the table, whatever its arguments.
pub proof fn law_lookup_leaves_table(
    db: Table,
    keys: Option<Seq<Seq<char>>>,
    values: Option<Seq<DbValue>>,
    now: Instant,
)
    ensures
        route_outcome("LOOKUP"@, keys, values, db, now).1 == db,
        route_outcome("LOOKUP *"@, keys, values, db, now).1 == db,
{
    lemma_command_names_distinct();
}

/// A bulk insert finds fault with its items exactly when one of them lacks a
/// key or a value.
pub proof fn law_bulk_insert_errors_iff_incomplete(ps: Seq<ParamView>)
    ensures
        (bulk_insert_errors(ps).len() == 0) <==> (forall|i: int|
            0 <= i < ps.len() ==> (#[trigger] ps[i]).key is Some && ps[i].value is Some),
    decreases ps.len(),
{
    if ps.len() > 0 {
        law_bulk_insert_errors_iff_incomplete(ps.drop_last());
        assert forall|i: int| 0 <= i < ps.len() - 1 implies (#[trigger] ps.drop_last()[i]) == ps[i] by {}
        if bulk_insert_errors(ps).len() == 0 {
            assert forall|i: int| 0 <= i < ps.len() implies (#[trigger] ps[i]).key is Some
                && ps[i].value is Some by {
                if i < ps.len() - 1 {
                    assert(ps.drop_last()[i] == ps[i]);
                }
            }
        }
    }
}

/// A bulk insert with a faulty item changes nothing and answers with an error.
pub proof fn law_bulk_insert_all_or_nothing(db: Table, ps: Seq<ParamView>, now: Instant)
    requires
        exists|i: int| 0 <= i < ps.len() && ((#[trigger] ps[i]).key is None || ps[i].value is None),
    ensures
        insert_outcome(ArgsView::Many(ps), db, now).1 == db,
        insert_outcome(ArgsView::Many(ps), db, now).0.action == NetActions::Error,
{
    law_bulk_insert_errors_iff_incomplete(ps);
}

/// In a bulk insert, the last item with a given key decides its value.
pub proof fn law_bulk_insert_last_wins(db: Table, ps: Seq<ParamView>, now: Instant, i: int)
    requires
        0 <= i < ps.len(),
        ps[i].key is Some,
        ps[i].value is Some,
        forall|j: int| i < j < ps.len() ==> (#[trigger] ps[j]).key != ps[i].key,
    ensures
        insert_params(db, ps, now).contains_key(ps[i].key->0),
        insert_params(db, ps, now)[ps[i].key->0] == stored(
            DbValue { value: ps[i].value->0, expires_in: ps[i].ttl },
            now,
        ),
    decreases ps.len(),
{
    if i < ps.len() - 1 {
        assert forall|j: int| i < j < ps.len() - 1 implies (#[trigger] ps.drop_last()[j]).key
            != ps.drop_last()[i].key by {
            assert(ps.drop_last()[j] == ps[j]);
        }
        law_bulk_insert_last_wins(db, ps.drop_last(), now, i);
        assert(ps.last().key != ps[i].key);
    }
}

/// A bulk insert leaves alone every key that none of its items names.
pub proof fn law_bulk_insert_keeps_other_keys(db: Table, ps: Seq<ParamView>, now: Instant, k: Seq<char>)
    requires
        forall|j: int| 0 <= j < ps.len() ==> (#[trigger] ps[j]).key != Some(k),
    ensures
        insert_params(db, ps, now).contains_key(k) == db.contains_key(k),
        db.contains_key(k) ==> insert_params(db, ps, now)[k] == db[k],
    decreases ps.len(),
{
    if ps.len() > 0 {
        assert forall|j: int| 0 <= j < ps.len() - 1 implies (#[trigger] ps.drop_last()[j]).key != Some(
            k,
        ) by {
            assert(ps.drop_last()[j] == ps[j]);
        }
        law_bulk_insert_keeps_other_keys(db, ps.drop_last(), now, k);
        assert(ps.last().key != Some(k));
    }
}

/// Looking up keys that are all present reads their values, in order.
pub proof fn lemma_found_values_of_present_keys(m: Table, ks: Seq<Seq<char>>)
    requires
        forall|i: int| 0 <= i < ks.len() ==> m.contains_key(#[trigger] ks[i]),
    ensures
        found_values(m, key_params(ks)) == ks.map_values(|k: Seq<char>| m[k].spec_data().value),
    decreases ks.len(),
{
    if ks.len() > 0 {
        assert(key_params(ks).drop_last() =~= key_params(ks.drop_last()));
        lemma_found_values_of_present_keys(m, ks.drop_last());
        assert(m.contains_key(ks[ks.len() - 1]));
        assert(ks.map_values(|k: Seq<char>| m[k].spec_data().value) =~= ks.drop_last().map_values(
            |k: Seq<char>| m[k].spec_data().value,
        ).push(m[ks.last()].spec_data().value));
    } else {
        assert(ks.map_values(|k: Seq<char>| m[k].spec_data().value) =~= seq![]);
    }
}

/// After a bulk insert of complete items with distinct keys, a bulk lookup of
/// those keys reads the inserted values back, in order.
pub proof fn law_bulk_lookup_reads_bulk_insert(db: Table, ps: Seq<ParamView>, now: Instant)
    requires
        forall|i: int| 0 <= i < ps.len() ==> (#[trigger] ps[i]).key is Some && ps[i].value is Some,
        forall|i: int, j: int|
            0 <= i < ps.len() && 0 <= j < ps.len() && i != j ==> (#[trigger] ps[i]).key != (
            #[trigger] ps[j]).key,
    ensures
        ({
            let (reply, after) = insert_outcome(ArgsView::Many(ps), db, now);
            let keys = ps.map_values(|p: ParamView| p.key->0);
            &&& reply == success_reply(Some(ok_value()))
            &&& lookup_reply(ArgsView::Many(key_params(keys)), after) == success_reply(
                Some(json_array(ps.map_values(|p: ParamView| p.value->0))),
            )
        }),
{
    law_bulk_insert_errors_iff_incomplete(ps);
    let after = insert_params(db, ps, now);
    let keys = ps.map_values(|p: ParamView| p.key->0);
    assert forall|i: int| 0 <= i < ps.len() implies after.contains_key(#[trigger] keys[i])
        && after[keys[i]].spec_data().value == ps[i].value->0 by {
        assert forall|j: int| i < j < ps.len() implies (#[trigger] ps[j]).key != ps[i].key by {}
        law_bulk_insert_last_wins(db, ps, now, i);
    }
    lemma_found_values_of_present_keys(after, keys);
    assert(!some_key_missing(key_params(keys))) by {
        if some_key_missing(key_params(keys)) {
            let i = choose|i: int| 0 <= i < key_params(keys).len() && (#[trigger] key_params(keys)[i]).key is None;
        }
    }
    assert(keys.map_values(|k: Seq<char>| after[k].spec_data().value) =~= ps.map_values(|p: ParamView| p.value->0));
}

/// The keys that the items of `ps` name.
pub open spec fn named_keys(ps: Seq<ParamView>) -> Set<Seq<char>> {
    Set::new(|k: Seq<char>| exists|j: int| 0 <= j < ps.len() && (#[trigger] ps[j]).key == Some(k))
}

/// A bulk delete removes every named key, answers with exactly the named keys
/// that were there, each once, and leaves the other keys alone.
pub proof fn law_bulk_delete(db: Table, ps: Seq<ParamView>)
    ensures
        ({
            let (removed, after) = delete_params(db, ps);
            &&& after == db.remove_keys(named_keys(ps))
            &&& removed.no_duplicates()
            &&& removed.to_set() == db.dom().intersect(named_keys(ps))
        }),
    decreases ps.len(),
{
    if ps.len() == 0 {
        assert(named_keys(ps) =~= Set::empty());
        assert(db.remove_keys(named_keys(ps)) =~= db);
        assert(seq![].to_set() =~= db.dom().intersect(named_keys(ps)));
    } else {
        let front = ps.drop_last();
        law_bulk_delete(db, front);
        let (removed0, m0) = delete_params(db, front);
        assert forall|j: int| 0 <= j < front.len() implies #[trigger] front[j] == ps[j] by {}
        assert forall|k: Seq<char>| named_keys(front).contains(k) implies named_keys(ps).contains(k) by {
            let j = choose|j: int| 0 <= j < front.len() && (#[trigger] front[j]).key == Some(k);
            assert(ps[j] == front[j]);
        }
        match ps.last().key {
            Some(k) => {
                assert(named_keys(ps) =~= named_keys(front).insert(k)) by {
                    assert forall|q: Seq<char>| named_keys(ps).contains(q) implies named_keys(
                        front,
                    ).insert(k).contains(q) by {
                        let j = choose|j: int| 0 <= j < ps.len() && (#[trigger] ps[j]).key == Some(q);
                        if j < ps.len() - 1 {
                            assert(front[j] == ps[j]);
                        }
                    }
                    assert(ps[ps.len() - 1].key == Some(k));
                }
                assert(m0.remove(k) =~= db.remove_keys(named_keys(ps)));
                if m0.contains_key(k) {
                    assert(!removed0.to_set().contains(k));
                    assert(removed0.push(k).to_set() =~= removed0.to_set().insert(k)) by {
                        assert forall|q: Seq<char>| removed0.push(k).to_set().contains(q) implies
                            removed0.to_set().insert(k).contains(q) by {
                            let j = choose|j: int|
                                0 <= j < removed0.push(k).len() && removed0.push(k)[j] == q;
                            if j < removed0.len() {
                                assert(removed0[j] == q);
                            }
                        }
                        assert forall|q: Seq<char>| removed0.to_set().insert(k).contains(q) implies
                            removed0.push(k).to_set().contains(q) by {
                            if q == k {
                                assert(removed0.push(k)[removed0.len() as int] == k);
                            } else {
                                let j = choose|j: int| 0 <= j < removed0.len() && removed0[j] == q;
                                assert(removed0.push(k)[j] == q);
                            }
                        }
                    }
                    assert(removed0.push(k).to_set() =~= db.dom().intersect(named_keys(ps)));
                    assert forall|a: int, b: int|
                        0 <= a < b < removed0.push(k).len() implies removed0.push(k)[a] != removed0.push(
                        k,
                    )[b] by {
                        if b == removed0.len() {
                            assert(removed0.to_set().contains(removed0[a]));
                        }
                    }
                } else {
                    assert(m0.remove(k) =~= m0);
                    assert(removed0.to_set() =~= db.dom().intersect(named_keys(ps)));
                }
            },
            None => {
                assert(named_keys(ps) =~= named_keys(front)) by {
                    assert forall|q: Seq<char>| named_keys(ps).contains(q) implies named_keys(
                        front,
                    ).contains(q) by {
                        let j = choose|j: int| 0 <= j < ps.len() && (#[trigger] ps[j]).key == Some(q);
                        if j < ps.len() - 1 {
                            assert(front[j] == ps[j]);
                        }
                    }
                }
            },
        }
    }
}

/// A request that is refused leaves the table as it was.
pub proof fn law_refusal_changes_nothing(
    name: Seq<char>,
    keys: Option<Seq<Seq<char>>>,
    values: Option<Seq<DbValue>>,
    db: Table,
    now: Instant,
)
    ensures
        route_outcome(name, keys, values, db, now).0.action == NetActions::Error ==> route_outcome(name, keys, values, db, now).1 == db,
{
}

/// Every reply is either a success without an error message, or a failure
/// with an error message and no value.
pub proof fn law_reply_shape(
    name: Seq<char>,
    keys: Option<Seq<Seq<char>>>,
    values: Option<Seq<DbValue>>,
    db: Table,
    now: Instant,
)
    ensures
        ({
            let reply = route_outcome(name, keys, values, db, now).0;
            ||| reply.action == NetActions::Command && reply.error is None
            ||| reply.action == NetActions::Error && reply.error is Some && reply.value is None
        }),
{
}

/// Over the network: `INSERT` of a key and value, then `LOOKUP` of the key,
/// reads the value back.
pub proof fn law_route_lookup_reads_insert(db: Table, key: Seq<char>, value: DbValue, t0: Instant, t1: Instant)
    ensures
        ({
            let after = route_outcome("INSERT"@, Some(seq![key]), Some(seq![value]), db, t0).1;
            route_outcome("LOOKUP"@, Some(seq![key]), None, after, t1).0 == success_reply(Some(value.value))
        }),
{
    lemma_command_names_distinct();
}

/// In the text protocol, `GET` reads what `SET` wrote.
pub proof fn law_text_get_reads_set(db: TextTable, key: Seq<char>, value: Seq<char>, order: Seq<Seq<char>>)
    ensures
        text_reply(TextRequest::Get(key), text_effect(TextRequest::Put(key, value), db), order)
            == "VALUE "@ + value + "\n"@,
{
}

/// In the text protocol, `GET` finds nothing under a key that `DEL` removed.
pub proof fn law_text_get_after_del(db: TextTable, key: Seq<char>, order: Seq<Seq<char>>)
    ensures
        text_reply(TextRequest::Get(key), text_effect(TextRequest::Del(key), db), order)
            == "NOT FOUND\n"@,
{
}


/// Command names with the same upper-case text run the same command: the
/// network handler runs a command by the upper-case text of its name alone.
pub proof fn law_names_case_insensitive(
    a: Seq<char>,
    b: Seq<char>,
    keys: Option<Seq<Seq<char>>>,
    values: Option<Seq<DbValue>>,
    db: Table,
    now: Instant,
)
    requires
        uppercase_of(a) == uppercase_of(b),
    ensures
        route_outcome(uppercase_of(a), keys, values, db, now) == route_outcome(
            uppercase_of(b),
            keys,
            values,
            db,
            now,
        ),
{
}

/// A value with a time-to-live, stored at `t0` and not written since, is
/// dropped by a sweep at `now` exactly when `now` has reached `t0` moved
/// forward by the time-to-live; otherwise the sweep keeps it unchanged.
pub proof fn law_entry_expires_after_ttl(db: Table, key: Seq<char>, value: DbValue, t0: Instant, now: Instant)
    requires
        db.contains_key(key),
        db[key] == stored(value, t0),
        value.expires_in is Some,
    ensures
        (instant_after(t0, value.expires_in->0) matches Some(deadline) && instant_reached(now, deadline))
            ==> !unexpired(db, now).contains_key(key),
        !(instant_after(t0, value.expires_in->0) matches Some(deadline) && instant_reached(
            now,
            deadline,
        )) ==> unexpired(db, now).contains_key(key) && unexpired(db, now)[key] == db[key],
{
}

/// A value without a time-to-live survives every sweep unchanged.
pub proof fn law_permanent_entry_survives(db: Table, key: Seq<char>, now: Instant)
    requires
        db.contains_key(key),
        db[key].spec_deadline() is None,
    ensures
        unexpired(db, now).contains_key(key),
        unexpired(db, now)[key] == db[key],
{
}

/// A value inserted with time-to-live `ttl` at `t0` is gone after a sweep
/// at any `now` that has reached `t0` moved forward by `ttl`, and still
/// readable after a sweep before that.
pub proof fn law_insert_then_expire(db: Table, key: Seq<char>, value: DbValue, t0: Instant, now: Instant)
    requires
        value.expires_in is Some,
    ensures
        ({
            let swept = unexpired(insert_outcome(ArgsView::Single(Some(key), Some(value)), db, t0).1, now);
            let due = instant_after(t0, value.expires_in->0) matches Some(deadline) && instant_reached(
                now,
                deadline,
            );
            &&& due ==> lookup_reply(ArgsView::Single(Some(key), None), swept) == success_reply(None)
            &&& !due ==> lookup_reply(ArgsView::Single(Some(key), None), swept) == success_reply(
                Some(value.value),
            )
        }),
{
    let after = insert_outcome(ArgsView::Single(Some(key), Some(value)), db, t0).1;
    law_entry_expires_after_ttl(after, key, value, t0, now);
}


/// `CREATE` never overwrites: on a key that is already there it is refused
/// and changes nothing; on a new key it does what `INSERT` does.
pub proof fn law_create_never_overwrites(db: Table, key: Seq<char>, value: DbValue, now: Instant)
    ensures
        db.contains_key(key) ==> route_outcome("CREATE"@, Some(seq![key]), Some(seq![value]), db, now).1
            == db,
        db.contains_key(key) ==> route_outcome(
            "CREATE"@,
            Some(seq![key]),
            Some(seq![value]),
            db,
            now,
        ).0.action == NetActions::Error,
        !db.contains_key(key) ==> route_outcome("CREATE"@, Some(seq![key]), Some(seq![value]), db, now)
            == route_outcome("INSERT"@, Some(seq![key]), Some(seq![value]), db, now),
{
    lemma_command_names_distinct();
    lemma_session_names_distinct();
}

/// After `DESTROY`, `LOOKUP` of any key finds nothing.
pub proof fn law_destroy_empties_table(
    db: Table,
    keys: Option<Seq<Seq<char>>>,
    values: Option<Seq<DbValue>>,
    key: Seq<char>,
    t0: Instant,
    t1: Instant,
)
    ensures
        ({
            let after = route_outcome("DESTROY"@, keys, values, db, t0).1;
            &&& after == Map::<Seq<char>, crate::ttl::Entry>::empty()
            &&& route_outcome("LOOKUP"@, Some(seq![key]), None, after, t1).0 == success_reply(None)
        }),
{
    lemma_command_names_distinct();
    lemma_session_names_distinct();
}

/// `EXIT` succeeds and leaves the table as it was.
pub proof fn law_exit_changes_nothing(
    db: Table,
    keys: Option<Seq<Seq<char>>>,
    values: Option<Seq<DbValue>>,
    now: Instant,
)
    ensures
        route_outcome("EXIT"@, keys, values, db, now).1 == db,
        route_outcome("EXIT"@, keys, values, db, now).0.action == NetActions::Command,
{
    lemma_command_names_distinct();
    lemma_session_names_distinct();
}

/// Whether `req` writes or removes `key`.
pub open spec fn touches(req: TextRequest, key: Seq<char>) -> bool {
    match req {
        TextRequest::Put(k, _) => k == key,
        TextRequest::Del(k) => k == key,
        _ => false,
    }
}

/// The text table after the lines `lines`, in order.
pub open spec fn apply_lines(db: TextTable, lines: Seq<Seq<char>>) -> TextTable
    decreases lines.len(),
{
    if lines.len() == 0 {
        db
    } else {
        text_effect(request_of(words(lines.last())), apply_lines(db, lines.drop_last()))
    }
}

/// Lines that neither write nor remove `key` leave its value alone.
pub proof fn lemma_lines_keep_key(db: TextTable, key: Seq<char>, lines: Seq<Seq<char>>)
    requires
        forall|i: int| 0 <= i < lines.len() ==> !touches(request_of(words(#[trigger] lines[i])), key),
    ensures
        apply_lines(db, lines).contains_key(key) == db.contains_key(key),
        db.contains_key(key) ==> apply_lines(db, lines)[key] == db[key],
    decreases lines.len(),
{
    if lines.len() > 0 {
        assert forall|i: int| 0 <= i < lines.len() - 1 implies !touches(
            request_of(words(#[trigger] lines.drop_last()[i])),
            key,
        ) by {
            assert(lines.drop_last()[i] == lines[i]);
        }
        lemma_lines_keep_key(db, key, lines.drop_last());
        assert(!touches(request_of(words(lines[lines.len() - 1])), key));
    }
}

/// In the text protocol, a `GET` reads what an earlier `SET` of the key
/// wrote, whatever lines came between, as long as none of them set or
/// deleted that key.
pub proof fn law_text_get_reads_set_across_lines(
    db: TextTable,
    key: Seq<char>,
    value: Seq<char>,
    lines: Seq<Seq<char>>,
    order: Seq<Seq<char>>,
)
    requires
        forall|i: int| 0 <= i < lines.len() ==> !touches(request_of(words(#[trigger] lines[i])), key),
    ensures
        text_reply(
            TextRequest::Get(key),
            apply_lines(text_effect(TextRequest::Put(key, value), db), lines),
            order,
        ) == "VALUE "@ + value + "\n"@,
{
    lemma_lines_keep_key(text_effect(TextRequest::Put(key, value), db), key, lines);
}


/// A single `INSERT` puts the value under its key and leaves every other
/// key, present or not, exactly as it was.
pub proof fn law_insert_touches_only_its_key(db: Table, key: Seq<char>, value: DbValue, now: Instant)
    ensures
        ({
            let (reply, after) = insert_outcome(ArgsView::Single(Some(key), Some(value)), db, now);
            &&& reply == success_reply(Some(ok_value()))
            &&& after.contains_key(key)
            &&& after[key].spec_data() == value
            &&& after[key].spec_deadline() == crate::ttl::deadline_from(value, now)
            &&& after.remove(key) == db.remove(key)
        }),
{
    let after = insert_outcome(ArgsView::Single(Some(key), Some(value)), db, now).1;
    assert(after.remove(key) =~= db.remove(key));
}

/// Over the network, `INSERT` stores the first value under the first key and
/// leaves every other key exactly as it was.
pub proof fn law_route_insert_touches_only_its_key(
    db: Table,
    ks: Seq<Seq<char>>,
    vs: Seq<DbValue>,
    now: Instant,
)
    requires
        ks.len() > 0,
        vs.len() > 0,
    ensures
        ({
            let (reply, after) = route_outcome("INSERT"@, Some(ks), Some(vs), db, now);
            &&& reply == success_reply(Some(ok_value()))
            &&& after.contains_key(ks[0])
            &&& after[ks[0]].spec_data() == vs[0]
            &&& after.remove(ks[0]) == db.remove(ks[0])
        }),
{
    law_insert_touches_only_its_key(db, ks[0], vs[0], now);
}

/// Over the network, `DELETE` removes the first key and nothing else; it
/// succeeds exactly when the key was there.
pub proof fn law_route_delete_removes_only_its_key(
    db: Table,
    ks: Seq<Seq<char>>,
    vs: Option<Seq<DbValue>>,
    now: Instant,
)
    requires
        ks.len() > 0,
    ensures
        ({
            let (reply, after) = route_outcome("DELETE"@, Some(ks), vs, db, now);
            &&& after == db.remove(ks[0])
            &&& db.contains_key(ks[0]) ==> reply == success_reply(Some(ok_value()))
            &&& !db.contains_key(ks[0]) ==> reply.action == NetActions::Error
        }),
{
    lemma_command_names_distinct();
    assert(!db.contains_key(ks[0]) ==> db.remove(ks[0]) =~= db);
}

/// The items of a bulk insert built over the network pair each key with the
/// value at the same position, as far as both lists go.
proof fn lemma_bulk_insert_params_shape(ks: Seq<Seq<char>>, vs: Seq<DbValue>)
    ensures
        bulk_insert_params(ks, vs).len() == min_len(ks.len(), vs.len()),
        forall|i: int|
            0 <= i < min_len(ks.len(), vs.len()) ==> (#[trigger] bulk_insert_params(ks, vs)[i]).key
                == Some(ks[i]) && bulk_insert_params(ks, vs)[i].value == Some(vs[i].value)
                && bulk_insert_params(ks, vs)[i].ttl == vs[i].expires_in,
{
}

/// A bulk insert puts in the key of every complete item.
proof fn lemma_insert_params_has_keys(db: Table, ps: Seq<ParamView>, now: Instant, i: int)
    requires
        0 <= i < ps.len(),
        ps[i].key is Some,
        ps[i].value is Some,
    ensures
        insert_params(db, ps, now).contains_key(ps[i].key->0),
    decreases ps.len(),
{
    if i < ps.len() - 1 {
        assert(ps.drop_last()[i] == ps[i]);
        lemma_insert_params_has_keys(db, ps.drop_last(), now, i);
    }
}

/// Over the network, `INSERT *` succeeds and stores every key that has a
/// value at its position; with distinct keys, each holds its own value and
/// time-to-live; keys it does not name stay exactly as they were.
pub proof fn law_route_bulk_insert(db: Table, ks: Seq<Seq<char>>, vs: Seq<DbValue>, now: Instant)
    ensures
        ({
            let n = min_len(ks.len(), vs.len()) as int;
            let (reply, after) = route_outcome("INSERT *"@, Some(ks), Some(vs), db, now);
            &&& reply == success_reply(Some(ok_value()))
            &&& forall|i: int| 0 <= i < n ==> after.contains_key(#[trigger] ks[i])
            &&& ks.no_duplicates() ==> forall|i: int|
                0 <= i < n ==> after[#[trigger] ks[i]] == stored(vs[i], now)
            &&& forall|k: Seq<char>|
                !ks.take(n).contains(k) ==> (#[trigger] after.contains_key(k) == db.contains_key(k)
                    && (db.contains_key(k) ==> after[k] == db[k]))
        }),
{
    lemma_command_names_distinct();
    let n = min_len(ks.len(), vs.len()) as int;
    let ps = bulk_insert_params(ks, vs);
    lemma_bulk_insert_params_shape(ks, vs);
    law_bulk_insert_errors_iff_incomplete(ps);
    assert forall|i: int| 0 <= i < ps.len() implies (#[trigger] ps[i]).key is Some && ps[i].value is Some by {}
    assert(bulk_insert_errors(ps).len() == 0);
    assert(route_outcome("INSERT *"@, Some(ks), Some(vs), db, now) == (
        success_reply(Some(ok_value())),
        insert_params(db, ps, now),
    ));
    assert forall|i: int| 0 <= i < n implies insert_params(db, ps, now).contains_key(#[trigger] ks[i]) by {
        assert(ps[i].key == Some(ks[i]));
        lemma_insert_params_has_keys(db, ps, now, i);
    }
    if ks.no_duplicates() {
        assert forall|i: int| 0 <= i < n implies insert_params(db, ps, now)[#[trigger] ks[i]] == stored(
            vs[i],
            now,
        ) by {
            assert forall|j: int| i < j < ps.len() implies (#[trigger] ps[j]).key != ps[i].key by {
                assert(ps[j].key == Some(ks[j]));
                assert(ps[i].key == Some(ks[i]));
            }
            law_bulk_insert_last_wins(db, ps, now, i);
            assert(DbValue { value: vs[i].value, expires_in: vs[i].expires_in } == vs[i]);
        }
    }
    assert forall|k: Seq<char>| !ks.take(n).contains(k) implies (#[trigger] insert_params(
        db,
        ps,
        now,
    ).contains_key(k) == db.contains_key(k) && (db.contains_key(k) ==> insert_params(db, ps, now)[k]
        == db[k])) by {
        assert forall|j: int| 0 <= j < ps.len() implies (#[trigger] ps[j]).key != Some(k) by {
            assert(ps[j].key == Some(ks[j]));
            assert(ks.take(n)[j] == ks[j]);
        }
        law_bulk_insert_keeps_other_keys(db, ps, now, k);
    }
}

/// Over the network, `INSERT *` of distinct keys, each with a value, and then
/// `LOOKUP *` of the same keys reads every value back, in order.
pub proof fn law_route_bulk_lookup_reads_bulk_insert(
    db: Table,
    ks: Seq<Seq<char>>,
    vs: Seq<DbValue>,
    t0: Instant,
    t1: Instant,
)
    requires
        ks.no_duplicates(),
        ks.len() <= vs.len(),
    ensures
        ({
            let after = route_outcome("INSERT *"@, Some(ks), Some(vs), db, t0).1;
            route_outcome("LOOKUP *"@, Some(ks), None, after, t1).0 == success_reply(
                Some(json_array(Seq::new(ks.len(), |i: int| vs[i].value))),
            )
        }),
{
    lemma_command_names_distinct();
    let ps = bulk_insert_params(ks, vs);
    lemma_bulk_insert_params_shape(ks, vs);
    assert forall|i: int, j: int|
        0 <= i < ps.len() && 0 <= j < ps.len() && i != j implies (#[trigger] ps[i]).key != (
        #[trigger] ps[j]).key by {
        assert(ps[i].key == Some(ks[i]));
        assert(ps[j].key == Some(ks[j]));
    }
    law_bulk_lookup_reads_bulk_insert(db, ps, t0);
    assert(ps.map_values(|p: ParamView| p.key->0) =~= ks);
    assert(ps.map_values(|p: ParamView| p.value->0) =~= Seq::new(ks.len(), |i: int| vs[i].value));
}

/// The keys of a bulk delete's items are the keys it was given.
proof fn lemma_named_keys_of_key_params(ks: Seq<Seq<char>>)
    ensures
        named_keys(key_params(ks)) == ks.to_set(),
{
    let ps = key_params(ks);
    assert forall|k: Seq<char>| named_keys(ps).contains(k) <==> ks.to_set().contains(k) by {
        if named_keys(ps).contains(k) {
            let j = choose|j: int| 0 <= j < ps.len() && (#[trigger] ps[j]).key == Some(k);
            assert(ks[j] == k);
        }
        if ks.to_set().contains(k) {
            let j = choose|j: int| 0 <= j < ks.len() && ks[j] == k;
            assert(ps[j].key == Some(k));
        }
    }
    assert(named_keys(ps) =~= ks.to_set());
}

/// Over the network, `DELETE *` removes every key it is given and nothing
/// else, and answers with exactly the given keys that were there, each once.
pub proof fn law_route_bulk_delete(db: Table, ks: Seq<Seq<char>>, vs: Option<Seq<DbValue>>, now: Instant)
    ensures
        ({
            let (reply, after) = route_outcome("DELETE *"@, Some(ks), vs, db, now);
            &&& after == db.remove_keys(ks.to_set())
            &&& reply.action == NetActions::Command
            &&& reply.error is None
            &&& exists|removed: Seq<Seq<char>>|
                {
                    &&& reply.value == Some(json_array(#[trigger] key_strings(removed)))
                    &&& removed.no_duplicates()
                    &&& removed.to_set() == db.dom().intersect(ks.to_set())
                }
        }),
{
    lemma_command_names_distinct();
    law_bulk_delete(db, key_params(ks));
    lemma_named_keys_of_key_params(ks);
    let removed = delete_params(db, key_params(ks)).0;
    assert(key_strings(removed) == key_strings(removed));
}

/// `LIST` answers `EMPTY` exactly when the table is empty, and otherwise
/// names every key of the table, each once.
pub proof fn law_list_names_every_key(db: Store<String>)
    requires
        db.wf(),
    ensures
        (forall|k: Seq<char>| !db@.contains_key(k)) ==> text_reply(
            TextRequest::List,
            text_table(db@),
            db.key_order(),
        ) == "EMPTY\n"@,
        (exists|k: Seq<char>| db@.contains_key(k)) ==> text_reply(
            TextRequest::List,
            text_table(db@),
            db.key_order(),
        ) == "KEYS "@ + join(db.key_order(), ", "@) + "\n"@,
        forall|k: Seq<char>| db@.contains_key(k) <==> db.key_order().contains(k),
        db.key_order().no_duplicates(),
{
    db.lemma_key_order();
    if exists|k: Seq<char>| db@.contains_key(k) {
        let k = choose|k: Seq<char>| db@.contains_key(k);
        assert(db.key_order().to_set().contains(k));
    } else {
        if db.key_order().len() > 0 {
            assert(db.key_order().to_set().contains(db.key_order()[0]));
        }
    }
    assert forall|k: Seq<char>| db@.contains_key(k) <==> db.key_order().contains(k) by {
        assert(db.key_order().to_set().contains(k) == db.key_order().contains(k));
    }
}

/// After `SET` of a key, `LIST` (listing the table's keys in any order)
/// names that key.
pub proof fn law_list_after_set_names_key(
    db: TextTable,
    key: Seq<char>,
    value: Seq<char>,
    order: Seq<Seq<char>>,
)
    requires
        order.to_set() == text_effect(TextRequest::Put(key, value), db).dom(),
    ensures
        order.contains(key),
        text_reply(TextRequest::List, text_effect(TextRequest::Put(key, value), db), order) == "KEYS "@
            + join(order, ", "@) + "\n"@,
{
    assert(order.to_set().contains(key));
}


/// In the text protocol, `SET` and `DEL` change only their own key, and
/// every other request leaves the table as it was.
pub proof fn law_text_requests_touch_only_their_key(db: TextTable, req: TextRequest)
    ensures
        req matches TextRequest::Put(k, v) ==> text_effect(req, db).remove(k) == db.remove(k)
            && text_effect(req, db).contains_key(k) && text_effect(req, db)[k] == v,
        req matches TextRequest::Del(k) ==> text_effect(req, db) == db.remove(k),
        !(req is Put || req is Del) ==> text_effect(req, db) == db,
{
    if let TextRequest::Put(k, v) = req {
        assert(text_effect(req, db).remove(k) =~= db.remove(k));
    }
}

/// Every word of `ws` is non-empty and holds no white space.
pub open spec fn clean_words(ws: Seq<Seq<char>>) -> bool {
    forall|i: int|
        0 <= i < ws.len() ==> (#[trigger] ws[i]).len() > 0 && forall|j: int|
            0 <= j < ws[i].len() ==> !white_space(#[trigger] ws[i][j])
}

/// Every word that `words_from` yields is non-empty and holds no white space,
/// given a begun word without white space.
proof fn lemma_words_from_clean(rest: Seq<char>, cur: Seq<char>)
    requires
        forall|j: int| 0 <= j < cur.len() ==> !white_space(#[trigger] cur[j]),
    ensures
        clean_words(words_from(rest, cur)),
    decreases rest.len(),
{
    assert(clean_words(flush(cur))) by {
        if cur.len() > 0 {
            assert(flush(cur)[0] == cur);
        }
    }
    if rest.len() > 0 {
        if white_space(rest[0]) {
            lemma_words_from_clean(rest.drop_first(), seq![]);
            let a = flush(cur);
            let b = words_from(rest.drop_first(), seq![]);
            assert(words_from(rest, cur) == a + b);
            assert forall|i: int| 0 <= i < (a + b).len() implies (#[trigger] (a + b)[i]).len() > 0
                && forall|j: int| 0 <= j < (a + b)[i].len() ==> !white_space(#[trigger] (a + b)[i][j]) by {
                if i < a.len() {
                    assert((a + b)[i] == a[i]);
                } else {
                    assert((a + b)[i] == b[i - a.len()]);
                }
            }
        } else {
            let c = cur.push(rest[0]);
            assert forall|j: int| 0 <= j < c.len() implies !white_space(#[trigger] c[j]) by {
                if j < cur.len() {
                    assert(c[j] == cur[j]);
                }
            }
            lemma_words_from_clean(rest.drop_first(), c);
        }
    }
}

/// The words of a line are non-empty and hold no white space.
pub proof fn law_words_hold_no_white_space(line: Seq<char>)
    ensures
        clean_words(words(line)),
{
    lemma_words_from_clean(line, seq![]);
}

/// A non-empty line without white space is a single word: itself.
pub proof fn law_line_without_white_space_is_one_word(line: Seq<char>)
    requires
        line.len() > 0,
        forall|j: int| 0 <= j < line.len() ==> !white_space(#[trigger] line[j]),
    ensures
        words(line) == seq![line],
{
    lemma_words_from_no_white(line, seq![]);
    assert(seq![] + line =~= line);
}

/// Without white space in `rest`, the begun word `cur` just grows by `rest`.
proof fn lemma_words_from_no_white(rest: Seq<char>, cur: Seq<char>)
    requires
        forall|j: int| 0 <= j < rest.len() ==> !white_space(#[trigger] rest[j]),
    ensures
        words_from(rest, cur) == flush(cur + rest),
    decreases rest.len(),
{
    if rest.len() == 0 {
        assert(cur + rest =~= cur);
    } else {
        assert(!white_space(rest[0]));
        assert forall|j: int| 0 <= j < rest.drop_first().len() implies !white_space(
            #[trigger] rest.drop_first()[j],
        ) by {
            assert(rest.drop_first()[j] == rest[j + 1]);
        }
        lemma_words_from_no_white(rest.drop_first(), cur.push(rest[0]));
        assert(cur.push(rest[0]) + rest.drop_first() =~= cur + rest);
    }
}


/// Over the network, `LOOKUP *` of keys that are all in the table answers
/// with their values, one for each key, in order.
pub proof fn law_route_bulk_lookup_of_present_keys(
    db: Table,
    ks: Seq<Seq<char>>,
    vs: Option<Seq<DbValue>>,
    now: Instant,
)
    requires
        forall|i: int| 0 <= i < ks.len() ==> db.contains_key(#[trigger] ks[i]),
    ensures
        route_outcome("LOOKUP *"@, Some(ks), vs, db, now) == (
            success_reply(Some(json_array(Seq::new(ks.len(), |i: int| db[ks[i]].spec_data().value)))),
            db,
        ),
{
    lemma_command_names_distinct();
    lemma_found_values_of_present_keys(db, ks);
    assert(!some_key_missing(key_params(ks))) by {
        if some_key_missing(key_params(ks)) {
            let i = choose|i: int| 0 <= i < key_params(ks).len() && (#[trigger] key_params(ks)[i]).key is None;
        }
    }
    assert(ks.map_values(|k: Seq<char>| db[k].spec_data().value) =~= Seq::new(
        ks.len(),
        |i: int| db[ks[i]].spec_data().value,
    ));
}

/// A network command's keys are its key texts, each in its place.
pub proof fn law_command_keys_are_its_keys(command: NetCommand)
    ensures
        command.keys is None <==> command_keys(command) is None,
        command.keys matches Some(ks) ==> ({
            let got = command_keys(command)->0;
            &&& got.len() == ks@.len()
            &&& forall|i: int| 0 <= i < ks@.len() ==> got[i] == (#[trigger] ks@[i])@
        }),
{
}

/// A network command's values each get the time-to-live at the same
/// position, as far as both lists go, and keep their JSON document.
pub proof fn law_command_values_pair_with_ttls(command: NetCommand)
    requires
        command.values is Some,
        command.ttls is Some,
    ensures
        ({
            let vs = command.values->0@;
            let ts = command.ttls->0@;
            let got = command_values(command)->0;
            &&& command_values(command) is Some
            &&& got.len() == if vs.len() <= ts.len() { vs.len() } else { ts.len() }
            &&& forall|i: int|
                0 <= i < got.len() ==> (#[trigger] got[i]).value == vs[i].value && got[i].expires_in
                    == Some(ts[i])
        }),
{
}

} // verus!
