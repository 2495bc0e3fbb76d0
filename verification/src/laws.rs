//! What holds of the cache whatever is done with it.
use crate::model;
use crate::model::{CachedStatementView, StatementCacheView};
use crate::statement::StatementView;
use vstd::prelude::*;

verus! {

/// `get` keeps a cache valid.
pub proof fn get_keeps_valid(cache: StatementCacheView, sql: Seq<char>, now: u128)
    requires
        cache.valid(),
    ensures
        cache.after_get(sql, now).valid(),
{
    let after = cache.after_get(sql, now);
    if cache.max_size != 0 && cache.contains(sql) {
        model::lemma_with_entry(cache, after, sql, cache.entry(sql).taken(now));
    }
}

/// `queue_cursor_to_close` keeps a cache valid.
pub proof fn queue_keeps_valid(cache: StatementCacheView, cursor_id: u16)
    requires
        cache.valid(),
    ensures
        cache.queued(cursor_id).valid(),
{
    assert(cache.queued(cursor_id).entries == cache.entries);
}

/// Eviction keeps a cache valid.
pub proof fn evict_keeps_valid(cache: StatementCacheView)
    requires
        cache.valid(),
    ensures
        cache.after_evict().valid(),
{
    if cache.has_idle() {
        model::lemma_lru_exists(cache);
        model::lemma_swap_removed(cache, cache.after_evict(), cache.lru());
    }
}

/// `put` keeps a cache valid.
pub proof fn put_keeps_valid(
    cache: StatementCacheView,
    sql: Seq<char>,
    statement: StatementView,
    now: u128,
)
    requires
        cache.valid(),
    ensures
        cache.after_put(sql, statement, now).valid(),
{
    let after = cache.after_put(sql, statement, now);
    let fresh = CachedStatementView::fresh(statement, now);
    if cache.accepts(statement) && cache.has_room(sql) {
        if cache.contains(sql) {
            model::lemma_with_entry(cache, after, sql, fresh);
        } else {
            evict_keeps_valid(cache);
            if cache.has_idle() {
                model::lemma_lru_exists(cache);
            }
            model::lemma_make_room(cache);
            model::lemma_pushed(cache.after_make_room(), after, sql, fresh);
        }
    }
}

/// `return_statement` keeps a cache valid.
pub proof fn return_keeps_valid(cache: StatementCacheView, sql: Seq<char>)
    requires
        cache.valid(),
    ensures
        cache.after_return(sql).valid(),
{
    let after = cache.after_return(sql);
    if cache.contains(sql) {
        model::lemma_with_entry(cache, after, sql, cache.entry(sql).returned());
    }
}

/// `mark_cursor_closed` keeps a cache valid.
pub proof fn mark_cursor_closed_keeps_valid(cache: StatementCacheView, sql: Seq<char>)
    requires
        cache.valid(),
    ensures
        cache.after_mark_cursor_closed(sql).valid(),
{
    let after = cache.after_mark_cursor_closed(sql);
    if cache.contains(sql) && cache.entry(sql).statement.cursor_id != 0 {
        model::lemma_with_entry(cache, after, sql, cache.entry(sql).cursor_closed());
    }
}

/// What `put` takes, `get` gives back, with its cursor and its metadata.
pub proof fn put_then_get(
    cache: StatementCacheView,
    sql: Seq<char>,
    statement: StatementView,
    now: u128,
)
    requires
        cache.valid(),
        cache.accepts(statement),
        cache.has_room(sql),
    ensures
        cache.after_put(sql, statement, now).get_result(sql) == Some(statement),
{
    let after = cache.after_put(sql, statement, now);
    put_finds(cache, sql, statement, now);
    assert(after.entry(sql) == CachedStatementView::fresh(statement, now));
}

/// After `put` has taken a statement, the new one is found under its text, and under any
/// other text what was there before, but for the one that was driven out.
pub proof fn put_finds(
    cache: StatementCacheView,
    sql: Seq<char>,
    statement: StatementView,
    now: u128,
)
    requires
        cache.valid(),
        cache.accepts(statement),
        cache.has_room(sql),
    ensures
        ({
            let after = cache.after_put(sql, statement, now);
            &&& after.contains(sql)
            &&& after.entry(sql) == CachedStatementView::fresh(statement, now)
            &&& forall|other: Seq<char>| #[trigger]
                after.contains(other) ==> other == sql || cache.contains(other)
            &&& forall|other: Seq<char>|
                other != sql && #[trigger] cache.contains(other) ==> {
                    if cache.drives_out(sql, statement) && other == cache.lru_key() {
                        !after.contains(other)
                    } else {
                        after.contains(other) && after.entry(other) == cache.entry(other)
                    }
                }
        }),
{
    let after = cache.after_put(sql, statement, now);
    let fresh = CachedStatementView::fresh(statement, now);
    if cache.contains(sql) {
        model::lemma_with_entry(cache, after, sql, fresh);
    } else {
        let roomy = cache.after_make_room();
        model::lemma_make_room(cache);
        if cache.drives_out(sql, statement) {
            model::lemma_lru_exists(cache);
            model::lemma_swap_removed(cache, roomy, cache.lru());
        }
        model::lemma_pushed(roomy, after, sql, fresh);
    }
}

/// A statement that `put` turns away changes nothing: one with caching off, a data
/// definition, one without a cursor, or one that finds a cache full of statements in use.
pub proof fn turned_away_changes_nothing(
    cache: StatementCacheView,
    sql: Seq<char>,
    statement: StatementView,
    now: u128,
)
    requires
        cache.valid(),
        cache.max_size == 0 || statement.ddl || statement.cursor_id == 0 || !cache.has_room(sql),
    ensures
        cache.after_put(sql, statement, now) == cache,
{
}

/// With a size of 0 nothing is ever cached.
pub proof fn disabled_stays_empty(
    cache: StatementCacheView,
    sql: Seq<char>,
    statement: StatementView,
    now: u128,
)
    requires
        cache.valid(),
        cache.max_size == 0,
    ensures
        cache.entries.len() == 0,
        cache.get_result(sql) is None,
        cache.after_get(sql, now) == cache,
        cache.after_put(sql, statement, now) == cache,
{
}

/// No data definition statement is ever found in a cache.
pub proof fn ddl_is_never_cached(cache: StatementCacheView, sql: Seq<char>)
    requires
        cache.valid(),
    ensures
        cache.contains(sql) ==> !cache.entry(sql).statement.ddl,
        cache.get_result(sql) matches Some(statement) ==> !statement.ddl,
{
    if cache.contains(sql) {
        assert(model::key_at(cache.entries, cache.index_of(sql), sql));
    }
}

/// A statement that was handed out is not handed out again while it is in use.
pub proof fn in_use_is_not_handed_out(cache: StatementCacheView, sql: Seq<char>, now: u128)
    requires
        cache.valid(),
    ensures
        cache.after_get(sql, now).get_result(sql) is None,
{
    if cache.max_size != 0 && cache.contains(sql) {
        model::lemma_with_entry(cache, cache.after_get(sql, now), sql, cache.entry(sql).taken(now));
    }
}

/// A statement that was handed out and given back is handed out again as it was.
pub proof fn returned_is_handed_out_again(cache: StatementCacheView, sql: Seq<char>, now: u128)
    requires
        cache.valid(),
        cache.get_result(sql) is Some,
    ensures
        cache.after_get(sql, now).after_return(sql).get_result(sql) == cache.get_result(sql),
{
    let taken = cache.after_get(sql, now);
    let back = taken.after_return(sql);
    model::lemma_with_entry(cache, taken, sql, cache.entry(sql).taken(now));
    assert(taken.contains(sql));
    model::lemma_with_entry(taken, back, sql, taken.entry(sql).returned());
    assert(back.contains(sql));
}

/// The two caches hold the same texts in the same order, the same statement under `other`,
/// the same queue of cursors and the same size.
pub open spec fn agree_on(
    before: StatementCacheView,
    after: StatementCacheView,
    other: Seq<char>,
) -> bool {
    &&& after.entries.len() == before.entries.len()
    &&& forall|i: int|
        0 <= i < before.entries.len() ==> (#[trigger] after.entries[i]).0 == before.entries[i].0
    &&& after.contains(other) == before.contains(other)
    &&& before.contains(other) ==> after.entry(other) == before.entry(other)
    &&& after.cursors_to_close == before.cursors_to_close
    &&& after.max_size == before.max_size
}

/// `get`, `return_statement` and `mark_cursor_closed` touch the statement under their text
/// alone: which texts are cached and in which order, all other statements, the queue of
/// cursors and the size stay as they are.
pub proof fn others_stay(cache: StatementCacheView, sql: Seq<char>, now: u128, other: Seq<char>)
    requires
        cache.valid(),
        other != sql,
    ensures
        ({
            let got = cache.after_get(sql, now);
            let returned = cache.after_return(sql);
            let marked = cache.after_mark_cursor_closed(sql);
            &&& agree_on(cache, got, other)
            &&& agree_on(cache, returned, other)
            &&& agree_on(cache, marked, other)
        }),
{
    if cache.contains(sql) {
        assert(model::key_at(cache.entries, cache.index_of(sql), sql));
        if cache.max_size != 0 {
            model::lemma_with_entry(
                cache,
                cache.after_get(sql, now),
                sql,
                cache.entry(sql).taken(now),
            );
        }
        model::lemma_with_entry(cache, cache.after_return(sql), sql, cache.entry(sql).returned());
        if cache.entry(sql).statement.cursor_id != 0 {
            model::lemma_with_entry(
                cache,
                cache.after_mark_cursor_closed(sql),
                sql,
                cache.entry(sql).cursor_closed(),
            );
        }
    }
}

/// A statement in use is never driven out.
pub proof fn in_use_stays(
    cache: StatementCacheView,
    sql: Seq<char>,
    statement: StatementView,
    now: u128,
    other: Seq<char>,
)
    requires
        cache.valid(),
        other != sql,
        cache.contains(other),
        cache.entry(other).in_use,
    ensures
        cache.after_put(sql, statement, now).contains(other),
        cache.after_put(sql, statement, now).entry(other) == cache.entry(other),
{
    if cache.accepts(statement) && cache.has_room(sql) {
        put_finds(cache, sql, statement, now);
        if cache.drives_out(sql, statement) {
            model::lemma_lru_exists(cache);
            assert(model::key_at(cache.entries, cache.lru(), cache.lru_key()));
            model::lemma_index_of(cache, cache.lru(), cache.lru_key());
        }
    }
}

/// What a full cache drives out is the least recently used statement: it was cached,
/// nobody used it, no other statement that nobody used was used before it, and it is gone.
pub proof fn least_recently_used_goes(
    cache: StatementCacheView,
    sql: Seq<char>,
    statement: StatementView,
    now: u128,
)
    requires
        cache.valid(),
        cache.drives_out(sql, statement),
    ensures
        cache.contains(cache.lru_key()),
        !cache.entry(cache.lru_key()).in_use,
        forall|other: Seq<char>| #[trigger]
            cache.contains(other) && !cache.entry(other).in_use ==> cache.entry(
                cache.lru_key(),
            ).last_used <= cache.entry(other).last_used,
        !cache.after_put(sql, statement, now).contains(cache.lru_key()),
        cache.after_put(sql, statement, now).entries.len() == cache.entries.len(),
{
    model::lemma_lru_exists(cache);
    assert(model::key_at(cache.entries, cache.lru(), cache.lru_key()));
    model::lemma_index_of(cache, cache.lru(), cache.lru_key());
    put_finds(cache, sql, statement, now);
    assert forall|other: Seq<char>| #[trigger]
        cache.contains(other) && !cache.entry(other).in_use implies cache.entry(
        cache.lru_key(),
    ).last_used <= cache.entry(other).last_used by {
        assert(model::key_at(cache.entries, cache.index_of(other), other));
        assert(cache.idle_at(cache.index_of(other)));
    }
}

/// The statement that was used last bears a later time than every other, as `get` and `put`
/// take the time of a use after that of every use before.
pub proof fn last_use_is_newest(
    cache: StatementCacheView,
    sql: Seq<char>,
    statement: StatementView,
    now: u128,
    other: Seq<char>,
)
    requires
        cache.valid(),
        cache.latest < now,
        other != sql,
    ensures
        ({
            let got = cache.after_get(sql, now);
            cache.max_size != 0 && cache.contains(sql) && got.contains(other) ==> got.entry(
                other,
            ).last_used < got.entry(sql).last_used
        }),
        ({
            let stored = cache.after_put(sql, statement, now);
            cache.accepts(statement) && cache.has_room(sql) && stored.contains(other)
                ==> stored.entry(other).last_used < stored.entry(sql).last_used
        }),
{
    let got = cache.after_get(sql, now);
    if cache.max_size != 0 && cache.contains(sql) && got.contains(other) {
        model::lemma_with_entry(cache, got, sql, cache.entry(sql).taken(now));
        assert(cache.contains(other));
        assert(model::key_at(cache.entries, cache.index_of(other), other));
    }
    let stored = cache.after_put(sql, statement, now);
    if cache.accepts(statement) && cache.has_room(sql) && stored.contains(other) {
        put_finds(cache, sql, statement, now);
        assert(cache.contains(other));
        assert(model::key_at(cache.entries, cache.index_of(other), other));
    }
}

/// Of two statements that nobody uses, the one that was used later is not the one that is
/// driven out.
pub proof fn later_use_stays(
    cache: StatementCacheView,
    sql: Seq<char>,
    statement: StatementView,
    now: u128,
    earlier: Seq<char>,
    later: Seq<char>,
)
    requires
        cache.valid(),
        cache.contains(earlier),
        cache.contains(later),
        !cache.entry(earlier).in_use,
        cache.entry(earlier).last_used < cache.entry(later).last_used,
    ensures
        cache.after_put(sql, statement, now).contains(later),
{
    if cache.accepts(statement) && cache.has_room(sql) {
        put_finds(cache, sql, statement, now);
        if cache.drives_out(sql, statement) {
            least_recently_used_goes(cache, sql, statement, now);
        }
    }
}

/// A statement that was just used and given back is not the next to be driven out, where
/// there is another that nobody uses.
pub proof fn just_used_stays(
    cache: StatementCacheView,
    used: Seq<char>,
    used_at: u128,
    sql: Seq<char>,
    statement: StatementView,
    now: u128,
    other: Seq<char>,
)
    requires
        cache.valid(),
        cache.get_result(used) is Some,
        cache.latest < used_at,
        other != used,
        cache.contains(other),
        !cache.entry(other).in_use,
    ensures
        cache.after_get(used, used_at).after_return(used).after_put(sql, statement, now).contains(
            used,
        ),
{
    let taken = cache.after_get(used, used_at);
    let back = taken.after_return(used);
    get_keeps_valid(cache, used, used_at);
    return_keeps_valid(taken, used);
    model::lemma_with_entry(cache, taken, used, cache.entry(used).taken(used_at));
    assert(taken.contains(used) && taken.contains(other));
    model::lemma_with_entry(taken, back, used, taken.entry(used).returned());
    assert(back.contains(used) && back.contains(other));
    assert(back.entry(other) == cache.entry(other));
    assert(model::key_at(cache.entries, cache.index_of(other), other));
    later_use_stays(back, sql, statement, now, other, used);
}

/// `put` queues the cursor of the statement that it drives out, if that has one, and no
/// other.
pub proof fn driven_out_cursor_is_queued(
    cache: StatementCacheView,
    sql: Seq<char>,
    statement: StatementView,
    now: u128,
)
    requires
        cache.valid(),
    ensures
        ({
            let queue = cache.after_put(sql, statement, now).cursors_to_close;
            let cursor_id = cache.entry(cache.lru_key()).statement.cursor_id;
            if cache.drives_out(sql, statement) && cursor_id != 0 {
                queue == cache.cursors_to_close.push(cursor_id)
            } else {
                queue == cache.cursors_to_close
            }
        }),
{
    if cache.drives_out(sql, statement) {
        model::lemma_lru_exists(cache);
        assert(model::key_at(cache.entries, cache.lru(), cache.lru_key()));
        model::lemma_index_of(cache, cache.lru(), cache.lru_key());
    }
}

/// No cursor is lost by `put`: one that a cached statement had, or that waited for closing,
/// is still in the one place or the other. This is so unless a statement is stored in place
/// of one with another cursor.
pub proof fn put_loses_no_cursor(
    cache: StatementCacheView,
    sql: Seq<char>,
    statement: StatementView,
    now: u128,
    cursor_id: u16,
)
    requires
        cache.valid(),
        cache.contains(sql) ==> cache.entry(sql).statement.cursor_id == statement.cursor_id,
        cursor_id != 0,
        cache.knows_cursor(cursor_id),
    ensures
        cache.after_put(sql, statement, now).knows_cursor(cursor_id),
{
    let after = cache.after_put(sql, statement, now);
    driven_out_cursor_is_queued(cache, sql, statement, now);
    if cache.cursors_to_close.contains(cursor_id) {
        let k = cache.cursors_to_close.index_of(cursor_id);
        assert(after.cursors_to_close[k] == cursor_id);
    } else if cache.accepts(statement) && cache.has_room(sql) {
        let i = choose|i: int|
            0 <= i < cache.entries.len() && (#[trigger] cache.entries[i]).1.statement.cursor_id
                == cursor_id;
        let key = cache.entries[i].0;
        model::lemma_index_of(cache, i, key);
        put_finds(cache, sql, statement, now);
        if cache.drives_out(sql, statement) && key == cache.lru_key() {
            assert(after.cursors_to_close.last() == cursor_id);
        } else {
            assert(after.contains(key));
            assert(model::key_at(after.entries, after.index_of(key), key));
            assert(after.entries[after.index_of(key)].1.statement.cursor_id == cursor_id);
        }
    }
}

/// Eviction neither loses nor doubles a cursor: each real one is, among the cached
/// statements and in the queue together, as many times after it as before.
pub proof fn evict_keeps_cursor_count(cache: StatementCacheView, cursor_id: u16)
    requires
        cache.valid(),
        cursor_id != 0,
    ensures
        cache.after_evict().cursor_count(cursor_id) == cache.cursor_count(cursor_id),
{
    if cache.has_idle() {
        model::lemma_lru_exists(cache);
        lemma_swap_removed_count(cache.entries, cache.lru(), cursor_id);
        let gone = cache.entries[cache.lru()].1.statement.cursor_id;
        broadcast use vstd::seq_lib::group_to_multiset_ensures;

        assert(cache.cursors_to_close.push(gone).to_multiset()
            == cache.cursors_to_close.to_multiset().insert(gone));
    }
}

/// Taking one entry out takes one of its cursor away.
proof fn lemma_swap_removed_count(
    entries: Seq<(Seq<char>, CachedStatementView)>,
    i: int,
    cursor_id: u16,
)
    requires
        0 <= i < entries.len(),
    ensures
        model::cursor_ids(entries).to_multiset().count(cursor_id) == model::cursor_ids(
            model::swap_removed(entries, i),
        ).to_multiset().count(cursor_id) + (if entries[i].1.statement.cursor_id == cursor_id {
            1nat
        } else {
            0nat
        }),
{
    broadcast use vstd::seq_lib::group_to_multiset_ensures;

    let ids = model::cursor_ids(entries);
    let left = model::cursor_ids(model::swap_removed(entries, i));
    let n = entries.len() - 1;
    let swapped = ids.update(i, ids[n]);
    let m = ids.to_multiset();
    assert(left.push(ids[n]) == swapped);
    assert(left.push(ids[n]).to_multiset() == left.to_multiset().insert(ids[n]));
    assert(swapped.to_multiset() == m.insert(ids[n]).remove(ids[i]));
    assert(ids.contains(ids[i]));
    assert(m.insert(ids[n]).remove(ids[i]).count(cursor_id) == m.insert(ids[n]).count(cursor_id) - (
    if ids[i] == cursor_id {
        1nat
    } else {
        0nat
    }));
}

/// Storing a statement under a new text adds its cursor and keeps the count of every other.
pub proof fn put_keeps_cursor_count(
    cache: StatementCacheView,
    sql: Seq<char>,
    statement: StatementView,
    now: u128,
    cursor_id: u16,
)
    requires
        cache.valid(),
        cache.accepts(statement),
        cache.has_room(sql),
        !cache.contains(sql),
        cursor_id != 0,
    ensures
        cache.after_put(sql, statement, now).cursor_count(cursor_id) == cache.cursor_count(cursor_id)
            + (if statement.cursor_id == cursor_id {
            1nat
        } else {
            0nat
        }),
{
    broadcast use vstd::seq_lib::group_to_multiset_ensures;

    evict_keeps_cursor_count(cache, cursor_id);
    let roomy = cache.after_make_room();
    let after = cache.after_put(sql, statement, now);
    assert(model::cursor_ids(after.entries) == model::cursor_ids(roomy.entries).push(
        statement.cursor_id,
    ));
}

/// No cursor is lost by `get`, `return_statement` and `queue_cursor_to_close` either, and
/// one that is queued is known from there on.
pub proof fn use_loses_no_cursor(
    cache: StatementCacheView,
    sql: Seq<char>,
    now: u128,
    queued: u16,
    cursor_id: u16,
)
    requires
        cache.valid(),
        cursor_id != 0,
        cache.knows_cursor(cursor_id) || cursor_id == queued,
    ensures
        cache.knows_cursor(cursor_id) ==> cache.after_get(sql, now).knows_cursor(cursor_id),
        cache.knows_cursor(cursor_id) ==> cache.after_return(sql).knows_cursor(cursor_id),
        cache.queued(queued).knows_cursor(cursor_id),
{
    if cache.contains(sql) {
        assert(model::key_at(cache.entries, cache.index_of(sql), sql));
    }
    if cache.cursors_to_close.contains(cursor_id) {
        let k = cache.cursors_to_close.index_of(cursor_id);
        assert(cache.queued(queued).cursors_to_close[k] == cursor_id);
    } else if cache.knows_cursor(cursor_id) {
        let i = choose|i: int|
            0 <= i < cache.entries.len() && (#[trigger] cache.entries[i]).1.statement.cursor_id
                == cursor_id;
        assert(cache.after_get(sql, now).entries[i].1.statement.cursor_id == cursor_id);
        assert(cache.after_return(sql).entries[i].1.statement.cursor_id == cursor_id);
        assert(cache.queued(queued).entries[i].1.statement.cursor_id == cursor_id);
    } else {
        assert(cache.queued(queued).cursors_to_close.last() == cursor_id);
    }
}

/// `put` never lets the cache grow beyond its maximum, which stays.
pub proof fn size_is_kept(
    cache: StatementCacheView,
    sql: Seq<char>,
    statement: StatementView,
    now: u128,
)
    requires
        cache.valid(),
    ensures
        cache.after_put(sql, statement, now).entries.len() <= cache.max_size,
        cache.after_put(sql, statement, now).max_size == cache.max_size,
{
    put_keeps_valid(cache, sql, statement, now);
}

/// After `mark_cursor_closed`, `get` gives the statement without a cursor and not executed,
/// and otherwise as it was; nothing is queued, and marking once more changes nothing.
pub proof fn marked_has_no_cursor(cache: StatementCacheView, sql: Seq<char>)
    requires
        cache.valid(),
        cache.contains(sql),
    ensures
        ({
            let marked = cache.after_mark_cursor_closed(sql);
            &&& marked.contains(sql)
            &&& marked.entry(sql).statement.cursor_id == 0
            &&& marked.cursors_to_close == cache.cursors_to_close
            &&& marked.after_mark_cursor_closed(sql) == marked
            &&& cache.entry(sql).statement.cursor_id != 0 ==> marked.entry(sql) == cache.entry(
                sql,
            ).cursor_closed()
            &&& cache.get_result(sql) is Some ==> marked.get_result(sql) == Some(
                marked.entry(sql).statement,
            )
        }),
{
    if cache.entry(sql).statement.cursor_id != 0 {
        model::lemma_with_entry(
            cache,
            cache.after_mark_cursor_closed(sql),
            sql,
            cache.entry(sql).cursor_closed(),
        );
    }
}

/// After `clear` no statement is found, none is handed out and no cursor waits for closing.
pub proof fn cleared_holds_nothing(cache: StatementCacheView, sql: Seq<char>)
    requires
        cache.valid(),
    ensures
        !cache.after_clear().contains(sql),
        cache.after_clear().get_result(sql) is None,
        cache.after_clear().entries.len() == 0,
        cache.after_clear().cursors_to_close.len() == 0,
        cache.after_clear().max_size == cache.max_size,
{
}

} // verus!
