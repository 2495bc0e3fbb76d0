//! What each operation does, told by the entries, the maximum and the queue alone.
//!
//! The laws here name the fields of a cache before and after an operation, position by
//! position, and leave nothing of the new cache open.
use crate::laws;
use crate::model;
use crate::model::StatementCacheView;
use crate::statement::{Statement, StatementView};
use crate::statement_cache;
use vstd::prelude::*;

verus! {

/// A new cache holds no statement and no cursor, and has the maximum that it was made with.
pub proof fn new_is_empty(max_size: usize)
    ensures
        StatementCacheView::empty(max_size).entries.len() == 0,
        StatementCacheView::empty(max_size).max_size == max_size,
        StatementCacheView::empty(max_size).cursors_to_close.len() == 0,
        StatementCacheView::empty(max_size).latest == 0,
{
}

/// Every maximum for which 256 bytes an entry can be reserved at once can be asked for, and no
/// greater one.
pub proof fn what_can_be_reserved(max_size: usize)
    ensures
        max_size as int <= isize::MAX as int / 256 ==> model::reservable(max_size),
        max_size as int > isize::MAX as int / 256 ==> !model::reservable(max_size),
{
}

/// A cache is valid where no two entries have one text, there are no more of them than the
/// maximum, none is a data definition, none was used after the newest use and no 0 is queued;
/// nothing else is asked, and no less.
pub proof fn what_validity_asks(cache: StatementCacheView)
    ensures
        cache.valid() <==> {
            &&& forall|i: int, j: int|
                0 <= i < cache.entries.len() && 0 <= j < cache.entries.len() && i != j
                    ==> #[trigger] cache.entries[i].0 != #[trigger] cache.entries[j].0
            &&& cache.entries.len() <= cache.max_size
            &&& forall|i: int|
                0 <= i < cache.entries.len() ==> !(#[trigger] cache.entries[i]).1.statement.ddl
            &&& forall|i: int|
                0 <= i < cache.entries.len() ==> (#[trigger] cache.entries[i]).1.last_used
                    <= cache.latest
            &&& forall|i: int|
                0 <= i < cache.cursors_to_close.len() ==> #[trigger] cache.cursors_to_close[i] != 0
        },
{
    if cache.valid() {
        assert forall|i: int, j: int|
            0 <= i < cache.entries.len() && 0 <= j < cache.entries.len() && i
                != j implies #[trigger] cache.entries[i].0 != #[trigger] cache.entries[j].0 by {
            if j < i {
                assert(cache.entries[j].0 != cache.entries[i].0);
            }
        }
    }
}

/// A statement is handed out as it is.
pub proof fn handed_out_as_it_is(statement: Statement)
    ensures
        statement_cache::optional_view(Some(statement)) == Some(statement@),
        statement_cache::optional_view(None) is None,
{
}

/// `get` hands out the whole statement at the place of its text, if nobody uses it.
pub proof fn get_hands_out(cache: StatementCacheView, sql: Seq<char>, i: int)
    requires
        cache.valid(),
        0 <= i < cache.entries.len(),
        cache.entries[i].0 == sql,
    ensures
        cache.entries[i].1.in_use ==> cache.get_result(sql) is None,
        !cache.entries[i].1.in_use ==> cache.get_result(sql) == Some(
            cache.entries[i].1.statement,
        ),
{
    assert(model::key_at(cache.entries, i, sql));
    model::lemma_index_of(cache, i, sql);
}

/// `get` hands out nothing, and changes nothing, for a text that no entry has.
pub proof fn get_misses(cache: StatementCacheView, sql: Seq<char>, now: u128)
    requires
        cache.valid(),
        forall|i: int| 0 <= i < cache.entries.len() ==> (#[trigger] cache.entries[i]).0 != sql,
    ensures
        cache.get_result(sql) is None,
        cache.after_get(sql, now) == cache,
{
    if cache.contains(sql) {
        assert(model::key_at(cache.entries, cache.index_of(sql), sql));
    }
}

/// `get` of a text that the entry at `i` has notes the use there, whether or not it was in
/// use, and changes nothing else: no statement changes in any part, no entry moves, comes or
/// goes, and the queue and the maximum stay.
pub proof fn get_notes_the_use_alone(
    cache: StatementCacheView,
    sql: Seq<char>,
    now: u128,
    i: int,
)
    requires
        cache.valid(),
        0 <= i < cache.entries.len(),
        cache.entries[i].0 == sql,
    ensures
        ({
            let after = cache.after_get(sql, now);
            &&& after.entries.len() == cache.entries.len()
            &&& after.entries[i].1.in_use
            &&& after.entries[i].1.last_used == now
            &&& forall|j: int|
                0 <= j < cache.entries.len() ==> {
                    &&& (#[trigger] after.entries[j]).0 == cache.entries[j].0
                    &&& after.entries[j].1.statement == cache.entries[j].1.statement
                    &&& j != i ==> after.entries[j] == cache.entries[j]
                }
            &&& after.cursors_to_close == cache.cursors_to_close
            &&& after.max_size == cache.max_size
            &&& after.latest == if cache.latest < now {
                now
            } else {
                cache.latest
            }
        }),
{
    assert(model::key_at(cache.entries, i, sql));
    model::lemma_index_of(cache, i, sql);
}

/// `put` turns a statement away, and changes nothing, where the maximum is 0, where the
/// statement is a data definition or has no cursor, and where the text is new, all places are
/// taken and every statement is in use.
pub proof fn put_turns_away(
    cache: StatementCacheView,
    sql: Seq<char>,
    statement: StatementView,
    now: u128,
)
    requires
        cache.valid(),
        ({
            ||| cache.max_size == 0
            ||| statement.ddl
            ||| statement.cursor_id == 0
            ||| {
                &&& cache.entries.len() >= cache.max_size
                &&& forall|i: int|
                    0 <= i < cache.entries.len() ==> (#[trigger] cache.entries[i]).0 != sql
                        && cache.entries[i].1.in_use
            }
        }),
    ensures
        cache.after_put(sql, statement, now) == cache,
{
    if cache.contains(sql) {
        assert(model::key_at(cache.entries, cache.index_of(sql), sql));
    }
    if cache.has_idle() {
        let i = choose|i: int| cache.idle_at(i);
        assert(cache.idle_at(i));
    }
}

/// `put` under the text of the entry at `i` stores the statement there, ready for use and
/// used at `now`, and changes nothing else, be the cache full or not: no other entry changes,
/// none moves, comes or goes, and nothing is queued.
pub proof fn put_replaces_in_place(
    cache: StatementCacheView,
    sql: Seq<char>,
    statement: StatementView,
    now: u128,
    i: int,
)
    requires
        cache.valid(),
        !statement.ddl,
        statement.cursor_id != 0,
        0 <= i < cache.entries.len(),
        cache.entries[i].0 == sql,
    ensures
        ({
            let after = cache.after_put(sql, statement, now);
            &&& after.entries.len() == cache.entries.len()
            &&& after.entries[i].0 == sql
            &&& after.entries[i].1.statement == statement
            &&& !after.entries[i].1.in_use
            &&& after.entries[i].1.last_used == now
            &&& forall|j: int|
                0 <= j < cache.entries.len() && j != i ==> #[trigger] after.entries[j]
                    == cache.entries[j]
            &&& after.cursors_to_close == cache.cursors_to_close
            &&& after.max_size == cache.max_size
            &&& after.latest == if cache.latest < now {
                now
            } else {
                cache.latest
            }
        }),
{
    assert(model::key_at(cache.entries, i, sql));
    model::lemma_index_of(cache, i, sql);
}

/// `put` under a new text where a place is free drives nothing out and queues nothing: every
/// entry stays where and as it is, and the statement comes in last, ready for use and used at
/// `now`. How long the text is, and what waits for closing, is all the same.
pub proof fn put_takes_a_free_place(
    cache: StatementCacheView,
    sql: Seq<char>,
    statement: StatementView,
    now: u128,
)
    requires
        cache.valid(),
        !statement.ddl,
        statement.cursor_id != 0,
        cache.entries.len() < cache.max_size,
        forall|i: int| 0 <= i < cache.entries.len() ==> (#[trigger] cache.entries[i]).0 != sql,
    ensures
        ({
            let n = cache.entries.len() as int;
            let after = cache.after_put(sql, statement, now);
            &&& after.entries.len() == n + 1
            &&& forall|j: int| 0 <= j < n ==> #[trigger] after.entries[j] == cache.entries[j]
            &&& after.entries[n].0 == sql
            &&& after.entries[n].1.statement == statement
            &&& !after.entries[n].1.in_use
            &&& after.entries[n].1.last_used == now
            &&& after.cursors_to_close == cache.cursors_to_close
            &&& after.max_size == cache.max_size
            &&& after.latest == if cache.latest < now {
                now
            } else {
                cache.latest
            }
        }),
{
    if cache.contains(sql) {
        assert(model::key_at(cache.entries, cache.index_of(sql), sql));
    }
}

/// Where some entry is not in use, one of those is the least recently used: none of them was
/// used before it, and those that bear the same time come behind it.
pub proof fn one_is_least_recently_used(cache: StatementCacheView, idle: int) -> (gone: int)
    requires
        0 <= idle < cache.entries.len(),
        !cache.entries[idle].1.in_use,
    ensures
        0 <= gone < cache.entries.len(),
        !cache.entries[gone].1.in_use,
        forall|j: int|
            0 <= j < cache.entries.len() && !(#[trigger] cache.entries[j]).1.in_use ==> {
                ||| cache.entries[gone].1.last_used < cache.entries[j].1.last_used
                ||| cache.entries[gone].1.last_used == cache.entries[j].1.last_used && gone <= j
            },
{
    assert(cache.idle_at(idle));
    model::lemma_lru_exists(cache);
    assert forall|j: int|
        0 <= j < cache.entries.len() && !(#[trigger] cache.entries[j]).1.in_use implies {
        ||| cache.entries[cache.lru()].1.last_used < cache.entries[j].1.last_used
        ||| cache.entries[cache.lru()].1.last_used == cache.entries[j].1.last_used && cache.lru() <= j
    } by {
        assert(cache.idle_at(j));
    }
    cache.lru()
}

/// `put` under a new text where all places are taken drives out the least recently used of
/// the statements that are not in use, that at `gone`, and no other. The last entry moves into
/// its place, every other stays where and as it is, and the new statement comes in last, ready
/// for use and used at `now`. The cursor of the one driven out, if it has one, comes last in
/// the queue, and nothing else is queued.
pub proof fn put_drives_out_one(
    cache: StatementCacheView,
    sql: Seq<char>,
    statement: StatementView,
    now: u128,
    gone: int,
)
    requires
        cache.valid(),
        !statement.ddl,
        statement.cursor_id != 0,
        cache.entries.len() >= cache.max_size,
        forall|i: int| 0 <= i < cache.entries.len() ==> (#[trigger] cache.entries[i]).0 != sql,
        0 <= gone < cache.entries.len(),
        !cache.entries[gone].1.in_use,
        forall|j: int|
            0 <= j < cache.entries.len() && !(#[trigger] cache.entries[j]).1.in_use ==> {
                ||| cache.entries[gone].1.last_used < cache.entries[j].1.last_used
                ||| cache.entries[gone].1.last_used == cache.entries[j].1.last_used && gone <= j
            },
    ensures
        ({
            let last = cache.entries.len() - 1;
            let after = cache.after_put(sql, statement, now);
            let cursor_id = cache.entries[gone].1.statement.cursor_id;
            &&& after.entries.len() == cache.entries.len()
            &&& forall|j: int|
                0 <= j < last && j != gone ==> #[trigger] after.entries[j] == cache.entries[j]
            &&& gone != last ==> after.entries[gone] == cache.entries[last]
            &&& after.entries[last].0 == sql
            &&& after.entries[last].1.statement == statement
            &&& !after.entries[last].1.in_use
            &&& after.entries[last].1.last_used == now
            &&& cursor_id != 0 ==> after.cursors_to_close == cache.cursors_to_close.push(cursor_id)
            &&& cursor_id == 0 ==> after.cursors_to_close == cache.cursors_to_close
            &&& after.max_size == cache.max_size
            &&& after.latest == if cache.latest < now {
                now
            } else {
                cache.latest
            }
        }),
{
    if cache.contains(sql) {
        assert(model::key_at(cache.entries, cache.index_of(sql), sql));
    }
    assert(cache.idle_at(gone));
    assert(cache.is_lru(gone));
    model::lemma_lru_unique(cache, gone);
}

/// Whatever the text, a statement with a cursor that is no data definition is given back by
/// `get` after `put`, where caching is on and the text has its entry already, or a place is
/// free, or some statement is not in use.
pub proof fn stored_is_given_back(
    cache: StatementCacheView,
    sql: Seq<char>,
    statement: StatementView,
    now: u128,
)
    requires
        cache.valid(),
        cache.max_size != 0,
        !statement.ddl,
        statement.cursor_id != 0,
        ({
            ||| cache.entries.len() < cache.max_size
            ||| exists|i: int|
                0 <= i < cache.entries.len() && ((#[trigger] cache.entries[i]).0 == sql
                    || !cache.entries[i].1.in_use)
        }),
    ensures
        cache.after_put(sql, statement, now).get_result(sql) == Some(statement),
{
    let after = cache.after_put(sql, statement, now);
    laws::put_keeps_valid(cache, sql, statement, now);
    let n = cache.entries.len() as int;
    if exists|i: int| 0 <= i < n && (#[trigger] cache.entries[i]).0 == sql {
        let i = choose|i: int| 0 <= i < n && (#[trigger] cache.entries[i]).0 == sql;
        put_replaces_in_place(cache, sql, statement, now, i);
        get_hands_out(after, sql, i);
    } else if n < cache.max_size {
        put_takes_a_free_place(cache, sql, statement, now);
        get_hands_out(after, sql, n);
    } else {
        let idle = choose|i: int|
            0 <= i < cache.entries.len() && ((#[trigger] cache.entries[i]).0 == sql
                || !cache.entries[i].1.in_use);
        let gone = one_is_least_recently_used(cache, idle);
        put_drives_out_one(cache, sql, statement, now, gone);
        get_hands_out(after, sql, n - 1);
    }
}

/// `return_statement` of the text of the entry at `i` ends its use and changes nothing else:
/// not the statement, nor when it was used, nor any other entry, the queue or the maximum.
pub proof fn return_ends_the_use_alone(cache: StatementCacheView, sql: Seq<char>, i: int)
    requires
        cache.valid(),
        0 <= i < cache.entries.len(),
        cache.entries[i].0 == sql,
    ensures
        ({
            let after = cache.after_return(sql);
            &&& after.entries.len() == cache.entries.len()
            &&& after.entries[i].0 == sql
            &&& after.entries[i].1.statement == cache.entries[i].1.statement
            &&& !after.entries[i].1.in_use
            &&& after.entries[i].1.last_used == cache.entries[i].1.last_used
            &&& forall|j: int|
                0 <= j < cache.entries.len() && j != i ==> #[trigger] after.entries[j]
                    == cache.entries[j]
            &&& after.cursors_to_close == cache.cursors_to_close
            &&& after.max_size == cache.max_size
            &&& after.latest == cache.latest
        }),
{
    assert(model::key_at(cache.entries, i, sql));
    model::lemma_index_of(cache, i, sql);
}

/// `mark_cursor_closed` of the text of the entry at `i` takes the cursor of the statement
/// there and that it was executed, if it has a cursor, and changes nothing else: the text, the
/// kind and the metadata of the statement stay, and so do its use, every other entry, the
/// queue and the maximum.
pub proof fn mark_resets_the_cursor_alone(cache: StatementCacheView, sql: Seq<char>, i: int)
    requires
        cache.valid(),
        0 <= i < cache.entries.len(),
        cache.entries[i].0 == sql,
    ensures
        ({
            let after = cache.after_mark_cursor_closed(sql);
            let old_statement = cache.entries[i].1.statement;
            let new_statement = after.entries[i].1.statement;
            &&& after.entries.len() == cache.entries.len()
            &&& after.entries[i].0 == sql
            &&& new_statement.cursor_id == 0
            &&& old_statement.cursor_id != 0 ==> !new_statement.executed
            &&& old_statement.cursor_id == 0 ==> new_statement.executed == old_statement.executed
            &&& new_statement.sql == old_statement.sql
            &&& new_statement.ddl == old_statement.ddl
            &&& new_statement.metadata == old_statement.metadata
            &&& after.entries[i].1.in_use == cache.entries[i].1.in_use
            &&& after.entries[i].1.last_used == cache.entries[i].1.last_used
            &&& forall|j: int|
                0 <= j < cache.entries.len() && j != i ==> #[trigger] after.entries[j]
                    == cache.entries[j]
            &&& after.cursors_to_close == cache.cursors_to_close
            &&& after.max_size == cache.max_size
            &&& after.latest == cache.latest
        }),
{
    assert(model::key_at(cache.entries, i, sql));
    model::lemma_index_of(cache, i, sql);
}

/// `return_statement` and `mark_cursor_closed` change nothing for a text that no entry has.
pub proof fn absent_text_changes_nothing(cache: StatementCacheView, sql: Seq<char>)
    requires
        cache.valid(),
        forall|i: int| 0 <= i < cache.entries.len() ==> (#[trigger] cache.entries[i]).0 != sql,
    ensures
        cache.after_return(sql) == cache,
        cache.after_mark_cursor_closed(sql) == cache,
{
    if cache.contains(sql) {
        assert(model::key_at(cache.entries, cache.index_of(sql), sql));
    }
}

/// `queue_cursor_to_close` appends every cursor but 0 to the queue, whatever is cached or
/// queued already, and touches nothing else.
pub proof fn queue_appends(cache: StatementCacheView, cursor_id: u16)
    requires
        cache.valid(),
    ensures
        cursor_id != 0 ==> cache.queued(cursor_id).cursors_to_close
            == cache.cursors_to_close.push(cursor_id),
        cursor_id == 0 ==> cache.queued(cursor_id).cursors_to_close == cache.cursors_to_close,
        cache.queued(cursor_id).entries == cache.entries,
        cache.queued(cursor_id).max_size == cache.max_size,
        cache.queued(cursor_id).latest == cache.latest,
{
}

/// `clear` leaves no entry and an empty queue, and the maximum and the clock as they are.
pub proof fn clear_empties(cache: StatementCacheView)
    requires
        cache.valid(),
    ensures
        cache.after_clear().entries.len() == 0,
        cache.after_clear().cursors_to_close.len() == 0,
        cache.after_clear().max_size == cache.max_size,
        cache.after_clear().latest == cache.latest,
{
}

/// A use that comes when the clock has counted beyond the newest use bears what the clock has
/// counted, up to `u64::MAX`; one that comes before the clock has moved on bears the next
/// nanosecond. So each use bears a later time than every use before it, up to the last time
/// there is, at which time stands still.
pub proof fn time_of_a_use(latest: u128, elapsed: u128, now: u128)
    ensures
        latest < elapsed <= u64::MAX ==> model::tick(latest, model::counted(elapsed)) == elapsed,
        elapsed <= latest < u128::MAX ==> model::tick(latest, model::counted(elapsed)) == latest + 1,
        latest < u64::MAX <= elapsed ==> model::tick(latest, model::counted(elapsed)) == u64::MAX,
        u64::MAX <= latest < u128::MAX ==> model::tick(latest, model::counted(elapsed)) == latest
            + 1,
        model::tick(u128::MAX, model::counted(elapsed)) == u128::MAX,
        model::is_next_use(latest, now) && latest < u128::MAX ==> latest < now,
        model::is_next_use(latest, now) ==> now <= u64::MAX || now <= latest + 1,
        model::is_next_use(u128::MAX, now) ==> now == u128::MAX,
        model::is_next_use(latest, model::tick(latest, model::counted(elapsed))),
{
}

} // verus!
