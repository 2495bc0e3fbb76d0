//! What holds of a cache after any run of operations, told by the operations alone.
use crate::laws;
use crate::model;
use crate::model::StatementCacheView;
use crate::statement::StatementView;
use vstd::prelude::*;

verus! {

/// An operation on the cache, with its arguments and, where it notes a use, the time.
pub enum Operation {
    Get { sql: Seq<char>, now: u128 },
    Put { sql: Seq<char>, statement: StatementView, now: u128 },
    ReturnStatement { sql: Seq<char> },
    MarkCursorClosed { sql: Seq<char> },
    QueueCursorToClose { cursor_id: u16 },
    ClearCursorsToClose,
    Clear,
}

/// The cache after one operation.
pub open spec fn step(cache: StatementCacheView, operation: Operation) -> StatementCacheView {
    match operation {
        Operation::Get { sql, now } => cache.after_get(sql, now),
        Operation::Put { sql, statement, now } => cache.after_put(sql, statement, now),
        Operation::ReturnStatement { sql } => cache.after_return(sql),
        Operation::MarkCursorClosed { sql } => cache.after_mark_cursor_closed(sql),
        Operation::QueueCursorToClose { cursor_id } => cache.queued(cursor_id),
        Operation::ClearCursorsToClose => StatementCacheView {
            cursors_to_close: Seq::empty(),
            ..cache
        },
        Operation::Clear => cache.after_clear(),
    }
}

/// A cache after a run of operations.
pub open spec fn run_from(cache: StatementCacheView, operations: Seq<Operation>) -> StatementCacheView
    decreases operations.len(),
{
    if operations.len() == 0 {
        cache
    } else {
        step(run_from(cache, operations.drop_last()), operations.last())
    }
}

/// A new cache after a run of operations.
pub open spec fn run(max_size: usize, operations: Seq<Operation>) -> StatementCacheView {
    run_from(StatementCacheView::empty(max_size), operations)
}

/// Whether the operation is a `put` under `sql` of a statement that can be cached.
pub open spec fn stores(operation: Operation, sql: Seq<char>) -> bool {
    &&& operation matches Operation::Put { sql: stored, statement, now: _ }
    &&& stored == sql
    &&& !statement.ddl
    &&& statement.cursor_id != 0
}

/// Whether the operation ends the use of the statement under `sql`: it gives the statement
/// back, stores another in its place, or clears the cache.
pub open spec fn releases(operation: Operation, sql: Seq<char>) -> bool {
    ||| operation == (Operation::ReturnStatement { sql })
    ||| stores(operation, sql)
    ||| operation is Clear
}

/// Whether the operation brings the server's cursor `cursor_id` in.
pub open spec fn brings_cursor(operation: Operation, cursor_id: u16) -> bool {
    match operation {
        Operation::Put { sql: _, statement, now: _ } => statement.cursor_id == cursor_id,
        Operation::QueueCursorToClose { cursor_id: queued } => queued == cursor_id,
        _ => false,
    }
}

/// Whether the operation uses the statement under `sql`, where there is one: it asks for it
/// or stores it.
pub open spec fn uses(max_size: usize, operation: Operation, sql: Seq<char>) -> bool {
    match operation {
        Operation::Get { sql: asked, now: _ } => asked == sql,
        _ => max_size != 0 && stores(operation, sql),
    }
}

/// The time that an operation notes.
pub open spec fn time(operation: Operation) -> u128 {
    match operation {
        Operation::Get { sql: _, now } => now,
        Operation::Put { sql: _, statement: _, now } => now,
        _ => 0,
    }
}

/// Which operation of the run was the last to use the statement under `sql`, or -1.
pub open spec fn last_use(max_size: usize, operations: Seq<Operation>, sql: Seq<char>) -> int
    decreases operations.len(),
{
    if operations.len() == 0 {
        -1
    } else if uses(max_size, operations.last(), sql) {
        operations.len() - 1
    } else {
        last_use(max_size, operations.drop_last(), sql)
    }
}

/// Every `get` and `put` comes later on the clock than the uses before it.
pub open spec fn clock_moves_on(max_size: usize, operations: Seq<Operation>) -> bool {
    forall|k: int|
        0 <= k < operations.len() && (operations[k] is Get || operations[k] is Put) ==> run(
            max_size,
            #[trigger] operations.take(k),
        ).latest < time(operations[k])
}

/// Every `get` and `put` takes its time as the methods that read the clock take it.
pub open spec fn reads_the_clock(max_size: usize, operations: Seq<Operation>) -> bool {
    forall|k: int|
        0 <= k < operations.len() && (operations[k] is Get || operations[k] is Put)
            ==> model::is_next_use(
            run(max_size, #[trigger] operations.take(k)).latest,
            time(operations[k]),
        )
}

/// Every operation keeps a cache valid, and its maximum.
pub proof fn step_keeps_valid(cache: StatementCacheView, operation: Operation)
    requires
        cache.valid(),
    ensures
        step(cache, operation).valid(),
        step(cache, operation).max_size == cache.max_size,
{
    match operation {
        Operation::Get { sql, now } => laws::get_keeps_valid(cache, sql, now),
        Operation::Put { sql, statement, now } => {
            laws::put_keeps_valid(cache, sql, statement, now);
            laws::size_is_kept(cache, sql, statement, now);
        },
        Operation::ReturnStatement { sql } => laws::return_keeps_valid(cache, sql),
        Operation::MarkCursorClosed { sql } => laws::mark_cursor_closed_keeps_valid(cache, sql),
        Operation::QueueCursorToClose { cursor_id } => laws::queue_keeps_valid(cache, cursor_id),
        Operation::ClearCursorsToClose => {},
        Operation::Clear => {},
    }
}

/// Every run keeps a cache valid, and its maximum.
pub proof fn run_keeps_valid(cache: StatementCacheView, operations: Seq<Operation>)
    requires
        cache.valid(),
    ensures
        run_from(cache, operations).valid(),
        run_from(cache, operations).max_size == cache.max_size,
    decreases operations.len(),
{
    if operations.len() > 0 {
        run_keeps_valid(cache, operations.drop_last());
        step_keeps_valid(run_from(cache, operations.drop_last()), operations.last());
    }
}

/// Whatever is done with a new cache, it stays valid and keeps its maximum.
pub proof fn every_run_is_valid(max_size: usize, operations: Seq<Operation>)
    ensures
        run(max_size, operations).valid(),
        run(max_size, operations).max_size == max_size,
{
    run_keeps_valid(StatementCacheView::empty(max_size), operations);
}

/// Whatever is done with a new cache, it never holds more statements than its maximum.
pub proof fn every_run_keeps_the_size(max_size: usize, operations: Seq<Operation>)
    ensures
        run(max_size, operations).entries.len() <= max_size,
{
    every_run_is_valid(max_size, operations);
}

/// The first operations of a run that reads the clock read it too.
proof fn lemma_earlier_reads_the_clock(max_size: usize, operations: Seq<Operation>)
    requires
        operations.len() > 0,
        reads_the_clock(max_size, operations),
    ensures
        reads_the_clock(max_size, operations.drop_last()),
{
    let earlier = operations.drop_last();
    assert forall|k: int|
        0 <= k < earlier.len() && (earlier[k] is Get
            || earlier[k] is Put) implies model::is_next_use(
        run(max_size, #[trigger] earlier.take(k)).latest,
        time(earlier[k]),
    ) by {
        assert(earlier.take(k) == operations.take(k));
    }
}

/// A run that reads the clock moves the newest time beyond what the clock counts by one
/// nanosecond for each operation at most.
proof fn lemma_latest_is_bounded(max_size: usize, operations: Seq<Operation>)
    requires
        reads_the_clock(max_size, operations),
    ensures
        run(max_size, operations).latest <= u64::MAX + operations.len(),
    decreases operations.len(),
{
    if operations.len() > 0 {
        let earlier = operations.drop_last();
        lemma_earlier_reads_the_clock(max_size, operations);
        lemma_latest_is_bounded(max_size, earlier);
        assert(operations.take(operations.len() - 1) == earlier);
    }
}

/// The clock moves on with every use by a method that reads it, whatever the machine's clock
/// shows.
pub proof fn uses_move_the_clock(max_size: usize, operations: Seq<Operation>)
    requires
        operations.len() + u64::MAX < u128::MAX,
        reads_the_clock(max_size, operations),
    ensures
        clock_moves_on(max_size, operations),
    decreases operations.len(),
{
    if operations.len() > 0 {
        let n = operations.len() - 1;
        let earlier = operations.drop_last();
        lemma_earlier_reads_the_clock(max_size, operations);
        uses_move_the_clock(max_size, earlier);
        lemma_latest_is_bounded(max_size, earlier);
        assert forall|k: int|
            0 <= k < operations.len() && (operations[k] is Get || operations[k] is Put) implies run(
            max_size,
            #[trigger] operations.take(k),
        ).latest < time(operations[k]) by {
            if k < n {
                assert(earlier.take(k) == operations.take(k));
                assert(earlier[k] == operations[k]);
            } else {
                assert(operations.take(k) == earlier);
            }
        }
    }
}

/// What one operation does to the statement under `sql`.
proof fn lemma_step_entry(before: StatementCacheView, operation: Operation, sql: Seq<char>)
    requires
        before.valid(),
    ensures
        ({
            let after = step(before, operation);
            &&& after.contains(sql) && !stores(operation, sql) ==> {
                &&& before.contains(sql)
                &&& before.entry(sql).statement.cursor_id == 0 ==> after.entry(
                    sql,
                ).statement.cursor_id == 0
            }
            &&& after.contains(sql) ==> if uses(before.max_size, operation, sql) {
                after.entry(sql).last_used == time(operation)
            } else {
                before.contains(sql) && after.entry(sql).last_used == before.entry(sql).last_used
            }
            &&& after.contains(sql) ==> {
                let cursor_id = after.entry(sql).statement.cursor_id;
                ||| cursor_id == 0
                ||| before.contains(sql) && cursor_id == before.entry(sql).statement.cursor_id
                ||| brings_cursor(operation, cursor_id)
            }
            &&& before.contains(sql) && before.entry(sql).in_use && !releases(operation, sql) ==> {
                after.contains(sql) && after.entry(sql).in_use
            }
        }),
{
    let after = step(before, operation);
    match operation {
        Operation::Get { sql: asked, now } => {
            if before.max_size != 0 && before.contains(asked) {
                model::lemma_with_entry(before, after, asked, before.entry(asked).taken(now));
            }
        },
        Operation::Put { sql: stored, statement, now } => {
            if before.accepts(statement) && before.has_room(stored) {
                laws::put_finds(before, stored, statement, now);
            }
            if sql != stored && before.contains(sql) && before.entry(sql).in_use {
                laws::in_use_stays(before, stored, statement, now, sql);
            }
        },
        Operation::ReturnStatement { sql: returned } => {
            if before.contains(returned) {
                model::lemma_with_entry(before, after, returned, before.entry(returned).returned());
            }
        },
        Operation::MarkCursorClosed { sql: marked } => {
            if before.contains(marked) && before.entry(marked).statement.cursor_id != 0 {
                model::lemma_with_entry(before, after, marked, before.entry(marked).cursor_closed());
            }
        },
        Operation::QueueCursorToClose { cursor_id: _ } => {
            assert(after.entries == before.entries);
            lemma_same_entries(before, after, sql);
        },
        Operation::ClearCursorsToClose => {
            lemma_same_entries(before, after, sql);
        },
        Operation::Clear => {},
    }
    if before.contains(sql) {
        assert(model::key_at(before.entries, before.index_of(sql), sql));
        assert(before.max_size != 0);
    }
}

/// Under a text the same is found in the same entries.
proof fn lemma_same_entries(a: StatementCacheView, b: StatementCacheView, sql: Seq<char>)
    requires
        a.unique_keys(),
        a.entries == b.entries,
    ensures
        a.contains(sql) == b.contains(sql),
        a.contains(sql) ==> a.index_of(sql) == b.index_of(sql) && a.entry(sql) == b.entry(sql),
{
    if a.contains(sql) {
        assert(model::key_at(b.entries, a.index_of(sql), sql));
        model::lemma_index_of(b, a.index_of(sql), sql);
    }
    if b.contains(sql) {
        assert(model::key_at(a.entries, b.index_of(sql), sql));
    }
}

/// A cached statement bears the time of the last operation that used it.
pub proof fn last_used_tells_the_last_use(
    max_size: usize,
    operations: Seq<Operation>,
    sql: Seq<char>,
)
    requires
        run(max_size, operations).contains(sql),
    ensures
        ({
            let at = last_use(max_size, operations, sql);
            &&& 0 <= at < operations.len()
            &&& uses(max_size, operations[at], sql)
            &&& run(max_size, operations).entry(sql).last_used == time(operations[at])
        }),
    decreases operations.len(),
{
    if operations.len() == 0 {
        let cache = run(max_size, operations);
        assert(model::key_at(cache.entries, cache.index_of(sql), sql));
    } else {
        let earlier = operations.drop_last();
        every_run_is_valid(max_size, earlier);
        lemma_step_entry(run(max_size, earlier), operations.last(), sql);
        if !uses(max_size, operations.last(), sql) {
            last_used_tells_the_last_use(max_size, earlier, sql);
        }
    }
}

/// The times of use tell the order of the last uses: of two cached statements, the one that
/// was used earlier in the run bears the earlier time.
pub proof fn times_tell_the_order_of_use(
    max_size: usize,
    operations: Seq<Operation>,
    first: Seq<char>,
    second: Seq<char>,
)
    requires
        clock_moves_on(max_size, operations),
        run(max_size, operations).contains(first),
        run(max_size, operations).contains(second),
    ensures
        last_use(max_size, operations, first) < last_use(max_size, operations, second) <==> run(
            max_size,
            operations,
        ).entry(first).last_used < run(max_size, operations).entry(second).last_used,
        last_use(max_size, operations, first) == last_use(max_size, operations, second) ==> first
            == second,
    decreases operations.len(),
{
    if operations.len() == 0 {
        let cache = run(max_size, operations);
        assert(model::key_at(cache.entries, cache.index_of(first), first));
    } else {
        let earlier = operations.drop_last();
        let before = run(max_size, earlier);
        let last = operations.last();
        every_run_is_valid(max_size, earlier);
        lemma_step_entry(before, last, first);
        lemma_step_entry(before, last, second);
        assert(operations.take(operations.len() - 1) == earlier);
        assert(clock_moves_on(max_size, earlier)) by {
            assert forall|k: int|
                0 <= k < earlier.len() && (earlier[k] is Get || earlier[k] is Put) implies run(
                max_size,
                #[trigger] earlier.take(k),
            ).latest < time(earlier[k]) by {
                assert(earlier.take(k) == operations.take(k));
            }
        }
        if !uses(max_size, last, first) {
            last_used_tells_the_last_use(max_size, earlier, first);
            assert(model::key_at(before.entries, before.index_of(first), first));
        }
        if !uses(max_size, last, second) {
            last_used_tells_the_last_use(max_size, earlier, second);
            assert(model::key_at(before.entries, before.index_of(second), second));
        }
        if !uses(max_size, last, first) && !uses(max_size, last, second) {
            times_tell_the_order_of_use(max_size, earlier, first, second);
        }
    }
}

/// Least recently used, told by the operations: the statement that a full cache drives out
/// is, of all that nobody uses, the one whose last use lies furthest back in the run.
pub proof fn least_recently_used_in_the_run_goes(
    max_size: usize,
    operations: Seq<Operation>,
    sql: Seq<char>,
    statement: StatementView,
    now: u128,
    other: Seq<char>,
)
    requires
        clock_moves_on(max_size, operations),
        run(max_size, operations).drives_out(sql, statement),
        run(max_size, operations).contains(other),
        !run(max_size, operations).entry(other).in_use,
        other != run(max_size, operations).lru_key(),
    ensures
        ({
            let cache = run(max_size, operations);
            &&& !cache.after_put(sql, statement, now).contains(cache.lru_key())
            &&& last_use(max_size, operations, cache.lru_key()) < last_use(
                max_size,
                operations,
                other,
            )
        }),
{
    let cache = run(max_size, operations);
    every_run_is_valid(max_size, operations);
    laws::least_recently_used_goes(cache, sql, statement, now);
    times_tell_the_order_of_use(max_size, operations, cache.lru_key(), other);
    times_tell_the_order_of_use(max_size, operations, other, cache.lru_key());
}

/// Least recently used, with the methods that read the clock: after every run of them, the
/// statement that a full cache drives out is, of all that nobody uses, the one whose last use
/// lies furthest back in the run. Nothing is asked of the machine's clock.
pub proof fn least_recently_used_goes_on_any_clock(
    max_size: usize,
    operations: Seq<Operation>,
    sql: Seq<char>,
    statement: StatementView,
    now: u128,
    other: Seq<char>,
)
    requires
        operations.len() + u64::MAX < u128::MAX,
        reads_the_clock(max_size, operations),
        run(max_size, operations).drives_out(sql, statement),
        run(max_size, operations).contains(other),
        !run(max_size, operations).entry(other).in_use,
        other != run(max_size, operations).lru_key(),
    ensures
        ({
            let cache = run(max_size, operations);
            &&& !cache.after_put(sql, statement, now).contains(cache.lru_key())
            &&& cache.after_put(sql, statement, now).contains(other)
            &&& last_use(max_size, operations, cache.lru_key()) < last_use(
                max_size,
                operations,
                other,
            )
        }),
{
    let cache = run(max_size, operations);
    uses_move_the_clock(max_size, operations);
    least_recently_used_in_the_run_goes(max_size, operations, sql, statement, now, other);
    every_run_is_valid(max_size, operations);
    laws::put_finds(cache, sql, statement, now);
}

/// A statement in use stays cached and in use through every run that does not end its use,
/// and `get` gives nothing for it.
pub proof fn in_use_through_a_run(
    cache: StatementCacheView,
    sql: Seq<char>,
    operations: Seq<Operation>,
)
    requires
        cache.valid(),
        cache.contains(sql),
        cache.entry(sql).in_use,
        forall|k: int| 0 <= k < operations.len() ==> !releases(#[trigger] operations[k], sql),
    ensures
        run_from(cache, operations).contains(sql),
        run_from(cache, operations).entry(sql).in_use,
        run_from(cache, operations).get_result(sql) is None,
    decreases operations.len(),
{
    if operations.len() > 0 {
        let earlier = operations.drop_last();
        assert forall|k: int| 0 <= k < earlier.len() implies !releases(
            #[trigger] earlier[k],
            sql,
        ) by {
            assert(earlier[k] == operations[k]);
        }
        in_use_through_a_run(cache, sql, earlier);
        run_keeps_valid(cache, earlier);
        lemma_step_entry(run_from(cache, earlier), operations.last(), sql);
    }
}

/// A statement that `get` handed out stays cached, and `get` gives nothing for it, through
/// every run that neither returns it, nor stores another in its place, nor clears the cache.
pub proof fn handed_out_through_a_run(
    cache: StatementCacheView,
    sql: Seq<char>,
    now: u128,
    operations: Seq<Operation>,
)
    requires
        cache.valid(),
        cache.get_result(sql) is Some,
        forall|k: int| 0 <= k < operations.len() ==> !releases(#[trigger] operations[k], sql),
    ensures
        run_from(cache.after_get(sql, now), operations).contains(sql),
        run_from(cache.after_get(sql, now), operations).get_result(sql) is None,
{
    let taken = cache.after_get(sql, now);
    laws::get_keeps_valid(cache, sql, now);
    model::lemma_with_entry(cache, taken, sql, cache.entry(sql).taken(now));
    assert(taken.contains(sql));
    in_use_through_a_run(taken, sql, operations);
}

/// Without a new `put` under its text, a statement without a cursor has none after any run.
proof fn lemma_no_cursor_through_a_run(
    cache: StatementCacheView,
    sql: Seq<char>,
    operations: Seq<Operation>,
)
    requires
        cache.valid(),
        cache.contains(sql) ==> cache.entry(sql).statement.cursor_id == 0,
        forall|k: int| 0 <= k < operations.len() ==> !stores(#[trigger] operations[k], sql),
    ensures
        run_from(cache, operations).contains(sql) ==> run_from(cache, operations).entry(
            sql,
        ).statement.cursor_id == 0,
    decreases operations.len(),
{
    if operations.len() > 0 {
        let earlier = operations.drop_last();
        assert forall|k: int| 0 <= k < earlier.len() implies !stores(
            #[trigger] earlier[k],
            sql,
        ) by {
            assert(earlier[k] == operations[k]);
        }
        lemma_no_cursor_through_a_run(cache, sql, earlier);
        run_keeps_valid(cache, earlier);
        lemma_step_entry(run_from(cache, earlier), operations.last(), sql);
    }
}

/// After `mark_cursor_closed`, through every run without a new `put` under that text, `get`
/// hands the statement out without a cursor if at all, and driving it out queues nothing.
pub proof fn marked_through_a_run(
    cache: StatementCacheView,
    sql: Seq<char>,
    operations: Seq<Operation>,
    other: Seq<char>,
    statement: StatementView,
    now: u128,
)
    requires
        cache.valid(),
        forall|k: int| 0 <= k < operations.len() ==> !stores(#[trigger] operations[k], sql),
    ensures
        ({
            let later = run_from(cache.after_mark_cursor_closed(sql), operations);
            &&& later.contains(sql) ==> later.entry(sql).statement.cursor_id == 0
            &&& later.get_result(sql) matches Some(got) ==> got.cursor_id == 0
            &&& later.drives_out(other, statement) && later.lru_key() == sql ==> later.after_put(
                other,
                statement,
                now,
            ).cursors_to_close == later.cursors_to_close
        }),
{
    let marked = cache.after_mark_cursor_closed(sql);
    laws::mark_cursor_closed_keeps_valid(cache, sql);
    if cache.contains(sql) {
        laws::marked_has_no_cursor(cache, sql);
    }
    lemma_no_cursor_through_a_run(marked, sql, operations);
    run_keeps_valid(marked, operations);
    let later = run_from(marked, operations);
    laws::driven_out_cursor_is_queued(later, other, statement, now);
    if later.drives_out(other, statement) {
        laws::least_recently_used_goes(later, other, statement, now);
    }
}

/// A cursor that the cache does not know stays unknown through every run that does not bring
/// it in.
pub proof fn unknown_cursor_through_a_run(
    cache: StatementCacheView,
    operations: Seq<Operation>,
    cursor_id: u16,
)
    requires
        cache.valid(),
        cursor_id != 0,
        !cache.knows_cursor(cursor_id),
        forall|k: int|
            0 <= k < operations.len() ==> !brings_cursor(#[trigger] operations[k], cursor_id),
    ensures
        !run_from(cache, operations).knows_cursor(cursor_id),
    decreases operations.len(),
{
    if operations.len() > 0 {
        let earlier = operations.drop_last();
        assert forall|k: int| 0 <= k < earlier.len() implies !brings_cursor(
            #[trigger] earlier[k],
            cursor_id,
        ) by {
            assert(earlier[k] == operations[k]);
        }
        unknown_cursor_through_a_run(cache, earlier, cursor_id);
        run_keeps_valid(cache, earlier);
        lemma_step_unknown_cursor(run_from(cache, earlier), operations.last(), cursor_id);
    }
}

/// One operation that does not bring a cursor in leaves it unknown.
proof fn lemma_step_unknown_cursor(
    before: StatementCacheView,
    operation: Operation,
    cursor_id: u16,
)
    requires
        before.valid(),
        cursor_id != 0,
        !before.knows_cursor(cursor_id),
        !brings_cursor(operation, cursor_id),
    ensures
        !step(before, operation).knows_cursor(cursor_id),
{
    let after = step(before, operation);
    step_keeps_valid(before, operation);
    assert forall|i: int| 0 <= i < after.entries.len() implies (#[trigger] after.entries[i]).1.statement.cursor_id
        != cursor_id by {
        let sql = after.entries[i].0;
        assert(model::key_at(after.entries, i, sql));
        model::lemma_index_of(after, i, sql);
        lemma_step_entry(before, operation, sql);
        if before.contains(sql) {
            assert(model::key_at(before.entries, before.index_of(sql), sql));
            assert(before.entries[before.index_of(sql)].1.statement.cursor_id != cursor_id);
        }
    }
    if let Operation::Put { sql, statement, now } = operation {
        laws::driven_out_cursor_is_queued(before, sql, statement, now);
        if before.drives_out(sql, statement) {
            laws::least_recently_used_goes(before, sql, statement, now);
            let key = before.lru_key();
            assert(model::key_at(before.entries, before.index_of(key), key));
            assert(before.entries[before.index_of(key)].1.statement.cursor_id != cursor_id);
        }
    }
    assert(!after.cursors_to_close.contains(cursor_id)) by {
        if after.cursors_to_close.contains(cursor_id) {
            let k = after.cursors_to_close.index_of(cursor_id);
            assert(after.cursors_to_close[k] == cursor_id);
            if k < before.cursors_to_close.len() {
                assert(before.cursors_to_close[k] == cursor_id);
            }
        }
    }
}

/// A cursor that one statement alone had is, once that statement is marked, neither handed
/// out nor queued through any run that does not bring it in anew.
pub proof fn marked_cursor_is_gone(
    cache: StatementCacheView,
    sql: Seq<char>,
    operations: Seq<Operation>,
    cursor_id: u16,
)
    requires
        cache.valid(),
        cursor_id != 0,
        cache.contains(sql),
        cache.entry(sql).statement.cursor_id == cursor_id,
        forall|other: Seq<char>|
            other != sql && #[trigger] cache.contains(other) ==> cache.entry(
                other,
            ).statement.cursor_id != cursor_id,
        !cache.cursors_to_close.contains(cursor_id),
        forall|k: int|
            0 <= k < operations.len() ==> !brings_cursor(#[trigger] operations[k], cursor_id),
    ensures
        !run_from(cache.after_mark_cursor_closed(sql), operations).knows_cursor(cursor_id),
{
    let marked = cache.after_mark_cursor_closed(sql);
    laws::mark_cursor_closed_keeps_valid(cache, sql);
    assert(model::key_at(cache.entries, cache.index_of(sql), sql));
    assert forall|i: int| 0 <= i < marked.entries.len() implies (#[trigger] marked.entries[i]).1.statement.cursor_id
        != cursor_id by {
        if i != cache.index_of(sql) {
            let other = cache.entries[i].0;
            assert(model::key_at(cache.entries, i, other));
            model::lemma_index_of(cache, i, other);
            assert(cache.contains(other));
        }
    }
    unknown_cursor_through_a_run(marked, operations, cursor_id);
}

/// The two caches show no difference: they hold the same statements in the same order, with
/// the same maximum and the same queue. The newest time that was noted may differ.
pub open spec fn agree(a: StatementCacheView, b: StatementCacheView) -> bool {
    &&& a.entries == b.entries
    &&& a.max_size == b.max_size
    &&& a.cursors_to_close == b.cursors_to_close
}

/// Caches that show no difference show none after the same operation.
proof fn lemma_step_agrees(a: StatementCacheView, b: StatementCacheView, operation: Operation)
    requires
        a.valid(),
        b.valid(),
        agree(a, b),
    ensures
        agree(step(a, operation), step(b, operation)),
{
    match operation {
        Operation::Get { sql, now: _ } => lemma_same_entries(a, b, sql),
        Operation::Put { sql, statement: _, now: _ } => {
            lemma_same_entries(a, b, sql);
            if a.has_idle() {
                model::lemma_lru_exists(a);
                assert(b.is_lru(a.lru())) by {
                    assert forall|j: int| #[trigger] b.idle_at(j) implies a.idle_at(j) by {}
                }
                model::lemma_lru_unique(b, a.lru());
            }
            if b.has_idle() {
                let i = choose|i: int| b.idle_at(i);
                assert(a.idle_at(i));
            }
        },
        Operation::ReturnStatement { sql } => lemma_same_entries(a, b, sql),
        Operation::MarkCursorClosed { sql } => lemma_same_entries(a, b, sql),
        Operation::QueueCursorToClose { cursor_id: _ } => {},
        Operation::ClearCursorsToClose => {},
        Operation::Clear => {},
    }
}

/// Caches that show no difference show none after the same run.
proof fn lemma_run_agrees(a: StatementCacheView, b: StatementCacheView, operations: Seq<Operation>)
    requires
        a.valid(),
        b.valid(),
        agree(a, b),
    ensures
        agree(run_from(a, operations), run_from(b, operations)),
    decreases operations.len(),
{
    if operations.len() > 0 {
        let earlier = operations.drop_last();
        lemma_run_agrees(a, b, earlier);
        run_keeps_valid(a, earlier);
        run_keeps_valid(b, earlier);
        lemma_step_agrees(run_from(a, earlier), run_from(b, earlier), operations.last());
    }
}

/// After `clear` a cache is as good as new: every run gives what the same run gives on a new
/// cache, and so does `get` after it.
pub proof fn cleared_is_as_good_as_new(
    cache: StatementCacheView,
    operations: Seq<Operation>,
    sql: Seq<char>,
)
    requires
        cache.valid(),
    ensures
        agree(run_from(cache.after_clear(), operations), run(cache.max_size, operations)),
        run_from(cache.after_clear(), operations).get_result(sql) == run(
            cache.max_size,
            operations,
        ).get_result(sql),
{
    let cleared = cache.after_clear();
    let fresh = StatementCacheView::empty(cache.max_size);
    lemma_run_agrees(cleared, fresh, operations);
    run_keeps_valid(cleared, operations);
    lemma_same_entries(run_from(cleared, operations), run_from(fresh, operations), sql);
}

} // verus!
