//! The cache as a mathematical value, and what each operation makes of it.
use crate::statement::StatementView;
use vstd::prelude::*;

verus! {

/// A cached statement as a value.
#[verifier::ext_equal]
pub struct CachedStatementView {
    /// The statement, with its cursor and metadata.
    pub statement: StatementView,
    /// Whether someone holds a copy of it now.
    pub in_use: bool,
    /// When it was last used, in nanoseconds on the cache's clock.
    pub last_used: u128,
}

impl CachedStatementView {
    /// A statement that comes into the cache at the time `now`.
    pub open spec fn fresh(statement: StatementView, now: u128) -> Self {
        CachedStatementView { statement, in_use: false, last_used: now }
    }

    /// The same entry, taken out for use at the time `now`.
    pub open spec fn taken(self, now: u128) -> Self {
        CachedStatementView { in_use: true, last_used: now, ..self }
    }

    /// The same entry, given back after use.
    pub open spec fn returned(self) -> Self {
        CachedStatementView { in_use: false, ..self }
    }

    /// The same entry without a cursor, and not executed.
    pub open spec fn cursor_closed(self) -> Self {
        CachedStatementView {
            statement: StatementView { cursor_id: 0, executed: false, ..self.statement },
            ..self
        }
    }
}

/// The time of a use that comes after the newest one, `latest`, when the clock has counted
/// `elapsed` nanoseconds: what it has counted, or the next nanosecond after `latest` where it
/// has not moved on. At the last tick of the clock time stands still.
pub open spec fn tick(latest: u128, elapsed: u128) -> u128 {
    if latest < elapsed {
        elapsed
    } else if latest < u128::MAX {
        (latest + 1) as u128
    } else {
        latest
    }
}

/// The later of two times.
pub open spec fn later(a: u128, b: u128) -> u128 {
    if a < b {
        b
    } else {
        a
    }
}

/// What a clock that counts up to `u64::MAX` nanoseconds, some five centuries, has counted
/// when `elapsed` have gone by.
pub open spec fn counted(elapsed: u128) -> u128 {
    if elapsed < u64::MAX {
        elapsed
    } else {
        u64::MAX as u128
    }
}

/// `now` can be the time of a use that comes after the newest one, `latest`: it lies after
/// `latest`, and no further on than the clock counts or, where `latest` lies there already,
/// than the next nanosecond.
pub open spec fn is_next_use(latest: u128, now: u128) -> bool {
    &&& latest < now || now == u128::MAX
    &&& now <= later(u64::MAX as u128, tick(latest, 0))
}

/// Room for `n` statements can be asked for. `IndexMap` refuses, with a panic, to reserve
/// more than `isize::MAX` bytes at once, and no entry takes more than 256.
pub open spec fn reservable(n: usize) -> bool {
    n * 256 <= isize::MAX
}

/// The entry at position `i` has the key `key`.
pub open spec fn key_at(entries: Seq<(Seq<char>, CachedStatementView)>, i: int, key: Seq<char>) -> bool {
    0 <= i < entries.len() && entries[i].0 == key
}

/// `entries` without the one at `i`, into whose place the last one moves.
pub open spec fn swap_removed(
    entries: Seq<(Seq<char>, CachedStatementView)>,
    i: int,
) -> Seq<(Seq<char>, CachedStatementView)> {
    entries.update(i, entries.last()).drop_last()
}

/// The cursors of the entries, in their order.
pub open spec fn cursor_ids(entries: Seq<(Seq<char>, CachedStatementView)>) -> Seq<u16> {
    entries.map_values(|entry: (Seq<char>, CachedStatementView)| entry.1.statement.cursor_id)
}

/// The cache as a value.
#[verifier::ext_equal]
pub struct StatementCacheView {
    /// The cached statements under their SQL texts, in the order of the map.
    pub entries: Seq<(Seq<char>, CachedStatementView)>,
    /// The maximum number of statements to cache. With 0 caching is off.
    pub max_size: usize,
    /// The server's cursors that nobody needs any more, in the order of their queueing.
    pub cursors_to_close: Seq<u16>,
    /// The newest time at which a statement was used.
    pub latest: u128,
}

impl StatementCacheView {
    /// A cache that holds nothing yet.
    pub open spec fn empty(max_size: usize) -> Self {
        StatementCacheView {
            entries: Seq::empty(),
            max_size,
            cursors_to_close: Seq::empty(),
            latest: 0,
        }
    }

    /// Whether a statement is cached under `sql`.
    pub open spec fn contains(self, sql: Seq<char>) -> bool {
        exists|i: int| key_at(self.entries, i, sql)
    }

    /// The position of the statement that is cached under `sql`.
    pub open spec fn index_of(self, sql: Seq<char>) -> int {
        choose|i: int| key_at(self.entries, i, sql)
    }

    /// The statement that is cached under `sql`.
    pub open spec fn entry(self, sql: Seq<char>) -> CachedStatementView {
        self.entries[self.index_of(sql)].1
    }

    /// The same cache with `entry` under `sql`, where there was another.
    pub open spec fn with_entry(self, sql: Seq<char>, entry: CachedStatementView) -> Self {
        StatementCacheView {
            entries: self.entries.update(self.index_of(sql), (sql, entry)),
            ..self
        }
    }

    /// No text is cached twice.
    pub open spec fn unique_keys(self) -> bool {
        forall|i: int, j: int|
            0 <= i < j < self.entries.len() ==> #[trigger] self.entries[i].0 != #[trigger] self.entries[j].0
    }

    /// What holds of every cache: one statement for each text, no more of them than the
    /// maximum, no data definition among them, none used after the newest use, and only real
    /// cursors in the queue.
    pub open spec fn valid(self) -> bool {
        &&& self.unique_keys()
        &&& self.entries.len() <= self.max_size
        &&& forall|i: int|
            0 <= i < self.entries.len() ==> !(#[trigger] self.entries[i]).1.statement.ddl
        &&& forall|i: int|
            0 <= i < self.entries.len() ==> (#[trigger] self.entries[i]).1.last_used <= self.latest
        &&& forall|i: int|
            0 <= i < self.cursors_to_close.len() ==> #[trigger] self.cursors_to_close[i] != 0
    }

    /// What `get` returns: the statement under `sql`, if it is there and nobody uses it.
    pub open spec fn get_result(self, sql: Seq<char>) -> Option<StatementView> {
        if self.max_size != 0 && self.contains(sql) && !self.entry(sql).in_use {
            Some(self.entry(sql).statement)
        } else {
            None
        }
    }

    /// The cache after `get` at the time `now`: a statement that is there is in use, and
    /// was used at `now`, whether or not it was handed out.
    pub open spec fn after_get(self, sql: Seq<char>, now: u128) -> Self {
        if self.max_size != 0 && self.contains(sql) {
            StatementCacheView {
                latest: later(self.latest, now),
                ..self.with_entry(sql, self.entry(sql).taken(now))
            }
        } else {
            self
        }
    }

    /// Whether `put` takes `statement`: caching is on, and the statement is no data
    /// definition and has a cursor.
    pub open spec fn accepts(self, statement: StatementView) -> bool {
        self.max_size != 0 && !statement.ddl && statement.cursor_id != 0
    }

    /// Nobody uses the statement at position `i`.
    pub open spec fn idle_at(self, i: int) -> bool {
        0 <= i < self.entries.len() && !self.entries[i].1.in_use
    }

    /// Whether the cache holds a statement that nobody uses.
    pub open spec fn has_idle(self) -> bool {
        exists|i: int| self.idle_at(i)
    }

    /// The statement at position `i` is the one that has to go: of those that nobody uses
    /// none was used before it. Of those that bear the same time, which only a caller that
    /// gives the times itself can bring about, it comes first.
    pub open spec fn is_lru(self, i: int) -> bool {
        &&& self.idle_at(i)
        &&& forall|j: int| #[trigger]
            self.idle_at(j) ==> {
                &&& self.entries[i].1.last_used <= self.entries[j].1.last_used
                &&& j < i ==> self.entries[i].1.last_used < self.entries[j].1.last_used
            }
    }

    /// The position of the statement that has to go.
    pub open spec fn lru(self) -> int {
        choose|i: int| self.is_lru(i)
    }

    /// The same cache with `cursor_id` queued for closing, unless it is 0, which is none.
    pub open spec fn queued(self, cursor_id: u16) -> Self {
        if cursor_id != 0 {
            StatementCacheView { cursors_to_close: self.cursors_to_close.push(cursor_id), ..self }
        } else {
            self
        }
    }

    /// The cache after one statement had to go, if there was one that nobody uses: the
    /// statement is out, and its cursor is queued for closing.
    pub open spec fn after_evict(self) -> Self {
        if self.has_idle() {
            StatementCacheView { entries: swap_removed(self.entries, self.lru()), ..self }.queued(
                self.entries[self.lru()].1.statement.cursor_id,
            )
        } else {
            self
        }
    }

    /// Whether there is room for a statement under `sql`: the text has its place already, or
    /// the cache is not full, or a statement that nobody uses can go.
    pub open spec fn has_room(self, sql: Seq<char>) -> bool {
        self.contains(sql) || self.entries.len() < self.max_size || self.has_idle()
    }

    /// The cache after room was made for one statement, as far as it could be.
    pub open spec fn after_make_room(self) -> Self {
        if self.entries.len() >= self.max_size {
            self.after_evict()
        } else {
            self
        }
    }

    /// Whether `put` drives a statement out: it takes the one at hand, which is new, the
    /// cache is full, and nobody uses some statement.
    pub open spec fn drives_out(self, sql: Seq<char>, statement: StatementView) -> bool {
        &&& self.accepts(statement)
        &&& !self.contains(sql)
        &&& self.entries.len() >= self.max_size
        &&& self.has_idle()
    }

    /// The text of the statement that has to go.
    pub open spec fn lru_key(self) -> Seq<char> {
        self.entries[self.lru()].0
    }

    /// Whether the server's cursor `cursor_id` is known here: a cached statement has it, or
    /// it waits for closing.
    pub open spec fn knows_cursor(self, cursor_id: u16) -> bool {
        ||| exists|i: int|
            0 <= i < self.entries.len() && (#[trigger] self.entries[i]).1.statement.cursor_id == cursor_id
        ||| self.cursors_to_close.contains(cursor_id)
    }

    /// How many cached statements have the server's cursor `cursor_id`, and how many times it
    /// waits for closing, taken together.
    pub open spec fn cursor_count(self, cursor_id: u16) -> nat {
        cursor_ids(self.entries).to_multiset().count(cursor_id)
            + self.cursors_to_close.to_multiset().count(cursor_id)
    }

    /// The cache after `put` at the time `now`. A statement that is taken replaces the one
    /// under the same text, or comes in last, after room was made for it. Where there is no
    /// room, as all statements are in use, nothing changes.
    pub open spec fn after_put(self, sql: Seq<char>, statement: StatementView, now: u128) -> Self {
        let fresh = CachedStatementView::fresh(statement, now);
        if !self.accepts(statement) || !self.has_room(sql) {
            self
        } else if self.contains(sql) {
            StatementCacheView {
                latest: later(self.latest, now),
                ..self.with_entry(sql, fresh)
            }
        } else {
            StatementCacheView {
                entries: self.after_make_room().entries.push((sql, fresh)),
                latest: later(self.latest, now),
                ..self.after_make_room()
            }
        }
    }

    /// The cache after `return_statement`: nobody uses the statement under `sql`.
    pub open spec fn after_return(self, sql: Seq<char>) -> Self {
        if self.contains(sql) {
            self.with_entry(sql, self.entry(sql).returned())
        } else {
            self
        }
    }

    /// The cache after `mark_cursor_closed`: the statement under `sql`, if it has a cursor,
    /// has none and counts as not executed.
    pub open spec fn after_mark_cursor_closed(self, sql: Seq<char>) -> Self {
        if self.contains(sql) && self.entry(sql).statement.cursor_id != 0 {
            self.with_entry(sql, self.entry(sql).cursor_closed())
        } else {
            self
        }
    }

    /// The cache after `clear`: nothing is cached and nothing is queued.
    pub open spec fn after_clear(self) -> Self {
        StatementCacheView { entries: Seq::empty(), cursors_to_close: Seq::empty(), ..self }
    }
}

/// A text that is cached is cached in one place.
pub proof fn lemma_index_of(cache: StatementCacheView, i: int, sql: Seq<char>)
    requires
        cache.unique_keys(),
        key_at(cache.entries, i, sql),
    ensures
        cache.contains(sql),
        cache.index_of(sql) == i,
        cache.entry(sql) == cache.entries[i].1,
{
    let k = cache.index_of(sql);
    assert(key_at(cache.entries, k, sql));
    if k < i {
        assert(cache.entries[k].0 != cache.entries[i].0);
    } else if i < k {
        assert(cache.entries[i].0 != cache.entries[k].0);
    }
}

/// Where nobody uses some statement, one has to go.
pub proof fn lemma_lru_exists(cache: StatementCacheView)
    requires
        cache.has_idle(),
    ensures
        cache.is_lru(cache.lru()),
{
    let best = lemma_lru_up_to(cache, cache.entries.len() as int);
    assert(cache.is_lru(best));
}

/// Where nobody uses some statement among the first `n`, one of them has to go first.
proof fn lemma_lru_up_to(cache: StatementCacheView, n: int) -> (best: int)
    requires
        0 <= n <= cache.entries.len(),
        exists|j: int| #[trigger] cache.idle_at(j) && j < n,
    ensures
        cache.idle_at(best),
        best < n,
        forall|j: int| #[trigger]
            cache.idle_at(j) && j < n ==> {
                &&& cache.entries[best].1.last_used <= cache.entries[j].1.last_used
                &&& j < best ==> cache.entries[best].1.last_used < cache.entries[j].1.last_used
            },
    decreases n,
{
    if exists|j: int| #[trigger] cache.idle_at(j) && j < n - 1 {
        let best = lemma_lru_up_to(cache, n - 1);
        if cache.idle_at(n - 1) && cache.entries[n - 1].1.last_used < cache.entries[best].1.last_used {
            n - 1
        } else {
            best
        }
    } else {
        n - 1
    }
}

/// One statement alone has to go.
pub proof fn lemma_lru_unique(cache: StatementCacheView, i: int)
    requires
        cache.is_lru(i),
    ensures
        cache.has_idle(),
        cache.lru() == i,
{
    let k = cache.lru();
    assert(cache.is_lru(k));
    assert(cache.idle_at(i) && cache.idle_at(k));
}

/// Where an entry is exchanged for another, what is found under each text follows.
pub proof fn lemma_with_entry(
    before: StatementCacheView,
    after: StatementCacheView,
    sql: Seq<char>,
    entry: CachedStatementView,
)
    requires
        before.unique_keys(),
        before.contains(sql),
        after.entries == before.with_entry(sql, entry).entries,
    ensures
        after.unique_keys(),
        forall|other: Seq<char>| #[trigger] after.contains(other) == before.contains(other),
        after.entry(sql) == entry,
        forall|other: Seq<char>|
            other != sql && before.contains(other) ==> #[trigger] after.entry(other) == before.entry(
                other,
            ),
{
    let at = before.index_of(sql);
    assert(key_at(before.entries, at, sql));
    assert(after.unique_keys()) by {
        assert forall|i: int, j: int| 0 <= i < j < after.entries.len() implies #[trigger] after.entries[i].0
            != #[trigger] after.entries[j].0 by {
            assert(before.entries[i].0 != before.entries[j].0);
        }
    }
    assert(key_at(after.entries, at, sql));
    lemma_index_of(after, at, sql);
    assert forall|other: Seq<char>| #[trigger] after.contains(other) == before.contains(other) by {
        if before.contains(other) {
            assert(key_at(after.entries, before.index_of(other), other));
        }
        if after.contains(other) {
            assert(key_at(before.entries, after.index_of(other), other));
        }
    }
    assert forall|other: Seq<char>| other != sql && before.contains(other) implies #[trigger] after.entry(
        other,
    ) == before.entry(other) by {
        let i = before.index_of(other);
        assert(key_at(before.entries, i, other));
        assert(key_at(after.entries, i, other));
        lemma_index_of(after, i, other);
    }
}

/// Where one entry is taken out, what is found under each text follows.
pub proof fn lemma_swap_removed(before: StatementCacheView, after: StatementCacheView, i: int)
    requires
        before.unique_keys(),
        0 <= i < before.entries.len(),
        after.entries == swap_removed(before.entries, i),
    ensures
        after.unique_keys(),
        forall|other: Seq<char>|
            #![trigger after.contains(other)]
            #![trigger before.contains(other)]
            after.contains(other) == (before.contains(other) && other != before.entries[i].0),
        forall|other: Seq<char>|
            before.contains(other) && other != before.entries[i].0 ==> #[trigger] after.entry(other)
                == before.entry(other),
{
    let gone = before.entries[i].0;
    let n = before.entries.len() - 1;
    assert(after.unique_keys()) by {
        assert forall|k: int, j: int| 0 <= k < j < after.entries.len() implies #[trigger] after.entries[k].0
            != #[trigger] after.entries[j].0 by {
            assert(before.entries[k].0 != before.entries[j].0);
            assert(before.entries[k].0 != before.entries[n].0);
            assert(before.entries[j].0 != before.entries[n].0);
        }
    }
    assert forall|other: Seq<char>| #[trigger]
        before.contains(other) && other != gone implies after.contains(other) && after.entry(other)
        == before.entry(other) by {
        let k = before.index_of(other);
        assert(key_at(before.entries, k, other));
        let moved = if k == n {
            i
        } else {
            k
        };
        assert(key_at(after.entries, moved, other));
        lemma_index_of(after, moved, other);
    }
    assert forall|other: Seq<char>| after.contains(other) implies before.contains(other) && other
        != gone by {
        let k = after.index_of(other);
        assert(key_at(after.entries, k, other));
        let came = if k == i {
            n
        } else {
            k
        };
        assert(key_at(before.entries, came, other));
        if other == gone {
            lemma_index_of(before, came, other);
            lemma_index_of(before, i, other);
        }
    }
}

/// Where an entry comes in last under a new text, what is found under each text follows.
pub proof fn lemma_pushed(
    before: StatementCacheView,
    after: StatementCacheView,
    sql: Seq<char>,
    entry: CachedStatementView,
)
    requires
        before.unique_keys(),
        !before.contains(sql),
        after.entries == before.entries.push((sql, entry)),
    ensures
        after.unique_keys(),
        forall|other: Seq<char>|
            #![trigger after.contains(other)]
            #![trigger before.contains(other)]
            after.contains(other) == (before.contains(other) || other == sql),
        after.entry(sql) == entry,
        forall|other: Seq<char>|
            before.contains(other) ==> #[trigger] after.entry(other) == before.entry(other),
{
    let n = before.entries.len() as int;
    assert(after.unique_keys()) by {
        assert forall|k: int, j: int| 0 <= k < j < after.entries.len() implies #[trigger] after.entries[k].0
            != #[trigger] after.entries[j].0 by {
            assert(!key_at(before.entries, k, sql));
            if j < n {
                assert(before.entries[k].0 != before.entries[j].0);
            }
        }
    }
    assert(key_at(after.entries, n, sql));
    lemma_index_of(after, n, sql);
    assert forall|other: Seq<char>| #[trigger] before.contains(other) implies after.contains(other)
        && after.entry(other) == before.entry(other) by {
        let k = before.index_of(other);
        assert(key_at(before.entries, k, other));
        assert(key_at(after.entries, k, other));
        lemma_index_of(after, k, other);
    }
    assert forall|other: Seq<char>| after.contains(other) && other != sql implies before.contains(
        other,
    ) by {
        let k = after.index_of(other);
        assert(key_at(after.entries, k, other));
        assert(key_at(before.entries, k, other));
    }
}

/// Making room takes out one statement at most.
pub proof fn lemma_make_room(cache: StatementCacheView)
    requires
        cache.unique_keys(),
    ensures
        ({
            let roomy = cache.after_make_room();
            &&& roomy.unique_keys()
            &&& forall|other: Seq<char>| #[trigger]
                roomy.contains(other) ==> cache.contains(other) && roomy.entry(other) == cache.entry(
                    other,
                )
        }),
{
    if cache.entries.len() >= cache.max_size && cache.has_idle() {
        lemma_lru_exists(cache);
        lemma_swap_removed(cache, cache.after_make_room(), cache.lru());
    }
}

} // verus!
