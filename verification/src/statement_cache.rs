//! The cache itself.
use crate::clock::Clock;
use crate::index;
use crate::laws;
use crate::model;
use crate::model::{CachedStatementView, StatementCacheView};
use crate::statement::{Statement, StatementView};
use indexmap::IndexMap;
use vstd::prelude::*;

verus! {

/// A cached statement with usage tracking.
#[derive(Debug)]
pub struct CachedStatement {
    /// The statement, with its cursor and metadata.
    statement: Statement,
    /// Whether the statement is in use now.
    in_use: bool,
    /// When the statement was last used, in nanoseconds on the cache's clock.
    last_used: u128,
}

impl View for CachedStatement {
    type V = CachedStatementView;

    closed spec fn view(&self) -> CachedStatementView {
        CachedStatementView {
            statement: self.statement@,
            in_use: self.in_use,
            last_used: self.last_used,
        }
    }
}

impl CachedStatement {
    /// Wraps a statement that nobody uses and that was last used at `now`.
    pub fn new(statement: Statement, now: u128) -> (r: Self)
        ensures
            r@ == (CachedStatementView { statement: statement@, in_use: false, last_used: now }),
    {
        CachedStatement { statement, in_use: false, last_used: now }
    }

    /// Notes that the statement was used at `now`.
    pub fn touch(&mut self, now: u128)
        ensures
            final(self)@ == (CachedStatementView { last_used: now, ..old(self)@ }),
    {
        self.last_used = now;
    }
}

/// Client-side statement cache with least-recently-used eviction.
///
/// The cache stores prepared statements under their SQL text. A statement that comes
/// out of the cache keeps its cursor, so that the server can skip parsing it.
#[derive(Debug)]
pub struct StatementCache {
    /// The cached statements under their SQL texts.
    cache: IndexMap<String, CachedStatement>,
    /// The maximum number of statements to cache.
    max_size: usize,
    /// The server's cursors that were given up here and still have to be closed there.
    cursors_to_close: Vec<u16>,
    /// The clock on which uses are noted.
    clock: Clock,
}

impl View for StatementCache {
    type V = StatementCacheView;

    closed spec fn view(&self) -> StatementCacheView {
        StatementCacheView {
            entries: index::entries(self.cache),
            max_size: self.max_size,
            cursors_to_close: self.cursors_to_close@,
            latest: self.clock@,
        }
    }
}

/// What an optional statement is as a value.
pub open spec fn optional_view(statement: Option<Statement>) -> Option<StatementView> {
    match statement {
        Some(s) => Some(s@),
        None => None,
    }
}

impl StatementCache {
    /// Makes a cache that holds `max_size` statements at most. With 0 caching is off.
    pub fn new(max_size: usize) -> (r: Self)
        requires
            model::reservable(max_size),
        ensures
            r@ == StatementCacheView::empty(max_size),
            r@.valid(),
    {
        StatementCache {
            cache: index::with_capacity(max_size),
            max_size,
            cursors_to_close: Vec::new(),
            clock: Clock::start(),
        }
    }

    /// The server's cursors that wait for a close-cursors message.
    pub fn cursors_to_close(&self) -> (r: &[u16])
        ensures
            r@ == self@.cursors_to_close,
    {
        self.cursors_to_close.as_slice()
    }

    /// Empties the queue of cursors to close, once the close has been sent.
    pub fn clear_cursors_to_close(&mut self)
        requires
            old(self)@.valid(),
        ensures
            final(self)@.valid(),
            final(self)@ == (StatementCacheView { cursors_to_close: Seq::empty(), ..old(self)@ }),
    {
        self.cursors_to_close.clear();
    }

    /// Queues a server's cursor for a close-cursors message. 0 is no cursor and is ignored.
    pub fn queue_cursor_to_close(&mut self, cursor_id: u16)
        requires
            old(self)@.valid(),
        ensures
            final(self)@.valid(),
            final(self)@ == old(self)@.queued(cursor_id),
    {
        proof {
            laws::queue_keeps_valid(self@, cursor_id);
        }
        if cursor_id != 0 {
            self.cursors_to_close.push(cursor_id);
        }
    }

    /// Takes a statement out for use: a copy of the one under `sql`, if it is cached and
    /// not in use. A statement that is in use is not handed out again; it counts as used
    /// all the same. The time of the use lies after that of every use before.
    pub fn get(&mut self, sql: &str) -> (r: Option<Statement>)
        requires
            old(self)@.valid(),
        ensures
            final(self)@.valid(),
            optional_view(r) == old(self)@.get_result(sql@),
            final(self)@.get_result(sql@) is None,
            exists|now: u128|
                model::is_next_use(old(self)@.latest, now) && final(self)@ == #[trigger] old(
                    self,
                )@.after_get(sql@, now),
    {
        let now: u128 = self.clock.read();
        self.get_at(sql, now)
    }

    /// Does what `get` does, with the use at the time `now`.
    pub fn get_at(&mut self, sql: &str, now: u128) -> (r: Option<Statement>)
        requires
            old(self)@.valid(),
        ensures
            final(self)@.valid(),
            optional_view(r) == old(self)@.get_result(sql@),
            final(self)@.get_result(sql@) is None,
            final(self)@ == old(self)@.after_get(sql@, now),
    {
        proof {
            laws::get_keeps_valid(self@, sql@, now);
            laws::in_use_is_not_handed_out(self@, sql@, now);
        }
        if self.max_size == 0 {
            return None;
        }
        match index::get_mut(&mut self.cache, sql) {
            Some(cached) => {
                cached.touch(now);
                let r = if cached.in_use {
                    None
                } else {
                    cached.in_use = true;
                    Some(cached.statement.clone_for_reuse())
                };
                self.clock.note(now);
                r
            },
            None => None,
        }
    }

    /// Stores a statement under `sql`, ready for use. A data definition statement is never
    /// stored, nor one without a cursor. One that comes in where the cache is full drives
    /// out the least recently used of those that are not in use, whose cursor is queued for
    /// closing; where all are in use the new one is turned away. The time of the use lies
    /// after that of every use before.
    ///
    /// The cursor of a statement that is turned away is neither kept nor queued here. It stays
    /// open on the server until its owner queues it with
    /// [`queue_cursor_to_close`](Self::queue_cursor_to_close).
    pub fn put(&mut self, sql: String, statement: Statement)
        requires
            old(self)@.valid(),
        ensures
            final(self)@.valid(),
            old(self)@.accepts(statement@) && old(self)@.has_room(sql@) ==> final(self)@.get_result(
                sql@,
            ) == Some(statement@),
            exists|now: u128|
                model::is_next_use(old(self)@.latest, now) && final(self)@ == #[trigger] old(
                    self,
                )@.after_put(sql@, statement@, now),
    {
        let now: u128 = self.clock.read();
        self.put_at(sql, statement, now);
    }

    /// Does what `put` does, with the use at the time `now`.
    pub fn put_at(&mut self, sql: String, statement: Statement, now: u128)
        requires
            old(self)@.valid(),
        ensures
            final(self)@.valid(),
            old(self)@.accepts(statement@) && old(self)@.has_room(sql@) ==> final(self)@.get_result(
                sql@,
            ) == Some(statement@),
            final(self)@ == old(self)@.after_put(sql@, statement@, now),
    {
        proof {
            laws::put_keeps_valid(self@, sql@, statement@, now);
            if self@.accepts(statement@) && self@.has_room(sql@) {
                laws::put_then_get(self@, sql@, statement@, now);
            }
        }
        if self.max_size == 0 {
            return;
        }
        if statement.is_ddl() {
            return;
        }
        if statement.cursor_id() == 0 {
            return;
        }
        match index::get_mut(&mut self.cache, sql.as_str()) {
            Some(cached) => {
                cached.statement = statement;
                cached.in_use = false;
                cached.touch(now);
                self.clock.note(now);
                return;
            },
            None => {},
        }
        proof {
            assert(!self@.contains(sql@));
            model::lemma_make_room(self@);
            assert(!self@.after_make_room().contains(sql@));
        }
        if index::len(&self.cache) >= self.max_size {
            self.evict_lru();
            if index::len(&self.cache) >= self.max_size {
                return;
            }
        }
        let _ = index::insert(&mut self.cache, sql, CachedStatement::new(statement, now));
        self.clock.note(now);
    }

    /// Gives a statement back after use, so that it can be handed out again.
    pub fn return_statement(&mut self, sql: &str)
        requires
            old(self)@.valid(),
        ensures
            final(self)@.valid(),
            final(self)@ == old(self)@.after_return(sql@),
    {
        proof {
            laws::return_keeps_valid(self@, sql@);
        }
        if let Some(cached) = index::get_mut(&mut self.cache, sql) {
            cached.in_use = false;
        }
    }

    /// Resets the cursor of the statement under `sql`, so that its next execution gets a
    /// fresh one from the server. The old cursor is not queued for closing: whoever used it
    /// knows which it was and queues it.
    pub fn mark_cursor_closed(&mut self, sql: &str)
        requires
            old(self)@.valid(),
        ensures
            final(self)@.valid(),
            final(self)@ == old(self)@.after_mark_cursor_closed(sql@),
    {
        proof {
            laws::mark_cursor_closed_keeps_valid(self@, sql@);
        }
        if let Some(cached) = index::get_mut(&mut self.cache, sql) {
            if cached.statement.cursor_id() != 0 {
                cached.statement.set_cursor_id(0);
                cached.statement.set_executed(false);
            }
        }
    }

    /// Forgets all statements and all cursors that wait for closing. This is for a change
    /// of session: the cursors belong to the old one, and in the new one their numbers
    /// could stand for others.
    pub fn clear(&mut self)
        requires
            old(self)@.valid(),
        ensures
            final(self)@.valid(),
            final(self)@ == old(self)@.after_clear(),
    {
        index::clear(&mut self.cache);
        self.cursors_to_close.clear();
    }

    /// The number of cached statements.
    pub fn len(&self) -> (r: usize)
        ensures
            r == self@.entries.len(),
    {
        index::len(&self.cache)
    }

    /// Whether no statement is cached.
    pub fn is_empty(&self) -> (r: bool)
        ensures
            r == (self@.entries.len() == 0),
    {
        index::is_empty(&self.cache)
    }

    /// The maximum number of statements to cache.
    pub fn max_size(&self) -> (r: usize)
        ensures
            r == self@.max_size,
    {
        self.max_size
    }

    /// Drives out the least recently used statement of those that are not in use, if there
    /// is one, and queues its cursor for closing.
    fn evict_lru(&mut self)
        requires
            old(self)@.valid(),
        ensures
            final(self)@.valid(),
            final(self)@ == old(self)@.after_evict(),
    {
        proof {
            laws::evict_keeps_valid(self@);
        }
        let n: usize = index::len(&self.cache);
        let mut lru: Option<(usize, u128)> = None;
        let mut i: usize = 0;
        while i < n
            invariant
                i <= n,
                n == self@.entries.len(),
                self@.entries == index::entries(self.cache),
                match lru {
                    Some((best, last_used)) => {
                        &&& self@.idle_at(best as int)
                        &&& best < i
                        &&& last_used == self@.entries[best as int].1.last_used
                        &&& forall|j: int| #[trigger]
                            self@.idle_at(j) && j < i ==> {
                                &&& last_used <= self@.entries[j].1.last_used
                                &&& j < best ==> last_used < self@.entries[j].1.last_used
                            }
                    },
                    None => forall|j: int| #[trigger] self@.idle_at(j) ==> j >= i,
                },
            decreases n - i,
        {
            if let Some((_, cached)) = index::get_index(&self.cache, i) {
                let older = match lru {
                    Some((_, last_used)) => cached.last_used < last_used,
                    None => true,
                };
                if !cached.in_use && older {
                    lru = Some((i, cached.last_used));
                }
            }
            i = i + 1;
        }
        let lru_key: Option<String> = match lru {
            Some((best, _)) => match index::get_index(&self.cache, best) {
                Some((key, _)) => Some(key.clone()),
                None => None,
            },
            None => None,
        };
        if let Some(key) = lru_key {
            proof {
                let (at, _) = lru.unwrap();
                let best = at as int;
                assert(self@.is_lru(best));
                model::lemma_lru_unique(self@, best);
                assert(model::key_at(self@.entries, best, key@));
                assert forall|k: int| model::key_at(self@.entries, k, key@) implies k == best by {
                    model::lemma_index_of(self@, k, key@);
                    model::lemma_index_of(self@, best, key@);
                }
            }
            if let Some(cached) = index::swap_remove(&mut self.cache, key.as_str()) {
                let cursor_id: u16 = cached.statement.cursor_id();
                if cursor_id != 0 {
                    self.cursors_to_close.push(cursor_id);
                }
            }
        }
    }
}

} // verus!
