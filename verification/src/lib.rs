//! Client-side cache of prepared SQL statements.
//!
//! A statement that was executed once has a cursor on the server. The cache keeps it
//! under its SQL text, so that executing the same text again can reuse the cursor and skip
//! the parsing. The cache holds a limited number of statements and drives out the least
//! recently used one; the cursors that are given up on the way wait in a queue until the
//! connection has told the server to close them.
//!
//! [`StatementCache`] is the cache, [`model`] says what each of its operations does, [`effects`]
//! tells it field by field, and [`laws`] and [`history`] say what follows for one operation and
//! for a whole run of them.

mod clock;
pub mod effects;
pub mod history;
mod index;
pub mod laws;
pub mod model;
pub mod statement;
pub mod statement_cache;

pub use model::{CachedStatementView, StatementCacheView};
pub use statement::{Statement, StatementView};
pub use statement_cache::{CachedStatement, StatementCache};
