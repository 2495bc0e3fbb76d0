use statement_cache::{Statement, StatementCache};

fn make_test_statement(sql: &str, cursor_id: u16) -> Statement {
    let mut stmt = Statement::new(sql);
    stmt.set_cursor_id(cursor_id);
    stmt.set_executed(true);
    stmt
}

#[test]
fn test_cache_basic() {
    let mut cache = StatementCache::new(5);

    // Add a statement
    let stmt = make_test_statement("SELECT 1 FROM DUAL", 100);
    cache.put("SELECT 1 FROM DUAL".to_string(), stmt);

    assert_eq!(cache.len(), 1);

    // Retrieve it
    let cached = cache.get("SELECT 1 FROM DUAL").expect("Should be cached");
    assert_eq!(cached.cursor_id(), 100);

    // Return it
    cache.return_statement("SELECT 1 FROM DUAL");
}

#[test]
fn test_cache_miss() {
    let mut cache = StatementCache::new(5);
    assert!(cache.get("SELECT 1 FROM DUAL").is_none());
}

#[test]
fn test_cache_disabled() {
    let mut cache = StatementCache::new(0);

    let stmt = make_test_statement("SELECT 1 FROM DUAL", 100);
    cache.put("SELECT 1 FROM DUAL".to_string(), stmt);

    assert_eq!(cache.len(), 0);
    assert!(cache.get("SELECT 1 FROM DUAL").is_none());
}

#[test]
fn test_ddl_not_cached() {
    let mut cache = StatementCache::new(5);

    let mut stmt = Statement::new("CREATE TABLE test (id NUMBER)");
    stmt.set_cursor_id(100);
    cache.put("CREATE TABLE test (id NUMBER)".to_string(), stmt);

    assert_eq!(cache.len(), 0);
}

#[test]
fn test_no_cursor_not_cached() {
    let mut cache = StatementCache::new(5);

    // Statement without cursor_id should not be cached
    let stmt = Statement::new("SELECT 1 FROM DUAL");
    cache.put("SELECT 1 FROM DUAL".to_string(), stmt);

    assert_eq!(cache.len(), 0);
}

#[test]
fn test_lru_eviction() {
    let mut cache = StatementCache::new(3);

    // Add 3 statements
    cache.put(
        "SELECT 1 FROM DUAL".to_string(),
        make_test_statement("SELECT 1 FROM DUAL", 1),
    );
    cache.put(
        "SELECT 2 FROM DUAL".to_string(),
        make_test_statement("SELECT 2 FROM DUAL", 2),
    );
    cache.put(
        "SELECT 3 FROM DUAL".to_string(),
        make_test_statement("SELECT 3 FROM DUAL", 3),
    );

    assert_eq!(cache.len(), 3);

    // Access the first one to make it recently used
    cache.get("SELECT 1 FROM DUAL");
    cache.return_statement("SELECT 1 FROM DUAL");

    // Add a 4th - should evict "SELECT 2" (LRU)
    cache.put(
        "SELECT 4 FROM DUAL".to_string(),
        make_test_statement("SELECT 4 FROM DUAL", 4),
    );

    assert_eq!(cache.len(), 3);
    assert!(cache.get("SELECT 2 FROM DUAL").is_none()); // Evicted
    assert!(cache.get("SELECT 1 FROM DUAL").is_some()); // Still there
}

#[test]
fn test_in_use_not_returned() {
    let mut cache = StatementCache::new(5);

    cache.put(
        "SELECT 1 FROM DUAL".to_string(),
        make_test_statement("SELECT 1 FROM DUAL", 100),
    );

    // Get the statement (marks it in use)
    let _ = cache.get("SELECT 1 FROM DUAL");

    // Try to get it again - should return None because it's in use
    assert!(cache.get("SELECT 1 FROM DUAL").is_none());

    // Return it
    cache.return_statement("SELECT 1 FROM DUAL");

    // Now we can get it again
    assert!(cache.get("SELECT 1 FROM DUAL").is_some());
}

#[test]
fn test_clear() {
    let mut cache = StatementCache::new(5);

    cache.put(
        "SELECT 1 FROM DUAL".to_string(),
        make_test_statement("SELECT 1 FROM DUAL", 1),
    );
    cache.put(
        "SELECT 2 FROM DUAL".to_string(),
        make_test_statement("SELECT 2 FROM DUAL", 2),
    );

    assert_eq!(cache.len(), 2);

    cache.clear();

    assert_eq!(cache.len(), 0);
}

#[test]
fn test_update_existing() {
    let mut cache = StatementCache::new(5);

    cache.put(
        "SELECT 1 FROM DUAL".to_string(),
        make_test_statement("SELECT 1 FROM DUAL", 100),
    );

    // Update with new cursor_id
    cache.put(
        "SELECT 1 FROM DUAL".to_string(),
        make_test_statement("SELECT 1 FROM DUAL", 200),
    );

    assert_eq!(cache.len(), 1);

    let cached = cache.get("SELECT 1 FROM DUAL").unwrap();
    assert_eq!(cached.cursor_id(), 200);
}

#[test]
fn test_mark_cursor_closed_resets_without_queuing() {
    let mut cache = StatementCache::new(5);
    cache.put(
        "SELECT 1 FROM DUAL".to_string(),
        make_test_statement("SELECT 1 FROM DUAL", 42),
    );

    // mark_cursor_closed only resets the cached cursor locally; queuing the
    // server close is the connection's job (it knows the real cursor used).
    cache.mark_cursor_closed("SELECT 1 FROM DUAL");
    assert_eq!(cache.get("SELECT 1 FROM DUAL").unwrap().cursor_id(), 0);
    assert!(cache.cursors_to_close().is_empty());
}

#[test]
fn test_queue_and_drain_cursors_to_close() {
    let mut cache = StatementCache::new(5);
    assert!(cache.cursors_to_close().is_empty());

    cache.queue_cursor_to_close(42);
    cache.queue_cursor_to_close(0); // 0 = no cursor, ignored
    cache.queue_cursor_to_close(100);
    assert_eq!(cache.cursors_to_close(), &[42, 100]);

    // Draining clears the queue (called once the close is on the wire).
    cache.clear_cursors_to_close();
    assert!(cache.cursors_to_close().is_empty());
}

#[test]
fn test_lru_eviction_queues_evicted_cursor() {
    let mut cache = StatementCache::new(1);
    cache.put(
        "SELECT 1 FROM DUAL".to_string(),
        make_test_statement("SELECT 1 FROM DUAL", 7),
    );
    // Inserting a second statement evicts the first; its server cursor
    // (id 7) is still open and must be queued for closing.
    cache.put(
        "SELECT 2 FROM DUAL".to_string(),
        make_test_statement("SELECT 2 FROM DUAL", 8),
    );

    assert_eq!(cache.len(), 1);
    assert_eq!(cache.cursors_to_close(), &[7]);
}

#[test]
fn test_clear_drops_pending_closes() {
    let mut cache = StatementCache::new(5);
    cache.queue_cursor_to_close(5);
    assert_eq!(cache.cursors_to_close(), &[5]);

    // A session change abandons the old cursors; queued ids must be dropped
    // so we never close a cursor id belonging to a different session.
    cache.clear();
    assert!(cache.cursors_to_close().is_empty());
}
