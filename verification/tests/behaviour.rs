use statement_cache::{CachedStatement, Statement, StatementCache};

fn statement(sql: &str, cursor_id: u16) -> Statement {
    let mut stmt = Statement::new(sql);
    stmt.set_cursor_id(cursor_id);
    stmt.set_executed(true);
    stmt
}

fn put(cache: &mut StatementCache, sql: &str, cursor_id: u16, now: u128) {
    cache.put_at(sql.to_string(), statement(sql, cursor_id), now);
}

fn is_cached(cache: &mut StatementCache, sql: &str) -> bool {
    let hit = cache.get(sql).is_some();
    cache.return_statement(sql);
    hit
}

#[test]
fn a_new_statement_has_no_cursor() {
    let stmt = Statement::new("SELECT 1 FROM DUAL");
    assert_eq!(stmt.sql(), "SELECT 1 FROM DUAL");
    assert_eq!(stmt.cursor_id(), 0);
    assert!(!stmt.executed());
    assert!(!stmt.is_ddl());
    assert!(stmt.metadata().is_empty());
}

#[test]
fn ddl_is_told_by_the_first_word() {
    for sql in [
        "CREATE TABLE t (id NUMBER)",
        "alter table t add (x NUMBER)",
        "  \t\r\nDrop Table t",
        "TRUNCATE TABLE t",
        "grant select on t to u",
        "REVOKE select ON t FROM u",
        "ANALYZE TABLE t",
        "AUDIT SESSION",
        "COMMENT ON TABLE t IS 'x'",
        "DROP",
        "CREATE/**/TABLE t (id NUMBER)",
    ] {
        assert!(Statement::new(sql).is_ddl(), "{}", sql);
    }
    for sql in [
        "",
        "   ",
        "SELECT 'CREATE' FROM DUAL",
        "CREATES",
        "CREAT",
        "DROP_ALL",
        "INSERT INTO t VALUES (1)",
        "BEGIN create_all; END;",
        "\u{e9}CREATE",
    ] {
        assert!(!Statement::new(sql).is_ddl(), "{}", sql);
    }
}

#[test]
fn a_copy_for_reuse_keeps_everything() {
    let mut stmt = statement("SELECT 1 FROM DUAL", 9);
    stmt.set_metadata(vec![1, 2, 3]);
    let copy = stmt.clone_for_reuse();
    assert_eq!(copy.sql(), "SELECT 1 FROM DUAL");
    assert_eq!(copy.cursor_id(), 9);
    assert!(copy.executed());
    assert!(!copy.is_ddl());
    assert_eq!(copy.metadata(), &[1, 2, 3]);
}

#[test]
fn what_was_put_comes_back_with_its_metadata() {
    let mut cache = StatementCache::new(2);
    let mut stmt = statement("SELECT 1 FROM DUAL", 9);
    stmt.set_metadata(vec![1, 2, 3]);
    cache.put("SELECT 1 FROM DUAL".to_string(), stmt);
    let got = cache.get("SELECT 1 FROM DUAL").unwrap();
    assert_eq!(got.sql(), "SELECT 1 FROM DUAL");
    assert_eq!(got.cursor_id(), 9);
    assert!(got.executed());
    assert_eq!(got.metadata(), &[1, 2, 3]);
}

#[test]
fn the_key_need_not_be_the_text_of_the_statement() {
    let mut cache = StatementCache::new(2);
    cache.put("key".to_string(), statement("SELECT 1 FROM DUAL", 9));
    assert!(cache.get("SELECT 1 FROM DUAL").is_none());
    assert_eq!(cache.get("key").unwrap().sql(), "SELECT 1 FROM DUAL");
}

#[test]
fn a_new_cache_is_empty() {
    let cache = StatementCache::new(7);
    assert_eq!(cache.len(), 0);
    assert!(cache.is_empty());
    assert_eq!(cache.max_size(), 7);
    assert!(cache.cursors_to_close().is_empty());
}

#[test]
fn len_and_is_empty_follow_the_contents() {
    let mut cache = StatementCache::new(7);
    put(&mut cache, "a", 1, 1);
    assert_eq!(cache.len(), 1);
    assert!(!cache.is_empty());
    put(&mut cache, "b", 2, 2);
    assert_eq!(cache.len(), 2);
    cache.clear();
    assert!(cache.is_empty());
    assert_eq!(cache.max_size(), 7);
    assert!(cache.get("a").is_none());
}

#[test]
fn the_least_recently_used_goes() {
    let mut cache = StatementCache::new(3);
    put(&mut cache, "a", 1, 10);
    put(&mut cache, "b", 2, 20);
    put(&mut cache, "c", 3, 30);
    assert_eq!(cache.get_at("a", 40).unwrap().cursor_id(), 1);
    cache.return_statement("a");
    put(&mut cache, "d", 4, 50);
    assert_eq!(cache.len(), 3);
    assert_eq!(cache.cursors_to_close(), &[2]);
    put(&mut cache, "e", 5, 60);
    assert_eq!(cache.cursors_to_close(), &[2, 3]);
    put(&mut cache, "f", 6, 70);
    assert_eq!(cache.cursors_to_close(), &[2, 3, 1]);
    assert!(is_cached(&mut cache, "d"));
    assert!(is_cached(&mut cache, "e"));
    assert!(is_cached(&mut cache, "f"));
}

#[test]
fn of_equal_times_the_first_in_the_map_goes() {
    let mut cache = StatementCache::new(3);
    put(&mut cache, "a", 1, 10);
    put(&mut cache, "b", 2, 10);
    put(&mut cache, "c", 3, 10);
    put(&mut cache, "d", 4, 10);
    assert_eq!(cache.cursors_to_close(), &[1]);
    // "c" moved into the place of "a".
    put(&mut cache, "e", 5, 10);
    assert_eq!(cache.cursors_to_close(), &[1, 3]);
}

#[test]
fn a_statement_in_use_counts_as_used_when_asked_for() {
    let mut cache = StatementCache::new(2);
    put(&mut cache, "a", 1, 10);
    put(&mut cache, "b", 2, 20);
    assert!(cache.get_at("a", 30).is_some());
    assert!(cache.get_at("a", 50).is_none());
    assert!(cache.get_at("b", 40).is_some());
    cache.return_statement("a");
    cache.return_statement("b");
    put(&mut cache, "c", 3, 60);
    assert_eq!(cache.cursors_to_close(), &[2]);
}

#[test]
fn a_statement_in_use_is_not_driven_out() {
    let mut cache = StatementCache::new(2);
    put(&mut cache, "a", 1, 10);
    put(&mut cache, "b", 2, 20);
    assert!(cache.get_at("a", 5).is_some());
    put(&mut cache, "c", 3, 30);
    assert_eq!(cache.cursors_to_close(), &[2]);
    assert_eq!(cache.len(), 2);
    assert!(is_cached(&mut cache, "c"));
}

#[test]
fn a_cache_full_of_statements_in_use_turns_new_ones_away() {
    let mut cache = StatementCache::new(1);
    put(&mut cache, "a", 1, 10);
    assert!(cache.get_at("a", 20).is_some());
    put(&mut cache, "b", 2, 30);
    assert_eq!(cache.len(), 1);
    assert_eq!(cache.max_size(), 1);
    assert!(cache.cursors_to_close().is_empty());
    assert!(cache.get_at("b", 40).is_none());
    // The statement in use can be stored anew.
    put(&mut cache, "a", 11, 50);
    assert_eq!(cache.get_at("a", 60).unwrap().cursor_id(), 11);
    // Once it is given back, it makes room.
    cache.return_statement("a");
    put(&mut cache, "c", 3, 70);
    assert_eq!(cache.len(), 1);
    assert_eq!(cache.cursors_to_close(), &[11]);
    assert_eq!(cache.get_at("c", 80).unwrap().cursor_id(), 3);
}

#[test]
fn eviction_moves_the_cursor_to_the_queue() {
    let mut cache = StatementCache::new(2);
    // The same cursor under two texts is queued once for each.
    put(&mut cache, "a", 7, 10);
    put(&mut cache, "b", 7, 20);
    put(&mut cache, "c", 8, 30);
    assert_eq!(cache.cursors_to_close(), &[7]);
    put(&mut cache, "d", 9, 40);
    assert_eq!(cache.cursors_to_close(), &[7, 7]);
}

#[test]
fn storing_again_frees_the_statement_and_renews_its_use() {
    let mut cache = StatementCache::new(2);
    put(&mut cache, "a", 1, 10);
    put(&mut cache, "b", 2, 20);
    assert!(cache.get_at("a", 30).is_some());
    put(&mut cache, "a", 11, 40);
    assert_eq!(cache.len(), 2);
    assert!(cache.cursors_to_close().is_empty());
    put(&mut cache, "c", 3, 50);
    assert_eq!(cache.cursors_to_close(), &[2]);
    assert_eq!(cache.get_at("a", 60).unwrap().cursor_id(), 11);
}

#[test]
fn statements_turned_away_leave_the_cache_as_it_is() {
    let mut cache = StatementCache::new(1);
    put(&mut cache, "a", 1, 10);
    put(&mut cache, "DROP TABLE t", 2, 20);
    put(&mut cache, "b", 0, 30);
    put(&mut cache, "a", 0, 40);
    assert_eq!(cache.len(), 1);
    assert!(cache.cursors_to_close().is_empty());
    assert_eq!(cache.get_at("a", 50).unwrap().cursor_id(), 1);
}

#[test]
fn a_marked_statement_has_no_cursor_to_queue() {
    let mut cache = StatementCache::new(1);
    let mut stmt = statement("a", 1);
    stmt.set_metadata(vec![4]);
    cache.put_at("a".to_string(), stmt, 10);
    cache.mark_cursor_closed("a");
    cache.mark_cursor_closed("a");
    let got = cache.get_at("a", 20).unwrap();
    assert_eq!(got.cursor_id(), 0);
    assert!(!got.executed());
    assert_eq!(got.metadata(), &[4]);
    cache.return_statement("a");
    put(&mut cache, "b", 2, 30);
    assert_eq!(cache.len(), 1);
    assert!(cache.cursors_to_close().is_empty());
    assert!(cache.get_at("a", 40).is_none());
}

#[test]
fn marking_resets_whether_the_statement_was_executed() {
    let mut cache = StatementCache::new(1);
    put(&mut cache, "a", 1, 10);
    cache.mark_cursor_closed("a");
    cache.mark_cursor_closed("b");
    assert!(!cache.get_at("a", 20).unwrap().executed());
    assert_eq!(cache.len(), 1);
}

#[test]
fn texts_that_are_not_cached_are_left_alone() {
    let mut cache = StatementCache::new(2);
    put(&mut cache, "a", 1, 10);
    cache.return_statement("b");
    cache.mark_cursor_closed("b");
    assert!(cache.get_at("b", 20).is_none());
    assert_eq!(cache.len(), 1);
    assert_eq!(cache.get_at("a", 30).unwrap().cursor_id(), 1);
    cache.return_statement("b");
    assert!(cache.get_at("a", 40).is_none());
}

#[test]
fn a_use_comes_after_every_use_before_it() {
    let mut cache = StatementCache::new(2);
    cache.put("a".to_string(), statement("a", 1));
    cache.put("b".to_string(), statement("b", 2));
    // The machine's clock lies far behind this use; the next use comes after it all the same.
    assert!(cache.get_at("b", 1 << 100).is_some());
    cache.return_statement("b");
    assert!(cache.get("a").is_some());
    cache.return_statement("a");
    cache.put("c".to_string(), statement("c", 3));
    assert_eq!(cache.cursors_to_close(), &[2]);
    cache.put("d".to_string(), statement("d", 4));
    assert_eq!(cache.cursors_to_close(), &[2, 1]);
}

#[test]
fn uses_in_quick_succession_keep_their_order() {
    let mut cache = StatementCache::new(50);
    for i in 0..50u16 {
        cache.put(format!("{}", i), statement("SELECT 1 FROM DUAL", i + 1));
    }
    for i in (0..50u16).rev() {
        assert!(cache.get(&format!("{}", i)).is_some());
        cache.return_statement(&format!("{}", i));
    }
    for i in 50..100u16 {
        cache.put(format!("{}", i), statement("SELECT 1 FROM DUAL", i + 1));
    }
    let expected: Vec<u16> = (1..=50u16).rev().collect();
    assert_eq!(cache.cursors_to_close(), expected.as_slice());
}

#[test]
fn the_last_tick_of_the_clock_is_no_obstacle() {
    let mut cache = StatementCache::new(1);
    put(&mut cache, "a", 1, u128::MAX);
    assert_eq!(cache.get("a").unwrap().cursor_id(), 1);
    cache.return_statement("a");
    cache.put("b".to_string(), statement("b", 2));
    assert_eq!(cache.cursors_to_close(), &[1]);
}

#[test]
fn a_statement_handed_out_stays_through_other_operations() {
    let mut cache = StatementCache::new(2);
    put(&mut cache, "a", 1, 10);
    assert!(cache.get_at("a", 20).is_some());
    put(&mut cache, "b", 2, 30);
    put(&mut cache, "c", 3, 40);
    put(&mut cache, "a", 0, 50);
    cache.mark_cursor_closed("a");
    cache.return_statement("c");
    cache.clear_cursors_to_close();
    assert!(cache.get_at("a", 60).is_none());
    cache.return_statement("a");
    assert_eq!(cache.get_at("a", 70).unwrap().cursor_id(), 0);
}

#[test]
fn a_cleared_cache_is_as_good_as_new() {
    let mut used = StatementCache::new(2);
    put(&mut used, "x", 8, 500);
    put(&mut used, "y", 9, 600);
    assert!(used.get_at("x", 700).is_some());
    used.queue_cursor_to_close(5);
    used.clear();
    let mut new = StatementCache::new(2);
    for cache in [&mut used, &mut new] {
        put(cache, "a", 1, 10);
        put(cache, "b", 2, 20);
        assert!(cache.get_at("a", 30).is_some());
        cache.return_statement("a");
        put(cache, "c", 3, 40);
        assert_eq!(cache.len(), 2);
        assert_eq!(cache.cursors_to_close(), &[2]);
        assert!(cache.get_at("x", 50).is_none());
    }
}

#[test]
fn a_cached_statement_can_be_made_and_touched() {
    let mut cached = CachedStatement::new(statement("a", 1), 10);
    cached.touch(u128::MAX);
    assert!(format!("{:?}", cached).contains(&u128::MAX.to_string()));
}

#[test]
fn clearing_the_queue_leaves_the_statements() {
    let mut cache = StatementCache::new(1);
    put(&mut cache, "a", 1, 10);
    put(&mut cache, "b", 2, 20);
    assert_eq!(cache.cursors_to_close(), &[1]);
    cache.queue_cursor_to_close(1);
    assert_eq!(cache.cursors_to_close(), &[1, 1]);
    cache.clear_cursors_to_close();
    assert!(cache.cursors_to_close().is_empty());
    assert_eq!(cache.get_at("b", 30).unwrap().cursor_id(), 2);
}
