use acsim::model::PostError;
use acsim::posting::BoardLimits;
use acsim::rows::MessageRow;
use acsim::store::DatabaseWrapper;

fn limits(bumplimit: u16, hard_limit: u16) -> BoardLimits {
    BoardLimits { bumplimit, hard_limit, page_limit: 10 }
}

fn ids(rows: &[MessageRow]) -> Vec<i64> {
    rows.iter().map(|r| r.msgid).collect()
}

#[test]
fn threads_are_listed_newest_activity_first() {
    let mut db = DatabaseWrapper::new();
    let l = limits(10, 100);
    let a = db.create_thread(&l, "b", "anon", "first", "", 100).unwrap().msgid;
    let b = db.create_thread(&l, "b", "anon", "second", "", 200).unwrap().msgid;
    let c = db.create_thread(&l, "b", "anon", "third", "", 150).unwrap().msgid;
    assert_eq!((a, b, c), (1, 2, 3));
    assert_eq!(ids(&db.list_threads("b", 0, 100)), vec![b, c, a]);
}

#[test]
fn equal_activity_orders_by_higher_id_first() {
    let mut db = DatabaseWrapper::new();
    let l = limits(10, 100);
    let a = db.create_thread(&l, "b", "anon", "one", "", 100).unwrap().msgid;
    let b = db.create_thread(&l, "b", "anon", "two", "", 100).unwrap().msgid;
    assert_eq!(ids(&db.list_threads("b", 0, 10)), vec![b, a]);
}

#[test]
fn boards_are_kept_apart() {
    let mut db = DatabaseWrapper::new();
    let l = limits(10, 100);
    db.create_thread(&l, "a", "anon", "on a", "", 1).unwrap();
    db.create_thread(&l, "b", "anon", "on b", "", 2).unwrap();
    db.create_thread(&l, "b", "anon", "on b again", "", 3).unwrap();
    assert_eq!(db.count_messages("a"), 1);
    assert_eq!(db.count_messages("b"), 2);
    assert_eq!(db.count_messages("c"), 0);
    assert_eq!(db.list_threads("a", 0, 10)[0].msg, "on a");
}

#[test]
fn creating_a_third_thread_evicts_the_least_active() {
    let mut db = DatabaseWrapper::new();
    let l = limits(10, 2);
    let t1 = db.create_thread(&l, "b", "anon", "T1", "data/user_images/1.png;", 100).unwrap();
    let t2 = db.create_thread(&l, "b", "anon", "T2", "", 200).unwrap();
    assert!(t1.evicted_media.is_empty() && t2.evicted_media.is_empty());
    db.append_reply(&l, t1.msgid, "anon", "reply", "data/user_images/2.png;", 50, true).unwrap();
    let t3 = db.create_thread(&l, "b", "anon", "T3", "", 300).unwrap();
    assert_eq!(ids(&db.list_threads("b", 0, 10)), vec![t3.msgid, t2.msgid]);
    assert_eq!(
        t3.evicted_media,
        vec!["data/user_images/1.png;".to_string(), "data/user_images/2.png;".to_string()]
    );
    assert_eq!(db.get_single_message(t1.msgid).unwrap_err(), PostError::NotFound);
    assert!(db.get_submessages(t1.msgid).is_empty());
}

#[test]
fn eviction_tie_goes_to_lowest_id() {
    let mut db = DatabaseWrapper::new();
    let l = limits(10, 2);
    let a = db.create_thread(&l, "b", "anon", "A", "", 100).unwrap().msgid;
    let b = db.create_thread(&l, "b", "anon", "B", "", 100).unwrap().msgid;
    let c = db.create_thread(&l, "b", "anon", "C", "", 100).unwrap().msgid;
    assert_eq!(ids(&db.list_threads("b", 0, 10)), vec![c, b]);
    assert!(db.get_single_message(a).is_err());
}

#[test]
fn board_never_exceeds_hard_limit() {
    let mut db = DatabaseWrapper::new();
    let l = limits(10, 3);
    for i in 0..20i64 {
        let body = format!("post {}", i);
        db.create_thread(&l, "b", "anon", &body, "", i).unwrap();
        assert!(db.list_threads("b", 0, usize::MAX).len() <= 3);
        assert!(db.count_messages("b") <= 3);
    }
    assert_eq!(db.count_messages("b"), 3);
}

#[test]
fn zero_hard_limit_keeps_no_thread() {
    let mut db = DatabaseWrapper::new();
    let l = limits(10, 0);
    let t = db.create_thread(&l, "b", "anon", "gone", "x;", 5).unwrap();
    assert_eq!(t.evicted_media, vec!["x;".to_string()]);
    assert_eq!(db.count_messages("b"), 0);
}

#[test]
fn pages_of_ten_over_twenty_five_threads() {
    let mut db = DatabaseWrapper::new();
    let l = limits(10, 100);
    for i in 1..=25i64 {
        let body = format!("thread {}", i);
        db.create_thread(&l, "b", "anon", &body, "", i * 10).unwrap();
    }
    let page1 = db.get_messages("b", 1, 10);
    assert_eq!(ids(&page1), (16..=25).rev().collect::<Vec<i64>>());
    let page3 = db.get_messages("b", 3, 10);
    assert_eq!(ids(&page3), (1..=5).rev().collect::<Vec<i64>>());
    assert_eq!(ids(&db.get_messages("b", 0, 10)), ids(&page1));
    assert!(db.get_messages("b", 4, 10).is_empty());
    assert!(db.get_messages("b", usize::MAX, usize::MAX).is_empty());
}

#[test]
fn list_threads_window() {
    let mut db = DatabaseWrapper::new();
    let l = limits(10, 100);
    for i in 1..=5i64 {
        db.create_thread(&l, "b", "anon", &format!("t{}", i), "", i).unwrap();
    }
    assert_eq!(ids(&db.list_threads("b", 1, 2)), vec![4, 3]);
    assert_eq!(ids(&db.list_threads("b", 4, 10)), vec![1]);
    assert!(db.list_threads("b", 5, 10).is_empty());
    assert!(db.list_threads("b", 0, 0).is_empty());
}

#[test]
fn validation_errors() {
    let mut db = DatabaseWrapper::new();
    let l = limits(10, 100);
    assert_eq!(db.create_thread(&l, "b", "anon", "", "", 1).unwrap_err(), PostError::ValidationError);
    let long_body = "x".repeat(4001);
    assert_eq!(
        db.create_thread(&l, "b", "anon", &long_body, "", 1).unwrap_err(),
        PostError::ValidationError
    );
    let long_author = "a".repeat(251);
    assert_eq!(
        db.create_thread(&l, "b", &long_author, "body", "", 1).unwrap_err(),
        PostError::ValidationError
    );
    let max_body = "x".repeat(4000);
    let max_author = "a".repeat(250);
    let t = db.create_thread(&l, "b", &max_author, &max_body, "", 1).unwrap().msgid;
    assert_eq!(
        db.append_reply(&l, t, "anon", "", "", 2, false).unwrap_err(),
        PostError::ValidationError
    );
    assert_eq!(db.count_messages("b"), 1);
}

#[test]
fn byte_length_counts_for_limits() {
    let mut db = DatabaseWrapper::new();
    let l = limits(10, 100);
    let body = "é".repeat(2001);
    assert_eq!(db.create_thread(&l, "b", "anon", &body, "", 1).unwrap_err(), PostError::ValidationError);
    let body = "é".repeat(2000);
    assert!(db.create_thread(&l, "b", "anon", &body, "", 1).is_ok());
}

#[test]
fn repeated_thread_body_is_refused() {
    let mut db = DatabaseWrapper::new();
    let l = limits(10, 100);
    db.create_thread(&l, "b", "anon", "hello", "", 1).unwrap();
    assert_eq!(db.create_thread(&l, "b", "other", "hello", "", 2).unwrap_err(), PostError::DuplicatePost);
    db.create_thread(&l, "c", "anon", "hello", "", 3).unwrap();
    db.create_thread(&l, "b", "anon", "world", "", 4).unwrap();
    db.create_thread(&l, "b", "anon", "hello", "", 5).unwrap();
    assert_eq!(db.count_messages("b"), 3);
}

#[test]
fn repeated_reply_body_is_refused() {
    let mut db = DatabaseWrapper::new();
    let l = limits(10, 100);
    let t = db.create_thread(&l, "b", "anon", "op", "", 1).unwrap().msgid;
    assert_eq!(db.append_reply(&l, t, "anon", "same", "", 2, false), Ok(1));
    assert_eq!(db.append_reply(&l, t, "anon", "same", "", 3, false), Err(PostError::DuplicatePost));
    assert_eq!(db.append_reply(&l, t, "anon", "different", "", 4, false), Ok(2));
    assert_eq!(db.count_submessages(t), 2);
}

#[test]
fn reply_to_missing_thread_is_not_found() {
    let mut db = DatabaseWrapper::new();
    let l = limits(10, 100);
    assert_eq!(db.append_reply(&l, 42, "anon", "hi", "", 1, false), Err(PostError::NotFound));
    assert_eq!(db.insert_to_submessages(42, "anon", "hi", "", 1), Err(PostError::NotFound));
}

#[test]
fn reply_ordinals_count_from_one_without_gaps() {
    let mut db = DatabaseWrapper::new();
    let l = limits(100, 100);
    let t = db.create_thread(&l, "b", "anon", "op", "", 1).unwrap().msgid;
    for i in 0..10i64 {
        let ord = db.append_reply(&l, t, "anon", &format!("r{}", i), "", 2 + i, false).unwrap();
        assert_eq!(ord, i + 1);
    }
    let ords: Vec<i64> = db.get_submessages(t).iter().map(|r| r.submsg_id).collect();
    assert_eq!(ords, (1..=10).collect::<Vec<i64>>());
    assert!(db.get_submessages(t).iter().all(|r| r.parent_msg == t && r.board == "b"));
}

#[test]
fn ordinals_are_not_reused_after_a_reply_is_purged() {
    let mut db = DatabaseWrapper::new();
    let l = limits(100, 100);
    let t = db.create_thread(&l, "b", "anon", "op", "", 1).unwrap().msgid;
    db.append_reply(&l, t, "anon", "r1", "", 2, false).unwrap();
    db.append_reply(&l, t, "anon", "r2", "a;", 3, false).unwrap();
    db.append_reply(&l, t, "anon", "r3", "", 4, false).unwrap();
    assert_eq!(db.delete_submsg(t, 2), Ok("a;".to_string()));
    assert_eq!(db.delete_submsg(t, 2), Err(PostError::NotFound));
    assert_eq!(db.append_reply(&l, t, "anon", "r4", "", 5, false), Ok(4));
    let ords: Vec<i64> = db.get_submessages(t).iter().map(|r| r.submsg_id).collect();
    assert_eq!(ords, vec![1, 3, 4]);
}

#[test]
fn reply_bumps_thread_until_bumplimit() {
    let mut db = DatabaseWrapper::new();
    let l = limits(2, 100);
    let a = db.create_thread(&l, "b", "anon", "A", "", 100).unwrap().msgid;
    let b = db.create_thread(&l, "b", "anon", "B", "", 200).unwrap().msgid;
    db.append_reply(&l, a, "anon", "r1", "", 300, false).unwrap();
    assert_eq!(db.get_single_message(a).unwrap().latest_submsg, 300);
    assert_eq!(ids(&db.list_threads("b", 0, 10)), vec![a, b]);
    db.update_message_activity(b, 400).unwrap();
    db.append_reply(&l, a, "anon", "r2", "", 500, false).unwrap();
    assert_eq!(db.get_single_message(a).unwrap().latest_submsg, 500);
    db.update_message_activity(b, 600).unwrap();
    db.append_reply(&l, a, "anon", "r3", "", 700, false).unwrap();
    assert_eq!(db.get_single_message(a).unwrap().latest_submsg, 500);
    assert_eq!(ids(&db.list_threads("b", 0, 10)), vec![b, a]);
}

#[test]
fn silent_reply_does_not_bump() {
    let mut db = DatabaseWrapper::new();
    let l = limits(10, 100);
    let a = db.create_thread(&l, "b", "anon", "A", "", 100).unwrap().msgid;
    db.append_reply(&l, a, "anon", "sage", "", 300, true).unwrap();
    let row = db.get_single_message(a).unwrap();
    assert_eq!((row.time, row.latest_submsg), (100, 100));
}

#[test]
fn activity_never_moves_back() {
    let mut db = DatabaseWrapper::new();
    let l = limits(10, 100);
    let a = db.create_thread(&l, "b", "anon", "A", "", 100).unwrap().msgid;
    db.append_reply(&l, a, "anon", "late clock", "", 50, false).unwrap();
    assert_eq!(db.get_single_message(a).unwrap().latest_submsg, 100);
    assert_eq!(db.update_message_activity(99, 1), Err(PostError::NotFound));
}

#[test]
fn purge_removes_replies_and_second_purge_is_not_found() {
    let mut db = DatabaseWrapper::new();
    let l = limits(10, 100);
    let t = db.create_thread(&l, "b", "anon", "op", "x.png;", 1).unwrap().msgid;
    let other = db.create_thread(&l, "b", "anon", "other", "", 2).unwrap().msgid;
    db.append_reply(&l, t, "anon", "r1", "y.png;", 3, false).unwrap();
    db.append_reply(&l, t, "anon", "r2", "", 4, false).unwrap();
    let media = db.delete_msg(t).unwrap();
    assert_eq!(media, vec!["x.png;".to_string(), "y.png;".to_string(), String::new()]);
    assert!(db.get_submessages(t).is_empty());
    assert_eq!(db.count_submessages(t), 0);
    assert_eq!(db.delete_msg(t), Err(PostError::NotFound));
    assert_eq!(ids(&db.list_threads("b", 0, 10)), vec![other]);
}

#[test]
fn lookups_of_single_rows() {
    let mut db = DatabaseWrapper::new();
    let l = limits(10, 100);
    let t = db.create_thread(&l, "b", "anon", "op", "", 1).unwrap().msgid;
    db.append_reply(&l, t, "me", "r1", "", 2, false).unwrap();
    db.append_reply(&l, t, "you", "r2", "", 3, false).unwrap();
    let r = db.get_single_submessage(t, 1).unwrap();
    assert_eq!((r.author.as_str(), r.submsg.as_str(), r.time), ("me", "r1", 2));
    assert_eq!(db.get_single_submessage(t, 3).unwrap_err(), PostError::NotFound);
    assert_eq!(db.get_single_submessage(t + 1, 1).unwrap_err(), PostError::NotFound);
    assert_eq!(db.get_last_submessage(t).unwrap().submsg, "r2");
    assert!(db.get_last_submessage(t + 1).is_none());
    assert_eq!(db.get_last_message("b").unwrap().msgid, t);
    assert!(db.get_last_message("none").is_none());
}

#[test]
fn search_matches_substring_case_sensitively() {
    let mut db = DatabaseWrapper::new();
    let l = limits(10, 100);
    db.create_thread(&l, "b", "anon", "Rust is fun", "", 1).unwrap();
    db.create_thread(&l, "b", "anon", "rust everywhere", "", 2).unwrap();
    db.create_thread(&l, "b", "anon", "nothing here", "", 3).unwrap();
    db.create_thread(&l, "c", "anon", "rust on c", "", 4).unwrap();
    assert_eq!(ids(&db.search_messages("b", 0, 10, "rust")), vec![2]);
    assert_eq!(ids(&db.search_messages("b", 0, 10, "Rust")), vec![1]);
    assert_eq!(ids(&db.search_messages("b", 0, 10, "")), vec![3, 2, 1]);
    assert_eq!(ids(&db.search_messages("b", 1, 1, "")), vec![2]);
    assert!(db.search_messages("b", 0, 10, "zzz").is_empty());
}

#[test]
fn counts_and_posting_rate() {
    let mut db = DatabaseWrapper::new();
    let l = limits(10, 100);
    let a = db.create_thread(&l, "b", "anon", "A", "", 100).unwrap().msgid;
    let b = db.create_thread(&l, "b", "anon", "B", "", 1000).unwrap().msgid;
    db.create_thread(&l, "c", "anon", "C", "", 1000).unwrap();
    db.append_reply(&l, a, "anon", "r1", "", 500, false).unwrap();
    db.append_reply(&l, a, "anon", "r2", "", 1100, false).unwrap();
    db.append_reply(&l, b, "anon", "r3", "", 1200, false).unwrap();
    assert_eq!(db.count_board_submessages("b"), 3);
    assert_eq!(db.count_board_submessages("c"), 0);
    assert_eq!(db.get_posting_rate("b", 1000, 1500), 3);
    assert_eq!(db.get_posting_rate("b", 500, 1500), 2);
    assert_eq!(db.get_posting_rate("b", 1401, 1500), 5);
    assert_eq!(db.get_posting_rate("b", 0, 1500), 0);
    let stats = db.board_statistics("b", 1000, 1500);
    assert_eq!((stats.thread_count, stats.reply_count, stats.post_count, stats.posting_rate), (2, 3, 5, 3));
}

#[test]
fn posting_rate_with_extreme_window() {
    let mut db = DatabaseWrapper::new();
    let l = limits(10, 100);
    db.create_thread(&l, "b", "anon", "A", "", -5).unwrap();
    assert_eq!(db.get_posting_rate("b", i64::MAX, i64::MIN), 1);
    assert_eq!(db.get_posting_rate("b", i64::MIN, i64::MAX), 0);
}
