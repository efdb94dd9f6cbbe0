use acsim::model::PostError;
use acsim::posting::BoardLimits;
use acsim::rows::FlagKind;
use acsim::store::DatabaseWrapper;

fn store_with_thread() -> (DatabaseWrapper, i64) {
    let mut db = DatabaseWrapper::new();
    let l = BoardLimits { bumplimit: 10, hard_limit: 100, page_limit: 10 };
    let t = db.create_thread(&l, "b", "anon", "op", "", 1).unwrap().msgid;
    db.append_reply(&l, t, "anon", "r1", "", 2, false).unwrap();
    db.append_reply(&l, t, "anon", "r2", "", 3, false).unwrap();
    (db, t)
}

#[test]
fn flags_get_increasing_entry_ids() {
    let (mut db, t) = store_with_thread();
    assert_eq!(db.insert_to_flagged(t, None), Ok(1));
    assert_eq!(db.insert_to_flagged(t, Some(2)), Ok(2));
    assert_eq!(db.insert_to_flagged(t, None), Ok(3));
}

#[test]
fn soft_limit_sweep_evicts_one_thread_per_tick() {
    let mut db = DatabaseWrapper::new();
    let l = BoardLimits { bumplimit: 10, hard_limit: 100, page_limit: 10 };
    for i in 1..=4i64 {
        db.create_thread(&l, "b", "anon", &format!("t{}", i), &format!("{}.png;", i), i).unwrap();
    }
    assert_eq!(db.sweep_soft_limit("b", 2), Some(vec!["1.png;".to_string()]));
    assert_eq!(db.count_messages("b"), 3);
    assert_eq!(db.sweep_soft_limit("b", 2), Some(vec!["2.png;".to_string()]));
    assert_eq!(db.sweep_soft_limit("b", 2), None);
    assert_eq!(db.count_messages("b"), 2);
}

#[test]
fn flagged_threads_resolve_in_ledger_order_without_dedup() {
    let (mut db, t) = store_with_thread();
    db.insert_to_flagged(t, None).unwrap();
    db.insert_to_flagged(999, None).unwrap();
    db.insert_to_flagged(t, None).unwrap();
    let flagged = db.get_flagged_messages();
    assert_eq!(flagged.len(), 2);
    assert_ne!(FlagKind::Message, FlagKind::Submessage);
    assert!(flagged.iter().all(|m| m.msgid == t));
    assert!(db.get_flagged_submessages().is_empty());
}

#[test]
fn flagged_replies_skip_dangling_entries() {
    let (mut db, t) = store_with_thread();
    db.insert_to_flagged(t, Some(2)).unwrap();
    db.insert_to_flagged(t, Some(7)).unwrap();
    db.insert_to_flagged(t, Some(1)).unwrap();
    let flagged = db.get_flagged_submessages();
    let ords: Vec<i64> = flagged.iter().map(|r| r.submsg_id).collect();
    assert_eq!(ords, vec![2, 1]);
    db.delete_submsg(t, 2).unwrap();
    let ords: Vec<i64> = db.get_flagged_submessages().iter().map(|r| r.submsg_id).collect();
    assert_eq!(ords, vec![1]);
    db.delete_msg(t).unwrap();
    assert!(db.get_flagged_submessages().is_empty());
}

#[test]
fn evicting_an_empty_board_finds_nothing() {
    let (mut db, t) = store_with_thread();
    assert!(db.delete_least_active("other").is_none());
    assert_eq!(db.delete_least_active("b"), Some(vec![String::new(), String::new(), String::new()]));
    assert_eq!(db.get_single_message(t).unwrap_err(), PostError::NotFound);
}

#[test]
fn raw_insert_assigns_fresh_ids() {
    let mut db = DatabaseWrapper::new();
    assert_eq!(db.insert_to_messages("b", "anon", "x", "", 5), Ok(1));
    assert_eq!(db.insert_to_messages("b", "anon", "x", "", 6), Ok(2));
    assert_eq!(db.insert_to_messages("b", "anon", "", "", 6), Err(PostError::ValidationError));
    assert_eq!(db.insert_to_submessages(1, "anon", "y", "", 7), Ok(1));
    assert_eq!(db.get_single_message(1).unwrap().latest_submsg, 5);
}
