use orbitmail::store::CacheStore;
use orbitmail::store::MessageHeader;

fn header(uid: u32, generation: u32, subject: &str) -> MessageHeader {
    MessageHeader {
        uid,
        uid_validity: generation,
        subject: subject.to_string(),
        sender: "someone@example.com".to_string(),
        date: "2024-01-01".to_string(),
        seen: false,
        flagged: false,
    }
}

fn store() -> CacheStore {
    CacheStore::new("INBOX".to_string())
}

#[test]
fn generation_starts_unknown() {
    let s = store();
    assert_eq!(s.get_mailbox_validity(), None);
}

#[test]
fn update_and_read_generation() {
    let mut s = store();
    s.update_mailbox_validity(7);
    assert_eq!(s.get_mailbox_validity(), Some(7));
}

#[test]
fn highest_uid_empty_is_zero() {
    let s = store();
    assert_eq!(s.get_highest_uid(), 0);
}

#[test]
fn highest_uid_tracks_max() {
    let mut s = store();
    s.insert_or_update_messages(&vec![header(3, 1, "c"), header(9, 1, "i"), header(5, 1, "e")]);
    assert_eq!(s.get_highest_uid(), 9);
}

#[test]
fn upsert_replaces_same_key() {
    let mut s = store();
    s.insert_or_update_messages(&vec![header(3, 1, "old")]);
    s.insert_or_update_messages(&vec![header(3, 1, "new"), header(4, 1, "other")]);
    let rows = s.load_cached_messages(10);
    assert_eq!(rows.len(), 2);
    assert_eq!(rows[0].uid, 4);
    assert_eq!(rows[1].uid, 3);
    assert_eq!(rows[1].subject, "new");
}

#[test]
fn upsert_empty_batch_is_noop() {
    let mut s = store();
    s.insert_or_update_messages(&vec![header(3, 1, "a")]);
    s.insert_or_update_messages(&vec![]);
    assert_eq!(s.load_cached_messages(10).len(), 1);
}

#[test]
fn same_uid_under_two_generations_are_distinct_keys() {
    let mut s = store();
    s.insert_or_update_messages(&vec![header(3, 1, "g1"), header(3, 2, "g2")]);
    assert_eq!(s.load_cached_messages(10).len(), 2);
}

#[test]
fn load_cached_messages_is_most_recent_first_and_limited() {
    let mut s = store();
    s.insert_or_update_messages(&vec![
        header(1, 1, "a"),
        header(4, 1, "d"),
        header(2, 1, "b"),
        header(3, 1, "c"),
    ]);
    let rows = s.load_cached_messages(3);
    assert_eq!(rows.len(), 3);
    assert_eq!(rows[0].uid, 4);
    assert_eq!(rows[1].uid, 3);
    assert_eq!(rows[2].uid, 2);
}

#[test]
fn body_cache_round_trip() {
    let mut s = store();
    assert!(s.get_message_body_cache(10, 1).is_none());
    s.update_message_body(10, 1, "<p>Hi</p>".to_string());
    assert_eq!(s.get_message_body_cache(10, 1), Some("<p>Hi</p>".to_string()));
}

#[test]
fn body_cache_overwrite_is_idempotent() {
    // two racing cache fills for the same key write the same rendered
    // body; the store ends with that single value either way
    let mut s = store();
    s.update_message_body(10, 1, "<p>Same</p>".to_string());
    s.update_message_body(10, 1, "<p>Same</p>".to_string());
    assert_eq!(s.get_message_body_cache(10, 1), Some("<p>Same</p>".to_string()));
    assert_eq!(s.bodies.len(), 1);
}

#[test]
fn body_cached_under_old_generation_is_never_returned() {
    // a body cached under generation 1 must not satisfy lookups once
    // the mailbox generation becomes 2
    let mut s = store();
    s.update_mailbox_validity(1);
    s.update_message_body(10, 1, "<p>stale</p>".to_string());
    let changed = s.reconcile_generation(2);
    assert!(changed);
    assert_eq!(s.get_mailbox_validity(), Some(2));
    assert!(s.get_message_body_cache(10, 2).is_none());
}

#[test]
fn reconcile_same_generation_keeps_cache() {
    let mut s = store();
    s.update_mailbox_validity(5);
    s.insert_or_update_messages(&vec![header(1, 5, "a")]);
    s.update_message_body(1, 5, "<p>kept</p>".to_string());
    let changed = s.reconcile_generation(5);
    assert!(!changed);
    assert_eq!(s.load_cached_messages(10).len(), 1);
    assert_eq!(s.get_message_body_cache(1, 5), Some("<p>kept</p>".to_string()));
}

#[test]
fn reconcile_new_generation_drops_everything() {
    let mut s = store();
    s.update_mailbox_validity(5);
    s.insert_or_update_messages(&vec![header(1, 5, "a"), header(2, 5, "b")]);
    s.update_message_body(1, 5, "<p>x</p>".to_string());
    let changed = s.reconcile_generation(6);
    assert!(changed);
    assert!(s.load_cached_messages(10).is_empty());
    assert_eq!(s.get_highest_uid(), 0);
}

#[test]
fn uncached_recent_uids_bounded_and_disjoint_from_body_cache() {
    let mut s = store();
    let mut batch = Vec::new();
    for uid in 1..=12u32 {
        batch.push(header(uid, 1, "m"));
    }
    s.insert_or_update_messages(&batch);
    s.update_message_body(12, 1, "<p>cached</p>".to_string());
    s.update_message_body(9, 1, "<p>cached</p>".to_string());

    let uids = s.get_unfetched_recent_uids(10);
    assert!(uids.len() <= 10);
    assert_eq!(uids.len(), 10);
    assert!(!uids.contains(&(12, 1)), "cached entries are excluded");
    assert!(!uids.contains(&(9, 1)), "cached entries are excluded");
    // most recent first, skipping the cached ones
    assert_eq!(uids[0], (11, 1));
    assert_eq!(uids[1], (10, 1));
    assert_eq!(uids[2], (8, 1));
    assert_eq!(uids.last(), Some(&(1, 1)));
}

#[test]
fn uncached_recent_uids_honours_small_bound() {
    let mut s = store();
    s.insert_or_update_messages(&vec![header(1, 1, "a"), header(2, 1, "b"), header(3, 1, "c")]);
    let uids = s.get_unfetched_recent_uids(2);
    assert_eq!(uids, vec![(3, 1), (2, 1)]);
}
