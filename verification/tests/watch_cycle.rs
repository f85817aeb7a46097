use orbitmail::session::mailbox_from_parts;
use orbitmail::session::xoauth2_blob;
use orbitmail::session::MailError;
use orbitmail::watch::coordinator_wake;
use orbitmail::watch::process_unsolicited;
use orbitmail::watch::start_idle_listener;
use orbitmail::watch::stop_idle_listener;
use orbitmail::watch::ListenerState;
use orbitmail::watch::PrefetchState;
use orbitmail::watch::SyncFlag;
use orbitmail::watch::WatchSupervisor;

#[test]
fn starting_twice_leaves_one_active_pair() {
    let mut sup = WatchSupervisor::new();
    assert!(!sup.is_running());
    assert!(start_idle_listener(&mut sup), "first start spawns the pair");
    assert!(sup.is_running());
    assert!(!start_idle_listener(&mut sup), "second start is an idempotent no-op");
    assert!(sup.is_running(), "exactly one pair stays active");
}

#[test]
fn stopping_when_none_runs_is_noop() {
    let mut sup = WatchSupervisor::new();
    assert!(!stop_idle_listener(&mut sup));
    assert!(!sup.is_running());
    start_idle_listener(&mut sup);
    assert!(stop_idle_listener(&mut sup), "stop cancels the running pair");
    assert!(!sup.is_running());
    assert!(!stop_idle_listener(&mut sup));
}

#[test]
fn queued_burst_collapses_to_one_sync() {
    // five notifications queued before the coordinator wakes
    let mut queue = vec![5u32, 6, 7, 8, 9];
    let trigger = coordinator_wake(&mut queue, false);
    assert!(trigger, "exactly one synchronization pass is triggered");
    assert!(queue.is_empty(), "the burst is drained");
    assert!(!coordinator_wake(&mut queue, false), "nothing left to trigger");
}

#[test]
fn signal_ignored_while_sync_in_flight() {
    let mut queue = vec![5u32];
    assert!(!coordinator_wake(&mut queue, true));
    assert!(queue.is_empty());
}

#[test]
fn backoff_doubles_and_caps_at_sixty() {
    let mut st = ListenerState::new();
    let mut delays = Vec::new();
    for _ in 0..8 {
        delays.push(st.after_cycle_failure());
    }
    assert_eq!(delays, vec![2, 4, 8, 16, 32, 60, 60, 60]);
}

#[test]
fn backoff_resets_after_success() {
    let mut st = ListenerState::new();
    st.after_cycle_failure();
    st.after_cycle_failure();
    assert_eq!(st.backoff_secs, 8);
    st.after_cycle_success(42);
    assert_eq!(st.baseline, 42);
    assert_eq!(st.after_cycle_failure(), 2, "first delay after a success is 2s again");
}

#[test]
fn unsolicited_counts_above_baseline_are_forwarded_in_order() {
    let (base, fwd) = process_unsolicited(10, &vec![9, 11, 11, 13, 12]);
    assert_eq!(fwd, vec![11, 13], "only counts above the running baseline go out");
    assert_eq!(base, 12, "the baseline follows the last reported count");

    let (base2, fwd2) = process_unsolicited(10, &vec![]);
    assert_eq!(base2, 10);
    assert!(fwd2.is_empty());
}

#[test]
fn xoauth2_blob_has_wire_format() {
    let blob = xoauth2_blob("user@example.com", "token123");
    assert_eq!(blob, "user=user@example.com\x01auth=Bearer token123\x01\x01");
}

#[test]
fn mailbox_delimiter_defaults_to_slash() {
    let m = mailbox_from_parts("INBOX".to_string(), None);
    assert_eq!(m.name, "INBOX");
    assert_eq!(m.delimiter, "/");
    let n = mailbox_from_parts("Work".to_string(), Some(".".to_string()));
    assert_eq!(n.delimiter, ".");
}

#[test]
fn prefetch_guard_is_single_flight() {
    let mut st = PrefetchState::new();
    assert!(st.try_begin(), "first caller owns the run");
    assert!(!st.try_begin(), "a concurrent invocation is a silent no-op");
    st.end();
    assert!(st.try_begin(), "the guard is released unconditionally afterwards");
    st.end();
}

#[test]
fn sync_flag_admits_one_pass_at_a_time() {
    let mut flag = SyncFlag::new();
    assert!(!flag.is_running());
    assert!(flag.try_begin(), "the first signal runs the pass");
    assert!(!flag.try_begin(), "a signal during a pass is ignored");
    flag.end();
    assert!(flag.try_begin(), "a later signal runs a new pass");
    flag.end();
}

#[test]
fn mail_error_carries_message_and_retry_class() {
    let e = MailError::Connect("refused".to_string());
    assert_eq!(e.message(), "refused");
    assert!(e.is_retried_by_listener());
    let c = MailError::Credential("expired".to_string());
    assert!(!c.is_retried_by_listener(), "credential errors go back to the collaborator");
    assert!(MailError::Timeout("slow".to_string()).is_retried_by_listener());
}
