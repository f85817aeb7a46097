//! Watch listener and sync coordinator decisions: pair lifecycle,
//! signal debouncing, unsolicited-notification handling, reconnect
//! backoff, and the prefetch single-flight guard.
//!
//! The surrounding application owns the long-lived tasks, the channel
//! and the sockets; every decision those tasks take — whether to start,
//! what to forward, whether to trigger a sync, how long to wait before
//! reconnecting — is a function here.

use vstd::prelude::*;

verus! {

/// Lifecycle of the listener/coordinator pair. Exactly one pair may be
/// active at a time.
pub struct WatchSupervisor {
    pub running: bool,
}

/// What starting does to the lifecycle: the pair runs afterwards, and
/// the call started it exactly when it was not running before.
pub open spec fn spec_start(s: WatchSupervisor) -> (WatchSupervisor, bool) {
    (WatchSupervisor { running: true }, !s.running)
}

/// What stopping does to the lifecycle: nothing runs afterwards, and
/// the call stopped the pair exactly when it was running before.
pub open spec fn spec_stop(s: WatchSupervisor) -> (WatchSupervisor, bool) {
    (WatchSupervisor { running: false }, s.running)
}

impl WatchSupervisor {
    /// A supervisor with no pair running.
    pub fn new() -> (r: Self)
        ensures
            !r.running,
    {
        WatchSupervisor { running: false }
    }

    pub fn is_running(&self) -> (r: bool)
        ensures
            r == self.running,
    {
        self.running
    }
}

/// Claims the lifecycle for a new listener/coordinator pair. Returns
/// whether the caller should actually spawn the pair: `false` means one
/// is already active and this call is an idempotent no-op.
pub fn start_idle_listener(sup: &mut WatchSupervisor) -> (started: bool)
    ensures
        *final(sup) == spec_start(*old(sup)).0,
        started == spec_start(*old(sup)).1,
{
    let started = !sup.running;
    sup.running = true;
    started
}

/// Releases the lifecycle: the caller cancels both tasks
/// unconditionally. Returns whether a pair was running; stopping when
/// none runs is a no-op.
pub fn stop_idle_listener(sup: &mut WatchSupervisor) -> (stopped: bool)
    ensures
        *final(sup) == spec_stop(*old(sup)).0,
        stopped == spec_stop(*old(sup)).1,
{
    let stopped = sup.running;
    sup.running = false;
    stopped
}

/// Starting twice in a row leaves exactly one active pair — the second
/// start reports that it started nothing — and stopping twice in a row
/// reports a no-op the second time.
pub proof fn lemma_lifecycle_idempotent(s: WatchSupervisor)
    ensures
        spec_start(spec_start(s).0).0 == spec_start(s).0,
        !spec_start(spec_start(s).0).1,
        spec_stop(spec_stop(s).0).0 == spec_stop(s).0,
        !spec_stop(spec_stop(s).0).1,
        !spec_stop(WatchSupervisor { running: false }).1,
{
}

/// What one coordinator wake-up does: every queued signal is drained
/// and one sync pass is triggered exactly when at least one signal was
/// queued and no pass is already in flight.
pub open spec fn spec_wake(queue: Seq<u32>, sync_in_flight: bool) -> (Seq<u32>, bool) {
    (Seq::empty(), queue.len() > 0 && !sync_in_flight)
}

/// One wake-up of the sync coordinator: drains the signal queue and
/// decides whether to trigger a synchronization pass.
pub fn coordinator_wake(queue: &mut Vec<u32>, sync_in_flight: bool) -> (trigger: bool)
    ensures
        final(queue)@ == spec_wake(old(queue)@, sync_in_flight).0,
        trigger == spec_wake(old(queue)@, sync_in_flight).1,
{
    let had = queue.len() > 0;
    queue.clear();
    proof {
        assert(queue@ =~= Seq::<u32>::empty());
    }
    had && !sync_in_flight
}

/// A burst of `N` queued notifications collapses to exactly one
/// triggered pass (none when a pass is already in flight), and waking
/// again right after the drain triggers nothing further.
pub proof fn lemma_coordinator_debounce(queue: Seq<u32>, sync_in_flight: bool)
    ensures
        spec_wake(queue, false).1 == (queue.len() > 0),
        !spec_wake(queue, true).1,
        !spec_wake(spec_wake(queue, sync_in_flight).0, false).1,
{
}

/// Final watch baseline after draining queued count notifications: the
/// last reported count, or the old baseline when none arrived.
pub open spec fn spec_final_baseline(base: u32, counts: Seq<u32>) -> u32 {
    if counts.len() == 0 {
        base
    } else {
        counts.last()
    }
}

/// The counts forwarded to the coordinator while draining: each one
/// that exceeds the baseline current when it is examined; the baseline
/// advances to every examined count.
pub open spec fn spec_forwarded(base: u32, counts: Seq<u32>) -> Seq<u32>
    decreases counts.len(),
{
    if counts.len() == 0 {
        Seq::empty()
    } else {
        let c = counts[0];
        if c > base {
            seq![c] + spec_forwarded(c, counts.skip(1))
        } else {
            spec_forwarded(c, counts.skip(1))
        }
    }
}

/// Drains the unsolicited count notifications of one watch cycle, in
/// arrival order: returns the new baseline and the counts to forward.
pub fn process_unsolicited(baseline: u32, counts: &Vec<u32>) -> (r: (u32, Vec<u32>))
    ensures
        r.0 == spec_final_baseline(baseline, counts@),
        r.1@ == spec_forwarded(baseline, counts@),
{
    let n = counts.len();
    let mut base = baseline;
    let mut fwd: Vec<u32> = Vec::new();
    let mut i: usize = 0;
    proof {
        assert(counts@.skip(0) =~= counts@);
    }
    while i < n
        invariant
            n == counts@.len(),
            0 <= i <= n,
            spec_forwarded(baseline, counts@) == fwd@ + spec_forwarded(base, counts@.skip(i as int)),
            base == spec_final_baseline(baseline, counts@.take(i as int)),
        decreases n - i,
    {
        let c = counts[i];
        let ghost rest = counts@.skip(i as int);
        proof {
            assert(rest[0] == counts@[i as int]);
            assert(rest.skip(1) =~= counts@.skip(i + 1));
            assert(counts@.take(i + 1).last() == counts@[i as int]);
        }
        if c > base {
            fwd.push(c);
        }
        base = c;
        i += 1;
    }
    proof {
        assert(counts@.skip(n as int) =~= Seq::<u32>::empty());
        assert(counts@.take(n as int) =~= counts@);
    }
    (base, fwd)
}

/// Reconnect delay applied on the first failure after a success.
pub const INITIAL_BACKOFF_SECS: u64 = 2;

/// Ceiling on the reconnect delay.
pub const MAX_BACKOFF_SECS: u64 = 60;

/// The delay that follows a given reconnect delay: doubled, capped.
pub open spec fn spec_next_backoff(b: int) -> int {
    if 2 * b < MAX_BACKOFF_SECS {
        2 * b
    } else {
        MAX_BACKOFF_SECS as int
    }
}

/// Mutable state of the watch listener between cycles.
pub struct ListenerState {
    pub baseline: u32,
    pub backoff_secs: u64,
}

impl ListenerState {
    /// The backoff delay is always within its designed band.
    pub open spec fn wf(self) -> bool {
        INITIAL_BACKOFF_SECS <= self.backoff_secs <= MAX_BACKOFF_SECS
    }

    /// Fresh listener state before the first connection attempt.
    pub fn new() -> (r: Self)
        ensures
            r.wf(),
            r.baseline == 0,
            r.backoff_secs == INITIAL_BACKOFF_SECS,
    {
        ListenerState { baseline: 0, backoff_secs: INITIAL_BACKOFF_SECS }
    }

    /// A watch cycle ended cleanly: adopt its final count as the new
    /// baseline and reset the backoff to its initial value.
    pub fn after_cycle_success(&mut self, new_count: u32)
        ensures
            final(self).wf(),
            final(self).baseline == new_count,
            final(self).backoff_secs == INITIAL_BACKOFF_SECS,
    {
        self.baseline = new_count;
        self.backoff_secs = INITIAL_BACKOFF_SECS;
    }

    /// A watch cycle failed: the caller sleeps for the returned delay
    /// (the current backoff), and consecutive failures double the
    /// delay up to the cap.
    pub fn after_cycle_failure(&mut self) -> (delay_secs: u64)
        requires
            old(self).wf(),
        ensures
            final(self).wf(),
            delay_secs == old(self).backoff_secs,
            final(self).backoff_secs as int == spec_next_backoff(old(self).backoff_secs as int),
            final(self).baseline == old(self).baseline,
    {
        let delay = self.backoff_secs;
        let doubled = self.backoff_secs * 2;
        self.backoff_secs = if doubled < MAX_BACKOFF_SECS {
            doubled
        } else {
            MAX_BACKOFF_SECS
        };
        delay
    }
}

/// The delay slept before reconnect attempt `k + 1`, counting
/// consecutive failures since the last success.
pub open spec fn spec_backoff_after(k: nat) -> int
    decreases k,
{
    if k == 0 {
        INITIAL_BACKOFF_SECS as int
    } else {
        spec_next_backoff(spec_backoff_after((k - 1) as nat))
    }
}

/// The backoff sequence is 2, 4, 8, 16, 32, 60, 60, …: doubling while
/// under the cap, then pinned to the cap, and never decreasing; a
/// success resets it to the initial delay (see `after_cycle_success`).
pub proof fn lemma_backoff_sequence(k: nat)
    ensures
        k < 5 ==> spec_backoff_after(k) == spec_pow2(k) * INITIAL_BACKOFF_SECS,
        k >= 5 ==> spec_backoff_after(k) == MAX_BACKOFF_SECS,
        spec_backoff_after(k) <= spec_backoff_after((k + 1) as nat),
        INITIAL_BACKOFF_SECS <= spec_backoff_after(k) <= MAX_BACKOFF_SECS,
    decreases k,
{
    assert(spec_pow2(0) == 1);
    assert(spec_pow2(1) == 2 * spec_pow2(0));
    assert(spec_pow2(2) == 2 * spec_pow2(1));
    assert(spec_pow2(3) == 2 * spec_pow2(2));
    assert(spec_pow2(4) == 2 * spec_pow2(3));
    if k == 0 {
        assert(spec_backoff_after(0) == 2);
    } else {
        lemma_backoff_sequence((k - 1) as nat);
    }
}

/// Powers of two.
pub open spec fn spec_pow2(k: nat) -> int
    decreases k,
{
    if k == 0 {
        1
    } else {
        2 * spec_pow2((k - 1) as nat)
    }
}

/// Whether a synchronization pass is in flight. The coordinator
/// consults it so at most one pass runs at a time, globally; the signal
/// channel itself enforces nothing.
pub struct SyncFlag {
    pub running: bool,
}

impl SyncFlag {
    pub fn new() -> (r: Self)
        ensures
            !r.running,
    {
        SyncFlag { running: false }
    }

    pub fn is_running(&self) -> (r: bool)
        ensures
            r == self.running,
    {
        self.running
    }

    /// Claims the pass. Returns whether this caller runs it: `false`
    /// means a pass is already in flight and the signal is ignored.
    pub fn try_begin(&mut self) -> (begun: bool)
        ensures
            final(self).running,
            begun == !old(self).running,
    {
        let begun = !self.running;
        self.running = true;
        begun
    }

    /// Releases the pass, whether it succeeded or failed.
    pub fn end(&mut self)
        ensures
            !final(self).running,
    {
        self.running = false;
    }
}

/// State of the background prefetch walker: a single-flight guard.
pub struct PrefetchState {
    pub running: bool,
}

impl PrefetchState {
    pub fn new() -> (r: Self)
        ensures
            !r.running,
    {
        PrefetchState { running: false }
    }

    /// Claims the single-flight guard. Returns whether this caller owns
    /// the prefetch run: `false` means one is already running and the
    /// caller must silently do nothing.
    pub fn try_begin(&mut self) -> (begun: bool)
        ensures
            final(self).running,
            begun == !old(self).running,
    {
        let begun = !self.running;
        self.running = true;
        begun
    }

    /// Releases the guard; called unconditionally on completion or
    /// failure, so a crashed run cannot lock prefetch out forever.
    pub fn end(&mut self)
        ensures
            !final(self).running,
    {
        self.running = false;
    }
}

/// Number of recent uncached messages one prefetch run warms.
pub const PREFETCH_BATCH: usize = 10;

/// Pause between prefetch fetches, in milliseconds.
pub const PREFETCH_DELAY_MS: u64 = 150;

} // verus!
