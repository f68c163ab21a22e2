//! How often children are restarted.
//!
//! Where more than a set number of restarts fall within a window of time, the
//! intensity is exceeded and the supervisor gives up.

use crate::time::{Duration, Instant};
use std::collections::VecDeque;
use vstd::prelude::*;

verus! {

/// The restarts of the children of a supervisor.
#[derive(Debug, Clone)]
pub struct RestartIntensity {
    max_restarts: u32,
    window: Duration,
    timestamps: VecDeque<Instant>,
}

/// The start of the window that ends at `now`; `now` itself where it would
/// lie outside the clock.
pub open spec fn window_start(now: Instant, window: Duration) -> int {
    if now.nanos - window.total() >= i128::MIN {
        now.nanos - window.total()
    } else {
        now.nanos as int
    }
}

/// `times` without its leading points before `cutoff`.
pub open spec fn evicted(times: Seq<Instant>, cutoff: int) -> Seq<Instant>
    decreases times.len(),
{
    if times.len() > 0 && times[0].nanos < cutoff {
        evicted(times.drop_first(), cutoff)
    } else {
        times
    }
}

impl RestartIntensity {
    /// The restarts that are remembered, oldest first.
    pub closed spec fn times(self) -> Seq<Instant> {
        self.timestamps@
    }

    /// How many restarts are borne.
    pub closed spec fn limit(self) -> int {
        self.max_restarts as int
    }

    /// The span in which restarts count.
    pub closed spec fn span(self) -> Duration {
        self.window
    }

    /// Whether `post` is this intensity after a restart at `now`.
    pub open spec fn recorded(self, now: Instant, post: Self) -> bool {
        &&& post.limit() == self.limit()
        &&& post.span() == self.span()
        &&& post.times() == evicted(self.times().push(now), window_start(now, self.span()))
    }

    /// An intensity without restarts.
    pub fn new(max_restarts: u32, window: Duration) -> (r: Self)
        ensures
            r.limit() == max_restarts,
            r.span() == window,
            r.times() == Seq::<Instant>::empty(),
    {
        RestartIntensity { max_restarts, window, timestamps: VecDeque::new() }
    }

    /// Notes a restart at `now`, and says whether there are now too many.
    pub fn record_restart_at(&mut self, now: Instant) -> (r: bool)
        ensures
            old(self).recorded(now, *final(self)),
            r == (final(self).times().len() > final(self).limit()),
    {
        self.timestamps.push_back(now);
        let cutoff = match now.checked_sub(self.window) {
            Some(t) => t,
            None => now,
        };
        let ghost all = self.timestamps@;
        let ghost c = window_start(now, self.window);
        while self.timestamps.len() > 0 && self.timestamps[0].before(cutoff)
            invariant
                evicted(self.timestamps@, c) == evicted(all, c),
                cutoff.nanos == c,
                self.window == old(self).window,
                self.max_restarts == old(self).max_restarts,
            decreases self.timestamps@.len(),
        {
            let ghost before = self.timestamps@;
            let gone = self.timestamps.pop_front();
            assert(self.timestamps@ =~= before.drop_first());
        }
        self.timestamps.len() > self.max_restarts as usize
    }

    /// Forgets all restarts.
    pub fn reset(&mut self)
        ensures
            final(self).times() == Seq::<Instant>::empty(),
            final(self).limit() == old(self).limit(),
            final(self).span() == old(self).span(),
    {
        self.timestamps.clear();
    }

    /// How many restarts are remembered.
    pub fn current_count(&self) -> (r: usize)
        ensures
            r == self.times().len(),
    {
        self.timestamps.len()
    }
}

/// Where restarts are noted in the order of time, just those within the
/// window are remembered.
pub proof fn window_holds_recent_restarts(times: Seq<Instant>, cutoff: int)
    requires
        forall|i: int, j: int| 0 <= i <= j < times.len() ==> times[i].nanos <= times[j].nanos,
    ensures
        forall|i: int|
            0 <= i < evicted(times, cutoff).len() ==> #[trigger] evicted(times, cutoff)[i].nanos
                >= cutoff,
        exists|k: int|
            0 <= k <= times.len() && evicted(times, cutoff) == #[trigger] times.skip(k)
                && forall|i: int| 0 <= i < k ==> #[trigger] times[i].nanos < cutoff,
    decreases times.len(),
{
    if times.len() > 0 && times[0].nanos < cutoff {
        let rest = times.drop_first();
        window_holds_recent_restarts(rest, cutoff);
        let k = choose|k: int|
            0 <= k <= rest.len() && evicted(rest, cutoff) == #[trigger] rest.skip(k)
                && forall|i: int| 0 <= i < k ==> #[trigger] rest[i].nanos < cutoff;
        assert(rest.skip(k) == times.skip(k + 1));
        assert forall|i: int| 0 <= i < k + 1 implies #[trigger] times[i].nanos < cutoff by {
            if i > 0 {
                assert(rest[i - 1] == times[i]);
            }
        }
    } else {
        assert(times.skip(0) == times);
        assert forall|i: int| 0 <= i < times.len() implies #[trigger] times[i].nanos >= cutoff by {
            assert(times[0].nanos <= times[i].nanos);
        }
    }
}

/// Whether the first `k` of the restarts lie further back from `now` than the
/// window reaches, and the next one does not.
pub open spec fn first_in_window(i: RestartIntensity, now: Instant, k: int) -> bool {
    &&& now.nanos - i.span().total() >= i128::MIN
    &&& 0 <= k <= i.times().len()
    &&& forall|j: int| 0 <= j < k ==> now.nanos - (#[trigger] i.times()[j]).nanos > i.span().total()
    &&& k < i.times().len() ==> now.nanos - i.times()[k].nanos <= i.span().total()
}

/// After a restart the one just noted comes last. Those that the window no
/// longer reaches are forgotten, and the others are kept.
pub proof fn restart_is_remembered_for_the_window(
    pre: RestartIntensity,
    now: Instant,
    post: RestartIntensity,
    k: int,
)
    requires
        pre.recorded(now, post),
        first_in_window(pre, now, k),
    ensures
        post.limit() == pre.limit(),
        post.span() == pre.span(),
        post.times() == pre.times().skip(k).push(now),
{
    lemma_evicted(pre.times().push(now), now.nanos - pre.span().total(), k);
    assert(pre.times().push(now).skip(k) =~= pre.times().skip(k).push(now));
}

proof fn lemma_evicted(times: Seq<Instant>, cutoff: int, k: int)
    requires
        0 <= k < times.len(),
        forall|j: int| 0 <= j < k ==> (#[trigger] times[j]).nanos < cutoff,
        times[k].nanos >= cutoff,
    ensures
        evicted(times, cutoff) == times.skip(k),
    decreases k,
{
    if k > 0 {
        let rest = times.drop_first();
        assert forall|j: int| 0 <= j < k - 1 implies (#[trigger] rest[j]).nanos < cutoff by {
            assert(rest[j] == times[j + 1]);
        }
        assert(times[0].nanos < cutoff);
        lemma_evicted(rest, cutoff, k - 1);
        assert(rest.skip(k - 1) =~= times.skip(k));
    } else {
        assert(times.skip(0) =~= times);
    }
}

} // verus!
