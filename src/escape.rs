use vstd::prelude::*;

use crate::{ITER_LIMIT, NUM_LANES};

verus! {

/// Number of masks among the first `k` of `masks` in which lane `lane` is set.
pub open spec fn lane_hits_upto(masks: Seq<Seq<bool>>, lane: int, k: int) -> nat
    decreases k,
{
    if k <= 0 {
        0
    } else {
        lane_hits_upto(masks, lane, k - 1) + if masks[k - 1][lane] {
            1nat
        } else {
            0nat
        }
    }
}

/// Number of masks of `masks` in which lane `lane` is set.
pub open spec fn lane_hits(masks: Seq<Seq<bool>>, lane: int) -> nat {
    lane_hits_upto(masks, lane, masks.len() as int)
}

/// A mask in which some lane is still set.
pub open spec fn any_active(mask: Seq<bool>) -> bool {
    exists|i: int| 0 <= i < mask.len() && mask[i]
}

/// Escape-time counter for one group of `NUM_LANES` pixels.
///
/// The caller iterates `z <- z^2 + c` on every lane and, before each step, hands
/// in the mask of lanes whose `|z|^2` is still within the threshold. The counter
/// adds one to every lane of the mask and tells the caller whether to go on: it
/// stops when no lane is active any more, or when `limit` masks were counted.
pub struct LaneCounter {
    counts: Vec<u32>,
    steps: u32,
    limit: u32,
    done: bool,
    all_escaped: bool,
    history: Ghost<Seq<Seq<bool>>>,
}

impl LaneCounter {
    /// Every mask handed in so far, the last one included when it stopped the counter.
    pub closed spec fn history(&self) -> Seq<Seq<bool>> {
        self.history@
    }

    /// The per-lane counts.
    pub closed spec fn counts_view(&self) -> Seq<u32> {
        self.counts@
    }

    /// Number of masks that were counted.
    pub closed spec fn steps_view(&self) -> nat {
        self.steps as nat
    }

    /// The iteration ceiling the counter was made with.
    pub closed spec fn limit_view(&self) -> nat {
        self.limit as nat
    }

    /// Whether the counter asks for no more masks.
    pub closed spec fn is_done(&self) -> bool {
        self.done
    }

    /// Whether the counter stopped because a mask had no lane set.
    pub closed spec fn stopped_by_escape(&self) -> bool {
        self.all_escaped
    }

    pub closed spec fn wf(&self) -> bool {
        &&& self.counts@.len() == NUM_LANES
        &&& self.steps <= self.limit
        &&& forall|k: int| 0 <= k < self.history@.len() ==> #[trigger] self.history@[k].len() == NUM_LANES
        &&& forall|i: int| 0 <= i < NUM_LANES ==> #[trigger] self.counts@[i] as nat == lane_hits(self.history@, i)
        &&& if self.all_escaped {
            &&& self.history@.len() == self.steps + 1
            &&& !any_active(self.history@.last())
        } else {
            self.history@.len() == self.steps
        }
        &&& self.done == (self.all_escaped || self.steps == self.limit)
    }

    /// A counter with every lane at zero, which counts up to `limit` masks.
    pub fn with_limit(limit: u32) -> (r: LaneCounter)
        ensures
            r.wf(),
            r.history() == Seq::<Seq<bool>>::empty(),
            r.counts_view() == Seq::new(NUM_LANES as nat, |i: int| 0u32),
            r.steps_view() == 0,
            r.limit_view() == limit,
            r.is_done() == (limit == 0),
            !r.stopped_by_escape(),
    {
        let counts: Vec<u32> = vec![0u32; NUM_LANES];
        let r = LaneCounter {
            counts,
            steps: 0,
            limit,
            done: limit == 0,
            all_escaped: false,
            history: Ghost(Seq::empty()),
        };
        assert(r.counts@ =~= Seq::new(NUM_LANES as nat, |i: int| 0u32));
        r
    }

    /// A counter with every lane at zero, which counts up to `ITER_LIMIT` masks.
    pub fn new() -> (r: LaneCounter)
        ensures
            r.wf(),
            r.history() == Seq::<Seq<bool>>::empty(),
            r.counts_view() == Seq::new(NUM_LANES as nat, |i: int| 0u32),
            r.steps_view() == 0,
            r.limit_view() == ITER_LIMIT,
            !r.is_done(),
            !r.stopped_by_escape(),
    {
        LaneCounter::with_limit(ITER_LIMIT)
    }

    /// Hands in the mask of lanes still within the threshold; returns whether
    /// the caller should take one more step and hand in the next mask.
    pub fn record(&mut self, mask: &[bool]) -> (go_on: bool)
        requires
            old(self).wf(),
            !old(self).is_done(),
            mask@.len() == NUM_LANES,
        ensures
            final(self).wf(),
            final(self).history() == old(self).history().push(mask@),
            final(self).limit_view() == old(self).limit_view(),
            any_active(mask@) ==> {
                &&& final(self).steps_view() == old(self).steps_view() + 1
                &&& forall|i: int| 0 <= i < NUM_LANES ==>
                    #[trigger] final(self).counts_view()[i] == old(self).counts_view()[i] + if mask@[i] { 1int } else { 0int }
                &&& !final(self).stopped_by_escape()
            },
            !any_active(mask@) ==> {
                &&& final(self).steps_view() == old(self).steps_view()
                &&& final(self).counts_view() == old(self).counts_view()
                &&& final(self).stopped_by_escape()
            },
            final(self).is_done() == (!any_active(mask@) || final(self).steps_view() == final(self).limit_view()),
            go_on == !final(self).is_done(),
    {
        let ghost old_hist = self.history@;
        let mut active = false;
        let mut j: usize = 0;
        while j < NUM_LANES
            invariant
                mask@.len() == NUM_LANES,
                0 <= j <= NUM_LANES,
                active == exists|i: int| 0 <= i < j && mask@[i],
            decreases NUM_LANES - j,
        {
            if mask[j] {
                active = true;
            }
            j += 1;
        }
        let ghost new_hist = old_hist.push(mask@);
        assert forall|i: int| 0 <= i < NUM_LANES implies lane_hits(new_hist, i) == lane_hits(old_hist, i)
            + if mask@[i] { 1nat } else { 0nat } by {
            assert(new_hist[new_hist.len() - 1] == mask@);
            lemma_hits_prefix(new_hist, old_hist, i, old_hist.len() as int);
        }
        self.history = Ghost(new_hist);
        if !active {
            self.all_escaped = true;
            self.done = true;
            return false;
        }
        let mut i: usize = 0;
        while i < NUM_LANES
            invariant
                old(self).wf(),
                !old(self).is_done(),
                mask@.len() == NUM_LANES,
                0 <= i <= NUM_LANES,
                self.counts@.len() == NUM_LANES,
                self.steps == old(self).steps,
                self.limit == old(self).limit,
                self.done == old(self).done,
                self.all_escaped == old(self).all_escaped,
                self.history@ == old(self).history@.push(mask@),
                forall|k: int| 0 <= k < i ==>
                    #[trigger] self.counts@[k] == old(self).counts@[k] + if mask@[k] { 1int } else { 0int },
                forall|k: int| i <= k < NUM_LANES ==> #[trigger] self.counts@[k] == old(self).counts@[k],
            decreases NUM_LANES - i,
        {
            if mask[i] {
                proof {
                    assert(self.counts@[i as int] as nat == lane_hits(old(self).history@, i as int));
                    lemma_hits_le_len(old(self).history@, i as int, old(self).history@.len() as int);
                }
                let c = self.counts[i];
                self.counts.set(i, c + 1);
            }
            i += 1;
        }
        self.steps = self.steps + 1;
        self.done = self.steps == self.limit;
        !self.done
    }

    /// The per-lane counts.
    pub fn counts(&self) -> (r: &Vec<u32>)
        requires
            self.wf(),
        ensures
            r@ == self.counts_view(),
            r@.len() == NUM_LANES,
    {
        &self.counts
    }

    /// The iteration ceiling the counter was made with.
    pub fn limit(&self) -> (r: u32)
        ensures
            r == self.limit_view(),
    {
        self.limit
    }

    /// Whether the counter asks for no more masks.
    pub fn finished(&self) -> (r: bool)
        requires
            self.wf(),
        ensures
            r == self.is_done(),
    {
        self.done
    }

    /// The count of every lane is the number of masks handed in with that lane
    /// set, and it never exceeds the ceiling.
    pub proof fn lemma_counts_bounded(&self, lane: int)
        requires
            self.wf(),
            0 <= lane < NUM_LANES,
        ensures
            self.counts_view()[lane] as nat == lane_hits(self.history(), lane),
            self.counts_view()[lane] <= self.steps_view() <= self.limit_view(),
    {
        lemma_hits_le_len(self.history@, lane, self.history@.len() as int);
        if self.all_escaped {
            let h = self.history@;
            let last = h.len() - 1;
            assert(!h[last][lane]) by {
                if h[last][lane] {
                    assert(any_active(h.last()));
                }
            }
            lemma_hits_le_len(h, lane, last);
        }
    }

    /// A lane that was active in every mask handed in to a finished counter ends
    /// at the ceiling: a point that never leaves the threshold is counted as in
    /// the set.
    pub proof fn lemma_bounded_lane_reaches_limit(&self, lane: int)
        requires
            self.wf(),
            self.is_done(),
            0 <= lane < NUM_LANES,
            forall|k: int| 0 <= k < self.history().len() ==> #[trigger] self.history()[k][lane],
        ensures
            self.counts_view()[lane] == self.limit_view(),
    {
        let h = self.history();
        if self.all_escaped {
            assert(h[h.len() - 1][lane]);
            assert(any_active(h.last()));
        }
        lemma_hits_all(h, lane, h.len() as int);
    }
}

proof fn lemma_hits_le_len(masks: Seq<Seq<bool>>, lane: int, k: int)
    ensures
        lane_hits_upto(masks, lane, k) <= if k < 0 { 0 } else { k },
    decreases k,
{
    if k > 0 {
        lemma_hits_le_len(masks, lane, k - 1);
    }
}

proof fn lemma_hits_all(masks: Seq<Seq<bool>>, lane: int, k: int)
    requires
        0 <= k <= masks.len(),
        forall|j: int| 0 <= j < masks.len() ==> #[trigger] masks[j][lane],
    ensures
        lane_hits_upto(masks, lane, k) == k,
    decreases k,
{
    if k > 0 {
        lemma_hits_all(masks, lane, k - 1);
    }
}

proof fn lemma_hits_prefix(longer: Seq<Seq<bool>>, shorter: Seq<Seq<bool>>, lane: int, k: int)
    requires
        0 <= k <= shorter.len() <= longer.len(),
        forall|j: int| 0 <= j < shorter.len() ==> longer[j] == shorter[j],
    ensures
        lane_hits_upto(longer, lane, k) == lane_hits_upto(shorter, lane, k),
    decreases k,
{
    if k > 0 {
        lemma_hits_prefix(longer, shorter, lane, k - 1);
    }
}

} // verus!
