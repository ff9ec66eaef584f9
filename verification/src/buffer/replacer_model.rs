//! The mathematical model of the LRU-K replacement policy.
//!
//! The replacer keeps, for every frame, the timestamps of its most recent
//! accesses and a flag saying whether the frame may be evicted. The victim is
//! the evictable frame whose K-th most recent access lies furthest in the
//! past; a frame with fewer than K accesses counts as infinitely far.

use vstd::prelude::*;
use vstd::set_lib::{lemma_int_range, lemma_len_subset, set_int_range};

verus! {

/// What the replacer remembers of one frame.
pub struct FrameHistory {
    /// Timestamps of the most recent accesses, at most K of them, oldest
    /// first.
    pub accesses: Seq<nat>,
    /// Whether the frame takes part in victim selection.
    pub evictable: bool,
}

impl FrameHistory {
    /// A frame of which nothing is remembered.
    pub open spec fn untracked() -> FrameHistory {
        FrameHistory { accesses: Seq::empty(), evictable: false }
    }
}

/// The state of an LRU-K replacer.
pub struct ReplacerView {
    /// The history depth K.
    pub k: nat,
    /// The timestamp the next access will get.
    pub clock: nat,
    /// One history per frame, indexed by frame id.
    pub frames: Seq<FrameHistory>,
}

impl ReplacerView {
    /// A replacer for `num_frames` frames that has seen no access.
    pub open spec fn new(num_frames: nat, k: nat) -> ReplacerView {
        ReplacerView {
            k,
            clock: 0,
            frames: Seq::new(num_frames, |f: int| FrameHistory::untracked()),
        }
    }

    /// K is positive and no history holds more than K timestamps.
    pub open spec fn inv(self) -> bool {
        &&& self.k >= 1
        &&& forall|f: int|
            0 <= f < self.frames.len() ==> (#[trigger] self.frames[f]).accesses.len() <= self.k
    }

    /// Whether `f` is the id of a frame of this replacer.
    pub open spec fn tracks(self, f: int) -> bool {
        0 <= f < self.frames.len()
    }

    /// The time since the K-th most recent access of frame `f`, or `None`
    /// (infinite) if the frame has fewer than K recorded accesses.
    pub open spec fn backward_k_distance(self, f: int) -> Option<int> {
        let accesses = self.frames[f].accesses;
        if accesses.len() < self.k {
            None
        } else {
            Some(self.clock - accesses[accesses.len() - self.k])
        }
    }

    /// The timestamp of the oldest recorded access of frame `f`, or -1 if
    /// none is recorded.
    pub open spec fn earliest_access(self, f: int) -> int {
        let accesses = self.frames[f].accesses;
        if accesses.len() == 0 {
            -1
        } else {
            accesses[0] as int
        }
    }

    /// Whether frame `f` is to be evicted before frame `g`.
    ///
    /// An infinite backward k-distance beats a finite one. Two infinite
    /// ones are ordered by the earliest access, two finite ones by the
    /// larger distance, and what is still tied by the lower frame id.
    pub open spec fn prefers(self, f: int, g: int) -> bool {
        match (self.backward_k_distance(f), self.backward_k_distance(g)) {
            (None, Some(_)) => true,
            (Some(_), None) => false,
            (None, None) => {
                ||| self.earliest_access(f) < self.earliest_access(g)
                ||| (self.earliest_access(f) == self.earliest_access(g) && f < g)
            },
            (Some(df), Some(dg)) => df > dg || (df == dg && f < g),
        }
    }

    /// Whether frame `f` takes part in victim selection.
    pub open spec fn is_candidate(self, f: int) -> bool {
        self.tracks(f) && self.frames[f].evictable
    }

    /// Whether frame `f` is the one to evict: it is evictable and goes before
    /// every other evictable frame.
    pub open spec fn is_victim(self, f: int) -> bool {
        &&& self.is_candidate(f)
        &&& forall|g: int| #[trigger] self.is_candidate(g) && g != f ==> self.prefers(f, g)
    }

    /// Whether any frame is evictable.
    pub open spec fn has_victim(self) -> bool {
        exists|f: int| self.is_candidate(f)
    }

    /// The frame to evict. Meaningful only if `has_victim()`; see
    /// `lemma_victim`.
    pub open spec fn victim(self) -> int {
        choose|f: int| self.is_victim(f)
    }

    /// The ids of the evictable frames.
    pub open spec fn evictable_frames(self) -> Set<int> {
        Set::new(|f: int| self.is_candidate(f))
    }

    /// The number of evictable frames.
    pub open spec fn size(self) -> nat {
        self.evictable_frames().len()
    }

    /// The state after an access to frame `f` at the current time: the
    /// timestamp joins the frame's history, which keeps its K most recent
    /// entries, and the clock ticks.
    pub open spec fn record_access(self, f: int) -> ReplacerView {
        let all = self.frames[f].accesses.push(self.clock);
        let kept = if all.len() > self.k {
            all.subrange(all.len() - self.k, all.len() as int)
        } else {
            all
        };
        ReplacerView {
            clock: self.clock + 1,
            frames: self.frames.update(
                f,
                FrameHistory { accesses: kept, evictable: self.frames[f].evictable },
            ),
            ..self
        }
    }

    /// The state after frame `f` was marked evictable or not.
    pub open spec fn set_evictable(self, f: int, evictable: bool) -> ReplacerView {
        ReplacerView {
            frames: self.frames.update(
                f,
                FrameHistory { accesses: self.frames[f].accesses, evictable },
            ),
            ..self
        }
    }

    /// The state after everything known of frame `f` was erased.
    pub open spec fn remove(self, f: int) -> ReplacerView {
        ReplacerView { frames: self.frames.update(f, FrameHistory::untracked()), ..self }
    }

    /// The state after the victim was evicted: its history is cleared and it
    /// is no longer evictable.
    pub open spec fn evict(self) -> ReplacerView {
        self.remove(self.victim())
    }

    /// Of two different frames, one goes before the other.
    pub proof fn lemma_prefers_total(self, f: int, g: int)
        requires
            f != g,
        ensures
            self.prefers(f, g) || self.prefers(g, f),
            !(self.prefers(f, g) && self.prefers(g, f)),
    {
    }

    /// The eviction order is transitive.
    pub proof fn lemma_prefers_transitive(self, f: int, g: int, h: int)
        requires
            self.prefers(f, g),
            self.prefers(g, h),
        ensures
            self.prefers(f, h),
    {
    }

    /// Among the evictable frames below `n`, one goes before all others.
    proof fn first_below(self, n: int) -> (best: int)
        requires
            0 <= n <= self.frames.len(),
            exists|f: int| 0 <= f < n && self.is_candidate(f),
        ensures
            0 <= best < n,
            self.is_candidate(best),
            forall|g: int|
                0 <= g < n && #[trigger] self.is_candidate(g) && g != best ==> self.prefers(
                    best,
                    g,
                ),
        decreases n,
    {
        let last = n - 1;
        if exists|f: int| 0 <= f < last && self.is_candidate(f) {
            let earlier = self.first_below(last);
            if self.is_candidate(last) && self.prefers(last, earlier) {
                assert forall|g: int|
                    0 <= g < n && #[trigger] self.is_candidate(g) && g != last implies self.prefers(
                    last,
                    g,
                ) by {
                    if g != earlier {
                        self.lemma_prefers_transitive(last, earlier, g);
                    }
                }
                last
            } else {
                if self.is_candidate(last) {
                    self.lemma_prefers_total(last, earlier);
                }
                earlier
            }
        } else {
            last
        }
    }

    /// Victim selection is deterministic: whenever a frame is evictable,
    /// `victim()` is the one frame that `is_victim` describes.
    pub proof fn lemma_victim(self)
        requires
            self.has_victim(),
        ensures
            self.is_victim(self.victim()),
            forall|f: int| self.is_victim(f) ==> f == self.victim(),
    {
        let some = choose|f: int| self.is_candidate(f);
        assert(0 <= some < self.frames.len() && self.is_candidate(some));
        let best = self.first_below(self.frames.len() as int);
        assert(self.is_victim(best));
        assert forall|f: int| self.is_victim(f) implies f == self.victim() by {
            if f != self.victim() {
                self.lemma_prefers_total(f, self.victim());
            }
        }
    }

    /// How the victim compares with any other evictable frame `g`: if `g`
    /// has fewer than K accesses, so has the victim, and the victim's
    /// earliest access is no later than that of `g`; if the victim has K
    /// accesses, so has `g`, and the victim's backward k-distance is no
    /// smaller.
    pub proof fn lemma_victim_order(self, g: int)
        requires
            self.is_candidate(g),
        ensures
            self.backward_k_distance(g) is None ==> {
                &&& self.backward_k_distance(self.victim()) is None
                &&& self.earliest_access(self.victim()) <= self.earliest_access(g)
            },
            self.backward_k_distance(self.victim()) is Some ==> {
                &&& self.backward_k_distance(g) is Some
                &&& self.backward_k_distance(self.victim())->0 >= self.backward_k_distance(g)->0
            },
    {
        self.lemma_victim();
    }

    /// The evictable frames are finitely many, no more than there are
    /// frames.
    pub proof fn lemma_size_bounded(self)
        ensures
            self.evictable_frames().finite(),
            self.size() <= self.frames.len(),
    {
        let all = set_int_range(0, self.frames.len() as int);
        lemma_int_range(0, self.frames.len() as int);
        assert(self.evictable_frames().subset_of(all));
        lemma_len_subset(self.evictable_frames(), all);
    }

    /// `size()` is zero exactly when no frame is evictable.
    pub proof fn lemma_size_zero(self)
        ensures
            self.size() == 0 <==> !self.has_victim(),
    {
        self.lemma_size_bounded();
        if self.has_victim() {
            let f = choose|f: int| self.is_candidate(f);
            assert(self.evictable_frames().contains(f));
        } else {
            assert(self.evictable_frames() =~= Set::empty());
        }
    }

    /// Changing the flag of one frame changes `size()` by at most one.
    pub proof fn lemma_size_change(self, after: ReplacerView, f: int)
        requires
            self.tracks(f),
            after.frames.len() == self.frames.len(),
            forall|g: int|
                self.tracks(g) && g != f ==> (#[trigger] after.frames[g]).evictable
                    == self.frames[g].evictable,
        ensures
            after.size() == self.size() + (if after.frames[f].evictable {
                1int
            } else {
                0int
            }) - (if self.frames[f].evictable {
                1int
            } else {
                0int
            }),
    {
        self.lemma_size_bounded();
        let before_set = self.evictable_frames();
        let after_set = after.evictable_frames();
        assert forall|g: int| g != f implies (before_set.contains(g) <==> after_set.contains(
            g,
        )) by {
            if self.tracks(g) {
                assert(after.frames[g].evictable == self.frames[g].evictable);
            }
        }
        if after.frames[f].evictable == self.frames[f].evictable {
            assert(after_set =~= before_set);
        } else if after.frames[f].evictable {
            assert(after_set =~= before_set.insert(f));
        } else {
            assert(after_set =~= before_set.remove(f));
        }
    }

    /// Every operation keeps the invariant.
    pub proof fn lemma_inv_preserved(self, f: int, evictable: bool)
        requires
            self.inv(),
            self.tracks(f),
        ensures
            self.record_access(f).inv(),
            self.set_evictable(f, evictable).inv(),
            self.remove(f).inv(),
            ReplacerView::new(self.frames.len(), self.k).inv(),
    {
        let accessed = self.record_access(f);
        assert forall|g: int| 0 <= g < accessed.frames.len() implies (
        #[trigger] accessed.frames[g]).accesses.len() <= accessed.k by {
            assert(self.frames[g].accesses.len() <= self.k);
        }
        let flagged = self.set_evictable(f, evictable);
        assert forall|g: int| 0 <= g < flagged.frames.len() implies (
        #[trigger] flagged.frames[g]).accesses.len() <= flagged.k by {
            assert(self.frames[g].accesses.len() <= self.k);
        }
        let removed = self.remove(f);
        assert forall|g: int| 0 <= g < removed.frames.len() implies (
        #[trigger] removed.frames[g]).accesses.len() <= removed.k by {
            assert(self.frames[g].accesses.len() <= self.k);
        }
    }
}

} // verus!
