//! The LRU-K replacer: which unpinned frame to reuse next.

use vstd::prelude::*;
use std::collections::VecDeque;
use crate::buffer::replacer_model::{FrameHistory, ReplacerView};
use crate::common::FrameID;

verus! {

/// The access history of one frame and its evictability flag.
struct FrameEntry {
    history: VecDeque<u64>,
    evictable: bool,
}

/// The timestamps of a stored history as natural numbers.
spec fn timestamps(history: Seq<u64>) -> Seq<nat> {
    history.map_values(|t: u64| t as nat)
}

/// Tracks the access history of every frame and picks eviction victims by
/// backward k-distance. It knows frames by id only and never touches page
/// contents.
pub struct LRUKReplacer {
    entries: Vec<FrameEntry>,
    k: usize,
    current_timestamp: u64,
    curr_size: usize,
}

impl View for LRUKReplacer {
    type V = ReplacerView;

    closed spec fn view(&self) -> ReplacerView {
        ReplacerView {
            k: self.k as nat,
            clock: self.current_timestamp as nat,
            frames: Seq::new(
                self.entries.len() as nat,
                |f: int|
                    FrameHistory {
                        accesses: timestamps(self.entries[f].history@),
                        evictable: self.entries[f].evictable,
                    },
            ),
        }
    }
}

impl LRUKReplacer {
    /// The stored count of evictable frames is the true one.
    pub closed spec fn size_is_counted(&self) -> bool {
        self.curr_size == self@.size()
    }

    /// The replacer is in a consistent state: the model's invariant holds,
    /// every frame id fits a `FrameID`, the clock fits a `u64`, and the
    /// count of evictable frames is up to date.
    pub open spec fn wf(&self) -> bool {
        &&& self@.inv()
        &&& self@.frames.len() <= i32::MAX
        &&& self@.clock <= u64::MAX
        &&& self.size_is_counted()
    }

    /// A replacer for the frames `0..num_frames` with history depth `k`.
    pub fn new(num_frames: usize, k: usize) -> (replacer: LRUKReplacer)
        requires
            k >= 1,
            num_frames <= i32::MAX,
        ensures
            replacer.wf(),
            replacer@ == ReplacerView::new(num_frames as nat, k as nat),
    {
        let mut entries: Vec<FrameEntry> = Vec::new();
        let mut i: usize = 0;
        while i < num_frames
            invariant
                i <= num_frames,
                entries.len() == i,
                forall|f: int|
                    0 <= f < i ==> (#[trigger] entries[f]).history@.len() == 0
                        && !entries[f].evictable,
            decreases num_frames - i,
        {
            entries.push(FrameEntry { history: VecDeque::new(), evictable: false });
            i += 1;
        }
        let replacer = LRUKReplacer { entries, k, current_timestamp: 0, curr_size: 0 };
        proof {
            let model = ReplacerView::new(num_frames as nat, k as nat);
            assert forall|f: int| 0 <= f < num_frames implies #[trigger] replacer@.frames[f]
                == model.frames[f] by {
                assert(replacer.entries[f].history@.len() == 0);
                assert(timestamps(replacer.entries[f].history@) =~= Seq::<nat>::empty());
            }
            assert(replacer@.frames =~= model.frames);
            model.lemma_size_zero();
            assert(!model.has_victim());
        }
        replacer
    }

    /// Records an access to `frame_id` at the current logical time.
    pub fn record_access(&mut self, frame_id: FrameID)
        requires
            old(self).wf(),
            old(self)@.tracks(frame_id as int),
            old(self)@.clock < u64::MAX,
        ensures
            final(self).wf(),
            final(self)@ == old(self)@.record_access(frame_id as int),
    {
        let f = frame_id as usize;
        let now = self.current_timestamp;
        proof {
            assert(old(self)@.frames[f as int].accesses.len() <= old(self)@.k);
        }
        self.entries[f].history.push_back(now);
        if self.entries[f].history.len() > self.k {
            self.entries[f].history.pop_front();
        }
        self.current_timestamp = now + 1;
        proof {
            let before = old(self)@;
            let after = before.record_access(f as int);
            let all = before.frames[f as int].accesses.push(before.clock);
            assert(timestamps(old(self).entries[f as int].history@.push(now)) =~= all);
            assert(timestamps(self.entries[f as int].history@) =~= after.frames[f as int].accesses);
            assert(self@.frames =~= after.frames);
            before.lemma_inv_preserved(f as int, true);
            before.lemma_size_change(self@, f as int);
        }
    }

    /// Marks whether `frame_id` takes part in victim selection. Marking a
    /// frame the way it is already marked changes nothing.
    pub fn set_evictable(&mut self, frame_id: FrameID, evictable: bool)
        requires
            old(self).wf(),
            old(self)@.tracks(frame_id as int),
        ensures
            final(self).wf(),
            final(self)@ == old(self)@.set_evictable(frame_id as int, evictable),
    {
        let f = frame_id as usize;
        let was = self.entries[f].evictable;
        self.entries[f].evictable = evictable;
        proof {
            let before = old(self)@;
            assert(self@.frames =~= before.set_evictable(f as int, evictable).frames);
            before.lemma_inv_preserved(f as int, evictable);
            before.lemma_size_change(self@, f as int);
            self@.lemma_size_bounded();
        }
        if was && !evictable {
            self.curr_size = self.curr_size - 1;
        } else if !was && evictable {
            self.curr_size = self.curr_size + 1;
        }
    }

    /// Whether frame `f` is to be evicted before frame `g`.
    fn goes_before(&self, f: usize, g: usize) -> (before: bool)
        requires
            self.wf(),
            self@.tracks(f as int),
            self@.tracks(g as int),
        ensures
            before == self@.prefers(f as int, g as int),
    {
        let len_f = self.entries[f].history.len();
        let len_g = self.entries[g].history.len();
        proof {
            assert(self@.frames[f as int].accesses.len() == len_f);
            assert(self@.frames[g as int].accesses.len() == len_g);
        }
        if len_f < self.k {
            if len_g < self.k {
                if len_f == 0 {
                    len_g != 0 || f < g
                } else if len_g == 0 {
                    false
                } else {
                    let first_f = self.entries[f].history[0];
                    let first_g = self.entries[g].history[0];
                    first_f < first_g || (first_f == first_g && f < g)
                }
            } else {
                true
            }
        } else if len_g < self.k {
            false
        } else {
            let kth_f = self.entries[f].history[len_f - self.k];
            let kth_g = self.entries[g].history[len_g - self.k];
            kth_f < kth_g || (kth_f == kth_g && f < g)
        }
    }

    /// Picks the victim among the evictable frames, forgets its history and
    /// marks it non-evictable. Returns false, and leaves `frame_id` and the
    /// replacer as they are, if no frame is evictable.
    pub fn evict(&mut self, frame_id: &mut FrameID) -> (evicted: bool)
        requires
            old(self).wf(),
        ensures
            final(self).wf(),
            evicted == old(self)@.has_victim(),
            evicted ==> {
                &&& *final(frame_id) == old(self)@.victim()
                &&& old(self)@.is_victim(*final(frame_id) as int)
                &&& final(self)@ == old(self)@.evict()
            },
            !evicted ==> {
                &&& *final(frame_id) == *old(frame_id)
                &&& final(self)@ == old(self)@
            },
    {
        let n = self.entries.len();
        let mut best: usize = 0;
        let mut found = false;
        let mut i: usize = 0;
        while i < n
            invariant
                i <= n,
                n == self.entries.len(),
                self.wf(),
                n == self@.frames.len(),
                found ==> best < i && self@.is_candidate(best as int),
                found ==> forall|g: int|
                    0 <= g < i && #[trigger] self@.is_candidate(g) && g != best
                        ==> self@.prefers(best as int, g),
                !found ==> forall|g: int| 0 <= g < i ==> !#[trigger] self@.is_candidate(g),
            decreases n - i,
        {
            if self.entries[i].evictable {
                if !found {
                    best = i;
                    found = true;
                } else {
                    let earlier = best;
                    if self.goes_before(i, earlier) {
                        proof {
                            assert forall|g: int|
                                0 <= g < i + 1 && #[trigger] self@.is_candidate(g) && g
                                    != i implies self@.prefers(i as int, g) by {
                                if g != earlier {
                                    self@.lemma_prefers_transitive(i as int, earlier as int, g);
                                }
                            }
                        }
                        best = i;
                    } else {
                        proof {
                            self@.lemma_prefers_total(i as int, earlier as int);
                        }
                    }
                }
            }
            i += 1;
        }
        if found {
            proof {
                assert(self@.is_victim(best as int));
                self@.lemma_victim();
            }
            self.entries[best].history.clear();
            self.entries[best].evictable = false;
            proof {
                let before = old(self)@;
                assert(timestamps(self.entries[best as int].history@) =~= Seq::<nat>::empty());
                assert(self@.frames =~= before.remove(best as int).frames);
                before.lemma_inv_preserved(best as int, false);
                before.lemma_size_change(self@, best as int);
            }
            self.curr_size = self.curr_size - 1;
            *frame_id = best as FrameID;
            true
        } else {
            false
        }
    }

    /// Erases what is known of `frame_id`: its history and its flag.
    pub fn remove(&mut self, frame_id: FrameID)
        requires
            old(self).wf(),
            old(self)@.tracks(frame_id as int),
        ensures
            final(self).wf(),
            final(self)@ == old(self)@.remove(frame_id as int),
    {
        let f = frame_id as usize;
        let was = self.entries[f].evictable;
        self.entries[f].history.clear();
        self.entries[f].evictable = false;
        proof {
            let before = old(self)@;
            assert(timestamps(self.entries[f as int].history@) =~= Seq::<nat>::empty());
            assert(self@.frames =~= before.remove(f as int).frames);
            before.lemma_inv_preserved(f as int, false);
            before.lemma_size_change(self@, f as int);
        }
        if was {
            self.curr_size = self.curr_size - 1;
        }
    }

    /// The number of evictable frames.
    pub fn size(&self) -> (count: usize)
        requires
            self.wf(),
        ensures
            count == self@.size(),
    {
        self.curr_size
    }

    /// The logical time that the next access will be stamped with.
    pub fn current_timestamp(&self) -> (now: u64)
        requires
            self.wf(),
        ensures
            now == self@.clock,
    {
        self.current_timestamp
    }

    /// The number of frames that the replacer knows.
    pub fn capacity(&self) -> (frames: usize)
        requires
            self.wf(),
        ensures
            frames == self@.frames.len(),
    {
        self.entries.len()
    }
}

} // verus!
