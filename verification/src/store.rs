//! The region store: residency and lifecycle of generated regions.
//!
//! Each region coordinate is in exactly one of three states: Active
//! (resident and visible), Cached (resident, not visible), or Unloaded
//! (not tracked). The store owns the two resident partitions and the
//! transitions between them; a coordinate never appears in both.

use crate::coords::{spec_within, within, RegionCoord};
use crate::region::Region;
use crate::surface::SurfaceBatch;
use vstd::prelude::*;

verus! {

broadcast use vstd::seq_lib::lemma_seq_contains_after_push;

/// A resident region: its generated grid together with its extracted
/// geometry. Both exist before a coordinate becomes Active, and both are
/// kept while it is Cached, so reactivation needs no regeneration.
#[derive(Debug)]
pub struct Resident {
    pub region: Region,
    pub batch: SurfaceBatch,
}

/// Whether some entry of `s` carries coordinate `c`.
pub open spec fn seq_has(s: Seq<(RegionCoord, Resident)>, c: RegionCoord) -> bool {
    exists|i: int| 0 <= i < s.len() && (#[trigger] s[i]).0 == c
}

/// No coordinate appears twice in `s`.
pub open spec fn seq_nodup(s: Seq<(RegionCoord, Resident)>) -> bool {
    forall|i: int, j: int| 0 <= i < j < s.len() ==> (#[trigger] s[i]).0 != (#[trigger] s[j]).0
}

/// No coordinate appears in both `s1` and `s2`.
pub open spec fn seq_disjoint(
    s1: Seq<(RegionCoord, Resident)>,
    s2: Seq<(RegionCoord, Resident)>,
) -> bool {
    forall|i: int, j: int|
        0 <= i < s1.len() && 0 <= j < s2.len() ==> (#[trigger] s1[i]).0 != (#[trigger] s2[j]).0
}

/// The map a coordinate-keyed entry sequence denotes.
pub open spec fn seq_to_map(s: Seq<(RegionCoord, Resident)>) -> Map<RegionCoord, Resident>
    decreases s.len(),
{
    if s.len() == 0 {
        Map::empty()
    } else {
        seq_to_map(s.drop_last()).insert(s.last().0, s.last().1)
    }
}

proof fn lemma_s2m_has(s: Seq<(RegionCoord, Resident)>, c: RegionCoord)
    ensures
        seq_to_map(s).dom().contains(c) <==> seq_has(s, c),
    decreases s.len(),
{
    if s.len() > 0 {
        lemma_s2m_has(s.drop_last(), c);
        if seq_has(s, c) {
            let i = choose|i: int| 0 <= i < s.len() && (#[trigger] s[i]).0 == c;
            if i < s.len() - 1 {
                assert(s.drop_last()[i].0 == c);
                assert(seq_has(s.drop_last(), c));
            }
        }
        if seq_to_map(s).dom().contains(c) && c != s.last().0 {
            let i = choose|i: int|
                0 <= i < s.drop_last().len() && (#[trigger] s.drop_last()[i]).0 == c;
            assert(s[i].0 == c);
        }
    }
}

proof fn lemma_s2m_get(s: Seq<(RegionCoord, Resident)>, i: int)
    requires
        seq_nodup(s),
        0 <= i < s.len(),
    ensures
        seq_to_map(s).dom().contains(s[i].0),
        seq_to_map(s)[s[i].0] == s[i].1,
    decreases s.len(),
{
    if i < s.len() - 1 {
        assert(seq_nodup(s.drop_last())) by {
            assert forall|k: int, l: int|
                0 <= k < l < s.drop_last().len() implies (#[trigger] s.drop_last()[k]).0 != (
            #[trigger] s.drop_last()[l]).0 by {
                assert(s[k] == s.drop_last()[k]);
                assert(s[l] == s.drop_last()[l]);
            }
        }
        lemma_s2m_get(s.drop_last(), i);
        assert(s.drop_last()[i] == s[i]);
        assert(s[i].0 != s.last().0);
    }
}

proof fn lemma_s2m_push(s: Seq<(RegionCoord, Resident)>, e: (RegionCoord, Resident))
    ensures
        seq_to_map(s.push(e)) == seq_to_map(s).insert(e.0, e.1),
{
    assert(s.push(e).drop_last() =~= s);
    assert(s.push(e).last() == e);
}

proof fn lemma_nodup_drop_last(s: Seq<(RegionCoord, Resident)>)
    requires
        seq_nodup(s),
        s.len() > 0,
    ensures
        seq_nodup(s.drop_last()),
{
    assert forall|k: int, l: int|
        0 <= k < l < s.drop_last().len() implies (#[trigger] s.drop_last()[k]).0 != (
    #[trigger] s.drop_last()[l]).0 by {
        assert(s[k] == s.drop_last()[k]);
        assert(s[l] == s.drop_last()[l]);
    }
}

proof fn lemma_s2m_remove(s: Seq<(RegionCoord, Resident)>, i: int)
    requires
        seq_nodup(s),
        0 <= i < s.len(),
    ensures
        seq_to_map(s.remove(i)) == seq_to_map(s).remove(s[i].0),
    decreases s.len(),
{
    let c = s[i].0;
    if i == s.len() - 1 {
        assert(s.remove(i) =~= s.drop_last());
        lemma_s2m_has(s.drop_last(), c);
        assert(!seq_has(s.drop_last(), c)) by {
            if seq_has(s.drop_last(), c) {
                let k = choose|k: int|
                    0 <= k < s.drop_last().len() && (#[trigger] s.drop_last()[k]).0 == c;
                assert(s[k].0 == c);
            }
        }
        assert(seq_to_map(s.drop_last()).insert(c, s[i].1).remove(c) =~= seq_to_map(
            s.drop_last(),
        ));
    } else {
        lemma_nodup_drop_last(s);
        lemma_s2m_remove(s.drop_last(), i);
        assert(s.drop_last()[i] == s[i]);
        assert(s.remove(i).drop_last() =~= s.drop_last().remove(i));
        assert(s.remove(i).last() == s.last());
        assert(c != s.last().0);
        assert(seq_to_map(s.drop_last()).remove(c).insert(s.last().0, s.last().1) =~= seq_to_map(
            s.drop_last(),
        ).insert(s.last().0, s.last().1).remove(c));
    }
}

/// The store of resident regions: the Active and Cached partitions, each
/// keyed by region coordinate. Coordinates in neither partition are
/// Unloaded; nothing is tracked for them.
pub struct RegionStore {
    active: Vec<(RegionCoord, Resident)>,
    cached: Vec<(RegionCoord, Resident)>,
}

impl RegionStore {
    /// The Active partition as a map from coordinate to resident region.
    pub closed spec fn active_map(self) -> Map<RegionCoord, Resident> {
        seq_to_map(self.active@)
    }

    /// The Cached partition as a map from coordinate to resident region.
    pub closed spec fn cached_map(self) -> Map<RegionCoord, Resident> {
        seq_to_map(self.cached@)
    }

    /// `c` is Active.
    pub open spec fn active_has(self, c: RegionCoord) -> bool {
        self.active_map().dom().contains(c)
    }

    /// `c` is Cached.
    pub open spec fn cached_has(self, c: RegionCoord) -> bool {
        self.cached_map().dom().contains(c)
    }

    /// `c` is resident: Active or Cached (otherwise it is Unloaded).
    pub open spec fn resident(self, c: RegionCoord) -> bool {
        self.active_has(c) || self.cached_has(c)
    }

    /// Well-formed: no coordinate twice within a partition, and no
    /// coordinate in both partitions.
    pub closed spec fn wf(self) -> bool {
        &&& seq_nodup(self.active@)
        &&& seq_nodup(self.cached@)
        &&& seq_disjoint(self.active@, self.cached@)
    }

    /// State exclusivity: in a well-formed store, a coordinate is never
    /// Active and Cached at the same time.
    pub proof fn lemma_state_exclusivity(self, c: RegionCoord)
        requires
            self.wf(),
        ensures
            !(self.active_has(c) && self.cached_has(c)),
    {
        lemma_s2m_has(self.active@, c);
        lemma_s2m_has(self.cached@, c);
        if seq_has(self.active@, c) && seq_has(self.cached@, c) {
            let i = choose|i: int|
                0 <= i < self.active@.len() && (#[trigger] self.active@[i]).0 == c;
            let j = choose|j: int|
                0 <= j < self.cached@.len() && (#[trigger] self.cached@[j]).0 == c;
            assert(self.active@[i].0 != self.cached@[j].0);
        }
    }

    /// An empty store: everything Unloaded.
    pub fn new() -> (s: Self)
        ensures
            s.wf(),
            s.active_map() == Map::<RegionCoord, Resident>::empty(),
            s.cached_map() == Map::<RegionCoord, Resident>::empty(),
    {
        RegionStore { active: Vec::new(), cached: Vec::new() }
    }

    /// Whether `c` is Active.
    pub fn is_active(&self, c: RegionCoord) -> (r: bool)
        ensures
            r == self.active_has(c),
    {
        proof {
            lemma_s2m_has(self.active@, c);
        }
        find_idx(&self.active, c).is_some()
    }

    /// Whether `c` is Cached.
    pub fn is_cached(&self, c: RegionCoord) -> (r: bool)
        ensures
            r == self.cached_has(c),
    {
        proof {
            lemma_s2m_has(self.cached@, c);
        }
        find_idx(&self.cached, c).is_some()
    }

    /// The resident region of an Active coordinate.
    pub fn get_active(&self, c: RegionCoord) -> (r: Option<&Resident>)
        requires
            self.wf(),
        ensures
            match r {
                Some(res) => self.active_has(c) && *res == self.active_map()[c],
                None => !self.active_has(c),
            },
    {
        proof {
            lemma_s2m_has(self.active@, c);
        }
        match find_idx(&self.active, c) {
            Some(i) => {
                proof {
                    lemma_s2m_get(self.active@, i as int);
                }
                Some(&self.active[i].1)
            },
            None => None,
        }
    }

    /// Commits a finished generation: makes `c` Active, holding `res`.
    /// If `c` is already resident the result is discarded and nothing
    /// changes — a late generation for a coordinate that was committed
    /// meanwhile is a no-op, never a double activation.
    pub fn commit_activation(&mut self, c: RegionCoord, res: Resident) -> (committed: bool)
        requires
            old(self).wf(),
        ensures
            final(self).wf(),
            committed == !old(self).resident(c),
            committed ==> final(self).active_map() == old(self).active_map().insert(c, res),
            !committed ==> final(self).active_map() == old(self).active_map(),
            final(self).cached_map() == old(self).cached_map(),
    {
        proof {
            lemma_s2m_has(self.active@, c);
            lemma_s2m_has(self.cached@, c);
        }
        if find_idx(&self.active, c).is_some() || find_idx(&self.cached, c).is_some() {
            false
        } else {
            proof {
                lemma_s2m_push(self.active@, (c, res));
            }
            let ghost s0 = self.active@;
            self.active.push((c, res));
            proof {
                assert(seq_nodup(self.active@)) by {
                    assert forall|i: int, j: int|
                        0 <= i < j < self.active@.len() implies (#[trigger] self.active@[i]).0 != (
                    #[trigger] self.active@[j]).0 by {
                        if j == self.active@.len() - 1 {
                            assert(self.active@[i] == s0[i]);
                        } else {
                            assert(self.active@[i] == s0[i]);
                            assert(self.active@[j] == s0[j]);
                        }
                    }
                }
                assert(seq_disjoint(self.active@, self.cached@)) by {
                    assert forall|i: int, j: int|
                        0 <= i < self.active@.len() && 0 <= j < self.cached@.len() implies (
                    #[trigger] self.active@[i]).0 != (#[trigger] self.cached@[j]).0 by {
                        if i < self.active@.len() - 1 {
                            assert(self.active@[i] == s0[i]);
                        }
                    }
                }
            }
            true
        }
    }

    /// Demotes `c` from Active to Cached: it leaves the visible set but
    /// its region and geometry are kept. No-op if `c` is not Active.
    pub fn demote(&mut self, c: RegionCoord) -> (moved: bool)
        requires
            old(self).wf(),
        ensures
            final(self).wf(),
            moved == old(self).active_has(c),
            moved ==> final(self).active_map() == old(self).active_map().remove(c) && final(self).cached_map() == old(self).cached_map().insert(c, old(self).active_map()[c]),
            !moved ==> final(self).active_map() == old(self).active_map() && final(self).cached_map() == old(self).cached_map(),
    {
        proof {
            lemma_s2m_has(self.active@, c);
        }
        match find_idx(&self.active, c) {
            Some(i) => {
                proof {
                    lemma_s2m_get(self.active@, i as int);
                    lemma_s2m_remove(self.active@, i as int);
                    lemma_s2m_push(self.cached@, (c, self.active@[i as int].1));
                }
                let ghost a0 = self.active@;
                let ghost c0 = self.cached@;
                let entry = self.active.remove(i);
                self.cached.push(entry);
                proof {
                    lemma_store_move_wf(a0, c0, i as int, self.active@, self.cached@);
                }
                true
            },
            None => false,
        }
    }

    /// Promotes `c` from Cached back to Active: an O(1) move that reuses
    /// the resident region and geometry — no regeneration. No-op if `c`
    /// is not Cached.
    pub fn promote(&mut self, c: RegionCoord) -> (moved: bool)
        requires
            old(self).wf(),
        ensures
            final(self).wf(),
            moved == old(self).cached_has(c),
            moved ==> final(self).cached_map() == old(self).cached_map().remove(c) && final(self).active_map() == old(self).active_map().insert(c, old(self).cached_map()[c]),
            !moved ==> final(self).active_map() == old(self).active_map() && final(self).cached_map() == old(self).cached_map(),
    {
        proof {
            lemma_s2m_has(self.cached@, c);
        }
        match find_idx(&self.cached, c) {
            Some(i) => {
                proof {
                    lemma_s2m_get(self.cached@, i as int);
                    lemma_s2m_remove(self.cached@, i as int);
                    lemma_s2m_push(self.active@, (c, self.cached@[i as int].1));
                }
                let ghost a0 = self.active@;
                let ghost c0 = self.cached@;
                let entry = self.cached.remove(i);
                self.active.push(entry);
                proof {
                    lemma_store_move_wf_rev(a0, c0, i as int, self.active@, self.cached@);
                }
                true
            },
            None => false,
        }
    }

    /// Evicts `c` from the cache: its region and geometry are destroyed,
    /// and the coordinate becomes Unloaded. No-op if `c` is not Cached;
    /// an Active coordinate is never evicted directly.
    pub fn commit_cache_eviction(&mut self, c: RegionCoord) -> (evicted: bool)
        requires
            old(self).wf(),
        ensures
            final(self).wf(),
            evicted == old(self).cached_has(c),
            evicted ==> final(self).cached_map() == old(self).cached_map().remove(c),
            !evicted ==> final(self).cached_map() == old(self).cached_map(),
            final(self).active_map() == old(self).active_map(),
    {
        proof {
            lemma_s2m_has(self.cached@, c);
        }
        match find_idx(&self.cached, c) {
            Some(i) => {
                proof {
                    lemma_s2m_remove(self.cached@, i as int);
                }
                let ghost a0 = self.active@;
                let ghost c0 = self.cached@;
                let _ = self.cached.remove(i);
                proof {
                    lemma_nodup_remove(c0, i as int, self.cached@);
                    assert(seq_disjoint(self.active@, self.cached@)) by {
                        assert forall|k: int, l: int|
                            0 <= k < self.active@.len() && 0 <= l < self.cached@.len() implies (
                        #[trigger] self.active@[k]).0 != (#[trigger] self.cached@[l]).0 by {
                            if l < i as int {
                                assert(self.cached@[l] == c0[l]);
                            } else {
                                assert(self.cached@[l] == c0[l + 1]);
                            }
                        }
                    }
                }
                true
            },
            None => false,
        }
    }
}

proof fn lemma_nodup_remove(
    s0: Seq<(RegionCoord, Resident)>,
    i: int,
    s1: Seq<(RegionCoord, Resident)>,
)
    requires
        seq_nodup(s0),
        0 <= i < s0.len(),
        s1 == s0.remove(i),
    ensures
        seq_nodup(s1),
{
    assert forall|k: int, l: int|
        0 <= k < l < s1.len() implies (#[trigger] s1[k]).0 != (#[trigger] s1[l]).0 by {
        let k0 = if k < i {
            k
        } else {
            k + 1
        };
        let l0 = if l < i {
            l
        } else {
            l + 1
        };
        assert(s1[k] == s0[k0]);
        assert(s1[l] == s0[l0]);
    }
}

proof fn lemma_store_move_wf(
    a0: Seq<(RegionCoord, Resident)>,
    c0: Seq<(RegionCoord, Resident)>,
    i: int,
    a1: Seq<(RegionCoord, Resident)>,
    c1: Seq<(RegionCoord, Resident)>,
)
    requires
        seq_nodup(a0),
        seq_nodup(c0),
        seq_disjoint(a0, c0),
        0 <= i < a0.len(),
        a1 == a0.remove(i),
        c1 == c0.push((a0[i].0, a0[i].1)),
    ensures
        seq_nodup(a1),
        seq_nodup(c1),
        seq_disjoint(a1, c1),
{
    lemma_nodup_remove(a0, i, a1);
    assert(seq_nodup(c1)) by {
        assert forall|k: int, l: int|
            0 <= k < l < c1.len() implies (#[trigger] c1[k]).0 != (#[trigger] c1[l]).0 by {
            assert(c1[k] == c0[k]);
            if l < c1.len() - 1 {
                assert(c1[l] == c0[l]);
            }
        }
    }
    assert(seq_disjoint(a1, c1)) by {
        assert forall|k: int, l: int|
            0 <= k < a1.len() && 0 <= l < c1.len() implies (#[trigger] a1[k]).0 != (
        #[trigger] c1[l]).0 by {
            let k0 = if k < i {
                k
            } else {
                k + 1
            };
            assert(a1[k] == a0[k0]);
            if l < c1.len() - 1 {
                assert(c1[l] == c0[l]);
            } else {
                assert(c1[l] == (a0[i].0, a0[i].1));
                assert(a0[k0].0 != a0[i].0);
            }
        }
    }
}

proof fn lemma_store_move_wf_rev(
    a0: Seq<(RegionCoord, Resident)>,
    c0: Seq<(RegionCoord, Resident)>,
    i: int,
    a1: Seq<(RegionCoord, Resident)>,
    c1: Seq<(RegionCoord, Resident)>,
)
    requires
        seq_nodup(a0),
        seq_nodup(c0),
        seq_disjoint(a0, c0),
        0 <= i < c0.len(),
        c1 == c0.remove(i),
        a1 == a0.push((c0[i].0, c0[i].1)),
    ensures
        seq_nodup(a1),
        seq_nodup(c1),
        seq_disjoint(a1, c1),
{
    lemma_nodup_remove(c0, i, c1);
    assert(seq_nodup(a1)) by {
        assert forall|k: int, l: int|
            0 <= k < l < a1.len() implies (#[trigger] a1[k]).0 != (#[trigger] a1[l]).0 by {
            assert(a1[k] == a0[k]);
            if l < a1.len() - 1 {
                assert(a1[l] == a0[l]);
            } else {
                assert(a1[l] == (c0[i].0, c0[i].1));
                assert(a0[k].0 != c0[i].0);
            }
        }
    }
    assert(seq_disjoint(a1, c1)) by {
        assert forall|k: int, l: int|
            0 <= k < a1.len() && 0 <= l < c1.len() implies (#[trigger] a1[k]).0 != (
        #[trigger] c1[l]).0 by {
            let l0 = if l < i {
                l
            } else {
                l + 1
            };
            assert(c1[l] == c0[l0]);
            if k < a1.len() - 1 {
                assert(a1[k] == a0[k]);
            } else {
                assert(a1[k] == (c0[i].0, c0[i].1));
                assert(c0[i].0 != c0[l0].0);
            }
        }
    }
}


/// No coordinate appears twice in `s`.
pub open spec fn coords_nodup(s: Seq<RegionCoord>) -> bool {
    forall|i: int, j: int| 0 <= i < j < s.len() ==> s[i] != s[j]
}

/// Whether one of the first `n` entries of `s` carries coordinate `c`.
pub open spec fn seq_has_up_to(s: Seq<(RegionCoord, Resident)>, n: int, c: RegionCoord) -> bool {
    exists|k: int| 0 <= k < n && (#[trigger] s[k]).0 == c
}

/// The three transition lists one streaming step asks for, computed by
/// [`RegionStore::sync`] from the store's state and the observer.
pub struct SyncPlan {
    pub to_activate: Vec<RegionCoord>,
    pub to_deactivate: Vec<RegionCoord>,
    pub to_evict: Vec<RegionCoord>,
}

/// Appends to `out` the coordinates of `s` that lie outside Chebyshev
/// distance `radius` of `observer`, in entry order.
fn collect_outside(
    s: &Vec<(RegionCoord, Resident)>,
    observer: RegionCoord,
    radius: u32,
    out: &mut Vec<RegionCoord>,
)
    requires
        seq_nodup(s@),
        coords_nodup(old(out)@),
        forall|c: RegionCoord| old(out)@.contains(c) ==> !seq_has(s@, c),
    ensures
        coords_nodup(final(out)@),
        forall|c: RegionCoord|
            final(out)@.contains(c) <==> old(out)@.contains(c) || (seq_has(s@, c)
                && !spec_within(c, observer, radius as int)),
{
    let ghost orig = out@;
    let mut i: usize = 0;
    while i < s.len()
        invariant
            seq_nodup(s@),
            i <= s@.len(),
            coords_nodup(out@),
            forall|c: RegionCoord| orig.contains(c) ==> !seq_has(s@, c),
            forall|c: RegionCoord| #![trigger out@.contains(c)]
                out@.contains(c) <==> orig.contains(c) || (seq_has_up_to(s@, i as int, c)
                    && !spec_within(c, observer, radius as int)),
        decreases s@.len() - i,
    {
        let ck = s[i].0;
        let ghost out0 = out@;
        let outside = !within(ck, observer, radius);
        if outside {
            proof {
                assert(!out0.contains(ck)) by {
                    if orig.contains(ck) {
                        assert(s@[i as int].0 == ck);
                        assert(seq_has(s@, ck));
                    }
                    if seq_has_up_to(s@, i as int, ck) {
                        let k = choose|k: int| 0 <= k < i && (#[trigger] s@[k]).0 == ck;
                        assert(s@[k].0 != s@[i as int].0);
                    }
                }
            }
            out.push(ck);
            proof {
                assert(coords_nodup(out@)) by {
                    assert forall|k: int, l: int|
                        0 <= k < l < out@.len() implies out@[k] != out@[l] by {
                        assert(out@[k] == out0[k]);
                        if l == out@.len() - 1 {
                            assert(out0.contains(out0[k]));
                        } else {
                            assert(out@[l] == out0[l]);
                        }
                    }
                }
            }
        }
        proof {
            assert forall|c: RegionCoord| #![trigger out@.contains(c)]
                out@.contains(c) <==> (orig.contains(c) || (seq_has_up_to(
                    s@,
                    i as int + 1,
                    c,
                ) && !spec_within(c, observer, radius as int))) by {
                if out@.contains(c) {
                    if outside && c == ck {
                        assert(s@[i as int].0 == c);
                        assert(seq_has_up_to(s@, i as int + 1, c));
                    } else {
                        assert(out0.contains(c)) by {
                            let k = choose|k: int| 0 <= k < out@.len() && out@[k] == c;
                            if k < out0.len() {
                                assert(out0[k] == c);
                            }
                        }
                        if seq_has_up_to(s@, i as int, c) {
                            let k = choose|k: int| 0 <= k < i && (#[trigger] s@[k]).0 == c;
                            assert(0 <= k < i + 1 && s@[k].0 == c);
                        }
                    }
                }
                if orig.contains(c) || (seq_has_up_to(s@, i as int + 1, c) && !spec_within(
                    c,
                    observer,
                    radius as int,
                )) {
                    let has_now: bool = if orig.contains(c) {
                        assert(out0.contains(c));
                        true
                    } else {
                        let k = choose|k: int| 0 <= k < i + 1 && (#[trigger] s@[k]).0 == c;
                        if k < i {
                            assert(seq_has_up_to(s@, i as int, c));
                            assert(out0.contains(c));
                            true
                        } else {
                            assert(c == ck);
                            assert(outside);
                            assert(out@[out@.len() - 1] == ck);
                            assert(out@.contains(c));
                            false
                        }
                    };
                    if has_now {
                        let k = choose|k: int| 0 <= k < out0.len() && out0[k] == c;
                        assert(out@[k] == c);
                        assert(out@.contains(c));
                    }
                }
            }
        }
        i = i + 1;
    }
    proof {
        assert forall|c: RegionCoord|
            seq_has_up_to(s@, s@.len() as int, c) <==> seq_has(s@, c) by {}
    }
}

impl RegionStore {
    /// Computes the transitions one streaming step asks for, as a pure
    /// function of the store's state, the observer's region coordinate,
    /// and the two radii. `to_activate` lists every coordinate of the
    /// desired active set (the Chebyshev box of `active_radius` around
    /// the observer) that is not yet Active; `to_deactivate` lists every
    /// Active coordinate that left the desired set; `to_evict` lists
    /// every resident coordinate outside `cache_radius`. Nothing is
    /// mutated and no generation happens here: the caller promotes,
    /// demotes, evicts, and dispatches generation, then commits.
    ///
    /// The cache policy is a pure distance threshold: every resident
    /// coordinate outside the cache radius qualifies, and all of them are
    /// evicted in the same step, so no capacity tie-break ever arises.
    /// The lists follow the store's residency order, Active entries
    /// first, which is deterministic for a given history.
    pub fn sync(&self, observer: RegionCoord, active_radius: u32, cache_radius: u32) -> (plan:
        SyncPlan)
        requires
            self.wf(),
            observer.x - active_radius >= i64::MIN,
            observer.x + active_radius <= i64::MAX,
            observer.z - active_radius >= i64::MIN,
            observer.z + active_radius <= i64::MAX,
        ensures
            forall|c: RegionCoord| #![trigger plan.to_activate@.contains(c)]
                plan.to_activate@.contains(c) <==> spec_within(c, observer, active_radius as int)
                    && !self.active_has(c),
            forall|c: RegionCoord| #![trigger plan.to_deactivate@.contains(c)]
                plan.to_deactivate@.contains(c) <==> self.active_has(c) && !spec_within(
                    c,
                    observer,
                    active_radius as int,
                ),
            forall|c: RegionCoord| #![trigger plan.to_evict@.contains(c)]
                plan.to_evict@.contains(c) <==> self.resident(c) && !spec_within(
                    c,
                    observer,
                    cache_radius as int,
                ),
            coords_nodup(plan.to_activate@),
            coords_nodup(plan.to_deactivate@),
            coords_nodup(plan.to_evict@),
    {
        let r = active_radius as i64;
        let x_lo = observer.x - r;
        let x_hi = observer.x + r;
        let z_lo = observer.z - r;
        let z_hi = observer.z + r;
        let side = 2 * (active_radius as u64) + 1;

        let mut to_activate: Vec<RegionCoord> = Vec::new();
        let mut kx: u64 = 0;
        while kx < side
            invariant
                side == 2 * (active_radius as u64) + 1,
                x_lo == observer.x - active_radius,
                x_hi == observer.x + active_radius,
                z_lo == observer.z - active_radius,
                z_hi == observer.z + active_radius,
                kx <= side,
                coords_nodup(to_activate@),
                forall|c: RegionCoord| #![trigger to_activate@.contains(c)]
                    to_activate@.contains(c) <==> (x_lo <= c.x < x_lo + kx && z_lo <= c.z <= z_hi
                        && !self.active_has(c)),
            decreases side - kx,
        {
            let x = x_lo + kx as i64;
            let mut kz: u64 = 0;
            while kz < side
                invariant
                    side == 2 * (active_radius as u64) + 1,
                    x_lo == observer.x - active_radius,
                    x_hi == observer.x + active_radius,
                    z_lo == observer.z - active_radius,
                    z_hi == observer.z + active_radius,
                    kx < side,
                    x == x_lo + kx,
                    kz <= side,
                    coords_nodup(to_activate@),
                    forall|c: RegionCoord| #![trigger to_activate@.contains(c)]
                        to_activate@.contains(c) <==> (((x_lo <= c.x < x && z_lo <= c.z <= z_hi)
                            || (c.x == x && z_lo <= c.z < z_lo + kz)) && !self.active_has(c)),
                decreases side - kz,
            {
                let z = z_lo + kz as i64;
                let cand = RegionCoord { x, z };
                let ghost t0 = to_activate@;
                let act = self.is_active(cand);
                if !act {
                    proof {
                        assert(!t0.contains(cand));
                    }
                    to_activate.push(cand);
                    proof {
                        assert(coords_nodup(to_activate@)) by {
                            assert forall|k: int, l: int|
                                0 <= k < l < to_activate@.len() implies to_activate@[k]
                                != to_activate@[l] by {
                                assert(to_activate@[k] == t0[k]);
                                if l == to_activate@.len() - 1 {
                                    assert(t0.contains(t0[k]));
                                } else {
                                    assert(to_activate@[l] == t0[l]);
                                }
                            }
                        }
                    }
                }
                proof {
                    assert forall|c: RegionCoord| #![trigger to_activate@.contains(c)]
                        to_activate@.contains(c) <==> (((x_lo <= c.x < x && z_lo <= c.z <= z_hi)
                            || (c.x == x && z_lo <= c.z < z_lo + kz + 1)) && !self.active_has(
                            c,
                        )) by {
                        if c == cand {
                            if !act {
                                assert(to_activate@[to_activate@.len() - 1] == cand);
                                assert(to_activate@.contains(cand));
                            }
                        } else {
                            if to_activate@.contains(c) {
                                let k = choose|k: int|
                                    0 <= k < to_activate@.len() && to_activate@[k] == c;
                                if k < t0.len() {
                                    assert(t0[k] == c);
                                }
                                assert(t0.contains(c));
                            }
                            if t0.contains(c) {
                                let k = choose|k: int| 0 <= k < t0.len() && t0[k] == c;
                                assert(to_activate@[k] == c);
                                assert(to_activate@.contains(c));
                            }
                        }
                    }
                }
                kz = kz + 1;
            }
            kx = kx + 1;
        }
        proof {
            assert forall|c: RegionCoord| #![trigger to_activate@.contains(c)]
                to_activate@.contains(c) <==> (spec_within(c, observer, active_radius as int)
                    && !self.active_has(c)) by {}
        }

        let mut to_deactivate: Vec<RegionCoord> = Vec::new();
        collect_outside(&self.active, observer, active_radius, &mut to_deactivate);

        let mut to_evict: Vec<RegionCoord> = Vec::new();
        collect_outside(&self.active, observer, cache_radius, &mut to_evict);
        proof {
            assert forall|c: RegionCoord| to_evict@.contains(c) implies !seq_has(
                self.cached@,
                c,
            ) by {
                if seq_has(self.active@, c) && seq_has(self.cached@, c) {
                    let i = choose|i: int|
                        0 <= i < self.active@.len() && (#[trigger] self.active@[i]).0 == c;
                    let j = choose|j: int|
                        0 <= j < self.cached@.len() && (#[trigger] self.cached@[j]).0 == c;
                    assert(self.active@[i].0 != self.cached@[j].0);
                }
            }
        }
        collect_outside(&self.cached, observer, cache_radius, &mut to_evict);

        proof {
            assert forall|c: RegionCoord| #![auto]
                self.active_has(c) == seq_has(self.active@, c) && self.cached_has(c) == seq_has(
                    self.cached@,
                    c,
                ) by {
                lemma_s2m_has(self.active@, c);
                lemma_s2m_has(self.cached@, c);
            }
        }
        SyncPlan { to_activate, to_deactivate, to_evict }
    }
}

/// Cache round trip: demoting an Active coordinate moves its resident
/// region to the cache unchanged, and promoting it again before any
/// eviction restores the very same resident region to Active — the two
/// transitions compose to the identity on that coordinate's region, so
/// reactivation never regenerates.
pub proof fn lemma_cache_round_trip(s: RegionStore, c: RegionCoord)
    requires
        s.wf(),
        s.active_has(c),
    ensures
        ({
            let after_demote_active = s.active_map().remove(c);
            let after_demote_cached = s.cached_map().insert(c, s.active_map()[c]);
            let after_promote_active = after_demote_active.insert(c, after_demote_cached[c]);
            let after_promote_cached = after_demote_cached.remove(c);
            &&& after_promote_active.dom().contains(c)
            &&& after_promote_active[c] == s.active_map()[c]
            &&& after_promote_active =~= s.active_map()
            &&& after_promote_cached =~= s.cached_map()
        }),
{
    s.lemma_state_exclusivity(c);
}

fn find_idx(s: &Vec<(RegionCoord, Resident)>, c: RegionCoord) -> (r: Option<usize>)
    ensures
        match r {
            Some(i) => i < s@.len() && s@[i as int].0 == c,
            None => !seq_has(s@, c),
        },
{
    let mut i: usize = 0;
    while i < s.len()
        invariant
            i <= s@.len(),
            forall|k: int| 0 <= k < i ==> (#[trigger] s@[k]).0 != c,
        decreases s@.len() - i,
    {
        if s[i].0 == c {
            return Some(i);
        }
        i = i + 1;
    }
    None
}

} // verus!
