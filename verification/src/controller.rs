//! The streaming controller: turns one observer position into the region
//! transitions of a streaming tick.
//!
//! A tick demotes every Active region that left the active radius, evicts
//! every resident region outside the cache radius, promotes cached regions
//! that re-entered the active radius (reusing their grids and geometry),
//! and reports which coordinates still need generation. Generation itself
//! runs outside the tick — possibly on worker threads — and is handed back
//! through [`StreamingController::commit_generated`]; a result for a
//! coordinate that became resident meanwhile is discarded, never committed
//! twice.

use crate::config::Config;
use crate::coords::{region_of, spec_region_index, spec_within, RegionCoord};
use crate::store::{coords_nodup, RegionStore, Resident};
use vstd::prelude::*;

verus! {

broadcast use vstd::seq_lib::lemma_seq_contains_after_push;

/// What one tick decided: the observer's region, the coordinates that
/// still need generation and meshing, the cached coordinates that were
/// reactivated (their geometry is re-emitted), the coordinates whose
/// geometry leaves the visible set, and the coordinates whose regions
/// were destroyed.
pub struct TickPlan {
    pub observer: RegionCoord,
    pub to_generate: Vec<RegionCoord>,
    pub promoted: Vec<RegionCoord>,
    pub retracted: Vec<RegionCoord>,
    pub evicted: Vec<RegionCoord>,
}

/// The per-tick driver: a configuration and the region store it owns.
pub struct StreamingController {
    pub cfg: Config,
    pub store: RegionStore,
}

impl StreamingController {
    /// A valid configuration over a consistent store.
    pub open spec fn wf(self) -> bool {
        &&& self.cfg.wf()
        &&& self.store.wf()
    }

    /// A controller with an empty store: every coordinate Unloaded.
    pub fn new(cfg: Config) -> (s: Self)
        requires
            cfg.wf(),
        ensures
            s.wf(),
            s.cfg == cfg,
            s.store.active_map() == Map::<RegionCoord, Resident>::empty(),
            s.store.cached_map() == Map::<RegionCoord, Resident>::empty(),
    {
        StreamingController { cfg, store: RegionStore::new() }
    }

    /// Runs the synchronous part of one tick for an observer at world
    /// position `(wx, wz)`: demotes, evicts, and promotes, and returns
    /// what remains to be generated. Afterward the Active set is exactly
    /// the resident coordinates within the active radius, the cache holds
    /// exactly the resident coordinates between the two radii, and every
    /// kept region is the identical resident value from before the tick —
    /// nothing is regenerated. Coordinates past the cache radius are no
    /// longer resident at all.
    pub fn begin_tick(&mut self, wx: i64, wz: i64) -> (plan: TickPlan)
        requires
            old(self).wf(),
            spec_region_index(wx as int, old(self).cfg.region_size as int) - old(
                self,
            ).cfg.active_radius >= i64::MIN,
            spec_region_index(wx as int, old(self).cfg.region_size as int) + old(
                self,
            ).cfg.active_radius <= i64::MAX,
            spec_region_index(wz as int, old(self).cfg.region_size as int) - old(
                self,
            ).cfg.active_radius >= i64::MIN,
            spec_region_index(wz as int, old(self).cfg.region_size as int) + old(
                self,
            ).cfg.active_radius <= i64::MAX,
        ensures
            final(self).wf(),
            final(self).cfg == old(self).cfg,
            plan.observer.x == spec_region_index(wx as int, old(self).cfg.region_size as int),
            plan.observer.z == spec_region_index(wz as int, old(self).cfg.region_size as int),
            forall|c: RegionCoord| #![trigger final(self).store.active_has(c)]
                final(self).store.active_has(c) <==> old(self).store.resident(c) && spec_within(
                    c,
                    plan.observer,
                    old(self).cfg.active_radius as int,
                ),
            forall|c: RegionCoord| #![trigger final(self).store.cached_has(c)]
                final(self).store.cached_has(c) <==> old(self).store.resident(c) && !spec_within(
                    c,
                    plan.observer,
                    old(self).cfg.active_radius as int,
                ) && spec_within(c, plan.observer, old(self).cfg.cache_radius as int),
            forall|c: RegionCoord| #![trigger final(self).store.resident(c)]
                !spec_within(c, plan.observer, old(self).cfg.cache_radius as int)
                    ==> !final(self).store.resident(c),
            forall|c: RegionCoord| #![trigger final(self).store.active_map()[c]]
                final(self).store.active_has(c) ==> final(self).store.active_map()[c] == (if old(
                    self,
                ).store.active_has(c) {
                    old(self).store.active_map()[c]
                } else {
                    old(self).store.cached_map()[c]
                }),
            forall|c: RegionCoord| #![trigger final(self).store.cached_map()[c]]
                final(self).store.cached_has(c) ==> final(self).store.cached_map()[c] == (if old(
                    self,
                ).store.cached_has(c) {
                    old(self).store.cached_map()[c]
                } else {
                    old(self).store.active_map()[c]
                }),
            forall|c: RegionCoord| #![trigger plan.to_generate@.contains(c)]
                plan.to_generate@.contains(c) <==> spec_within(
                    c,
                    plan.observer,
                    old(self).cfg.active_radius as int,
                ) && !old(self).store.resident(c),
            coords_nodup(plan.to_generate@),
            forall|c: RegionCoord| #![trigger plan.promoted@.contains(c)]
                plan.promoted@.contains(c) <==> old(self).store.cached_has(c) && spec_within(
                    c,
                    plan.observer,
                    old(self).cfg.active_radius as int,
                ),
            coords_nodup(plan.promoted@),
            forall|c: RegionCoord| #![trigger plan.retracted@.contains(c)]
                plan.retracted@.contains(c) <==> old(self).store.active_has(c) && !spec_within(
                    c,
                    plan.observer,
                    old(self).cfg.active_radius as int,
                ),
            coords_nodup(plan.retracted@),
            forall|c: RegionCoord| #![trigger plan.evicted@.contains(c)]
                plan.evicted@.contains(c) <==> old(self).store.resident(c) && !spec_within(
                    c,
                    plan.observer,
                    old(self).cfg.cache_radius as int,
                ),
            coords_nodup(plan.evicted@),
    {
        let cfg = self.cfg;
        let obs = region_of(wx, wz, cfg.region_size as u16);
        let ghost store0 = self.store;
        let ghost a0 = store0.active_map();
        let ghost m0 = store0.cached_map();
        let splan = self.store.sync(obs, cfg.active_radius, cfg.cache_radius);
        let ghost dl = splan.to_deactivate@;
        let ghost el = splan.to_evict@;
        let ghost pl = splan.to_activate@;

        // Demote every Active coordinate that left the active radius.
        let mut k: usize = 0;
        while k < splan.to_deactivate.len()
            invariant
                cfg.wf(),
                self.cfg == cfg,
                self.store.wf(),
                store0.wf(),
                a0 == store0.active_map(),
                m0 == store0.cached_map(),
                dl == splan.to_deactivate@,
                el == splan.to_evict@,
                pl == splan.to_activate@,
                coords_nodup(dl),
                coords_nodup(el),
                coords_nodup(pl),
                k <= dl.len(),
                forall|c: RegionCoord| #![trigger dl.contains(c)]
                    dl.contains(c) <==> store0.active_has(c) && !spec_within(
                        c,
                        obs,
                        cfg.active_radius as int,
                    ),
                forall|c: RegionCoord| #![trigger el.contains(c)]
                    el.contains(c) <==> store0.resident(c) && !spec_within(
                        c,
                        obs,
                        cfg.cache_radius as int,
                    ),
                forall|c: RegionCoord| #![trigger pl.contains(c)]
                    pl.contains(c) <==> spec_within(c, obs, cfg.active_radius as int)
                        && !store0.active_has(c),
                forall|c: RegionCoord| #![trigger self.store.active_has(c)]
                    self.store.active_has(c) <==> a0.dom().contains(c) && !dl.take(
                        k as int,
                    ).contains(c),
                forall|c: RegionCoord| #![trigger self.store.active_map()[c]]
                    self.store.active_has(c) ==> self.store.active_map()[c] == a0[c],
                forall|c: RegionCoord| #![trigger self.store.cached_has(c)]
                    self.store.cached_has(c) <==> m0.dom().contains(c) || (a0.dom().contains(c)
                        && dl.take(k as int).contains(c)),
                forall|c: RegionCoord| #![trigger self.store.cached_map()[c]]
                    self.store.cached_has(c) ==> self.store.cached_map()[c] == (if m0.dom(
                    ).contains(c) {
                        m0[c]
                    } else {
                        a0[c]
                    }),
            decreases dl.len() - k,
        {
            let c = splan.to_deactivate[k];
            let ghost pre = self.store;
            proof {
                pre.lemma_state_exclusivity(c);
                store0.lemma_state_exclusivity(c);
                assert(dl.take(k as int + 1) =~= dl.take(k as int).push(dl[k as int]));
            }
            let moved = self.store.demote(c);
            proof {
                assert(moved == pre.active_has(c));
                assert forall|cc: RegionCoord| #![trigger self.store.active_has(cc)]
                    self.store.active_has(cc) <==> a0.dom().contains(cc) && !dl.take(
                        k as int + 1,
                    ).contains(cc) by {
                    if cc != c {
                        assert(pre.active_has(cc) == self.store.active_has(cc));
                    }
                }
                assert forall|cc: RegionCoord| #![trigger self.store.cached_has(cc)]
                    self.store.cached_has(cc) <==> m0.dom().contains(cc) || (a0.dom().contains(cc)
                        && dl.take(k as int + 1).contains(cc)) by {
                    if cc != c {
                        assert(pre.cached_has(cc) == self.store.cached_has(cc));
                    }
                }
                assert forall|cc: RegionCoord| #![trigger self.store.cached_map()[cc]]
                    self.store.cached_has(cc) implies self.store.cached_map()[cc] == (if m0.dom(
                    ).contains(cc) {
                        m0[cc]
                    } else {
                        a0[cc]
                    }) by {
                    if cc != c {
                        assert(pre.cached_has(cc) == self.store.cached_has(cc));
                        if pre.cached_has(cc) {
                            assert(pre.cached_map()[cc] == self.store.cached_map()[cc]);
                        }
                    }
                }
            }
            k = k + 1;
        }
        proof {
            assert(dl.take(dl.len() as int) =~= dl);
        }

        // Evict everything resident outside the cache radius.
        let mut k2: usize = 0;
        while k2 < splan.to_evict.len()
            invariant
                cfg.wf(),
                self.cfg == cfg,
                self.store.wf(),
                store0.wf(),
                a0 == store0.active_map(),
                m0 == store0.cached_map(),
                dl == splan.to_deactivate@,
                el == splan.to_evict@,
                pl == splan.to_activate@,
                coords_nodup(dl),
                coords_nodup(el),
                coords_nodup(pl),
                k2 <= el.len(),
                forall|c: RegionCoord| #![trigger dl.contains(c)]
                    dl.contains(c) <==> store0.active_has(c) && !spec_within(
                        c,
                        obs,
                        cfg.active_radius as int,
                    ),
                forall|c: RegionCoord| #![trigger el.contains(c)]
                    el.contains(c) <==> store0.resident(c) && !spec_within(
                        c,
                        obs,
                        cfg.cache_radius as int,
                    ),
                forall|c: RegionCoord| #![trigger pl.contains(c)]
                    pl.contains(c) <==> spec_within(c, obs, cfg.active_radius as int)
                        && !store0.active_has(c),
                forall|c: RegionCoord| #![trigger self.store.active_has(c)]
                    self.store.active_has(c) <==> a0.dom().contains(c) && !dl.contains(c),
                forall|c: RegionCoord| #![trigger self.store.active_map()[c]]
                    self.store.active_has(c) ==> self.store.active_map()[c] == a0[c],
                forall|c: RegionCoord| #![trigger self.store.cached_has(c)]
                    self.store.cached_has(c) <==> (m0.dom().contains(c) || (a0.dom().contains(c)
                        && dl.contains(c))) && !el.take(k2 as int).contains(c),
                forall|c: RegionCoord| #![trigger self.store.cached_map()[c]]
                    self.store.cached_has(c) ==> self.store.cached_map()[c] == (if m0.dom(
                    ).contains(c) {
                        m0[c]
                    } else {
                        a0[c]
                    }),
            decreases el.len() - k2,
        {
            let c = splan.to_evict[k2];
            let ghost pre = self.store;
            proof {
                assert(el.take(k2 as int + 1) =~= el.take(k2 as int).push(el[k2 as int]));
            }
            let evicted = self.store.commit_cache_eviction(c);
            proof {
                assert(evicted == pre.cached_has(c));
                assert(self.store.active_map() == pre.active_map());
                assert forall|cc: RegionCoord| #![trigger self.store.active_has(cc)]
                    self.store.active_has(cc) <==> a0.dom().contains(cc) && !dl.contains(cc) by {
                    assert(pre.active_has(cc) == self.store.active_has(cc));
                }
                assert forall|cc: RegionCoord| #![trigger self.store.active_map()[cc]]
                    self.store.active_has(cc) implies self.store.active_map()[cc] == a0[cc] by {
                    assert(pre.active_has(cc) == self.store.active_has(cc));
                    assert(pre.active_map()[cc] == self.store.active_map()[cc]);
                }
                assert forall|cc: RegionCoord| #![trigger self.store.cached_has(cc)]
                    self.store.cached_has(cc) <==> (m0.dom().contains(cc) || (a0.dom().contains(
                        cc,
                    ) && dl.contains(cc))) && !el.take(k2 as int + 1).contains(cc) by {
                    if cc != c {
                        assert(pre.cached_has(cc) == self.store.cached_has(cc));
                    }
                }
                assert forall|cc: RegionCoord| #![trigger self.store.cached_map()[cc]]
                    self.store.cached_has(cc) implies self.store.cached_map()[cc] == (if m0.dom(
                    ).contains(cc) {
                        m0[cc]
                    } else {
                        a0[cc]
                    }) by {
                    if cc != c {
                        assert(pre.cached_has(cc) == self.store.cached_has(cc));
                        if pre.cached_has(cc) {
                            assert(pre.cached_map()[cc] == self.store.cached_map()[cc]);
                        }
                    }
                }
            }
            k2 = k2 + 1;
        }
        proof {
            assert(el.take(el.len() as int) =~= el);
        }

        // Promote cached coordinates that re-entered the active radius;
        // whatever is neither Active nor Cached must be generated.
        let mut promoted: Vec<RegionCoord> = Vec::new();
        let mut to_generate: Vec<RegionCoord> = Vec::new();
        let mut k3: usize = 0;
        while k3 < splan.to_activate.len()
            invariant
                cfg.wf(),
                self.cfg == cfg,
                self.store.wf(),
                store0.wf(),
                a0 == store0.active_map(),
                m0 == store0.cached_map(),
                dl == splan.to_deactivate@,
                el == splan.to_evict@,
                pl == splan.to_activate@,
                coords_nodup(dl),
                coords_nodup(el),
                coords_nodup(pl),
                k3 <= pl.len(),
                forall|c: RegionCoord| #![trigger dl.contains(c)]
                    dl.contains(c) <==> store0.active_has(c) && !spec_within(
                        c,
                        obs,
                        cfg.active_radius as int,
                    ),
                forall|c: RegionCoord| #![trigger el.contains(c)]
                    el.contains(c) <==> store0.resident(c) && !spec_within(
                        c,
                        obs,
                        cfg.cache_radius as int,
                    ),
                forall|c: RegionCoord| #![trigger pl.contains(c)]
                    pl.contains(c) <==> spec_within(c, obs, cfg.active_radius as int)
                        && !store0.active_has(c),
                forall|c: RegionCoord| #![trigger self.store.active_has(c)]
                    self.store.active_has(c) <==> (a0.dom().contains(c) && !dl.contains(c)) || ((
                    m0.dom().contains(c) || (a0.dom().contains(c) && dl.contains(c)))
                        && !el.contains(c) && pl.take(k3 as int).contains(c)),
                forall|c: RegionCoord| #![trigger self.store.active_map()[c]]
                    self.store.active_has(c) ==> self.store.active_map()[c] == (if a0.dom(
                    ).contains(c) && !dl.contains(c) {
                        a0[c]
                    } else if m0.dom().contains(c) {
                        m0[c]
                    } else {
                        a0[c]
                    }),
                forall|c: RegionCoord| #![trigger self.store.cached_has(c)]
                    self.store.cached_has(c) <==> (m0.dom().contains(c) || (a0.dom().contains(c)
                        && dl.contains(c))) && !el.contains(c) && !pl.take(k3 as int).contains(c),
                forall|c: RegionCoord| #![trigger self.store.cached_map()[c]]
                    self.store.cached_has(c) ==> self.store.cached_map()[c] == (if m0.dom(
                    ).contains(c) {
                        m0[c]
                    } else {
                        a0[c]
                    }),
                forall|c: RegionCoord| #![trigger promoted@.contains(c)]
                    promoted@.contains(c) <==> (m0.dom().contains(c) || (a0.dom().contains(c)
                        && dl.contains(c))) && !el.contains(c) && pl.take(k3 as int).contains(c),
                coords_nodup(promoted@),
                forall|c: RegionCoord| #![trigger to_generate@.contains(c)]
                    to_generate@.contains(c) <==> pl.take(k3 as int).contains(c) && !(a0.dom(
                    ).contains(c) && !dl.contains(c)) && !((m0.dom().contains(c) || (a0.dom(
                    ).contains(c) && dl.contains(c))) && !el.contains(c)),
                coords_nodup(to_generate@),
            decreases pl.len() - k3,
        {
            let c = splan.to_activate[k3];
            let ghost pre = self.store;
            let ghost promoted0 = promoted@;
            let ghost gen0 = to_generate@;
            proof {
                pre.lemma_state_exclusivity(c);
                store0.lemma_state_exclusivity(c);
                assert(pl.take(k3 as int + 1) =~= pl.take(k3 as int).push(pl[k3 as int]));
                assert(!pl.take(k3 as int).contains(c)) by {
                    if pl.take(k3 as int).contains(c) {
                        let i = choose|i: int| 0 <= i < k3 && pl.take(k3 as int)[i] == c;
                        assert(pl[i] == c);
                        assert(pl[k3 as int] == c);
                    }
                }
                assert(pl[k3 as int] == c);
                assert(pl.contains(c));
            }
            let moved = self.store.promote(c);
            if moved {
                proof {
                    assert(!promoted0.contains(c));
                }
                promoted.push(c);
            } else {
                proof {
                    assert(!gen0.contains(c));
                }
                to_generate.push(c);
            }
            proof {
                assert forall|cc: RegionCoord| #![trigger self.store.active_has(cc)]
                    self.store.active_has(cc) <==> (a0.dom().contains(cc) && !dl.contains(cc)) || ((
                    m0.dom().contains(cc) || (a0.dom().contains(cc) && dl.contains(cc)))
                        && !el.contains(cc) && pl.take(k3 as int + 1).contains(cc)) by {
                    if cc != c {
                        assert(pre.active_has(cc) == self.store.active_has(cc));
                    }
                }
                assert forall|cc: RegionCoord| #![trigger self.store.active_map()[cc]]
                    self.store.active_has(cc) implies self.store.active_map()[cc] == (if a0.dom(
                    ).contains(cc) && !dl.contains(cc) {
                        a0[cc]
                    } else if m0.dom().contains(cc) {
                        m0[cc]
                    } else {
                        a0[cc]
                    }) by {
                    if cc != c {
                        assert(pre.active_has(cc) == self.store.active_has(cc));
                        if pre.active_has(cc) {
                            assert(pre.active_map()[cc] == self.store.active_map()[cc]);
                        }
                    }
                }
                assert forall|cc: RegionCoord| #![trigger self.store.cached_has(cc)]
                    self.store.cached_has(cc) <==> (m0.dom().contains(cc) || (a0.dom().contains(
                        cc,
                    ) && dl.contains(cc))) && !el.contains(cc) && !pl.take(
                        k3 as int + 1,
                    ).contains(cc) by {
                    if cc != c {
                        assert(pre.cached_has(cc) == self.store.cached_has(cc));
                    }
                }
                assert forall|cc: RegionCoord| #![trigger self.store.cached_map()[cc]]
                    self.store.cached_has(cc) implies self.store.cached_map()[cc] == (if m0.dom(
                    ).contains(cc) {
                        m0[cc]
                    } else {
                        a0[cc]
                    }) by {
                    if cc != c {
                        assert(pre.cached_has(cc) == self.store.cached_has(cc));
                        if pre.cached_has(cc) {
                            assert(pre.cached_map()[cc] == self.store.cached_map()[cc]);
                        }
                    }
                }
                assert(moved == pre.cached_has(c));
                assert forall|cc: RegionCoord| #![trigger promoted@.contains(cc)]
                    promoted@.contains(cc) <==> (m0.dom().contains(cc) || (a0.dom().contains(cc)
                        && dl.contains(cc))) && !el.contains(cc) && pl.take(
                        k3 as int + 1,
                    ).contains(cc) by {
                    if cc != c {
                        assert(promoted@.contains(cc) == promoted0.contains(cc));
                    }
                }
                assert forall|cc: RegionCoord| #![trigger to_generate@.contains(cc)]
                    to_generate@.contains(cc) <==> pl.take(k3 as int + 1).contains(cc) && !(a0.dom(
                    ).contains(cc) && !dl.contains(cc)) && !((m0.dom().contains(cc) || (a0.dom(
                    ).contains(cc) && dl.contains(cc))) && !el.contains(cc)) by {
                    if cc != c {
                        assert(to_generate@.contains(cc) == gen0.contains(cc));
                    }
                }
                assert(coords_nodup(promoted@)) by {
                    assert forall|i: int, j: int|
                        0 <= i < j < promoted@.len() implies promoted@[i] != promoted@[j] by {
                        assert(promoted@[i] == promoted0[i]);
                        if j == promoted@.len() - 1 && moved {
                            assert(promoted0.contains(promoted0[i]));
                        } else {
                            assert(promoted@[j] == promoted0[j]);
                        }
                    }
                }
                assert(coords_nodup(to_generate@)) by {
                    assert forall|i: int, j: int|
                        0 <= i < j < to_generate@.len() implies to_generate@[i]
                        != to_generate@[j] by {
                        assert(to_generate@[i] == gen0[i]);
                        if j == to_generate@.len() - 1 && !moved {
                            assert(gen0.contains(gen0[i]));
                        } else {
                            assert(to_generate@[j] == gen0[j]);
                        }
                    }
                }
            }
            k3 = k3 + 1;
        }
        proof {
            assert(pl.take(pl.len() as int) =~= pl);
            assert forall|c: RegionCoord| #![trigger spec_within(c, obs, cfg.active_radius as int)]
                spec_within(c, obs, cfg.active_radius as int) ==> spec_within(
                    c,
                    obs,
                    cfg.cache_radius as int,
                ) by {}
            assert forall|c: RegionCoord| #![trigger self.store.active_has(c)]
                self.store.active_has(c) <==> store0.resident(c) && spec_within(
                    c,
                    obs,
                    cfg.active_radius as int,
                ) by {
                store0.lemma_state_exclusivity(c);
            }
            assert forall|c: RegionCoord| #![trigger self.store.cached_has(c)]
                self.store.cached_has(c) <==> store0.resident(c) && !spec_within(
                    c,
                    obs,
                    cfg.active_radius as int,
                ) && spec_within(c, obs, cfg.cache_radius as int) by {
                store0.lemma_state_exclusivity(c);
            }
            assert forall|c: RegionCoord| #![trigger self.store.active_map()[c]]
                self.store.active_has(c) implies self.store.active_map()[c] == (if store0.active_has(
                    c,
                ) {
                    a0[c]
                } else {
                    m0[c]
                }) by {
                store0.lemma_state_exclusivity(c);
            }
            assert forall|c: RegionCoord| #![trigger promoted@.contains(c)]
                promoted@.contains(c) <==> store0.cached_has(c) && spec_within(
                    c,
                    obs,
                    cfg.active_radius as int,
                ) by {
                store0.lemma_state_exclusivity(c);
            }
            assert forall|c: RegionCoord| #![trigger to_generate@.contains(c)]
                to_generate@.contains(c) <==> spec_within(c, obs, cfg.active_radius as int)
                    && !store0.resident(c) by {
                store0.lemma_state_exclusivity(c);
            }
        }
        TickPlan {
            observer: obs,
            to_generate,
            promoted,
            retracted: splan.to_deactivate,
            evicted: splan.to_evict,
        }
    }

    /// Hands back a finished generation and meshing for `c`. Commits it
    /// as Active unless `c` became resident meanwhile (or was generated
    /// twice): a stale result is discarded, a correctness-preserving
    /// no-op, so no coordinate is ever activated twice.
    pub fn commit_generated(&mut self, c: RegionCoord, res: Resident) -> (committed: bool)
        requires
            old(self).wf(),
        ensures
            final(self).wf(),
            final(self).cfg == old(self).cfg,
            committed == !old(self).store.resident(c),
            committed ==> final(self).store.active_map() == old(self).store.active_map().insert(
                c,
                res,
            ),
            !committed ==> final(self).store.active_map() == old(self).store.active_map(),
            final(self).store.cached_map() == old(self).store.cached_map(),
    {
        self.store.commit_activation(c, res)
    }
}

} // verus!
