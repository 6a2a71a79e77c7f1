use voxelstream::config::Config;
use voxelstream::controller::StreamingController;
use voxelstream::coords::RegionCoord;
use voxelstream::region::generate;
use voxelstream::store::{RegionStore, Resident};
use voxelstream::surface::extract_surface;

fn stream_config() -> Config {
    // Region size 4, active radius 1, cache radius 3.
    Config::new(4, 1, 3, 7, 1, 3, None).unwrap()
}

fn make_resident(cfg: &Config, c: RegionCoord, h: u8) -> Resident {
    let heights = vec![h; (cfg.region_size as usize) * (cfg.region_size as usize)];
    let region = generate(c, &heights, cfg);
    let batch = extract_surface(&region);
    Resident { region, batch }
}

#[test]
fn store_activation_and_duplicate() {
    let cfg = stream_config();
    let c = RegionCoord { x: 0, z: 0 };
    let mut store = RegionStore::new();
    assert!(!store.is_active(c));
    assert!(store.commit_activation(c, make_resident(&cfg, c, 5)));
    assert!(store.is_active(c));
    // A second generation result for the same coordinate is discarded.
    assert!(!store.commit_activation(c, make_resident(&cfg, c, 2)));
    assert_eq!(store.get_active(c).unwrap().region.height, 5);
}

#[test]
fn store_demote_promote_roundtrip() {
    // Demote to cache and promote back: the identical region comes back.
    let cfg = stream_config();
    let c = RegionCoord { x: 2, z: -1 };
    let mut store = RegionStore::new();
    let res = make_resident(&cfg, c, 5);
    let blocks_before = res.region.blocks.clone();
    assert!(store.commit_activation(c, res));
    assert!(store.demote(c));
    assert!(!store.is_active(c));
    assert!(store.is_cached(c));
    assert!(store.promote(c));
    assert!(store.is_active(c));
    assert!(!store.is_cached(c));
    assert_eq!(store.get_active(c).unwrap().region.blocks, blocks_before);
}

#[test]
fn store_eviction() {
    let cfg = stream_config();
    let c = RegionCoord { x: 1, z: 1 };
    let mut store = RegionStore::new();
    assert!(store.commit_activation(c, make_resident(&cfg, c, 1)));
    // Only cached coordinates can be evicted.
    assert!(!store.commit_cache_eviction(c));
    assert!(store.demote(c));
    assert!(store.commit_cache_eviction(c));
    assert!(!store.is_active(c));
    assert!(!store.is_cached(c));
}

#[test]
fn state_exclusivity_runtime() {
    // At every step, no coordinate is both Active and Cached.
    let cfg = stream_config();
    let c = RegionCoord { x: 0, z: 0 };
    let mut store = RegionStore::new();
    store.commit_activation(c, make_resident(&cfg, c, 3));
    assert!(!(store.is_active(c) && store.is_cached(c)));
    store.demote(c);
    assert!(!(store.is_active(c) && store.is_cached(c)));
    store.promote(c);
    assert!(!(store.is_active(c) && store.is_cached(c)));
}

#[test]
fn sync_plan_on_empty_store() {
    let store = RegionStore::new();
    let plan = store.sync(RegionCoord { x: 0, z: 0 }, 1, 3);
    assert_eq!(plan.to_activate.len(), 9);
    for dx in -1i64..=1 {
        for dz in -1i64..=1 {
            assert!(plan.to_activate.contains(&RegionCoord { x: dx, z: dz }));
        }
    }
    assert_eq!(plan.to_deactivate.len(), 0);
    assert_eq!(plan.to_evict.len(), 0);
}

#[test]
fn tick_generates_box() {
    let cfg = stream_config();
    let mut ctrl = StreamingController::new(cfg);
    let plan = ctrl.begin_tick(0, 0);
    assert_eq!(plan.observer, RegionCoord { x: 0, z: 0 });
    assert_eq!(plan.to_generate.len(), 9);
    assert!(plan.to_generate.contains(&RegionCoord { x: -1, z: 1 }));
    assert_eq!(plan.promoted.len(), 0);
    assert_eq!(plan.retracted.len(), 0);
    assert_eq!(plan.evicted.len(), 0);
}

fn activate_plan(ctrl: &mut StreamingController, coords: &[RegionCoord]) {
    let cfg = ctrl.cfg;
    for &c in coords {
        assert!(ctrl.commit_generated(c, make_resident(&cfg, c, 5)));
    }
}

#[test]
fn tick_demotes_and_caches() {
    let cfg = stream_config();
    let mut ctrl = StreamingController::new(cfg);
    let plan = ctrl.begin_tick(0, 0);
    let coords = plan.to_generate.clone();
    activate_plan(&mut ctrl, &coords);
    // Observer moves two regions east: world x = 8, region x = 2.
    let plan2 = ctrl.begin_tick(8, 0);
    assert_eq!(plan2.observer, RegionCoord { x: 2, z: 0 });
    // The west edge leaves the active set but stays within the cache
    // radius of three regions.
    assert!(plan2.retracted.contains(&RegionCoord { x: -1, z: 0 }));
    assert!(plan2.retracted.contains(&RegionCoord { x: 0, z: 0 }));
    assert!(!plan2.retracted.contains(&RegionCoord { x: 1, z: 0 }));
    assert_eq!(plan2.evicted.len(), 0);
    assert!(ctrl.store.is_cached(RegionCoord { x: -1, z: 0 }));
    assert!(ctrl.store.is_active(RegionCoord { x: 1, z: 0 }));
    // The newly entered east column needs generation.
    assert!(plan2.to_generate.contains(&RegionCoord { x: 3, z: 0 }));
    assert!(!plan2.to_generate.contains(&RegionCoord { x: 1, z: 0 }));
}

#[test]
fn tick_evicts_past_cache_radius() {
    // A coordinate at Chebyshev distance cache_radius + 1 from the
    // observer is neither Active nor Cached after the tick.
    let cfg = stream_config();
    let mut ctrl = StreamingController::new(cfg);
    let origin = RegionCoord { x: 0, z: 0 };
    let plan = ctrl.begin_tick(0, 0);
    let coords = plan.to_generate.clone();
    activate_plan(&mut ctrl, &coords);
    assert!(ctrl.store.is_active(origin));
    // Observer jumps to region x = 4: the origin sits at distance 4,
    // one past the cache radius of 3.
    let plan2 = ctrl.begin_tick(16, 0);
    assert_eq!(plan2.observer, RegionCoord { x: 4, z: 0 });
    assert!(plan2.evicted.contains(&origin));
    assert!(!ctrl.store.is_active(origin));
    assert!(!ctrl.store.is_cached(origin));
}

#[test]
fn tick_promotes_from_cache() {
    // Leave and come back before eviction: the region is reactivated
    // from the cache with its blocks intact, not regenerated.
    let cfg = stream_config();
    let mut ctrl = StreamingController::new(cfg);
    let origin = RegionCoord { x: 0, z: 0 };
    let plan = ctrl.begin_tick(0, 0);
    let coords = plan.to_generate.clone();
    activate_plan(&mut ctrl, &coords);
    let blocks_before = ctrl.store.get_active(origin).unwrap().region.blocks.clone();
    // Step away two regions: the origin is demoted, not evicted.
    ctrl.begin_tick(8, 0);
    assert!(ctrl.store.is_cached(origin));
    // Step back: the origin is promoted, and no generation is requested.
    let plan3 = ctrl.begin_tick(0, 0);
    assert!(plan3.promoted.contains(&origin));
    assert!(!plan3.to_generate.contains(&origin));
    assert!(ctrl.store.is_active(origin));
    assert_eq!(ctrl.store.get_active(origin).unwrap().region.blocks, blocks_before);
}

#[test]
fn stale_commit_discarded() {
    // A generation result arriving for an already resident coordinate is
    // discarded instead of double-activating it.
    let cfg = stream_config();
    let mut ctrl = StreamingController::new(cfg);
    let c = RegionCoord { x: 0, z: 0 };
    assert!(ctrl.commit_generated(c, make_resident(&cfg, c, 5)));
    assert!(!ctrl.commit_generated(c, make_resident(&cfg, c, 1)));
    assert_eq!(ctrl.store.get_active(c).unwrap().region.height, 5);
}
