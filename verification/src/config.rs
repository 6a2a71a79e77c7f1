//! Streaming configuration and its startup validation.

use vstd::prelude::*;

verus! {

/// Static configuration of the streaming core. Fields are fixed at startup:
/// the horizontal region size in blocks, the active and cache radii in
/// regions (Chebyshev), the generation seed handed to the terrain sampler,
/// the depth-band thresholds of the generator, and an optional water level.
///
/// Depth bands classify a terrain block at height `y` of a column of
/// terrain height `h` (`y < h`): `y < stone_band` gives stone,
/// `stone_band <= y < dirt_band` gives dirt, and `dirt_band <= y` gives
/// grass. If a water level `w` is configured, water is placed at `y == w`
/// in every column whose terrain does not reach above it.
#[derive(Clone, Copy, PartialEq, Eq, Debug, Structural)]
pub struct Config {
    pub region_size: u8,
    pub active_radius: u32,
    pub cache_radius: u32,
    pub seed: u32,
    pub stone_band: u8,
    pub dirt_band: u8,
    pub water_level: Option<u8>,
}

/// Rejected configurations, each fatal at startup.
#[derive(Clone, Copy, PartialEq, Eq, Debug, Structural)]
pub enum ConfigError {
    /// The region size must be positive.
    RegionSizeZero,
    /// The active radius must be positive.
    ActiveRadiusZero,
    /// The cache radius must exceed the active radius, so that a demoted
    /// region survives at least one ring of observer movement.
    CacheRadiusNotLarger,
}

impl Config {
    /// A well-formed configuration: positive region size, positive active
    /// radius, and a strictly larger cache radius.
    pub open spec fn wf(self) -> bool {
        &&& self.region_size >= 1
        &&& self.active_radius >= 1
        &&& self.cache_radius > self.active_radius
    }

    /// Validates and builds a configuration. Returns `Ok` exactly on
    /// well-formed inputs; each invalid input is reported as the first
    /// failing check in field order.
    pub fn new(
        region_size: u8,
        active_radius: u32,
        cache_radius: u32,
        seed: u32,
        stone_band: u8,
        dirt_band: u8,
        water_level: Option<u8>,
    ) -> (r: Result<Config, ConfigError>)
        ensures
            r is Ok <==> region_size >= 1 && active_radius >= 1 && cache_radius > active_radius,
            r is Ok ==> r->Ok_0 == (Config {
                region_size,
                active_radius,
                cache_radius,
                seed,
                stone_band,
                dirt_band,
                water_level,
            }) && r->Ok_0.wf(),
            region_size == 0 ==> r == Result::<Config, ConfigError>::Err(ConfigError::RegionSizeZero),
            region_size >= 1 && active_radius == 0 ==> r == Result::<
                Config,
                ConfigError,
            >::Err(ConfigError::ActiveRadiusZero),
            region_size >= 1 && active_radius >= 1 && cache_radius <= active_radius ==> r == Result::<
                Config,
                ConfigError,
            >::Err(ConfigError::CacheRadiusNotLarger),
    {
        if region_size == 0 {
            Err(ConfigError::RegionSizeZero)
        } else if active_radius == 0 {
            Err(ConfigError::ActiveRadiusZero)
        } else if cache_radius <= active_radius {
            Err(ConfigError::CacheRadiusNotLarger)
        } else {
            Ok(
                Config {
                    region_size,
                    active_radius,
                    cache_radius,
                    seed,
                    stone_band,
                    dirt_band,
                    water_level,
                },
            )
        }
    }
}

} // verus!
