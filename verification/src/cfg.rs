//! Machine configuration: word types, compile-time hardware constants and the
//! boot-time cycle costs read from `machine.toml`.

use vstd::prelude::*;

verus! {

/// The machine word.
pub type Word = u16;

/// A cache line holds two bytes.
pub type CacheLine = u16;

/// Compile-time configuration of the machine.
pub struct CConfig {
    pub cache: CacheCConfig,
}

/// Shape of the L1 cache.
#[derive(Debug)]
pub struct CacheCConfig {
    pub ways: usize,
    pub sets: usize,
}

/// Number of ways of the L1 cache.
pub const CACHE_WAYS: usize = 2;

/// Number of sets of the L1 cache.
pub const CACHE_SETS: usize = 8;

/// The compile-time configuration: a 2-way cache of 8 sets.
pub fn const_config() -> (c: CConfig)
    ensures
        c.cache.ways == CACHE_WAYS,
        c.cache.sets == CACHE_SETS,
{
    CConfig { cache: CacheCConfig { ways: CACHE_WAYS, sets: CACHE_SETS } }
}

/// Boot-time configuration (deserialized from `machine.toml` by the application).
#[derive(Debug)]
pub struct Config {
    pub cycles: CyclesConfig,
}

/// Cycle costs of the memory hierarchy.
#[derive(Debug)]
pub struct CyclesConfig {
    pub l1_cache_read: usize,
    pub l1_cache_write: usize,
    pub dram_read: usize,
    pub dram_write: usize,
}

} // verus!
