//! Timetable core: a read-through caching layer over pluggable university
//! timetable sources, with a canonical domain model, deterministic cache-key
//! derivation, differentiated TTL policy, and one exemplar source that turns
//! an upstream HTML/JSON interface into the domain model while classifying
//! every failure it can encounter.

pub mod model;
pub mod text;
pub mod codec;
pub mod cachekey;
pub mod window;
pub mod cache;
pub mod unicam;
pub mod ics;
pub mod registry;
pub mod redis_cfg;
