//! The checks.
pub mod drift;
pub mod durations;
pub mod headers;
pub mod interstitials;
pub mod low_latency;
pub mod multivariant;
pub mod playlists;
pub mod renditions;
pub mod versions;
