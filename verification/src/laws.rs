//! What holds of the checks on all playlists, or of several of them together.
pub mod agreement;
pub mod drift;
pub mod interstitials;
pub mod low_latency;
pub mod multivariant;
pub mod numbers;
pub mod order;
pub mod playlists;
pub mod renditions;
pub mod tags;
pub mod text;
pub mod variants;
pub mod views;
pub mod words;
