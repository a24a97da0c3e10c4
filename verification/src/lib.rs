//! Checks of HTTP Live Streaming playlists.
//!
//! Each check takes playlists that have been read, and returns its findings.
//! The contract of a check says which findings those are, in which order and
//! with which words. The modules under [`laws`] state what follows from the
//! contracts: what the checks promise on all playlists.
pub mod attributes;
pub mod checks;
pub mod double;
pub mod gather;
pub mod laws;
pub mod names;
pub mod natural;
pub mod numeral;
pub mod text;
pub mod types;

pub use crate::checks::drift::{
    check_cumulative_drift, check_duration_drift, check_pdt_alignment, overlapping_segments,
    windows_in_range,
};
pub use crate::checks::durations::{
    check_target_duration_compliance, check_targetduration_consistency, durations_in_range,
};
pub use crate::checks::headers::{
    check_extm3u_header, check_master_structure, check_media_sequence_duplicate_tags,
};
pub use crate::checks::interstitials::check_interstitials;
pub use crate::checks::low_latency::check_ll_hls_compliance;
pub use crate::checks::multivariant::{
    check_bandwidth_required, check_media_group_membership, check_rendition_group_references,
    check_stream_inf_consistency,
};
pub use crate::checks::playlists::{
    check_live_playlist_min_segments, check_media_sequence_continuity, check_pdt_coverage,
    check_playlist_type_endlist,
};
pub use crate::checks::renditions::{
    check_discontinuity_sequence, check_encryption_consistency, check_segment_count,
};
pub use crate::checks::versions::check_version_compatibility;
