//! Plain request and response values exchanged with the web tier. The
//! web tier deserializes requests into these shapes and serializes the
//! results; the core only reads and fills them.

use vstd::prelude::*;

verus! {

/// A request to start configuring a clip from a source file.
#[derive(Debug, Clone)]
pub struct NewClipRequest {
    pub file_path: String,
}

/// A free-text search over the source index.
#[derive(Debug, Clone)]
pub struct SearchRequest {
    pub search_string: String,
}

/// Everything needed to cut one clip: the source, the names, the track
/// selectors, and the start/end time fields as the user typed them.
#[derive(Debug, Clone)]
pub struct ConfigureClipRequest {
    pub source_file: String,
    pub clip_name: String,
    pub audio_track: String,
    pub subtitle_track: String,
    pub start_sec: String,
    pub start_min: String,
    pub start_hour: String,
    pub end_sec: String,
    pub end_min: String,
    pub end_hour: String,
    pub audio_only: bool,
}

/// A request to delete a produced clip by name.
#[derive(Debug, Clone)]
pub struct DeleteClipRequest {
    pub clip_name: String,
}

/// A request to probe a source file for its tracks.
#[derive(Debug, Clone)]
pub struct FFProbeRequest {
    pub file_path: String,
}

/// Human-readable track descriptors for a probed source file.
#[derive(Debug, Clone, Default)]
pub struct FFProbeResult {
    pub audio_tracks: Vec<String>,
    pub sub_tracks: Vec<String>,
}

} // verus!
