//! Classification of tracks by the media kind their pad negotiated.

use crate::text::same_text;
use vstd::prelude::*;
use vstd::string::StringExecFns;

verus! {

/// The media kind a track carries.
#[derive(Clone, Copy, Debug, PartialEq, Eq, Structural)]
pub enum MediaKind {
    Audio,
    Video,
    /// Anything that is neither audio nor video.
    Other,
}

/// The kind that a negotiated `media` field stands for.
pub open spec fn kind_of(media: Seq<char>) -> MediaKind {
    if media == "audio"@ {
        MediaKind::Audio
    } else if media == "video"@ {
        MediaKind::Video
    } else {
        MediaKind::Other
    }
}

/// Maps the negotiated `media` field of a pad to its media kind.
pub fn classify(media: &str) -> (kind: MediaKind)
    ensures
        kind == kind_of(media@),
{
    if same_text(media, "audio") {
        MediaKind::Audio
    } else if same_text(media, "video") {
        MediaKind::Video
    } else {
        MediaKind::Other
    }
}

/// What is known of a track once its pad was classified.
#[derive(Clone, Debug, PartialEq, Eq)]
pub struct TrackDescriptor {
    pub kind: MediaKind,
    /// The negotiated `media` field as the pad reported it.
    pub media: String,
}

/// Why a pad could not be classified.
#[derive(Clone, Copy, Debug, PartialEq, Eq, Structural)]
pub enum ClassifyError {
    /// The pad has no negotiated parameters yet.
    NotNegotiated,
}

/// Classifies a pad by the `media` field of its negotiated parameters;
/// `None` stands for a pad that has none yet.
pub fn describe_track(media: Option<&str>) -> (r: Result<TrackDescriptor, ClassifyError>)
    ensures
        match media {
            Some(m) => r is Ok && r->Ok_0.kind == kind_of(m@) && r->Ok_0.media@ == m@,
            None => r == Err::<TrackDescriptor, ClassifyError>(ClassifyError::NotNegotiated),
        },
{
    match media {
        Some(m) => Ok(TrackDescriptor { kind: classify(m), media: String::from_str(m) }),
        None => Err(ClassifyError::NotNegotiated),
    }
}

} // verus!
