//! Turns the track list of a media probe report into short summary lines:
//! one line per video track and one per audio track, with the aspect ratio,
//! the bit rate and the codec identifier brought into their display form.

pub mod aspect;
pub mod bitrate;
pub mod codec;
pub mod json;
pub mod summary;
pub mod text;
pub mod track;

pub use aspect::convert_display_aspect_ratio;
pub use bitrate::format_bitrate;
pub use codec::remove_prefixes;
pub use json::{read_report, summarize_json, ReportError};
pub use summary::{summarize, MediaSummary};
pub use track::{RawReport, RawTrack, RawValue, TrackKind};
