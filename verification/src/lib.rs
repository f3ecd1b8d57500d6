//! Resolution of a video-hosting page into directly fetchable media
//! streams: a fixed catalog of encoding profiles, an extractor that turns
//! page text into a validated mapping from profile identifier to playable
//! URL (decoding the alternate cipher encoding on the way), and the
//! filtering and ranking of the candidates for user choice.

pub mod capture;
pub mod catalog;
pub mod extract;
pub mod format;
pub mod jsonio;
pub mod link;
pub mod scan;
pub mod select;
