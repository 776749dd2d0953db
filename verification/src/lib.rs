//! Time-of-day wallpaper rotation and terminal photo viewing.
//!
//! The library holds the verified core: the metadata cache and the
//! time-aware candidate selection that pick which photo to show, the
//! colour-palette heuristics, and the terminal graphics framing that
//! turns an encoded image payload into protocol escape sequences.
//! Directory walking, EXIF decoding, terminal I/O and process spawning
//! live outside, in the binary around this crate.

pub mod cache;
pub mod color;
pub mod discovery;
pub mod exif;
pub mod geometry;
pub mod history;
pub mod numfmt;
pub mod palette;
pub mod panel;
pub mod render;
pub mod scan;
pub mod select;
pub mod viewer;

pub use color::{ColorPalette, Rgb};
pub use discovery::ImageFile;
pub use exif::ExifInfo;
pub use history::WallpaperHistory;

use vstd::prelude::*;

verus! {

/// The error kinds this system distinguishes.  A store that cannot be
/// opened or queried degrades to direct extraction; an unreadable image
/// is surfaced to the viewer; an empty candidate pool ends the run; a
/// history entry whose file is gone is reported as not found.
#[derive(Debug, Clone, Copy, PartialEq, Eq, Structural)]
pub enum WallpaperError {
    StoreUnavailable,
    DecodeFailure,
    NoEligibleCandidate,
    MissingHistoryTarget,
}

} // verus!
