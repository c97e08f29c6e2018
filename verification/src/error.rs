//! Error kinds returned by the engine.

use vstd::prelude::*;

verus! {

/// Everything the engine can refuse to do.  Errors are returned to the
/// caller, never swallowed: a failed crop or export leaves all buffers
/// unchanged.
#[derive(Clone, Copy, Debug, PartialEq, Eq, Structural)]
pub enum ScreenShotError {
    /// The capture source could not be read.
    Capture,
    /// Crop geometry is negative or exceeds the current bounds.
    InvalidRegion,
    /// The export path is not a directory.
    NotADirectory,
    /// The export format is not PNG, JPEG or GIF.
    UnsupportedFormat,
    /// The platform clipboard is unavailable.
    Clipboard,
}

impl ScreenShotError {
    /// A short description of the error.
    pub fn message(&self) -> (out: &'static str)
        ensures
            out@ == message_spec(*self),
    {
        match self {
            ScreenShotError::Capture => "capture source cannot be read",
            ScreenShotError::InvalidRegion => "sizes are not compatible",
            ScreenShotError::NotADirectory => "Path is not a dir",
            ScreenShotError::UnsupportedFormat => "extension error",
            ScreenShotError::Clipboard => "clipboard is unavailable",
        }
    }
}

/// The description [`ScreenShotError::message`] returns for each kind.
pub open spec fn message_spec(e: ScreenShotError) -> Seq<char> {
    match e {
        ScreenShotError::Capture => "capture source cannot be read"@,
        ScreenShotError::InvalidRegion => "sizes are not compatible"@,
        ScreenShotError::NotADirectory => "Path is not a dir"@,
        ScreenShotError::UnsupportedFormat => "extension error"@,
        ScreenShotError::Clipboard => "clipboard is unavailable"@,
    }
}

} // verus!
