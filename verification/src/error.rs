//! The error kinds a capture can end in. The library only classifies the
//! condition; user-visible reporting is left to the caller.

use vstd::prelude::*;

verus! {

/// Why a capture step failed.
#[derive(Copy, Clone, Debug, PartialEq, Eq, Structural)]
pub enum CaptureError {
    /// The display connection could not be opened (transport failure).
    DisplayOpen,
    /// A requested capture rectangle did not parse, or does not overlap the
    /// target window.
    InvalidGeometry,
    /// The server did not hand back an image for the requested area.
    FailedToCaptureFromX11,
    /// The framebuffer's pixel format is not one the decoder supports.
    UnableToConvertFramebuffer,
    /// The monitor layout could not be enumerated.
    FailedToEnumerateScreens,
    /// In single-monitor mode, no monitor rectangle contains the cursor.
    NoMatchingMonitor,
}

impl CaptureError {
    pub open spec fn spec_message(self) -> Seq<char> {
        match self {
            CaptureError::DisplayOpen => "Failed to open display"@,
            CaptureError::InvalidGeometry => "Invalid geometry"@,
            CaptureError::FailedToCaptureFromX11 => "Failed to get image from X"@,
            CaptureError::UnableToConvertFramebuffer => "Failed to convert captured framebuffer, only 24/32 bit (A)RGB8 is supported"@,
            CaptureError::FailedToEnumerateScreens => "Failed to enumerate screens, not masking"@,
            CaptureError::NoMatchingMonitor => "Failed to find screen containing cursor"@,
        }
    }

    /// A short description of the failure.
    pub fn message(&self) -> (r: &'static str)
        ensures
            r@ == self.spec_message(),
    {
        match self {
            CaptureError::DisplayOpen => "Failed to open display",
            CaptureError::InvalidGeometry => "Invalid geometry",
            CaptureError::FailedToCaptureFromX11 => "Failed to get image from X",
            CaptureError::UnableToConvertFramebuffer => "Failed to convert captured framebuffer, only 24/32 bit (A)RGB8 is supported",
            CaptureError::FailedToEnumerateScreens => "Failed to enumerate screens, not masking",
            CaptureError::NoMatchingMonitor => "Failed to find screen containing cursor",
        }
    }
}

} // verus!
