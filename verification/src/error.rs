use vstd::prelude::*;

verus! {

/// A failure of one of the image-pipeline operations.
///
/// Every operation either returns a freshly built image or fails with one of
/// these conditions before producing anything.
#[derive(Clone, Copy, PartialEq, Eq, Structural, Debug)]
pub enum Error {
    /// The input image has zero width or zero height.
    InvalidDimensions,
    /// A noise or blend parameter is outside its valid range
    /// (a zero Gaussian standard deviation, a density outside [0, 1]).
    InvalidNoiseParameter,
    /// A tint colour string is not of the form `#RRGGBB`.
    InvalidColorEncoding,
}

/// A failure while selecting a camera from a configured list.
#[derive(Clone, Copy, PartialEq, Eq, Structural, Debug)]
pub enum CameraError {
    /// A numeric selector that is zero or past the end of the list.
    IndexOutOfRange(usize),
    /// No camera name matches the selector.
    NotFound,
}

/// A failure while choosing what to fetch next from a segmented stream's
/// playlists.
#[derive(Clone, Copy, PartialEq, Eq, Structural, Debug)]
pub enum StreamError {
    /// A master playlist with no variant streams.
    NoVariants,
    /// A media playlist with no segments.
    NoSegments,
}

} // verus!
