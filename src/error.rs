//! Error kinds of the library.
use vstd::prelude::*;

verus! {

/// What a fallible operation of the library reports.
#[derive(Clone, Copy, Debug, PartialEq, Eq, Structural)]
pub enum DisplayError {
    /// A panel width that is not a multiple of eight pixels.
    InvalidDimensions,
    /// A pixel, line or glyph outside the panel or the table it indexes.
    OutOfBounds,
    /// A texture stream shorter than its header announces.
    Truncated,
    /// The bus write failed.
    Transport,
}

/// The failure a transport reports for a bus write.
#[derive(Clone, Copy, Debug, PartialEq, Eq, Structural)]
pub struct TransportError;

} // verus!
