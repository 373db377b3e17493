//! The error taxonomy shared by the codec and the fetchers.

use vstd::prelude::*;

verus! {

/// Why a frame could not be decoded.
#[derive(Clone, Copy, Debug, PartialEq, Eq, Structural)]
pub enum CodecError {
    /// The frame ends before the fields it declares.
    Incomplete,
    /// A declared length exceeds what the destination can hold.
    FrameTooLarge,
    /// A name is not well-formed UTF-8.
    InvalidEncoding,
}

/// Why a fetch did not deliver.
#[derive(Clone, Copy, Debug, PartialEq, Eq, Structural)]
pub enum TransferError {
    /// The transport reported a failure.
    Io,
    /// The peer or the transport broke the framing rules.
    Protocol,
    /// The declared size exceeds the destination's capacity.
    BufferOverflow,
    /// The stream ended before the declared length was satisfied.
    Truncated,
    /// No data arrived within the retry budget.
    Timeout,
}

} // verus!
