//! Transcoding targets: anything that consumes a finished frame list
//! and produces an encoded artifact (a playable document, a media file
//! path, ...).  Implementations live with their I/O, outside the
//! library.

use vstd::prelude::*;

use crate::{Frame, VgvError};

verus! {

/// A consumer of a finished frame list.
pub trait Transcoder<T> {
    /// Encodes the frame sequence into the target artifact.
    fn encode(&mut self, frames: Vec<Frame>) -> Result<T, VgvError>;
}

} // verus!
