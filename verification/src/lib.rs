//! VGV: a streaming, delta-compressed frame format for recording and
//! replaying animated vector-graphics scenes.
//!
//! A stream is a line-oriented text document: a magic header line followed
//! by one frame per line.  The [`Encoder`] turns a sequence of raw scene
//! snapshots into frames (full snapshots, diff-engine deltas, or coalesced
//! "unchanged" markers), the [`Parser`] validates and deserializes a stream,
//! and the [`Renderer`] replays frames in order into the single current
//! reconstructed scene.

use vstd::prelude::*;

pub mod diff;
pub mod encoder;
pub mod export;
pub mod parser;
pub mod renderer;
pub mod roundtrip;
pub mod text;
pub mod transcoders;

pub use encoder::Encoder;
pub use parser::{Parser, VGVParsable};
pub use renderer::Renderer;
pub use transcoders::Transcoder;

verus! {

/// Why a single frame line could not be parsed.
#[derive(Debug, Clone, Copy, PartialEq, Eq, Structural)]
pub enum ParseFault {
    /// The line is empty: it has no tag character.
    EmptyLine,
    /// The tag is reserved or unknown; the character is the tag seen.
    UnsupportedTag(char),
    /// An `I` body has fewer than the five tab-separated fields.
    MissingField,
    /// A numeric field is not a decimal number that fits its type.
    BadNumber,
}

/// The error taxonomy of the library.  Every failure is fatal: no frame
/// is half-parsed, no state is half-applied.
#[derive(Debug, Clone, Copy, PartialEq, Eq, Structural)]
pub enum VgvError {
    /// The stream's first line is not the magic token.
    Header,
    /// A frame line is malformed; `line` is 1-based over the frame lines.
    Parse { line: usize, fault: ParseFault },
    /// A frame line carries a reserved or unknown tag character.
    UnsupportedFrame { line: usize, tag: char },
    /// The diff engine failed to compute, serialize or apply an edit script.
    DiffEngine,
    /// A second `Initialization` frame was seen during one replay.
    ReInitialization,
    /// The frame sequence cannot drive the export pipeline.
    Pipeline,
}

/// One wire unit of a VGV stream.
#[derive(Debug, Clone)]
pub enum Frame {
    /// `I` frame: one-time stream parameters and SVG attributes.
    Initialization {
        /// Duration of each rendered frame, in milliseconds.
        d: u64,
        /// Frame width in pixels.
        w: u32,
        /// Frame height in pixels.
        h: u32,
        /// Backdrop color as a CSS color string.
        bg: String,
        /// Attributes to add to the SVG element.
        svg: String,
    },
    /// `S` frame: CSS rules appended to the cumulative stylesheet.
    Style(String),
    /// `F` frame: full scene content, replacing the current one.
    Full(String),
    /// `D` frame: a diff-engine-serialized edit script.
    Delta(String),
    /// `U` frame: how many ticks the current image repeats unchanged.
    Unchanged(u32),
}

/// The mathematical value of a [`Frame`]: the same tagged union over
/// character sequences.
pub enum FrameView {
    Initialization { d: u64, w: u32, h: u32, bg: Seq<char>, svg: Seq<char> },
    Style(Seq<char>),
    Full(Seq<char>),
    Delta(Seq<char>),
    Unchanged(u32),
}

impl View for Frame {
    type V = FrameView;

    open spec fn view(&self) -> FrameView {
        match self {
            Frame::Initialization { d, w, h, bg, svg } => FrameView::Initialization {
                d: *d,
                w: *w,
                h: *h,
                bg: bg@,
                svg: svg@,
            },
            Frame::Style(s) => FrameView::Style(s@),
            Frame::Full(s) => FrameView::Full(s@),
            Frame::Delta(s) => FrameView::Delta(s@),
            Frame::Unchanged(c) => FrameView::Unchanged(*c),
        }
    }
}

/// The views of a sequence of frames.
pub open spec fn frame_views(frames: Seq<Frame>) -> Seq<FrameView> {
    Seq::new(frames.len(), |i: int| frames[i]@)
}

impl FrameView {
    /// How many output images this frame contributes to a replay.
    pub open spec fn spec_triggers_new_images(self) -> u32 {
        match self {
            FrameView::Full(_) => 1,
            FrameView::Delta(_) => 1,
            FrameView::Unchanged(count) => count,
            _ => 0,
        }
    }
}

impl Frame {
    /// How many output images this frame contributes: one per `Full` or
    /// `Delta`, `count` per `Unchanged(count)`, none otherwise.
    pub fn triggers_new_images(&self) -> (n: u32)
        ensures
            n == self@.spec_triggers_new_images(),
    {
        match self {
            Frame::Full(_) => 1,
            Frame::Delta(_) => 1,
            Frame::Unchanged(count) => *count,
            _ => 0,
        }
    }
}

} // verus!
