//! The replay state machine: consumes frames in stream order and
//! maintains the single current reconstructed scene.

use vstd::prelude::*;

use crate::diff::{applied_of, apply_delta, check_delta, delta_decodable};
use crate::text::{dec_digits, u32_to_string};
use crate::{frame_views, Frame, FrameView, VgvError};

verus! {

/// The mathematical state of one replay.
pub struct RenderModel {
    pub svg_attributes: Seq<char>,
    pub backdrop: Seq<char>,
    pub stylesheet: Seq<char>,
    pub svg_content: Seq<char>,
    pub frame_duration: u64,
    pub width: u32,
    pub height: u32,
    pub initialized: bool,
}

/// The state before any frame has been replayed.
pub open spec fn init_model() -> RenderModel {
    RenderModel {
        svg_attributes: Seq::empty(),
        backdrop: Seq::empty(),
        stylesheet: Seq::empty(),
        svg_content: Seq::empty(),
        frame_duration: 0,
        width: 0,
        height: 0,
        initialized: false,
    }
}

/// How one frame transforms the replay state.  `Style` appends to the
/// stylesheet, `Full` replaces the content, `Delta` applies an edit
/// script to the content, `Unchanged` changes nothing; a second
/// `Initialization` and a delta the engine cannot decode or rejects are
/// errors.
pub open spec fn step_model(m: RenderModel, f: FrameView) -> Result<RenderModel, VgvError> {
    match f {
        FrameView::Unchanged(_) => Ok(m),
        FrameView::Style(rules) => Ok(RenderModel { stylesheet: m.stylesheet + rules, ..m }),
        FrameView::Full(content) => Ok(RenderModel { svg_content: content, ..m }),
        FrameView::Initialization { d, w, h, bg, svg } => {
            if m.initialized {
                Err(VgvError::ReInitialization)
            } else {
                Ok(
                    RenderModel {
                        frame_duration: d,
                        width: w,
                        height: h,
                        backdrop: bg,
                        svg_attributes: svg,
                        initialized: true,
                        ..m
                    },
                )
            }
        },
        FrameView::Delta(delta) => {
            if !delta_decodable(delta) {
                Err(VgvError::DiffEngine)
            } else {
                match applied_of(m.svg_content, delta) {
                    Some(content) => Ok(RenderModel { svg_content: content, ..m }),
                    None => Err(VgvError::DiffEngine),
                }
            }
        },
    }
}

/// The state after replaying a whole frame sequence from the start, or
/// the first error.
pub open spec fn replay_model(frames: Seq<FrameView>) -> Result<RenderModel, VgvError>
    decreases frames.len(),
{
    if frames.len() == 0 {
        Ok(init_model())
    } else {
        match replay_model(frames.drop_last()) {
            Ok(m) => step_model(m, frames.last()),
            Err(e) => Err(e),
        }
    }
}

/// Replaying one more frame is one step of the state machine.
pub proof fn lemma_replay_snoc(frames: Seq<FrameView>, f: FrameView)
    ensures
        replay_model(frames.push(f)) == (match replay_model(frames) {
            Ok(m) => step_model(m, f),
            Err(e) => Err(e),
        }),
{
    assert(frames.push(f).drop_last() =~= frames);
}

/// The renderable-snapshot markup up to, but not including, the closing
/// `</svg>` tag: canvas geometry and attributes, a backdrop rectangle,
/// and the current content.
pub open spec fn svg_body_model(m: RenderModel) -> Seq<char> {
    "<svg width=\""@ + dec_digits(m.width as nat) + "\" height=\""@ + dec_digits(m.height as nat)
        + "\" "@ + m.svg_attributes + "><rect width=\"100%\" height=\"100%\" fill=\""@ + m.backdrop
        + "\"/>"@ + m.svg_content
}

/// The renderable snapshot of the current scene.
pub open spec fn svg_tag_model(m: RenderModel) -> Seq<char> {
    svg_body_model(m) + "</svg>"@
}

/// The rasterization markup: the renderable snapshot with the
/// accumulated stylesheet embedded before the closing tag.
pub open spec fn styled_svg_tag_model(m: RenderModel) -> Seq<char> {
    svg_body_model(m) + "<style>"@ + m.stylesheet + "</style></svg>"@
}

/// The replay state machine.  One `Renderer` replays one stream, frame
/// by frame, in order.
pub struct Renderer {
    /// Attributes added to the `<svg>` element, from `Initialization`.
    pub svg_attributes: String,
    /// Backdrop color, from `Initialization`.
    pub backdrop: String,
    /// The cumulative stylesheet: `Style` frames only ever append.
    pub stylesheet: String,
    /// The current reconstructed scene content.
    pub svg_content: String,
    /// Duration of each rendered frame in milliseconds.
    pub frame_duration: u64,
    /// Canvas width and height, from `Initialization`.
    pub frame_dimensions: (u32, u32),
    /// Whether an `Initialization` frame has been replayed.
    pub initialized: bool,
}

impl View for Renderer {
    type V = RenderModel;

    open spec fn view(&self) -> RenderModel {
        RenderModel {
            svg_attributes: self.svg_attributes@,
            backdrop: self.backdrop@,
            stylesheet: self.stylesheet@,
            svg_content: self.svg_content@,
            frame_duration: self.frame_duration,
            width: self.frame_dimensions.0,
            height: self.frame_dimensions.1,
            initialized: self.initialized,
        }
    }
}

impl Default for Renderer {
    /// A renderer that has replayed nothing.
    fn default() -> (r: Self)
        ensures
            r@ == init_model(),
    {
        let r = Renderer {
            svg_attributes: String::new(),
            backdrop: String::new(),
            stylesheet: String::new(),
            svg_content: String::new(),
            frame_duration: 0,
            frame_dimensions: (0, 0),
            initialized: false,
        };
        proof {
            assert(r@ =~= init_model());
        }
        r
    }
}

impl Renderer {
    /// Replays one frame: the state advances by exactly one step of the
    /// state machine, or is left untouched on error.
    pub fn step(&mut self, frame: &Frame) -> (r: Result<(), VgvError>)
        ensures
            (r matches Ok(()) ==> step_model(old(self)@, frame@) == Ok::<RenderModel, VgvError>(
                final(self)@,
            )),
            (r matches Err(e) ==> step_model(old(self)@, frame@) == Err::<RenderModel, VgvError>(e)
                && final(self)@ == old(self)@),
    {
        match frame {
            Frame::Unchanged(_) => {},
            Frame::Style(rules) => {
                self.stylesheet.append(rules.as_str());
            },
            Frame::Full(content) => {
                self.svg_content = content.clone();
            },
            Frame::Initialization { d, w, h, bg, svg } => {
                if self.initialized {
                    proof {
                        assert(final(self)@ =~= old(self)@);
                    }
                    return Err(VgvError::ReInitialization);
                }
                self.frame_duration = *d;
                self.frame_dimensions = (*w, *h);
                self.svg_attributes = svg.clone();
                self.backdrop = bg.clone();
                self.initialized = true;
            },
            Frame::Delta(delta) => {
                if !check_delta(delta.as_str()) {
                    proof {
                        assert(final(self)@ =~= old(self)@);
                    }
                    return Err(VgvError::DiffEngine);
                }
                let applied = apply_delta(self.svg_content.as_str(), delta.as_str());
                match applied {
                    Ok(content) => {
                        self.svg_content = content;
                    },
                    Err(e) => {
                        proof {
                            assert(final(self)@ =~= old(self)@);
                        }
                        return Err(e);
                    },
                }
            },
        }
        proof {
            assert(step_model(old(self)@, frame@) == Ok::<RenderModel, VgvError>(final(self)@));
        }
        Ok(())
    }

    /// The renderable snapshot of the current scene, derivable at any
    /// point without re-reading earlier frames.
    pub fn svg_tag(&self) -> (r: String)
        ensures
            r@ == svg_tag_model(self@),
    {
        let mut s = self.svg_body();
        s.append("</svg>");
        s
    }

    /// The rasterization markup: the snapshot with the stylesheet
    /// embedded before the closing tag.
    pub fn styled_svg_tag(&self) -> (r: String)
        ensures
            r@ == styled_svg_tag_model(self@),
    {
        let mut s = self.svg_body();
        s.append("<style>");
        s.append(self.stylesheet.as_str());
        s.append("</style></svg>");
        proof {
            assert(s@ =~= styled_svg_tag_model(self@));
        }
        s
    }

    /// The snapshot markup up to the closing tag.
    fn svg_body(&self) -> (r: String)
        ensures
            r@ == svg_body_model(self@),
    {
        let mut s = String::from_str("<svg width=\"");
        s.append(u32_to_string(self.frame_dimensions.0).as_str());
        s.append("\" height=\"");
        s.append(u32_to_string(self.frame_dimensions.1).as_str());
        s.append("\" ");
        s.append(self.svg_attributes.as_str());
        s.append("><rect width=\"100%\" height=\"100%\" fill=\"");
        s.append(self.backdrop.as_str());
        s.append("\"/>");
        s.append(self.svg_content.as_str());
        proof {
            assert(s@ =~= svg_body_model(self@));
        }
        s
    }
}

/// Replays a whole frame sequence from scratch: returns the renderer in
/// its final state, or the first error, exactly as the state machine
/// prescribes.
pub fn replay(frames: &Vec<Frame>) -> (r: Result<Renderer, VgvError>)
    ensures
        (r matches Ok(rend) ==> replay_model(frame_views(frames@)) == Ok::<
            RenderModel,
            VgvError,
        >(rend@)),
        (r matches Err(e) ==> replay_model(frame_views(frames@)) == Err::<RenderModel, VgvError>(
            e,
        )),
{
    let mut rend = Renderer::default();
    let mut i: usize = 0;
    proof {
        assert(frame_views(frames@).take(0) =~= Seq::<FrameView>::empty());
    }
    while i < frames.len()
        invariant
            i <= frames@.len(),
            replay_model(frame_views(frames@).take(i as int)) == Ok::<RenderModel, VgvError>(
                rend@,
            ),
        decreases frames@.len() - i,
    {
        let ghost pre = frame_views(frames@).take(i as int);
        let step = rend.step(&frames[i]);
        proof {
            lemma_replay_snoc(pre, frames@[i as int]@);
            assert(frame_views(frames@).take(i as int + 1) =~= pre.push(frames@[i as int]@));
        }
        match step {
            Ok(()) => {},
            Err(e) => {
                proof {
                    lemma_replay_prefix_err(frame_views(frames@), i as int + 1);
                }
                return Err(e);
            },
        }
        i = i + 1;
    }
    proof {
        assert(frame_views(frames@).take(frames@.len() as int) =~= frame_views(frames@));
    }
    Ok(rend)
}

/// An error reached within a prefix of a replay is the error of the
/// whole replay.
proof fn lemma_replay_prefix_err(frames: Seq<FrameView>, k: int)
    requires
        0 <= k <= frames.len(),
        replay_model(frames.take(k)) is Err,
    ensures
        replay_model(frames) == replay_model(frames.take(k)),
    decreases frames.len() - k,
{
    if k < frames.len() {
        lemma_replay_snoc(frames.take(k), frames[k]);
        assert(frames.take(k).push(frames[k]) =~= frames.take(k + 1));
        lemma_replay_prefix_err(frames, k + 1);
    } else {
        assert(frames.take(k) =~= frames);
    }
}

} // verus!
