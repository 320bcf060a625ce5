//! The stream encoder: turns a sequence of raw scene snapshots into an
//! append-only frame list, and serializes that list as stream text.
//!
//! Emission policy for the Nth content snapshot (the frame the encoder
//! was created with occupies position 0): every `full_diff_ratio`th
//! position gets a `Full` frame; a snapshot with no baseline yet gets a
//! `Full` frame; a snapshot equal to the baseline coalesces into the
//! run-length `Unchanged` counter; anything else gets a `Delta` frame
//! and advances the baseline.

use vstd::prelude::*;

use crate::diff::{applied_of, check_delta, delta_decodable, delta_of, make_delta};
use crate::parser::MAGIC;
use crate::renderer::{init_model, lemma_replay_snoc, replay_model, step_model, RenderModel};
use crate::text::{dec_digits, remove_newlines, strip_nl, u32_to_string, u64_to_string};
use crate::{frame_views, Frame, FrameView, VgvError};

verus! {

/// The wire line of one frame: its tag character followed by its body,
/// with newlines removed from the body.
pub open spec fn frame_line(f: FrameView) -> Seq<char> {
    match f {
        FrameView::Unchanged(count) => "U"@ + dec_digits(count as nat),
        FrameView::Style(rules) => "S"@ + strip_nl(rules),
        FrameView::Full(content) => "F"@ + strip_nl(content),
        FrameView::Delta(delta) => "D"@ + strip_nl(delta),
        FrameView::Initialization { d, w, h, bg, svg } => "I"@ + strip_nl(
            dec_digits(d as nat) + "\t"@ + dec_digits(w as nat) + "\t"@ + dec_digits(h as nat)
                + "\t"@ + bg + "\t"@ + svg,
        ),
    }
}

/// The whole stream text: the magic line, then one line per frame, each
/// line newline-terminated.
pub open spec fn encode_stream_spec(frames: Seq<FrameView>) -> Seq<char>
    decreases frames.len(),
{
    if frames.len() == 0 {
        MAGIC@ + "\n"@
    } else {
        encode_stream_spec(frames.drop_last()) + frame_line(frames.last()) + "\n"@
    }
}

impl Frame {
    /// The wire line of this frame.  Newlines in any body are stripped:
    /// a newline inside a field is unrepresentable in the line-oriented
    /// format, so it must never be produced.
    pub fn encode(&self) -> (r: String)
        ensures
            r@ == frame_line(self@),
    {
        match self {
            Frame::Unchanged(count) => {
                let mut s = String::from_str("U");
                s.append(u32_to_string(*count).as_str());
                s
            },
            Frame::Style(rules) => {
                let mut s = String::from_str("S");
                s.append(remove_newlines(rules.as_str()).as_str());
                s
            },
            Frame::Full(content) => {
                let mut s = String::from_str("F");
                s.append(remove_newlines(content.as_str()).as_str());
                s
            },
            Frame::Delta(delta) => {
                let mut s = String::from_str("D");
                s.append(remove_newlines(delta.as_str()).as_str());
                s
            },
            Frame::Initialization { d, w, h, bg, svg } => {
                let mut body = u64_to_string(*d);
                body.append("\t");
                body.append(u32_to_string(*w).as_str());
                body.append("\t");
                body.append(u32_to_string(*h).as_str());
                body.append("\t");
                body.append(bg.as_str());
                body.append("\t");
                body.append(svg.as_str());
                let mut s = String::from_str("I");
                s.append(remove_newlines(body.as_str()).as_str());
                s
            },
        }
    }
}

/// Replaying a single frame is one step from the initial state.
proof fn lemma_replay_singleton(f: FrameView)
    ensures
        replay_model(seq![f]) == step_model(init_model(), f),
{
    assert(seq![f].drop_last() =~= Seq::<FrameView>::empty());
    assert(replay_model(Seq::<FrameView>::empty()) == Ok::<RenderModel, VgvError>(init_model()));
}

/// The stream encoder.  It owns the monotonically growing frame list and
/// the content baseline that the next delta is computed against; the
/// list always replays cleanly to the baseline.
pub struct Encoder {
    frames: Vec<Frame>,
    last_frame_svg: Option<String>,
    full_diff_ratio: usize,
    content_calls: usize,
}

impl Encoder {
    /// The frames emitted so far.
    pub closed spec fn spec_frames(&self) -> Seq<FrameView> {
        frame_views(self.frames@)
    }

    /// The content baseline the next delta would be computed against.
    pub closed spec fn spec_baseline(&self) -> Option<Seq<char>> {
        match self.last_frame_svg {
            Some(b) => Some(b@),
            None => None,
        }
    }

    /// How often a `Full` frame is forced.
    pub closed spec fn spec_ratio(&self) -> usize {
        self.full_diff_ratio
    }

    /// The position the next content snapshot will occupy (the frame the
    /// encoder was created with occupies position 0).
    pub closed spec fn spec_calls(&self) -> usize {
        self.content_calls
    }

    spec fn baseline_content(self) -> Seq<char> {
        match self.last_frame_svg {
            Some(b) => b@,
            None => Seq::empty(),
        }
    }

    #[verifier::type_invariant]
    spec fn inv(self) -> bool {
        &&& self.full_diff_ratio >= 1
        &&& self.content_calls >= 1
        &&& self.frames@.len() >= 1
        &&& (match replay_model(frame_views(self.frames@)) {
            Ok(m) => m.svg_content == self.baseline_content(),
            Err(_) => false,
        })
    }

    /// An encoder holding one initial frame, with the default
    /// `full_diff_ratio` of 100.  A first `Full` frame establishes the
    /// baseline; a `Delta` frame has no baseline to apply to and cannot
    /// come first.
    pub fn new(init_frame: Frame) -> (r: Self)
        requires
            !(init_frame@ is Delta),
        ensures
            r.spec_frames() == seq![init_frame@],
            r.spec_ratio() == 100,
            r.spec_calls() == 1,
            r.spec_baseline() == (match init_frame@ {
                FrameView::Full(c) => Some(c),
                _ => None::<Seq<char>>,
            }),
    {
        let baseline = match &init_frame {
            Frame::Full(c) => Some(c.clone()),
            _ => None,
        };
        let ghost fv = init_frame@;
        let frames = vec![init_frame];
        proof {
            assert(frame_views(frames@) =~= seq![fv]);
            lemma_replay_singleton(fv);
        }
        Encoder { frames, last_frame_svg: baseline, full_diff_ratio: 100, content_calls: 1 }
    }

    /// Appends the frame for one content snapshot, following the
    /// emission policy.  On success the frame list replays exactly to
    /// the snapshot just fed (the round-trip guarantee).  Only a diff
    /// engine failure is an error, and then nothing is emitted.
    pub fn encode_svg(&mut self, svg_contents: String) -> (r: Result<(), VgvError>)
        requires
            old(self).spec_calls() < usize::MAX,
        ensures
            (r matches Ok(()) ==> {
                &&& final(self).spec_ratio() == old(self).spec_ratio()
                &&& final(self).spec_calls() == old(self).spec_calls() + 1
                &&& (replay_model(final(self).spec_frames()) matches Ok(m) && m.svg_content
                    == svg_contents@)
                &&& (if old(self).spec_calls() % old(self).spec_ratio() == 0 || old(
                    self,
                ).spec_baseline() is None {
                    &&& final(self).spec_frames() == old(self).spec_frames().push(
                        FrameView::Full(svg_contents@),
                    )
                    &&& final(self).spec_baseline() == Some(svg_contents@)
                } else if old(self).spec_baseline() == Some(svg_contents@) {
                    &&& final(self).spec_baseline() == old(self).spec_baseline()
                    &&& (match old(self).spec_frames().last() {
                        FrameView::Unchanged(c) => if c < u32::MAX {
                            final(self).spec_frames() == old(self).spec_frames().update(
                                old(self).spec_frames().len() - 1,
                                FrameView::Unchanged((c + 1) as u32),
                            )
                        } else {
                            final(self).spec_frames() == old(self).spec_frames().push(
                                FrameView::Unchanged(1),
                            )
                        },
                        _ => final(self).spec_frames() == old(self).spec_frames().push(
                            FrameView::Unchanged(1),
                        ),
                    })
                } else {
                    &&& final(self).spec_frames() == old(self).spec_frames().push(
                        FrameView::Delta(delta_of(old(self).spec_baseline()->0, svg_contents@)),
                    )
                    &&& final(self).spec_baseline() == Some(svg_contents@)
                })
            }),
            (r matches Err(e) ==> {
                &&& e == VgvError::DiffEngine
                &&& *final(self) == *old(self)
                &&& old(self).spec_calls() % old(self).spec_ratio() != 0
                &&& old(self).spec_baseline() is Some
                &&& old(self).spec_baseline() != Some(svg_contents@)
            }),
    {
        proof {
            use_type_invariant(&*self);
        }
        let periodic = self.content_calls % self.full_diff_ratio == 0;
        let mut coalesce = false;
        let mut delta: Option<String> = None;
        if !periodic {
            match &self.last_frame_svg {
                None => {},
                Some(base) => {
                    if *base == svg_contents {
                        coalesce = true;
                    } else {
                        match make_delta(base.as_str(), svg_contents.as_str()) {
                            Ok(d) => {
                                // A delta the replay side would turn
                                // away is as fatal as a failed diff.
                                if !check_delta(d.as_str()) {
                                    return Err(VgvError::DiffEngine);
                                }
                                delta = Some(d);
                            },
                            Err(e) => {
                                return Err(e);
                            },
                        }
                    }
                },
            }
        }
        let dummy_frames = vec![Frame::Unchanged(0)];
        proof {
            assert(frame_views(dummy_frames@) =~= seq![FrameView::Unchanged(0)]);
            lemma_replay_singleton(FrameView::Unchanged(0));
        }
        let mut tmp = Encoder {
            frames: dummy_frames,
            last_frame_svg: None,
            full_diff_ratio: 1,
            content_calls: 1,
        };
        core::mem::swap(self, &mut tmp);
        let Encoder { mut frames, last_frame_svg, full_diff_ratio, content_calls } = tmp;
        let ghost old_views = frame_views(frames@);
        let ghost old_model = replay_model(old_views)->Ok_0;
        let mut baseline = last_frame_svg;
        if coalesce {
            let idx = frames.len() - 1;
            let mut bump: Option<u32> = None;
            match &frames[idx] {
                Frame::Unchanged(c) => {
                    if *c < u32::MAX {
                        bump = Some(*c);
                    }
                },
                _ => {},
            }
            match bump {
                Some(c) => {
                    frames.pop();
                    frames.push(Frame::Unchanged(c + 1));
                    proof {
                        let nv = frame_views(frames@);
                        assert(nv =~= old_views.update(
                            old_views.len() - 1,
                            FrameView::Unchanged((c + 1) as u32),
                        ));
                        assert(nv.drop_last() =~= old_views.drop_last());
                        assert(replay_model(old_views) == Ok::<RenderModel, VgvError>(old_model));
                        assert(replay_model(nv) == Ok::<RenderModel, VgvError>(old_model));
                    }
                },
                None => {
                    frames.push(Frame::Unchanged(1));
                    proof {
                        assert(frame_views(frames@) =~= old_views.push(FrameView::Unchanged(1)));
                        lemma_replay_snoc(old_views, FrameView::Unchanged(1));
                    }
                },
            }
        } else if delta.is_some() {
            let d = delta.unwrap();
            let ghost dv = d@;
            frames.push(Frame::Delta(d));
            baseline = Some(svg_contents);
            proof {
                assert(frame_views(frames@) =~= old_views.push(FrameView::Delta(dv)));
                lemma_replay_snoc(old_views, FrameView::Delta(dv));
            }
        } else {
            let ghost cv = svg_contents@;
            frames.push(Frame::Full(svg_contents.clone()));
            baseline = Some(svg_contents);
            proof {
                assert(frame_views(frames@) =~= old_views.push(FrameView::Full(cv)));
                lemma_replay_snoc(old_views, FrameView::Full(cv));
            }
        }
        *self = Encoder {
            frames,
            last_frame_svg: baseline,
            full_diff_ratio,
            content_calls: content_calls + 1,
        };
        Ok(())
    }

    /// Sets how often a `Full` frame is forced; at least every frame.
    pub fn set_full_diff_ratio(&mut self, ratio: usize)
        requires
            ratio >= 1,
        ensures
            final(self).spec_ratio() == ratio,
            final(self).spec_frames() == old(self).spec_frames(),
            final(self).spec_baseline() == old(self).spec_baseline(),
            final(self).spec_calls() == old(self).spec_calls(),
    {
        proof {
            use_type_invariant(&*self);
        }
        self.full_diff_ratio = ratio;
    }

    /// The frames emitted so far.
    pub fn frames(&self) -> (r: &Vec<Frame>)
        ensures
            frame_views(r@) == self.spec_frames(),
    {
        &self.frames
    }

    /// How often a `Full` frame is forced.
    pub fn full_diff_ratio(&self) -> (r: usize)
        ensures
            r == self.spec_ratio(),
    {
        self.full_diff_ratio
    }

    /// The position the next content snapshot will occupy.
    pub fn content_calls(&self) -> (r: usize)
        ensures
            r == self.spec_calls(),
    {
        self.content_calls
    }

    /// The whole stream text: the magic line, then one line per frame.
    pub fn dump(&self) -> (r: String)
        ensures
            r@ == encode_stream_spec(self.spec_frames()),
    {
        let mut out = String::from_str(MAGIC);
        out.append("\n");
        let ghost views = frame_views(self.frames@);
        let mut i: usize = 0;
        proof {
            assert(views.take(0) =~= Seq::<FrameView>::empty());
        }
        while i < self.frames.len()
            invariant
                i <= self.frames@.len(),
                views == frame_views(self.frames@),
                out@ == encode_stream_spec(views.take(i as int)),
            decreases self.frames@.len() - i,
        {
            let line = self.frames[i].encode();
            out.append(line.as_str());
            out.append("\n");
            i = i + 1;
            proof {
                assert(views.take(i as int).drop_last() =~= views.take(i as int - 1));
            }
        }
        proof {
            assert(views.take(self.frames@.len() as int) =~= views);
        }
        out
    }

    /// Hands the finished frame list to a transcoder, consuming the
    /// encoder: the list is never mutated after consumption begins.
    pub fn transcode<T, U: crate::transcoders::Transcoder<T>>(self, transcoder: &mut U) -> Result<
        T,
        VgvError,
    > {
        let Encoder { frames, .. } = self;
        transcoder.encode(frames)
    }
}

} // verus!

