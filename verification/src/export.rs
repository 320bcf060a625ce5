//! The compute side of the export pipelines: turning a frame sequence
//! into the ordered rasterization jobs a video muxer consumes, and into
//! the per-image payloads a playable document embeds.  The I/O around
//! them (worker thread, bounded queue, muxer subprocess, templating)
//! lives outside the library.

use vstd::prelude::*;

use base64::prelude::{Engine, BASE64_STANDARD};

use crate::renderer::{
    init_model, replay_model, step_model, svg_tag_model, styled_svg_tag_model, RenderModel,
    Renderer,
};
use crate::{frame_views, Frame, FrameView, VgvError};

verus! {

/// One rasterization job: the markup to render and the canvas size.
pub struct RasterJob {
    /// The snapshot markup, stylesheet embedded.
    pub markup: String,
    /// Canvas width in pixels.
    pub width: u32,
    /// Canvas height in pixels.
    pub height: u32,
}

/// The mathematical value of a [`RasterJob`].
pub struct JobView {
    pub markup: Seq<char>,
    pub width: u32,
    pub height: u32,
}

impl View for RasterJob {
    type V = JobView;

    open spec fn view(&self) -> JobView {
        JobView { markup: self.markup@, width: self.width, height: self.height }
    }
}

/// The views of a sequence of raster jobs.
pub open spec fn job_views(jobs: Seq<RasterJob>) -> Seq<JobView> {
    Seq::new(jobs.len(), |i: int| jobs[i]@)
}

/// The job that one replay state rasterizes to.
pub open spec fn job_of(m: RenderModel) -> JobView {
    JobView { markup: styled_svg_tag_model(m), width: m.width, height: m.height }
}

/// The jobs a frame sequence produces when replayed from state `m`:
/// after each frame, as many copies of the current image as the frame
/// declares (`Unchanged(count)` repeats the image `count` times, so the
/// video keeps its timing).
pub open spec fn jobs_from(m: RenderModel, frames: Seq<FrameView>) -> Result<Seq<JobView>, VgvError>
    decreases frames.len(),
{
    if frames.len() == 0 {
        Ok(Seq::empty())
    } else {
        match step_model(m, frames[0]) {
            Ok(m2) => match jobs_from(m2, frames.drop_first()) {
                Ok(tail) => Ok(
                    Seq::new(
                        frames[0].spec_triggers_new_images() as nat,
                        |i: int| job_of(m2),
                    ) + tail,
                ),
                Err(e) => Err(e),
            },
            Err(e) => Err(e),
        }
    }
}

/// What planning a whole export yields: the stream must open with an
/// `Initialization` frame, and every frame must replay cleanly.
pub open spec fn plan_jobs_spec(frames: Seq<FrameView>) -> Result<Seq<JobView>, VgvError> {
    if frames.len() == 0 || !(frames[0] is Initialization) {
        Err(VgvError::Pipeline)
    } else {
        match step_model(init_model(), frames[0]) {
            Ok(m) => jobs_from(m, frames.drop_first()),
            Err(e) => Err(e),
        }
    }
}

/// Replays the frame sequence and emits, in order, every rasterization
/// job of the stream: one per `Full` or `Delta` frame, `count` per
/// `Unchanged(count)` frame.
pub fn plan_jobs(frames: &Vec<Frame>) -> (r: Result<Vec<RasterJob>, VgvError>)
    ensures
        (r matches Ok(jobs) ==> plan_jobs_spec(frame_views(frames@)) == Ok::<
            Seq<JobView>,
            VgvError,
        >(job_views(jobs@))),
        (r matches Err(e) ==> plan_jobs_spec(frame_views(frames@)) == Err::<
            Seq<JobView>,
            VgvError,
        >(e)),
{
    let ghost fv = frame_views(frames@);
    let is_init = frames.len() > 0 && (match &frames[0] {
        Frame::Initialization { .. } => true,
        _ => false,
    });
    if !is_init {
        return Err(VgvError::Pipeline);
    }
    let mut rend = Renderer::default();
    let mut out: Vec<RasterJob> = Vec::new();
    match rend.step(&frames[0]) {
        Ok(()) => {},
        Err(e) => {
            return Err(e);
        },
    }
    let mut j: usize = 1;
    proof {
        assert(fv.drop_first().skip(0) =~= fv.drop_first());
        let r0 = jobs_from(rend@, fv.drop_first());
        if r0 is Ok {
            assert((job_views(out@) + r0->Ok_0) =~= r0->Ok_0);
        }
    }
    while j < frames.len()
        invariant
            1 <= j <= frames@.len(),
            fv == frame_views(frames@),
            fv.len() >= 1,
            plan_jobs_spec(fv) == (match jobs_from(rend@, fv.skip(j as int)) {
                Ok(tail) => Ok::<Seq<JobView>, VgvError>(job_views(out@) + tail),
                Err(e) => Err::<Seq<JobView>, VgvError>(e),
            }),
        decreases frames@.len() - j,
    {
        let ghost suffix = fv.skip(j as int);
        proof {
            assert(suffix.len() > 0);
            assert(suffix[0] == fv[j as int]);
            assert(suffix.drop_first() =~= fv.skip(j as int + 1));
        }
        let ghost pre = rend@;
        match rend.step(&frames[j]) {
            Ok(()) => {},
            Err(e) => {
                return Err(e);
            },
        }
        let ghost m2 = rend@;
        let count = frames[j].triggers_new_images();
        let markup = rend.styled_svg_tag();
        let width = rend.frame_dimensions.0;
        let height = rend.frame_dimensions.1;
        let ghost base = job_views(out@);
        let mut c: u32 = 0;
        while c < count
            invariant
                c <= count,
                job_views(out@) =~~= base + Seq::new(c as nat, |i: int| job_of(m2)),
                markup@ == styled_svg_tag_model(m2),
                width == m2.width,
                height == m2.height,
            decreases count - c,
        {
            let job = RasterJob { markup: markup.clone(), width, height };
            let ghost prevj = job_views(out@);
            out.push(job);
            proof {
                assert(job_views(out@) =~= prevj.push(job_of(m2)));
                assert(job_views(out@) =~~= base + Seq::new(c as nat + 1, |i: int| job_of(m2)));
            }
            c = c + 1;
        }
        proof {
            assert(count == fv[j as int].spec_triggers_new_images());
            let r2 = jobs_from(m2, fv.skip(j as int + 1));
            assert(jobs_from(pre, suffix) == (match r2 {
                Ok(tail) => Ok::<Seq<JobView>, VgvError>(
                    Seq::new(count as nat, |i: int| job_of(m2)) + tail,
                ),
                Err(e) => Err::<Seq<JobView>, VgvError>(e),
            }));
            if r2 is Ok {
                assert((base + (Seq::new(count as nat, |i: int| job_of(m2)) + r2->Ok_0)) =~= (
                job_views(out@) + r2->Ok_0));
            }
        }
        j = j + 1;
    }
    proof {
        assert(fv.skip(frames@.len() as int) =~= Seq::<FrameView>::empty());
        assert(job_views(out@) + Seq::<JobView>::empty() =~= job_views(out@));
    }
    Ok(out)
}

/// What an outside base64 encoder returns for a text: the standard
/// encoding of its UTF-8 bytes.
pub uninterp spec fn base64_of(s: Seq<char>) -> Seq<char>;

/// Relies on base64's `BASE64_STANDARD` engine: encodes the UTF-8 bytes
/// of the text with the standard alphabet and padding, a function of
/// the input alone; an empty input encodes to an empty string.
#[verifier::external_body]
fn to_base64(s: &str) -> (r: String)
    ensures
        r@ == base64_of(s@),
        s@.len() == 0 ==> r@.len() == 0,
{
    BASE64_STANDARD.encode(s.as_bytes())
}

/// One frame of a playable document: the snapshot markup and the
/// stylesheet, each base64-encoded for embedding.
pub struct HtmlFrame {
    /// The base64-encoded snapshot markup.
    pub svg: String,
    /// The base64-encoded cumulative stylesheet.
    pub style: String,
}

/// The mathematical value of an [`HtmlFrame`].
pub struct HtmlFrameView {
    pub svg: Seq<char>,
    pub style: Seq<char>,
}

impl View for HtmlFrame {
    type V = HtmlFrameView;

    open spec fn view(&self) -> HtmlFrameView {
        HtmlFrameView { svg: self.svg@, style: self.style@ }
    }
}

/// The views of a sequence of playable-document frames.
pub open spec fn html_frame_views(frames: Seq<HtmlFrame>) -> Seq<HtmlFrameView> {
    Seq::new(frames.len(), |i: int| frames[i]@)
}

/// The payload one replay state embeds into a playable document.
pub open spec fn html_frame_of(m: RenderModel) -> HtmlFrameView {
    HtmlFrameView { svg: base64_of(svg_tag_model(m)), style: base64_of(m.stylesheet) }
}

/// The payloads a frame sequence produces when replayed from state `m`:
/// one per `Full` or `Delta` frame (the player cycles at a fixed
/// interval, so `Unchanged` runs are not duplicated here).
pub open spec fn html_frames_from(m: RenderModel, frames: Seq<FrameView>) -> Result<
    Seq<HtmlFrameView>,
    VgvError,
>
    decreases frames.len(),
{
    if frames.len() == 0 {
        Ok(Seq::empty())
    } else {
        match step_model(m, frames[0]) {
            Ok(m2) => match html_frames_from(m2, frames.drop_first()) {
                Ok(tail) => Ok(
                    (if frames[0] is Full || frames[0] is Delta {
                        seq![html_frame_of(m2)]
                    } else {
                        Seq::empty()
                    }) + tail,
                ),
                Err(e) => Err(e),
            },
            Err(e) => Err(e),
        }
    }
}

/// Replays the frame sequence and emits the payloads of a playable
/// document, together with the declared frame duration in milliseconds.
pub fn html_frames(frames: &Vec<Frame>) -> (r: Result<(Vec<HtmlFrame>, u64), VgvError>)
    ensures
        (r matches Ok(p) ==> {
            &&& html_frames_from(init_model(), frame_views(frames@)) == Ok::<
                Seq<HtmlFrameView>,
                VgvError,
            >(html_frame_views(p.0@))
            &&& (replay_model(frame_views(frames@)) matches Ok(m) && p.1 == m.frame_duration)
        }),
        (r matches Err(e) ==> html_frames_from(init_model(), frame_views(frames@)) == Err::<
            Seq<HtmlFrameView>,
            VgvError,
        >(e)),
{
    let ghost fv = frame_views(frames@);
    let mut rend = Renderer::default();
    let mut out: Vec<HtmlFrame> = Vec::new();
    let mut j: usize = 0;
    proof {
        assert(fv.skip(0) =~= fv);
        assert(fv.take(0) =~= Seq::<FrameView>::empty());
        let r0 = html_frames_from(rend@, fv);
        if r0 is Ok {
            assert((html_frame_views(out@) + r0->Ok_0) =~= r0->Ok_0);
        }
    }
    while j < frames.len()
        invariant
            j <= frames@.len(),
            fv == frame_views(frames@),
            replay_model(fv.take(j as int)) == Ok::<RenderModel, VgvError>(rend@),
            html_frames_from(init_model(), fv) == (match html_frames_from(
                rend@,
                fv.skip(j as int),
            ) {
                Ok(tail) => Ok::<Seq<HtmlFrameView>, VgvError>(html_frame_views(out@) + tail),
                Err(e) => Err::<Seq<HtmlFrameView>, VgvError>(e),
            }),
        decreases frames@.len() - j,
    {
        let ghost suffix = fv.skip(j as int);
        proof {
            assert(suffix.len() > 0);
            assert(suffix[0] == fv[j as int]);
            assert(suffix.drop_first() =~= fv.skip(j as int + 1));
            crate::renderer::lemma_replay_snoc(fv.take(j as int), fv[j as int]);
            assert(fv.take(j as int).push(fv[j as int]) =~= fv.take(j as int + 1));
        }
        let ghost pre = rend@;
        match rend.step(&frames[j]) {
            Ok(()) => {},
            Err(e) => {
                return Err(e);
            },
        }
        let ghost m2 = rend@;
        let ghost prevh = html_frame_views(out@);
        let is_image = match &frames[j] {
            Frame::Full(_) => true,
            Frame::Delta(_) => true,
            _ => false,
        };
        proof {
            assert(fv[j as int] == frames@[j as int]@);
        }
        if is_image {
            let svg_markup = rend.svg_tag();
            let frame = HtmlFrame {
                svg: to_base64(svg_markup.as_str()),
                style: to_base64(rend.stylesheet.as_str()),
            };
            proof {
                assert(frame@ =~= html_frame_of(m2));
            }
            out.push(frame);
            proof {
                assert(html_frame_views(out@) =~= prevh.push(html_frame_of(m2)));
            }
        }
        proof {
            let r2 = html_frames_from(m2, fv.skip(j as int + 1));
            let emitted: Seq<HtmlFrameView> = if is_image {
                seq![html_frame_of(m2)]
            } else {
                Seq::empty()
            };
            assert(html_frames_from(pre, suffix) == (match r2 {
                Ok(tail) => Ok::<Seq<HtmlFrameView>, VgvError>(emitted + tail),
                Err(e) => Err::<Seq<HtmlFrameView>, VgvError>(e),
            }));
            if r2 is Ok {
                assert((prevh + (emitted + r2->Ok_0)) =~= (html_frame_views(out@) + r2->Ok_0));
            }
        }
        j = j + 1;
    }
    proof {
        assert(fv.skip(frames@.len() as int) =~= Seq::<FrameView>::empty());
        assert(html_frame_views(out@) + Seq::<HtmlFrameView>::empty() =~= html_frame_views(out@));
        assert(fv.take(frames@.len() as int) =~= fv);
    }
    let duration = rend.frame_duration;
    Ok((out, duration))
}

} // verus!
