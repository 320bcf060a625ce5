//! Behavior of the encoder policy, the replay state machine, and the
//! export planning, with the real diff engine linked in.

use base64::prelude::{Engine, BASE64_STANDARD};
use vgv::export::{html_frames, plan_jobs};
use vgv::renderer::replay;
use vgv::{Encoder, Frame, Renderer, VGVParsable, VgvError};

fn init_frame() -> Frame {
    Frame::Initialization {
        d: 500,
        w: 320,
        h: 240,
        bg: "#000000".to_string(),
        svg: "".to_string(),
    }
}

fn tags(frames: &[Frame]) -> String {
    frames
        .iter()
        .map(|f| match f {
            Frame::Initialization { .. } => 'I',
            Frame::Style(_) => 'S',
            Frame::Full(_) => 'F',
            Frame::Delta(_) => 'D',
            Frame::Unchanged(_) => 'U',
        })
        .collect()
}

#[test]
fn round_trip_snapshots_through_encoder_and_renderer() {
    // Every snapshot fed to the encoder is reconstructed exactly when
    // the frames are replayed in order.
    let snapshots = [
        "<rect x=\"10\" y=\"10\"/>",
        "<rect x=\"22\" y=\"10\"/>",
        "<rect x=\"22\" y=\"10\"/>",
        "<rect x=\"22\" y=\"30\"/><circle r=\"4\"/>",
        "<circle r=\"4\"/>",
    ];
    let mut encoder = Encoder::new(init_frame());
    let mut renderer = Renderer::default();
    let mut replayed: usize = 0;
    for snapshot in snapshots {
        encoder.encode_svg(snapshot.to_string()).unwrap();
        // Replay any frames emitted so far and check the reconstruction.
        let frames = encoder.frames();
        while replayed < frames.len() {
            renderer.step(&frames[replayed]).unwrap();
            replayed += 1;
        }
        assert_eq!(renderer.svg_content, snapshot);
    }
}

#[test]
fn periodic_bound_forces_full_frames() {
    // With full_diff_ratio = 2, every 2nd content position carries a
    // Full frame (the initial frame occupies position 0).
    let mut encoder = Encoder::new(init_frame());
    encoder.set_full_diff_ratio(2);
    encoder.encode_svg("<a/>".to_string()).unwrap(); // position 1: bootstrap Full
    encoder.encode_svg("<b/>".to_string()).unwrap(); // position 2: periodic Full
    encoder.encode_svg("<c/>".to_string()).unwrap(); // position 3: delta
    encoder.encode_svg("<d/>".to_string()).unwrap(); // position 4: periodic Full
    encoder.encode_svg("<e/>".to_string()).unwrap(); // position 5: delta
    assert_eq!(tags(encoder.frames()), "IFFDFD");
}

#[test]
fn coalescing_identical_content() {
    // Identical content three times in a row, after an established
    // baseline, yields exactly one Unchanged(3) frame.
    let content = "<rect x=\"10\"/>";
    let mut encoder = Encoder::new(init_frame());
    assert_eq!(encoder.full_diff_ratio(), 100);
    assert_eq!(encoder.content_calls(), 1);
    encoder.encode_svg(content.to_string()).unwrap(); // bootstrap Full
    encoder.encode_svg(content.to_string()).unwrap();
    encoder.encode_svg(content.to_string()).unwrap();
    encoder.encode_svg(content.to_string()).unwrap();
    assert_eq!(tags(encoder.frames()), "IFU");
    match encoder.frames().last().unwrap() {
        Frame::Unchanged(count) => assert_eq!(*count, 3),
        other => panic!("expected an unchanged frame, got {other:?}"),
    }
}

#[test]
fn periodic_full_wins_over_coalescing() {
    // At a periodic boundary a Full frame is emitted even when the
    // content did not change.
    let mut encoder = Encoder::new(init_frame());
    encoder.set_full_diff_ratio(2);
    encoder.encode_svg("<a/>".to_string()).unwrap(); // position 1: bootstrap Full
    encoder.encode_svg("<a/>".to_string()).unwrap(); // position 2: periodic Full
    encoder.encode_svg("<a/>".to_string()).unwrap(); // position 3: coalesce
    assert_eq!(tags(encoder.frames()), "IFFU");
}

#[test]
fn delta_frames_patch_the_baseline() {
    let before = "<rect x=\"10\" y=\"10\"/>";
    let after = "<rect x=\"22\" y=\"10\"/>";
    let mut encoder = Encoder::new(init_frame());
    encoder.encode_svg(before.to_string()).unwrap();
    encoder.encode_svg(after.to_string()).unwrap();
    assert_eq!(tags(encoder.frames()), "IFD");
    let renderer = replay(encoder.frames()).unwrap();
    assert_eq!(renderer.svg_content, after);
}

#[test]
fn concrete_scenario_replays_four_images() {
    // An initialization, a full frame, a delta editing one attribute,
    // and a two-tick unchanged run: four renderable images in all, at
    // the declared 500 ms per frame.
    let first = "<rect width=\"10\" height=\"10\"/>";
    let second = "<rect width=\"22\" height=\"10\"/>";
    let mut encoder = Encoder::new(init_frame());
    encoder.encode_svg(first.to_string()).unwrap();
    encoder.encode_svg(second.to_string()).unwrap();
    encoder.encode_svg(second.to_string()).unwrap();
    encoder.encode_svg(second.to_string()).unwrap();
    assert_eq!(tags(encoder.frames()), "IFDU");

    // Through the wire text and back.
    let text = encoder.dump();
    let frames = text.parse_as_vgv().unwrap();
    assert_eq!(tags(&frames), "IFDU");

    // Frame 0 shows the 320x240 canvas with the first rect.
    let mut renderer = Renderer::default();
    renderer.step(&frames[0]).unwrap();
    renderer.step(&frames[1]).unwrap();
    assert_eq!(renderer.frame_duration, 500);
    assert_eq!(renderer.frame_dimensions, (320, 240));
    assert_eq!(renderer.svg_content, first);
    // Frame 1 shows the rect with its edited attribute.
    renderer.step(&frames[2]).unwrap();
    assert_eq!(renderer.svg_content, second);
    // Frames 2 and 3 repeat the image: four renderable images in all.
    let total: u32 = frames.iter().map(|f| f.triggers_new_images()).sum();
    assert_eq!(total, 4);
    let jobs = plan_jobs(&frames).unwrap();
    assert_eq!(jobs.len(), 4);
    assert!(jobs[1].markup.contains("width=\"22\""));
    assert_eq!(jobs[2].markup, jobs[1].markup);
    assert_eq!(jobs[3].markup, jobs[1].markup);
    assert_eq!((jobs[0].width, jobs[0].height), (320, 240));
}

#[test]
fn corrupted_delta_halts_replay() {
    let frames = vec![
        init_frame(),
        Frame::Full("<rect x=\"10\"/>".to_string()),
        // A delta that consumes more source text than there is.
        Frame::Delta("=9999".to_string()),
    ];
    let mut renderer = Renderer::default();
    renderer.step(&frames[0]).unwrap();
    renderer.step(&frames[1]).unwrap();
    let before = renderer.svg_content.clone();
    assert_eq!(renderer.step(&frames[2]), Err(VgvError::DiffEngine));
    // The failure is fatal but leaves no partial state behind.
    assert_eq!(renderer.svg_content, before);
    assert!(matches!(replay(&frames), Err(VgvError::DiffEngine)));
}

#[test]
fn undecodable_delta_is_rejected() {
    // A delta whose `+` body percent-decodes to bytes that are not
    // UTF-8 is turned away as a diff-engine error before the engine
    // sees it, with no state change.
    let mut renderer = Renderer::default();
    renderer.step(&Frame::Full("abc".to_string())).unwrap();
    let before = renderer.svg_content.clone();
    assert_eq!(
        renderer.step(&Frame::Delta("=3\t+%FF".to_string())),
        Err(VgvError::DiffEngine)
    );
    assert_eq!(renderer.svg_content, before);
    let mut parser = vgv::Parser::new();
    assert_eq!(
        parser.parse_incremental(&Frame::Delta("+%ff".to_string())),
        Err(VgvError::DiffEngine)
    );
    // A lone percent sign passes through the decoder unchanged, so it
    // is not a reason to reject.
    assert!(parser.parse_incremental(&Frame::Delta("+%".to_string())).is_ok());
}

#[test]
fn delta_round_trip_with_percent_encoded_content() {
    // Markup characters in inserted text travel percent-encoded inside
    // the delta and decode back exactly.
    let before = "<t>héllo</t>";
    let after = "<t>héllo wörld & \"more\"</t>";
    let mut encoder = Encoder::new(init_frame());
    encoder.encode_svg(before.to_string()).unwrap();
    encoder.encode_svg(after.to_string()).unwrap();
    assert_eq!(tags(encoder.frames()), "IFD");
    let renderer = replay(encoder.frames()).unwrap();
    assert_eq!(renderer.svg_content, after);
}

#[test]
fn reinitialization_is_an_error() {
    let mut renderer = Renderer::default();
    renderer.step(&init_frame()).unwrap();
    assert_eq!(renderer.step(&init_frame()), Err(VgvError::ReInitialization));
}

#[test]
fn stylesheets_accumulate() {
    let mut renderer = Renderer::default();
    renderer.step(&Frame::Style(".a{fill:red}".to_string())).unwrap();
    renderer.step(&Frame::Style(".b{fill:blue}".to_string())).unwrap();
    assert_eq!(renderer.stylesheet, ".a{fill:red}.b{fill:blue}");
}

#[test]
fn svg_tag_assembles_the_snapshot() {
    let mut renderer = Renderer::default();
    renderer
        .step(&Frame::Initialization {
            d: 100,
            w: 64,
            h: 48,
            bg: "#123456".to_string(),
            svg: "viewBox=\"0 0 64 48\"".to_string(),
        })
        .unwrap();
    renderer.step(&Frame::Full("<circle r=\"7\"/>".to_string())).unwrap();
    assert_eq!(
        renderer.svg_tag(),
        "<svg width=\"64\" height=\"48\" viewBox=\"0 0 64 48\">\
         <rect width=\"100%\" height=\"100%\" fill=\"#123456\"/><circle r=\"7\"/></svg>"
    );
    renderer.step(&Frame::Style("circle{fill:red}".to_string())).unwrap();
    assert_eq!(
        renderer.styled_svg_tag(),
        "<svg width=\"64\" height=\"48\" viewBox=\"0 0 64 48\">\
         <rect width=\"100%\" height=\"100%\" fill=\"#123456\"/><circle r=\"7\"/>\
         <style>circle{fill:red}</style></svg>"
    );
}

#[test]
fn plan_jobs_requires_an_initialization_frame() {
    let frames = vec![Frame::Full("<rect/>".to_string())];
    assert!(matches!(plan_jobs(&frames), Err(VgvError::Pipeline)));
    let frames: Vec<Frame> = Vec::new();
    assert!(matches!(plan_jobs(&frames), Err(VgvError::Pipeline)));
}

#[test]
fn unchanged_runs_repeat_raster_jobs() {
    let frames = vec![
        init_frame(),
        Frame::Full("<rect/>".to_string()),
        Frame::Unchanged(3),
        Frame::Full("<circle/>".to_string()),
    ];
    let jobs = plan_jobs(&frames).unwrap();
    assert_eq!(jobs.len(), 5);
    assert_eq!(jobs[0].markup, jobs[1].markup);
    assert_eq!(jobs[1].markup, jobs[3].markup);
    assert!(jobs[4].markup.contains("<circle/>"));
}

#[test]
fn html_frames_embed_base64_payloads() {
    let frames = vec![init_frame(), Frame::Full("<rect/>".to_string())];
    let (payloads, duration) = html_frames(&frames).unwrap();
    assert_eq!(duration, 500);
    assert_eq!(payloads.len(), 1);
    let expected_svg = "<svg width=\"320\" height=\"240\" >\
                        <rect width=\"100%\" height=\"100%\" fill=\"#000000\"/><rect/></svg>";
    assert_eq!(payloads[0].svg, BASE64_STANDARD.encode(expected_svg.as_bytes()));
    assert_eq!(payloads[0].style, BASE64_STANDARD.encode(""));
}

#[test]
fn parser_incremental_replay_builds_html() {
    let text = "vgv1\nI500\t320\t240\t#000000\tviewBox=\"0 0 1 1\"\nSsvg{display:block}\nF<rect/>";
    let mut parser = vgv::Parser::new();
    let frames = parser.parse_frames(text).unwrap();
    for frame in &frames {
        parser.parse_incremental(frame).unwrap();
    }
    assert_eq!(parser.frame_duration, 500);
    assert_eq!(parser.svg_attributes, "viewBox=\"0 0 1 1\"");
    assert_eq!(
        parser.output_html(),
        "<style>svg{display:block}\n</style>\n<svg viewBox=\"0 0 1 1\">\n<rect/>\n</svg>\n"
    );
}

struct TagCollector {
    seen: String,
}

impl vgv::Transcoder<String> for TagCollector {
    fn encode(&mut self, frames: Vec<Frame>) -> Result<String, VgvError> {
        self.seen = tags(&frames);
        Ok(self.seen.clone())
    }
}

#[test]
fn encoder_consumes_into_a_transcoder() {
    let mut encoder = Encoder::new(init_frame());
    encoder.encode_svg("<a/>".to_string()).unwrap();
    let mut collector = TagCollector { seen: String::new() };
    let result = encoder.transcode(&mut collector).unwrap();
    assert_eq!(result, "IF");
}
