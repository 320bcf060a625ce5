//! Behavior of the frame wire format: encoding, header validation,
//! line-by-line parsing and its errors.

use vgv::parser::MAGIC;
use vgv::{Frame, ParseFault, Parser, VGVParsable, VgvError};

fn frame_lines(frames: &[Frame]) -> Vec<String> {
    frames.iter().map(|f| f.encode()).collect()
}

#[test]
fn encode_unchanged_frame() {
    assert_eq!(Frame::Unchanged(3).encode(), "U3");
    assert_eq!(Frame::Unchanged(0).encode(), "U0");
    assert_eq!(Frame::Unchanged(4294967295).encode(), "U4294967295");
}

#[test]
fn encode_body_frames() {
    assert_eq!(Frame::Style(".a{fill:red}".to_string()).encode(), "S.a{fill:red}");
    assert_eq!(Frame::Full("<rect/>".to_string()).encode(), "F<rect/>");
    assert_eq!(Frame::Delta("=8\t-2\t+22\t=6".to_string()).encode(), "D=8\t-2\t+22\t=6");
}

#[test]
fn encode_strips_newlines() {
    assert_eq!(Frame::Full("<g>\n<rect/>\n</g>".to_string()).encode(), "F<g><rect/></g>");
    assert_eq!(Frame::Style("a\nb".to_string()).encode(), "Sab");
}

#[test]
fn encode_initialization_frame() {
    let frame = Frame::Initialization {
        d: 500,
        w: 320,
        h: 240,
        bg: "#000000".to_string(),
        svg: "viewBox=\"0 0 320 240\"".to_string(),
    };
    assert_eq!(frame.encode(), "I500\t320\t240\t#000000\tviewBox=\"0 0 320 240\"");
}

#[test]
fn magic_token_is_fixed() {
    assert_eq!(MAGIC, "vgv1");
}

#[test]
fn header_rejection() {
    // A stream whose first line is not the magic token fails wholesale:
    // no frames come back.
    let mut parser = Parser::new();
    let result = parser.parse_frames("vgv2\nF<rect/>");
    assert!(matches!(result, Err(VgvError::Header)));
    let result = parser.parse_frames("F<rect/>");
    assert!(matches!(result, Err(VgvError::Header)));
}

#[test]
fn empty_stream_has_no_frames() {
    let mut parser = Parser::new();
    assert!(parser.parse_frames("").unwrap().is_empty());
    assert!(parser.parse_frames("vgv1").unwrap().is_empty());
    assert!(parser.parse_frames("vgv1\n").unwrap().is_empty());
}

#[test]
fn malformed_initialization_cites_line_one() {
    let mut parser = Parser::new();
    let result = parser.parse_frames("vgv1\nI500\t100");
    assert_eq!(
        result.unwrap_err(),
        VgvError::Parse { line: 1, fault: ParseFault::MissingField }
    );
}

#[test]
fn bad_number_in_initialization() {
    let mut parser = Parser::new();
    let result = parser.parse_frames("vgv1\nI50x\t320\t240\t#fff\t");
    assert_eq!(result.unwrap_err(), VgvError::Parse { line: 1, fault: ParseFault::BadNumber });
    // A duration too large for u64 is rejected, not wrapped.
    let result = parser.parse_frames("vgv1\nI18446744073709551616\t320\t240\t#fff\t");
    assert_eq!(result.unwrap_err(), VgvError::Parse { line: 1, fault: ParseFault::BadNumber });
    // Width must fit in u32.
    let result = parser.parse_frames("vgv1\nI500\t4294967296\t240\t#fff\t");
    assert_eq!(result.unwrap_err(), VgvError::Parse { line: 1, fault: ParseFault::BadNumber });
}

#[test]
fn unchanged_count_parses_as_u32() {
    let mut parser = Parser::new();
    let frames = parser.parse_frames("vgv1\nU4294967295").unwrap();
    assert_eq!(frames.len(), 1);
    assert!(matches!(frames[0], Frame::Unchanged(4294967295)));
    let result = parser.parse_frames("vgv1\nU4294967296");
    assert_eq!(result.unwrap_err(), VgvError::Parse { line: 1, fault: ParseFault::BadNumber });
    let result = parser.parse_frames("vgv1\nU");
    assert_eq!(result.unwrap_err(), VgvError::Parse { line: 1, fault: ParseFault::BadNumber });
}

#[test]
fn reserved_audio_tag_is_rejected() {
    let mut parser = Parser::new();
    let result = parser.parse_frames("vgv1\nAsome-audio-bytes");
    assert_eq!(result.unwrap_err(), VgvError::UnsupportedFrame { line: 1, tag: 'A' });
}

#[test]
fn unknown_tag_is_rejected() {
    let mut parser = Parser::new();
    let result = parser.parse_frames("vgv1\nF<rect/>\nXwhat");
    assert_eq!(result.unwrap_err(), VgvError::UnsupportedFrame { line: 2, tag: 'X' });
}

#[test]
fn empty_line_is_rejected() {
    let mut parser = Parser::new();
    let result = parser.parse_frames("vgv1\nF<rect/>\n\nF<rect/>");
    assert_eq!(result.unwrap_err(), VgvError::Parse { line: 2, fault: ParseFault::EmptyLine });
}

#[test]
fn parse_frame_selects_variant_by_first_character() {
    let mut parser = Parser::new();
    assert!(matches!(parser.parse_frame("S.a{}"), Ok(Frame::Style(s)) if s == ".a{}"));
    assert!(matches!(parser.parse_frame("F<g/>"), Ok(Frame::Full(s)) if s == "<g/>"));
    assert!(matches!(parser.parse_frame("D=4"), Ok(Frame::Delta(s)) if s == "=4"));
    assert!(matches!(parser.parse_frame("U7"), Ok(Frame::Unchanged(7))));
    assert!(matches!(parser.parse_frame(""), Err(ParseFault::EmptyLine)));
}

#[test]
fn initialization_attributes_are_last_segment() {
    // The svg attributes are the last tab-separated segment; a tab
    // inside them keeps only what follows it (a wire-format constraint).
    let mut parser = Parser::new();
    let frames = parser.parse_frames("vgv1\nI500\t320\t240\t#abc\tfill=\"red\"").unwrap();
    match &frames[0] {
        Frame::Initialization { d, w, h, bg, svg } => {
            assert_eq!(*d, 500);
            assert_eq!(*w, 320);
            assert_eq!(*h, 240);
            assert_eq!(bg, "#abc");
            assert_eq!(svg, "fill=\"red\"");
        }
        other => panic!("expected an initialization frame, got {other:?}"),
    }
}

#[test]
fn crlf_lines_parse_like_lf_lines() {
    let mut parser = Parser::new();
    let frames = parser.parse_frames("vgv1\r\nF<rect/>\r\nU2\r\n").unwrap();
    assert_eq!(frame_lines(&frames), vec!["F<rect/>", "U2"]);
}

#[test]
fn parse_as_vgv_reads_a_whole_stream() {
    let text = "vgv1\nI500\t320\t240\t#000000\t\nF<rect/>\nU2".to_string();
    let frames = text.parse_as_vgv().unwrap();
    assert_eq!(
        frame_lines(&frames),
        vec!["I500\t320\t240\t#000000\t", "F<rect/>", "U2"]
    );
}

#[test]
fn dump_round_trips_through_the_parser() {
    let mut encoder = vgv::Encoder::new(Frame::Initialization {
        d: 40,
        w: 64,
        h: 64,
        bg: "#fff".to_string(),
        svg: "".to_string(),
    });
    encoder.encode_svg("<rect x=\"1\"/>".to_string()).unwrap();
    encoder.encode_svg("<rect x=\"2\"/>".to_string()).unwrap();
    encoder.encode_svg("<rect x=\"2\"/>".to_string()).unwrap();
    let text = encoder.dump();
    assert!(text.starts_with("vgv1\n"));
    assert!(text.ends_with("\n"));
    let original = frame_lines(encoder.frames());
    let reparsed = text.parse_as_vgv().unwrap();
    assert_eq!(frame_lines(&reparsed), original);
}
