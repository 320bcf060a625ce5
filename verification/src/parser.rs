//! The stream parser: validates the magic header, deserializes each
//! line into a frame, and offers an incremental replay of parsed frames
//! for building playable documents.

use vstd::prelude::*;

use crate::diff::{applied_of, apply_delta, check_delta, delta_decodable};
use crate::text::{
    chars_of, lines_of, lines_spec, parse_u32_range, parse_u32_spec, parse_u64_range,
    parse_u64_spec, seq_views, split_chars, split_on, string_of_range, vec_range,
};
use crate::{frame_views, Frame, FrameView, ParseFault, VgvError};

verus! {

/// The magic token that must be the first line of every stream.
pub const MAGIC: &'static str = "vgv1";

/// The characters of the magic token.
pub open spec fn magic() -> Seq<char> {
    seq!['v', 'g', 'v', '1']
}

/// What parsing the body of an `I` line yields.  The body splits on
/// tabs into duration, width, height and backdrop; the SVG attributes
/// are the last segment, so an attribute text must not itself contain a
/// tab (a constraint of the wire format).
pub open spec fn parse_init_spec(body: Seq<char>) -> Result<FrameView, ParseFault> {
    let parts = split_on(body, '\t');
    if parts.len() < 5 {
        Err(ParseFault::MissingField)
    } else {
        match (parse_u64_spec(parts[0]), parse_u32_spec(parts[1]), parse_u32_spec(parts[2])) {
            (Some(d), Some(w), Some(h)) => Ok(
                FrameView::Initialization { d, w, h, bg: parts[3], svg: parts.last() },
            ),
            _ => Err(ParseFault::BadNumber),
        }
    }
}

/// What parsing one frame line yields: the first character selects the
/// variant, the remainder is the body.
pub open spec fn parse_frame_spec(line: Seq<char>) -> Result<FrameView, ParseFault> {
    if line.len() == 0 {
        Err(ParseFault::EmptyLine)
    } else {
        let tag = line[0];
        let body = line.subrange(1, line.len() as int);
        if tag == 'S' {
            Ok(FrameView::Style(body))
        } else if tag == 'F' {
            Ok(FrameView::Full(body))
        } else if tag == 'D' {
            Ok(FrameView::Delta(body))
        } else if tag == 'U' {
            match parse_u32_spec(body) {
                Some(count) => Ok(FrameView::Unchanged(count)),
                None => Err(ParseFault::BadNumber),
            }
        } else if tag == 'I' {
            parse_init_spec(body)
        } else {
            Err(ParseFault::UnsupportedTag(tag))
        }
    }
}

/// The stream error for one line's fault, citing the 1-based frame line
/// number.
pub open spec fn fault_error(fault: ParseFault, line: int) -> VgvError {
    match fault {
        ParseFault::UnsupportedTag(tag) => VgvError::UnsupportedFrame { line: line as usize, tag },
        _ => VgvError::Parse { line: line as usize, fault },
    }
}

/// What parsing the frame lines yields, the first line numbered `idx`:
/// the frames in order, or the error of the first failing line.
pub open spec fn parse_lines_spec(ls: Seq<Seq<char>>, idx: int) -> Result<Seq<FrameView>, VgvError>
    decreases ls.len(),
{
    if ls.len() == 0 {
        Ok(Seq::empty())
    } else {
        match parse_frame_spec(ls[0]) {
            Ok(f) => match parse_lines_spec(ls.drop_first(), idx + 1) {
                Ok(rest) => Ok(seq![f] + rest),
                Err(e) => Err(e),
            },
            Err(fault) => Err(fault_error(fault, idx)),
        }
    }
}

/// What decoding a whole stream yields.  An empty text has no frames;
/// otherwise the first line must be the magic token, and every further
/// line must parse.
pub open spec fn parse_stream_spec(s: Seq<char>) -> Result<Seq<FrameView>, VgvError> {
    let ls = lines_spec(s);
    if ls.len() == 0 {
        Ok(Seq::empty())
    } else if ls[0] != magic() {
        Err(VgvError::Header)
    } else {
        parse_lines_spec(ls.drop_first(), 1)
    }
}

/// The mathematical state of a parser's incremental replay.
pub struct ParserModel {
    pub stylesheet: Seq<char>,
    pub svg_content: Seq<char>,
    pub frame_duration: u64,
    pub svg_attributes: Seq<char>,
}

/// The parser state before any frame has been replayed.
pub open spec fn parser_init_model() -> ParserModel {
    ParserModel {
        stylesheet: Seq::empty(),
        svg_content: Seq::empty(),
        frame_duration: 0,
        svg_attributes: Seq::empty(),
    }
}

/// How one frame advances the parser's incremental replay.  Unlike the
/// full renderer, the parser keeps no canvas geometry and accepts a
/// repeated `Initialization` by overwriting.
pub open spec fn parser_step_model(m: ParserModel, f: FrameView) -> Result<ParserModel, VgvError> {
    match f {
        FrameView::Unchanged(_) => Ok(m),
        FrameView::Style(rules) => Ok(ParserModel { stylesheet: m.stylesheet + rules, ..m }),
        FrameView::Full(content) => Ok(ParserModel { svg_content: content, ..m }),
        FrameView::Initialization { d, svg, .. } => Ok(
            ParserModel { frame_duration: d, svg_attributes: svg, ..m },
        ),
        FrameView::Delta(delta) => {
            if !delta_decodable(delta) {
                Err(VgvError::DiffEngine)
            } else {
                match applied_of(m.svg_content, delta) {
                    Some(content) => Ok(ParserModel { svg_content: content, ..m }),
                    None => Err(VgvError::DiffEngine),
                }
            }
        },
    }
}

/// The playable markup of the current replay state: the stylesheet and
/// the content wrapped in `style` and `svg` elements.
pub open spec fn output_html_model(m: ParserModel) -> Seq<char> {
    "<style>"@ + m.stylesheet + "\n</style>\n<svg "@ + m.svg_attributes + ">\n"@ + m.svg_content
        + "\n</svg>\n"@
}

/// Anything whose text can be decoded as a VGV stream.
pub trait VGVParsable: View<V = Seq<char>> {
    /// Decodes the text as a whole VGV stream, like a fresh parser
    /// would, leaving `self` untouched.
    fn parse_as_vgv(&self) -> (r: Result<Vec<Frame>, VgvError>)
        ensures
            (r matches Ok(frames) ==> parse_stream_spec(self@) == Ok::<
                Seq<FrameView>,
                VgvError,
            >(frame_views(frames@))),
            (r matches Err(e) ==> parse_stream_spec(self@) == Err::<Seq<FrameView>, VgvError>(e)),
    ;
}

impl VGVParsable for String {
    fn parse_as_vgv(&self) -> (r: Result<Vec<Frame>, VgvError>) {
        let mut parser = Parser::new();
        parser.parse_frames(self.as_str())
    }
}

/// The stream parser and its incremental replay state.
pub struct Parser {
    /// The cumulative stylesheet of the incremental replay.
    pub stylesheet: String,
    /// The current reconstructed content of the incremental replay.
    pub svg_content: String,
    /// Duration of each rendered frame in milliseconds.
    pub frame_duration: u64,
    /// Attributes added to the `<svg>` element.
    pub svg_attributes: String,
}

impl View for Parser {
    type V = ParserModel;

    open spec fn view(&self) -> ParserModel {
        ParserModel {
            stylesheet: self.stylesheet@,
            svg_content: self.svg_content@,
            frame_duration: self.frame_duration,
            svg_attributes: self.svg_attributes@,
        }
    }
}

impl Default for Parser {
    /// A parser that has replayed nothing.
    fn default() -> (r: Self)
        ensures
            r@ == parser_init_model(),
    {
        let r = Parser {
            stylesheet: String::new(),
            svg_content: String::new(),
            frame_duration: 0,
            svg_attributes: String::new(),
        };
        proof {
            assert(r@ =~= parser_init_model());
        }
        r
    }
}

impl Parser {
    /// A parser that has replayed nothing.
    pub fn new() -> (r: Self)
        ensures
            r@ == parser_init_model(),
    {
        Self::default()
    }

    /// Decodes a whole stream into its frame sequence: the first line
    /// must be the magic token, and each further line one frame.  The
    /// error cites the first failing line, numbered 1 after the magic
    /// line, and the replay state is untouched.
    pub fn parse_frames(&mut self, raw_frames: &str) -> (r: Result<Vec<Frame>, VgvError>)
        ensures
            (r matches Ok(frames) ==> parse_stream_spec(raw_frames@) == Ok::<
                Seq<FrameView>,
                VgvError,
            >(frame_views(frames@))),
            (r matches Err(e) ==> parse_stream_spec(raw_frames@) == Err::<
                Seq<FrameView>,
                VgvError,
            >(e)),
            *final(self) == *old(self),
    {
        let v = chars_of(raw_frames);
        let lines = lines_of(&v);
        let ghost lsv = lines_spec(raw_frames@);
        let mut out: Vec<Frame> = Vec::new();
        if lines.len() == 0 {
            proof {
                assert(frame_views(out@) =~= Seq::<FrameView>::empty());
            }
            return Ok(out);
        }
        let first = &lines[0];
        let magic_ok = first.len() == 4 && first[0] == 'v' && first[1] == 'g' && first[2] == 'v'
            && first[3] == '1';
        proof {
            assert(lsv[0] == lines@[0]@);
            if magic_ok {
                assert(lsv[0] =~= magic());
            } else {
                assert(lsv[0] != magic());
            }
        }
        if !magic_ok {
            return Err(VgvError::Header);
        }
        let ghost rest = lsv.drop_first();
        let mut j: usize = 1;
        proof {
            assert(rest.skip(0) =~= rest);
            let r0 = parse_lines_spec(rest, 1);
            if r0 is Ok {
                assert((frame_views(out@) + r0->Ok_0) =~= r0->Ok_0);
            }
        }
        while j < lines.len()
            invariant
                1 <= j <= lines@.len(),
                seq_views(lines@) == lsv,
                lsv == lines_spec(raw_frames@),
                lsv.len() >= 1,
                lsv[0] == magic(),
                rest == lsv.drop_first(),
                parse_stream_spec(raw_frames@) == (match parse_lines_spec(
                    rest.skip(j - 1),
                    j as int,
                ) {
                    Ok(tail) => Ok::<Seq<FrameView>, VgvError>(frame_views(out@) + tail),
                    Err(e) => Err::<Seq<FrameView>, VgvError>(e),
                }),
            decreases lines@.len() - j,
        {
            let ghost suffix = rest.skip(j - 1);
            proof {
                assert(suffix.len() > 0);
                assert(suffix[0] == lsv[j as int]);
                assert(suffix.drop_first() =~= rest.skip(j as int));
                assert(lsv[j as int] == lines@[j as int]@);
            }
            match Self::parse_frame_chars(&lines[j]) {
                Ok(frame) => {
                    let ghost fv = frame@;
                    let ghost prevf = frame_views(out@);
                    out.push(frame);
                    proof {
                        assert(parse_frame_spec(suffix[0]) == Ok::<FrameView, ParseFault>(fv));
                        assert(frame_views(out@) =~= prevf.push(fv));
                        let r2 = parse_lines_spec(rest.skip(j as int), j as int + 1);
                        if r2 is Ok {
                            assert((prevf + (seq![fv] + r2->Ok_0)) =~= (prevf.push(fv)
                                + r2->Ok_0));
                        }
                    }
                },
                Err(fault) => {
                    proof {
                        assert(parse_frame_spec(suffix[0]) == Err::<FrameView, ParseFault>(fault));
                        assert(parse_lines_spec(suffix, j as int) == Err::<
                            Seq<FrameView>,
                            VgvError,
                        >(fault_error(fault, j as int)));
                    }
                    let e = match fault {
                        ParseFault::UnsupportedTag(tag) => VgvError::UnsupportedFrame {
                            line: j,
                            tag,
                        },
                        _ => VgvError::Parse { line: j, fault },
                    };
                    return Err(e);
                },
            }
            j = j + 1;
        }
        proof {
            assert(rest.skip(lines@.len() - 1) =~= Seq::<Seq<char>>::empty());
            assert(frame_views(out@) + Seq::<FrameView>::empty() =~= frame_views(out@));
        }
        Ok(out)
    }

    /// Parses one frame line: the first character selects the variant,
    /// the remainder is the body.  The replay state is untouched.
    pub fn parse_frame(&mut self, raw_frame: &str) -> (r: Result<Frame, ParseFault>)
        ensures
            (r matches Ok(frame) ==> parse_frame_spec(raw_frame@) == Ok::<
                FrameView,
                ParseFault,
            >(frame@)),
            (r matches Err(fault) ==> parse_frame_spec(raw_frame@) == Err::<
                FrameView,
                ParseFault,
            >(fault)),
            *final(self) == *old(self),
    {
        let v = chars_of(raw_frame);
        Self::parse_frame_chars(&v)
    }

    /// Parses one frame line given as characters.
    fn parse_frame_chars(v: &Vec<char>) -> (r: Result<Frame, ParseFault>)
        ensures
            (r matches Ok(frame) ==> parse_frame_spec(v@) == Ok::<FrameView, ParseFault>(frame@)),
            (r matches Err(fault) ==> parse_frame_spec(v@) == Err::<FrameView, ParseFault>(fault)),
    {
        if v.len() == 0 {
            return Err(ParseFault::EmptyLine);
        }
        let tag = v[0];
        let n = v.len();
        let ghost body = v@.subrange(1, v@.len() as int);
        if tag == 'S' {
            Ok(Frame::Style(string_of_range(v, 1, n)))
        } else if tag == 'F' {
            Ok(Frame::Full(string_of_range(v, 1, n)))
        } else if tag == 'D' {
            Ok(Frame::Delta(string_of_range(v, 1, n)))
        } else if tag == 'U' {
            match parse_u32_range(v, 1, n) {
                Some(count) => Ok(Frame::Unchanged(count)),
                None => Err(ParseFault::BadNumber),
            }
        } else if tag == 'I' {
            let bodyv = vec_range(v, 1, n);
            let parts = split_chars(&bodyv, '\t');
            let ghost sp = split_on(body, '\t');
            proof {
                assert(seq_views(parts@) == sp);
            }
            if parts.len() < 5 {
                return Err(ParseFault::MissingField);
            }
            proof {
                assert(parts@[0]@ == sp[0]);
                assert(parts@[1]@ == sp[1]);
                assert(parts@[2]@ == sp[2]);
                assert(parts@[3]@ == sp[3]);
                assert(parts@[parts@.len() - 1]@ == sp.last());
            }
            let d = parse_u64_range(&parts[0], 0, parts[0].len());
            let w = parse_u32_range(&parts[1], 0, parts[1].len());
            let h = parse_u32_range(&parts[2], 0, parts[2].len());
            proof {
                assert(parts@[0]@.subrange(0, parts@[0]@.len() as int) =~= sp[0]);
                assert(parts@[1]@.subrange(0, parts@[1]@.len() as int) =~= sp[1]);
                assert(parts@[2]@.subrange(0, parts@[2]@.len() as int) =~= sp[2]);
            }
            match (d, w, h) {
                (Some(d), Some(w), Some(h)) => {
                    let bg = string_of_range(&parts[3], 0, parts[3].len());
                    let last = parts.len() - 1;
                    let svg = string_of_range(&parts[last], 0, parts[last].len());
                    proof {
                        assert(bg@ =~= sp[3]);
                        assert(svg@ =~= sp.last());
                    }
                    Ok(Frame::Initialization { d, w, h, bg, svg })
                },
                _ => Err(ParseFault::BadNumber),
            }
        } else {
            // The audio tag is reserved but unimplemented: it is
            // rejected like any unknown tag, never silently ignored.
            Err(ParseFault::UnsupportedTag(tag))
        }
    }

    /// Replays one parsed frame into the incremental state: styles
    /// append, full content replaces, a delta patches the current
    /// content, initialization sets timing and attributes.  A delta the
    /// engine rejects is fatal and leaves the state untouched.
    pub fn parse_incremental(&mut self, frame: &Frame) -> (r: Result<(), VgvError>)
        ensures
            (r matches Ok(()) ==> parser_step_model(old(self)@, frame@) == Ok::<
                ParserModel,
                VgvError,
            >(final(self)@)),
            (r matches Err(e) ==> parser_step_model(old(self)@, frame@) == Err::<
                ParserModel,
                VgvError,
            >(e) && final(self)@ == old(self)@),
    {
        match frame {
            Frame::Unchanged(_) => {},
            Frame::Style(rules) => {
                self.stylesheet.append(rules.as_str());
            },
            Frame::Full(content) => {
                self.svg_content = content.clone();
            },
            Frame::Initialization { d, svg, .. } => {
                self.frame_duration = *d;
                self.svg_attributes = svg.clone();
            },
            Frame::Delta(delta) => {
                if !check_delta(delta.as_str()) {
                    proof {
                        assert(final(self)@ =~= old(self)@);
                    }
                    return Err(VgvError::DiffEngine);
                }
                let applied = apply_delta(self.svg_content.as_str(), delta.as_str());
                match applied {
                    Ok(content) => {
                        self.svg_content = content;
                    },
                    Err(e) => {
                        proof {
                            assert(final(self)@ =~= old(self)@);
                        }
                        return Err(e);
                    },
                }
            },
        }
        proof {
            assert(parser_step_model(old(self)@, frame@) == Ok::<ParserModel, VgvError>(
                final(self)@,
            ));
        }
        Ok(())
    }

    /// The playable markup of the current replay state.
    pub fn output_html(&self) -> (r: String)
        ensures
            r@ == output_html_model(self@),
    {
        let mut html = String::from_str("<style>");
        html.append(self.stylesheet.as_str());
        html.append("\n</style>\n<svg ");
        html.append(self.svg_attributes.as_str());
        html.append(">\n");
        html.append(self.svg_content.as_str());
        html.append("\n</svg>\n");
        proof {
            assert(html@ =~= output_html_model(self@));
        }
        html
    }
}

} // verus!
