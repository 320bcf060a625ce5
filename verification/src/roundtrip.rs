//! The codec round-trip laws: a frame whose fields respect the wire
//! format's constraints survives encoding and decoding unchanged, and
//! so does a whole frame sequence through the stream text.

use vstd::prelude::*;

use crate::encoder::{encode_stream_spec, frame_line};
use crate::parser::{magic, parse_frame_spec, parse_lines_spec, parse_stream_spec};
use crate::text::{
    all_digits, chomp_cr, dec_digits, free_of, lemma_dec_digits_digits, lemma_dec_val_of_digits,
    lemma_free_of_concat, lemma_split_concat, lemma_split_extend, lemma_split_on_len,
    lemma_split_single, lemma_strip_nl_free, lemma_strip_nl_id, lines_spec, parse_u32_spec,
    parse_u64_spec, split_on, strip_nl,
};
use crate::{FrameView, ParseFault, VgvError};

verus! {

/// Whether a sequence may stand as the tail of a frame body: a final
/// carriage return would be taken for a line terminator's and lost.
pub open spec fn tail_safe(s: Seq<char>) -> bool {
    s.len() > 0 ==> s.last() != '\r'
}

/// Whether a frame's fields respect the wire format: no body holds a
/// newline, an `Initialization` backdrop or attribute text holds no tab,
/// and the body does not end in a carriage return.
pub open spec fn wire_safe(f: FrameView) -> bool {
    match f {
        FrameView::Unchanged(_) => true,
        FrameView::Style(s) => free_of(s, '\n') && tail_safe(s),
        FrameView::Full(s) => free_of(s, '\n') && tail_safe(s),
        FrameView::Delta(s) => free_of(s, '\n') && tail_safe(s),
        FrameView::Initialization { bg, svg, .. } => free_of(bg, '\n') && free_of(bg, '\t')
            && free_of(svg, '\n') && free_of(svg, '\t') && tail_safe(svg),
    }
}

/// Digit characters are line-safe: no digit is a newline, tab or
/// carriage return.
proof fn lemma_digits_line_safe(s: Seq<char>)
    requires
        all_digits(s),
    ensures
        free_of(s, '\n'),
        free_of(s, '\t'),
        free_of(s, '\r'),
{
}

/// The tab-joined body of an `Initialization` frame, before newline
/// stripping.
spec fn init_body(d: u64, w: u32, h: u32, bg: Seq<char>, svg: Seq<char>) -> Seq<char> {
    dec_digits(d as nat) + seq!['\t'] + dec_digits(w as nat) + seq!['\t'] + dec_digits(h as nat)
        + seq!['\t'] + bg + seq!['\t'] + svg
}

/// The `Initialization` body is newline-free and splits on tabs into
/// exactly its five fields.
#[verifier::rlimit(60)]
proof fn lemma_init_body(d: u64, w: u32, h: u32, bg: Seq<char>, svg: Seq<char>)
    requires
        free_of(bg, '\n'),
        free_of(bg, '\t'),
        free_of(svg, '\n'),
        free_of(svg, '\t'),
    ensures
        free_of(init_body(d, w, h, bg, svg), '\n'),
        split_on(init_body(d, w, h, bg, svg), '\t') == seq![
            dec_digits(d as nat),
            dec_digits(w as nat),
            dec_digits(h as nat),
            bg,
            svg,
        ],
        frame_line(FrameView::Initialization { d, w, h, bg, svg }) == seq!['I'] + init_body(
            d,
            w,
            h,
            bg,
            svg,
        ),
{
    reveal_strlit("I");
    reveal_strlit("\t");
    let dd = dec_digits(d as nat);
    let ww = dec_digits(w as nat);
    let hh = dec_digits(h as nat);
    lemma_dec_digits_digits(d as nat);
    lemma_dec_digits_digits(w as nat);
    lemma_dec_digits_digits(h as nat);
    lemma_digits_line_safe(dd);
    lemma_digits_line_safe(ww);
    lemma_digits_line_safe(hh);
    let tab = seq!['\t'];
    let body = init_body(d, w, h, bg, svg);
    assert(free_of(tab, '\n'));
    lemma_free_of_concat(dd, tab, '\n');
    lemma_free_of_concat(dd + tab, ww, '\n');
    lemma_free_of_concat(dd + tab + ww, tab, '\n');
    lemma_free_of_concat(dd + tab + ww + tab, hh, '\n');
    lemma_free_of_concat(dd + tab + ww + tab + hh, tab, '\n');
    lemma_free_of_concat(dd + tab + ww + tab + hh + tab, bg, '\n');
    lemma_free_of_concat(dd + tab + ww + tab + hh + tab + bg, tab, '\n');
    lemma_free_of_concat(dd + tab + ww + tab + hh + tab + bg + tab, svg, '\n');
    // Split the body one separator at a time, from the right.
    let t4 = bg + tab + svg;
    let t3 = hh + tab + t4;
    let t2 = ww + tab + t3;
    lemma_split_single(svg, '\t');
    lemma_split_concat(bg, svg, '\t');
    lemma_split_single(bg, '\t');
    assert(split_on(t4, '\t') =~~= seq![bg, svg]);
    lemma_split_concat(hh, t4, '\t');
    lemma_split_single(hh, '\t');
    assert(split_on(t3, '\t') =~~= seq![hh, bg, svg]);
    lemma_split_concat(ww, t3, '\t');
    lemma_split_single(ww, '\t');
    assert(split_on(t2, '\t') =~~= seq![ww, hh, bg, svg]);
    assert(body =~= dd + tab + t2);
    lemma_split_concat(dd, t2, '\t');
    lemma_split_single(dd, '\t');
    assert(split_on(body, '\t') =~~= seq![dd, ww, hh, bg, svg]);
    // The wire line wraps the body unchanged.
    lemma_strip_nl_id(body);
    let f = FrameView::Initialization { d, w, h, bg, svg };
    assert(frame_line(f) == "I"@ + strip_nl(
        dd + "\t"@ + ww + "\t"@ + hh + "\t"@ + bg + "\t"@ + svg,
    ));
    assert(dd + "\t"@ + ww + "\t"@ + hh + "\t"@ + bg + "\t"@ + svg =~= body);
    assert(frame_line(f) =~= seq!['I'] + body);
}

/// No wire line ever holds a newline, whatever the frame's fields: the
/// encoder strips newlines on write, so a newline inside a field is
/// unrepresentable in the line-oriented format.
pub proof fn lemma_frame_line_newline_free(f: FrameView)
    ensures
        free_of(frame_line(f), '\n'),
{
    reveal_strlit("U");
    reveal_strlit("S");
    reveal_strlit("F");
    reveal_strlit("D");
    reveal_strlit("I");
    match f {
        FrameView::Unchanged(count) => {
            lemma_dec_digits_digits(count as nat);
            lemma_digits_line_safe(dec_digits(count as nat));
            lemma_free_of_concat("U"@, dec_digits(count as nat), '\n');
        },
        FrameView::Style(s) => {
            lemma_strip_nl_free(s);
            lemma_free_of_concat("S"@, strip_nl(s), '\n');
        },
        FrameView::Full(s) => {
            lemma_strip_nl_free(s);
            lemma_free_of_concat("F"@, strip_nl(s), '\n');
        },
        FrameView::Delta(s) => {
            lemma_strip_nl_free(s);
            lemma_free_of_concat("D"@, strip_nl(s), '\n');
        },
        FrameView::Initialization { d, w, h, bg, svg } => {
            let body = dec_digits(d as nat) + "\t"@ + dec_digits(w as nat) + "\t"@ + dec_digits(
                h as nat,
            ) + "\t"@ + bg + "\t"@ + svg;
            lemma_strip_nl_free(body);
            lemma_free_of_concat("I"@, strip_nl(body), '\n');
        },
    }
}

/// The wire line of a wire-safe frame parses back to that frame.
#[verifier::rlimit(60)]
pub proof fn lemma_frame_line_round_trip(f: FrameView)
    requires
        wire_safe(f),
    ensures
        parse_frame_spec(frame_line(f)) == Ok::<FrameView, ParseFault>(f),
{
    reveal_strlit("U");
    reveal_strlit("S");
    reveal_strlit("F");
    reveal_strlit("D");
    match f {
        FrameView::Unchanged(count) => {
            let line = frame_line(f);
            lemma_dec_digits_digits(count as nat);
            lemma_dec_val_of_digits(count as nat);
            assert(line[0] == 'U');
            assert(line.subrange(1, line.len() as int) =~= dec_digits(count as nat));
            assert(parse_u32_spec(dec_digits(count as nat)) == Some(count));
        },
        FrameView::Style(s) => {
            let line = frame_line(f);
            lemma_strip_nl_id(s);
            assert(line[0] == 'S');
            assert(line.subrange(1, line.len() as int) =~= s);
        },
        FrameView::Full(s) => {
            let line = frame_line(f);
            lemma_strip_nl_id(s);
            assert(line[0] == 'F');
            assert(line.subrange(1, line.len() as int) =~= s);
        },
        FrameView::Delta(s) => {
            let line = frame_line(f);
            lemma_strip_nl_id(s);
            assert(line[0] == 'D');
            assert(line.subrange(1, line.len() as int) =~= s);
        },
        FrameView::Initialization { d, w, h, bg, svg } => {
            lemma_init_body(d, w, h, bg, svg);
            lemma_dec_val_of_digits(d as nat);
            lemma_dec_val_of_digits(w as nat);
            lemma_dec_val_of_digits(h as nat);
            lemma_dec_digits_digits(d as nat);
            lemma_dec_digits_digits(w as nat);
            lemma_dec_digits_digits(h as nat);
            let body = init_body(d, w, h, bg, svg);
            let line = frame_line(f);
            assert(line == seq!['I'] + body);
            assert(line[0] == 'I');
            assert(line.subrange(1, line.len() as int) =~= body);
            let parts = split_on(body, '\t');
            assert(parts.len() == 5);
            assert(parse_u64_spec(parts[0]) == Some(d));
            assert(parse_u32_spec(parts[1]) == Some(w));
            assert(parse_u32_spec(parts[2]) == Some(h));
            assert(parts[3] == bg);
            assert(parts.last() == svg);
        },
    }
}

/// The wire line of a wire-safe frame is never empty, never holds a
/// newline, and does not lose its tail to line chomping.
proof fn lemma_frame_line_shape(f: FrameView)
    requires
        wire_safe(f),
    ensures
        frame_line(f).len() >= 1,
        free_of(frame_line(f), '\n'),
        chomp_cr(frame_line(f)) == frame_line(f),
{
    reveal_strlit("U");
    reveal_strlit("S");
    reveal_strlit("F");
    reveal_strlit("D");
    reveal_strlit("I");
    match f {
        FrameView::Unchanged(count) => {
            lemma_dec_digits_digits(count as nat);
            lemma_digits_line_safe(dec_digits(count as nat));
            assert(free_of("U"@, '\n'));
            lemma_free_of_concat("U"@, dec_digits(count as nat), '\n');
            assert(frame_line(f).last() == dec_digits(count as nat).last());
        },
        FrameView::Style(s) => {
            lemma_tagged_line_shape('S', s);
            assert(frame_line(f) =~= seq!['S'] + strip_nl(s));
        },
        FrameView::Full(s) => {
            lemma_tagged_line_shape('F', s);
            assert(frame_line(f) =~= seq!['F'] + strip_nl(s));
        },
        FrameView::Delta(s) => {
            lemma_tagged_line_shape('D', s);
            assert(frame_line(f) =~= seq!['D'] + strip_nl(s));
        },
        FrameView::Initialization { d, w, h, bg, svg } => {
            lemma_init_body(d, w, h, bg, svg);
            let body = init_body(d, w, h, bg, svg);
            assert(free_of(seq!['I'], '\n'));
            lemma_free_of_concat(seq!['I'], body, '\n');
            if svg.len() > 0 {
                assert(frame_line(f).last() == svg.last());
            } else {
                assert(frame_line(f).last() == '\t');
            }
        },
    }
}

/// A tagged line over a newline-free, carriage-return-tail-safe body is
/// itself newline-free and keeps its last character under `chomp_cr`.
proof fn lemma_tagged_line_shape(tag: char, s: Seq<char>)
    requires
        free_of(s, '\n'),
        tail_safe(s),
        tag != '\n',
        tag != '\r',
    ensures
        free_of(seq![tag] + strip_nl(s), '\n'),
        chomp_cr(seq![tag] + strip_nl(s)) == seq![tag] + strip_nl(s),
        (seq![tag] + strip_nl(s)).len() >= 1,
{
    lemma_strip_nl_id(s);
    let line = seq![tag] + s;
    assert(free_of(seq![tag], '\n'));
    lemma_free_of_concat(seq![tag], s, '\n');
    if s.len() > 0 {
        assert(line.last() == s.last());
    } else {
        assert(line.last() == tag);
    }
    assert(seq![tag] + strip_nl(s) =~= line);
}

/// The segments of an encoded stream: the magic line, one line per
/// frame, and the empty segment after the final terminator.
proof fn lemma_stream_lines(frames: Seq<FrameView>)
    requires
        forall|i: int| 0 <= i < frames.len() ==> wire_safe(#[trigger] frames[i]),
    ensures
        split_on(encode_stream_spec(frames), '\n') =~~= seq![magic()] + Seq::new(
            frames.len(),
            |i: int| frame_line(frames[i]),
        ) + seq![Seq::<char>::empty()],
    decreases frames.len(),
{
    reveal_strlit("vgv1");
    reveal_strlit("\n");
    if frames.len() == 0 {
        assert(encode_stream_spec(frames) == "vgv1"@ + "\n"@);
        assert(encode_stream_spec(frames) =~= magic() + seq!['\n'] + Seq::<char>::empty());
        lemma_split_concat(magic(), Seq::empty(), '\n');
        lemma_split_single(magic(), '\n');
        assert(split_on(encode_stream_spec(frames), '\n') =~~= seq![magic()] + Seq::new(
            0,
            |i: int| frame_line(frames[i]),
        ) + seq![Seq::<char>::empty()]);
    } else {
        let prev = frames.drop_last();
        lemma_stream_lines(prev);
        let last_line = frame_line(frames.last());
        lemma_frame_line_shape(frames.last());
        let ep = encode_stream_spec(prev);
        assert(encode_stream_spec(frames) == ep + last_line + "\n"@);
        lemma_split_extend(ep, last_line, '\n');
        lemma_split_on_len(ep, '\n');
        let rp = split_on(ep, '\n');
        assert(rp.last() == Seq::<char>::empty());
        assert(rp.last() + last_line =~= last_line);
        assert(ep + last_line + "\n"@ =~= (ep + last_line) + seq!['\n'] + Seq::<char>::empty());
        lemma_split_concat(ep + last_line, Seq::empty(), '\n');
        assert(split_on(encode_stream_spec(frames), '\n') =~~= split_on(ep + last_line, '\n')
            + seq![Seq::<char>::empty()]);
        assert(split_on(ep + last_line, '\n') =~~= rp.update(rp.len() - 1, last_line));
        assert(split_on(encode_stream_spec(frames), '\n') =~~= seq![magic()] + Seq::new(
            frames.len(),
            |i: int| frame_line(frames[i]),
        ) + seq![Seq::<char>::empty()]);
    }
}

/// Parsing the lines of wire-safe frames recovers the frames.
proof fn lemma_parse_frame_lines(frames: Seq<FrameView>, idx: int)
    requires
        forall|i: int| 0 <= i < frames.len() ==> wire_safe(#[trigger] frames[i]),
    ensures
        parse_lines_spec(Seq::new(frames.len(), |i: int| frame_line(frames[i])), idx) == Ok::<
            Seq<FrameView>,
            VgvError,
        >(frames),
    decreases frames.len(),
{
    let ls = Seq::new(frames.len(), |i: int| frame_line(frames[i]));
    if frames.len() == 0 {
        assert(frames =~= Seq::<FrameView>::empty());
        assert(parse_lines_spec(ls, idx) == Ok::<Seq<FrameView>, VgvError>(Seq::empty()));
    } else {
        lemma_frame_line_round_trip(frames[0]);
        let tail = frames.drop_first();
        lemma_parse_frame_lines(tail, idx + 1);
        assert(ls.drop_first() =~~= Seq::new(tail.len(), |i: int| frame_line(tail[i])));
        assert(parse_frame_spec(ls[0]) == Ok::<FrameView, ParseFault>(frames[0]));
        assert(parse_lines_spec(ls, idx) == Ok::<Seq<FrameView>, VgvError>(
            seq![frames[0]] + tail,
        ));
        assert(seq![frames[0]] + tail =~= frames);
    }
}

/// Round trip through the stream text: encoding any sequence of
/// wire-safe frames and decoding the text recovers exactly that
/// sequence.
pub proof fn lemma_stream_round_trip(frames: Seq<FrameView>)
    requires
        forall|i: int| 0 <= i < frames.len() ==> wire_safe(#[trigger] frames[i]),
    ensures
        parse_stream_spec(encode_stream_spec(frames)) == Ok::<Seq<FrameView>, VgvError>(frames),
{
    reveal_strlit("vgv1");
    lemma_stream_lines(frames);
    let s = encode_stream_spec(frames);
    let segs = split_on(s, '\n');
    let fls = Seq::new(frames.len(), |i: int| frame_line(frames[i]));
    assert(segs =~~= seq![magic()] + fls + seq![Seq::<char>::empty()]);
    assert(s.len() > 0);
    assert(segs.last() == Seq::<char>::empty());
    let ls = lines_spec(s);
    assert(ls.len() == segs.len() - 1);
    assert(chomp_cr(magic()) == magic());
    assert forall|i: int| 0 <= i < ls.len() implies ls[i] == (seq![magic()] + fls)[i] by {
        assert(ls[i] == chomp_cr(segs[i]));
        if i > 0 {
            lemma_frame_line_shape(frames[i - 1]);
            assert(segs[i] == fls[i - 1]);
        }
    }
    assert(ls =~~= seq![magic()] + fls);
    assert(ls[0] == magic());
    assert(ls.drop_first() =~~= fls);
    lemma_parse_frame_lines(frames, 1);
}

} // verus!
