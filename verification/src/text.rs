//! Character-level text utilities: decimal rendering and parsing,
//! newline stripping, and separator splitting, with their mathematical
//! counterparts as spec functions.

use vstd::prelude::*;

verus! {

/// The character for one decimal digit value.
pub open spec fn digit_char(d: nat) -> char {
    if d == 0 {
        '0'
    } else if d == 1 {
        '1'
    } else if d == 2 {
        '2'
    } else if d == 3 {
        '3'
    } else if d == 4 {
        '4'
    } else if d == 5 {
        '5'
    } else if d == 6 {
        '6'
    } else if d == 7 {
        '7'
    } else if d == 8 {
        '8'
    } else {
        '9'
    }
}

/// The decimal rendering of a natural number, without leading zeros
/// (except for the number zero itself).
pub open spec fn dec_digits(n: nat) -> Seq<char>
    decreases n,
{
    if n < 10 {
        seq![digit_char(n)]
    } else {
        dec_digits(n / 10).push(digit_char(n % 10))
    }
}

/// Whether a character is a decimal digit.
pub open spec fn is_digit(c: char) -> bool {
    ('0' as u32) <= (c as u32) && (c as u32) <= ('9' as u32)
}

/// The numeric value of a digit character; zero for any other character.
pub open spec fn digit_val(c: char) -> nat {
    if is_digit(c) {
        (c as u32 - '0' as u32) as nat
    } else {
        0
    }
}

/// Whether every character of a sequence is a decimal digit.
pub open spec fn all_digits(s: Seq<char>) -> bool {
    forall|i: int| 0 <= i < s.len() ==> is_digit(#[trigger] s[i])
}

/// The numeric value of a digit sequence, most significant digit first.
pub open spec fn dec_val(s: Seq<char>) -> nat
    decreases s.len(),
{
    if s.len() == 0 {
        0
    } else {
        dec_val(s.drop_last()) * 10 + digit_val(s.last())
    }
}

/// What parsing a decimal `u64` from a character sequence yields: the
/// value, if the sequence is one or more digits and the value fits.
pub open spec fn parse_u64_spec(s: Seq<char>) -> Option<u64> {
    if s.len() >= 1 && all_digits(s) && dec_val(s) <= u64::MAX {
        Some(dec_val(s) as u64)
    } else {
        None
    }
}

/// What parsing a decimal `u32` from a character sequence yields.
pub open spec fn parse_u32_spec(s: Seq<char>) -> Option<u32> {
    if s.len() >= 1 && all_digits(s) && dec_val(s) <= u32::MAX {
        Some(dec_val(s) as u32)
    } else {
        None
    }
}

/// A sequence with every newline character removed.
pub open spec fn strip_nl(s: Seq<char>) -> Seq<char>
    decreases s.len(),
{
    if s.len() == 0 {
        Seq::empty()
    } else if s.last() == '\n' {
        strip_nl(s.drop_last())
    } else {
        strip_nl(s.drop_last()).push(s.last())
    }
}

/// The segments of a sequence split on a separator character.  There is
/// always at least one segment; a separator at the end yields a trailing
/// empty segment.
pub open spec fn split_on(s: Seq<char>, sep: char) -> Seq<Seq<char>>
    decreases s.len(),
{
    if s.len() == 0 {
        seq![Seq::empty()]
    } else if s.last() == sep {
        split_on(s.drop_last(), sep).push(Seq::empty())
    } else {
        let r = split_on(s.drop_last(), sep);
        r.update(r.len() - 1, r.last().push(s.last()))
    }
}

pub proof fn lemma_split_on_len(s: Seq<char>, sep: char)
    ensures
        split_on(s, sep).len() >= 1,
    decreases s.len(),
{
    if s.len() > 0 {
        lemma_split_on_len(s.drop_last(), sep);
    }
}

/// The views of a sequence of character vectors.
pub open spec fn seq_views(s: Seq<Vec<char>>) -> Seq<Seq<char>> {
    Seq::new(s.len(), |i: int| s[i]@)
}

/// Whether no character of `s` is `c`.
pub open spec fn free_of(s: Seq<char>, c: char) -> bool {
    forall|i: int| 0 <= i < s.len() ==> #[trigger] s[i] != c
}

/// A concatenation avoids a character when both halves do.
pub proof fn lemma_free_of_concat(a: Seq<char>, b: Seq<char>, c: char)
    requires
        free_of(a, c),
        free_of(b, c),
    ensures
        free_of(a + b, c),
{
    assert forall|i: int| 0 <= i < (a + b).len() implies (a + b)[i] != c by {
        if i < a.len() {
            assert((a + b)[i] == a[i]);
        } else {
            assert((a + b)[i] == b[i - a.len()]);
        }
    }
}

/// Stripping newlines leaves no newline behind.
pub proof fn lemma_strip_nl_free(s: Seq<char>)
    ensures
        free_of(strip_nl(s), '\n'),
    decreases s.len(),
{
    if s.len() > 0 {
        lemma_strip_nl_free(s.drop_last());
    }
}

/// Stripping newlines from a newline-free sequence changes nothing.
pub proof fn lemma_strip_nl_id(s: Seq<char>)
    requires
        free_of(s, '\n'),
    ensures
        strip_nl(s) == s,
    decreases s.len(),
{
    if s.len() > 0 {
        lemma_strip_nl_id(s.drop_last());
        assert(s.drop_last().push(s.last()) =~= s);
    } else {
        assert(strip_nl(s) =~= s);
    }
}

/// A decimal rendering is one or more digit characters.
pub proof fn lemma_dec_digits_digits(n: nat)
    ensures
        dec_digits(n).len() >= 1,
        all_digits(dec_digits(n)),
    decreases n,
{
    if n >= 10 {
        lemma_dec_digits_digits(n / 10);
    }
}

/// A digit character parses back to its value.
pub proof fn lemma_digit_val_char(d: nat)
    requires
        d < 10,
    ensures
        is_digit(digit_char(d)),
        digit_val(digit_char(d)) == d,
{
}

/// Parsing a decimal rendering recovers the number.
pub proof fn lemma_dec_val_of_digits(n: nat)
    ensures
        dec_val(dec_digits(n)) == n,
    decreases n,
{
    if n < 10 {
        lemma_digit_val_char(n);
        assert(dec_digits(n) == seq![digit_char(n)]);
        assert(dec_digits(n).drop_last() =~= Seq::<char>::empty());
        assert(dec_digits(n).last() == digit_char(n));
        assert(dec_val(Seq::<char>::empty()) == 0);
        assert(dec_val(dec_digits(n)) == 0 * 10 + digit_val(digit_char(n)));
    } else {
        lemma_digit_val_char(n % 10);
        lemma_dec_val_of_digits(n / 10);
        assert(dec_digits(n) == dec_digits(n / 10).push(digit_char(n % 10)));
        assert(dec_digits(n).drop_last() =~= dec_digits(n / 10));
        assert(dec_digits(n).last() == digit_char(n % 10));
        assert(dec_val(dec_digits(n)) == dec_val(dec_digits(n / 10)) * 10 + digit_val(
            digit_char(n % 10),
        ));
        assert((n / 10) * 10 + n % 10 == n) by (nonlinear_arith);
    }
}

/// A separator-free sequence splits into itself alone.
pub proof fn lemma_split_single(x: Seq<char>, sep: char)
    requires
        free_of(x, sep),
    ensures
        split_on(x, sep) == seq![x],
    decreases x.len(),
{
    if x.len() == 0 {
        assert(split_on(x, sep) =~~= seq![x]);
    } else {
        lemma_split_single(x.drop_last(), sep);
        assert(x.last() != sep);
        assert(split_on(x, sep) =~~= seq![x.drop_last().push(x.last())]);
        assert(x.drop_last().push(x.last()) =~= x);
        assert(split_on(x, sep) =~~= seq![x]);
    }
}

/// Splitting around one separator splits each side on its own.
pub proof fn lemma_split_concat(x: Seq<char>, y: Seq<char>, sep: char)
    ensures
        split_on(x + seq![sep] + y, sep) == split_on(x, sep) + split_on(y, sep),
    decreases y.len(),
{
    if y.len() == 0 {
        assert(x + seq![sep] + y =~= x + seq![sep]);
        assert((x + seq![sep]).drop_last() =~= x);
        assert((x + seq![sep]).last() == sep);
        assert(split_on(x + seq![sep], sep) == split_on(x, sep).push(Seq::empty()));
        assert(split_on(x, sep).push(Seq::empty()) =~~= split_on(x, sep) + split_on(y, sep));
    } else {
        lemma_split_concat(x, y.drop_last(), sep);
        let s = x + seq![sep] + y;
        assert(s.last() == y.last());
        assert(s.drop_last() =~= x + seq![sep] + y.drop_last());
        lemma_split_on_len(x, sep);
        lemma_split_on_len(y.drop_last(), sep);
        if y.last() == sep {
            assert(split_on(s, sep) == split_on(s.drop_last(), sep).push(Seq::empty()));
            assert(split_on(s, sep) =~~= split_on(x, sep) + split_on(y, sep));
        } else {
            let r = split_on(s.drop_last(), sep);
            assert(split_on(s, sep) == r.update(r.len() - 1, r.last().push(s.last())));
            let ry = split_on(y.drop_last(), sep);
            assert(r == split_on(x, sep) + ry);
            assert(r.last() == ry.last());
            assert(split_on(y, sep) == ry.update(ry.len() - 1, ry.last().push(y.last())));
            assert(split_on(s, sep) =~~= split_on(x, sep) + split_on(y, sep));
        }
    }
}

/// Appending separator-free text extends the last segment.
pub proof fn lemma_split_extend(x: Seq<char>, y: Seq<char>, sep: char)
    requires
        free_of(y, sep),
    ensures
        split_on(x + y, sep) == split_on(x, sep).update(
            split_on(x, sep).len() - 1,
            split_on(x, sep).last() + y,
        ),
    decreases y.len(),
{
    lemma_split_on_len(x, sep);
    if y.len() == 0 {
        assert(x + y =~= x);
        assert(split_on(x, sep).last() + y =~= split_on(x, sep).last());
        assert(split_on(x, sep).update(
            split_on(x, sep).len() - 1,
            split_on(x, sep).last() + y,
        ) =~~= split_on(x, sep));
    } else {
        lemma_split_extend(x, y.drop_last(), sep);
        let s = x + y;
        assert(s.last() == y.last());
        assert(y.last() != sep);
        assert(s.drop_last() =~= x + y.drop_last());
        let r = split_on(x + y.drop_last(), sep);
        lemma_split_on_len(x + y.drop_last(), sep);
        assert(split_on(s, sep) == r.update(r.len() - 1, r.last().push(s.last())));
        assert(r.last() == split_on(x, sep).last() + y.drop_last());
        assert((split_on(x, sep).last() + y.drop_last()).push(y.last()) =~= split_on(x, sep).last()
            + y);
        assert(split_on(s, sep) =~~= split_on(x, sep).update(
            split_on(x, sep).len() - 1,
            split_on(x, sep).last() + y,
        ));
    }
}

/// Relies on std's `String::push`: appends one character at the end.
#[verifier::external_body]
pub(crate) fn push_char(s: &mut String, c: char)
    ensures
        final(s)@ == old(s)@.push(c),
{
    s.push(c);
}

/// The characters of a string slice, as a vector.
pub(crate) fn chars_of(s: &str) -> (r: Vec<char>)
    ensures
        r@ == s@,
{
    let n = s.unicode_len();
    let mut v: Vec<char> = Vec::new();
    let mut i: usize = 0;
    while i < n
        invariant
            i <= n,
            n == s@.len(),
            v@ == s@.take(i as int),
        decreases n - i,
    {
        v.push(s.get_char(i));
        i = i + 1;
        proof {
            assert(v@ =~= s@.take(i as int));
        }
    }
    proof {
        assert(v@ =~= s@);
    }
    v
}

/// The string holding the characters `v[from..to]`.
pub(crate) fn string_of_range(v: &Vec<char>, from: usize, to: usize) -> (r: String)
    requires
        from <= to <= v@.len(),
    ensures
        r@ == v@.subrange(from as int, to as int),
{
    let mut s = String::new();
    let mut i: usize = from;
    while i < to
        invariant
            from <= i <= to <= v@.len(),
            s@ == v@.subrange(from as int, i as int),
        decreases to - i,
    {
        push_char(&mut s, v[i]);
        i = i + 1;
        proof {
            assert(s@ =~= v@.subrange(from as int, i as int));
        }
    }
    s
}

/// The one-character string for a digit value.
fn digit_str(d: u64) -> (r: &'static str)
    requires
        d < 10,
    ensures
        r@ =~= seq![digit_char(d as nat)],
{
    proof {
        reveal_strlit("0");
        reveal_strlit("1");
        reveal_strlit("2");
        reveal_strlit("3");
        reveal_strlit("4");
        reveal_strlit("5");
        reveal_strlit("6");
        reveal_strlit("7");
        reveal_strlit("8");
        reveal_strlit("9");
    }
    match d {
        0 => "0",
        1 => "1",
        2 => "2",
        3 => "3",
        4 => "4",
        5 => "5",
        6 => "6",
        7 => "7",
        8 => "8",
        _ => "9",
    }
}

/// The decimal rendering of a `u64`.
pub(crate) fn u64_to_string(n: u64) -> (r: String)
    ensures
        r@ == dec_digits(n as nat),
    decreases n,
{
    if n < 10 {
        String::from_str(digit_str(n))
    } else {
        let mut s = u64_to_string(n / 10);
        s.append(digit_str(n % 10));
        proof {
            assert(s@ =~= dec_digits(n as nat));
        }
        s
    }
}

/// The decimal rendering of a `u32`.
pub(crate) fn u32_to_string(n: u32) -> (r: String)
    ensures
        r@ == dec_digits(n as nat),
{
    u64_to_string(n as u64)
}

/// A copy of the string with every newline character removed.
pub(crate) fn remove_newlines(s: &str) -> (r: String)
    ensures
        r@ == strip_nl(s@),
{
    let v = chars_of(s);
    let mut out = String::new();
    let mut i: usize = 0;
    while i < v.len()
        invariant
            i <= v@.len(),
            v@ == s@,
            out@ == strip_nl(s@.take(i as int)),
        decreases v@.len() - i,
    {
        let c = v[i];
        if c != '\n' {
            push_char(&mut out, c);
        }
        i = i + 1;
        proof {
            assert(s@.take(i as int).drop_last() =~= s@.take(i as int - 1));
        }
    }
    proof {
        assert(s@.take(v@.len() as int) =~= s@);
    }
    out
}

/// The segments of `v` split on `sep`.
pub(crate) fn split_chars(v: &Vec<char>, sep: char) -> (r: Vec<Vec<char>>)
    ensures
        seq_views(r@) == split_on(v@, sep),
        r@.len() >= 1,
{
    let mut out: Vec<Vec<char>> = Vec::new();
    let mut cur: Vec<char> = Vec::new();
    let mut i: usize = 0;
    while i < v.len()
        invariant
            i <= v@.len(),
            split_on(v@.take(i as int), sep) =~~= seq_views(out@).push(cur@),
        decreases v@.len() - i,
    {
        let c = v[i];
        if c == sep {
            out.push(cur);
            cur = Vec::new();
        } else {
            cur.push(c);
        }
        i = i + 1;
        proof {
            assert(v@.take(i as int).drop_last() =~= v@.take(i as int - 1));
            assert(split_on(v@.take(i as int), sep) =~~= seq_views(out@).push(cur@));
        }
    }
    out.push(cur);
    proof {
        assert(v@.take(v@.len() as int) =~= v@);
        assert(seq_views(out@) =~~= split_on(v@, sep));
    }
    out
}

/// A line with one carriage return before its line feed stripped.
pub open spec fn chomp_cr(l: Seq<char>) -> Seq<char> {
    if l.len() > 0 && l.last() == '\r' {
        l.drop_last()
    } else {
        l
    }
}

/// The lines of a text: split on line feeds, with a carriage return
/// stripped from the end of each terminated line, and without a final
/// empty segment when the text ends in a line terminator.
pub open spec fn lines_spec(s: Seq<char>) -> Seq<Seq<char>> {
    if s.len() == 0 {
        Seq::empty()
    } else {
        let segs = split_on(s, '\n');
        let n = if segs.last().len() == 0 {
            segs.len() - 1
        } else {
            segs.len() as int
        };
        Seq::new(
            n as nat,
            |i: int|
                if i < segs.len() - 1 {
                    chomp_cr(segs[i])
                } else {
                    segs[i]
                },
        )
    }
}

/// The vector holding the characters `v[from..to]`.
pub(crate) fn vec_range(v: &Vec<char>, from: usize, to: usize) -> (r: Vec<char>)
    requires
        from <= to <= v@.len(),
    ensures
        r@ == v@.subrange(from as int, to as int),
{
    let mut out: Vec<char> = Vec::new();
    let mut i: usize = from;
    while i < to
        invariant
            from <= i <= to <= v@.len(),
            out@ == v@.subrange(from as int, i as int),
        decreases to - i,
    {
        out.push(v[i]);
        i = i + 1;
        proof {
            assert(out@ =~= v@.subrange(from as int, i as int));
        }
    }
    out
}

/// The lines of `v`, per `lines_spec`.
pub(crate) fn lines_of(v: &Vec<char>) -> (r: Vec<Vec<char>>)
    ensures
        seq_views(r@) == lines_spec(v@),
{
    if v.len() == 0 {
        let r: Vec<Vec<char>> = Vec::new();
        proof {
            assert(seq_views(r@) =~~= lines_spec(v@));
        }
        return r;
    }
    let segs = split_chars(v, '\n');
    let total = segs.len();
    let ghost sp = split_on(v@, '\n');
    let ghost ln = lines_spec(v@);
    proof {
        assert(ln.len() == if sp.last().len() == 0 {
            sp.len() - 1
        } else {
            sp.len() as int
        });
    }
    let mut out: Vec<Vec<char>> = Vec::new();
    let mut i: usize = 0;
    while i < total
        invariant
            i <= total,
            total == segs@.len(),
            seq_views(segs@) == sp,
            sp == split_on(v@, '\n'),
            ln == lines_spec(v@),
            total >= 1,
            v@.len() > 0,
            ln.len() == if sp.last().len() == 0 {
                sp.len() - 1
            } else {
                sp.len() as int
            },
            i < total ==> i <= ln.len() && seq_views(out@) =~~= ln.take(i as int),
            i == total ==> seq_views(out@) =~~= ln,
        decreases total - i,
    {
        proof {
            assert(sp[i as int] == segs@[i as int]@);
            assert(seq_views(out@).len() == out@.len());
            assert(seq_views(out@) =~~= ln.take(i as int));
            assert(out@.len() == i as int);
        }
        if i + 1 < total {
            let sl = segs[i].len();
            let seg = if sl > 0 && segs[i][sl - 1] == '\r' {
                vec_range(&segs[i], 0, sl - 1)
            } else {
                vec_range(&segs[i], 0, sl)
            };
            proof {
                assert(seg@ =~= chomp_cr(sp[i as int]));
                assert(ln[i as int] == chomp_cr(sp[i as int]));
            }
            let ghost prev = out@;
            let ghost segv = seg@;
            out.push(seg);
            proof {
                assert(seq_views(out@).len() == i + 1);
                assert forall|j: int| 0 <= j < i as int implies seq_views(out@)[j] == ln.take(
                    i as int + 1,
                )[j] by {
                    assert(out@[j] == prev[j]);
                    assert(seq_views(prev)[j] == ln.take(i as int)[j]);
                }
                assert(seq_views(out@)[i as int] == segv);
                assert(seq_views(out@) =~~= ln.take(i as int + 1));
            }
        } else {
            proof {
                assert(i as int == sp.len() - 1);
                assert(sp.last() == sp[i as int]);
            }
            if segs[i].len() > 0 {
                let seg = vec_range(&segs[i], 0, segs[i].len());
                proof {
                    assert(seg@ =~= sp[i as int]);
                    assert(ln[i as int] == sp[i as int]);
                }
                let ghost prev = out@;
                let ghost segv = seg@;
                out.push(seg);
                proof {
                    assert(ln.len() == i + 1);
                    assert(seq_views(out@).len() == i + 1);
                    assert forall|j: int| 0 <= j < i as int implies seq_views(out@)[j] == ln[j] by {
                        assert(out@[j] == prev[j]);
                        assert(seq_views(prev)[j] == ln.take(i as int)[j]);
                    }
                    assert(seq_views(out@)[i as int] == segv);
                    assert(seq_views(out@) =~~= ln);
                }
            } else {
                proof {
                    assert(ln.len() == i as int);
                    assert(ln.take(i as int) =~~= ln);
                    assert(ln.take(i as int) == ln);
                    assert(seq_views(out@) == ln.take(i as int));
                    assert(seq_views(out@) =~~= ln);
                }
            }
        }
        i = i + 1;
    }
    out
}

proof fn lemma_dec_val_drop(s: Seq<char>, k: int)
    requires
        0 <= k <= s.len(),
    ensures
        dec_val(s) >= dec_val(s.take(k)),
    decreases s.len() - k,
{
    if k < s.len() {
        lemma_dec_val_drop(s, k + 1);
        assert(s.take(k + 1).drop_last() =~= s.take(k));
        assert(dec_val(s.take(k + 1)) == dec_val(s.take(k)) * 10 + digit_val(s.take(k + 1).last()));
        assert(dec_val(s.take(k)) * 10 >= dec_val(s.take(k))) by (nonlinear_arith);
    } else {
        assert(s.take(k) =~= s);
    }
}

/// Parses `v[from..to]` as a decimal `u64`.
pub(crate) fn parse_u64_range(v: &Vec<char>, from: usize, to: usize) -> (r: Option<u64>)
    requires
        from <= to <= v@.len(),
    ensures
        r == parse_u64_spec(v@.subrange(from as int, to as int)),
{
    let ghost s = v@.subrange(from as int, to as int);
    if from == to {
        return None;
    }
    let mut val: u64 = 0;
    let mut i: usize = from;
    while i < to
        invariant
            from <= i <= to <= v@.len(),
            s == v@.subrange(from as int, to as int),
            all_digits(s.take(i - from)),
            val == dec_val(s.take(i - from)),
        decreases to - i,
    {
        let c = v[i];
        let cu = c as u32;
        if cu < '0' as u32 || cu > '9' as u32 {
            proof {
                assert(s[i - from] == c);
                assert(!is_digit(s[i - from]));
            }
            return None;
        }
        let d = (cu - '0' as u32) as u64;
        if val > (u64::MAX - d) / 10 {
            proof {
                assert(s.take(i - from + 1).drop_last() =~= s.take(i - from));
                assert(s.take(i - from + 1).last() == c);
                assert(dec_val(s.take(i - from + 1)) == val * 10 + d);
                assert(val * 10 + d > u64::MAX) by (nonlinear_arith)
                    requires
                        val > (u64::MAX - d) / 10 && d <= 9,
                ;
                lemma_dec_val_drop(s, i - from + 1);
            }
            return None;
        }
        proof {
            assert(val * 10 + d <= u64::MAX) by (nonlinear_arith)
                requires
                    val <= (u64::MAX - d) / 10 && d <= 9,
            ;
            assert(s.take(i - from + 1).drop_last() =~= s.take(i - from));
            assert(s.take(i - from + 1).last() == c);
        }
        val = val * 10 + d;
        i = i + 1;
    }
    proof {
        assert(s.take(to - from) =~= s);
    }
    Some(val)
}

/// Parses `v[from..to]` as a decimal `u32`.
pub(crate) fn parse_u32_range(v: &Vec<char>, from: usize, to: usize) -> (r: Option<u32>)
    requires
        from <= to <= v@.len(),
    ensures
        r == parse_u32_spec(v@.subrange(from as int, to as int)),
{
    match parse_u64_range(v, from, to) {
        Some(x) => {
            if x <= u32::MAX as u64 {
                Some(x as u32)
            } else {
                None
            }
        },
        None => None,
    }
}

} // verus!
