//! The diff-engine capability: computing a serialized edit script (a
//! "delta") between two texts, and applying a delta to a source text.
//!
//! The engine itself is `diff_match_patch_rs`, called behind two trusted
//! wrappers.  Both configure the engine without a diff deadline, so each
//! result is a function of the wrapper's arguments alone; the two
//! uninterpreted spec functions below name those results.
//!
//! Deserializing a delta percent-decodes the body of every `+` token and
//! then reads the bytes as UTF-8, and the engine does not tolerate bytes
//! that are not: feeding it such a delta would abort the process instead
//! of returning its error.  [`delta_decodable`] spells that precondition
//! out over the delta's characters, [`check_delta`] decides it, and
//! [`apply_delta`] requires it, so a corrupted or hostile delta is turned
//! away by the callers as an ordinary error before the engine sees it.

use vstd::prelude::*;
use vstd::utf8::{encode_utf8, valid_utf8};

use crate::text::{chars_of, seq_views, split_chars, split_on, string_of_range};
use crate::VgvError;
use diff_match_patch_rs::{Compat, DiffMatchPatch, PatchInput};

verus! {

/// The serialized edit script that the diff engine computes from `base`
/// to `target`.
pub uninterp spec fn delta_of(base: Seq<char>, target: Seq<char>) -> Seq<char>;

/// What applying a decodable delta to a source text yields: `Some(text)`
/// when the delta deserializes against the source and applies cleanly,
/// `None` when the engine rejects it.
pub uninterp spec fn applied_of(source: Seq<char>, delta: Seq<char>) -> Option<Seq<char>>;

/// Whether a byte is an ASCII hexadecimal digit.
pub open spec fn is_hex_digit_byte(b: u8) -> bool {
    (48 <= b && b <= 57) || (65 <= b && b <= 70) || (97 <= b && b <= 102)
}

/// The value of an ASCII hexadecimal digit; zero for any other byte.
pub open spec fn hex_digit_val(b: u8) -> u8 {
    if 48 <= b && b <= 57 {
        (b - 48) as u8
    } else if 65 <= b && b <= 70 {
        (b - 55) as u8
    } else if 97 <= b && b <= 102 {
        (b - 87) as u8
    } else {
        0
    }
}

/// Percent-decoding of a byte sequence: a `%` followed by two hex digits
/// becomes the byte they spell; any other byte, a lone `%` included,
/// passes through unchanged.
pub open spec fn percent_decode_bytes(s: Seq<u8>) -> Seq<u8>
    decreases s.len(),
{
    if s.len() == 0 {
        Seq::empty()
    } else if s[0] == 37 && s.len() >= 3 && is_hex_digit_byte(s[1]) && is_hex_digit_byte(s[2]) {
        seq![(hex_digit_val(s[1]) * 16 + hex_digit_val(s[2])) as u8] + percent_decode_bytes(
            s.skip(3),
        )
    } else {
        seq![s[0]] + percent_decode_bytes(s.skip(1))
    }
}

/// Whether one tab-separated delta token is safe to hand to the engine:
/// if it is a `+` token, its body must percent-decode to valid UTF-8.
pub open spec fn plus_token_ok(tok: Seq<char>) -> bool {
    tok.len() > 0 && tok[0] == '+' ==> valid_utf8(percent_decode_bytes(encode_utf8(tok.skip(1))))
}

/// Whether the engine can deserialize this delta without aborting: every
/// `+` token's body percent-decodes to valid UTF-8.  Everything else a
/// malformed delta can hold only makes the engine return its error.
pub open spec fn delta_decodable(delta: Seq<char>) -> bool {
    forall|i: int|
        0 <= i < split_on(delta, '\t').len() ==> #[trigger] plus_token_ok(split_on(delta, '\t')[i])
}

/// Relies on std's `str::from_utf8`: it returns `Ok` exactly when the
/// bytes are valid UTF-8, which vstd's `valid_utf8` spells out
/// structurally.
#[verifier::external_body]
fn utf8_valid(bytes: &[u8]) -> (r: bool)
    ensures
        r == valid_utf8(bytes@),
{
    core::str::from_utf8(bytes).is_ok()
}

/// The value of an ASCII hexadecimal digit byte.
fn hex_val_of(b: u8) -> (r: Option<u8>)
    ensures
        r is Some <==> is_hex_digit_byte(b),
        (r matches Some(v) ==> v == hex_digit_val(b) && v <= 15),
{
    if 48 <= b && b <= 57 {
        Some(b - 48)
    } else if 65 <= b && b <= 70 {
        Some(b - 55)
    } else if 97 <= b && b <= 102 {
        Some(b - 87)
    } else {
        None
    }
}

/// The percent-decoding of a byte slice.
fn percent_decode_vec(bytes: &[u8]) -> (r: Vec<u8>)
    ensures
        r@ == percent_decode_bytes(bytes@),
{
    let n = bytes.len();
    let mut out: Vec<u8> = Vec::new();
    let mut i: usize = 0;
    proof {
        assert(bytes@.skip(0) =~= bytes@);
        assert(out@ + percent_decode_bytes(bytes@) =~= percent_decode_bytes(bytes@));
    }
    while i < n
        invariant
            i <= n,
            n == bytes@.len(),
            percent_decode_bytes(bytes@) == out@ + percent_decode_bytes(bytes@.skip(i as int)),
        decreases n - i,
    {
        let ghost suffix = bytes@.skip(i as int);
        proof {
            assert(suffix[0] == bytes@[i as int]);
        }
        let b = bytes[i];
        let mut decoded: Option<u8> = None;
        if b == 37 && n - i >= 3 {
            proof {
                assert(suffix[1] == bytes@[i as int + 1]);
                assert(suffix[2] == bytes@[i as int + 2]);
            }
            match (hex_val_of(bytes[i + 1]), hex_val_of(bytes[i + 2])) {
                (Some(h), Some(l)) => {
                    decoded = Some(h * 16 + l);
                },
                _ => {},
            }
        }
        let ghost prev = out@;
        match decoded {
            Some(v) => {
                out.push(v);
                i = i + 3;
                proof {
                    assert(suffix.skip(3) =~= bytes@.skip(i as int));
                    let rest = percent_decode_bytes(bytes@.skip(i as int));
                    assert(percent_decode_bytes(suffix) == seq![v] + rest);
                    assert((prev + (seq![v] + rest)) =~= (out@ + rest));
                }
            },
            None => {
                out.push(b);
                i = i + 1;
                proof {
                    assert(suffix.skip(1) =~= bytes@.skip(i as int));
                    let rest = percent_decode_bytes(bytes@.skip(i as int));
                    assert(percent_decode_bytes(suffix) == seq![b] + rest);
                    assert((prev + (seq![b] + rest)) =~= (out@ + rest));
                }
            },
        }
    }
    proof {
        assert(bytes@.skip(n as int) =~= Seq::<u8>::empty());
        assert(out@ + Seq::<u8>::empty() =~= out@);
    }
    out
}

/// Decides [`delta_decodable`]: whether every `+` token of the delta
/// percent-decodes to valid UTF-8.
pub(crate) fn check_delta(delta: &str) -> (r: bool)
    ensures
        r == delta_decodable(delta@),
{
    let chars = chars_of(delta);
    let parts = split_chars(&chars, '\t');
    let ghost sp = split_on(delta@, '\t');
    let mut i: usize = 0;
    while i < parts.len()
        invariant
            i <= parts@.len(),
            seq_views(parts@) == sp,
            sp == split_on(delta@, '\t'),
            forall|j: int| 0 <= j < i ==> #[trigger] plus_token_ok(sp[j]),
        decreases parts@.len() - i,
    {
        let tok = &parts[i];
        proof {
            assert(sp[i as int] == parts@[i as int]@);
        }
        if tok.len() > 0 && tok[0] == '+' {
            let body = string_of_range(tok, 1, tok.len());
            proof {
                assert(body@ =~= sp[i as int].skip(1));
            }
            let bytes = body.as_str().as_bytes();
            proof {
                assert(bytes@ == encode_utf8(sp[i as int].skip(1)));
            }
            let decoded = percent_decode_vec(bytes);
            if !utf8_valid(decoded.as_slice()) {
                proof {
                    assert(!plus_token_ok(sp[i as int]));
                }
                return false;
            }
            proof {
                assert(plus_token_ok(sp[i as int]));
            }
        } else {
            proof {
                assert(plus_token_ok(sp[i as int]));
            }
        }
        i = i + 1;
    }
    proof {
        assert(delta_decodable(delta@));
    }
    true
}

/// Relies on `diff_match_patch_rs`: `DiffMatchPatch::diff_main` computes
/// the edit script from `base` to `target` and `diff_to_delta` serializes
/// it.  With no deadline set, both are deterministic in their inputs.
/// Reapplying the delta to `base` recovers exactly `target`
/// (`diff_from_delta`'s documented round trip), which is what the second
/// conjunct states over the name that `apply_delta` is specified with.
#[verifier::external_body]
pub(crate) fn make_delta(base: &str, target: &str) -> (r: Result<String, VgvError>)
    ensures
        (r matches Ok(d) ==> {
            &&& d@ == delta_of(base@, target@)
            &&& applied_of(base@, d@) == Some(target@)
        }),
        (r matches Err(e) ==> e == VgvError::DiffEngine),
{
    let mut dmp = DiffMatchPatch::new();
    dmp.set_timeout(None);
    let diffs = dmp.diff_main::<Compat>(base, target).map_err(|_| VgvError::DiffEngine)?;
    dmp.diff_to_delta(&diffs).map_err(|_| VgvError::DiffEngine)
}

/// Relies on `diff_match_patch_rs`: `DiffMatchPatch::diff_from_delta`
/// deserializes the delta against `source`, `patch_make` derives a patch
/// set and `patch_apply` applies it to `source`.  With no deadline set,
/// the chain is deterministic in `(source, delta)`; it succeeds exactly
/// when `applied_of(source@, delta@)` is `Some`, and then returns that
/// text.  Deserialization reads each percent-decoded `+` body as UTF-8
/// and aborts on bytes that are not, so the delta must be decodable:
/// callers establish that with [`check_delta`] first.
#[verifier::external_body]
pub(crate) fn apply_delta(source: &str, delta: &str) -> (r: Result<String, VgvError>)
    requires
        delta_decodable(delta@),
    ensures
        (r matches Ok(t) ==> applied_of(source@, delta@) == Some(t@)),
        (r matches Err(e) ==> e == VgvError::DiffEngine && applied_of(source@, delta@) is None),
{
    let mut dmp = DiffMatchPatch::new();
    dmp.set_timeout(None);
    let applied = dmp
        .diff_from_delta::<Compat>(source, delta)
        .and_then(|diffs| dmp.patch_make(PatchInput::Diffs(&diffs)))
        .and_then(|patches| dmp.patch_apply(&patches, source));
    match applied {
        Ok((text, _)) => Ok(text),
        Err(_) => Err(VgvError::DiffEngine),
    }
}

} // verus!
