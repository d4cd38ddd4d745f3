//! Content disarm for free text: dangerous code points are stripped
//! rather than detected, and terminal escape sequences are removed.

use vstd::prelude::*;
use vstd::string::StrSliceExecFns;
use vstd::string::StringExecFns;

use crate::text::chars_of;
use crate::text::push_char;

verus! {

/// The size bound for sanitisation, in bytes.
pub const MAX_CONTENT_SIZE: usize = 10485760;

/// Failures of the sanitiser.
#[derive(Debug, Clone, PartialEq, Eq)]
pub enum SanitizeError {
    /// The input is not valid UTF-8.
    InvalidUtf8,
    /// The content exceeds the size bound.
    TooLarge { size: usize, max: usize },
    /// No sanitiser exists for this content type.
    UnsupportedType(String),
    /// The sanitiser failed.
    Failed(String),
}

/// A character that survives sanitisation: everything except the C0
/// controls other than newline, carriage return and tab; the C1 range
/// with delete; zero-width and invisible-operator characters;
/// directional overrides; and the byte-order mark.
pub open spec fn spec_keep_char(c: char) -> bool {
    let u = c as u32;
    &&& !(u < 0x20 && u != 0x9 && u != 0xA && u != 0xD)
    &&& !(0x7F <= u && u <= 0x9F)
    &&& !(0x200B <= u && u <= 0x200F)
    &&& !(0x202A <= u && u <= 0x202E)
    &&& !(0x2060 <= u && u <= 0x2064)
    &&& u != 0xFEFF
}

/// The surviving characters, in order.
pub open spec fn spec_sanitized(s: Seq<char>) -> Seq<char>
    decreases s.len(),
{
    if s.len() == 0 {
        Seq::empty()
    } else if spec_keep_char(s.last()) {
        spec_sanitized(s.drop_last()).push(s.last())
    } else {
        spec_sanitized(s.drop_last())
    }
}

/// Strips dangerous code points from text, refusing oversized content.
pub fn sanitize_text(input: &str) -> (r: Result<String, SanitizeError>)
    ensures
        (vstd::utf8::encode_utf8(input@).len() as usize) > MAX_CONTENT_SIZE ==> (r
            matches Err(SanitizeError::TooLarge { size, max }) && max == MAX_CONTENT_SIZE),
        (vstd::utf8::encode_utf8(input@).len() as usize) <= MAX_CONTENT_SIZE ==> (r matches Ok(s)
            && s@ == spec_sanitized(input@)),
{
    if input.len() > MAX_CONTENT_SIZE {
        return Err(SanitizeError::TooLarge { size: input.len(), max: MAX_CONTENT_SIZE });
    }
    let cs = chars_of(input);
    let n = cs.len();
    let mut out = String::new();
    let mut i: usize = 0;
    while i < n
        invariant
            n == cs@.len(),
            cs@ == input@,
            i <= n,
            out@ == spec_sanitized(input@.take(i as int)),
        decreases n - i,
    {
        let ghost pre = input@.take(i as int);
        let c = cs[i];
        let u = c as u32;
        let keep = !(u < 0x20 && u != 0x9 && u != 0xA && u != 0xD) && !(0x7F <= u && u <= 0x9F)
            && !(0x200B <= u && u <= 0x200F) && !(0x202A <= u && u <= 0x202E) && !(0x2060 <= u
            && u <= 0x2064) && u != 0xFEFF;
        if keep {
            push_char(&mut out, c);
        }
        i = i + 1;
        proof {
            assert(input@.take(i as int).drop_last() =~= pre);
            assert(input@.take(i as int).last() == input@[i - 1]);
        }
    }
    proof {
        assert(input@.take(n as int) =~= input@);
    }
    Ok(out)
}

/// A parameter character of a CSI sequence: a digit or a semicolon.
pub open spec fn spec_csi_param(c: char) -> bool {
    let u = c as u32;
    (0x30 <= u && u <= 0x39) || u == 0x3B
}

/// A final letter of a CSI sequence.
pub open spec fn spec_csi_letter(c: char) -> bool {
    let u = c as u32;
    (0x41 <= u && u <= 0x5A) || (0x61 <= u && u <= 0x7A)
}

/// The end of the run of parameter characters that starts at `j`: the
/// first position at or after `j` holding none, or the text's end.
pub open spec fn spec_param_run_end(s: Seq<char>, j: int) -> int
    decreases s.len() - j,
{
    if j < s.len() && j >= 0 && spec_csi_param(s[j]) {
        spec_param_run_end(s, j + 1)
    } else {
        j
    }
}

/// The run's end never lies before its start, nor past the text's end.
pub proof fn lemma_param_run_end_bounds(s: Seq<char>, j: int)
    requires
        0 <= j <= s.len(),
    ensures
        j <= spec_param_run_end(s, j) <= s.len(),
    decreases s.len() - j,
{
    if j < s.len() && spec_csi_param(s[j]) {
        lemma_param_run_end_bounds(s, j + 1);
    }
}

/// The text from position `i` on with every CSI escape sequence — the
/// escape byte, an opening bracket, a possibly empty run of parameter
/// characters, and a final letter — removed, scanning left to right. An
/// escape byte that opens no complete sequence is kept.
pub open spec fn spec_stripped_from(s: Seq<char>, i: int) -> Seq<char>
    decreases s.len() - i,
    via spec_stripped_from_dec
{
    if i < 0 || i >= s.len() {
        Seq::empty()
    } else if s[i] as u32 == 0x1B && i + 1 < s.len() && s[i + 1] == '[' {
        let j = spec_param_run_end(s, i + 2);
        if j < s.len() && spec_csi_letter(s[j]) {
            spec_stripped_from(s, j + 1)
        } else {
            seq![s[i]] + spec_stripped_from(s, i + 1)
        }
    } else {
        seq![s[i]] + spec_stripped_from(s, i + 1)
    }
}

#[via_fn]
proof fn spec_stripped_from_dec(s: Seq<char>, i: int) {
    if 0 <= i < s.len() && s[i] as u32 == 0x1B && i + 1 < s.len() && s[i + 1] == '[' {
        lemma_param_run_end_bounds(s, i + 2);
    }
}

/// Removes every CSI escape sequence — the escape byte, an opening
/// bracket, a possibly empty run of parameter characters, and a final
/// letter — scanning left to right; the output never grows.
pub fn strip_ansi(input: &str) -> (r: String)
    ensures
        r@ == spec_stripped_from(input@, 0),
        r@.len() <= input@.len(),
{
    let cs = chars_of(input);
    let n = cs.len();
    let mut out = String::new();
    let mut i: usize = 0;
    while i < n
        invariant
            n == cs@.len(),
            cs@ == input@,
            i <= n,
            out@.len() <= i,
            spec_stripped_from(input@, 0) == out@ + spec_stripped_from(input@, i as int),
        decreases n - i,
    {
        let ghost pre = out@;
        let c = cs[i];
        if (c as u32) == 0x1B && i + 1 < n && cs[i + 1] == '[' {
            // scan the parameter run
            let mut j: usize = i + 2;
            while j < n && is_csi_param(cs[j])
                invariant
                    n == cs@.len(),
                    cs@ == input@,
                    i + 2 <= j <= n,
                    spec_param_run_end(input@, i + 2) == spec_param_run_end(input@, j as int),
                decreases n - j,
            {
                j = j + 1;
            }
            proof {
                assert(spec_param_run_end(input@, j as int) == j);
                assert(spec_param_run_end(input@, i + 2) == j);
            }
            if j < n && is_csi_letter(cs[j]) {
                // a complete sequence: drop it
                proof {
                    assert(spec_stripped_from(input@, i as int) == spec_stripped_from(
                        input@,
                        j + 1,
                    ));
                }
                i = j + 1;
            } else {
                // no sequence after all: keep the escape byte
                push_char(&mut out, c);
                proof {
                    assert(spec_stripped_from(input@, i as int) == seq![input@[i as int]]
                        + spec_stripped_from(input@, i + 1));
                    assert(out@ =~= pre + seq![input@[i as int]]);
                    assert(pre + spec_stripped_from(input@, i as int) =~= out@
                        + spec_stripped_from(input@, i + 1));
                }
                i = i + 1;
            }
        } else {
            push_char(&mut out, c);
            proof {
                assert(spec_stripped_from(input@, i as int) == seq![input@[i as int]]
                    + spec_stripped_from(input@, i + 1));
                assert(out@ =~= pre + seq![input@[i as int]]);
                assert(pre + spec_stripped_from(input@, i as int) =~= out@ + spec_stripped_from(
                    input@,
                    i + 1,
                ));
            }
            i = i + 1;
        }
    }
    proof {
        assert(spec_stripped_from(input@, n as int) =~= Seq::empty());
        assert(out@ =~= out@ + spec_stripped_from(input@, n as int));
    }
    out
}

/// Whether the character is a CSI parameter character.
fn is_csi_param(c: char) -> (r: bool)
    ensures
        r == spec_csi_param(c),
{
    let u = c as u32;
    (0x30 <= u && u <= 0x39) || u == 0x3B
}

/// Whether the character is a CSI final letter.
fn is_csi_letter(c: char) -> (r: bool)
    ensures
        r == spec_csi_letter(c),
{
    let u = c as u32;
    (0x41 <= u && u <= 0x5A) || (0x61 <= u && u <= 0x7A)
}

/// Validates text as JSON after sanitisation: the cleaned text must
/// read as one JSON document, and the document is rendered canonically —
/// so every success is the canonical rendering of a value that the
/// sanitised input itself spells out, followed only by whitespace.
pub fn sanitize_json(input: &str) -> (r: Result<String, SanitizeError>)
    ensures
        (vstd::utf8::encode_utf8(input@).len() as usize) > MAX_CONTENT_SIZE ==> (r
            matches Err(SanitizeError::TooLarge { size, max }) && max == MAX_CONTENT_SIZE),
        r matches Ok(out) ==> exists|v: crate::json::JsonValue, j: int|
            #![trigger crate::json::spec_reads(spec_sanitized(input@), 0, v, j)]
            crate::json::spec_reads(spec_sanitized(input@), 0, v, j)
                && crate::json::spec_ws_run(spec_sanitized(input@), j) == spec_sanitized(
                input@,
            ).len() && out@ == crate::json::canon(v),
        r matches Err(e) ==> (e matches SanitizeError::TooLarge { .. } || e
            matches SanitizeError::Failed(_)),
{
    let clean = match sanitize_text(input) {
        Ok(t) => t,
        Err(e) => {
            return Err(e);
        },
    };
    match crate::json::parse_json(clean.as_str()) {
        Some(v) => {
            let out = crate::json::canonicalize(&v);
            proof {
                let ghost sv = spec_sanitized(input@);
                let ghost jj = crate::json::spec_read_end(sv, 0, v)->Some_0;
                assert(crate::json::spec_reads(sv, 0, v, jj));
                assert(crate::json::spec_ws_run(sv, jj) == sv.len());
                assert(out@ == crate::json::canon(v));
            }
            Ok(out)
        },
        None => Err(SanitizeError::Failed(String::from_str("the text is not a JSON document"))),
    }
}

/// Image sanitisation has no implementation; the content is refused.
pub fn sanitize_image(data: &[u8]) -> (r: Result<Vec<u8>, SanitizeError>)
    ensures
        r matches Err(SanitizeError::UnsupportedType(t)) && t@ == "image"@,
{
    Err(SanitizeError::UnsupportedType(String::from_str("image")))
}

/// Document sanitisation has no implementation; the content is refused.
pub fn sanitize_pdf(data: &[u8]) -> (r: Result<Vec<u8>, SanitizeError>)
    ensures
        r matches Err(SanitizeError::UnsupportedType(t)) && t@ == "pdf"@,
{
    Err(SanitizeError::UnsupportedType(String::from_str("pdf")))
}

} // verus!
