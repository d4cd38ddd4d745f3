//! Canary tokens: session-unique markers whose reappearance in model
//! output reveals a system-prompt leak.

use vstd::prelude::*;
use vstd::string::StringExecFns;

use crate::text::contains_ci;
use crate::text::contains_exact;
use crate::text::str_contains;
use crate::text::str_contains_ci;

verus! {

/// Relies on uuid's version-4 generator: a hyphenated UUID renders as
/// 36 characters. Nothing is assumed about which UUID comes back.
#[verifier::external_body]
fn uuid_v4_hyphenated() -> (r: String)
    ensures
        r@.len() == 36,
{
    format!("{}", uuid::Uuid::new_v4().as_hyphenated())
}

/// A fresh token: the fixed prefix followed by a hyphenated UUID,
/// 43 characters in all.
pub fn generate_canary() -> (r: String)
    ensures
        r@.len() == 43,
        r@.subrange(0, 7) == "CANARY-"@,
{
    let mut out = String::from_str("CANARY-");
    let tail = uuid_v4_hyphenated();
    out.append(tail.as_str());
    proof {
        reveal_strlit("CANARY-");
        assert(out@.subrange(0, 7) =~= "CANARY-"@);
    }
    out
}

/// Prepends the wrapped canary to a prompt: the injection marker, the
/// token, a closing bracket, a newline, then the prompt unchanged.
pub fn inject_canary(prompt: &str, canary: &str) -> (r: String)
    ensures
        r@ == "[SYSTEM_CANARY:"@ + canary@ + "]"@ + "\n"@ + prompt@,
{
    let mut out = String::from_str("[SYSTEM_CANARY:");
    out.append(canary);
    out.append("]");
    out.append("\n");
    out.append(prompt);
    out
}

/// Exact substring match for the canary token.
pub fn detect_leak(output: &str, canary: &str) -> (r: bool)
    ensures
        r == contains_exact(output@, canary@),
{
    str_contains(output, canary)
}

/// Canary-like content: the token prefix or the injection marker.
pub fn detect_canary_pattern(output: &str) -> (r: bool)
    ensures
        r == (contains_exact(output@, "CANARY"@) || contains_exact(output@, "SYSTEM_CANARY"@)),
{
    str_contains(output, "CANARY") || str_contains(output, "SYSTEM_CANARY")
}

/// Canary-like content, ignoring ASCII case.
pub fn detect_canary_pattern_case_insensitive(output: &str) -> (r: bool)
    ensures
        r == (contains_ci(output@, "canary"@) || contains_ci(output@, "system_canary"@)),
{
    str_contains_ci(output, "canary") || str_contains_ci(output, "system_canary")
}

} // verus!
