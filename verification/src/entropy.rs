//! Shannon-entropy scoring over a character histogram, in fixed-point
//! arithmetic: sixteen fractional bits internally, reported in
//! thousandths of a bit per character.

use vstd::prelude::*;
use vstd::string::StrSliceExecFns;

use crate::text::chars_of;

verus! {

/// The default block threshold: 4500 thousandths of a bit per character.
pub const DEFAULT_ENTROPY_THRESHOLD_MILLIBITS: u64 = 4500;

/// Texts shorter than this many characters are not scored.
pub const MIN_ANALYSIS_LENGTH: usize = 10;

/// Two to the `k`-th.
pub open spec fn spec_pow2(k: nat) -> nat
    decreases k,
{
    if k == 0 {
        1
    } else {
        2 * spec_pow2((k - 1) as nat)
    }
}

/// The integer part of the base-two logarithm.
pub open spec fn spec_floor_log2(n: nat) -> nat
    decreases n,
{
    if n < 2 {
        0
    } else {
        1 + spec_floor_log2(n / 2)
    }
}

/// The argument scaled into `[2^32, 2^33)`.
pub open spec fn spec_log_norm(n: nat) -> nat {
    n * 0x1_0000_0000 / spec_pow2(spec_floor_log2(n))
}

/// Sixteen fractional bits of the logarithm, computed by repeated
/// squaring of the normalised argument.
pub open spec fn spec_frac16(y: nat, k: nat) -> nat
    decreases k,
{
    if k == 0 {
        0
    } else {
        let y2 = y * y / 0x1_0000_0000;
        if y2 >= 0x2_0000_0000 {
            spec_pow2((k - 1) as nat) + spec_frac16(y2 / 2, (k - 1) as nat)
        } else {
            spec_frac16(y2, (k - 1) as nat)
        }
    }
}

/// The base-two logarithm with sixteen fractional bits; zero for zero.
pub open spec fn spec_log2_q16(n: nat) -> nat {
    if n == 0 {
        0
    } else {
        spec_floor_log2(n) * 65536 + spec_frac16(spec_log_norm(n), 16)
    }
}

/// The base-two logarithm with sixteen fractional bits.
pub fn log2_q16(x: u64) -> (r: u64)
    requires
        x >= 1,
    ensures
        r == spec_log2_q16(x as nat),
        r <= 64 * 65536 + 65535,
{
    let mut b: u64 = 0;
    let mut t: u64 = x;
    let mut p: u128 = 1;
    while t >= 2
        invariant
            t >= 1,
            p >= 1,
            b <= 63,
            spec_floor_log2(x as nat) == b + spec_floor_log2(t as nat),
            p == spec_pow2(b as nat),
            t == (x as u128) / p,
            p <= x as u128,
        decreases t,
    {
        proof {
            assert((x as int) / (p as int) / 2 == (x as int) / ((p as int) * 2))
                by (nonlinear_arith)
                requires
                    p >= 1,
            ;
            assert((p as int) * 2 <= x as int) by (nonlinear_arith)
                requires
                    (x as int) / ((p as int) * 2) >= 1,
                    p >= 1,
            ;
            if b + 1 >= 64 {
                lemma_pow2_lower((b + 1) as nat);
                assert(spec_pow2((b + 1) as nat) == 2 * spec_pow2(b as nat));
                assert(false);
            }
        }
        t = t / 2;
        b = b + 1;
        p = p * 2;
    }
    proof {
        // t == 1 pins x between p and 2p
        assert(p <= x as u128 && (x as u128) < 2 * p) by (nonlinear_arith)
            requires
                (x as u128) / p == 1,
                p >= 1,
        ;
    }
    let scaled: u128 = (x as u128) * 0x1_0000_0000;
    let mut y: u128 = scaled / p;
    proof {
        assert(y >= 0x1_0000_0000) by (nonlinear_arith)
            requires
                y == scaled / p,
                scaled == (x as u128) * 0x1_0000_0000,
                p <= x as u128,
                p >= 1,
        ;
        assert(y < 0x2_0000_0000) by (nonlinear_arith)
            requires
                y == scaled / p,
                scaled == (x as u128) * 0x1_0000_0000,
                (x as u128) < 2 * p,
                p >= 1,
        ;
        assert(y == spec_log_norm(x as nat));
    }

    let mut frac: u64 = 0;
    let mut k: u64 = 16;
    let ghost y0 = y;
    proof {
        reveal_with_fuel(spec_pow2, 18);
        assert(spec_pow2(0) * spec_pow2(16) == 65536);
    }
    while k > 0
        invariant
            0x1_0000_0000 <= y < 0x2_0000_0000,
            k <= 16,
            spec_frac16(y0 as nat, 16) == (frac as nat) * spec_pow2(k as nat) + spec_frac16(
                y as nat,
                k as nat,
            ),
            frac < spec_pow2((16 - k) as nat),
            spec_pow2((16 - k) as nat) * spec_pow2(k as nat) == 65536,
        decreases k,
    {
        let ghost frac0 = frac as nat;
        let ghost k0 = k as nat;
        let ghost yb = y as nat;
        proof {
            assert(y * y < 0x4_0000_0000_0000_0000) by (nonlinear_arith)
                requires
                    y < 0x2_0000_0000,
            ;
            assert(y * y >= 0x1_0000_0000_0000_0000) by (nonlinear_arith)
                requires
                    y >= 0x1_0000_0000,
            ;
        }
        let y2: u128 = y * y / 0x1_0000_0000;
        proof {
            assert(y2 >= 0x1_0000_0000) by (nonlinear_arith)
                requires
                    y2 == y * y / 0x1_0000_0000,
                    y * y >= 0x1_0000_0000_0000_0000,
            ;
            assert(y2 < 0x4_0000_0000) by (nonlinear_arith)
                requires
                    y2 == y * y / 0x1_0000_0000,
                    y * y < 0x4_0000_0000_0000_0000,
            ;
        }
        proof {
            lemma_pow2_pos(k as nat);
            assert(frac < 65536) by (nonlinear_arith)
                requires
                    (frac as nat) < spec_pow2((16 - k) as nat),
                    spec_pow2((16 - k) as nat) * spec_pow2(k as nat) == 65536,
                    spec_pow2(k as nat) >= 1,
            ;
        }
        if y2 >= 0x2_0000_0000 {
            y = y2 / 2;
            frac = frac * 2 + 1;
        } else {
            y = y2;
            frac = frac * 2;
        }
        k = k - 1;
        proof {
            assert(spec_pow2(k0) == 2 * spec_pow2((k0 - 1) as nat));
            assert(spec_pow2((16 - k0 + 1) as nat) == 2 * spec_pow2((16 - k0) as nat));
            assert(spec_pow2((16 - k0 + 1) as nat) * spec_pow2((k0 - 1) as nat) == 65536)
                by (nonlinear_arith)
                requires
                    spec_pow2((16 - k0 + 1) as nat) == 2 * spec_pow2((16 - k0) as nat),
                    spec_pow2(k0) == 2 * spec_pow2((k0 - 1) as nat),
                    spec_pow2((16 - k0) as nat) * spec_pow2(k0) == 65536,
            ;
            lemma_pow2_pos((k0 - 1) as nat);
            assert(spec_pow2((16 - k0 + 1) as nat) <= 65536) by (nonlinear_arith)
                requires
                    spec_pow2((16 - k0 + 1) as nat) * spec_pow2((k0 - 1) as nat) == 65536,
                    spec_pow2((k0 - 1) as nat) >= 1,
            ;
            if (yb * yb / 0x1_0000_0000) >= 0x2_0000_0000 {
                assert(spec_frac16(yb, k0) == spec_pow2((k0 - 1) as nat) + spec_frac16(
                    yb * yb / 0x1_0000_0000 / 2,
                    (k0 - 1) as nat,
                ));
                assert(frac0 * spec_pow2(k0) + spec_frac16(yb, k0) == (frac0 * 2 + 1)
                    * spec_pow2((k0 - 1) as nat) + spec_frac16(
                    yb * yb / 0x1_0000_0000 / 2,
                    (k0 - 1) as nat,
                )) by (nonlinear_arith)
                    requires
                        spec_pow2(k0) == 2 * spec_pow2((k0 - 1) as nat),
                        spec_frac16(yb, k0) == spec_pow2((k0 - 1) as nat) + spec_frac16(
                            yb * yb / 0x1_0000_0000 / 2,
                            (k0 - 1) as nat,
                        ),
                ;
            } else {
                assert(spec_frac16(yb, k0) == spec_frac16(
                    yb * yb / 0x1_0000_0000,
                    (k0 - 1) as nat,
                ));
                assert(frac0 * spec_pow2(k0) + spec_frac16(yb, k0) == (frac0 * 2) * spec_pow2(
                    (k0 - 1) as nat,
                ) + spec_frac16(yb * yb / 0x1_0000_0000, (k0 - 1) as nat)) by (nonlinear_arith)
                    requires
                        spec_pow2(k0) == 2 * spec_pow2((k0 - 1) as nat),
                        spec_frac16(yb, k0) == spec_frac16(
                            yb * yb / 0x1_0000_0000,
                            (k0 - 1) as nat,
                        ),
                ;
            }
        }
    }
    proof {
        assert(k == 0);
        assert(spec_frac16(y0 as nat, 16) == (frac as nat) * spec_pow2(k as nat) + spec_frac16(
            y as nat,
            k as nat,
        ));
        assert(spec_pow2(0) == 1);
        assert(spec_pow2(k as nat) == 1);
        assert((frac as nat) * spec_pow2(k as nat) == frac as nat) by (nonlinear_arith)
            requires
                spec_pow2(k as nat) == 1,
        ;
        assert(spec_frac16(y as nat, k as nat) == 0);
        assert(spec_frac16(y0 as nat, 16) == frac as nat);
        lemma_pow2_pos(16);
        assert(frac < 65536) by (nonlinear_arith)
            requires
                (frac as nat) < spec_pow2((16 - k) as nat),
                k == 0,
                spec_pow2((16 - k) as nat) * spec_pow2(k as nat) == 65536,
                spec_pow2(0) == 1,
        ;
    }
    b * 65536 + frac
}

/// Doubling never reaches zero.
proof fn lemma_pow2_pos(k: nat)
    ensures
        spec_pow2(k) >= 1,
    decreases k,
{
    if k > 0 {
        lemma_pow2_pos((k - 1) as nat);
    }
}

/// Sixty-four doublings pass the top of the 64-bit range.
proof fn lemma_pow2_lower(k: nat)
    requires
        k >= 64,
    ensures
        spec_pow2(k) >= 0x1_0000_0000_0000_0000,
    decreases k,
{
    if k > 64 {
        lemma_pow2_lower((k - 1) as nat);
    } else {
        lemma_pow2_64();
    }
}

#[verifier::rlimit(50)]
proof fn lemma_pow2_64()
    ensures
        spec_pow2(64) == 0x1_0000_0000_0000_0000,
{
    reveal_with_fuel(spec_pow2, 65);
}

/// The characters of `s`, one entry each, in first-appearance order.
pub open spec fn spec_distinct_chars(s: Seq<char>) -> Seq<char>
    decreases s.len(),
{
    if s.len() == 0 {
        Seq::empty()
    } else if spec_distinct_chars(s.drop_last()).contains(s.last()) {
        spec_distinct_chars(s.drop_last())
    } else {
        spec_distinct_chars(s.drop_last()).push(s.last())
    }
}

/// How often `c` occurs in `s`.
pub open spec fn spec_char_count(s: Seq<char>, c: char) -> nat
    decreases s.len(),
{
    if s.len() == 0 {
        0
    } else {
        spec_char_count(s.drop_last(), c) + if s.last() == c {
            1nat
        } else {
            0nat
        }
    }
}

/// The histogram part of the entropy: each distinct character's count
/// times the fixed-point logarithm of that count, summed with a guard
/// that never overflows.
pub open spec fn spec_weighted_sum(s: Seq<char>, cs: Seq<char>) -> nat
    decreases cs.len(),
{
    if cs.len() == 0 {
        0
    } else {
        let rest = spec_weighted_sum(s, cs.drop_last());
        let c = spec_char_count(s, cs.last());
        let term = c * spec_log2_q16(c);
        if rest + term <= 0xFFFF_FFFF_FFFF_FFFF_FFFF_FFFF {
            rest + term
        } else {
            0xFFFF_FFFF_FFFF_FFFF_FFFF_FFFF
        }
    }
}

/// Shannon entropy with sixteen fractional bits: the logarithm of the
/// length, less the length-weighted histogram average.
pub open spec fn spec_entropy_q16(s: Seq<char>) -> nat {
    if s.len() == 0 {
        0
    } else {
        let total = s.len();
        let lt = spec_log2_q16(total);
        let sum = spec_weighted_sum(s, spec_distinct_chars(s));
        if sum > total * lt {
            0
        } else {
            ((total * lt - sum) / (total as int)) as nat
        }
    }
}

/// Shannon entropy in thousandths of a bit per character.
pub open spec fn spec_entropy_millibits(s: Seq<char>) -> nat {
    spec_entropy_q16(s) * 1000 / 65536
}

/// Computes the entropy of the text, in thousandths of a bit per
/// character.
#[verifier::rlimit(50)]
pub fn calculate_entropy_millibits(text: &str) -> (r: u64)
    ensures
        r == spec_entropy_millibits(text@),
{
    let cs = chars_of(text);
    let n = cs.len();
    if n == 0 {
        proof {
            assert(spec_entropy_q16(text@) == 0);
        }
        return 0;
    }

    // distinct characters, in first-appearance order
    let mut distinct: Vec<char> = Vec::new();
    let mut i: usize = 0;
    while i < n
        invariant
            n == cs@.len(),
            cs@ == text@,
            i <= n,
            distinct@ == spec_distinct_chars(text@.take(i as int)),
        decreases n - i,
    {
        let ghost pre = text@.take(i as int);
        let c = cs[i];
        let mut seen = false;
        let mut j: usize = 0;
        while j < distinct.len()
            invariant
                seen == exists|k: int| 0 <= k < j && distinct@[k] == c,
                j <= distinct@.len(),
            decreases distinct@.len() - j,
        {
            if distinct[j] == c {
                seen = true;
            }
            j = j + 1;
        }
        if !seen {
            distinct.push(c);
        }
        i = i + 1;
        proof {
            assert(text@.take(i as int).drop_last() =~= pre);
            assert(text@.take(i as int).last() == text@[i - 1]);
            assert(seen == spec_distinct_chars(pre).contains(c));
        }
    }
    proof {
        assert(text@.take(n as int) =~= text@);
    }

    // weighted histogram sum
    let d = distinct.len();
    let mut sum: u128 = 0;
    let mut t: usize = 0;
    while t < d
        invariant
            d == distinct@.len(),
            t <= d,
            n == cs@.len(),
            cs@ == text@,
            distinct@ == spec_distinct_chars(text@),
            sum == spec_weighted_sum(text@, distinct@.take(t as int)),
            sum <= 0xFFFF_FFFF_FFFF_FFFF_FFFF_FFFF,
        decreases d - t,
    {
        let ghost pre = distinct@.take(t as int);
        let c = distinct[t];
        let mut count: u64 = 0;
        let mut m: usize = 0;
        while m < n
            invariant
                n == cs@.len(),
                cs@ == text@,
                m <= n,
                count == spec_char_count(text@.take(m as int), c),
                count <= m,
            decreases n - m,
        {
            let ghost cpre = text@.take(m as int);
            if cs[m] == c {
                count = count + 1;
            }
            m = m + 1;
            proof {
                assert(text@.take(m as int).drop_last() =~= cpre);
                assert(text@.take(m as int).last() == text@[m - 1]);
            }
        }
        proof {
            assert(text@.take(n as int) =~= text@);
        }
        let term: u128 = if count == 0 {
            0
        } else {
            let lg = log2_q16(count);
            proof {
                assert((count as u128) * (lg as u128) <= 0xFFFF_FFFF_FFFF_FFFF_FFFF_FFFF)
                    by (nonlinear_arith)
                    requires
                        count as u128 <= 0xFFFF_FFFF_FFFF_FFFF,
                        lg as u128 <= 0x40_FFFF,
                ;
            }
            (count as u128) * (lg as u128)
        };
        proof {
            assert(count as nat == spec_char_count(text@, c));
            assert(spec_log2_q16(spec_char_count(text@, c)) == spec_log2_q16(count as nat));
            if count == 0 {
                assert(term as nat == spec_char_count(text@, c) * spec_log2_q16(
                    spec_char_count(text@, c),
                ));
            } else {
                assert(term as nat == (count as nat) * spec_log2_q16(count as nat));
                assert(term as nat == spec_char_count(text@, c) * spec_log2_q16(
                    spec_char_count(text@, c),
                ));
            }
        }
        if sum <= 0xFFFF_FFFF_FFFF_FFFF_FFFF_FFFF - term {
            sum = sum + term;
        } else {
            sum = 0xFFFF_FFFF_FFFF_FFFF_FFFF_FFFF;
        }
        t = t + 1;
        proof {
            assert(distinct@.take(t as int).drop_last() =~= pre);
            assert(distinct@.take(t as int).last() == distinct@[t - 1]);
            assert(spec_weighted_sum(text@, distinct@.take(t as int)) == ({
                let rest = spec_weighted_sum(text@, pre);
                let cc = spec_char_count(text@, c);
                if rest + cc * spec_log2_q16(cc) <= 0xFFFF_FFFF_FFFF_FFFF_FFFF_FFFF {
                    rest + cc * spec_log2_q16(cc)
                } else {
                    0xFFFF_FFFF_FFFF_FFFF_FFFF_FFFF
                }
            }));
        }
    }
    proof {
        assert(distinct@.take(d as int) =~= distinct@);
    }

    let total = n as u64;
    let lt = log2_q16(total);
    proof {
        assert((total as u128) * (lt as u128) <= 0xFFFF_FFFF_FFFF_FFFF_FFFF_FFFF)
            by (nonlinear_arith)
            requires
                total as u128 <= 0xFFFF_FFFF_FFFF_FFFF,
                lt as u128 <= 0x40_FFFF,
        ;
    }
    let product: u128 = (total as u128) * (lt as u128);
    if sum > product {
        proof {
            assert(spec_entropy_q16(text@) == 0);
        }
        return 0;
    }
    proof {
        assert((product as int - sum as int) / (total as int) <= lt as int)
            by (nonlinear_arith)
            requires
                total as int >= 1,
                sum <= product,
                product == (total as int) * (lt as int),
        ;
    }
    let h_q16 = ((product - sum) / (total as u128)) as u64;
    proof {
        assert(h_q16 as nat == spec_entropy_q16(text@));
    }
    (h_q16 as u128 * 1000 / 65536) as u64
}

/// Whether the text is long enough to score and scores above the
/// threshold, in thousandths of a bit per character.
pub fn is_high_entropy(text: &str, threshold_millibits: u64) -> (r: bool)
    ensures
        r == (text@.len() >= MIN_ANALYSIS_LENGTH && spec_entropy_millibits(text@)
            > threshold_millibits),
{
    if text.unicode_len() < MIN_ANALYSIS_LENGTH {
        return false;
    }
    calculate_entropy_millibits(text) > threshold_millibits
}

/// Scores one segment: its entropy in thousandths of a bit per
/// character, and whether that exceeds the default threshold.
pub fn analyze_segment(text: &str) -> (r: (bool, u64))
    ensures
        r.1 == spec_entropy_millibits(text@),
        r.0 == (spec_entropy_millibits(text@) > DEFAULT_ENTROPY_THRESHOLD_MILLIBITS),
{
    let e = calculate_entropy_millibits(text);
    (e > DEFAULT_ENTROPY_THRESHOLD_MILLIBITS, e)
}

/// Slides a window of `window_size` characters across the text and
/// returns the first window whose entropy exceeds the threshold, with
/// its start position and score; nothing when no window does, or when
/// the text is shorter than the window.
pub fn find_high_entropy_window(text: &str, window_size: usize, threshold_millibits: u64) -> (r:
    Option<(usize, u64)>)
    ensures
        text@.len() < window_size ==> r is None,
        r matches Some(p) ==> ({
            &&& p.0 + window_size <= text@.len()
            &&& p.1 == spec_entropy_millibits(
                text@.subrange(p.0 as int, p.0 + window_size),
            )
            &&& p.1 > threshold_millibits
            &&& forall|k: int|
                0 <= k < p.0 ==> spec_entropy_millibits(
                    #[trigger] text@.subrange(k, k + window_size),
                ) <= threshold_millibits
        }),
        (r is None && window_size <= text@.len()) ==> forall|k: int|
            0 <= k <= text@.len() - window_size ==> spec_entropy_millibits(
                #[trigger] text@.subrange(k, k + window_size),
            ) <= threshold_millibits,
{
    let cs = crate::text::chars_of(text);
    let n = cs.len();
    if n < window_size {
        return None;
    }
    if window_size == 0 {
        proof {
            assert forall|k: int|
                0 <= k <= text@.len() implies spec_entropy_millibits(
                #[trigger] text@.subrange(k, k + 0),
            ) <= threshold_millibits by {
                assert(text@.subrange(k, k) =~= Seq::<char>::empty());
                assert(spec_entropy_millibits(Seq::<char>::empty()) == 0);
            }
        }
        return None;
    }
    let last_start = n - window_size;
    let mut start: usize = 0;
    while start <= last_start
        invariant
            n == cs@.len(),
            cs@ == text@,
            last_start == n - window_size,
            1 <= window_size,
            start <= last_start + 1,
            forall|k: int|
                0 <= k < start ==> spec_entropy_millibits(
                    #[trigger] text@.subrange(k, k + window_size),
                ) <= threshold_millibits,
        decreases last_start - start + 1,
    {
        let mut w = String::new();
        let mut m: usize = start;
        while m < start + window_size
            invariant
                n == cs@.len(),
                cs@ == text@,
                start <= m <= start + window_size,
                start + window_size <= n,
                w@ == text@.subrange(start as int, m as int),
            decreases start + window_size - m,
        {
            crate::text::push_char(&mut w, cs[m]);
            proof {
                assert(text@.subrange(start as int, m + 1) =~= text@.subrange(
                    start as int,
                    m as int,
                ).push(text@[m as int]));
            }
            m = m + 1;
        }
        let e = calculate_entropy_millibits(w.as_str());
        if e > threshold_millibits {
            return Some((start, e));
        }
        start = start + 1;
    }
    None
}

} // verus!
