//! Character-level text utilities: ASCII case folding, substring search,
//! `|`-separated alternative patterns, and whitespace tokenisation.

use vstd::prelude::*;
use vstd::string::StrSliceExecFns;

verus! {

/// ASCII case folding on a single code point: upper-case letters map to
/// their lower-case forms, everything else stays itself.
pub open spec fn fold_u32(c: char) -> u32 {
    if 65 <= c as u32 && c as u32 <= 90 {
        (c as u32 + 32) as u32
    } else {
        c as u32
    }
}

/// ASCII case folding, executable form.
pub fn fold_char(c: char) -> (r: u32)
    ensures
        r == fold_u32(c),
{
    let u = c as u32;
    if 65 <= u && u <= 90 {
        u + 32
    } else {
        u
    }
}

/// `needle` matches `hay` at position `i`, ignoring ASCII case.
pub open spec fn ci_match_at(hay: Seq<char>, needle: Seq<char>, i: int) -> bool {
    &&& 0 <= i
    &&& i + needle.len() <= hay.len()
    &&& forall|j: int| 0 <= j < needle.len() ==> fold_u32(hay[i + j]) == fold_u32(needle[j])
}

/// `hay` holds `needle` somewhere, ignoring ASCII case.
pub open spec fn contains_ci(hay: Seq<char>, needle: Seq<char>) -> bool {
    exists|i: int| ci_match_at(hay, needle, i)
}

/// `needle` matches `hay` at position `i`, exactly.
pub open spec fn match_at(hay: Seq<char>, needle: Seq<char>, i: int) -> bool {
    &&& 0 <= i
    &&& i + needle.len() <= hay.len()
    &&& forall|j: int| 0 <= j < needle.len() ==> hay[i + j] == needle[j]
}

/// `hay` holds `needle` somewhere, exactly.
pub open spec fn contains_exact(hay: Seq<char>, needle: Seq<char>) -> bool {
    exists|i: int| match_at(hay, needle, i)
}

/// The characters of `s`, as a vector.
pub fn chars_of(s: &str) -> (r: Vec<char>)
    ensures
        r@ == s@,
{
    let n = s.unicode_len();
    let mut r: Vec<char> = Vec::new();
    let mut i: usize = 0;
    while i < n
        invariant
            n == s@.len(),
            i <= n,
            r@ == s@.take(i as int),
        decreases n - i,
    {
        r.push(s.get_char(i));
        i = i + 1;
        proof {
            assert(s@.take(i as int) =~= s@.take(i - 1).push(s@[i - 1]));
        }
    }
    proof {
        assert(s@.take(n as int) =~= s@);
    }
    r
}

fn ci_match_here(hay: &Vec<char>, needle: &Vec<char>, i: usize) -> (r: bool)
    requires
        i + needle@.len() <= hay@.len(),
    ensures
        r == ci_match_at(hay@, needle@, i as int),
{
    let hl = hay.len();
    let mut j: usize = 0;
    while j < needle.len()
        invariant
            hl == hay@.len(),
            i + needle@.len() <= hay@.len(),
            j <= needle@.len(),
            forall|k: int| 0 <= k < j ==> fold_u32(hay@[i + k]) == fold_u32(needle@[k]),
        decreases needle@.len() - j,
    {
        if fold_char(hay[i + j]) != fold_char(needle[j]) {
            return false;
        }
        j = j + 1;
    }
    true
}

fn match_here(hay: &Vec<char>, needle: &Vec<char>, i: usize) -> (r: bool)
    requires
        i + needle@.len() <= hay@.len(),
    ensures
        r == match_at(hay@, needle@, i as int),
{
    let hl = hay.len();
    let mut j: usize = 0;
    while j < needle.len()
        invariant
            hl == hay@.len(),
            i + needle@.len() <= hay@.len(),
            j <= needle@.len(),
            forall|k: int| 0 <= k < j ==> hay@[i + k] == needle@[k],
        decreases needle@.len() - j,
    {
        if hay[i + j] != needle[j] {
            return false;
        }
        j = j + 1;
    }
    true
}

/// Case-insensitive substring search over character vectors.
pub fn vec_contains_ci(hay: &Vec<char>, needle: &Vec<char>) -> (r: bool)
    ensures
        r == contains_ci(hay@, needle@),
{
    if needle.len() > hay.len() {
        return false;
    }
    let bound = hay.len() - needle.len();
    let mut i: usize = 0;
    while i < bound
        invariant
            needle@.len() <= hay@.len(),
            bound == hay@.len() - needle@.len(),
            i <= bound,
            forall|k: int| 0 <= k < i ==> !ci_match_at(hay@, needle@, k),
        decreases bound - i,
    {
        if ci_match_here(hay, needle, i) {
            return true;
        }
        i = i + 1;
    }
    ci_match_here(hay, needle, bound)
}

/// Exact substring search over character vectors.
pub fn vec_contains_exact(hay: &Vec<char>, needle: &Vec<char>) -> (r: bool)
    ensures
        r == contains_exact(hay@, needle@),
{
    if needle.len() > hay.len() {
        return false;
    }
    let bound = hay.len() - needle.len();
    let mut i: usize = 0;
    while i < bound
        invariant
            needle@.len() <= hay@.len(),
            bound == hay@.len() - needle@.len(),
            i <= bound,
            forall|k: int| 0 <= k < i ==> !match_at(hay@, needle@, k),
        decreases bound - i,
    {
        if match_here(hay, needle, i) {
            return true;
        }
        i = i + 1;
    }
    match_here(hay, needle, bound)
}

/// Case-insensitive substring search directly on string slices.
pub fn str_contains_ci(hay: &str, needle: &str) -> (r: bool)
    ensures
        r == contains_ci(hay@, needle@),
{
    let h = chars_of(hay);
    let n = chars_of(needle);
    vec_contains_ci(&h, &n)
}

/// Exact substring search directly on string slices.
pub fn str_contains(hay: &str, needle: &str) -> (r: bool)
    ensures
        r == contains_exact(hay@, needle@),
{
    let h = chars_of(hay);
    let n = chars_of(needle);
    vec_contains_exact(&h, &n)
}

/// `p[i..j]` is one `|`-separated alternative of the pattern `p`: it abuts
/// a separator or an end of the pattern on both sides and holds no
/// separator itself.
pub open spec fn is_alt_segment(p: Seq<char>, i: int, j: int) -> bool {
    &&& 0 <= i <= j <= p.len()
    &&& (i == 0 || p[i - 1] == '|')
    &&& (j == p.len() || p[j] == '|')
    &&& forall|k: int| i <= k < j ==> p[k] != '|'
}

/// Some `|`-separated alternative of `p` occurs in `hay`, ignoring ASCII
/// case. A pattern without separators is a single alternative.
pub open spec fn alts_hit(hay: Seq<char>, p: Seq<char>) -> bool {
    exists|i: int, j: int| is_alt_segment(p, i, j) && contains_ci(hay, p.subrange(i, j))
}

/// Checks the pattern's alternatives one after the other.
pub fn matches_alternatives(hay: &Vec<char>, p: &Vec<char>) -> (r: bool)
    ensures
        r == alts_hit(hay@, p@),
{
    let n = p.len();
    let mut start: usize = 0;
    let mut pos: usize = 0;
    while pos < n
        invariant
            n == p@.len(),
            start <= pos <= n,
            start == 0 || p@[start - 1] == '|',
            forall|k: int| start <= k < pos ==> p@[k] != '|',
            forall|i: int, j: int|
                is_alt_segment(p@, i, j) && i < start ==> !contains_ci(hay@, p@.subrange(i, j)),
        decreases n - pos,
    {
        if p[pos] == '|' {
            let alt = segment_of(p, start, pos);
            if vec_contains_ci(hay, &alt) {
                proof {
                    assert(is_alt_segment(p@, start as int, pos as int));
                    assert(contains_ci(hay@, p@.subrange(start as int, pos as int)));
                }
                return true;
            }
            proof {
                lemma_alt_segment_unique(p@, start as int, pos as int);
            }
            start = pos + 1;
        }
        pos = pos + 1;
    }
    let alt = segment_of(p, start, n);
    if vec_contains_ci(hay, &alt) {
        proof {
            assert(is_alt_segment(p@, start as int, n as int));
            assert(contains_ci(hay@, p@.subrange(start as int, n as int)));
        }
        return true;
    }
    proof {
        lemma_alt_segment_unique(p@, start as int, n as int);
    }
    false
}

fn segment_of(p: &Vec<char>, i: usize, j: usize) -> (r: Vec<char>)
    requires
        i <= j <= p@.len(),
    ensures
        r@ == p@.subrange(i as int, j as int),
{
    let mut r: Vec<char> = Vec::new();
    let mut k: usize = i;
    while k < j
        invariant
            i <= k <= j <= p@.len(),
            r@ == p@.subrange(i as int, k as int),
        decreases j - k,
    {
        r.push(p[k]);
        k = k + 1;
        proof {
            assert(p@.subrange(i as int, k as int) =~= p@.subrange(i as int, k - 1).push(
                p@[k - 1],
            ));
        }
    }
    r
}

/// Two alternatives that begin at the same place end at the same place:
/// the end is the first separator at or after the start.
proof fn lemma_alt_segment_unique(p: Seq<char>, i: int, j: int)
    requires
        is_alt_segment(p, i, j),
    ensures
        forall|j2: int| is_alt_segment(p, i, j2) ==> j2 == j,
{
    assert forall|j2: int| is_alt_segment(p, i, j2) implies j2 == j by {
        if j2 < j {
            assert(p[j2] != '|');
        } else if j < j2 {
            assert(p[j] != '|');
        }
    }
}

/// String equality by contents.
pub fn str_eq(a: &str, b: &str) -> (r: bool)
    ensures
        r == (a@ == b@),
{
    let an = a.unicode_len();
    let bn = b.unicode_len();
    if an != bn {
        return false;
    }
    let mut i: usize = 0;
    while i < an
        invariant
            an == a@.len(),
            bn == b@.len(),
            an == bn,
            i <= an,
            forall|k: int| 0 <= k < i ==> a@[k] == b@[k],
        decreases an - i,
    {
        if a.get_char(i) != b.get_char(i) {
            return false;
        }
        i = i + 1;
    }
    proof {
        assert(a@ =~= b@);
    }
    true
}


/// Relies on `String::push`: appends exactly the one character.
#[verifier::external_body]
pub fn push_char(s: &mut String, c: char)
    ensures
        final(s)@ == old(s)@.push(c),
{
    s.push(c);
}


/// Strict lexicographic order on strings by character scalar value.
pub open spec fn cp_lt(a: Seq<char>, b: Seq<char>) -> bool
    decreases a.len(),
{
    if b.len() == 0 {
        false
    } else if a.len() == 0 {
        true
    } else if a[0] == b[0] {
        cp_lt(a.drop_first(), b.drop_first())
    } else {
        (a[0] as u32) < (b[0] as u32)
    }
}

/// The order is irreflexive.
pub proof fn lemma_cp_lt_irrefl(a: Seq<char>)
    ensures
        !cp_lt(a, a),
    decreases a.len(),
{
    if a.len() > 0 {
        lemma_cp_lt_irrefl(a.drop_first());
    }
}

/// The order is transitive.
pub proof fn lemma_cp_lt_trans(a: Seq<char>, b: Seq<char>, c: Seq<char>)
    requires
        cp_lt(a, b),
        cp_lt(b, c),
    ensures
        cp_lt(a, c),
    decreases a.len(),
{
    if b.len() == 0 {
    } else if a.len() == 0 {
    } else if c.len() == 0 {
    } else {
        if a[0] == b[0] && b[0] == c[0] {
            lemma_cp_lt_trans(a.drop_first(), b.drop_first(), c.drop_first());
        }
    }
}

/// Two strings unordered under `cp_lt` are equal.
pub proof fn lemma_cp_lt_total(a: Seq<char>, b: Seq<char>)
    requires
        !cp_lt(a, b),
        !cp_lt(b, a),
    ensures
        a == b,
    decreases a.len(),
{
    if a.len() > 0 && b.len() > 0 {
        if a[0] == b[0] {
            lemma_cp_lt_total(a.drop_first(), b.drop_first());
            assert(a =~= seq![a[0]] + a.drop_first());
            assert(b =~= seq![b[0]] + b.drop_first());
        } else {
            assert(a[0] as u32 == b[0] as u32);
            vstd::utf8::char_u32_cast(a[0], a[0] as u32);
            vstd::utf8::char_u32_cast(b[0], a[0] as u32);
            assert(false);
        }
    } else {
        assert(a.len() == 0 && b.len() == 0);
        assert(a =~= b);
    }
}

/// Scalar-value string order, executable form.
pub fn cp_lt_exec(a: &str, b: &str) -> (r: bool)
    ensures
        r == cp_lt(a@, b@),
{
    let ca = chars_of(a);
    let cb = chars_of(b);
    let na = ca.len();
    let nb = cb.len();
    let min = if na < nb {
        na
    } else {
        nb
    };
    proof {
        assert(a@.skip(0) =~= a@);
        assert(b@.skip(0) =~= b@);
    }
    let mut i: usize = 0;
    while i < min
        invariant
            na == ca@.len(),
            nb == cb@.len(),
            ca@ == a@,
            cb@ == b@,
            min == if na < nb {
                na
            } else {
                nb
            },
            i <= min,
            cp_lt(a@, b@) == cp_lt(a@.skip(i as int), b@.skip(i as int)),
        decreases min - i,
    {
        let x = ca[i];
        let y = cb[i];
        if x != y {
            proof {
                assert(a@.skip(i as int)[0] == a@[i as int]);
                assert(b@.skip(i as int)[0] == b@[i as int]);
            }
            return (x as u32) < (y as u32);
        }
        i = i + 1;
        proof {
            assert(a@.skip(i - 1).drop_first() =~= a@.skip(i as int));
            assert(b@.skip(i - 1).drop_first() =~= b@.skip(i as int));
            assert(a@.skip(i - 1)[0] == a@[i - 1]);
            assert(b@.skip(i - 1)[0] == b@[i - 1]);
        }
    }
    proof {
        assert(a@.skip(min as int).len() == na - min);
        assert(b@.skip(min as int).len() == nb - min);
    }
    na < nb
}

} // verus!
