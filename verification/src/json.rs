//! JSON values and their canonical rendering: a deterministic serialisation
//! whose output depends only on the value, with object keys sorted by their
//! UTF-16 code-unit sequences, minimal string escaping, plain decimal
//! integers, and no whitespace.

use vstd::prelude::*;
use vstd::string::StringExecFns;

verus! {

/// A JSON document: nested values with string keys. Schema documents and
/// tool parameters are held in this form.
#[derive(Debug)]
pub enum JsonValue {
    /// The JSON `null`.
    Null,
    /// A JSON boolean.
    Bool(bool),
    /// A signed integer.
    Int(i64),
    /// An unsigned integer beyond the signed range.
    UInt(u64),
    /// A non-integral number, carried as its literal digits and rendered
    /// unquoted; expected to hold a valid JSON number literal.
    Decimal(String),
    /// A string.
    Text(String),
    /// An array, in element order.
    Array(Vec<JsonValue>),
    /// An object, as a key-value list; keys are expected to be distinct.
    Object(Vec<(String, JsonValue)>),
}

/// The hexadecimal digits, used for escapes and decimal rendering.
pub const HEX_DIGITS: [char; 16] = [
    '0',
    '1',
    '2',
    '3',
    '4',
    '5',
    '6',
    '7',
    '8',
    '9',
    'a',
    'b',
    'c',
    'd',
    'e',
    'f',
];

// ---------------------------------------------------------------------
// sizes, for termination measures
// ---------------------------------------------------------------------
/// The number of nodes in the value, counting one per scalar, array,
/// object and object entry.
pub open spec fn jsize(v: JsonValue) -> nat
    decreases v, 0int, 0int,
{
    match v {
        JsonValue::Array(xs) => 1 + jsize_list(xs@, xs@.len() as int),
        JsonValue::Object(es) => 1 + jsize_entries(es@, es@.len() as int),
        _ => 1,
    }
}

/// The combined size of the first `n` elements.
pub open spec fn jsize_list(s: Seq<JsonValue>, n: int) -> nat
    decreases s, n, 1int,
{
    if n <= 0 || n > s.len() {
        0
    } else {
        jsize(s[n - 1]) + jsize_list(s, n - 1)
    }
}

/// The combined size of the first `n` entries, one node per entry plus
/// the size of its value.
pub open spec fn jsize_entries(s: Seq<(String, JsonValue)>, n: int) -> nat
    decreases s, n, 1int,
{
    if n <= 0 || n > s.len() {
        0
    } else {
        1 + jsize(s[n - 1].1) + jsize_entries(s, n - 1)
    }
}

pub proof fn lemma_jsize_pos(v: JsonValue)
    ensures
        jsize(v) >= 1,
{
}

/// Element sizes are bounded by the list size.
pub proof fn lemma_jsize_list_elem(s: Seq<JsonValue>, n: int, i: int)
    requires
        0 <= i < n <= s.len(),
    ensures
        jsize(s[i]) <= jsize_list(s, n),
    decreases n,
{
    if i < n - 1 {
        lemma_jsize_list_elem(s, n - 1, i);
    }
}

/// Entry value sizes are strictly bounded by the entries size.
pub proof fn lemma_jsize_entries_elem(s: Seq<(String, JsonValue)>, n: int, i: int)
    requires
        0 <= i < n <= s.len(),
    ensures
        jsize(s[i].1) < jsize_entries(s, n),
    decreases n,
{
    if i < n - 1 {
        lemma_jsize_entries_elem(s, n - 1, i);
    }
}

/// The entries size reads only the first `n` entries.
pub proof fn lemma_jsize_entries_prefix(s1: Seq<(String, JsonValue)>, s2: Seq<(String, JsonValue)>, n: int)
    requires
        n <= s1.len(),
        n <= s2.len(),
        forall|i: int| 0 <= i < n ==> s1[i] == s2[i],
    ensures
        jsize_entries(s1, n) == jsize_entries(s2, n),
    decreases n,
{
    if n > 0 {
        lemma_jsize_entries_prefix(s1, s2, n - 1);
    }
}

/// Removing an entry takes away exactly that entry's contribution.
pub proof fn lemma_jsize_entries_remove(s: Seq<(String, JsonValue)>, k: int)
    requires
        0 <= k < s.len(),
    ensures
        jsize_entries(s.remove(k), s.len() - 1) == jsize_entries(s, s.len() as int) - 1 - jsize(
            s[k].1,
        ),
    decreases s.len(),
{
    let n = s.len() as int;
    if k == n - 1 {
        lemma_jsize_entries_prefix(s.remove(k), s, n - 1);
    } else {
        let t = s.drop_last();
        lemma_jsize_entries_remove(t, k);
        lemma_jsize_entries_prefix(s, t, n - 1);
        assert(s.remove(k).len() == n - 1);
        assert(s.remove(k)[n - 2] == s[n - 1]);
        lemma_jsize_entries_prefix(s.remove(k), t.remove(k), n - 2);
    }
}

// ---------------------------------------------------------------------
// key order: lexicographic over UTF-16 code units
// ---------------------------------------------------------------------
/// The first UTF-16 code unit of a character: itself in the basic plane,
/// else its high surrogate.
pub open spec fn u16_first(c: char) -> int {
    if (c as u32) < 0x10000 {
        c as u32 as int
    } else {
        0xD800 + ((c as u32 as int) - 0x10000) / 0x400
    }
}

/// The second UTF-16 code unit, or -1 for a basic-plane character.
pub open spec fn u16_second(c: char) -> int {
    if (c as u32) < 0x10000 {
        -1
    } else {
        0xDC00 + ((c as u32 as int) - 0x10000) % 0x400
    }
}

/// Character order by UTF-16 code units. Because no character's unit
/// sequence is a proper prefix of another's, comparing strings character
/// by character under this order equals comparing their flattened
/// code-unit sequences.
pub open spec fn char_lt16(a: char, b: char) -> bool {
    u16_first(a) < u16_first(b) || (u16_first(a) == u16_first(b) && u16_second(a) < u16_second(b))
}

/// Strict lexicographic order on strings under the UTF-16 unit order.
pub open spec fn key_lt(a: Seq<char>, b: Seq<char>) -> bool
    decreases a.len(),
{
    if b.len() == 0 {
        false
    } else if a.len() == 0 {
        true
    } else if a[0] == b[0] {
        key_lt(a.drop_first(), b.drop_first())
    } else {
        char_lt16(a[0], b[0])
    }
}

/// Non-strict companion of `key_lt`.
pub open spec fn key_le(a: Seq<char>, b: Seq<char>) -> bool {
    !key_lt(b, a)
}

/// Two characters unordered under the UTF-16 order are the same
/// character.
pub proof fn lemma_char_lt16_total(a: char, b: char)
    requires
        !char_lt16(a, b),
        !char_lt16(b, a),
    ensures
        a == b,
{
    let ai = a as u32 as int;
    let bi = b as u32 as int;
    assert(u16_first(a) == u16_first(b));
    assert(u16_second(a) == u16_second(b));
    if ai < 0x10000 || bi < 0x10000 {
        assert(ai == bi);
    } else {
        assert((ai - 0x10000) / 0x400 == (bi - 0x10000) / 0x400);
        assert((ai - 0x10000) % 0x400 == (bi - 0x10000) % 0x400);
        assert(ai - 0x10000 == ((ai - 0x10000) / 0x400) * 0x400 + (ai - 0x10000) % 0x400)
            by (nonlinear_arith);
        assert(bi - 0x10000 == ((bi - 0x10000) / 0x400) * 0x400 + (bi - 0x10000) % 0x400)
            by (nonlinear_arith);
        assert(ai == bi);
    }
    assert(a as u32 == b as u32);
    vstd::utf8::char_u32_cast(a, a as u32);
    vstd::utf8::char_u32_cast(b, a as u32);
}

/// Two strings unordered under `key_lt` are equal.
pub proof fn lemma_key_lt_total(a: Seq<char>, b: Seq<char>)
    requires
        !key_lt(a, b),
        !key_lt(b, a),
    ensures
        a == b,
    decreases a.len(),
{
    if a.len() > 0 && b.len() > 0 {
        if a[0] == b[0] {
            lemma_key_lt_total(a.drop_first(), b.drop_first());
            assert(a =~= seq![a[0]] + a.drop_first());
            assert(b =~= seq![b[0]] + b.drop_first());
        } else {
            lemma_char_lt16_total(a[0], b[0]);
        }
    } else {
        assert(a.len() == 0 && b.len() == 0);
        assert(a =~= b);
    }
}

// ---------------------------------------------------------------------
// canonical rendering
// ---------------------------------------------------------------------
/// The canonical escape of one character inside a JSON string.
pub open spec fn esc_char(c: char) -> Seq<char> {
    if c == '"' {
        seq!['\\', '"']
    } else if c == '\\' {
        seq!['\\', '\\']
    } else if c == '\u{8}' {
        seq!['\\', 'b']
    } else if c == '\u{c}' {
        seq!['\\', 'f']
    } else if c == '\n' {
        seq!['\\', 'n']
    } else if c == '\r' {
        seq!['\\', 'r']
    } else if c == '\t' {
        seq!['\\', 't']
    } else if (c as u32) < 0x20 {
        seq![
            '\\',
            'u',
            '0',
            '0',
            HEX_DIGITS@[(c as u32 as int) / 16],
            HEX_DIGITS@[(c as u32 as int) % 16],
        ]
    } else {
        seq![c]
    }
}

/// The escaped body of a JSON string.
pub open spec fn esc_str(s: Seq<char>) -> Seq<char>
    decreases s.len(),
{
    if s.len() == 0 {
        Seq::empty()
    } else {
        esc_str(s.drop_last()) + esc_char(s.last())
    }
}

/// A canonical JSON string: quoted and minimally escaped.
pub open spec fn canon_string(s: Seq<char>) -> Seq<char> {
    seq!['"'] + esc_str(s) + seq!['"']
}

/// The decimal digits of an unsigned number, most significant first.
pub open spec fn dec_u64(n: nat) -> Seq<char>
    decreases n,
{
    if n < 10 {
        seq![HEX_DIGITS@[n as int]]
    } else {
        dec_u64(n / 10) + seq![HEX_DIGITS@[(n % 10) as int]]
    }
}

/// The decimal rendering of a signed number.
pub open spec fn dec_i64(i: int) -> Seq<char> {
    if i < 0 {
        seq!['-'] + dec_u64((-i) as nat)
    } else {
        dec_u64(i as nat)
    }
}

/// The index of the entry with the smallest key; the earliest such entry
/// among equal keys.
pub open spec fn min_key_idx(es: Seq<(String, JsonValue)>) -> int
    decreases es.len(),
{
    if es.len() <= 1 {
        0
    } else {
        let r = min_key_idx(es.drop_last());
        if key_le(es[r].0@, es.last().0@) {
            r
        } else {
            es.len() - 1
        }
    }
}

pub proof fn lemma_min_key_idx(es: Seq<(String, JsonValue)>)
    requires
        es.len() >= 1,
    ensures
        0 <= min_key_idx(es) < es.len(),
        forall|i: int| 0 <= i < es.len() ==> key_le(es[min_key_idx(es)].0@, #[trigger] es[i].0@),
    decreases es.len(),
{
    if es.len() == 1 {
        lemma_key_lt_irrefl(es[0].0@);
    } else if es.len() > 1 {
        lemma_min_key_idx(es.drop_last());
        let r0 = min_key_idx(es.drop_last());
        if key_le(es[r0].0@, es.last().0@) {
            assert forall|i: int| 0 <= i < es.len() implies key_le(
                es[r0].0@,
                #[trigger] es[i].0@,
            ) by {
                if i < es.len() - 1 {
                    assert(es.drop_last()[i] == es[i]);
                    assert(es.drop_last()[r0] == es[r0]);
                    assert(key_le(es.drop_last()[r0].0@, es.drop_last()[i].0@));
                }
            }
        } else {
            let m = es.len() - 1;
            assert forall|i: int| 0 <= i < es.len() implies key_le(
                es[m].0@,
                #[trigger] es[i].0@,
            ) by {
                if i < m {
                    assert(es.drop_last()[i] == es[i]);
                    assert(es.drop_last()[r0] == es[r0]);
                    assert(key_le(es[r0].0@, es.drop_last()[i].0@));
                    lemma_key_lt_le_trans(es[m].0@, es[r0].0@, es[i].0@);
                } else {
                    lemma_key_lt_irrefl(es[m].0@);
                }
            }
        }
    }
}

/// The key order is irreflexive.
pub proof fn lemma_key_lt_irrefl(a: Seq<char>)
    ensures
        !key_lt(a, a),
    decreases a.len(),
{
    if a.len() > 0 {
        lemma_key_lt_irrefl(a.drop_first());
    }
}

/// A strict step absorbs a non-strict one.
pub proof fn lemma_key_lt_le_trans(a: Seq<char>, b: Seq<char>, c: Seq<char>)
    requires
        key_lt(a, b),
        key_le(b, c),
    ensures
        key_le(a, c),
{
    if key_lt(c, a) {
        lemma_key_lt_trans(c, a, b);
        assert(false);
    }
}

/// Strict transitivity of the key order.
pub proof fn lemma_key_lt_trans(a: Seq<char>, b: Seq<char>, c: Seq<char>)
    requires
        key_lt(a, b),
        key_lt(b, c),
    ensures
        key_lt(a, c),
    decreases a.len(),
{
    if b.len() == 0 {
    } else if a.len() == 0 {
    } else if c.len() == 0 {
    } else {
        if a[0] == b[0] && b[0] == c[0] {
            lemma_key_lt_trans(a.drop_first(), b.drop_first(), c.drop_first());
        } else if a[0] == b[0] {
            assert(char_lt16(b[0], c[0]));
        } else if b[0] == c[0] {
            assert(char_lt16(a[0], b[0]));
        } else {
            lemma_char_lt16_trans(a[0], b[0], c[0]);
        }
    }
}

pub proof fn lemma_char_lt16_trans(a: char, b: char, c: char)
    requires
        char_lt16(a, b),
        char_lt16(b, c),
    ensures
        char_lt16(a, c),
{
}

/// The canonical rendering of a JSON value.
pub open spec fn canon(v: JsonValue) -> Seq<char>
    decreases jsize(v), 0int,
{
    match v {
        JsonValue::Null => seq!['n', 'u', 'l', 'l'],
        JsonValue::Bool(b) => if b {
            seq!['t', 'r', 'u', 'e']
        } else {
            seq!['f', 'a', 'l', 's', 'e']
        },
        JsonValue::Int(i) => dec_i64(i as int),
        JsonValue::UInt(u) => dec_u64(u as nat),
        JsonValue::Decimal(d) => d@,
        JsonValue::Text(s) => canon_string(s@),
        JsonValue::Array(xs) => seq!['['] + canon_list(xs@, xs@.len() as int) + seq![']'],
        JsonValue::Object(es) => seq!['{'] + canon_entries(es@) + seq!['}'],
    }
}

/// The canonical rendering of the first `n` array elements, joined by
/// commas.
pub open spec fn canon_list(s: Seq<JsonValue>, n: int) -> Seq<char>
    decreases jsize_list(s, n), 1int,
    when n <= s.len()
    via canon_list_dec
{
    if n <= 0 {
        Seq::empty()
    } else if n == 1 {
        canon(s[0])
    } else {
        canon_list(s, n - 1) + seq![','] + canon(s[n - 1])
    }
}

#[via_fn]
proof fn canon_list_dec(s: Seq<JsonValue>, n: int) {
    if 0 < n <= s.len() {
        lemma_jsize_list_elem(s, n, n - 1);
        if n > 1 {
            lemma_jsize_pos(s[n - 1]);
            lemma_jsize_list_elem(s, n, 0);
        }
    }
}

/// The canonical rendering of object entries: the smallest key first,
/// then the rest, joined by commas.
pub open spec fn canon_entries(es: Seq<(String, JsonValue)>) -> Seq<char>
    decreases jsize_entries(es, es.len() as int), 1int,
    via canon_entries_dec
{
    if es.len() == 0 {
        Seq::empty()
    } else {
        let k = min_key_idx(es);
        let item = canon_string(es[k].0@) + seq![':'] + canon(es[k].1);
        if es.len() == 1 {
            item
        } else {
            item + seq![','] + canon_entries(es.remove(k))
        }
    }
}

#[via_fn]
proof fn canon_entries_dec(es: Seq<(String, JsonValue)>) {
    if es.len() > 0 {
        lemma_min_key_idx(es);
        let k = min_key_idx(es);
        lemma_jsize_entries_elem(es, es.len() as int, k);
        if es.len() > 1 {
            lemma_jsize_entries_remove(es, k);
        }
    }
}


// ---------------------------------------------------------------------
// view-level structural equality
// ---------------------------------------------------------------------
/// Structural equality of JSON values up to string views: the same shape
/// with the same scalars, element order and entry order.
pub open spec fn jeq(a: JsonValue, b: JsonValue) -> bool
    decreases jsize(a), 0int,
    via jeq_dec
{
    match (a, b) {
        (JsonValue::Null, JsonValue::Null) => true,
        (JsonValue::Bool(x), JsonValue::Bool(y)) => x == y,
        (JsonValue::Int(x), JsonValue::Int(y)) => x == y,
        (JsonValue::UInt(x), JsonValue::UInt(y)) => x == y,
        (JsonValue::Decimal(x), JsonValue::Decimal(y)) => x@ == y@,
        (JsonValue::Text(x), JsonValue::Text(y)) => x@ == y@,
        (JsonValue::Array(xs), JsonValue::Array(ys)) => jeq_list(xs@, ys@),
        (JsonValue::Object(es), JsonValue::Object(fs)) => jeq_entries(es@, fs@),
        _ => false,
    }
}

/// Elementwise structural equality of element lists.
pub open spec fn jeq_list(xs: Seq<JsonValue>, ys: Seq<JsonValue>) -> bool
    decreases jsize_list(xs, xs.len() as int), 1int,
    via jeq_list_dec
{
    xs.len() == ys.len() && (xs.len() == 0 || (jeq(xs.last(), ys.last()) && jeq_list(
        xs.drop_last(),
        ys.drop_last(),
    )))
}

/// Entrywise structural equality of entry lists.
pub open spec fn jeq_entries(
    es: Seq<(String, JsonValue)>,
    fs: Seq<(String, JsonValue)>,
) -> bool
    decreases jsize_entries(es, es.len() as int), 1int,
    via jeq_entries_dec
{
    es.len() == fs.len() && (es.len() == 0 || (es.last().0@ == fs.last().0@ && jeq(
        es.last().1,
        fs.last().1,
    ) && jeq_entries(es.drop_last(), fs.drop_last())))
}

#[via_fn]
proof fn jeq_dec(a: JsonValue, b: JsonValue) {
}

#[via_fn]
proof fn jeq_list_dec(xs: Seq<JsonValue>, ys: Seq<JsonValue>) {
    if xs.len() > 0 {
        let n = xs.len() as int;
        lemma_jsize_list_elem(xs, n, n - 1);
        lemma_jsize_pos(xs.last());
        lemma_jsize_list_prefix(xs, xs.drop_last(), n - 1);
    }
}

#[via_fn]
proof fn jeq_entries_dec(es: Seq<(String, JsonValue)>, fs: Seq<(String, JsonValue)>) {
    if es.len() > 0 {
        let n = es.len() as int;
        lemma_jsize_entries_elem(es, n, n - 1);
        lemma_jsize_entries_prefix(es, es.drop_last(), n - 1);
    }
}

/// The list size reads only the first `n` elements.
pub proof fn lemma_jsize_list_prefix(s1: Seq<JsonValue>, s2: Seq<JsonValue>, n: int)
    requires
        n <= s1.len(),
        n <= s2.len(),
        forall|i: int| 0 <= i < n ==> s1[i] == s2[i],
    ensures
        jsize_list(s1, n) == jsize_list(s2, n),
    decreases n,
{
    if n > 0 {
        lemma_jsize_list_prefix(s1, s2, n - 1);
    }
}

/// Structurally equal values render identically.
pub proof fn lemma_jeq_canon(a: JsonValue, b: JsonValue)
    requires
        jeq(a, b),
    ensures
        canon(a) == canon(b),
    decreases jsize(a), 0int,
{
    match (a, b) {
        (JsonValue::Array(xs), JsonValue::Array(ys)) => {
            lemma_jeq_canon_list(xs@, ys@, xs@.len() as int);
        },
        (JsonValue::Object(es), JsonValue::Object(fs)) => {
            lemma_jeq_canon_entries(es@, fs@);
        },
        _ => {},
    }
}

proof fn lemma_jeq_canon_list(xs: Seq<JsonValue>, ys: Seq<JsonValue>, n: int)
    requires
        jeq_list(xs, ys),
        0 <= n <= xs.len(),
    ensures
        canon_list(xs, n) == canon_list(ys, n),
    decreases jsize_list(xs, xs.len() as int), 1int, n,
{
    lemma_jeq_list_index(xs, ys);
    if n > 0 {
        lemma_jsize_list_elem(xs, xs.len() as int, n - 1);
        lemma_jeq_canon(xs[n - 1], ys[n - 1]);
        if n > 1 {
            lemma_jeq_canon_list(xs, ys, n - 1);
        }
    }
}

/// Listwise equality gives indexwise equality.
proof fn lemma_jeq_list_index(xs: Seq<JsonValue>, ys: Seq<JsonValue>)
    requires
        jeq_list(xs, ys),
    ensures
        xs.len() == ys.len(),
        forall|i: int| 0 <= i < xs.len() ==> jeq(#[trigger] xs[i], ys[i]),
    decreases xs.len(),
{
    if xs.len() > 0 {
        lemma_jeq_list_index(xs.drop_last(), ys.drop_last());
        assert forall|i: int| 0 <= i < xs.len() implies jeq(#[trigger] xs[i], ys[i]) by {
            if i < xs.len() - 1 {
                assert(xs.drop_last()[i] == xs[i]);
                assert(ys.drop_last()[i] == ys[i]);
                assert(jeq(xs.drop_last()[i], ys.drop_last()[i]));
            }
        }
    }
}

/// Entrywise equality gives indexwise equality.
proof fn lemma_jeq_entries_index(es: Seq<(String, JsonValue)>, fs: Seq<(String, JsonValue)>)
    requires
        jeq_entries(es, fs),
    ensures
        es.len() == fs.len(),
        forall|i: int|
            0 <= i < es.len() ==> (#[trigger] es[i]).0@ == fs[i].0@ && jeq(es[i].1, fs[i].1),
    decreases es.len(),
{
    if es.len() > 0 {
        lemma_jeq_entries_index(es.drop_last(), fs.drop_last());
        assert forall|i: int|
            0 <= i < es.len() implies (#[trigger] es[i]).0@ == fs[i].0@ && jeq(
            es[i].1,
            fs[i].1,
        ) by {
            if i < es.len() - 1 {
                assert(es.drop_last()[i] == es[i]);
                assert(fs.drop_last()[i] == fs[i]);
                assert((es.drop_last()[i]).0@ == fs.drop_last()[i].0@ && jeq(
                    es.drop_last()[i].1,
                    fs.drop_last()[i].1,
                ));
            }
        }
    }
}

/// Entry lists with pairwise equal keys select the same minimum.
proof fn lemma_min_key_idx_similar(es: Seq<(String, JsonValue)>, fs: Seq<(String, JsonValue)>)
    requires
        es.len() == fs.len(),
        forall|i: int| 0 <= i < es.len() ==> (#[trigger] es[i]).0@ == fs[i].0@,
    ensures
        min_key_idx(es) == min_key_idx(fs),
    decreases es.len(),
{
    if es.len() > 1 {
        assert forall|i: int|
            0 <= i < es.drop_last().len() implies (#[trigger] es.drop_last()[i]).0@
            == fs.drop_last()[i].0@ by {
            assert(es.drop_last()[i] == es[i]);
            assert(fs.drop_last()[i] == fs[i]);
        }
        lemma_min_key_idx_similar(es.drop_last(), fs.drop_last());
        lemma_min_key_idx(es.drop_last());
    }
}

proof fn lemma_jeq_canon_entries(es: Seq<(String, JsonValue)>, fs: Seq<(String, JsonValue)>)
    requires
        jeq_entries(es, fs),
    ensures
        canon_entries(es) == canon_entries(fs),
    decreases jsize_entries(es, es.len() as int), 2int,
{
    lemma_jeq_entries_index(es, fs);
    if es.len() > 0 {
        lemma_min_key_idx_similar(es, fs);
        lemma_min_key_idx(es);
        let k = min_key_idx(es);
        lemma_jsize_entries_elem(es, es.len() as int, k);
        lemma_jeq_canon(es[k].1, fs[k].1);
        if es.len() > 1 {
            assert forall|i: int|
                0 <= i < es.remove(k).len() implies (#[trigger] es.remove(k)[i]).0@ == fs.remove(
                k,
            )[i].0@ && jeq(es.remove(k)[i].1, fs.remove(k)[i].1) by {
                if i < k {
                    assert(es.remove(k)[i] == es[i]);
                    assert(fs.remove(k)[i] == fs[i]);
                } else {
                    assert(es.remove(k)[i] == es[i + 1]);
                    assert(fs.remove(k)[i] == fs[i + 1]);
                }
            }
            lemma_jeq_entries_from_index(es.remove(k), fs.remove(k));
            lemma_jsize_entries_remove(es, k);
            lemma_jeq_canon_entries(es.remove(k), fs.remove(k));
        }
    }
}

/// Indexwise equality gives entrywise equality.
proof fn lemma_jeq_entries_from_index(es: Seq<(String, JsonValue)>, fs: Seq<(String, JsonValue)>)
    requires
        es.len() == fs.len(),
        forall|i: int|
            0 <= i < es.len() ==> (#[trigger] es[i]).0@ == fs[i].0@ && jeq(es[i].1, fs[i].1),
    ensures
        jeq_entries(es, fs),
    decreases es.len(),
{
    if es.len() > 0 {
        assert forall|i: int|
            0 <= i < es.drop_last().len() implies (#[trigger] es.drop_last()[i]).0@
            == fs.drop_last()[i].0@ && jeq(es.drop_last()[i].1, fs.drop_last()[i].1) by {
            assert(es.drop_last()[i] == es[i]);
            assert(fs.drop_last()[i] == fs[i]);
        }
        lemma_jeq_entries_from_index(es.drop_last(), fs.drop_last());
    }
}


// ---------------------------------------------------------------------
// executable layer
// ---------------------------------------------------------------------
/// UTF-16 order on characters, executable form.
pub fn char_lt16_exec(a: char, b: char) -> (r: bool)
    ensures
        r == char_lt16(a, b),
{
    let au = a as u32;
    let bu = b as u32;
    let af: u32 = if au < 0x10000 {
        au
    } else {
        0xD800 + (au - 0x10000) / 0x400
    };
    let bf: u32 = if bu < 0x10000 {
        bu
    } else {
        0xD800 + (bu - 0x10000) / 0x400
    };
    let a2: i64 = if au < 0x10000 {
        -1
    } else {
        (0xDC00 + (au - 0x10000) % 0x400) as i64
    };
    let b2: i64 = if bu < 0x10000 {
        -1
    } else {
        (0xDC00 + (bu - 0x10000) % 0x400) as i64
    };
    af < bf || (af == bf && a2 < b2)
}

/// Strict key order on string slices, executable form.
pub fn key_lt_exec(a: &str, b: &str) -> (r: bool)
    ensures
        r == key_lt(a@, b@),
{
    let ca = crate::text::chars_of(a);
    let cb = crate::text::chars_of(b);
    let na = ca.len();
    let nb = cb.len();
    let min = if na < nb {
        na
    } else {
        nb
    };
    proof {
        assert(a@.skip(0) =~= a@);
        assert(b@.skip(0) =~= b@);
    }
    let mut i: usize = 0;
    while i < min
        invariant
            na == ca@.len(),
            nb == cb@.len(),
            ca@ == a@,
            cb@ == b@,
            min == if na < nb {
                na
            } else {
                nb
            },
            i <= min,
            key_lt(a@, b@) == key_lt(a@.skip(i as int), b@.skip(i as int)),
        decreases min - i,
    {
        let x = ca[i];
        let y = cb[i];
        if x != y {
            proof {
                assert(a@.skip(i as int)[0] == a@[i as int]);
                assert(b@.skip(i as int)[0] == b@[i as int]);
            }
            return char_lt16_exec(x, y);
        }
        i = i + 1;
        proof {
            assert(a@.skip(i - 1).drop_first() =~= a@.skip(i as int));
            assert(b@.skip(i - 1).drop_first() =~= b@.skip(i as int));
            assert(a@.skip(i - 1)[0] == a@[i - 1]);
            assert(b@.skip(i - 1)[0] == b@[i - 1]);
        }
    }
    proof {
        assert(a@.skip(min as int).len() == na - min);
        assert(b@.skip(min as int).len() == nb - min);
    }
    na < nb
}

/// Non-strict key order on string slices, executable form.
pub fn key_le_exec(a: &str, b: &str) -> (r: bool)
    ensures
        r == key_le(a@, b@),
{
    !key_lt_exec(b, a)
}

/// The position of the smallest key among the entries.
fn min_entry_idx(es: &Vec<(String, JsonValue)>) -> (r: usize)
    requires
        es@.len() >= 1,
    ensures
        r as int == min_key_idx(es@),
        r < es@.len(),
{
    let n = es.len();
    let mut cur: usize = 0;
    let mut i: usize = 1;
    while i < n
        invariant
            n == es@.len(),
            1 <= i <= n,
            cur < i,
            cur as int == min_key_idx(es@.take(i as int)),
        decreases n - i,
    {
        let ghost pre = es@.take(i as int);
        if !key_le_exec(es[cur].0.as_str(), es[i].0.as_str()) {
            cur = i;
        }
        i = i + 1;
        proof {
            let t = es@.take(i as int);
            assert(t.drop_last() =~= pre);
            assert(t.last() == es@[i - 1]);
            assert(forall|k: int| 0 <= k < pre.len() ==> #[trigger] pre[k] == es@[k]);
            assert(t[min_key_idx(pre)] == es@[min_key_idx(pre)]);
        }
    }
    proof {
        assert(es@.take(n as int) =~= es@);
        lemma_min_key_idx(es@);
    }
    cur
}

/// An owned copy, structurally equal to the original.
pub fn duplicate(v: &JsonValue) -> (r: JsonValue)
    ensures
        jeq(r, *v),
    decreases jsize(*v), 2int,
{
    match v {
        JsonValue::Null => JsonValue::Null,
        JsonValue::Bool(b) => JsonValue::Bool(*b),
        JsonValue::Int(i) => JsonValue::Int(*i),
        JsonValue::UInt(u) => JsonValue::UInt(*u),
        JsonValue::Decimal(d) => JsonValue::Decimal(d.clone()),
        JsonValue::Text(s) => JsonValue::Text(s.clone()),
        JsonValue::Array(xs) => {
            let n = xs.len();
            let mut out: Vec<JsonValue> = Vec::new();
            let mut i: usize = 0;
            while i < n
                invariant
                    n == xs@.len(),
                    i <= n,
                    out@.len() == i,
                    jsize(*v) == 1 + jsize_list(xs@, xs@.len() as int),
                    v matches JsonValue::Array(q) && q@ == xs@,
                    forall|k: int| 0 <= k < i ==> jeq(#[trigger] out@[k], xs@[k]),
                decreases n - i,
            {
                proof {
                    lemma_jsize_list_elem(xs@, xs@.len() as int, i as int);
                }
                let d = duplicate(&xs[i]);
                out.push(d);
                i = i + 1;
            }
            proof {
                lemma_jeq_list_from_index(out@, xs@);
            }
            JsonValue::Array(out)
        },
        JsonValue::Object(es) => {
            let n = es.len();
            let mut out: Vec<(String, JsonValue)> = Vec::new();
            let mut i: usize = 0;
            while i < n
                invariant
                    n == es@.len(),
                    i <= n,
                    out@.len() == i,
                    jsize(*v) == 1 + jsize_entries(es@, es@.len() as int),
                    v matches JsonValue::Object(q) && q@ == es@,
                    forall|k: int|
                        0 <= k < i ==> (#[trigger] out@[k]).0@ == es@[k].0@ && jeq(
                            out@[k].1,
                            es@[k].1,
                        ),
                decreases n - i,
            {
                proof {
                    lemma_jsize_entries_elem(es@, es@.len() as int, i as int);
                }
                let d = duplicate(&es[i].1);
                let key = es[i].0.clone();
                out.push((key, d));
                i = i + 1;
            }
            proof {
                lemma_jeq_entries_from_index_pub(out@, es@);
            }
            JsonValue::Object(out)
        },
    }
}

proof fn lemma_jeq_list_from_index(xs: Seq<JsonValue>, ys: Seq<JsonValue>)
    requires
        xs.len() == ys.len(),
        forall|i: int| 0 <= i < xs.len() ==> jeq(#[trigger] xs[i], ys[i]),
    ensures
        jeq_list(xs, ys),
    decreases xs.len(),
{
    if xs.len() > 0 {
        assert forall|i: int|
            0 <= i < xs.drop_last().len() implies jeq(
            #[trigger] xs.drop_last()[i],
            ys.drop_last()[i],
        ) by {
            assert(xs.drop_last()[i] == xs[i]);
            assert(ys.drop_last()[i] == ys[i]);
        }
        lemma_jeq_list_from_index(xs.drop_last(), ys.drop_last());
    }
}

/// Entrywise equality gives indexwise equality, for callers elsewhere.
pub proof fn lemma_jeq_entries_index_pub(es: Seq<(String, JsonValue)>, fs: Seq<(String, JsonValue)>)
    requires
        jeq_entries(es, fs),
    ensures
        es.len() == fs.len(),
        forall|i: int|
            0 <= i < es.len() ==> (#[trigger] es[i]).0@ == fs[i].0@ && jeq(es[i].1, fs[i].1),
{
    lemma_jeq_entries_index(es, fs);
}

proof fn lemma_jeq_entries_from_index_pub(
    es: Seq<(String, JsonValue)>,
    fs: Seq<(String, JsonValue)>,
)
    requires
        es.len() == fs.len(),
        forall|i: int|
            0 <= i < es.len() ==> (#[trigger] es[i]).0@ == fs[i].0@ && jeq(es[i].1, fs[i].1),
    ensures
        jeq_entries(es, fs),
{
    lemma_jeq_entries_from_index(es, fs);
}

/// The decimal digits of an unsigned number.
pub fn render_u64(n: u64) -> (r: String)
    ensures
        r@ == dec_u64(n as nat),
    decreases n,
{
    if n < 10 {
        let mut s = String::new();
        crate::text::push_char(&mut s, HEX_DIGITS[n as usize]);
        proof {
            assert(s@ =~= dec_u64(n as nat));
        }
        s
    } else {
        let mut s = render_u64(n / 10);
        crate::text::push_char(&mut s, HEX_DIGITS[(n % 10) as usize]);
        proof {
            assert(s@ =~= dec_u64((n / 10) as nat) + seq![HEX_DIGITS@[(n % 10) as int]]);
            assert((n as nat) / 10 == (n / 10) as nat);
        }
        s
    }
}

/// The decimal rendering of a signed number.
fn render_i64(i: i64) -> (r: String)
    ensures
        r@ == dec_i64(i as int),
{
    if i < 0 {
        let m: u64 = ((-(i as i128)) as u64);
        let mut s = String::new();
        crate::text::push_char(&mut s, '-');
        let digits = render_u64(m);
        s.append(digits.as_str());
        proof {
            assert(s@ =~= seq!['-'] + dec_u64(m as nat));
        }
        s
    } else {
        render_u64(i as u64)
    }
}

/// The canonical, minimally escaped form of a JSON string.
pub fn render_json_string(s: &str) -> (r: String)
    ensures
        r@ == canon_string(s@),
{
    let cs = crate::text::chars_of(s);
    let n = cs.len();
    let mut out = String::new();
    crate::text::push_char(&mut out, '"');
    let mut i: usize = 0;
    while i < n
        invariant
            n == cs@.len(),
            cs@ == s@,
            i <= n,
            out@ == seq!['"'] + esc_str(s@.take(i as int)),
        decreases n - i,
    {
        let c = cs[i];
        let ghost pre = s@.take(i as int);
        if c == '"' {
            crate::text::push_char(&mut out, '\\');
            crate::text::push_char(&mut out, '"');
        } else if c == '\\' {
            crate::text::push_char(&mut out, '\\');
            crate::text::push_char(&mut out, '\\');
        } else if c == '\u{8}' {
            crate::text::push_char(&mut out, '\\');
            crate::text::push_char(&mut out, 'b');
        } else if c == '\u{c}' {
            crate::text::push_char(&mut out, '\\');
            crate::text::push_char(&mut out, 'f');
        } else if c == '\n' {
            crate::text::push_char(&mut out, '\\');
            crate::text::push_char(&mut out, 'n');
        } else if c == '\r' {
            crate::text::push_char(&mut out, '\\');
            crate::text::push_char(&mut out, 'r');
        } else if c == '\t' {
            crate::text::push_char(&mut out, '\\');
            crate::text::push_char(&mut out, 't');
        } else if (c as u32) < 0x20 {
            let u = c as u32;
            crate::text::push_char(&mut out, '\\');
            crate::text::push_char(&mut out, 'u');
            crate::text::push_char(&mut out, '0');
            crate::text::push_char(&mut out, '0');
            crate::text::push_char(&mut out, HEX_DIGITS[(u / 16) as usize]);
            crate::text::push_char(&mut out, HEX_DIGITS[(u % 16) as usize]);
        } else {
            crate::text::push_char(&mut out, c);
        }
        i = i + 1;
        proof {
            assert(s@.take(i as int).drop_last() =~= pre);
            assert(s@.take(i as int).last() == s@[i - 1]);
            assert(out@ =~= seq!['"'] + (esc_str(pre) + esc_char(s@[i - 1])));
        }
    }
    crate::text::push_char(&mut out, '"');
    proof {
        assert(s@.take(n as int) =~= s@);
        assert(out@ =~= canon_string(s@));
    }
    out
}

/// The canonical rendering of a JSON value, as a string.
pub fn canonicalize(v: &JsonValue) -> (r: String)
    ensures
        r@ == canon(*v),
    decreases jsize(*v), 3int,
{
    match v {
        JsonValue::Null => {
            let s = String::from_str("null");
            proof {
                reveal_strlit("null");
                assert(s@ =~= canon(*v));
            }
            s
        },
        JsonValue::Bool(b) => {
            if *b {
                let s = String::from_str("true");
                proof {
                    reveal_strlit("true");
                    assert(s@ =~= canon(*v));
                }
                s
            } else {
                let s = String::from_str("false");
                proof {
                    reveal_strlit("false");
                    assert(s@ =~= canon(*v));
                }
                s
            }
        },
        JsonValue::Int(i) => render_i64(*i),
        JsonValue::UInt(u) => render_u64(*u),
        JsonValue::Decimal(d) => d.clone(),
        JsonValue::Text(s) => render_json_string(s.as_str()),
        JsonValue::Array(xs) => {
            let n = xs.len();
            let mut out = String::new();
            crate::text::push_char(&mut out, '[');
            let mut i: usize = 0;
            while i < n
                invariant
                    n == xs@.len(),
                    i <= n,
                    v matches JsonValue::Array(q) && q@ == xs@,
                    jsize(*v) == 1 + jsize_list(xs@, xs@.len() as int),
                    out@ == seq!['['] + canon_list(xs@, i as int),
                decreases n - i,
            {
                let ghost before = out@;
                if i > 0 {
                    crate::text::push_char(&mut out, ',');
                }
                proof {
                    lemma_jsize_list_elem(xs@, xs@.len() as int, i as int);
                }
                let piece = canonicalize(&xs[i]);
                out.append(piece.as_str());
                i = i + 1;
                proof {
                    if i == 1 {
                        assert(out@ =~= seq!['['] + canon_list(xs@, 1));
                    } else {
                        assert(out@ =~= seq!['['] + (canon_list(xs@, i - 1) + seq![',']
                            + canon(xs@[i - 1])));
                    }
                }
            }
            crate::text::push_char(&mut out, ']');
            proof {
                assert(out@ =~= canon(*v));
            }
            out
        },
        JsonValue::Object(es) => {
            let mut rem = clone_entries(es);
            proof {
                lemma_jeq_entries_from_index(rem@, es@);
                lemma_jeq_canon_entries_pub(rem@, es@);
                lemma_jsize_entries_same(rem@, es@);
            }
            let mut out = String::new();
            crate::text::push_char(&mut out, '{');
            while rem.len() > 0
                invariant
                    v matches JsonValue::Object(q) && q@ == es@,
                    jsize(*v) == 1 + jsize_entries(es@, es@.len() as int),
                    jsize_entries(rem@, rem@.len() as int) <= jsize_entries(
                        es@,
                        es@.len() as int,
                    ),
                    out@ + canon_entries(rem@) == seq!['{'] + canon_entries(es@),
                decreases rem@.len(),
            {
                let ghost rem0 = rem@;
                let k = min_entry_idx(&rem);
                proof {
                    lemma_min_key_idx(rem0);
                    lemma_jsize_entries_elem(rem0, rem0.len() as int, k as int);
                }
                let keystr = render_json_string(rem[k].0.as_str());
                out.append(keystr.as_str());
                crate::text::push_char(&mut out, ':');
                let piece = canonicalize(&rem[k].1);
                out.append(piece.as_str());
                if rem.len() > 1 {
                    crate::text::push_char(&mut out, ',');
                }
                rem.remove(k);
                proof {
                    lemma_jsize_entries_remove(rem0, k as int);
                    if rem0.len() == 1 {
                        assert(rem@ =~= Seq::<(String, JsonValue)>::empty());
                        assert(canon_entries(rem@) =~= Seq::<char>::empty());
                        assert(out@ + canon_entries(rem@) =~= seq!['{'] + canon_entries(es@));
                    } else {
                        assert(out@ + canon_entries(rem@) =~= seq!['{'] + canon_entries(es@));
                    }
                }
            }
            crate::text::push_char(&mut out, '}');
            proof {
                assert(canon_entries(rem@) =~= Seq::<char>::empty());
                assert(out@ =~= canon(*v));
            }
            out
        },
    }
}

proof fn lemma_jeq_canon_entries_pub(es: Seq<(String, JsonValue)>, fs: Seq<(String, JsonValue)>)
    requires
        jeq_entries(es, fs),
    ensures
        canon_entries(es) == canon_entries(fs),
{
    lemma_jeq_canon_entries(es, fs);
}

/// Structurally equal entry lists have the same size.
proof fn lemma_jsize_entries_same(es: Seq<(String, JsonValue)>, fs: Seq<(String, JsonValue)>)
    requires
        jeq_entries(es, fs),
    ensures
        jsize_entries(es, es.len() as int) == jsize_entries(fs, fs.len() as int),
    decreases es.len(),
{
    if es.len() > 0 {
        lemma_jsize_same(es.last().1, fs.last().1);
        lemma_jsize_entries_same(es.drop_last(), fs.drop_last());
        lemma_jsize_entries_prefix(es, es.drop_last(), es.len() - 1);
        lemma_jsize_entries_prefix(fs, fs.drop_last(), fs.len() - 1);
    }
}

/// Structurally equal values have the same size.
proof fn lemma_jsize_same(a: JsonValue, b: JsonValue)
    requires
        jeq(a, b),
    ensures
        jsize(a) == jsize(b),
    decreases jsize(a), 0int,
{
    match (a, b) {
        (JsonValue::Array(xs), JsonValue::Array(ys)) => {
            lemma_jsize_list_same(xs@, ys@, xs@.len() as int);
        },
        (JsonValue::Object(es), JsonValue::Object(fs)) => {
            lemma_jeq_entries_index(es@, fs@);
            lemma_jsize_entries_same_idx(es@, fs@, es@.len() as int);
        },
        _ => {},
    }
}

proof fn lemma_jsize_list_same(xs: Seq<JsonValue>, ys: Seq<JsonValue>, n: int)
    requires
        jeq_list(xs, ys),
        0 <= n <= xs.len(),
    ensures
        jsize_list(xs, n) == jsize_list(ys, n),
    decreases jsize_list(xs, xs.len() as int), 1int, n,
{
    lemma_jeq_list_index(xs, ys);
    if n > 0 {
        lemma_jsize_list_elem(xs, xs.len() as int, n - 1);
        lemma_jsize_same(xs[n - 1], ys[n - 1]);
        if n > 1 {
            lemma_jsize_list_same(xs, ys, n - 1);
        } else {
            assert(jsize_list(xs, 0) == 0);
            assert(jsize_list(ys, 0) == 0);
        }
        assert(jsize_list(xs, n) == jsize(xs[n - 1]) + jsize_list(xs, n - 1));
        assert(jsize_list(ys, n) == jsize(ys[n - 1]) + jsize_list(ys, n - 1));
    }
}

proof fn lemma_jsize_entries_same_idx(
    es: Seq<(String, JsonValue)>,
    fs: Seq<(String, JsonValue)>,
    n: int,
)
    requires
        es.len() == fs.len(),
        0 <= n <= es.len(),
        forall|i: int|
            0 <= i < es.len() ==> (#[trigger] es[i]).0@ == fs[i].0@ && jeq(es[i].1, fs[i].1),
    ensures
        jsize_entries(es, n) == jsize_entries(fs, n),
    decreases jsize_entries(es, es.len() as int), 1int, n,
{
    if n > 0 {
        lemma_jsize_entries_elem(es, es.len() as int, n - 1);
        lemma_jsize_same(es[n - 1].1, fs[n - 1].1);
        if n > 1 {
            lemma_jsize_entries_same_idx(es, fs, n - 1);
        } else {
            assert(jsize_entries(es, 0) == 0);
            assert(jsize_entries(fs, 0) == 0);
        }
        assert(jsize_entries(es, n) == 1 + jsize(es[n - 1].1) + jsize_entries(es, n - 1));
        assert(jsize_entries(fs, n) == 1 + jsize(fs[n - 1].1) + jsize_entries(fs, n - 1));
    }
}

/// Owned copies of the entries, key views and values preserved.
fn clone_entries(es: &Vec<(String, JsonValue)>) -> (r: Vec<(String, JsonValue)>)
    ensures
        r@.len() == es@.len(),
        forall|i: int|
            0 <= i < es@.len() ==> (#[trigger] r@[i]).0@ == es@[i].0@ && jeq(r@[i].1, es@[i].1),
    decreases jsize_entries(es@, es@.len() as int) + 1,
{
    let n = es.len();
    let mut out: Vec<(String, JsonValue)> = Vec::new();
    let mut i: usize = 0;
    while i < n
        invariant
            n == es@.len(),
            i <= n,
            out@.len() == i,
            forall|k: int|
                0 <= k < i ==> (#[trigger] out@[k]).0@ == es@[k].0@ && jeq(out@[k].1, es@[k].1),
        decreases n - i,
    {
        proof {
            lemma_jsize_entries_elem(es@, es@.len() as int, i as int);
        }
        let d = duplicate(&es[i].1);
        let key = es[i].0.clone();
        out.push((key, d));
        i = i + 1;
    }
    out
}

/// Structural equality of two values, executable form.
pub fn json_eq(a: &JsonValue, b: &JsonValue) -> (r: bool)
    ensures
        r == jeq(*a, *b),
    decreases jsize(*a), 3int,
{
    match (a, b) {
        (JsonValue::Null, JsonValue::Null) => true,
        (JsonValue::Bool(x), JsonValue::Bool(y)) => x == y,
        (JsonValue::Int(x), JsonValue::Int(y)) => x == y,
        (JsonValue::UInt(x), JsonValue::UInt(y)) => x == y,
        (JsonValue::Decimal(x), JsonValue::Decimal(y)) => crate::text::str_eq(
            x.as_str(),
            y.as_str(),
        ),
        (JsonValue::Text(x), JsonValue::Text(y)) => crate::text::str_eq(x.as_str(), y.as_str()),
        (JsonValue::Array(xs), JsonValue::Array(ys)) => {
            if xs.len() != ys.len() {
                proof {
                    lemma_jeq_list_len(xs@, ys@);
                }
                return false;
            }
            let n = xs.len();
            let mut i: usize = 0;
            while i < n
                invariant
                    n == xs@.len(),
                    n == ys@.len(),
                    i <= n,
                    a matches JsonValue::Array(q) && q@ == xs@,
                    b matches JsonValue::Array(q2) && q2@ == ys@,
                    jsize(*a) == 1 + jsize_list(xs@, xs@.len() as int),
                    forall|k: int| 0 <= k < i ==> jeq(#[trigger] xs@[k], ys@[k]),
                decreases n - i,
            {
                proof {
                    lemma_jsize_list_elem(xs@, xs@.len() as int, i as int);
                }
                if !json_eq(&xs[i], &ys[i]) {
                    proof {
                        lemma_jeq_list_index_or_not(xs@, ys@, i as int);
                    }
                    return false;
                }
                i = i + 1;
            }
            proof {
                lemma_jeq_list_from_index(xs@, ys@);
            }
            true
        },
        (JsonValue::Object(es), JsonValue::Object(fs)) => {
            if es.len() != fs.len() {
                proof {
                    lemma_jeq_entries_len(es@, fs@);
                }
                return false;
            }
            let n = es.len();
            let mut i: usize = 0;
            while i < n
                invariant
                    n == es@.len(),
                    n == fs@.len(),
                    i <= n,
                    a matches JsonValue::Object(q) && q@ == es@,
                    b matches JsonValue::Object(q2) && q2@ == fs@,
                    jsize(*a) == 1 + jsize_entries(es@, es@.len() as int),
                    forall|k: int|
                        0 <= k < i ==> (#[trigger] es@[k]).0@ == fs@[k].0@ && jeq(
                            es@[k].1,
                            fs@[k].1,
                        ),
                decreases n - i,
            {
                proof {
                    lemma_jsize_entries_elem(es@, es@.len() as int, i as int);
                }
                if !crate::text::str_eq(es[i].0.as_str(), fs[i].0.as_str()) {
                    proof {
                        lemma_jeq_entries_index_or_not(es@, fs@, i as int);
                    }
                    return false;
                }
                if !json_eq(&es[i].1, &fs[i].1) {
                    proof {
                        lemma_jeq_entries_index_or_not(es@, fs@, i as int);
                    }
                    return false;
                }
                i = i + 1;
            }
            proof {
                lemma_jeq_entries_from_index_pub(es@, fs@);
            }
            true
        },
        _ => false,
    }
}

proof fn lemma_jeq_list_len(xs: Seq<JsonValue>, ys: Seq<JsonValue>)
    requires
        xs.len() != ys.len(),
    ensures
        !jeq_list(xs, ys),
{
}

proof fn lemma_jeq_entries_len(es: Seq<(String, JsonValue)>, fs: Seq<(String, JsonValue)>)
    requires
        es.len() != fs.len(),
    ensures
        !jeq_entries(es, fs),
{
}

proof fn lemma_jeq_list_index_or_not(xs: Seq<JsonValue>, ys: Seq<JsonValue>, i: int)
    requires
        0 <= i < xs.len(),
        xs.len() == ys.len(),
        !jeq(xs[i], ys[i]),
    ensures
        !jeq_list(xs, ys),
{
    if jeq_list(xs, ys) {
        lemma_jeq_list_index(xs, ys);
    }
}

proof fn lemma_jeq_entries_index_or_not(
    es: Seq<(String, JsonValue)>,
    fs: Seq<(String, JsonValue)>,
    i: int,
)
    requires
        0 <= i < es.len(),
        es.len() == fs.len(),
        !(es[i].0@ == fs[i].0@ && jeq(es[i].1, fs[i].1)),
    ensures
        !jeq_entries(es, fs),
{
    if jeq_entries(es, fs) {
        lemma_jeq_entries_index(es, fs);
    }
}


// ---------------------------------------------------------------------
// key-order equivalence
// ---------------------------------------------------------------------
/// Key-order equivalence: the same scalars and strings, arrays element
/// by element, and objects carrying the same distinct keys mapped — in
/// whatever order — to equivalent values.
pub open spec fn json_equiv(a: JsonValue, b: JsonValue) -> bool
    decreases jsize(a), 0int,
{
    match (a, b) {
        (JsonValue::Null, JsonValue::Null) => true,
        (JsonValue::Bool(x), JsonValue::Bool(y)) => x == y,
        (JsonValue::Int(x), JsonValue::Int(y)) => x == y,
        (JsonValue::UInt(x), JsonValue::UInt(y)) => x == y,
        (JsonValue::Decimal(x), JsonValue::Decimal(y)) => x@ == y@,
        (JsonValue::Text(x), JsonValue::Text(y)) => x@ == y@,
        (JsonValue::Array(xs), JsonValue::Array(ys)) => equiv_list(xs@, ys@),
        (JsonValue::Object(es), JsonValue::Object(fs)) => equiv_entries(es@, fs@),
        _ => false,
    }
}

/// Elementwise equivalence of array elements.
pub open spec fn equiv_list(xs: Seq<JsonValue>, ys: Seq<JsonValue>) -> bool
    decreases jsize_list(xs, xs.len() as int), 1int,
    via equiv_list_dec
{
    xs.len() == ys.len() && (xs.len() == 0 || (json_equiv(xs.last(), ys.last()) && equiv_list(
        xs.drop_last(),
        ys.drop_last(),
    )))
}

/// Distinct keys among the entries.
pub open spec fn distinct_keys(es: Seq<(String, JsonValue)>) -> bool {
    forall|i: int, j: int|
        0 <= i < j < es.len() ==> (#[trigger] es[i]).0@ != (#[trigger] es[j]).0@
}

/// The key at `i` of `es` occurs among the keys of `fs`.
pub open spec fn key_present(
    es: Seq<(String, JsonValue)>,
    fs: Seq<(String, JsonValue)>,
    i: int,
) -> bool {
    exists|j: int| 0 <= j < fs.len() && (#[trigger] fs[j]).0@ == es[i].0@
}

/// The entry lists carry the same distinct keys — in whatever order —
/// and wherever keys agree, the values are equivalent.
pub open spec fn equiv_entries(es: Seq<(String, JsonValue)>, fs: Seq<(String, JsonValue)>) -> bool
    decreases jsize_entries(es, es.len() as int), 1int,
    via equiv_entries_dec
{
    &&& es.len() == fs.len()
    &&& distinct_keys(es)
    &&& distinct_keys(fs)
    &&& (forall|i: int| 0 <= i < es.len() ==> #[trigger] key_present(es, fs, i))
    &&& (forall|j: int| 0 <= j < fs.len() ==> #[trigger] key_present(fs, es, j))
    &&& (forall|i: int, j: int|
        0 <= i < es.len() && 0 <= j < fs.len() && (#[trigger] es[i]).0@ == (#[trigger] fs[j]).0@
            ==> json_equiv(es[i].1, fs[j].1))
}

#[via_fn]
proof fn equiv_list_dec(xs: Seq<JsonValue>, ys: Seq<JsonValue>) {
    if xs.len() > 0 {
        let n = xs.len() as int;
        lemma_jsize_list_elem(xs, n, n - 1);
        lemma_jsize_pos(xs.last());
        lemma_jsize_list_prefix(xs, xs.drop_last(), n - 1);
    }
}

#[via_fn]
proof fn equiv_entries_dec(es: Seq<(String, JsonValue)>, fs: Seq<(String, JsonValue)>) {
    assert forall|i: int| 0 <= i < es.len() implies jsize((#[trigger] es[i]).1) < jsize_entries(
        es,
        es.len() as int,
    ) by {
        lemma_jsize_entries_elem(es, es.len() as int, i);
    }
}

/// Hash determinism: key-order equivalent values render — and therefore
/// hash — identically.
pub proof fn lemma_json_equiv_canon(a: JsonValue, b: JsonValue)
    requires
        json_equiv(a, b),
    ensures
        canon(a) == canon(b),
    decreases jsize(a), 0int,
{
    match (a, b) {
        (JsonValue::Array(xs), JsonValue::Array(ys)) => {
            lemma_equiv_canon_list(xs@, ys@, xs@.len() as int);
        },
        (JsonValue::Object(es), JsonValue::Object(fs)) => {
            lemma_equiv_canon_entries(es@, fs@);
        },
        _ => {},
    }
}

proof fn lemma_equiv_canon_list(xs: Seq<JsonValue>, ys: Seq<JsonValue>, n: int)
    requires
        equiv_list(xs, ys),
        0 <= n <= xs.len(),
    ensures
        canon_list(xs, n) == canon_list(ys, n),
    decreases jsize_list(xs, xs.len() as int), 1int, n,
{
    lemma_equiv_list_index(xs, ys);
    if n > 0 {
        lemma_jsize_list_elem(xs, xs.len() as int, n - 1);
        lemma_json_equiv_canon(xs[n - 1], ys[n - 1]);
        if n > 1 {
            lemma_equiv_canon_list(xs, ys, n - 1);
        }
    }
}

proof fn lemma_equiv_list_index(xs: Seq<JsonValue>, ys: Seq<JsonValue>)
    requires
        equiv_list(xs, ys),
    ensures
        xs.len() == ys.len(),
        forall|i: int| 0 <= i < xs.len() ==> json_equiv(#[trigger] xs[i], ys[i]),
    decreases xs.len(),
{
    if xs.len() > 0 {
        lemma_equiv_list_index(xs.drop_last(), ys.drop_last());
        assert forall|i: int| 0 <= i < xs.len() implies json_equiv(#[trigger] xs[i], ys[i]) by {
            if i < xs.len() - 1 {
                assert(xs.drop_last()[i] == xs[i]);
                assert(ys.drop_last()[i] == ys[i]);
                assert(json_equiv(xs.drop_last()[i], ys.drop_last()[i]));
            }
        }
    }
}

/// The minimum keys of equivalent entry lists coincide, and their
/// values are equivalent.
proof fn lemma_equiv_min_entries(es: Seq<(String, JsonValue)>, fs: Seq<(String, JsonValue)>)
    requires
        equiv_entries(es, fs),
        es.len() >= 1,
    ensures
        es[min_key_idx(es)].0@ == fs[min_key_idx(fs)].0@,
        json_equiv(es[min_key_idx(es)].1, fs[min_key_idx(fs)].1),
{
    lemma_min_key_idx(es);
    lemma_min_key_idx(fs);
    let ka = min_key_idx(es);
    let kb = min_key_idx(fs);
    assert(key_present(es, fs, ka));
    let j1 = choose|j: int| 0 <= j < fs.len() && (#[trigger] fs[j]).0@ == es[ka].0@;
    assert(key_present(fs, es, kb));
    let i1 = choose|i: int| 0 <= i < es.len() && (#[trigger] es[i]).0@ == fs[kb].0@;
    assert(key_le(fs[kb].0@, fs[j1].0@));
    assert(key_le(es[ka].0@, es[i1].0@));
    assert(es[ka].0@ == fs[kb].0@) by {
        if key_lt(es[ka].0@, fs[kb].0@) {
            assert(!key_lt(fs[j1].0@, fs[kb].0@));
            assert(fs[j1].0@ == es[ka].0@);
            assert(false);
        }
        if key_lt(fs[kb].0@, es[ka].0@) {
            assert(!key_lt(es[i1].0@, es[ka].0@));
            assert(es[i1].0@ == fs[kb].0@);
            assert(false);
        }
        lemma_key_lt_total(es[ka].0@, fs[kb].0@);
    }
    assert(json_equiv(es[ka].1, fs[kb].1));
}

/// Removing the matched minimal entries keeps the lists equivalent.
proof fn lemma_equiv_entries_remove(
    es: Seq<(String, JsonValue)>,
    fs: Seq<(String, JsonValue)>,
    ka: int,
    kb: int,
)
    requires
        equiv_entries(es, fs),
        0 <= ka < es.len(),
        0 <= kb < fs.len(),
        es[ka].0@ == fs[kb].0@,
    ensures
        equiv_entries(es.remove(ka), fs.remove(kb)),
{
    let es2 = es.remove(ka);
    let fs2 = fs.remove(kb);
    assert forall|i: int, j: int|
        0 <= i < j < es2.len() implies (#[trigger] es2[i]).0@ != (#[trigger] es2[j]).0@ by {
        let i0 = if i < ka { i } else { i + 1 };
        let j0 = if j < ka { j } else { j + 1 };
        assert(es2[i] == es[i0] && es2[j] == es[j0]);
    }
    assert forall|i: int, j: int|
        0 <= i < j < fs2.len() implies (#[trigger] fs2[i]).0@ != (#[trigger] fs2[j]).0@ by {
        let i0 = if i < kb { i } else { i + 1 };
        let j0 = if j < kb { j } else { j + 1 };
        assert(fs2[i] == fs[i0] && fs2[j] == fs[j0]);
    }
    assert forall|i: int| 0 <= i < es2.len() implies #[trigger] key_present(es2, fs2, i) by {
        let i0 = if i < ka { i } else { i + 1 };
        assert(es2[i] == es[i0]);
        assert(es[i0].0@ != es[ka].0@);
        assert(key_present(es, fs, i0));
        let j0 = choose|j: int| 0 <= j < fs.len() && (#[trigger] fs[j]).0@ == es[i0].0@;
        assert(j0 != kb);
        let j2 = if j0 < kb { j0 } else { j0 - 1 };
        assert(fs2[j2] == fs[j0]);
        assert(0 <= j2 < fs2.len() && fs2[j2].0@ == es2[i].0@);
    }
    assert forall|j: int| 0 <= j < fs2.len() implies #[trigger] key_present(fs2, es2, j) by {
        let j0 = if j < kb { j } else { j + 1 };
        assert(fs2[j] == fs[j0]);
        assert(fs[j0].0@ != fs[kb].0@);
        assert(key_present(fs, es, j0));
        let i0 = choose|i: int| 0 <= i < es.len() && (#[trigger] es[i]).0@ == fs[j0].0@;
        assert(i0 != ka);
        let i2 = if i0 < ka { i0 } else { i0 - 1 };
        assert(es2[i2] == es[i0]);
        assert(0 <= i2 < es2.len() && es2[i2].0@ == fs2[j].0@);
    }
    assert forall|i: int, j: int|
        0 <= i < es2.len() && 0 <= j < fs2.len() && (#[trigger] es2[i]).0@ == (
    #[trigger] fs2[j]).0@ implies json_equiv(es2[i].1, fs2[j].1) by {
        let i0 = if i < ka { i } else { i + 1 };
        let j0 = if j < kb { j } else { j + 1 };
        assert(es2[i] == es[i0] && fs2[j] == fs[j0]);
        assert(es[i0].0@ == fs[j0].0@);
        assert(json_equiv(es[i0].1, fs[j0].1));
    }
}

proof fn lemma_equiv_canon_entries(es: Seq<(String, JsonValue)>, fs: Seq<(String, JsonValue)>)
    requires
        equiv_entries(es, fs),
    ensures
        canon_entries(es) == canon_entries(fs),
    decreases jsize_entries(es, es.len() as int), 2int,
{
    if es.len() > 0 {
        lemma_min_key_idx(es);
        lemma_min_key_idx(fs);
        let ka = min_key_idx(es);
        let kb = min_key_idx(fs);
        lemma_equiv_min_entries(es, fs);
        lemma_jsize_entries_elem(es, es.len() as int, ka);
        lemma_json_equiv_canon(es[ka].1, fs[kb].1);
        if es.len() > 1 {
            lemma_equiv_entries_remove(es, fs, ka, kb);
            lemma_jsize_entries_remove(es, ka);
            lemma_equiv_canon_entries(es.remove(ka), fs.remove(kb));
        }
    }
}

// ---------------------------------------------------------------------
// what the reader accepts: a reading relation on the text
// ---------------------------------------------------------------------
/// JSON whitespace.
pub open spec fn spec_json_ws(c: char) -> bool {
    let u = c as u32;
    u == 0x20 || u == 0x9 || u == 0xA || u == 0xD
}

/// The first position at or after `i` holding no JSON whitespace.
pub open spec fn spec_ws_run(s: Seq<char>, i: int) -> int
    decreases s.len() - i,
{
    if 0 <= i && i < s.len() && spec_json_ws(s[i]) {
        spec_ws_run(s, i + 1)
    } else {
        i
    }
}

/// The run's end never lies before its start, nor past the text's end.
pub proof fn lemma_ws_run_bounds(s: Seq<char>, i: int)
    requires
        0 <= i <= s.len(),
    ensures
        i <= spec_ws_run(s, i) <= s.len(),
    decreases s.len() - i,
{
    if i < s.len() && spec_json_ws(s[i]) {
        lemma_ws_run_bounds(s, i + 1);
    }
}

/// A decimal digit.
pub open spec fn spec_dec_digit(c: char) -> bool {
    0x30 <= c as u32 && c as u32 <= 0x39
}

/// The first position at or after `k` holding no decimal digit.
pub open spec fn spec_digit_run(s: Seq<char>, k: int) -> int
    decreases s.len() - k,
{
    if 0 <= k && k < s.len() && spec_dec_digit(s[k]) {
        spec_digit_run(s, k + 1)
    } else {
        k
    }
}

/// The value of the digits from `a` to `b`.
pub open spec fn spec_digits_val(s: Seq<char>, a: int, b: int) -> nat
    decreases b - a,
{
    if b <= a {
        0
    } else {
        spec_digits_val(s, a, b - 1) * 10 + (if s[b - 1] as u32 >= 0x30 {
            (s[b - 1] as u32 - 0x30) as nat
        } else {
            0
        })
    }
}

/// The value of a hexadecimal digit.
pub open spec fn spec_hex_val(c: char) -> Option<u32> {
    let u = c as u32;
    if 0x30 <= u && u <= 0x39 {
        Some(((u - 0x30) as u32))
    } else if 0x41 <= u && u <= 0x46 {
        Some(((u - 0x41 + 10) as u32))
    } else if 0x61 <= u && u <= 0x66 {
        Some(((u - 0x61 + 10) as u32))
    } else {
        None
    }
}

/// The value of four hexadecimal digits starting at `k`.
pub open spec fn spec_hex4(s: Seq<char>, k: int) -> Option<u32> {
    if 0 <= k && k + 3 < s.len() {
        match (spec_hex_val(s[k]), spec_hex_val(s[k + 1]), spec_hex_val(s[k + 2]), spec_hex_val(
            s[k + 3],
        )) {
            (Some(h0), Some(h1), Some(h2), Some(h3)) => Some(
                ((h0 * 4096 + h1 * 256 + h2 * 16 + h3) as u32),
            ),
            _ => None,
        }
    } else {
        None
    }
}

/// The character a single-letter escape denotes.
pub open spec fn spec_escape_char(e: char) -> Option<char> {
    if e == '"' {
        Some('"')
    } else if e == '\\' {
        Some('\\')
    } else if e == '/' {
        Some('/')
    } else if e == 'b' {
        Some(8u8 as char)
    } else if e == 'f' {
        Some(12u8 as char)
    } else if e == 'n' {
        Some('\n')
    } else if e == 'r' {
        Some('\r')
    } else if e == 't' {
        Some('\t')
    } else {
        None
    }
}

/// Where the body of a quoted string with the given content ends: the
/// position after the closing quote, when the text from `k` on spells
/// that content, letter by letter or through an escape.
pub open spec fn spec_str_body_end(s: Seq<char>, k: int, content: Seq<char>) -> Option<int>
    decreases content.len(),
{
    if k < 0 || k >= s.len() {
        None
    } else if content.len() == 0 {
        if s[k] == '"' {
            Some(k + 1)
        } else {
            None
        }
    } else if s[k] == '"' {
        None
    } else if s[k] == '\\' {
        if k + 1 < s.len() && s[k + 1] == 'u' {
            if k + 5 < s.len() && (spec_hex4(s, k + 2) matches Some(val) && val < 0x100
                && content[0] == val as u8 as char) {
                spec_str_body_end(s, k + 6, content.drop_first())
            } else {
                None
            }
        } else if k + 1 < s.len() && (spec_escape_char(s[k + 1]) matches Some(e) && e
            == content[0]) {
            spec_str_body_end(s, k + 2, content.drop_first())
        } else {
            None
        }
    } else if s[k] == content[0] {
        spec_str_body_end(s, k + 1, content.drop_first())
    } else {
        None
    }
}

/// Where the number token starting at `t` ends, when the reader maps it
/// to `v`: an optional sign, digits, and an optional fraction and
/// exponent; a fraction, an exponent or a magnitude beyond the unsigned
/// range keeps its literal digits, and the rest land in the integer
/// variants.
pub open spec fn spec_number_end(s: Seq<char>, t: int, v: JsonValue) -> Option<int> {
    let neg = 0 <= t < s.len() && s[t] == '-';
    let ds = if neg {
        t + 1
    } else {
        t
    };
    let de = spec_digit_run(s, ds);
    let has_frac = de < s.len() && s[de] == '.';
    let fe = spec_digit_run(s, de + 1);
    let after_frac = if has_frac {
        fe
    } else {
        de
    };
    let has_exp = after_frac < s.len() && (s[after_frac] == 'e' || s[after_frac] == 'E');
    let es0 = after_frac + 1;
    let es = if es0 < s.len() && (s[es0] == '+' || s[es0] == '-') {
        es0 + 1
    } else {
        es0
    };
    let ee = spec_digit_run(s, es);
    let endpos = if has_exp {
        ee
    } else {
        after_frac
    };
    let mag = spec_digits_val(s, ds, de);
    let literal = has_frac || has_exp || mag > 0xFFFF_FFFF_FFFF_FFFF;
    let shape_ok = 0 <= t < s.len() && ds < de && (has_frac ==> de + 1 < fe) && (has_exp ==> es
        < ee);
    let value_ok = if literal {
        v matches JsonValue::Decimal(d) && d@ == s.subrange(t, endpos)
    } else if neg {
        if mag <= 0x8000_0000_0000_0000 {
            v matches JsonValue::Int(x) && x as int == -(mag as int)
        } else {
            v matches JsonValue::Decimal(d) && d@ == s.subrange(t, endpos)
        }
    } else {
        if mag <= 0x7FFF_FFFF_FFFF_FFFF {
            v matches JsonValue::Int(x) && x as int == mag
        } else {
            v matches JsonValue::UInt(u) && u as nat == mag
        }
    };
    if shape_ok && value_ok {
        Some(endpos)
    } else {
        None
    }
}

/// Where the text starting at `i` — whitespace first — ends after
/// reading as the value `v`; nothing when it does not read as `v`.
pub open spec fn spec_read_end(s: Seq<char>, i: int, v: JsonValue) -> Option<int>
    decreases jsize(v), 0int,
    via spec_read_end_dec
{
    let t = spec_ws_run(s, i);
    match v {
        JsonValue::Null => if t + 4 <= s.len() && s[t] == 'n' && s[t + 1] == 'u' && s[t + 2]
            == 'l' && s[t + 3] == 'l' {
            Some(t + 4)
        } else {
            None
        },
        JsonValue::Bool(b) => if b {
            if t + 4 <= s.len() && s[t] == 't' && s[t + 1] == 'r' && s[t + 2] == 'u' && s[t + 3]
                == 'e' {
                Some(t + 4)
            } else {
                None
            }
        } else {
            if t + 5 <= s.len() && s[t] == 'f' && s[t + 1] == 'a' && s[t + 2] == 'l' && s[t + 3]
                == 's' && s[t + 4] == 'e' {
                Some(t + 5)
            } else {
                None
            }
        },
        JsonValue::Int(_) => spec_number_end(s, t, v),
        JsonValue::UInt(_) => spec_number_end(s, t, v),
        JsonValue::Decimal(_) => spec_number_end(s, t, v),
        JsonValue::Text(st) => if 0 <= t < s.len() && s[t] == '"' {
            spec_str_body_end(s, t + 1, st@)
        } else {
            None
        },
        JsonValue::Array(xs) => if 0 <= t < s.len() && s[t] == '[' {
            if xs@.len() == 0 {
                let u = spec_ws_run(s, t + 1);
                if u < s.len() && s[u] == ']' {
                    Some(u + 1)
                } else {
                    None
                }
            } else {
                match spec_read_end(s, t + 1, xs@[0]) {
                    Some(m) => spec_elems_end(s, m, xs@, 1),
                    None => None,
                }
            }
        } else {
            None
        },
        JsonValue::Object(es) => if 0 <= t < s.len() && s[t] == '{' {
            if es@.len() == 0 {
                let u = spec_ws_run(s, t + 1);
                if u < s.len() && s[u] == '}' {
                    Some(u + 1)
                } else {
                    None
                }
            } else {
                match spec_entry_end(s, t + 1, es@[0]) {
                    Some(m) => spec_entries_end(s, m, es@, 1),
                    None => None,
                }
            }
        } else {
            None
        },
    }
}

#[via_fn]
proof fn spec_read_end_dec(s: Seq<char>, i: int, v: JsonValue) {
    match v {
        JsonValue::Array(xs) => {
            if xs@.len() > 0 {
                lemma_jsize_list_elem(xs@, xs@.len() as int, 0);
            }
        },
        JsonValue::Object(es) => {
            if es@.len() > 0 {
                lemma_jsize_entries_elem(es@, es@.len() as int, 0);
            }
        },
        _ => {},
    }
}

/// Where the array closes, reading the elements from index `idx` on,
/// each preceded by a comma.
pub open spec fn spec_elems_end(s: Seq<char>, k: int, xs: Seq<JsonValue>, idx: int) -> Option<
    int,
>
    decreases jsize_list(xs, xs.len() as int), xs.len() - idx,
    via spec_elems_end_dec
{
    let u = spec_ws_run(s, k);
    if idx < 0 || idx >= xs.len() {
        if u < s.len() && s[u] == ']' {
            Some(u + 1)
        } else {
            None
        }
    } else {
        if u < s.len() && s[u] == ',' {
            match spec_read_end(s, u + 1, xs[idx]) {
                Some(m) => spec_elems_end(s, m, xs, idx + 1),
                None => None,
            }
        } else {
            None
        }
    }
}

#[via_fn]
proof fn spec_elems_end_dec(s: Seq<char>, k: int, xs: Seq<JsonValue>, idx: int) {
    if 0 <= idx && idx < xs.len() {
        lemma_jsize_list_elem(xs, xs.len() as int, idx);
    }
}

/// Where one object entry ends: the quoted key, a colon, then the
/// value.
pub open spec fn spec_entry_end(s: Seq<char>, k: int, e: (String, JsonValue)) -> Option<int>
    decreases jsize(e.1), 1int,
{
    let t = spec_ws_run(s, k);
    if 0 <= t < s.len() && s[t] == '"' {
        match spec_str_body_end(s, t + 1, e.0@) {
            Some(m) => {
                let c = spec_ws_run(s, m);
                if c < s.len() && s[c] == ':' {
                    spec_read_end(s, c + 1, e.1)
                } else {
                    None
                }
            },
            None => None,
        }
    } else {
        None
    }
}

/// Where the object closes, reading the entries from index `idx` on,
/// each preceded by a comma.
pub open spec fn spec_entries_end(
    s: Seq<char>,
    k: int,
    es: Seq<(String, JsonValue)>,
    idx: int,
) -> Option<int>
    decreases jsize_entries(es, es.len() as int), es.len() - idx,
    via spec_entries_end_dec
{
    let u = spec_ws_run(s, k);
    if idx < 0 || idx >= es.len() {
        if u < s.len() && s[u] == '}' {
            Some(u + 1)
        } else {
            None
        }
    } else {
        if u < s.len() && s[u] == ',' {
            match spec_entry_end(s, u + 1, es[idx]) {
                Some(m) => spec_entries_end(s, m, es, idx + 1),
                None => None,
            }
        } else {
            None
        }
    }
}

#[via_fn]
proof fn spec_entries_end_dec(s: Seq<char>, k: int, es: Seq<(String, JsonValue)>, idx: int) {
    if 0 <= idx && idx < es.len() {
        lemma_jsize_entries_elem(es, es.len() as int, idx);
    }
}

/// The text from `i`, after whitespace, reads as the value `v`, ending
/// just before `j`.
pub open spec fn spec_reads(s: Seq<char>, i: int, v: JsonValue, j: int) -> bool {
    spec_read_end(s, i, v) == Some(j)
}

// ---------------------------------------------------------------------
// a compact JSON reader
// ---------------------------------------------------------------------
/// Whether the character is JSON whitespace.
fn is_json_ws(c: char) -> (r: bool)
    ensures
        r == spec_json_ws(c),
{
    let u = c as u32;
    u == 0x20 || u == 0x9 || u == 0xA || u == 0xD
}

/// Whether the character is a decimal digit.
fn is_json_digit(c: char) -> (r: bool)
    ensures
        r == spec_dec_digit(c),
{
    let u = c as u32;
    0x30 <= u && u <= 0x39
}

/// The value of a hexadecimal digit, if the character is one.
fn hex_digit_val(c: char) -> (r: Option<u32>)
    ensures
        r == spec_hex_val(c),
        r matches Some(h) ==> h < 16,
{
    let u = c as u32;
    if 0x30 <= u && u <= 0x39 {
        Some(u - 0x30)
    } else if 0x41 <= u && u <= 0x46 {
        Some(u - 0x41 + 10)
    } else if 0x61 <= u && u <= 0x66 {
        Some(u - 0x61 + 10)
    } else {
        None
    }
}

/// The first position at or after `i` holding no JSON whitespace.
fn skip_ws(cs: &Vec<char>, i: usize) -> (r: usize)
    requires
        i <= cs@.len(),
    ensures
        i <= r <= cs@.len(),
        r == spec_ws_run(cs@, i as int),
{
    let n = cs.len();
    let mut j: usize = i;
    while j < n && is_json_ws(cs[j])
        invariant
            n == cs@.len(),
            i <= j <= n,
            spec_ws_run(cs@, i as int) == spec_ws_run(cs@, j as int),
        decreases n - j,
    {
        j = j + 1;
    }
    proof {
        assert(spec_ws_run(cs@, j as int) == j);
    }
    j
}

/// Reads a quoted JSON string starting at `j`, handling the escape
/// sequences; `\\u` escapes are taken only below 0x100.
fn parse_string(cs: &Vec<char>, j: usize) -> (r: Option<(String, usize)>)
    requires
        j <= cs@.len(),
    ensures
        r matches Some(p) ==> j < p.1 <= cs@.len(),
        r matches Some(p) ==> j < cs@.len() && cs@[j as int] == '"' && spec_str_body_end(
            cs@,
            j + 1,
            p.0@,
        ) == Some(p.1 as int),
{
    let n = cs.len();
    if j >= n || cs[j] != '"' {
        return None;
    }
    let mut out = String::new();
    let mut k: usize = j + 1;
    while k < n
        invariant
            n == cs@.len(),
            j < k <= n,
            j < n && cs@[j as int] == '"',
            forall|c2: Seq<char>|
                (#[trigger] spec_str_body_end(cs@, k as int, c2)) is Some ==> spec_str_body_end(
                    cs@,
                    j + 1,
                    out@ + c2,
                ) == spec_str_body_end(cs@, k as int, c2),
        decreases n - k,
    {
        let ghost pre = out@;
        let ghost kk = k as int;
        let c = cs[k];
        if c == '"' {
            let res = Some((out, k + 1));
            proof {
                assert(spec_str_body_end(cs@, kk, Seq::<char>::empty()) == Some(kk + 1));
                assert(spec_str_body_end(cs@, j + 1, pre + Seq::<char>::empty()) == Some(
                    kk + 1,
                ));
                assert(pre + Seq::<char>::empty() =~= pre);
            }
            return res;
        }
        if c == '\\' {
            if k + 1 >= n {
                return None;
            }
            let e = cs[k + 1];
            let mut consumed: usize = 2;
            if e == '"' || e == '\\' || e == '/' {
                crate::text::push_char(&mut out, e);
            } else if e == 'b' {
                crate::text::push_char(&mut out, 8u8 as char);
            } else if e == 'f' {
                crate::text::push_char(&mut out, 12u8 as char);
            } else if e == 'n' {
                crate::text::push_char(&mut out, '\n');
            } else if e == 'r' {
                crate::text::push_char(&mut out, '\r');
            } else if e == 't' {
                crate::text::push_char(&mut out, '\t');
            } else if e == 'u' {
                if n - k <= 5 {
                    return None;
                }
                let h0 = match hex_digit_val(cs[k + 2]) {
                    Some(h) => h,
                    None => {
                        return None;
                    },
                };
                let h1 = match hex_digit_val(cs[k + 3]) {
                    Some(h) => h,
                    None => {
                        return None;
                    },
                };
                let h2 = match hex_digit_val(cs[k + 4]) {
                    Some(h) => h,
                    None => {
                        return None;
                    },
                };
                let h3 = match hex_digit_val(cs[k + 5]) {
                    Some(h) => h,
                    None => {
                        return None;
                    },
                };
                let val = h0 * 4096 + h1 * 256 + h2 * 16 + h3;
                if val < 0x100 {
                    crate::text::push_char(&mut out, val as u8 as char);
                    consumed = 6;
                } else {
                    return None;
                }
            } else {
                return None;
            }
            let ghost newc = out@[out@.len() - 1];
            proof {
                assert(out@ =~= pre.push(newc));
                assert forall|c2: Seq<char>|
                    (#[trigger] spec_str_body_end(cs@, kk + consumed, c2))
                        is Some implies spec_str_body_end(cs@, j + 1, out@ + c2)
                    == spec_str_body_end(cs@, kk + consumed, c2) by {
                    let whole = seq![newc] + c2;
                    assert(whole[0] == newc);
                    assert(whole.drop_first() =~= c2);
                    if consumed == 6 {
                        assert(spec_hex4(cs@, kk + 2) matches Some(v2) && v2 < 0x100 && newc
                            == v2 as u8 as char);
                    }
                    assert(spec_str_body_end(cs@, kk, whole) == spec_str_body_end(
                        cs@,
                        kk + consumed,
                        c2,
                    ));
                    assert(spec_str_body_end(cs@, j + 1, pre + whole) == spec_str_body_end(
                        cs@,
                        kk,
                        whole,
                    ));
                    assert(pre + whole =~= out@ + c2);
                }
            }
            k = k + consumed;
        } else {
            crate::text::push_char(&mut out, c);
            proof {
                assert(out@ =~= pre.push(c));
                assert forall|c2: Seq<char>|
                    (#[trigger] spec_str_body_end(cs@, kk + 1, c2))
                        is Some implies spec_str_body_end(cs@, j + 1, out@ + c2)
                    == spec_str_body_end(cs@, kk + 1, c2) by {
                    let whole = seq![c] + c2;
                    assert(whole[0] == c);
                    assert(whole.drop_first() =~= c2);
                    assert(spec_str_body_end(cs@, kk, whole) == spec_str_body_end(
                        cs@,
                        kk + 1,
                        c2,
                    ));
                    assert(spec_str_body_end(cs@, j + 1, pre + whole) == spec_str_body_end(
                        cs@,
                        kk,
                        whole,
                    ));
                    assert(pre + whole =~= out@ + c2);
                }
            }
            k = k + 1;
        }
    }
    None
}

/// Reads a JSON number starting at `j`: an integer lands in the integer
/// variants, and a fraction, exponent or overflowing magnitude keeps its
/// literal digits.
fn parse_number(cs: &Vec<char>, j: usize) -> (r: Option<(JsonValue, usize)>)
    requires
        j <= cs@.len(),
    ensures
        r matches Some(p) ==> j < p.1 <= cs@.len(),
        r matches Some(p) ==> spec_number_end(cs@, j as int, p.0) == Some(p.1 as int),
{
    let n = cs.len();
    let mut raw = String::new();
    let mut k: usize = j;
    let mut neg = false;
    if k < n && cs[k] == '-' {
        neg = true;
        crate::text::push_char(&mut raw, '-');
        k = k + 1;
    }
    let start = k;
    let mut mag: u64 = 0;
    let mut of = false;
    while k < n && is_json_digit(cs[k])
        invariant
            n == cs@.len(),
            start <= k <= n,
            j <= start <= j + 1,
            start == j + 1 ==> j < n && cs@[j as int] == '-' && neg,
            start == j ==> !neg && !(j < n && cs@[j as int] == '-'),
            spec_digit_run(cs@, start as int) == spec_digit_run(cs@, k as int),
            raw@ == cs@.subrange(j as int, k as int),
            !of ==> mag as nat == spec_digits_val(cs@, start as int, k as int),
            of ==> spec_digits_val(cs@, start as int, k as int) > 0xFFFF_FFFF_FFFF_FFFF,
        decreases n - k,
    {
        let dv = (cs[k] as u32 - 0x30) as u64;
        proof {
            assert(spec_digits_val(cs@, start as int, k + 1) == spec_digits_val(
                cs@,
                start as int,
                k as int,
            ) * 10 + dv);
        }
        if of {
            proof {
                assert(spec_digits_val(cs@, start as int, k as int) * 10 >= spec_digits_val(
                    cs@,
                    start as int,
                    k as int,
                ));
            }
        } else if mag > (u64::MAX - dv) / 10 {
            of = true;
            proof {
                assert((mag as int) * 10 + dv > u64::MAX as int) by (nonlinear_arith)
                    requires
                        mag as int > (u64::MAX as int - dv as int) / 10,
                        dv <= 9,
                ;
            }
        } else {
            proof {
                assert(mag * 10 + dv <= u64::MAX) by (nonlinear_arith)
                    requires
                        mag <= (u64::MAX - dv) / 10,
                        dv <= 9,
                ;
            }
            mag = mag * 10 + dv;
        }
        crate::text::push_char(&mut raw, cs[k]);
        proof {
            assert(cs@.subrange(j as int, k + 1) =~= cs@.subrange(j as int, k as int).push(
                cs@[k as int],
            ));
        }
        k = k + 1;
    }
    proof {
        assert(spec_digit_run(cs@, k as int) == k);
        assert(spec_digit_run(cs@, start as int) == k);
    }
    if k == start {
        return None;
    }
    let ghost de = k as int;
    let mut literal = false;
    if k < n && cs[k] == '.' {
        literal = true;
        crate::text::push_char(&mut raw, '.');
        proof {
            assert(cs@.subrange(j as int, k + 1) =~= cs@.subrange(j as int, k as int).push(
                cs@[k as int],
            ));
        }
        k = k + 1;
        let fstart = k;
        while k < n && is_json_digit(cs[k])
            invariant
                n == cs@.len(),
                fstart <= k <= n,
                j < fstart,
                spec_digit_run(cs@, fstart as int) == spec_digit_run(cs@, k as int),
                raw@ == cs@.subrange(j as int, k as int),
            decreases n - k,
        {
            crate::text::push_char(&mut raw, cs[k]);
            proof {
                assert(cs@.subrange(j as int, k + 1) =~= cs@.subrange(j as int, k as int).push(
                    cs@[k as int],
                ));
            }
            k = k + 1;
        }
        proof {
            assert(spec_digit_run(cs@, k as int) == k);
            assert(spec_digit_run(cs@, fstart as int) == k);
        }
        if k == fstart {
            return None;
        }
    }
    let ghost after_frac = k as int;
    if k < n && (cs[k] == 'e' || cs[k] == 'E') {
        literal = true;
        crate::text::push_char(&mut raw, cs[k]);
        proof {
            assert(cs@.subrange(j as int, k + 1) =~= cs@.subrange(j as int, k as int).push(
                cs@[k as int],
            ));
        }
        k = k + 1;
        if k < n && (cs[k] == '+' || cs[k] == '-') {
            crate::text::push_char(&mut raw, cs[k]);
            proof {
                assert(cs@.subrange(j as int, k + 1) =~= cs@.subrange(j as int, k as int).push(
                    cs@[k as int],
                ));
            }
            k = k + 1;
        }
        let estart = k;
        while k < n && is_json_digit(cs[k])
            invariant
                n == cs@.len(),
                estart <= k <= n,
                j < estart,
                spec_digit_run(cs@, estart as int) == spec_digit_run(cs@, k as int),
                raw@ == cs@.subrange(j as int, k as int),
            decreases n - k,
        {
            crate::text::push_char(&mut raw, cs[k]);
            proof {
                assert(cs@.subrange(j as int, k + 1) =~= cs@.subrange(j as int, k as int).push(
                    cs@[k as int],
                ));
            }
            k = k + 1;
        }
        proof {
            assert(spec_digit_run(cs@, k as int) == k);
            assert(spec_digit_run(cs@, estart as int) == k);
        }
        if k == estart {
            return None;
        }
    }
    if literal || of {
        return Some((JsonValue::Decimal(raw), k));
    }
    if neg {
        if mag <= 0x7FFF_FFFF_FFFF_FFFF {
            Some((JsonValue::Int(-(mag as i64)), k))
        } else if mag == 0x8000_0000_0000_0000 {
            Some((JsonValue::Int(i64::MIN), k))
        } else {
            Some((JsonValue::Decimal(raw), k))
        }
    } else {
        if mag <= 0x7FFF_FFFF_FFFF_FFFF {
            Some((JsonValue::Int(mag as i64), k))
        } else {
            Some((JsonValue::UInt(mag), k))
        }
    }
}

/// Reads the array elements from the second on — each a comma then a
/// value — and the closing bracket, appending the values read.
fn parse_elems_from(cs: &Vec<char>, k: usize, items: &mut Vec<JsonValue>) -> (r: Option<usize>)
    requires
        k <= cs@.len(),
    ensures
        r matches Some(j) ==> k < j <= cs@.len(),
        r matches Some(j) ==> final(items)@.len() >= old(items)@.len() && final(items)@.take(
            old(items)@.len() as int,
        ) == old(items)@ && spec_elems_end(
            cs@,
            k as int,
            final(items)@,
            old(items)@.len() as int,
        ) == Some(j as int),
    decreases cs@.len() - k,
{
    let n = cs.len();
    let u = skip_ws(cs, k);
    if u < n && cs[u] == ']' {
        proof {
            assert(items@.take(items@.len() as int) =~= items@);
        }
        return Some(u + 1);
    }
    if u < n && cs[u] == ',' {
        match parse_value(cs, u + 1) {
            Some((v, m)) => {
                items.push(v);
                let ghost mid = items@;
                match parse_elems_from(cs, m, items) {
                    Some(j2) => {
                        proof {
                            let fin = items@;
                            let base = mid.len() - 1;
                            assert(fin.take(mid.len() as int) == mid);
                            assert(fin.take(base) =~= fin.take(mid.len() as int).take(base));
                            assert(mid.take(base) =~= mid.drop_last());
                            assert(mid.drop_last() =~= old(items)@);
                            assert(fin.take(base) == old(items)@);
                            assert(fin[base] == mid[base]);
                            assert(mid[base] == v);
                            let u2 = spec_ws_run(cs@, k as int);
                            assert(u2 == u as int);
                            assert(spec_read_end(cs@, u2 + 1, fin[base]) == Some(m as int));
                            assert(spec_elems_end(cs@, m as int, fin, base + 1) == Some(
                                j2 as int,
                            ));
                            assert(spec_elems_end(cs@, k as int, fin, base) == Some(j2 as int));
                        }
                        Some(j2)
                    },
                    None => None,
                }
            },
            None => None,
        }
    } else {
        None
    }
}

/// Reads the object entries from the second on — each a comma, a quoted
/// key, a colon and a value — and the closing brace, appending the
/// entries read.
fn parse_entries_from(cs: &Vec<char>, k: usize, entries: &mut Vec<(String, JsonValue)>) -> (r:
    Option<usize>)
    requires
        k <= cs@.len(),
    ensures
        r matches Some(j) ==> k < j <= cs@.len(),
        r matches Some(j) ==> final(entries)@.len() >= old(entries)@.len() && final(
            entries
        )@.take(old(entries)@.len() as int) == old(entries)@ && spec_entries_end(
            cs@,
            k as int,
            final(entries)@,
            old(entries)@.len() as int,
        ) == Some(j as int),
    decreases cs@.len() - k,
{
    let n = cs.len();
    let u = skip_ws(cs, k);
    if u < n && cs[u] == '}' {
        proof {
            assert(entries@.take(entries@.len() as int) =~= entries@);
        }
        return Some(u + 1);
    }
    if u < n && cs[u] == ',' {
        let ks = skip_ws(cs, u + 1);
        let (key, ak) = match parse_string(cs, ks) {
            Some(p) => p,
            None => {
                return None;
            },
        };
        let colon = skip_ws(cs, ak);
        if !(colon < n && cs[colon] == ':') {
            return None;
        }
        let (val, av) = match parse_value(cs, colon + 1) {
            Some(p) => p,
            None => {
                return None;
            },
        };
        let ghost keyv = key@;
        let ghost valv = val;
        entries.push((key, val));
        let ghost mid = entries@;
        proof {
            let e = mid[mid.len() - 1];
            assert(e.0@ == keyv);
            assert(e.1 == valv);
            let t2 = spec_ws_run(cs@, u + 1);
            assert(t2 == ks as int);
            assert(cs@[t2] == '"');
            assert(spec_str_body_end(cs@, t2 + 1, e.0@) == Some(ak as int));
            let c2 = spec_ws_run(cs@, ak as int);
            assert(c2 == colon as int);
            assert(cs@[c2] == ':');
            assert(spec_read_end(cs@, c2 + 1, e.1) == Some(av as int));
            assert(spec_entry_end(cs@, u + 1, mid[mid.len() - 1]) == Some(av as int));
        }
        match parse_entries_from(cs, av, entries) {
            Some(j2) => {
                proof {
                    let fin = entries@;
                    let base = mid.len() - 1;
                    assert(fin.take(mid.len() as int) == mid);
                    assert(fin.take(base) =~= fin.take(mid.len() as int).take(base));
                    assert(mid.take(base) =~= mid.drop_last());
                    assert(mid.drop_last() =~= old(entries)@);
                    assert(fin.take(base) == old(entries)@);
                    assert(fin[base] == mid[base]);
                    let u2 = spec_ws_run(cs@, k as int);
                    assert(u2 == u as int);
                    assert(spec_entry_end(cs@, u2 + 1, fin[base]) == Some(av as int));
                    assert(spec_entries_end(cs@, av as int, fin, base + 1) == Some(j2 as int));
                    assert(spec_entries_end(cs@, k as int, fin, base) == Some(j2 as int));
                }
                Some(j2)
            },
            None => None,
        }
    } else {
        None
    }
}

/// Reads one JSON value starting at `i`, whitespace first, and returns
/// it with the position after it.
fn parse_value(cs: &Vec<char>, i: usize) -> (r: Option<(JsonValue, usize)>)
    requires
        i <= cs@.len(),
    ensures
        r matches Some(p) ==> i < p.1 <= cs@.len(),
        r matches Some(p) ==> spec_reads(cs@, i as int, p.0, p.1 as int),
    decreases cs@.len() - i,
{
    let n = cs.len();
    let j = skip_ws(cs, i);
    if j >= n {
        return None;
    }
    let c = cs[j];
    if c == 'n' {
        if n - j >= 4 && cs[j + 1] == 'u' && cs[j + 2] == 'l' && cs[j + 3] == 'l' {
            Some((JsonValue::Null, j + 4))
        } else {
            None
        }
    } else if c == 't' {
        if n - j >= 4 && cs[j + 1] == 'r' && cs[j + 2] == 'u' && cs[j + 3] == 'e' {
            Some((JsonValue::Bool(true), j + 4))
        } else {
            None
        }
    } else if c == 'f' {
        if n - j >= 5 && cs[j + 1] == 'a' && cs[j + 2] == 'l' && cs[j + 3] == 's' && cs[j + 4]
            == 'e' {
            Some((JsonValue::Bool(false), j + 5))
        } else {
            None
        }
    } else if c == '"' {
        match parse_string(cs, j) {
            Some((st, k)) => Some((JsonValue::Text(st), k)),
            None => None,
        }
    } else if c == '[' {
        let first = skip_ws(cs, j + 1);
        if first < n && cs[first] == ']' {
            let items: Vec<JsonValue> = Vec::new();
            proof {
                assert(items@.len() == 0);
            }
            return Some((JsonValue::Array(items), first + 1));
        }
        let mut items: Vec<JsonValue> = Vec::new();
        let k1 = match parse_value(cs, j + 1) {
            Some((v, m)) => {
                items.push(v);
                m
            },
            None => {
                return None;
            },
        };
        let ghost first_item = items@[0];
        match parse_elems_from(cs, k1, &mut items) {
            Some(j2) => {
                proof {
                    let t2 = spec_ws_run(cs@, i as int);
                    assert(t2 == j as int);
                    assert(cs@[t2] == '[');
                    assert(items@.take(1) == seq![first_item]);
                    assert(items@[0] == items@.take(1)[0]);
                    assert(items@[0] == first_item);
                    assert(spec_read_end(cs@, t2 + 1, items@[0]) == Some(k1 as int));
                    assert(spec_elems_end(cs@, k1 as int, items@, 1) == Some(j2 as int));
                }
                Some((JsonValue::Array(items), j2))
            },
            None => None,
        }
    } else if c == '{' {
        let first = skip_ws(cs, j + 1);
        if first < n && cs[first] == '}' {
            let entries: Vec<(String, JsonValue)> = Vec::new();
            proof {
                assert(entries@.len() == 0);
            }
            return Some((JsonValue::Object(entries), first + 1));
        }
        let mut entries: Vec<(String, JsonValue)> = Vec::new();
        let ks = skip_ws(cs, j + 1);
        let (key, ak) = match parse_string(cs, ks) {
            Some(p) => p,
            None => {
                return None;
            },
        };
        let colon = skip_ws(cs, ak);
        if !(colon < n && cs[colon] == ':') {
            return None;
        }
        let (val, av) = match parse_value(cs, colon + 1) {
            Some(p) => p,
            None => {
                return None;
            },
        };
        let ghost keyv = key@;
        entries.push((key, val));
        let ghost first_entry = entries@[0];
        proof {
            assert(first_entry.0@ == keyv);
            let t2 = spec_ws_run(cs@, j + 1);
            assert(t2 == ks as int);
            assert(cs@[t2] == '"');
            assert(spec_str_body_end(cs@, t2 + 1, first_entry.0@) == Some(ak as int));
            let c2 = spec_ws_run(cs@, ak as int);
            assert(c2 == colon as int);
            assert(cs@[c2] == ':');
            assert(spec_read_end(cs@, c2 + 1, first_entry.1) == Some(av as int));
            assert(spec_entry_end(cs@, j + 1, first_entry) == Some(av as int));
        }
        match parse_entries_from(cs, av, &mut entries) {
            Some(j2) => {
                proof {
                    let t2 = spec_ws_run(cs@, i as int);
                    assert(t2 == j as int);
                    assert(cs@[t2] == '{');
                    assert(entries@.take(1) == seq![first_entry]);
                    assert(entries@[0] == entries@.take(1)[0]);
                    assert(entries@[0] == first_entry);
                    assert(spec_entry_end(cs@, t2 + 1, entries@[0]) == Some(av as int));
                    assert(spec_entries_end(cs@, av as int, entries@, 1) == Some(j2 as int));
                }
                Some((JsonValue::Object(entries), j2))
            },
            None => None,
        }
    } else if c == '-' || is_json_digit(c) {
        parse_number(cs, j)
    } else {
        None
    }
}

/// Reads a whole JSON document: one value with nothing but whitespace
/// around it. A document the reader cannot take yields nothing.
pub fn parse_json(input: &str) -> (r: Option<JsonValue>)
    ensures
        r matches Some(v) ==> (spec_read_end(input@, 0, v) matches Some(j) && spec_ws_run(
            input@,
            j,
        ) == input@.len()),
{
    let cs = crate::text::chars_of(input);
    let n = cs.len();
    match parse_value(&cs, 0) {
        Some((v, j)) => {
            let k = skip_ws(&cs, j);
            if k == n {
                Some(v)
            } else {
                None
            }
        },
        None => None,
    }
}

} // verus!
