//! Characters of a string and their encoded widths.
//!
//! Every text algorithm of the library walks a string as its sequence of
//! Unicode scalar values (`s@`). Byte offsets (UTF-8) and editor offsets
//! (UTF-16) are then sums of per-character widths, stated here.

use vstd::prelude::*;
use vstd::utf8::encode_utf8;
use crate::key::KeyOrder;

verus! {

broadcast use {vstd::string::group_string_axioms, vstd::slice::group_slice_axioms};

/// Number of bytes that UTF-8 uses for a character.
pub open spec fn utf8_width(c: char) -> nat {
    if (c as u32) < 0x80 {
        1
    } else if (c as u32) < 0x800 {
        2
    } else if (c as u32) < 0x10000 {
        3
    } else {
        4
    }
}

/// Number of 16-bit code units that UTF-16 uses for a character.
pub open spec fn utf16_width(c: char) -> nat {
    if (c as u32) < 0x10000 {
        1
    } else {
        2
    }
}

/// UTF-8 length of a character sequence.
pub open spec fn utf8_len(s: Seq<char>) -> nat
    decreases s.len(),
{
    if s.len() == 0 {
        0
    } else {
        utf8_len(s.drop_last()) + utf8_width(s.last())
    }
}

/// UTF-16 length of a character sequence.
pub open spec fn utf16_len(s: Seq<char>) -> nat
    decreases s.len(),
{
    if s.len() == 0 {
        0
    } else {
        utf16_len(s.drop_last()) + utf16_width(s.last())
    }
}

/// Extending a prefix by one character adds that character's widths.
pub proof fn lemma_len_take_next(s: Seq<char>, i: int)
    requires
        0 <= i < s.len(),
    ensures
        utf8_len(s.take(i + 1)) == utf8_len(s.take(i)) + utf8_width(s[i]),
        utf16_len(s.take(i + 1)) == utf16_len(s.take(i)) + utf16_width(s[i]),
{
    assert(s.take(i + 1).drop_last() =~= s.take(i));
}

/// Longer prefixes are at least as long in both encodings.
pub proof fn lemma_len_take_mono(s: Seq<char>, i: int, j: int)
    requires
        0 <= i <= j <= s.len(),
    ensures
        utf8_len(s.take(i)) + (j - i) <= utf8_len(s.take(j)),
        utf16_len(s.take(i)) + (j - i) <= utf16_len(s.take(j)),
    decreases j - i,
{
    if i < j {
        lemma_len_take_mono(s, i, j - 1);
        lemma_len_take_next(s, j - 1);
    }
}

/// No character is wider in UTF-16 code units than in UTF-8 bytes.
pub proof fn lemma_utf16_le_utf8(s: Seq<char>)
    ensures
        utf16_len(s) <= utf8_len(s),
    decreases s.len(),
{
    if s.len() > 0 {
        lemma_utf16_le_utf8(s.drop_last());
    }
}

/// Widths of a concatenation add up.
pub proof fn lemma_len_concat(a: Seq<char>, b: Seq<char>)
    ensures
        utf8_len(a + b) == utf8_len(a) + utf8_len(b),
        utf16_len(a + b) == utf16_len(a) + utf16_len(b),
    decreases b.len(),
{
    if b.len() == 0 {
        assert(a + b =~= a);
    } else {
        lemma_len_concat(a, b.drop_last());
        assert((a + b).drop_last() =~= a + b.drop_last());
    }
}

/// A sequence's UTF-8 length is the length of its encoding.
pub proof fn lemma_encode_utf8_len(s: Seq<char>)
    ensures
        encode_utf8(s).len() == utf8_len(s),
    decreases s.len(),
{
    if s.len() > 0 {
        lemma_encode_utf8_len(s.drop_first());
        lemma_len_concat(seq![s[0]], s.drop_first());
        assert(seq![s[0]] + s.drop_first() =~= s);
        let c = s[0];
        assert(utf8_len(Seq::<char>::empty()) == 0);
        assert(seq![c].drop_last() =~= Seq::<char>::empty());
        assert(seq![c].last() == c);
        assert(utf8_len(seq![c]) == utf8_width(c));
        vstd::utf8::char_is_scalar(c);
        assert(vstd::utf8::encode_scalar(c as u32).len() == utf8_width(c));
        assert(encode_utf8(s) == vstd::utf8::encode_scalar(c as u32) + encode_utf8(
            s.drop_first(),
        ));
    }
}

/// Number of bytes of `s`; every string's UTF-8 length fits in `usize`.
pub fn byte_len(s: &str) -> (n: usize)
    ensures
        n == utf8_len(s@),
{
    let b = s.as_bytes();
    proof {
        lemma_encode_utf8_len(s@);
    }
    b.len()
}

/// UTF-8 width of `c`, as `char::len_utf8` reports it.
pub fn len_utf8(c: char) -> (n: usize)
    ensures
        n == utf8_width(c),
{
    let u = c as u32;
    if u < 0x80 {
        1
    } else if u < 0x800 {
        2
    } else if u < 0x10000 {
        3
    } else {
        4
    }
}

/// UTF-16 width of `c`, as `char::len_utf16` reports it.
pub fn len_utf16(c: char) -> (n: usize)
    ensures
        n == utf16_width(c),
{
    if (c as u32) < 0x10000 {
        1
    } else {
        2
    }
}

/// Unicode `White_Space`, the property that `char::is_whitespace` tests.
pub open spec fn is_white_space(c: char) -> bool {
    let u = c as u32;
    ||| 0x09 <= u <= 0x0d
    ||| u == 0x20
    ||| u == 0x85
    ||| u == 0xa0
    ||| u == 0x1680
    ||| 0x2000 <= u <= 0x200a
    ||| u == 0x2028
    ||| u == 0x2029
    ||| u == 0x202f
    ||| u == 0x205f
    ||| u == 0x3000
}

/// Whether `c` is Unicode white space.
pub fn is_whitespace(c: char) -> (b: bool)
    ensures
        b == is_white_space(c),
{
    let u = c as u32;
    (0x09 <= u && u <= 0x0d) || u == 0x20 || u == 0x85 || u == 0xa0 || u == 0x1680 || (0x2000
        <= u && u <= 0x200a) || u == 0x2028 || u == 0x2029 || u == 0x202f || u == 0x205f || u
        == 0x3000
}

/// The characters of `s`, in order.
pub fn chars_of(s: &str) -> (v: Vec<char>)
    ensures
        v@ == s@,
{
    let mut v: Vec<char> = Vec::new();
    for c in it: s.chars()
        invariant
            it.seq() == s@,
            v@ == s@.take(it.index() as int),
    {
        v.push(c);
    }
    v
}

/// Byte offset of every character boundary of `s`: entry `i` is the UTF-8
/// length of the first `i` characters.
pub fn byte_offsets(s: &str, chars: &Vec<char>) -> (v: Vec<usize>)
    requires
        chars@ == s@,
    ensures
        v.len() == chars.len() + 1,
        forall|i: int| 0 <= i <= chars.len() ==> v@[i] == utf8_len(#[trigger] s@.take(i)),
{
    let total = byte_len(s);
    let n = chars.len();
    let mut v: Vec<usize> = Vec::new();
    let mut acc: usize = 0;
    v.push(0);
    assert(s@.take(0) =~= Seq::<char>::empty());
    assert(s@.take(n as int) =~= s@);
    let mut i: usize = 0;
    while i < n
        invariant
            chars@ == s@,
            n == chars.len(),
            i <= n,
            total == utf8_len(s@),
            s@.take(n as int) == s@,
            acc == utf8_len(s@.take(i as int)),
            v.len() == i + 1,
            forall|j: int| 0 <= j <= i ==> v@[j] == utf8_len(#[trigger] s@.take(j)),
        decreases n - i,
    {
        proof {
            lemma_len_take_next(s@, i as int);
            lemma_len_take_mono(s@, i as int + 1, n as int);
        }
        acc = acc + len_utf8(chars[i]);
        v.push(acc);
        i += 1;
    }
    v
}

/// Whether two strings hold the same characters.
pub fn str_eq(a: &str, b: &str) -> (r: bool)
    ensures
        r == (a@ == b@),
{
    let x = a.as_bytes();
    let y = b.as_bytes();
    proof {
        vstd::utf8::encode_utf8_decode_utf8(a@);
        vstd::utf8::encode_utf8_decode_utf8(b@);
    }
    if x.len() != y.len() {
        return false;
    }
    let mut i: usize = 0;
    while i < x.len()
        invariant
            x@ == encode_utf8(a@),
            y@ == encode_utf8(b@),
            vstd::utf8::decode_utf8(encode_utf8(a@)) == a@,
            vstd::utf8::decode_utf8(encode_utf8(b@)) == b@,
            x.len() == y.len(),
            i <= x.len(),
            forall|j: int| 0 <= j < i ==> x@[j] == y@[j],
        decreases x.len() - i,
    {
        if x[i] != y[i] {
            assert(x@ != y@);
            return false;
        }
        i += 1;
    }
    assert(x@ =~= y@);
    true
}

/// `p` is a prefix of `s`.
pub open spec fn is_prefix(p: Seq<char>, s: Seq<char>) -> bool {
    p.len() <= s.len() && s.take(p.len() as int) == p
}

/// Whether `s` starts with the characters of `prefix`.
pub fn starts_with(s: &str, prefix: &str) -> (r: bool)
    ensures
        r == is_prefix(prefix@, s@),
{
    let x = chars_of(s);
    let p = chars_of(prefix);
    if p.len() > x.len() {
        return false;
    }
    let mut i: usize = 0;
    while i < p.len()
        invariant
            x@ == s@,
            p@ == prefix@,
            p.len() <= x.len(),
            i <= p.len(),
            forall|j: int| 0 <= j < i ==> x@[j] == p@[j],
        decreases p.len() - i,
    {
        if x[i] != p[i] {
            assert(x@.take(p@.len() as int)[i as int] != p@[i as int]);
            return false;
        }
        i += 1;
    }
    assert(x@.take(p@.len() as int) =~= p@);
    true
}

/// Lexicographic order of character sequences by code point, the order of
/// `str`'s `Ord`.
pub open spec fn lex_lt(a: Seq<char>, b: Seq<char>) -> bool
    decreases a.len(),
{
    if b.len() == 0 {
        false
    } else if a.len() == 0 {
        true
    } else if a[0] != b[0] {
        (a[0] as u32) < (b[0] as u32)
    } else {
        lex_lt(a.drop_first(), b.drop_first())
    }
}

proof fn lemma_char_u32_injective(c: char, d: char)
    ensures
        (c as u32) == (d as u32) ==> c == d,
{
    vstd::utf8::char_u32_cast(c, c as u32);
    vstd::utf8::char_u32_cast(d, d as u32);
}

/// The lexicographic order is irreflexive and asymmetric.
pub proof fn lemma_lex_asym(a: Seq<char>, b: Seq<char>)
    ensures
        !lex_lt(a, a),
        lex_lt(a, b) ==> !lex_lt(b, a),
    decreases a.len(),
{
    if a.len() > 0 {
        if b.len() > 0 {
            lemma_lex_asym(a.drop_first(), b.drop_first());
        } else {
            lemma_lex_asym(a.drop_first(), a.drop_first());
        }
    }
}

/// Two different sequences are ordered one way or the other.
pub proof fn lemma_lex_total(a: Seq<char>, b: Seq<char>)
    ensures
        a != b ==> lex_lt(a, b) || lex_lt(b, a),
    decreases a.len(),
{
    if a.len() > 0 && b.len() > 0 {
        lemma_char_u32_injective(a[0], b[0]);
        lemma_lex_total(a.drop_first(), b.drop_first());
        if a[0] == b[0] && a.drop_first() == b.drop_first() {
            assert(a =~= seq![a[0]] + a.drop_first());
            assert(b =~= seq![b[0]] + b.drop_first());
        }
    } else if a.len() == 0 && b.len() == 0 {
        assert(a =~= b);
    }
}

/// The lexicographic order is transitive.
pub proof fn lemma_lex_trans(a: Seq<char>, b: Seq<char>, c: Seq<char>)
    ensures
        lex_lt(a, b) && lex_lt(b, c) ==> lex_lt(a, c),
    decreases a.len(),
{
    if a.len() > 0 && b.len() > 0 && c.len() > 0 {
        lemma_lex_trans(a.drop_first(), b.drop_first(), c.drop_first());
    }
}

/// Compares two strings lexicographically by code point.
pub fn compare_str(a: &str, b: &str) -> (r: KeyOrder)
    ensures
        r == KeyOrder::Less <==> lex_lt(a@, b@),
        r == KeyOrder::Equal <==> a@ == b@,
        r == KeyOrder::Greater <==> lex_lt(b@, a@),
{
    let x = chars_of(a);
    let y = chars_of(b);
    let mut i: usize = 0;
    proof {
        lemma_lex_asym(a@, b@);
        lemma_lex_total(a@, b@);
        assert(a@.skip(0) =~= a@);
        assert(b@.skip(0) =~= b@);
        assert(x@.take(0) =~= y@.take(0));
    }
    while i < x.len() && i < y.len()
        invariant
            x@ == a@,
            y@ == b@,
            i <= x.len(),
            i <= y.len(),
            x@.take(i as int) == y@.take(i as int),
            lex_lt(a@, b@) == lex_lt(a@.skip(i as int), b@.skip(i as int)),
            lex_lt(b@, a@) == lex_lt(b@.skip(i as int), a@.skip(i as int)),
        decreases x.len() - i,
    {
        let c = x[i];
        let d = y[i];
        assert(a@.skip(i as int)[0] == c);
        assert(b@.skip(i as int)[0] == d);
        proof {
            lemma_char_u32_injective(c, d);
        }
        if (c as u32) < (d as u32) {
            return KeyOrder::Less;
        }
        if (d as u32) < (c as u32) {
            return KeyOrder::Greater;
        }
        proof {
            assert(c == d);
            assert(a@.skip(i as int).drop_first() =~= a@.skip(i + 1));
            assert(b@.skip(i as int).drop_first() =~= b@.skip(i + 1));
            assert(x@.take(i + 1) =~= x@.take(i as int).push(c));
            assert(y@.take(i + 1) =~= y@.take(i as int).push(d));
        }
        i += 1;
    }
    if x.len() == y.len() {
        assert(x@ =~= x@.take(i as int));
        assert(y@ =~= y@.take(i as int));
        proof {
            lemma_lex_asym(a@, a@);
        }
        KeyOrder::Equal
    } else if x.len() < y.len() {
        assert(a@.skip(i as int).len() == 0);
        KeyOrder::Less
    } else {
        assert(b@.skip(i as int).len() == 0);
        KeyOrder::Greater
    }
}

} // verus!
