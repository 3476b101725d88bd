//! Character-level primitives: whitespace classification, decimal and
//! hexadecimal digit codecs, and bridges between `&str`, `Vec<char>` and
//! `String`.

use vstd::prelude::*;
use vstd::string::StrSliceExecFns;

verus! {

/// The Unicode `White_Space` characters, by code point.
pub open spec fn is_ws(c: char) -> bool {
    let v = c as u32;
    v == 0x20 || (0x9 <= v && v <= 0xd) || v == 0x85 || v == 0xa0 || v == 0x1680 || (0x2000 <= v
        && v <= 0x200a) || v == 0x2028 || v == 0x2029 || v == 0x202f || v == 0x205f || v == 0x3000
}

/// Whether `c` is a whitespace character, in the sense of the Unicode
/// `White_Space` property.
pub fn is_whitespace_char(c: char) -> (r: bool)
    ensures
        r == is_ws(c),
{
    let v = c as u32;
    v == 0x20 || (0x9 <= v && v <= 0xd) || v == 0x85 || v == 0xa0 || v == 0x1680 || (0x2000 <= v
        && v <= 0x200a) || v == 0x2028 || v == 0x2029 || v == 0x202f || v == 0x205f || v == 0x3000
}

/// Whether `v` is a Unicode scalar value: in range and not a surrogate.
pub open spec fn is_unicode_scalar(v: int) -> bool {
    (0 <= v && v < 0xd800) || (0xdfff < v && v <= 0x10ffff)
}

/// Relies on `String::push`: appends the given character to the end of
/// the string.
#[verifier::external_body]
pub(crate) fn push_char(s: &mut String, c: char)
    ensures
        final(s)@ == old(s)@ + seq![c],
{
    s.push(c);
}

/// Relies on `char::from_u32`: returns `Some` exactly when the value is
/// a Unicode scalar value (not a surrogate, at most 0x10FFFF), and the
/// returned character has that code point.
#[verifier::external_body]
pub(crate) fn char_from_u32(v: u32) -> (r: Option<char>)
    ensures
        r is Some <==> is_unicode_scalar(v as int),
        r matches Some(c) ==> c as u32 == v,
{
    char::from_u32(v)
}

/// The characters of `s`, in order, as a vector.
pub fn chars_of(s: &str) -> (v: Vec<char>)
    ensures
        v@ == s@,
{
    let n = s.unicode_len();
    let mut v: Vec<char> = Vec::new();
    let mut i: usize = 0;
    while i < n
        invariant
            n == s@.len(),
            i <= n,
            v@ == s@.take(i as int),
        decreases n - i,
    {
        let c = s.get_char(i);
        v.push(c);
        proof {
            assert(s@.take((i + 1) as int) =~= s@.take(i as int).push(s@[i as int]));
        }
        i = i + 1;
    }
    proof {
        assert(s@.take(n as int) =~= s@);
    }
    v
}

/// The characters of `v`, in order, as a string.
pub fn string_of(v: &Vec<char>) -> (s: String)
    ensures
        s@ == v@,
{
    let mut s = String::new();
    let mut i: usize = 0;
    while i < v.len()
        invariant
            i <= v@.len(),
            s@ == v@.take(i as int),
        decreases v@.len() - i,
    {
        push_char(&mut s, v[i]);
        proof {
            assert(v@.take((i + 1) as int) =~= v@.take(i as int).push(v@[i as int]));
        }
        i = i + 1;
    }
    proof {
        assert(v@.take(v@.len() as int) =~= v@);
    }
    s
}

/// The decimal digit character for a value below ten.
pub open spec fn digit_char(d: int) -> char {
    (0x30 + d) as char
}

/// The three-digit, zero-padded decimal form of `n`, for `n` below 1000.
pub open spec fn pad3(n: int) -> Seq<char> {
    seq![digit_char(n / 100), digit_char((n / 10) % 10), digit_char(n % 10)]
}

/// The decimal form of `n` without leading zeros, for `n` below 1000.
pub open spec fn dec_seq(n: int) -> Seq<char> {
    if n < 10 {
        seq![digit_char(n)]
    } else if n < 100 {
        seq![digit_char(n / 10), digit_char(n % 10)]
    } else {
        seq![digit_char(n / 100), digit_char((n / 10) % 10), digit_char(n % 10)]
    }
}

/// The digit character for `d`, executable form of [`digit_char`].
pub fn digit_char_of(d: u8) -> (c: char)
    requires
        d < 10,
    ensures
        c == digit_char(d as int),
{
    (0x30u8 + d) as char
}

/// Appends the three-digit, zero-padded decimal form of `n` to `v`.
pub fn push_pad3(v: &mut Vec<char>, n: u8)
    ensures
        final(v)@ == old(v)@ + pad3(n as int),
{
    v.push(digit_char_of(n / 100));
    v.push(digit_char_of((n / 10) % 10));
    v.push(digit_char_of(n % 10));
    proof {
        assert(v@ =~= old(v)@ + pad3(n as int));
    }
}

/// Appends the unpadded decimal form of `n` to `v`.
pub fn push_dec(v: &mut Vec<char>, n: u8)
    ensures
        final(v)@ == old(v)@ + dec_seq(n as int),
{
    if n < 10 {
        v.push(digit_char_of(n));
    } else if n < 100 {
        v.push(digit_char_of(n / 10));
        v.push(digit_char_of(n % 10));
    } else {
        v.push(digit_char_of(n / 100));
        v.push(digit_char_of((n / 10) % 10));
        v.push(digit_char_of(n % 10));
    }
    proof {
        assert(v@ =~= old(v)@ + dec_seq(n as int));
    }
}

/// The whitespace characters of `s`, in order.
pub open spec fn ws_chars(s: Seq<char>) -> Seq<char>
    decreases s.len(),
{
    if s.len() == 0 {
        Seq::empty()
    } else if is_ws(s[0]) {
        seq![s[0]] + ws_chars(s.skip(1))
    } else {
        ws_chars(s.skip(1))
    }
}

/// Taking the whitespace characters distributes over concatenation.
pub proof fn lemma_ws_chars_add(a: Seq<char>, b: Seq<char>)
    ensures
        ws_chars(a + b) == ws_chars(a) + ws_chars(b),
    decreases a.len(),
{
    if a.len() == 0 {
        assert(a + b =~= b);
        assert(Seq::<char>::empty() + ws_chars(b) =~= ws_chars(b));
    } else {
        assert((a + b)[0] == a[0]);
        assert((a + b).skip(1) =~= a.skip(1) + b);
        lemma_ws_chars_add(a.skip(1), b);
        if is_ws(a[0]) {
            assert(seq![a[0]] + (ws_chars(a.skip(1)) + ws_chars(b)) =~= (seq![a[0]] + ws_chars(
                a.skip(1),
            )) + ws_chars(b));
        }
    }
}

/// The whitespace characters of a single-character sequence.
pub proof fn lemma_ws_chars_singleton(c: char)
    ensures
        ws_chars(seq![c]) == if is_ws(c) {
            seq![c]
        } else {
            Seq::<char>::empty()
        },
{
    assert(seq![c].skip(1) =~= Seq::<char>::empty());
    assert(ws_chars(Seq::<char>::empty()) == Seq::<char>::empty());
    if is_ws(c) {
        assert(ws_chars(seq![c]) =~= seq![c]);
    }
}

/// A sequence without whitespace has no whitespace characters.
pub proof fn lemma_ws_chars_none(s: Seq<char>)
    requires
        forall|i: int| 0 <= i < s.len() ==> !is_ws(#[trigger] s[i]),
    ensures
        ws_chars(s) == Seq::<char>::empty(),
    decreases s.len(),
{
    if s.len() > 0 {
        lemma_ws_chars_none(s.skip(1));
    }
}

/// Whether `s` ends with `suffix`.
pub open spec fn ends_with(s: Seq<char>, suffix: Seq<char>) -> bool {
    s.len() >= suffix.len() && s.skip(s.len() - suffix.len()) == suffix
}

/// A suffix survives prefixing: what ends with `suffix` still does
/// after any text is put in front of it.
pub proof fn lemma_ends_with_prefix(a: Seq<char>, b: Seq<char>, suffix: Seq<char>)
    requires
        ends_with(b, suffix),
    ensures
        ends_with(a + b, suffix),
{
    assert((a + b).skip((a + b).len() - suffix.len()) =~= b.skip(b.len() - suffix.len()));
}

/// The value of a hexadecimal digit character, or -1 when `c` is none.
pub open spec fn hex_digit_val(c: char) -> int {
    let v = c as u32;
    if 0x30 <= v && v <= 0x39 {
        v - 0x30
    } else if 0x61 <= v && v <= 0x66 {
        v - 0x61 + 10
    } else if 0x41 <= v && v <= 0x46 {
        v - 0x41 + 10
    } else {
        -1
    }
}

/// Whether `c` is a hexadecimal digit, of either case.
pub open spec fn is_hex_digit(c: char) -> bool {
    hex_digit_val(c) >= 0
}

/// The value of `c` as a hexadecimal digit, when it is one.
pub fn hex_digit_of(c: char) -> (r: Option<u8>)
    ensures
        r is Some <==> is_hex_digit(c),
        r matches Some(d) ==> d as int == hex_digit_val(c),
{
    let v = c as u32;
    if 0x30 <= v && v <= 0x39 {
        Some((v - 0x30) as u8)
    } else if 0x61 <= v && v <= 0x66 {
        Some((v - 0x61 + 10) as u8)
    } else if 0x41 <= v && v <= 0x46 {
        Some((v - 0x41 + 10) as u8)
    } else {
        None
    }
}

/// Whether every character of `s` is a hexadecimal digit.
pub open spec fn all_hex(s: Seq<char>) -> bool {
    forall|i: int| 0 <= i < s.len() ==> is_hex_digit(#[trigger] s[i])
}

/// The value of `s` read as a big-endian hexadecimal numeral.
pub open spec fn hex_val(s: Seq<char>) -> int
    decreases s.len(),
{
    if s.len() == 0 {
        0
    } else {
        hex_val(s.drop_last()) * 16 + hex_digit_val(s.last())
    }
}

/// A hexadecimal numeral of digits alone has a non-negative value.
pub proof fn lemma_hex_val_nonneg(s: Seq<char>)
    requires
        all_hex(s),
    ensures
        hex_val(s) >= 0,
    decreases s.len(),
{
    if s.len() > 0 {
        assert(all_hex(s.drop_last()));
        lemma_hex_val_nonneg(s.drop_last());
    }
}

/// Extending a hexadecimal numeral on the right cannot shrink its value.
pub proof fn lemma_hex_val_prefix(s: Seq<char>, i: int)
    requires
        all_hex(s),
        0 <= i <= s.len(),
    ensures
        hex_val(s.take(i)) <= hex_val(s),
    decreases s.len() - i,
{
    if i < s.len() {
        lemma_hex_val_prefix(s, i + 1);
        let t = s.take(i + 1);
        assert(t.drop_last() =~= s.take(i));
        assert(t.last() == s[i]);
        assert(all_hex(s.take(i)));
        lemma_hex_val_nonneg(s.take(i));
        assert(hex_val(s.take(i + 1)) == hex_val(s.take(i)) * 16 + hex_digit_val(s[i]));
        assert(hex_val(s.take(i)) <= hex_val(s.take(i)) * 16) by (nonlinear_arith)
            requires
                hex_val(s.take(i)) >= 0,
        ;
    } else {
        assert(s.take(i) =~= s);
    }
}

} // verus!
