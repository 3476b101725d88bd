//! The directive resolver: given text that begins at a trigger character
//! (`@` or `#`), decide how many characters the directive consumes and what
//! it produces — a terminal escape sequence, a literal character, or
//! nothing.  Every directive consumes exactly 2 or exactly 5 characters.

use vstd::prelude::*;
use crate::chars::{
    all_hex,
    char_from_u32,
    chars_of,
    dec_seq,
    digit_char,
    hex_digit_of,
    hex_digit_val,
    hex_val,
    is_unicode_scalar,
    lemma_hex_val_prefix,
    pad3,
    push_char,
    push_dec,
    string_of,
};

verus! {

/// Whether `c` begins a directive.
pub open spec fn is_trigger(c: char) -> bool {
    c == '@' || c == '#'
}

/// The SGR parameter of the named colour marker `@` + `c`, or -1 when
/// `c` names no colour.  Lower-case letters are the standard foreground
/// colours (30–37), upper-case their bright variants (90–97).
pub open spec fn named_num(c: char) -> int {
    if c == 'd' {
        30
    } else if c == 'r' {
        31
    } else if c == 'g' {
        32
    } else if c == 'y' {
        33
    } else if c == 'b' {
        34
    } else if c == 'm' {
        35
    } else if c == 'c' {
        36
    } else if c == 'w' {
        37
    } else if c == 'D' {
        90
    } else if c == 'R' {
        91
    } else if c == 'G' {
        92
    } else if c == 'Y' {
        93
    } else if c == 'B' {
        94
    } else if c == 'M' {
        95
    } else if c == 'C' {
        96
    } else if c == 'W' {
        97
    } else {
        -1
    }
}

/// The escape sequence `ESC [ n m`, with `n` in unpadded decimal.
pub open spec fn csi_m(n: int) -> Seq<char> {
    seq!['\x1b', '['] + dec_seq(n) + seq!['m']
}

/// The terminal reset escape sequence, `ESC [ 0 m`.
pub open spec fn reset_escape() -> Seq<char> {
    csi_m(0)
}

/// The 256-colour foreground escape sequence, `ESC [ 38 ; 5 ; n m`.
pub open spec fn xterm_escape(n: int) -> Seq<char> {
    seq!['\x1b', '[', '3', '8', ';', '5', ';'] + dec_seq(n) + seq!['m']
}

/// The 24-bit foreground escape sequence, `ESC [ 38 ; 2 ; r ; g ; b m`.
pub open spec fn truecolor_escape(r: int, g: int, b: int) -> Seq<char> {
    seq!['\x1b', '[', '3', '8', ';', '2', ';'] + dec_seq(r) + seq![';'] + dec_seq(g) + seq![';']
        + dec_seq(b) + seq!['m']
}

/// The 256-colour marker `@x` + three-digit index, as markup.
pub open spec fn xterm_marker(n: int) -> Seq<char> {
    seq!['@', 'x'] + pad3(n)
}

/// The escape sequence a named two-character marker maps to: the reset
/// escape for `@u`, otherwise the marker's foreground colour escape.
pub open spec fn named_escape(c: char) -> Seq<char> {
    if c == 'u' {
        reset_escape()
    } else {
        csi_m(named_num(c))
    }
}

/// Whether `rem` begins with one of the seventeen named two-character
/// markers: sixteen colours and the reset marker `@u`.
pub open spec fn is_named_marker(rem: Seq<char>) -> bool {
    rem.len() >= 2 && rem[0] == '@' && (rem[1] == 'u' || named_num(rem[1]) >= 0)
}

/// Whether `rem` begins with a doubled trigger, `@@` or `##`, which
/// escapes the trigger character itself.
pub open spec fn is_escaped_pair(rem: Seq<char>) -> bool {
    rem.len() >= 2 && ((rem[0] == '@' && rem[1] == '@') || (rem[0] == '#' && rem[1] == '#'))
}

/// Whether `rem` begins with `@x` and five characters remain, the shape
/// that claims a 256-colour directive (valid or not).
pub open spec fn is_xterm_head(rem: Seq<char>) -> bool {
    rem.len() >= 5 && rem[0] == '@' && rem[1] == 'x'
}

/// The value of a decimal digit character, or -1 when `c` is none.
pub open spec fn dec_digit_val(c: char) -> int {
    if 0x30 <= c as u32 && c as u32 <= 0x39 {
        c as u32 - 0x30
    } else {
        -1
    }
}

/// The index carried by a 256-colour directive at the head of `rem`.
pub open spec fn xterm_index(rem: Seq<char>) -> int {
    100 * dec_digit_val(rem[2]) + 10 * dec_digit_val(rem[3]) + dec_digit_val(rem[4])
}

/// Whether `rem` begins with a well-formed 256-colour directive: `@x`
/// followed by three decimal digits whose value is at most 255.
pub open spec fn is_xterm_key(rem: Seq<char>) -> bool {
    is_xterm_head(rem) && dec_digit_val(rem[2]) >= 0 && dec_digit_val(rem[3]) >= 0 && dec_digit_val(
        rem[4],
    ) >= 0 && xterm_index(rem) <= 255
}

/// Whether `rem` begins with `#` and five characters remain, the shape
/// that claims a Unicode directive (valid or not).
pub open spec fn is_unicode_head(rem: Seq<char>) -> bool {
    rem.len() >= 5 && rem[0] == '#'
}

/// The code point carried by a Unicode directive at the head of `rem`.
pub open spec fn unicode_val(rem: Seq<char>) -> int {
    hex_val(rem.subrange(1, 5))
}

/// Whether `rem` begins with a decodable Unicode directive: `#` followed
/// by four hexadecimal digits that name a Unicode scalar value.
pub open spec fn is_unicode_lit(rem: Seq<char>) -> bool {
    is_unicode_head(rem) && all_hex(rem.subrange(1, 5)) && is_unicode_scalar(unicode_val(rem))
}

/// How many characters the directive at the head of `rem` consumes:
/// always exactly 2 or exactly 5.
pub open spec fn step_consumed(rem: Seq<char>) -> int {
    if is_named_marker(rem) {
        2
    } else if is_escaped_pair(rem) {
        2
    } else if is_xterm_head(rem) {
        5
    } else if is_unicode_head(rem) {
        5
    } else {
        2
    }
}

/// What the directive at the head of `rem` renders to: an escape
/// sequence, a single literal character, or nothing.
pub open spec fn step_output(rem: Seq<char>) -> Seq<char> {
    if is_named_marker(rem) {
        named_escape(rem[1])
    } else if is_escaped_pair(rem) {
        seq![rem[1]]
    } else if is_xterm_head(rem) {
        if is_xterm_key(rem) {
            xterm_escape(xterm_index(rem))
        } else {
            Seq::empty()
        }
    } else if is_unicode_head(rem) {
        if is_unicode_lit(rem) {
            seq![(unicode_val(rem) as u32) as char]
        } else {
            Seq::empty()
        }
    } else {
        Seq::empty()
    }
}

/// How many glyphs the directive at the head of `rem` contributes to the
/// visible width: 1 for a decoded literal character, 0 for an escape
/// sequence or an invalid directive.
pub open spec fn step_width(rem: Seq<char>) -> int {
    if is_named_marker(rem) {
        0
    } else if is_escaped_pair(rem) {
        1
    } else if is_xterm_head(rem) {
        0
    } else if is_unicode_head(rem) {
        if is_unicode_lit(rem) {
            1
        } else {
            0
        }
    } else {
        0
    }
}

/// What a resolved directive produces: a terminal escape sequence, one
/// literal character, or nothing.
pub enum Resolved {
    Escape(Vec<char>),
    Literal(char),
    Nothing,
}

/// The directive table.  The mapping from markers to escape sequences is
/// fixed for the life of the process and identical for every instance,
/// so it is represented by pure functions rather than by stored data;
/// constructing a `ColorCodes` costs nothing.
pub struct ColorCodes {}

impl ColorCodes {
    /// Builds the directive table.  The table's contents are fixed, so
    /// nothing is stored; the value only grants access to lookups.
    pub fn new() -> (c: ColorCodes) {
        ColorCodes {  }
    }

    /// Resolves the directive at the head of `text`: how many characters
    /// it consumes — exactly 2 or exactly 5 — and its replacement text,
    /// an escape sequence, a single literal character, or the empty
    /// string for an invalid directive.
    pub fn get_code(&self, text: &str) -> (r: (usize, String))
        requires
            text@.len() >= 1,
        ensures
            r.0 as int == step_consumed(text@),
            r.1@ == step_output(text@),
    {
        let cs = chars_of(text);
        proof {
            assert(cs@.skip(0) =~= text@);
        }
        let (consumed, res) = resolve_in(&cs, 0);
        let out = match res {
            Resolved::Escape(v) => string_of(&v),
            Resolved::Literal(c) => {
                let mut s = String::new();
                push_char(&mut s, c);
                s
            },
            Resolved::Nothing => String::new(),
        };
        (consumed, out)
    }
}

/// Decodes a string of hexadecimal digits as a Unicode character.
/// Returns `Some` exactly when the string is non-empty, all its
/// characters are hexadecimal digits, and the value they spell is a
/// Unicode scalar value.
pub fn parse_unicode_code(code: &str) -> (r: Option<char>)
    ensures
        r is Some <==> (code@.len() > 0 && all_hex(code@) && is_unicode_scalar(hex_val(code@))),
        r matches Some(c) ==> c as u32 == hex_val(code@),
{
    let cs = chars_of(code);
    if cs.len() == 0 {
        return None;
    }
    let mut acc: u32 = 0;
    let mut i: usize = 0;
    while i < cs.len()
        invariant
            i <= cs@.len(),
            cs@ == code@,
            all_hex(code@.take(i as int)),
            acc as int == hex_val(code@.take(i as int)),
            acc <= 0x10ffff,
        decreases cs@.len() - i,
    {
        match hex_digit_of(cs[i]) {
            Some(d) => {
                proof {
                    assert(code@.take((i + 1) as int).drop_last() =~= code@.take(i as int));
                    assert(code@.take((i + 1) as int).last() == code@[i as int]);
                }
                let next: u32 = acc * 16 + d as u32;
                if next > 0x10ffff {
                    proof {
                        assert(hex_val(code@.take((i + 1) as int)) == next);
                        if all_hex(code@) {
                            lemma_hex_val_prefix(code@, (i + 1) as int);
                        }
                    }
                    return None;
                }
                acc = next;
            },
            None => {
                return None;
            },
        }
        i = i + 1;
    }
    proof {
        assert(code@.take(cs@.len() as int) =~= code@);
    }
    char_from_u32(acc)
}

/// The SGR parameter for a named colour letter, or 0 when the letter
/// names none (no marker maps to parameter 0 this way; `@u` is handled
/// apart).
fn named_num_of(c: char) -> (r: u8)
    ensures
        named_num(c) >= 0 ==> r as int == named_num(c),
        named_num(c) < 0 ==> r == 0,
{
    match c {
        'd' => 30,
        'r' => 31,
        'g' => 32,
        'y' => 33,
        'b' => 34,
        'm' => 35,
        'c' => 36,
        'w' => 37,
        'D' => 90,
        'R' => 91,
        'G' => 92,
        'Y' => 93,
        'B' => 94,
        'M' => 95,
        'C' => 96,
        'W' => 97,
        _ => 0,
    }
}

/// The characters of the escape sequence `ESC [ n m`.
pub fn csi_m_vec(n: u8) -> (v: Vec<char>)
    ensures
        v@ == csi_m(n as int),
{
    let mut v: Vec<char> = Vec::new();
    v.push('\x1b');
    v.push('[');
    push_dec(&mut v, n);
    v.push('m');
    proof {
        assert(v@ =~= csi_m(n as int));
    }
    v
}

/// The characters of the 256-colour escape sequence `ESC [ 38 ; 5 ; n m`.
pub fn xterm_escape_vec(n: u8) -> (v: Vec<char>)
    ensures
        v@ == xterm_escape(n as int),
{
    let mut v: Vec<char> = Vec::new();
    v.push('\x1b');
    v.push('[');
    v.push('3');
    v.push('8');
    v.push(';');
    v.push('5');
    v.push(';');
    push_dec(&mut v, n);
    v.push('m');
    proof {
        assert(v@ =~= xterm_escape(n as int));
    }
    v
}

/// Resolves the directive at position `at` of `cs`.  Returns how many
/// characters it consumes — exactly 2 or exactly 5 — and what it
/// produces.  A lone trailing trigger consumes 2 even when only one
/// character remains.
pub(crate) fn resolve_in(cs: &Vec<char>, at: usize) -> (r: (usize, Resolved))
    requires
        at < cs@.len(),
    ensures
        r.0 as int == step_consumed(cs@.skip(at as int)),
        r.1 is Escape <==> is_named_marker(cs@.skip(at as int)) || is_xterm_key(
            cs@.skip(at as int),
        ),
        r.1 is Literal <==> is_escaped_pair(cs@.skip(at as int)) || is_unicode_lit(
            cs@.skip(at as int),
        ),
        r.1 matches Resolved::Escape(v) ==> v@ == step_output(cs@.skip(at as int)),
        r.1 matches Resolved::Literal(c) ==> seq![c] == step_output(cs@.skip(at as int)),
        r.1 is Nothing ==> step_output(cs@.skip(at as int)) == Seq::<char>::empty(),
{
    let ghost rem = cs@.skip(at as int);
    proof {
        assert(forall|k: int| 0 <= k < rem.len() ==> rem[k] == cs@[at + k]);
    }
    let n = cs.len();
    let c0 = cs[at];
    if n - at >= 2 {
        let c1 = cs[at + 1];
        if c0 == '@' {
            if c1 == 'u' {
                return (2, Resolved::Escape(csi_m_vec(0)));
            }
            let code = named_num_of(c1);
            if code != 0 {
                return (2, Resolved::Escape(csi_m_vec(code)));
            }
        }
        if (c0 == '@' && c1 == '@') || (c0 == '#' && c1 == '#') {
            return (2, Resolved::Literal(c1));
        }
        if c0 == '@' && c1 == 'x' && n - at >= 5 {
            let d0 = cs[at + 2];
            let d1 = cs[at + 3];
            let d2 = cs[at + 4];
            let v0 = d0 as u32;
            let v1 = d1 as u32;
            let v2 = d2 as u32;
            if 0x30 <= v0 && v0 <= 0x39 && 0x30 <= v1 && v1 <= 0x39 && 0x30 <= v2 && v2 <= 0x39 {
                let idx: u32 = 100 * (v0 - 0x30) + 10 * (v1 - 0x30) + (v2 - 0x30);
                if idx <= 255 {
                    return (5, Resolved::Escape(xterm_escape_vec(idx as u8)));
                }
            }
            return (5, Resolved::Nothing);
        }
        if c0 == '#' && n - at >= 5 {
            let h0 = hex_digit_of(cs[at + 1]);
            let h1 = hex_digit_of(cs[at + 2]);
            let h2 = hex_digit_of(cs[at + 3]);
            let h3 = hex_digit_of(cs[at + 4]);
            if let (Some(a), Some(b), Some(c), Some(d)) = (h0, h1, h2, h3) {
                let v: u32 = ((a as u32) << 12) | ((b as u32) << 8) | ((c as u32) << 4) | (
                d as u32);
                proof {
                    let s1 = rem.subrange(1, 2);
                    let s2 = rem.subrange(1, 3);
                    let s3 = rem.subrange(1, 4);
                    let s4 = rem.subrange(1, 5);
                    assert(s1.drop_last() =~= Seq::<char>::empty());
                    assert(s2.drop_last() =~= s1);
                    assert(s3.drop_last() =~= s2);
                    assert(s4.drop_last() =~= s3);
                    assert(s1.last() == cs@[at + 1]);
                    assert(s2.last() == cs@[at + 2]);
                    assert(s3.last() == cs@[at + 3]);
                    assert(s4.last() == cs@[at + 4]);
                    assert(hex_val(Seq::<char>::empty()) == 0);
                    assert(hex_val(s1) == hex_digit_val(s1.last()));
                    assert(hex_val(s2) == hex_val(s1) * 16 + hex_digit_val(s2.last()));
                    assert(hex_val(s3) == hex_val(s2) * 16 + hex_digit_val(s3.last()));
                    assert(hex_val(s4) == hex_val(s3) * 16 + hex_digit_val(s4.last()));
                    assert(hex_val(s4) == (a as int) * 4096 + (b as int) * 256 + (c as int) * 16
                        + (d as int));
                    assert(a < 16 && b < 16 && c < 16 && d < 16 ==> (((a as u32) << 12) | ((
                    b as u32) << 8) | ((c as u32) << 4) | (d as u32)) == (a as u32) * 4096 + (
                    b as u32) * 256 + (c as u32) * 16 + (d as u32)) by (bit_vector);
                    assert(v as int == hex_val(s4));
                    assert(unicode_val(rem) == hex_val(s4));
                }
                match char_from_u32(v) {
                    Some(ch) => {
                        proof {
                            assert(ch as u32 == unicode_val(rem));
                            vstd::utf8::char_u32_cast(ch, v);
                            assert(ch == (unicode_val(rem) as u32) as char);
                        }
                        return (5, Resolved::Literal(ch));
                    },
                    None => {
                        return (5, Resolved::Nothing);
                    },
                }
            }
            proof {
                let s4 = rem.subrange(1, 5);
                assert(s4[0] == cs@[at + 1] && s4[1] == cs@[at + 2] && s4[2] == cs@[at + 3]
                    && s4[3] == cs@[at + 4]);
            }
            return (5, Resolved::Nothing);
        }
    }
    (2, Resolved::Nothing)
}

/// Every directive consumes exactly 2 or exactly 5 characters, whatever
/// its classification: a scan may never advance by any other amount.
pub proof fn lemma_step_consumed_two_or_five(rem: Seq<char>)
    ensures
        step_consumed(rem) == 2 || step_consumed(rem) == 5,
{
}

/// Distinct decimal digits have distinct digit characters.
proof fn lemma_digit_char_injective(a: int, b: int)
    requires
        0 <= a < 10,
        0 <= b < 10,
        digit_char(a) == digit_char(b),
    ensures
        a == b,
{
    assert(digit_char(a) as u32 == 0x30 + a);
    assert(digit_char(b) as u32 == 0x30 + b);
}

/// Distinct values below 256 have distinct decimal forms.
proof fn lemma_dec_seq_injective(i: int, j: int)
    requires
        0 <= i < 256,
        0 <= j < 256,
        dec_seq(i) == dec_seq(j),
    ensures
        i == j,
{
    assert(dec_seq(i).len() == if i < 10 { 1int } else if i < 100 { 2int } else { 3int });
    assert(dec_seq(j).len() == if j < 10 { 1int } else if j < 100 { 2int } else { 3int });
    assert(dec_seq(i).len() == dec_seq(j).len());
    if i < 10 {
        assert(j < 10);
        assert(dec_seq(i)[0] == digit_char(i));
        assert(dec_seq(j)[0] == digit_char(j));
        assert(dec_seq(i)[0] == dec_seq(j)[0]);
        lemma_digit_char_injective(i, j);
    } else if i < 100 {
        assert(10 <= j < 100);
        assert(dec_seq(i)[0] == dec_seq(j)[0] && dec_seq(i)[1] == dec_seq(j)[1]);
        lemma_digit_char_injective(i / 10, j / 10);
        lemma_digit_char_injective(i % 10, j % 10);
    } else {
        assert(100 <= j);
        assert(dec_seq(i)[0] == dec_seq(j)[0] && dec_seq(i)[1] == dec_seq(j)[1] && dec_seq(i)[2]
            == dec_seq(j)[2]);
        lemma_digit_char_injective(i / 100, j / 100);
        lemma_digit_char_injective((i / 10) % 10, (j / 10) % 10);
        lemma_digit_char_injective(i % 10, j % 10);
    }
}

/// Each 256-colour index has an escape sequence of its own: distinct
/// indices produce distinct escapes.
pub proof fn lemma_xterm_escape_distinct(i: int, j: int)
    requires
        0 <= i < 256,
        0 <= j < 256,
        i != j,
    ensures
        xterm_escape(i) != xterm_escape(j),
{
    if xterm_escape(i) == xterm_escape(j) {
        let a = dec_seq(i);
        let b = dec_seq(j);
        assert(xterm_escape(i).len() == 8 + a.len());
        assert(xterm_escape(j).len() == 8 + b.len());
        assert(a.len() == b.len());
        assert forall|t: int| 0 <= t < a.len() implies a[t] == b[t] by {
            assert(xterm_escape(i)[7 + t] == a[t]);
            assert(xterm_escape(j)[7 + t] == b[t]);
        }
        assert(a =~= b);
        lemma_dec_seq_injective(i, j);
    }
}

/// A well-formed 256-colour marker resolves as a directive of five
/// characters, to the escape of its own index, zero glyphs wide.
pub proof fn lemma_xterm_marker_resolves(n: int, rest: Seq<char>)
    requires
        0 <= n <= 255,
    ensures
        step_consumed(xterm_marker(n) + rest) == 5,
        step_output(xterm_marker(n) + rest) == xterm_escape(n),
        step_width(xterm_marker(n) + rest) == 0,
{
    let rem = xterm_marker(n) + rest;
    assert(rem[0] == '@' && rem[1] == 'x');
    assert(rem[2] == digit_char(n / 100) && rem[3] == digit_char((n / 10) % 10) && rem[4]
        == digit_char(n % 10));
    assert(digit_char(n / 100) as u32 == 0x30 + n / 100);
    assert(digit_char((n / 10) % 10) as u32 == 0x30 + (n / 10) % 10);
    assert(digit_char(n % 10) as u32 == 0x30 + n % 10);
    assert(dec_digit_val(rem[2]) == n / 100);
    assert(dec_digit_val(rem[3]) == (n / 10) % 10);
    assert(dec_digit_val(rem[4]) == n % 10);
    assert(xterm_index(rem) == n);
    assert(is_xterm_key(rem));
}

} // verus!
