//! Pseudorandom gradient effects.  Two endpoint colours are derived by
//! hashing the text together with a clock-based seed; each
//! non-whitespace character is coloured by linear interpolation between
//! the endpoints, and the colour is emitted either as a 256-colour
//! marker (after quantization) or as a raw 24-bit escape.  Whitespace is
//! copied through untouched, a marker is only emitted where it differs
//! from the one before, and a reset closes the text.  Text without
//! non-whitespace characters is returned unchanged.

use vstd::prelude::*;
use vstd::arithmetic::div_mod::{lemma_div_by_multiple, lemma_div_is_ordered, lemma_div_pos_is_pos};
use vstd::arithmetic::mul::{lemma_mul_inequality, lemma_mul_upper_bound};
use vstd::string::StringExecFns;
use vstd::wrapping::u64_specs;
use crate::chars::{
    chars_of,
    dec_seq,
    digit_char,
    ends_with,
    is_whitespace_char,
    is_ws,
    lemma_ends_with_prefix,
    lemma_ws_chars_add,
    lemma_ws_chars_none,
    lemma_ws_chars_singleton,
    push_dec,
    push_pad3,
    string_of,
    ws_chars,
};
use crate::render::{clip_skip, lemma_preprocess_plain, lemma_width_is_preprocess_len, preprocess_spec, width_spec};
use crate::resolver::{
    is_escaped_pair,
    is_named_marker,
    is_trigger,
    is_xterm_head,
    reset_escape,
    step_consumed,
    step_width,
    truecolor_escape,
    xterm_marker,
};

verus! {

/// The FNV-1a offset basis.
pub const FNV_OFFSET: u64 = 0xcbf29ce484222325;

/// The FNV-1a prime.
pub const FNV_PRIME: u64 = 0x100000001b3;

/// Folded into the seed to decorrelate the second endpoint colour from
/// the first.
pub const ENDPOINT_SALT: u64 = 0x9e3779b97f4a7c15;

/// One FNV-1a round: fold the value `x` into the state `h`.
pub open spec fn fnv_step(h: u64, x: u64) -> u64 {
    u64_specs::wrapping_mul(h ^ x, FNV_PRIME)
}

/// The FNV-1a state after folding in the characters of `s` from
/// position `i` on, starting from state `h`.
pub open spec fn fnv_from(s: Seq<char>, i: int, h: u64) -> u64
    decreases s.len() - i,
{
    if i < 0 || i >= s.len() {
        h
    } else {
        fnv_from(s, i + 1, fnv_step(h, (s[i] as u32) as u64))
    }
}

/// The hash a gradient derives from its text and seed.
pub open spec fn text_hash(s: Seq<char>, seed: u64) -> u64 {
    fnv_from(s, 0, FNV_OFFSET ^ seed)
}

/// An 8-bit-per-channel red, green, blue colour.
#[derive(Clone, Copy, PartialEq, Eq, Structural)]
pub struct Rgb {
    pub r: u8,
    pub g: u8,
    pub b: u8,
}

/// The colour packed into the low three bytes of `h`.
pub open spec fn rgb_of_hash(h: u64) -> Rgb {
    Rgb { r: ((h >> 16) & 0xff) as u8, g: ((h >> 8) & 0xff) as u8, b: (h & 0xff) as u8 }
}

/// The first gradient endpoint for `s` under `seed`.
pub open spec fn start_color(s: Seq<char>, seed: u64) -> Rgb {
    rgb_of_hash(text_hash(s, seed))
}

/// The second gradient endpoint for `s` under `seed`.
pub open spec fn end_color(s: Seq<char>, seed: u64) -> Rgb {
    rgb_of_hash(text_hash(s, seed ^ ENDPOINT_SALT))
}

/// How many characters of `s` before position `i` are not whitespace.
pub open spec fn nonws_upto(s: Seq<char>, i: int) -> int
    decreases i,
{
    if i <= 0 {
        0
    } else {
        nonws_upto(s, i - 1) + if i - 1 < s.len() && !is_ws(s[i - 1]) {
            1int
        } else {
            0int
        }
    }
}

/// How many characters of `s` are not whitespace.
pub open spec fn nonws_count(s: Seq<char>) -> int {
    nonws_upto(s, s.len() as int)
}

/// The non-whitespace count grows with the prefix.
pub proof fn lemma_nonws_upto_le(s: Seq<char>, i: int, j: int)
    requires
        i <= j,
    ensures
        nonws_upto(s, i) <= nonws_upto(s, j),
    decreases j - i,
{
    if i < j {
        lemma_nonws_upto_le(s, i, j - 1);
    }
}

/// At a non-whitespace position, the characters before it number fewer
/// than the non-whitespace characters of the whole text.
pub proof fn lemma_nonws_at(s: Seq<char>, i: int)
    requires
        0 <= i < s.len(),
        !is_ws(s[i]),
    ensures
        nonws_upto(s, i) < nonws_count(s),
{
    assert(nonws_upto(s, i + 1) == nonws_upto(s, i) + 1);
    lemma_nonws_upto_le(s, i + 1, s.len() as int);
}

/// Linear interpolation between the channel values `a` and `b`, at step
/// `k` of `n` steps: floor-rounded, and `a` itself when there is a
/// single step.
pub open spec fn lerp(a: u8, b: u8, k: int, n: int) -> int {
    if n <= 1 {
        a as int
    } else if b >= a {
        a + (b - a) * k / (n - 1)
    } else {
        a - (a - b) * k / (n - 1)
    }
}

/// A floor-divided fraction of a non-negative value stays between zero
/// and that value.
proof fn lemma_mul_div_le(d: int, k: int, m: int)
    requires
        0 <= d,
        0 <= k <= m,
        1 <= m,
    ensures
        0 <= d * k / m <= d,
{
    lemma_mul_inequality(k, m, d);
    assert(k * d <= m * d);
    assert(d * k <= d * m) by (nonlinear_arith)
        requires
            k * d <= m * d,
    ;
    lemma_div_is_ordered(d * k, d * m, m);
    lemma_div_by_multiple(d, m);
    if d * k > 0 {
        lemma_div_pos_is_pos(d * k, m);
    } else {
        assert(d * k == 0 || d * k < 0);
        assert(d * k >= 0) by (nonlinear_arith)
            requires
                d >= 0 && k >= 0,
        ;
    }
}

/// The interpolated value lies between its endpoints.
pub proof fn lemma_lerp_bounds(a: u8, b: u8, k: int, n: int)
    requires
        0 <= k,
        n <= 1 || k <= n - 1,
    ensures
        0 <= lerp(a, b, k, n) <= 255,
{
    if n <= 1 {
    } else if b >= a {
        lemma_mul_div_le((b - a) as int, k, n - 1);
    } else {
        lemma_mul_div_le((a - b) as int, k, n - 1);
    }
}

/// Executable form of [`lerp`].
fn lerp_channel(a: u8, b: u8, k: usize, n: usize) -> (r: u8)
    requires
        1 <= n,
        k <= n - 1,
    ensures
        r as int == lerp(a, b, k as int, n as int),
{
    if n <= 1 {
        return a;
    }
    proof {
        lemma_lerp_bounds(a, b, k as int, n as int);
    }
    if b >= a {
        let d = (b - a) as u128;
        proof {
            lemma_mul_upper_bound(d as int, 255, k as int, 0xffff_ffff_ffff_ffff);
        }
        let q = (d * (k as u128)) / ((n - 1) as u128);
        proof {
            lemma_mul_div_le(d as int, k as int, (n - 1) as int);
        }
        a + (q as u8)
    } else {
        let d = (a - b) as u128;
        proof {
            lemma_mul_upper_bound(d as int, 255, k as int, 0xffff_ffff_ffff_ffff);
        }
        let q = (d * (k as u128)) / ((n - 1) as u128);
        proof {
            lemma_mul_div_le(d as int, k as int, (n - 1) as int);
        }
        a - (q as u8)
    }
}

/// The greatest of three channel values.
pub open spec fn max3(r: int, g: int, b: int) -> int {
    if r >= g && r >= b {
        r
    } else if g >= b {
        g
    } else {
        b
    }
}

/// The least of three channel values.
pub open spec fn min3(r: int, g: int, b: int) -> int {
    if r <= g && r <= b {
        r
    } else if g <= b {
        g
    } else {
        b
    }
}

/// A channel value scaled onto the six-step cube axis, rounding to the
/// nearest step.
pub open spec fn cube_step(v: int) -> int {
    (10 * v + 255) / 510
}

/// The 256-colour index nearest an RGB colour.  A colour whose channels
/// spread less than 20 counts as grey and maps onto the 24-step grey
/// ramp (indices 232–255) by its channel average; any other colour maps
/// onto the 6×6×6 colour cube (indices 16–231), each channel scaled to
/// six steps independently.
pub open spec fn rgb_to_xterm_spec(r: int, g: int, b: int) -> int {
    if max3(r, g, b) - min3(r, g, b) < 20 {
        let gray = (r + g + b) / 3;
        232 + (if gray < 8 {
            0
        } else if gray > 238 {
            23
        } else {
            (gray - 8) / 10
        })
    } else {
        16 + 36 * cube_step(r) + 6 * cube_step(g) + cube_step(b)
    }
}

/// Quantizes an RGB colour to the nearest 256-colour index, executable
/// form of [`rgb_to_xterm_spec`].
pub fn rgb_to_xterm(r: u8, g: u8, b: u8) -> (x: u8)
    ensures
        x as int == rgb_to_xterm_spec(r as int, g as int, b as int),
{
    let mx = if r >= g {
        if r >= b {
            r
        } else {
            b
        }
    } else {
        if g >= b {
            g
        } else {
            b
        }
    };
    let mn = if r <= g {
        if r <= b {
            r
        } else {
            b
        }
    } else {
        if g <= b {
            g
        } else {
            b
        }
    };
    if mx - mn < 20 {
        let gray = ((r as u16) + (g as u16) + (b as u16)) / 3;
        let gi: u16 = if gray < 8 {
            0
        } else if gray > 238 {
            23
        } else {
            (gray - 8) / 10
        };
        (232 + gi) as u8
    } else {
        let r6 = cube_of(r);
        let g6 = cube_of(g);
        let b6 = cube_of(b);
        16 + 36 * r6 + 6 * g6 + b6
    }
}

/// A channel value on the six-step cube axis, executable form of
/// [`cube_step`].
fn cube_of(v: u8) -> (c: u8)
    ensures
        c as int == cube_step(v as int),
        c <= 5,
{
    let x: u16 = 10 * (v as u16) + 255;
    (x / 510) as u8
}

/// The 256-colour index the gradient assigns to position `i` of `s`.
pub open spec fn grad_xterm_at(s: Seq<char>, st: Rgb, en: Rgb, i: int) -> int {
    let k = nonws_upto(s, i);
    let n = nonws_count(s);
    rgb_to_xterm_spec(lerp(st.r, en.r, k, n), lerp(st.g, en.g, k, n), lerp(st.b, en.b, k, n))
}

/// The 24-bit colour the gradient assigns to position `i` of `s`.
pub open spec fn grad_rgb_at(s: Seq<char>, st: Rgb, en: Rgb, i: int) -> Rgb {
    let k = nonws_upto(s, i);
    let n = nonws_count(s);
    Rgb {
        r: lerp(st.r, en.r, k, n) as u8,
        g: lerp(st.g, en.g, k, n) as u8,
        b: lerp(st.b, en.b, k, n) as u8,
    }
}

/// The markup the 256-colour gradient produces from position `i` of `s`
/// on, where `last` is the index most recently emitted, or -1 for none:
/// whitespace is copied, every other character gets the marker of its
/// interpolated colour unless that marker would repeat, and a reset
/// marker closes the text.
pub open spec fn xg_tail(s: Seq<char>, st: Rgb, en: Rgb, i: int, last: int) -> Seq<char>
    decreases s.len() - i,
{
    if i < 0 || i >= s.len() {
        seq!['@', 'u']
    } else if is_ws(s[i]) {
        seq![s[i]] + xg_tail(s, st, en, i + 1, last)
    } else {
        let col = grad_xterm_at(s, st, en, i);
        (if col == last {
            Seq::<char>::empty()
        } else {
            xterm_marker(col)
        }) + seq![s[i]] + xg_tail(s, st, en, i + 1, col)
    }
}

/// The full 256-colour gradient markup for `s` under `seed`: the text
/// itself when it has no non-whitespace character.
pub open spec fn xterm_gradient_spec(s: Seq<char>, seed: u64) -> Seq<char> {
    if nonws_count(s) == 0 {
        s
    } else {
        xg_tail(s, start_color(s, seed), end_color(s, seed), 0, -1)
    }
}

/// The raw escapes the 24-bit gradient produces from position `i` of
/// `s` on, where `last` is the colour most recently emitted: whitespace
/// is copied, every other character gets the escape of its interpolated
/// colour unless that escape would repeat, and a raw reset escape closes
/// the text.
pub open spec fn tc_tail(s: Seq<char>, st: Rgb, en: Rgb, i: int, last: Option<Rgb>) -> Seq<char>
    decreases s.len() - i,
{
    if i < 0 || i >= s.len() {
        reset_escape()
    } else if is_ws(s[i]) {
        seq![s[i]] + tc_tail(s, st, en, i + 1, last)
    } else {
        let c = grad_rgb_at(s, st, en, i);
        (if last == Some(c) {
            Seq::<char>::empty()
        } else {
            truecolor_escape(c.r as int, c.g as int, c.b as int)
        }) + seq![s[i]] + tc_tail(s, st, en, i + 1, Some(c))
    }
}

/// The full 24-bit gradient output for `s` under `seed`: the text
/// itself when it has no non-whitespace character.
pub open spec fn truecolor_gradient_spec(s: Seq<char>, seed: u64) -> Seq<char> {
    if nonws_count(s) == 0 {
        s
    } else {
        tc_tail(s, start_color(s, seed), end_color(s, seed), 0, Option::None)
    }
}

/// Relies on the system clock, `std::time::SystemTime::now`: a
/// nanosecond reading used only to vary the pseudorandom gradients
/// between calls.  Nothing is promised of the value.
#[verifier::external_body]
fn clock_seed() -> u64 {
    match std::time::SystemTime::now().duration_since(std::time::UNIX_EPOCH) {
        Ok(d) => d.as_nanos() as u64,
        Err(_) => 0,
    }
}

/// The seeded hash of the characters of `cs`.
fn text_hash_exec(cs: &Vec<char>, seed: u64) -> (h: u64)
    ensures
        h == text_hash(cs@, seed),
{
    let mut h: u64 = FNV_OFFSET ^ seed;
    let mut i: usize = 0;
    while i < cs.len()
        invariant
            i <= cs@.len(),
            text_hash(cs@, seed) == fnv_from(cs@, i as int, h),
        decreases cs@.len() - i,
    {
        let c = cs[i];
        h = (h ^ ((c as u32) as u64)).wrapping_mul(FNV_PRIME);
        i = i + 1;
    }
    h
}

/// The colour packed into the low three bytes of `h`, executable form
/// of [`rgb_of_hash`].
fn rgb_from_hash(h: u64) -> (c: Rgb)
    ensures
        c == rgb_of_hash(h),
{
    proof {
        assert(((h >> 16) & 0xff) < 256 && ((h >> 8) & 0xff) < 256 && (h & 0xff) < 256)
            by (bit_vector);
    }
    Rgb { r: ((h >> 16) & 0xff) as u8, g: ((h >> 8) & 0xff) as u8, b: (h & 0xff) as u8 }
}

/// How many characters of `cs` are not whitespace.
fn count_nonws(cs: &Vec<char>) -> (total: usize)
    ensures
        total as int == nonws_count(cs@),
{
    let mut total: usize = 0;
    let mut i: usize = 0;
    while i < cs.len()
        invariant
            i <= cs@.len(),
            total as int == nonws_upto(cs@, i as int),
            total <= i,
        decreases cs@.len() - i,
    {
        if !is_whitespace_char(cs[i]) {
            total = total + 1;
        }
        i = i + 1;
    }
    total
}

/// The 256-colour gradient over `text` for a given `seed`.  The text
/// comes back unchanged when it holds no non-whitespace character.
pub fn xterm_gradient_with_seed(text: &str, seed: u64) -> (r: String)
    ensures
        r@ == xterm_gradient_spec(text@, seed),
{
    let cs = chars_of(text);
    let ghost s = text@;
    let total = count_nonws(&cs);
    if total == 0 {
        return String::from_str(text);
    }
    let h1 = text_hash_exec(&cs, seed);
    let h2 = text_hash_exec(&cs, seed ^ ENDPOINT_SALT);
    let st = rgb_from_hash(h1);
    let en = rgb_from_hash(h2);
    let mut out: Vec<char> = Vec::new();
    let mut k: usize = 0;
    let mut last: i32 = -1;
    let mut i: usize = 0;
    proof {
        assert(Seq::<char>::empty() + xg_tail(s, st, en, 0, -1) =~= xg_tail(s, st, en, 0, -1));
    }
    while i < cs.len()
        invariant
            cs@ == s,
            i <= s.len(),
            st == start_color(s, seed),
            en == end_color(s, seed),
            total as int == nonws_count(s),
            1 <= total,
            k as int == nonws_upto(s, i as int),
            k <= i,
            -1 <= last <= 255,
            xg_tail(s, st, en, 0, -1) == out@ + xg_tail(s, st, en, i as int, last as int),
        decreases s.len() - i,
    {
        let ghost prev = out@;
        let c = cs[i];
        if is_whitespace_char(c) {
            out.push(c);
            proof {
                assert(out@ =~= prev + seq![s[i as int]]);
                assert(xg_tail(s, st, en, 0, -1) =~= out@ + xg_tail(
                    s,
                    st,
                    en,
                    (i + 1) as int,
                    last as int,
                ));
            }
        } else {
            proof {
                lemma_nonws_at(s, i as int);
            }
            let r8 = lerp_channel(st.r, en.r, k, total);
            let g8 = lerp_channel(st.g, en.g, k, total);
            let b8 = lerp_channel(st.b, en.b, k, total);
            let col = rgb_to_xterm(r8, g8, b8);
            proof {
                assert(col as int == grad_xterm_at(s, st, en, i as int));
            }
            if (col as i32) != last {
                out.push('@');
                out.push('x');
                push_pad3(&mut out, col);
                proof {
                    assert(out@ =~= prev + xterm_marker(col as int));
                }
            }
            out.push(c);
            proof {
                if col as int == last as int {
                    assert(out@ =~= prev + Seq::<char>::empty() + seq![s[i as int]]);
                } else {
                    assert(out@ =~= prev + xterm_marker(col as int) + seq![s[i as int]]);
                }
                assert(xg_tail(s, st, en, 0, -1) =~= out@ + xg_tail(
                    s,
                    st,
                    en,
                    (i + 1) as int,
                    col as int,
                ));
            }
            last = col as i32;
            k = k + 1;
        }
        i = i + 1;
    }
    out.push('@');
    out.push('u');
    proof {
        assert(out@ =~= xg_tail(s, st, en, 0, -1));
    }
    string_of(&out)
}

/// The 24-bit gradient over `text` for a given `seed`.  The text comes
/// back unchanged when it holds no non-whitespace character.
pub fn truecolor_gradient_with_seed(text: &str, seed: u64) -> (r: String)
    ensures
        r@ == truecolor_gradient_spec(text@, seed),
{
    let cs = chars_of(text);
    let ghost s = text@;
    let total = count_nonws(&cs);
    if total == 0 {
        return String::from_str(text);
    }
    let h1 = text_hash_exec(&cs, seed);
    let h2 = text_hash_exec(&cs, seed ^ ENDPOINT_SALT);
    let st = rgb_from_hash(h1);
    let en = rgb_from_hash(h2);
    let mut out: Vec<char> = Vec::new();
    let mut k: usize = 0;
    let mut last: Option<Rgb> = None;
    let mut i: usize = 0;
    proof {
        assert(Seq::<char>::empty() + tc_tail(s, st, en, 0, Option::None) =~= tc_tail(
            s,
            st,
            en,
            0,
            Option::None,
        ));
    }
    while i < cs.len()
        invariant
            cs@ == s,
            i <= s.len(),
            st == start_color(s, seed),
            en == end_color(s, seed),
            total as int == nonws_count(s),
            1 <= total,
            k as int == nonws_upto(s, i as int),
            k <= i,
            tc_tail(s, st, en, 0, Option::None) == out@ + tc_tail(s, st, en, i as int, last),
        decreases s.len() - i,
    {
        let ghost prev = out@;
        let c = cs[i];
        if is_whitespace_char(c) {
            out.push(c);
            proof {
                assert(out@ =~= prev + seq![s[i as int]]);
                assert(tc_tail(s, st, en, 0, Option::None) =~= out@ + tc_tail(
                    s,
                    st,
                    en,
                    (i + 1) as int,
                    last,
                ));
            }
        } else {
            proof {
                lemma_nonws_at(s, i as int);
                lemma_lerp_bounds(st.r, en.r, k as int, total as int);
                lemma_lerp_bounds(st.g, en.g, k as int, total as int);
                lemma_lerp_bounds(st.b, en.b, k as int, total as int);
            }
            let r8 = lerp_channel(st.r, en.r, k, total);
            let g8 = lerp_channel(st.g, en.g, k, total);
            let b8 = lerp_channel(st.b, en.b, k, total);
            let col = Rgb { r: r8, g: g8, b: b8 };
            proof {
                assert(col == grad_rgb_at(s, st, en, i as int));
            }
            let emit = match last {
                Some(p) => !(p == col),
                None => true,
            };
            if emit {
                push_truecolor_escape(&mut out, col);
                proof {
                    assert(out@ =~= prev + truecolor_escape(
                        col.r as int,
                        col.g as int,
                        col.b as int,
                    ));
                }
            }
            out.push(c);
            proof {
                if last == Some(col) {
                    assert(out@ =~= prev + Seq::<char>::empty() + seq![s[i as int]]);
                } else {
                    assert(out@ =~= prev + truecolor_escape(col.r as int, col.g as int, col.b as int)
                        + seq![s[i as int]]);
                }
                assert(tc_tail(s, st, en, 0, Option::None) =~= out@ + tc_tail(
                    s,
                    st,
                    en,
                    (i + 1) as int,
                    Some(col),
                ));
            }
            last = Some(col);
            k = k + 1;
        }
        i = i + 1;
    }
    out.push('\x1b');
    out.push('[');
    out.push('0');
    out.push('m');
    proof {
        assert(out@ =~= tc_tail(s, st, en, 0, Option::None));
    }
    string_of(&out)
}

/// Appends the raw 24-bit foreground escape for `c` to `v`.
fn push_truecolor_escape(v: &mut Vec<char>, c: Rgb)
    ensures
        final(v)@ == old(v)@ + truecolor_escape(c.r as int, c.g as int, c.b as int),
{
    v.push('\x1b');
    v.push('[');
    v.push('3');
    v.push('8');
    v.push(';');
    v.push('2');
    v.push(';');
    push_dec(v, c.r);
    v.push(';');
    push_dec(v, c.g);
    v.push(';');
    push_dec(v, c.b);
    v.push('m');
    proof {
        assert(v@ =~= old(v)@ + truecolor_escape(c.r as int, c.g as int, c.b as int));
    }
}

/// Quantization respects the split between grey and colour: a colour
/// whose channels spread less than 20 lands on the grey ramp, indices
/// 232 to 255; any other colour lands in the colour cube, indices 16 to
/// 231.
pub proof fn lemma_quantize_ranges(r: int, g: int, b: int)
    requires
        0 <= r <= 255,
        0 <= g <= 255,
        0 <= b <= 255,
    ensures
        max3(r, g, b) - min3(r, g, b) < 20 ==> 232 <= rgb_to_xterm_spec(r, g, b) <= 255,
        max3(r, g, b) - min3(r, g, b) >= 20 ==> 16 <= rgb_to_xterm_spec(r, g, b) <= 231,
{
    if max3(r, g, b) - min3(r, g, b) < 20 {
        let gray = (r + g + b) / 3;
        assert(0 <= gray <= 255);
        if 8 <= gray <= 238 {
            assert(0 <= (gray - 8) / 10 <= 23);
        }
    } else {
        assert(0 <= cube_step(r) <= 5);
        assert(0 <= cube_step(g) <= 5);
        assert(0 <= cube_step(b) <= 5);
    }
}

/// The gradient's colour index for a non-whitespace position is a
/// 256-colour index at least 16: the marker it emits is well formed.
proof fn lemma_grad_col_range(s: Seq<char>, st: Rgb, en: Rgb, i: int)
    requires
        0 <= i < s.len(),
        !is_ws(s[i]),
    ensures
        16 <= grad_xterm_at(s, st, en, i) <= 255,
{
    let k = nonws_upto(s, i);
    let n = nonws_count(s);
    lemma_nonws_upto_le(s, 0, i);
    lemma_nonws_at(s, i);
    lemma_lerp_bounds(st.r, en.r, k, n);
    lemma_lerp_bounds(st.g, en.g, k, n);
    lemma_lerp_bounds(st.b, en.b, k, n);
    lemma_quantize_ranges(lerp(st.r, en.r, k, n), lerp(st.g, en.g, k, n), lerp(st.b, en.b, k, n));
}

/// No character of a decimal numeral below 256 is whitespace.
proof fn lemma_dec_seq_not_ws(n: int)
    requires
        0 <= n < 256,
    ensures
        ws_chars(dec_seq(n)) == Seq::<char>::empty(),
{
    assert(forall|t: int| 0 <= t < dec_seq(n).len() ==> !is_ws(#[trigger] dec_seq(n)[t])) by {
        assert(digit_char(n / 100) as u32 == 0x30 + n / 100);
        assert(digit_char((n / 10) % 10) as u32 == 0x30 + (n / 10) % 10);
        assert(digit_char(n % 10) as u32 == 0x30 + n % 10);
        assert(digit_char(n / 10) as u32 == 0x30 + n / 10);
        assert(digit_char(n) as u32 == 0x30 + n) by {
            if n >= 10 {
            }
        }
    }
    lemma_ws_chars_none(dec_seq(n));
}

/// No character of a 256-colour marker is whitespace.
proof fn lemma_xterm_marker_not_ws(n: int)
    requires
        0 <= n < 256,
    ensures
        ws_chars(xterm_marker(n)) == Seq::<char>::empty(),
{
    assert(forall|t: int| 0 <= t < xterm_marker(n).len() ==> !is_ws(
        #[trigger] xterm_marker(n)[t],
    )) by {
        assert(xterm_marker(n)[0] == '@' && xterm_marker(n)[1] == 'x');
        assert(xterm_marker(n)[2] == digit_char(n / 100));
        assert(xterm_marker(n)[3] == digit_char((n / 10) % 10));
        assert(xterm_marker(n)[4] == digit_char(n % 10));
        assert(digit_char(n / 100) as u32 == 0x30 + n / 100);
        assert(digit_char((n / 10) % 10) as u32 == 0x30 + (n / 10) % 10);
        assert(digit_char(n % 10) as u32 == 0x30 + n % 10);
    }
    lemma_ws_chars_none(xterm_marker(n));
}

/// No character of a 24-bit colour escape is whitespace.
proof fn lemma_truecolor_escape_not_ws(r: int, g: int, b: int)
    requires
        0 <= r < 256,
        0 <= g < 256,
        0 <= b < 256,
    ensures
        ws_chars(truecolor_escape(r, g, b)) == Seq::<char>::empty(),
{
    let head = seq!['\x1b', '[', '3', '8', ';', '2', ';'];
    let semi = seq![';'];
    let tail = seq!['m'];
    assert(forall|t: int| 0 <= t < head.len() ==> !is_ws(#[trigger] head[t])) by {
        assert(head[0] == '\x1b' && head[1] == '[' && head[2] == '3' && head[3] == '8' && head[4]
            == ';' && head[5] == '2' && head[6] == ';');
    }
    lemma_ws_chars_none(head);
    assert(semi[0] == ';' && tail[0] == 'm');
    lemma_ws_chars_none(semi);
    lemma_ws_chars_none(tail);
    lemma_dec_seq_not_ws(r);
    lemma_dec_seq_not_ws(g);
    lemma_dec_seq_not_ws(b);
    lemma_ws_chars_add(head, dec_seq(r));
    lemma_ws_chars_add(head + dec_seq(r), semi);
    lemma_ws_chars_add(head + dec_seq(r) + semi, dec_seq(g));
    lemma_ws_chars_add(head + dec_seq(r) + semi + dec_seq(g), semi);
    lemma_ws_chars_add(head + dec_seq(r) + semi + dec_seq(g) + semi, dec_seq(b));
    lemma_ws_chars_add(head + dec_seq(r) + semi + dec_seq(g) + semi + dec_seq(b), tail);
    assert(ws_chars(truecolor_escape(r, g, b)) =~= Seq::<char>::empty());
}

/// The 256-colour gradient tail always closes with the reset marker.
proof fn lemma_xg_tail_reset(s: Seq<char>, st: Rgb, en: Rgb, i: int, last: int)
    ensures
        ends_with(xg_tail(s, st, en, i, last), seq!['@', 'u']),
    decreases s.len() - i,
{
    let reset = seq!['@', 'u'];
    if i < 0 || i >= s.len() {
        assert(reset.skip(0) =~= reset);
    } else if is_ws(s[i]) {
        lemma_xg_tail_reset(s, st, en, i + 1, last);
        lemma_ends_with_prefix(seq![s[i]], xg_tail(s, st, en, i + 1, last), reset);
    } else {
        let col = grad_xterm_at(s, st, en, i);
        let head = (if col == last {
            Seq::<char>::empty()
        } else {
            xterm_marker(col)
        }) + seq![s[i]];
        lemma_xg_tail_reset(s, st, en, i + 1, col);
        lemma_ends_with_prefix(head, xg_tail(s, st, en, i + 1, col), reset);
        assert(head + xg_tail(s, st, en, i + 1, col) =~= xg_tail(s, st, en, i, last));
    }
}

/// The 24-bit gradient tail always closes with the raw reset escape.
proof fn lemma_tc_tail_reset(s: Seq<char>, st: Rgb, en: Rgb, i: int, last: Option<Rgb>)
    ensures
        ends_with(tc_tail(s, st, en, i, last), reset_escape()),
    decreases s.len() - i,
{
    let reset = reset_escape();
    if i < 0 || i >= s.len() {
        assert(reset.skip(0) =~= reset);
    } else if is_ws(s[i]) {
        lemma_tc_tail_reset(s, st, en, i + 1, last);
        lemma_ends_with_prefix(seq![s[i]], tc_tail(s, st, en, i + 1, last), reset);
    } else {
        let c = grad_rgb_at(s, st, en, i);
        let head = (if last == Some(c) {
            Seq::<char>::empty()
        } else {
            truecolor_escape(c.r as int, c.g as int, c.b as int)
        }) + seq![s[i]];
        lemma_tc_tail_reset(s, st, en, i + 1, Some(c));
        lemma_ends_with_prefix(head, tc_tail(s, st, en, i + 1, Some(c)), reset);
        assert(head + tc_tail(s, st, en, i + 1, Some(c)) =~= tc_tail(s, st, en, i, last));
    }
}

/// The 256-colour gradient tail keeps the whitespace of the text it
/// still has to cover, verbatim and in order.
proof fn lemma_xg_tail_ws(s: Seq<char>, st: Rgb, en: Rgb, i: int, last: int)
    requires
        0 <= i <= s.len(),
    ensures
        ws_chars(xg_tail(s, st, en, i, last)) == ws_chars(s.skip(i)),
    decreases s.len() - i,
{
    if i >= s.len() {
        let reset = seq!['@', 'u'];
        assert(forall|t: int| 0 <= t < reset.len() ==> !is_ws(#[trigger] reset[t])) by {
            assert(reset[0] == '@' && reset[1] == 'u');
        }
        lemma_ws_chars_none(reset);
        assert(s.skip(i) =~= Seq::<char>::empty());
    } else if is_ws(s[i]) {
        lemma_xg_tail_ws(s, st, en, i + 1, last);
        lemma_ws_chars_add(seq![s[i]], xg_tail(s, st, en, i + 1, last));
        lemma_ws_chars_singleton(s[i]);
        assert(s.skip(i) =~= seq![s[i]] + s.skip(i + 1));
        lemma_ws_chars_add(seq![s[i]], s.skip(i + 1));
    } else {
        let col = grad_xterm_at(s, st, en, i);
        let marker = if col == last {
            Seq::<char>::empty()
        } else {
            xterm_marker(col)
        };
        lemma_grad_col_range(s, st, en, i);
        if col != last {
            lemma_xterm_marker_not_ws(col);
        }
        lemma_xg_tail_ws(s, st, en, i + 1, col);
        lemma_ws_chars_add(marker, seq![s[i]]);
        lemma_ws_chars_add(marker + seq![s[i]], xg_tail(s, st, en, i + 1, col));
        lemma_ws_chars_singleton(s[i]);
        assert(s.skip(i) =~= seq![s[i]] + s.skip(i + 1));
        lemma_ws_chars_add(seq![s[i]], s.skip(i + 1));
        assert(ws_chars(xg_tail(s, st, en, i, last)) =~= ws_chars(s.skip(i)));
    }
}

/// The 24-bit gradient tail keeps the whitespace of the text it still
/// has to cover, verbatim and in order.
proof fn lemma_tc_tail_ws(s: Seq<char>, st: Rgb, en: Rgb, i: int, last: Option<Rgb>)
    requires
        0 <= i <= s.len(),
    ensures
        ws_chars(tc_tail(s, st, en, i, last)) == ws_chars(s.skip(i)),
    decreases s.len() - i,
{
    if i >= s.len() {
        let reset = reset_escape();
        assert(forall|t: int| 0 <= t < reset.len() ==> !is_ws(#[trigger] reset[t])) by {
            assert(reset[0] == '\x1b' && reset[1] == '[' && reset[2] == '0' && reset[3] == 'm');
        }
        lemma_ws_chars_none(reset);
        assert(s.skip(i) =~= Seq::<char>::empty());
    } else if is_ws(s[i]) {
        lemma_tc_tail_ws(s, st, en, i + 1, last);
        lemma_ws_chars_add(seq![s[i]], tc_tail(s, st, en, i + 1, last));
        lemma_ws_chars_singleton(s[i]);
        assert(s.skip(i) =~= seq![s[i]] + s.skip(i + 1));
        lemma_ws_chars_add(seq![s[i]], s.skip(i + 1));
    } else {
        let c = grad_rgb_at(s, st, en, i);
        let esc = if last == Some(c) {
            Seq::<char>::empty()
        } else {
            truecolor_escape(c.r as int, c.g as int, c.b as int)
        };
        if last != Some(c) {
            lemma_truecolor_escape_not_ws(c.r as int, c.g as int, c.b as int);
        }
        lemma_tc_tail_ws(s, st, en, i + 1, Some(c));
        lemma_ws_chars_add(esc, seq![s[i]]);
        lemma_ws_chars_add(esc + seq![s[i]], tc_tail(s, st, en, i + 1, Some(c)));
        lemma_ws_chars_singleton(s[i]);
        assert(s.skip(i) =~= seq![s[i]] + s.skip(i + 1));
        lemma_ws_chars_add(seq![s[i]], s.skip(i + 1));
        assert(ws_chars(tc_tail(s, st, en, i, last)) =~= ws_chars(s.skip(i)));
    }
}

/// Whatever its seed, the 256-colour gradient keeps every whitespace
/// character verbatim; it closes with the reset marker whenever the
/// text has any non-whitespace character; and whitespace-only text —
/// the empty text included — comes back unchanged, with no reset.
pub proof fn lemma_xterm_gradient_shape(s: Seq<char>, seed: u64)
    ensures
        nonws_count(s) == 0 ==> xterm_gradient_spec(s, seed) == s,
        nonws_count(s) != 0 ==> ends_with(xterm_gradient_spec(s, seed), seq!['@', 'u']),
        ws_chars(xterm_gradient_spec(s, seed)) == ws_chars(s),
{
    if nonws_count(s) != 0 {
        let st = start_color(s, seed);
        let en = end_color(s, seed);
        lemma_xg_tail_reset(s, st, en, 0, -1);
        lemma_xg_tail_ws(s, st, en, 0, -1);
        assert(s.skip(0) =~= s);
    }
}

/// Whatever its seed, the 24-bit gradient keeps every whitespace
/// character verbatim; it closes with the raw reset escape whenever the
/// text has any non-whitespace character; and whitespace-only text —
/// the empty text included — comes back unchanged, with no reset.
pub proof fn lemma_truecolor_gradient_shape(s: Seq<char>, seed: u64)
    ensures
        nonws_count(s) == 0 ==> truecolor_gradient_spec(s, seed) == s,
        nonws_count(s) != 0 ==> ends_with(truecolor_gradient_spec(s, seed), reset_escape()),
        ws_chars(truecolor_gradient_spec(s, seed)) == ws_chars(s),
{
    if nonws_count(s) != 0 {
        let st = start_color(s, seed);
        let en = end_color(s, seed);
        lemma_tc_tail_reset(s, st, en, 0, Option::None);
        lemma_tc_tail_ws(s, st, en, 0, Option::None);
        assert(s.skip(0) =~= s);
    }
}

/// The markup the 256-colour gradient emits past position `i` is
/// zero-width: measured, it reads as the remaining text alone.
proof fn lemma_xg_tail_preprocess(s: Seq<char>, st: Rgb, en: Rgb, i: int, last: int)
    requires
        0 <= i <= s.len(),
        forall|j: int| 0 <= j < s.len() ==> !is_trigger(#[trigger] s[j]),
    ensures
        preprocess_spec(xg_tail(s, st, en, i, last)) == s.skip(i),
    decreases s.len() - i,
{
    if i >= s.len() {
        let x = seq!['@', 'u'];
        assert(x[0] == '@' && x[1] == 'u');
        assert(is_named_marker(x));
        assert(clip_skip(x, 2) =~= Seq::<char>::empty());
        assert(preprocess_spec(Seq::<char>::empty()) == Seq::<char>::empty());
        assert(preprocess_spec(x) =~= Seq::<char>::empty());
        assert(s.skip(i) =~= Seq::<char>::empty());
    } else {
        let x = xg_tail(s, st, en, i, last);
        let next = if is_ws(s[i]) {
            last
        } else {
            grad_xterm_at(s, st, en, i)
        };
        let rest = seq![s[i]] + xg_tail(s, st, en, i + 1, next);
        lemma_xg_tail_preprocess(s, st, en, i + 1, next);
        assert(rest[0] == s[i] && !is_trigger(rest[0]));
        assert(rest.skip(1) =~= xg_tail(s, st, en, i + 1, next));
        assert(preprocess_spec(rest) =~= seq![s[i]] + preprocess_spec(
            xg_tail(s, st, en, i + 1, next),
        ));
        if !is_ws(s[i]) && grad_xterm_at(s, st, en, i) != last {
            let col = grad_xterm_at(s, st, en, i);
            assert(x =~= xterm_marker(col) + rest);
            assert(x[0] == '@' && x[1] == 'x');
            assert(x.len() >= 5);
            assert(!is_named_marker(x) && !is_escaped_pair(x) && is_xterm_head(x));
            assert(step_consumed(x) == 5 && step_width(x) == 0);
            assert(clip_skip(x, 5) =~= rest);
        } else {
            assert(x =~= rest);
        }
        assert(preprocess_spec(x) =~= seq![s[i]] + s.skip(i + 1));
        assert(seq![s[i]] + s.skip(i + 1) =~= s.skip(i));
    }
}

/// Measure mode sees straight through the 256-colour gradient: over
/// text without trigger characters, whatever the seed, the markup the
/// gradient emits is zero glyphs wide, so its output measures as the
/// text itself — the gradient colours text without disturbing its
/// layout.
pub proof fn lemma_xterm_gradient_preprocess(s: Seq<char>, seed: u64)
    requires
        forall|j: int| 0 <= j < s.len() ==> !is_trigger(#[trigger] s[j]),
    ensures
        preprocess_spec(xterm_gradient_spec(s, seed)) == s,
        width_spec(xterm_gradient_spec(s, seed)) == s.len(),
{
    if nonws_count(s) == 0 {
        lemma_preprocess_plain(s);
    } else {
        lemma_xg_tail_preprocess(s, start_color(s, seed), end_color(s, seed), 0, -1);
        assert(s.skip(0) =~= s);
    }
    lemma_width_is_preprocess_len(xterm_gradient_spec(s, seed));
}

/// The 256-colour gradient over `text`, freshly seeded from the clock.
/// Whatever the seed: the result follows the gradient form for some
/// seed, and whitespace-only text comes back unchanged.
pub fn random_xterm_gradient_text(text: &str) -> (r: String)
    ensures
        exists|seed: u64| r@ == xterm_gradient_spec(text@, seed),
        nonws_count(text@) == 0 ==> r@ == text@,
        nonws_count(text@) != 0 ==> ends_with(r@, seq!['@', 'u']),
        ws_chars(r@) == ws_chars(text@),
{
    let seed = clock_seed();
    let out = xterm_gradient_with_seed(text, seed);
    proof {
        assert(out@ == xterm_gradient_spec(text@, seed));
        lemma_xterm_gradient_shape(text@, seed);
    }
    out
}

/// The 24-bit gradient over `text`, freshly seeded from the clock.
/// Whatever the seed: the result follows the gradient form for some
/// seed, and whitespace-only text comes back unchanged.
pub fn random_truecolor_gradient_text(text: &str) -> (r: String)
    ensures
        exists|seed: u64| r@ == truecolor_gradient_spec(text@, seed),
        nonws_count(text@) == 0 ==> r@ == text@,
        nonws_count(text@) != 0 ==> ends_with(r@, reset_escape()),
        ws_chars(r@) == ws_chars(text@),
{
    let seed = clock_seed();
    let out = truecolor_gradient_with_seed(text, seed);
    proof {
        assert(out@ == truecolor_gradient_spec(text@, seed));
        lemma_truecolor_gradient_shape(text@, seed);
    }
    out
}

} // verus!
