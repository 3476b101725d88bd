//! Deterministic text effects: each wraps every character of plain text
//! in a 256-colour marker drawn from a fixed repeating palette, and
//! closes the text with a reset marker.  The result is markup for the
//! renderer, not terminal output.

use vstd::prelude::*;
use crate::chars::{chars_of, push_pad3, string_of};
use crate::render::{clip_skip, lemma_width_is_preprocess_len, preprocess_spec, width_spec};
use crate::resolver::{
    is_escaped_pair,
    is_named_marker,
    is_trigger,
    is_xterm_head,
    step_consumed,
    step_width,
    xterm_marker,
};

verus! {

/// The pastel rainbow palette of 256-colour indices.
pub open spec fn pastel_palette() -> Seq<u8> {
    seq![
        226u8,
        190,
        155,
        120,
        119,
        84,
        85,
        50,
        51,
        45,
        75,
        69,
        105,
        99,
        135,
        165,
        201,
        200,
        205,
        204,
        210,
        209,
        215,
        220,
        226,
    ]
}

/// The saturated rainbow palette of 256-colour indices.
pub open spec fn rainbow_palette() -> Seq<u8> {
    seq![
        196u8,
        202,
        208,
        214,
        220,
        226,
        154,
        82,
        46,
        35,
        25,
        21,
        20,
        19,
        54,
        55,
        91,
        92,
        126,
        161,
    ]
}

/// The two-tone pink and blue palette of 256-colour indices.
pub open spec fn lover_palette() -> Seq<u8> {
    seq![218u8, 176, 229, 219, 153, 219]
}

/// The markup a fixed-palette effect produces from position `i` of `s`
/// on: each character is prefixed with the marker of the palette entry
/// at its position, cycling; a reset marker closes the text.
pub open spec fn det_tail(pal: Seq<u8>, s: Seq<char>, i: int) -> Seq<char>
    decreases s.len() - i,
{
    if i < 0 || i >= s.len() {
        seq!['@', 'u']
    } else {
        xterm_marker(pal[i % pal.len() as int] as int) + seq![s[i]] + det_tail(pal, s, i + 1)
    }
}

/// The markup a fixed-palette effect produces for the whole of `s`.
pub open spec fn det_effect(pal: Seq<u8>, s: Seq<char>) -> Seq<char> {
    det_tail(pal, s, 0)
}

/// The single-colour red effect: the text wrapped in `@r` … `@u`.
pub open spec fn red_effect(s: Seq<char>) -> Seq<char> {
    seq!['@', 'r'] + s + seq!['@', 'u']
}

/// The pastel rainbow palette as a vector.
fn pastel_colors() -> (v: Vec<u8>)
    ensures
        v@ == pastel_palette(),
{
    let mut v: Vec<u8> = Vec::new();
    v.push(226);
    v.push(190);
    v.push(155);
    v.push(120);
    v.push(119);
    v.push(84);
    v.push(85);
    v.push(50);
    v.push(51);
    v.push(45);
    v.push(75);
    v.push(69);
    v.push(105);
    v.push(99);
    v.push(135);
    v.push(165);
    v.push(201);
    v.push(200);
    v.push(205);
    v.push(204);
    v.push(210);
    v.push(209);
    v.push(215);
    v.push(220);
    v.push(226);
    proof {
        assert(v@ =~= pastel_palette());
    }
    v
}

/// The saturated rainbow palette as a vector.
fn rainbow_colors() -> (v: Vec<u8>)
    ensures
        v@ == rainbow_palette(),
{
    let mut v: Vec<u8> = Vec::new();
    v.push(196);
    v.push(202);
    v.push(208);
    v.push(214);
    v.push(220);
    v.push(226);
    v.push(154);
    v.push(82);
    v.push(46);
    v.push(35);
    v.push(25);
    v.push(21);
    v.push(20);
    v.push(19);
    v.push(54);
    v.push(55);
    v.push(91);
    v.push(92);
    v.push(126);
    v.push(161);
    proof {
        assert(v@ =~= rainbow_palette());
    }
    v
}

/// The two-tone palette as a vector.
fn lover_colors() -> (v: Vec<u8>)
    ensures
        v@ == lover_palette(),
{
    let mut v: Vec<u8> = Vec::new();
    v.push(218);
    v.push(176);
    v.push(229);
    v.push(219);
    v.push(153);
    v.push(219);
    proof {
        assert(v@ =~= lover_palette());
    }
    v
}

/// Wraps every character of `text` — whitespace included — in the
/// palette marker of its position, cycling through the palette, and
/// appends one reset marker.
fn apply_palette(pal: &Vec<u8>, text: &str) -> (r: String)
    requires
        pal@.len() > 0,
    ensures
        r@ == det_effect(pal@, text@),
{
    let cs = chars_of(text);
    let ghost s = text@;
    let mut out: Vec<char> = Vec::new();
    let mut i: usize = 0;
    proof {
        assert(Seq::<char>::empty() + det_tail(pal@, s, 0) =~= det_tail(pal@, s, 0));
    }
    while i < cs.len()
        invariant
            cs@ == s,
            i <= s.len(),
            pal@.len() > 0,
            det_effect(pal@, s) == out@ + det_tail(pal@, s, i as int),
        decreases s.len() - i,
    {
        let ghost prev = out@;
        let idx = i % pal.len();
        out.push('@');
        out.push('x');
        push_pad3(&mut out, pal[idx]);
        out.push(cs[i]);
        proof {
            assert(out@ =~= prev + xterm_marker(pal@[idx as int] as int) + seq![s[i as int]]);
            assert(det_effect(pal@, s) =~= out@ + det_tail(pal@, s, (i + 1) as int));
        }
        i = i + 1;
    }
    out.push('@');
    out.push('u');
    proof {
        assert(out@ =~= det_effect(pal@, s));
    }
    string_of(&out)
}

/// The pastel rainbow effect over `text`.
pub fn pastelbow_text(text: &str) -> (r: String)
    ensures
        r@ == det_effect(pastel_palette(), text@),
{
    let pal = pastel_colors();
    apply_palette(&pal, text)
}

/// The saturated rainbow effect over `text`.
pub fn rainbow_text(text: &str) -> (r: String)
    ensures
        r@ == det_effect(rainbow_palette(), text@),
{
    let pal = rainbow_colors();
    apply_palette(&pal, text)
}

/// The two-tone effect over `text`.
pub fn lover_text(text: &str) -> (r: String)
    ensures
        r@ == det_effect(lover_palette(), text@),
{
    let pal = lover_colors();
    apply_palette(&pal, text)
}

/// The red effect over `text`: one `@r` marker before it, one reset
/// marker after it.
pub fn red_text(text: &str) -> (r: String)
    ensures
        r@ == red_effect(text@),
{
    let mut out: Vec<char> = Vec::new();
    out.push('@');
    out.push('r');
    let mut body = chars_of(text);
    out.append(&mut body);
    out.push('@');
    out.push('u');
    proof {
        assert(out@ =~= red_effect(text@));
    }
    string_of(&out)
}

/// The markup a fixed-palette effect emits past position `i` is
/// zero-width: measured, it reads as the remaining text alone.
proof fn lemma_det_tail_preprocess(pal: Seq<u8>, s: Seq<char>, i: int)
    requires
        pal.len() > 0,
        0 <= i <= s.len(),
        forall|j: int| 0 <= j < s.len() ==> !is_trigger(#[trigger] s[j]),
    ensures
        preprocess_spec(det_tail(pal, s, i)) == s.skip(i),
    decreases s.len() - i,
{
    if i >= s.len() {
        let x = seq!['@', 'u'];
        assert(x[0] == '@' && x[1] == 'u');
        assert(is_named_marker(x));
        assert(clip_skip(x, 2) =~= Seq::<char>::empty());
        assert(preprocess_spec(Seq::<char>::empty()) == Seq::<char>::empty());
        assert(preprocess_spec(x) =~= Seq::<char>::empty());
        assert(s.skip(i) =~= Seq::<char>::empty());
    } else {
        let col = pal[i % pal.len() as int];
        let x = det_tail(pal, s, i);
        let rest = seq![s[i]] + det_tail(pal, s, i + 1);
        assert(x =~= xterm_marker(col as int) + rest);
        assert(x[0] == '@' && x[1] == 'x');
        assert(x.len() >= 5);
        assert(!is_named_marker(x) && !is_escaped_pair(x) && is_xterm_head(x));
        assert(step_consumed(x) == 5 && step_width(x) == 0);
        assert(clip_skip(x, 5) =~= rest);
        assert(rest[0] == s[i] && !is_trigger(rest[0]));
        assert(rest.skip(1) =~= det_tail(pal, s, i + 1));
        lemma_det_tail_preprocess(pal, s, i + 1);
        assert(preprocess_spec(rest) =~= seq![s[i]] + preprocess_spec(det_tail(pal, s, i + 1)));
        assert(preprocess_spec(x) =~= seq![s[i]] + s.skip(i + 1));
        assert(seq![s[i]] + s.skip(i + 1) =~= s.skip(i));
    }
}

/// Measure mode sees straight through a fixed-palette effect: over text
/// without trigger characters, the markup the effect emits is zero
/// glyphs wide, so its output measures as the text itself — the effects
/// colour text without disturbing its layout.
pub proof fn lemma_det_effect_preprocess(pal: Seq<u8>, s: Seq<char>)
    requires
        pal.len() > 0,
        forall|j: int| 0 <= j < s.len() ==> !is_trigger(#[trigger] s[j]),
    ensures
        preprocess_spec(det_effect(pal, s)) == s,
        width_spec(det_effect(pal, s)) == s.len(),
{
    lemma_det_tail_preprocess(pal, s, 0);
    assert(s.skip(0) =~= s);
    lemma_width_is_preprocess_len(det_effect(pal, s));
}

/// The text effects, available as methods on `&str`.  The fixed-palette
/// effects are deterministic; the two gradient effects draw fresh
/// endpoint colours on every call.
pub trait TextEffects {
    /// The pastel rainbow effect.
    fn pastelbow(&self) -> String;

    /// The saturated rainbow effect.
    fn rainbow(&self) -> String;

    /// The two-tone pink and blue effect.
    fn lover(&self) -> String;

    /// The single-colour red effect.
    fn red(&self) -> String;

    /// A gradient of 256-colour markers between two freshly drawn
    /// endpoint colours.
    fn random_xterm_gradient(&self) -> String;

    /// A gradient of raw 24-bit colour escapes between two freshly
    /// drawn endpoint colours.
    fn random_truecolor_gradient(&self) -> String;
}

impl TextEffects for &str {
    fn pastelbow(&self) -> String {
        pastelbow_text(*self)
    }

    fn rainbow(&self) -> String {
        rainbow_text(*self)
    }

    fn lover(&self) -> String {
        lover_text(*self)
    }

    fn red(&self) -> String {
        red_text(*self)
    }

    fn random_xterm_gradient(&self) -> String {
        crate::gradient::random_xterm_gradient_text(*self)
    }

    fn random_truecolor_gradient(&self) -> String {
        crate::gradient::random_truecolor_gradient_text(*self)
    }
}

} // verus!
