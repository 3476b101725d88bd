//! The markup renderer.  One left-to-right scan drives the directive
//! resolver over the whole text, in two modes: render mode replaces each
//! directive by its output and appends a final reset escape; measure mode
//! counts the glyphs the rendered text will occupy, with escape sequences
//! and invalid directives contributing nothing and decoded literal
//! characters contributing one glyph each.  Both modes segment the text
//! identically: they share the one step function.

use vstd::prelude::*;
use vstd::string::StrSliceExecFns;
use crate::chars::{chars_of, string_of};
use crate::resolver::{
    is_trigger,
    reset_escape,
    resolve_in,
    step_consumed,
    step_output,
    step_width,
    ColorCodes,
    Resolved,
};

verus! {

/// The characters of `s` past position `k`, or nothing when fewer than
/// `k` remain.
pub open spec fn clip_skip(s: Seq<char>, k: int) -> Seq<char> {
    if k <= s.len() {
        s.skip(k)
    } else {
        Seq::empty()
    }
}

/// The rendered form of `s`, without the trailing reset: literal text is
/// kept, and each directive is replaced by its output.
pub open spec fn render_spec(s: Seq<char>) -> Seq<char>
    decreases s.len(),
{
    if s.len() == 0 {
        Seq::empty()
    } else if is_trigger(s[0]) {
        step_output(s) + render_spec(clip_skip(s, step_consumed(s)))
    } else {
        seq![s[0]] + render_spec(s.skip(1))
    }
}

/// The measured form of `s`: literal text is kept, and each directive is
/// replaced by one space when it decodes to a literal character, by
/// nothing otherwise.  Its length is the visible width of `s`.
pub open spec fn preprocess_spec(s: Seq<char>) -> Seq<char>
    decreases s.len(),
{
    if s.len() == 0 {
        Seq::empty()
    } else if is_trigger(s[0]) {
        (if step_width(s) == 1 {
            seq![' ']
        } else {
            Seq::<char>::empty()
        }) + preprocess_spec(clip_skip(s, step_consumed(s)))
    } else {
        seq![s[0]] + preprocess_spec(s.skip(1))
    }
}

/// The visible width of `s`: one glyph per literal character, plus each
/// directive's glyph contribution.
pub open spec fn width_spec(s: Seq<char>) -> int
    decreases s.len(),
{
    if s.len() == 0 {
        0
    } else if is_trigger(s[0]) {
        step_width(s) + width_spec(clip_skip(s, step_consumed(s)))
    } else {
        1 + width_spec(s.skip(1))
    }
}

impl ColorCodes {
    /// Renders `text`: literal runs are kept, each directive is replaced
    /// by its output, and one reset escape is appended at the end — even
    /// when the text contains no directive or already ends reset.
    pub fn render(&self, text: &str) -> (out: String)
        ensures
            out@ == render_spec(text@) + reset_escape(),
    {
        let cs = chars_of(text);
        let ghost s = text@;
        let mut out: Vec<char> = Vec::new();
        let mut i: usize = 0;
        proof {
            assert(s.skip(0) =~= s);
            assert(Seq::<char>::empty() + render_spec(s) =~= render_spec(s));
        }
        while i < cs.len()
            invariant
                cs@ == s,
                i <= s.len(),
                render_spec(s) == out@ + render_spec(s.skip(i as int)),
            decreases s.len() - i,
        {
            let ghost rem = s.skip(i as int);
            let ghost prev = out@;
            if cs[i] == '@' || cs[i] == '#' {
                let (consumed, res) = resolve_in(&cs, i);
                match res {
                    Resolved::Escape(v) => {
                        let mut v = v;
                        out.append(&mut v);
                    },
                    Resolved::Literal(c) => {
                        out.push(c);
                    },
                    Resolved::Nothing => {},
                }
                proof {
                    assert(out@ =~= prev + step_output(rem));
                }
                let left = cs.len() - i;
                let adv = if consumed < left {
                    consumed
                } else {
                    left
                };
                proof {
                    assert(clip_skip(rem, step_consumed(rem)) =~= s.skip((i + adv) as int));
                    assert(render_spec(s) =~= out@ + render_spec(s.skip((i + adv) as int)));
                }
                i = i + adv;
            } else {
                out.push(cs[i]);
                proof {
                    assert(rem.skip(1) =~= s.skip((i + 1) as int));
                    assert(render_spec(s) =~= out@ + render_spec(s.skip((i + 1) as int)));
                }
                i = i + 1;
            }
        }
        proof {
            assert(s.skip(s.len() as int) =~= Seq::<char>::empty());
            assert(out@ =~= render_spec(s));
        }
        let mut tail = crate::resolver::csi_m_vec(0);
        out.append(&mut tail);
        string_of(&out)
    }
}

/// The measured form of `text`, executable form of [`preprocess_spec`]:
/// the string whose character count is the visible width of `text`.
pub fn preprocess_text(text: &str) -> (out: String)
    ensures
        out@ == preprocess_spec(text@),
{
    let cs = chars_of(text);
    let ghost s = text@;
    let mut out: Vec<char> = Vec::new();
    let mut i: usize = 0;
    proof {
        assert(s.skip(0) =~= s);
        assert(Seq::<char>::empty() + preprocess_spec(s) =~= preprocess_spec(s));
    }
    while i < cs.len()
        invariant
            cs@ == s,
            i <= s.len(),
            preprocess_spec(s) == out@ + preprocess_spec(s.skip(i as int)),
        decreases s.len() - i,
    {
        let ghost rem = s.skip(i as int);
        let ghost prev = out@;
        if cs[i] == '@' || cs[i] == '#' {
            let (consumed, res) = resolve_in(&cs, i);
            match res {
                Resolved::Escape(_) => {},
                Resolved::Literal(_) => {
                    out.push(' ');
                },
                Resolved::Nothing => {},
            }
            proof {
                if step_width(rem) == 1 {
                    assert(out@ =~= prev + seq![' ']);
                } else {
                    assert(out@ =~= prev);
                }
            }
            let left = cs.len() - i;
            let adv = if consumed < left {
                consumed
            } else {
                left
            };
            proof {
                assert(clip_skip(rem, step_consumed(rem)) =~= s.skip((i + adv) as int));
                assert(preprocess_spec(s) =~= out@ + preprocess_spec(s.skip((i + adv) as int)));
            }
            i = i + adv;
        } else {
            out.push(cs[i]);
            proof {
                assert(rem.skip(1) =~= s.skip((i + 1) as int));
                assert(preprocess_spec(s) =~= out@ + preprocess_spec(s.skip((i + 1) as int)));
            }
            i = i + 1;
        }
    }
    proof {
        assert(s.skip(s.len() as int) =~= Seq::<char>::empty());
        assert(out@ =~= preprocess_spec(s));
    }
    string_of(&out)
}

/// The visible width of `text`: how many glyphs it occupies once
/// rendered, counting Unicode scalar values, not bytes.
pub fn visible_length(text: &str) -> (n: usize)
    ensures
        n as int == width_spec(text@),
{
    let p = preprocess_text(text);
    proof {
        lemma_width_is_preprocess_len(text@);
    }
    p.as_str().unicode_len()
}

/// Measure mode agrees with its replacement reading: the visible width
/// of `s` is the length of `s` with every directive replaced per its
/// classification — nothing for an escape or an invalid directive, one
/// placeholder for a decoded literal.
pub proof fn lemma_width_is_preprocess_len(s: Seq<char>)
    ensures
        width_spec(s) == preprocess_spec(s).len(),
    decreases s.len(),
{
    if s.len() == 0 {
    } else if is_trigger(s[0]) {
        lemma_width_is_preprocess_len(clip_skip(s, step_consumed(s)));
    } else {
        lemma_width_is_preprocess_len(s.skip(1));
    }
}

/// A doubled trigger at the head of the scan renders as one bare
/// trigger character — a literal, one glyph wide, with no colour
/// change — and the scan continues right after the pair.
pub proof fn lemma_escaped_trigger(t: char, rest: Seq<char>)
    requires
        t == '@' || t == '#',
    ensures
        render_spec(seq![t, t] + rest) == seq![t] + render_spec(rest),
        step_width(seq![t, t] + rest) == 1,
{
    let s = seq![t, t] + rest;
    assert(s[0] == t && s[1] == t);
    assert(is_trigger(s[0]));
    assert(!crate::resolver::is_named_marker(s));
    assert(crate::resolver::is_escaped_pair(s));
    assert(step_consumed(s) == 2);
    assert(step_output(s) =~= seq![t]);
    assert(clip_skip(s, 2) =~= rest);
    assert(render_spec(s) =~= seq![t] + render_spec(rest));
}

/// Text without trigger characters renders as itself: render mode only
/// appends the one trailing reset escape.
pub proof fn lemma_render_plain(s: Seq<char>)
    requires
        forall|i: int| 0 <= i < s.len() ==> !is_trigger(#[trigger] s[i]),
    ensures
        render_spec(s) == s,
    decreases s.len(),
{
    if s.len() == 0 {
        assert(render_spec(s) =~= s);
    } else {
        lemma_render_plain(s.skip(1));
        assert(render_spec(s) =~= seq![s[0]] + s.skip(1));
        assert(seq![s[0]] + s.skip(1) =~= s);
    }
}

/// Text without trigger characters measures as itself: one glyph per
/// character.
pub proof fn lemma_preprocess_plain(s: Seq<char>)
    requires
        forall|i: int| 0 <= i < s.len() ==> !is_trigger(#[trigger] s[i]),
    ensures
        preprocess_spec(s) == s,
    decreases s.len(),
{
    if s.len() == 0 {
        assert(preprocess_spec(s) =~= s);
    } else {
        lemma_preprocess_plain(s.skip(1));
        assert(preprocess_spec(s) =~= seq![s[0]] + s.skip(1));
        assert(seq![s[0]] + s.skip(1) =~= s);
    }
}

} // verus!
