use vstd::prelude::*;

use crate::color::{
    clamp_channel, channel_of, correct_rgb_hex, corrected_color, is_hex_color, is_hex_digit,
    lemma_encoded_is_color, Rgb,
};
use crate::cue::Cue;

verus! {

pub open spec fn font_open() -> Seq<char> {
    "<font color=\""@
}

pub open spec fn font_middle() -> Seq<char> {
    "\">"@
}

pub open spec fn font_close() -> Seq<char> {
    "</font>"@
}

/// A color tag's opening `<font color="#RRGGBB">` begins at the first
/// character of `s`.
pub open spec fn tag_at_start(s: Seq<char>) -> bool {
    &&& s.len() >= 22
    &&& s.take(13) == font_open()
    &&& is_hex_color(s.subrange(13, 20))
    &&& s.subrange(20, 22) == font_middle()
}

/// The colors of the color tags in `s`, leftmost first and not overlapping.
pub open spec fn tag_colors(s: Seq<char>) -> Seq<Seq<char>>
    decreases s.len(),
{
    if s.len() == 0 {
        seq![]
    } else if tag_at_start(s) {
        seq![s.subrange(13, 20)] + tag_colors(s.skip(22))
    } else {
        tag_colors(s.skip(1))
    }
}

/// The text around the color tags' openings in `s`: one piece before each and
/// one after the last, empty where two touch or one meets an end of `s`.
pub open spec fn tag_gaps(s: Seq<char>) -> Seq<Seq<char>>
    decreases s.len(),
{
    if s.len() == 0 {
        seq![seq![]]
    } else if tag_at_start(s) {
        seq![seq![]] + tag_gaps(s.skip(22))
    } else {
        let g = tag_gaps(s.skip(1));
        g.update(0, seq![s[0]] + g[0])
    }
}

/// The opening of a color tag holding `color`.
pub open spec fn tag_open(color: Seq<char>) -> Seq<char> {
    font_open() + color + font_middle()
}

/// `s` with the color of every color tag corrected by `delta` in place; all
/// else, plain text and other markup, is kept.
pub open spec fn recolor(s: Seq<char>, delta: int) -> Seq<char>
    decreases s.len(),
{
    if s.len() == 0 {
        seq![]
    } else if tag_at_start(s) {
        tag_open(corrected_color(s.subrange(13, 20), delta)) + recolor(s.skip(22), delta)
    } else {
        seq![s[0]] + recolor(s.skip(1), delta)
    }
}

/// `s` wrapped in one color tag: the default color corrected by `delta`.
pub open spec fn wrapped(s: Seq<char>, delta: int, default: Rgb) -> Seq<char> {
    tag_open(corrected_color(default.hex_spec(), delta)) + s + font_close()
}

/// The rewritten cue text: the colors of its color tags corrected where it has
/// any, else the whole text wrapped in a tag of the corrected default color.
pub open spec fn rewritten(s: Seq<char>, delta: int, default: Rgb) -> Seq<char> {
    if tag_colors(s).len() == 0 {
        wrapped(s, delta, default)
    } else {
        recolor(s, delta)
    }
}

/// The tags laid end to end, each with its color corrected by `delta` and
/// followed by the gap after it.
pub open spec fn corrected_tail(gaps: Seq<Seq<char>>, colors: Seq<Seq<char>>, delta: int) -> Seq<char>
    decreases colors.len(),
{
    if colors.len() == 0 || gaps.len() < 2 {
        seq![]
    } else {
        tag_open(corrected_color(colors[0], delta)) + gaps[1] + corrected_tail(gaps.skip(1), colors.skip(1), delta)
    }
}

/// Gaps and tags laid end to end, each tag's color corrected by `delta`.
pub open spec fn join_corrected(gaps: Seq<Seq<char>>, colors: Seq<Seq<char>>, delta: int) -> Seq<char> {
    gaps[0] + corrected_tail(gaps, colors, delta)
}

pub proof fn lemma_gaps_len(s: Seq<char>)
    ensures
        tag_gaps(s).len() == tag_colors(s).len() + 1,
    decreases s.len(),
{
    if s.len() > 0 {
        if tag_at_start(s) {
            lemma_gaps_len(s.skip(22));
        } else {
            lemma_gaps_len(s.skip(1));
        }
    }
}

pub proof fn lemma_tag_colors_are_colors(s: Seq<char>)
    ensures
        forall|i: int| 0 <= i < tag_colors(s).len() ==> is_hex_color(#[trigger] tag_colors(s)[i]),
    decreases s.len(),
{
    if s.len() > 0 {
        if tag_at_start(s) {
            lemma_tag_colors_are_colors(s.skip(22));
            let rest = tag_colors(s.skip(22));
            assert forall|i: int| 0 <= i < tag_colors(s).len() implies is_hex_color(#[trigger] tag_colors(s)[i]) by {
                if i > 0 {
                    assert(tag_colors(s)[i] == rest[i - 1]);
                } else {
                    assert(tag_colors(s)[i] == s.subrange(13, 20));
                }
            }
        } else {
            lemma_tag_colors_are_colors(s.skip(1));
            assert(tag_colors(s) == tag_colors(s.skip(1)));
        }
    }
}

proof fn lemma_join_prepend(gaps: Seq<Seq<char>>, colors: Seq<Seq<char>>, delta: int, p: Seq<char>)
    requires
        gaps.len() > 0,
    ensures
        join_corrected(gaps.update(0, p + gaps[0]), colors, delta) == p + join_corrected(gaps, colors, delta),
{
    let g2 = gaps.update(0, p + gaps[0]);
    if colors.len() > 0 && gaps.len() >= 2 {
        assert(g2.skip(1) =~= gaps.skip(1));
        assert(g2[1] == gaps[1]);
    }
    assert(corrected_tail(g2, colors, delta) == corrected_tail(gaps, colors, delta));
    assert(join_corrected(g2, colors, delta) =~= p + join_corrected(gaps, colors, delta));
}

pub proof fn lemma_join_is_recolor(s: Seq<char>, delta: int)
    ensures
        join_corrected(tag_gaps(s), tag_colors(s), delta) == recolor(s, delta),
    decreases s.len(),
{
    lemma_gaps_len(s);
    if s.len() == 0 {
        assert(join_corrected(tag_gaps(s), tag_colors(s), delta) =~= recolor(s, delta));
    } else if tag_at_start(s) {
        lemma_join_is_recolor(s.skip(22), delta);
        let g = tag_gaps(s);
        let m = tag_colors(s);
        assert(g.skip(1) =~= tag_gaps(s.skip(22)));
        assert(m.skip(1) =~= tag_colors(s.skip(22)));
        assert(join_corrected(g, m, delta) =~= recolor(s, delta));
    } else {
        lemma_join_is_recolor(s.skip(1), delta);
        lemma_gaps_len(s.skip(1));
        lemma_join_prepend(tag_gaps(s.skip(1)), tag_colors(s.skip(1)), delta, seq![s[0]]);
    }
}

/// Two texts of one length that differ only in hexadecimal digits, and not
/// within the first 14 characters.
pub open spec fn same_shape(a: Seq<char>, b: Seq<char>) -> bool {
    &&& a.len() == b.len()
    &&& forall|i: int| 0 <= i < a.len() && #[trigger] a[i] != b[i] ==> i >= 14 && is_hex_digit(a[i]) && is_hex_digit(b[i])
}

proof fn lemma_corrected_color_shape(c: Seq<char>, delta: int)
    requires
        is_hex_color(c),
    ensures
        is_hex_color(corrected_color(c, delta)),
{
    lemma_encoded_is_color(
        clamp_channel(channel_of(c, 0) + delta),
        clamp_channel(channel_of(c, 1) + delta),
        clamp_channel(channel_of(c, 2) + delta),
    );
}

proof fn lemma_tag_literals()
    ensures
        font_open().len() == 13,
        font_middle().len() == 2,
        font_middle()[0] == '"',
        font_middle()[1] == '>',
        font_close().len() == 7,
        forall|i: int| 0 <= i < 13 ==> #[trigger] font_open()[i] != '#',
{
    reveal_strlit("<font color=\"");
    reveal_strlit("\">");
    reveal_strlit("</font>");
}

/// Texts of one shape agree on whether a color tag opens at their start.
proof fn lemma_shape_tag_at_start(a: Seq<char>, b: Seq<char>)
    requires
        same_shape(a, b),
    ensures
        tag_at_start(a) <==> tag_at_start(b),
{
    lemma_tag_literals();
    if a.len() >= 22 {
        assert forall|i: int| 0 <= i < 14 implies a[i] == b[i] by {
            if a[i] != b[i] {}
        }
        assert(a.take(13) =~= b.take(13));
        let ca = a.subrange(13, 20);
        let cb = b.subrange(13, 20);
        assert(ca[0] == cb[0]);
        assert forall|i: int| 1 <= i < 7 implies is_hex_digit(#[trigger] ca[i]) == is_hex_digit(cb[i]) by {
            assert(ca[i] == a[13 + i] && cb[i] == b[13 + i]);
            if a[13 + i] != b[13 + i] {}
        }
        if is_hex_color(ca) {
            assert forall|i: int| 1 <= i < 7 implies is_hex_digit(#[trigger] cb[i]) by {
                assert(is_hex_digit(ca[i]));
            }
        }
        if is_hex_color(cb) {
            assert forall|i: int| 1 <= i < 7 implies is_hex_digit(#[trigger] ca[i]) by {
                assert(is_hex_digit(cb[i]));
            }
        }
        if tag_at_start(a) || tag_at_start(b) {
            assert(a.subrange(20, 22)[0] == a[20] && a.subrange(20, 22)[1] == a[21]);
            assert(b.subrange(20, 22)[0] == b[20] && b.subrange(20, 22)[1] == b[21]);
            assert(a[20] == b[20]) by {
                if a[20] != b[20] {}
            }
            assert(a[21] == b[21]) by {
                if a[21] != b[21] {}
            }
            assert(a.subrange(20, 22) =~= b.subrange(20, 22));
        }
    }
}

/// How `recolor` lays out its result: of the same shape as its input, with
/// each step of the scan writing where it read.
proof fn lemma_recolor_layout(s: Seq<char>, delta: int)
    ensures
        same_shape(s, recolor(s, delta)),
        s.len() > 0 && tag_at_start(s) ==> recolor(s, delta).take(22) == tag_open(corrected_color(s.subrange(13, 20), delta))
            && recolor(s, delta).skip(22) == recolor(s.skip(22), delta),
        s.len() > 0 && !tag_at_start(s) ==> recolor(s, delta)[0] == s[0]
            && recolor(s, delta).skip(1) == recolor(s.skip(1), delta),
    decreases s.len(),
{
    lemma_tag_literals();
    if s.len() > 0 {
        let r = recolor(s, delta);
        if tag_at_start(s) {
            lemma_recolor_layout(s.skip(22), delta);
            let c = s.subrange(13, 20);
            let cc = corrected_color(c, delta);
            lemma_corrected_color_shape(c, delta);
            let t = tag_open(cc);
            let rest = recolor(s.skip(22), delta);
            assert(r.take(22) =~= t);
            assert(r.skip(22) =~= rest);
            assert forall|i: int| 0 <= i < s.len() && #[trigger] s[i] != r[i] implies i >= 14 && is_hex_digit(s[i])
                && is_hex_digit(r[i]) by {
                if i < 13 {
                    assert(s[i] == s.take(13)[i]);
                    assert(r[i] == t[i]);
                } else if i < 20 {
                    assert(s[i] == c[i - 13]);
                    assert(r[i] == cc[i - 13]);
                } else if i < 22 {
                    assert(s[i] == s.subrange(20, 22)[i - 20]);
                    assert(r[i] == t[i]);
                } else {
                    assert(s[i] == s.skip(22)[i - 22]);
                    assert(r[i] == rest[i - 22]);
                }
            }
        } else {
            lemma_recolor_layout(s.skip(1), delta);
            let rest = recolor(s.skip(1), delta);
            assert(r.skip(1) =~= rest);
            assert forall|i: int| 0 <= i < s.len() && #[trigger] s[i] != r[i] implies i >= 14 && is_hex_digit(s[i])
                && is_hex_digit(r[i]) by {
                if i > 0 {
                    assert(s[i] == s.skip(1)[i - 1]);
                    assert(r[i] == rest[i - 1]);
                }
            }
        }
    }
}

/// Correcting a text's color tags corrects each of them by the same amount,
/// independently, and keeps their number and order and the text around them:
/// the tags found in the result hold the input's colors, each corrected, and
/// the text between them is unchanged.
pub proof fn lemma_recolor_keeps_tags(s: Seq<char>, delta: int)
    ensures
        tag_colors(recolor(s, delta)) == tag_colors(s).map_values(|c: Seq<char>| corrected_color(c, delta)),
        tag_gaps(recolor(s, delta)) == tag_gaps(s),
    decreases s.len(),
{
    let r = recolor(s, delta);
    lemma_tag_literals();
    lemma_recolor_layout(s, delta);
    lemma_shape_tag_at_start(s, r);
    if s.len() == 0 {
        assert(tag_colors(s).map_values(|c: Seq<char>| corrected_color(c, delta)) =~= seq![]);
    } else if tag_at_start(s) {
        lemma_recolor_keeps_tags(s.skip(22), delta);
        let cc = corrected_color(s.subrange(13, 20), delta);
        assert(r.subrange(13, 20) =~= r.take(22).subrange(13, 20));
        assert(tag_open(cc).subrange(13, 20) =~= cc);
        assert(tag_colors(r) == seq![r.subrange(13, 20)] + tag_colors(r.skip(22)));
        assert(tag_colors(r) =~= tag_colors(s).map_values(|c: Seq<char>| corrected_color(c, delta)));
        assert(tag_gaps(r) =~= tag_gaps(s));
    } else {
        lemma_recolor_keeps_tags(s.skip(1), delta);
        assert(tag_colors(r) == tag_colors(r.skip(1)));
        assert(tag_colors(r) =~= tag_colors(s).map_values(|c: Seq<char>| corrected_color(c, delta)));
        assert(tag_gaps(r) =~= tag_gaps(s));
    }
}

/// The color of the first tag of a rewritten text: that of the text's own
/// first color tag where it has one, else the default color.
pub open spec fn first_color(s: Seq<char>, default: Rgb) -> Seq<char> {
    if tag_colors(s).len() > 0 {
        tag_colors(s)[0]
    } else {
        default.hex_spec()
    }
}

proof fn lemma_first_color_of_rewritten(s: Seq<char>, delta: int, default: Rgb)
    ensures
        is_hex_color(first_color(s, default)),
        tag_colors(rewritten(s, delta, default)).len() > 0,
        tag_colors(rewritten(s, delta, default))[0] == corrected_color(first_color(s, default), delta),
{
    lemma_tag_colors_are_colors(s);
    lemma_recolor_keeps_tags(s, delta);
    lemma_tag_literals();
    if tag_colors(s).len() == 0 {
        lemma_encoded_is_color(default.r as int, default.g as int, default.b as int);
        let c1 = corrected_color(default.hex_spec(), delta);
        lemma_corrected_color_shape(default.hex_spec(), delta);
        let w = wrapped(s, delta, default);
        assert(w.take(13) =~= font_open());
        assert(w.subrange(13, 20) =~= c1);
        assert(w.subrange(20, 22) =~= font_middle());
        assert(tag_at_start(w));
    }
}

/// Rewriting is not idempotent: rewriting a text's own rewritten form again
/// with the same non-zero correction corrects its first tag's color a second
/// time, so the text differs from that of one rewrite. The first color here is
/// that of the text's first color tag, or the default color where it has none;
/// where its red channel would be clamped on the second correction the two may
/// agree, and those inputs are left out.
pub proof fn lemma_rewrite_not_idempotent(s: Seq<char>, delta: int, default: Rgb)
    requires
        delta != 0,
        0 <= channel_of(first_color(s, default), 0) + 2 * delta <= 255,
    ensures
        rewritten(rewritten(s, delta, default), delta, default) != rewritten(s, delta, default),
{
    let once = rewritten(s, delta, default);
    let c0 = first_color(s, default);
    lemma_first_color_of_rewritten(s, delta, default);
    lemma_first_color_of_rewritten(once, delta, default);
    let c1 = corrected_color(c0, delta);
    lemma_corrected_color_shape(c0, delta);
    assert(first_color(once, default) == c1);
    let c2 = corrected_color(c1, delta);
    let r0 = clamp_channel(channel_of(c0, 0) + delta);
    let g0 = clamp_channel(channel_of(c0, 1) + delta);
    let b0 = clamp_channel(channel_of(c0, 2) + delta);
    lemma_encoded_is_color(r0, g0, b0);
    assert(0 <= channel_of(c0, 0) <= 255) by {
        assert(is_hex_digit(c0[1]) && is_hex_digit(c0[2]));
    }
    assert(channel_of(c1, 0) == channel_of(c0, 0) + delta);
    let r1 = clamp_channel(channel_of(c1, 0) + delta);
    lemma_encoded_is_color(r1, clamp_channel(channel_of(c1, 1) + delta), clamp_channel(channel_of(c1, 2) + delta));
    assert(channel_of(c2, 0) == channel_of(c0, 0) + 2 * delta);
    assert(c2 != c1);
    if rewritten(once, delta, default) == once {
        assert(tag_colors(rewritten(once, delta, default))[0] == c2);
        assert(tag_colors(once)[0] == c1);
    }
}

/// Relies on `regex::Regex::split` with the pattern
/// `<font color="(#[0-9a-fA-F]{6})">`: the pieces of text between successive
/// leftmost, non-overlapping matches, in order, with an empty piece where a
/// match touches another or an end.
#[verifier::external_body]
fn split_at_tags(text: &str) -> (r: Vec<String>)
    ensures
        r@.map_values(|p: String| p@) == tag_gaps(text@),
{
    let re = regex::Regex::new(r#"<font color="(#[0-9a-fA-F]{6})">"#).unwrap();
    re.split(text).map(|p| p.to_string()).collect()
}

/// Relies on `regex::Regex::captures_iter` with the pattern
/// `<font color="(#[0-9a-fA-F]{6})">`: the first group of each of the leftmost,
/// non-overlapping matches, in order.
#[verifier::external_body]
fn find_tag_colors(text: &str) -> (r: Vec<String>)
    ensures
        r@.map_values(|p: String| p@) == tag_colors(text@),
{
    let re = regex::Regex::new(r#"<font color="(#[0-9a-fA-F]{6})">"#).unwrap();
    re.captures_iter(text).map(|caps| caps[1].to_string()).collect()
}

/// `text` rebuilt from the pieces around its color tags and the tags' colors,
/// found once, with every color corrected by `correction`.
fn join_tags(text: &str, gaps: &Vec<String>, colors: &Vec<String>, correction: i32) -> (r: String)
    requires
        gaps@.map_values(|p: String| p@) == tag_gaps(text@),
        colors@.map_values(|p: String| p@) == tag_colors(text@),
    ensures
        r@ == recolor(text@, correction as int),
{
    let ghost g = gaps@.map_values(|p: String| p@);
    let ghost m = colors@.map_values(|p: String| p@);
    proof {
        lemma_gaps_len(text@);
        lemma_tag_colors_are_colors(text@);
        lemma_join_is_recolor(text@, correction as int);
    }
    let n = colors.len();
    let mut out = gaps[0].clone();
    let mut i: usize = 0;
    assert(g.skip(0) =~= g);
    assert(m.skip(0) =~= m);
    while i < n
        invariant
            n == colors@.len(),
            g.len() == n + 1,
            gaps@.len() == n + 1,
            g == gaps@.map_values(|p: String| p@),
            m == colors@.map_values(|p: String| p@),
            forall|k: int| 0 <= k < m.len() ==> is_hex_color(#[trigger] m[k]),
            0 <= i <= n,
            out@ + corrected_tail(g.skip(i as int), m.skip(i as int), correction as int)
                == join_corrected(g, m, correction as int),
        decreases n - i,
    {
        assert(m[i as int] == colors@[i as int]@);
        let fixed = correct_rgb_hex(colors[i].as_str(), correction);
        let ghost before = out@;
        out.append("<font color=\"");
        out.append(fixed.as_str());
        out.append("\">");
        out.append(gaps[i + 1].as_str());
        proof {
            let gi = g.skip(i as int);
            let mi = m.skip(i as int);
            assert(gi.skip(1) =~= g.skip(i + 1));
            assert(mi.skip(1) =~= m.skip(i + 1));
            assert(gi[1] == g[i + 1]);
            assert(g[i + 1] == gaps@[i + 1]@);
            assert(out@ =~= before + tag_open(corrected_color(mi[0], correction as int)) + gi[1]);
        }
        i = i + 1;
    }
    assert(m.skip(n as int).len() == 0);
    out
}

/// Corrects the color of every color tag `<font color="#RRGGBB">` in `text` by
/// `correction`, in place; plain text, other markup, and the number and order
/// of the tags stay as they were.
pub fn recolor_text(text: &str, correction: i32) -> (r: String)
    ensures
        r@ == recolor(text@, correction as int),
{
    let gaps = split_at_tags(text);
    let colors = find_tag_colors(text);
    join_tags(text, &gaps, &colors, correction)
}

/// Wraps the whole of `text` in one color tag whose color is `default`
/// corrected by `correction`.
pub fn wrap_text(text: &str, correction: i32, default: Rgb) -> (r: String)
    ensures
        r@ == wrapped(text@, correction as int, default),
{
    proof {
        lemma_encoded_is_color(default.r as int, default.g as int, default.b as int);
    }
    let base = default.to_hex();
    let color = correct_rgb_hex(base.as_str(), correction);
    let mut out = String::from_str("<font color=\"");
    out.append(color.as_str());
    out.append("\">");
    out.append(text);
    out.append("</font>");
    out
}

/// Rewrites a cue's text for a brightness correction: corrects the color of
/// each color tag already in it where there is one, else wraps the whole text
/// in one color tag holding the corrected default color.
pub fn rewrite_cue_text(text: &str, correction: i32, default: Rgb) -> (r: String)
    ensures
        r@ == rewritten(text@, correction as int, default),
{
    let colors = find_tag_colors(text);
    if colors.len() == 0 {
        wrap_text(text, correction, default)
    } else {
        let gaps = split_at_tags(text);
        join_tags(text, &gaps, &colors, correction)
    }
}

/// Corrects, in place, the color of each color tag already in the cue's text.
pub fn replace_existing_sub_colors(sub: &mut Cue, correction: i32)
    ensures
        final(sub).text@ == recolor(old(sub).text@, correction as int),
        final(sub).num == old(sub).num,
        final(sub).start == old(sub).start,
        final(sub).end == old(sub).end,
{
    sub.text = recolor_text(sub.text.as_str(), correction);
}

/// Wraps the cue's text in one color tag holding the corrected default color.
pub fn add_color_to_sub(sub: &mut Cue, correction: i32, default: Rgb)
    ensures
        final(sub).text@ == wrapped(old(sub).text@, correction as int, default),
        final(sub).num == old(sub).num,
        final(sub).start == old(sub).start,
        final(sub).end == old(sub).end,
{
    sub.text = wrap_text(sub.text.as_str(), correction, default);
}

} // verus!
