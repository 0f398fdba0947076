//! Rendering of one line of canonically tagged text into escaped, styled markup.

use vstd::prelude::*;
use crate::markup::{
    escaped, format_tag_names, format_tags, push_escaped_range, push_range,
    letter_run, parse_simple_tag, same_name, simple_tag_at, tag_index_from, tags_removed_from,
};
use crate::metrics::split_label_lines;
use crate::stadium::lines_of;
use crate::text::{chars_of, string_of};

verus! {

/// The formatting active at a point of a line.
#[derive(Debug, Clone, Copy, PartialEq, Eq)]
pub struct StyleState {
    pub bold: bool,
    pub italic: bool,
    pub underline: bool,
    pub strikethrough: bool,
}

/// Which style flag a formatting tag toggles.
#[derive(Debug, Clone, Copy, PartialEq, Eq)]
pub enum FormatTag {
    Bold,
    Italic,
    Underline,
    Strikethrough,
}

/// A run of text under one style.
pub struct StyledSegment {
    pub text: Vec<char>,
    pub style: StyleState,
}

pub open spec fn plain_style() -> StyleState {
    StyleState { bold: false, italic: false, underline: false, strikethrough: false }
}

pub open spec fn is_plain(st: StyleState) -> bool {
    !st.bold && !st.italic && !st.underline && !st.strikethrough
}

/// The flag named by the tag at position `t` of the formatting tag list:
/// `b`/`strong`, `i`/`em`, `u`, `s`/`del`.
pub open spec fn kind_of(t: int) -> Option<FormatTag> {
    if t == 0 || t == 1 {
        Some(FormatTag::Bold)
    } else if t == 2 || t == 3 {
        Some(FormatTag::Italic)
    } else if t == 4 {
        Some(FormatTag::Underline)
    } else if t == 5 || t == 6 {
        Some(FormatTag::Strikethrough)
    } else {
        None
    }
}

/// The formatting tag that starts at `k`, if any: its end, kind, and whether it closes.
pub open spec fn format_tag_at(s: Seq<char>, k: int) -> Option<(int, FormatTag, bool)> {
    match simple_tag_at(s, k, format_tags()) {
        Some((e, t, c)) => match kind_of(t) {
            Some(kind) => Some((e, kind, c)),
            None => None,
        },
        None => None,
    }
}

/// `st` after an opening (`on`) or closing tag of `kind`.
pub open spec fn apply_tag(st: StyleState, kind: FormatTag, on: bool) -> StyleState {
    match kind {
        FormatTag::Bold => StyleState { bold: on, ..st },
        FormatTag::Italic => StyleState { italic: on, ..st },
        FormatTag::Underline => StyleState { underline: on, ..st },
        FormatTag::Strikethrough => StyleState { strikethrough: on, ..st },
    }
}

fn apply(st: StyleState, kind: FormatTag, on: bool) -> (r: StyleState)
    ensures
        r == apply_tag(st, kind, on),
{
    let mut r = st;
    match kind {
        FormatTag::Bold => r.bold = on,
        FormatTag::Italic => r.italic = on,
        FormatTag::Underline => r.underline = on,
        FormatTag::Strikethrough => r.strikethrough = on,
    }
    r
}

fn parse_format_tag(input: &[char], start: usize, tags: &Vec<Vec<char>>) -> (r: Option<(usize, FormatTag, bool)>)
    requires
        tags.deep_view() == format_tags(),
    ensures
        match r {
            Some((e, kind, c)) => format_tag_at(input@, start as int) == Some((e as int, kind, c)),
            None => format_tag_at(input@, start as int) is None,
        },
{
    match parse_simple_tag(input, start, tags) {
        Some((end, t, closing)) => {
            let kind = if t == 0 || t == 1 {
                FormatTag::Bold
            } else if t == 2 || t == 3 {
                FormatTag::Italic
            } else if t == 4 {
                FormatTag::Underline
            } else if t == 5 || t == 6 {
                FormatTag::Strikethrough
            } else {
                return None;
            };
            Some((end, kind, closing))
        },
        None => None,
    }
}

/// Whether a formatting tag starts anywhere in `s`.
pub open spec fn has_format_tag(s: Seq<char>) -> bool {
    exists|k: int| 0 <= k < s.len() && #[trigger] format_tag_at(s, k) is Some
}

fn contains_format_tag(line: &[char], tags: &Vec<Vec<char>>) -> (r: bool)
    requires
        tags.deep_view() == format_tags(),
    ensures
        r == has_format_tag(line@),
{
    let mut index: usize = 0;
    while index < line.len()
        invariant
            index <= line@.len(),
            tags.deep_view() == format_tags(),
            forall|k: int| 0 <= k < index ==> #[trigger] format_tag_at(line@, k) is None,
        decreases line@.len() - index,
    {
        if parse_format_tag(line, index, tags).is_some() {
            return true;
        }
        index += 1;
    }
    false
}

/// The styled runs of `s[k..]`, where the current run began at `last` under
/// style `st`: each formatting tag ends the run before it (if non-empty) and
/// sets its flag for the runs after it.
pub open spec fn segments_from(s: Seq<char>, k: int, last: int, st: StyleState) -> Seq<
    (Seq<char>, StyleState),
>
    decreases s.len() - k,
{
    if k < 0 || k >= s.len() {
        if last < s.len() {
            seq![(s.subrange(last, s.len() as int), st)]
        } else {
            seq![]
        }
    } else {
        match format_tag_at(s, k) {
            Some((e, kind, closing)) => {
                let before = if k > last {
                    seq![(s.subrange(last, k), st)]
                } else {
                    seq![]
                };
                if e > k {
                    before + segments_from(s, e, e, apply_tag(st, kind, !closing))
                } else {
                    before
                }
            },
            None => segments_from(s, k + 1, last, st),
        }
    }
}

/// The styled runs of a line.
pub open spec fn segments(s: Seq<char>) -> Seq<(Seq<char>, StyleState)> {
    segments_from(s, 0, 0, plain_style())
}

proof fn lemma_format_tag_advances(s: Seq<char>, k: int)
    requires
        format_tag_at(s, k) is Some,
    ensures
        match format_tag_at(s, k) {
            Some((e, _, _)) => k < e <= s.len(),
            None => true,
        },
{
}

fn parse_inline_formatting(line: &[char], tags: &Vec<Vec<char>>) -> (r: Vec<StyledSegment>)
    requires
        tags.deep_view() == format_tags(),
    ensures
        r@.len() == segments(line@).len(),
        forall|i: int| 0 <= i < r@.len() ==> (#[trigger] r@[i]).text@ == segments(line@)[i].0
            && r@[i].style == segments(line@)[i].1,
{
    let ghost s = line@;
    let mut segs: Vec<StyledSegment> = Vec::new();
    let ghost mut done: Seq<(Seq<char>, StyleState)> = seq![];
    let mut style = StyleState { bold: false, italic: false, underline: false, strikethrough: false };
    let mut last: usize = 0;
    let mut index: usize = 0;
    while index < line.len()
        invariant
            last <= index <= s.len(),
            s == line@,
            tags.deep_view() == format_tags(),
            segments(s) == done + segments_from(s, index as int, last as int, style),
            segs@.len() == done.len(),
            forall|i: int| 0 <= i < segs@.len() ==> (#[trigger] segs@[i]).text@ == done[i].0
                && segs@[i].style == done[i].1,
        decreases s.len() - index,
    {
        match parse_format_tag(line, index, tags) {
            Some((end, kind, closing)) => {
                proof {
                    lemma_format_tag_advances(s, index as int);
                }
                if index > last {
                    let mut text: Vec<char> = Vec::new();
                    push_range(&mut text, line, last, index);
                    segs.push(StyledSegment { text, style });
                    proof {
                        done = done.push((s.subrange(last as int, index as int), style));
                    }
                }
                let ghost before = if index > last {
                    seq![(s.subrange(last as int, index as int), style)]
                } else {
                    seq![]
                };
                assert(segments_from(s, index as int, last as int, style) == before + segments_from(
                    s,
                    end as int,
                    end as int,
                    apply_tag(style, kind, !closing),
                ));
                style = apply(style, kind, !closing);
                last = end;
                index = end;
            },
            None => {
                index += 1;
            },
        }
    }
    if last < line.len() {
        let mut text: Vec<char> = Vec::new();
        push_range(&mut text, line, last, line.len());
        segs.push(StyledSegment { text, style });
        proof {
            done = done.push((s.subrange(last as int, s.len() as int), style));
        }
    }
    assert(segments(s) =~= done);
    segs
}

/// `parts` separated by single spaces.
pub open spec fn joined(parts: Seq<Seq<char>>) -> Seq<char>
    decreases parts.len(),
{
    if parts.len() == 0 {
        seq![]
    } else if parts.len() == 1 {
        parts[0]
    } else {
        joined(parts.drop_last()) + seq![' '] + parts.last()
    }
}

/// The decoration value: `underline`, `line-through`, or both, underline first.
pub open spec fn decoration(st: StyleState) -> Seq<char> {
    if st.underline && st.strikethrough {
        "underline line-through"@
    } else if st.underline {
        "underline"@
    } else {
        "line-through"@
    }
}

/// The attributes of a styled run, in order: weight, style, decoration.
pub open spec fn style_attrs(st: StyleState) -> Seq<Seq<char>> {
    (if st.bold { seq!["font-weight=\"bold\""@] } else { seq![] }) + (if st.italic {
        seq!["font-style=\"italic\""@]
    } else {
        seq![]
    }) + (if st.underline || st.strikethrough {
        seq!["text-decoration=\""@ + decoration(st) + "\""@]
    } else {
        seq![]
    })
}

/// The markup of one run: its escaped text, wrapped in a `tspan` carrying the
/// style's attributes when any flag is set.
pub open spec fn segment_markup(text: Seq<char>, st: StyleState) -> Seq<char> {
    if is_plain(st) {
        escaped(text)
    } else {
        "<tspan "@ + joined(style_attrs(st)) + ">"@ + escaped(text) + "</tspan>"@
    }
}

/// The markup of the runs `segs`, in order.
pub open spec fn segments_markup(segs: Seq<(Seq<char>, StyleState)>) -> Seq<char>
    decreases segs.len(),
{
    if segs.len() == 0 {
        seq![]
    } else {
        segments_markup(segs.drop_last()) + segment_markup(segs.last().0, segs.last().1)
    }
}

/// The markup of a line.
pub open spec fn line_markup(s: Seq<char>) -> Seq<char> {
    segments_markup(segments(s))
}

proof fn lemma_segments_without_tags(s: Seq<char>, k: int, last: int, st: StyleState)
    requires
        0 <= last <= k <= s.len(),
        forall|j: int| 0 <= j < s.len() ==> #[trigger] format_tag_at(s, j) is None,
    ensures
        segments_from(s, k, last, st) == if last < s.len() {
            seq![(s.subrange(last, s.len() as int), st)]
        } else {
            seq![]
        },
    decreases s.len() - k,
{
    if k < s.len() {
        lemma_segments_without_tags(s, k + 1, last, st);
    }
}

fn push_chars(out: &mut Vec<char>, text: &str)
    ensures
        final(out)@ == old(out)@ + text@,
{
    let c = chars_of(text);
    out.extend_from_slice(c.as_slice());
}

fn push_segment(out: &mut Vec<char>, seg: &StyledSegment)
    ensures
        final(out)@ == old(out)@ + segment_markup(seg.text@, seg.style),
{
    let st = seg.style;
    let n = seg.text.len();
    assert(seg.text@.subrange(0, n as int) =~= seg.text@);
    if !st.bold && !st.italic && !st.underline && !st.strikethrough {
        push_escaped_range(out, seg.text.as_slice(), 0, n);
        return;
    }
    let ghost before = out@;
    push_chars(out, "<tspan ");
    let mut first = true;
    let ghost mut parts: Seq<Seq<char>> = seq![];
    if st.bold {
        push_chars(out, "font-weight=\"bold\"");
        first = false;
        proof {
            parts = parts.push("font-weight=\"bold\""@);
        }
    }
    assert(out@ == before + "<tspan "@ + joined(parts));
    if st.italic {
        if !first {
            out.push(' ');
        }
        push_chars(out, "font-style=\"italic\"");
        proof {
            let p = parts.push("font-style=\"italic\""@);
            assert(p.drop_last() =~= parts);
            parts = p;
        }
        first = false;
    }
    assert(out@ =~= before + "<tspan "@ + joined(parts));
    if st.underline || st.strikethrough {
        if !first {
            out.push(' ');
        }
        let ghost mark = out@;
        push_chars(out, "text-decoration=\"");
        if st.underline && st.strikethrough {
            push_chars(out, "underline line-through");
        } else if st.underline {
            push_chars(out, "underline");
        } else {
            push_chars(out, "line-through");
        }
        push_chars(out, "\"");
        assert(out@ =~= mark + ("text-decoration=\""@ + decoration(st) + "\""@));
        proof {
            let p = parts.push("text-decoration=\""@ + decoration(st) + "\""@);
            assert(p.drop_last() =~= parts);
            parts = p;
        }
    }
    assert(parts =~= style_attrs(st));
    assert(out@ =~= before + "<tspan "@ + joined(style_attrs(st)));
    push_chars(out, ">");
    push_escaped_range(out, seg.text.as_slice(), 0, n);
    push_chars(out, "</tspan>");
    assert(out@ =~= before + segment_markup(seg.text@, st));
}

/// Renders one line of tagged text as markup: with no formatting tag the line
/// is only XML-escaped; otherwise each run between tags is escaped and, when
/// any style flag is on, wrapped in a `tspan` with its attributes.
pub fn render_line_content(line: &str) -> (r: String)
    ensures
        r@ == line_markup(line@),
{
    let s = chars_of(line);
    let tags = format_tag_names();
    if !contains_format_tag(s.as_slice(), &tags) {
        proof {
            lemma_segments_without_tags(s@, 0, 0, plain_style());
            let segs = segments(s@);
            assert forall|j: int| 0 <= j < s@.len() implies #[trigger] format_tag_at(s@, j) is None by {
                if format_tag_at(s@, j) is Some {
                    assert(has_format_tag(s@));
                }
            }
            if s@.len() > 0 {
                assert(s@.subrange(0, s@.len() as int) =~= s@);
                assert(segs == seq![(s@, plain_style())]);
                assert(segs.drop_last() =~= seq![]);
                assert(segments_markup(segs) == segments_markup(segs.drop_last()) + segment_markup(s@, plain_style()));
                assert(line_markup(s@) =~= escaped(s@));
            } else {
                assert(segs =~= seq![]);
                assert(line_markup(s@) =~= escaped(s@));
            }
        }
        let mut out: Vec<char> = Vec::new();
        push_escaped_range(&mut out, s.as_slice(), 0, s.len());
        assert(s@.subrange(0, s@.len() as int) =~= s@);
        return string_of(out.as_slice());
    }
    let segs = parse_inline_formatting(s.as_slice(), &tags);
    let ghost sv = segments(s@);
    let mut out: Vec<char> = Vec::new();
    let mut i: usize = 0;
    while i < segs.len()
        invariant
            i <= segs@.len(),
            segs@.len() == sv.len(),
            forall|j: int| 0 <= j < segs@.len() ==> (#[trigger] segs@[j]).text@ == sv[j].0
                && segs@[j].style == sv[j].1,
            out@ == segments_markup(sv.take(i as int)),
        decreases segs@.len() - i,
    {
        push_segment(&mut out, &segs[i]);
        assert(sv.take(i + 1).drop_last() =~= sv.take(i as int));
        i += 1;
    }
    assert(sv.take(sv.len() as int) =~= sv);
    string_of(out.as_slice())
}

/// The markup of each line of `text`, split at line feeds, in order.
pub fn render_lines_content(text: &str) -> (r: Vec<String>)
    ensures
        r@.len() == lines_of(text@).len(),
        forall|i: int| 0 <= i < r@.len() ==> #[trigger] r@[i]@ == line_markup(lines_of(text@)[i]),
{
    let lines = split_label_lines(text);
    let mut r: Vec<String> = Vec::new();
    let mut i: usize = 0;
    while i < lines.len()
        invariant
            i <= lines@.len(),
            lines@.len() == lines_of(text@).len(),
            forall|j: int| 0 <= j < lines@.len() ==> #[trigger] lines@[j]@ == lines_of(text@)[j],
            r@.len() == i,
            forall|j: int| 0 <= j < i ==> #[trigger] r@[j]@ == line_markup(lines_of(text@)[j]),
        decreases lines@.len() - i,
    {
        r.push(render_line_content(lines[i].as_str()));
        i += 1;
    }
    r
}

/// The texts of `segs`, concatenated in order.
pub open spec fn segment_texts(segs: Seq<(Seq<char>, StyleState)>) -> Seq<char>
    decreases segs.len(),
{
    if segs.len() == 0 {
        seq![]
    } else {
        segs[0].0 + segment_texts(segs.drop_first())
    }
}

proof fn lemma_tag_index_in_list(name: Seq<char>, tags: Seq<Seq<char>>, i: int)
    requires
        0 <= i,
    ensures
        match tag_index_from(name, tags, i) {
            Some(t) => i <= t < tags.len(),
            None => true,
        },
    decreases tags.len() - i,
{
    if 0 <= i < tags.len() && !same_name(name, tags[i]) {
        lemma_tag_index_in_list(name, tags, i + 1);
    }
}

proof fn lemma_segment_texts_from(s: Seq<char>, k: int, last: int, st: StyleState)
    requires
        0 <= last <= k <= s.len(),
    ensures
        segment_texts(segments_from(s, k, last, st)) == s.subrange(last, k) + tags_removed_from(
            s,
            k,
            format_tags(),
        ),
    decreases s.len() - k,
{
    if k >= s.len() {
        assert(tags_removed_from(s, k, format_tags()) == Seq::<char>::empty());
        let segs = segments_from(s, k, last, st);
        if last < s.len() {
            assert(segs == seq![(s.subrange(last, s.len() as int), st)]);
            assert(segs.drop_first() =~= seq![]);
            assert(segment_texts(segs.drop_first()) == Seq::<char>::empty());
            assert(segment_texts(segs) == s.subrange(last, s.len() as int) + Seq::<char>::empty());
        } else {
            assert(segs == Seq::<(Seq<char>, StyleState)>::empty());
        }
        assert(s.subrange(last, k) + tags_removed_from(s, k, format_tags()) =~= segment_texts(
            segments_from(s, k, last, st),
        ));
    } else {
        match simple_tag_at(s, k, format_tags()) {
            Some((e, t, c)) => {
                let ns = if k + 1 < s.len() && s[k + 1] == '/' { k + 2 } else { k + 1 };
                let ne = ns + letter_run(s, ns);
                lemma_tag_index_in_list(s.subrange(ns, ne), format_tags(), 0);
                assert(format_tag_at(s, k) is Some);
                let next = apply_tag(st, kind_of(t)->0, !c);
                lemma_segment_texts_from(s, e, e, next);
                let rest = segments_from(s, e, e, next);
                assert(s.subrange(e, e) =~= seq![]);
                if k > last {
                    let segs = seq![(s.subrange(last, k), st)] + rest;
                    assert(segs.drop_first() =~= rest);
                    assert(segments_from(s, k, last, st) == segs);
                } else {
                    assert(seq![] + rest =~= rest);
                    assert(s.subrange(last, k) =~= seq![]);
                }
                assert(s.subrange(last, k) + tags_removed_from(s, k, format_tags()) =~= segment_texts(
                    segments_from(s, k, last, st),
                ));
            },
            None => {
                assert(format_tag_at(s, k) is None);
                lemma_segment_texts_from(s, k + 1, last, st);
                assert(s.subrange(last, k + 1) + tags_removed_from(s, k + 1, format_tags()) =~= s.subrange(
                    last,
                    k,
                ) + tags_removed_from(s, k, format_tags()));
            },
        }
    }
}

/// The styled runs of a line, concatenated, are exactly the line with its
/// formatting tags removed.
pub proof fn lemma_segments_cover_stripped_line(s: Seq<char>)
    ensures
        segment_texts(segments(s)) == tags_removed_from(s, 0, format_tags()),
{
    lemma_segment_texts_from(s, 0, 0, plain_style());
    assert(s.subrange(0, 0) + tags_removed_from(s, 0, format_tags()) =~= tags_removed_from(
        s,
        0,
        format_tags(),
    ));
}

} // verus!
