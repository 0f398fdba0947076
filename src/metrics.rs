//! Unicode classification and the character-width heuristic, in tenths of an
//! abstract advance unit, with per-line measurement of labels.

use vstd::prelude::*;
use crate::stadium::lines_of;
use crate::text::{chars_of, string_of};

verus! {

/// Code point in one of the combining diacritical-mark blocks.
pub open spec fn combining(code: u32) -> bool {
    (0x0300 <= code <= 0x036f) || (0x1ab0 <= code <= 0x1aff) || (0x1dc0 <= code <= 0x1dff) || (
    0x20d0 <= code <= 0x20ff) || (0xfe20 <= code <= 0xfe2f)
}

pub fn is_combining_mark(code: u32) -> (r: bool)
    ensures
        r == combining(code),
{
    (0x0300 <= code && code <= 0x036f) || (0x1ab0 <= code && code <= 0x1aff) || (0x1dc0 <= code
        && code <= 0x1dff) || (0x20d0 <= code && code <= 0x20ff) || (0xfe20 <= code && code
        <= 0xfe2f)
}

/// Code point in a CJK, Hangul, ideographic or fullwidth-forms block, or at
/// U+20000 and above.
pub open spec fn fullwidth(code: u32) -> bool {
    (0x1100 <= code <= 0x115f) || (0x2e80 <= code <= 0x2eff) || (0x2f00 <= code <= 0x2fdf) || (
    0x3000 <= code <= 0x303f) || (0x3040 <= code <= 0x309f) || (0x30a0 <= code <= 0x30ff) || (
    0x3100 <= code <= 0x312f) || (0x3130 <= code <= 0x318f) || (0x3190 <= code <= 0x31ff) || (
    0x3200 <= code <= 0x33ff) || (0x3400 <= code <= 0x4dbf) || (0x4e00 <= code <= 0x9fff) || (
    0xac00 <= code <= 0xd7af) || (0xf900 <= code <= 0xfaff) || (0xff00 <= code <= 0xff60) || (
    0xffe0 <= code <= 0xffe6) || code >= 0x20000
}

pub fn is_fullwidth(code: u32) -> (r: bool)
    ensures
        r == fullwidth(code),
{
    (0x1100 <= code && code <= 0x115f) || (0x2e80 <= code && code <= 0x2eff) || (0x2f00 <= code
        && code <= 0x2fdf) || (0x3000 <= code && code <= 0x303f) || (0x3040 <= code && code
        <= 0x309f) || (0x30a0 <= code && code <= 0x30ff) || (0x3100 <= code && code <= 0x312f) || (
    0x3130 <= code && code <= 0x318f) || (0x3190 <= code && code <= 0x31ff) || (0x3200 <= code
        && code <= 0x33ff) || (0x3400 <= code && code <= 0x4dbf) || (0x4e00 <= code && code
        <= 0x9fff) || (0xac00 <= code && code <= 0xd7af) || (0xf900 <= code && code <= 0xfaff) || (
    0xff00 <= code && code <= 0xff60) || (0xffe0 <= code && code <= 0xffe6) || code >= 0x20000
}

/// Whether some character of `s` has the Unicode property `Emoji_Presentation`
/// or `Extended_Pictographic`.
pub uninterp spec fn emoji_match(s: Seq<char>) -> bool;

#[verifier::external_type_specification]
#[verifier::external_body]
pub struct ExRegex(regex::Regex);

/// The compiled emoji test. Only `emoji_matcher` makes one.
pub struct EmojiMatcher {
    re: Option<regex::Regex>,
}

/// Relies on `regex::Regex::new`: compiles the pattern
/// `\p{Emoji_Presentation}|\p{Extended_Pictographic}`.
#[verifier::external_body]
fn emoji_matcher() -> EmojiMatcher {
    EmojiMatcher { re: regex::Regex::new(r"\p{Emoji_Presentation}|\p{Extended_Pictographic}").ok() }
}

/// Relies on `regex::Regex::is_match` with the pattern that `emoji_matcher`
/// compiles: whether the text holds a character with either property, which
/// depends on the text alone.
#[verifier::external_body]
fn is_emoji(matcher: &EmojiMatcher, text: &str) -> (r: bool)
    ensures
        r == emoji_match(text@),
{
    match &matcher.re {
        Some(re) => re.is_match(text),
        None => false,
    }
}

/// `s` with every match of the pattern `(?i)</?(?:b|strong|i|em|u|s|del)\s*>`
/// removed.
pub uninterp spec fn format_tags_matched_removed(s: Seq<char>) -> Seq<char>;

/// The compiled formatting-tag pattern. Only `format_tag_matcher` makes one.
pub struct FormatTagMatcher {
    re: Option<regex::Regex>,
}

/// Relies on `regex::Regex::new`: compiles the pattern
/// `(?i)</?(?:b|strong|i|em|u|s|del)\s*>`.
#[verifier::external_body]
fn format_tag_matcher() -> FormatTagMatcher {
    FormatTagMatcher { re: regex::Regex::new(r"(?i)</?(?:b|strong|i|em|u|s|del)\s*>").ok() }
}

/// Relies on `regex::Regex::replace_all` with the pattern that
/// `format_tag_matcher` compiles and an empty replacement: the result depends
/// on the text alone.
#[verifier::external_body]
fn remove_format_tag_matches(matcher: &FormatTagMatcher, text: &str) -> (r: String)
    ensures
        r@ == format_tags_matched_removed(text@),
{
    match &matcher.re {
        Some(re) => re.replace_all(text, "").into_owned(),
        None => text.to_string(),
    }
}

/// Removes the formatting tags from a line before it is measured.
pub fn strip_formatting_tags(text: &str) -> (r: String)
    ensures
        r@ == format_tags_matched_removed(text@),
{
    let matcher = format_tag_matcher();
    remove_format_tag_matches(&matcher, text)
}

pub open spec fn is_one_of(t: Seq<char>, set: Seq<char>) -> bool {
    t.len() == 1 && set.contains(t[0])
}

/// The advance width of the text of one character, in tenths of a unit, given
/// whether it holds an emoji; the first matching rule wins: combining mark 0,
/// fullwidth or emoji 20, space 3, `W` `M` 15, `W M w m @ %` 12, narrow
/// letters and punctuation 4, brackets, slashes, dash and quotes 5, `r` 8, ASCII
/// capital 12, digit 10, anything else 10. Empty text has no width.
pub open spec fn text_units(t: Seq<char>, emoji: bool) -> nat {
    if t.len() == 0 {
        0
    } else if combining(t[0] as u32) {
        0
    } else if fullwidth(t[0] as u32) || emoji {
        20
    } else if t.len() == 1 && t[0] == ' ' {
        3
    } else if is_one_of(t, seq!['W', 'M']) {
        15
    } else if is_one_of(t, seq!['W', 'M', 'w', 'm', '@', '%']) {
        12
    } else if is_one_of(t, seq!['i', 'l', 't', 'f', 'j', 'I', '1', '!', '|', '.', ',', ':', ';', '\''])
    {
        4
    } else if is_one_of(t, seq!['(', ')', '[', ']', '{', '}', '/', '\\', '-', '"', '`']) {
        5
    } else if t.len() == 1 && t[0] == 'r' {
        8
    } else if 65 <= t[0] as u32 <= 90 {
        12
    } else if 48 <= t[0] as u32 <= 57 {
        10
    } else {
        10
    }
}

/// Whether `t` is one character out of `set`.
fn one_of(t: &[char], set: &[char]) -> (r: bool)
    ensures
        r == is_one_of(t@, set@),
{
    if t.len() != 1 {
        return false;
    }
    let mut i: usize = 0;
    while i < set.len()
        invariant
            i <= set@.len(),
            t@.len() == 1,
            forall|j: int| 0 <= j < i ==> set@[j] != t@[0],
        decreases set@.len() - i,
    {
        if set[i] == t[0] {
            return true;
        }
        i += 1;
    }
    false
}

/// The width rule of `text_units`, with the emoji test given.
pub fn width_units_given(text: &str, emoji: bool) -> (r: u64)
    ensures
        r == text_units(text@, emoji),
{
    let t = chars_of(text);
    if t.len() == 0 {
        return 0;
    }
    let code = t[0] as u32;
    if is_combining_mark(code) {
        0
    } else if is_fullwidth(code) || emoji {
        20
    } else if t.len() == 1 && t[0] == ' ' {
        3
    } else if one_of(t.as_slice(), &['W', 'M']) {
        15
    } else if one_of(t.as_slice(), &['W', 'M', 'w', 'm', '@', '%']) {
        12
    } else if one_of(t.as_slice(), &['i', 'l', 't', 'f', 'j', 'I', '1', '!', '|', '.', ',', ':', ';', '\''])
    {
        4
    } else if one_of(t.as_slice(), &['(', ')', '[', ']', '{', '}', '/', '\\', '-', '"', '`']) {
        5
    } else if t.len() == 1 && t[0] == 'r' {
        8
    } else if 65 <= code && code <= 90 {
        12
    } else if 48 <= code && code <= 57 {
        10
    } else {
        10
    }
}

/// The advance width of the text of one character, in tenths of a unit.
pub fn get_char_width_units(text: &str) -> (r: u64)
    ensures
        r == text_units(text@, emoji_match(text@)),
{
    let matcher = emoji_matcher();
    let emoji = is_emoji(&matcher, text);
    width_units_given(text, emoji)
}

/// Width of one character, in tenths of a unit.
pub open spec fn char_units(c: char) -> nat {
    text_units(seq![c], emoji_match(seq![c]))
}

/// The sum of the character widths of `s`, in tenths of a unit.
pub open spec fn units_sum(s: Seq<char>) -> nat
    decreases s.len(),
{
    if s.len() == 0 {
        0
    } else {
        units_sum(s.drop_last()) + char_units(s.last())
    }
}

proof fn lemma_text_units_bound(t: Seq<char>, emoji: bool)
    ensures
        text_units(t, emoji) <= 20,
{
}

/// The width of `text` before scaling: the sum of its characters' widths, in
/// tenths of a unit.
pub fn text_width_units(text: &str) -> (r: u128)
    ensures
        r == units_sum(text@),
{
    let t = chars_of(text);
    let matcher = emoji_matcher();
    let mut total: u128 = 0;
    let mut i: usize = 0;
    while i < t.len()
        invariant
            i <= t@.len(),
            t@ == text@,
            total == units_sum(t@.take(i as int)),
            total <= 20 * i,
        decreases t@.len() - i,
    {
        let one = [t[i]];
        let s = string_of(&one);
        assert(s@ =~= seq![t@[i as int]]);
        proof {
            lemma_text_units_bound(s@, emoji_match(s@));
        }
        let emoji = is_emoji(&matcher, s.as_str());
        let w = width_units_given(s.as_str(), emoji);
        assert(t@.take(i + 1).drop_last() =~= t@.take(i as int));
        total = total + w as u128;
        i += 1;
    }
    assert(t@.take(t@.len() as int) =~= t@);
    total
}

/// The lines of `text`, split at each line feed.
pub fn split_label_lines(text: &str) -> (r: Vec<String>)
    ensures
        r@.len() == lines_of(text@).len(),
        forall|i: int| 0 <= i < r@.len() ==> #[trigger] r@[i]@ == lines_of(text@)[i],
{
    let t = chars_of(text);
    let mut lines: Vec<String> = Vec::new();
    let mut current: Vec<char> = Vec::new();
    let mut i: usize = 0;
    while i < t.len()
        invariant
            i <= t@.len(),
            t@ == text@,
            lines@.len() + 1 == lines_of(t@.take(i as int)).len(),
            forall|j: int| 0 <= j < lines@.len() ==> #[trigger] lines@[j]@ == lines_of(t@.take(i as int))[j],
            current@ == lines_of(t@.take(i as int)).last(),
        decreases t@.len() - i,
    {
        assert(t@.take(i + 1).drop_last() =~= t@.take(i as int));
        if t[i] == '\n' {
            lines.push(string_of(current.as_slice()));
            current = Vec::new();
        } else {
            current.push(t[i]);
        }
        i += 1;
    }
    assert(t@.take(t@.len() as int) =~= t@);
    lines.push(string_of(current.as_slice()));
    lines
}

/// For each line of `text`, the width in tenths of a unit of its characters
/// once the formatting tags are removed.
pub fn line_width_units(text: &str) -> (r: Vec<u128>)
    ensures
        r@.len() == lines_of(text@).len(),
        forall|i: int| 0 <= i < r@.len() ==> #[trigger] r@[i] == units_sum(
            format_tags_matched_removed(lines_of(text@)[i]),
        ),
{
    let lines = split_label_lines(text);
    let matcher = format_tag_matcher();
    let mut r: Vec<u128> = Vec::new();
    let mut i: usize = 0;
    while i < lines.len()
        invariant
            i <= lines@.len(),
            lines@.len() == lines_of(text@).len(),
            forall|j: int| 0 <= j < lines@.len() ==> #[trigger] lines@[j]@ == lines_of(text@)[j],
            r@.len() == i,
            forall|j: int| 0 <= j < i ==> #[trigger] r@[j] == units_sum(
                format_tags_matched_removed(lines_of(text@)[j]),
            ),
        decreases lines@.len() - i,
    {
        let plain = remove_format_tag_matches(&matcher, lines[i].as_str());
        r.push(text_width_units(plain.as_str()));
        i += 1;
    }
    r
}

} // verus!
