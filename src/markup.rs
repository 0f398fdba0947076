//! Label markup: XML escaping and the normalisation of raw labels into
//! canonical inline formatting tags.

use vstd::prelude::*;
use crate::text::{chars_of, string_of};

verus! {

/// ASCII whitespace: space, tab, line feed, form feed, carriage return.
pub open spec fn is_ascii_ws(c: char) -> bool {
    c == ' ' || c == '\t' || c == '\n' || c == '\x0C' || c == '\r'
}

fn ascii_ws(c: char) -> (r: bool)
    ensures
        r == is_ascii_ws(c),
{
    c == ' ' || c == '\t' || c == '\n' || c == '\x0C' || c == '\r'
}

/// ASCII letter, either case.
pub open spec fn is_ascii_letter(c: char) -> bool {
    (65 <= c as u32 <= 90) || (97 <= c as u32 <= 122)
}

fn ascii_letter(c: char) -> (r: bool)
    ensures
        r == is_ascii_letter(c),
{
    let u = c as u32;
    (65 <= u && u <= 90) || (97 <= u && u <= 122)
}

/// Code of the character after ASCII lowercasing.
pub open spec fn lower_code(c: char) -> u32 {
    if 65 <= c as u32 <= 90 {
        (c as u32 + 32) as u32
    } else {
        c as u32
    }
}

fn lower(c: char) -> (r: u32)
    ensures
        r == lower_code(c),
{
    let u = c as u32;
    if 65 <= u && u <= 90 {
        u + 32
    } else {
        u
    }
}

/// The replacement text of one character under XML escaping.
pub open spec fn escape_char(c: char) -> Seq<char> {
    if c == '&' {
        seq!['&', 'a', 'm', 'p', ';']
    } else if c == '<' {
        seq!['&', 'l', 't', ';']
    } else if c == '>' {
        seq!['&', 'g', 't', ';']
    } else if c == '"' {
        seq!['&', 'q', 'u', 'o', 't', ';']
    } else if c == '\'' {
        seq!['&', '#', '3', '9', ';']
    } else {
        seq![c]
    }
}

/// `s` with each of `& < > " '` replaced by its XML entity.
pub open spec fn escaped(s: Seq<char>) -> Seq<char>
    decreases s.len(),
{
    if s.len() == 0 {
        seq![]
    } else {
        escaped(s.drop_last()) + escape_char(s.last())
    }
}

/// Appends the escaped form of `c` to `out`.
fn push_escaped(out: &mut Vec<char>, c: char)
    ensures
        final(out)@ == old(out)@ + escape_char(c),
{
    if c == '&' {
        out.extend_from_slice(&['&', 'a', 'm', 'p', ';']);
    } else if c == '<' {
        out.extend_from_slice(&['&', 'l', 't', ';']);
    } else if c == '>' {
        out.extend_from_slice(&['&', 'g', 't', ';']);
    } else if c == '"' {
        out.extend_from_slice(&['&', 'q', 'u', 'o', 't', ';']);
    } else if c == '\'' {
        out.extend_from_slice(&['&', '#', '3', '9', ';']);
    } else {
        out.push(c);
    }
    assert(final(out)@ =~= old(out)@ + escape_char(c));
}

/// Appends the escaped form of `s[from..to]` to `out`.
pub(crate) fn push_escaped_range(out: &mut Vec<char>, s: &[char], from: usize, to: usize)
    requires
        from <= to <= s@.len(),
    ensures
        final(out)@ == old(out)@ + escaped(s@.subrange(from as int, to as int)),
{
    let mut i = from;
    while i < to
        invariant
            from <= i <= to <= s@.len(),
            out@ == old(out)@ + escaped(s@.subrange(from as int, i as int)),
        decreases to - i,
    {
        push_escaped(out, s[i]);
        assert(s@.subrange(from as int, i + 1) .drop_last() =~= s@.subrange(from as int, i as int));
        i += 1;
    }
}

/// Escapes `& < > " '` as XML entities.
pub fn escape_xml(text: &str) -> (r: String)
    ensures
        r@ == escaped(text@),
{
    let s = chars_of(text);
    let mut out: Vec<char> = Vec::new();
    push_escaped_range(&mut out, s.as_slice(), 0, s.len());
    assert(s@.subrange(0, s@.len() as int) =~= s@);
    string_of(out.as_slice())
}

/// `s` without one layer of surrounding double quotes; a lone `"` becomes empty.
pub open spec fn unquoted(s: Seq<char>) -> Seq<char> {
    if s.len() > 0 && s[0] == '"' && s.last() == '"' {
        if s.len() == 1 {
            seq![]
        } else {
            s.subrange(1, s.len() - 1)
        }
    } else {
        s
    }
}

fn strip_surrounding_quotes(input: &[char]) -> (r: Vec<char>)
    ensures
        r@ == unquoted(input@),
{
    let n = input.len();
    let mut r: Vec<char> = Vec::new();
    if n > 0 && input[0] == '"' && input[n - 1] == '"' {
        if n > 1 {
            let mut i: usize = 1;
            while i < n - 1
                invariant
                    1 <= i <= n - 1,
                    n == input@.len(),
                    r@ == input@.subrange(1, i as int),
                decreases n - 1 - i,
            {
                r.push(input[i]);
                assert(input@.subrange(1, i + 1) =~= input@.subrange(1, i as int).push(input@[i as int]));
                i += 1;
            }
        }
        r
    } else {
        r.extend_from_slice(input);
        assert(r@ =~= input@);
        r
    }
}

/// Length of the run of ASCII whitespace starting at `j`.
pub open spec fn ws_run(s: Seq<char>, j: int) -> nat
    decreases s.len() - j,
{
    if 0 <= j < s.len() && is_ascii_ws(s[j]) {
        1 + ws_run(s, j + 1)
    } else {
        0
    }
}

/// Length of the run of ASCII letters starting at `j`.
pub open spec fn letter_run(s: Seq<char>, j: int) -> nat
    decreases s.len() - j,
{
    if 0 <= j < s.len() && is_ascii_letter(s[j]) {
        1 + letter_run(s, j + 1)
    } else {
        0
    }
}

/// Index just past the whitespace run that starts at `from`.
fn skip_ws(s: &[char], from: usize) -> (r: usize)
    requires
        from <= s@.len(),
    ensures
        r == from + ws_run(s@, from as int),
        r <= s@.len(),
{
    let mut i = from;
    while i < s.len() && ascii_ws(s[i])
        invariant
            from <= i <= s@.len(),
            from + ws_run(s@, from as int) == i + ws_run(s@, i as int),
        decreases s@.len() - i,
    {
        i += 1;
    }
    i
}

/// Index just past the letter run that starts at `from`.
fn skip_letters(s: &[char], from: usize) -> (r: usize)
    requires
        from <= s@.len(),
    ensures
        r == from + letter_run(s@, from as int),
        r <= s@.len(),
{
    let mut i = from;
    while i < s.len() && ascii_letter(s[i])
        invariant
            from <= i <= s@.len(),
            from + letter_run(s@, from as int) == i + letter_run(s@, i as int),
        decreases s@.len() - i,
    {
        i += 1;
    }
    i
}

/// End (just past `>`) of a line-break tag `<br>`, `<br/>`, `<br  />` (any case)
/// that starts at `k`, if one does.
pub open spec fn br_tag_end(s: Seq<char>, k: int) -> Option<int> {
    if 0 <= k && k + 2 < s.len() && s[k] == '<' && lower_code(s[k + 1]) == 98
        && lower_code(s[k + 2]) == 114 {
        let j = k + 3 + ws_run(s, k + 3);
        let e = if j < s.len() && s[j] == '/' { j + 1 } else { j };
        if e < s.len() && s[e] == '>' {
            Some(e + 1)
        } else {
            None
        }
    } else {
        None
    }
}

fn parse_br_tag(input: &[char], start: usize) -> (r: Option<usize>)
    ensures
        match r {
            Some(e) => br_tag_end(input@, start as int) == Some(e as int),
            None => br_tag_end(input@, start as int) is None,
        },
{
    let n = input.len();
    if start >= n {
        return None;
    }
    if input[start] != '<' || n - start <= 2 {
        return None;
    }
    if lower(input[start + 1]) != 98 || lower(input[start + 2]) != 114 {
        return None;
    }
    let mut index = skip_ws(input, start + 3);
    if index < n && input[index] == '/' {
        index += 1;
    }
    if index < n && input[index] == '>' {
        Some(index + 1)
    } else {
        None
    }
}

/// `s[k..]` with every line-break tag replaced by a line feed.
pub open spec fn breaks_from(s: Seq<char>, k: int) -> Seq<char>
    decreases s.len() - k,
{
    if k < 0 || k >= s.len() {
        seq![]
    } else {
        match br_tag_end(s, k) {
            Some(e) => seq!['\n'] + breaks_from(s, e),
            None => seq![s[k]] + breaks_from(s, k + 1),
        }
    }
}

fn replace_br_tags(input: &[char]) -> (r: Vec<char>)
    ensures
        r@ == breaks_from(input@, 0),
{
    let mut out: Vec<char> = Vec::new();
    let mut index: usize = 0;
    while index < input.len()
        invariant
            index <= input@.len(),
            breaks_from(input@, 0) == out@ + breaks_from(input@, index as int),
        decreases input@.len() - index,
    {
        match parse_br_tag(input, index) {
            Some(end) => {
                assert(out@.push('\n') + breaks_from(input@, end as int) =~= out@ + breaks_from(
                    input@,
                    index as int,
                ));
                out.push('\n');
                index = end;
            },
            None => {
                assert(out@.push(input@[index as int]) + breaks_from(input@, index + 1) =~= out@
                    + breaks_from(input@, index as int));
                out.push(input[index]);
                index += 1;
            },
        }
    }
    assert(out@ + breaks_from(input@, index as int) =~= out@);
    out
}

/// `s[k..]` with every two-character escape `\n` replaced by a line feed.
pub open spec fn escapes_from(s: Seq<char>, k: int) -> Seq<char>
    decreases s.len() - k,
{
    if k < 0 || k >= s.len() {
        seq![]
    } else if k + 1 < s.len() && s[k] == '\\' && s[k + 1] == 'n' {
        seq!['\n'] + escapes_from(s, k + 2)
    } else {
        seq![s[k]] + escapes_from(s, k + 1)
    }
}

fn replace_escaped_newlines(input: &[char]) -> (r: Vec<char>)
    ensures
        r@ == escapes_from(input@, 0),
{
    let mut out: Vec<char> = Vec::new();
    let mut index: usize = 0;
    while index < input.len()
        invariant
            index <= input@.len(),
            escapes_from(input@, 0) == out@ + escapes_from(input@, index as int),
        decreases input@.len() - index,
    {
        if index + 1 < input.len() && input[index] == '\\' && input[index + 1] == 'n' {
            assert(out@.push('\n') + escapes_from(input@, index + 2) =~= out@ + escapes_from(
                input@,
                index as int,
            ));
            out.push('\n');
            index += 2;
        } else {
            assert(out@.push(input@[index as int]) + escapes_from(input@, index + 1) =~= out@
                + escapes_from(input@, index as int));
            out.push(input[index]);
            index += 1;
        }
    }
    assert(out@ + escapes_from(input@, index as int) =~= out@);
    out
}

/// `name` equals `tag` when both are lowercased in ASCII.
pub open spec fn same_name(name: Seq<char>, tag: Seq<char>) -> bool {
    name.len() == tag.len() && forall|i: int|
        0 <= i < name.len() ==> lower_code(name[i]) == lower_code(#[trigger] tag[i])
}

/// Position, at `i` or after, of the first tag of `tags` that `name` names.
pub open spec fn tag_index_from(name: Seq<char>, tags: Seq<Seq<char>>, i: int) -> Option<int>
    decreases tags.len() - i,
{
    if i < 0 || i >= tags.len() {
        None
    } else if same_name(name, tags[i]) {
        Some(i)
    } else {
        tag_index_from(name, tags, i + 1)
    }
}

/// The tag `<name>` or `</name>` of the allow-list `tags` that starts at `k`, if
/// one does: its end (just past `>`), the position of its name in `tags`, and
/// whether it closes. The name is a run of ASCII letters, compared to the list
/// without regard to ASCII case, and may be followed by ASCII whitespace.
pub open spec fn simple_tag_at(s: Seq<char>, k: int, tags: Seq<Seq<char>>) -> Option<
    (int, int, bool),
> {
    if 0 <= k < s.len() && s[k] == '<' {
        let closing = k + 1 < s.len() && s[k + 1] == '/';
        let ns = if closing { k + 2 } else { k + 1 };
        let ne = ns + letter_run(s, ns);
        if ne == ns {
            None
        } else {
            match tag_index_from(s.subrange(ns, ne), tags, 0) {
                Some(t) => {
                    let gt = ne + ws_run(s, ne);
                    if gt < s.len() && s[gt] == '>' {
                        Some((gt + 1, t, closing))
                    } else {
                        None
                    }
                },
                None => None,
            }
        }
    } else {
        None
    }
}

/// The tags removed by normalisation, keeping what they enclose.
pub open spec fn strip_only_tags() -> Seq<Seq<char>> {
    seq![seq!['s', 'u', 'b'], seq!['s', 'u', 'p'], seq!['s', 'm', 'a', 'l', 'l'], seq!['m', 'a', 'r', 'k']]
}

/// The inline formatting tags; `b`/`strong`, `i`/`em`, `u`, `s`/`del`.
pub open spec fn format_tags() -> Seq<Seq<char>> {
    seq![
        seq!['b'],
        seq!['s', 't', 'r', 'o', 'n', 'g'],
        seq!['i'],
        seq!['e', 'm'],
        seq!['u'],
        seq!['s'],
        seq!['d', 'e', 'l'],
    ]
}

fn strip_only_tag_names() -> (r: Vec<Vec<char>>)
    ensures
        r.deep_view() == strip_only_tags(),
{
    let r = vec![vec!['s', 'u', 'b'], vec!['s', 'u', 'p'], vec!['s', 'm', 'a', 'l', 'l'], vec!['m', 'a', 'r', 'k']];
    assert(r.deep_view() =~~= strip_only_tags());
    r
}

pub(crate) fn format_tag_names() -> (r: Vec<Vec<char>>)
    ensures
        r.deep_view() == format_tags(),
{
    let r = vec![
        vec!['b'],
        vec!['s', 't', 'r', 'o', 'n', 'g'],
        vec!['i'],
        vec!['e', 'm'],
        vec!['u'],
        vec!['s'],
        vec!['d', 'e', 'l'],
    ];
    assert(r.deep_view() =~~= format_tags());
    r
}

/// Whether `s[from..to]` names `tag`, without regard to ASCII case.
fn names_tag(s: &[char], from: usize, to: usize, tag: &Vec<char>) -> (r: bool)
    requires
        from <= to <= s@.len(),
    ensures
        r == same_name(s@.subrange(from as int, to as int), tag@),
{
    if to - from != tag.len() {
        return false;
    }
    let mut i: usize = 0;
    while i < tag.len()
        invariant
            from <= to <= s@.len(),
            to - from == tag@.len(),
            i <= tag@.len(),
            forall|j: int| 0 <= j < i ==> lower_code(s@[from + j]) == lower_code(tag@[j]),
        decreases tag@.len() - i,
    {
        if lower(s[from + i]) != lower(tag[i]) {
            return false;
        }
        i += 1;
    }
    true
}

fn find_tag(s: &[char], from: usize, to: usize, tags: &Vec<Vec<char>>) -> (r: Option<usize>)
    requires
        from <= to <= s@.len(),
    ensures
        match r {
            Some(t) => tag_index_from(s@.subrange(from as int, to as int), tags.deep_view(), 0)
                == Some(t as int),
            None => tag_index_from(s@.subrange(from as int, to as int), tags.deep_view(), 0) is None,
        },
{
    let ghost name = s@.subrange(from as int, to as int);
    let mut i: usize = 0;
    while i < tags.len()
        invariant
            from <= to <= s@.len(),
            name == s@.subrange(from as int, to as int),
            i <= tags@.len(),
            tags.deep_view().len() == tags@.len(),
            tag_index_from(name, tags.deep_view(), 0) == tag_index_from(name, tags.deep_view(), i as int),
        decreases tags@.len() - i,
    {
        assert(tags.deep_view()[i as int] == tags@[i as int]@);
        if names_tag(s, from, to, &tags[i]) {
            return Some(i);
        }
        i += 1;
    }
    None
}

pub(crate) fn parse_simple_tag(input: &[char], start: usize, tags: &Vec<Vec<char>>) -> (r: Option<(usize, usize, bool)>)
    ensures
        match r {
            Some((e, t, c)) => simple_tag_at(input@, start as int, tags.deep_view()) == Some(
                (e as int, t as int, c),
            ),
            None => simple_tag_at(input@, start as int, tags.deep_view()) is None,
        },
{
    let n = input.len();
    if start >= n {
        return None;
    }
    if input[start] != '<' {
        return None;
    }
    let closing = start + 1 < n && input[start + 1] == '/';
    let name_start = if closing { start + 2 } else { start + 1 };
    let name_end = skip_letters(input, name_start);
    if name_end == name_start {
        return None;
    }
    match find_tag(input, name_start, name_end, tags) {
        Some(t) => {
            let gt = skip_ws(input, name_end);
            if gt < n && input[gt] == '>' {
                Some((gt + 1, t, closing))
            } else {
                None
            }
        },
        None => None,
    }
}

/// `s[k..]` with every tag of `tags` removed and the text between kept.
pub open spec fn tags_removed_from(s: Seq<char>, k: int, tags: Seq<Seq<char>>) -> Seq<char>
    decreases s.len() - k,
{
    if k < 0 || k >= s.len() {
        seq![]
    } else {
        match simple_tag_at(s, k, tags) {
            Some((e, _, _)) => tags_removed_from(s, e, tags),
            None => seq![s[k]] + tags_removed_from(s, k + 1, tags),
        }
    }
}

fn remove_simple_tags(input: &[char], tags: &Vec<Vec<char>>) -> (r: Vec<char>)
    ensures
        r@ == tags_removed_from(input@, 0, tags.deep_view()),
{
    let ghost t = tags.deep_view();
    let mut out: Vec<char> = Vec::new();
    let mut index: usize = 0;
    while index < input.len()
        invariant
            index <= input@.len(),
            t == tags.deep_view(),
            tags_removed_from(input@, 0, t) == out@ + tags_removed_from(input@, index as int, t),
        decreases input@.len() - index,
    {
        match parse_simple_tag(input, index, tags) {
            Some((end, _, _)) => {
                index = end;
            },
            None => {
                assert(out@.push(input@[index as int]) + tags_removed_from(input@, index + 1, t)
                    =~= out@ + tags_removed_from(input@, index as int, t));
                out.push(input[index]);
                index += 1;
            },
        }
    }
    assert(out@ + tags_removed_from(input@, index as int, t) =~= out@);
    out
}

/// Removes the inline formatting tags (`b`, `strong`, `i`, `em`, `u`, `s`, `del`,
/// opening and closing), keeping the text between them.
pub fn strip_formatting_tags(text: &str) -> (r: String)
    ensures
        r@ == tags_removed_from(text@, 0, format_tags()),
{
    let s = chars_of(text);
    let tags = format_tag_names();
    let out = remove_simple_tags(s.as_slice(), &tags);
    string_of(out.as_slice())
}

/// Appends `s[from..to]` to `out`.
pub(crate) fn push_range(out: &mut Vec<char>, s: &[char], from: usize, to: usize)
    requires
        from <= to <= s@.len(),
    ensures
        final(out)@ == old(out)@ + s@.subrange(from as int, to as int),
{
    let mut i = from;
    while i < to
        invariant
            from <= i <= to <= s@.len(),
            out@ == old(out)@ + s@.subrange(from as int, i as int),
        decreases to - i,
    {
        out.push(s[i]);
        assert(s@.subrange(from as int, i + 1) =~= s@.subrange(from as int, i as int).push(s@[i as int]));
        i += 1;
    }
}

/// Line feed, carriage return, line separator or paragraph separator.
pub open spec fn is_line_terminator(c: char) -> bool {
    c == '\n' || c == '\r' || c == '\u{2028}' || c == '\u{2029}'
}

/// Index of the first line terminator at `j` or after, or the length of `s`.
pub open spec fn line_end(s: Seq<char>, j: int) -> int
    decreases s.len() - j,
{
    if 0 <= j < s.len() && !is_line_terminator(s[j]) {
        line_end(s, j + 1)
    } else {
        j
    }
}

fn find_first_line_terminator(input: &[char], from: usize) -> (r: Option<usize>)
    requires
        from <= input@.len(),
    ensures
        line_end(input@, from as int) < input@.len() ==> r == Some(line_end(input@, from as int) as usize),
        line_end(input@, from as int) >= input@.len() ==> r is None,
{
    let mut i = from;
    while i < input.len()
        invariant
            from <= i <= input@.len(),
            line_end(input@, from as int) == line_end(input@, i as int),
        decreases input@.len() - i,
    {
        let c = input[i];
        if c == '\n' || c == '\r' || c == '\u{2028}' || c == '\u{2029}' {
            return Some(i);
        }
        i += 1;
    }
    None
}

/// A doubled marker `mm` starts at `j`.
pub open spec fn marker_at(s: Seq<char>, j: int, m: char) -> bool {
    0 <= j && j + 1 < s.len() && s[j] == m && s[j + 1] == m
}

/// Number of positions from `j` to the first doubled marker or the end of `s`.
pub open spec fn marker_gap(s: Seq<char>, j: int, m: char) -> nat
    decreases s.len() - j,
{
    if 0 <= j < s.len() && !marker_at(s, j, m) {
        1 + marker_gap(s, j + 1, m)
    } else {
        0
    }
}

/// Index of the first doubled marker at `j` or after, or the length of `s`.
pub open spec fn next_marker(s: Seq<char>, j: int, m: char) -> int {
    j + marker_gap(s, j, m)
}

fn find_marker(input: &[char], from: usize, m: char) -> (r: usize)
    requires
        from <= input@.len(),
    ensures
        r == next_marker(input@, from as int, m),
{
    let n = input.len();
    let mut i = from;
    while i < n && !(i + 1 < n && input[i] == m && input[i + 1] == m)
        invariant
            from <= i <= n,
            n == input@.len(),
            next_marker(input@, from as int, m) == next_marker(input@, i as int, m),
        decreases n - i,
    {
        assert(next_marker(input@, i as int, m) == next_marker(input@, i + 1, m));
        i += 1;
    }
    i
}

/// The marker pair opened at `k` closes before the end of its line: there is at
/// least one character of content, and the next marker after it ends before the
/// first line terminator that follows the opener.
pub open spec fn pair_closes(s: Seq<char>, k: int, m: char) -> bool {
    &&& marker_at(s, k, m) && k + 2 < s.len()
    &&& next_marker(s, k + 3, m) + 2 <= s.len()
    &&& next_marker(s, k + 3, m) + 2 <= line_end(s, k + 2)
}

/// `s[k..]` with each span `mm..mm` that closes on its line written as
/// `open..close`, scanning left to right.
pub open spec fn pairs_from(s: Seq<char>, k: int, m: char, open: Seq<char>, close: Seq<char>) -> Seq<
    char,
>
    decreases s.len() - k,
{
    if k < 0 || k >= s.len() {
        seq![]
    } else if pair_closes(s, k, m) {
        let e = k + 3 + marker_gap(s, k + 3, m);
        open + s.subrange(k + 2, e) + close + pairs_from(s, e + 2, m, open, close)
    } else {
        seq![s[k]] + pairs_from(s, k + 1, m, open, close)
    }
}

proof fn lemma_next_marker_bounds(s: Seq<char>, j: int, m: char)
    requires
        0 <= j,
    ensures
        j <= next_marker(s, j, m),
        j <= s.len() ==> next_marker(s, j, m) <= s.len(),
        next_marker(s, j, m) < s.len() ==> marker_at(s, next_marker(s, j, m), m),
    decreases s.len() - j,
{
    if 0 <= j < s.len() && !marker_at(s, j, m) {
        lemma_next_marker_bounds(s, j + 1, m);
    }
}

proof fn lemma_line_end_bounds(s: Seq<char>, j: int)
    requires
        0 <= j <= s.len(),
    ensures
        j <= line_end(s, j) <= s.len(),
    decreases s.len() - j,
{
    if 0 <= j < s.len() && !is_line_terminator(s[j]) {
        lemma_line_end_bounds(s, j + 1);
    }
}

fn replace_markdown_pair(input: &[char], m: char, open: &[char], close: &[char]) -> (r: Vec<char>)
    ensures
        r@ == pairs_from(input@, 0, m, open@, close@),
{
    let n = input.len();
    let mut out: Vec<char> = Vec::new();
    let mut k: usize = 0;
    while k < n
        invariant
            k <= n,
            n == input@.len(),
            pairs_from(input@, 0, m, open@, close@) == out@ + pairs_from(input@, k as int, m, open@, close@),
        decreases n - k,
    {
        let mut closed = false;
        if k + 1 < n && input[k] == m && input[k + 1] == m && k + 2 < n {
            let limit = match find_first_line_terminator(input, k + 2) {
                Some(t) => t,
                None => n,
            };
            proof {
                lemma_line_end_bounds(input@, k + 2);
                lemma_next_marker_bounds(input@, k + 3, m);
            }
            let e = find_marker(input, k + 3, m);
            if e < n && e + 2 <= limit {
                let ghost before = out@;
                out.extend_from_slice(open);
                push_range(&mut out, input, k + 2, e);
                out.extend_from_slice(close);
                assert(out@ + pairs_from(input@, e + 2, m, open@, close@) =~= before + pairs_from(
                    input@,
                    k as int,
                    m,
                    open@,
                    close@,
                ));
                k = e + 2;
                closed = true;
            }
        }
        if !closed {
            assert(out@.push(input@[k as int]) + pairs_from(input@, k + 1, m, open@, close@) =~= out@
                + pairs_from(input@, k as int, m, open@, close@));
            out.push(input[k]);
            k += 1;
        }
    }
    assert(out@ + pairs_from(input@, k as int, m, open@, close@) =~= out@);
    out
}

/// The `White_Space` property of Unicode.
pub open spec fn is_white_space(c: char) -> bool {
    let u = c as u32;
    (9 <= u <= 13) || u == 32 || u == 0x85 || u == 0xA0 || u == 0x1680 || (0x2000 <= u <= 0x200A)
        || u == 0x2028 || u == 0x2029 || u == 0x202F || u == 0x205F || u == 0x3000
}

fn white_space(c: char) -> (r: bool)
    ensures
        r == is_white_space(c),
{
    let u = c as u32;
    (9 <= u && u <= 13) || u == 32 || u == 0x85 || u == 0xA0 || u == 0x1680 || (0x2000 <= u && u
        <= 0x200A) || u == 0x2028 || u == 0x2029 || u == 0x202F || u == 0x205F || u == 0x3000
}

/// Italic content: non-empty, without `*`, and neither starting nor ending with
/// whitespace or `*`.
pub open spec fn valid_italic_inner(t: Seq<char>) -> bool {
    &&& t.len() > 0
    &&& !t.contains('*')
    &&& !is_white_space(t[0]) && t[0] != '*'
    &&& !is_white_space(t.last()) && t.last() != '*'
}

fn is_valid_italic_inner(s: &[char], from: usize, to: usize) -> (r: bool)
    requires
        from <= to <= s@.len(),
    ensures
        r == valid_italic_inner(s@.subrange(from as int, to as int)),
{
    let ghost t = s@.subrange(from as int, to as int);
    if from == to {
        return false;
    }
    let mut i = from;
    while i < to
        invariant
            from <= i <= to <= s@.len(),
            t == s@.subrange(from as int, to as int),
            forall|j: int| from <= j < i ==> s@[j] != '*',
        decreases to - i,
    {
        if s[i] == '*' {
            assert(t[i - from] == '*');
            return false;
        }
        i += 1;
    }
    assert(!t.contains('*')) by {
        assert forall|j: int| 0 <= j < t.len() implies t[j] != '*' by {
            assert(t[j] == s@[from + j]);
        }
    }
    let first = s[from];
    let last = s[to - 1];
    !white_space(first) && first != '*' && !white_space(last) && last != '*'
}

/// Number of positions from `j` to the first `*` or the end of `s`.
pub open spec fn star_gap(s: Seq<char>, j: int) -> nat
    decreases s.len() - j,
{
    if 0 <= j < s.len() && s[j] != '*' {
        1 + star_gap(s, j + 1)
    } else {
        0
    }
}

/// Index of the first `*` at `j` or after, or the length of `s`.
pub open spec fn next_star(s: Seq<char>, j: int) -> int {
    j + star_gap(s, j)
}

proof fn lemma_next_star_bounds(s: Seq<char>, j: int)
    requires
        0 <= j <= s.len(),
    ensures
        j <= next_star(s, j) <= s.len(),
        next_star(s, j) < s.len() ==> s[next_star(s, j)] == '*',
        forall|i: int| j <= i < next_star(s, j) ==> s[i] != '*',
    decreases s.len() - j,
{
    if 0 <= j < s.len() && s[j] != '*' {
        lemma_next_star_bounds(s, j + 1);
    }
}

/// A single `*` at `k`, not next to another `*`, opens an italic span: the next
/// `*` exists, is not doubled, and the text between is valid italic content.
pub open spec fn opens_italic(s: Seq<char>, k: int) -> bool {
    &&& 0 <= k < s.len() && s[k] == '*'
    &&& k == 0 || s[k - 1] != '*'
    &&& k + 1 < s.len() && s[k + 1] != '*'
    &&& next_star(s, k + 1) < s.len()
    &&& next_star(s, k + 1) + 1 >= s.len() || s[next_star(s, k + 1) + 1] != '*'
    &&& valid_italic_inner(s.subrange(k + 1, next_star(s, k + 1)))
}

/// `s[k..]` with each accepted single-`*` span written as `<i>..</i>`.
pub open spec fn italics_from(s: Seq<char>, k: int) -> Seq<char>
    decreases s.len() - k,
{
    if k < 0 || k >= s.len() {
        seq![]
    } else if opens_italic(s, k) {
        let e = next_star(s, k + 1);
        seq!['<', 'i', '>'] + s.subrange(k + 1, e) + seq!['<', '/', 'i', '>'] + italics_from(s, e + 1)
    } else {
        seq![s[k]] + italics_from(s, k + 1)
    }
}

proof fn lemma_italics_without_stars(s: Seq<char>, j: int)
    requires
        0 <= j <= s.len(),
        j == s.len() || next_star(s, j + 1) >= s.len(),
    ensures
        italics_from(s, j) == s.subrange(j, s.len() as int),
    decreases s.len() - j,
{
    if j < s.len() {
        if j + 1 < s.len() {
            lemma_next_star_bounds(s, j + 1);
            assert(s[j + 1] != '*');
            assert(next_star(s, j + 2) >= s.len());
        }
        lemma_italics_without_stars(s, j + 1);
        assert(s.subrange(j, s.len() as int) =~= seq![s[j]] + s.subrange(j + 1, s.len() as int));
    } else {
        assert(s.subrange(j, s.len() as int) =~= seq![]);
    }
}

fn replace_markdown_italic(input: &[char]) -> (r: Vec<char>)
    ensures
        r@ == italics_from(input@, 0),
{
    let n = input.len();
    let ghost s = input@;
    let mut out: Vec<char> = Vec::new();
    let mut cursor: usize = 0;
    let mut index: usize = 0;
    while index < n
        invariant
            cursor <= index <= n,
            n == s.len(),
            s == input@,
            italics_from(s, 0) == out@ + s.subrange(cursor as int, index as int) + italics_from(
                s,
                index as int,
            ),
        decreases n - index,
    {
        let ghost rest = out@ + s.subrange(cursor as int, index as int + 1) + italics_from(s, index + 1);
        assert(out@ + s.subrange(cursor as int, index as int) + (seq![s[index as int]] + italics_from(s, index + 1))
            =~= rest);
        if input[index] != '*' || (index > 0 && input[index - 1] == '*') || index + 1 >= n
            || input[index + 1] == '*' {
            index += 1;
            continue;
        }
        proof {
            lemma_next_star_bounds(s, index + 1);
        }
        let mut end = index + 1;
        while end < n && input[end] != '*'
            invariant
                index + 1 <= end <= n,
                n == s.len(),
                s == input@,
                next_star(s, index + 1) == next_star(s, end as int),
            decreases n - end,
        {
            assert(next_star(s, end as int) == next_star(s, end + 1));
            end += 1;
        }
        if end >= n {
            proof {
                lemma_italics_without_stars(s, index as int);
            }
            assert(out@ + s.subrange(cursor as int, index as int) + s.subrange(index as int, n as int)
                =~= out@ + s.subrange(cursor as int, n as int));
            push_range(&mut out, input, cursor, n);
            cursor = n;
            index = n;
            assert(s.subrange(n as int, n as int) =~= seq![]);
            assert(italics_from(s, n as int) =~= seq![]);
            assert(out@ + s.subrange(cursor as int, index as int) + italics_from(s, index as int) =~= out@);
        } else if (end + 1 < n && input[end + 1] == '*') || !is_valid_italic_inner(input, index + 1, end) {
            index += 1;
        } else {
        let ghost before = out@;
        push_range(&mut out, input, cursor, index);
        out.extend_from_slice(&['<', 'i', '>']);
        push_range(&mut out, input, index + 1, end);
        out.extend_from_slice(&['<', '/', 'i', '>']);
        assert(out@ =~= before + s.subrange(cursor as int, index as int) + seq!['<', 'i', '>']
            + s.subrange(index + 1, end as int) + seq!['<', '/', 'i', '>']);
        cursor = end + 1;
        index = end + 1;
        assert(s.subrange(cursor as int, index as int) =~= seq![]);
        assert(italics_from(s, 0) == out@ + s.subrange(cursor as int, index as int) + italics_from(s, index as int));
        }
    }
    push_range(&mut out, input, cursor, n);
    assert(italics_from(s, n as int) =~= seq![]);
    out
}

/// The label after all normalisation stages, in order: one layer of surrounding
/// quotes dropped, line-break tags and escaped newlines turned into line feeds,
/// strip-only tags removed, then `**`, single `*` and `~~` spans turned into
/// `<b>`, `<i>` and `<s>` tags.
pub open spec fn normalized(label: Seq<char>) -> Seq<char> {
    let a = unquoted(label);
    let b = breaks_from(a, 0);
    let c = escapes_from(b, 0);
    let d = tags_removed_from(c, 0, strip_only_tags());
    let e = pairs_from(d, 0, '*', seq!['<', 'b', '>'], seq!['<', '/', 'b', '>']);
    let f = italics_from(e, 0);
    pairs_from(f, 0, '~', seq!['<', 's', '>'], seq!['<', '/', 's', '>'])
}

/// Rewrites a raw label into canonical inline formatting (see `normalized`).
pub fn normalize_br_tags(label: &str) -> (r: String)
    ensures
        r@ == normalized(label@),
{
    let s = chars_of(label);
    let a = strip_surrounding_quotes(s.as_slice());
    let b = replace_br_tags(a.as_slice());
    let c = replace_escaped_newlines(b.as_slice());
    let tags = strip_only_tag_names();
    let d = remove_simple_tags(c.as_slice(), &tags);
    let bold_open = ['<', 'b', '>'];
    let bold_close = ['<', '/', 'b', '>'];
    let e = replace_markdown_pair(d.as_slice(), '*', &bold_open, &bold_close);
    let f = replace_markdown_italic(e.as_slice());
    let strike_open = ['<', 's', '>'];
    let strike_close = ['<', '/', 's', '>'];
    assert(bold_open@ =~= seq!['<', 'b', '>']);
    assert(bold_close@ =~= seq!['<', '/', 'b', '>']);
    assert(strike_open@ =~= seq!['<', 's', '>']);
    assert(strike_close@ =~= seq!['<', '/', 's', '>']);
    let g = replace_markdown_pair(f.as_slice(), '~', &strike_open, &strike_close);
    string_of(g.as_slice())
}

} // verus!
