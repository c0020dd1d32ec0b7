use vstd::prelude::*;
use vstd::string::StrSliceExecFns;

verus! {

// ---------------------------------------------------------------------------
// Character classes
// ---------------------------------------------------------------------------
/// What `char::is_alphanumeric` returns for a character. The result is a
/// function of the character alone, fixed by the Unicode tables.
pub uninterp spec fn alphanumeric(c: char) -> bool;

/// What `char::is_whitespace` returns for a character. The result is a
/// function of the character alone, fixed by the Unicode tables.
pub uninterp spec fn unicode_whitespace(c: char) -> bool;

/// Relies on `char::is_alphanumeric`: true exactly for Unicode alphabetic and
/// numeric characters; within ASCII these are the letters and digits.
pub assume_specification[ char::is_alphanumeric ](c: char) -> (r: bool)
    ensures
        r == alphanumeric(c),
        (c as u32) < 128 ==> r == ('0' <= c && c <= '9' || 'a' <= c && c <= 'z' || 'A' <= c
            && c <= 'Z'),
;

/// Relies on `char::is_whitespace`: true exactly for characters with the
/// Unicode `White_Space` property; within ASCII these are space and the
/// control characters tab through carriage return.
pub assume_specification[ char::is_whitespace ](c: char) -> (r: bool)
    ensures
        r == unicode_whitespace(c),
        (c as u32) < 128 ==> r == (c == ' ' || 9 <= (c as u32) && (c as u32) <= 13),
;

/// A word character: one that may stand inside an identifier, so a factored
/// prefix must never end between two of them.
pub open spec fn spec_word_char(c: char) -> bool {
    alphanumeric(c) || c == '_'
}

// ---------------------------------------------------------------------------
// Splitting text into lines
// ---------------------------------------------------------------------------
/// Index of the first newline at or after `i`, or the length of `s` when
/// there is none.
pub open spec fn find_nl(s: Seq<char>, i: int) -> int
    decreases s.len() - i,
{
    if i < 0 || i >= s.len() {
        s.len() as int
    } else if s[i] == '\n' {
        i
    } else {
        find_nl(s, i + 1)
    }
}

pub proof fn lemma_find_nl(s: Seq<char>, i: int)
    requires
        0 <= i <= s.len(),
    ensures
        i <= find_nl(s, i) <= s.len(),
        find_nl(s, i) < s.len() ==> s[find_nl(s, i)] == '\n',
        forall|k: int| i <= k < find_nl(s, i) ==> s[k] != '\n',
    decreases s.len() - i,
{
    if i < s.len() && s[i] != '\n' {
        lemma_find_nl(s, i + 1);
    }
}

/// A line with its terminating newline removed also loses one carriage
/// return directly before that newline, as `str::lines` does.
pub open spec fn strip_cr(l: Seq<char>) -> Seq<char> {
    if l.len() > 0 && l[l.len() - 1] == '\r' {
        l.drop_last()
    } else {
        l
    }
}

/// The lines of `s` from position `from` on: split at each newline, a
/// carriage return directly before a newline removed, and no empty final
/// line after a terminating newline.
pub open spec fn spec_lines_from(s: Seq<char>, from: int) -> Seq<Seq<char>>
    decreases s.len() - from,
    via spec_lines_from_dec
{
    if from < 0 || from >= s.len() {
        Seq::empty()
    } else {
        let j = find_nl(s, from);
        if j >= s.len() {
            seq![s.subrange(from, s.len() as int)]
        } else {
            seq![strip_cr(s.subrange(from, j))] + spec_lines_from(s, j + 1)
        }
    }
}

#[via_fn]
proof fn spec_lines_from_dec(s: Seq<char>, from: int) {
    if 0 <= from < s.len() {
        lemma_find_nl(s, from);
    }
}

/// The lines of `s`, as `str::lines` splits them.
pub open spec fn spec_lines(s: Seq<char>) -> Seq<Seq<char>> {
    spec_lines_from(s, 0)
}

/// A text of `n` characters splits into at most `n` lines, since every line
/// covers at least one character of the text: a caller that bounds the text
/// length can bound the number of sections the builder creates.
pub proof fn lemma_spec_lines_count(s: Seq<char>, from: int)
    requires
        0 <= from <= s.len(),
    ensures
        spec_lines_from(s, from).len() <= s.len() - from,
    decreases s.len() - from,
{
    if from < s.len() {
        lemma_find_nl(s, from);
        let j = find_nl(s, from);
        if j < s.len() {
            lemma_spec_lines_count(s, j + 1);
        }
    }
}

/// Finds the first newline at or after `from`, returning the character
/// length of `s` when there is none.
pub fn find_newline(s: &str, from: usize) -> (j: usize)
    requires
        from <= s@.len(),
    ensures
        j == find_nl(s@, from as int),
{
    let n = s.unicode_len();
    let mut i = from;
    while i < n
        invariant
            from <= i <= n,
            n == s@.len(),
            find_nl(s@, from as int) == find_nl(s@, i as int),
        decreases n - i,
    {
        if s.get_char(i) == '\n' {
            return i;
        }
        i = i + 1;
    }
    i
}

/// Splits the input text into lines, as `str::lines` does: split at each
/// newline, a carriage return directly before a newline removed, and no
/// empty final line after a terminating newline.
pub fn split_lines(s: &str) -> (lines: Vec<String>)
    ensures
        lines.deep_view() == spec_lines(s@),
{
    let n = s.unicode_len();
    let mut lines: Vec<String> = Vec::new();
    let mut start: usize = 0;
    while start < n
        invariant
            start <= n,
            n == s@.len(),
            spec_lines(s@) == lines.deep_view() + spec_lines_from(s@, start as int),
        decreases n - start,
    {
        let ghost prev_lines = lines.deep_view();
        let j = find_newline(s, start);
        proof {
            lemma_find_nl(s@, start as int);
        }
        if j < n {
            let line_end = if j > start && s.get_char(j - 1) == '\r' {
                j - 1
            } else {
                j
            };
            proof {
                if line_end < j {
                    assert(s@.subrange(start as int, j as int).drop_last() =~= s@.subrange(
                        start as int,
                        j - 1,
                    ));
                }
                assert(strip_cr(s@.subrange(start as int, j as int)) =~= s@.subrange(
                    start as int,
                    line_end as int,
                ));
            }
            let line = s.substring_char(start, line_end).to_owned();
            lines.push(line);
            start = j + 1;
        } else {
            let line = s.substring_char(start, n).to_owned();
            lines.push(line);
            start = n;
        }
        proof {
            assert(lines.deep_view() =~= prev_lines + seq![lines@[lines@.len() - 1].deep_view()]);
            assert(spec_lines(s@) =~= lines.deep_view() + spec_lines_from(s@, start as int));
        }
    }
    lines
}

// ---------------------------------------------------------------------------
// Common prefixes and word boundaries
// ---------------------------------------------------------------------------
/// The end of the longest run of positions `>= i` at which `a` and `b` hold
/// the same character.
pub open spec fn cpl_from(a: Seq<char>, b: Seq<char>, i: int) -> int
    decreases a.len() - i,
{
    if i < 0 || i >= a.len() || i >= b.len() || a[i] != b[i] {
        i
    } else {
        cpl_from(a, b, i + 1)
    }
}

pub proof fn lemma_cpl_from(a: Seq<char>, b: Seq<char>, i: int)
    requires
        0 <= i <= a.len(),
        0 <= i <= b.len(),
    ensures
        i <= cpl_from(a, b, i) <= a.len(),
        cpl_from(a, b, i) <= b.len(),
        forall|k: int| i <= k < cpl_from(a, b, i) ==> a[k] == b[k],
        cpl_from(a, b, i) < a.len() && cpl_from(a, b, i) < b.len() ==> a[cpl_from(a, b, i)]
            != b[cpl_from(a, b, i)],
    decreases a.len() - i,
{
    if i < a.len() && i < b.len() && a[i] == b[i] {
        lemma_cpl_from(a, b, i + 1);
    }
}

/// The greatest index below `end` holding a non-word character, or -1 when
/// every character below `end` is a word character.
pub open spec fn last_sep_before(l: Seq<char>, end: int) -> int
    decreases end,
{
    if end <= 0 || end > l.len() {
        -1
    } else if !spec_word_char(l[end - 1]) {
        end - 1
    } else {
        last_sep_before(l, end - 1)
    }
}

pub proof fn lemma_last_sep_before(l: Seq<char>, end: int)
    requires
        0 <= end <= l.len(),
    ensures
        -1 <= last_sep_before(l, end) < end,
        last_sep_before(l, end) >= 0 ==> !spec_word_char(l[last_sep_before(l, end)]),
        forall|k: int| last_sep_before(l, end) < k < end ==> spec_word_char(l[k]),
    decreases end,
{
    if end > 0 && spec_word_char(l[end - 1]) {
        lemma_last_sep_before(l, end - 1);
    }
}

/// The greatest index below `end` holding a word character, or -1 when every
/// character below `end` is a non-word character.
pub open spec fn last_word_before(l: Seq<char>, end: int) -> int
    decreases end,
{
    if end <= 0 || end > l.len() {
        -1
    } else if spec_word_char(l[end - 1]) {
        end - 1
    } else {
        last_word_before(l, end - 1)
    }
}

pub proof fn lemma_last_word_before(l: Seq<char>, end: int)
    requires
        0 <= end <= l.len(),
    ensures
        -1 <= last_word_before(l, end) < end,
        last_word_before(l, end) >= 0 ==> spec_word_char(l[last_word_before(l, end)]),
        forall|k: int| last_word_before(l, end) < k < end ==> !spec_word_char(l[k]),
    decreases end,
{
    if end > 0 && !spec_word_char(l[end - 1]) {
        lemma_last_word_before(l, end - 1);
    }
}

/// The character length of the prefix of `line` that is factored out against
/// the previous line `prev`: the longest exactly matching prefix, snapped
/// down to the nearest word boundary, or zero when no boundary exists.
pub open spec fn spec_common_len(prev: Seq<char>, line: Seq<char>) -> int {
    let m = cpl_from(prev, line, 0);
    if m <= 0 {
        0
    } else {
        let sp = last_sep_before(line, m);
        if sp < 0 {
            0
        } else {
            let w = last_word_before(line, sp);
            if w < 0 {
                0
            } else {
                w + 1
            }
        }
    }
}

/// What holds of every snapped common-prefix length: it lies within both
/// lines, both slices of the split agree with the matching prefix, and a
/// non-zero prefix ends exactly at a word boundary.
pub proof fn lemma_common_len_props(prev: Seq<char>, line: Seq<char>)
    ensures
        0 <= spec_common_len(prev, line) <= line.len(),
        spec_common_len(prev, line) <= cpl_from(prev, line, 0),
        spec_common_len(prev, line) <= prev.len(),
        spec_common_len(prev, line) > 0 ==> {
            let c = spec_common_len(prev, line);
            &&& c < line.len()
            &&& spec_word_char(line[c - 1])
            &&& !spec_word_char(line[c])
        },
        forall|k: int| 0 <= k < spec_common_len(prev, line) ==> line[k] == prev[k],
{
    lemma_cpl_from(prev, line, 0);
    let m = cpl_from(prev, line, 0);
    if m > 0 {
        lemma_last_sep_before(line, m);
        let sp = last_sep_before(line, m);
        if sp >= 0 {
            lemma_last_word_before(line, sp);
        }
    }
}

} // verus!
