use vstd::prelude::*;
use vstd::string::StrSliceExecFns;

use crate::group::Group;
use crate::group::GroupView;
use crate::group::GosView;
use crate::group_or_segment::GroupOrSegment;
use crate::segment::Segment;
use crate::segment::seg_view;
use crate::segment::segment_views;
use crate::group::spec_close_bracket;
use crate::group::spec_matching_close;
use crate::group::spec_open_bracket;
use crate::segment::SegmentView;
use crate::text::unicode_whitespace;

verus! {

/// One line in the stack trace.
#[derive(Debug, PartialEq, Eq)]
pub struct Line {
    /// Any leading whitespace for this line.
    pub leading_whitespace: String,
    /// The groups of segments within this line.
    ///
    /// e.g. in `my::lib::{{closure}}`, the groups are:
    ///
    /// * `my::lib`
    /// * `{{closure}}`
    ///
    /// Each group has its own list of segments.
    pub groups: Vec<Group>,
}

/// The mathematical model of a [`Line`].
pub ghost struct LineView {
    pub leading_whitespace: Seq<char>,
    pub groups: Seq<GroupView>,
}

impl View for Line {
    type V = LineView;

    open spec fn view(&self) -> LineView {
        LineView {
            leading_whitespace: self.leading_whitespace@,
            groups: crate::group::group_views(self.groups@),
        }
    }
}

// ---------------------------------------------------------------------------
// The grammar of one line, over character sequences
// ---------------------------------------------------------------------------
/// Length of the separator token starting at `p`: one for `.`, two for `::`,
/// zero when no separator token starts there.
pub open spec fn sep_len_at(s: Seq<char>, p: int) -> int {
    if p < 0 || p >= s.len() {
        0
    } else if s[p] == '.' {
        1
    } else if s[p] == ':' && p + 1 < s.len() && s[p + 1] == ':' {
        2
    } else {
        0
    }
}

/// A character that continues the current run of segments: not a bracket and
/// not a space.
pub open spec fn run_char(s: Seq<char>, p: int) -> bool {
    0 <= p < s.len() && !spec_open_bracket(s[p]) && !spec_close_bracket(s[p]) && s[p] != ' '
}

/// A character accumulated into the current segment's text: a run character
/// at which no separator token starts.
pub open spec fn text_char(s: Seq<char>, p: int) -> bool {
    run_char(s, p) && sep_len_at(s, p) == 0
}

/// End of the segment text starting at `p`: the first position at or after
/// `p` that does not hold a text character.
pub open spec fn seg_end(s: Seq<char>, p: int) -> int
    decreases s.len() - p,
{
    if !text_char(s, p) {
        p
    } else {
        seg_end(s, p + 1)
    }
}

pub proof fn lemma_seg_end_bounds(s: Seq<char>, p: int)
    requires
        0 <= p <= s.len(),
    ensures
        p <= seg_end(s, p) <= s.len(),
    decreases s.len() - p,
{
    if text_char(s, p) {
        lemma_seg_end_bounds(s, p + 1);
    }
}

/// The run of segments starting at `p`: maximal segment texts linked by
/// separator tokens, each segment carrying the token that follows it.
/// Returns the segments and the position after the run.
pub open spec fn spec_run(s: Seq<char>, p: int) -> (Seq<SegmentView>, int)
    decreases s.len() - p,
    via spec_run_dec
{
    if p < 0 || p > s.len() {
        (Seq::empty(), p)
    } else {
        let e = seg_end(s, p);
        let text = s.subrange(p, e);
        let sl = sep_len_at(s, e);
        if sl == 0 {
            (seq![SegmentView { text, separator: None }], e)
        } else {
            let sep = s.subrange(e, e + sl);
            let p2 = e + sl;
            if run_char(s, p2) {
                let rest = spec_run(s, p2);
                (seq![SegmentView { text, separator: Some(sep) }] + rest.0, rest.1)
            } else {
                (seq![SegmentView { text, separator: Some(sep) }], p2)
            }
        }
    }
}

#[via_fn]
proof fn spec_run_dec(s: Seq<char>, p: int) {
    if 0 <= p <= s.len() {
        lemma_seg_end_bounds(s, p);
    }
}

pub proof fn lemma_spec_run_bounds(s: Seq<char>, p: int)
    requires
        0 <= p <= s.len(),
    ensures
        p <= spec_run(s, p).1 <= s.len(),
        run_char(s, p) ==> p < spec_run(s, p).1,
        spec_run(s, p).0.len() >= 1,
    decreases s.len() - p,
{
    lemma_seg_end_bounds(s, p);
    if text_char(s, p) {
        lemma_seg_end_bounds(s, p + 1);
    }
    let e = seg_end(s, p);
    let sl = sep_len_at(s, e);
    if sl != 0 && run_char(s, e + sl) {
        lemma_spec_run_bounds(s, e + sl);
    }
}

/// The models of a run's segments, each as a group-or-segment value.
pub open spec fn segs_to_gos(segs: Seq<SegmentView>) -> Seq<GosView> {
    Seq::new(segs.len(), |i: int| GosView::Segment(segs[i]))
}

/// One parsed unit starting at `p` and the position after it: a lone space,
/// a bracketed group with its trailing separator, or a run of segments — a
/// bare segment when the run has one component and nothing more to carry,
/// else a group collecting the components.
pub open spec fn spec_unit(s: Seq<char>, p: int) -> (GosView, int)
    decreases s.len() - p, 0int,
{
    if p < 0 || p >= s.len() {
        (GosView::Segment(SegmentView { text: Seq::empty(), separator: None }), p)
    } else if s[p] == ' ' {
        (
            GosView::Segment(
                SegmentView { text: Seq::empty(), separator: Some(s.subrange(p, p + 1)) },
            ),
            p + 1,
        )
    } else if spec_open_bracket(s[p]) {
        let r = spec_items(s, p + 1);
        let value = if r.0.len() == 0 {
            seq![GosView::Segment(SegmentView { text: Seq::empty(), separator: None })]
        } else {
            r.0
        };
        let closer = match r.1 {
            Some(c) => c,
            None => spec_matching_close(s[p]),
        };
        let q = r.2;
        let sl = sep_len_at(s, q);
        let sep = if sl > 0 {
            Some(s.subrange(q, q + sl))
        } else if 0 <= q < s.len() && s[q] == ' ' {
            Some(s.subrange(q, q + 1))
        } else {
            None
        };
        let qq = if sl > 0 {
            q + sl
        } else if 0 <= q < s.len() && s[q] == ' ' {
            q + 1
        } else {
            q
        };
        (
            GosView::Group(
                GroupView {
                    value,
                    bracket_open: Some(s[p]),
                    bracket_close: Some(closer),
                    separator: sep,
                },
            ),
            qq,
        )
    } else {
        let r = spec_run(s, p);
        let segs = r.0;
        let q = r.1;
        if 0 <= q < s.len() && s[q] == ' ' {
            let space = Some(s.subrange(q, q + 1));
            if segs.len() == 1 && segs[0].separator is None {
                (GosView::Segment(SegmentView { text: segs[0].text, separator: space }), q + 1)
            } else {
                (
                    GosView::Group(
                        GroupView {
                            value: segs_to_gos(segs),
                            bracket_open: None,
                            bracket_close: None,
                            separator: space,
                        },
                    ),
                    q + 1,
                )
            }
        } else {
            if segs.len() == 1 {
                (GosView::Segment(segs[0]), q)
            } else {
                (
                    GosView::Group(
                        GroupView {
                            value: segs_to_gos(segs),
                            bracket_open: None,
                            bracket_close: None,
                            separator: None,
                        },
                    ),
                    q,
                )
            }
        }
    }
}

/// The units inside a bracket scope starting at `p`: units until a closing
/// bracket or the end of input. Returns the units, the closing bracket seen
/// (none when the input ended first), and the position after the scope.
pub open spec fn spec_items(s: Seq<char>, p: int) -> (Seq<GosView>, Option<char>, int)
    decreases s.len() - p, 1int,
{
    if p < 0 || p >= s.len() {
        (Seq::empty(), None, if p < 0 { 0 } else { s.len() as int })
    } else if spec_close_bracket(s[p]) {
        (Seq::empty(), Some(s[p]), p + 1)
    } else {
        let u = spec_unit(s, p);
        let p2 = if u.1 <= p {
            p + 1
        } else if u.1 > s.len() {
            s.len() as int
        } else {
            u.1
        };
        let rest = spec_items(s, p2);
        (seq![u.0] + rest.0, rest.1, rest.2)
    }
}

/// A parsed unit always moves forward and stays within the input, and a
/// bracket scope ends within the input too: the clamps inside the grammar
/// never change a position.
pub proof fn lemma_spec_unit_bounds(s: Seq<char>, p: int)
    requires
        0 <= p < s.len(),
        !spec_close_bracket(s[p]),
    ensures
        p < spec_unit(s, p).1 <= s.len(),
    decreases s.len() - p, 0int,
{
    if s[p] == ' ' {
    } else if spec_open_bracket(s[p]) {
        lemma_spec_items_bounds(s, p + 1);
    } else {
        lemma_spec_run_bounds(s, p);
    }
}

pub proof fn lemma_spec_items_bounds(s: Seq<char>, p: int)
    requires
        0 <= p <= s.len(),
    ensures
        p <= spec_items(s, p).2 <= s.len(),
    decreases s.len() - p, 1int,
{
    if p < s.len() && !spec_close_bracket(s[p]) {
        lemma_spec_unit_bounds(s, p);
        let u = spec_unit(s, p);
        lemma_spec_items_bounds(s, u.1);
    }
}

/// One top-level group starting at `p`: a stray closing bracket becomes a
/// one-character segment of its own, and a bare segment unit is wrapped into
/// a group of one.
pub open spec fn spec_group_top(s: Seq<char>, p: int) -> (GroupView, int) {
    if spec_close_bracket(s[p]) {
        (
            GroupView {
                value: seq![
                    GosView::Segment(
                        SegmentView { text: s.subrange(p, p + 1), separator: None },
                    ),
                ],
                bracket_open: None,
                bracket_close: None,
                separator: None,
            },
            p + 1,
        )
    } else {
        let u = spec_unit(s, p);
        match u.0 {
            GosView::Group(g) => (g, u.1),
            GosView::Segment(sv) => (
                GroupView {
                    value: seq![GosView::Segment(sv)],
                    bracket_open: None,
                    bracket_close: None,
                    separator: None,
                },
                u.1,
            ),
        }
    }
}

/// The top-level groups of the text from `p` to the end.
pub open spec fn spec_groups_from(s: Seq<char>, p: int) -> Seq<GroupView>
    decreases s.len() - p,
{
    if p < 0 || p >= s.len() {
        Seq::empty()
    } else {
        let g = spec_group_top(s, p);
        let p2 = if g.1 <= p {
            p + 1
        } else if g.1 > s.len() {
            s.len() as int
        } else {
            g.1
        };
        seq![g.0] + spec_groups_from(s, p2)
    }
}

/// The first position at or after `p` holding a non-whitespace character, or
/// the length of `s` when there is none.
pub open spec fn first_non_ws(s: Seq<char>, p: int) -> int
    decreases s.len() - p,
{
    if p < 0 || p >= s.len() {
        s.len() as int
    } else if !unicode_whitespace(s[p]) {
        p
    } else {
        first_non_ws(s, p + 1)
    }
}

/// The model of tokenizing one line: leading whitespace split off, the rest
/// parsed into top-level groups. A line of nothing but whitespace keeps an
/// empty leading slice and is tokenized whole.
pub open spec fn spec_line_of(s: Seq<char>) -> LineView {
    let w = first_non_ws(s, 0);
    if w >= s.len() {
        LineView { leading_whitespace: Seq::empty(), groups: spec_groups_from(s, 0) }
    } else {
        LineView { leading_whitespace: s.subrange(0, w), groups: spec_groups_from(s, w) }
    }
}


/// A top-level group starts with at least one character and stays within the
/// input.
pub proof fn lemma_spec_group_top_bounds(s: Seq<char>, p: int)
    requires
        0 <= p < s.len(),
    ensures
        p < spec_group_top(s, p).1 <= s.len(),
{
    if !spec_close_bracket(s[p]) {
        lemma_spec_unit_bounds(s, p);
    }
}

// ---------------------------------------------------------------------------
// The tokenizer
// ---------------------------------------------------------------------------
/// Length of the separator token starting at `p`, if any.
fn sep_len(line: &str, p: usize) -> (l: usize)
    requires
        p <= line@.len(),
    ensures
        l as int == sep_len_at(line@, p as int),
        p + l <= line@.len(),
{
    let n = line.unicode_len();
    if p >= n {
        0
    } else {
        let c = line.get_char(p);
        if c == '.' {
            1
        } else if c == ':' && p + 1 < n && line.get_char(p + 1) == ':' {
            2
        } else {
            0
        }
    }
}

/// Whether the character at `p` continues the current run of segments.
fn is_run_char(line: &str, p: usize) -> (r: bool)
    requires
        p <= line@.len(),
    ensures
        r == run_char(line@, p as int),
{
    let n = line.unicode_len();
    if p >= n {
        false
    } else {
        let c = line.get_char(p);
        !crate::group::is_open_bracket(c) && !crate::group::is_close_bracket(c) && c != ' '
    }
}

/// Scans to the end of the segment text starting at `p`.
fn scan_segment_text(line: &str, p: usize) -> (e: usize)
    requires
        p <= line@.len(),
    ensures
        e as int == seg_end(line@, p as int),
        p <= e <= line@.len(),
{
    proof {
        lemma_seg_end_bounds(line@, p as int);
    }
    let n = line.unicode_len();
    let mut i = p;
    while i < n
        invariant
            p <= i <= n,
            n == line@.len(),
            seg_end(line@, p as int) == seg_end(line@, i as int),
        decreases n - i,
    {
        let c = line.get_char(i);
        let is_text = !crate::group::is_open_bracket(c) && !crate::group::is_close_bracket(c) && c
            != ' ' && sep_len(line, i) == 0;
        if !is_text {
            return i;
        }
        i = i + 1;
    }
    i
}

/// Parses the run of segments starting at `p`: maximal segment texts linked
/// by `.` and `::` tokens, each segment carrying the token that follows it.
fn parse_run(line: &str, p: usize) -> (r: (Vec<Segment>, usize))
    requires
        p <= line@.len(),
    ensures
        segment_views(r.0@) == spec_run(line@, p as int).0,
        r.1 as int == spec_run(line@, p as int).1,
        p <= r.1 <= line@.len(),
    decreases line@.len() - p,
{
    proof {
        lemma_spec_run_bounds(line@, p as int);
    }
    // pins the character count to usize, so the position sums below fit
    let _n = line.unicode_len();
    let e = scan_segment_text(line, p);
    let text = line.substring_char(p, e).to_owned();
    let sl = sep_len(line, e);
    if sl == 0 {
        let seg = Segment { text, separator: None };
        let mut v: Vec<Segment> = Vec::new();
        v.push(seg);
        proof {
            assert(segment_views(v@) =~= spec_run(line@, p as int).0);
        }
        (v, e)
    } else {
        let sep = line.substring_char(e, e + sl).to_owned();
        let p2 = e + sl;
        let seg = Segment { text, separator: Some(sep) };
        if is_run_char(line, p2) {
            let (mut rest, q) = parse_run(line, p2);
            rest.insert(0, seg);
            proof {
                assert(segment_views(rest@) =~= spec_run(line@, p as int).0);
            }
            (rest, q)
        } else {
            let mut v: Vec<Segment> = Vec::new();
            v.push(seg);
            proof {
                assert(segment_views(v@) =~= spec_run(line@, p as int).0);
            }
            (v, p2)
        }
    }
}

/// Parses one unit starting at `p`: a lone space, a bracketed group with its
/// trailing separator, or a run of segments.
fn parse_unit(line: &str, p: usize) -> (r: (GroupOrSegment, usize))
    requires
        p < line@.len(),
        !spec_close_bracket(line@[p as int]),
    ensures
        r.0@ == spec_unit(line@, p as int).0,
        r.1 as int == spec_unit(line@, p as int).1,
        p < r.1 <= line@.len(),
    decreases line@.len() - p, 0int,
{
    proof {
        lemma_spec_unit_bounds(line@, p as int);
    }
    let n = line.unicode_len();
    let c = line.get_char(p);
    if c == ' ' {
        let seg = Segment { text: String::new(), separator: Some(line.substring_char(p, p + 1).to_owned()) };
        (GroupOrSegment::Segment(seg), p + 1)
    } else if crate::group::is_open_bracket(c) {
        let (items, closer_seen, q) = parse_items(line, p + 1);
        let mut value = items;
        if value.len() == 0 {
            value.push(GroupOrSegment::Segment(Segment { text: String::new(), separator: None }));
            proof {
                assert(crate::group::gos_views(value@) =~= seq![
                    GosView::Segment(SegmentView { text: Seq::empty(), separator: None }),
                ]);
            }
        }
        let closer = match closer_seen {
            Some(cc) => cc,
            None => crate::group::matching_close_bracket(c),
        };
        let sl = sep_len(line, q);
        let (sep, qq): (Option<String>, usize) = if sl > 0 {
            (Some(line.substring_char(q, q + sl).to_owned()), q + sl)
        } else if q < n && line.get_char(q) == ' ' {
            (Some(line.substring_char(q, q + 1).to_owned()), q + 1)
        } else {
            (None, q)
        };
        let group = Group { value, bracket_open: Some(c), bracket_close: Some(closer), separator: sep };
        proof {
            crate::group::lemma_group_view_value(group);
        }
        (GroupOrSegment::Group(Box::new(group)), qq)
    } else {
        let (segs, q) = parse_run(line, p);
        proof {
            lemma_spec_run_bounds(line@, p as int);
        }
        if q < n && line.get_char(q) == ' ' {
            let space = line.substring_char(q, q + 1).to_owned();
            let single_bare = segs.len() == 1 && segs[0].separator.is_none();
            if single_bare {
                let ghost gsegs = segs@;
                let mut segs = segs;
                let seg0 = segs.pop().unwrap();
                proof {
                    assert(seg0 == gsegs[0]);
                    assert(seg_view(seg0) == segment_views(gsegs)[0]);
                }
                let seg = Segment { text: seg0.text, separator: Some(space) };
                (GroupOrSegment::Segment(seg), q + 1)
            } else {
                let value = segments_to_value(segs);
                let group = Group { value, bracket_open: None, bracket_close: None, separator: Some(space) };
                proof {
                    crate::group::lemma_group_view_value(group);
                }
                (GroupOrSegment::Group(Box::new(group)), q + 1)
            }
        } else {
            if segs.len() == 1 {
                let ghost gsegs = segs@;
                let mut segs = segs;
                let seg = segs.pop().unwrap();
                proof {
                    assert(seg == gsegs[0]);
                    assert(seg_view(seg) == segment_views(gsegs)[0]);
                }
                (GroupOrSegment::Segment(seg), q)
            } else {
                let value = segments_to_value(segs);
                let group = Group { value, bracket_open: None, bracket_close: None, separator: None };
                proof {
                    crate::group::lemma_group_view_value(group);
                }
                (GroupOrSegment::Group(Box::new(group)), q)
            }
        }
    }
}

/// Wraps each segment of a run as a group-or-segment value, in order.
fn segments_to_value(segs: Vec<Segment>) -> (value: Vec<GroupOrSegment>)
    ensures
        crate::group::gos_views(value@) == segs_to_gos(segment_views(segs@)),
{
    let ghost all = segs@;
    let mut segs = segs;
    let mut value: Vec<GroupOrSegment> = Vec::new();
    while segs.len() > 0
        invariant
            value@.len() + segs@.len() == all.len(),
            segs@ =~= all.skip(value@.len() as int),
            crate::group::gos_views(value@) =~= segs_to_gos(segment_views(all)).take(
                value@.len() as int,
            ),
        decreases segs@.len(),
    {
        let ghost done = value@.len() as int;
        let seg = segs.remove(0);
        proof {
            assert(seg == all[done]);
            assert(segs@ =~= all.skip(done + 1));
        }
        value.push(GroupOrSegment::Segment(seg));
        proof {
            assert(crate::group::gos_views(value@) =~= segs_to_gos(segment_views(all)).take(
                done + 1,
            ));
        }
    }
    proof {
        assert(segs_to_gos(segment_views(all)).take(all.len() as int) =~= segs_to_gos(
            segment_views(all),
        ));
    }
    value
}

/// Parses the units inside a bracket scope starting at `p`, until a closing
/// bracket or the end of the input.
fn parse_items(line: &str, p: usize) -> (r: (Vec<GroupOrSegment>, Option<char>, usize))
    requires
        p <= line@.len(),
    ensures
        crate::group::gos_views(r.0@) == spec_items(line@, p as int).0,
        r.1 == spec_items(line@, p as int).1,
        r.2 as int == spec_items(line@, p as int).2,
        p <= r.2 <= line@.len(),
    decreases line@.len() - p, 1int,
{
    proof {
        lemma_spec_items_bounds(line@, p as int);
    }
    let n = line.unicode_len();
    if p >= n {
        proof {
            assert(crate::group::gos_views(Seq::<GroupOrSegment>::empty()) =~= Seq::<
                GosView,
            >::empty());
        }
        (Vec::new(), None, n)
    } else {
        let c = line.get_char(p);
        if crate::group::is_close_bracket(c) {
            proof {
                assert(crate::group::gos_views(Seq::<GroupOrSegment>::empty()) =~= Seq::<
                    GosView,
                >::empty());
            }
            (Vec::new(), Some(c), p + 1)
        } else {
            proof {
                lemma_spec_unit_bounds(line@, p as int);
            }
            let (unit, p2) = parse_unit(line, p);
            let (mut rest, closer, q) = parse_items(line, p2);
            rest.insert(0, unit);
            proof {
                assert(crate::group::gos_views(rest@) =~= spec_items(line@, p as int).0);
            }
            (rest, closer, q)
        }
    }
}

/// Parses one top-level group starting at `p`: a stray closing bracket
/// becomes a one-character segment of its own, and a bare segment unit is
/// wrapped into a group of one.
pub fn parse_group(line: &str, p: usize) -> (r: (Group, usize))
    requires
        p < line@.len(),
    ensures
        r.0@ == spec_group_top(line@, p as int).0,
        r.1 as int == spec_group_top(line@, p as int).1,
        p < r.1 <= line@.len(),
    decreases line@.len() - p,
{
    // pins the character count to usize, so the position sums below fit
    let _n = line.unicode_len();
    let c = line.get_char(p);
    if crate::group::is_close_bracket(c) {
        let seg = Segment { text: line.substring_char(p, p + 1).to_owned(), separator: None };
        let mut value: Vec<GroupOrSegment> = Vec::new();
        value.push(GroupOrSegment::Segment(seg));
        let group = Group { value, bracket_open: None, bracket_close: None, separator: None };
        proof {
            crate::group::lemma_group_view_value(group);
            assert(crate::group::gos_views(group.value@) =~= spec_group_top(
                line@,
                p as int,
            ).0.value);
        }
        (group, p + 1)
    } else {
        let (unit, q) = parse_unit(line, p);
        match unit {
            GroupOrSegment::Group(g) => {
                let group = *g;
                (group, q)
            },
            GroupOrSegment::Segment(seg) => {
                let mut value: Vec<GroupOrSegment> = Vec::new();
                value.push(GroupOrSegment::Segment(seg));
                let group = Group { value, bracket_open: None, bracket_close: None, separator: None };
                proof {
                    crate::group::lemma_group_view_value(group);
                    assert(crate::group::gos_views(group.value@) =~= spec_group_top(
                        line@,
                        p as int,
                    ).0.value);
                }
                (group, q)
            },
        }
    }
}

/// Parses the top-level groups of `line` from position `from` to the end.
pub fn parse_groups_from(line: &str, from: usize) -> (gs: Vec<Group>)
    requires
        from <= line@.len(),
    ensures
        crate::group::group_views(gs@) == spec_groups_from(line@, from as int),
{
    let n = line.unicode_len();
    let mut gs: Vec<Group> = Vec::new();
    let mut p = from;
    while p < n
        invariant
            from <= p <= n,
            n == line@.len(),
            spec_groups_from(line@, from as int) == crate::group::group_views(gs@)
                + spec_groups_from(line@, p as int),
        decreases n - p,
    {
        let ghost prev_views = crate::group::group_views(gs@);
        proof {
            lemma_spec_group_top_bounds(line@, p as int);
        }
        let (group, q) = parse_group(line, p);
        gs.push(group);
        p = q;
        proof {
            assert(crate::group::group_views(gs@) =~= prev_views + seq![
                gs@[gs@.len() - 1]@,
            ]);
            assert(spec_groups_from(line@, from as int) =~= crate::group::group_views(gs@)
                + spec_groups_from(line@, p as int));
        }
    }
    proof {
        assert(spec_groups_from(line@, from as int) =~= crate::group::group_views(gs@));
    }
    gs
}

/// Parses the top-level groups of the whole of `line`.
pub fn parse_groups(line: &str) -> (gs: Vec<Group>)
    ensures
        crate::group::group_views(gs@) == spec_groups_from(line@, 0),
{
    parse_groups_from(line, 0)
}

/// The first position holding a non-whitespace character, or the length of
/// the line when there is none.
fn scan_leading_whitespace(line: &str) -> (w: usize)
    ensures
        w as int == first_non_ws(line@, 0),
        w <= line@.len(),
{
    let n = line.unicode_len();
    let mut i: usize = 0;
    while i < n
        invariant
            i <= n,
            n == line@.len(),
            first_non_ws(line@, 0) == first_non_ws(line@, i as int),
        decreases n - i,
    {
        if !char::is_whitespace(line.get_char(i)) {
            return i;
        }
        i = i + 1;
    }
    i
}

impl Line {
    /// Tokenizes one line of the stack trace: leading whitespace split off,
    /// the rest parsed into top-level groups. A line of nothing but
    /// whitespace keeps an empty leading slice and is tokenized whole.
    pub fn from(line_str: &str) -> (l: Line)
        ensures
            l@ == spec_line_of(line_str@),
    {
        let n = line_str.unicode_len();
        let w = scan_leading_whitespace(line_str);
        if w < n {
            let leading_whitespace = line_str.substring_char(0, w).to_owned();
            let groups = parse_groups_from(line_str, w);
            Line { leading_whitespace, groups }
        } else {
            let leading_whitespace = String::new();
            let groups = parse_groups_from(line_str, 0);
            Line { leading_whitespace, groups }
        }
    }

    /// Tokenizes one line of the stack trace.
    pub fn parse(input: &str) -> (l: Line)
        ensures
            l@ == spec_line_of(input@),
    {
        Line::from(input)
    }
}

impl Group {
    /// Parses one top-level group of `input` starting at position `from`,
    /// returning the group and the position after it.
    pub fn parse(input: &str, from: usize) -> (r: (Group, usize))
        requires
            from < input@.len(),
        ensures
            r.0@ == spec_group_top(input@, from as int).0,
            r.1 as int == spec_group_top(input@, from as int).1,
            from < r.1 <= input@.len(),
    {
        parse_group(input, from)
    }
}


// ---------------------------------------------------------------------------
// The data-model invariant of tokenizer output
// ---------------------------------------------------------------------------
/// The invariant of a separator: absent, or a punctuation token of one or
/// two characters.
pub open spec fn sep_wf(sep: Option<Seq<char>>) -> bool {
    match sep {
        None => true,
        Some(x) => 1 <= x.len() <= 2,
    }
}

/// The invariant of a group's model: its value holds at least one element,
/// its brackets are set together or not at all, its separator is a token of
/// at most two characters, and every element keeps the same invariant.
pub open spec fn gv_wf(g: GroupView) -> bool
    decreases g,
{
    &&& g.value.len() >= 1
    &&& (g.bracket_open is Some <==> g.bracket_close is Some)
    &&& sep_wf(g.separator)
    &&& forall|i: int| 0 <= i < g.value.len() ==> gos_wf(#[trigger] g.value[i])
}

/// The invariant of a group-or-segment model: a segment's separator is a
/// token of at most two characters, and a nested group keeps the group
/// invariant.
pub open spec fn gos_wf(x: GosView) -> bool
    decreases x,
{
    match x {
        GosView::Segment(sv) => sep_wf(sv.separator),
        GosView::Group(g) => gv_wf(g),
    }
}

proof fn lemma_spec_run_wf(s: Seq<char>, p: int)
    requires
        0 <= p <= s.len(),
    ensures
        forall|i: int| 0 <= i < spec_run(s, p).0.len() ==> sep_wf(#[trigger] spec_run(s, p).0[i].separator),
    decreases s.len() - p,
{
    lemma_seg_end_bounds(s, p);
    let e = seg_end(s, p);
    let sl = sep_len_at(s, e);
    if sl != 0 && run_char(s, e + sl) {
        lemma_spec_run_wf(s, e + sl);
        assert forall|i: int| 0 <= i < spec_run(s, p).0.len() implies sep_wf(
            #[trigger] spec_run(s, p).0[i].separator,
        ) by {
            if i > 0 {
                assert(spec_run(s, p).0[i] == spec_run(s, e + sl).0[i - 1]);
            }
        }
    }
}

proof fn lemma_spec_unit_wf(s: Seq<char>, p: int)
    requires
        0 <= p < s.len(),
        !spec_close_bracket(s[p]),
    ensures
        gos_wf(spec_unit(s, p).0),
    decreases s.len() - p, 0int,
{
    if s[p] == ' ' {
    } else if spec_open_bracket(s[p]) {
        lemma_spec_items_wf(s, p + 1);
        let r = spec_items(s, p + 1);
        let g = spec_unit(s, p).0->Group_0;
        assert forall|i: int| 0 <= i < g.value.len() implies gos_wf(#[trigger] g.value[i]) by {
            if r.0.len() > 0 {
                assert(g.value[i] == r.0[i]);
            }
        }
        assert(sep_wf(g.separator));
    } else {
        lemma_spec_run_bounds(s, p);
        lemma_spec_run_wf(s, p);
        let r = spec_run(s, p);
        let u = spec_unit(s, p).0;
        if u is Group {
            let g = u->Group_0;
            assert forall|i: int| 0 <= i < g.value.len() implies gos_wf(#[trigger] g.value[i]) by {
                assert(g.value[i] == segs_to_gos(r.0)[i]);
                assert(segs_to_gos(r.0)[i] is Segment);
                assert(segs_to_gos(r.0)[i]->Segment_0 == r.0[i]);
            }
        }
    }
}

proof fn lemma_spec_items_wf(s: Seq<char>, p: int)
    requires
        0 <= p <= s.len(),
    ensures
        forall|i: int| 0 <= i < spec_items(s, p).0.len() ==> gos_wf(#[trigger] spec_items(s, p).0[i]),
    decreases s.len() - p, 1int,
{
    if p < s.len() && !spec_close_bracket(s[p]) {
        lemma_spec_unit_bounds(s, p);
        lemma_spec_unit_wf(s, p);
        let u = spec_unit(s, p);
        lemma_spec_items_wf(s, u.1);
        assert forall|i: int| 0 <= i < spec_items(s, p).0.len() implies gos_wf(
            #[trigger] spec_items(s, p).0[i],
        ) by {
            if i > 0 {
                assert(spec_items(s, p).0[i] == spec_items(s, u.1).0[i - 1]);
            }
        }
    }
}

/// Every group the tokenizer yields keeps the data-model invariant: a value
/// of at least one element, brackets set in pairs, and the same recursively.
pub proof fn lemma_spec_group_top_wf(s: Seq<char>, p: int)
    requires
        0 <= p < s.len(),
    ensures
        gv_wf(spec_group_top(s, p).0),
{
    if !spec_close_bracket(s[p]) {
        lemma_spec_unit_wf(s, p);
    }
}

/// Every group of a tokenized line keeps the data-model invariant.
pub proof fn lemma_spec_groups_wf(s: Seq<char>, p: int)
    requires
        0 <= p <= s.len(),
    ensures
        forall|i: int|
            0 <= i < spec_groups_from(s, p).len() ==> gv_wf(#[trigger] spec_groups_from(s, p)[i]),
    decreases s.len() - p,
{
    if p < s.len() {
        lemma_spec_group_top_wf(s, p);
        lemma_spec_group_top_bounds(s, p);
        let g = spec_group_top(s, p);
        lemma_spec_groups_wf(s, g.1);
        assert forall|i: int| 0 <= i < spec_groups_from(s, p).len() implies gv_wf(
            #[trigger] spec_groups_from(s, p)[i],
        ) by {
            if i > 0 {
                assert(spec_groups_from(s, p)[i] == spec_groups_from(s, g.1)[i - 1]);
            }
        }
    }
}

/// Tokenizer totality and well-formedness: tokenizing any line yields a
/// leading slice of nothing but whitespace and groups that all keep the
/// data-model invariant.
pub proof fn lemma_line_wf(s: Seq<char>)
    ensures
        forall|i: int|
            0 <= i < spec_line_of(s).groups.len() ==> gv_wf(#[trigger] spec_line_of(s).groups[i]),
        forall|k: int|
            0 <= k < spec_line_of(s).leading_whitespace.len() ==> unicode_whitespace(
                #[trigger] spec_line_of(s).leading_whitespace[k],
            ),
{
    let w = first_non_ws(s, 0);
    lemma_first_non_ws_bounds(s, 0);
    if w >= s.len() {
        lemma_spec_groups_wf(s, 0);
    } else {
        lemma_spec_groups_wf(s, w);
    }
}

proof fn lemma_first_non_ws_bounds(s: Seq<char>, p: int)
    requires
        0 <= p <= s.len(),
    ensures
        p <= first_non_ws(s, p) <= s.len(),
        forall|k: int| p <= k < first_non_ws(s, p) ==> unicode_whitespace(s[k]),
    decreases s.len() - p,
{
    if p < s.len() && unicode_whitespace(s[p]) {
        lemma_first_non_ws_bounds(s, p + 1);
    }
}

} // verus!
