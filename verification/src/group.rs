use vstd::prelude::*;

use crate::group_or_segment::GroupOrSegment;
use crate::segment::SegmentView;
use crate::segment::seg_view;

verus! {

/// A group of segments.
///
/// e.g. in `my::lib::<impl tachys::view::RenderHtml for (A,)>::{{closure}}`,
/// the groups are:
///
/// * `my::lib`
/// * `<impl tachys::view::RenderHtml for (A,)>`
///     - `impl`
///     - `tachys::view::RenderHtml`
///     - `for`
///     - `(A,)`
/// * `{{closure}}`
#[derive(Debug, PartialEq, Eq)]
pub struct Group {
    /// The value between brackets (if brackets exist).
    pub value: Vec<GroupOrSegment>,
    /// Any opening bracket for this group.
    pub bracket_open: Option<char>,
    /// Any closing bracket for this group.
    pub bracket_close: Option<char>,
    /// Any punctuation separator prior to the next group.
    pub separator: Option<String>,
}

/// The mathematical model of a [`Group`].
pub ghost struct GroupView {
    pub value: Seq<GosView>,
    pub bracket_open: Option<char>,
    pub bracket_close: Option<char>,
    pub separator: Option<Seq<char>>,
}

/// The mathematical model of a [`GroupOrSegment`].
pub ghost enum GosView {
    Segment(SegmentView),
    Group(GroupView),
}

/// The model of a segment standing where no value exists; stands in for an
/// out-of-range index when a sequence of models is built.
pub open spec fn gos_default() -> GosView {
    GosView::Segment(SegmentView { text: Seq::empty(), separator: None })
}

/// The model of a [`Group`], recursively over its value.
pub open spec fn group_view(g: Group) -> GroupView
    decreases g,
{
    GroupView {
        value: Seq::new(
            g.value@.len(),
            |i: int|
                if 0 <= i < g.value@.len() {
                    gos_view(g.value@[i])
                } else {
                    gos_default()
                },
        ),
        bracket_open: g.bracket_open,
        bracket_close: g.bracket_close,
        separator: match g.separator {
            Some(sep) => Some(sep@),
            None => None,
        },
    }
}

/// The model of a [`GroupOrSegment`].
pub open spec fn gos_view(x: GroupOrSegment) -> GosView
    decreases x,
{
    match x {
        GroupOrSegment::Segment(s) => GosView::Segment(seg_view(s)),
        GroupOrSegment::Group(b) => GosView::Group(group_view(*b)),
    }
}

/// The models of a sequence of group-or-segment values, in order.
pub open spec fn gos_views(xs: Seq<GroupOrSegment>) -> Seq<GosView> {
    Seq::new(xs.len(), |i: int| gos_view(xs[i]))
}

/// The value sequence of a group's model is the models of its value vector.
pub proof fn lemma_group_view_value(g: Group)
    ensures
        group_view(g).value == gos_views(g.value@),
{
    assert(group_view(g).value =~= gos_views(g.value@));
}

/// The models of a sequence of groups, in order.
pub open spec fn group_views(gs: Seq<Group>) -> Seq<GroupView> {
    Seq::new(gs.len(), |i: int| group_view(gs[i]))
}

impl View for Group {
    type V = GroupView;

    open spec fn view(&self) -> GroupView {
        group_view(*self)
    }
}

impl View for GroupOrSegment {
    type V = GosView;

    open spec fn view(&self) -> GosView {
        gos_view(*self)
    }
}

/// An opening bracket character.
pub open spec fn spec_open_bracket(c: char) -> bool {
    c == '<' || c == '[' || c == '{' || c == '('
}

/// A closing bracket character.
pub open spec fn spec_close_bracket(c: char) -> bool {
    c == '>' || c == ']' || c == '}' || c == ')'
}

/// The closing bracket that pairs with the opening bracket `c`.
pub open spec fn spec_matching_close(c: char) -> char {
    if c == '<' {
        '>'
    } else if c == '[' {
        ']'
    } else if c == '{' {
        '}'
    } else {
        ')'
    }
}

/// Whether `c` opens a nested group scope.
pub fn is_open_bracket(c: char) -> (r: bool)
    ensures
        r == spec_open_bracket(c),
{
    c == '<' || c == '[' || c == '{' || c == '('
}

/// Whether `c` closes the current group scope.
pub fn is_close_bracket(c: char) -> (r: bool)
    ensures
        r == spec_close_bracket(c),
{
    c == '>' || c == ']' || c == '}' || c == ')'
}

/// The closing bracket that pairs with the opening bracket `c`.
pub fn matching_close_bracket(c: char) -> (r: char)
    ensures
        r == spec_matching_close(c),
{
    if c == '<' {
        '>'
    } else if c == '[' {
        ']'
    } else if c == '{' {
        '}'
    } else {
        ')'
    }
}

} // verus!
