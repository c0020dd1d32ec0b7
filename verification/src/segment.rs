use vstd::prelude::*;

verus! {

/// A segment of text that should be treated as a whole.
///
/// e.g. in `my::lib::{{closure}}`, the segments are:
///
/// Group 1:
///
/// * `my`
/// * `lib`
///
/// Group 2:
///
/// * `closure`
#[derive(Clone, Debug, PartialEq, Eq)]
pub struct Segment {
    /// The text in the segment, e.g. `my_package`, `{{closure}}`.
    pub text: String,
    /// Any punctuation separator prior to the next group.
    pub separator: Option<String>,
}

/// The mathematical model of a [`Segment`]: its text and trailing separator
/// as character sequences.
pub ghost struct SegmentView {
    pub text: Seq<char>,
    pub separator: Option<Seq<char>>,
}

/// The model of a [`Segment`].
pub open spec fn seg_view(s: Segment) -> SegmentView {
    SegmentView {
        text: s.text@,
        separator: match s.separator {
            Some(sep) => Some(sep@),
            None => None,
        },
    }
}

/// The models of a sequence of segments, in order.
pub open spec fn segment_views(ss: Seq<Segment>) -> Seq<SegmentView> {
    Seq::new(ss.len(), |i: int| seg_view(ss[i]))
}

impl View for Segment {
    type V = SegmentView;

    open spec fn view(&self) -> SegmentView {
        seg_view(*self)
    }
}

} // verus!
