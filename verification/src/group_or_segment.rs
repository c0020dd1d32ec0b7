use vstd::prelude::*;

use crate::group::Group;
use crate::segment::Segment;

verus! {

/// Either a `Group` or a `Segment`.
///
/// This exists because a group may nest another group.
#[derive(Debug, PartialEq, Eq)]
pub enum GroupOrSegment {
    /// A segment.
    Segment(Segment),
    /// A nested group.
    Group(Box<Group>),
}

} // verus!
