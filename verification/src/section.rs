use vstd::prelude::*;

verus! {

/// A hierarchical structure of frames that have the same leading characters.
///
/// Currently this doesn't cater for stack traces where each frame is prefixed
/// with line numbers.
#[derive(Debug, PartialEq, Eq, Hash)]
pub struct Section {
    /// Identifier for the section.
    pub id: u32,
    /// Slice of the line that is common with previous frames.
    pub slice_common_with_previous_frames: String,
    /// Slice of the line that is not common with ancestors.
    pub slice_remainder: String,
    /// Child `Section`s of this section.
    pub child_sections: Vec<Section>,
}

/// The mathematical model of a [`Section`]: the node id, the two slices as
/// character sequences, and the models of the child sections in order.
pub ghost struct SectionView {
    pub id: int,
    pub common: Seq<char>,
    pub remainder: Seq<char>,
    pub children: Seq<SectionView>,
}

/// The model of a section that has no children; stands in for an
/// out-of-range child index when a sequence of child models is built.
pub open spec fn empty_section_view() -> SectionView {
    SectionView { id: 0, common: Seq::empty(), remainder: Seq::empty(), children: Seq::empty() }
}

/// The model of a [`Section`], recursively over its children.
pub open spec fn section_view(s: Section) -> SectionView
    decreases s,
{
    SectionView {
        id: s.id as int,
        common: s.slice_common_with_previous_frames@,
        remainder: s.slice_remainder@,
        children: Seq::new(
            s.child_sections@.len(),
            |i: int|
                if 0 <= i < s.child_sections@.len() {
                    section_view(s.child_sections@[i])
                } else {
                    empty_section_view()
                },
        ),
    }
}

/// The models of a sequence of sections, in order.
pub open spec fn sections_view(ss: Seq<Section>) -> Seq<SectionView> {
    Seq::new(ss.len(), |i: int| section_view(ss[i]))
}

/// The nodes of the forest `svs`, from position `j` on, in the order the
/// builder created them: each node before its children, children before the
/// following siblings.
pub open spec fn sv_preorder_from(svs: Seq<SectionView>, j: int) -> Seq<SectionView>
    decreases svs, svs.len() - j,
{
    if j < 0 || j >= svs.len() {
        Seq::empty()
    } else {
        seq![svs[j]] + sv_preorder_from(svs[j].children, 0) + sv_preorder_from(svs, j + 1)
    }
}

/// The nodes of the forest `svs` in the order the builder created them.
pub open spec fn sv_preorder(svs: Seq<SectionView>) -> Seq<SectionView> {
    sv_preorder_from(svs, 0)
}

impl View for Section {
    type V = SectionView;

    open spec fn view(&self) -> SectionView {
        section_view(*self)
    }
}

impl Section {
    pub fn id(&self) -> (id: u32)
        ensures
            id == self.id,
    {
        self.id
    }

    pub fn slice_common_with_previous_frames(&self) -> (s: &str)
        ensures
            s@ == self@.common,
    {
        self.slice_common_with_previous_frames.as_str()
    }

    pub fn slice_remainder(&self) -> (s: &str)
        ensures
            s@ == self@.remainder,
    {
        self.slice_remainder.as_str()
    }

    pub fn child_sections(&self) -> (cs: &[Section])
        ensures
            cs@ == self.child_sections@,
            sections_view(cs@) == self@.children,
    {
        self.child_sections.as_slice()
    }
}

} // verus!
