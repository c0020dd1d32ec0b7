use vstd::prelude::*;
use vstd::string::StrSliceExecFns;

use crate::section::Section;
use crate::section::SectionView;
use crate::section::sections_view;
use crate::section::sv_preorder;
use crate::section::sv_preorder_from;
use crate::text::last_sep_before;
use crate::text::last_word_before;
use crate::text::cpl_from;
use crate::text::lemma_common_len_props;
use crate::text::spec_common_len;
use crate::text::spec_lines;
use crate::text::spec_word_char;
use crate::text::split_lines;

verus! {

/// Parses a stack trace string into a structured stack trace.
#[derive(Debug, Default, PartialEq, Eq)]
pub struct Stacktrace {
    pub sections: Vec<Section>,
}

impl View for Stacktrace {
    type V = Seq<SectionView>;

    open spec fn view(&self) -> Seq<SectionView> {
        sections_view(self.sections@)
    }
}

/// The line that the enclosing section was built from, and the character
/// length of the prefix that was factored out of that line.
#[derive(Clone, Copy, Debug)]
pub struct PreviousSectionInfo<'s> {
    pub previous_line: &'s str,
    pub slice_common_len: usize,
}

impl<'s> PreviousSectionInfo<'s> {
    pub fn previous_line(self) -> (l: &'s str)
        ensures
            l == self.previous_line,
    {
        self.previous_line
    }

    pub fn slice_common_len(self) -> (n: usize)
        ensures
            n == self.slice_common_len,
    {
        self.slice_common_len
    }
}

/// The model of a [`PreviousSectionInfo`].
pub ghost struct PrevView {
    pub line: Seq<char>,
    pub common_len: int,
}

pub open spec fn psi_view(p: Option<PreviousSectionInfo>) -> Option<PrevView> {
    match p {
        None => None,
        Some(q) => Some(PrevView { line: q.previous_line@, common_len: q.slice_common_len as int }),
    }
}

/// The snapped common-prefix length of `line` against the previous line, or
/// zero when there is no previous line.
pub open spec fn spec_common_of(prev: Option<PrevView>, line: Seq<char>) -> int {
    match prev {
        None => 0,
        Some(p) => spec_common_len(p.line, line),
    }
}

/// Whether a line whose snapped common-prefix length is `clen` belongs to an
/// ancestor of the section currently being built rather than to it: it does
/// whenever the length does not strictly grow.
pub open spec fn spec_should_return(prev: Option<PrevView>, clen: int) -> bool {
    match prev {
        None => false,
        Some(p) => clen <= p.common_len,
    }
}

/// Whether a section's split respects word boundaries: a non-empty common
/// slice ends with a word character and the remainder starts with a
/// separator, so the split never falls inside an identifier.
pub open spec fn sv_boundary_ok(sv: SectionView) -> bool {
    sv.common.len() > 0 ==> {
        &&& sv.remainder.len() > 0
        &&& spec_word_char(sv.common[sv.common.len() - 1])
        &&& !spec_word_char(sv.remainder[0])
    }
}

/// The model of the section-tree builder: starting at line `from`, with
/// `next_id` the next free id and `prev` the enclosing section's line and
/// factored length, it yields the sections built, the index of the first
/// line not consumed, and the next free id afterwards.
pub open spec fn spec_parse(
    lines: Seq<Seq<char>>,
    from: int,
    next_id: int,
    prev: Option<PrevView>,
) -> (Seq<SectionView>, int, int)
    decreases lines.len() - from, lines.len() - from,
{
    if from < 0 || from >= lines.len() {
        (Seq::empty(), from, next_id)
    } else {
        let line = lines[from];
        let clen = spec_common_of(prev, line);
        if spec_should_return(prev, clen) {
            (Seq::empty(), from, next_id)
        } else {
            let r_children = spec_parse(
                lines,
                from + 1,
                next_id + 1,
                Some(PrevView { line, common_len: clen }),
            );
            let children = r_children.0;
            let i2 = if r_children.1 < from + 1 {
                from + 1
            } else if r_children.1 > lines.len() {
                lines.len() as int
            } else {
                r_children.1
            };
            let r_siblings = spec_parse(lines, i2, r_children.2, prev);
            let node = SectionView {
                id: next_id,
                common: line.take(clen),
                remainder: line.skip(clen),
                children,
            };
            (seq![node] + r_siblings.0, r_siblings.1, r_siblings.2)
        }
    }
}

/// The builder neither steps backwards nor runs past the input: the index it
/// returns lies between `from` and the number of lines, and ids advance in
/// step with the lines consumed.
pub proof fn lemma_spec_parse_bounds(
    lines: Seq<Seq<char>>,
    from: int,
    next_id: int,
    prev: Option<PrevView>,
)
    requires
        0 <= from <= lines.len(),
    ensures
        from <= spec_parse(lines, from, next_id, prev).1 <= lines.len(),
        spec_parse(lines, from, next_id, prev).2 - next_id == spec_parse(
            lines,
            from,
            next_id,
            prev,
        ).1 - from,
    decreases lines.len() - from, lines.len() - from,
{
    if from < lines.len() {
        let line = lines[from];
        let clen = spec_common_of(prev, line);
        if !spec_should_return(prev, clen) {
            lemma_spec_parse_bounds(
                lines,
                from + 1,
                next_id + 1,
                Some(PrevView { line, common_len: clen }),
            );
            let r_children = spec_parse(
                lines,
                from + 1,
                next_id + 1,
                Some(PrevView { line, common_len: clen }),
            );
            lemma_spec_parse_bounds(lines, r_children.1, r_children.2, prev);
        }
    }
}

/// Walking the creation order of `seq![n] + t` from position `j + 1` visits
/// the same nodes as walking `t` from position `j`.
pub proof fn lemma_preorder_shift(n: SectionView, t: Seq<SectionView>, j: int)
    requires
        0 <= j <= t.len(),
    ensures
        sv_preorder_from(seq![n] + t, j + 1) == sv_preorder_from(t, j),
    decreases t.len() - j,
{
    let s = seq![n] + t;
    if j < t.len() {
        assert(s[j + 1] == t[j]);
        lemma_preorder_shift(n, t, j + 1);
    }
}

/// In creation order, the sections the builder yields carry consecutive ids
/// starting at `next_id`, reconstruct the consumed lines exactly and in
/// order, and every split lies on a word boundary.
pub proof fn lemma_spec_parse_preorder(
    lines: Seq<Seq<char>>,
    from: int,
    next_id: int,
    prev: Option<PrevView>,
)
    requires
        0 <= from <= lines.len(),
    ensures
        ({
            let r = spec_parse(lines, from, next_id, prev);
            let po = sv_preorder(r.0);
            &&& po.len() == r.1 - from
            &&& forall|k: int| 0 <= k < po.len() ==> (#[trigger] po[k]).id == next_id + k
            &&& forall|k: int|
                0 <= k < po.len() ==> (#[trigger] po[k]).common + po[k].remainder == lines[from
                    + k]
            &&& forall|k: int| 0 <= k < po.len() ==> sv_boundary_ok(#[trigger] po[k])
        }),
    decreases lines.len() - from, lines.len() - from,
{
    lemma_spec_parse_bounds(lines, from, next_id, prev);
    let r = spec_parse(lines, from, next_id, prev);
    let po = sv_preorder(r.0);
    if from < lines.len() {
        let line = lines[from];
        let clen = spec_common_of(prev, line);
        if !spec_should_return(prev, clen) {
            let child_prev = Some(PrevView { line, common_len: clen });
            lemma_spec_parse_bounds(lines, from + 1, next_id + 1, child_prev);
            lemma_spec_parse_preorder(lines, from + 1, next_id + 1, child_prev);
            let rc = spec_parse(lines, from + 1, next_id + 1, child_prev);
            let i2 = rc.1;
            lemma_spec_parse_preorder(lines, i2, rc.2, prev);
            let rs = spec_parse(lines, i2, rc.2, prev);
            let node = SectionView {
                id: next_id,
                common: line.take(clen),
                remainder: line.skip(clen),
                children: rc.0,
            };
            assert(r.0 == seq![node] + rs.0);
            let poc = sv_preorder(rc.0);
            let pos = sv_preorder(rs.0);
            lemma_preorder_shift(node, rs.0, 0);
            assert(r.0[0] == node);
            assert(po =~= seq![node] + poc + pos);
            let lc = poc.len() as int;
            match prev {
                Some(p) => lemma_common_len_props(p.line, line),
                None => {},
            }
            assert(line.take(clen) + line.skip(clen) =~= line);
            assert(node.common.len() == clen);
            assert forall|k: int| 0 <= k < po.len() implies (#[trigger] po[k]).id == next_id + k
                && po[k].common + po[k].remainder == lines[from + k] && sv_boundary_ok(po[k]) by {
                if k == 0 {
                    assert(po[0] == node);
                } else if k <= lc {
                    assert(po[k] == poc[k - 1]);
                } else {
                    assert(po[k] == pos[k - 1 - lc]);
                    assert(rc.2 == next_id + 1 + lc);
                    assert(i2 == from + 1 + lc);
                }
            }
        } else {
            assert(po =~= Seq::<SectionView>::empty());
        }
    } else {
        assert(po =~= Seq::<SectionView>::empty());
    }
}

/// With no enclosing section, the builder consumes every line: nothing makes
/// it hand control back early at the top level.
pub proof fn lemma_parse_consumes_all(lines: Seq<Seq<char>>, from: int, next_id: int)
    requires
        0 <= from <= lines.len(),
    ensures
        spec_parse(lines, from, next_id, None).1 == lines.len(),
    decreases lines.len() - from, lines.len() - from,
{
    if from < lines.len() {
        let line = lines[from];
        let clen = spec_common_of(None, line);
        let child_prev = Some(PrevView { line, common_len: clen });
        lemma_spec_parse_bounds(lines, from + 1, next_id + 1, child_prev);
        let rc = spec_parse(lines, from + 1, next_id + 1, child_prev);
        lemma_parse_consumes_all(lines, rc.1, rc.2);
    }
}

/// The model of the stack trace built for `text`.
pub open spec fn spec_stacktrace(text: Seq<char>) -> Seq<SectionView> {
    spec_parse(spec_lines(text), 0, 0, None).0
}

/// Round-trip: the built tree has exactly one section per input line, and in
/// creation order each section's common slice followed by its remainder is
/// precisely the line it was built from, character for character.
pub proof fn lemma_round_trip(text: Seq<char>)
    ensures
        ({
            let po = sv_preorder(spec_stacktrace(text));
            &&& po.len() == spec_lines(text).len()
            &&& forall|k: int|
                0 <= k < po.len() ==> (#[trigger] po[k]).common + po[k].remainder == spec_lines(
                    text,
                )[k]
        }),
{
    lemma_parse_consumes_all(spec_lines(text), 0, 0);
    lemma_spec_parse_preorder(spec_lines(text), 0, 0, None);
}

/// Word-boundary safety: no section of the built tree splits its line inside
/// a maximal run of word characters.
pub proof fn lemma_word_boundary(text: Seq<char>)
    ensures
        forall|k: int|
            0 <= k < sv_preorder(spec_stacktrace(text)).len() ==> sv_boundary_ok(
                #[trigger] sv_preorder(spec_stacktrace(text))[k],
            ),
{
    lemma_spec_parse_preorder(spec_lines(text), 0, 0, None);
}

/// Monotonic ids: in creation order the sections of the built tree carry the
/// ids zero, one, two and so on, so ids are unique and strictly increasing.
pub proof fn lemma_monotonic_ids(text: Seq<char>)
    ensures
        forall|k: int|
            0 <= k < sv_preorder(spec_stacktrace(text)).len() ==> (#[trigger] sv_preorder(
                spec_stacktrace(text),
            )[k]).id == k,
        forall|j: int, k: int|
            0 <= j < k < sv_preorder(spec_stacktrace(text)).len() ==> sv_preorder(
                spec_stacktrace(text),
            )[j].id < sv_preorder(spec_stacktrace(text))[k].id,
{
    lemma_spec_parse_preorder(spec_lines(text), 0, 0, None);
}

/// Idempotence: building twice from the same text yields structurally
/// identical trees — the model is a function of the text alone.
pub proof fn lemma_build_idempotent(a: Stacktrace, b: Stacktrace, text: Seq<char>)
    requires
        a@ == spec_stacktrace(text),
        b@ == spec_stacktrace(text),
    ensures
        a@ == b@,
{
}

impl Stacktrace {
    /// A character that may stand inside an identifier.
    pub fn is_word_character(c: char) -> (r: bool)
        ensures
            r == spec_word_char(c),
    {
        char::is_alphanumeric(c) || c == '_'
    }

    /// A character that separates words.
    pub fn is_separator(c: char) -> (r: bool)
        ensures
            r == !spec_word_char(c),
    {
        !Self::is_word_character(c)
    }

    /// The greatest index below `end` holding a separator, scanning backwards.
    fn rfind_separator(line: &str, end: usize) -> (r: Option<usize>)
        requires
            end <= line@.len(),
        ensures
            ({
                let s = last_sep_before(line@, end as int);
                match r {
                    Some(v) => v as int == s && v < end,
                    None => s == -1,
                }
            }),
    {
        let mut k = end;
        while k > 0
            invariant
                k <= end <= line@.len(),
                last_sep_before(line@, end as int) == last_sep_before(line@, k as int),
            decreases k,
        {
            if Self::is_separator(line.get_char(k - 1)) {
                return Some(k - 1);
            }
            k = k - 1;
        }
        None
    }

    /// The greatest index below `end` holding a word character, scanning
    /// backwards.
    fn rfind_word(line: &str, end: usize) -> (r: Option<usize>)
        requires
            end <= line@.len(),
        ensures
            ({
                let w = last_word_before(line@, end as int);
                match r {
                    Some(v) => v as int == w && v < end,
                    None => w == -1,
                }
            }),
    {
        let mut k = end;
        while k > 0
            invariant
                k <= end <= line@.len(),
                last_word_before(line@, end as int) == last_word_before(line@, k as int),
            decreases k,
        {
            if Self::is_word_character(line.get_char(k - 1)) {
                return Some(k - 1);
            }
            k = k - 1;
        }
        None
    }

    /// Scans backwards from the last matching character to the nearest
    /// separator, then to the end of the word before that separator: the
    /// index directly after that word, or none when no such boundary exists.
    pub fn beginning_of_closest_separator(line: &str, common_char_index: usize) -> (r: Option<
        usize,
    >)
        requires
            common_char_index < line@.len(),
            common_char_index < usize::MAX,
        ensures
            ({
                let sp = last_sep_before(line@, common_char_index + 1);
                if sp < 0 {
                    r is None
                } else {
                    let w = last_word_before(line@, sp);
                    if w < 0 {
                        r is None
                    } else {
                        r == Some((w + 1) as usize)
                    }
                }
            }),
    {
        match Self::rfind_separator(line, common_char_index + 1) {
            None => None,
            Some(sp) => match Self::rfind_word(line, sp) {
                None => None,
                Some(w) => Some(w + 1),
            },
        }
    }

    /// The end of the longest exactly matching common prefix of `a` and `b`.
    fn common_char_prefix_len(a: &str, b: &str) -> (m: usize)
        ensures
            m as int == cpl_from(a@, b@, 0),
    {
        let an = a.unicode_len();
        let bn = b.unicode_len();
        let mut i: usize = 0;
        while i < an && i < bn
            invariant
                i <= an,
                i <= bn,
                an == a@.len(),
                bn == b@.len(),
                cpl_from(a@, b@, 0) == cpl_from(a@, b@, i as int),
            decreases an - i,
        {
            if a.get_char(i) != b.get_char(i) {
                return i;
            }
            i = i + 1;
        }
        i
    }

    /// The slice of `line` that is factored out against the previous line:
    /// the longest matching prefix snapped down to a word boundary, or empty
    /// when there is no previous line or no boundary.
    pub fn parse_slice_common_with_ancestors(
        previous_section_info: Option<PreviousSectionInfo>,
        line: &str,
    ) -> (common: String)
        ensures
            common@ == line@.take(spec_common_of(psi_view(previous_section_info), line@)),
    {
        proof {
            assert(line@.take(0) =~= Seq::<char>::empty());
        }
        match previous_section_info {
            None => String::new(),
            Some(p) => {
                let m = Self::common_char_prefix_len(p.previous_line, line);
                proof {
                    crate::text::lemma_cpl_from(p.previous_line@, line@, 0);
                    if m > 0 {
                        crate::text::lemma_last_sep_before(line@, m as int);
                        let sp = last_sep_before(line@, m as int);
                        if sp >= 0 {
                            crate::text::lemma_last_word_before(line@, sp);
                        }
                    }
                }
                if m == 0 {
                    String::new()
                } else {
                    match Self::beginning_of_closest_separator(line, m - 1) {
                        None => String::new(),
                        Some(b) => {
                            proof {
                                assert(line@.subrange(0, b as int) =~= line@.take(b as int));
                            }
                            line.substring_char(0, b).to_owned()
                        },
                    }
                }
            },
        }
    }

    /// Whether the line whose factored slice is `slice_common_with_ancestors`
    /// belongs under an ancestor of the section the builder currently
    /// extends: it does unless the factored slice strictly grew.
    pub fn line_is_better_suited_as_child_section_of_parent(
        previous_section_info: Option<PreviousSectionInfo>,
        slice_common_with_ancestors: &String,
    ) -> (r: bool)
        ensures
            r == spec_should_return(
                psi_view(previous_section_info),
                slice_common_with_ancestors@.len() as int,
            ),
    {
        match previous_section_info {
            None => false,
            Some(p) => slice_common_with_ancestors.as_str().unicode_len() <= p.slice_common_len,
        }
    }

    /// Builds sections from `lines` starting at line `from`, until the lines
    /// run out or a line no longer extends the enclosing section's factored
    /// prefix. Returns the sections, the index of the first line not
    /// consumed, and the next free id.
    pub fn parse(lines: &Vec<String>, from: usize, next_id: u32, previous_section_info: Option<
        PreviousSectionInfo,
    >) -> (res: (Vec<Section>, usize, u32))
        requires
            from <= lines@.len(),
            next_id + lines@.len() - from <= u32::MAX,
        ensures
            ({
                let r = spec_parse(
                    lines.deep_view(),
                    from as int,
                    next_id as int,
                    psi_view(previous_section_info),
                );
                &&& sections_view(res.0@) == r.0
                &&& res.1 as int == r.1
                &&& res.2 as int == r.2
                &&& from <= res.1 <= lines@.len()
            }),
        decreases lines@.len() - from,
    {
        proof {
            lemma_spec_parse_bounds(
                lines.deep_view(),
                from as int,
                next_id as int,
                psi_view(previous_section_info),
            );
        }
        if from >= lines.len() {
            return (Vec::new(), from, next_id);
        }
        let line: &String = &lines[from];
        let common = Self::parse_slice_common_with_ancestors(previous_section_info, line.as_str());
        proof {
            match psi_view(previous_section_info) {
                Some(p) => lemma_common_len_props(p.line, line@),
                None => {},
            }
        }
        if Self::line_is_better_suited_as_child_section_of_parent(previous_section_info, &common) {
            return (Vec::new(), from, next_id);
        }
        let clen = common.as_str().unicode_len();
        let n = line.as_str().unicode_len();
        let slice_remainder = line.as_str().substring_char(clen, n).to_owned();
        let section_id = next_id;
        let child_info = PreviousSectionInfo {
            previous_line: line.as_str(),
            slice_common_len: clen,
        };
        let (child_sections, after_children, id_after_children) = Self::parse(
            lines,
            from + 1,
            next_id + 1,
            Some(child_info),
        );
        proof {
            lemma_spec_parse_bounds(
                lines.deep_view(),
                from + 1,
                next_id + 1,
                psi_view(Some(child_info)),
            );
        }
        let (mut siblings, after_siblings, id_after_siblings) = Self::parse(
            lines,
            after_children,
            id_after_children,
            previous_section_info,
        );
        let section = Section {
            id: section_id,
            slice_common_with_previous_frames: common,
            slice_remainder,
            child_sections,
        };
        let mut sections = Vec::new();
        sections.push(section);
        let ghost siblings_snapshot = siblings@;
        sections.append(&mut siblings);
        proof {
            let glines = lines.deep_view();
            let gprev = psi_view(previous_section_info);
            let gline = glines[from as int];
            assert(gline == line@);
            let gclen = spec_common_of(gprev, gline);
            assert(clen as int == gclen);
            assert(slice_remainder@ =~= gline.skip(gclen));
            let child_prev = Some(PrevView { line: gline, common_len: gclen });
            let r_children = spec_parse(glines, from + 1, next_id + 1, child_prev);
            assert(psi_view(Some(child_info)) == child_prev);
            assert(sections_view(child_sections@) == r_children.0);
            assert(after_children as int == r_children.1);
            assert(id_after_children as int == r_children.2);
            let r_siblings = spec_parse(glines, after_children as int, id_after_children as int, gprev);
            let node = SectionView {
                id: next_id as int,
                common: gline.take(gclen),
                remainder: gline.skip(gclen),
                children: r_children.0,
            };
            assert(section@.children =~= r_children.0);
            assert(section@ == node);
            assert(sections@ == seq![section] + siblings_snapshot);
            assert(sections_view(sections@) =~= seq![node] + sections_view(siblings_snapshot));
            let r = spec_parse(glines, from as int, next_id as int, gprev);
            assert(r.0 == seq![node] + r_siblings.0);
        }
        (sections, after_siblings, id_after_siblings)
    }

    /// Builds the stack trace for the given text: the lines of the text,
    /// factored into sections with ids assigned from zero in the order the
    /// lines are consumed.
    pub fn from(s: &str) -> (st: Stacktrace)
        requires
            spec_lines(s@).len() <= u32::MAX,
        ensures
            st@ == spec_stacktrace(s@),
    {
        let lines = split_lines(s);
        let (sections, _, _) = Self::parse(&lines, 0, 0, None);
        Stacktrace { sections }
    }
}

} // verus!
