//! Data types representing a stack trace.
//!
//! Two cooperating subsystems restructure raw stack-trace text:
//!
//! * the section-tree builder ([`Stacktrace`], [`Section`]) factors repeated
//!   leading context out of consecutive frame lines, and
//! * the line tokenizer ([`Line`], [`Group`], [`Segment`]) decomposes one
//!   frame line into bracket-scoped groups of name segments.
//!
//! Both subsystems are total over arbitrary text and verified against
//! functional models. The builder's guarantees — every section reconstructs
//! its line exactly, no split falls inside an identifier, ids are consecutive
//! in creation order, and the result is a function of the text alone — are
//! stated and proved in the [`stacktrace`]-module lemmas; the tokenizer's
//! data-model invariant is proved in the [`line`]-module lemmas.

pub use crate::group::Group;
pub use crate::group_or_segment::GroupOrSegment;
pub use crate::line::Line;
pub use crate::render_mode::RenderMode;
pub use crate::section::Section;
pub use crate::segment::Segment;
pub use crate::stacktrace::Stacktrace;

pub mod group;
pub mod group_or_segment;
pub mod line;
pub mod render_mode;
pub mod section;
pub mod segment;
pub mod stacktrace;
pub mod text;
