//! Conversion of wiki-style markup into clean, paragraph-structured plain
//! text: an extraction engine over a parsed node tree, template expansion for
//! date and numeral microformats, a residue scrubber for leftover brace and
//! image markup, a pruner for empty structural sections, and a complexity
//! guard that rejects pathological inputs before parsing.

pub mod digits;
pub mod extract;
pub mod pipeline;
pub mod rewrite;
pub mod scrub;
pub mod sections;
pub mod templates;
pub mod text;
