//! A verified core for a terminal stock scout: it resolves free-text
//! company references to exchange symbols by fuzzy matching against a
//! reference catalog, keeps a rate-gated upstream session, extracts
//! financial statements from upstream pages (a structured table scrape with
//! an embedded-JSON fallback), and renders the results as aligned text.
use vstd::prelude::*;

mod text;
pub mod agent;
pub mod catalog;
pub mod config;
pub mod errors;
pub mod extract;
pub mod format;
pub mod menu;
pub mod pipeline;
pub mod render;
pub mod report;
pub mod resolver;
pub mod scan;
pub mod session;
pub mod similarity;
pub mod ui;

verus! {

/// Character class used when cleaning raw table cells: the whitespace
/// characters stripped from both ends of a cell before it is interpreted.
pub open spec fn is_space_char(c: char) -> bool {
    c == ' ' || c == '\t' || c == '\n' || c == '\r' || c == '\u{a0}'
}

/// Executable test for [`is_space_char`].
pub fn char_is_space(c: char) -> (r: bool)
    ensures
        r == is_space_char(c),
{
    c == ' ' || c == '\t' || c == '\n' || c == '\r' || c == '\u{a0}'
}

} // verus!
