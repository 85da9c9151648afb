//! Terminal presentation helpers: the banner art, width-bounded truncation,
//! the prompt, and the line count a wrapped prompt occupies. Drawing itself
//! is the shell's business.
use vstd::prelude::*;

verus! {

/// The banner art, line by line.
pub fn art_lines() -> (r: Vec<&'static str>)
    ensures
        r@.len() == 6,
{
    let mut v: Vec<&'static str> = Vec::new();
    v.push(" ‚Ėą‚Ėą‚Ėą‚Ėą‚Ėą‚Ėą‚ēó ‚Ėą‚Ėą‚Ėą‚Ėą‚Ėą‚Ėą‚ēó   ‚Ėą‚Ėą‚Ėą‚Ėą‚Ėą‚Ėą‚ēó ‚Ėą‚Ėą‚ēó   ‚Ėą‚Ėą‚ēó‚Ėą‚Ėą‚Ėą‚Ėą‚Ėą‚Ėą‚Ėą‚Ėą‚ēó");
    v.push("‚Ėą‚Ėą‚ēĒ‚ēź‚ēź‚ēź‚ēź‚ēĚ ‚Ėą‚Ėą‚ēĒ‚ēź‚ēź‚ēź‚ēź‚ēĚ ‚Ėą‚Ėą‚ēĒ‚ēź‚ēź‚ēź‚Ėą‚Ėą‚ēó‚Ėą‚Ėą‚ēĎ   ‚Ėą‚Ėą‚ēĎ‚ēö‚ēź‚ēź‚Ėą‚Ėą‚ēĒ‚ēź‚ēź‚ēĚ");
    v.push("‚ēö‚Ėą‚Ėą‚Ėą‚Ėą‚Ėą‚ēó  ‚Ėą‚Ėą‚ēĎ      ‚Ėą‚Ėą‚ēĎ   ‚Ėą‚Ėą‚ēĎ‚Ėą‚Ėą‚ēĎ   ‚Ėą‚Ėą‚ēĎ   ‚Ėą‚Ėą‚ēĎ   ");
    v.push(" ‚ēö‚ēź‚ēź‚ēź‚Ėą‚Ėą‚ēó ‚Ėą‚Ėą‚ēĎ      ‚Ėą‚Ėą‚ēĎ   ‚Ėą‚Ėą‚ēĎ‚Ėą‚Ėą‚ēĎ   ‚Ėą‚Ėą‚ēĎ   ‚Ėą‚Ėą‚ēĎ   ");
    v.push("‚Ėą‚Ėą‚Ėą‚Ėą‚Ėą‚Ėą‚ēĒ‚ēĚ ‚ēö‚Ėą‚Ėą‚Ėą‚Ėą‚Ėą‚Ėą‚ēó ‚ēö‚Ėą‚Ėą‚Ėą‚Ėą‚Ėą‚Ėą‚ēĒ‚ēĚ‚ēö‚Ėą‚Ėą‚Ėą‚Ėą‚Ėą‚Ėą‚ēĒ‚ēĚ   ‚Ėą‚Ėą‚ēĎ   ");
    v.push("‚ēö‚ēź‚ēź‚ēź‚ēź‚ēź‚ēĚ   ‚ēö‚ēź‚ēź‚ēź‚ēź‚ēź‚ēĚ  ‚ēö‚ēź‚ēź‚ēź‚ēź‚ēź‚ēĚ  ‚ēö‚ēź‚ēź‚ēź‚ēź‚ēź‚ēĚ    ‚ēö‚ēź‚ēĚ   ");
    v
}

/// Truncation to a display width: a longer text keeps its first
/// `width - 3` characters and gains a three-dot marker.
pub open spec fn spec_truncate(s: Seq<char>, width: int) -> Seq<char> {
    if s.len() > width {
        s.take(
            if width >= 3 {
                width - 3
            } else {
                0
            },
        ) + "..."@
    } else {
        s
    }
}

/// Truncates a text to a display width, marking the cut with three dots.
pub fn truncate_to_width(s: &str, width: usize) -> (r: String)
    ensures
        r@ == spec_truncate(s@, width as int),
{
    let chars = crate::text::str_to_chars(s);
    if chars.len() > width {
        let keep = if width >= 3 {
            width - 3
        } else {
            0
        };
        let head = crate::scan::subvec(&chars, 0, keep);
        let mut out = crate::text::chars_to_string(&head);
        out.append("...");
        out
    } else {
        s.to_owned()
    }
}

/// The input prompt shown ahead of what the user typed.
pub fn prompt_string(input: &str) -> (r: String)
    ensures
        r@ == "SCOUT > "@ + input@,
{
    let mut p = "SCOUT > ".to_owned();
    p.append(input);
    p
}

/// How many terminal rows a prompt of `content_len` characters occupies at
/// `cols` columns (at least one, and a zero width counts as one column).
pub open spec fn spec_line_count(content_len: int, cols: int) -> int {
    let c = if cols >= 1 {
        cols
    } else {
        1
    };
    (if content_len >= 1 {
        content_len - 1
    } else {
        0
    }) / c + 1
}

/// Counts the rows a wrapped prompt occupies.
pub fn prompt_line_count(content_len: u16, cols: u16) -> (r: u16)
    ensures
        r as int == spec_line_count(content_len as int, cols as int),
{
    let c = if cols >= 1 {
        cols
    } else {
        1
    };
    let base = if content_len >= 1 {
        content_len - 1
    } else {
        0
    };
    base / c + 1
}

} // verus!
