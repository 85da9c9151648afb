//! Balanced-delimiter scanning: finding the end of a JSON value embedded in
//! arbitrary text by tracking brace/bracket nesting while respecting quoted
//! strings (with backslash escapes).
use vstd::prelude::*;

use crate::is_space_char;

verus! {

/// One pass of the scanner over `s[i..]`, carrying its state: whether it is
/// inside a string literal (`in_str`, with `q` the quote that opened it and
/// `esc` set right after a backslash), and the stack of closing delimiters
/// still owed. Yields the index of the character that empties the stack, or
/// `None` when the text ends first or a closing delimiter mismatches.
pub open spec fn scan_from(
    s: Seq<char>,
    i: int,
    in_str: bool,
    esc: bool,
    q: char,
    stack: Seq<char>,
) -> Option<int>
    decreases s.len() - i,
{
    if i < 0 || i >= s.len() {
        None
    } else {
        let c = s[i];
        if in_str {
            if esc {
                scan_from(s, i + 1, true, false, q, stack)
            } else if c == '\\' {
                scan_from(s, i + 1, true, true, q, stack)
            } else if c == q {
                scan_from(s, i + 1, false, false, q, stack)
            } else {
                scan_from(s, i + 1, true, false, q, stack)
            }
        } else if c == '"' || c == '\'' {
            scan_from(s, i + 1, true, false, c, stack)
        } else if c == '{' {
            scan_from(s, i + 1, false, false, q, stack.push('}'))
        } else if c == '[' {
            scan_from(s, i + 1, false, false, q, stack.push(']'))
        } else if c == '}' || c == ']' {
            if stack.len() == 0 || stack.last() != c {
                None
            } else if stack.len() == 1 {
                Some(i)
            } else {
                scan_from(s, i + 1, false, false, q, stack.drop_last())
            }
        } else {
            scan_from(s, i + 1, false, false, q, stack)
        }
    }
}

/// Index of the character that closes the delimiter opened at the start of
/// `s`, when `s` begins with balanced nesting; `None` on mismatch or when the
/// text runs out.
pub open spec fn spec_scan(s: Seq<char>) -> Option<int> {
    scan_from(s, 0, false, false, '\u{0}', Seq::empty())
}

/// The scanner proper: walks `s` and returns the position (inclusive) at
/// which the outermost `{`/`[` opened in `s` is closed. Quoted delimiters do
/// not count; an escape character suppresses the following character; a
/// mismatched closing delimiter aborts the scan.
pub fn scan_balanced_end(s: &Vec<char>) -> (r: Option<usize>)
    ensures
        match r {
            Some(i) => spec_scan(s@) == Some(i as int) && i < s.len(),
            None => spec_scan(s@) is None,
        },
{
    let mut i: usize = 0;
    let mut in_str: bool = false;
    let mut esc: bool = false;
    let mut q: char = '\u{0}';
    let mut stack: Vec<char> = Vec::new();
    while i < s.len()
        invariant
            i <= s.len(),
            esc ==> in_str,
            spec_scan(s@) == scan_from(s@, i as int, in_str, esc, q, stack@),
        decreases s.len() - i,
    {
        let c = s[i];
        if in_str {
            if esc {
                esc = false;
            } else if c == '\\' {
                esc = true;
            } else if c == q {
                in_str = false;
            }
        } else if c == '"' || c == '\'' {
            in_str = true;
            q = c;
        } else if c == '{' {
            stack.push('}');
        } else if c == '[' {
            stack.push(']');
        } else if c == '}' || c == ']' {
            if stack.len() == 0 {
                return None;
            }
            let top = stack[stack.len() - 1];
            if top != c {
                return None;
            }
            if stack.len() == 1 {
                return Some(i);
            }
            let ghost pre_pop = stack@;
            stack.pop();
            proof {
                assert(stack@ =~= pre_pop.drop_last());
            }
        }
        i = i + 1;
    }
    None
}

/// `pat` occurs in `s` at position `i`.
pub open spec fn is_match_at(s: Seq<char>, pat: Seq<char>, i: int) -> bool {
    0 <= i && i + pat.len() <= s.len() && s.subrange(i, i + pat.len()) == pat
}

/// First position at or after `from` where `pat` occurs in `s`.
pub open spec fn spec_find(s: Seq<char>, pat: Seq<char>, from: int) -> Option<int>
    decreases s.len() - from,
{
    if from < 0 || from + pat.len() > s.len() {
        None
    } else if is_match_at(s, pat, from) {
        Some(from)
    } else if from >= s.len() {
        None
    } else {
        spec_find(s, pat, from + 1)
    }
}

/// A successful find really is an occurrence, at or after the start index.
pub proof fn lemma_find_is_match(s: Seq<char>, pat: Seq<char>, from: int, i: int)
    requires
        spec_find(s, pat, from) == Some(i),
    ensures
        is_match_at(s, pat, i),
        from <= i,
    decreases s.len() - from,
{
    if !(from < 0 || from + pat.len() > s.len()) && !is_match_at(s, pat, from) && from < s.len() {
        lemma_find_is_match(s, pat, from + 1, i);
    }
}

/// First index at or after `i` whose character is not whitespace (`s.len()`
/// when the rest of `s` is all whitespace).
pub open spec fn trim_start_idx(s: Seq<char>, i: int) -> int
    decreases s.len() - i,
{
    if 0 <= i < s.len() && is_space_char(s[i]) {
        trim_start_idx(s, i + 1)
    } else {
        i
    }
}

/// The balanced value at the head of `s` after leading whitespace: requires a
/// `{` there, and yields the span from that `{` through its matching closer.
pub open spec fn spec_scan_value(s: Seq<char>) -> Option<Seq<char>> {
    let k = trim_start_idx(s, 0);
    let t = s.subrange(k, s.len() as int);
    if t.len() == 0 || t[0] != '{' {
        None
    } else {
        match spec_scan(t) {
            Some(end) => Some(t.subrange(0, end + 1)),
            None => None,
        }
    }
}

/// The embedded value announced by `marker` inside `s`: the text after the
/// first occurrence of `marker`, from the first following `:`, must hold a
/// `{`-opened balanced value after optional whitespace.
pub open spec fn spec_extract_embedded(s: Seq<char>, marker: Seq<char>) -> Option<Seq<char>> {
    match spec_find(s, marker, 0) {
        None => None,
        Some(st) => {
            let rest = s.subrange(st + marker.len(), s.len() as int);
            match spec_find(rest, seq![':'], 0) {
                None => None,
                Some(colon) => spec_scan_value(rest.subrange(colon + 1, rest.len() as int)),
            }
        },
    }
}

/// Copy of `v[from..to]`.
pub fn subvec(v: &Vec<char>, from: usize, to: usize) -> (r: Vec<char>)
    requires
        from <= to <= v@.len(),
    ensures
        r@ == v@.subrange(from as int, to as int),
{
    let mut r: Vec<char> = Vec::new();
    let mut i: usize = from;
    while i < to
        invariant
            from <= i <= to <= v@.len(),
            r@ == v@.subrange(from as int, i as int),
        decreases to - i,
    {
        r.push(v[i]);
        proof {
            assert(r@ =~= v@.subrange(from as int, i + 1 as int));
        }
        i = i + 1;
    }
    r
}

/// Whether `pat` occurs in `v` at position `at`.
fn match_at(v: &Vec<char>, pat: &Vec<char>, at: usize) -> (r: bool)
    requires
        at + pat@.len() <= v@.len(),
    ensures
        r == is_match_at(v@, pat@, at as int),
{
    let n = v.len();
    let mut k: usize = 0;
    while k < pat.len()
        invariant
            n == v@.len(),
            at + pat@.len() <= v@.len(),
            k <= pat@.len(),
            forall|j: int| 0 <= j < k ==> v@[at + j] == pat@[j],
        decreases pat@.len() - k,
    {
        if v[at + k] != pat[k] {
            proof {
                assert(v@.subrange(at as int, at + pat@.len())[k as int] != pat@[k as int]);
            }
            return false;
        }
        k = k + 1;
    }
    proof {
        assert(v@.subrange(at as int, at + pat@.len()) =~= pat@);
    }
    true
}

/// First occurrence of `pat` in `v` at or after `from`.
pub fn find_sub(v: &Vec<char>, pat: &Vec<char>, from: usize) -> (r: Option<usize>)
    ensures
        match r {
            Some(i) => spec_find(v@, pat@, from as int) == Some(i as int),
            None => spec_find(v@, pat@, from as int) is None,
        },
{
    if pat.len() > v.len() {
        return None;
    }
    let last = v.len() - pat.len();
    let mut i: usize = from;
    if i > last {
        return None;
    }
    loop
        invariant
            i + pat@.len() <= v@.len(),
            last == v@.len() - pat@.len(),
            spec_find(v@, pat@, from as int) == spec_find(v@, pat@, i as int),
        decreases v@.len() - i,
    {
        if match_at(v, pat, i) {
            return Some(i);
        }
        if i == last {
            proof {
                assert(spec_find(v@, pat@, i + 1) is None);
            }
            return None;
        }
        i = i + 1;
    }
}

/// First index at or after `from` whose character is not whitespace.
pub(crate) fn skip_spaces(v: &Vec<char>, from: usize) -> (r: usize)
    requires
        from <= v@.len(),
    ensures
        r == trim_start_idx(v@, from as int),
        from <= r <= v@.len(),
{
    let mut i: usize = from;
    while i < v.len() && crate::char_is_space(v[i])
        invariant
            from <= i <= v@.len(),
            trim_start_idx(v@, from as int) == trim_start_idx(v@, i as int),
        decreases v@.len() - i,
    {
        i = i + 1;
    }
    i
}

/// Standalone balanced-delimiter scan: after optional leading whitespace,
/// `text` must open with `{`; the result is the span from that `{` through
/// the matching `}`, inclusive. Text past the closing delimiter is ignored;
/// mismatched nesting yields `None`.
pub fn scan_json_value(text: &str) -> (r: Option<String>)
    ensures
        match r {
            Some(out) => spec_scan_value(text@) == Some(out@),
            None => spec_scan_value(text@) is None,
        },
{
    let chars = crate::text::str_to_chars(text);
    let k = skip_spaces(&chars, 0);
    let t = subvec(&chars, k, chars.len());
    if t.len() == 0 {
        return None;
    }
    if t[0] != '{' {
        return None;
    }
    match scan_balanced_end(&t) {
        Some(end) => {
            let span = subvec(&t, 0, end + 1);
            Some(crate::text::chars_to_string(&span))
        },
        None => None,
    }
}

/// The embedded value announced by `marker`: locates the first occurrence of
/// `marker` in `text`, the first `:` after it, and scans the balanced value
/// that follows.
pub fn extract_embedded_value(text: &str, marker: &str) -> (r: Option<String>)
    ensures
        match r {
            Some(out) => spec_extract_embedded(text@, marker@) == Some(out@),
            None => spec_extract_embedded(text@, marker@) is None,
        },
{
    let chars = crate::text::str_to_chars(text);
    let pat = crate::text::str_to_chars(marker);
    let st = match find_sub(&chars, &pat, 0) {
        Some(st) => st,
        None => {
            return None;
        },
    };
    proof {
        lemma_find_is_match(chars@, pat@, 0, st as int);
    }
    let n = chars.len();
    let rest = subvec(&chars, st + pat.len(), n);
    let mut colon_pat: Vec<char> = Vec::new();
    colon_pat.push(':');
    proof {
        assert(colon_pat@ =~= seq![':']);
    }
    let colon = match find_sub(&rest, &colon_pat, 0) {
        Some(c) => c,
        None => {
            return None;
        },
    };
    proof {
        lemma_find_is_match(rest@, colon_pat@, 0, colon as int);
    }
    let after = subvec(&rest, colon + 1, rest.len());
    let k = skip_spaces(&after, 0);
    let t = subvec(&after, k, after.len());
    if t.len() == 0 {
        return None;
    }
    if t[0] != '{' {
        return None;
    }
    match scan_balanced_end(&t) {
        Some(end) => {
            let span = subvec(&t, 0, end + 1);
            let out = crate::text::chars_to_string(&span);
            Some(out)
        },
        None => None,
    }
}

} // verus!
