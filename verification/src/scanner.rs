//! Structural scanner: finds the closing delimiter matching an already-opened
//! `{`, `(` or `[`, treating delimiters inside quoted string literals (with
//! backslash escaping) as inert.  Every other component locates balanced
//! spans of query text through this scanner.

use vstd::prelude::*;

verus! {

/// The index of the closing delimiter that brings the nesting depth of the
/// `open`/`close` pair back to zero, scanning from `i` in the state
/// (`depth` open delimiters pending, `in_str` inside a string literal,
/// `esc` immediately after a backslash inside a string literal).
/// `None` means end of text was reached first: the span is unterminated.
pub open spec fn scan_close(
    s: Seq<char>,
    i: int,
    open: char,
    close: char,
    depth: int,
    in_str: bool,
    esc: bool,
) -> Option<int>
    decreases s.len() - i,
    when 0 <= i
{
    if i >= s.len() {
        None
    } else {
        let c = s[i];
        if in_str {
            if esc {
                scan_close(s, i + 1, open, close, depth, true, false)
            } else if c == '\\' {
                scan_close(s, i + 1, open, close, depth, true, true)
            } else if c == '"' {
                scan_close(s, i + 1, open, close, depth, false, false)
            } else {
                scan_close(s, i + 1, open, close, depth, true, false)
            }
        } else {
            if c == '"' {
                scan_close(s, i + 1, open, close, depth, true, false)
            } else if c == open {
                scan_close(s, i + 1, open, close, depth + 1, false, false)
            } else if c == close {
                if depth == 1 {
                    Some(i)
                } else {
                    scan_close(s, i + 1, open, close, depth - 1, false, false)
                }
            } else {
                scan_close(s, i + 1, open, close, depth, false, false)
            }
        }
    }
}

pub proof fn lemma_scan_close_range(
    s: Seq<char>,
    i: int,
    open: char,
    close: char,
    depth: int,
    in_str: bool,
    esc: bool,
)
    requires
        0 <= i,
        scan_close(s, i, open, close, depth, in_str, esc) is Some,
    ensures
        i <= scan_close(s, i, open, close, depth, in_str, esc)->Some_0 < s.len(),
    decreases s.len() - i,
{
    if i >= s.len() {
    } else {
        let c = s[i];
        if in_str {
            if esc {
                lemma_scan_close_range(s, i + 1, open, close, depth, true, false);
            } else if c == '\\' {
                lemma_scan_close_range(s, i + 1, open, close, depth, true, true);
            } else if c == '"' {
                lemma_scan_close_range(s, i + 1, open, close, depth, false, false);
            } else {
                lemma_scan_close_range(s, i + 1, open, close, depth, true, false);
            }
        } else {
            if c == '"' {
                lemma_scan_close_range(s, i + 1, open, close, depth, true, false);
            } else if c == open {
                lemma_scan_close_range(s, i + 1, open, close, depth + 1, false, false);
            } else if c == close {
                if depth == 1 {
                } else {
                    lemma_scan_close_range(s, i + 1, open, close, depth - 1, false, false);
                }
            } else {
                lemma_scan_close_range(s, i + 1, open, close, depth, false, false);
            }
        }
    }
}

/// Executable scan matching [`scan_close`], started just past the opening
/// delimiter (so at depth one, outside any string literal).
pub fn find_close(s: &str, n: usize, start: usize, open: char, close: char) -> (r: Option<usize>)
    requires
        n == s@.len(),
        1 <= start <= n,
    ensures
        match r {
            Some(j) => {
                &&& start <= j < n
                &&& scan_close(s@, start as int, open, close, 1, false, false) == Some(j as int)
            },
            None => scan_close(s@, start as int, open, close, 1, false, false) is None,
        },
{
    let mut i: usize = start;
    let mut depth: usize = 1;
    let mut in_str: bool = false;
    let mut esc: bool = false;
    loop
        invariant
            start <= i <= n,
            1 <= start,
            n == s@.len(),
            1 <= depth,
            depth <= 1 + i - start,
            !in_str ==> !esc,
            scan_close(s@, start as int, open, close, 1, false, false) == scan_close(
                s@,
                i as int,
                open,
                close,
                depth as int,
                in_str,
                esc,
            ),
        decreases n - i,
    {
        if i >= n {
            return None;
        }
        let ghost i0 = i as int;
        let ghost d0 = depth as int;
        let ghost s0 = in_str;
        let ghost e0 = esc;
        let c = s.get_char(i);
        if in_str {
            if esc {
                esc = false;
            } else if c == '\\' {
                esc = true;
            } else if c == '"' {
                in_str = false;
            }
        } else {
            if c == '"' {
                in_str = true;
            } else if c == open {
                depth += 1;
            } else if c == close {
                if depth == 1 {
                    return Some(i);
                }
                depth -= 1;
            }
        }
        i += 1;
        proof {
            assert(scan_close(s@, i0, open, close, d0, s0, e0) == scan_close(
                s@,
                i as int,
                open,
                close,
                depth as int,
                in_str,
                esc,
            ));
        }
    }
}

} // verus!
