//! The fragment splitter: separates `fragment <Name> on <Type> { ... }`
//! blocks from the main operation text.  Each captured block is sanitized
//! (its field argument lists stripped) and accumulated, newline-separated;
//! the span is removed from the operation text.  A `fragment` token with no
//! following `{` stops the scan; an unterminated body is a malformed query.

use vstd::prelude::*;

use crate::chars::{
    find_char, find_char_from, find_from, lemma_find_char_range, lemma_rskip_spaces_range,
    lemma_spec_find_range, spec_find, spec_trim, spec_trim_end, trim_end_of, trim_of,
};
use crate::fields::{sanitize_fragment_arguments, spec_sanitize_fragment};
use crate::scanner::{find_close, lemma_scan_close_range, scan_close};
use crate::{ConversionError, SpecError};

verus! {

/// What splitting yields from the text `s` with the fragments gathered so
/// far in `acc`: the accumulated fragment text and the trimmed remaining
/// operation text, or a failure on an unterminated fragment body.
pub open spec fn spec_split_fragments(s: Seq<char>, acc: Seq<char>) -> Result<
    (Seq<char>, Seq<char>),
    SpecError,
>
    decreases s.len(),
    via spec_split_fragments_decreases
{
    match spec_find(s, "fragment "@, 0) {
        None => Ok((acc, spec_trim(s))),
        Some(st) => match find_char(s, '{', st) {
            None => Ok((acc, spec_trim(s))),
            Some(o) => match scan_close(s, o + 1, '{', '}', 1, false, false) {
                None => Err(SpecError::Invalid),
                Some(p) => {
                    let piece = spec_trim(spec_sanitize_fragment(s.subrange(st, p + 1)));
                    let acc2 = if acc.len() == 0 {
                        piece
                    } else {
                        acc + "\n"@ + piece
                    };
                    let rem = spec_trim_end(s.subrange(0, st)) + s.subrange(p + 1, s.len() as int);
                    spec_split_fragments(rem, acc2)
                },
            },
        },
    }
}

#[via_fn]
proof fn spec_split_fragments_decreases(s: Seq<char>, acc: Seq<char>) {
    if spec_find(s, "fragment "@, 0) is Some {
        let st = spec_find(s, "fragment "@, 0)->Some_0;
        lemma_spec_find_range(s, "fragment "@, 0);
        if find_char(s, '{', st) is Some {
            let o = find_char(s, '{', st)->Some_0;
            lemma_find_char_range(s, '{', st);
            if scan_close(s, o + 1, '{', '}', 1, false, false) is Some {
                let p = scan_close(s, o + 1, '{', '}', 1, false, false)->Some_0;
                lemma_scan_close_range(s, o + 1, '{', '}', 1, false, false);
                let prefix = s.subrange(0, st);
                lemma_rskip_spaces_range(prefix, prefix.len() as int, 0);
            }
        }
    }
}

fn split_fragments_rec(s: &str, acc: String) -> (r: Result<(String, String), ConversionError>)
    ensures
        match r {
            Ok(fm) => spec_split_fragments(s@, acc@) == Ok::<(Seq<char>, Seq<char>), SpecError>(
                (fm.0@, fm.1@),
            ),
            Err(e) => spec_split_fragments(s@, acc@) is Err && crate::err_matches(
                &e,
                spec_split_fragments(s@, acc@)->Err_0,
            ),
        },
    decreases s@.len(),
{
    let n = s.unicode_len();
    match find_from(s, n, 0, "fragment ") {
        None => Ok((acc, trim_of(s))),
        Some(st) => {
            match find_char_from(s, n, st, '{') {
                None => Ok((acc, trim_of(s))),
                Some(o) => {
                    match find_close(s, n, o + 1, '{', '}') {
                        None => Err(ConversionError::InvalidQueryFormat),
                        Some(p) => {
                            let span = s.substring_char(st, p + 1);
                            let sanitized = sanitize_fragment_arguments(span);
                            let piece = trim_of(sanitized.as_str());
                            let mut acc2 = acc;
                            if acc2.as_str().unicode_len() > 0 {
                                acc2.append("\n");
                            }
                            acc2.append(piece.as_str());
                            let mut rem = trim_end_of(s.substring_char(0, st));
                            rem.append(s.substring_char(p + 1, n));
                            proof {
                                let prefix = s@.subrange(0, st as int);
                                lemma_rskip_spaces_range(prefix, prefix.len() as int, 0);
                                assert(rem@.len() < s@.len());
                            }
                            split_fragments_rec(rem.as_str(), acc2)
                        },
                    }
                },
            }
        },
    }
}

/// Separate every fragment block from the query: the blocks, sanitized and
/// newline-joined, and the trimmed main operation text with the blocks
/// removed.
pub fn extract_fragments_and_main_query(query: &str) -> (r: Result<
    (String, String),
    ConversionError,
>)
    ensures
        match r {
            Ok(fm) => spec_split_fragments(query@, Seq::empty()) == Ok::<
                (Seq<char>, Seq<char>),
                SpecError,
            >((fm.0@, fm.1@)),
            Err(e) => spec_split_fragments(query@, Seq::empty()) is Err && crate::err_matches(
                &e,
                spec_split_fragments(query@, Seq::empty())->Err_0,
            ),
        },
{
    let acc = String::new();
    split_fragments_rec(query, acc)
}

} // verus!
