//! The entity extractor: walks the operation body and yields, for each
//! top-level entity invocation, its name, parsed arguments and formatted
//! selection-set text, in order of appearance.  Short or stop-listed
//! identifier runs are skipped, as are identifiers with neither an
//! argument list nor a selection set.

use vstd::prelude::*;

use crate::argmap::{sp_collapse, ArgMap, SpecPairs};
use crate::chars::{
    advance_alnum, advance_spaces, lemma_skip_alnum_range, lemma_skip_spaces_range, skip_alnum,
    skip_spaces, spec_trim, trim_of,
};
use crate::fields::{sanitize_selection_set, spec_sanitize};
use crate::params::{parse_graphql_params, spec_parse_pairs};
use crate::scanner::{find_close, lemma_scan_close_range, scan_close};
use crate::{ConversionError, SpecError};

verus! {

/// The stop-list of short English words that are never entity names.
pub open spec fn is_stop_pair(a: char, b: char) -> bool {
    ||| (a == 'i' && b == 'd')
    ||| (a == 'i' && b == 'n')
    ||| (a == 'o' && b == 'n')
    ||| (a == 't' && b == 'o')
    ||| (a == 'o' && b == 'f')
    ||| (a == 'a' && b == 't')
    ||| (a == 'b' && b == 'y')
    ||| (a == 'i' && b == 's')
    ||| (a == 'i' && b == 't')
    ||| (a == 'a' && b == 's')
    ||| (a == 'o' && b == 'r')
    ||| (a == 'a' && b == 'n')
    ||| (a == 'i' && b == 'f')
    ||| (a == 'u' && b == 'p')
    ||| (a == 'd' && b == 'o')
    ||| (a == 'g' && b == 'o')
    ||| (a == 'n' && b == 'o')
    ||| (a == 's' && b == 'o')
    ||| (a == 'w' && b == 'e')
    ||| (a == 'h' && b == 'e')
    ||| (a == 'm' && b == 'e')
    ||| (a == 'b' && b == 'e')
    ||| (a == 'm' && b == 'y')
    ||| (a == 'a' && b == 'm')
    ||| (a == 'u' && b == 's')
    ||| (a == 'h' && b == 'i')
    ||| (a == 'l' && b == 'o')
    ||| (a == 'o' && b == 'k')
}

/// A candidate identifier run that cannot be an entity name: shorter than
/// two characters, or one of the stop-listed words.
pub open spec fn invalid_entity_name(nm: Seq<char>) -> bool {
    nm.len() < 2 || (nm.len() == 2 && is_stop_pair(nm[0], nm[1]))
}

/// Model of one extracted entity invocation: name, argument map,
/// formatted selection text.
pub type SpecEntity = (Seq<char>, SpecPairs, Seq<char>);

/// A scan position bumped by one, capped at the end of the text.
pub open spec fn next_pos(x: int, n: int) -> int {
    if x + 1 > n {
        n
    } else {
        x + 1
    }
}

/// The formatted selection text emitted for a raw selection body.
pub open spec fn spec_selection_text(raw: Seq<char>) -> Seq<char> {
    "{\n    "@ + spec_sanitize(spec_trim(raw)) + "\n  }"@
}

/// The entities extracted from `s` scanning at `i`: identifier runs are
/// candidates; a candidate followed by `(` has its balanced argument text
/// parsed; a following brace-balanced selection completes the entity; an
/// unterminated span is a malformed query.
pub open spec fn spec_entities_from(s: Seq<char>, i: int) -> Result<Seq<SpecEntity>, SpecError>
    decreases s.len() - i, 1int,
    when 0 <= i <= s.len()
    via spec_entities_from_decreases
{
    let a = skip_spaces(s, i);
    if a == s.len() {
        Ok(Seq::empty())
    } else {
        let j = skip_alnum(s, a);
        if j == a {
            spec_entities_from(s, a + 1)
        } else {
            let name = s.subrange(a, j);
            if invalid_entity_name(name) {
                spec_entities_from(s, next_pos(j, s.len() as int))
            } else {
                let b = skip_spaces(s, j);
                if b < s.len() && s[b] == '(' {
                    match scan_close(s, b + 1, '(', ')', 1, false, false) {
                        None => Err(SpecError::Invalid),
                        Some(pc) => {
                            let params = sp_collapse(spec_parse_pairs(s.subrange(b + 1, pc)));
                            spec_selection_from(s, skip_spaces(s, pc + 1), name, params)
                        },
                    }
                } else if b < s.len() && s[b] == '{' {
                    spec_selection_from(s, b, name, Seq::empty())
                } else {
                    spec_entities_from(s, next_pos(b, s.len() as int))
                }
            }
        }
    }
}

/// The continuation after an entity head: a brace-balanced selection set
/// completes the entity; anything else skips it.
pub open spec fn spec_selection_from(
    s: Seq<char>,
    i: int,
    name: Seq<char>,
    params: SpecPairs,
) -> Result<Seq<SpecEntity>, SpecError>
    decreases s.len() - i, 0int,
    when 0 <= i <= s.len()
    via spec_selection_from_decreases
{
    if i >= s.len() {
        Ok(Seq::empty())
    } else if s[i] != '{' {
        spec_entities_from(s, i + 1)
    } else {
        match scan_close(s, i + 1, '{', '}', 1, false, false) {
            None => Err(SpecError::Invalid),
            Some(pc) => {
                let sel = spec_selection_text(s.subrange(i + 1, pc));
                match spec_entities_from(s, pc + 1) {
                    Err(e) => Err(e),
                    Ok(rest) => Ok(seq![(name, params, sel)] + rest),
                }
            },
        }
    }
}

#[via_fn]
proof fn spec_entities_from_decreases(s: Seq<char>, i: int) {
    lemma_skip_spaces_range(s, i);
    let a = skip_spaces(s, i);
    if a < s.len() {
        lemma_skip_alnum_range(s, a);
        let j = skip_alnum(s, a);
        if j != a {
            lemma_skip_spaces_range(s, j);
            let b = skip_spaces(s, j);
            if b < s.len() && s[b] == '(' {
                if scan_close(s, b + 1, '(', ')', 1, false, false) is Some {
                    lemma_scan_close_range(s, b + 1, '(', ')', 1, false, false);
                    let pc = scan_close(s, b + 1, '(', ')', 1, false, false)->Some_0;
                    lemma_skip_spaces_range(s, pc + 1);
                }
            }
        }
    }
}

#[via_fn]
proof fn spec_selection_from_decreases(s: Seq<char>, i: int, name: Seq<char>, params: SpecPairs) {
    if i < s.len() && s[i] == '{' {
        if scan_close(s, i + 1, '{', '}', 1, false, false) is Some {
            lemma_scan_close_range(s, i + 1, '{', '}', 1, false, false);
        }
    }
}

/// What [`extract_multiple_entities`] returns: the body is scanned after
/// any leading whitespace and one optional opening brace.
pub open spec fn spec_extract_entities(s: Seq<char>) -> Result<Seq<SpecEntity>, SpecError> {
    let a = skip_spaces(s, 0);
    if a < s.len() && s[a] == '{' {
        spec_entities_from(s, a + 1)
    } else {
        spec_entities_from(s, a)
    }
}

/// The model of a built entity list.
pub open spec fn entities_view(v: Seq<(String, ArgMap, String)>) -> Seq<SpecEntity> {
    Seq::new(v.len(), |i: int| (v[i].0@, v[i].1@, v[i].2@))
}

/// Executable stop-list test matching [`is_stop_pair`].
fn stop_pair(a: char, b: char) -> (r: bool)
    ensures
        r == is_stop_pair(a, b),
{
    (a == 'i' && b == 'd') || (a == 'i' && b == 'n') || (a == 'o' && b == 'n') || (a == 't' && b
        == 'o') || (a == 'o' && b == 'f') || (a == 'a' && b == 't') || (a == 'b' && b == 'y') || (a
        == 'i' && b == 's') || (a == 'i' && b == 't') || (a == 'a' && b == 's') || (a == 'o' && b
        == 'r') || (a == 'a' && b == 'n') || (a == 'i' && b == 'f') || (a == 'u' && b == 'p') || (a
        == 'd' && b == 'o') || (a == 'g' && b == 'o') || (a == 'n' && b == 'o') || (a == 's' && b
        == 'o') || (a == 'w' && b == 'e') || (a == 'h' && b == 'e') || (a == 'm' && b == 'e') || (a
        == 'b' && b == 'e') || (a == 'm' && b == 'y') || (a == 'a' && b == 'm') || (a == 'u' && b
        == 's') || (a == 'h' && b == 'i') || (a == 'l' && b == 'o') || (a == 'o' && b == 'k')
}

fn entities_from(s: &str, n: usize, i: usize) -> (r: Result<
    Vec<(String, ArgMap, String)>,
    ConversionError,
>)
    requires
        n == s@.len(),
        i <= n,
    ensures
        match r {
            Ok(v) => spec_entities_from(s@, i as int) == Ok::<Seq<SpecEntity>, SpecError>(
                entities_view(v@),
            ),
            Err(e) => spec_entities_from(s@, i as int) is Err && crate::err_matches(
                &e,
                spec_entities_from(s@, i as int)->Err_0,
            ),
        },
    decreases n - i, 1int,
{
    let a = advance_spaces(s, n, i);
    if a == n {
        let v: Vec<(String, ArgMap, String)> = Vec::new();
        proof {
            assert(entities_view(v@) =~= Seq::<SpecEntity>::empty());
        }
        return Ok(v);
    }
    let j = advance_alnum(s, n, a);
    if j == a {
        return entities_from(s, n, a + 1);
    }
    let invalid = if j - a < 2 {
        true
    } else if j - a == 2 {
        stop_pair(s.get_char(a), s.get_char(a + 1))
    } else {
        false
    };
    if invalid {
        return entities_from(s, n, if j >= n { n } else { j + 1 });
    }
    let name = String::from_str(s.substring_char(a, j));
    let b = advance_spaces(s, n, j);
    if b < n && s.get_char(b) == '(' {
        match find_close(s, n, b + 1, '(', ')') {
            None => Err(ConversionError::InvalidQueryFormat),
            Some(pc) => {
                let mut params = ArgMap::new();
                let _ = parse_graphql_params(s.substring_char(b + 1, pc), &mut params);
                let c = advance_spaces(s, n, pc + 1);
                selection_from(s, n, c, name, params)
            },
        }
    } else if b < n && s.get_char(b) == '{' {
        selection_from(s, n, b, name, ArgMap::new())
    } else {
        entities_from(s, n, if b >= n { n } else { b + 1 })
    }
}

fn selection_from(s: &str, n: usize, i: usize, name: String, params: ArgMap) -> (r: Result<
    Vec<(String, ArgMap, String)>,
    ConversionError,
>)
    requires
        n == s@.len(),
        i <= n,
    ensures
        match r {
            Ok(v) => spec_selection_from(s@, i as int, name@, params@) == Ok::<
                Seq<SpecEntity>,
                SpecError,
            >(entities_view(v@)),
            Err(e) => spec_selection_from(s@, i as int, name@, params@) is Err
                && crate::err_matches(&e, spec_selection_from(s@, i as int, name@, params@)->Err_0),
        },
    decreases n - i, 0int,
{
    if i >= n {
        let v: Vec<(String, ArgMap, String)> = Vec::new();
        proof {
            assert(entities_view(v@) =~= Seq::<SpecEntity>::empty());
        }
        return Ok(v);
    }
    if s.get_char(i) != '{' {
        return entities_from(s, n, i + 1);
    }
    match find_close(s, n, i + 1, '{', '}') {
        None => Err(ConversionError::InvalidQueryFormat),
        Some(pc) => {
            let raw = trim_of(s.substring_char(i + 1, pc));
            let san = sanitize_selection_set(raw.as_str());
            let mut sel = String::from_str("{\n    ");
            sel.append(san.as_str());
            sel.append("\n  }");
            proof {
                assert(sel@ =~= spec_selection_text(s@.subrange(i + 1, pc as int)));
            }
            match entities_from(s, n, pc + 1) {
                Err(e) => Err(e),
                Ok(rest) => {
                    let ghost nm = name@;
                    let ghost pv = params@;
                    let ghost sv = sel@;
                    let ghost restv = rest@;
                    let mut v = rest;
                    v.insert(0, (name, params, sel));
                    proof {
                        assert(v@.drop_first() =~= restv);
                        assert(entities_view(v@) =~= seq![(nm, pv, sv)] + entities_view(restv))
                            by {
                            assert forall|k: int| 0 <= k < entities_view(v@).len() implies
                                entities_view(v@)[k] == (seq![(nm, pv, sv)] + entities_view(
                                restv,
                            ))[k] by {
                                if k > 0 {
                                    assert(v@[k] == restv[k - 1]);
                                }
                            }
                        }
                    }
                    Ok(v)
                },
            }
        },
    }
}

/// Extract every top-level entity invocation of the operation body, in
/// order of appearance: its name, its parsed argument map and its
/// re-indented, argument-stripped selection text.
pub fn extract_multiple_entities(query: &str) -> (r: Result<
    Vec<(String, ArgMap, String)>,
    ConversionError,
>)
    ensures
        match r {
            Ok(v) => spec_extract_entities(query@) == Ok::<Seq<SpecEntity>, SpecError>(
                entities_view(v@),
            ),
            Err(e) => spec_extract_entities(query@) is Err && crate::err_matches(
                &e,
                spec_extract_entities(query@)->Err_0,
            ),
        },
{
    let n = query.unicode_len();
    let a = advance_spaces(query, n, 0);
    if a < n && query.get_char(a) == '{' {
        entities_from(query, n, a + 1)
    } else {
        entities_from(query, n, a)
    }
}

} // verus!
