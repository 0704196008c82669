//! The argument parser: splits a raw argument-list text into `name: value`
//! pairs, respecting string literals, nested `{}`/`[]` depth and backslash
//! escaping.  A newline separates parameters at depth zero when an
//! identifier-colon pattern follows.  Object values are flattened into
//! dotted paths; a `where` object contributes its children to the same
//! flat namespace as direct arguments.

use vstd::prelude::*;

use crate::argmap::{
    lemma_collapse_weight, lemma_prefix_weight, lemma_put_all_append, lemma_weight_concat,
    pairs_weight, prefix_keys, sp_collapse, sp_put, sp_put_all, ArgMap, SpecPairs,
};
use crate::chars::{
    advance_char, advance_spaces, find_char, find_char_from, ident, ident_start, is_ident,
    is_ident_start, is_space, lemma_find_char_range, lemma_rskip_char_range,
    lemma_skip_char_range, lemma_trim_len, retreat_char, rskip_char, skip_char, skip_spaces,
    space, spec_trim, str_eq, trim_of,
};
use crate::ConversionError;

verus! {

/// After the whitespace following index `j`, the text reads as an
/// identifier run (letters, digits, underscores, whitespace) ending in a
/// colon.
pub open spec fn lookahead_colon(s: Seq<char>, j: int) -> bool
    decreases s.len() - j,
    when 0 <= j <= s.len()
{
    if j == s.len() {
        false
    } else if s[j] == ':' {
        true
    } else if is_ident(s[j]) || is_space(s[j]) {
        lookahead_colon(s, j + 1)
    } else {
        false
    }
}

/// A newline at depth zero separates parameters exactly when, after
/// whitespace, an identifier-colon pattern follows.
pub open spec fn starts_new_param(s: Seq<char>, from: int) -> bool {
    let a = skip_spaces(s, from);
    &&& a < s.len()
    &&& is_ident_start(s[a])
    &&& lookahead_colon(s, a + 1)
}

/// The pairs contributed by one `name: value` parameter text, in order.
/// A brace-delimited object value is parsed recursively: under the key
/// `where` its (collapsed) children are spliced in unprefixed; under any
/// other key they gain a dotted prefix.  A plain value yields one pair.
pub open spec fn spec_single_pairs(p: Seq<char>) -> SpecPairs
    decreases p.len(), 0int, 0int,
    via spec_single_pairs_decreases
{
    let t = spec_trim(p);
    match find_char(t, ':', 0) {
        None => Seq::empty(),
        Some(idx) => {
            let key = spec_trim(t.subrange(0, idx));
            let value = spec_trim(t.subrange(idx + 1, t.len() as int));
            if value.len() >= 1 && value[0] == '{' && value[value.len() - 1] == '}' {
                let inner = sp_collapse(
                    spec_parse_pairs_from(
                        value.subrange(1, value.len() - 1),
                        0,
                        0,
                        0,
                        0,
                        false,
                        false,
                    ),
                );
                if key == "where"@ {
                    inner
                } else {
                    prefix_keys(key, inner)
                }
            } else {
                seq![(key, value)]
            }
        },
    }
}

#[via_fn]
proof fn spec_single_pairs_decreases(p: Seq<char>) {
    let t = spec_trim(p);
    lemma_trim_len(p);
    if find_char(t, ':', 0) is Some {
        let idx = find_char(t, ':', 0)->Some_0;
        lemma_find_char_range(t, ':', 0);
        lemma_trim_len(t.subrange(idx + 1, t.len() as int));
    }
}

/// The pairs contributed by the argument text `s` scanned from `i` with
/// the current parameter starting at `ss`, at brace depth `br`, bracket
/// depth `bk`, and string-literal state (`in_str`, `esc`).
pub open spec fn spec_parse_pairs_from(
    s: Seq<char>,
    i: int,
    ss: int,
    br: int,
    bk: int,
    in_str: bool,
    esc: bool,
) -> SpecPairs
    decreases s.len(), 1int, s.len() - i,
    when 0 <= ss <= i <= s.len()
{
    if i >= s.len() {
        spec_single_pairs(s.subrange(ss, i))
    } else {
        let c = s[i];
        if esc {
            spec_parse_pairs_from(s, i + 1, ss, br, bk, in_str, false)
        } else if c == '\\' {
            spec_parse_pairs_from(s, i + 1, ss, br, bk, in_str, true)
        } else if c == '"' {
            spec_parse_pairs_from(s, i + 1, ss, br, bk, !in_str, false)
        } else if in_str {
            spec_parse_pairs_from(s, i + 1, ss, br, bk, true, false)
        } else if c == '{' {
            spec_parse_pairs_from(s, i + 1, ss, br + 1, bk, false, false)
        } else if c == '}' {
            spec_parse_pairs_from(s, i + 1, ss, br - 1, bk, false, false)
        } else if c == '[' {
            spec_parse_pairs_from(s, i + 1, ss, br, bk + 1, false, false)
        } else if c == ']' {
            spec_parse_pairs_from(s, i + 1, ss, br, bk - 1, false, false)
        } else if c == ',' && br == 0 && bk == 0 {
            spec_single_pairs(s.subrange(ss, i)) + spec_parse_pairs_from(
                s,
                i + 1,
                i + 1,
                br,
                bk,
                false,
                false,
            )
        } else if (c == '\n' || c == '\r') && br == 0 && bk == 0 && starts_new_param(s, i + 1) {
            spec_single_pairs(s.subrange(ss, i)) + spec_parse_pairs_from(
                s,
                i + 1,
                i + 1,
                br,
                bk,
                false,
                false,
            )
        } else {
            spec_parse_pairs_from(s, i + 1, ss, br, bk, false, false)
        }
    }
}

/// The pairs contributed by a whole argument-list text.
pub open spec fn spec_parse_pairs(s: Seq<char>) -> SpecPairs {
    spec_parse_pairs_from(s, 0, 0, 0, 0, false, false)
}

/// The weight of the pairs of one parameter is bounded by its text.
pub proof fn lemma_single_weight(p: Seq<char>)
    ensures
        pairs_weight(spec_single_pairs(p)) <= p.len(),
    decreases p.len(), 0int, 0int,
{
    let t = spec_trim(p);
    lemma_trim_len(p);
    match find_char(t, ':', 0) {
        None => {},
        Some(idx) => {
            lemma_find_char_range(t, ':', 0);
            let key = spec_trim(t.subrange(0, idx));
            let value = spec_trim(t.subrange(idx + 1, t.len() as int));
            lemma_trim_len(t.subrange(idx + 1, t.len() as int));
            if value.len() >= 1 && value[0] == '{' && value[value.len() - 1] == '}' {
                let interior = value.subrange(1, value.len() - 1);
                lemma_parse_weight(interior, 0, 0, 0, 0, false, false);
                lemma_collapse_weight(spec_parse_pairs_from(interior, 0, 0, 0, 0, false, false));
                let inner = sp_collapse(
                    spec_parse_pairs_from(interior, 0, 0, 0, 0, false, false),
                );
                if key == "where"@ {
                } else {
                    lemma_prefix_weight(key, inner);
                }
            } else {
                assert(seq![(key, value)].drop_first() =~= Seq::<(Seq<char>, Seq<char>)>::empty());
                assert(pairs_weight(Seq::<(Seq<char>, Seq<char>)>::empty()) == 0);
                assert(seq![(key, value)][0] == (key, value));
            }
        },
    }
}

/// The weight of all pairs contributed from `i` on is bounded by the text
/// from the start of the current parameter on.
pub proof fn lemma_parse_weight(
    s: Seq<char>,
    i: int,
    ss: int,
    br: int,
    bk: int,
    in_str: bool,
    esc: bool,
)
    requires
        0 <= ss <= i <= s.len(),
    ensures
        pairs_weight(spec_parse_pairs_from(s, i, ss, br, bk, in_str, esc)) <= s.len() - ss,
    decreases s.len(), 1int, s.len() - i,
{
    if i >= s.len() {
        lemma_single_weight(s.subrange(ss, i));
    } else {
        let c = s[i];
        if esc {
            lemma_parse_weight(s, i + 1, ss, br, bk, in_str, false);
        } else if c == '\\' {
            lemma_parse_weight(s, i + 1, ss, br, bk, in_str, true);
        } else if c == '"' {
            lemma_parse_weight(s, i + 1, ss, br, bk, !in_str, false);
        } else if in_str {
            lemma_parse_weight(s, i + 1, ss, br, bk, true, false);
        } else if c == '{' {
            lemma_parse_weight(s, i + 1, ss, br + 1, bk, false, false);
        } else if c == '}' {
            lemma_parse_weight(s, i + 1, ss, br - 1, bk, false, false);
        } else if c == '[' {
            lemma_parse_weight(s, i + 1, ss, br, bk + 1, false, false);
        } else if c == ']' {
            lemma_parse_weight(s, i + 1, ss, br, bk - 1, false, false);
        } else if (c == ',' || ((c == '\n' || c == '\r') && starts_new_param(s, i + 1))) && br == 0
            && bk == 0 {
            lemma_single_weight(s.subrange(ss, i));
            lemma_parse_weight(s, i + 1, i + 1, br, bk, false, false);
            lemma_weight_concat(
                spec_single_pairs(s.subrange(ss, i)),
                spec_parse_pairs_from(s, i + 1, i + 1, br, bk, false, false),
            );
        } else {
            lemma_parse_weight(s, i + 1, ss, br, bk, false, false);
        }
    }
}

/// The (collapsed) map parsed out of a `where` argument's value text: the
/// value trimmed, stripped of leading `{` and trailing `}` characters, and
/// parsed like any argument list.
pub open spec fn spec_parse_nested(v: Seq<char>) -> SpecPairs {
    let t = spec_trim(v);
    let a = skip_char(t, 0, '{');
    let b = rskip_char(t, t.len() as int, a, '}');
    sp_collapse(spec_parse_pairs(t.subrange(a, b)))
}

pub proof fn lemma_parse_nested_weight(v: Seq<char>)
    ensures
        pairs_weight(spec_parse_nested(v)) <= v.len(),
{
    let t = spec_trim(v);
    lemma_trim_len(v);
    lemma_skip_char_range(t, 0, '{');
    let a = skip_char(t, 0, '{');
    lemma_rskip_char_range(t, t.len() as int, a, '}');
    let b = rskip_char(t, t.len() as int, a, '}');
    lemma_parse_weight(t.subrange(a, b), 0, 0, 0, 0, false, false);
    lemma_collapse_weight(spec_parse_pairs(t.subrange(a, b)));
}

/// A map with every `where` entry recursively expanded in place of
/// itself: its value is parsed and flattened, and the results are bound
/// into the accumulator; all other entries are bound as they stand.
pub open spec fn spec_flatten_into(acc: SpecPairs, m: SpecPairs) -> SpecPairs
    decreases pairs_weight(m),
    via spec_flatten_into_decreases
{
    if m.len() == 0 {
        acc
    } else if m[0].0 == "where"@ {
        let inner = spec_flatten_into(Seq::empty(), spec_parse_nested(m[0].1));
        spec_flatten_into(sp_put_all(acc, inner), m.drop_first())
    } else {
        spec_flatten_into(sp_put(acc, m[0].0, m[0].1), m.drop_first())
    }
}

#[via_fn]
proof fn spec_flatten_into_decreases(acc: SpecPairs, m: SpecPairs) {
    if m.len() != 0 {
        lemma_parse_nested_weight(m[0].1);
        assert(pairs_weight(m) == m[0].1.len() + 1 + pairs_weight(m.drop_first()));
    }
}

/// What [`flatten_where_map`] returns for the map `m`.
pub open spec fn spec_flatten(m: SpecPairs) -> SpecPairs {
    spec_flatten_into(Seq::empty(), m)
}

/// Executable test matching [`starts_new_param`].
fn lookahead_param(s: &str, n: usize, from: usize) -> (r: bool)
    requires
        n == s@.len(),
        from <= n,
    ensures
        r == starts_new_param(s@, from as int),
{
    let a = advance_spaces(s, n, from);
    if a >= n {
        return false;
    }
    if !ident_start(s.get_char(a)) {
        return false;
    }
    let mut j: usize = a + 1;
    loop
        invariant
            a + 1 <= j <= n,
            n == s@.len(),
            a == skip_spaces(s@, from as int),
            a < n,
            is_ident_start(s@[a as int]),
            lookahead_colon(s@, a as int + 1) == lookahead_colon(s@, j as int),
        decreases n - j,
    {
        if j >= n {
            return false;
        }
        let c = s.get_char(j);
        if c == ':' {
            return true;
        }
        if ident(c) || space(c) {
            proof {
                assert(lookahead_colon(s@, j as int) == lookahead_colon(s@, j + 1));
            }
            j += 1;
        } else {
            return false;
        }
    }
}

/// Split a raw argument-list text into `name: value` parameters and bind
/// each into `params`: commas and qualifying newlines separate parameters
/// at depth zero; nested object values are flattened into dotted paths,
/// with a top-level `where` object spliced into the same namespace.
pub fn parse_graphql_params(params_str: &str, params: &mut ArgMap) -> (r: Result<
    (),
    ConversionError,
>)
    ensures
        r is Ok,
        final(params)@ == sp_put_all(old(params)@, spec_parse_pairs(params_str@)),
        old(params).wf() ==> final(params).wf(),
    decreases params_str@.len(), 1int,
{
    let s = params_str;
    let n = s.unicode_len();
    proof {
        assert(s@ == params_str@);
    }
    let ghost m0 = params@;
    let ghost wf0 = params.wf();
    let mut i: usize = 0;
    let mut ss: usize = 0;
    let mut br: i128 = 0;
    let mut bk: i128 = 0;
    let mut in_str: bool = false;
    let mut esc: bool = false;
    while i < n
        invariant
            s@ == params_str@,
            0 <= ss <= i <= n,
            n == s@.len(),
            -(i as int) <= br as int <= i as int,
            -(i as int) <= bk as int <= i as int,
            sp_put_all(m0, spec_parse_pairs(s@)) == sp_put_all(
                params@,
                spec_parse_pairs_from(
                    s@,
                    i as int,
                    ss as int,
                    br as int,
                    bk as int,
                    in_str,
                    esc,
                ),
            ),
            wf0 ==> params.wf(),
        decreases n - i,
    {
        let ghost i0 = i as int;
        let ghost ss0 = ss as int;
        let ghost br0 = br as int;
        let ghost bk0 = bk as int;
        let ghost s0 = in_str;
        let ghost e0 = esc;
        let ghost p_before = params@;
        let c = s.get_char(i);
        if esc {
            esc = false;
        } else if c == '\\' {
            esc = true;
        } else if c == '"' {
            in_str = !in_str;
        } else if in_str {
        } else if c == '{' {
            br = br + 1;
        } else if c == '}' {
            br = br - 1;
        } else if c == '[' {
            bk = bk + 1;
        } else if c == ']' {
            bk = bk - 1;
        } else if c == ',' && br == 0 && bk == 0 {
            let seg = s.substring_char(ss, i);
            proof {
                assert(spec_parse_pairs_from(s@, i0, ss0, br0, bk0, s0, e0)
                    == spec_single_pairs(seg@) + spec_parse_pairs_from(
                    s@,
                    i0 + 1,
                    i0 + 1,
                    br0,
                    bk0,
                    false,
                    false,
                ));
                lemma_put_all_append(
                    p_before,
                    spec_single_pairs(seg@),
                    spec_parse_pairs_from(s@, i0 + 1, i0 + 1, br0, bk0, false, false),
                );
            }
            let _ = parse_single_param(seg, params);
            ss = i + 1;
        } else if (c == '\n' || c == '\r') && br == 0 && bk == 0 {
            if lookahead_param(s, n, i + 1) {
                let seg = s.substring_char(ss, i);
                proof {
                    assert(spec_parse_pairs_from(s@, i0, ss0, br0, bk0, s0, e0)
                        == spec_single_pairs(seg@) + spec_parse_pairs_from(
                        s@,
                        i0 + 1,
                        i0 + 1,
                        br0,
                        bk0,
                        false,
                        false,
                    ));
                    lemma_put_all_append(
                        p_before,
                        spec_single_pairs(seg@),
                        spec_parse_pairs_from(s@, i0 + 1, i0 + 1, br0, bk0, false, false),
                    );
                }
                let _ = parse_single_param(seg, params);
                ss = i + 1;
            }
        }
        i += 1;
        proof {
            assert(sp_put_all(m0, spec_parse_pairs(s@)) == sp_put_all(
                params@,
                spec_parse_pairs_from(
                    s@,
                    i as int,
                    ss as int,
                    br as int,
                    bk as int,
                    in_str,
                    esc,
                ),
            ));
        }
    }
    let seg = s.substring_char(ss, n);
    proof {
        assert(spec_parse_pairs_from(s@, n as int, ss as int, br as int, bk as int, in_str, esc)
            == spec_single_pairs(seg@));
    }
    let _ = parse_single_param(seg, params);
    Ok(())
}

/// Bind the pairs of one `name: value` parameter text into `params`.
pub fn parse_single_param(param_str: &str, params: &mut ArgMap) -> (r: Result<
    (),
    ConversionError,
>)
    ensures
        r is Ok,
        final(params)@ == sp_put_all(old(params)@, spec_single_pairs(param_str@)),
        old(params).wf() ==> final(params).wf(),
    decreases param_str@.len(), 0int,
{
    let ghost m0 = params@;
    let t = trim_of(param_str);
    proof {
        lemma_trim_len(param_str@);
    }
    let tn = t.as_str().unicode_len();
    match find_char_from(t.as_str(), tn, 0, ':') {
        None => Ok(()),
        Some(idx) => {
            let key = trim_of(t.as_str().substring_char(0, idx));
            let value = trim_of(t.as_str().substring_char(idx + 1, tn));
            proof {
                lemma_trim_len(t@.subrange(idx + 1, tn as int));
            }
            let vn = value.as_str().unicode_len();
            if vn >= 1 && value.as_str().get_char(0) == '{' && value.as_str().get_char(vn - 1)
                == '}' {
                let interior = value.as_str().substring_char(1, vn - 1);
                if str_eq(key.as_str(), "where") {
                    let mut nested = ArgMap::new();
                    let _ = parse_graphql_params(interior, &mut nested);
                    params.insert_all(&nested);
                    Ok(())
                } else {
                    let mut nested = ArgMap::new();
                    let _ = parse_graphql_params(interior, &mut nested);
                    params.insert_all_prefixed(key.as_str(), &nested);
                    Ok(())
                }
            } else {
                proof {
                    assert(spec_single_pairs(param_str@) == seq![(key@, value@)]);
                    assert(seq![(key@, value@)][0] == (key@, value@));
                    assert(seq![(key@, value@)].drop_first() =~= Seq::<(
                        Seq<char>,
                        Seq<char>,
                    )>::empty());
                    assert(sp_put_all(m0, seq![(key@, value@)]) == sp_put(m0, key@, value@)) by {
                        reveal_with_fuel(sp_put_all, 2);
                    }
                }
                params.insert(key, value);
                Ok(())
            }
        },
    }
}

/// Parse the value text of a `where` argument into a map of its own:
/// outer braces are stripped and the interior is parsed like any argument
/// list.
pub fn parse_nested_where_clause(where_value: &str) -> (r: Result<ArgMap, ConversionError>)
    ensures
        match r {
            Ok(m) => m@ == spec_parse_nested(where_value@) && m.wf(),
            Err(_) => false,
        },
{
    let t = trim_of(where_value);
    let tn = t.as_str().unicode_len();
    let a = advance_char(t.as_str(), tn, 0, '{');
    let b = retreat_char(t.as_str(), tn, tn, a, '}');
    let content = t.as_str().substring_char(a, b);
    let mut nested = ArgMap::new();
    let _ = parse_graphql_params(content, &mut nested);
    Ok(nested)
}

/// Expand every `where` entry of `map` in place: its value is parsed and
/// recursively flattened, and the children are bound into the result
/// under their own names; all other entries are kept as they stand.
pub fn flatten_where_map(map: ArgMap) -> (r: ArgMap)
    ensures
        r@ == spec_flatten(map@),
        r.wf(),
    decreases pairs_weight(map@), 1int,
{
    proof {
        assert(map@.skip(0) =~= map@);
    }
    flatten_into(ArgMap::new(), &map, 0)
}

fn flatten_into(acc: ArgMap, map: &ArgMap, idx: usize) -> (r: ArgMap)
    requires
        acc.wf(),
        idx <= map@.len(),
    ensures
        r@ == spec_flatten_into(acc@, map@.skip(idx as int)),
        r.wf(),
    decreases pairs_weight(map@.skip(idx as int)), 0int,
{
    let n = map.entries.len();
    if idx == n {
        proof {
            assert(map@.skip(idx as int) =~= Seq::<(Seq<char>, Seq<char>)>::empty());
        }
        return acc;
    }
    let ghost rest = map@.skip(idx as int);
    proof {
        assert(rest[0] == map@[idx as int]);
        assert(rest.drop_first() =~= map@.skip(idx + 1));
        assert(pairs_weight(rest) == rest[0].1.len() + 1 + pairs_weight(rest.drop_first()));
    }
    if str_eq(map.entries[idx].0.as_str(), "where") {
        match parse_nested_where_clause(map.entries[idx].1.as_str()) {
            Ok(nested) => {
                proof {
                    lemma_parse_nested_weight(map@[idx as int].1);
                }
                let inner = flatten_where_map(nested);
                let mut acc2 = acc;
                acc2.insert_all(&inner);
                flatten_into(acc2, map, idx + 1)
            },
            Err(_) => flatten_into(acc, map, idx + 1),
        }
    } else {
        let mut acc2 = acc;
        acc2.insert(map.entries[idx].0.clone(), map.entries[idx].1.clone());
        flatten_into(acc2, map, idx + 1)
    }
}

} // verus!
