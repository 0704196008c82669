//! The filter compiler: maps one flattened argument path and raw value to
//! a comparison condition of the target dialect, resolving operator
//! suffixes (longest first) and the nested-entity-reference heuristic.

use vstd::prelude::*;

use crate::chars::{
    ends_with, find_char, has_suffix, rskip_char, skip_char, spec_trim, str_eq, trim_of,
};
use crate::argmap::ArgMap;
use crate::fields::{sc_get, ChildInfo, FieldSets, SpecChildren};
use crate::{ConversionError, SpecError};

verus! {

/// The value with every leading and trailing double quote removed.
pub open spec fn spec_unquote(v: Seq<char>) -> Seq<char> {
    let a = skip_char(v, 0, '"');
    let b = rskip_char(v, v.len() as int, a, '"');
    v.subrange(a, b)
}

fn unquote(v: &str) -> (r: String)
    ensures
        r@ == spec_unquote(v@),
{
    let n = v.unicode_len();
    let a = crate::chars::advance_char(v, n, 0, '"');
    let b = crate::chars::retreat_char(v, n, n, a, '"');
    String::from_str(v.substring_char(a, b))
}

/// `key` with the suffix `p` removed.
pub open spec fn strip_suffix(key: Seq<char>, p: Seq<char>) -> Seq<char> {
    key.subrange(0, key.len() - p.len())
}

/// `field: {_ilike: "<pat>"}`
pub open spec fn cond_ilike(field: Seq<char>, pat: Seq<char>) -> Seq<char> {
    field + ": {_ilike: \""@ + pat + "\"}"@
}

/// `_not: {field: {_ilike: "<pat>"}}`
pub open spec fn cond_not_ilike(field: Seq<char>, pat: Seq<char>) -> Seq<char> {
    "_not: {"@ + cond_ilike(field, pat) + "}"@
}

/// `field: {<op>: <v>}`
pub open spec fn cond_op(field: Seq<char>, op: Seq<char>, v: Seq<char>) -> Seq<char> {
    field + ": {"@ + op + ": "@ + v + "}"@
}

/// `field: {id: {_eq: <v>}}`: a reference to a related entity by its
/// identifier.
pub open spec fn cond_entity_ref(field: Seq<char>, v: Seq<char>) -> Seq<char> {
    field + ": {id: {_eq: "@ + v + "}}"@
}

/// The trimmed value is a plain scalar: not an object, not a list, not a
/// variable reference.
pub open spec fn is_simple_scalar(v: Seq<char>) -> bool {
    let t = spec_trim(v);
    !(t.len() > 0 && (t[0] == '{' || t[0] == '[' || t[0] == '$'))
}

/// The nested-entity-reference heuristic for a suffix-free filter:
/// `chainId` is always a plain scalar; any other field selected as a
/// nested object — or absent from a selection that names at least one
/// field, and not selected as a scalar — refers to a related entity.
pub open spec fn treat_as_entity_ref(
    key: Seq<char>,
    value: Seq<char>,
    nested: Seq<Seq<char>>,
    regular: Seq<Seq<char>>,
) -> bool {
    &&& key != "chainId"@
    &&& is_simple_scalar(value)
    &&& {
        let in_nested = nested.contains(key);
        let in_regular = regular.contains(key);
        let both_empty = nested.len() == 0 && regular.len() == 0;
        in_nested || (!both_empty && !in_regular && !in_nested)
    }
}

/// The suffix table of the filter grammar, longest suffix first, exactly
/// in the order the compiler tries them.  `_containsAny` and
/// `_containsAll` are unsupported; a suffix-free path compiles to an
/// equality or, by [`treat_as_entity_ref`], to an identifier reference.
pub open spec fn spec_basic_condition(
    key: Seq<char>,
    value: Seq<char>,
    nested: Seq<Seq<char>>,
    regular: Seq<Seq<char>>,
) -> Result<Seq<char>, SpecError> {
    let uq = spec_unquote(value);
    if key == "where"@ {
        Ok(Seq::empty())
    } else if ends_with(key, "_not_starts_with_nocase"@) {
        Ok(cond_not_ilike(strip_suffix(key, "_not_starts_with_nocase"@), uq + "%"@))
    } else if ends_with(key, "_not_ends_with_nocase"@) {
        Ok(cond_not_ilike(strip_suffix(key, "_not_ends_with_nocase"@), "%"@ + uq))
    } else if ends_with(key, "_not_contains_nocase"@) {
        Ok(cond_not_ilike(strip_suffix(key, "_not_contains_nocase"@), "%"@ + uq + "%"@))
    } else if ends_with(key, "_starts_with_nocase"@) {
        Ok(cond_ilike(strip_suffix(key, "_starts_with_nocase"@), uq + "%"@))
    } else if ends_with(key, "_ends_with_nocase"@) {
        Ok(cond_ilike(strip_suffix(key, "_ends_with_nocase"@), "%"@ + uq))
    } else if ends_with(key, "_contains_nocase"@) {
        Ok(cond_ilike(strip_suffix(key, "_contains_nocase"@), "%"@ + uq + "%"@))
    } else if ends_with(key, "_not_starts_with"@) {
        Ok(cond_not_ilike(strip_suffix(key, "_not_starts_with"@), uq + "%"@))
    } else if ends_with(key, "_not_ends_with"@) {
        Ok(cond_not_ilike(strip_suffix(key, "_not_ends_with"@), "%"@ + uq))
    } else if ends_with(key, "_not_contains"@) {
        Ok(cond_not_ilike(strip_suffix(key, "_not_contains"@), "%"@ + uq + "%"@))
    } else if ends_with(key, "_starts_with"@) {
        Ok(cond_ilike(strip_suffix(key, "_starts_with"@), uq + "%"@))
    } else if ends_with(key, "_ends_with"@) {
        Ok(cond_ilike(strip_suffix(key, "_ends_with"@), "%"@ + uq))
    } else if ends_with(key, "_contains"@) {
        Ok(cond_ilike(strip_suffix(key, "_contains"@), "%"@ + uq + "%"@))
    } else if ends_with(key, "_not_in"@) {
        Ok(cond_op(strip_suffix(key, "_not_in"@), "_nin"@, value))
    } else if ends_with(key, "_gte"@) {
        Ok(cond_op(strip_suffix(key, "_gte"@), "_gte"@, value))
    } else if ends_with(key, "_lte"@) {
        Ok(cond_op(strip_suffix(key, "_lte"@), "_lte"@, value))
    } else if ends_with(key, "_not"@) {
        Ok(cond_op(strip_suffix(key, "_not"@), "_neq"@, value))
    } else if ends_with(key, "_gt"@) {
        Ok(cond_op(strip_suffix(key, "_gt"@), "_gt"@, value))
    } else if ends_with(key, "_lt"@) {
        Ok(cond_op(strip_suffix(key, "_lt"@), "_lt"@, value))
    } else if ends_with(key, "_in"@) {
        Ok(cond_op(strip_suffix(key, "_in"@), "_in"@, value))
    } else if ends_with(key, "_containsAny"@) || ends_with(key, "_containsAll"@) {
        Err(SpecError::Unsupported(key))
    } else if treat_as_entity_ref(key, value, nested, regular) {
        Ok(cond_entity_ref(key, value))
    } else {
        Ok(cond_op(key, "_eq"@, value))
    }
}

/// Compile one flattened filter path and raw value to a target-dialect
/// comparison condition, against the enclosing selection's field sets.
pub fn convert_basic_filter_to_hasura_condition(
    key: &str,
    value: &str,
    fields: &FieldSets,
) -> (r: Result<String, ConversionError>)
    ensures
        crate::res_matches(&r, spec_basic_condition(key@, value@, fields@.0, fields@.1)),
{
    let kn = key.unicode_len();
    if str_eq(key, "where") {
        return Ok(String::new());
    }
    let uq = unquote(value);
    if has_suffix(key, kn, "_not_starts_with_nocase") {
        let m = "_not_starts_with_nocase".unicode_len();
        let mut pat = uq;
        pat.append("%");
        return Ok(build_not_ilike(key.substring_char(0, kn - m), pat.as_str()));
    }
    if has_suffix(key, kn, "_not_ends_with_nocase") {
        let m = "_not_ends_with_nocase".unicode_len();
        let mut pat = String::from_str("%");
        pat.append(uq.as_str());
        return Ok(build_not_ilike(key.substring_char(0, kn - m), pat.as_str()));
    }
    if has_suffix(key, kn, "_not_contains_nocase") {
        let m = "_not_contains_nocase".unicode_len();
        let mut pat = String::from_str("%");
        pat.append(uq.as_str());
        pat.append("%");
        return Ok(build_not_ilike(key.substring_char(0, kn - m), pat.as_str()));
    }
    if has_suffix(key, kn, "_starts_with_nocase") {
        let m = "_starts_with_nocase".unicode_len();
        let mut pat = uq;
        pat.append("%");
        return Ok(build_ilike(key.substring_char(0, kn - m), pat.as_str()));
    }
    if has_suffix(key, kn, "_ends_with_nocase") {
        let m = "_ends_with_nocase".unicode_len();
        let mut pat = String::from_str("%");
        pat.append(uq.as_str());
        return Ok(build_ilike(key.substring_char(0, kn - m), pat.as_str()));
    }
    if has_suffix(key, kn, "_contains_nocase") {
        let m = "_contains_nocase".unicode_len();
        let mut pat = String::from_str("%");
        pat.append(uq.as_str());
        pat.append("%");
        return Ok(build_ilike(key.substring_char(0, kn - m), pat.as_str()));
    }
    if has_suffix(key, kn, "_not_starts_with") {
        let m = "_not_starts_with".unicode_len();
        let mut pat = uq;
        pat.append("%");
        return Ok(build_not_ilike(key.substring_char(0, kn - m), pat.as_str()));
    }
    if has_suffix(key, kn, "_not_ends_with") {
        let m = "_not_ends_with".unicode_len();
        let mut pat = String::from_str("%");
        pat.append(uq.as_str());
        return Ok(build_not_ilike(key.substring_char(0, kn - m), pat.as_str()));
    }
    if has_suffix(key, kn, "_not_contains") {
        let m = "_not_contains".unicode_len();
        let mut pat = String::from_str("%");
        pat.append(uq.as_str());
        pat.append("%");
        return Ok(build_not_ilike(key.substring_char(0, kn - m), pat.as_str()));
    }
    if has_suffix(key, kn, "_starts_with") {
        let m = "_starts_with".unicode_len();
        let mut pat = uq;
        pat.append("%");
        return Ok(build_ilike(key.substring_char(0, kn - m), pat.as_str()));
    }
    if has_suffix(key, kn, "_ends_with") {
        let m = "_ends_with".unicode_len();
        let mut pat = String::from_str("%");
        pat.append(uq.as_str());
        return Ok(build_ilike(key.substring_char(0, kn - m), pat.as_str()));
    }
    if has_suffix(key, kn, "_contains") {
        let m = "_contains".unicode_len();
        let mut pat = String::from_str("%");
        pat.append(uq.as_str());
        pat.append("%");
        return Ok(build_ilike(key.substring_char(0, kn - m), pat.as_str()));
    }
    if has_suffix(key, kn, "_not_in") {
        let m = "_not_in".unicode_len();
        return Ok(build_op(key.substring_char(0, kn - m), "_nin", value));
    }
    if has_suffix(key, kn, "_gte") {
        let m = "_gte".unicode_len();
        return Ok(build_op(key.substring_char(0, kn - m), "_gte", value));
    }
    if has_suffix(key, kn, "_lte") {
        let m = "_lte".unicode_len();
        return Ok(build_op(key.substring_char(0, kn - m), "_lte", value));
    }
    if has_suffix(key, kn, "_not") {
        let m = "_not".unicode_len();
        return Ok(build_op(key.substring_char(0, kn - m), "_neq", value));
    }
    if has_suffix(key, kn, "_gt") {
        let m = "_gt".unicode_len();
        return Ok(build_op(key.substring_char(0, kn - m), "_gt", value));
    }
    if has_suffix(key, kn, "_lt") {
        let m = "_lt".unicode_len();
        return Ok(build_op(key.substring_char(0, kn - m), "_lt", value));
    }
    if has_suffix(key, kn, "_in") {
        let m = "_in".unicode_len();
        return Ok(build_op(key.substring_char(0, kn - m), "_in", value));
    }
    if has_suffix(key, kn, "_containsAny") || has_suffix(key, kn, "_containsAll") {
        return Err(ConversionError::UnsupportedFilter(String::from_str(key)));
    }
    if !str_eq(key, "chainId") {
        let t = trim_of(value);
        let tn = t.as_str().unicode_len();
        let simple = !(tn > 0 && {
            let c0 = t.as_str().get_char(0);
            c0 == '{' || c0 == '[' || c0 == '$'
        });
        if simple {
            let in_nested = fields.has_nested(key);
            let in_regular = fields.has_regular(key);
            let both_empty = fields.nested.len() == 0 && fields.regular.len() == 0;
            proof {
                if fields.nested.len() == 0 {
                    assert(fields@.0.len() == 0);
                }
                if fields.regular.len() == 0 {
                    assert(fields@.1.len() == 0);
                }
            }
            if in_nested || (!both_empty && !in_regular && !in_nested) {
                let mut r = String::from_str(key);
                r.append(": {id: {_eq: ");
                r.append(value);
                r.append("}}");
                proof {
                    assert(r@ =~= cond_entity_ref(key@, value@));
                }
                return Ok(r);
            }
        }
    }
    Ok(build_op(key, "_eq", value))
}

/// Assemble `field: {_ilike: "<pat>"}`.
fn build_ilike(field: &str, pat: &str) -> (r: String)
    ensures
        r@ == cond_ilike(field@, pat@),
{
    let mut r = String::from_str(field);
    r.append(": {_ilike: \"");
    r.append(pat);
    r.append("\"}");
    proof {
        assert(r@ =~= cond_ilike(field@, pat@));
    }
    r
}

/// Assemble `_not: {field: {_ilike: "<pat>"}}`.
fn build_not_ilike(field: &str, pat: &str) -> (r: String)
    ensures
        r@ == cond_not_ilike(field@, pat@),
{
    let mut r = String::from_str("_not: {");
    r.append(field);
    r.append(": {_ilike: \"");
    r.append(pat);
    r.append("\"}");
    r.append("}");
    proof {
        assert(r@ =~= cond_not_ilike(field@, pat@));
    }
    r
}

/// Assemble `field: {<op>: <v>}`.
fn build_op(field: &str, op: &str, v: &str) -> (r: String)
    ensures
        r@ == cond_op(field@, op@, v@),
{
    let mut r = String::from_str(field);
    r.append(": {");
    r.append(op);
    r.append(": ");
    r.append(v);
    r.append("}");
    proof {
        assert(r@ =~= cond_op(field@, op@, v@));
    }
    r
}

/// The grouping name of a filter path: the portion before the first
/// underscore, or the whole path.
pub open spec fn base_name(key: Seq<char>) -> Seq<char> {
    match find_char(key, '_', 0) {
        Some(u) => key.subrange(0, u),
        None => key,
    }
}

/// Filter groups: a grouping name and the filter pairs under it, both in
/// order of first appearance.
pub type SpecGroups = Seq<(Seq<char>, SpecPairs)>;

use crate::argmap::SpecPairs;

/// Append `kv` to the group named `base`, creating the group at the end
/// if it does not exist yet.
pub open spec fn add_to_group(
    gs: SpecGroups,
    base: Seq<char>,
    kv: (Seq<char>, Seq<char>),
) -> SpecGroups
    decreases gs.len(),
{
    if gs.len() == 0 {
        seq![(base, seq![kv])]
    } else if gs[0].0 == base {
        seq![(gs[0].0, gs[0].1.push(kv))] + gs.drop_first()
    } else {
        seq![gs[0]] + add_to_group(gs.drop_first(), base, kv)
    }
}

/// The filter pairs of `ps` grouped by [`base_name`], in order of first
/// appearance.
pub open spec fn group_pairs(ps: SpecPairs) -> SpecGroups
    decreases ps.len(),
{
    if ps.len() == 0 {
        Seq::empty()
    } else {
        add_to_group(group_pairs(ps.drop_last()), base_name(ps.last().0), ps.last())
    }
}

/// The entries of `ps` whose key holds no dot, in order.
pub open spec fn sans_dot(ps: SpecPairs) -> SpecPairs
    decreases ps.len(),
{
    if ps.len() == 0 {
        Seq::empty()
    } else if crate::chars::find_last_char(ps.last().0, '.') is None {
        sans_dot(ps.drop_last()).push(ps.last())
    } else {
        sans_dot(ps.drop_last())
    }
}

/// The entries of `ps` whose key holds a dot, in order.
pub open spec fn with_dot(ps: SpecPairs) -> SpecPairs
    decreases ps.len(),
{
    if ps.len() == 0 {
        Seq::empty()
    } else if crate::chars::find_last_char(ps.last().0, '.') is Some {
        with_dot(ps.drop_last()).push(ps.last())
    } else {
        with_dot(ps.drop_last())
    }
}

/// The parent path of a dotted filter key: everything before the last
/// dot.
pub open spec fn parent_of(key: Seq<char>) -> Seq<char> {
    match crate::chars::find_last_char(key, '.') {
        Some(d) => key.subrange(0, d),
        None => key,
    }
}

/// The child path of a dotted filter key: everything after the last dot.
pub open spec fn child_of(key: Seq<char>) -> Seq<char> {
    match crate::chars::find_last_char(key, '.') {
        Some(d) => key.subrange(d + 1, key.len() as int),
        None => key,
    }
}

/// Dotted filter pairs grouped by their parent path, each child keyed by
/// the remainder of its path, in order of first appearance.
pub open spec fn group_parents(ps: SpecPairs) -> SpecGroups
    decreases ps.len(),
{
    if ps.len() == 0 {
        Seq::empty()
    } else {
        add_to_group(
            group_parents(ps.drop_last()),
            parent_of(ps.last().0),
            (child_of(ps.last().0), ps.last().1),
        )
    }
}

/// The parts joined with `", "` between them.
pub open spec fn join_comma(parts: Seq<Seq<char>>) -> Seq<char>
    decreases parts.len(),
{
    if parts.len() == 0 {
        Seq::empty()
    } else if parts.len() == 1 {
        parts[0]
    } else {
        parts[0] + ", "@ + join_comma(parts.drop_first())
    }
}

pub proof fn lemma_join_snoc(parts: Seq<Seq<char>>, x: Seq<char>)
    ensures
        join_comma(parts.push(x)) == if parts.len() == 0 {
            x
        } else {
            join_comma(parts) + ", "@ + x
        },
    decreases parts.len(),
{
    if parts.len() == 0 {
        assert(parts.push(x)[0] == x);
    } else {
        assert(parts.push(x)[0] == parts[0]);
        assert(parts.push(x).drop_first() =~= parts.drop_first().push(x));
        lemma_join_snoc(parts.drop_first(), x);
        if parts.len() == 1 {
            assert(parts.drop_first().len() == 0);
        }
    }
}

/// Every condition of one group, compiled in order; the first failure
/// wins.
pub open spec fn spec_conds(
    entries: SpecPairs,
    nested: Seq<Seq<char>>,
    regular: Seq<Seq<char>>,
) -> Result<Seq<Seq<char>>, SpecError>
    decreases entries.len(),
{
    if entries.len() == 0 {
        Ok(Seq::empty())
    } else {
        match spec_basic_condition(entries[0].0, entries[0].1, nested, regular) {
            Err(e) => Err(e),
            Ok(c) => match spec_conds(entries.drop_first(), nested, regular) {
                Err(e) => Err(e),
                Ok(cs) => Ok(seq![c] + cs),
            },
        }
    }
}

/// A successful compilation yields one condition per pair.
pub proof fn lemma_spec_conds_len(
    entries: SpecPairs,
    nested: Seq<Seq<char>>,
    regular: Seq<Seq<char>>,
)
    requires
        spec_conds(entries, nested, regular) is Ok,
    ensures
        spec_conds(entries, nested, regular)->Ok_0.len() == entries.len(),
    decreases entries.len(),
{
    if entries.len() == 0 {
    } else {
        match spec_basic_condition(entries[0].0, entries[0].1, nested, regular) {
            Err(e) => {},
            Ok(c) => {
                lemma_spec_conds_len(entries.drop_first(), nested, regular);
            },
        }
    }
}

/// One condition wrapped in braces, as it appears inside an `_and` array.
pub open spec fn wrap_braces(c: Seq<char>) -> Seq<char> {
    "{"@ + c + "}"@
}

/// Compile every group: a group with one condition contributes it
/// directly, a group with several contributes them all, brace-wrapped,
/// to the shared `_and` array.  Groups are compiled in order and the
/// first failure wins.
pub open spec fn assemble_groups(
    gs: SpecGroups,
    nested: Seq<Seq<char>>,
    regular: Seq<Seq<char>>,
) -> Result<(Seq<Seq<char>>, Seq<Seq<char>>), SpecError>
    decreases gs.len(),
{
    if gs.len() == 0 {
        Ok((Seq::empty(), Seq::empty()))
    } else {
        match spec_conds(gs[0].1, nested, regular) {
            Err(e) => Err(e),
            Ok(cs) => match assemble_groups(gs.drop_first(), nested, regular) {
                Err(e) => Err(e),
                Ok(rest) => if gs[0].1.len() == 1 {
                    Ok((seq![cs[0]] + rest.0, rest.1))
                } else {
                    Ok((rest.0, cs.map(|i: int, c: Seq<char>| wrap_braces(c)) + rest.1))
                },
            },
        }
    }
}

/// The list of condition parts of one `where` object: the single-condition
/// groups, then one `_and: [...]` block if any group had several
/// conditions.
pub open spec fn parts_of(singles: Seq<Seq<char>>, ands: Seq<Seq<char>>) -> Seq<Seq<char>> {
    if ands.len() == 0 {
        singles
    } else {
        singles.push("_and: ["@ + join_comma(ands) + "]"@)
    }
}

/// What [`process_nested_filters_recursive`] returns: a dotted parent
/// path becomes one nesting level per segment; at the innermost level the
/// child filters are compiled against the parent entity's own field sets
/// (empty sets when the classifier recorded none for it).
pub open spec fn spec_nested_filters(
    parent: Seq<char>,
    filters: SpecPairs,
    info: SpecChildren,
) -> Result<Seq<char>, SpecError>
    decreases parent.len(),
    via spec_nested_filters_decreases
{
    match find_char(parent, '.', 0) {
        Some(d) => {
            let first = parent.subrange(0, d);
            let rest = parent.subrange(d + 1, parent.len() as int);
            match spec_nested_filters(rest, filters, info) {
                Err(e) => Err(e),
                Ok(ic) => Ok(first + ": {"@ + ic + "}"@),
            }
        },
        None => {
            let sets = match sc_get(info, parent) {
                Some(s) => s,
                None => (Seq::empty(), Seq::empty()),
            };
            match assemble_groups(group_pairs(filters), sets.0, sets.1) {
                Err(e) => Err(e),
                Ok((singles, ands)) => Ok(
                    parent + ": {"@ + join_comma(parts_of(singles, ands)) + "}"@,
                ),
            }
        },
    }
}

#[via_fn]
proof fn spec_nested_filters_decreases(parent: Seq<char>, filters: SpecPairs, info: SpecChildren) {
    if find_char(parent, '.', 0) is Some {
        crate::chars::lemma_find_char_range(parent, '.', 0);
    }
}

/// Strict lexicographic order on character sequences, by scalar value.
pub open spec fn lex_lt(a: Seq<char>, b: Seq<char>) -> bool
    decreases a.len(),
{
    if b.len() == 0 {
        false
    } else if a.len() == 0 {
        true
    } else if a[0] != b[0] {
        (a[0] as u32) < (b[0] as u32)
    } else {
        lex_lt(a.drop_first(), b.drop_first())
    }
}

/// The output order of basic filter groups: `chainId` always first, the
/// rest ascending.
pub open spec fn key_lt(a: Seq<char>, b: Seq<char>) -> bool {
    if a == "chainId"@ {
        true
    } else if b == "chainId"@ {
        false
    } else {
        lex_lt(a, b)
    }
}

/// `g` inserted in front of the first group it precedes.
pub open spec fn insert_sorted(g: (Seq<char>, SpecPairs), gs: SpecGroups) -> SpecGroups
    decreases gs.len(),
{
    if gs.len() == 0 {
        seq![g]
    } else if key_lt(g.0, gs[0].0) {
        seq![g] + gs
    } else {
        seq![gs[0]] + insert_sorted(g, gs.drop_first())
    }
}

/// The groups ordered by [`key_lt`], by insertion.
pub open spec fn sort_groups(gs: SpecGroups) -> SpecGroups
    decreases gs.len(),
{
    if gs.len() == 0 {
        Seq::empty()
    } else {
        insert_sorted(gs[0], sort_groups(gs.drop_first()))
    }
}

/// The nested (dotted-parent) conditions, compiled group by group; the
/// first failure wins.
pub open spec fn nested_conds_spec(gs: SpecGroups, info: SpecChildren) -> Result<
    Seq<Seq<char>>,
    SpecError,
>
    decreases gs.len(),
{
    if gs.len() == 0 {
        Ok(Seq::empty())
    } else {
        match spec_nested_filters(gs[0].0, gs[0].1, info) {
            Err(e) => Err(e),
            Ok(c) => match nested_conds_spec(gs.drop_first(), info) {
                Err(e) => Err(e),
                Ok(cs) => Ok(seq![c] + cs),
            },
        }
    }
}

/// What [`convert_filters_to_where_clause`] returns: the argument map is
/// flattened, the pagination and ordering names are dropped, the basic
/// filter groups are compiled in sorted order (singles first, then one
/// `_and` block), the dotted groups follow in order of appearance, and
/// the result is a `where: {...}` object — or empty text when no filter
/// remains.
pub open spec fn spec_where_clause(
    params: SpecPairs,
    nested: Seq<Seq<char>>,
    regular: Seq<Seq<char>>,
    info: SpecChildren,
) -> Result<Seq<char>, SpecError> {
    let flat = crate::argmap::sp_remove(
        crate::argmap::sp_remove(
            crate::argmap::sp_remove(
                crate::argmap::sp_remove(
                    crate::argmap::sp_remove(crate::params::spec_flatten(params), "first"@),
                    "skip"@,
                ),
                "orderBy"@,
            ),
            "orderDirection"@,
        ),
        "where"@,
    );
    match assemble_groups(sort_groups(group_pairs(sans_dot(flat))), nested, regular) {
        Err(e) => Err(e),
        Ok((singles, ands)) => match nested_conds_spec(group_parents(with_dot(flat)), info) {
            Err(e) => Err(e),
            Ok(ncs) => {
                let parts = parts_of(singles, ands) + ncs;
                if parts.len() == 0 {
                    Ok(Seq::empty())
                } else {
                    Ok("where: {"@ + join_comma(parts) + "}"@)
                }
            },
        },
    }
}

/// Executable order matching [`lex_lt`].
fn str_lt(a: &str, b: &str) -> (r: bool)
    ensures
        r == lex_lt(a@, b@),
{
    let an = a.unicode_len();
    let bn = b.unicode_len();
    let mut i: usize = 0;
    proof {
        assert(a@.skip(0) =~= a@);
        assert(b@.skip(0) =~= b@);
    }
    loop
        invariant
            0 <= i <= an,
            i <= bn,
            an == a@.len(),
            bn == b@.len(),
            lex_lt(a@, b@) == lex_lt(a@.skip(i as int), b@.skip(i as int)),
        decreases an - i,
    {
        if i >= bn {
            proof {
                assert(b@.skip(i as int).len() == 0);
            }
            return false;
        }
        if i >= an {
            proof {
                assert(a@.skip(i as int).len() == 0);
                assert(b@.skip(i as int).len() > 0);
            }
            return true;
        }
        let ca = a.get_char(i);
        let cb = b.get_char(i);
        proof {
            assert(a@.skip(i as int)[0] == a@[i as int]);
            assert(b@.skip(i as int)[0] == b@[i as int]);
            assert(a@.skip(i as int).drop_first() =~= a@.skip(i + 1));
            assert(b@.skip(i as int).drop_first() =~= b@.skip(i + 1));
        }
        if ca != cb {
            return (ca as u32) < (cb as u32);
        }
        i += 1;
    }
}

/// Executable order matching [`key_lt`].
fn group_key_lt(a: &str, b: &str) -> (r: bool)
    ensures
        r == key_lt(a@, b@),
{
    if str_eq(a, "chainId") {
        true
    } else if str_eq(b, "chainId") {
        false
    } else {
        str_lt(a, b)
    }
}

/// One filter group under construction: its grouping name and its pairs.
pub type GroupEnt = (String, Vec<(String, String)>);

/// The model of a run of built pairs.
pub open spec fn vpairs_view(v: Seq<(String, String)>) -> SpecPairs {
    Seq::new(v.len(), |j: int| (v[j].0@, v[j].1@))
}

/// The model of a run of built groups.
pub open spec fn vgroups_view(g: Seq<(String, Vec<(String, String)>)>) -> SpecGroups {
    Seq::new(g.len(), |i: int| (g[i].0@, vpairs_view(g[i].1@)))
}

proof fn lemma_add_group_at_index(
    gs: SpecGroups,
    base: Seq<char>,
    kv: (Seq<char>, Seq<char>),
    i: int,
)
    requires
        0 <= i < gs.len(),
        gs[i].0 == base,
        forall|j: int| 0 <= j < i ==> (#[trigger] gs[j]).0 != base,
    ensures
        add_to_group(gs, base, kv) == gs.update(i, (gs[i].0, gs[i].1.push(kv))),
    decreases i,
{
    if i == 0 {
        assert(seq![(gs[0].0, gs[0].1.push(kv))] + gs.drop_first() =~= gs.update(
            0,
            (gs[0].0, gs[0].1.push(kv)),
        ));
    } else {
        assert(gs.drop_first()[i - 1] == gs[i]);
        assert(forall|j: int| 0 <= j < i - 1 ==> #[trigger] gs.drop_first()[j] == gs[j + 1]);
        lemma_add_group_at_index(gs.drop_first(), base, kv, i - 1);
        assert(seq![gs[0]] + gs.drop_first().update(i - 1, (gs[i].0, gs[i].1.push(kv))) =~= gs
            .update(i, (gs[i].0, gs[i].1.push(kv))));
    }
}

proof fn lemma_add_group_append(gs: SpecGroups, base: Seq<char>, kv: (Seq<char>, Seq<char>))
    requires
        forall|j: int| 0 <= j < gs.len() ==> (#[trigger] gs[j]).0 != base,
    ensures
        add_to_group(gs, base, kv) == gs + seq![(base, seq![kv])],
    decreases gs.len(),
{
    if gs.len() == 0 {
        assert(add_to_group(gs, base, kv) =~= gs + seq![(base, seq![kv])]);
    } else {
        assert(forall|j: int|
            0 <= j < gs.drop_first().len() ==> #[trigger] gs.drop_first()[j] == gs[j + 1]);
        lemma_add_group_append(gs.drop_first(), base, kv);
        assert(seq![gs[0]] + (gs.drop_first() + seq![(base, seq![kv])]) =~= gs + seq![
            (base, seq![kv]),
        ]);
    }
}

/// Append the pair `(k, v)` to the group named `base` of `groups`.
fn push_group(groups: &mut Vec<GroupEnt>, base: String, k: String, v: String)
    ensures
        vgroups_view(final(groups)@) == add_to_group(
            vgroups_view(old(groups)@),
            base@,
            (k@, v@),
        ),
{
    let ghost g0 = vgroups_view(groups@);
    let n = groups.len();
    let mut i: usize = 0;
    while i < n
        invariant
            0 <= i <= n,
            n == groups@.len(),
            g0 == vgroups_view(groups@),
            g0 == vgroups_view(old(groups)@),
            forall|j: int| 0 <= j < i ==> (#[trigger] g0[j]).0 != base@,
        decreases n - i,
    {
        if str_eq(groups[i].0.as_str(), base.as_str()) {
            proof {
                lemma_add_group_at_index(g0, base@, (k@, v@), i as int);
            }
            let ghost ents0 = groups@;
            groups[i].1.push((k, v));
            proof {
                assert(groups@[i as int].0 == ents0[i as int].0);
                assert(groups@[i as int].1@ == ents0[i as int].1@.push((k, v)));
                assert(vgroups_view(groups@) =~= g0.update(
                    i as int,
                    (g0[i as int].0, g0[i as int].1.push((k@, v@))),
                )) by {
                    assert forall|j: int| 0 <= j < vgroups_view(groups@).len() implies
                        vgroups_view(groups@)[j] == g0.update(
                        i as int,
                        (g0[i as int].0, g0[i as int].1.push((k@, v@))),
                    )[j] by {
                        if j == i {
                            assert(vpairs_view(groups@[j].1@) =~= g0[j].1.push((k@, v@)));
                        } else {
                            assert(groups@[j] == ents0[j]);
                        }
                    }
                }
                assert(vgroups_view(groups@) == g0.update(
                    i as int,
                    (g0[i as int].0, g0[i as int].1.push((k@, v@))),
                ));
                assert(vgroups_view(groups@) == add_to_group(g0, base@, (k@, v@)));
                assert(g0 == vgroups_view(old(groups)@));
            }
            return ;
        }
        i += 1;
    }
    proof {
        lemma_add_group_append(g0, base@, (k@, v@));
    }
    let mut pairs: Vec<(String, String)> = Vec::new();
    pairs.push((k, v));
    groups.push((base, pairs));
    proof {
        assert(vgroups_view(groups@) =~= g0 + seq![(base@, seq![(k@, v@)])]) by {
            assert forall|j: int| 0 <= j < vgroups_view(groups@).len() implies vgroups_view(
                groups@,
            )[j] == (g0 + seq![(base@, seq![(k@, v@)])])[j] by {
                if j == g0.len() {
                    assert(vpairs_view(groups@[j].1@) =~= seq![(k@, v@)]);
                }
            }
        }
    }
}

/// Split the flat filter map into basic (dot-free) and dotted groups.
fn split_and_group(flat: &ArgMap) -> (r: (Vec<GroupEnt>, Vec<GroupEnt>))
    ensures
        vgroups_view(r.0@) == group_pairs(sans_dot(flat@)),
        vgroups_view(r.1@) == group_parents(with_dot(flat@)),
{
    let n = flat.entries.len();
    let mut basic: Vec<GroupEnt> = Vec::new();
    let mut dotted: Vec<GroupEnt> = Vec::new();
    let mut i: usize = 0;
    proof {
        assert(flat@.take(0) =~= Seq::<(Seq<char>, Seq<char>)>::empty());
        assert(vgroups_view(basic@) =~= group_pairs(sans_dot(flat@.take(0))));
        assert(vgroups_view(dotted@) =~= group_parents(with_dot(flat@.take(0))));
    }
    while i < n
        invariant
            0 <= i <= n,
            n == flat@.len(),
            n == flat.entries@.len(),
            vgroups_view(basic@) == group_pairs(sans_dot(flat@.take(i as int))),
            vgroups_view(dotted@) == group_parents(with_dot(flat@.take(i as int))),
        decreases n - i,
    {
        let k = flat.entries[i].0.clone();
        let v = flat.entries[i].1.clone();
        let kn = k.as_str().unicode_len();
        proof {
            assert(flat@.take(i + 1).drop_last() =~= flat@.take(i as int));
            assert(flat@.take(i + 1).last() == flat@[i as int]);
        }
        match crate::chars::find_last_char_in(k.as_str(), kn, '.') {
            None => {
                let base = match crate::chars::find_char_from(k.as_str(), kn, 0, '_') {
                    Some(u) => String::from_str(k.as_str().substring_char(0, u)),
                    None => k.clone(),
                };
                proof {
                    assert(base@ == base_name(flat@[i as int].0));
                    assert(sans_dot(flat@.take(i + 1)) =~= sans_dot(flat@.take(i as int)).push(
                        flat@[i as int],
                    ));
                    assert(sans_dot(flat@.take(i as int)).push(flat@[i as int]).drop_last() =~=
                        sans_dot(flat@.take(i as int)));
                    assert(with_dot(flat@.take(i + 1)) =~= with_dot(flat@.take(i as int)));
                }
                push_group(&mut basic, base, k, v);
            },
            Some(d) => {
                let parent = String::from_str(k.as_str().substring_char(0, d));
                let child = String::from_str(k.as_str().substring_char(d + 1, kn));
                proof {
                    assert(parent@ == parent_of(flat@[i as int].0));
                    assert(child@ == child_of(flat@[i as int].0));
                    assert(with_dot(flat@.take(i + 1)) =~= with_dot(flat@.take(i as int)).push(
                        flat@[i as int],
                    ));
                    assert(with_dot(flat@.take(i as int)).push(flat@[i as int]).drop_last() =~=
                        with_dot(flat@.take(i as int)));
                    assert(sans_dot(flat@.take(i + 1)) =~= sans_dot(flat@.take(i as int)));
                }
                push_group(&mut dotted, parent, child, v);
            },
        }
        i += 1;
    }
    proof {
        assert(flat@.take(n as int) =~= flat@);
    }
    (basic, dotted)
}

/// Insert one group into an already sorted run, matching
/// [`insert_sorted`].
fn insert_sorted_exec(g: GroupEnt, gs: Vec<GroupEnt>) -> (r: Vec<GroupEnt>)
    ensures
        vgroups_view(r@) == insert_sorted((g.0@, vpairs_view(g.1@)), vgroups_view(gs@)),
    decreases gs@.len(),
{
    let ghost gv = (g.0@, vpairs_view(g.1@));
    let ghost gsv = vgroups_view(gs@);
    if gs.len() == 0 {
        let mut r = gs;
        r.push(g);
        proof {
            assert(vgroups_view(r@) =~= seq![gv]);
        }
        r
    } else if group_key_lt(g.0.as_str(), gs[0].0.as_str()) {
        let mut r = gs;
        r.insert(0, g);
        proof {
            assert(vgroups_view(r@) =~= seq![gv] + gsv);
        }
        r
    } else {
        let mut rest = gs;
        let h = rest.remove(0);
        proof {
            assert(vgroups_view(rest@) =~= gsv.drop_first());
        }
        let tail = insert_sorted_exec(g, rest);
        let mut r = tail;
        r.insert(0, h);
        proof {
            assert(vgroups_view(r@) =~= seq![gsv[0]] + insert_sorted(gv, gsv.drop_first()));
        }
        r
    }
}

/// Sort the basic filter groups by [`key_lt`], matching [`sort_groups`].
fn sort_groups_exec(gs: Vec<GroupEnt>) -> (r: Vec<GroupEnt>)
    ensures
        vgroups_view(r@) == sort_groups(vgroups_view(gs@)),
    decreases gs@.len(),
{
    let ghost gsv = vgroups_view(gs@);
    if gs.len() == 0 {
        proof {
            assert(vgroups_view(gs@) =~= Seq::<(Seq<char>, SpecPairs)>::empty());
        }
        gs
    } else {
        let mut rest = gs;
        let h = rest.remove(0);
        proof {
            assert(vgroups_view(rest@) =~= gsv.drop_first());
            assert((h.0@, vpairs_view(h.1@)) == gsv[0]);
        }
        let sorted = sort_groups_exec(rest);
        insert_sorted_exec(h, sorted)
    }
}

/// Compile every condition of one group, in order.
fn conds_of_group(entries: &Vec<(String, String)>, sets: &FieldSets) -> (r: Result<
    Vec<String>,
    ConversionError,
>)
    ensures
        match r {
            Ok(v) => spec_conds(vpairs_view(entries@), sets@.0, sets@.1) == Ok::<
                Seq<Seq<char>>,
                SpecError,
            >(v.deep_view()),
            Err(e) => spec_conds(vpairs_view(entries@), sets@.0, sets@.1) is Err && crate::err_matches(
                &e,
                spec_conds(vpairs_view(entries@), sets@.0, sets@.1)->Err_0,
            ),
        },
{
    let ghost vp = vpairs_view(entries@);
    let n = entries.len();
    let mut acc: Vec<String> = Vec::new();
    let mut i: usize = 0;
    proof {
        assert(vp.skip(0) =~= vp);
        assert(acc.deep_view() =~= Seq::<Seq<char>>::empty());
    }
    while i < n
        invariant
            0 <= i <= n,
            n == entries@.len(),
            vp == vpairs_view(entries@),
            match spec_conds(vp.skip(i as int), sets@.0, sets@.1) {
                Ok(cs) => spec_conds(vp, sets@.0, sets@.1) == Ok::<Seq<Seq<char>>, SpecError>(
                    acc.deep_view() + cs,
                ),
                Err(e) => spec_conds(vp, sets@.0, sets@.1) == Err::<Seq<Seq<char>>, SpecError>(e),
            },
        decreases n - i,
    {
        proof {
            assert(vp.skip(i as int)[0] == vp[i as int]);
            assert(vp.skip(i as int).drop_first() =~= vp.skip(i + 1));
        }
        match convert_basic_filter_to_hasura_condition(
            entries[i].0.as_str(),
            entries[i].1.as_str(),
            sets,
        ) {
            Err(e) => {
                return Err(e);
            },
            Ok(c) => {
                let ghost acc0 = acc.deep_view();
                let ghost cv = c@;
                acc.push(c);
                proof {
                    assert(acc.deep_view() =~= acc0.push(cv));
                    if spec_conds(vp.skip(i + 1), sets@.0, sets@.1) is Ok {
                        let cs = spec_conds(vp.skip(i + 1), sets@.0, sets@.1)->Ok_0;
                        assert(acc0 + (seq![cv] + cs) =~= acc0.push(cv) + cs);
                    }
                }
            },
        }
        i += 1;
    }
    proof {
        assert(vp.skip(n as int).len() == 0);
        assert(acc.deep_view() + Seq::<Seq<char>>::empty() =~= acc.deep_view());
    }
    Ok(acc)
}

/// Compile a run of groups into single conditions and `_and` members.
fn build_group_conditions(groups: &Vec<GroupEnt>, sets: &FieldSets) -> (r: Result<
    (Vec<String>, Vec<String>),
    ConversionError,
>)
    ensures
        match r {
            Ok(sa) => assemble_groups(vgroups_view(groups@), sets@.0, sets@.1) == Ok::<
                (Seq<Seq<char>>, Seq<Seq<char>>),
                SpecError,
            >((sa.0.deep_view(), sa.1.deep_view())),
            Err(e) => assemble_groups(vgroups_view(groups@), sets@.0, sets@.1) is Err
                && crate::err_matches(
                &e,
                assemble_groups(vgroups_view(groups@), sets@.0, sets@.1)->Err_0,
            ),
        },
{
    let ghost gv = vgroups_view(groups@);
    let n = groups.len();
    let mut singles: Vec<String> = Vec::new();
    let mut ands: Vec<String> = Vec::new();
    let mut i: usize = 0;
    proof {
        assert(gv.skip(0) =~= gv);
        assert(singles.deep_view() =~= Seq::<Seq<char>>::empty());
        assert(ands.deep_view() =~= Seq::<Seq<char>>::empty());
    }
    while i < n
        invariant
            0 <= i <= n,
            n == groups@.len(),
            gv == vgroups_view(groups@),
            match assemble_groups(gv.skip(i as int), sets@.0, sets@.1) {
                Ok(sa) => assemble_groups(gv, sets@.0, sets@.1) == Ok::<
                    (Seq<Seq<char>>, Seq<Seq<char>>),
                    SpecError,
                >((singles.deep_view() + sa.0, ands.deep_view() + sa.1)),
                Err(e) => assemble_groups(gv, sets@.0, sets@.1) == Err::<
                    (Seq<Seq<char>>, Seq<Seq<char>>),
                    SpecError,
                >(e),
            },
        decreases n - i,
    {
        proof {
            assert(gv.skip(i as int)[0] == gv[i as int]);
            assert(gv.skip(i as int).drop_first() =~= gv.skip(i + 1));
        }
        match conds_of_group(&groups[i].1, sets) {
            Err(e) => {
                return Err(e);
            },
            Ok(mut cs) => {
                proof {
                    lemma_spec_conds_len(gv[i as int].1, sets@.0, sets@.1);
                }
                if cs.len() == 1 {
                    let ghost s0 = singles.deep_view();
                    let c = cs.remove(0);
                    let ghost cv = c@;
                    singles.push(c);
                    proof {
                        assert(singles.deep_view() =~= s0.push(cv));
                        if assemble_groups(gv.skip(i + 1), sets@.0, sets@.1) is Ok {
                            let sa = assemble_groups(gv.skip(i + 1), sets@.0, sets@.1)->Ok_0;
                            assert(s0 + (seq![cv] + sa.0) =~= s0.push(cv) + sa.0);
                        }
                    }
                } else {
                    let ghost a0 = ands.deep_view();
                    let ghost csv = cs.deep_view();
                    let m = cs.len();
                    let mut j: usize = 0;
                    while j < m
                        invariant
                            0 <= j <= m,
                            m == cs@.len(),
                            csv == cs.deep_view(),
                            ands.deep_view() =~= a0 + csv.map(
                                |t: int, c: Seq<char>| wrap_braces(c),
                            ).take(j as int),
                        decreases m - j,
                    {
                        let mut w = String::from_str("{");
                        w.append(cs[j].as_str());
                        w.append("}");
                        let ghost w0 = ands.deep_view();
                        ands.push(w);
                        proof {
                            assert(ands.deep_view() =~= w0.push(wrap_braces(csv[j as int])));
                            assert(csv.map(|t: int, c: Seq<char>| wrap_braces(c)).take(j + 1)
                                =~= csv.map(|t: int, c: Seq<char>| wrap_braces(c)).take(
                                j as int,
                            ).push(wrap_braces(csv[j as int])));
                        }
                        j += 1;
                    }
                    proof {
                        let wrapped = csv.map(|t: int, c: Seq<char>| wrap_braces(c));
                        assert(wrapped.take(m as int) =~= wrapped);
                        if assemble_groups(gv.skip(i + 1), sets@.0, sets@.1) is Ok {
                            let sa = assemble_groups(gv.skip(i + 1), sets@.0, sets@.1)->Ok_0;
                            assert(a0 + (wrapped + sa.1) =~= (a0 + wrapped) + sa.1);
                        }
                    }
                }
            },
        }
        i += 1;
    }
    proof {
        assert(gv.skip(n as int).len() == 0);
        assert(singles.deep_view() + Seq::<Seq<char>>::empty() =~= singles.deep_view());
        assert(ands.deep_view() + Seq::<Seq<char>>::empty() =~= ands.deep_view());
    }
    Ok((singles, ands))
}

/// Join parts with `", "`, matching [`join_comma`].
pub fn join_parts(parts: &Vec<String>) -> (r: String)
    ensures
        r@ == join_comma(parts.deep_view()),
{
    let n = parts.len();
    let mut r = String::new();
    let mut i: usize = 0;
    proof {
        assert(parts.deep_view().take(0) =~= Seq::<Seq<char>>::empty());
    }
    while i < n
        invariant
            0 <= i <= n,
            n == parts@.len(),
            r@ == join_comma(parts.deep_view().take(i as int)),
        decreases n - i,
    {
        if i > 0 {
            r.append(", ");
        }
        r.append(parts[i].as_str());
        proof {
            let dv = parts.deep_view();
            assert(dv.take(i + 1) =~= dv.take(i as int).push(dv[i as int]));
            lemma_join_snoc(dv.take(i as int), dv[i as int]);
        }
        i += 1;
    }
    proof {
        assert(parts.deep_view().take(n as int) =~= parts.deep_view());
    }
    r
}

/// Compile the filters grouped under one (possibly dotted) parent path
/// into a single nested comparison object.
pub fn process_nested_filters_recursive(
    parent: &str,
    child_filters: ArgMap,
    info: &ChildInfo,
) -> (r: Result<String, ConversionError>)
    ensures
        crate::res_matches(&r, spec_nested_filters(parent@, child_filters@, info@)),
    decreases parent@.len(),
{
    let pn = parent.unicode_len();
    match crate::chars::find_char_from(parent, pn, 0, '.') {
        Some(d) => {
            let first = parent.substring_char(0, d);
            let rest = parent.substring_char(d + 1, pn);
            match process_nested_filters_recursive(rest, child_filters, info) {
                Err(e) => Err(e),
                Ok(ic) => {
                    let mut r = String::from_str(first);
                    r.append(": {");
                    r.append(ic.as_str());
                    r.append("}");
                    proof {
                        assert(r@ =~= first@ + ": {"@ + ic@ + "}"@);
                    }
                    Ok(r)
                },
            }
        },
        None => {
            let empty_sets = FieldSets::new();
            let idx = info.find(parent);
            let sets: &FieldSets = match idx {
                Some(i) => &info.entries[i].1,
                None => &empty_sets,
            };
            proof {
                match idx {
                    Some(i) => {
                        assert(info@[i as int].1 == sets@);
                    },
                    None => {
                        assert(sets@.0 =~= Seq::<Seq<char>>::empty());
                        assert(sets@.1 =~= Seq::<Seq<char>>::empty());
                    },
                }
            }
            let groups = group_entries_plain(&child_filters);
            match build_group_conditions(&groups, sets) {
                Err(e) => Err(e),
                Ok((mut singles, ands)) => {
                    if ands.len() > 0 {
                        let mut ab = String::from_str("_and: [");
                        ab.append(join_parts(&ands).as_str());
                        ab.append("]");
                        let ghost s0 = singles.deep_view();
                        let ghost abv = ab@;
                        singles.push(ab);
                        proof {
                            assert(singles.deep_view() =~= s0.push(abv));
                            assert(abv =~= "_and: ["@ + join_comma(ands.deep_view()) + "]"@);
                        }
                    }
                    let mut r = String::from_str(parent);
                    r.append(": {");
                    r.append(join_parts(&singles).as_str());
                    r.append("}");
                    proof {
                        assert(r@ =~= parent@ + ": {"@ + join_comma(singles.deep_view()) + "}"@);
                    }
                    Ok(r)
                },
            }
        },
    }
}

/// Group the entries of a map by [`base_name`], without splitting dotted
/// paths.
fn group_entries_plain(m: &ArgMap) -> (r: Vec<GroupEnt>)
    ensures
        vgroups_view(r@) == group_pairs(m@),
{
    let n = m.entries.len();
    let mut groups: Vec<GroupEnt> = Vec::new();
    let mut i: usize = 0;
    proof {
        assert(m@.take(0) =~= Seq::<(Seq<char>, Seq<char>)>::empty());
        assert(vgroups_view(groups@) =~= group_pairs(m@.take(0)));
    }
    while i < n
        invariant
            0 <= i <= n,
            n == m@.len(),
            n == m.entries@.len(),
            vgroups_view(groups@) == group_pairs(m@.take(i as int)),
        decreases n - i,
    {
        let k = m.entries[i].0.clone();
        let v = m.entries[i].1.clone();
        let kn = k.as_str().unicode_len();
        let base = match crate::chars::find_char_from(k.as_str(), kn, 0, '_') {
            Some(u) => String::from_str(k.as_str().substring_char(0, u)),
            None => k.clone(),
        };
        proof {
            assert(m@.take(i + 1).drop_last() =~= m@.take(i as int));
            assert(m@.take(i + 1).last() == m@[i as int]);
            assert(base@ == base_name(m@[i as int].0));
        }
        push_group(&mut groups, base, k, v);
        i += 1;
    }
    proof {
        assert(m@.take(n as int) =~= m@);
    }
    groups
}

/// Compile a flattened argument map to the target dialect's `where`
/// clause text (empty when no filter remains after pagination and
/// ordering names are dropped).
pub fn convert_filters_to_where_clause(
    params: &ArgMap,
    fields: &FieldSets,
    info: &ChildInfo,
) -> (r: Result<String, ConversionError>)
    ensures
        crate::res_matches(&r, spec_where_clause(params@, fields@.0, fields@.1, info@)),
{
    let mut flat = crate::params::flatten_where_map(params.duplicate());
    flat.remove_key("first");
    flat.remove_key("skip");
    flat.remove_key("orderBy");
    flat.remove_key("orderDirection");
    flat.remove_key("where");
    let (basic, dotted) = split_and_group(&flat);
    let sorted = sort_groups_exec(basic);
    match build_group_conditions(&sorted, fields) {
        Err(e) => Err(e),
        Ok((mut singles, ands)) => {
            let ghost s0v = singles.deep_view();
            let ghost a0v = ands.deep_view();
            let ghost fspec = flat@;
            if ands.len() > 0 {
                let mut ab = String::from_str("_and: [");
                ab.append(join_parts(&ands).as_str());
                ab.append("]");
                let ghost s0 = singles.deep_view();
                let ghost abv = ab@;
                singles.push(ab);
                proof {
                    assert(singles.deep_view() =~= s0.push(abv));
                    assert(abv =~= "_and: ["@ + join_comma(ands.deep_view()) + "]"@);
                }
            }
            let ghost dgv = vgroups_view(dotted@);
            let dn = dotted.len();
            let mut parts = singles;
            let ghost base_parts = parts.deep_view();
            let mut i: usize = 0;
            proof {
                assert(dgv.skip(0) =~= dgv);
                assert(base_parts + Seq::<Seq<char>>::empty() =~= base_parts);
                assert(base_parts == parts_of(s0v, a0v));
            }
            while i < dn
                invariant
                    0 <= i <= dn,
                    dn == dotted@.len(),
                    dgv == vgroups_view(dotted@),
                    fspec == crate::argmap::sp_remove(
                        crate::argmap::sp_remove(
                            crate::argmap::sp_remove(
                                crate::argmap::sp_remove(
                                    crate::argmap::sp_remove(
                                        crate::params::spec_flatten(params@),
                                        "first"@,
                                    ),
                                    "skip"@,
                                ),
                                "orderBy"@,
                            ),
                            "orderDirection"@,
                        ),
                        "where"@,
                    ),
                    assemble_groups(
                        sort_groups(group_pairs(sans_dot(fspec))),
                        fields@.0,
                        fields@.1,
                    ) == Ok::<(Seq<Seq<char>>, Seq<Seq<char>>), SpecError>((s0v, a0v)),
                    dgv == group_parents(with_dot(fspec)),
                    base_parts == parts_of(s0v, a0v),
                    match nested_conds_spec(dgv.skip(i as int), info@) {
                        Ok(ncs) => parts.deep_view() + ncs == base_parts + nested_conds_spec(
                            dgv,
                            info@,
                        )->Ok_0 && nested_conds_spec(dgv, info@) is Ok,
                        Err(e) => nested_conds_spec(dgv, info@) == Err::<Seq<Seq<char>>, SpecError>(
                            e,
                        ),
                    },
                decreases dn - i,
            {
                proof {
                    assert(dgv.skip(i as int)[0] == dgv[i as int]);
                    assert(dgv.skip(i as int).drop_first() =~= dgv.skip(i + 1));
                }
                let parent = dotted[i].0.clone();
                let mut child_entries: Vec<(String, String)> = Vec::new();
                let cm = dotted[i].1.len();
                let mut j: usize = 0;
                while j < cm
                    invariant
                        0 <= j <= cm,
                        cm == dotted@[i as int].1@.len(),
                        i < dn,
                        dn == dotted@.len(),
                        child_entries@.len() == j,
                        forall|t: int|
                            0 <= t < j ==> (#[trigger] child_entries@[t]).0@
                                == dotted@[i as int].1@[t].0@ && child_entries@[t].1@
                                == dotted@[i as int].1@[t].1@,
                    decreases cm - j,
                {
                    let ck = dotted[i].1[j].0.clone();
                    let cv = dotted[i].1[j].1.clone();
                    child_entries.push((ck, cv));
                    j += 1;
                }
                let child_map = ArgMap { entries: child_entries };
                proof {
                    assert(child_map@ =~= dgv[i as int].1);
                    assert(parent@ == dgv[i as int].0);
                }
                match process_nested_filters_recursive(parent.as_str(), child_map, info) {
                    Err(e) => {
                        return Err(e);
                    },
                    Ok(c) => {
                        let ghost p0 = parts.deep_view();
                        let ghost cv2 = c@;
                        parts.push(c);
                        proof {
                            assert(parts.deep_view() =~= p0.push(cv2));
                            if nested_conds_spec(dgv.skip(i + 1), info@) is Ok {
                                let ncs = nested_conds_spec(dgv.skip(i + 1), info@)->Ok_0;
                                assert(p0 + (seq![cv2] + ncs) =~= p0.push(cv2) + ncs);
                            }
                        }
                    },
                }
                i += 1;
            }
            proof {
                assert(dgv.skip(dn as int).len() == 0);
                assert(parts.deep_view() + Seq::<Seq<char>>::empty() =~= parts.deep_view());
            }
            if parts.len() == 0 {
                return Ok(String::new());
            }
            let mut r = String::from_str("where: {");
            r.append(join_parts(&parts).as_str());
            r.append("}");
            proof {
                assert(r@ =~= "where: {"@ + join_comma(parts.deep_view()) + "}"@);
            }
            Ok(r)
        },
    }
}

} // verus!
