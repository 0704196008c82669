//! Properties of the translation, stated and proved over the library's
//! specification functions.

use vstd::prelude::*;

use crate::argmap::{sp_get, SpecPairs};
use crate::chars::ends_with;
use crate::convert::spec_entity_line;
use crate::fields::san_from;
use crate::filters::{
    assemble_groups, cond_entity_ref, cond_not_ilike, cond_op, spec_basic_condition, spec_conds,
    spec_unquote, strip_suffix, wrap_braces,
};
use crate::SpecError;

verus! {

/// Suffix matching prefers the longest applicable suffix: a path ending
/// in `_not_contains_nocase` — which also ends in `_contains_nocase` —
/// always compiles to the negated case-insensitive containment
/// condition, never to a shorter suffix's condition.
pub proof fn lemma_longest_suffix_first(
    key: Seq<char>,
    value: Seq<char>,
    nested: Seq<Seq<char>>,
    regular: Seq<Seq<char>>,
)
    requires
        ends_with(key, "_not_contains_nocase"@),
    ensures
        ends_with(key, "_contains_nocase"@),
        spec_basic_condition(key, value, nested, regular) == Ok::<Seq<char>, SpecError>(
            cond_not_ilike(
                strip_suffix(key, "_not_contains_nocase"@),
                "%"@ + spec_unquote(value) + "%"@,
            ),
        ),
{
    reveal_strlit("where");
    reveal_strlit("_not_starts_with_nocase");
    reveal_strlit("_not_ends_with_nocase");
    reveal_strlit("_not_contains_nocase");
    reveal_strlit("_contains_nocase");
    let p20 = "_not_contains_nocase"@;
    let st20 = key.len() - p20.len();
    assert(key[st20 + 0] == p20[0]);
    assert(key != "where"@) by {
        if key == "where"@ {
            assert(key.len() == 5);
        }
    }
    assert(!ends_with(key, "_not_starts_with_nocase"@)) by {
        if ends_with(key, "_not_starts_with_nocase"@) {
            let p23 = "_not_starts_with_nocase"@;
            let st23 = key.len() - p23.len();
            assert(key[st23 + 3] == p23[3]);
            assert(st23 + 3 == st20 + 0);
        }
    }
    assert(!ends_with(key, "_not_ends_with_nocase"@)) by {
        if ends_with(key, "_not_ends_with_nocase"@) {
            let p21 = "_not_ends_with_nocase"@;
            let st21 = key.len() - p21.len();
            assert(key[st21 + 1] == p21[1]);
            assert(st21 + 1 == st20 + 0);
        }
    }
    assert(ends_with(key, "_contains_nocase"@)) by {
        let p16 = "_contains_nocase"@;
        let st16 = key.len() - p16.len();
        assert forall|k: int| 0 <= k < p16.len() implies key[st16 + k] == p16[k] by {
            assert(key[st20 + (k + 4)] == p20[k + 4]);
            assert(st16 + k == st20 + (k + 4));
        }
    }
}

/// A singular entity whose only argument is `id` is emitted as a
/// primary-key lookup: no capitalization, no `where` clause, no
/// pagination — and the same line whether or not a chain identifier was
/// supplied.
pub proof fn lemma_primary_key_shortcut(
    name: Seq<char>,
    params: SpecPairs,
    sel: Seq<char>,
    chain: Option<Seq<char>>,
)
    requires
        !ends_with(name, "s"@),
        params.len() == 1,
        sp_get(params, "id"@) is Some,
    ensures
        spec_entity_line(name, params, sel, chain) == Ok::<Seq<char>, SpecError>(
            "  "@ + name + "_by_pk(id: "@ + sp_get(params, "id"@)->Some_0 + ") "@ + sel,
        ),
        spec_entity_line(name, params, sel, chain) == spec_entity_line(name, params, sel, None),
{
}

/// The nested-entity-reference heuristic: a suffix-free filter path,
/// other than `chainId`, with a plain scalar value, compiles to a
/// reference by identifier exactly when [`treat_as_entity_ref`] holds —
/// and to a plain equality when the path was selected as a scalar field.
pub proof fn lemma_entity_ref_heuristic(
    key: Seq<char>,
    value: Seq<char>,
    nested: Seq<Seq<char>>,
    regular: Seq<Seq<char>>,
)
    requires
        key != "where"@,
        !ends_with(key, "_not_starts_with_nocase"@),
        !ends_with(key, "_not_ends_with_nocase"@),
        !ends_with(key, "_not_contains_nocase"@),
        !ends_with(key, "_starts_with_nocase"@),
        !ends_with(key, "_ends_with_nocase"@),
        !ends_with(key, "_contains_nocase"@),
        !ends_with(key, "_not_starts_with"@),
        !ends_with(key, "_not_ends_with"@),
        !ends_with(key, "_not_contains"@),
        !ends_with(key, "_starts_with"@),
        !ends_with(key, "_ends_with"@),
        !ends_with(key, "_contains"@),
        !ends_with(key, "_not_in"@),
        !ends_with(key, "_gte"@),
        !ends_with(key, "_lte"@),
        !ends_with(key, "_not"@),
        !ends_with(key, "_gt"@),
        !ends_with(key, "_lt"@),
        !ends_with(key, "_in"@),
        !ends_with(key, "_containsAny"@),
        !ends_with(key, "_containsAll"@),
    ensures
        crate::filters::treat_as_entity_ref(key, value, nested, regular)
            ==> spec_basic_condition(key, value, nested, regular) == Ok::<Seq<char>, SpecError>(
            cond_entity_ref(key, value),
        ),
        !crate::filters::treat_as_entity_ref(key, value, nested, regular)
            ==> spec_basic_condition(key, value, nested, regular) == Ok::<Seq<char>, SpecError>(
            cond_op(key, "_eq"@, value),
        ),
{
}

/// Several conditions on one base field combine under `_and`: a group
/// with more than one condition contributes nothing to the single
/// conditions and every one of its conditions, brace-wrapped, to the
/// shared `_and` array.
pub proof fn lemma_multi_condition_group(
    gs: crate::filters::SpecGroups,
    nested: Seq<Seq<char>>,
    regular: Seq<Seq<char>>,
)
    requires
        gs.len() > 0,
        gs[0].1.len() != 1,
        assemble_groups(gs, nested, regular) is Ok,
    ensures
        spec_conds(gs[0].1, nested, regular) is Ok,
        assemble_groups(gs.drop_first(), nested, regular) is Ok,
        assemble_groups(gs, nested, regular)->Ok_0.0 == assemble_groups(
            gs.drop_first(),
            nested,
            regular,
        )->Ok_0.0,
        assemble_groups(gs, nested, regular)->Ok_0.1 == spec_conds(
            gs[0].1,
            nested,
            regular,
        )->Ok_0.map(|i: int, c: Seq<char>| wrap_braces(c)) + assemble_groups(
            gs.drop_first(),
            nested,
            regular,
        )->Ok_0.1,
{
}

/// Fragments are preserved verbatim save for argument stripping: a text
/// holding no parenthesized argument list passes through the sanitizer
/// unchanged (in particular, `...FragmentName` spreads are untouched).
pub proof fn lemma_sanitize_identity_without_parens(s: Seq<char>)
    requires
        forall|i: int| 0 <= i < s.len() ==> s[i] != '(',
    ensures
        crate::fields::spec_sanitize(s) == s,
{
    lemma_san_from_identity(s, 0, false);
    assert(s.subrange(0, s.len() as int) =~= s);
}

/// Singularization and pluralization invert each other on the `*ches`
/// suffix rule and on the irregular table: for any fully lowercase name
/// ending in `ches`, pluralizing its singularized, capitalized form gives
/// the name back (`batches` to `Batch` and back; `tranches` to `Tranche`
/// and back).
pub proof fn lemma_plural_roundtrip_ches(s: Seq<char>)
    requires
        ends_with(s, "ches"@),
        forall|i: int| 0 <= i < s.len() ==> !crate::names::is_ascii_upper(#[trigger] s[i]),
    ensures
        crate::names::spec_pluralize_lowercase(crate::names::spec_singularize_and_capitalize(s))
            == s,
{
    reveal_strlit("ches");
    reveal_strlit("shes");
    reveal_strlit("ies");
    reveal_strlit("tranches");
    reveal_strlit("Tranche");
    reveal_strlit("tranche");
    reveal_strlit("ch");
    reveal_strlit("sh");
    reveal_strlit("es");
    reveal_strlit("s");
    let n = s.len() as int;
    let p4 = "ches"@;
    let st = n - 4;
    assert(s[st + 0] == p4[0]);
    assert(s[st + 1] == p4[1]);
    assert(s[st + 2] == p4[2]);
    assert(s[st + 3] == p4[3]);
    assert(crate::names::lower_seq(s) =~= s) by {
        assert(forall|i: int|
            0 <= i < s.len() ==> crate::names::spec_lower(#[trigger] s[i]) == s[i]);
    }
    if crate::names::lower_seq(s) == "tranches"@ {
        let cap = "Tranche"@;
        let l = crate::names::lower_seq(cap);
        assert(l =~= "tranche"@);
        assert(!ends_with(l, "ch"@)) by {
            if ends_with(l, "ch"@) {
                assert(l[(l.len() - 2) + 0] == "ch"@[0]);
            }
        }
        assert(!ends_with(l, "sh"@)) by {
            if ends_with(l, "sh"@) {
                assert(l[(l.len() - 2) + 0] == "sh"@[0]);
            }
        }
        assert(crate::names::spec_pluralize_lowercase(cap) =~= s);
    } else {
        assert(!ends_with(s, "ies"@)) by {
            if ends_with(s, "ies"@) {
                assert(s[(n - 3) + 0] == "ies"@[0]);
            }
        }
        let singular = s.subrange(0, n - 2);
        assert(crate::names::spec_singular(s) == singular);
        assert(n - 2 >= 2);
        let cap = crate::names::spec_capitalize(singular);
        assert(cap == seq![crate::names::spec_upper(s[0])] + s.subrange(0, n - 2).subrange(
            1,
            n - 2,
        ));
        assert(crate::names::spec_singularize_and_capitalize(s) == cap);
        let l = crate::names::lower_seq(cap);
        assert(l =~= singular) by {
            assert(crate::names::spec_lower(crate::names::spec_upper(s[0])) == s[0]);
            assert(forall|i: int|
                1 <= i < n - 2 ==> cap[i] == s.subrange(0, n - 2).subrange(1, n - 2)[i - 1]);
            assert(forall|i: int|
                0 <= i < s.len() ==> crate::names::spec_lower(#[trigger] s[i]) == s[i]);
        }
        assert(l.len() >= 2 && l[l.len() - 2] == 'c' && l[l.len() - 1] == 'h');
        assert(ends_with(l, "ch"@)) by {
            assert(l[(l.len() - 2) + 0] == "ch"@[0]);
            assert(l[(l.len() - 2) + 1] == "ch"@[1]);
        }
        assert(crate::names::spec_pluralize_lowercase(cap) == l + "es"@);
        assert(l + "es"@ =~= s);
    }
}

/// No pair of `ps` is keyed `where`.
pub open spec fn no_where(ps: SpecPairs) -> bool {
    forall|i: int| 0 <= i < ps.len() ==> (#[trigger] ps[i]).0 != "where"@
}

proof fn lemma_put_all_wf(m: SpecPairs, ps: SpecPairs)
    requires
        crate::argmap::sp_wf(m),
    ensures
        crate::argmap::sp_wf(crate::argmap::sp_put_all(m, ps)),
    decreases ps.len(),
{
    if ps.len() == 0 {
    } else {
        crate::argmap::lemma_put_wf(m, ps[0].0, ps[0].1);
        lemma_put_all_wf(crate::argmap::sp_put(m, ps[0].0, ps[0].1), ps.drop_first());
    }
}

/// Every key of `sp_put(m, k, v)` is `k` or a key of `m`.
proof fn lemma_put_key_origin(m: SpecPairs, k: Seq<char>, v: Seq<char>, i: int)
    requires
        0 <= i < crate::argmap::sp_put(m, k, v).len(),
    ensures
        crate::argmap::sp_put(m, k, v)[i].0 == k || exists|j: int|
            0 <= j < m.len() && (#[trigger] m[j]).0 == crate::argmap::sp_put(m, k, v)[i].0,
    decreases m.len(),
{
    if m.len() == 0 {
    } else if m[0].0 == k {
        if i > 0 {
            assert((seq![(k, v)] + m.drop_first())[i] == m.drop_first()[i - 1]);
            assert(m[i] == m.drop_first()[i - 1]);
        }
    } else {
        if i == 0 {
            assert((seq![m[0]] + crate::argmap::sp_put(m.drop_first(), k, v))[0] == m[0]);
        } else {
            assert((seq![m[0]] + crate::argmap::sp_put(m.drop_first(), k, v))[i]
                == crate::argmap::sp_put(m.drop_first(), k, v)[i - 1]);
            lemma_put_key_origin(m.drop_first(), k, v, i - 1);
            if crate::argmap::sp_put(m.drop_first(), k, v)[i - 1].0 != k {
                let j = choose|j: int|
                    0 <= j < m.drop_first().len() && (#[trigger] m.drop_first()[j]).0
                        == crate::argmap::sp_put(m.drop_first(), k, v)[i - 1].0;
                assert(m[j + 1] == m.drop_first()[j]);
            }
        }
    }
}

proof fn lemma_put_no_where(m: SpecPairs, k: Seq<char>, v: Seq<char>)
    requires
        no_where(m),
        k != "where"@,
    ensures
        no_where(crate::argmap::sp_put(m, k, v)),
{
    let r = crate::argmap::sp_put(m, k, v);
    assert forall|i: int| 0 <= i < r.len() implies (#[trigger] r[i]).0 != "where"@ by {
        lemma_put_key_origin(m, k, v, i);
    }
}

proof fn lemma_put_all_no_where(m: SpecPairs, ps: SpecPairs)
    requires
        no_where(m),
        no_where(ps),
    ensures
        no_where(crate::argmap::sp_put_all(m, ps)),
    decreases ps.len(),
{
    if ps.len() == 0 {
    } else {
        assert(ps[0].0 != "where"@);
        lemma_put_no_where(m, ps[0].0, ps[0].1);
        assert(forall|i: int|
            0 <= i < ps.drop_first().len() ==> #[trigger] ps.drop_first()[i] == ps[i + 1]);
        lemma_put_all_no_where(crate::argmap::sp_put(m, ps[0].0, ps[0].1), ps.drop_first());
    }
}

/// Flattening produces a map with unique keys and no `where` key left.
proof fn lemma_flatten_into_shape(acc: SpecPairs, m: SpecPairs)
    requires
        crate::argmap::sp_wf(acc),
        no_where(acc),
    ensures
        crate::argmap::sp_wf(crate::params::spec_flatten_into(acc, m)),
        no_where(crate::params::spec_flatten_into(acc, m)),
    decreases crate::argmap::pairs_weight(m),
{
    if m.len() == 0 {
    } else {
        assert(crate::argmap::pairs_weight(m) == m[0].1.len() + 1 + crate::argmap::pairs_weight(
            m.drop_first(),
        ));
        if m[0].0 == "where"@ {
            crate::params::lemma_parse_nested_weight(m[0].1);
            lemma_flatten_into_shape(Seq::empty(), crate::params::spec_parse_nested(m[0].1));
            let inner = crate::params::spec_flatten_into(
                Seq::empty(),
                crate::params::spec_parse_nested(m[0].1),
            );
            lemma_put_all_wf(acc, inner);
            lemma_put_all_no_where(acc, inner);
            lemma_flatten_into_shape(crate::argmap::sp_put_all(acc, inner), m.drop_first());
        } else {
            crate::argmap::lemma_put_wf(acc, m[0].0, m[0].1);
            lemma_put_no_where(acc, m[0].0, m[0].1);
            lemma_flatten_into_shape(
                crate::argmap::sp_put(acc, m[0].0, m[0].1),
                m.drop_first(),
            );
        }
    }
}

/// Flattening a map that holds no `where` entry just binds its pairs.
proof fn lemma_flatten_plain(acc: SpecPairs, m: SpecPairs)
    requires
        no_where(m),
    ensures
        crate::params::spec_flatten_into(acc, m) == crate::argmap::sp_put_all(acc, m),
    decreases m.len(),
{
    if m.len() == 0 {
    } else {
        assert(m[0].0 != "where"@);
        assert(forall|i: int|
            0 <= i < m.drop_first().len() ==> #[trigger] m.drop_first()[i] == m[i + 1]);
        lemma_flatten_plain(crate::argmap::sp_put(acc, m[0].0, m[0].1), m.drop_first());
    }
}

/// Binding pairs whose keys are fresh and mutually distinct appends them.
proof fn lemma_put_all_disjoint(acc: SpecPairs, ps: SpecPairs)
    requires
        crate::argmap::sp_wf(ps),
        forall|i: int|
            0 <= i < ps.len() ==> !crate::argmap::sp_has_key(acc, (#[trigger] ps[i]).0),
    ensures
        crate::argmap::sp_put_all(acc, ps) == acc + ps,
    decreases ps.len(),
{
    if ps.len() == 0 {
        assert(acc + ps =~= acc);
    } else {
        assert(!crate::argmap::sp_has_key(acc, ps[0].0));
        assert forall|j: int| 0 <= j < acc.len() implies (#[trigger] acc[j]).0 != ps[0].0 by {
            if acc[j].0 == ps[0].0 {
                crate::argmap::lemma_get_some_key(acc, j);
            }
        }
        crate::argmap::lemma_put_append(acc, ps[0].0, ps[0].1);
        let acc2 = acc + seq![(ps[0].0, ps[0].1)];
        assert(forall|i: int|
            0 <= i < ps.drop_first().len() ==> #[trigger] ps.drop_first()[i] == ps[i + 1]);
        assert forall|i: int|
            0 <= i < ps.drop_first().len() implies !crate::argmap::sp_has_key(
            acc2,
            (#[trigger] ps.drop_first()[i]).0,
        ) by {
            let k = ps.drop_first()[i].0;
            assert forall|j: int| 0 <= j < acc2.len() implies (#[trigger] acc2[j]).0 != k by {
                if j < acc.len() {
                    if acc[j].0 == k {
                        crate::argmap::lemma_get_some_key(acc, j);
                    }
                } else {
                    assert(acc2[j] == (ps[0].0, ps[0].1));
                }
            }
            crate::argmap::lemma_get_absent(acc2, k);
        }
        lemma_put_all_disjoint(acc2, ps.drop_first());
        assert(acc2 + ps.drop_first() =~= acc + ps);
    }
}

/// A map with unique keys collapses to itself.
proof fn lemma_collapse_id(m: SpecPairs)
    requires
        crate::argmap::sp_wf(m),
    ensures
        crate::argmap::sp_collapse(m) == m,
{
    assert forall|i: int|
        0 <= i < m.len() implies !crate::argmap::sp_has_key(
        Seq::<(Seq<char>, Seq<char>)>::empty(),
        (#[trigger] m[i]).0,
    ) by {
        crate::argmap::lemma_get_absent(Seq::<(Seq<char>, Seq<char>)>::empty(), m[i].0);
    }
    lemma_put_all_disjoint(Seq::empty(), m);
    assert(Seq::<(Seq<char>, Seq<char>)>::empty() + m =~= m);
}

/// Flattening is idempotent: every `where` entry is fully expanded on the
/// first pass, so a second pass binds the same pairs and changes nothing.
/// Compiling a pre-flattened filter map therefore yields the same result
/// as compiling its nested form.
pub proof fn lemma_flatten_idempotent(m: SpecPairs)
    ensures
        crate::params::spec_flatten(crate::params::spec_flatten(m)) == crate::params::spec_flatten(
            m,
        ),
{
    let f = crate::params::spec_flatten(m);
    lemma_flatten_into_shape(Seq::empty(), m);
    lemma_flatten_plain(Seq::empty(), f);
    lemma_collapse_id(f);
}

proof fn lemma_san_from_identity(s: Seq<char>, i: int, in_str: bool)
    requires
        0 <= i <= s.len(),
        forall|k: int| 0 <= k < s.len() ==> s[k] != '(',
    ensures
        san_from(s, i, in_str) == s.subrange(i, s.len() as int),
    decreases s.len() - i,
{
    if i >= s.len() {
        assert(s.subrange(i, s.len() as int) =~= Seq::<char>::empty());
    } else {
        let c = s[i];
        if c == '"' {
            lemma_san_from_identity(s, i + 1, !in_str);
        } else {
            lemma_san_from_identity(s, i + 1, in_str);
        }
        assert(seq![c] + s.subrange(i + 1, s.len() as int) =~= s.subrange(i, s.len() as int));
    }
}

} // verus!
