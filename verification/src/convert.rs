//! The query assembler: translates the operation body entity by entity
//! (primary-key shortcut, limit/offset/order_by/where assembly, entity
//! name transformation) and combines the result with the preserved
//! fragment text.

use vstd::prelude::*;

use crate::argmap::{sp_get, sp_put, ArgMap, SpecPairs};
use crate::chars::{
    contains_at_all, contains_sub, ends_with, find_char, find_char_from, find_last_char,
    find_last_char_in, first_after_spaces_is, first_nonspace_is, has_suffix, match_at, spec_trim,
    trim_of,
};
use crate::entities::{entities_view, extract_multiple_entities, spec_extract_entities, SpecEntity};
use crate::fields::spec_field_info;
use crate::filters::{convert_filters_to_where_clause, join_comma, spec_where_clause};
use crate::fragments::{extract_fragments_and_main_query, spec_split_fragments};
use crate::meta::{convert_meta_query, spec_convert_meta};
use crate::names::{singularize_and_capitalize, spec_singularize_and_capitalize};
use crate::{ConversionError, SpecError};

verus! {

/// The parts joined with the separator `sep` between them.
pub open spec fn join_sep(parts: Seq<Seq<char>>, sep: Seq<char>) -> Seq<char>
    decreases parts.len(),
{
    if parts.len() == 0 {
        Seq::empty()
    } else if parts.len() == 1 {
        parts[0]
    } else {
        parts[0] + sep + join_sep(parts.drop_first(), sep)
    }
}

pub proof fn lemma_join_sep_snoc(parts: Seq<Seq<char>>, sep: Seq<char>, x: Seq<char>)
    ensures
        join_sep(parts.push(x), sep) == if parts.len() == 0 {
            x
        } else {
            join_sep(parts, sep) + sep + x
        },
    decreases parts.len(),
{
    if parts.len() == 0 {
        assert(parts.push(x)[0] == x);
    } else {
        assert(parts.push(x)[0] == parts[0]);
        assert(parts.push(x).drop_first() =~= parts.drop_first().push(x));
        lemma_join_sep_snoc(parts.drop_first(), sep, x);
        if parts.len() == 1 {
            assert(parts.drop_first().len() == 0);
        }
    }
}

/// The spec-level value of an optional chain identifier.
pub open spec fn opt_view(o: Option<&str>) -> Option<Seq<char>> {
    match o {
        Some(s) => Some(s@),
        None => None,
    }
}

/// The translated line of one entity invocation.  A singular entity whose
/// only argument is `id` becomes a primary-key lookup, bypassing all
/// other argument handling and the chain filter.  Otherwise the entity
/// name is singularized and capitalized, and limit, offset, `order_by`
/// and the compiled `where` clause (with the chain identifier injected as
/// a `chainId` equality) are assembled in that order; pagination and
/// ordering operands that are variable references are omitted.
pub open spec fn spec_entity_line(
    name: Seq<char>,
    params: SpecPairs,
    sel: Seq<char>,
    chain: Option<Seq<char>>,
) -> Result<Seq<char>, SpecError> {
    if !ends_with(name, "s"@) && params.len() == 1 && sp_get(params, "id"@) is Some {
        Ok("  "@ + name + "_by_pk(id: "@ + sp_get(params, "id"@)->Some_0 + ") "@ + sel)
    } else {
        let cparams = match chain {
            Some(c) => sp_put(params, "chainId"@, "\""@ + c + "\""@),
            None => params,
        };
        let f = spec_field_info(sel);
        match spec_where_clause(cparams, f.0, f.1, f.2) {
            Err(e) => Err(e),
            Ok(w) => {
                let lim = match sp_get(params, "first"@) {
                    Some(v) => if first_after_spaces_is(v, '$') {
                        Seq::<Seq<char>>::empty()
                    } else {
                        seq!["limit: "@ + v]
                    },
                    None => Seq::<Seq<char>>::empty(),
                };
                let off = match sp_get(params, "skip"@) {
                    Some(v) => if first_after_spaces_is(v, '$') {
                        Seq::<Seq<char>>::empty()
                    } else {
                        seq!["offset: "@ + v]
                    },
                    None => Seq::<Seq<char>>::empty(),
                };
                let ord = match sp_get(params, "orderBy"@) {
                    Some(of) => {
                        let dir = match sp_get(params, "orderDirection"@) {
                            Some(d) => d,
                            None => "asc"@,
                        };
                        if first_after_spaces_is(of, '$') || first_after_spaces_is(dir, '$') {
                            Seq::<Seq<char>>::empty()
                        } else {
                            seq!["order_by: {"@ + of + ": "@ + dir + "}"@]
                        }
                    },
                    None => Seq::<Seq<char>>::empty(),
                };
                let wh = if w.len() > 0 {
                    seq![w]
                } else {
                    Seq::<Seq<char>>::empty()
                };
                let parts = lim + off + ord + wh;
                let args = if parts.len() == 0 {
                    Seq::<char>::empty()
                } else {
                    "("@ + join_comma(parts) + ")"@
                };
                Ok("  "@ + spec_singularize_and_capitalize(name) + args + " "@ + sel)
            },
        }
    }
}

/// The translated lines of a run of entities, in order; the first failure
/// wins.
pub open spec fn spec_main_lines(ents: Seq<SpecEntity>, chain: Option<Seq<char>>) -> Result<
    Seq<Seq<char>>,
    SpecError,
>
    decreases ents.len(),
{
    if ents.len() == 0 {
        Ok(Seq::empty())
    } else {
        match spec_entity_line(ents[0].0, ents[0].1, ents[0].2, chain) {
            Err(e) => Err(e),
            Ok(l) => match spec_main_lines(ents.drop_first(), chain) {
                Err(e) => Err(e),
                Ok(ls) => Ok(seq![l] + ls),
            },
        }
    }
}

/// The operation text assembled from translated entity lines.
pub open spec fn lines_result(ents: Seq<SpecEntity>, chain: Option<Seq<char>>) -> Result<
    Seq<char>,
    SpecError,
> {
    match spec_main_lines(ents, chain) {
        Err(e) => Err(e),
        Ok(lines) => Ok("query {\n"@ + join_sep(lines, "\n"@) + "\n}"@),
    }
}

/// What [`convert_main_query`] returns: the outer `query { ... }` wrapper
/// (optionally named) is stripped to its inner body, the entities are
/// extracted and translated in order, and the lines are wrapped in a
/// fresh `query { ... }` operation.
pub open spec fn spec_convert_main(mq: Seq<char>, chain: Option<Seq<char>>) -> Result<
    Seq<char>,
    SpecError,
> {
    let t = spec_trim(mq);
    let header = match_at(t, "query"@, 0) && find_char(t, '{', 0) is Some && find_last_char(
        t,
        '}',
    ) is Some;
    if header && find_char(t, '{', 0)->Some_0 + 1 > find_last_char(t, '}')->Some_0 {
        Err(SpecError::Invalid)
    } else {
        let stripped = if header {
            t.subrange(find_char(t, '{', 0)->Some_0 + 1, find_last_char(t, '}')->Some_0)
        } else {
            mq
        };
        match spec_extract_entities(stripped) {
            Err(e) => Err(e),
            Ok(ents) => lines_result(ents, chain),
        }
    }
}

/// Build the translated line of one entity.
fn entity_line(name: &str, params: &ArgMap, sel: &str, chain_id: Option<&str>) -> (r: Result<
    String,
    ConversionError,
>)
    ensures
        crate::res_matches(&r, spec_entity_line(name@, params@, sel@, opt_view(chain_id))),
{
    let nn = name.unicode_len();
    if !has_suffix(name, nn, "s") && params.len() == 1 {
        match params.get_value("id") {
            Some(idv) => {
                let mut r = String::from_str("  ");
                r.append(name);
                r.append("_by_pk(id: ");
                r.append(idv.as_str());
                r.append(") ");
                r.append(sel);
                proof {
                    assert(r@ =~= "  "@ + name@ + "_by_pk(id: "@ + idv@ + ") "@ + sel@);
                }
                return Ok(r);
            },
            None => {},
        }
    }
    let mut cparams = params.duplicate();
    match chain_id {
        Some(c) => {
            let mut cv = String::from_str("\"");
            cv.append(c);
            cv.append("\"");
            proof {
                assert(cv@ =~= "\""@ + c@ + "\""@);
            }
            cparams.insert(String::from_str("chainId"), cv);
        },
        None => {},
    }
    let (sets, info) = crate::fields::extract_field_info_from_selection_recursive(sel);
    match convert_filters_to_where_clause(&cparams, &sets, &info) {
        Err(e) => Err(e),
        Ok(w) => {
            let mut parts: Vec<String> = Vec::new();
            let ghost lim = match sp_get(params@, "first"@) {
                Some(v) => if first_after_spaces_is(v, '$') {
                    Seq::<Seq<char>>::empty()
                } else {
                    seq!["limit: "@ + v]
                },
                None => Seq::<Seq<char>>::empty(),
            };
            match params.get_value("first") {
                Some(v) => {
                    if !first_nonspace_is(v.as_str(), '$') {
                        let mut p = String::from_str("limit: ");
                        p.append(v.as_str());
                        proof {
                            assert(p@ =~= "limit: "@ + v@);
                        }
                        parts.push(p);
                    }
                },
                None => {},
            }
            proof {
                assert(parts.deep_view() =~= lim);
            }
            let ghost off = match sp_get(params@, "skip"@) {
                Some(v) => if first_after_spaces_is(v, '$') {
                    Seq::<Seq<char>>::empty()
                } else {
                    seq!["offset: "@ + v]
                },
                None => Seq::<Seq<char>>::empty(),
            };
            match params.get_value("skip") {
                Some(v) => {
                    if !first_nonspace_is(v.as_str(), '$') {
                        let mut p = String::from_str("offset: ");
                        p.append(v.as_str());
                        proof {
                            assert(p@ =~= "offset: "@ + v@);
                        }
                        parts.push(p);
                    }
                },
                None => {},
            }
            proof {
                assert(parts.deep_view() =~= lim + off);
            }
            let ghost ord = match sp_get(params@, "orderBy"@) {
                Some(of) => {
                    let dir = match sp_get(params@, "orderDirection"@) {
                        Some(d) => d,
                        None => "asc"@,
                    };
                    if first_after_spaces_is(of, '$') || first_after_spaces_is(dir, '$') {
                        Seq::<Seq<char>>::empty()
                    } else {
                        seq!["order_by: {"@ + of + ": "@ + dir + "}"@]
                    }
                },
                None => Seq::<Seq<char>>::empty(),
            };
            match params.get_value("orderBy") {
                Some(of) => {
                    let dir = match params.get_value("orderDirection") {
                        Some(d) => d,
                        None => String::from_str("asc"),
                    };
                    if !first_nonspace_is(of.as_str(), '$') && !first_nonspace_is(
                        dir.as_str(),
                        '$',
                    ) {
                        let mut p = String::from_str("order_by: {");
                        p.append(of.as_str());
                        p.append(": ");
                        p.append(dir.as_str());
                        p.append("}");
                        proof {
                            assert(p@ =~= "order_by: {"@ + of@ + ": "@ + dir@ + "}"@);
                        }
                        parts.push(p);
                    }
                },
                None => {},
            }
            proof {
                assert(parts.deep_view() =~= lim + off + ord);
            }
            let ghost wh = if w@.len() > 0 {
                seq![w@]
            } else {
                Seq::<Seq<char>>::empty()
            };
            if w.as_str().unicode_len() > 0 {
                parts.push(w);
            }
            proof {
                assert(parts.deep_view() =~= lim + off + ord + wh);
            }
            let cap = singularize_and_capitalize(name);
            let mut r = String::from_str("  ");
            r.append(cap.as_str());
            if parts.len() > 0 {
                r.append("(");
                r.append(crate::filters::join_parts(&parts).as_str());
                r.append(")");
            }
            r.append(" ");
            r.append(sel);
            proof {
                if (lim + off + ord + wh).len() == 0 {
                    assert(r@ =~= "  "@ + spec_singularize_and_capitalize(name@)
                        + Seq::<char>::empty() + " "@ + sel@);
                } else {
                    assert(r@ =~= "  "@ + spec_singularize_and_capitalize(name@) + ("("@
                        + join_comma(parts.deep_view()) + ")"@) + " "@ + sel@);
                }
            }
            Ok(r)
        },
    }
}

/// Translate the main operation text: strip the outer wrapper, translate
/// each entity invocation in order, and emit a single operation holding
/// the translated lines.
pub fn convert_main_query(main_query: &str, chain_id: Option<&str>) -> (r: Result<
    String,
    ConversionError,
>)
    ensures
        crate::res_matches(&r, spec_convert_main(main_query@, opt_view(chain_id))),
{
    let t = trim_of(main_query);
    let tn = t.as_str().unicode_len();
    let is_query = crate::chars::starts_at(t.as_str(), tn, 0, "query");
    let sb = find_char_from(t.as_str(), tn, 0, '{');
    let eb = find_last_char_in(t.as_str(), tn, '}');
    let header = is_query && sb.is_some() && eb.is_some();
    let stripped_owned: String;
    let stripped: &str = if header {
        let sbv = sb.unwrap();
        let ebv = eb.unwrap();
        if sbv + 1 > ebv {
            return Err(ConversionError::InvalidQueryFormat);
        }
        stripped_owned = String::from_str(t.as_str().substring_char(sbv + 1, ebv));
        stripped_owned.as_str()
    } else {
        main_query
    };
    match extract_multiple_entities(stripped) {
        Err(e) => Err(e),
        Ok(ents) => {
            let ghost ev = entities_view(ents@);
            let n = ents.len();
            let mut lines: Vec<String> = Vec::new();
            let mut i: usize = 0;
            proof {
                assert(ev.skip(0) =~= ev);
                assert(lines.deep_view() =~= Seq::<Seq<char>>::empty());
            }
            while i < n
                invariant
                    0 <= i <= n,
                    n == ents@.len(),
                    ev == entities_view(ents@),
                    spec_convert_main(main_query@, opt_view(chain_id)) == lines_result(
                        ev,
                        opt_view(chain_id),
                    ),
                    match spec_main_lines(ev.skip(i as int), opt_view(chain_id)) {
                        Ok(ls) => spec_main_lines(ev, opt_view(chain_id)) == Ok::<
                            Seq<Seq<char>>,
                            SpecError,
                        >(lines.deep_view() + ls),
                        Err(e) => spec_main_lines(ev, opt_view(chain_id)) == Err::<
                            Seq<Seq<char>>,
                            SpecError,
                        >(e),
                    },
                decreases n - i,
            {
                proof {
                    assert(ev.skip(i as int)[0] == ev[i as int]);
                    assert(ev.skip(i as int).drop_first() =~= ev.skip(i + 1));
                }
                match entity_line(
                    ents[i].0.as_str(),
                    &ents[i].1,
                    ents[i].2.as_str(),
                    chain_id,
                ) {
                    Err(e) => {
                        return Err(e);
                    },
                    Ok(l) => {
                        let ghost l0 = lines.deep_view();
                        let ghost lv = l@;
                        lines.push(l);
                        proof {
                            assert(lines.deep_view() =~= l0.push(lv));
                            if spec_main_lines(ev.skip(i + 1), opt_view(chain_id)) is Ok {
                                let ls = spec_main_lines(ev.skip(i + 1), opt_view(chain_id))->Ok_0;
                                assert(l0 + (seq![lv] + ls) =~= l0.push(lv) + ls);
                            }
                        }
                    },
                }
                i += 1;
            }
            proof {
                assert(ev.skip(n as int).len() == 0);
                assert(lines.deep_view() + Seq::<Seq<char>>::empty() =~= lines.deep_view());
            }
            let mut r = String::from_str("query {\n");
            r.append(join_with_newlines(&lines).as_str());
            r.append("\n}");
            proof {
                assert(r@ =~= "query {\n"@ + join_sep(lines.deep_view(), "\n"@) + "\n}"@);
            }
            Ok(r)
        },
    }
}

/// Join parts with a newline between them, matching [`join_sep`].
fn join_with_newlines(parts: &Vec<String>) -> (r: String)
    ensures
        r@ == join_sep(parts.deep_view(), "\n"@),
{
    let n = parts.len();
    let mut r = String::new();
    let mut i: usize = 0;
    proof {
        assert(parts.deep_view().take(0) =~= Seq::<Seq<char>>::empty());
    }
    while i < n
        invariant
            0 <= i <= n,
            n == parts@.len(),
            r@ == join_sep(parts.deep_view().take(i as int), "\n"@),
        decreases n - i,
    {
        if i > 0 {
            r.append("\n");
        }
        r.append(parts[i].as_str());
        proof {
            let dv = parts.deep_view();
            assert(dv.take(i + 1) =~= dv.take(i as int).push(dv[i as int]));
            lemma_join_sep_snoc(dv.take(i as int), "\n"@, dv[i as int]);
        }
        i += 1;
    }
    proof {
        assert(parts.deep_view().take(n as int) =~= parts.deep_view());
    }
    r
}

/// What [`convert_query_structure`] returns: a `_meta` query takes the
/// constrained meta path; otherwise the fragments are split off, the main
/// operation is translated, and the sanitized fragment text is emitted
/// ahead of it.
pub open spec fn spec_convert_query(q: Seq<char>, chain: Option<Seq<char>>) -> Result<
    Seq<char>,
    SpecError,
> {
    if contains_at_all(q, "_meta"@) {
        spec_convert_meta(q)
    } else {
        match spec_split_fragments(q, Seq::empty()) {
            Err(e) => Err(e),
            Ok(fm) => match spec_convert_main(fm.1, chain) {
                Err(e) => Err(e),
                Ok(cm) => Ok(
                    if fm.0.len() > 0 {
                        fm.0 + "\n"@ + cm
                    } else {
                        cm
                    },
                ),
            },
        }
    }
}

/// Translate one whole query text of the subgraph dialect into the target
/// dialect.
pub fn convert_query_structure(query: &str, chain_id: Option<&str>) -> (r: Result<
    String,
    ConversionError,
>)
    ensures
        crate::res_matches(&r, spec_convert_query(query@, opt_view(chain_id))),
{
    if contains_sub(query, "_meta") {
        return convert_meta_query(query);
    }
    match extract_fragments_and_main_query(query) {
        Err(e) => Err(e),
        Ok((fragments, main_query)) => {
            match convert_main_query(main_query.as_str(), chain_id) {
                Err(e) => Err(e),
                Ok(cm) => {
                    if fragments.as_str().unicode_len() > 0 {
                        let mut r = fragments;
                        r.append("\n");
                        r.append(cm.as_str());
                        proof {
                            assert(r@ =~= spec_convert_query(query@, opt_view(chain_id))->Ok_0);
                        }
                        Ok(r)
                    } else {
                        Ok(cm)
                    }
                },
            }
        },
    }
}

} // verus!
