//! Selection-set handling: stripping field argument lists (the target
//! dialect's selections carry none), and the field classifier that tells
//! nested-entity fields apart from scalar fields.

use vstd::prelude::*;

use crate::chars::{advance_ident, advance_spaces, ident, is_ident, skip_ident, skip_spaces, str_eq};
use crate::scanner::{find_close, lemma_scan_close_range, scan_close};

verus! {

/// The index just past the `)` that closes an argument list entered at
/// depth `depth`, with `"`-delimited stretches inert; end of text if the
/// list never closes.
pub open spec fn args_end(s: Seq<char>, j: int, depth: int, in_q: bool) -> int
    decreases s.len() - j,
    when 0 <= j <= s.len()
{
    if j == s.len() {
        j
    } else {
        let c = s[j];
        if c == '"' {
            args_end(s, j + 1, depth, !in_q)
        } else if !in_q && c == '(' {
            args_end(s, j + 1, depth + 1, in_q)
        } else if !in_q && c == ')' {
            if depth == 1 {
                j + 1
            } else {
                args_end(s, j + 1, depth - 1, in_q)
            }
        } else {
            args_end(s, j + 1, depth, in_q)
        }
    }
}

pub proof fn lemma_args_end_range(s: Seq<char>, j: int, depth: int, in_q: bool)
    requires
        0 <= j <= s.len(),
    ensures
        j <= args_end(s, j, depth, in_q) <= s.len(),
    decreases s.len() - j,
{
    if j == s.len() {
    } else {
        let c = s[j];
        if c == '"' {
            lemma_args_end_range(s, j + 1, depth, !in_q);
        } else if !in_q && c == '(' {
            lemma_args_end_range(s, j + 1, depth + 1, in_q);
        } else if !in_q && c == ')' {
            if depth == 1 {
            } else {
                lemma_args_end_range(s, j + 1, depth - 1, in_q);
            }
        } else {
            lemma_args_end_range(s, j + 1, depth, in_q);
        }
    }
}

/// The text from `i` on, in string state `in_str`, with every
/// parenthesized argument list outside a string literal removed.
pub open spec fn san_from(s: Seq<char>, i: int, in_str: bool) -> Seq<char>
    decreases s.len() - i,
    when 0 <= i <= s.len()
    via san_from_decreases
{
    if i >= s.len() {
        Seq::empty()
    } else {
        let c = s[i];
        if c == '"' {
            seq![c] + san_from(s, i + 1, !in_str)
        } else if !in_str && c == '(' {
            san_from(s, args_end(s, i + 1, 1, false), in_str)
        } else {
            seq![c] + san_from(s, i + 1, in_str)
        }
    }
}

#[via_fn]
proof fn san_from_decreases(s: Seq<char>, i: int, in_str: bool) {
    if i < s.len() && !in_str && s[i] == '(' {
        lemma_args_end_range(s, i + 1, 1, false);
    }
}

/// What [`sanitize_selection_set`] returns.
pub open spec fn spec_sanitize(s: Seq<char>) -> Seq<char> {
    san_from(s, 0, false)
}

/// Remove balanced parenthesized argument lists (and their contents) from
/// a selection-set text, leaving quoted string literals intact.
pub fn sanitize_selection_set(input: &str) -> (r: String)
    ensures
        r@ == spec_sanitize(input@),
{
    let n = input.unicode_len();
    let mut out = String::new();
    let mut i: usize = 0;
    let mut in_str: bool = false;
    while i < n
        invariant
            0 <= i <= n,
            n == input@.len(),
            out@ + san_from(input@, i as int, in_str) == spec_sanitize(input@),
        decreases n - i,
    {
        let ghost i0 = i as int;
        let ghost st0 = in_str;
        let c = input.get_char(i);
        if c == '"' {
            in_str = !in_str;
            out.append(input.substring_char(i, i + 1));
            i += 1;
            proof {
                assert(san_from(input@, i0, st0) == seq![input@[i0]] + san_from(
                    input@,
                    i as int,
                    in_str,
                ));
                assert(out@ + san_from(input@, i as int, in_str) == spec_sanitize(input@)) by {
                    assert(seq![input@[i0]] =~= input@.subrange(i0, i0 + 1));
                    assert((out@ + san_from(input@, i as int, in_str)) =~= spec_sanitize(input@));
                }
            }
        } else if !in_str && c == '(' {
            // Walk past the matching `)`, honoring string literals inside
            // the argument list.
            let mut j: usize = i + 1;
            let mut depth: usize = 1;
            let mut in_q: bool = false;
            loop
                invariant_except_break
                    i + 1 <= j <= n,
                    n == input@.len(),
                    1 <= depth <= j,
                    args_end(input@, i0 + 1, 1, false) == args_end(
                        input@,
                        j as int,
                        depth as int,
                        in_q,
                    ),
                ensures
                    i + 1 <= j <= n,
                    args_end(input@, i0 + 1, 1, false) == j as int,
                decreases n - j,
            {
                if j >= n {
                    break;
                }
                let ghost j0 = j as int;
                let ghost d0 = depth as int;
                let ghost q0 = in_q;
                let cj = input.get_char(j);
                if cj == '"' {
                    in_q = !in_q;
                } else if !in_q && cj == '(' {
                    depth += 1;
                } else if !in_q && cj == ')' {
                    if depth == 1 {
                        j += 1;
                        proof {
                            assert(args_end(input@, j0, d0, q0) == j as int);
                        }
                        break;
                    }
                    depth -= 1;
                }
                j += 1;
                proof {
                    assert(args_end(input@, j0, d0, q0) == args_end(
                        input@,
                        j as int,
                        depth as int,
                        in_q,
                    ));
                }
            }
            proof {
                assert(san_from(input@, i0, st0) == san_from(
                    input@,
                    args_end(input@, i0 + 1, 1, false),
                    st0,
                ));
            }
            i = j;
        } else {
            out.append(input.substring_char(i, i + 1));
            i += 1;
            proof {
                assert(san_from(input@, i0, st0) == seq![input@[i0]] + san_from(
                    input@,
                    i as int,
                    in_str,
                ));
                assert(seq![input@[i0]] =~= input@.subrange(i0, i0 + 1));
                assert((out@ + san_from(input@, i as int, in_str)) =~= spec_sanitize(input@));
            }
        }
    }
    proof {
        assert(san_from(input@, n as int, in_str) == Seq::<char>::empty());
        assert(out@ =~= out@ + Seq::<char>::empty());
    }
    out
}

/// What [`sanitize_fragment_arguments`] returns: only the selection body
/// between the fragment header's `{` and its matching `}` is sanitized;
/// a text without a brace-balanced body passes through unchanged.
pub open spec fn spec_sanitize_fragment(s: Seq<char>) -> Seq<char> {
    match crate::chars::find_char(s, '{', 0) {
        None => s,
        Some(o) => match scan_close(s, o + 1, '{', '}', 1, false, false) {
            None => s,
            Some(p) => s.subrange(0, o + 1) + spec_sanitize(
                crate::chars::spec_trim(s.subrange(o + 1, p)),
            ) + s.subrange(p, s.len() as int),
        },
    }
}

/// Strip field argument lists inside a fragment's selection body, leaving
/// the `fragment <Name> on <Type>` header and everything else verbatim.
pub fn sanitize_fragment_arguments(fragment_text: &str) -> (r: String)
    ensures
        r@ == spec_sanitize_fragment(fragment_text@),
{
    let n = fragment_text.unicode_len();
    match crate::chars::find_char_from(fragment_text, n, 0, '{') {
        None => String::from_str(fragment_text),
        Some(o) => {
            match find_close(fragment_text, n, o + 1, '{', '}') {
                None => String::from_str(fragment_text),
                Some(p) => {
                    let body = crate::chars::trim_of(fragment_text.substring_char(o + 1, p));
                    let sanitized = sanitize_selection_set(body.as_str());
                    let mut r = String::from_str(fragment_text.substring_char(0, o + 1));
                    r.append(sanitized.as_str());
                    r.append(fragment_text.substring_char(p, n));
                    proof {
                        assert(r@ =~= spec_sanitize_fragment(fragment_text@));
                    }
                    r
                },
            }
        },
    }
}

/// Model of one selection level: the nested-entity field names and the
/// scalar field names, in order of first appearance.
pub type SpecSets = (Seq<Seq<char>>, Seq<Seq<char>>);

/// Model of the per-nested-entity field information.
pub type SpecChildren = Seq<(Seq<char>, SpecSets)>;

/// A selection text reduced to its inner field list: trimmed, stripped of
/// outer braces, trimmed again.
pub open spec fn spec_field_content(s: Seq<char>) -> Seq<char> {
    let t = crate::chars::spec_trim(s);
    let a = crate::chars::skip_char(t, 0, '{');
    let b = crate::chars::rskip_char(t, t.len() as int, a, '}');
    crate::chars::spec_trim(t.subrange(a, b))
}

pub proof fn lemma_field_content_len(s: Seq<char>)
    ensures
        spec_field_content(s).len() <= s.len(),
{
    let t = crate::chars::spec_trim(s);
    crate::chars::lemma_trim_len(s);
    crate::chars::lemma_skip_char_range(t, 0, '{');
    let a = crate::chars::skip_char(t, 0, '{');
    crate::chars::lemma_rskip_char_range(t, t.len() as int, a, '}');
    let b = crate::chars::rskip_char(t, t.len() as int, a, '}');
    crate::chars::lemma_trim_len(t.subrange(a, b));
}

/// The classifier's scan over an inner field list from index `i` on: an
/// identifier followed (after whitespace) by `{` is a nested-entity field
/// whose brace-balanced body is classified recursively (one level of
/// child information is kept); any other identifier is a scalar field; a
/// brace body with no preceding identifier is skipped.
pub open spec fn fi_from(s: Seq<char>, i: int) -> (Seq<Seq<char>>, Seq<Seq<char>>, SpecChildren)
    decreases s.len(), s.len() - i,
    when 0 <= i <= s.len()
    via fi_from_decreases
{
    if i >= s.len() {
        (Seq::empty(), Seq::empty(), Seq::empty())
    } else {
        let c = s[i];
        if is_ident(c) {
            let j = skip_ident(s, i);
            let name = s.subrange(i, j);
            let a = skip_spaces(s, j);
            if a < s.len() && s[a] == '{' {
                let close = scan_close(s, a + 1, '{', '}', 1, false, false);
                let p = if close is Some {
                    close->Some_0
                } else {
                    s.len() as int
                };
                let cont = if close is Some {
                    close->Some_0 + 1
                } else {
                    s.len() as int
                };
                let child = fi_from(spec_field_content(s.subrange(a + 1, p)), 0);
                let rest = fi_from(s, cont);
                (seq![name] + rest.0, rest.1, seq![(name, (child.0, child.1))] + rest.2)
            } else {
                let rest = fi_from(s, a);
                (rest.0, seq![name] + rest.1, rest.2)
            }
        } else if c == '{' {
            let close = scan_close(s, i + 1, '{', '}', 1, false, false);
            let cont = if close is Some {
                close->Some_0 + 1
            } else {
                s.len() as int
            };
            fi_from(s, cont)
        } else {
            fi_from(s, i + 1)
        }
    }
}

#[via_fn]
proof fn fi_from_decreases(s: Seq<char>, i: int) {
    if 0 <= i < s.len() {
        let c = s[i];
        if is_ident(c) {
            assert(skip_ident(s, i) == skip_ident(s, i + 1));
            crate::chars::lemma_skip_ident_range(s, i + 1);
            let j = skip_ident(s, i);
            crate::chars::lemma_skip_spaces_range(s, j);
            let a = skip_spaces(s, j);
            if a < s.len() && s[a] == '{' {
                let close = scan_close(s, a + 1, '{', '}', 1, false, false);
                if close is Some {
                    lemma_scan_close_range(s, a + 1, '{', '}', 1, false, false);
                }
                let p = if close is Some {
                    close->Some_0
                } else {
                    s.len() as int
                };
                lemma_field_content_len(s.subrange(a + 1, p));
            }
        } else if c == '{' {
            let close = scan_close(s, i + 1, '{', '}', 1, false, false);
            if close is Some {
                lemma_scan_close_range(s, i + 1, '{', '}', 1, false, false);
            }
        }
    }
}

/// What [`extract_field_info_from_selection_recursive`] returns for a
/// selection text.
pub open spec fn spec_field_info(s: Seq<char>) -> (
    Seq<Seq<char>>,
    Seq<Seq<char>>,
    SpecChildren,
) {
    fi_from(spec_field_content(s), 0)
}

/// One selection level's field names: which fields appear as nested
/// objects, and which as plain scalars.
pub struct FieldSets {
    pub nested: Vec<String>,
    pub regular: Vec<String>,
}

impl View for FieldSets {
    type V = SpecSets;

    open spec fn view(&self) -> SpecSets {
        (self.nested.deep_view(), self.regular.deep_view())
    }
}

impl FieldSets {
    pub fn new() -> (r: FieldSets)
        ensures
            r@.0 == Seq::<Seq<char>>::empty(),
            r@.1 == Seq::<Seq<char>>::empty(),
    {
        let r = FieldSets { nested: Vec::new(), regular: Vec::new() };
        proof {
            assert(r@.0 =~= Seq::<Seq<char>>::empty());
            assert(r@.1 =~= Seq::<Seq<char>>::empty());
        }
        r
    }

    /// Whether `name` was selected as a nested entity.
    pub fn has_nested(&self, name: &str) -> (r: bool)
        ensures
            r == self@.0.contains(name@),
    {
        contains_name(&self.nested, name)
    }

    /// Whether `name` was selected as a plain scalar.
    pub fn has_regular(&self, name: &str) -> (r: bool)
        ensures
            r == self@.1.contains(name@),
    {
        contains_name(&self.regular, name)
    }
}

/// Membership of a name in a list of names, over views.
fn contains_name(v: &Vec<String>, name: &str) -> (r: bool)
    ensures
        r == v.deep_view().contains(name@),
{
    let n = v.len();
    let mut i: usize = 0;
    while i < n
        invariant
            0 <= i <= n,
            n == v@.len(),
            forall|k: int| 0 <= k < i ==> v.deep_view()[k] != name@,
        decreases n - i,
    {
        if str_eq(v[i].as_str(), name) {
            proof {
                assert(v.deep_view()[i as int] == name@);
            }
            return true;
        }
        i += 1;
    }
    proof {
        if v.deep_view().contains(name@) {
            let k = choose|k: int| 0 <= k < v.deep_view().len() && v.deep_view()[k] == name@;
            assert(v.deep_view()[k] == name@);
        }
    }
    false
}

/// The field information of each nested entity of one selection level.
pub struct ChildInfo {
    pub entries: Vec<(String, FieldSets)>,
}

impl View for ChildInfo {
    type V = SpecChildren;

    open spec fn view(&self) -> SpecChildren {
        Seq::new(self.entries@.len(), |i: int| (self.entries@[i].0@, self.entries@[i].1@))
    }
}

/// The field sets recorded under the first occurrence of `name`.
pub open spec fn sc_get(cm: SpecChildren, name: Seq<char>) -> Option<SpecSets>
    decreases cm.len(),
{
    if cm.len() == 0 {
        None
    } else if cm[0].0 == name {
        Some(cm[0].1)
    } else {
        sc_get(cm.drop_first(), name)
    }
}

pub proof fn lemma_sc_get_at_index(cm: SpecChildren, name: Seq<char>, i: int)
    requires
        0 <= i < cm.len(),
        cm[i].0 == name,
        forall|j: int| 0 <= j < i ==> (#[trigger] cm[j]).0 != name,
    ensures
        sc_get(cm, name) == Some(cm[i].1),
    decreases i,
{
    if i == 0 {
    } else {
        assert(cm.drop_first()[i - 1] == cm[i]);
        assert(forall|j: int| 0 <= j < i - 1 ==> #[trigger] cm.drop_first()[j] == cm[j + 1]);
        lemma_sc_get_at_index(cm.drop_first(), name, i - 1);
    }
}

pub proof fn lemma_sc_get_absent(cm: SpecChildren, name: Seq<char>)
    requires
        forall|j: int| 0 <= j < cm.len() ==> (#[trigger] cm[j]).0 != name,
    ensures
        sc_get(cm, name) is None,
    decreases cm.len(),
{
    if cm.len() == 0 {
    } else {
        assert(forall|j: int|
            0 <= j < cm.drop_first().len() ==> #[trigger] cm.drop_first()[j] == cm[j + 1]);
        lemma_sc_get_absent(cm.drop_first(), name);
    }
}

impl ChildInfo {
    /// The index of the first entry recorded for `name`, if any.
    pub fn find(&self, name: &str) -> (r: Option<usize>)
        ensures
            match r {
                Some(i) => {
                    &&& i < self@.len()
                    &&& self@[i as int].0 == name@
                    &&& sc_get(self@, name@) == Some(self@[i as int].1)
                },
                None => sc_get(self@, name@) is None,
            },
    {
        let n = self.entries.len();
        let mut i: usize = 0;
        while i < n
            invariant
                0 <= i <= n,
                n == self@.len(),
                n == self.entries@.len(),
                forall|k: int| 0 <= k < i ==> (#[trigger] self@[k]).0 != name@,
            decreases n - i,
        {
            if str_eq(self.entries[i].0.as_str(), name) {
                proof {
                    lemma_sc_get_at_index(self@, name@, i as int);
                }
                return Some(i);
            }
            i += 1;
        }
        proof {
            lemma_sc_get_absent(self@, name@);
        }
        None
    }
}

/// Classify one selection level: which top-level fields are selected as
/// nested objects and which as scalars, and, for each nested field, the
/// same classification of its own body (one level deep).
pub fn extract_field_info_from_selection_recursive(selection: &str) -> (r: (FieldSets, ChildInfo))
    ensures
        ({
            let f = spec_field_info(selection@);
            &&& r.0@.0 == f.0
            &&& r.0@.1 == f.1
            &&& r.1@ == f.2
        }),
    decreases selection@.len(),
{
    let t0 = crate::chars::trim_of(selection);
    let t0n = t0.as_str().unicode_len();
    let a0 = crate::chars::advance_char(t0.as_str(), t0n, 0, '{');
    let b0 = crate::chars::retreat_char(t0.as_str(), t0n, t0n, a0, '}');
    let content = crate::chars::trim_of(t0.as_str().substring_char(a0, b0));
    proof {
        assert(content@ == spec_field_content(selection@));
        crate::chars::lemma_trim_len(selection@);
        crate::chars::lemma_trim_len(t0@.subrange(a0 as int, b0 as int));
    }
    let c = content.as_str();
    let n = c.unicode_len();
    let ghost cv = content@;
    let mut nested: Vec<String> = Vec::new();
    let mut regular: Vec<String> = Vec::new();
    let mut children: Vec<(String, FieldSets)> = Vec::new();
    let mut i: usize = 0;
    while i < n
        invariant
            0 <= i <= n,
            n == cv.len(),
            c@ == cv,
            cv == spec_field_content(selection@),
            cv.len() <= selection@.len(),
            fi_from(cv, 0).0 == nested.deep_view() + fi_from(cv, i as int).0,
            fi_from(cv, 0).1 == regular.deep_view() + fi_from(cv, i as int).1,
            fi_from(cv, 0).2 == Seq::new(
                children@.len(),
                |k: int| (children@[k].0@, children@[k].1@),
            ) + fi_from(cv, i as int).2,
        decreases n - i,
    {
        let ghost i0 = i as int;
        let ghost acc_n = nested.deep_view();
        let ghost acc_r = regular.deep_view();
        let ghost acc_c = Seq::new(children@.len(), |k: int| (children@[k].0@, children@[k].1@));
        let ch = c.get_char(i);
        if ident(ch) {
            proof {
                assert(skip_ident(cv, i0) == skip_ident(cv, i0 + 1));
                crate::chars::lemma_skip_ident_range(cv, i0 + 1);
            }
            let j = advance_ident(c, n, i);
            let name = String::from_str(c.substring_char(i, j));
            let a = advance_spaces(c, n, j);
            if a < n && c.get_char(a) == '{' {
                let (p, cont): (usize, usize) = match find_close(c, n, a + 1, '{', '}') {
                    Some(q) => (q, q + 1),
                    None => (n, n),
                };
                let interior = c.substring_char(a + 1, p);
                proof {
                    lemma_field_content_len(interior@);
                }
                let (child_sets, _child_children) = extract_field_info_from_selection_recursive(
                    interior,
                );
                nested.push(name.clone());
                children.push((name, child_sets));
                i = cont;
                proof {
                    let f1 = fi_from(cv, i0);
                    let rest = fi_from(cv, i as int);
                    assert(nested.deep_view() =~= acc_n + seq![f1.0[0]]);
                    assert(acc_n + f1.0 =~= nested.deep_view() + rest.0);
                    assert(Seq::new(children@.len(), |k: int| (children@[k].0@, children@[k].1@))
                        =~= acc_c + seq![f1.2[0]]);
                    assert(acc_c + f1.2 =~= Seq::new(
                        children@.len(),
                        |k: int| (children@[k].0@, children@[k].1@),
                    ) + rest.2);
                }
            } else {
                regular.push(name);
                i = a;
                proof {
                    let f1 = fi_from(cv, i0);
                    let rest = fi_from(cv, i as int);
                    assert(regular.deep_view() =~= acc_r + seq![f1.1[0]]);
                    assert(acc_r + f1.1 =~= regular.deep_view() + rest.1);
                }
            }
        } else if ch == '{' {
            let cont: usize = match find_close(c, n, i + 1, '{', '}') {
                Some(q) => q + 1,
                None => n,
            };
            i = cont;
        } else {
            i += 1;
        }
    }
    proof {
        assert(fi_from(cv, n as int).0 =~= Seq::<Seq<char>>::empty());
        assert(nested.deep_view() =~= nested.deep_view() + fi_from(cv, n as int).0);
        assert(regular.deep_view() =~= regular.deep_view() + fi_from(cv, n as int).1);
        assert(Seq::new(children@.len(), |k: int| (children@[k].0@, children@[k].1@)) =~= Seq::new(
            children@.len(),
            |k: int| (children@[k].0@, children@[k].1@),
        ) + fi_from(cv, n as int).2);
    }
    let sets = FieldSets { nested, regular };
    let info = ChildInfo { entries: children };
    (sets, info)
}

} // verus!
