//! Entity-name vocabulary: singularize + capitalize for query emission, and
//! the inverse pluralize + lowercase used when response keys are mapped back
//! to the caller's naming convention.  The two directions share one set of
//! English-plural heuristics and must stay consistent with each other.

use vstd::prelude::*;

use crate::chars::{ends_with, has_suffix, str_eq};

verus! {

/// ASCII lowercase letter mapped to its uppercase form; all else unchanged.
pub open spec fn spec_upper(c: char) -> char {
    if 'a' <= c && c <= 'z' {
        (((c as u8) - 32) as char)
    } else {
        c
    }
}

/// ASCII uppercase letter mapped to its lowercase form; all else unchanged.
pub open spec fn spec_lower(c: char) -> char {
    if 'A' <= c && c <= 'Z' {
        (((c as u8) + 32) as char)
    } else {
        c
    }
}

/// The whole of `s` mapped through [`spec_lower`].
pub open spec fn lower_seq(s: Seq<char>) -> Seq<char> {
    Seq::new(s.len(), |i: int| spec_lower(s[i]))
}

pub open spec fn is_ascii_upper(c: char) -> bool {
    'A' <= c && c <= 'Z'
}

pub open spec fn is_ascii_lower(c: char) -> bool {
    'a' <= c && c <= 'z'
}

pub open spec fn is_ascii_letter(c: char) -> bool {
    is_ascii_upper(c) || is_ascii_lower(c)
}

pub open spec fn is_vowel(c: char) -> bool {
    c == 'a' || c == 'e' || c == 'i' || c == 'o' || c == 'u'
}

/// A one-character string holding the uppercase form of the lowercase letter
/// `c`.
fn cap_lit(c: char) -> (r: &'static str)
    requires
        is_ascii_lower(c),
    ensures
        r@ == seq![spec_upper(c)],
{
    let r = match c {
        'a' => "A",
        'b' => "B",
        'c' => "C",
        'd' => "D",
        'e' => "E",
        'f' => "F",
        'g' => "G",
        'h' => "H",
        'i' => "I",
        'j' => "J",
        'k' => "K",
        'l' => "L",
        'm' => "M",
        'n' => "N",
        'o' => "O",
        'p' => "P",
        'q' => "Q",
        'r' => "R",
        's' => "S",
        't' => "T",
        'u' => "U",
        'v' => "V",
        'w' => "W",
        'x' => "X",
        'y' => "Y",
        _ => "Z",
    };
    proof {
        reveal_strlit("A");
        reveal_strlit("B");
        reveal_strlit("C");
        reveal_strlit("D");
        reveal_strlit("E");
        reveal_strlit("F");
        reveal_strlit("G");
        reveal_strlit("H");
        reveal_strlit("I");
        reveal_strlit("J");
        reveal_strlit("K");
        reveal_strlit("L");
        reveal_strlit("M");
        reveal_strlit("N");
        reveal_strlit("O");
        reveal_strlit("P");
        reveal_strlit("Q");
        reveal_strlit("R");
        reveal_strlit("S");
        reveal_strlit("T");
        reveal_strlit("U");
        reveal_strlit("V");
        reveal_strlit("W");
        reveal_strlit("X");
        reveal_strlit("Y");
        reveal_strlit("Z");
        assert(r@ =~= seq![spec_upper(c)]);
    }
    r
}

/// A one-character string holding the lowercase form of the uppercase letter
/// `c`.
fn low_lit(c: char) -> (r: &'static str)
    requires
        is_ascii_upper(c),
    ensures
        r@ == seq![spec_lower(c)],
{
    let r = match c {
        'A' => "a",
        'B' => "b",
        'C' => "c",
        'D' => "d",
        'E' => "e",
        'F' => "f",
        'G' => "g",
        'H' => "h",
        'I' => "i",
        'J' => "j",
        'K' => "k",
        'L' => "l",
        'M' => "m",
        'N' => "n",
        'O' => "o",
        'P' => "p",
        'Q' => "q",
        'R' => "r",
        'S' => "s",
        'T' => "t",
        'U' => "u",
        'V' => "v",
        'W' => "w",
        'X' => "x",
        'Y' => "y",
        _ => "z",
    };
    proof {
        reveal_strlit("a");
        reveal_strlit("b");
        reveal_strlit("c");
        reveal_strlit("d");
        reveal_strlit("e");
        reveal_strlit("f");
        reveal_strlit("g");
        reveal_strlit("h");
        reveal_strlit("i");
        reveal_strlit("j");
        reveal_strlit("k");
        reveal_strlit("l");
        reveal_strlit("m");
        reveal_strlit("n");
        reveal_strlit("o");
        reveal_strlit("p");
        reveal_strlit("q");
        reveal_strlit("r");
        reveal_strlit("s");
        reveal_strlit("t");
        reveal_strlit("u");
        reveal_strlit("v");
        reveal_strlit("w");
        reveal_strlit("x");
        reveal_strlit("y");
        reveal_strlit("z");
        assert(r@ =~= seq![spec_lower(c)]);
    }
    r
}

/// `s` with every ASCII uppercase letter lowered.
pub fn ascii_lower(s: &str) -> (r: String)
    ensures
        r@ == lower_seq(s@),
{
    let n = s.unicode_len();
    let mut r = String::new();
    let mut i: usize = 0;
    while i < n
        invariant
            0 <= i <= n,
            n == s@.len(),
            r@ =~= lower_seq(s@).subrange(0, i as int),
        decreases n - i,
    {
        let c = s.get_char(i);
        if 'A' <= c && c <= 'Z' {
            r.append(low_lit(c));
        } else {
            r.append(s.substring_char(i, i + 1));
        }
        proof {
            assert(r@ =~= lower_seq(s@).subrange(0, i + 1));
        }
        i += 1;
    }
    proof {
        assert(lower_seq(s@).subrange(0, n as int) =~= lower_seq(s@));
    }
    r
}

/// The singular form of an entity name, by the English-plural heuristics:
/// the irregular table is checked by the caller; `*ies` becomes `*y`;
/// `*ches`, `*shes`, `*xes`, `*zes`, `*sses`, `*oes` and `*ses` drop their
/// last two characters; any other trailing `s` is dropped.
pub open spec fn spec_singular(s: Seq<char>) -> Seq<char> {
    if ends_with(s, "ies"@) && s.len() > 3 {
        s.subrange(0, s.len() - 3) + "y"@
    } else if ends_with(s, "ches"@) || ends_with(s, "shes"@) || ends_with(s, "xes"@) || ends_with(
        s,
        "zes"@,
    ) || ends_with(s, "sses"@) || ends_with(s, "oes"@) || ends_with(s, "ses"@) {
        s.subrange(0, s.len() - 2)
    } else if ends_with(s, "s"@) && s.len() > 1 {
        s.subrange(0, s.len() - 1)
    } else {
        s
    }
}

/// `s` with its first character mapped through [`spec_upper`].
pub open spec fn spec_capitalize(s: Seq<char>) -> Seq<char> {
    if s.len() == 0 {
        s
    } else {
        seq![spec_upper(s[0])] + s.subrange(1, s.len() as int)
    }
}

/// What [`singularize_and_capitalize`] returns: the irregular table
/// (`tranches`, checked case-insensitively) first, then the suffix
/// heuristics, then the first character uppercased.
pub open spec fn spec_singularize_and_capitalize(s: Seq<char>) -> Seq<char> {
    if lower_seq(s) == "tranches"@ {
        "Tranche"@
    } else {
        spec_capitalize(spec_singular(s))
    }
}

/// Singularize an entity name and capitalize its first letter, producing the
/// target dialect's type name (`streams` becomes `Stream`, `batches`
/// becomes `Batch`, `tranches` becomes `Tranche`).
pub fn singularize_and_capitalize(s: &str) -> (r: String)
    ensures
        r@ == spec_singularize_and_capitalize(s@),
{
    let low = ascii_lower(s);
    if str_eq(low.as_str(), "tranches") {
        return String::from_str("Tranche");
    }
    let n = s.unicode_len();
    if n == 0 {
        proof {
            reveal_strlit("ies");
            reveal_strlit("ches");
            reveal_strlit("shes");
            reveal_strlit("xes");
            reveal_strlit("zes");
            reveal_strlit("sses");
            reveal_strlit("oes");
            reveal_strlit("ses");
            reveal_strlit("s");
            assert(spec_singular(s@) == s@);
        }
        return String::new();
    }
    let ies = has_suffix(s, n, "ies");
    let es_family = has_suffix(s, n, "ches") || has_suffix(s, n, "shes") || has_suffix(
        s,
        n,
        "xes",
    ) || has_suffix(s, n, "zes") || has_suffix(s, n, "sses") || has_suffix(s, n, "oes")
        || has_suffix(s, n, "ses");
    let body_end: usize;
    let add_y: bool;
    if ies && n > 3 {
        proof {
            reveal_strlit("ies");
        }
        body_end = n - 3;
        add_y = true;
    } else if es_family {
        proof {
            reveal_strlit("ches");
            reveal_strlit("shes");
            reveal_strlit("xes");
            reveal_strlit("zes");
            reveal_strlit("sses");
            reveal_strlit("oes");
            reveal_strlit("ses");
        }
        body_end = n - 2;
        add_y = false;
    } else if has_suffix(s, n, "s") && n > 1 {
        proof {
            reveal_strlit("s");
        }
        body_end = n - 1;
        add_y = false;
    } else {
        body_end = n;
        add_y = false;
    }
    let c0 = s.get_char(0);
    let mut r: String;
    if 'a' <= c0 && c0 <= 'z' {
        r = String::from_str(cap_lit(c0));
    } else {
        r = String::from_str(s.substring_char(0, 1));
        proof {
            assert(r@ =~= seq![spec_upper(s@[0])]);
        }
    }
    r.append(s.substring_char(1, body_end));
    if add_y {
        r.append("y");
        proof {
            reveal_strlit("y");
            assert(spec_singular(s@) == s@.subrange(0, s@.len() - 3) + "y"@);
            assert(r@ =~= spec_capitalize(spec_singular(s@)));
        }
    } else {
        proof {
            assert(r@ =~= spec_capitalize(spec_singular(s@)));
        }
    }
    r
}

/// A response key is in Pascal case: a leading ASCII uppercase letter
/// followed by ASCII letters only.
pub open spec fn spec_is_pascal_case(s: Seq<char>) -> bool {
    &&& s.len() > 0
    &&& is_ascii_upper(s[0])
    &&& forall|k: int| 1 <= k < s.len() ==> is_ascii_letter(#[trigger] s[k])
}

/// Executable test matching [`spec_is_pascal_case`].
pub fn is_pascal_case(s: &str) -> (r: bool)
    ensures
        r == spec_is_pascal_case(s@),
{
    let n = s.unicode_len();
    if n == 0 {
        return false;
    }
    let c0 = s.get_char(0);
    if !('A' <= c0 && c0 <= 'Z') {
        return false;
    }
    let mut i: usize = 1;
    while i < n
        invariant
            1 <= i <= n,
            n == s@.len(),
            forall|k: int| 1 <= k < i ==> is_ascii_letter(#[trigger] s@[k]),
        decreases n - i,
    {
        let c = s.get_char(i);
        if !(('A' <= c && c <= 'Z') || ('a' <= c && c <= 'z')) {
            return false;
        }
        i += 1;
    }
    true
}

/// The plural, lowercased form of a singular type name: `*y` after a
/// consonant becomes `*ies`; names ending in `ch`, `sh`, `x`, `z`, `s` or
/// `o` gain `es`; all others gain `s`.
pub open spec fn spec_pluralize_lowercase(s: Seq<char>) -> Seq<char> {
    let l = lower_seq(s);
    if l.len() >= 2 && l[l.len() - 1] == 'y' && !is_vowel(l[l.len() - 2]) {
        l.subrange(0, l.len() - 1) + "ies"@
    } else if ends_with(l, "ch"@) || ends_with(l, "sh"@) || (l.len() >= 1 && (l[l.len() - 1] == 'x'
        || l[l.len() - 1] == 'z' || l[l.len() - 1] == 's' || l[l.len() - 1] == 'o')) {
        l + "es"@
    } else {
        l + "s"@
    }
}

/// Lowercase a type name and pluralize it, mapping a target-dialect type
/// name back to the caller's collection name (`Stream` becomes `streams`,
/// `Batch` becomes `batches`).
pub fn pluralize_lowercase(name: &str) -> (r: String)
    ensures
        r@ == spec_pluralize_lowercase(name@),
{
    let low = ascii_lower(name);
    let n = low.as_str().unicode_len();
    if n >= 2 {
        let last = low.as_str().get_char(n - 1);
        let pre = low.as_str().get_char(n - 2);
        if last == 'y' && !(pre == 'a' || pre == 'e' || pre == 'i' || pre == 'o' || pre == 'u') {
            let mut r = String::from_str(low.as_str().substring_char(0, n - 1));
            r.append("ies");
            return r;
        }
    }
    let es = has_suffix(low.as_str(), n, "ch") || has_suffix(low.as_str(), n, "sh") || (n >= 1 && {
        let last = low.as_str().get_char(n - 1);
        last == 'x' || last == 'z' || last == 's' || last == 'o'
    });
    let mut r = low;
    if es {
        proof {
            reveal_strlit("ch");
            reveal_strlit("sh");
        }
        r.append("es");
    } else {
        r.append("s");
    }
    r
}

/// `s` with every trailing `_by_pk` marker removed.
pub open spec fn spec_strip_by_pk(s: Seq<char>) -> Seq<char>
    decreases s.len(),
{
    if s.len() >= 6 && ends_with(s, "_by_pk"@) {
        spec_strip_by_pk(s.subrange(0, s.len() - 6))
    } else {
        s
    }
}

fn strip_by_pk(s: &str) -> (r: String)
    ensures
        r@ == spec_strip_by_pk(s@),
    decreases s@.len(),
{
    let n = s.unicode_len();
    if n >= 6 && has_suffix(s, n, "_by_pk") {
        proof {
            reveal_strlit("_by_pk");
        }
        strip_by_pk(s.substring_char(0, n - 6))
    } else {
        String::from_str(s)
    }
}

/// What [`transform_data_key`] returns: primary-key result keys
/// (`*_by_pk`) are stripped and lowercased; Pascal-case type keys are
/// pluralized and lowercased; anything else passes through unchanged.
pub open spec fn spec_transform_data_key(s: Seq<char>) -> Seq<char> {
    if ends_with(s, "_by_pk"@) {
        lower_seq(spec_strip_by_pk(s))
    } else if spec_is_pascal_case(s) {
        spec_pluralize_lowercase(s)
    } else {
        s
    }
}

/// Map one key of a downstream response's `data` object back to the
/// caller's naming convention.
pub fn transform_data_key(key: &str) -> (r: String)
    ensures
        r@ == spec_transform_data_key(key@),
{
    let n = key.unicode_len();
    if has_suffix(key, n, "_by_pk") {
        let stripped = strip_by_pk(key);
        ascii_lower(stripped.as_str())
    } else if is_pascal_case(key) {
        pluralize_lowercase(key)
    } else {
        String::from_str(key)
    }
}

} // verus!
