//! Text normalization for entity names and predicates.
//!
//! Entity names are slugged (accents stripped, separators unified) with the
//! result's hyphens turned into underscores; predicates are stemmed so that
//! inflections of one relation map to the same name. Inside a document, only
//! the root entity's name is normalized: nested entity names are preserved
//! for matching against external knowledge bases.

use crate::json::{JsonModel, JsonValue};
use crate::textutil::{
    chars_to_string, contains_sub, has_sub, is_space, is_upper, join_strings, join_with, lowered,
    matches_at, starts_with_sub, string_to_chars, to_lower,
};
use vstd::prelude::*;
use vstd::string::StringExecFns;

verus! {

// ---------------------------------------------------------------------------
// Entity names
// ---------------------------------------------------------------------------

/// What `slug::slugify` returns: a function of the characters alone.
pub uninterp spec fn slug_of(s: Seq<char>) -> Seq<char>;

/// A character the slug alphabet admits.
pub open spec fn slug_char(c: char) -> bool {
    ('a' <= c && c <= 'z') || ('0' <= c && c <= '9') || c == '-'
}

/// Relies on `slug::slugify`: transliterates to ASCII and joins words with
/// hyphens; the result depends on the characters alone, consists of `a-z`,
/// `0-9` and `-` only, and never starts or ends with `-` (both documented).
#[verifier::external_body]
fn slugify_str(s: &str) -> (r: String)
    ensures
        r@ == slug_of(s@),
        forall|i: int| 0 <= i < r@.len() ==> slug_char(#[trigger] r@[i]),
        r@.len() > 0 ==> r@[0] != '-' && r@[r@.len() - 1] != '-',
{
    slug::slugify(s)
}

/// A copy of `s` with every hyphen replaced by an underscore.
pub open spec fn underscored(s: Seq<char>) -> Seq<char> {
    s.map_values(|c: char| if c == '-' { '_' } else { c })
}

/// The normalized form of an entity name: its slug, with underscores.
pub open spec fn spec_normalize_entity_name(s: Seq<char>) -> Seq<char> {
    underscored(slug_of(s))
}

/// Normalize an entity name for consistent representation: the result
/// consists of lowercase letters, digits and underscores only, and never
/// holds a hyphen.
pub fn normalize_entity_name(name: &str) -> (r: String)
    ensures
        r@ == spec_normalize_entity_name(name@),
        forall|i: int|
            0 <= i < r@.len() ==> (('a' <= #[trigger] r@[i] && r@[i] <= 'z') || ('0' <= r@[i]
                && r@[i] <= '9') || r@[i] == '_'),
{
    let sl = slugify_str(name);
    let cs = string_to_chars(sl.as_str());
    let n: usize = cs.len();
    let mut out: Vec<char> = Vec::new();
    let mut i: usize = 0;
    while i < n
        invariant
            i <= n,
            n == cs@.len(),
            cs@ == slug_of(name@),
            out@.len() == i,
            forall|k: int|
                0 <= k < i ==> #[trigger] out@[k] == (if cs@[k] == '-' {
                    '_'
                } else {
                    cs@[k]
                }),
        decreases n - i,
    {
        if cs[i] == '-' {
            out.push('_');
        } else {
            out.push(cs[i]);
        }
        i += 1;
    }
    proof {
        assert(out@ =~= underscored(slug_of(name@)));
    }
    chars_to_string(&out)
}

// ---------------------------------------------------------------------------
// Predicates
// ---------------------------------------------------------------------------

/// What the English stemmer returns for a word: a function of the characters
/// alone.
pub uninterp spec fn stem_of(s: Seq<char>) -> Seq<char>;

/// Relies on `rust_stemmers::Stemmer` with the English algorithm: reduces a
/// word to its stem; the result depends on the characters alone.
#[verifier::external_body]
fn english_stem(word: &str) -> (r: String)
    ensures
        r@ == stem_of(word@),
{
    rust_stemmers::Stemmer::create(rust_stemmers::Algorithm::English).stem(word).into_owned()
}

/// The lowercase form of one character (ASCII range).
pub open spec fn lower_char(c: char) -> char {
    if c == 'A' {
        'a'
    } else if c == 'B' {
        'b'
    } else if c == 'C' {
        'c'
    } else if c == 'D' {
        'd'
    } else if c == 'E' {
        'e'
    } else if c == 'F' {
        'f'
    } else if c == 'G' {
        'g'
    } else if c == 'H' {
        'h'
    } else if c == 'I' {
        'i'
    } else if c == 'J' {
        'j'
    } else if c == 'K' {
        'k'
    } else if c == 'L' {
        'l'
    } else if c == 'M' {
        'm'
    } else if c == 'N' {
        'n'
    } else if c == 'O' {
        'o'
    } else if c == 'P' {
        'p'
    } else if c == 'Q' {
        'q'
    } else if c == 'R' {
        'r'
    } else if c == 'S' {
        's'
    } else if c == 'T' {
        't'
    } else if c == 'U' {
        'u'
    } else if c == 'V' {
        'v'
    } else if c == 'W' {
        'w'
    } else if c == 'X' {
        'x'
    } else if c == 'Y' {
        'y'
    } else if c == 'Z' {
        'z'
    } else {
        c
    }
}

/// Splitting a word run on uppercase boundaries, lowercasing as it goes:
/// the words collected after reading `s` from position `i` with the current
/// word `cur` and the finished words `acc`.
pub open spec fn split_camel_rec(s: Seq<char>, i: int, cur: Seq<char>, acc: Seq<Seq<char>>) -> Seq<
    Seq<char>,
>
    decreases s.len() - i,
    when 0 <= i <= s.len()
{
    if i >= s.len() {
        if cur.len() > 0 {
            acc.push(cur)
        } else {
            acc
        }
    } else if is_upper(s[i]) && cur.len() > 0 {
        split_camel_rec(s, i + 1, seq![lower_char(s[i])], acc.push(cur))
    } else {
        split_camel_rec(s, i + 1, cur.push(lower_char(s[i])), acc)
    }
}

/// The words of a camel-case name, lowercased.
pub open spec fn spec_split_camel(s: Seq<char>) -> Seq<Seq<char>> {
    split_camel_rec(s, 0, Seq::empty(), Seq::empty())
}

fn lower_char_exec(c: char) -> (r: char)
    ensures
        r == lower_char(c),
{
    if c == 'A' {
        'a'
    } else if c == 'B' {
        'b'
    } else if c == 'C' {
        'c'
    } else if c == 'D' {
        'd'
    } else if c == 'E' {
        'e'
    } else if c == 'F' {
        'f'
    } else if c == 'G' {
        'g'
    } else if c == 'H' {
        'h'
    } else if c == 'I' {
        'i'
    } else if c == 'J' {
        'j'
    } else if c == 'K' {
        'k'
    } else if c == 'L' {
        'l'
    } else if c == 'M' {
        'm'
    } else if c == 'N' {
        'n'
    } else if c == 'O' {
        'o'
    } else if c == 'P' {
        'p'
    } else if c == 'Q' {
        'q'
    } else if c == 'R' {
        'r'
    } else if c == 'S' {
        's'
    } else if c == 'T' {
        't'
    } else if c == 'U' {
        'u'
    } else if c == 'V' {
        'v'
    } else if c == 'W' {
        'w'
    } else if c == 'X' {
        'x'
    } else if c == 'Y' {
        'y'
    } else if c == 'Z' {
        'z'
    } else {
        c
    }
}

/// Split a camel-case name into its lowercased words.
pub fn split_camel_case(s: &str) -> (r: Vec<String>)
    ensures
        r@.map_values(|w: String| w@) == spec_split_camel(s@),
{
    let cs = string_to_chars(s);
    let n: usize = cs.len();
    let mut words: Vec<String> = Vec::new();
    let mut cur: Vec<char> = Vec::new();
    let mut i: usize = 0;
    proof {
        assert(cur@ =~= Seq::<char>::empty());
        assert(words@.map_values(|w: String| w@) =~= Seq::<Seq<char>>::empty());
    }
    while i < n
        invariant
            i <= n,
            n == cs@.len(),
            cs@ == s@,
            split_camel_rec(s@, i as int, cur@, words@.map_values(|w: String| w@))
                == spec_split_camel(s@),
        decreases n - i,
    {
        let c = cs[i];
        if ('A' <= c && c <= 'Z') && cur.len() > 0 {
            let ghost prev_words = words@.map_values(|w: String| w@);
            let ghost prev_cur = cur@;
            let finished = chars_to_string(&cur);
            words.push(finished);
            cur = Vec::new();
            cur.push(lower_char_exec(c));
            proof {
                assert(words@.map_values(|w: String| w@) =~= prev_words.push(prev_cur));
                assert(cur@ =~= seq![lower_char(s@[i as int])]);
            }
        } else {
            cur.push(lower_char_exec(c));
        }
        i += 1;
    }
    if cur.len() > 0 {
        let ghost prev_words = words@.map_values(|w: String| w@);
        let ghost prev_cur = cur@;
        let finished = chars_to_string(&cur);
        words.push(finished);
        proof {
            assert(words@.map_values(|w: String| w@) =~= prev_words.push(prev_cur));
        }
    }
    words
}

/// The normalized form of a predicate: stemmed, after lowercasing; a name
/// that still carries uppercase letters after lowercasing is split on those
/// boundaries and each word stemmed.
pub open spec fn spec_normalize_predicate(p: Seq<char>) -> Seq<char> {
    let n = lowered(p);
    if exists|i: int| 0 <= i < n.len() && is_upper(#[trigger] n[i]) {
        join_with(spec_split_camel(n).map_values(|w: Seq<char>| stem_of(w)), "_"@)
    } else {
        stem_of(n)
    }
}

/// Normalize a predicate or relation name by stemming.
pub fn normalize_predicate(predicate: &str) -> (r: String)
    ensures
        r@ == spec_normalize_predicate(predicate@),
{
    let normalized = to_lower(predicate);
    let cs = string_to_chars(normalized.as_str());
    let n: usize = cs.len();
    let mut has_upper = false;
    let mut i: usize = 0;
    while i < n
        invariant
            i <= n,
            n == cs@.len(),
            cs@ == lowered(predicate@),
            has_upper <==> exists|k: int| 0 <= k < i && is_upper(#[trigger] cs@[k]),
        decreases n - i,
    {
        if 'A' <= cs[i] && cs[i] <= 'Z' {
            has_upper = true;
        }
        i += 1;
    }
    if has_upper {
        let words = split_camel_case(normalized.as_str());
        let m: usize = words.len();
        let mut stems: Vec<String> = Vec::new();
        let mut k: usize = 0;
        while k < m
            invariant
                k <= m,
                m == words@.len(),
                stems@.len() == k,
                forall|j: int|
                    0 <= j < k ==> (#[trigger] stems@[j])@ == stem_of(words@[j]@),
            decreases m - k,
        {
            stems.push(english_stem(words[k].as_str()));
            k += 1;
        }
        let joined = join_strings(&stems, "_");
        proof {
            assert(stems@.map_values(|w: String| w@) =~= words@.map_values(
                |w: String| w@,
            ).map_values(|w: Seq<char>| stem_of(w)));
        }
        joined
    } else {
        english_stem(normalized.as_str())
    }
}

// ---------------------------------------------------------------------------
// Documents
// ---------------------------------------------------------------------------

/// Whether a bare string looks like a proper name worth normalizing: not a
/// URL, no hyphen, some whitespace, and some uppercase letter.
pub open spec fn eligible_name(s: Seq<char>) -> bool {
    &&& !matches_at(s, "http"@, 0)
    &&& !has_sub(s, "://"@)
    &&& !(exists|i: int| 0 <= i < s.len() && s[i] == '-')
    &&& (exists|i: int| 0 <= i < s.len() && is_space(#[trigger] s[i]))
    &&& (exists|i: int| 0 <= i < s.len() && is_upper(#[trigger] s[i]))
}

/// A structural key whose value is never descended into.
pub open spec fn reserved_key(k: Seq<char>) -> bool {
    k == "@context"@ || k == "@id"@ || k == "@type"@ || k == "name"@
}

/// The normalized form of a value's model.
pub open spec fn norm_model(m: JsonModel, is_root: bool) -> JsonModel
    decreases m,
{
    match m {
        JsonModel::Str(s) => JsonModel::Str(
            if eligible_name(s) {
                spec_normalize_entity_name(s)
            } else {
                s
            },
        ),
        JsonModel::Array(elems) => JsonModel::Array(norm_models(elems)),
        JsonModel::Object(fields) => JsonModel::Object(norm_fields(fields, is_root)),
        _ => m,
    }
}

/// The normalized forms of a sequence of models.
pub open spec fn norm_models(elems: Seq<JsonModel>) -> Seq<JsonModel>
    decreases elems,
{
    if elems.len() == 0 {
        Seq::empty()
    } else {
        seq![norm_model(elems[0], false)] + norm_models(elems.drop_first())
    }
}

/// The normalized form of one object field.
pub open spec fn norm_field(f: (Seq<char>, JsonModel), is_root: bool) -> (Seq<char>, JsonModel)
    decreases f,
{
    if is_root && f.0 == "name"@ && f.1 is Str {
        (f.0, JsonModel::Str(spec_normalize_entity_name(f.1->Str_0)))
    } else if reserved_key(f.0) {
        f
    } else {
        (f.0, norm_model(f.1, false))
    }
}

/// The normalized forms of an object's fields.
pub open spec fn norm_fields(fields: Seq<(Seq<char>, JsonModel)>, is_root: bool) -> Seq<
    (Seq<char>, JsonModel),
>
    decreases fields,
{
    if fields.len() == 0 {
        Seq::empty()
    } else {
        seq![norm_field(fields[0], is_root)] + norm_fields(fields.drop_first(), is_root)
    }
}

pub broadcast proof fn lemma_norm_models(elems: Seq<JsonModel>)
    ensures
        (#[trigger] norm_models(elems)).len() == elems.len(),
        forall|i: int|
            0 <= i < elems.len() ==> #[trigger] norm_models(elems)[i] == norm_model(
                elems[i],
                false,
            ),
    decreases elems,
{
    if elems.len() > 0 {
        lemma_norm_models(elems.drop_first());
        assert forall|i: int| 0 <= i < elems.len() implies #[trigger] norm_models(elems)[i]
            == norm_model(elems[i], false) by {
            if i > 0 {
                assert(elems.drop_first()[i - 1] == elems[i]);
            }
        }
    }
}

pub broadcast proof fn lemma_norm_fields(fields: Seq<(Seq<char>, JsonModel)>, is_root: bool)
    ensures
        (#[trigger] norm_fields(fields, is_root)).len() == fields.len(),
        forall|i: int|
            0 <= i < fields.len() ==> #[trigger] norm_fields(fields, is_root)[i] == norm_field(
                fields[i],
                is_root,
            ),
    decreases fields,
{
    if fields.len() > 0 {
        lemma_norm_fields(fields.drop_first(), is_root);
        assert forall|i: int| 0 <= i < fields.len() implies #[trigger] norm_fields(
            fields,
            is_root,
        )[i] == norm_field(fields[i], is_root) by {
            if i > 0 {
                assert(fields.drop_first()[i - 1] == fields[i]);
            }
        }
    }
}

fn eligible_name_exec(cs: &Vec<char>) -> (r: bool)
    ensures
        r == eligible_name(cs@),
{
    let http = string_to_chars("http");
    let sep = string_to_chars("://");
    if starts_with_sub(cs, &http) {
        return false;
    }
    if contains_sub(cs, &sep) {
        return false;
    }
    let n: usize = cs.len();
    let mut has_hyphen = false;
    let mut has_ws = false;
    let mut has_up = false;
    let mut i: usize = 0;
    while i < n
        invariant
            i <= n,
            n == cs@.len(),
            has_hyphen <==> exists|k: int| 0 <= k < i && cs@[k] == '-',
            has_ws <==> exists|k: int| 0 <= k < i && is_space(#[trigger] cs@[k]),
            has_up <==> exists|k: int| 0 <= k < i && is_upper(#[trigger] cs@[k]),
        decreases n - i,
    {
        let c = cs[i];
        if c == '-' {
            has_hyphen = true;
        }
        if crate::textutil::char_is_space(c) {
            has_ws = true;
        }
        if 'A' <= c && c <= 'Z' {
            has_up = true;
        }
        i += 1;
    }
    !has_hyphen && has_ws && has_up
}

/// Normalize one value, treating it as the document root when `is_root`.
fn normalize_value(v: &JsonValue, is_root: bool) -> (r: JsonValue)
    ensures
        r.model() == norm_model(v.model(), is_root),
    decreases *v,
{
    match v {
        JsonValue::Null => JsonValue::Null,
        JsonValue::Bool(b) => JsonValue::Bool(*b),
        JsonValue::Number(s) => JsonValue::Number(s.clone()),
        JsonValue::Str(s) => {
            let cs = string_to_chars(s.as_str());
            if eligible_name_exec(&cs) {
                JsonValue::Str(normalize_entity_name(s.as_str()))
            } else {
                JsonValue::Str(s.clone())
            }
        },
        JsonValue::Array(elems) => {
            proof {
                crate::json::lemma_models_of(elems@);
            }
            let n: usize = elems.len();
            let mut out: Vec<JsonValue> = Vec::new();
            let mut i: usize = 0;
            while i < n
                invariant
                    i <= n,
                    n == elems@.len(),
                    *v is Array,
                    elems@ == v->Array_0@,
                    out@.len() == i,
                    forall|j: int|
                        0 <= j < i ==> (#[trigger] out@[j]).model() == norm_model(
                            elems@[j].model(),
                            false,
                        ),
                decreases n - i,
            {
                proof {
                    assert(decreases_to!(*v => v->Array_0));
                    assert(decreases_to!(v->Array_0 => v->Array_0@));
                    assert(decreases_to!(v->Array_0@ => v->Array_0@[i as int]));
                    assert(decreases_to!(*v => elems@[i as int]));
                }
                out.push(normalize_value(&elems[i], false));
                i += 1;
            }
            proof {
                crate::json::lemma_models_of(out@);
                crate::json::lemma_models_of(elems@);
                lemma_norm_models(crate::json::models_of(elems@));
                assert(crate::json::models_of(out@) =~= norm_models(
                    crate::json::models_of(elems@),
                ));
            }
            JsonValue::Array(out)
        },
        JsonValue::Object(fields) => {
            proof {
                crate::json::lemma_field_models_of(fields@);
            }
            let n: usize = fields.len();
            let mut out: Vec<(String, JsonValue)> = Vec::new();
            let mut i: usize = 0;
            while i < n
                invariant
                    i <= n,
                    n == fields@.len(),
                    *v is Object,
                    fields@ == v->Object_0@,
                    out@.len() == i,
                    forall|j: int|
                        0 <= j < i ==> ((#[trigger] out@[j]).0@, out@[j].1.model()) == norm_field(
                            (fields@[j].0@, fields@[j].1.model()),
                            is_root,
                        ),
                decreases n - i,
            {
                let key = fields[i].0.clone();
                let is_name = crate::textutil::str_eq(key.as_str(), "name");
                let reserved = crate::textutil::str_eq(key.as_str(), "@context")
                    || crate::textutil::str_eq(key.as_str(), "@id") || crate::textutil::str_eq(
                    key.as_str(),
                    "@type",
                ) || is_name;
                let newval: JsonValue = if is_root && is_name {
                    match &fields[i].1 {
                        JsonValue::Str(s) => JsonValue::Str(normalize_entity_name(s.as_str())),
                        _ => {
                            proof {
                                assert(decreases_to!(*v => v->Object_0));
                                assert(decreases_to!(v->Object_0 => v->Object_0@));
                                assert(decreases_to!(v->Object_0@ => v->Object_0@[i as int]));
                                assert(decreases_to!(fields@[i as int] => fields@[i as int].1));
                                assert(decreases_to!(*v => fields@[i as int].1));
                            }
                            fields[i].1.duplicate()
                        },
                    }
                } else if reserved {
                    fields[i].1.duplicate()
                } else {
                    proof {
                        assert(decreases_to!(*v => v->Object_0));
                        assert(decreases_to!(v->Object_0 => v->Object_0@));
                        assert(decreases_to!(v->Object_0@ => v->Object_0@[i as int]));
                        assert(decreases_to!(fields@[i as int] => fields@[i as int].1));
                        assert(decreases_to!(*v => fields@[i as int].1));
                    }
                    normalize_value(&fields[i].1, false)
                };
                out.push((key, newval));
                i += 1;
            }
            proof {
                crate::json::lemma_field_models_of(out@);
                crate::json::lemma_field_models_of(fields@);
                lemma_norm_fields(crate::json::field_models_of(fields@), is_root);
                assert(crate::json::field_models_of(out@) =~= norm_fields(
                    crate::json::field_models_of(fields@),
                    is_root,
                ));
            }
            JsonValue::Object(out)
        },
    }
}

/// Normalize a document in place: the root entity's name is slugged, bare
/// name-like strings elsewhere are slugged too, and values under structural
/// keys are preserved.
pub fn normalize_jsonld_value(value: &mut JsonValue)
    ensures
        final(value).model() == norm_model(old(value).model(), true),
{
    let out = normalize_value(value, true);
    *value = out;
}

} // verus!
