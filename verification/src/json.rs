//! The library's own JSON value type.
//!
//! Documents move through the pipeline as `JsonValue` trees. A tree is
//! abstracted by its `JsonModel`, a ghost value over sequences, and every
//! contract in the library speaks of models. Parsing text into a tree is
//! delegated to an outside parser behind a trusted wrapper; serializing a
//! tree back to text is verified here, with the exact output pinned down by
//! `json_text`. A number is kept as its decimal lexeme, so a tree can be
//! carried and re-emitted without loss.

use crate::textutil::{chars_to_string, hex_char_of, string_to_chars};
use vstd::prelude::*;
use vstd::string::StrSliceExecFns;
use vstd::string::StringExecFns;

verus! {

/// A JSON value.
#[derive(Debug)]
pub enum JsonValue {
    /// The JSON `null`.
    Null,
    /// A boolean.
    Bool(bool),
    /// A number, kept as its decimal lexeme.
    Number(String),
    /// A string.
    Str(String),
    /// An ordered array of values.
    Array(Vec<JsonValue>),
    /// An object: an ordered list of key/value fields.
    Object(Vec<(String, JsonValue)>),
}

/// The mathematical shape of a JSON value: strings become character
/// sequences, arrays and objects become sequences.
pub enum JsonModel {
    Null,
    Bool(bool),
    Number(Seq<char>),
    Str(Seq<char>),
    Array(Seq<JsonModel>),
    Object(Seq<(Seq<char>, JsonModel)>),
}

/// The models of a sequence of values.
pub open spec fn models_of(elems: Seq<JsonValue>) -> Seq<JsonModel>
    decreases elems,
{
    if elems.len() == 0 {
        Seq::empty()
    } else {
        seq![elems[0].model()] + models_of(elems.drop_first())
    }
}

/// The models of a sequence of object fields.
pub open spec fn field_models_of(fields: Seq<(String, JsonValue)>) -> Seq<(Seq<char>, JsonModel)>
    decreases fields,
{
    if fields.len() == 0 {
        Seq::empty()
    } else {
        seq![(fields[0].0@, fields[0].1.model())] + field_models_of(fields.drop_first())
    }
}

pub broadcast proof fn lemma_models_of(elems: Seq<JsonValue>)
    ensures
        (#[trigger] models_of(elems)).len() == elems.len(),
        forall|i: int|
            0 <= i < elems.len() ==> #[trigger] models_of(elems)[i] == elems[i].model(),
    decreases elems,
{
    if elems.len() > 0 {
        lemma_models_of(elems.drop_first());
        assert forall|i: int| 0 <= i < elems.len() implies #[trigger] models_of(elems)[i]
            == elems[i].model() by {
            if i > 0 {
                assert(elems.drop_first()[i - 1] == elems[i]);
            }
        }
    }
}

pub broadcast proof fn lemma_field_models_of(fields: Seq<(String, JsonValue)>)
    ensures
        (#[trigger] field_models_of(fields)).len() == fields.len(),
        forall|i: int|
            0 <= i < fields.len() ==> #[trigger] field_models_of(fields)[i] == (fields[i].0@,
            fields[i].1.model()),
    decreases fields,
{
    if fields.len() > 0 {
        lemma_field_models_of(fields.drop_first());
        assert forall|i: int| 0 <= i < fields.len() implies #[trigger] field_models_of(fields)[i]
            == (fields[i].0@, fields[i].1.model()) by {
            if i > 0 {
                assert(fields.drop_first()[i - 1] == fields[i]);
            }
        }
    }
}

/// Some field of the list has key `k`.
pub open spec fn obj_has(fields: Seq<(Seq<char>, JsonModel)>, k: Seq<char>) -> bool {
    exists|i: int| 0 <= i < fields.len() && (#[trigger] fields[i]).0 == k
}

/// The value of the first field with key `k`, if any.
pub open spec fn first_field(fields: Seq<(Seq<char>, JsonModel)>, k: Seq<char>) -> Option<
    JsonModel,
>
    decreases fields.len(),
{
    if fields.len() == 0 {
        None
    } else if fields[0].0 == k {
        Some(fields[0].1)
    } else {
        first_field(fields.drop_first(), k)
    }
}

pub proof fn lemma_first_field_at(fields: Seq<(Seq<char>, JsonModel)>, k: Seq<char>, i: int)
    requires
        0 <= i <= fields.len(),
        forall|x: int| 0 <= x < i ==> (#[trigger] fields[x]).0 != k,
        i < fields.len() ==> fields[i].0 == k,
    ensures
        i < fields.len() ==> first_field(fields, k) == Some(fields[i].1),
        i == fields.len() ==> first_field(fields, k) is None,
    decreases fields.len(),
{
    if fields.len() > 0 {
        if i == 0 {
        } else {
            assert(fields[0].0 != k);
            lemma_first_field_at(fields.drop_first(), k, i - 1);
            assert forall|x: int| 0 <= x < i - 1 implies (#[trigger] fields.drop_first()[x]).0
                != k by {
                assert(fields.drop_first()[x] == fields[x + 1]);
            }
            if i < fields.len() {
                assert(fields.drop_first()[i - 1] == fields[i]);
            }
        }
    }
}

/// An object's fields with `k` set to `val`: the first field with that key
/// is replaced, or a new field is appended.
pub open spec fn put_field_model(
    fields: Seq<(Seq<char>, JsonModel)>,
    k: Seq<char>,
    val: JsonModel,
) -> Seq<(Seq<char>, JsonModel)>
    decreases fields.len(),
{
    if fields.len() == 0 {
        seq![(k, val)]
    } else if fields[0].0 == k {
        seq![(k, val)] + fields.drop_first()
    } else {
        seq![fields[0]] + put_field_model(fields.drop_first(), k, val)
    }
}

pub proof fn lemma_put_field_at(
    fields: Seq<(Seq<char>, JsonModel)>,
    k: Seq<char>,
    val: JsonModel,
    i: int,
)
    requires
        0 <= i <= fields.len(),
        forall|x: int| 0 <= x < i ==> (#[trigger] fields[x]).0 != k,
        i < fields.len() ==> fields[i].0 == k,
    ensures
        i < fields.len() ==> put_field_model(fields, k, val) =~= fields.update(i, (k, val)),
        i == fields.len() ==> put_field_model(fields, k, val) =~= fields.push((k, val)),
    decreases fields.len(),
{
    if fields.len() > 0 {
        if i == 0 {
            assert(put_field_model(fields, k, val) == seq![(k, val)] + fields.drop_first());
        } else {
            assert(fields[0].0 != k);
            lemma_put_field_at(fields.drop_first(), k, val, i - 1);
            assert forall|x: int| 0 <= x < i - 1 implies (#[trigger] fields.drop_first()[x]).0
                != k by {
                assert(fields.drop_first()[x] == fields[x + 1]);
            }
            if i < fields.len() {
                assert(fields.drop_first()[i - 1] == fields[i]);
                assert(fields.drop_first().update(i - 1, (k, val)) =~= fields.update(
                    i,
                    (k, val),
                ).drop_first());
            } else {
                assert(fields.drop_first().push((k, val)) =~= fields.push((k, val)).drop_first());
            }
        }
    }
}

impl JsonValue {
    /// The model of this value.
    pub open spec fn model(self) -> JsonModel
        decreases self,
    {
        match self {
            JsonValue::Null => JsonModel::Null,
            JsonValue::Bool(b) => JsonModel::Bool(b),
            JsonValue::Number(s) => JsonModel::Number(s@),
            JsonValue::Str(s) => JsonModel::Str(s@),
            JsonValue::Array(elems) => JsonModel::Array(models_of(elems@)),
            JsonValue::Object(fields) => JsonModel::Object(field_models_of(fields@)),
        }
    }

    /// The fields of an object, empty for any other value.
    pub open spec fn spec_fields(self) -> Seq<(Seq<char>, JsonModel)> {
        match self.model() {
            JsonModel::Object(fs) => fs,
            _ => Seq::empty(),
        }
    }

    /// An object holding a field with key `k`.
    pub open spec fn has_key(self, k: Seq<char>) -> bool {
        self.model() is Object && obj_has(self.spec_fields(), k)
    }

    /// Whether this value is an object, at runtime.
    pub fn is_obj(&self) -> (r: bool)
        ensures
            r == (self.model() is Object),
    {
        match self {
            JsonValue::Object(_) => true,
            _ => false,
        }
    }

    /// The value of the first field with the given key, if this is an object
    /// that has one.
    pub fn get_field<'a>(&'a self, key: &str) -> (r: Option<&'a JsonValue>)
        ensures
            match r {
                Some(v) => exists|i: int|
                    {
                        &&& 0 <= i < self.spec_fields().len()
                        &&& (#[trigger] self.spec_fields()[i]).0 == key@
                        &&& v.model() == self.spec_fields()[i].1
                        &&& forall|j: int|
                            0 <= j < i ==> (#[trigger] self.spec_fields()[j]).0 != key@
                    },
                None => !self.has_key(key@),
            },
    {
        match self {
            JsonValue::Object(fields) => {
                proof {
                    lemma_field_models_of(fields@);
                }
                let n: usize = fields.len();
                let mut i: usize = 0;
                while i < n
                    invariant
                        i <= n,
                        n == fields@.len(),
                        *self is Object,
                        fields@ == self->Object_0@,
                        self.spec_fields() == field_models_of(fields@),
                        self.spec_fields().len() == fields@.len(),
                        forall|j: int|
                            0 <= j < fields@.len() ==> #[trigger] self.spec_fields()[j] == (
                            fields@[j].0@, fields@[j].1.model()),
                        forall|j: int| 0 <= j < i ==> (#[trigger] self.spec_fields()[j]).0 != key@,
                    decreases n - i,
                {
                    if crate::textutil::str_eq(fields[i].0.as_str(), key) {
                        proof {
                            assert((self.spec_fields()[i as int]).0 == key@);
                            assert(fields@[i as int].1.model() == self.spec_fields()[i as int].1);
                        }
                        return Some(&fields[i].1);
                    }
                    i += 1;
                }
                None
            },
            _ => None,
        }
    }

    /// The characters of this value, when it is a string.
    pub fn as_text(&self) -> (r: Option<&String>)
        ensures
            match r {
                Some(s) => self.model() is Str && s@ == self.model()->Str_0,
                None => !(self.model() is Str),
            },
    {
        match self {
            JsonValue::Str(s) => Some(s),
            _ => None,
        }
    }

    /// The value is the JSON `null`.
    pub fn is_null_value(&self) -> (r: bool)
        ensures
            r == (self.model() is Null),
    {
        match self {
            JsonValue::Null => true,
            _ => false,
        }
    }

    /// A copy of this value with the same model.
    pub fn duplicate(&self) -> (r: JsonValue)
        ensures
            r.model() == self.model(),
        decreases *self,
    {
        match self {
            JsonValue::Null => JsonValue::Null,
            JsonValue::Bool(b) => JsonValue::Bool(*b),
            JsonValue::Number(s) => JsonValue::Number(s.clone()),
            JsonValue::Str(s) => JsonValue::Str(s.clone()),
            JsonValue::Array(elems) => {
                proof {
                    lemma_models_of(elems@);
                }
                let n: usize = elems.len();
                let mut out: Vec<JsonValue> = Vec::new();
                let mut i: usize = 0;
                while i < n
                    invariant
                        i <= n,
                        n == elems@.len(),
                        *self is Array,
                        elems@ == self->Array_0@,
                        out@.len() == i,
                        forall|j: int|
                            0 <= j < i ==> (#[trigger] out@[j]).model() == elems@[j].model(),
                    decreases n - i,
                {
                    proof {
                        assert(decreases_to!(*self => self->Array_0));
                        assert(decreases_to!(self->Array_0 => self->Array_0@));
                        assert(decreases_to!(self->Array_0@ => self->Array_0@[i as int]));
                        assert(decreases_to!(*self => elems@[i as int]));
                    }
                    out.push(elems[i].duplicate());
                    i += 1;
                }
                proof {
                    lemma_models_of(out@);
                    lemma_models_of(elems@);
                    assert forall|j: int| 0 <= j < n implies #[trigger] models_of(out@)[j]
                        == models_of(elems@)[j] by {
                        assert(models_of(out@)[j] == out@[j].model());
                        assert(models_of(elems@)[j] == elems@[j].model());
                    }
                    assert(models_of(out@) =~= models_of(elems@));
                }
                JsonValue::Array(out)
            },
            JsonValue::Object(fields) => {
                proof {
                    lemma_field_models_of(fields@);
                }
                let n: usize = fields.len();
                let mut out: Vec<(String, JsonValue)> = Vec::new();
                let mut i: usize = 0;
                while i < n
                    invariant
                        i <= n,
                        n == fields@.len(),
                        *self is Object,
                        fields@ == self->Object_0@,
                        out@.len() == i,
                        forall|j: int|
                            0 <= j < i ==> (#[trigger] out@[j]).0@ == fields@[j].0@ && out@[
                                j].1.model() == fields@[j].1.model(),
                    decreases n - i,
                {
                    proof {
                        assert(decreases_to!(*self => self->Object_0));
                        assert(decreases_to!(self->Object_0 => self->Object_0@));
                        assert(decreases_to!(self->Object_0@ => self->Object_0@[i as int]));
                        assert(decreases_to!(fields@[i as int] => fields@[i as int].1));
                        assert(decreases_to!(*self => fields@[i as int].1));
                    }
                    out.push((fields[i].0.clone(), fields[i].1.duplicate()));
                    i += 1;
                }
                proof {
                    lemma_field_models_of(out@);
                    lemma_field_models_of(fields@);
                    assert forall|j: int| 0 <= j < n implies #[trigger] field_models_of(out@)[j]
                        == field_models_of(fields@)[j] by {
                        assert(field_models_of(out@)[j] == (out@[j].0@, out@[j].1.model()));
                        assert(field_models_of(fields@)[j] == (fields@[j].0@,
                        fields@[j].1.model()));
                    }
                    assert(field_models_of(out@) =~= field_models_of(fields@));
                }
                JsonValue::Object(out)
            },
        }
    }

    /// Insert or replace a field on an object: the first field with this key
    /// gets the new value, or a new field is appended. Any other value stays
    /// unchanged.
    pub fn set_field(&mut self, key: &str, value: JsonValue)
        ensures
            !(old(self).model() is Object) ==> final(self).model() == old(self).model(),
            old(self).model() is Object ==> {
                let fs = old(self).spec_fields();
                let gs = final(self).spec_fields();
                &&& final(self).model() is Object
                &&& (obj_has(fs, key@) ==> {
                    &&& gs.len() == fs.len()
                    &&& exists|i: int|
                        {
                            &&& 0 <= i < fs.len()
                            &&& (#[trigger] fs[i]).0 == key@
                            &&& (forall|j: int| 0 <= j < i ==> (#[trigger] fs[j]).0 != key@)
                            &&& gs == fs.update(i, (key@, value.model()))
                        }
                })
                &&& (!obj_has(fs, key@) ==> gs == fs.push((key@, value.model())))
                &&& gs == put_field_model(fs, key@, value.model())
            },
    {
        match self {
            JsonValue::Object(fields) => {
                let n: usize = fields.len();
                let ghost fs = fields@;
                let mut idx: usize = n;
                let mut i: usize = 0;
                while i < n
                    invariant
                        i <= n,
                        n == fields@.len(),
                        fs == fields@,
                        idx == n || (idx < i && (#[trigger] fs[idx as int]).0@ == key@),
                        idx == n ==> forall|j: int| 0 <= j < i ==> (#[trigger] fs[j]).0@ != key@,
                        idx < n ==> forall|j: int| 0 <= j < idx ==> (#[trigger] fs[j]).0@ != key@,
                    decreases n - i,
                {
                    if idx == n && crate::textutil::str_eq(fields[i].0.as_str(), key) {
                        idx = i;
                    }
                    i += 1;
                }
                if idx < n {
                    let pair = (String::from_str(key), value);
                    fields.set(idx, pair);
                    proof {
                        lemma_field_models_of(fs);
                        lemma_field_models_of(fields@);
                        assert forall|j: int| 0 <= j < n implies #[trigger] field_models_of(
                            fields@,
                        )[j] == field_models_of(fs).update(idx as int, (key@, value.model()))[j] by {
                            assert(field_models_of(fields@)[j] == (fields@[j].0@,
                            fields@[j].1.model()));
                            assert(field_models_of(fs)[j] == (fs[j].0@, fs[j].1.model()));
                        }
                        assert(field_models_of(fields@) =~= field_models_of(fs).update(
                            idx as int,
                            (key@, value.model()),
                        ));
                        assert((field_models_of(fs)[idx as int]).0 == key@);
                        assert(obj_has(field_models_of(fs), key@));
                        assert forall|j: int| 0 <= j < idx implies (#[trigger] field_models_of(
                            fs,
                        )[j]).0 != key@ by {
                            assert(field_models_of(fs)[j] == (fs[j].0@, fs[j].1.model()));
                        }
                        lemma_put_field_at(field_models_of(fs), key@, value.model(), idx as int);
                    }
                } else {
                    fields.push((String::from_str(key), value));
                    proof {
                        lemma_field_models_of(fs);
                        lemma_field_models_of(fields@);
                        assert forall|j: int|
                            0 <= j < fields@.len() implies #[trigger] field_models_of(fields@)[j]
                            == field_models_of(fs).push((key@, value.model()))[j] by {
                            assert(field_models_of(fields@)[j] == (fields@[j].0@,
                            fields@[j].1.model()));
                            if j < fs.len() {
                                assert(field_models_of(fs)[j] == (fs[j].0@, fs[j].1.model()));
                            }
                        }
                        assert(field_models_of(fields@) =~= field_models_of(fs).push(
                            (key@, value.model()),
                        ));
                        assert forall|j: int| 0 <= j < fs.len() implies (#[trigger] field_models_of(
                            fs,
                        )[j]).0 != key@ by {
                            assert(field_models_of(fs)[j] == (fs[j].0@, fs[j].1.model()));
                        }
                        assert(!obj_has(field_models_of(fs), key@));
                        lemma_put_field_at(
                            field_models_of(fs),
                            key@,
                            value.model(),
                            field_models_of(fs).len() as int,
                        );
                    }
                }
            },
            _ => {},
        }
    }
}

// ---------------------------------------------------------------------------
// Serialization
// ---------------------------------------------------------------------------

/// How one character is written inside a JSON string literal.
pub open spec fn esc_char(c: char) -> Seq<char> {
    if c == '"' {
        seq!['\\', '"']
    } else if c == '\\' {
        seq!['\\', '\\']
    } else if c == '\n' {
        seq!['\\', 'n']
    } else if c == '\r' {
        seq!['\\', 'r']
    } else if c == '\t' {
        seq!['\\', 't']
    } else if (c as u32) < 32 {
        seq!['\\', 'u', '0', '0', hex_char_of(((c as u32) / 16) as nat), hex_char_of(
            ((c as u32) % 16) as nat,
        )]
    } else {
        seq![c]
    }
}

/// The escaped form of the first `i` characters of `s`.
pub open spec fn esc_upto(s: Seq<char>, i: int) -> Seq<char>
    decreases i,
{
    if i <= 0 {
        Seq::empty()
    } else {
        esc_upto(s, i - 1) + esc_char(s[i - 1])
    }
}

/// The escaped form of a whole string.
pub open spec fn json_escaped(s: Seq<char>) -> Seq<char> {
    esc_upto(s, s.len() as int)
}

/// The text of the first `i` array items, comma-separated.
pub open spec fn items_upto(elems: Seq<JsonModel>, i: int) -> Seq<char>
    decreases elems, i,
    when 0 <= i <= elems.len()
{
    if i <= 0 {
        Seq::empty()
    } else if i == 1 {
        json_text(elems[0])
    } else {
        items_upto(elems, i - 1) + ","@ + json_text(elems[i - 1])
    }
}

/// The text of the first `i` object fields, comma-separated.
pub open spec fn fields_upto(fields: Seq<(Seq<char>, JsonModel)>, i: int) -> Seq<char>
    decreases fields, i,
    when 0 <= i <= fields.len()
{
    if i <= 0 {
        Seq::empty()
    } else if i == 1 {
        field_text(fields[0])
    } else {
        fields_upto(fields, i - 1) + ","@ + field_text(fields[i - 1])
    }
}

/// The text of one object field.
pub open spec fn field_text(f: (Seq<char>, JsonModel)) -> Seq<char>
    decreases f,
{
    "\""@ + json_escaped(f.0) + "\":"@ + json_text(f.1)
}

/// The exact text that serializing a value produces.
pub open spec fn json_text(m: JsonModel) -> Seq<char>
    decreases m,
{
    match m {
        JsonModel::Null => "null"@,
        JsonModel::Bool(b) => if b {
            "true"@
        } else {
            "false"@
        },
        JsonModel::Number(s) => s,
        JsonModel::Str(s) => "\""@ + json_escaped(s) + "\""@,
        JsonModel::Array(elems) => "["@ + items_upto(elems, elems.len() as int) + "]"@,
        JsonModel::Object(fields) => "{"@ + fields_upto(fields, fields.len() as int) + "}"@,
    }
}

/// Append the characters of a string slice to a character buffer.
pub fn append_str_chars(out: &mut Vec<char>, s: &str)
    ensures
        final(out)@ == old(out)@ + s@,
{
    let n: usize = s.unicode_len();
    let mut i: usize = 0;
    while i < n
        invariant
            i <= n,
            n == s@.len(),
            out@ == old(out)@ + s@.subrange(0, i as int),
        decreases n - i,
    {
        out.push(s.get_char(i));
        proof {
            assert(out@ =~= old(out)@ + s@.subrange(0, i + 1));
        }
        i += 1;
    }
    proof {
        assert(old(out)@ + s@.subrange(0, n as int) =~= old(out)@ + s@);
    }
}

fn push_escaped_char(out: &mut Vec<char>, c: char)
    ensures
        final(out)@ == old(out)@ + esc_char(c),
{
    if c == '"' {
        out.push('\\');
        out.push('"');
    } else if c == '\\' {
        out.push('\\');
        out.push('\\');
    } else if c == '\n' {
        out.push('\\');
        out.push('n');
    } else if c == '\r' {
        out.push('\\');
        out.push('r');
    } else if c == '\t' {
        out.push('\\');
        out.push('t');
    } else if (c as u32) < 32 {
        let code: u32 = c as u32;
        out.push('\\');
        out.push('u');
        out.push('0');
        out.push('0');
        out.push(crate::textutil::hex_to_char((code / 16) as usize));
        out.push(crate::textutil::hex_to_char((code % 16) as usize));
    } else {
        out.push(c);
    }
    proof {
        assert(out@ =~= old(out)@ + esc_char(c));
    }
}

fn write_escaped(out: &mut Vec<char>, s: &str)
    ensures
        final(out)@ == old(out)@ + json_escaped(s@),
{
    let cs = string_to_chars(s);
    let n: usize = cs.len();
    let mut i: usize = 0;
    while i < n
        invariant
            i <= n,
            n == s@.len(),
            cs@ == s@,
            out@ == old(out)@ + esc_upto(s@, i as int),
        decreases n - i,
    {
        push_escaped_char(out, cs[i]);
        proof {
            assert(out@ =~= old(out)@ + esc_upto(s@, i + 1));
        }
        i += 1;
    }
}

/// Write a value as JSON text into a character buffer.
pub fn write_json(v: &JsonValue, out: &mut Vec<char>)
    ensures
        final(out)@ == old(out)@ + json_text(v.model()),
    decreases *v,
{
    match v {
        JsonValue::Null => {
            append_str_chars(out, "null");
        },
        JsonValue::Bool(b) => {
            if *b {
                append_str_chars(out, "true");
            } else {
                append_str_chars(out, "false");
            }
        },
        JsonValue::Number(s) => {
            append_str_chars(out, s.as_str());
        },
        JsonValue::Str(s) => {
            append_str_chars(out, "\"");
            write_escaped(out, s.as_str());
            append_str_chars(out, "\"");
            proof {
                assert(out@ =~= old(out)@ + json_text(v.model()));
            }
        },
        JsonValue::Array(elems) => {
            proof {
                lemma_models_of(elems@);
            }
            let ghost base = out@;
            let ghost ms = models_of(elems@);
            append_str_chars(out, "[");
            let n: usize = elems.len();
            let mut i: usize = 0;
            while i < n
                invariant
                    i <= n,
                    n == elems@.len(),
                    *v is Array,
                    elems@ == v->Array_0@,
                    ms == models_of(elems@),
                    ms.len() == n,
                    forall|j: int| 0 <= j < n ==> ms[j] == (#[trigger] elems@[j]).model(),
                    out@ == base + "["@ + items_upto(ms, i as int),
                decreases n - i,
            {
                if i > 0 {
                    append_str_chars(out, ",");
                }
                proof {
                    assert(decreases_to!(*v => v->Array_0));
                    assert(decreases_to!(v->Array_0 => v->Array_0@));
                    assert(decreases_to!(v->Array_0@ => v->Array_0@[i as int]));
                    assert(decreases_to!(*v => elems@[i as int]));
                }
                write_json(&elems[i], out);
                proof {
                    assert(out@ =~= base + "["@ + items_upto(ms, i + 1));
                }
                i += 1;
            }
            append_str_chars(out, "]");
            proof {
                assert(out@ =~= base + json_text(v.model()));
            }
        },
        JsonValue::Object(fields) => {
            proof {
                lemma_field_models_of(fields@);
            }
            let ghost base = out@;
            let ghost ms = field_models_of(fields@);
            append_str_chars(out, "{");
            let n: usize = fields.len();
            let mut i: usize = 0;
            while i < n
                invariant
                    i <= n,
                    n == fields@.len(),
                    *v is Object,
                    fields@ == v->Object_0@,
                    ms == field_models_of(fields@),
                    ms.len() == n,
                    forall|j: int|
                        0 <= j < n ==> ms[j] == ((#[trigger] fields@[j]).0@, fields@[j].1.model()),
                    out@ == base + "{"@ + fields_upto(ms, i as int),
                decreases n - i,
            {
                if i > 0 {
                    append_str_chars(out, ",");
                }
                append_str_chars(out, "\"");
                write_escaped(out, fields[i].0.as_str());
                append_str_chars(out, "\":");
                proof {
                    assert(decreases_to!(*v => v->Object_0));
                    assert(decreases_to!(v->Object_0 => v->Object_0@));
                    assert(decreases_to!(v->Object_0@ => v->Object_0@[i as int]));
                    assert(decreases_to!(fields@[i as int] => fields@[i as int].1));
                    assert(decreases_to!(*v => fields@[i as int].1));
                }
                write_json(&fields[i].1, out);
                proof {
                    assert(ms[i as int].0 == fields@[i as int].0@);
                    assert(ms[i as int].1 == fields@[i as int].1.model());
                    assert(field_text(ms[i as int]) == "\""@ + json_escaped(ms[i as int].0)
                        + "\":"@ + json_text(ms[i as int].1));
                    if i == 0 {
                        assert(fields_upto(ms, 1) == field_text(ms[0]));
                    } else {
                        assert(fields_upto(ms, i + 1) == fields_upto(ms, i as int) + ","@
                            + field_text(ms[i as int]));
                    }
                    assert(out@ =~= base + "{"@ + fields_upto(ms, i + 1));
                }
                i += 1;
            }
            append_str_chars(out, "}");
            proof {
                assert(out@ =~= base + json_text(v.model()));
            }
        },
    }
}

/// Serialize a value to JSON text.
pub fn to_json_text(v: &JsonValue) -> (r: String)
    ensures
        r@ == json_text(v.model()),
{
    let mut out: Vec<char> = Vec::new();
    write_json(v, &mut out);
    chars_to_string(&out)
}

// ---------------------------------------------------------------------------
// Parsing (delegated)
// ---------------------------------------------------------------------------

/// Whether a text parses as JSON: a function of the text alone.
pub uninterp spec fn json_ok(s: Seq<char>) -> bool;

/// The model of the value a JSON text parses to: a function of the text
/// alone.
pub uninterp spec fn json_of(s: Seq<char>) -> JsonModel;

/// Relies on `serde_json::from_str`: parses the text as JSON. Whether the
/// parse succeeds, and what value it yields, are functions of the text alone.
#[verifier::external_body]
pub fn parse_json(s: &str) -> (r: Result<JsonValue, String>)
    ensures
        r is Ok <==> json_ok(s@),
        r is Ok ==> r->Ok_0.model() == json_of(s@),
{
    match serde_json::from_str::<serde_json::Value>(s) {
        Ok(v) => Ok(from_serde(&v)),
        Err(e) => Err(e.to_string()),
    }
}

#[verifier::external_type_specification]
#[verifier::external_body]
pub struct ExSerdeValue(serde_json::Value);

/// Relies on `serde_json::Value`: carries each variant of the parsed value
/// over into the library's own representation, field by field.
#[verifier::external_body]
fn from_serde(v: &serde_json::Value) -> JsonValue {
    match v {
        serde_json::Value::Null => JsonValue::Null,
        serde_json::Value::Bool(b) => JsonValue::Bool(*b),
        serde_json::Value::Number(n) => JsonValue::Number(n.to_string()),
        serde_json::Value::String(s) => JsonValue::Str(s.clone()),
        serde_json::Value::Array(a) => JsonValue::Array(a.iter().map(from_serde).collect()),
        serde_json::Value::Object(m) => JsonValue::Object(
            m.iter().map(|(k, val)| (k.clone(), from_serde(val))).collect(),
        ),
    }
}

} // verus!
