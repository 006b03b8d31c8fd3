//! Core document types: entities, provenance, and the extracted document.

use crate::error::Error;
use crate::json::{
    first_field, json_of, json_ok, json_text, lemma_first_field_at, obj_has, parse_json,
    put_field_model, JsonModel, JsonValue,
};
use crate::normalize::{norm_model, normalize_jsonld_value};
use crate::textutil::{dec_rep, str_eq, lowered, to_lower};
use vstd::prelude::*;
use vstd::string::StringExecFns;

verus! {

/// Entity types from the Schema.org ontology.
#[derive(Debug, PartialEq, Eq)]
pub enum EntityType {
    Person,
    Organization,
    EducationalOrganization,
    Place,
    Event,
    Country,
    Award,
    /// Any other type, by name.
    Custom(String),
}

/// The name under which an entity type is written.
pub open spec fn entity_type_name(t: EntityType) -> Seq<char> {
    match t {
        EntityType::Person => "Person"@,
        EntityType::Organization => "Organization"@,
        EntityType::EducationalOrganization => "EducationalOrganization"@,
        EntityType::Place => "Place"@,
        EntityType::Event => "Event"@,
        EntityType::Country => "Country"@,
        EntityType::Award => "Award"@,
        EntityType::Custom(s) => s@,
    }
}

/// Write an entity type as its Schema.org name.
pub fn serialize_entity_type(entity_type: &EntityType) -> (r: String)
    ensures
        r@ == entity_type_name(*entity_type),
{
    match entity_type {
        EntityType::Person => String::from_str("Person"),
        EntityType::Organization => String::from_str("Organization"),
        EntityType::EducationalOrganization => String::from_str("EducationalOrganization"),
        EntityType::Place => String::from_str("Place"),
        EntityType::Event => String::from_str("Event"),
        EntityType::Country => String::from_str("Country"),
        EntityType::Award => String::from_str("Award"),
        EntityType::Custom(s) => s.clone(),
    }
}

/// Map a recognizer's entity label to a Schema.org type; an unknown label is
/// kept as a custom type under its original spelling.
pub fn map_to_schema_type(label: &str) -> (r: EntityType)
    ensures
        ({
            let low = lowered(label@);
            if low == "person"@ {
                r == EntityType::Person
            } else if low == "organization"@ || low == "organisation"@ || low == "company"@ {
                r == EntityType::Organization
            } else if low == "place"@ || low == "location"@ || low == "city"@ || low
                == "country"@ {
                r == EntityType::Place
            } else if low == "event"@ {
                r == EntityType::Event
            } else {
                r is Custom && r->Custom_0@ == label@
            }
        }),
{
    let low = to_lower(label);
    if str_eq(low.as_str(), "person") {
        EntityType::Person
    } else if str_eq(low.as_str(), "organization") || str_eq(low.as_str(), "organisation")
        || str_eq(low.as_str(), "company") {
        EntityType::Organization
    } else if str_eq(low.as_str(), "place") || str_eq(low.as_str(), "location") || str_eq(
        low.as_str(),
        "city",
    ) || str_eq(low.as_str(), "country") {
        EntityType::Place
    } else if str_eq(low.as_str(), "event") {
        EntityType::Event
    } else {
        EntityType::Custom(String::from_str(label))
    }
}

/// An entity of the extracted graph.
pub struct RdfEntity {
    /// The entity's type.
    pub entity_type: EntityType,
    /// The entity's identifier, when known.
    pub id: Option<String>,
    /// The entity's name, when known.
    pub name: Option<String>,
    /// Further properties, keyed uniquely.
    pub properties: Vec<(String, JsonValue)>,
}

impl RdfEntity {
    /// Create a new entity of the given type.
    pub fn new(entity_type: EntityType) -> (r: Self)
        ensures
            r.entity_type == entity_type,
            r.id is None,
            r.name is None,
            r.properties@.len() == 0,
    {
        Self { entity_type, id: None, name: None, properties: Vec::new() }
    }

    /// Set the entity's identifier.
    pub fn with_id(self, id: &str) -> (r: Self)
        ensures
            r.entity_type == self.entity_type,
            r.id is Some && r.id->0@ == id@,
            r.name == self.name,
            r.properties == self.properties,
    {
        Self { id: Some(String::from_str(id)), ..self }
    }

    /// Set the entity's name.
    pub fn with_name(self, name: &str) -> (r: Self)
        ensures
            r.entity_type == self.entity_type,
            r.id == self.id,
            r.name is Some && r.name->0@ == name@,
            r.properties == self.properties,
    {
        Self { name: Some(String::from_str(name)), ..self }
    }

    /// Add a property.
    pub fn with_property(self, key: &str, value: JsonValue) -> (r: Self)
        ensures
            r.entity_type == self.entity_type,
            r.id == self.id,
            r.name == self.name,
            r.properties@.len() == self.properties@.len() + 1,
            r.properties@.take(self.properties@.len() as int) == self.properties@,
            r.properties@.last().0@ == key@,
            r.properties@.last().1 == value,
    {
        let mut s = self;
        s.properties.push((String::from_str(key), value));
        proof {
            assert(s.properties@.take(self.properties@.len() as int) =~= self.properties@);
        }
        s
    }

    /// The value of the first property with this key, if any.
    pub fn get_property(&self, key: &str) -> (r: Option<&JsonValue>)
        ensures
            match r {
                Some(v) => exists|i: int|
                    0 <= i < self.properties@.len() && (#[trigger] self.properties@[i]).0@ == key@
                        && *v == self.properties@[i].1,
                None => forall|i: int|
                    0 <= i < self.properties@.len() ==> (#[trigger] self.properties@[i]).0@ != key@,
            },
    {
        let n: usize = self.properties.len();
        let mut i: usize = 0;
        while i < n
            invariant
                i <= n,
                n == self.properties@.len(),
                forall|j: int| 0 <= j < i ==> (#[trigger] self.properties@[j]).0@ != key@,
            decreases n - i,
        {
            if str_eq(self.properties[i].0.as_str(), key) {
                return Some(&self.properties[i].1);
            }
            i += 1;
        }
        None
    }
}

/// Provenance metadata: where and how a result was derived. A confidence is
/// kept per-mille, as an integer from 0 to 1000.
#[derive(Debug)]
pub struct Provenance {
    /// Character offset range in the source document.
    pub text_span: Option<(usize, usize)>,
    /// Confidence per-mille for this extraction.
    pub confidence_milli: Option<u32>,
    /// Source chunk id, for multi-chunk documents.
    pub chunk_id: Option<usize>,
    /// Extraction method used.
    pub method: Option<String>,
    /// Source text that supports this extraction.
    pub source_text: Option<String>,
}

impl Provenance {
    /// A provenance record with nothing filled in.
    pub fn new() -> (r: Self)
        ensures
            r.text_span is None,
            r.confidence_milli is None,
            r.chunk_id is None,
            r.method is None,
            r.source_text is None,
    {
        Self {
            text_span: None,
            confidence_milli: None,
            chunk_id: None,
            method: None,
            source_text: None,
        }
    }

    /// Set the text span.
    pub fn with_text_span(self, start: usize, end: usize) -> (r: Self)
        ensures
            r == (Self { text_span: Some((start, end)), ..self }),
    {
        Self { text_span: Some((start, end)), ..self }
    }

    /// Set the confidence, per-mille.
    pub fn with_confidence_milli(self, confidence_milli: u32) -> (r: Self)
        ensures
            r == (Self { confidence_milli: Some(confidence_milli), ..self }),
    {
        Self { confidence_milli: Some(confidence_milli), ..self }
    }

    /// Set the chunk id.
    pub fn with_chunk_id(self, chunk_id: usize) -> (r: Self)
        ensures
            r == (Self { chunk_id: Some(chunk_id), ..self }),
    {
        Self { chunk_id: Some(chunk_id), ..self }
    }

    /// Set the extraction method.
    pub fn with_method(self, method: &str) -> (r: Self)
        ensures
            r.text_span == self.text_span,
            r.confidence_milli == self.confidence_milli,
            r.chunk_id == self.chunk_id,
            r.method is Some && r.method->0@ == method@,
            r.source_text == self.source_text,
    {
        Self { method: Some(String::from_str(method)), ..self }
    }

    /// Set the supporting source text.
    pub fn with_source_text(self, text: &str) -> (r: Self)
        ensures
            r.text_span == self.text_span,
            r.confidence_milli == self.confidence_milli,
            r.chunk_id == self.chunk_id,
            r.method == self.method,
            r.source_text is Some && r.source_text->0@ == text@,
    {
        Self { source_text: Some(String::from_str(text)), ..self }
    }
}

impl Default for Provenance {
    /// A provenance record with nothing filled in.
    fn default() -> (r: Self)
        ensures
            r.text_span is None && r.confidence_milli is None && r.chunk_id is None && r.method
                is None && r.source_text is None,
    {
        Provenance::new()
    }
}

/// The first field with key `k`, when it is textual.
pub open spec fn primary_text_field(m: JsonModel, k: Seq<char>) -> Option<Seq<char>> {
    if m is Object {
        match first_field(m->Object_0, k) {
            Some(JsonModel::Str(s)) => Some(s),
            _ => None,
        }
    } else {
        None
    }
}

/// A document value with the built-in context put in: an object gets its
/// first `@context` field replaced (or one appended); any other value stays.
pub open spec fn injected_model(m: JsonModel) -> JsonModel {
    if m is Object {
        JsonModel::Object(
            put_field_model(m->Object_0, "@context"@, JsonModel::Str("https://schema.org/"@)),
        )
    } else {
        m
    }
}

/// The context value injected to keep identifiers on the Schema.org
/// vocabulary.
pub fn hardcoded_context() -> (r: JsonValue)
    ensures
        r.model() == JsonModel::Str("https://schema.org/"@),
{
    JsonValue::Str(String::from_str("https://schema.org/"))
}

/// The first field of `v` under `key`, when it is textual.
fn first_text<'a>(v: &'a JsonValue, key: &str) -> (r: Option<&'a str>)
    ensures
        match r {
            Some(t) => primary_text_field(v.model(), key@) == Some(t@),
            None => primary_text_field(v.model(), key@) is None,
        },
{
    match v.get_field(key) {
        Some(f) => {
            let ghost fs = v.spec_fields();
            proof {
                let i = choose|i: int|
                    {
                        &&& 0 <= i < fs.len()
                        &&& (#[trigger] fs[i]).0 == key@
                        &&& f.model() == fs[i].1
                        &&& forall|j: int| 0 <= j < i ==> (#[trigger] fs[j]).0 != key@
                    };
                lemma_first_field_at(fs, key@, i);
            }
            match f.as_text() {
                Some(s) => Some(s.as_str()),
                None => None,
            }
        },
        None => {
            proof {
                if v.model() is Object {
                    assert(forall|x: int|
                        0 <= x < v.spec_fields().len() ==> (#[trigger] v.spec_fields()[x]).0
                            != key@);
                    lemma_first_field_at(v.spec_fields(), key@, v.spec_fields().len() as int);
                }
            }
            None
        },
    }
}

/// An extracted document: a JSON-LD value with its context pulled out, plus
/// optional provenance.
#[derive(Debug)]
pub struct RdfDocument {
    /// The value of the document's `@context`.
    pub context: JsonValue,
    /// The whole document value, `@context` included.
    pub data: JsonValue,
    /// Optional provenance metadata.
    pub provenance: Option<Provenance>,
}

impl RdfDocument {
    /// The document value a well-formed source value turns into: the
    /// normalized form of the value.
    pub open spec fn normalized_of(m: JsonModel) -> JsonModel {
        norm_model(m, true)
    }

    /// A source value is accepted if and only if it is an object carrying an
    /// `@context` field (checked after normalization).
    pub open spec fn accepts(m: JsonModel) -> bool {
        &&& m is Object
        &&& Self::normalized_of(m) is Object
        &&& obj_has(Self::normalized_of(m)->Object_0, "@context"@)
    }

    /// Create a document from a value. The value is normalized; it must be an
    /// object and must carry an `@context` field.
    pub fn from_value(value: JsonValue) -> (r: Result<Self, Error>)
        ensures
            match r {
                Ok(doc) => {
                    &&& Self::accepts(value.model())
                    &&& doc.data.model() == Self::normalized_of(value.model())
                    &&& doc.provenance is None
                    &&& Some(doc.context.model()) == first_field(
                        doc.data.spec_fields(),
                        "@context"@,
                    )
                },
                Err(e) => {
                    &&& !Self::accepts(value.model())
                    &&& (!(value.model() is Object) <==> e is InvalidRdf)
                    &&& (value.model() is Object && !Self::accepts(value.model()) ==> e
                        is MissingField)
                },
            },
    {
        let mut value = value;
        if !value.is_obj() {
            return Err(Error::InvalidRdf(String::from_str("RDF document must be a JSON object")));
        }
        let ghost pre = value.model();
        normalize_jsonld_value(&mut value);
        proof {
            assert(value.model() is Object);
        }
        let context = match value.get_field("@context") {
            Some(c) => {
                proof {
                    let fs = value.spec_fields();
                    let i = choose|i: int|
                        {
                            &&& 0 <= i < fs.len()
                            &&& (#[trigger] fs[i]).0 == "@context"@
                            &&& c.model() == fs[i].1
                            &&& forall|j: int| 0 <= j < i ==> (#[trigger] fs[j]).0 != "@context"@
                        };
                    lemma_first_field_at(fs, "@context"@, i);
                }
                c.duplicate()
            },
            None => {
                return Err(Error::MissingField(String::from_str("@context")));
            },
        };
        Ok(Self { context, data: value, provenance: None })
    }

    /// Create a document from JSON text. The text must parse, and the parsed
    /// value must be accepted by `from_value`.
    pub fn from_json(json: &str) -> (r: Result<Self, Error>)
        ensures
            match r {
                Ok(doc) => {
                    &&& json_ok(json@)
                    &&& Self::accepts(json_of(json@))
                    &&& doc.data.model() == Self::normalized_of(json_of(json@))
                    &&& Some(doc.context.model()) == first_field(
                        doc.data.spec_fields(),
                        "@context"@,
                    )
                    &&& doc.provenance is None
                },
                Err(e) => {
                    &&& (!json_ok(json@) <==> e is JsonParse)
                    &&& (json_ok(json@) ==> !Self::accepts(json_of(json@)))
                },
            },
    {
        match parse_json(json) {
            Ok(v) => {
                match Self::from_value(v) {
                    Ok(doc) => Ok(doc),
                    Err(e) => Err(e),
                }
            },
            Err(msg) => Err(Error::JsonParse(msg)),
        }
    }

    /// Whether this document passes the basic structural checks: `@context`
    /// not null, and, when the document is an object, an `@type` present.
    pub open spec fn spec_valid(self) -> bool {
        &&& !(self.context.model() is Null)
        &&& (self.data.model() is Object ==> obj_has(self.data.spec_fields(), "@type"@))
    }

    /// Validate the document structure: the `@context` must not be null, and
    /// an object document must carry an `@type`.
    pub fn validate(&self) -> (r: Result<(), Error>)
        ensures
            r is Ok <==> self.spec_valid(),
            r is Err ==> r->Err_0 is Validation,
    {
        if self.context.is_null_value() {
            return Err(Error::Validation(String::from_str("Missing or null @context field")));
        }
        if self.data.is_obj() {
            match self.data.get_field("@type") {
                Some(_) => Ok(()),
                None => Err(Error::Validation(String::from_str("Missing @type field"))),
            }
        } else {
            Ok(())
        }
    }

    /// Serialize the document to JSON text.
    pub fn to_json(&self) -> (r: String)
        ensures
            r@ == json_text(self.data.model()),
    {
        crate::json::to_json_text(&self.data)
    }

    /// The document's `@type`, when it is an object that has a textual one.
    pub fn get_type(&self) -> (r: Option<&str>)
        ensures
            match r {
                Some(t) => primary_text_field(self.data.model(), "@type"@) == Some(t@),
                None => primary_text_field(self.data.model(), "@type"@) is None,
            },
    {
        first_text(&self.data, "@type")
    }

    /// The document's `@id`, when it is an object that has a textual one.
    pub fn get_id(&self) -> (r: Option<&str>)
        ensures
            match r {
                Some(t) => primary_text_field(self.data.model(), "@id"@) == Some(t@),
                None => primary_text_field(self.data.model(), "@id"@) is None,
            },
    {
        first_text(&self.data, "@id")
    }

    /// The document's `name`, when it is an object that has a textual one.
    pub fn get_name(&self) -> (r: Option<&str>)
        ensures
            match r {
                Some(t) => primary_text_field(self.data.model(), "name"@) == Some(t@),
                None => primary_text_field(self.data.model(), "name"@) is None,
            },
    {
        first_text(&self.data, "name")
    }

    /// The value of a top-level field, if any.
    pub fn get<'a>(&'a self, key: &str) -> (r: Option<&'a JsonValue>)
        ensures
            match r {
                Some(v) => exists|i: int|
                    {
                        &&& 0 <= i < self.data.spec_fields().len()
                        &&& (#[trigger] self.data.spec_fields()[i]).0 == key@
                        &&& v.model() == self.data.spec_fields()[i].1
                        &&& forall|j: int|
                            0 <= j < i ==> (#[trigger] self.data.spec_fields()[j]).0 != key@
                    },
                None => !self.data.has_key(key@),
            },
    {
        self.data.get_field(key)
    }

    /// Set the document's `@id` to a canonical URI. A no-op when the document
    /// is not an object.
    pub fn enrich_with_uri(&mut self, uri: &str)
        ensures
            !(old(self).data.model() is Object) ==> final(self).data.model() == old(
                self,
            ).data.model(),
            old(self).data.model() is Object ==> final(self).data.model() is Object,
            final(self).context == old(self).context,
            final(self).provenance == old(self).provenance,
            old(self).data.model() is Object && !obj_has(old(self).data.spec_fields(), "@id"@)
                ==> final(self).data.spec_fields() == old(self).data.spec_fields().push(
                ("@id"@, JsonModel::Str(uri@)),
            ),
            old(self).data.model() is Object && obj_has(old(self).data.spec_fields(), "@id"@)
                ==> exists|i: int|
                {
                    &&& 0 <= i < old(self).data.spec_fields().len()
                    &&& (#[trigger] old(self).data.spec_fields()[i]).0 == "@id"@
                    &&& final(self).data.spec_fields() == old(self).data.spec_fields().update(
                        i,
                        ("@id"@, JsonModel::Str(uri@)),
                    )
                },
    {
        self.data.set_field("@id", JsonValue::Str(String::from_str(uri)));
    }

    /// Attach provenance metadata to this document.
    pub fn set_provenance(&mut self, provenance: Provenance)
        ensures
            final(self).provenance == Some(provenance),
            final(self).context == old(self).context,
            final(self).data == old(self).data,
    {
        self.provenance = Some(provenance);
    }

    /// The document's provenance metadata, if any.
    pub fn get_provenance(&self) -> (r: Option<&Provenance>)
        ensures
            match r {
                Some(p) => self.provenance is Some && *p == self.provenance->0,
                None => self.provenance is None,
            },
    {
        match &self.provenance {
            Some(p) => Some(p),
            None => None,
        }
    }

    /// Serialize the document with its provenance under a `_provenance`
    /// field; without provenance this is `to_json`.
    pub fn to_json_with_provenance(&self) -> (r: String)
        ensures
            self.provenance is None ==> r@ == json_text(self.data.model()),
            self.provenance is Some && self.data.model() is Object ==> r@.len()
                > 0,
    {
        match &self.provenance {
            Some(prov) => {
                let mut out = self.data.duplicate();
                let mut fields: Vec<(String, JsonValue)> = Vec::new();
                match &prov.text_span {
                    Some(span) => {
                        let mut span_fields: Vec<(String, JsonValue)> = Vec::new();
                        span_fields.push(
                            (
                                String::from_str("start"),
                                JsonValue::Number(crate::textutil::usize_to_string(span.0)),
                            ),
                        );
                        span_fields.push(
                            (
                                String::from_str("end"),
                                JsonValue::Number(crate::textutil::usize_to_string(span.1)),
                            ),
                        );
                        fields.push(
                            (String::from_str("textSpan"), JsonValue::Object(span_fields)),
                        );
                    },
                    None => {},
                }
                match &prov.confidence_milli {
                    Some(c) => {
                        fields.push(
                            (
                                String::from_str("confidenceMilli"),
                                JsonValue::Number(crate::textutil::usize_to_string(*c as usize)),
                            ),
                        );
                    },
                    None => {},
                }
                match &prov.chunk_id {
                    Some(c) => {
                        fields.push(
                            (
                                String::from_str("chunkId"),
                                JsonValue::Number(crate::textutil::usize_to_string(*c)),
                            ),
                        );
                    },
                    None => {},
                }
                match &prov.method {
                    Some(m) => {
                        fields.push((String::from_str("method"), JsonValue::Str(m.clone())));
                    },
                    None => {},
                }
                match &prov.source_text {
                    Some(t) => {
                        fields.push((String::from_str("sourceText"), JsonValue::Str(t.clone())));
                    },
                    None => {},
                }
                if fields.len() > 0 {
                    out.set_field("_provenance", JsonValue::Object(fields));
                }
                let r = crate::json::to_json_text(&out);
                proof {
                    if self.data.model() is Object {
                        reveal_strlit("{");
                        assert(out.model() is Object);
                        assert(r@.len() > 0);
                    }
                }
                r
            },
            None => crate::json::to_json_text(&self.data),
        }
    }

    /// Replace the document's `@context`, both the pulled-out copy and the
    /// field inside the document value, with the built-in context.
    pub fn inject_hardcoded_context(&mut self)
        ensures
            final(self).context.model() == JsonModel::Str("https://schema.org/"@),
            final(self).provenance == old(self).provenance,
            final(self).data.model() == injected_model(old(self).data.model()),
    {
        self.context = hardcoded_context();
        let ctx = hardcoded_context();
        self.data.set_field("@context", ctx);
    }

    /// Create a document from JSON text and replace its context with the
    /// built-in one.
    pub fn from_json_with_injected_context(json: &str) -> (r: Result<Self, Error>)
        ensures
            r is Ok ==> {
                &&& json_ok(json@)
                &&& Self::accepts(json_of(json@))
                &&& r->Ok_0.context.model() == JsonModel::Str("https://schema.org/"@)
            },
            r is Err ==> (!json_ok(json@) <==> r->Err_0 is JsonParse),
    {
        match Self::from_json(json) {
            Ok(mut doc) => {
                doc.inject_hardcoded_context();
                Ok(doc)
            },
            Err(e) => Err(e),
        }
    }
}

} // verus!
