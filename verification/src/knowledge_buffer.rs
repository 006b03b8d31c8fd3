//! Per-document registry of the entities discovered so far.
//!
//! The registry is keyed case-insensitively: the key of a record is the
//! lowercase form of its canonical name, and the canonical name keeps the
//! casing of the first sighting. Keys are unique, an alias list never holds
//! duplicates and never holds the record's own key, and records are only
//! added or enriched, never removed, until `clear` starts a new document.

use crate::textutil::{join_strings, join_with, lowered, str_eq, to_lower};
use vstd::string::StringExecFns;
use vstd::prelude::*;

verus! {

/// Context information about an entity discovered in the document.
pub struct EntityContext {
    /// Canonical name of the entity (first-seen surface form, case kept).
    pub canonical_name: String,
    /// Entity type (Person, Organization, Place, ...).
    pub entity_type: String,
    /// Character offset where the entity was first mentioned.
    pub first_mention_offset: usize,
    /// Alternative lowercase names for this entity.
    pub aliases: Vec<String>,
    /// Properties discovered about this entity, keyed uniquely.
    pub properties: Vec<(String, String)>,
    /// Chunk id where the entity was first discovered.
    pub first_chunk_id: usize,
}

/// The registry key of a record: the lowercase form of its canonical name.
pub open spec fn key_of(e: EntityContext) -> Seq<char> {
    lowered(e.canonical_name@)
}

/// The record's alias list holds `a`.
pub open spec fn has_alias(e: EntityContext, a: Seq<char>) -> bool {
    exists|i: int| 0 <= i < e.aliases@.len() && (#[trigger] e.aliases@[i])@ == a
}

/// The record's property list binds key `k`.
pub open spec fn has_prop(e: EntityContext, k: Seq<char>) -> bool {
    exists|i: int| 0 <= i < e.properties@.len() && (#[trigger] e.properties@[i]).0@ == k
}

/// A record is internally consistent: aliases are pairwise distinct and none
/// of them equals the record's own key; property keys are pairwise distinct.
pub open spec fn entry_inv(e: EntityContext) -> bool {
    &&& forall|a: int, b: int|
        0 <= a < b < e.aliases@.len() ==> (#[trigger] e.aliases@[a])@ != (#[trigger] e.aliases@[b])@
    &&& forall|a: int| 0 <= a < e.aliases@.len() ==> (#[trigger] e.aliases@[a])@ != key_of(e)
    &&& forall|a: int, b: int|
        0 <= a < b < e.properties@.len() ==> (#[trigger] e.properties@[a]).0@ != (
        #[trigger] e.properties@[b]).0@
}


/// One formatted property: `key: value`.
pub open spec fn fmt_prop(p: (String, String)) -> Seq<char> {
    p.0@ + ": "@ + p.1@
}

/// The alias clause of a summary line, empty when there are no aliases.
pub open spec fn alias_part(e: EntityContext) -> Seq<char> {
    if e.aliases@.len() == 0 {
        Seq::empty()
    } else {
        " [also called: "@ + join_with(e.aliases@.map_values(|s: String| s@), ", "@) + "]"@
    }
}

/// The property clause of a summary line, empty when there are no properties.
pub open spec fn props_part(e: EntityContext) -> Seq<char> {
    if e.properties@.len() == 0 {
        Seq::empty()
    } else {
        " ["@ + join_with(e.properties@.map_values(|p: (String, String)| fmt_prop(p)), ", "@)
            + "]"@
    }
}

/// The summary line of one record.
pub open spec fn line_of(e: EntityContext) -> Seq<char> {
    "- "@ + e.canonical_name@ + " ("@ + e.entity_type@ + ")"@ + alias_part(e) + props_part(e)
        + "\n"@
}

/// The summary lines of the first `n` records.
pub open spec fn lines_upto(entries: Seq<EntityContext>, n: int) -> Seq<char>
    decreases n,
{
    if n <= 0 {
        Seq::empty()
    } else {
        lines_upto(entries, n - 1) + line_of(entries[n - 1])
    }
}

/// The whole context summary: empty for an empty registry, else a header
/// followed by one line per record, in registry order.
pub open spec fn summary_of(entries: Seq<EntityContext>) -> Seq<char> {
    if entries.len() == 0 {
        Seq::empty()
    } else {
        "ENTITIES ALREADY DISCOVERED IN THIS DOCUMENT:\n"@ + lines_upto(
            entries,
            entries.len() as int,
        )
    }
}

/// The registry-wide laws: keys (the lowercase canonical names) are pairwise
/// distinct, and every record is internally consistent. Every constructor
/// and mutator of the registry ensures this of the state it leaves behind.
pub open spec fn registry_wf(entries: Seq<EntityContext>) -> bool {
    &&& forall|i: int, j: int|
        0 <= i < j < entries.len() ==> key_of(#[trigger] entries[i]) != key_of(
            #[trigger] entries[j],
        )
    &&& forall|i: int| 0 <= i < entries.len() ==> entry_inv(#[trigger] entries[i])
}

/// Tracks entities discovered across document chunks to maintain context.
pub struct KnowledgeBuffer {
    entities: Vec<EntityContext>,
}

impl KnowledgeBuffer {
    /// The records of the registry, in order of first sighting.
    pub closed spec fn entries(self) -> Seq<EntityContext> {
        self.entities@
    }

    #[verifier::type_invariant]
    spec fn inv(self) -> bool {
        registry_wf(self.entities@)
    }

    /// Some record of the registry has key `k`.
    pub open spec fn has_key(self, k: Seq<char>) -> bool {
        exists|j: int| 0 <= j < self.entries().len() && key_of(#[trigger] self.entries()[j]) == k
    }

    /// Create a new empty knowledge buffer.
    pub fn new() -> (kb: Self)
        ensures
            kb.entries().len() == 0,
            registry_wf(kb.entries()),
    {
        Self { entities: Vec::new() }
    }

    /// Index of the record with key `k`, if any.
    fn find_index(&self, k: &String) -> (r: Option<usize>)
        ensures
            match r {
                Some(i) => i < self.entries().len() && key_of(self.entries()[i as int]) == k@,
                None => !self.has_key(k@),
            },
    {
        let n: usize = self.entities.len();
        let mut i: usize = 0;
        while i < n
            invariant
                i <= n,
                n == self.entities@.len(),
                forall|j: int| 0 <= j < i ==> key_of(#[trigger] self.entities@[j]) != k@,
            decreases n - i,
        {
            let lk = to_lower(self.entities[i].canonical_name.as_str());
            if lk == *k {
                return Some(i);
            }
            i += 1;
        }
        None
    }

    /// Add an entity discovered in a chunk. The first occurrence wins as the
    /// canonical record; a later sighting under the same case-insensitive key
    /// is a no-op.
    pub fn add_entity(&mut self, name: &str, entity_type: &str, offset: usize, chunk_id: usize)
        ensures
            old(self).has_key(lowered(name@)) ==> final(self).entries() == old(self).entries(),
            !old(self).has_key(lowered(name@)) ==> {
                &&& final(self).entries().len() == old(self).entries().len() + 1
                &&& final(self).entries().take(old(self).entries().len() as int) == old(
                    self,
                ).entries()
                &&& final(self).entries().last().canonical_name@ == name@
                &&& final(self).entries().last().entity_type@ == entity_type@
                &&& final(self).entries().last().first_mention_offset == offset
                &&& final(self).entries().last().first_chunk_id == chunk_id
                &&& final(self).entries().last().aliases@.len() == 0
                &&& final(self).entries().last().properties@.len() == 0
            },
            registry_wf(final(self).entries()),
    {
        proof {
            use_type_invariant(&*self);
        }
        let lname = to_lower(name);
        match self.find_index(&lname) {
            Some(_) => {},
            None => {
                let record = EntityContext {
                    canonical_name: String::from_str(name),
                    entity_type: String::from_str(entity_type),
                    first_mention_offset: offset,
                    aliases: Vec::new(),
                    properties: Vec::new(),
                    first_chunk_id: chunk_id,
                };
                let mut ents: Vec<EntityContext> = Vec::new();
                core::mem::swap(&mut ents, &mut self.entities);
                ents.push(record);
                proof {
                    assert(forall|j: int|
                        0 <= j < ents@.len() - 1 ==> key_of(#[trigger] ents@[j]) != lowered(
                            name@,
                        ));
                }
                core::mem::swap(&mut ents, &mut self.entities);
                proof {
                    assert(self.entries().take(old(self).entries().len() as int) =~= old(
                        self,
                    ).entries());
                }
            },
        }
        proof {
            use_type_invariant(&*self);
        }
    }

    /// Register a lowercase alias for an entity named by its canonical name.
    /// Idempotent: skips when the alias equals the record's own key or is
    /// already present; a no-op when no record matches `canonical`.
    pub fn add_alias(&mut self, alias: &str, canonical: &str)
        ensures
            final(self).entries().len() == old(self).entries().len(),
            forall|j: int|
                0 <= j < old(self).entries().len() && key_of(#[trigger] old(self).entries()[j])
                    != lowered(canonical@) ==> final(self).entries()[j] == old(self).entries()[j],
            forall|j: int|
                0 <= j < old(self).entries().len() && key_of(#[trigger] old(self).entries()[j])
                    == lowered(canonical@) ==> {
                    let e = old(self).entries()[j];
                    let f = final(self).entries()[j];
                    &&& f.canonical_name == e.canonical_name
                    &&& f.entity_type == e.entity_type
                    &&& f.first_mention_offset == e.first_mention_offset
                    &&& f.first_chunk_id == e.first_chunk_id
                    &&& f.properties == e.properties
                    &&& (lowered(alias@) == key_of(e) || has_alias(e, lowered(alias@)) ==> f
                        == e)
                    &&& (lowered(alias@) != key_of(e) && !has_alias(e, lowered(alias@)) ==> {
                        &&& f.aliases@.len() == e.aliases@.len() + 1
                        &&& f.aliases@.take(e.aliases@.len() as int) == e.aliases@
                        &&& f.aliases@.last()@ == lowered(alias@)
                    })
                },
            registry_wf(final(self).entries()),
    {
        proof {
            use_type_invariant(&*self);
        }
        let ckey = to_lower(canonical);
        match self.find_index(&ckey) {
            Some(i) => {
                let alias_lower = to_lower(alias);
                if alias_lower == ckey {
                    proof {
                        use_type_invariant(&*self);
                    }
                    return ;
                }
                let mut present = false;
                let n: usize = self.entities[i].aliases.len();
                let mut a: usize = 0;
                while a < n
                    invariant
                        a <= n,
                        i < self.entities@.len(),
                        n == self.entities@[i as int].aliases@.len(),
                        present <==> exists|b: int|
                            0 <= b < a && (#[trigger] self.entities@[i as int].aliases@[b])@
                                == alias_lower@,
                        alias_lower@ == lowered(alias@),
                    decreases n - a,
                {
                    if self.entities[i].aliases[a] == alias_lower {
                        present = true;
                    }
                    a += 1;
                }
                if !present {
                    let mut ents: Vec<EntityContext> = Vec::new();
                    core::mem::swap(&mut ents, &mut self.entities);
                    let mut record = ents.remove(i);
                    let ghost old_record = record;
                    record.aliases.push(alias_lower);
                    ents.insert(i, record);
                    proof {
                        assert(entry_inv(ents@[i as int]));
                        assert(ents@ =~= old(self).entries().update(i as int, ents@[i as int]));
                    }
                    core::mem::swap(&mut ents, &mut self.entities);
                }
            },
            None => {},
        }
        proof {
            use_type_invariant(&*self);
        }
    }

    /// Add or replace a property on the entity named by `entity_name`.
    /// A no-op when no record matches.
    pub fn add_property(&mut self, entity_name: &str, property: &str, value: &str)
        ensures
            final(self).entries().len() == old(self).entries().len(),
            forall|j: int|
                0 <= j < old(self).entries().len() && key_of(#[trigger] old(self).entries()[j])
                    != lowered(entity_name@) ==> final(self).entries()[j] == old(self).entries()[j],
            forall|j: int|
                0 <= j < old(self).entries().len() && key_of(#[trigger] old(self).entries()[j])
                    == lowered(entity_name@) ==> {
                    let e = old(self).entries()[j];
                    let f = final(self).entries()[j];
                    &&& f.canonical_name == e.canonical_name
                    &&& f.entity_type == e.entity_type
                    &&& f.first_mention_offset == e.first_mention_offset
                    &&& f.first_chunk_id == e.first_chunk_id
                    &&& f.aliases == e.aliases
                    &&& (has_prop(e, property@) ==> {
                        &&& f.properties@.len() == e.properties@.len()
                        &&& exists|p: int|
                            0 <= p < e.properties@.len() && (#[trigger] e.properties@[p]).0@
                                == property@ && f.properties@ == e.properties@.update(
                                p,
                                f.properties@[p],
                            ) && f.properties@[p].0@ == property@ && f.properties@[p].1@
                                == value@
                    })
                    &&& (!has_prop(e, property@) ==> {
                        &&& f.properties@.len() == e.properties@.len() + 1
                        &&& f.properties@.take(e.properties@.len() as int) == e.properties@
                        &&& f.properties@.last().0@ == property@
                        &&& f.properties@.last().1@ == value@
                    })
                },
            registry_wf(final(self).entries()),
    {
        proof {
            use_type_invariant(&*self);
        }
        let ekey = to_lower(entity_name);
        match self.find_index(&ekey) {
            Some(i) => {
                let mut ents: Vec<EntityContext> = Vec::new();
                core::mem::swap(&mut ents, &mut self.entities);
                let mut record = ents.remove(i);
                let ghost old_record = record;
                let n: usize = record.properties.len();
                let mut p: usize = 0;
                let mut replaced = false;
                while p < n
                    invariant
                        p <= n,
                        n == record.properties@.len(),
                        !replaced ==> record == old_record,
                        !replaced ==> forall|b: int|
                            0 <= b < p ==> (#[trigger] record.properties@[b]).0@ != property@,
                        replaced ==> exists|b: int|
                            0 <= b < p && (#[trigger] old_record.properties@[b]).0@ == property@
                                && record.properties@ == old_record.properties@.update(
                                b,
                                record.properties@[b],
                            ) && record.properties@[b].0@ == property@ && record.properties@[
                                b].1@ == value@,
                        replaced ==> record.canonical_name == old_record.canonical_name
                            && record.entity_type == old_record.entity_type
                            && record.first_mention_offset == old_record.first_mention_offset
                            && record.first_chunk_id == old_record.first_chunk_id
                            && record.aliases == old_record.aliases,
                    decreases n - p,
                {
                    if !replaced && str_eq(record.properties[p].0.as_str(), property) {
                        let prop_pair = (String::from_str(property), String::from_str(value));
                        record.properties.set(p, prop_pair);
                        replaced = true;
                        proof {
                            assert(record.properties@ =~= old_record.properties@.update(
                                p as int,
                                record.properties@[p as int],
                            ));
                        }
                    }
                    p += 1;
                }
                if !replaced {
                    record.properties.push((String::from_str(property), String::from_str(value)));
                    proof {
                        assert(record.properties@.take(old_record.properties@.len() as int)
                            =~= old_record.properties@);
                    }
                }
                ents.insert(i, record);
                proof {
                    assert(entry_inv(ents@[i as int]));
                    assert(ents@ =~= old(self).entries().update(i as int, ents@[i as int]));
                }
                core::mem::swap(&mut ents, &mut self.entities);
            },
            None => {},
        }
        proof {
            use_type_invariant(&*self);
        }
    }

    /// The summary line of one record.
    fn summary_line(e: &EntityContext) -> (r: String)
        ensures
            r@ == line_of(*e),
    {
        let mut line = String::from_str("- ");
        line.append(e.canonical_name.as_str());
        line.append(" (");
        line.append(e.entity_type.as_str());
        line.append(")");
        if e.aliases.len() > 0 {
            line.append(" [also called: ");
            let joined = join_strings(&e.aliases, ", ");
            line.append(joined.as_str());
            line.append("]");
        }
        if e.properties.len() > 0 {
            let mut parts: Vec<String> = Vec::new();
            let m: usize = e.properties.len();
            let mut k: usize = 0;
            while k < m
                invariant
                    k <= m,
                    m == e.properties@.len(),
                    parts@.len() == k,
                    forall|b: int|
                        0 <= b < k ==> (#[trigger] parts@[b])@ == fmt_prop(e.properties@[b]),
                decreases m - k,
            {
                let mut part = String::from_str(e.properties[k].0.as_str());
                part.append(": ");
                part.append(e.properties[k].1.as_str());
                parts.push(part);
                k += 1;
            }
            line.append(" [");
            let joined = join_strings(&parts, ", ");
            proof {
                assert(parts@.map_values(|p: String| p@) =~= e.properties@.map_values(
                    |p: (String, String)| fmt_prop(p),
                ));
            }
            line.append(joined.as_str());
            line.append("]");
        }
        line.append("\n");
        proof {
            assert(line@ =~= line_of(*e));
        }
        line
    }

    /// A formatted block listing every tracked entity with its type, aliases
    /// and properties, for prompt injection. Empty for an empty registry.
    pub fn get_context_summary(&self) -> (r: String)
        ensures
            r@ == summary_of(self.entries()),
            self.entries().len() == 0 ==> r@.len() == 0,
    {
        let n: usize = self.entities.len();
        if n == 0 {
            return String::new();
        }
        let mut summary = String::from_str("ENTITIES ALREADY DISCOVERED IN THIS DOCUMENT:\n");
        let mut i: usize = 0;
        while i < n
            invariant
                i <= n,
                n == self.entities@.len(),
                summary@ == "ENTITIES ALREADY DISCOVERED IN THIS DOCUMENT:\n"@ + lines_upto(
                    self.entries(),
                    i as int,
                ),
            decreases n - i,
        {
            let line = Self::summary_line(&self.entities[i]);
            summary.append(line.as_str());
            proof {
                assert(summary@ =~= "ENTITIES ALREADY DISCOVERED IN THIS DOCUMENT:\n"@
                    + lines_upto(self.entries(), i + 1));
            }
            i += 1;
        }
        summary
    }

    /// Resolve a lowercase alias to the canonical name of the first record
    /// that carries it.
    pub fn resolve_alias(&self, text: &str) -> (r: Option<String>)
        ensures
            match r {
                Some(c) => exists|j: int|
                    0 <= j < self.entries().len() && has_alias(
                        #[trigger] self.entries()[j],
                        lowered(text@),
                    ) && c@ == self.entries()[j].canonical_name@ && forall|k: int|
                        0 <= k < j ==> !has_alias(#[trigger] self.entries()[k], lowered(text@)),
                None => forall|j: int|
                    0 <= j < self.entries().len() ==> !has_alias(
                        #[trigger] self.entries()[j],
                        lowered(text@),
                    ),
            },
    {
        let text_lower = to_lower(text);
        let n: usize = self.entities.len();
        let mut i: usize = 0;
        while i < n
            invariant
                i <= n,
                n == self.entities@.len(),
                text_lower@ == lowered(text@),
                forall|j: int|
                    0 <= j < i ==> !has_alias(#[trigger] self.entities@[j], lowered(text@)),
            decreases n - i,
        {
            let m: usize = self.entities[i].aliases.len();
            let mut a: usize = 0;
            while a < m
                invariant
                    a <= m,
                    i < n,
                    n == self.entities@.len(),
                    m == self.entities@[i as int].aliases@.len(),
                    text_lower@ == lowered(text@),
                    forall|b: int|
                        0 <= b < a ==> (#[trigger] self.entities@[i as int].aliases@[b])@
                            != lowered(text@),
                    forall|j: int|
                        0 <= j < i ==> !has_alias(#[trigger] self.entities@[j], lowered(text@)),
                decreases m - a,
            {
                if self.entities[i].aliases[a] == text_lower {
                    let c = self.entities[i].canonical_name.clone();
                    proof {
                        assert((self.entities@[i as int].aliases@[a as int])@ == lowered(text@));
                        assert(has_alias(self.entries()[i as int], lowered(text@)));
                        assert(0 <= (i as int) < self.entries().len() && has_alias(
                            self.entries()[i as int],
                            lowered(text@),
                        ) && c@ == self.entries()[i as int].canonical_name@ && forall|k: int|
                            0 <= k < i as int ==> !has_alias(
                                #[trigger] self.entries()[k],
                                lowered(text@),
                            ));
                    }
                    return Some(c);
                }
                a += 1;
            }
            i += 1;
        }
        None
    }

    /// Canonical name of the entity of the given type with the greatest
    /// first-seen offset; of equal offsets the later record wins.
    pub fn get_last_entity_of_type(&self, entity_type: &str) -> (r: Option<String>)
        ensures
            match r {
                Some(c) => exists|j: int|
                    {
                        &&& 0 <= j < self.entries().len()
                        &&& (#[trigger] self.entries()[j]).entity_type@ == entity_type@
                        &&& c@ == self.entries()[j].canonical_name@
                        &&& forall|k: int|
                            0 <= k < self.entries().len() && (#[trigger] self.entries()[k]).entity_type@
                                == entity_type@ ==> self.entries()[k].first_mention_offset
                                <= self.entries()[j].first_mention_offset
                        &&& forall|k: int|
                            j < k < self.entries().len() && (#[trigger] self.entries()[k]).entity_type@
                                == entity_type@ ==> self.entries()[k].first_mention_offset
                                < self.entries()[j].first_mention_offset
                    },
                None => forall|j: int|
                    0 <= j < self.entries().len() ==> (#[trigger] self.entries()[j]).entity_type@
                        != entity_type@,
            },
    {
        let n: usize = self.entities.len();
        let mut best: Option<usize> = None;
        let mut i: usize = 0;
        while i < n
            invariant
                i <= n,
                n == self.entities@.len(),
                match best {
                    Some(b) => {
                        &&& b < i
                        &&& self.entities@[b as int].entity_type@ == entity_type@
                        &&& forall|k: int|
                            0 <= k < i && (#[trigger] self.entities@[k]).entity_type@
                                == entity_type@ ==> self.entities@[k].first_mention_offset
                                <= self.entities@[b as int].first_mention_offset
                        &&& forall|k: int|
                            b < k < i && (#[trigger] self.entities@[k]).entity_type@
                                == entity_type@ ==> self.entities@[k].first_mention_offset
                                < self.entities@[b as int].first_mention_offset
                    },
                    None => forall|k: int|
                        0 <= k < i ==> (#[trigger] self.entities@[k]).entity_type@ != entity_type@,
                },
            decreases n - i,
        {
            if str_eq(self.entities[i].entity_type.as_str(), entity_type) {
                match best {
                    Some(b) => {
                        if self.entities[i].first_mention_offset
                            >= self.entities[b].first_mention_offset {
                            best = Some(i);
                        }
                    },
                    None => {
                        best = Some(i);
                    },
                }
            }
            i += 1;
        }
        match best {
            Some(b) => {
                let c = self.entities[b].canonical_name.clone();
                proof {
                    let j = b as int;
                    assert(0 <= j < self.entries().len() && (self.entries()[j]).entity_type@
                        == entity_type@ && c@ == self.entries()[j].canonical_name@);
                }
                Some(c)
            },
            None => None,
        }
    }

    /// Whether an entity with this (case-insensitive) name was discovered.
    pub fn has_entity(&self, name: &str) -> (r: bool)
        ensures
            r == self.has_key(lowered(name@)),
    {
        let lname = to_lower(name);
        match self.find_index(&lname) {
            Some(_) => true,
            None => false,
        }
    }

    /// All records of a specific type, in registry order.
    pub fn get_entities_of_type(&self, entity_type: &str) -> (r: Vec<&EntityContext>)
        ensures
            r@.map_values(|e: &EntityContext| *e) == self.entries().filter(
                |e: EntityContext| e.entity_type@ == entity_type@,
            ),
    {
        let n: usize = self.entities.len();
        let mut r: Vec<&EntityContext> = Vec::new();
        let mut i: usize = 0;
        while i < n
            invariant
                i <= n,
                n == self.entities@.len(),
                r@.map_values(|e: &EntityContext| *e) == self.entities@.take(i as int).filter(
                    |e: EntityContext| e.entity_type@ == entity_type@,
                ),
            decreases n - i,
        {
            let ghost prev = r@.map_values(|e: &EntityContext| *e);
            if str_eq(self.entities[i].entity_type.as_str(), entity_type) {
                r.push(&self.entities[i]);
            }
            proof {
                reveal_with_fuel(Seq::filter, 2);
                let taken = self.entities@.take(i + 1);
                assert(taken.drop_last() =~= self.entities@.take(i as int));
                assert(taken.last() == self.entities@[i as int]);
                if (self.entities@[i as int]).entity_type@ == entity_type@ {
                    assert(r@.map_values(|e: &EntityContext| *e) =~= prev.push(
                        self.entities@[i as int],
                    ));
                    assert(taken.filter(|e: EntityContext| e.entity_type@ == entity_type@)
                        =~= self.entities@.take(i as int).filter(
                        |e: EntityContext| e.entity_type@ == entity_type@,
                    ).push(self.entities@[i as int]));
                } else {
                    assert(taken.filter(|e: EntityContext| e.entity_type@ == entity_type@)
                        =~= self.entities@.take(i as int).filter(
                        |e: EntityContext| e.entity_type@ == entity_type@,
                    ));
                }
            }
            i += 1;
        }
        proof {
            assert(self.entities@.take(n as int) =~= self.entities@);
        }
        r
    }

    /// Total number of entities tracked.
    pub fn entity_count(&self) -> (r: usize)
        ensures
            r == self.entries().len(),
    {
        self.entities.len()
    }

    /// The record with this (case-insensitive) name, if any.
    pub fn get_entity(&self, name: &str) -> (r: Option<&EntityContext>)
        ensures
            match r {
                Some(e) => exists|j: int|
                    0 <= j < self.entries().len() && *e == self.entries()[j] && key_of(*e)
                        == lowered(name@),
                None => !self.has_key(lowered(name@)),
            },
    {
        let lname = to_lower(name);
        match self.find_index(&lname) {
            Some(i) => Some(&self.entities[i]),
            None => None,
        }
    }

    /// Forget all tracked entities, for starting a new document.
    pub fn clear(&mut self)
        ensures
            final(self).entries().len() == 0,
            registry_wf(final(self).entries()),
    {
        self.entities = Vec::new();
        proof {
            use_type_invariant(&*self);
        }
    }
}

/// Alias lookup is case-insensitive: two texts with one lowercase form are
/// held by exactly the same records. `resolve_alias` answers through
/// `lowered(text)` alone, so it resolves both texts alike.
pub proof fn lemma_alias_lookup_case_insensitive(e: EntityContext, a: Seq<char>, b: Seq<char>)
    requires
        lowered(a) == lowered(b),
    ensures
        has_alias(e, lowered(a)) == has_alias(e, lowered(b)),
{
}

impl Default for KnowledgeBuffer {
    /// An empty registry.
    fn default() -> (kb: Self)
        ensures
            kb.entries().len() == 0,
            registry_wf(kb.entries()),
    {
        KnowledgeBuffer::new()
    }
}

} // verus!
