//! Entity linking: mapping surface-form names to canonical URIs.
//!
//! The local strategy queries an embedded knowledge store, scores the
//! returned labels (an exact case-insensitive match scores 950 per-mille, a
//! containment match 700, a fuzzy match its raw similarity), discards
//! candidates below the configured thresholds, and either picks the best
//! survivor or asks an external text-completion capability to disambiguate.
//! The completion exchange itself happens outside this library: the linker
//! hands out the ranked candidates with a forced-choice prompt, and applies
//! the reply when it comes back.

use crate::error::Error;
use crate::textutil::{
    chars_to_string, dec_rep, is_digit, join_with, lowered, string_to_chars, to_lower,
    usize_to_string,
};
use vstd::prelude::*;
use vstd::string::StringExecFns;

verus! {

/// Strategy for entity linking.
#[derive(Debug, Clone, Copy, PartialEq, Eq, Structural)]
pub enum LinkingStrategy {
    /// Local knowledge-store lookup.
    Local,
    /// Remote annotation service.
    DbpediaSpotlight,
    /// Remote knowledge-base lookup (not implemented: always yields no link).
    Wikidata,
    /// Entity linking switched off.
    Disabled,
}

/// Configuration for entity linking. Thresholds are kept per-mille.
pub struct EntityLinkerConfig {
    /// Base URL of the linking service, for remote strategies.
    pub service_url: String,
    /// Minimum confidence threshold, per-mille.
    pub confidence_threshold_milli: u32,
    /// Request timeout in seconds.
    pub timeout_secs: u64,
    /// Whether entity linking is enabled.
    pub enabled: bool,
    /// Entity linking strategy.
    pub strategy: LinkingStrategy,
    /// Path to a local knowledge base, for the local strategy.
    pub local_kb_path: Option<String>,
    /// Use fuzzy matching for candidate retrieval.
    pub use_fuzzy_matching: bool,
    /// Minimum similarity for fuzzy matches, per-mille.
    pub fuzzy_threshold_milli: u32,
    /// Ask the text-completion capability when several candidates survive.
    pub use_llm_disambiguation: bool,
    /// Minimum number of candidates that triggers disambiguation.
    pub min_candidates_for_llm: usize,
}

impl Default for EntityLinkerConfig {
    /// Linking disabled, thresholds at 500 and 800 per-mille, disambiguation
    /// from two candidates up.
    fn default() -> (r: Self)
        ensures
            r.enabled == false,
            r.strategy == LinkingStrategy::Disabled,
            r.confidence_threshold_milli == 500,
            r.timeout_secs == 10,
            r.local_kb_path is None,
            r.use_fuzzy_matching == true,
            r.fuzzy_threshold_milli == 800,
            r.use_llm_disambiguation == true,
            r.min_candidates_for_llm == 2,
    {
        EntityLinkerConfig {
            service_url: String::from_str("https://api.dbpedia-spotlight.org/en"),
            confidence_threshold_milli: 500,
            timeout_secs: 10,
            enabled: false,
            strategy: LinkingStrategy::Disabled,
            local_kb_path: None,
            use_fuzzy_matching: true,
            fuzzy_threshold_milli: 800,
            use_llm_disambiguation: true,
            min_candidates_for_llm: 2,
        }
    }
}

/// Result of entity linking. The confidence is kept per-mille.
pub struct LinkedEntity {
    /// Original surface form.
    pub surface_form: String,
    /// Canonical URI.
    pub uri: String,
    /// Entity types.
    pub types: Vec<String>,
    /// Confidence, per-mille.
    pub confidence_milli: u32,
}

/// The mathematical content of a linked entity.
pub open spec fn le_model(e: LinkedEntity) -> (Seq<char>, Seq<char>, Seq<Seq<char>>, u32) {
    (e.surface_form@, e.uri@, e.types@.map_values(|t: String| t@), e.confidence_milli)
}

impl LinkedEntity {
    /// A copy carrying the same content.
    pub fn duplicate(&self) -> (r: LinkedEntity)
        ensures
            le_model(r) == le_model(*self),
    {
        let mut types: Vec<String> = Vec::new();
        let n: usize = self.types.len();
        let mut i: usize = 0;
        while i < n
            invariant
                i <= n,
                n == self.types@.len(),
                types@.len() == i,
                forall|k: int| 0 <= k < i ==> (#[trigger] types@[k])@ == self.types@[k]@,
            decreases n - i,
        {
            types.push(self.types[i].clone());
            i += 1;
        }
        let r = LinkedEntity {
            surface_form: self.surface_form.clone(),
            uri: self.uri.clone(),
            types,
            confidence_milli: self.confidence_milli,
        };
        proof {
            assert(r.types@.map_values(|t: String| t@) =~= self.types@.map_values(
                |t: String| t@,
            ));
        }
        r
    }
}

/// One row returned by a label-match query against the knowledge store:
/// entity URI, its label if bound, its type if bound.
pub struct CandidateRow {
    /// The entity's URI.
    pub uri: String,
    /// The matched label, if the query bound one.
    pub label: Option<String>,
    /// The entity's type, if the query bound one.
    pub ty: Option<String>,
}

// ---------------------------------------------------------------------------
// Trusted items
// ---------------------------------------------------------------------------

#[verifier::external_type_specification]
#[verifier::external_body]
pub struct ExStore(oxigraph::store::Store);

#[verifier::external_type_specification]
#[verifier::external_body]
pub struct ExTerm(oxigraph::model::Term);

/// Relies on `oxigraph::model::Term`: the text of a literal binding, if the
/// binding is a literal.
#[verifier::external_body]
fn literal_text(t: Option<&oxigraph::model::Term>) -> Option<String> {
    match t {
        Some(oxigraph::model::Term::Literal(l)) => Some(l.value().to_string()),
        _ => None,
    }
}

/// Relies on `oxigraph::model::Term`: the text of a named-node binding, if
/// the binding is a named node.
#[verifier::external_body]
fn node_text(t: Option<&oxigraph::model::Term>) -> Option<String> {
    match t {
        Some(oxigraph::model::Term::NamedNode(n)) => Some(n.as_str().to_string()),
        _ => None,
    }
}

/// Relies on `oxigraph::store::Store::query`: runs a SPARQL SELECT against
/// the store and carries each solution's `entity`, `label` and `type`
/// bindings over as plain strings; a solution without a named `entity` is
/// left out, as the query never produces one. What comes back depends on the
/// store's contents, so nothing more is promised of the rows.
#[verifier::external_body]
pub fn store_select_rows(store: &oxigraph::store::Store, query: &str) -> (r: Result<
    Vec<CandidateRow>,
    String,
>) {
    let results = store.query(query).map_err(|e| e.to_string())?;
    let mut rows = Vec::new();
    if let oxigraph::sparql::QueryResults::Solutions(solutions) = results {
        for sol in solutions {
            let sol = sol.map_err(|e| e.to_string())?;
            match node_text(sol.get("entity")) {
                Some(uri) => rows.push(
                    CandidateRow { uri, label: literal_text(sol.get("label")), ty: node_text(sol.get("type")) },
                ),
                None => {},
            }
        }
    }
    Ok(rows)
}

/// Relies on `oxigraph::store::Store::query`: runs a SPARQL ASK and returns
/// its boolean; any other result shape is an error.
#[verifier::external_body]
pub fn store_ask(store: &oxigraph::store::Store, query: &str) -> (r: Result<bool, String>) {
    match store.query(query) {
        Ok(oxigraph::sparql::QueryResults::Boolean(b)) => Ok(b),
        Ok(_) => Err("SPARQL query did not return a boolean result".to_string()),
        Err(e) => Err(e.to_string()),
    }
}

/// What the edit-distance metric returns for two texts: a function of the
/// characters alone.
pub uninterp spec fn edit_distance(a: Seq<char>, b: Seq<char>) -> nat;

/// Relies on `strsim::levenshtein`: the minimum number of single-character
/// insertions, deletions and substitutions turning one text into the other;
/// a function of the two texts alone.
#[verifier::external_body]
fn levenshtein(a: &str, b: &str) -> (r: usize)
    ensures
        r == edit_distance(a@, b@),
{
    strsim::levenshtein(a, b)
}

/// The normalized string similarity of two texts, per-mille: full marks for
/// two empty texts, zero when the edit distance reaches the longer length,
/// else the distance scaled against the longer length.
pub open spec fn similarity_milli(a: Seq<char>, b: Seq<char>) -> u32 {
    let m = if a.len() >= b.len() {
        a.len()
    } else {
        b.len()
    };
    if m == 0 {
        1000u32
    } else if edit_distance(a, b) >= m {
        0u32
    } else {
        (1000 - (1000 * (edit_distance(a, b) as int)) / (m as int)) as u32
    }
}

/// Compute the normalized string similarity, per-mille.
pub fn similarity_milli_exec(a: &str, b: &str) -> (r: u32)
    ensures
        r == similarity_milli(a@, b@),
        r <= 1000,
{
    let d: usize = levenshtein(a, b);
    let la: usize = a.unicode_len();
    let lb: usize = b.unicode_len();
    let m: usize = if la >= lb {
        la
    } else {
        lb
    };
    if m == 0 {
        1000
    } else if d >= m {
        0
    } else {
        let num: u128 = 1000u128 * (d as u128);
        let q: u128 = num / (m as u128);
        proof {
            assert(q < 1000) by (nonlinear_arith)
                requires
                    q == (1000 * d as int) / (m as int),
                    0 <= d < m,
            ;
        }
        1000u32 - (q as u32)
    }
}

// ---------------------------------------------------------------------------
// Query building
// ---------------------------------------------------------------------------

/// One character of a name as it is written inside a SPARQL string literal.
pub open spec fn sparql_esc_char(c: char) -> Seq<char> {
    if c == '"' {
        seq!['\\', '"']
    } else {
        seq![c]
    }
}

/// The escaped form of the first `i` characters.
pub open spec fn sparql_esc_upto(s: Seq<char>, i: int) -> Seq<char>
    decreases i,
{
    if i <= 0 {
        Seq::empty()
    } else {
        sparql_esc_upto(s, i - 1) + sparql_esc_char(s[i - 1])
    }
}

/// A name escaped for a SPARQL string literal.
pub open spec fn sparql_escaped(s: Seq<char>) -> Seq<char> {
    sparql_esc_upto(s, s.len() as int)
}

fn sparql_escape(name: &str) -> (r: Vec<char>)
    ensures
        r@ == sparql_escaped(name@),
{
    let cs = string_to_chars(name);
    let n: usize = cs.len();
    let mut out: Vec<char> = Vec::new();
    let mut i: usize = 0;
    while i < n
        invariant
            i <= n,
            n == cs@.len(),
            cs@ == name@,
            out@ == sparql_esc_upto(name@, i as int),
        decreases n - i,
    {
        if cs[i] == '"' {
            out.push('\\');
            out.push('"');
        } else {
            out.push(cs[i]);
        }
        proof {
            assert(out@ =~= sparql_esc_upto(name@, i + 1));
        }
        i += 1;
    }
    out
}

/// The label-match query for a name: an exact query compares labels
/// case-insensitively, a broad one looks for containment.
pub open spec fn label_query_text(name: Seq<char>, exact: bool) -> Seq<char> {
    let e = sparql_escaped(name);
    if exact {
        "PREFIX rdfs: <http://www.w3.org/2000/01/rdf-schema#> PREFIX schema: <http://schema.org/> PREFIX rdf: <http://www.w3.org/1999/02/22-rdf-syntax-ns#> SELECT ?entity ?label ?type WHERE { { ?entity rdfs:label ?label . FILTER(LCASE(STR(?label)) = LCASE(\""@
            + e
            + "\")) } UNION { ?entity schema:name ?label . FILTER(LCASE(STR(?label)) = LCASE(\""@
            + e + "\")) } OPTIONAL { ?entity rdf:type ?type } } LIMIT 10"@
    } else {
        "PREFIX rdfs: <http://www.w3.org/2000/01/rdf-schema#> PREFIX schema: <http://schema.org/> PREFIX rdf: <http://www.w3.org/1999/02/22-rdf-syntax-ns#> SELECT ?entity ?label ?type WHERE { { ?entity rdfs:label ?label . FILTER(CONTAINS(LCASE(STR(?label)), LCASE(\""@
            + e
            + "\"))) } UNION { ?entity schema:name ?label . FILTER(CONTAINS(LCASE(STR(?label)), LCASE(\""@
            + e + "\"))) } OPTIONAL { ?entity rdf:type ?type } } LIMIT 50"@
    }
}

/// Build the label-match query for a name.
pub fn build_label_query(name: &str, exact: bool) -> (r: String)
    ensures
        r@ == label_query_text(name@, exact),
{
    let esc = sparql_escape(name);
    let escs = chars_to_string(&esc);
    let mut q: String;
    if exact {
        q = String::from_str(
            "PREFIX rdfs: <http://www.w3.org/2000/01/rdf-schema#> PREFIX schema: <http://schema.org/> PREFIX rdf: <http://www.w3.org/1999/02/22-rdf-syntax-ns#> SELECT ?entity ?label ?type WHERE { { ?entity rdfs:label ?label . FILTER(LCASE(STR(?label)) = LCASE(\"",
        );
        q.append(escs.as_str());
        q.append("\")) } UNION { ?entity schema:name ?label . FILTER(LCASE(STR(?label)) = LCASE(\"");
        q.append(escs.as_str());
        q.append("\")) } OPTIONAL { ?entity rdf:type ?type } } LIMIT 10");
    } else {
        q = String::from_str(
            "PREFIX rdfs: <http://www.w3.org/2000/01/rdf-schema#> PREFIX schema: <http://schema.org/> PREFIX rdf: <http://www.w3.org/1999/02/22-rdf-syntax-ns#> SELECT ?entity ?label ?type WHERE { { ?entity rdfs:label ?label . FILTER(CONTAINS(LCASE(STR(?label)), LCASE(\"",
        );
        q.append(escs.as_str());
        q.append("\"))) } UNION { ?entity schema:name ?label . FILTER(CONTAINS(LCASE(STR(?label)), LCASE(\"");
        q.append(escs.as_str());
        q.append("\"))) } OPTIONAL { ?entity rdf:type ?type } } LIMIT 50");
    }
    proof {
        assert(q@ =~= label_query_text(name@, exact));
    }
    q
}

// ---------------------------------------------------------------------------
// Scoring
// ---------------------------------------------------------------------------

/// The label a row is scored under: its bound label, or the queried name.
pub open spec fn row_label(row: CandidateRow, name: Seq<char>) -> Seq<char> {
    match row.label {
        Some(l) => l@,
        None => name,
    }
}

/// The confidence a row scores in exact mode: 950 per-mille for a
/// case-insensitive label match, 700 for anything else the query returned.
pub open spec fn exact_confidence(row: CandidateRow, name: Seq<char>) -> u32 {
    if lowered(row_label(row, name)) == lowered(name) {
        950u32
    } else {
        700u32
    }
}

/// The similarity a row scores in fuzzy mode, used for thresholding.
pub open spec fn fuzzy_similarity(row: CandidateRow, name: Seq<char>) -> u32 {
    similarity_milli(lowered(row_label(row, name)), lowered(name))
}

/// The confidence a row yields in fuzzy mode: a case-insensitively equal
/// label keeps the exact-match convention of 950 per-mille; anything else
/// scores its raw similarity.
pub open spec fn fuzzy_confidence(row: CandidateRow, name: Seq<char>) -> u32 {
    if lowered(row_label(row, name)) == lowered(name) {
        950u32
    } else {
        fuzzy_similarity(row, name)
    }
}

/// A scored candidate corresponds to a row of the store's answer.
pub open spec fn scores_row(c: LinkedEntity, row: CandidateRow, name: Seq<char>, exact: bool) -> bool {
    &&& c.surface_form@ == row_label(row, name)
    &&& c.uri@ == row.uri@
    &&& c.confidence_milli == if exact {
        exact_confidence(row, name)
    } else {
        fuzzy_confidence(row, name)
    }
}

/// Score the rows of an exact label query: every row becomes a candidate,
/// at 950 per-mille for a case-insensitive label match and 700 otherwise.
pub fn score_rows_exact(rows: &Vec<CandidateRow>, entity_name: &str) -> (r: Vec<LinkedEntity>)
    ensures
        r@.len() == rows@.len(),
        forall|q: int|
            0 <= q < rows@.len() ==> scores_row(#[trigger] r@[q], rows@[q], entity_name@, true),
{
    let name_lower = to_lower(entity_name);
    let n: usize = rows.len();
    let mut out: Vec<LinkedEntity> = Vec::new();
    let mut j: usize = 0;
    while j < n
        invariant
            j <= n,
            n == rows@.len(),
            name_lower@ == lowered(entity_name@),
            out@.len() == j,
            forall|q: int|
                0 <= q < j ==> scores_row(#[trigger] out@[q], rows@[q], entity_name@, true),
        decreases n - j,
    {
        let label: String = match &rows[j].label {
            Some(l) => l.clone(),
            None => String::from_str(entity_name),
        };
        let label_lower = to_lower(label.as_str());
        let confidence: u32 = if label_lower == name_lower {
            950
        } else {
            700
        };
        let cand = LinkedEntity {
            surface_form: label,
            uri: rows[j].uri.clone(),
            types: match &rows[j].ty {
                Some(t) => {
                    let mut ts: Vec<String> = Vec::new();
                    ts.push(t.clone());
                    ts
                },
                None => Vec::new(),
            },
            confidence_milli: confidence,
        };
        proof {
            assert(scores_row(cand, rows@[j as int], entity_name@, true));
        }
        out.push(cand);
        j += 1;
    }
    out
}

/// Every scored candidate scores some row whose similarity reaches the
/// fuzzy threshold: a fuzzy candidate below the threshold never appears.
pub open spec fn fuzzy_sound(
    r: Seq<LinkedEntity>,
    rows: Seq<CandidateRow>,
    name: Seq<char>,
    threshold: u32,
) -> bool {
    forall|k: int| #![trigger r[k]]
        0 <= k < r.len() ==> exists|q: int| #![trigger rows[q]]
            0 <= q < rows.len() && scores_row(r[k], rows[q], name, false) && fuzzy_similarity(
                rows[q],
                name,
            ) >= threshold
}

/// Every row whose similarity reaches the fuzzy threshold is scored: none at
/// or above the threshold is dropped.
pub open spec fn fuzzy_complete(
    r: Seq<LinkedEntity>,
    rows: Seq<CandidateRow>,
    name: Seq<char>,
    threshold: u32,
) -> bool {
    forall|q: int| #![trigger rows[q]]
        0 <= q < rows.len() && fuzzy_similarity(rows[q], name) >= threshold ==> exists|k: int|
            #![trigger r[k]]
            0 <= k < r.len() && scores_row(r[k], rows[q], name, false)
}

/// Fuzzy scoring is sound and complete against the threshold.
pub open spec fn fuzzy_scoring_ok(
    r: Seq<LinkedEntity>,
    rows: Seq<CandidateRow>,
    name: Seq<char>,
    threshold: u32,
) -> bool {
    fuzzy_sound(r, rows, name, threshold) && fuzzy_complete(r, rows, name, threshold)
}

/// Score the rows of a broad label query by string similarity: a row
/// becomes a candidate exactly when its similarity reaches the fuzzy
/// threshold. A case-insensitively equal label keeps the exact-match
/// confidence of 950 per-mille; anything else scores its raw similarity.
#[verifier::rlimit(60)]
pub fn score_rows_fuzzy(rows: &Vec<CandidateRow>, entity_name: &str, fuzzy_threshold_milli: u32) -> (r: Vec<LinkedEntity>)
    ensures
        fuzzy_scoring_ok(r@, rows@, entity_name@, fuzzy_threshold_milli),
{
    let name_lower = to_lower(entity_name);
    let n: usize = rows.len();
    let mut out: Vec<LinkedEntity> = Vec::new();
    let ghost mut kept_at: Map<int, int> = Map::empty();
    let mut j: usize = 0;
    while j < n
        invariant
            j <= n,
            n == rows@.len(),
            name_lower@ == lowered(entity_name@),
            fuzzy_sound(out@, rows@, entity_name@, fuzzy_threshold_milli),
            forall|q: int|
                0 <= q < j && fuzzy_similarity(#[trigger] rows@[q], entity_name@)
                    >= fuzzy_threshold_milli ==> {
                    &&& kept_at.dom().contains(q)
                    &&& 0 <= kept_at[q] < out@.len()
                    &&& scores_row(out@[kept_at[q]], rows@[q], entity_name@, false)
                },
        decreases n - j,
    {
        let label: String = match &rows[j].label {
            Some(l) => l.clone(),
            None => String::from_str(entity_name),
        };
        let label_lower = to_lower(label.as_str());
        let similarity = similarity_milli_exec(label_lower.as_str(), name_lower.as_str());
        if similarity >= fuzzy_threshold_milli {
            let confidence: u32 = if label_lower == name_lower {
                950
            } else {
                similarity
            };
            let cand = LinkedEntity {
                surface_form: label,
                uri: rows[j].uri.clone(),
                types: match &rows[j].ty {
                    Some(t) => {
                        let mut ts: Vec<String> = Vec::new();
                        ts.push(t.clone());
                        ts
                    },
                    None => Vec::new(),
                },
                confidence_milli: confidence,
            };
            let ghost prev_out = out@;
            proof {
                assert(scores_row(cand, rows@[j as int], entity_name@, false));
            }
            out.push(cand);
            proof {
                kept_at = kept_at.insert(j as int, prev_out.len() as int);
                assert(forall|k: int| 0 <= k < prev_out.len() ==> #[trigger] out@[k] == prev_out[
                    k]);
                assert(out@[prev_out.len() as int] == cand);
                assert forall|k: int| #![trigger out@[k]]
                    0 <= k < out@.len() implies exists|q: int| #![trigger rows@[q]]
                    0 <= q < rows@.len() && scores_row(out@[k], rows@[q], entity_name@, false)
                        && fuzzy_similarity(rows@[q], entity_name@) >= fuzzy_threshold_milli by {
                    if k < prev_out.len() {
                        assert(out@[k] == prev_out[k]);
                    } else {
                        assert(out@[k] == cand);
                        assert(scores_row(out@[k], rows@[j as int], entity_name@, false));
                        assert(fuzzy_similarity(rows@[j as int], entity_name@)
                            >= fuzzy_threshold_milli);
                    }
                }
            }
        }
        j += 1;
    }
    proof {
        assert(fuzzy_complete(out@, rows@, entity_name@, fuzzy_threshold_milli)) by {
            assert forall|q: int|
                0 <= q < rows@.len() && fuzzy_similarity(#[trigger] rows@[q], entity_name@)
                    >= fuzzy_threshold_milli implies exists|k: int| #![trigger out@[k]]
                0 <= k < out@.len() && scores_row(out@[k], rows@[q], entity_name@, false) by {
                assert(scores_row(out@[kept_at[q]], rows@[q], entity_name@, false));
            }
        }
    }
    out
}

/// Every kept candidate reaches the threshold,/// Every kept candidate comes from the input list.
pub open spec fn from_candidates(r: Seq<LinkedEntity>, cands: Seq<LinkedEntity>) -> bool {
    forall|k: int| #![trigger r[k]]
        0 <= k < r.len() ==> exists|j: int| #![trigger cands[j]]
            0 <= j < cands.len() && le_model(r[k]) == le_model(cands[j])
}

/// Every kept candidate reaches the threshold and comes from the input, and
/// every input candidate reaching the threshold is kept.
pub open spec fn confidence_filtered(
    r: Seq<LinkedEntity>,
    cands: Seq<LinkedEntity>,
    threshold: u32,
) -> bool {
    &&& forall|k: int| 0 <= k < r.len() ==> (#[trigger] r[k]).confidence_milli >= threshold
    &&& from_candidates(r, cands)
    &&& forall|j: int| #![trigger cands[j]]
        0 <= j < cands.len() && cands[j].confidence_milli >= threshold ==> exists|k: int|
            #![trigger r[k]]
            0 <= k < r.len() && le_model(r[k]) == le_model(cands[j])
}

/// Keep the candidates at or above the confidence threshold, in order.
#[verifier::rlimit(60)]
pub fn filter_by_confidence(cands: &Vec<LinkedEntity>, threshold_milli: u32) -> (r: Vec<
    LinkedEntity,
>)
    ensures
        confidence_filtered(r@, cands@, threshold_milli),
{
    let n: usize = cands.len();
    let mut out: Vec<LinkedEntity> = Vec::new();
    let ghost mut kept_at: Map<int, int> = Map::empty();
    let ghost mut src_of: Seq<int> = Seq::empty();
    let mut j: usize = 0;
    while j < n
        invariant
            j <= n,
            n == cands@.len(),
            src_of.len() == out@.len(),
            forall|k: int|
                0 <= k < out@.len() ==> 0 <= #[trigger] src_of[k] < cands@.len() && le_model(
                    out@[k],
                ) == le_model(cands@[src_of[k]]),
            from_candidates(out@, cands@),
            forall|k: int|
                0 <= k < out@.len() ==> (#[trigger] out@[k]).confidence_milli >= threshold_milli,
            forall|q: int|
                0 <= q < j && (#[trigger] cands@[q]).confidence_milli >= threshold_milli ==> {
                    &&& kept_at.dom().contains(q)
                    &&& 0 <= kept_at[q] < out@.len()
                    &&& le_model(out@[kept_at[q]]) == le_model(cands@[q])
                },
        decreases n - j,
    {
        if cands[j].confidence_milli >= threshold_milli {
            let c = cands[j].duplicate();
            let ghost prev_out = out@;
            out.push(c);
            proof {
                kept_at = kept_at.insert(j as int, prev_out.len() as int);
                src_of = src_of.push(j as int);
                assert(le_model(out@[out@.len() - 1]) == le_model(cands@[j as int]));
                assert(forall|k: int| 0 <= k < prev_out.len() ==> #[trigger] out@[k] == prev_out[
                    k]);
                assert forall|k: int| #![trigger out@[k]]
                    0 <= k < out@.len() implies exists|q: int| #![trigger cands@[q]]
                    0 <= q < cands@.len() && le_model(out@[k]) == le_model(cands@[q]) by {
                    assert(le_model(out@[k]) == le_model(cands@[src_of[k]]));
                }
            }
        }
        j += 1;
    }
    proof {
        assert(confidence_filtered(out@, cands@, threshold_milli)) by {
            assert(forall|k: int|
                0 <= k < out@.len() ==> (#[trigger] out@[k]).confidence_milli >= threshold_milli);
            assert forall|q: int| #![trigger cands@[q]]
                0 <= q < cands@.len() && cands@[q].confidence_milli >= threshold_milli implies
                exists|k: int| #![trigger out@[k]]
                0 <= k < out@.len() && le_model(out@[k]) == le_model(cands@[q]) by {
                assert(le_model(out@[kept_at[q]]) == le_model(cands@[q]));
            }
        }
    }
    out
}

/// A candidate list ranked by confidence, highest first.
pub open spec fn ranked_desc(r: Seq<LinkedEntity>) -> bool {
    forall|a: int, b: int|
        0 <= a <= b < r.len() ==> (#[trigger] r[a]).confidence_milli >= (
        #[trigger] r[b]).confidence_milli
}

/// Rank candidates by confidence, highest first; of one confidence the
/// earlier input candidate comes first. Confidences are per-mille, so a
/// list holding one beyond 1000 comes back in input order instead.
#[verifier::rlimit(100)]
pub fn rank_by_confidence(cands: &Vec<LinkedEntity>) -> (r: Vec<LinkedEntity>)
    ensures
        r@.len() == cands@.len(),
        from_candidates(r@, cands@),
        (forall|k: int| 0 <= k < cands@.len() ==> (#[trigger] cands@[k]).confidence_milli <= 1000)
            ==> ranked_desc(r@),
{
    let n: usize = cands.len();
    let mut all_milli = true;
    let mut c: usize = 0;
    while c < n
        invariant
            c <= n,
            n == cands@.len(),
            all_milli ==> forall|k: int|
                0 <= k < c ==> (#[trigger] cands@[k]).confidence_milli <= 1000,
            !all_milli ==> exists|k: int|
                0 <= k < c && (#[trigger] cands@[k]).confidence_milli > 1000,
        decreases n - c,
    {
        if cands[c].confidence_milli > 1000 {
            all_milli = false;
        }
        c += 1;
    }
    if !all_milli {
        let mut out: Vec<LinkedEntity> = Vec::new();
        let mut j: usize = 0;
        while j < n
            invariant
                j <= n,
                n == cands@.len(),
                out@.len() == j,
                forall|k: int| 0 <= k < j ==> le_model(#[trigger] out@[k]) == le_model(cands@[k]),
            decreases n - j,
        {
            out.push(cands[j].duplicate());
            j += 1;
        }
        proof {
            assert forall|k: int| #![trigger out@[k]]
                0 <= k < out@.len() implies exists|q: int| #![trigger cands@[q]]
                0 <= q < cands@.len() && le_model(out@[k]) == le_model(cands@[q]) by {
                assert(le_model(out@[k]) == le_model(cands@[k]));
            }
            let k0 = choose|k: int|
                0 <= k < n && (#[trigger] cands@[k]).confidence_milli > 1000;
            assert(cands@[k0].confidence_milli > 1000);
        }
        return out;
    }
    let ghost mut pushed: Set<int> = Set::empty();
    let mut out: Vec<LinkedEntity> = Vec::new();
    let mut i: usize = 0;
    while i <= 1000
        invariant
            i <= 1001,
            n == cands@.len(),
            forall|k: int| 0 <= k < cands@.len() ==> (#[trigger] cands@[k]).confidence_milli
                <= 1000,
            pushed.finite(),
            pushed == Set::new(
                |q: int| 0 <= q < n && (cands@[q]).confidence_milli as int > 1000 - i,
            ),
            out@.len() == pushed.len(),
            from_candidates(out@, cands@),
            ranked_desc(out@),
            forall|k: int| 0 <= k < out@.len() ==> (#[trigger] out@[k]).confidence_milli as int
                > 1000 - i,
        decreases 1001 - i,
    {
        let level: u32 = 1000 - (i as u32);
        let mut j: usize = 0;
        while j < n
            invariant
                j <= n,
                i <= 1000,
                n == cands@.len(),
                level == 1000 - i,
                forall|k: int| 0 <= k < cands@.len() ==> (#[trigger] cands@[k]).confidence_milli
                    <= 1000,
                pushed.finite(),
                pushed == Set::new(
                    |q: int| 0 <= q < n && ((q < j && (cands@[q]).confidence_milli as int >= 1000
                        - i) || (q >= j && (cands@[q]).confidence_milli as int > 1000 - i)),
                ),
                out@.len() == pushed.len(),
                from_candidates(out@, cands@),
                ranked_desc(out@),
                forall|k: int| 0 <= k < out@.len() ==> (#[trigger] out@[k]).confidence_milli
                    as int >= 1000 - i,
            decreases n - j,
        {
            let ghost pushed0 = pushed;
            if cands[j].confidence_milli == level {
                let ghost out0 = out@;
                out.push(cands[j].duplicate());
                proof {
                    assert(!pushed0.contains(j as int));
                    pushed = pushed0.insert(j as int);
                    assert(pushed.len() == pushed0.len() + 1);
                    assert(le_model(out@[out@.len() - 1]) == le_model(cands@[j as int]));
                    assert(out@[out@.len() - 1].confidence_milli == cands@[j as int]
                        .confidence_milli);
                    assert(forall|k: int| 0 <= k < out0.len() ==> #[trigger] out@[k] == out0[k]);
                    assert forall|k: int| #![trigger out@[k]]
                        0 <= k < out@.len() implies exists|q: int| #![trigger cands@[q]]
                        0 <= q < cands@.len() && le_model(out@[k]) == le_model(cands@[q]) by {
                        if k < out0.len() {
                            assert(from_candidates(out0, cands@));
                            assert(out0[k] == out@[k]);
                        } else {
                            assert(le_model(out@[k]) == le_model(cands@[j as int]));
                        }
                    }
                    assert(pushed =~= Set::new(
                        |q: int| 0 <= q < n && ((q < j + 1 && (cands@[q]).confidence_milli as int
                            >= 1000 - i) || (q >= j + 1 && (cands@[q]).confidence_milli as int
                            > 1000 - i)),
                    ));
                }
            } else {
                proof {
                    assert(pushed =~= Set::new(
                        |q: int| 0 <= q < n && ((q < j + 1 && (cands@[q]).confidence_milli as int
                            >= 1000 - i) || (q >= j + 1 && (cands@[q]).confidence_milli as int
                            > 1000 - i)),
                    ));
                }
            }
            j += 1;
        }
        proof {
            assert(pushed =~= Set::new(
                |q: int| 0 <= q < n && (cands@[q]).confidence_milli as int > 1000 - (i + 1),
            ));
        }
        i += 1;
    }
    proof {
        assert(pushed =~= vstd::set_lib::set_int_range(0, n as int));
        vstd::set_lib::lemma_int_range(0, n as int);
    }
    out
}

/// The candidate with the greatest confidence; of equal confidences the
/// earliest wins.
pub fn best_candidate(cands: &Vec<LinkedEntity>) -> (r: Option<LinkedEntity>)
    ensures
        cands@.len() == 0 <==> r is None,
        r is Some ==> exists|j: int|
            {
                &&& 0 <= j < cands@.len()
                &&& le_model(r->0) == le_model(#[trigger] cands@[j])
                &&& forall|k: int|
                    0 <= k < cands@.len() ==> (#[trigger] cands@[k]).confidence_milli
                        <= cands@[j].confidence_milli
                &&& forall|k: int|
                    0 <= k < j ==> (#[trigger] cands@[k]).confidence_milli
                        < cands@[j].confidence_milli
            },
{
    let n: usize = cands.len();
    if n == 0 {
        return None;
    }
    let mut best: usize = 0;
    let mut j: usize = 1;
    while j < n
        invariant
            best < j <= n,
            n == cands@.len(),
            forall|k: int|
                0 <= k < j ==> (#[trigger] cands@[k]).confidence_milli <= cands@[
                    best as int].confidence_milli,
            forall|k: int|
                0 <= k < best ==> (#[trigger] cands@[k]).confidence_milli < cands@[
                    best as int].confidence_milli,
        decreases n - j,
    {
        if cands[j].confidence_milli > cands[best].confidence_milli {
            best = j;
        }
        j += 1;
    }
    let r = cands[best].duplicate();
    proof {
        assert(le_model(r) == le_model(cands@[best as int]));
    }
    Some(r)
}

// ---------------------------------------------------------------------------
// Disambiguation
// ---------------------------------------------------------------------------

/// Whether the forced-choice disambiguation is used: only when it is enabled
/// and the surviving candidate count reaches the configured minimum. It is
/// never invoked below that minimum.
pub open spec fn spec_should_disambiguate(cfg: EntityLinkerConfig, count: nat) -> bool {
    cfg.use_llm_disambiguation && count >= cfg.min_candidates_for_llm
}

/// The value of a trimmed decimal numeral, if the text is one.
pub open spec fn spec_parse_decimal(s: Seq<char>) -> Option<nat> {
    let t = crate::textutil::trim_ws(s);
    if t.len() > 0 && (forall|i: int| 0 <= i < t.len() ==> is_digit(#[trigger] t[i])) && t.len()
        <= 12 {
        Some(decimal_value(t))
    } else {
        None
    }
}

/// The value of a digit string.
pub open spec fn decimal_value(t: Seq<char>) -> nat
    decreases t.len(),
{
    if t.len() == 0 {
        0
    } else {
        decimal_value(t.drop_last()) * 10 + digit_of(t.last())
    }
}

/// The value of one digit character.
pub open spec fn digit_of(c: char) -> nat {
    ((c as u32) - ('0' as u32)) as nat
}

/// Parse a trimmed decimal numeral of at most twelve digits.
pub fn parse_decimal(s: &str) -> (r: Option<u64>)
    ensures
        match r {
            Some(v) => spec_parse_decimal(s@) == Some(v as nat),
            None => spec_parse_decimal(s@) is None,
        },
{
    let cs = string_to_chars(s);
    let t = crate::textutil::trim_ws_exec(cs);
    let n: usize = t.len();
    if n == 0 || n > 12 {
        return None;
    }
    let mut val: u64 = 0;
    let mut i: usize = 0;
    while i < n
        invariant
            i <= n,
            n == t@.len(),
            1 <= n <= 12,
            t@ == crate::textutil::trim_ws(s@),
            forall|k: int| 0 <= k < i ==> is_digit(#[trigger] t@[k]),
            val == decimal_value(t@.take(i as int)),
            val < pow10(i as nat),
        decreases n - i,
    {
        let c = t[i];
        if !('0' <= c && c <= '9') {
            return None;
        }
        let d: u64 = (c as u32) as u64 - ('0' as u32) as u64;
        proof {
            lemma_pow10_mono(i as nat, 11);
            lemma_pow10_concrete();
            assert(pow10((i + 1) as nat) == 10 * pow10(i as nat));
            assert(val * 10 + d < pow10((i + 1) as nat)) by (nonlinear_arith)
                requires
                    val < pow10(i as nat),
                    d <= 9,
                    pow10((i + 1) as nat) == 10 * pow10(i as nat),
            ;
            lemma_pow10_mono((i + 1) as nat, 12);
        }
        val = val * 10 + d;
        proof {
            assert(t@.take(i + 1).drop_last() =~= t@.take(i as int));
            assert(decimal_value(t@.take(i + 1)) == decimal_value(t@.take(i as int)) * 10
                + digit_of(t@[i as int]));
            assert(d == digit_of(t@[i as int]));
        }
        i += 1;
    }
    proof {
        assert(t@.take(n as int) =~= t@);
    }
    Some(val)
}

proof fn lemma_pow10_concrete()
    ensures
        pow10(12) == 1000000000000,
{
    reveal_with_fuel(pow10, 13);
}

proof fn lemma_pow10_mono(a: nat, b: nat)
    requires
        a <= b,
    ensures
        pow10(a) <= pow10(b),
        pow10(a) >= 1,
    decreases b,
{
    if a == b {
        lemma_pow10_pos(a);
    } else {
        lemma_pow10_mono(a, (b - 1) as nat);
        lemma_pow10_pos((b - 1) as nat);
        assert(pow10(b) == 10 * pow10((b - 1) as nat));
    }
}

proof fn lemma_pow10_pos(a: nat)
    ensures
        pow10(a) >= 1,
    decreases a,
{
    if a > 0 {
        lemma_pow10_pos((a - 1) as nat);
    }
}

/// Ten to the `n`./// Ten to the `n`.
pub open spec fn pow10(n: nat) -> nat
    decreases n,
{
    if n == 0 {
        1
    } else {
        10 * pow10((n - 1) as nat)
    }
}

/// Apply the forced-choice reply to the ranked candidates. A reply that
/// parses to an index from one up to the candidate count selects that
/// candidate, which keeps its pre-disambiguation confidence; any other reply
/// is a hard disambiguation failure, with no silent fallback.
pub fn apply_disambiguation_reply(cands: &Vec<LinkedEntity>, reply: &str) -> (r: Result<
    LinkedEntity,
    Error,
>)
    ensures
        match r {
            Ok(c) => {
                &&& spec_parse_decimal(reply@) is Some
                &&& 1 <= spec_parse_decimal(reply@)->0 <= cands@.len()
                &&& le_model(c) == le_model(
                    cands@[spec_parse_decimal(reply@)->0 as int - 1],
                )
            },
            Err(e) => {
                &&& e is Extraction
                &&& (spec_parse_decimal(reply@) is Some ==> !(1 <= spec_parse_decimal(reply@)->0
                    <= cands@.len()))
            },
        },
{
    match parse_decimal(reply) {
        Some(idx) => {
            if 1 <= idx && idx <= cands.len() as u64 {
                let i = idx as usize;
                Ok(cands[i - 1].duplicate())
            } else {
                Err(
                    Error::Extraction(
                        String::from_str("the selected candidate index is out of range"),
                    ),
                )
            }
        },
        None => Err(Error::Extraction(String::from_str("the reply is not a candidate index"))),
    }
}

/// One line of the forced-choice candidate list.
pub open spec fn candidate_line(i: int, c: LinkedEntity) -> Seq<char> {
    dec_rep((i + 1) as nat) + ". "@ + c.surface_form@ + " (URI: "@ + c.uri@ + ", types: ["@
        + join_with(c.types@.map_values(|t: String| t@), ", "@) + "], confidence per-mille: "@
        + dec_rep(c.confidence_milli as nat) + ")"@
}

/// The candidate lines of the first `n` candidates.
pub open spec fn candidate_lines_upto(cands: Seq<LinkedEntity>, n: int) -> Seq<char>
    decreases n,
{
    if n <= 0 {
        Seq::empty()
    } else {
        candidate_lines_upto(cands, n - 1) + candidate_line(n - 1, cands[n - 1]) + "\n"@
    }
}

/// The forced-choice prompt for a name, an optional type hint and the ranked
/// candidates.
pub open spec fn disambiguation_prompt_text(
    name: Seq<char>,
    hint: Option<Seq<char>>,
    cands: Seq<LinkedEntity>,
) -> Seq<char> {
    "Given the entity name \""@ + name
        + "\" and the following candidates from a knowledge base, select the most appropriate match.\n\nContext: "@
        + (match hint {
        Some(h) => h,
        None => "No specific type provided"@,
    }) + "\n\nCandidates:\n"@ + candidate_lines_upto(cands, cands.len() as int)
        + "\nRespond with ONLY the number (1-"@ + dec_rep(cands.len() as nat)
        + ") of the best matching candidate.\n\nYour response (just the number):"@
}

/// Build the forced-choice prompt handed to the text-completion capability.
#[verifier::rlimit(60)]
pub fn build_disambiguation_prompt(
    entity_name: &str,
    entity_type: Option<&str>,
    cands: &Vec<LinkedEntity>,
) -> (r: String)
    ensures
        r@ == disambiguation_prompt_text(
            entity_name@,
            match entity_type {
                Some(t) => Some(t@),
                None => None,
            },
            cands@,
        ),
{
    let mut p = String::from_str("Given the entity name \"");
    p.append(entity_name);
    p.append(
        "\" and the following candidates from a knowledge base, select the most appropriate match.\n\nContext: ",
    );
    match entity_type {
        Some(t) => p.append(t),
        None => p.append("No specific type provided"),
    }
    p.append("\n\nCandidates:\n");
    let n: usize = cands.len();
    let mut i: usize = 0;
    while i < n
        invariant
            i <= n,
            n == cands@.len(),
            p@ == disambiguation_prompt_prefix(
                entity_name@,
                match entity_type {
                    Some(t) => Some(t@),
                    None => None,
                },
            ) + candidate_lines_upto(cands@, i as int),
        decreases n - i,
    {
        let num = usize_to_string(i + 1);
        p.append(num.as_str());
        p.append(". ");
        p.append(cands[i].surface_form.as_str());
        p.append(" (URI: ");
        p.append(cands[i].uri.as_str());
        p.append(", types: [");
        let joined = crate::textutil::join_strings(&cands[i].types, ", ");
        p.append(joined.as_str());
        p.append("], confidence per-mille: ");
        let conf = usize_to_string(cands[i].confidence_milli as usize);
        p.append(conf.as_str());
        p.append(")");
        p.append("\n");
        proof {
            assert(p@ =~= disambiguation_prompt_prefix(
                entity_name@,
                match entity_type {
                    Some(t) => Some(t@),
                    None => None,
                },
            ) + candidate_lines_upto(cands@, i + 1));
        }
        i += 1;
    }
    p.append("\nRespond with ONLY the number (1-");
    let total = usize_to_string(n);
    p.append(total.as_str());
    p.append(") of the best matching candidate.\n\nYour response (just the number):");
    proof {
        assert(p@ =~= disambiguation_prompt_text(
            entity_name@,
            match entity_type {
                Some(t) => Some(t@),
                None => None,
            },
            cands@,
        ));
    }
    p
}

/// Everything of the prompt before the candidate lines.
pub open spec fn disambiguation_prompt_prefix(name: Seq<char>, hint: Option<Seq<char>>) -> Seq<
    char,
> {
    "Given the entity name \""@ + name
        + "\" and the following candidates from a knowledge base, select the most appropriate match.\n\nContext: "@
        + (match hint {
        Some(h) => h,
        None => "No specific type provided"@,
    }) + "\n\nCandidates:\n"@
}

// ---------------------------------------------------------------------------
// The linker
// ---------------------------------------------------------------------------

/// What one lookup decided, before any outside exchange.
pub enum LinkStep {
    /// No link: linking is off, or no candidate survived.
    NoLink,
    /// A link was picked locally.
    Linked(LinkedEntity),
    /// Several candidates survived: the caller must run the forced-choice
    /// prompt through the text-completion capability and apply the reply
    /// with `apply_disambiguation_reply`.
    NeedsChoice { candidates: Vec<LinkedEntity>, prompt: String },
    /// The remote annotation strategy is selected: the caller must fetch the
    /// service's spans for the passage and match them with
    /// `match_spotlight_spans`.
    NeedsRemote,
}

/// What any lookup decision owes, whatever the store held: decisions fixed
/// by the configuration alone come out as fixed; a local link reaches the
/// confidence threshold; a forced choice is only handed out when the
/// disambiguation trigger fires, over candidates reaching the threshold.
pub open spec fn step_decided(cfg: EntityLinkerConfig, step: LinkStep) -> bool {
    &&& (!cfg.enabled ==> step is NoLink)
    &&& (cfg.enabled && cfg.strategy == LinkingStrategy::Disabled ==> step is NoLink)
    &&& (cfg.enabled && cfg.strategy == LinkingStrategy::Wikidata ==> step is NoLink)
    &&& (cfg.enabled && cfg.strategy == LinkingStrategy::DbpediaSpotlight ==> step is NeedsRemote)
    &&& (step is Linked ==> (step->Linked_0).confidence_milli >= cfg.confidence_threshold_milli)
    &&& (step is NeedsChoice ==> spec_should_disambiguate(cfg, (step->candidates)@.len() as nat)
        && (forall|k: int|
        0 <= k < (step->candidates)@.len() ==> (#[trigger] (step->candidates)@[
            k]).confidence_milli >= cfg.confidence_threshold_milli))
}

/// Entity linker that resolves entity names to canonical URIs.
pub struct EntityLinker {
    /// The linker's configuration.
    pub config: EntityLinkerConfig,
    store: Option<oxigraph::store::Store>,
}

impl EntityLinker {
    /// Whether a local store is attached.
    pub closed spec fn has_store(self) -> bool {
        self.store is Some
    }

    /// The configuration this linker was built with.
    pub closed spec fn linker_config(self) -> EntityLinkerConfig {
        self.config
    }

    /// Create a new entity linker. The local strategy demands a knowledge
    /// base path; the store itself is attached separately.
    pub fn new(config: EntityLinkerConfig) -> (r: Result<Self, Error>)
        ensures
            match r {
                Ok(l) => {
                    &&& !(config.strategy == LinkingStrategy::Local && config.local_kb_path
                        is None)
                    &&& l.linker_config() == config
                    &&& !l.has_store()
                },
                Err(e) => {
                    &&& config.strategy == LinkingStrategy::Local && config.local_kb_path is None
                    &&& e is Config
                },
            },
    {
        let is_local = match config.strategy {
            LinkingStrategy::Local => true,
            _ => false,
        };
        if is_local && config.local_kb_path.is_none() {
            return Err(
                Error::Config(String::from_str("Local strategy requires local_kb_path to be set")),
            );
        }
        Ok(Self { config, store: None })
    }

    /// Attach an opened knowledge store for the local strategy.
    pub fn attach_store(&mut self, store: oxigraph::store::Store)
        ensures
            final(self).linker_config() == old(self).linker_config(),
            final(self).has_store(),
    {
        self.store = Some(store);
    }

    /// Whether the forced-choice disambiguation applies to this many
    /// surviving candidates.
    pub fn should_disambiguate(&self, count: usize) -> (r: bool)
        ensures
            r == spec_should_disambiguate(self.linker_config(), count as nat),
    {
        self.config.use_llm_disambiguation && count >= self.config.min_candidates_for_llm
    }

    /// Decide one lookup as far as the library can without an outside
    /// exchange. Linking disabled or switched off yields no link; the remote
    /// strategy asks the caller to fetch the passage's spans; the local
    /// strategy queries the store, scores and filters the candidates, and
    /// either picks the best survivor or hands out a forced-choice prompt.
    /// Disambiguation is requested only when the surviving candidate count
    /// reaches the configured minimum and disambiguation is enabled.
    #[verifier::rlimit(100)]
    pub fn link_entity(&self, entity_name: &str, entity_type: Option<&str>) -> (r: Result<
        LinkStep,
        Error,
    >)
        ensures
            !self.linker_config().enabled ==> r is Ok && r->Ok_0 is NoLink,
            self.linker_config().enabled && self.linker_config().strategy
                == LinkingStrategy::Disabled ==> r is Ok && r->Ok_0 is NoLink,
            self.linker_config().enabled && self.linker_config().strategy
                == LinkingStrategy::Wikidata ==> r is Ok && r->Ok_0 is NoLink,
            self.linker_config().enabled && self.linker_config().strategy
                == LinkingStrategy::DbpediaSpotlight ==> r is Ok && r->Ok_0 is NeedsRemote,
            self.linker_config().enabled && self.linker_config().strategy
                == LinkingStrategy::Local && !self.has_store() ==> r is Err && r->Err_0 is Config,
            r is Err ==> self.linker_config().enabled && self.linker_config().strategy
                == LinkingStrategy::Local,
            r is Err ==> ((r->Err_0 is Config) <==> !self.has_store()),
            r is Err && self.has_store() ==> r->Err_0 is Extraction,
            r is Ok ==> step_decided(self.linker_config(), r->Ok_0),
    {
        if !self.config.enabled {
            return Ok(LinkStep::NoLink);
        }
        match self.config.strategy {
            LinkingStrategy::Disabled => Ok(LinkStep::NoLink),
            LinkingStrategy::Wikidata => Ok(LinkStep::NoLink),
            LinkingStrategy::DbpediaSpotlight => Ok(LinkStep::NeedsRemote),
            LinkingStrategy::Local => {
                let store = match &self.store {
                    Some(s) => s,
                    None => {
                        return Err(
                            Error::Config(String::from_str("Local store not initialized")),
                        );
                    },
                };
                // The exact search always runs; the broad search is added when
                // fuzzy matching is enabled or the exact search came back
                // empty.
                let exact_query = build_label_query(entity_name, true);
                let exact_rows = match store_select_rows(store, exact_query.as_str()) {
                    Ok(rows) => rows,
                    Err(msg) => {
                        let mut m = String::from_str("SPARQL query failed: ");
                        m.append(msg.as_str());
                        return Err(Error::Extraction(m));
                    },
                };
                let mut scored = score_rows_exact(&exact_rows, entity_name);
                if self.config.use_fuzzy_matching || scored.len() == 0 {
                    let broad_query = build_label_query(entity_name, false);
                    let broad_rows = match store_select_rows(store, broad_query.as_str()) {
                        Ok(rows) => rows,
                        Err(msg) => {
                            let mut m = String::from_str("SPARQL query failed: ");
                            m.append(msg.as_str());
                            return Err(Error::Extraction(m));
                        },
                    };
                    let mut fuzzy_scored = score_rows_fuzzy(
                        &broad_rows,
                        entity_name,
                        self.config.fuzzy_threshold_milli,
                    );
                    scored.append(&mut fuzzy_scored);
                }
                let surviving = filter_by_confidence(
                    &scored,
                    self.config.confidence_threshold_milli,
                );
                if surviving.len() == 0 {
                    return Ok(LinkStep::NoLink);
                }
                if self.should_disambiguate(surviving.len()) {
                    let ranked = rank_by_confidence(&surviving);
                    proof {
                        assert forall|k: int|
                            0 <= k < ranked@.len() implies (#[trigger] ranked@[k]).confidence_milli
                            >= self.linker_config().confidence_threshold_milli by {
                            let q = choose|q: int| #![trigger surviving@[q]]
                                0 <= q < surviving@.len() && le_model(ranked@[k]) == le_model(
                                surviving@[q],
                            );
                            assert(surviving@[q].confidence_milli
                                >= self.linker_config().confidence_threshold_milli);
                        }
                    }
                    let prompt = build_disambiguation_prompt(entity_name, entity_type, &ranked);
                    return Ok(LinkStep::NeedsChoice { candidates: ranked, prompt });
                }
                match best_candidate(&surviving) {
                    Some(best) => Ok(LinkStep::Linked(best)),
                    None => Ok(LinkStep::NoLink),
                }
            },
        }
    }

    /// Decide a batch of lookups, one per name, in list order. Only a
    /// systemic failure (the store cannot be queried) fails the batch.
    pub fn link_entities(&self, entity_names: &Vec<String>) -> (r: Result<Vec<LinkStep>, Error>)
        ensures
            r is Ok ==> (r->Ok_0)@.len() == entity_names@.len(),
            r is Ok ==> forall|k: int|
                0 <= k < (r->Ok_0)@.len() ==> step_decided(
                    self.linker_config(),
                    #[trigger] (r->Ok_0)@[k],
                ),
            !self.linker_config().enabled ==> r is Ok && forall|k: int|
                0 <= k < (r->Ok_0)@.len() ==> (#[trigger] (r->Ok_0)@[k]) is NoLink,
    {
        let n: usize = entity_names.len();
        let mut out: Vec<LinkStep> = Vec::new();
        let mut i: usize = 0;
        while i < n
            invariant
                i <= n,
                n == entity_names@.len(),
                out@.len() == i,
                forall|k: int|
                    0 <= k < out@.len() ==> step_decided(
                        self.linker_config(),
                        #[trigger] out@[k],
                    ),
                !self.linker_config().enabled ==> forall|k: int|
                    0 <= k < out@.len() ==> (#[trigger] out@[k]) is NoLink,
            decreases n - i,
        {
            match self.link_entity(entity_names[i].as_str(), None) {
                Ok(step) => {
                    out.push(step);
                },
                Err(e) => {
                    return Err(e);
                },
            }
            i += 1;
        }
        Ok(out)
    }
}

/// Match the spans returned by the remote annotation service against the
/// queried surface form, case-insensitively; the first match wins.
pub fn match_spotlight_spans(entity_name: &str, spans: &Vec<LinkedEntity>) -> (r: Option<
    LinkedEntity,
>)
    ensures
        match r {
            Some(e) => exists|j: int|
                {
                    &&& 0 <= j < spans@.len()
                    &&& lowered((#[trigger] spans@[j]).surface_form@) == lowered(entity_name@)
                    &&& le_model(e) == le_model(spans@[j])
                    &&& forall|k: int|
                        0 <= k < j ==> lowered((#[trigger] spans@[k]).surface_form@) != lowered(
                            entity_name@,
                        )
                },
            None => forall|j: int|
                0 <= j < spans@.len() ==> lowered((#[trigger] spans@[j]).surface_form@) != lowered(
                    entity_name@,
                ),
        },
{
    let name_lower = to_lower(entity_name);
    let n: usize = spans.len();
    let mut j: usize = 0;
    while j < n
        invariant
            j <= n,
            n == spans@.len(),
            name_lower@ == lowered(entity_name@),
            forall|k: int|
                0 <= k < j ==> lowered((#[trigger] spans@[k]).surface_form@) != lowered(
                    entity_name@,
                ),
        decreases n - j,
    {
        let sf_lower = to_lower(spans[j].surface_form.as_str());
        if sf_lower == name_lower {
            let e = spans[j].duplicate();
            proof {
                assert(le_model(e) == le_model(spans@[j as int]));
            }
            return Some(e);
        }
        j += 1;
    }
    None
}

// ---------------------------------------------------------------------------
// Laws
// ---------------------------------------------------------------------------

/// A store answer whose row `j` carries a label case-insensitively equal to
/// the query yields, under exact scoring, a candidate at 950 per-mille
/// confidence for that label.
pub proof fn lemma_exact_match_scores_full(
    rows: Seq<CandidateRow>,
    r: Seq<LinkedEntity>,
    name: Seq<char>,
    j: int,
)
    requires
        0 <= j < rows.len(),
        lowered(row_label(rows[j], name)) == lowered(name),
        r.len() == rows.len(),
        forall|q: int| 0 <= q < rows.len() ==> scores_row(#[trigger] r[q], rows[q], name, true),
    ensures
        r[j].confidence_milli == 950,
        r[j].surface_form@ == row_label(rows[j], name),
{
    assert(scores_row(r[j], rows[j], name, true));
}

} // verus!
