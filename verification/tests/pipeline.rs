//! Tests for the linker's decision procedure, the merger, the retry session
//! and the window pipeline.

use oxigraph::model::{GraphName, Literal, NamedNode, Quad};
use std::collections::HashSet;
use text_to_rdf::entity_linker::{
    apply_disambiguation_reply, best_candidate, match_spotlight_spans, rank_by_confidence,
    score_rows_exact, score_rows_fuzzy, similarity_milli_exec, CandidateRow, EntityLinker,
    EntityLinkerConfig, LinkStep, LinkedEntity, LinkingStrategy,
};
use text_to_rdf::extractor::{
    enrich_entity_with_uri, extract_entity_names, extract_json_from_response, merge_chunks,
    AttemptOutcome, ExtractionPipeline, PathChoice, RetrySession,
};
use text_to_rdf::json::{parse_json, JsonValue};
use text_to_rdf::coreference::{sidecar_result, CoreferenceCluster, Mention, MentionType};
use text_to_rdf::normalize::normalize_predicate;
use text_to_rdf::types::RdfDocument;
use text_to_rdf::ExtractionConfig;

fn row(uri: &str, label: Option<&str>) -> CandidateRow {
    CandidateRow {
        uri: uri.to_string(),
        label: label.map(|l| l.to_string()),
        ty: None,
    }
}

fn cand(surface: &str, uri: &str, confidence_milli: u32) -> LinkedEntity {
    LinkedEntity {
        surface_form: surface.to_string(),
        uri: uri.to_string(),
        types: Vec::new(),
        confidence_milli,
    }
}

// ---------------------------------------------------------------------------
// Scoring and disambiguation
// ---------------------------------------------------------------------------

#[test]
fn exact_match_scores_full_confidence() {
    // A store answer with exactly one label case-insensitively equal to the
    // query yields confidence 950 per-mille.
    let rows = vec![row("http://example.org/mc", Some("Marie Curie"))];
    let scored = score_rows_exact(&rows, "marie CURIE");
    assert_eq!(scored.len(), 1);
    assert_eq!(scored[0].confidence_milli, 950);
    assert_eq!(scored[0].surface_form, "Marie Curie");

    let other = vec![row("http://example.org/x", Some("Marie Curie Institute"))];
    let scored = score_rows_exact(&other, "Marie Curie");
    assert_eq!(scored.len(), 1);
    assert_eq!(scored[0].confidence_milli, 700);
}

#[test]
fn fuzzy_below_threshold_never_appears() {
    let rows = vec![
        row("http://example.org/a", Some("completely unrelated words")),
        row("http://example.org/b", Some("Marie Curie")),
    ];
    let scored = score_rows_fuzzy(&rows, "Marie Curie", 800);
    for c in &scored {
        assert!(c.confidence_milli >= 800);
    }
    assert_eq!(scored.len(), 1);
    assert_eq!(scored[0].uri, "http://example.org/b");
    // A case-insensitively equal label on the fuzzy path scores 950.
    assert_eq!(scored[0].confidence_milli, 950);
}

#[test]
fn fuzzy_case_equal_scores_950() {
    let rows = vec![row("http://example.org/b", Some("MARIE curie"))];
    let scored = score_rows_fuzzy(&rows, "Marie Curie", 800);
    assert_eq!(scored.len(), 1);
    assert_eq!(scored[0].confidence_milli, 950);
}

#[test]
fn similarity_exact_value() {
    // An edit distance of three over a longer length of seven.
    assert_eq!(similarity_milli_exec("kitten", "sitting"), 1000 - 3000 / 7);
    assert_eq!(similarity_milli_exec("same", "same"), 1000);
    assert_eq!(similarity_milli_exec("", ""), 1000);
    assert_eq!(similarity_milli_exec("abc", "xyz"), 0);
}

#[test]
fn disambiguation_not_invoked_below_minimum() {
    let config = EntityLinkerConfig {
        use_llm_disambiguation: true,
        min_candidates_for_llm: 2,
        ..Default::default()
    };
    let linker = EntityLinker::new(config).unwrap();
    assert!(!linker.should_disambiguate(1));
    assert!(linker.should_disambiguate(2));
    assert!(linker.should_disambiguate(3));
}

#[test]
fn disambiguation_reply_selects_candidate() {
    let cands = vec![
        cand("Apple", "http://example.org/fruit", 700),
        cand("Apple Inc.", "http://example.org/company", 650),
    ];
    let picked = apply_disambiguation_reply(&cands, " 2 ").unwrap();
    assert_eq!(picked.uri, "http://example.org/company");
    // The disambiguated pick keeps its pre-disambiguation confidence.
    assert_eq!(picked.confidence_milli, 650);

    assert!(apply_disambiguation_reply(&cands, "0").is_err());
    assert!(apply_disambiguation_reply(&cands, "3").is_err());
    assert!(apply_disambiguation_reply(&cands, "first").is_err());
}

#[test]
fn best_candidate_prefers_highest_then_earliest() {
    let cands = vec![
        cand("a", "http://example.org/a", 700),
        cand("b", "http://example.org/b", 900),
        cand("c", "http://example.org/c", 900),
    ];
    let best = best_candidate(&cands).unwrap();
    assert_eq!(best.uri, "http://example.org/b");
    assert!(best_candidate(&Vec::new()).is_none());
}

#[test]
fn spotlight_span_matching_is_case_insensitive() {
    let spans = vec![
        cand("Alan Bean", "http://dbpedia.org/resource/Alan_Bean", 900),
        cand("alan bean", "http://dbpedia.org/resource/Other", 800),
    ];
    let hit = match_spotlight_spans("ALAN BEAN", &spans).unwrap();
    assert_eq!(hit.uri, "http://dbpedia.org/resource/Alan_Bean");
    assert!(match_spotlight_spans("Pete Conrad", &spans).is_none());
}

#[test]
fn local_linking_against_memory_store() {
    let store = oxigraph::store::Store::new().unwrap();
    let subject = NamedNode::new("http://example.org/alan_bean").unwrap();
    let label = NamedNode::new("http://www.w3.org/2000/01/rdf-schema#label").unwrap();
    store
        .insert(&Quad::new(
            subject,
            label,
            Literal::new_simple_literal("Alan Bean"),
            GraphName::DefaultGraph,
        ))
        .unwrap();

    let config = EntityLinkerConfig {
        enabled: true,
        strategy: LinkingStrategy::Local,
        local_kb_path: Some("memory".to_string()),
        use_fuzzy_matching: false,
        use_llm_disambiguation: false,
        ..Default::default()
    };
    let mut linker = EntityLinker::new(config).unwrap();
    linker.attach_store(store);

    match linker.link_entity("alan bean", Some("Person")).unwrap() {
        LinkStep::Linked(entity) => {
            assert_eq!(entity.uri, "http://example.org/alan_bean");
            assert_eq!(entity.confidence_milli, 950);
        },
        other => panic!("expected a local link, got {:?}", variant_name(&other)),
    }

    match linker.link_entity("Nobody Known", None).unwrap() {
        LinkStep::NoLink => {},
        other => panic!("expected no link, got {:?}", variant_name(&other)),
    }
}

fn variant_name(step: &LinkStep) -> &'static str {
    match step {
        LinkStep::NoLink => "NoLink",
        LinkStep::Linked(_) => "Linked",
        LinkStep::NeedsChoice { .. } => "NeedsChoice",
        LinkStep::NeedsRemote => "NeedsRemote",
    }
}

// ---------------------------------------------------------------------------
// Reading completion replies
// ---------------------------------------------------------------------------

#[test]
fn test_json_extraction_from_code_fence() {
    let response = "Here's the extracted data:\n```json\n{\"@context\": \"https://schema.org/\", \"@type\": \"Person\"}\n```\nHope this helps!";

    let json = extract_json_from_response(response);
    assert!(json.contains("@context"));
    assert_eq!(
        json,
        "{\"@context\": \"https://schema.org/\", \"@type\": \"Person\"}"
    );
}

#[test]
fn test_json_extraction_raw() {
    let response = "{\"@context\": \"https://schema.org/\", \"@type\": \"Person\"}";

    let json = extract_json_from_response(response);
    assert!(json.contains("@context"));
    assert_eq!(json, response);
}

// ---------------------------------------------------------------------------
// Merging
// ---------------------------------------------------------------------------

fn doc_from(json: &str) -> RdfDocument {
    RdfDocument::from_value(parse_json(json).unwrap()).unwrap()
}

#[test]
fn merge_of_nothing_is_an_error() {
    match merge_chunks(Vec::new()) {
        Err(e) => assert!(e.message().contains("no successful window results")),
        Ok(_) => panic!("merging zero results must be an error"),
    }
}

#[test]
fn merge_of_one_result_is_unwrapped() {
    let doc = doc_from(
        "{\"@context\": \"https://schema.org/\", \"@type\": \"Person\", \"name\": \"Test\"}",
    );
    let merged = merge_chunks(vec![doc]).unwrap();
    // A single node comes back directly, not wrapped in a collection.
    assert!(merged.data.get_field("@graph").is_none());
    let t = merged.data.get_field("@type").unwrap().as_text().unwrap();
    assert_eq!(t, "Person");
}

#[test]
fn merge_of_two_results_is_a_graph() {
    let a = doc_from(
        "{\"@context\": \"https://schema.org/\", \"@type\": \"Person\", \"name\": \"A\"}",
    );
    let b = doc_from(
        "{\"@context\": \"https://schema.org/\", \"@type\": \"Person\", \"name\": \"B\"}",
    );
    let merged = merge_chunks(vec![a, b]).unwrap();
    match merged.data.get_field("@graph").unwrap() {
        JsonValue::Array(items) => assert_eq!(items.len(), 2),
        _ => panic!("expected the merged nodes under a collection"),
    }
}

// ---------------------------------------------------------------------------
// The retry session
// ---------------------------------------------------------------------------

#[test]
fn retry_session_accepts_a_good_reply() {
    let mut session = RetrySession::new("instructions", "Alan Bean was born.", 2, true, true);
    assert!(session.can_attempt());
    let msgs = session.begin_attempt();
    assert_eq!(msgs.len(), 2);
    assert!(msgs[1].content.contains("Alan Bean was born."));

    let outcome = session.accept_response(
        "```json\n{\"@context\": \"https://schema.org/\", \"@type\": \"Person\", \"name\": \"Alan Bean\"}\n```",
    );
    match outcome {
        AttemptOutcome::Done(doc) => {
            assert_eq!(doc.get_type(), Some("Person"));
        },
        _ => panic!("a well-formed reply must end the session"),
    }
}

#[test]
fn retry_session_exhausts_its_budget() {
    let mut session = RetrySession::new("instructions", "text", 1, true, true);
    let _ = session.begin_attempt();
    match session.accept_response("not json at all") {
        AttemptOutcome::Retry => {},
        _ => panic!("the first rejection must leave a retry"),
    }
    let msgs = session.begin_attempt();
    assert!(msgs.last().unwrap().content.contains("failed with the following error"));
    match session.accept_response("still not json") {
        AttemptOutcome::Failed(_) => {},
        _ => panic!("the second rejection must exhaust the budget"),
    }
}

// ---------------------------------------------------------------------------
// The pipeline
// ---------------------------------------------------------------------------

#[test]
fn short_documents_take_the_short_path() {
    // A document under the chunk threshold goes through exactly the same
    // single extraction as `extract`.
    let pipeline = ExtractionPipeline::new(ExtractionConfig::default());
    assert_eq!(
        pipeline.choose_path("A short document."),
        PathChoice::ShortPath
    );
    let long = "word ".repeat(4000);
    assert_eq!(pipeline.choose_path(&long), PathChoice::ChunkedPath);
}

#[test]
fn pipeline_run_over_one_window() {
    // One short document, one window: coreference resolves the pronoun, the
    // reply is accepted, and the registry holds exactly one entity.
    let text = "Marie Curie discovered radium. She won the Nobel Prize in 1903.";
    let mut pipeline = ExtractionPipeline::new(ExtractionConfig::default());

    let windows = pipeline.plan_windows(text);
    assert_eq!(windows.len(), 1);
    assert_eq!(windows[0].text, text);

    let coref = pipeline.preprocess_window(&windows[0].text);
    assert_eq!(
        coref.resolved_text,
        "Marie Curie discovered radium. Marie Curie won the Nobel Prize in 1903."
    );

    let msgs = pipeline.window_request(&coref.resolved_text);
    assert_eq!(msgs.len(), 2);

    let reply = "{\"@context\": \"https://schema.org/\", \"@type\": \"Person\", \"name\": \"Marie Curie\"}";
    let doc = pipeline
        .accept_window_response(
            windows[0].id,
            windows[0].start_offset,
            windows[0].end_offset,
            &coref.resolved_text,
            reply,
        )
        .unwrap();
    assert_eq!(doc.get_type(), Some("Person"));

    // The registry holds exactly one entity for Marie Curie, under the
    // normalized form of her name, reachable case-insensitively.
    assert_eq!(pipeline.kb.entity_count(), 1);
    assert!(pipeline.kb.has_entity("marie_curie"));
    assert!(pipeline.kb.has_entity("MARIE_CURIE"));

    let merged = pipeline.finish(vec![doc]).unwrap();
    assert_eq!(merged.get_type(), Some("Person"));
}

#[test]
fn entity_names_are_collected_once_each() {
    let doc = doc_from(
        "{\"@context\": \"https://schema.org/\", \"@type\": \"Person\", \"name\": \"alan_bean\", \"alumniOf\": {\"@type\": \"EducationalOrganization\", \"name\": \"UT Austin\"}, \"knows\": {\"@type\": \"Person\", \"name\": \"UT Austin\"}}",
    );
    let names = extract_entity_names(&doc);
    assert_eq!(names, vec!["alan_bean".to_string(), "UT Austin".to_string()]);
}

#[test]
fn enrichment_sets_the_id_of_the_named_entity() {
    let doc = doc_from(
        "{\"@context\": \"https://schema.org/\", \"@type\": \"Person\", \"name\": \"alan_bean\", \"alumniOf\": {\"@type\": \"EducationalOrganization\", \"name\": \"UT Austin\"}}",
    );
    let enriched = enrich_entity_with_uri(
        &doc.data,
        "UT Austin",
        "http://dbpedia.org/resource/University_of_Texas_at_Austin",
    );
    let nested = enriched.get_field("alumniOf").unwrap();
    assert_eq!(
        nested.get_field("@id").unwrap().as_text().unwrap().as_str(),
        "http://dbpedia.org/resource/University_of_Texas_at_Austin"
    );
    // The root entity has a different name and stays without an @id.
    assert!(enriched.get_field("@id").is_none());
}

// ---------------------------------------------------------------------------
// Evaluation metrics over extracted triples
// ---------------------------------------------------------------------------

#[derive(Debug, Clone, PartialEq, Eq, Hash)]
struct Triple {
    subject: String,
    predicate: String,
    object: String,
}

struct EvaluationMetrics {
    precision: f64,
    recall: f64,
    f1_score: f64,
    true_positives: usize,
    false_positives: usize,
    false_negatives: usize,
}

impl EvaluationMetrics {
    fn new(predicted: &HashSet<Triple>, expected: &HashSet<Triple>) -> Self {
        let true_positives = predicted.intersection(expected).count();
        let false_positives = predicted.len() - true_positives;
        let false_negatives = expected.len() - true_positives;

        let precision = if predicted.is_empty() {
            0.0
        } else {
            true_positives as f64 / predicted.len() as f64
        };

        let recall = if expected.is_empty() {
            0.0
        } else {
            true_positives as f64 / expected.len() as f64
        };

        let f1_score = if precision + recall == 0.0 {
            0.0
        } else {
            2.0 * (precision * recall) / (precision + recall)
        };

        Self { precision, recall, f1_score, true_positives, false_positives, false_negatives }
    }
}

fn extract_triples_from_jsonld(jsonld: &JsonValue) -> HashSet<Triple> {
    let mut triples = HashSet::new();
    if let JsonValue::Object(fields) = jsonld {
        let subject = fields
            .iter()
            .find(|f| f.0 == "name")
            .and_then(|f| match &f.1 {
                JsonValue::Str(s) => Some(s.clone()),
                _ => None,
            })
            .unwrap_or_else(|| "unknown".to_string());

        for (key, value) in fields.iter() {
            if key.starts_with('@') || key == "name" {
                continue;
            }
            match value {
                JsonValue::Str(s) => {
                    triples.insert(Triple {
                        subject: subject.clone(),
                        predicate: normalize_predicate(key),
                        object: s.clone(),
                    });
                },
                JsonValue::Object(nested) => {
                    if let Some(nested_name) = nested.iter().find(|f| f.0 == "name").and_then(|f| {
                        match &f.1 {
                            JsonValue::Str(s) => Some(s.clone()),
                            _ => None,
                        }
                    }) {
                        triples.insert(Triple {
                            subject: subject.clone(),
                            predicate: normalize_predicate(key),
                            object: nested_name,
                        });
                    }
                },
                _ => {},
            }
        }
    }
    triples
}

#[test]
fn test_triple_extraction() {
    let jsonld = parse_json(
        "{\"@context\": \"https://schema.org/\", \"@type\": \"Person\", \"name\": \"Alan Bean\", \"birthDate\": \"1932-03-15\"}",
    )
    .unwrap();

    let triples = extract_triples_from_jsonld(&jsonld);

    assert_eq!(triples.len(), 1);
    assert!(triples.contains(&Triple {
        subject: "Alan Bean".to_string(),
        predicate: "birthdat".to_string(), // Stemmed from "birthDate"
        object: "1932-03-15".to_string(),
    }));
}

#[test]
fn test_evaluation_metrics() {
    let predicted: HashSet<Triple> = [
        Triple {
            subject: "Person1".to_string(),
            predicate: "birthdat".to_string(), // Stemmed
            object: "1980".to_string(),
        },
        Triple {
            subject: "Person1".to_string(),
            predicate: "name".to_string(),
            object: "John".to_string(),
        },
    ]
    .iter()
    .cloned()
    .collect();

    let expected: HashSet<Triple> = [
        Triple {
            subject: "Person1".to_string(),
            predicate: "birthdat".to_string(), // Stemmed
            object: "1980".to_string(),
        },
        Triple {
            subject: "Person1".to_string(),
            predicate: "birthplac".to_string(), // Stemmed
            object: "NYC".to_string(),
        },
    ]
    .iter()
    .cloned()
    .collect();

    let metrics = EvaluationMetrics::new(&predicted, &expected);

    assert_eq!(metrics.true_positives, 1);
    assert_eq!(metrics.false_positives, 1);
    assert_eq!(metrics.false_negatives, 1);
    assert_eq!(metrics.precision, 0.5);
    assert_eq!(metrics.recall, 0.5);
    assert_eq!(metrics.f1_score, 0.5);
}

#[test]
fn test_perfect_match() {
    let triples: HashSet<Triple> = [Triple {
        subject: "Test".to_string(),
        predicate: "prop".to_string(),
        object: "value".to_string(),
    }]
    .iter()
    .cloned()
    .collect();

    let metrics = EvaluationMetrics::new(&triples, &triples);

    assert_eq!(metrics.precision, 1.0);
    assert_eq!(metrics.recall, 1.0);
    assert_eq!(metrics.f1_score, 1.0);
}

// ---------------------------------------------------------------------------
// Serialization round trip
// ---------------------------------------------------------------------------

#[test]
fn document_serialization_round_trips() {
    let json = "{\"@context\": \"https://schema.org/\", \"@type\": \"Person\", \"name\": \"alan_bean\", \"score\": 42, \"flag\": true, \"tags\": [\"a\", \"b\"]}";
    let doc = doc_from(json);
    let out = doc.to_json();
    let reparsed = parse_json(&out).unwrap();
    assert_eq!(
        reparsed.get_field("name").unwrap().as_text().unwrap().as_str(),
        "alan_bean"
    );
    match reparsed.get_field("tags").unwrap() {
        JsonValue::Array(items) => assert_eq!(items.len(), 2),
        _ => panic!("the tags survive the round trip as an array"),
    }
}

#[test]
fn sidecar_result_collects_mention_offsets() {
    let clusters = vec![
        CoreferenceCluster {
            canonical: "Marie Curie".to_string(),
            canonical_offset: 0,
            mentions: vec![
                Mention {
                    text: "Marie Curie".to_string(),
                    start: 0,
                    end: 11,
                    mention_type: MentionType::Proper,
                },
                Mention {
                    text: "She".to_string(),
                    start: 30,
                    end: 33,
                    mention_type: MentionType::Pronominal,
                },
            ],
            confidence_milli: 900,
        },
        CoreferenceCluster {
            canonical: "Warsaw".to_string(),
            canonical_offset: 50,
            mentions: vec![Mention {
                text: "it".to_string(),
                start: 70,
                end: 72,
                mention_type: MentionType::Pronominal,
            }],
            confidence_milli: 800,
        },
    ];
    let r = sidecar_result("Marie Curie was born. Marie Curie...".to_string(), clusters);
    assert_eq!(r.resolved_text, "Marie Curie was born. Marie Curie...");
    assert_eq!(r.clusters.len(), 2);
    assert_eq!(r.offset_to_canonical.len(), 3);
    assert!(r
        .offset_to_canonical
        .contains(&(0usize, "Marie Curie".to_string())));
    assert!(r
        .offset_to_canonical
        .contains(&(30usize, "Marie Curie".to_string())));
    assert!(r
        .offset_to_canonical
        .contains(&(70usize, "Warsaw".to_string())));
}

#[test]
fn ranking_orders_by_confidence_keeping_ties_stable() {
    let cands = vec![
        cand("a", "http://example.org/a", 700),
        cand("b", "http://example.org/b", 950),
        cand("c", "http://example.org/c", 700),
        cand("d", "http://example.org/d", 900),
    ];
    let ranked = rank_by_confidence(&cands);
    let uris: Vec<&str> = ranked.iter().map(|c| c.uri.as_str()).collect();
    assert_eq!(
        uris,
        vec![
            "http://example.org/b",
            "http://example.org/d",
            "http://example.org/a",
            "http://example.org/c",
        ]
    );
}
