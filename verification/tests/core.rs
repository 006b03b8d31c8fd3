//! Tests for the chunker, the registry, coreference, normalization, the
//! document types and validation.

use text_to_rdf::chunking::SemanticChunker;
use text_to_rdf::coref::{classify_pronoun, is_proper_noun_start, CorefConfig, CorefResolver, CorefStrategy, PronounType};
use text_to_rdf::coreference::{CoreferenceConfig, CoreferenceEngine, CoreferenceStrategy};
use text_to_rdf::entity_linker::{EntityLinker, EntityLinkerConfig, LinkingStrategy};
use text_to_rdf::error::Error;
use text_to_rdf::json::{parse_json, JsonValue};
use text_to_rdf::knowledge_buffer::KnowledgeBuffer;
use text_to_rdf::normalize::{normalize_entity_name, normalize_jsonld_value, normalize_predicate};
use text_to_rdf::types::{serialize_entity_type, EntityType, RdfDocument};
use text_to_rdf::validation::{RdfValidator, ValidationRule};

fn field_text<'a>(v: &'a JsonValue, key: &str) -> Option<&'a str> {
    v.get_field(key).and_then(|f| f.as_text()).map(|s| s.as_str())
}

#[test]
fn it_works() {
    assert_eq!(2 + 2, 4);
}

#[test]
fn lib_test_config_builder() {
    let config = text_to_rdf::ExtractionConfig::new()
        .with_model("gpt-4o")
        .with_temperature_milli(500)
        .with_max_tokens(2000);

    assert_eq!(config.model, "gpt-4o");
    assert_eq!(config.temperature_milli, Some(500));
    assert_eq!(config.max_tokens, Some(2000));
}

#[test]
fn test_config_with_system_prompt() {
    let config = text_to_rdf::ExtractionConfig::new().with_system_prompt("Custom prompt");

    assert_eq!(config.system_prompt, Some("Custom prompt".to_string()));
}

// ---------------------------------------------------------------------------
// Chunker
// ---------------------------------------------------------------------------

#[test]
fn test_chunking_short_text() {
    let chunker = SemanticChunker::new(1000, 100);
    let text = "This is a short document. It should not be chunked.";

    let chunks = chunker.chunk(text);

    assert_eq!(chunks.len(), 1);
    assert_eq!(chunks[0].text, text);
    assert_eq!(chunks[0].start_offset, 0);
    assert_eq!(chunks[0].end_offset, text.len());
}

#[test]
fn test_chunking_long_text() {
    let chunker = SemanticChunker::new(100, 20);
    let text = "This is sentence one. This is sentence two. This is sentence three. This is sentence four. This is sentence five. This is sentence six.";

    let chunks = chunker.chunk(text);

    assert!(
        chunks.len() > 1,
        "Long text should be split into multiple chunks"
    );

    for i in 1..chunks.len() {
        assert!(
            chunks[i - 1].text.len() > 20,
            "Previous chunk should be long enough for overlap"
        );
    }
}

#[test]
fn test_needs_chunking() {
    let chunker = SemanticChunker::new(100, 20);

    assert!(!chunker.needs_chunking("Short text"));
    assert!(chunker.needs_chunking(&"x".repeat(200)));
}

#[test]
fn test_estimate_chunk_count() {
    let chunker = SemanticChunker::new(100, 20);

    assert_eq!(chunker.estimate_chunk_count("Short"), 1);
    assert_eq!(chunker.estimate_chunk_count(&"x".repeat(100)), 1);
    assert_eq!(chunker.estimate_chunk_count(&"x".repeat(200)), 3);
}

#[test]
fn chunk_count_matches_estimate() {
    let chunker = SemanticChunker::new(100, 20);
    for len in [0usize, 1, 99, 100, 101, 159, 160, 161, 200, 777] {
        let text = "y".repeat(len);
        assert_eq!(chunker.chunk(&text).len(), chunker.estimate_chunk_count(&text));
    }
}

#[test]
fn chunk_overlap_duplicates_trailing_text() {
    // The chunker commits to duplicating the trailing characters of one
    // window at the start of the next.
    let chunker = SemanticChunker::new(10, 4);
    let text = "abcdefghijklmnop";
    let chunks = chunker.chunk(text);
    assert!(chunks.len() >= 2);
    for i in 1..chunks.len() {
        assert_eq!(chunks[i].start_offset, chunks[i - 1].end_offset - 4);
        let prev_tail = &text[chunks[i].start_offset..chunks[i - 1].end_offset];
        assert!(chunks[i].text.starts_with(prev_tail));
    }
    for c in &chunks {
        assert!(c.text.len() <= 10);
        assert_eq!(&text[c.start_offset..c.end_offset], c.text);
    }
}

// ---------------------------------------------------------------------------
// Coreference (rule-based resolver)
// ---------------------------------------------------------------------------

#[test]
fn coref_test_config_default() {
    let config = CorefConfig::default();
    assert!(matches!(config.strategy, CorefStrategy::RuleBased));
    assert!(config.preserve_original);
    assert_eq!(config.max_distance, 3);
}

#[test]
fn test_pronoun_classification() {
    assert_eq!(classify_pronoun("he"), Some(PronounType::Masculine));
    assert_eq!(classify_pronoun("she"), Some(PronounType::Feminine));
    assert_eq!(classify_pronoun("it"), Some(PronounType::Neutral));
    assert_eq!(classify_pronoun("they"), Some(PronounType::Plural));
    assert_eq!(classify_pronoun("the"), None);
}

#[test]
fn test_proper_noun_detection() {
    assert!(is_proper_noun_start("John"));
    assert!(is_proper_noun_start("Microsoft"));
    assert!(!is_proper_noun_start("the"));
    assert!(!is_proper_noun_start("IBM")); // All caps
}

#[test]
fn test_resolve_none_strategy() {
    let config = CorefConfig { strategy: CorefStrategy::Disabled, ..Default::default() };

    let resolver = CorefResolver::new(config).unwrap();
    let text = "Dan Shalev founded Acme. He served as CEO.";
    let result = resolver.resolve(text).unwrap();

    assert_eq!(result.original_text, text);
    assert_eq!(result.resolved_text, text);
    assert!(result.clusters.is_empty());
}

#[test]
fn test_resolve_rule_based() {
    let config = CorefConfig { strategy: CorefStrategy::RuleBased, max_distance: 2, ..Default::default() };

    let resolver = CorefResolver::new(config).unwrap();
    let text = "Dan Shalev founded Acme Corp. He served as CEO.";
    let result = resolver.resolve(text).unwrap();

    assert!(result.resolved_text.contains("Dan Shalev"));
    assert!(!result.mention_map.is_empty());
}

#[test]
fn coref_replaces_pronoun_with_antecedent() {
    // The resolved text carries the antecedent where the pronoun stood.
    let resolver = CorefResolver::new(CorefConfig::default()).unwrap();
    let text = "Dan Shalev founded Acme Corp. He served as CEO.";
    let result = resolver.resolve(text).unwrap();
    assert_eq!(
        result.resolved_text,
        "Dan Shalev founded Acme Corp. Dan Shalev served as CEO."
    );
    assert_eq!(result.mention_map.len(), 1);
    assert_eq!(result.mention_map[0].0, "He");
    assert_eq!(result.mention_map[0].1, "Dan Shalev");
}

#[test]
fn coref_no_pronouns_text_unchanged() {
    let resolver = CorefResolver::new(CorefConfig::default()).unwrap();
    let text = "Marie Curie discovered radium in Paris.";
    let result = resolver.resolve(text).unwrap();
    assert_eq!(result.resolved_text, text);
    assert!(result.clusters.is_empty());
    assert!(result.mention_map.is_empty());
}

#[test]
fn coreference_test_config_default() {
    let config = CoreferenceConfig::default();
    assert!(matches!(config.strategy, CoreferenceStrategy::Disabled));
    assert_eq!(config.confidence_threshold_milli, 700);
}

#[test]
fn test_noop_resolver() {
    let engine = CoreferenceEngine::new(CoreferenceConfig::default()).unwrap();
    let text = "Dan Shalev founded the company. He is the CEO.";
    let result = engine.resolve(text).unwrap();

    assert_eq!(result.resolved_text, text);
    assert!(result.clusters.is_empty());
}

#[test]
fn test_rule_based_resolver() {
    let config = CoreferenceConfig {
        strategy: CoreferenceStrategy::RuleBased,
        ..Default::default()
    };
    let engine = CoreferenceEngine::new(config).unwrap();
    let text = "Dan Shalev founded the company. He is the CEO.";
    let result = engine.resolve(text).unwrap();

    assert!(!result.clusters.is_empty());
}

// ---------------------------------------------------------------------------
// Knowledge registry
// ---------------------------------------------------------------------------

#[test]
fn test_add_entity() {
    let mut kb = KnowledgeBuffer::new();

    kb.add_entity("Marie Curie", "Person", 0, 0);

    assert!(kb.has_entity("Marie Curie"));
    assert!(kb.has_entity("marie curie")); // Case insensitive
    assert_eq!(kb.entity_count(), 1);
}

#[test]
fn registry_first_sighting_wins() {
    let mut kb = KnowledgeBuffer::new();
    kb.add_entity("Marie Curie", "Person", 7, 1);
    kb.add_entity("marie curie", "Person", 99, 2);
    assert_eq!(kb.entity_count(), 1);
    let record = kb.get_entity("MARIE CURIE").unwrap();
    assert_eq!(record.canonical_name, "Marie Curie");
    assert_eq!(record.first_mention_offset, 7);
    assert_eq!(record.first_chunk_id, 1);
}

#[test]
fn test_add_alias() {
    let mut kb = KnowledgeBuffer::new();

    kb.add_entity("Apple Inc.", "Organization", 0, 0);
    kb.add_alias("the company", "Apple Inc.");
    kb.add_alias("AAPL", "Apple Inc.");

    assert_eq!(kb.resolve_alias("the company"), Some("Apple Inc.".to_string()));
    assert_eq!(kb.resolve_alias("AAPL"), Some("Apple Inc.".to_string()));
    assert_eq!(kb.resolve_alias("unknown"), None);
}

#[test]
fn registry_alias_resolution_is_case_insensitive() {
    let mut kb = KnowledgeBuffer::new();
    kb.add_entity("Apple Inc.", "Organization", 0, 0);
    kb.add_alias("the company", "Apple Inc.");
    assert_eq!(kb.resolve_alias("THE COMPANY"), Some("Apple Inc.".to_string()));
    assert_eq!(kb.resolve_alias("The Company"), Some("Apple Inc.".to_string()));
}

#[test]
fn every_error_kind_names_itself() {
    assert!(Error::AiService("down".to_string()).message().starts_with("AI service error: down"));
    assert!(Error::Io("gone".to_string()).message().starts_with("I/O error: gone"));
    assert!(Error::Network("lost".to_string()).message().starts_with("Network error: lost"));
    assert!(Error::Extraction("odd".to_string()).message().starts_with("Extraction error: odd"));

    // The kinds the library itself produces, from inputs that produce them.
    let parse_err = RdfDocument::from_json("not json").unwrap_err();
    assert!(parse_err.message().starts_with("JSON parsing error"));
    let shape_err = RdfDocument::from_value(parse_json("[1, 2]").unwrap()).unwrap_err();
    assert!(shape_err.message().starts_with("Invalid RDF structure"));
    let missing_err = RdfDocument::from_value(parse_json("{\"a\": 1}").unwrap()).unwrap_err();
    assert!(missing_err.message().starts_with("Missing required field: @context"));
    let doc = RdfDocument::from_value(
        parse_json("{\"@context\": \"https://schema.org/\", \"name\": \"x\"}").unwrap(),
    )
    .unwrap();
    let validation_err = doc.validate().unwrap_err();
    assert!(validation_err.message().starts_with("Validation error"));
}

#[test]
fn registry_alias_never_duplicated() {
    let mut kb = KnowledgeBuffer::new();
    kb.add_entity("Apple Inc.", "Organization", 0, 0);
    kb.add_alias("the company", "Apple Inc.");
    kb.add_alias("The Company", "Apple Inc.");
    kb.add_alias("the company", "Apple Inc.");
    kb.add_alias("apple inc.", "Apple Inc."); // its own key: skipped
    let record = kb.get_entity("Apple Inc.").unwrap();
    assert_eq!(record.aliases, vec!["the company".to_string()]);
}

#[test]
fn test_add_property() {
    let mut kb = KnowledgeBuffer::new();

    kb.add_entity("Apple Inc.", "Organization", 0, 0);
    kb.add_property("Apple Inc.", "foundedYear", "1976");
    kb.add_property("Apple Inc.", "location", "Cupertino");

    let entity = kb.get_entity("Apple Inc.").unwrap();
    let lookup = |key: &str| {
        entity
            .properties
            .iter()
            .find(|p| p.0 == key)
            .map(|p| p.1.clone())
    };
    assert_eq!(lookup("foundedYear"), Some("1976".to_string()));
    assert_eq!(lookup("location"), Some("Cupertino".to_string()));
}

#[test]
fn test_get_context_summary() {
    let mut kb = KnowledgeBuffer::new();

    kb.add_entity("Marie Curie", "Person", 0, 0);
    kb.add_alias("she", "Marie Curie");
    kb.add_property("Marie Curie", "birthPlace", "Warsaw");

    kb.add_entity("University of Paris", "Organization", 100, 0);

    let summary = kb.get_context_summary();

    assert!(summary.contains("Marie Curie"));
    assert!(summary.contains("Person"));
    assert!(summary.contains("University of Paris"));
    assert!(summary.contains("Organization"));
}

#[test]
fn registry_summary_exact_text() {
    let mut kb = KnowledgeBuffer::new();
    assert_eq!(kb.get_context_summary(), "");
    kb.add_entity("Marie Curie", "Person", 0, 0);
    kb.add_alias("she", "Marie Curie");
    kb.add_property("Marie Curie", "birthPlace", "Warsaw");
    assert_eq!(
        kb.get_context_summary(),
        "ENTITIES ALREADY DISCOVERED IN THIS DOCUMENT:\n- Marie Curie (Person) [also called: she] [birthPlace: Warsaw]\n"
    );
}

#[test]
fn test_get_last_entity_of_type() {
    let mut kb = KnowledgeBuffer::new();

    kb.add_entity("Person A", "Person", 0, 0);
    kb.add_entity("Person B", "Person", 100, 0);
    kb.add_entity("Org A", "Organization", 50, 0);

    assert_eq!(kb.get_last_entity_of_type("Person"), Some("Person B".to_string()));
    assert_eq!(kb.get_last_entity_of_type("Organization"), Some("Org A".to_string()));
    assert_eq!(kb.get_last_entity_of_type("Place"), None);
}

#[test]
fn test_get_entities_of_type() {
    let mut kb = KnowledgeBuffer::new();

    kb.add_entity("Person A", "Person", 0, 0);
    kb.add_entity("Person B", "Person", 100, 0);
    kb.add_entity("Org A", "Organization", 50, 0);

    let people = kb.get_entities_of_type("Person");
    assert_eq!(people.len(), 2);

    let orgs = kb.get_entities_of_type("Organization");
    assert_eq!(orgs.len(), 1);
}

#[test]
fn test_clear() {
    let mut kb = KnowledgeBuffer::new();

    kb.add_entity("Entity A", "Person", 0, 0);
    kb.add_entity("Entity B", "Organization", 0, 0);

    assert_eq!(kb.entity_count(), 2);

    kb.clear();

    assert_eq!(kb.entity_count(), 0);
    assert!(!kb.has_entity("Entity A"));
}

// ---------------------------------------------------------------------------
// Normalization
// ---------------------------------------------------------------------------

#[test]
fn test_normalize_entity_name() {
    assert_eq!(normalize_entity_name("Alan Bean"), "alan_bean");
    assert_eq!(normalize_entity_name("Albert Einstein"), "albert_einstein");
    assert_eq!(normalize_entity_name("MIT"), "mit");
    assert_eq!(normalize_entity_name("New York"), "new_york");
}

#[test]
fn test_normalize_unicode() {
    assert_eq!(normalize_entity_name("Jos\u{e9} Garc\u{ed}a"), "jose_garcia");
    assert_eq!(
        normalize_entity_name("Bj\u{f6}rk Gu\u{f0}mundsd\u{f3}ttir"),
        "bjork_gudmundsdottir"
    );
    assert_eq!(normalize_entity_name("Ca\u{f1}\u{f3}n City"), "canon_city");
}

#[test]
fn test_normalize_special_chars() {
    assert_eq!(normalize_entity_name("AT&T Corporation"), "at_t_corporation");
    assert_eq!(normalize_entity_name("O'Reilly Media"), "o_reilly_media");
}

#[test]
fn test_normalize_predicate() {
    assert_eq!(normalize_predicate("runs"), "run");
    assert_eq!(normalize_predicate("running"), "run");
    assert_eq!(normalize_predicate("ran"), "ran"); // irregular verb, stays as-is

    assert_eq!(normalize_predicate("serves"), "serv");
    assert_eq!(normalize_predicate("serving"), "serv");
    assert_eq!(normalize_predicate("served"), "serv");

    assert_eq!(normalize_predicate("graduates"), "graduat");
    assert_eq!(normalize_predicate("graduating"), "graduat");
    assert_eq!(normalize_predicate("graduated"), "graduat");
}

#[test]
fn test_normalize_predicate_camelcase() {
    assert_eq!(normalize_predicate("birthdate"), "birthdat");
    assert_eq!(normalize_predicate("almamater"), "almamat");
    assert_eq!(normalize_predicate("cityserved"), "cityserv");
}

#[test]
fn test_normalize_jsonld() {
    let mut value = parse_json(
        "{\"@context\": \"https://schema.org/\", \"@type\": \"Person\", \"name\": \"Alan Bean\", \"birthDate\": \"1932-03-15\"}",
    )
    .unwrap();

    normalize_jsonld_value(&mut value);

    assert_eq!(field_text(&value, "name"), Some("alan_bean"));
    assert_eq!(field_text(&value, "birthDate"), Some("1932-03-15")); // Dates not normalized
    assert_eq!(field_text(&value, "@context"), Some("https://schema.org/")); // URLs not normalized
}

#[test]
fn test_normalize_jsonld_preserves_nested_names() {
    let mut value = parse_json(
        "{\"@context\": \"https://schema.org/\", \"@type\": \"Person\", \"name\": \"Alan Bean\", \"alumniOf\": {\"@type\": \"EducationalOrganization\", \"name\": \"UT Austin\"}}",
    )
    .unwrap();

    normalize_jsonld_value(&mut value);

    assert_eq!(field_text(&value, "name"), Some("alan_bean"));
    let nested = value.get_field("alumniOf").unwrap();
    assert_eq!(field_text(nested, "name"), Some("UT Austin"));
}

#[test]
fn test_normalize_jsonld_location() {
    let mut value = parse_json(
        "{\"@context\": \"https://schema.org/\", \"@type\": \"Airport\", \"name\": \"Aarhus Airport\", \"location\": {\"@type\": \"Place\", \"name\": \"Aarhus\", \"addressCountry\": \"Denmark\"}}",
    )
    .unwrap();

    normalize_jsonld_value(&mut value);

    assert_eq!(field_text(&value, "name"), Some("aarhus_airport"));
    let nested = value.get_field("location").unwrap();
    assert_eq!(field_text(nested, "name"), Some("Aarhus"));
    assert_eq!(field_text(nested, "addressCountry"), Some("Denmark"));
}

// ---------------------------------------------------------------------------
// Document types
// ---------------------------------------------------------------------------

#[test]
fn test_schema_mapping() {
    assert_eq!(serialize_entity_type(&EntityType::Person), "Person");
    assert_eq!(serialize_entity_type(&EntityType::Organization), "Organization");
}

#[test]
fn test_rdf_document_from_json() {
    let json = "{\n  \"@context\": \"https://schema.org/\",\n  \"@type\": \"Person\",\n  \"name\": \"Test\"\n}";

    let doc = RdfDocument::from_json(json).unwrap();
    assert_eq!(doc.get_type(), Some("Person"));
}

#[test]
fn test_rdf_document_validation() {
    let valid = parse_json(
        "{\"@context\": \"https://schema.org/\", \"@type\": \"Person\", \"name\": \"Test\"}",
    )
    .unwrap();
    let doc = RdfDocument::from_value(valid).unwrap();
    assert!(doc.validate().is_ok());

    let invalid = parse_json("{\"@context\": \"https://schema.org/\", \"name\": \"Test\"}").unwrap();
    let doc = RdfDocument::from_value(invalid).unwrap();
    assert!(doc.validate().is_err());
}

// ---------------------------------------------------------------------------
// Validation
// ---------------------------------------------------------------------------

fn doc_from(json: &str) -> RdfDocument {
    RdfDocument::from_value(parse_json(json).unwrap()).unwrap()
}

#[test]
fn test_valid_person() {
    let doc = doc_from(
        "{\"@context\": \"https://schema.org/\", \"@type\": \"Person\", \"@id\": \"http://dbpedia.org/resource/Alan_Bean\", \"name\": \"Alan Bean\", \"birthDate\": \"1932-03-15\"}",
    );

    let validator = RdfValidator::with_schema_org_rules();
    let result = validator.validate(&doc);

    assert!(result.is_valid());
    assert_eq!(result.violations.len(), 0);
}

#[test]
fn test_person_missing_name() {
    let doc = doc_from(
        "{\"@context\": \"https://schema.org/\", \"@type\": \"Person\", \"birthDate\": \"1932-03-15\"}",
    );

    let validator = RdfValidator::with_schema_org_rules();
    let result = validator.validate(&doc);

    assert!(!result.is_valid());
    assert_eq!(result.errors().len(), 1);
    assert!(result.errors()[0].message.contains("name"));
}

#[test]
fn test_invalid_date_format() {
    let doc = doc_from(
        "{\"@context\": \"https://schema.org/\", \"@type\": \"Person\", \"name\": \"Test\", \"birthDate\": \"32/03/15\"}",
    );

    let validator = RdfValidator::with_schema_org_rules();
    let result = validator.validate(&doc);

    assert!(result.is_valid()); // Still valid, just a warning
    assert_eq!(result.warnings().len(), 1);
}

#[test]
fn test_organization_validation() {
    let doc = doc_from("{\"@context\": \"https://schema.org/\", \"@type\": \"Organization\"}");

    let validator = RdfValidator::with_schema_org_rules();
    let result = validator.validate(&doc);

    assert!(!result.is_valid());
    assert_eq!(result.errors().len(), 1);
}

#[test]
fn test_custom_rule() {
    let mut validator = RdfValidator::new();
    validator.add_rule(ValidationRule {
        name: "test_rule".to_string(),
        description: "Test requires foo".to_string(),
        required_properties: vec!["foo".to_string()],
        entity_type: None,
        sparql_ask: None,
    });

    let doc = doc_from("{\"@context\": \"https://schema.org/\", \"@type\": \"Thing\"}");

    let result = validator.validate(&doc);
    assert!(!result.is_valid());
}

#[test]
fn test_validation_with_linking() {
    let doc = doc_from(
        "{\"@context\": \"https://schema.org/\", \"@type\": \"Person\", \"@id\": \"http://dbpedia.org/resource/Alan_Bean\", \"name\": \"alan_bean\", \"birthDate\": \"1932-03-15\"}",
    );

    let validator = RdfValidator::with_schema_org_rules();
    let result = validator.validate(&doc);

    assert!(result.is_valid());

    assert!(doc.get_id().is_some());
    assert!(doc.get_id().unwrap().contains("dbpedia.org"));
}

// ---------------------------------------------------------------------------
// Linker configuration
// ---------------------------------------------------------------------------

#[test]
fn entity_linker_test_config_default() {
    let config = EntityLinkerConfig::default();
    assert!(!config.enabled);
    assert!(matches!(config.strategy, LinkingStrategy::Disabled));
    assert_eq!(config.confidence_threshold_milli, 500);
}

#[test]
fn entity_linker_test_config_builder() {
    let config = EntityLinkerConfig {
        enabled: true,
        strategy: LinkingStrategy::DbpediaSpotlight,
        confidence_threshold_milli: 700,
        ..Default::default()
    };

    assert!(config.enabled);
    assert!(matches!(config.strategy, LinkingStrategy::DbpediaSpotlight));
    assert_eq!(config.confidence_threshold_milli, 700);
}

#[test]
fn test_linker_creation() {
    let config = EntityLinkerConfig::default();
    let linker = EntityLinker::new(config);
    assert!(linker.is_ok());
}

#[test]
fn test_disabled_linker() {
    let config = EntityLinkerConfig::default(); // disabled by default
    let linker = EntityLinker::new(config).unwrap();

    let result = linker.link_entity("Alan Bean", Some("Person"));

    assert!(result.is_ok());
    assert!(matches!(
        result.unwrap(),
        text_to_rdf::entity_linker::LinkStep::NoLink
    ));
}

#[test]
fn test_local_strategy_requires_path() {
    let config = EntityLinkerConfig {
        enabled: true,
        strategy: LinkingStrategy::Local,
        local_kb_path: None,
        ..Default::default()
    };

    let linker = EntityLinker::new(config);
    match linker {
        Err(e) => assert!(e.message().contains("local_kb_path")),
        Ok(_) => panic!("the local strategy must demand a knowledge base path"),
    }
}
