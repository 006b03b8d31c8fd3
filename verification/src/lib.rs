//! Extraction of structured entity/relation graphs from long documents.
//!
//! A document is split into overlapping text windows, each window is
//! preprocessed by coreference resolution, handed to an external extraction
//! capability, linked against a knowledge store, and the per-window results
//! are merged into one graph. A per-document knowledge registry keeps the
//! windows consistent with each other.

pub mod chunking;
pub mod coref;
pub mod coreference;
pub mod entity_linker;
pub mod error;
pub mod extractor;
pub mod json;
pub mod knowledge_buffer;
pub mod normalize;
pub mod textutil;
pub mod types;
pub mod validation;

use vstd::prelude::*;
use vstd::string::StringExecFns;

verus! {

/// Configuration for a document run. Temperatures and confidences are kept
/// per-mille, as integers from 0 to 1000.
pub struct ExtractionConfig {
    /// The completion model to use.
    pub model: String,
    /// An optional cheaper model for simple tasks.
    pub simple_model: Option<String>,
    /// Sampling temperature, per-mille.
    pub temperature_milli: Option<u32>,
    /// Maximum tokens in a reply.
    pub max_tokens: Option<u32>,
    /// Custom standing instructions, replacing the built-in ones.
    pub system_prompt: Option<String>,
    /// Target ontologies.
    pub ontologies: Vec<String>,
    /// Entity linker configuration.
    pub entity_linker: entity_linker::EntityLinkerConfig,
    /// Retry budget beyond the first extraction attempt.
    pub max_retries: u32,
    /// Whether rejected documents count as failures.
    pub strict_validation: bool,
    /// Whether the built-in context replaces a reply's.
    pub inject_hardcoded_context: bool,
    /// Whether window provenance is attached to results.
    pub provenance_tracking: bool,
    /// Token-estimate cutoff under which a document takes the short path.
    pub chunk_threshold: usize,
}

impl Default for ExtractionConfig {
    /// The stock configuration: two retries, strict validation, context
    /// injection, linking disabled, a chunk threshold of 2000 tokens.
    fn default() -> (r: Self)
        ensures
            r.temperature_milli == Some(300u32),
            r.max_tokens == Some(4096u32),
            r.system_prompt is None,
            r.max_retries == 2,
            r.strict_validation == true,
            r.inject_hardcoded_context == true,
            r.provenance_tracking == false,
            r.chunk_threshold == 2000,
            r.ontologies@.len() == 1,
            r.entity_linker.enabled == false,
    {
        let mut ontologies: Vec<String> = Vec::new();
        ontologies.push(String::from_str("https://schema.org/"));
        ExtractionConfig {
            model: String::from_str("gemini-1.5-pro"),
            simple_model: None,
            temperature_milli: Some(300),
            max_tokens: Some(4096),
            system_prompt: None,
            ontologies,
            entity_linker: entity_linker::EntityLinkerConfig::default(),
            max_retries: 2,
            strict_validation: true,
            inject_hardcoded_context: true,
            provenance_tracking: false,
            chunk_threshold: 2000,
        }
    }
}

impl ExtractionConfig {
    /// The stock configuration.
    pub fn new() -> (r: Self)
        ensures
            r.max_retries == 2 && r.strict_validation == true,
    {
        Self::default()
    }

    /// Set the completion model.
    pub fn with_model(self, model: &str) -> (r: Self)
        ensures
            r.model@ == model@,
            r.max_retries == self.max_retries,
            r.temperature_milli == self.temperature_milli,
            r.max_tokens == self.max_tokens,
    {
        Self { model: String::from_str(model), ..self }
    }

    /// Set the sampling temperature, per-mille.
    pub fn with_temperature_milli(self, temperature_milli: u32) -> (r: Self)
        ensures
            r == (Self { temperature_milli: Some(temperature_milli), ..self }),
    {
        Self { temperature_milli: Some(temperature_milli), ..self }
    }

    /// Set the maximum reply tokens.
    pub fn with_max_tokens(self, max_tokens: u32) -> (r: Self)
        ensures
            r == (Self { max_tokens: Some(max_tokens), ..self }),
    {
        Self { max_tokens: Some(max_tokens), ..self }
    }

    /// Add an ontology namespace.
    pub fn with_ontology(self, ontology: &str) -> (r: Self)
        ensures
            r.ontologies@.len() == self.ontologies@.len() + 1,
            r.ontologies@.last()@ == ontology@,
            r.model == self.model,
    {
        let mut s = self;
        s.ontologies.push(String::from_str(ontology));
        s
    }

    /// Set custom standing instructions.
    pub fn with_system_prompt(self, prompt: &str) -> (r: Self)
        ensures
            r.system_prompt is Some && r.system_prompt->0@ == prompt@,
            r.model == self.model,
    {
        Self { system_prompt: Some(String::from_str(prompt)), ..self }
    }

    /// Set the retry budget.
    pub fn with_max_retries(self, max_retries: u32) -> (r: Self)
        ensures
            r == (Self { max_retries, ..self }),
    {
        Self { max_retries, ..self }
    }

    /// Switch strict validation on or off.
    pub fn with_strict_validation(self, strict_validation: bool) -> (r: Self)
        ensures
            r == (Self { strict_validation, ..self }),
    {
        Self { strict_validation, ..self }
    }

    /// Set a cheaper model for simple tasks.
    pub fn with_simple_model(self, model: &str) -> (r: Self)
        ensures
            r.simple_model is Some && r.simple_model->0@ == model@,
            r.model == self.model,
    {
        Self { simple_model: Some(String::from_str(model)), ..self }
    }

    /// Switch context injection on or off.
    pub fn with_inject_hardcoded_context(self, inject: bool) -> (r: Self)
        ensures
            r == (Self { inject_hardcoded_context: inject, ..self }),
    {
        Self { inject_hardcoded_context: inject, ..self }
    }

    /// Switch provenance tracking on or off.
    pub fn with_provenance_tracking(self, provenance_tracking: bool) -> (r: Self)
        ensures
            r == (Self { provenance_tracking, ..self }),
    {
        Self { provenance_tracking, ..self }
    }

    /// Set the short-path token cutoff.
    pub fn with_chunk_threshold(self, chunk_threshold: usize) -> (r: Self)
        ensures
            r == (Self { chunk_threshold, ..self }),
    {
        Self { chunk_threshold, ..self }
    }
}

/// Rough token estimate: one token per four characters of text.
pub open spec fn spec_estimate_tokens(len: nat) -> nat {
    len / 4
}

/// Estimate the number of tokens in a text.
pub fn estimate_tokens(text: &str) -> (r: usize)
    ensures
        r == spec_estimate_tokens(text@.len()),
{
    let chars = textutil::string_to_chars(text);
    chars.len() / 4
}

} // verus!
