//! The sequential pipeline: prompts, the retry session, the per-window
//! orchestration, and the merger.
//!
//! Every decision of the pipeline stands here, verified: which path a
//! document takes, what is asked of the text-completion capability, how a
//! reply is parsed and validated, how the registry is updated, and how the
//! per-window results are merged. The completion calls themselves are the
//! caller's: the pipeline hands out messages and accepts replies.

use crate::chunking::{DocumentChunk, SemanticChunker};
use crate::coref::{CorefConfig, CorefResolver, CorefResult};
use crate::error::Error;
use crate::json::{
    field_models_of, first_field, json_of, json_ok, lemma_first_field_at, models_of, obj_has,
    JsonModel, JsonValue,
};
use crate::knowledge_buffer::{summary_of, KnowledgeBuffer};
use crate::textutil::{
    find_first_at, find_first_char, find_last_char, find_sub_from, lemma_find_first_at,
    lemma_find_first_char_at, lemma_find_first_char_none, lemma_find_first_none,
    lemma_find_last_char_at, lemma_find_last_char_none, matches_at, string_to_chars, sub_chars_of,
    trim_ws, trim_ws_exec,
};
use crate::types::{injected_model, primary_text_field, RdfDocument};
use crate::ExtractionConfig;
use vstd::prelude::*;
use vstd::string::StringExecFns;

verus! {

// ---------------------------------------------------------------------------
// Reading a completion reply
// ---------------------------------------------------------------------------

/// The reply carries a fenced JSON block: the first fence opens at `p`, the
/// first closing fence after it at `q`, and `res` is the trimmed text
/// between.
pub open spec fn fenced_extract(t: Seq<char>, p: int, q: int, res: Seq<char>) -> bool {
    &&& matches_at(t, "```json"@, p)
    &&& forall|x: int| 0 <= x < p ==> !matches_at(t, "```json"@, x)
    &&& p + 7 <= q
    &&& matches_at(t, "```"@, q)
    &&& forall|x: int| p + 7 <= x < q ==> !matches_at(t, "```"@, x)
    &&& res == trim_ws(t.subrange(p + 7, q))
}

/// The reply carries bare JSON: `a` is the first opening brace, `b` the last
/// closing brace, and `res` is the trimmed text from `a` to `b` inclusive.
pub open spec fn braced_extract(t: Seq<char>, a: int, b: int, res: Seq<char>) -> bool {
    &&& 0 <= a <= b < t.len()
    &&& t[a] == '{'
    &&& (forall|x: int| 0 <= x < a ==> t[x] != '{')
    &&& t[b] == '}'
    &&& (forall|x: int| b < x < t.len() ==> t[x] != '}')
    &&& res == trim_ws(t.subrange(a, b + 1))
}

/// The JSON content of a completion reply, as a function of the reply: the
/// content of the first fenced JSON block if there is one, else the span
/// from the first opening to the last closing brace if they stand in order,
/// else the whole reply; trimmed in every case.
pub open spec fn extracted_json(t: Seq<char>) -> Seq<char> {
    let p = find_first_at(t, "```json"@, 0);
    let q = if p >= 0 {
        find_first_at(t, "```"@, p + 7)
    } else {
        -1
    };
    if p >= 0 && q >= 0 {
        trim_ws(t.subrange(p + 7, q))
    } else {
        let a = find_first_char(t, '{', 0);
        let b = find_last_char(t, '}', t.len() as int);
        if 0 <= a && a <= b {
            trim_ws(t.subrange(a, b + 1))
        } else {
            trim_ws(t)
        }
    }
}

/// Extract the JSON content from a completion reply.
pub fn extract_json_from_response(response: &str) -> (r: String)
    ensures
        r@ == extracted_json(response@),
        (exists|p: int, q: int| fenced_extract(response@, p, q, r@)) || (exists|a: int, b: int|
            braced_extract(response@, a, b, r@)) || r@ == trim_ws(response@),
{
    let cs = string_to_chars(response);
    let fence = string_to_chars("```json");
    let close = string_to_chars("```");
    proof {
        reveal_strlit("```json");
        reveal_strlit("```");
        assert(fence@.len() == 7);
        assert(close@.len() == 3);
    }
    let total: usize = cs.len();
    match find_sub_from(&cs, &fence, 0) {
        Some(p) => {
            proof {
                assert(p + 7 <= total);
                lemma_find_first_at(response@, "```json"@, 0, p as int);
            }
            match find_sub_from(&cs, &close, p + 7) {
                Some(q) => {
                    let inner = sub_chars_of(&cs, p + 7, q);
                    let trimmed = trim_ws_exec(inner);
                    let r = crate::textutil::chars_to_string(&trimmed);
                    proof {
                        lemma_find_first_at(response@, "```"@, p + 7, q as int);
                        assert(fenced_extract(response@, p as int, q as int, r@));
                    }
                    return r;
                },
                None => {
                    proof {
                        lemma_find_first_none(response@, "```"@, p + 7);
                    }
                },
            }
        },
        None => {
            proof {
                lemma_find_first_none(response@, "```json"@, 0);
            }
        },
    }
    // No usable fence: look for a brace-delimited span.
    let n: usize = cs.len();
    let mut first_open: usize = n;
    let mut i: usize = 0;
    while i < n
        invariant
            i <= n,
            n == cs@.len(),
            first_open <= n,
            first_open < n ==> cs@[first_open as int] == '{' && forall|x: int|
                0 <= x < first_open ==> cs@[x] != '{',
            first_open == n ==> forall|x: int| 0 <= x < i ==> cs@[x] != '{',
        decreases n - i,
    {
        if first_open == n && cs[i] == '{' {
            first_open = i;
        }
        i += 1;
    }
    let mut last_close: usize = n;
    let mut k: usize = n;
    while k > 0
        invariant
            k <= n,
            n == cs@.len(),
            last_close <= n,
            last_close < n ==> cs@[last_close as int] == '}' && forall|x: int|
                last_close < x < n ==> cs@[x] != '}',
            last_close == n ==> forall|x: int| k <= x < n ==> cs@[x] != '}',
        decreases k,
    {
        k -= 1;
        if last_close == n && cs[k] == '}' {
            last_close = k;
        }
    }
    proof {
        if first_open < n {
            lemma_find_first_char_at(response@, '{', 0, first_open as int);
        } else {
            lemma_find_first_char_none(response@, '{', 0);
        }
        if last_close < n {
            lemma_find_last_char_at(response@, '}', n as int, last_close as int);
        } else {
            lemma_find_last_char_none(response@, '}', n as int);
        }
    }
    if first_open < n && last_close < n && first_open <= last_close {
        let inner = sub_chars_of(&cs, first_open, last_close + 1);
        let trimmed = trim_ws_exec(inner);
        let r = crate::textutil::chars_to_string(&trimmed);
        proof {
            assert(braced_extract(response@, first_open as int, last_close as int, r@));
        }
        return r;
    }
    let trimmed = trim_ws_exec(cs);
    crate::textutil::chars_to_string(&trimmed)
}

// ---------------------------------------------------------------------------
// Prompts
// ---------------------------------------------------------------------------

/// The standing extraction instructions handed to the completion capability.
pub open spec fn default_prompt_text() -> Seq<char> {
    "You are an expert RDF extraction system. Extract ONLY explicitly stated facts from text.\n\
    Rules:\n\
    1. Return ONLY valid JSON-LD conforming to Schema.org, with no commentary.\n\
    2. Extract ONLY facts directly stated in the text, never inferences.\n\
    3. Use these entity types: Person, Organization, EducationalOrganization, Place, Event, Airport.\n\
    4. Always include @context set to \"https://schema.org/\" and @type for the main entity.\n\
    5. Use @id for entity identifiers and standard Schema.org property names.\n\
    6. For nested entities include only the name property.\n\
    7. Extract dates in YYYY-MM-DD form when explicitly mentioned.\n\
    8. Track entities across sentences: resolve pronouns to the entity they stand for.\n\
    9. Focus on the main entity of the text and keep relation directions correct.\n\
    10. If extraction fails validation, you will receive the errors and must correct them."@
}

/// The standing extraction instructions handed to the completion capability.
pub fn default_system_prompt() -> (r: String)
    ensures
        r@ == default_prompt_text(),
{
    String::from_str(
        "You are an expert RDF extraction system. Extract ONLY explicitly stated facts from text.\n\
    Rules:\n\
    1. Return ONLY valid JSON-LD conforming to Schema.org, with no commentary.\n\
    2. Extract ONLY facts directly stated in the text, never inferences.\n\
    3. Use these entity types: Person, Organization, EducationalOrganization, Place, Event, Airport.\n\
    4. Always include @context set to \"https://schema.org/\" and @type for the main entity.\n\
    5. Use @id for entity identifiers and standard Schema.org property names.\n\
    6. For nested entities include only the name property.\n\
    7. Extract dates in YYYY-MM-DD form when explicitly mentioned.\n\
    8. Track entities across sentences: resolve pronouns to the entity they stand for.\n\
    9. Focus on the main entity of the text and keep relation directions correct.\n\
    10. If extraction fails validation, you will receive the errors and must correct them.",
    )
}

/// The feedback sent back to the completion capability for each error kind.
pub open spec fn feedback_of(e: Error) -> Seq<char> {
    match e {
        Error::JsonParse(m) => "JSON parsing error: "@ + m@
            + "\nReturn syntactically valid JSON with no trailing commas."@,
        Error::Validation(m) => "Schema validation error: "@ + m@
            + "\nEnsure @context is \"https://schema.org/\" and a valid @type is present."@,
        Error::InvalidRdf(m) => "RDF structure error: "@ + m@
            + "\nReturn one JSON-LD object with the required fields."@,
        Error::MissingField(m) => "Missing required field: "@ + m@
            + "\nInclude every required Schema.org property."@,
        _ => "Extraction error: "@ + crate::error::message_of(e)
            + "\nTry again with valid JSON-LD."@,
    }
}

/// Render the feedback for an extraction error.
pub fn generate_validation_error_message(error: &Error) -> (r: String)
    ensures
        r@ == feedback_of(*error),
{
    match error {
        Error::JsonParse(m) => {
            let mut s = String::from_str("JSON parsing error: ");
            s.append(m.as_str());
            s.append("\nReturn syntactically valid JSON with no trailing commas.");
            s
        },
        Error::Validation(m) => {
            let mut s = String::from_str("Schema validation error: ");
            s.append(m.as_str());
            s.append("\nEnsure @context is \"https://schema.org/\" and a valid @type is present.");
            s
        },
        Error::InvalidRdf(m) => {
            let mut s = String::from_str("RDF structure error: ");
            s.append(m.as_str());
            s.append("\nReturn one JSON-LD object with the required fields.");
            s
        },
        Error::MissingField(m) => {
            let mut s = String::from_str("Missing required field: ");
            s.append(m.as_str());
            s.append("\nInclude every required Schema.org property.");
            s
        },
        _ => {
            let mut s = String::from_str("Extraction error: ");
            let msg = error.message();
            s.append(msg.as_str());
            s.append("\nTry again with valid JSON-LD.");
            s
        },
    }
}

/// Who speaks a conversation turn.
#[derive(Debug, Clone, Copy, PartialEq, Eq, Structural)]
pub enum ChatRole {
    System,
    User,
    Assistant,
}

/// One turn of the conversation with the completion capability.
pub struct ChatTurn {
    /// Who speaks.
    pub role: ChatRole,
    /// What is said.
    pub content: String,
}

impl ChatTurn {
    /// A copy of this turn.
    pub fn duplicate(&self) -> (r: ChatTurn)
        ensures
            r.role == self.role,
            r.content@ == self.content@,
    {
        ChatTurn { role: self.role, content: self.content.clone() }
    }
}

/// The system prompt for a window: the base instructions, with the
/// registry's context summary appended when the registry is not empty.
pub open spec fn context_prompt_text(base: Seq<char>, kb: Seq<
    crate::knowledge_buffer::EntityContext,
>) -> Seq<char> {
    if kb.len() == 0 {
        base
    } else {
        base + "\n\n===== DOCUMENT CONTEXT =====\n"@ + summary_of(kb)
            + "===== END CONTEXT =====\n\nUse this context to resolve pronouns and entity references in the text below."@
    }
}

/// Build the context-enriched system prompt from the registry.
pub fn build_context_prompt(base: &str, kb: &KnowledgeBuffer) -> (r: String)
    ensures
        r@ == context_prompt_text(base@, kb.entries()),
{
    if kb.entity_count() == 0 {
        return String::from_str(base);
    }
    let mut p = String::from_str(base);
    p.append("\n\n===== DOCUMENT CONTEXT =====\n");
    let summary = kb.get_context_summary();
    p.append(summary.as_str());
    p.append(
        "===== END CONTEXT =====\n\nUse this context to resolve pronouns and entity references in the text below.",
    );
    proof {
        assert(p@ =~= context_prompt_text(base@, kb.entries()));
    }
    p
}

/// The user message asking for extraction from a text.
pub open spec fn extraction_request_text(text: Seq<char>) -> Seq<char> {
    "Extract RDF entities and relations from the following text. Return only valid JSON-LD:\n\n"@
        + text
}

/// The user message asking for a corrected extraction after an error.
pub open spec fn retry_request_text(e: Error, text: Seq<char>) -> Seq<char> {
    "The previous extraction failed with the following error:\n\n"@ + feedback_of(e)
        + "\n\nPlease correct the JSON-LD and extract again from this text:\n\n"@ + text
}

// ---------------------------------------------------------------------------
// The retry session
// ---------------------------------------------------------------------------

/// The document value a reply text yields once it is parsed, normalized and,
/// when configured, given the built-in context.
pub open spec fn reply_data(j: Seq<char>, inject: bool) -> JsonModel {
    if inject {
        injected_model(RdfDocument::normalized_of(json_of(j)))
    } else {
        RdfDocument::normalized_of(json_of(j))
    }
}

/// The context of the document a reply text yields.
pub open spec fn reply_context(j: Seq<char>, inject: bool) -> JsonModel {
    if inject {
        JsonModel::Str("https://schema.org/"@)
    } else {
        first_field(RdfDocument::normalized_of(json_of(j))->Object_0, "@context"@)->0
    }
}

/// The document a reply text yields passes the structural checks.
pub open spec fn reply_valid(j: Seq<char>, inject: bool) -> bool {
    &&& !(reply_context(j, inject) is Null)
    &&& (reply_data(j, inject) is Object ==> obj_has(reply_data(j, inject)->Object_0, "@type"@))
}

/// A reply text is accepted exactly when it parses as JSON to an accepted
/// document value that, under strict validation, passes the structural
/// checks.
pub open spec fn reply_accepted(j: Seq<char>, strict: bool, inject: bool) -> bool {
    &&& json_ok(j)
    &&& RdfDocument::accepts(json_of(j))
    &&& (strict ==> reply_valid(j, inject))
}

/// What one completion attempt came to.
pub enum AttemptOutcome {
    /// The reply parsed and validated: the extraction is done.
    Done(RdfDocument),
    /// The reply was rejected; the session has retries left, and the next
    /// request will carry the error as feedback.
    Retry,
    /// The reply was rejected and the retry budget is exhausted.
    Failed(Error),
}

/// The bounded retry-with-feedback loop, as a state machine: the caller asks
/// for the next request, performs the completion call, and hands the reply
/// back, until the session is done or its budget is exhausted.
pub struct RetrySession {
    /// The conversation so far.
    pub history: Vec<ChatTurn>,
    /// Attempts made so far.
    pub attempt: u32,
    /// Retries allowed beyond the first attempt.
    pub max_retries: u32,
    /// The text under extraction.
    pub text: String,
    /// The last error, carried as feedback into the next request.
    pub last_error: Option<Error>,
    /// Whether rejected documents count as failures.
    pub strict_validation: bool,
    /// Whether the built-in context replaces the reply's.
    pub inject_hardcoded_context: bool,
}

impl RetrySession {
    /// Open a session over a text.
    pub fn new(
        system_prompt: &str,
        text: &str,
        max_retries: u32,
        strict_validation: bool,
        inject_hardcoded_context: bool,
    ) -> (s: Self)
        requires
            max_retries < 0xffff_ffff,
        ensures
            s.history@.len() == 1,
            s.history@[0].role == ChatRole::System,
            s.history@[0].content@ == system_prompt@,
            s.attempt == 0,
            s.max_retries == max_retries,
            s.text@ == text@,
            s.last_error is None,
    {
        let mut history: Vec<ChatTurn> = Vec::new();
        history.push(ChatTurn { role: ChatRole::System, content: String::from_str(system_prompt) });
        RetrySession {
            history,
            attempt: 0,
            max_retries,
            text: String::from_str(text),
            last_error: None,
            strict_validation,
            inject_hardcoded_context,
        }
    }

    /// The session still has attempts left.
    pub fn can_attempt(&self) -> (r: bool)
        ensures
            r == (self.attempt <= self.max_retries),
    {
        self.attempt <= self.max_retries
    }

    /// Open the next attempt: the user request is appended to the history
    /// and the whole conversation is handed out for the completion call.
    /// The first attempt asks for an extraction; a retry carries the last
    /// error as feedback.
    pub fn begin_attempt(&mut self) -> (msgs: Vec<ChatTurn>)
        requires
            old(self).attempt <= old(self).max_retries,
        ensures
            final(self).history@.len() == old(self).history@.len() + 1,
            final(self).history@.last().role == ChatRole::User,
            old(self).attempt == 0 ==> final(self).history@.last().content@
                == extraction_request_text(old(self).text@),
            old(self).attempt > 0 && old(self).last_error is Some ==> final(self)
                .history@.last().content@ == retry_request_text(
                old(self).last_error->0,
                old(self).text@,
            ),
            final(self).attempt == old(self).attempt,
            final(self).max_retries == old(self).max_retries,
            final(self).text == old(self).text,
            msgs@.len() == final(self).history@.len(),
            forall|k: int|
                0 <= k < msgs@.len() ==> (#[trigger] msgs@[k]).role == final(self).history@[k].role
                    && msgs@[k].content@ == final(self).history@[k].content@,
    {
        let content: String;
        if self.attempt == 0 {
            let mut c = String::from_str(
                "Extract RDF entities and relations from the following text. Return only valid JSON-LD:\n\n",
            );
            c.append(self.text.as_str());
            content = c;
        } else {
            let feedback: String = match &self.last_error {
                Some(e) => generate_validation_error_message(e),
                None => generate_validation_error_message(
                    &Error::Extraction(String::from_str("unknown error")),
                ),
            };
            let mut c = String::from_str(
                "The previous extraction failed with the following error:\n\n",
            );
            c.append(feedback.as_str());
            c.append("\n\nPlease correct the JSON-LD and extract again from this text:\n\n");
            c.append(self.text.as_str());
            content = c;
        }
        self.history.push(ChatTurn { role: ChatRole::User, content });
        let n: usize = self.history.len();
        let mut msgs: Vec<ChatTurn> = Vec::new();
        let mut i: usize = 0;
        while i < n
            invariant
                i <= n,
                n == self.history@.len(),
                msgs@.len() == i,
                forall|k: int|
                    0 <= k < i ==> (#[trigger] msgs@[k]).role == self.history@[k].role && msgs@[
                        k].content@ == self.history@[k].content@,
            decreases n - i,
        {
            msgs.push(self.history[i].duplicate());
            i += 1;
        }
        msgs
    }

    /// Accept the completion reply for the open attempt. The reply's JSON is
    /// extracted and parsed; the built-in context is injected when
    /// configured; the document is validated when strict. A rejected reply
    /// costs one attempt and becomes feedback, until the budget is gone.
    pub fn accept_response(&mut self, response: &str) -> (outcome: AttemptOutcome)
        requires
            old(self).attempt <= old(self).max_retries,
            old(self).max_retries < 0xffff_ffff,
        ensures
            final(self).max_retries == old(self).max_retries,
            final(self).attempt == old(self).attempt + 1,
            outcome is Done <==> reply_accepted(
                extracted_json(response@),
                old(self).strict_validation,
                old(self).inject_hardcoded_context,
            ),
            outcome is Done ==> {
                &&& (outcome->Done_0).data.model() == reply_data(
                    extracted_json(response@),
                    old(self).inject_hardcoded_context,
                )
                &&& (outcome->Done_0).context.model() == reply_context(
                    extracted_json(response@),
                    old(self).inject_hardcoded_context,
                )
                &&& (old(self).strict_validation ==> (outcome->Done_0).spec_valid())
            },
            outcome is Failed <==> !reply_accepted(
                extracted_json(response@),
                old(self).strict_validation,
                old(self).inject_hardcoded_context,
            ) && old(self).attempt + 1 > old(self).max_retries,
            outcome is Retry <==> !reply_accepted(
                extracted_json(response@),
                old(self).strict_validation,
                old(self).inject_hardcoded_context,
            ) && old(self).attempt + 1 <= old(self).max_retries,
            outcome is Retry ==> final(self).last_error is Some,
    {
        self.history.push(
            ChatTurn { role: ChatRole::Assistant, content: String::from_str(response) },
        );
        let json_str = extract_json_from_response(response);
        let verdict: Result<RdfDocument, Error> = match RdfDocument::from_json(json_str.as_str()) {
            Ok(mut doc) => {
                if self.inject_hardcoded_context {
                    doc.inject_hardcoded_context();
                }
                if self.strict_validation {
                    match doc.validate() {
                        Ok(_) => Ok(doc),
                        Err(e) => Err(e),
                    }
                } else {
                    Ok(doc)
                }
            },
            Err(e) => Err(e),
        };
        self.attempt = self.attempt + 1;
        match verdict {
            Ok(doc) => AttemptOutcome::Done(doc),
            Err(e) => {
                if self.attempt > self.max_retries {
                    AttemptOutcome::Failed(e)
                } else {
                    self.last_error = Some(e);
                    AttemptOutcome::Retry
                }
            },
        }
    }
}

// ---------------------------------------------------------------------------
// Merging
// ---------------------------------------------------------------------------

/// The graph nodes one window result contributes to the merge: the elements
/// of its `@graph` array if it carries one, else the document object itself
/// without its `@context`, if anything remains.
pub open spec fn graph_nodes(m: JsonModel) -> Seq<JsonModel> {
    if !(m is Object) {
        Seq::empty()
    } else {
        let fs = m->Object_0;
        match first_field(fs, "@graph"@) {
            Some(JsonModel::Array(es)) => es,
            _ => {
                let ent = fs.filter(|f: (Seq<char>, JsonModel)| f.0 != "@context"@);
                if fs.len() > 0 && ent.len() > 0 {
                    seq![JsonModel::Object(ent)]
                } else {
                    Seq::empty()
                }
            },
        }
    }
}

/// The nodes of a run of window results, in window order.
pub open spec fn all_nodes(datas: Seq<JsonModel>) -> Seq<JsonModel>
    decreases datas.len(),
{
    if datas.len() == 0 {
        Seq::empty()
    } else {
        graph_nodes(datas[0]) + all_nodes(datas.drop_first())
    }
}

/// The merged document value: an empty object for no nodes, the single node
/// unwrapped when there is exactly one, else the nodes under `@graph`.
pub open spec fn merged_data(nodes: Seq<JsonModel>) -> JsonModel {
    if nodes.len() == 0 {
        JsonModel::Object(Seq::empty())
    } else if nodes.len() == 1 {
        nodes[0]
    } else {
        JsonModel::Object(seq![("@graph"@, JsonModel::Array(nodes))])
    }
}

/// Merging exactly one node returns it unwrapped, not collection-wrapped.
pub proof fn lemma_merge_single_node(nodes: Seq<JsonModel>)
    requires
        nodes.len() == 1,
    ensures
        merged_data(nodes) == nodes[0],
{
}

/// The data models of a run of documents.
pub open spec fn doc_datas(docs: Seq<RdfDocument>) -> Seq<JsonModel>
    decreases docs.len(),
{
    if docs.len() == 0 {
        Seq::empty()
    } else {
        seq![docs[0].data.model()] + doc_datas(docs.drop_first())
    }
}

proof fn lemma_doc_datas(docs: Seq<RdfDocument>)
    ensures
        doc_datas(docs).len() == docs.len(),
        forall|i: int|
            0 <= i < docs.len() ==> #[trigger] doc_datas(docs)[i] == docs[i].data.model(),
    decreases docs.len(),
{
    if docs.len() > 0 {
        lemma_doc_datas(docs.drop_first());
        assert forall|i: int| 0 <= i < docs.len() implies #[trigger] doc_datas(docs)[i] == docs[
            i].data.model() by {
            if i > 0 {
                assert(docs.drop_first()[i - 1] == docs[i]);
            }
        }
    }
}

proof fn lemma_all_nodes_take(datas: Seq<JsonModel>, i: int)
    requires
        0 <= i < datas.len(),
    ensures
        all_nodes(datas.take(i + 1)) == all_nodes(datas.take(i)) + graph_nodes(datas[i]),
    decreases i,
{
    if i == 0 {
        assert(datas.take(1).drop_first() =~= Seq::<JsonModel>::empty());
        assert(datas.take(0) =~= Seq::<JsonModel>::empty());
        assert(all_nodes(datas.take(1)) == graph_nodes(datas[0]) + all_nodes(
            Seq::<JsonModel>::empty(),
        ));
        assert(graph_nodes(datas[0]) + Seq::<JsonModel>::empty() =~= graph_nodes(datas[0]));
        assert(Seq::<JsonModel>::empty() + graph_nodes(datas[0]) =~= graph_nodes(datas[0]));
    } else {
        lemma_all_nodes_take(datas.drop_first(), i - 1);
        assert(datas.take(i + 1).drop_first() =~= datas.drop_first().take(i));
        assert(datas.take(i).drop_first() =~= datas.drop_first().take(i - 1));
        assert(datas.drop_first()[i - 1] == datas[i]);
        assert(all_nodes(datas.take(i + 1)) == graph_nodes(datas[0]) + all_nodes(
            datas.drop_first().take(i),
        ));
        assert(all_nodes(datas.take(i)) == graph_nodes(datas[0]) + all_nodes(
            datas.drop_first().take(i - 1),
        ));
        assert(graph_nodes(datas[0]) + (all_nodes(datas.drop_first().take(i - 1)) + graph_nodes(
            datas[i],
        )) =~= (graph_nodes(datas[0]) + all_nodes(datas.drop_first().take(i - 1))) + graph_nodes(
            datas[i],
        ));
    }
}

/// Collect the graph nodes of one window result.
fn nodes_of_doc(doc: &RdfDocument) -> (r: Vec<JsonValue>)
    ensures
        models_of(r@) == graph_nodes(doc.data.model()),
{
    match &doc.data {
        JsonValue::Object(fields) => {
            proof {
                crate::json::lemma_field_models_of(fields@);
            }
            let n: usize = fields.len();
            // The first @graph field, if any.
            let mut gi: usize = n;
            let mut i: usize = 0;
            while i < n
                invariant
                    i <= n,
                    n == fields@.len(),
                    gi <= n,
                    gi < n ==> fields@[gi as int].0@ == "@graph"@ && forall|x: int|
                        0 <= x < gi ==> (#[trigger] fields@[x]).0@ != "@graph"@,
                    gi == n ==> forall|x: int| 0 <= x < i ==> (#[trigger] fields@[x]).0@
                        != "@graph"@,
                decreases n - i,
            {
                if gi == n && crate::textutil::str_eq(fields[i].0.as_str(), "@graph") {
                    gi = i;
                }
                i += 1;
            }
            proof {
                lemma_first_field_at(field_models_of(fields@), "@graph"@, gi as int);
            }
            if gi < n {
                match &fields[gi].1 {
                    JsonValue::Array(elems) => {
                        proof {
                            crate::json::lemma_models_of(elems@);
                        }
                        let m: usize = elems.len();
                        let mut out: Vec<JsonValue> = Vec::new();
                        let mut k: usize = 0;
                        while k < m
                            invariant
                                k <= m,
                                m == elems@.len(),
                                out@.len() == k,
                                forall|x: int|
                                    0 <= x < k ==> (#[trigger] out@[x]).model()
                                        == elems@[x].model(),
                            decreases m - k,
                        {
                            out.push(elems[k].duplicate());
                            k += 1;
                        }
                        proof {
                            crate::json::lemma_models_of(out@);
                            assert(models_of(out@) =~= models_of(elems@));
                            assert(first_field(field_models_of(fields@), "@graph"@) == Some(
                                fields@[gi as int].1.model(),
                            ));
                        }
                        return out;
                    },
                    _ => {},
                }
            }
            // No @graph array: copy the object without its @context.
            let mut ent: Vec<(String, JsonValue)> = Vec::new();
            let mut i2: usize = 0;
            while i2 < n
                invariant
                    i2 <= n,
                    n == fields@.len(),
                    field_models_of(ent@) =~= field_models_of(fields@).take(i2 as int).filter(
                        |f: (Seq<char>, JsonModel)| f.0 != "@context"@,
                    ),
                decreases n - i2,
            {
                let ghost prev = field_models_of(ent@);
                proof {
                    crate::json::lemma_field_models_of(ent@);
                }
                if !crate::textutil::str_eq(fields[i2].0.as_str(), "@context") {
                    let pair = (fields[i2].0.clone(), fields[i2].1.duplicate());
                    ent.push(pair);
                }
                proof {
                    reveal_with_fuel(Seq::filter, 2);
                    crate::json::lemma_field_models_of(ent@);
                    crate::json::lemma_field_models_of(fields@);
                    let taken = field_models_of(fields@).take(i2 + 1);
                    assert(taken.drop_last() =~= field_models_of(fields@).take(i2 as int));
                    assert(taken.last() == (fields@[i2 as int].0@, fields@[i2 as int].1.model()));
                    if fields@[i2 as int].0@ != "@context"@ {
                        assert(field_models_of(ent@) =~= prev.push(
                            (fields@[i2 as int].0@, fields@[i2 as int].1.model()),
                        ));
                    } else {
                        assert(field_models_of(ent@) =~= prev);
                    }
                }
                i2 += 1;
            }
            proof {
                assert(field_models_of(fields@).take(n as int) =~= field_models_of(fields@));
            }
            if n > 0 && ent.len() > 0 {
                let mut out: Vec<JsonValue> = Vec::new();
                out.push(JsonValue::Object(ent));
                proof {
                    crate::json::lemma_models_of(out@);
                    assert(models_of(out@) =~= graph_nodes(doc.data.model()));
                }
                out
            } else {
                let out: Vec<JsonValue> = Vec::new();
                proof {
                    assert(models_of(out@) =~= graph_nodes(doc.data.model()));
                }
                out
            }
        },
        _ => {
            let out: Vec<JsonValue> = Vec::new();
            proof {
                assert(models_of(out@) =~= graph_nodes(doc.data.model()));
            }
            out
        },
    }
}

/// Merge the successful window results, in window order. Merging zero
/// results is a deterministic empty-result error; the first result's context
/// is authoritative; a single node comes back unwrapped; several nodes come
/// back under `@graph`. No property-level deduplication is performed.
pub fn merge_chunks(docs: Vec<RdfDocument>) -> (r: Result<RdfDocument, Error>)
    ensures
        docs@.len() == 0 <==> r is Err,
        r is Err ==> r->Err_0 is Extraction,
        r is Ok ==> {
            &&& r->Ok_0.data.model() == merged_data(all_nodes(doc_datas(docs@)))
            &&& r->Ok_0.context.model() == docs@[0].context.model()
            &&& r->Ok_0.provenance is None
        },
{
    let n: usize = docs.len();
    if n == 0 {
        return Err(
            Error::Extraction(String::from_str("no successful window results to merge")),
        );
    }
    let context = docs[0].context.duplicate();
    proof {
        lemma_doc_datas(docs@);
    }
    let mut nodes: Vec<JsonValue> = Vec::new();
    let mut i: usize = 0;
    while i < n
        invariant
            i <= n,
            n == docs@.len(),
            doc_datas(docs@).len() == n,
            forall|x: int|
                0 <= x < n ==> #[trigger] doc_datas(docs@)[x] == docs@[x].data.model(),
            models_of(nodes@) =~= all_nodes(doc_datas(docs@).take(i as int)),
        decreases n - i,
    {
        let ghost prev = models_of(nodes@);
        let mut contribution = nodes_of_doc(&docs[i]);
        let m: usize = contribution.len();
        let ghost contrib_models = models_of(contribution@);
        proof {
            crate::json::lemma_models_of(nodes@);
            crate::json::lemma_models_of(contribution@);
        }
        let mut k: usize = 0;
        while k < m
            invariant
                k <= m,
                m == contribution@.len() + k,
                contrib_models.len() == m,
                forall|x: int|
                    0 <= x < contribution@.len() ==> (#[trigger] contribution@[x]).model()
                        == contrib_models[x + k],
                models_of(nodes@) =~= prev + contrib_models.take(k as int),
            decreases m - k,
        {
            let ghost before_contrib = contribution@;
            let ghost prev_nodes = nodes@;
            let node = contribution.remove(0);
            proof {
                assert(node.model() == contrib_models[k as int]);
                assert forall|x: int|
                    0 <= x < contribution@.len() implies (#[trigger] contribution@[x]).model()
                    == contrib_models[x + k + 1] by {
                    assert(contribution@[x] == before_contrib[x + 1]);
                }
                crate::json::lemma_models_of(prev_nodes);
            }
            nodes.push(node);
            proof {
                crate::json::lemma_models_of(nodes@);
                assert forall|x: int|
                    0 <= x < models_of(nodes@).len() implies #[trigger] models_of(nodes@)[x] == (
                    prev + contrib_models.take(k + 1))[x] by {
                    assert(models_of(nodes@)[x] == nodes@[x].model());
                    if x < prev_nodes.len() {
                        assert(nodes@[x] == prev_nodes[x]);
                        assert(models_of(prev_nodes)[x] == prev_nodes[x].model());
                    } else {
                        assert(nodes@[x] == node);
                    }
                }
                assert(models_of(nodes@) =~= prev + contrib_models.take(k + 1));
            }
            k += 1;
        }
        proof {
            assert(contrib_models.take(m as int) =~= contrib_models);
            assert(models_of(nodes@) =~= prev + contrib_models);
            assert(doc_datas(docs@)[i as int] == docs@[i as int].data.model());
            assert(contrib_models == graph_nodes(doc_datas(docs@)[i as int]));
            lemma_all_nodes_take(doc_datas(docs@), i as int);
            assert(prev == all_nodes(doc_datas(docs@).take(i as int)));
            assert(models_of(nodes@) =~= all_nodes(doc_datas(docs@).take(i + 1)));
        }
        i += 1;
    }
    proof {
        assert(doc_datas(docs@).take(n as int) =~= doc_datas(docs@));
    }
    let data: JsonValue;
    if nodes.len() == 0 {
        data = JsonValue::Object(Vec::new());
        proof {
            assert(field_models_of(Seq::<(String, JsonValue)>::empty()) =~= Seq::<
                (Seq<char>, JsonModel),
            >::empty());
            assert(data.model() == merged_data(models_of(nodes@)));
        }
    } else if nodes.len() == 1 {
        let ghost ms = models_of(nodes@);
        proof {
            crate::json::lemma_models_of(nodes@);
        }
        data = nodes[0].duplicate();
        proof {
            assert(data.model() == ms[0]);
            assert(data.model() == merged_data(ms));
        }
    } else {
        let ghost ms = models_of(nodes@);
        proof {
            crate::json::lemma_models_of(nodes@);
        }
        let mut fields: Vec<(String, JsonValue)> = Vec::new();
        fields.push((String::from_str("@graph"), JsonValue::Array(nodes)));
        let ghost fs2 = fields@;
        data = JsonValue::Object(fields);
        proof {
            crate::json::lemma_field_models_of(fs2);
            assert(field_models_of(fs2)[0] == (fs2[0].0@, fs2[0].1.model()));
            assert(fs2[0].1.model() == JsonModel::Array(ms));
            assert(field_models_of(fs2) =~= seq![("@graph"@, JsonModel::Array(ms))]);
            assert(data.model() == JsonModel::Object(field_models_of(fs2)));
            assert(data.model() == merged_data(ms));
        }
    }
    Ok(RdfDocument { context, data, provenance: None })
}


// ---------------------------------------------------------------------------
// Entity names in a result
// ---------------------------------------------------------------------------

/// The names carried by a value: an object contributes its first textual
/// `name` field, then whatever its field values carry, in document order.
pub open spec fn names_of(m: JsonModel) -> Seq<Seq<char>>
    decreases m,
{
    match m {
        JsonModel::Object(fs) => (match first_field(fs, "name"@) {
            Some(JsonModel::Str(s)) => seq![s],
            _ => Seq::empty(),
        }) + names_in_fields(fs),
        JsonModel::Array(es) => names_in_items(es),
        _ => Seq::empty(),
    }
}

/// The names carried by an object's field values, in order.
pub open spec fn names_in_fields(fs: Seq<(Seq<char>, JsonModel)>) -> Seq<Seq<char>>
    decreases fs,
{
    if fs.len() == 0 {
        Seq::empty()
    } else {
        names_of(fs[0].1) + names_in_fields(fs.drop_first())
    }
}

/// The names carried by an array's items, in order.
pub open spec fn names_in_items(es: Seq<JsonModel>) -> Seq<Seq<char>>
    decreases es,
{
    if es.len() == 0 {
        Seq::empty()
    } else {
        names_of(es[0]) + names_in_items(es.drop_first())
    }
}

fn push_names(v: &JsonValue, out: &mut Vec<String>)
    ensures
        final(out)@.len() >= old(out)@.len(),
        final(out)@.map_values(|s: String| s@) == old(out)@.map_values(|s: String| s@) + names_of(
            v.model(),
        ),
    decreases *v,
{
    let ghost base = out@.map_values(|s: String| s@);
    match v {
        JsonValue::Object(fields) => {
            proof {
                crate::json::lemma_field_models_of(fields@);
            }
            let n: usize = fields.len();
            let mut gi: usize = n;
            let mut i: usize = 0;
            while i < n
                invariant
                    i <= n,
                    n == fields@.len(),
                    gi <= n,
                    gi < n ==> fields@[gi as int].0@ == "name"@ && forall|x: int|
                        0 <= x < gi ==> (#[trigger] fields@[x]).0@ != "name"@,
                    gi == n ==> forall|x: int| 0 <= x < i ==> (#[trigger] fields@[x]).0@ != "name"@,
                decreases n - i,
            {
                if gi == n && crate::textutil::str_eq(fields[i].0.as_str(), "name") {
                    gi = i;
                }
                i += 1;
            }
            proof {
                lemma_first_field_at(field_models_of(fields@), "name"@, gi as int);
            }
            if gi < n {
                match &fields[gi].1 {
                    JsonValue::Str(nm) => {
                        out.push(nm.clone());
                        proof {
                            assert(out@.map_values(|s: String| s@) =~= base + seq![nm@]);
                        }
                    },
                    _ => {
                        proof {
                            assert(out@.map_values(|s: String| s@) =~= base + Seq::<
                                Seq<char>,
                            >::empty());
                        }
                    },
                }
            } else {
                proof {
                    assert(out@.map_values(|s: String| s@) =~= base + Seq::<Seq<char>>::empty());
                }
            }
            let ghost head = (match first_field(field_models_of(fields@), "name"@) {
                Some(JsonModel::Str(nm)) => seq![nm],
                _ => Seq::<Seq<char>>::empty(),
            });
            let mut k: usize = 0;
            while k < n
                invariant
                    k <= n,
                    n == fields@.len(),
                    *v is Object,
                    fields@ == v->Object_0@,
                    out@.map_values(|s: String| s@) == base + head + names_taken(
                        field_models_of(fields@),
                        k as int,
                    ),
                decreases n - k,
            {
                proof {
                    crate::json::lemma_field_models_of(fields@);
                    assert(decreases_to!(*v => v->Object_0));
                    assert(decreases_to!(v->Object_0 => v->Object_0@));
                    assert(decreases_to!(v->Object_0@ => v->Object_0@[k as int]));
                    assert(decreases_to!(fields@[k as int] => fields@[k as int].1));
                    assert(decreases_to!(*v => fields@[k as int].1));
                }
                push_names(&fields[k].1, out);
                proof {
                    lemma_names_taken_step(field_models_of(fields@), k as int);
                    crate::json::lemma_field_models_of(fields@);
                    assert(out@.map_values(|s: String| s@) =~= base + head + names_taken(
                        field_models_of(fields@),
                        k + 1,
                    ));
                }
                k += 1;
            }
            proof {
                lemma_names_taken_all(field_models_of(fields@));
                assert(out@.map_values(|s: String| s@) =~= base + names_of(v.model()));
            }
        },
        JsonValue::Array(elems) => {
            proof {
                crate::json::lemma_models_of(elems@);
            }
            let n: usize = elems.len();
            let mut k: usize = 0;
            while k < n
                invariant
                    k <= n,
                    n == elems@.len(),
                    *v is Array,
                    elems@ == v->Array_0@,
                    out@.map_values(|s: String| s@) == base + items_names_taken(
                        models_of(elems@),
                        k as int,
                    ),
                decreases n - k,
            {
                proof {
                    crate::json::lemma_models_of(elems@);
                    assert(decreases_to!(*v => v->Array_0));
                    assert(decreases_to!(v->Array_0 => v->Array_0@));
                    assert(decreases_to!(v->Array_0@ => v->Array_0@[k as int]));
                    assert(decreases_to!(*v => elems@[k as int]));
                }
                push_names(&elems[k], out);
                proof {
                    lemma_items_names_taken_step(models_of(elems@), k as int);
                    crate::json::lemma_models_of(elems@);
                    assert(out@.map_values(|s: String| s@) =~= base + items_names_taken(
                        models_of(elems@),
                        k + 1,
                    ));
                }
                k += 1;
            }
            proof {
                lemma_items_names_taken_all(models_of(elems@));
                assert(out@.map_values(|s: String| s@) =~= base + names_of(v.model()));
            }
        },
        _ => {
            proof {
                assert(out@.map_values(|s: String| s@) =~= base + Seq::<Seq<char>>::empty());
            }
        },
    }
}

/// The names carried by the first `k` field values.
pub open spec fn names_taken(fs: Seq<(Seq<char>, JsonModel)>, k: int) -> Seq<Seq<char>>
    decreases k,
{
    if k <= 0 {
        Seq::empty()
    } else {
        names_taken(fs, k - 1) + names_of(fs[k - 1].1)
    }
}

/// The names carried by the first `k` items.
pub open spec fn items_names_taken(es: Seq<JsonModel>, k: int) -> Seq<Seq<char>>
    decreases k,
{
    if k <= 0 {
        Seq::empty()
    } else {
        items_names_taken(es, k - 1) + names_of(es[k - 1])
    }
}

proof fn lemma_names_taken_step(fs: Seq<(Seq<char>, JsonModel)>, k: int)
    requires
        0 <= k < fs.len(),
    ensures
        names_taken(fs, k + 1) == names_taken(fs, k) + names_of(fs[k].1),
{
}

proof fn lemma_names_taken_all(fs: Seq<(Seq<char>, JsonModel)>)
    ensures
        names_taken(fs, fs.len() as int) == names_in_fields(fs),
    decreases fs.len(),
{
    if fs.len() > 0 {
        lemma_names_taken_all(fs.drop_first());
        lemma_names_taken_shift(fs, fs.len() as int);
        assert(names_in_fields(fs) == names_of(fs[0].1) + names_in_fields(fs.drop_first()));
    }
}

proof fn lemma_names_taken_shift(fs: Seq<(Seq<char>, JsonModel)>, k: int)
    requires
        1 <= k <= fs.len(),
    ensures
        names_taken(fs, k) == names_of(fs[0].1) + names_taken(fs.drop_first(), k - 1),
    decreases k,
{
    if k == 1 {
        assert(names_taken(fs, 0) == Seq::<Seq<char>>::empty());
        assert(names_taken(fs.drop_first(), 0) == Seq::<Seq<char>>::empty());
        assert(names_taken(fs, 1) =~= names_of(fs[0].1) + Seq::<Seq<char>>::empty());
    } else {
        lemma_names_taken_shift(fs, k - 1);
        assert(fs.drop_first()[k - 2] == fs[k - 1]);
        assert((names_of(fs[0].1) + names_taken(fs.drop_first(), k - 2)) + names_of(fs[k - 1].1)
            =~= names_of(fs[0].1) + (names_taken(fs.drop_first(), k - 2) + names_of(
            fs[k - 1].1,
        )));
    }
}

proof fn lemma_items_names_taken_step(es: Seq<JsonModel>, k: int)
    requires
        0 <= k < es.len(),
    ensures
        items_names_taken(es, k + 1) == items_names_taken(es, k) + names_of(es[k]),
{
}

proof fn lemma_items_names_taken_all(es: Seq<JsonModel>)
    ensures
        items_names_taken(es, es.len() as int) == names_in_items(es),
    decreases es.len(),
{
    if es.len() > 0 {
        lemma_items_names_taken_all(es.drop_first());
        lemma_items_names_taken_shift(es, es.len() as int);
        assert(names_in_items(es) == names_of(es[0]) + names_in_items(es.drop_first()));
    }
}

proof fn lemma_items_names_taken_shift(es: Seq<JsonModel>, k: int)
    requires
        1 <= k <= es.len(),
    ensures
        items_names_taken(es, k) == names_of(es[0]) + items_names_taken(es.drop_first(), k - 1),
    decreases k,
{
    if k == 1 {
        assert(items_names_taken(es, 0) == Seq::<Seq<char>>::empty());
        assert(items_names_taken(es.drop_first(), 0) == Seq::<Seq<char>>::empty());
        assert(items_names_taken(es, 1) =~= names_of(es[0]) + Seq::<Seq<char>>::empty());
    } else {
        lemma_items_names_taken_shift(es, k - 1);
        assert(es.drop_first()[k - 2] == es[k - 1]);
        assert((names_of(es[0]) + items_names_taken(es.drop_first(), k - 2)) + names_of(es[k - 1])
            =~= names_of(es[0]) + (items_names_taken(es.drop_first(), k - 2) + names_of(
            es[k - 1],
        )));
    }
}

/// Collect the distinct entity names of a result, first occurrence first:
/// every collected name is a name of the document, every name of the
/// document is collected, and no name is collected twice.
pub fn extract_entity_names(doc: &RdfDocument) -> (r: Vec<String>)
    ensures
        forall|i: int, j: int|
            0 <= i < j < r@.len() ==> (#[trigger] r@[i])@ != (#[trigger] r@[j])@,
        forall|i: int| #![trigger r@[i]]
            0 <= i < r@.len() ==> names_of(doc.data.model()).contains(r@[i]@),
        forall|n: Seq<char>|
            #[trigger] names_of(doc.data.model()).contains(n) ==> exists|i: int|
                0 <= i < r@.len() && (#[trigger] r@[i])@ == n,
{
    let mut all: Vec<String> = Vec::new();
    push_names(&doc.data, &mut all);
    let ghost collected = names_of(doc.data.model());
    proof {
        assert(all@.map_values(|s: String| s@) =~= collected);
    }
    let total: usize = all.len();
    let mut out: Vec<String> = Vec::new();
    let mut i: usize = 0;
    while i < total
        invariant
            i <= total,
            total == all@.len(),
            all@.map_values(|s: String| s@) == collected,
            forall|a: int, b: int|
                0 <= a < b < out@.len() ==> (#[trigger] out@[a])@ != (#[trigger] out@[b])@,
            forall|a: int| #![trigger out@[a]]
                0 <= a < out@.len() ==> collected.contains(out@[a]@),
            forall|b: int|
                0 <= b < i ==> exists|a: int| 0 <= a < out@.len() && (#[trigger] out@[a])@
                    == (#[trigger] all@[b])@,
        decreases total - i,
    {
        let mut seen = false;
        let mut a: usize = 0;
        while a < out.len()
            invariant
                a <= out@.len(),
                i < all@.len(),
                seen <==> exists|x: int|
                    0 <= x < a && (#[trigger] out@[x])@ == all@[i as int]@,
            decreases out@.len() - a,
        {
            if crate::textutil::str_eq(out[a].as_str(), all[i].as_str()) {
                seen = true;
            }
            a += 1;
        }
        let ghost prev = out@;
        if !seen {
            out.push(all[i].clone());
        }
        proof {
            assert(collected.contains(all@[i as int]@)) by {
                assert(collected[i as int] == all@[i as int]@);
            }
            if !seen {
                assert(out@[out@.len() - 1]@ == all@[i as int]@);
                assert(forall|x: int| 0 <= x < prev.len() ==> #[trigger] out@[x] == prev[x]);
                assert forall|a2: int, b2: int|
                    0 <= a2 < b2 < out@.len() implies (#[trigger] out@[a2])@ != (
                #[trigger] out@[b2])@ by {
                    assert(out@[a2] == prev[a2]);
                    if b2 < prev.len() {
                        assert(out@[b2] == prev[b2]);
                    } else {
                        assert(prev[a2]@ != all@[i as int]@);
                    }
                }
            }
            assert forall|b: int| #![trigger all@[b]]
                0 <= b < i + 1 implies exists|a2: int|
                0 <= a2 < out@.len() && (#[trigger] out@[a2])@ == (all@[b])@ by {
                if b < i {
                    let a0 = choose|a0: int|
                        0 <= a0 < prev.len() && (#[trigger] prev[a0])@ == all@[b]@;
                    assert(out@[a0] == prev[a0]);
                } else {
                    if seen {
                        let x0 = choose|x0: int|
                            0 <= x0 < prev.len() && (#[trigger] prev[x0])@ == all@[i as int]@;
                        assert(out@[x0] == prev[x0]);
                    } else {
                        assert(out@[out@.len() - 1]@ == all@[b]@);
                    }
                }
            }
        }
        i += 1;
    }
    proof {
        assert forall|n: Seq<char>| #[trigger] collected.contains(n) implies exists|x: int|
            0 <= x < out@.len() && (#[trigger] out@[x])@ == n by {
            let b = choose|b: int| 0 <= b < collected.len() && collected[b] == n;
            assert(all@[b]@ == n);
        }
    }
    out
}


// ---------------------------------------------------------------------------
// Enriching a result with canonical identifiers
// ---------------------------------------------------------------------------

/// An object whose first textual `name` field carries this name.
pub open spec fn name_matches(m: JsonModel, name: Seq<char>) -> bool {
    m is Object && first_field(m->Object_0, "name"@) == Some(JsonModel::Str(name))
}

/// An object's fields with its `@id` set: the first `@id` field is replaced,
/// or a new one is appended.
pub open spec fn put_id(fs: Seq<(Seq<char>, JsonModel)>, uri: Seq<char>) -> Seq<
    (Seq<char>, JsonModel),
>
    decreases fs.len(),
{
    if fs.len() == 0 {
        seq![("@id"@, JsonModel::Str(uri))]
    } else if fs[0].0 == "@id"@ {
        seq![("@id"@, JsonModel::Str(uri))] + fs.drop_first()
    } else {
        seq![fs[0]] + put_id(fs.drop_first(), uri)
    }
}

/// The value with every object named `name` given the canonical `uri` as its
/// `@id`; a matching object's contents are otherwise left as they stand.
pub open spec fn enriched(m: JsonModel, name: Seq<char>, uri: Seq<char>) -> JsonModel
    decreases m,
{
    match m {
        JsonModel::Object(fs) => if name_matches(m, name) {
            JsonModel::Object(put_id(fs, uri))
        } else {
            JsonModel::Object(enriched_fields(fs, name, uri))
        },
        JsonModel::Array(es) => JsonModel::Array(enriched_items(es, name, uri)),
        _ => m,
    }
}

/// The fields of an object with their values enriched.
pub open spec fn enriched_fields(
    fs: Seq<(Seq<char>, JsonModel)>,
    name: Seq<char>,
    uri: Seq<char>,
) -> Seq<(Seq<char>, JsonModel)>
    decreases fs,
{
    if fs.len() == 0 {
        Seq::empty()
    } else {
        seq![(fs[0].0, enriched(fs[0].1, name, uri))] + enriched_fields(fs.drop_first(), name, uri)
    }
}

/// The items of an array, enriched.
pub open spec fn enriched_items(es: Seq<JsonModel>, name: Seq<char>, uri: Seq<char>) -> Seq<
    JsonModel,
>
    decreases es,
{
    if es.len() == 0 {
        Seq::empty()
    } else {
        seq![enriched(es[0], name, uri)] + enriched_items(es.drop_first(), name, uri)
    }
}

proof fn lemma_enriched_fields(fs: Seq<(Seq<char>, JsonModel)>, name: Seq<char>, uri: Seq<char>)
    ensures
        (enriched_fields(fs, name, uri)).len() == fs.len(),
        forall|i: int|
            0 <= i < fs.len() ==> #[trigger] enriched_fields(fs, name, uri)[i] == (fs[i].0,
            enriched(fs[i].1, name, uri)),
    decreases fs.len(),
{
    if fs.len() > 0 {
        lemma_enriched_fields(fs.drop_first(), name, uri);
        assert forall|i: int| 0 <= i < fs.len() implies #[trigger] enriched_fields(
            fs,
            name,
            uri,
        )[i] == (fs[i].0, enriched(fs[i].1, name, uri)) by {
            if i > 0 {
                assert(fs.drop_first()[i - 1] == fs[i]);
            }
        }
    }
}

proof fn lemma_enriched_items(es: Seq<JsonModel>, name: Seq<char>, uri: Seq<char>)
    ensures
        (enriched_items(es, name, uri)).len() == es.len(),
        forall|i: int|
            0 <= i < es.len() ==> #[trigger] enriched_items(es, name, uri)[i] == enriched(
                es[i],
                name,
                uri,
            ),
    decreases es.len(),
{
    if es.len() > 0 {
        lemma_enriched_items(es.drop_first(), name, uri);
        assert forall|i: int| 0 <= i < es.len() implies #[trigger] enriched_items(
            es,
            name,
            uri,
        )[i] == enriched(es[i], name, uri) by {
            if i > 0 {
                assert(es.drop_first()[i - 1] == es[i]);
            }
        }
    }
}

proof fn lemma_put_id_at(fs: Seq<(Seq<char>, JsonModel)>, uri: Seq<char>, i: int)
    requires
        0 <= i <= fs.len(),
        forall|x: int| 0 <= x < i ==> (#[trigger] fs[x]).0 != "@id"@,
        i < fs.len() ==> fs[i].0 == "@id"@,
    ensures
        i < fs.len() ==> put_id(fs, uri) =~= fs.update(i, ("@id"@, JsonModel::Str(uri))),
        i == fs.len() ==> put_id(fs, uri) =~= fs.push(("@id"@, JsonModel::Str(uri))),
    decreases fs.len(),
{
    if fs.len() > 0 {
        if i == 0 {
            assert(put_id(fs, uri) == seq![("@id"@, JsonModel::Str(uri))] + fs.drop_first());
        } else {
            assert(fs[0].0 != "@id"@);
            lemma_put_id_at(fs.drop_first(), uri, i - 1);
            assert forall|x: int| 0 <= x < i - 1 implies (#[trigger] fs.drop_first()[x]).0
                != "@id"@ by {
                assert(fs.drop_first()[x] == fs[x + 1]);
            }
            if i < fs.len() {
                assert(fs.drop_first()[i - 1] == fs[i]);
            }
        }
    }
}

/// Give the canonical URI to every entity of the result named `entity_name`:
/// each object whose `name` is that text gets `uri` as its `@id`, with its
/// other contents left as they stand.
pub fn enrich_entity_with_uri(v: &JsonValue, entity_name: &str, uri: &str) -> (r: JsonValue)
    ensures
        r.model() == enriched(v.model(), entity_name@, uri@),
    decreases *v,
{
    match v {
        JsonValue::Null => JsonValue::Null,
        JsonValue::Bool(b) => JsonValue::Bool(*b),
        JsonValue::Number(s) => JsonValue::Number(s.clone()),
        JsonValue::Str(s) => JsonValue::Str(s.clone()),
        JsonValue::Array(elems) => {
            proof {
                crate::json::lemma_models_of(elems@);
            }
            let n: usize = elems.len();
            let mut out: Vec<JsonValue> = Vec::new();
            let mut i: usize = 0;
            while i < n
                invariant
                    i <= n,
                    n == elems@.len(),
                    *v is Array,
                    elems@ == v->Array_0@,
                    out@.len() == i,
                    forall|j: int|
                        0 <= j < i ==> (#[trigger] out@[j]).model() == enriched(
                            elems@[j].model(),
                            entity_name@,
                            uri@,
                        ),
                decreases n - i,
            {
                proof {
                    assert(decreases_to!(*v => v->Array_0));
                    assert(decreases_to!(v->Array_0 => v->Array_0@));
                    assert(decreases_to!(v->Array_0@ => v->Array_0@[i as int]));
                    assert(decreases_to!(*v => elems@[i as int]));
                }
                out.push(enrich_entity_with_uri(&elems[i], entity_name, uri));
                i += 1;
            }
            proof {
                crate::json::lemma_models_of(out@);
                crate::json::lemma_models_of(elems@);
                lemma_enriched_items(models_of(elems@), entity_name@, uri@);
                assert(models_of(out@) =~= enriched_items(
                    models_of(elems@),
                    entity_name@,
                    uri@,
                ));
            }
            JsonValue::Array(out)
        },
        JsonValue::Object(fields) => {
            proof {
                crate::json::lemma_field_models_of(fields@);
            }
            let n: usize = fields.len();
            // The first name field, if any.
            let mut ni: usize = n;
            let mut i: usize = 0;
            while i < n
                invariant
                    i <= n,
                    n == fields@.len(),
                    ni <= n,
                    ni < n ==> fields@[ni as int].0@ == "name"@ && forall|x: int|
                        0 <= x < ni ==> (#[trigger] fields@[x]).0@ != "name"@,
                    ni == n ==> forall|x: int| 0 <= x < i ==> (#[trigger] fields@[x]).0@
                        != "name"@,
                decreases n - i,
            {
                if ni == n && crate::textutil::str_eq(fields[i].0.as_str(), "name") {
                    ni = i;
                }
                i += 1;
            }
            proof {
                lemma_first_field_at(field_models_of(fields@), "name"@, ni as int);
            }
            let is_match: bool = if ni < n {
                match &fields[ni].1 {
                    JsonValue::Str(nm) => crate::textutil::str_eq(nm.as_str(), entity_name),
                    _ => false,
                }
            } else {
                false
            };
            if is_match {
                // Replace the first @id, or append one.
                let mut idi: usize = n;
                let mut k: usize = 0;
                while k < n
                    invariant
                        k <= n,
                        n == fields@.len(),
                        idi <= n,
                        idi < n ==> fields@[idi as int].0@ == "@id"@ && forall|x: int|
                            0 <= x < idi ==> (#[trigger] fields@[x]).0@ != "@id"@,
                        idi == n ==> forall|x: int| 0 <= x < k ==> (#[trigger] fields@[x]).0@
                            != "@id"@,
                    decreases n - k,
                {
                    if idi == n && crate::textutil::str_eq(fields[k].0.as_str(), "@id") {
                        idi = k;
                    }
                    k += 1;
                }
                let mut out: Vec<(String, JsonValue)> = Vec::new();
                let mut k2: usize = 0;
                while k2 < n
                    invariant
                        k2 <= n,
                        n == fields@.len(),
                        out@.len() == k2,
                        forall|x: int|
                            0 <= x < k2 && x != idi ==> ((#[trigger] out@[x]).0@,
                            out@[x].1.model()) == (fields@[x].0@, fields@[x].1.model()),
                        idi < k2 ==> out@[idi as int].0@ == "@id"@ && out@[
                            idi as int].1.model() == JsonModel::Str(uri@),
                    decreases n - k2,
                {
                    if k2 == idi {
                        out.push((String::from_str("@id"), JsonValue::Str(String::from_str(uri))));
                    } else {
                        out.push((fields[k2].0.clone(), fields[k2].1.duplicate()));
                    }
                    k2 += 1;
                }
                if idi == n {
                    out.push((String::from_str("@id"), JsonValue::Str(String::from_str(uri))));
                }
                proof {
                    crate::json::lemma_field_models_of(out@);
                    crate::json::lemma_field_models_of(fields@);
                    lemma_put_id_at(field_models_of(fields@), uri@, idi as int);
                    if idi < n {
                        assert(field_models_of(out@) =~= field_models_of(fields@).update(
                            idi as int,
                            ("@id"@, JsonModel::Str(uri@)),
                        ));
                    } else {
                        assert(field_models_of(out@) =~= field_models_of(fields@).push(
                            ("@id"@, JsonModel::Str(uri@)),
                        ));
                    }
                    assert(name_matches(v.model(), entity_name@));
                }
                JsonValue::Object(out)
            } else {
                let mut out: Vec<(String, JsonValue)> = Vec::new();
                let mut k2: usize = 0;
                while k2 < n
                    invariant
                        k2 <= n,
                        n == fields@.len(),
                        *v is Object,
                        fields@ == v->Object_0@,
                        out@.len() == k2,
                        forall|x: int|
                            0 <= x < k2 ==> ((#[trigger] out@[x]).0@, out@[x].1.model()) == (
                            fields@[x].0@, enriched(fields@[x].1.model(), entity_name@, uri@)),
                    decreases n - k2,
                {
                    proof {
                        assert(decreases_to!(*v => v->Object_0));
                        assert(decreases_to!(v->Object_0 => v->Object_0@));
                        assert(decreases_to!(v->Object_0@ => v->Object_0@[k2 as int]));
                        assert(decreases_to!(fields@[k2 as int] => fields@[k2 as int].1));
                        assert(decreases_to!(*v => fields@[k2 as int].1));
                    }
                    let pair = (
                        fields[k2].0.clone(),
                        enrich_entity_with_uri(&fields[k2].1, entity_name, uri),
                    );
                    out.push(pair);
                    k2 += 1;
                }
                proof {
                    crate::json::lemma_field_models_of(out@);
                    crate::json::lemma_field_models_of(fields@);
                    lemma_enriched_fields(field_models_of(fields@), entity_name@, uri@);
                    assert(field_models_of(out@) =~= enriched_fields(
                        field_models_of(fields@),
                        entity_name@,
                        uri@,
                    ));
                    assert(!name_matches(v.model(), entity_name@));
                }
                JsonValue::Object(out)
            }
        },
    }
}

// ---------------------------------------------------------------------------
// The pipeline
// ---------------------------------------------------------------------------

/// Which path a document takes.
#[derive(Debug, Clone, Copy, PartialEq, Eq, Structural)]
pub enum PathChoice {
    /// One extraction call over the whole text.
    ShortPath,
    /// Window-by-window extraction with registry context.
    ChunkedPath,
}

/// The sequential pipeline for one document run: it owns the chunker, the
/// coreference resolver and the registry, and makes every decision of the
/// run. The caller performs the completion calls between the steps.
pub struct ExtractionPipeline {
    /// The run's configuration.
    pub config: ExtractionConfig,
    /// The chunker producing the windows.
    pub chunker: SemanticChunker,
    /// The coreference resolver for window preprocessing.
    pub coref: CorefResolver,
    /// The per-document knowledge registry.
    pub kb: KnowledgeBuffer,
}

impl ExtractionPipeline {
    /// Set up a pipeline for one document run.
    pub fn new(config: ExtractionConfig) -> (p: Self)
        ensures
            p.config == config,
            p.kb.entries().len() == 0,
            p.coref.config.strategy == crate::coref::CorefStrategy::RuleBased,
            p.coref.config.max_distance == 3,
    {
        let chunker = SemanticChunker::default();
        let coref = CorefResolver { config: CorefConfig::default() };
        ExtractionPipeline { config, chunker, coref, kb: KnowledgeBuffer::new() }
    }

    /// The standing instructions for this run.
    pub fn system_prompt(&self) -> (r: String)
        ensures
            self.config.system_prompt is Some ==> r@ == self.config.system_prompt->0@,
            self.config.system_prompt is None ==> r@ == default_prompt_text(),
    {
        match &self.config.system_prompt {
            Some(p) => p.clone(),
            None => default_system_prompt(),
        }
    }

    /// Which path a document takes: a document whose token estimate stays
    /// under the chunk threshold is processed exactly as one `extract` call;
    /// only a longer one goes window by window.
    pub fn choose_path(&self, text: &str) -> (r: PathChoice)
        ensures
            r == PathChoice::ShortPath <==> crate::spec_estimate_tokens(text@.len())
                < self.config.chunk_threshold,
    {
        let tokens = crate::estimate_tokens(text);
        if tokens < self.config.chunk_threshold {
            PathChoice::ShortPath
        } else {
            PathChoice::ChunkedPath
        }
    }

    /// Split the document into its windows.
    pub fn plan_windows(&self, text: &str) -> (chunks: Vec<DocumentChunk>)
        requires
            self.chunker.wf(),
        ensures
            chunks@.len() == self.chunker.spec_chunk_count(text@.len()),
    {
        self.chunker.chunk(text)
    }

    /// Preprocess one window's text: resolve coreference, record each
    /// resolved pronoun as an alias of its antecedent in the registry, and
    /// return the resolved text. Coreference never fails; a window without
    /// pronouns comes back unchanged.
    pub fn preprocess_window(&mut self, text: &str) -> (r: CorefResult)
        ensures
            r.original_text@ == text@,
            old(self).config == final(self).config,
            old(self).coref == final(self).coref,
            old(self).coref.config.strategy == crate::coref::CorefStrategy::RuleBased ==> {
                &&& crate::coref::resolution_evidence(
                    text@,
                    old(self).coref.config.max_distance as nat,
                    r.resolved_text@,
                )
                &&& forall|m: int|
                    0 <= m < r.mention_map@.len() ==> crate::coref::pair_resolved(
                        #[trigger] r.mention_map@[m],
                    )
                &&& (!crate::coref::has_pronoun_token(text@) ==> r.resolved_text@ == text@
                    && r.clusters@.len() == 0 && r.mention_map@.len() == 0)
            },
            final(self).kb.entries().len() == old(self).kb.entries().len(),
            forall|m: int|
                0 <= m < r.mention_map@.len() && old(self).kb.has_key(
                    crate::textutil::lowered((#[trigger] r.mention_map@[m]).1@),
                ) && crate::textutil::lowered(r.mention_map@[m].0@) != crate::textutil::lowered(
                    r.mention_map@[m].1@,
                ) ==> exists|j: int|
                    {
                        &&& 0 <= j < final(self).kb.entries().len()
                        &&& crate::knowledge_buffer::key_of(
                            #[trigger] final(self).kb.entries()[j],
                        ) == crate::textutil::lowered(r.mention_map@[m].1@)
                        &&& crate::knowledge_buffer::has_alias(
                            final(self).kb.entries()[j],
                            crate::textutil::lowered(r.mention_map@[m].0@),
                        )
                    },
    {
        let result = match self.coref.resolve(text) {
            Ok(res) => res,
            Err(_) => CorefResult {
                original_text: String::from_str(text),
                resolved_text: String::from_str(text),
                clusters: Vec::new(),
                mention_map: Vec::new(),
            },
        };
        let n: usize = result.mention_map.len();
        let mut i: usize = 0;
        while i < n
            invariant
                i <= n,
                n == result.mention_map@.len(),
                self.config == old(self).config,
                self.coref == old(self).coref,
                result.original_text@ == text@,
                self.kb.entries().len() == old(self).kb.entries().len(),
                forall|j: int|
                    0 <= j < self.kb.entries().len() ==> crate::knowledge_buffer::key_of(
                        #[trigger] self.kb.entries()[j],
                    ) == crate::knowledge_buffer::key_of(old(self).kb.entries()[j]),
                forall|m: int|
                    0 <= m < i && old(self).kb.has_key(
                        crate::textutil::lowered((#[trigger] result.mention_map@[m]).1@),
                    ) && crate::textutil::lowered(result.mention_map@[m].0@)
                        != crate::textutil::lowered(result.mention_map@[m].1@) ==> exists|j: int|
                        {
                            &&& 0 <= j < self.kb.entries().len()
                            &&& crate::knowledge_buffer::key_of(
                                #[trigger] self.kb.entries()[j],
                            ) == crate::textutil::lowered(result.mention_map@[m].1@)
                            &&& crate::knowledge_buffer::has_alias(
                                self.kb.entries()[j],
                                crate::textutil::lowered(result.mention_map@[m].0@),
                            )
                        },
            decreases n - i,
        {
            let ghost kb_before = self.kb.entries();
            self.kb.add_alias(
                result.mention_map[i].0.as_str(),
                result.mention_map[i].1.as_str(),
            );
            proof {
                let al = crate::textutil::lowered(result.mention_map@[i as int].0@);
                let ck = crate::textutil::lowered(result.mention_map@[i as int].1@);
                assert(self.kb.entries().len() == kb_before.len());
                assert forall|j: int|
                    0 <= j < self.kb.entries().len() implies crate::knowledge_buffer::key_of(
                    #[trigger] self.kb.entries()[j],
                ) == crate::knowledge_buffer::key_of(kb_before[j]) by {
                    assert(self.kb.entries()[j].canonical_name == kb_before[j].canonical_name);
                }
                // The pair just processed: when its canonical is present and
                // the alias is not the record's own key, the record now
                // carries the alias.
                if old(self).kb.has_key(ck) && al != ck {
                    let j0 = choose|j: int|
                        0 <= j < old(self).kb.entries().len() && crate::knowledge_buffer::key_of(
                            #[trigger] old(self).kb.entries()[j],
                        ) == ck;
                    assert(crate::knowledge_buffer::key_of(kb_before[j0]) == ck);
                    assert(crate::knowledge_buffer::key_of(self.kb.entries()[j0]) == ck);
                    assert(crate::knowledge_buffer::has_alias(self.kb.entries()[j0], al)) by {
                        let e = kb_before[j0];
                        let f = self.kb.entries()[j0];
                        if crate::knowledge_buffer::has_alias(e, al) {
                            assert(f == e);
                        } else {
                            assert(f.aliases@.last()@ == al);
                        }
                    }
                }
                // Earlier pairs keep their aliases: a record's alias list
                // only grows.
                assert forall|m: int|
                    0 <= m < i + 1 && old(self).kb.has_key(
                        crate::textutil::lowered((#[trigger] result.mention_map@[m]).1@),
                    ) && crate::textutil::lowered(result.mention_map@[m].0@)
                        != crate::textutil::lowered(result.mention_map@[m].1@) implies exists|
                    j: int,
                |
                    {
                        &&& 0 <= j < self.kb.entries().len()
                        &&& crate::knowledge_buffer::key_of(#[trigger] self.kb.entries()[j])
                            == crate::textutil::lowered(result.mention_map@[m].1@)
                        &&& crate::knowledge_buffer::has_alias(
                            self.kb.entries()[j],
                            crate::textutil::lowered(result.mention_map@[m].0@),
                        )
                    } by {
                    if m < i {
                        let j1 = choose|j: int|
                            {
                                &&& 0 <= j < kb_before.len()
                                &&& crate::knowledge_buffer::key_of(#[trigger] kb_before[j])
                                    == crate::textutil::lowered(result.mention_map@[m].1@)
                                &&& crate::knowledge_buffer::has_alias(
                                    kb_before[j],
                                    crate::textutil::lowered(result.mention_map@[m].0@),
                                )
                            };
                        assert(crate::knowledge_buffer::has_alias(
                            self.kb.entries()[j1],
                            crate::textutil::lowered(result.mention_map@[m].0@),
                        )) by {
                            let e = kb_before[j1];
                            let f = self.kb.entries()[j1];
                            if crate::knowledge_buffer::key_of(e) != ck {
                                assert(f == e);
                            } else {
                                assert(f.aliases@ == e.aliases@ || (f.aliases@.len()
                                    == e.aliases@.len() + 1 && f.aliases@.take(
                                    e.aliases@.len() as int,
                                ) == e.aliases@));
                                let a0 = choose|a: int|
                                    0 <= a < e.aliases@.len() && (#[trigger] e.aliases@[a])@
                                        == crate::textutil::lowered(result.mention_map@[m].0@);
                                assert(f.aliases@[a0]@ == e.aliases@[a0]@);
                            }
                        }
                    }
                }
            }
            i += 1;
        }
        result
    }

    /// The completion request for one window: the context-enriched system
    /// prompt and the user message carrying the window's resolved text.
    pub fn window_request(&self, resolved_text: &str) -> (msgs: Vec<ChatTurn>)
        ensures
            msgs@.len() == 2,
            msgs@[0].role == ChatRole::System,
            msgs@[1].role == ChatRole::User,
            msgs@[0].content@ == context_prompt_text(
                if self.config.system_prompt is Some {
                    self.config.system_prompt->0@
                } else {
                    default_prompt_text()
                },
                self.kb.entries(),
            ),
    {
        let base = self.system_prompt();
        let prompt = build_context_prompt(base.as_str(), &self.kb);
        let mut user = String::from_str(
            "Extract RDF entities and relations from the following text section. Return only valid JSON-LD:\n\n",
        );
        user.append(resolved_text);
        let mut msgs: Vec<ChatTurn> = Vec::new();
        msgs.push(ChatTurn { role: ChatRole::System, content: prompt });
        msgs.push(ChatTurn { role: ChatRole::User, content: user });
        msgs
    }

    /// Accept the completion reply for one window: parse and validate it,
    /// attach provenance when configured, and record the window's primary
    /// entity (its `@type` and `name`), with any canonical URI, in the
    /// registry. A window whose reply is rejected yields its error; the
    /// caller goes on with the next window.
    pub fn accept_window_response(
        &mut self,
        chunk_id: usize,
        start_offset: usize,
        end_offset: usize,
        resolved_text: &str,
        response: &str,
    ) -> (r: Result<RdfDocument, Error>)
        ensures
            old(self).config == final(self).config,
            r is Ok <==> reply_accepted(
                extracted_json(response@),
                old(self).config.strict_validation,
                old(self).config.inject_hardcoded_context,
            ),
            r is Err ==> final(self).kb.entries() == old(self).kb.entries(),
            r is Ok ==> {
                let m = reply_data(
                    extracted_json(response@),
                    old(self).config.inject_hardcoded_context,
                );
                &&& (r->Ok_0).data.model() == m
                &&& (old(self).config.strict_validation ==> (r->Ok_0).spec_valid())
                &&& ((r->Ok_0).provenance is Some <==> old(self).config.provenance_tracking)
                &&& (old(self).config.provenance_tracking ==> {
                    let prov = (r->Ok_0).provenance->0;
                    &&& prov.chunk_id == Some(chunk_id)
                    &&& prov.text_span == Some((start_offset, end_offset))
                    &&& prov.method is Some
                    &&& prov.source_text is Some && prov.source_text->0@ == resolved_text@
                })
                &&& (primary_text_field(m, "@type"@) is Some && primary_text_field(m, "name"@)
                    is Some ==> {
                    &&& final(self).kb.has_key(crate::textutil::lowered(
                        primary_text_field(m, "name"@)->0,
                    ))
                    &&& (final(self).kb.entries().len() == old(self).kb.entries().len()
                        || final(self).kb.entries().len() == old(self).kb.entries().len() + 1)
                })
                &&& (!(primary_text_field(m, "@type"@) is Some && primary_text_field(m, "name"@)
                    is Some) ==> final(self).kb.entries() == old(self).kb.entries())
            },
    {
        let json_str = extract_json_from_response(response);
        let mut doc = match RdfDocument::from_json(json_str.as_str()) {
            Ok(d) => d,
            Err(e) => {
                return Err(e);
            },
        };
        if self.config.inject_hardcoded_context {
            doc.inject_hardcoded_context();
        }
        if self.config.strict_validation {
            match doc.validate() {
                Ok(_) => {},
                Err(e) => {
                    return Err(e);
                },
            }
        }
        if self.config.provenance_tracking {
            let prov = crate::types::Provenance::new().with_chunk_id(chunk_id).with_text_span(
                start_offset,
                end_offset,
            ).with_method("llm").with_source_text(resolved_text);
            doc.set_provenance(prov);
        }
        // Update the registry with the window's primary discovered entity.
        let type_owned: Option<String> = match doc.get_type() {
            Some(t) => Some(String::from_str(t)),
            None => None,
        };
        let name_owned: Option<String> = match doc.get_name() {
            Some(nm) => Some(String::from_str(nm)),
            None => None,
        };
        match (type_owned, name_owned) {
            (Some(t), Some(nm)) => {
                let ghost kb_before = self.kb.entries();
                self.kb.add_entity(nm.as_str(), t.as_str(), start_offset, chunk_id);
                proof {
                    if !old(self).kb.has_key(crate::textutil::lowered(nm@)) {
                        assert(crate::knowledge_buffer::key_of(self.kb.entries().last())
                            == crate::textutil::lowered(nm@));
                    }
                    assert(self.kb.has_key(crate::textutil::lowered(nm@)));
                }
                let ghost kb_mid = self.kb.entries();
                let id_owned: Option<String> = match doc.get_id() {
                    Some(id) => Some(String::from_str(id)),
                    None => None,
                };
                match id_owned {
                    Some(id) => {
                        self.kb.add_property(nm.as_str(), "@id", id.as_str());
                        proof {
                            assert forall|j: int|
                                0 <= j < self.kb.entries().len() implies crate::knowledge_buffer::key_of(
                                #[trigger] self.kb.entries()[j],
                            ) == crate::knowledge_buffer::key_of(kb_mid[j]) by {
                                assert(self.kb.entries()[j].canonical_name
                                    == kb_mid[j].canonical_name);
                            }
                            let j0 = choose|j: int|
                                0 <= j < kb_mid.len() && crate::knowledge_buffer::key_of(
                                    #[trigger] kb_mid[j],
                                ) == crate::textutil::lowered(nm@);
                            assert(crate::knowledge_buffer::key_of(self.kb.entries()[j0])
                                == crate::textutil::lowered(nm@));
                            assert(self.kb.has_key(crate::textutil::lowered(nm@)));
                        }
                    },
                    None => {},
                }
            },
            _ => {},
        }
        Ok(doc)
    }

    /// Merge the run's successful window results.
    pub fn finish(&self, docs: Vec<RdfDocument>) -> (r: Result<RdfDocument, Error>)
        ensures
            docs@.len() == 0 <==> r is Err,
            r is Err ==> r->Err_0 is Extraction,
            r is Ok ==> {
                &&& (r->Ok_0).data.model() == merged_data(all_nodes(doc_datas(docs@)))
                &&& (r->Ok_0).context.model() == docs@[0].context.model()
                &&& (r->Ok_0).provenance is None
            },
    {
        merge_chunks(docs)
    }
}

} // verus!
