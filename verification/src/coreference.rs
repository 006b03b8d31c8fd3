//! The engine-style coreference interface: a closed set of strategies
//! dispatched through one entry point.
//!
//! The rule-based strategy here is the cruder one: it finds pronouns among
//! whitespace-separated words and replaces each with the nearest earlier
//! capitalized word, leaving determiners out. Strategies that need an
//! outside service cannot be constructed here; the caller that owns the
//! service drives them with these same types.

use crate::coref::{apply_reps, splice_model};
use crate::error::Error;
use crate::textutil::{
    chars_eq_str, chars_to_string, is_space, is_upper, lowered, string_to_chars, sub_chars_of,
    to_lower,
};
use vstd::prelude::*;
use vstd::string::StringExecFns;

verus! {

/// Strategy for coreference resolution.
#[derive(Debug, Clone, Copy, PartialEq, Eq, Structural)]
pub enum CoreferenceStrategy {
    /// No coreference resolution.
    Disabled,
    /// Rule-based resolver: fast, limited accuracy.
    RuleBased,
    /// A sidecar annotation service over the network.
    PythonSidecar,
    /// Completion-based resolution.
    Llm,
}

/// Configuration for coreference resolution. Confidences are per-mille.
pub struct CoreferenceConfig {
    /// Resolution strategy.
    pub strategy: CoreferenceStrategy,
    /// Address of the sidecar service, when one is used.
    pub sidecar_url: Option<String>,
    /// Confidence threshold, per-mille.
    pub confidence_threshold_milli: u32,
    /// Maximum distance between mentions, in characters.
    pub max_mention_distance: usize,
    /// Whether original offsets are kept in the result.
    pub preserve_offsets: bool,
}

impl Default for CoreferenceConfig {
    /// Resolution switched off, 700 per-mille threshold, a five-thousand
    /// character mention window.
    fn default() -> (r: Self)
        ensures
            r.strategy == CoreferenceStrategy::Disabled,
            r.sidecar_url is None,
            r.confidence_threshold_milli == 700,
            r.max_mention_distance == 5000,
            r.preserve_offsets == true,
    {
        CoreferenceConfig {
            strategy: CoreferenceStrategy::Disabled,
            sidecar_url: None,
            confidence_threshold_milli: 700,
            max_mention_distance: 5000,
            preserve_offsets: true,
        }
    }
}

/// Type of a mention.
#[derive(Debug, Clone, Copy, PartialEq, Eq, Structural)]
pub enum MentionType {
    /// A proper noun.
    Proper,
    /// A common noun phrase.
    Nominal,
    /// A pronoun.
    Pronominal,
}

/// A single mention of an entity in text.
pub struct Mention {
    /// The text of the mention.
    pub text: String,
    /// Start offset in the original text.
    pub start: usize,
    /// End offset in the original text.
    pub end: usize,
    /// The kind of mention.
    pub mention_type: MentionType,
}

/// A cluster of mentions of one entity.
pub struct CoreferenceCluster {
    /// The canonical mention.
    pub canonical: String,
    /// Character offset of the canonical mention.
    pub canonical_offset: usize,
    /// All mentions of this entity.
    pub mentions: Vec<Mention>,
    /// Confidence, per-mille.
    pub confidence_milli: u32,
}

/// Result of coreference resolution.
pub struct CoreferenceResult {
    /// Resolved text with pronouns replaced.
    pub resolved_text: String,
    /// The detected clusters.
    pub clusters: Vec<CoreferenceCluster>,
    /// Mapping from original offset to canonical name.
    pub offset_to_canonical: Vec<(usize, String)>,
}

/// The characters `i .. j` of `t` form a maximal whitespace-free run.
pub open spec fn ws_token(t: Seq<char>, i: int, j: int) -> bool {
    &&& 0 <= i < j <= t.len()
    &&& forall|k: int| i <= k < j ==> !is_space(#[trigger] t[k])
    &&& (i == 0 || is_space(t[i - 1]))
    &&& (j == t.len() || is_space(t[j]))
}

/// A word of the fixed pronoun list, compared lowercased.
pub open spec fn listed_pronoun(w: Seq<char>) -> bool {
    let l = lowered(w);
    l == "he"@ || l == "him"@ || l == "his"@ || l == "she"@ || l == "her"@ || l == "hers"@ || l
        == "it"@ || l == "its"@ || l == "they"@ || l == "them"@ || l == "their"@ || l == "theirs"@
}

/// Some whitespace-separated word of the text is a listed pronoun.
pub open spec fn has_listed_pronoun(t: Seq<char>) -> bool {
    exists|i: int, j: int| ws_token(t, i, j) && #[trigger] listed_pronoun(t.subrange(i, j))
}

/// A word that can serve as an antecedent here: a word of the text longer
/// than two characters, capitalized, and not a common determiner.
pub open spec fn antecedent_at(t: Seq<char>, i: int, j: int) -> bool {
    &&& ws_token(t, i, j)
    &&& j - i > 2
    &&& is_upper(t.subrange(i, j)[0])
    &&& t.subrange(i, j) != "The"@
    &&& t.subrange(i, j) != "A"@
    &&& t.subrange(i, j) != "An"@
    &&& t.subrange(i, j) != "This"@
}

/// One replacement is a genuine resolution: the replaced span is a listed
/// pronoun word, and the inserted text is an antecedent word standing
/// earlier in the text.
pub open spec fn ws_rep_valid(t: Seq<char>, rep: (int, int, Seq<char>)) -> bool {
    &&& ws_token(t, rep.0, rep.1)
    &&& listed_pronoun(t.subrange(rep.0, rep.1))
    &&& exists|cp: int, j: int|
        #[trigger] antecedent_at(t, cp, j) && cp < rep.0 && rep.2 == t.subrange(cp, j)
}

/// An offset-map entry records a resolution: a listed pronoun word stands
/// at the offset, and the canonical text is an earlier antecedent word.
pub open spec fn offset_pair_resolved(t: Seq<char>, off: usize, canon: Seq<char>) -> bool {
    exists|j: int|
        {
            &&& #[trigger] ws_token(t, off as int, j)
            &&& listed_pronoun(t.subrange(off as int, j))
            &&& exists|cp: int, j2: int|
                #[trigger] antecedent_at(t, cp, j2) && cp < off && canon == t.subrange(cp, j2)
        }
}

/// The resolved text is the original text with some sequence of genuine
/// resolutions spliced in, applied in reverse text order.
pub open spec fn ws_resolution_evidence(t: Seq<char>, resolved: Seq<char>) -> bool {
    exists|reps: Seq<(int, int, Seq<char>)>|
        #![trigger apply_reps(t, reps, 0)]
        {
            &&& resolved == apply_reps(t, reps, 0)
            &&& forall|k: int| 0 <= k < reps.len() ==> ws_rep_valid(t, #[trigger] reps[k])
        }
}

/// Check a word against the fixed pronoun list.
pub fn is_listed_pronoun_exec(word: &str) -> (r: bool)
    ensures
        r == listed_pronoun(word@),
{
    let lw = to_lower(word);
    let t = string_to_chars(lw.as_str());
    chars_eq_str(&t, "he") || chars_eq_str(&t, "him") || chars_eq_str(&t, "his") || chars_eq_str(
        &t,
        "she",
    ) || chars_eq_str(&t, "her") || chars_eq_str(&t, "hers") || chars_eq_str(&t, "it")
        || chars_eq_str(&t, "its") || chars_eq_str(&t, "they") || chars_eq_str(&t, "them")
        || chars_eq_str(&t, "their") || chars_eq_str(&t, "theirs")
}

struct WsToken {
    start: usize,
    end: usize,
}

/// Split into whitespace-separated words; every span is a word of the text,
/// and spans come in increasing, non-overlapping text order.
fn ws_tokenize(cs: &Vec<char>) -> (toks: Vec<WsToken>)
    ensures
        forall|k: int|
            0 <= k < toks@.len() ==> ws_token(
                cs@,
                (#[trigger] toks@[k]).start as int,
                toks@[k].end as int,
            ),
        forall|k: int|
            0 <= k && k + 1 < toks@.len() ==> (#[trigger] toks@[k]).end <= toks@[k + 1].start,
{
    let n: usize = cs.len();
    let mut toks: Vec<WsToken> = Vec::new();
    let mut start: usize = 0;
    let mut in_tok = false;
    let mut i: usize = 0;
    while i < n
        invariant
            i <= n,
            n == cs@.len(),
            in_tok ==> start < i,
            in_tok ==> forall|k: int| start <= k < i ==> !is_space(#[trigger] cs@[k]),
            in_tok ==> (start == 0 || is_space(cs@[start - 1])),
            !in_tok ==> (i == 0 || is_space(cs@[i - 1])),
            forall|k: int|
                0 <= k < toks@.len() ==> ws_token(
                    cs@,
                    (#[trigger] toks@[k]).start as int,
                    toks@[k].end as int,
                ),
            forall|k: int|
                0 <= k && k + 1 < toks@.len() ==> (#[trigger] toks@[k]).end <= toks@[k + 1].start,
            toks@.len() > 0 && in_tok ==> toks@[toks@.len() - 1].end <= start,
            toks@.len() > 0 && !in_tok ==> toks@[toks@.len() - 1].end <= i,
        decreases n - i,
    {
        let c = cs[i];
        if crate::textutil::char_is_space(c) {
            if in_tok {
                proof {
                    assert(ws_token(cs@, start as int, i as int));
                    assert(toks@.len() > 0 ==> toks@[toks@.len() - 1].end <= start);
                }
                let ghost prev = toks@;
                toks.push(WsToken { start, end: i });
                in_tok = false;
                proof {
                    assert forall|k: int|
                        0 <= k && k + 1 < toks@.len() implies (#[trigger] toks@[k]).end <= toks@[k
                        + 1].start by {
                        assert(toks@[k] == prev[k]);
                        if k + 2 < toks@.len() {
                            assert(toks@[k + 1] == prev[k + 1]);
                            assert(prev[k].end <= prev[k + 1].start);
                        } else {
                            assert(toks@[k + 1].start == start);
                            assert(prev[k].end <= start);
                        }
                    }
                }
            }
        } else {
            if !in_tok {
                in_tok = true;
                start = i;
            }
        }
        i += 1;
    }
    if in_tok {
        proof {
            assert(ws_token(cs@, start as int, n as int));
            assert(toks@.len() > 0 ==> toks@[toks@.len() - 1].end <= start);
        }
        let ghost prev = toks@;
        toks.push(WsToken { start, end: n });
        proof {
            assert forall|k: int|
                0 <= k && k + 1 < toks@.len() implies (#[trigger] toks@[k]).end <= toks@[k
                + 1].start by {
                assert(toks@[k] == prev[k]);
                if k + 2 < toks@.len() {
                    assert(toks@[k + 1] == prev[k + 1]);
                    assert(prev[k].end <= prev[k + 1].start);
                } else {
                    assert(toks@[k + 1].start == start);
                    assert(prev[k].end <= start);
                }
            }
        }
    }
    toks
}

/// The engine dispatching the configured strategy.
pub struct CoreferenceEngine {
    /// The engine's configuration.
    pub config: CoreferenceConfig,
}

impl CoreferenceEngine {
    /// Build an engine for the configured strategy. The strategies that need
    /// an outside service cannot be built here: the sidecar strategy demands
    /// the caller that owns the network, and completion-based resolution is
    /// not implemented.
    pub fn new(config: CoreferenceConfig) -> (r: Result<Self, Error>)
        ensures
            config.strategy == CoreferenceStrategy::Disabled || config.strategy
                == CoreferenceStrategy::RuleBased ==> r is Ok && r->Ok_0.config == config,
            config.strategy == CoreferenceStrategy::PythonSidecar || config.strategy
                == CoreferenceStrategy::Llm ==> r is Err && r->Err_0 is Config,
    {
        match config.strategy {
            CoreferenceStrategy::Disabled => Ok(CoreferenceEngine { config }),
            CoreferenceStrategy::RuleBased => Ok(CoreferenceEngine { config }),
            CoreferenceStrategy::PythonSidecar => Err(
                Error::Config(
                    String::from_str(
                        "the sidecar strategy is driven by the caller that owns the service",
                    ),
                ),
            ),
            CoreferenceStrategy::Llm => Err(
                Error::Config(
                    String::from_str("completion-based coreference resolution is not implemented"),
                ),
            ),
        }
    }

    /// Resolve coreferences in a text. Never fails for the strategies an
    /// engine can be built with; a text without listed pronouns among its
    /// words comes back unchanged with no clusters.
    pub fn resolve(&self, text: &str) -> (r: Result<CoreferenceResult, Error>)
        ensures
            self.config.strategy == CoreferenceStrategy::Disabled ==> r is Ok && (r->Ok_0).resolved_text@
                == text@ && (r->Ok_0).clusters@.len() == 0 && (r->Ok_0).offset_to_canonical@.len()
                == 0,
            self.config.strategy == CoreferenceStrategy::RuleBased ==> r is Ok && (
            !has_listed_pronoun(text@) ==> (r->Ok_0).resolved_text@ == text@ && (
            r->Ok_0).clusters@.len() == 0 && (r->Ok_0).offset_to_canonical@.len() == 0),
    {
        match self.config.strategy {
            CoreferenceStrategy::Disabled => Ok(
                CoreferenceResult {
                    resolved_text: String::from_str(text),
                    clusters: Vec::new(),
                    offset_to_canonical: Vec::new(),
                },
            ),
            CoreferenceStrategy::RuleBased => Ok(rule_based_resolve(text)),
            _ => Err(
                Error::Config(
                    String::from_str("this strategy is driven by the caller that owns the service"),
                ),
            ),
        }
    }
}

/// Rule-based resolution: each listed pronoun among the words is replaced by
/// the nearest earlier capitalized non-determiner word of more than two
/// characters, when one exists. Replacements are applied in reverse text
/// order. A text without listed pronouns comes back unchanged with no
/// clusters.
#[verifier::rlimit(100)]
pub fn rule_based_resolve(text: &str) -> (r: CoreferenceResult)
    ensures
        ws_resolution_evidence(text@, r.resolved_text@),
        forall|m: int|
            0 <= m < r.offset_to_canonical@.len() ==> offset_pair_resolved(
                text@,
                (#[trigger] r.offset_to_canonical@[m]).0,
                r.offset_to_canonical@[m].1@,
            ),
        !has_listed_pronoun(text@) ==> r.resolved_text@ == text@ && r.clusters@.len() == 0
            && r.offset_to_canonical@.len() == 0,
{
    let cs = string_to_chars(text);
    let toks = ws_tokenize(&cs);

    let mut reps_start: Vec<usize> = Vec::new();
    let mut reps_end: Vec<usize> = Vec::new();
    let mut reps_text: Vec<Vec<char>> = Vec::new();
    let ghost mut reps: Seq<(int, int, Seq<char>)> = Seq::empty();
    let mut clusters: Vec<CoreferenceCluster> = Vec::new();
    let mut offset_map: Vec<(usize, String)> = Vec::new();

    let nt: usize = toks.len();
    let mut ti: usize = 0;
    while ti < nt
        invariant
            ti <= nt,
            nt == toks@.len(),
            cs@ == text@,
            forall|k: int|
                0 <= k < toks@.len() ==> ws_token(
                    cs@,
                    (#[trigger] toks@[k]).start as int,
                    toks@[k].end as int,
                ),
            forall|k: int|
                0 <= k && k + 1 < toks@.len() ==> (#[trigger] toks@[k]).end <= toks@[k + 1].start,
            reps_start@.len() == reps_end@.len(),
            reps_start@.len() == reps_text@.len(),
            reps.len() == reps_start@.len(),
            forall|k: int|
                0 <= k < reps.len() ==> #[trigger] reps[k] == (
                reps_start@[k] as int,
                reps_end@[k] as int,
                reps_text@[k]@,
            ),
            forall|k: int| 0 <= k < reps.len() ==> ws_rep_valid(text@, #[trigger] reps[k]),
            forall|m: int|
                0 <= m < offset_map@.len() ==> offset_pair_resolved(
                    text@,
                    (#[trigger] offset_map@[m]).0,
                    offset_map@[m].1@,
                ),
            !has_listed_pronoun(text@) ==> reps.len() == 0 && clusters@.len() == 0
                && offset_map@.len() == 0,
        decreases nt - ti,
    {
        let tstart = toks[ti].start;
        let tend = toks[ti].end;
        let w = sub_chars_of(&cs, tstart, tend);
        let ws = chars_to_string(&w);
        if is_listed_pronoun_exec(ws.as_str()) {
            proof {
                assert(ws_token(text@, tstart as int, tend as int));
                assert(listed_pronoun(text@.subrange(tstart as int, tend as int)));
                assert(has_listed_pronoun(text@));
            }
            // The nearest earlier antecedent word.
            let mut ante: Option<Vec<char>> = None;
            let ghost mut ante_span: (int, int) = (0, 0);
            let mut ai: usize = 0;
            while ai < ti
                invariant
                    ai <= ti < nt,
                    nt == toks@.len(),
                    cs@ == text@,
                    forall|k: int|
                        0 <= k < toks@.len() ==> ws_token(
                            cs@,
                            (#[trigger] toks@[k]).start as int,
                            toks@[k].end as int,
                        ),
                    forall|k: int|
                        0 <= k && k + 1 < toks@.len() ==> (#[trigger] toks@[k]).end <= toks@[k
                            + 1].start,
                    tstart == toks@[ti as int].start,
                    tend == toks@[ti as int].end,
                    listed_pronoun(text@.subrange(tstart as int, tend as int)),
                    ante is Some ==> {
                        &&& antecedent_at(text@, ante_span.0, ante_span.1)
                        &&& ante_span.0 < tstart
                        &&& ante->0@ == text@.subrange(ante_span.0, ante_span.1)
                    },
                decreases ti - ai,
            {
                let astart = toks[ai].start;
                let aend = toks[ai].end;
                let aw = sub_chars_of(&cs, astart, aend);
                if aw.len() > 2 {
                    let first_up = 'A' <= aw[0] && aw[0] <= 'Z';
                    let deter = chars_eq_str(&aw, "The") || chars_eq_str(&aw, "A") || chars_eq_str(
                        &aw,
                        "An",
                    ) || chars_eq_str(&aw, "This");
                    if first_up && !deter {
                        proof {
                            assert(antecedent_at(text@, astart as int, aend as int));
                            lemma_token_starts_ordered(cs@, toks@, ai as int, ti as int);
                            assert(ws_token(cs@, astart as int, aend as int));
                            ante_span = (astart as int, aend as int);
                        }
                        ante = Some(aw);
                    }
                }
                ai += 1;
            }
            match ante {
                Some(antecedent) => {
                    let ok_order = if reps_end.len() == 0 {
                        true
                    } else {
                        reps_end[reps_end.len() - 1] <= tstart
                    };
                    if ok_order {
                        proof {
                            assert(ws_token(text@, tstart as int, tend as int));
                            assert(antecedent_at(text@, ante_span.0, ante_span.1)
                                && ante_span.0 < tstart && antecedent@ == text@.subrange(
                                ante_span.0,
                                ante_span.1,
                            ));
                            assert(ws_rep_valid(
                                text@,
                                (tstart as int, tend as int, antecedent@),
                            ));
                        }
                        reps_start.push(tstart);
                        reps_end.push(tend);
                        let ante_string = chars_to_string(&antecedent);
                        proof {
                            assert(offset_pair_resolved(text@, tstart, ante_string@)) by {
                                assert(ws_token(text@, tstart as int, tend as int));
                                assert(listed_pronoun(
                                    text@.subrange(tstart as int, tend as int),
                                ));
                                assert(antecedent_at(text@, ante_span.0, ante_span.1));
                                assert(ante_span.0 < tstart);
                                assert(ante_string@ == text@.subrange(
                                    ante_span.0,
                                    ante_span.1,
                                ));
                            }
                        }
                        offset_map.push((tstart, ante_string.clone()));
                        let mut mentions: Vec<Mention> = Vec::new();
                        mentions.push(
                            Mention {
                                text: chars_to_string(&w),
                                start: tstart,
                                end: tend,
                                mention_type: MentionType::Pronominal,
                            },
                        );
                        clusters.push(
                            CoreferenceCluster {
                                canonical: ante_string,
                                canonical_offset: 0,
                                mentions,
                                confidence_milli: 600,
                            },
                        );
                        reps_text.push(antecedent);
                        proof {
                            reps = reps.push((tstart as int, tend as int, reps_text@.last()@));
                            assert(forall|k: int|
                                0 <= k < reps.len() - 1 ==> #[trigger] reps[k]
                                    == reps.drop_last()[k]);
                        }
                    }
                },
                None => {},
            }
        }
        ti += 1;
    }

    // Apply replacements in reverse text order.
    let mut cur = string_to_chars(text);
    let nr: usize = reps_start.len();
    let mut k: usize = nr;
    while k > 0
        invariant
            k <= nr,
            nr == reps_start@.len(),
            nr == reps_end@.len(),
            nr == reps_text@.len(),
            reps.len() == nr,
            forall|q: int|
                0 <= q < reps.len() ==> #[trigger] reps[q] == (
                reps_start@[q] as int,
                reps_end@[q] as int,
                reps_text@[q]@,
            ),
            cur@ == apply_reps(text@, reps, k as int),
        decreases k,
    {
        k -= 1;
        let a = reps_start[k];
        let b = reps_end[k];
        let ghost before = cur@;
        if a < b && b <= cur.len() {
            let next = crate::coref::splice_chars(&cur, a, b, &reps_text[k]);
            cur = next;
            proof {
                assert(cur@ =~= splice_model(before, a as int, b as int, reps_text@[k as int]@));
            }
        } else {
            proof {
                assert(cur@ == splice_model(before, a as int, b as int, reps_text@[k as int]@));
            }
        }
    }

    let resolved = chars_to_string(&cur);
    proof {
        assert(resolved@ == apply_reps(text@, reps, 0));
        assert(ws_resolution_evidence(text@, resolved@));
    }
    CoreferenceResult {
        resolved_text: resolved,
        clusters,
        offset_to_canonical: offset_map,
    }
}

proof fn lemma_token_starts_ordered(t: Seq<char>, toks: Seq<WsToken>, a: int, b: int)
    requires
        0 <= a < b < toks.len(),
        forall|k: int|
            0 <= k < toks.len() ==> ws_token(
                t,
                (#[trigger] toks[k]).start as int,
                toks[k].end as int,
            ),
        forall|k: int|
            0 <= k && k + 1 < toks.len() ==> (#[trigger] toks[k]).end <= toks[k + 1].start,
    ensures
        toks[a].end as int <= toks[b].start as int,
    decreases b - a,
{
    if a + 1 < b {
        lemma_token_starts_ordered(t, toks, a + 1, b);
        assert(ws_token(t, toks[a + 1].start as int, toks[a + 1].end as int));
    }
}

/// The content of an offset-to-canonical map: each entry as an offset and
/// the canonical text's characters.
pub open spec fn offset_pairs_view(m: Seq<(usize, String)>) -> Seq<(usize, Seq<char>)> {
    m.map_values(|p: (usize, String)| (p.0, p.1@))
}

/// The (offset, canonical) pairs one cluster contributes: one pair per
/// mention, carrying the cluster's canonical text.
pub open spec fn mention_pairs(c: CoreferenceCluster) -> Seq<(usize, Seq<char>)> {
    Seq::new(c.mentions@.len(), |i: int| (c.mentions@[i].start, c.canonical@))
}

/// The (offset, canonical) pairs of the first `k` clusters, in order.
pub open spec fn cluster_pairs_upto(cs: Seq<CoreferenceCluster>, k: int) -> Seq<
    (usize, Seq<char>),
>
    decreases k,
{
    if k <= 0 {
        Seq::empty()
    } else {
        cluster_pairs_upto(cs, k - 1) + mention_pairs(cs[k - 1])
    }
}

/// Assemble the result of an outside annotation service: the resolved text
/// and clusters are taken as they came, and the offset-to-canonical map
/// holds exactly the (start, canonical) pairs of every cluster's mentions,
/// in cluster order, and nothing else.
pub fn sidecar_result(resolved_text: String, clusters: Vec<CoreferenceCluster>) -> (r: CoreferenceResult)
    ensures
        r.resolved_text == resolved_text,
        r.clusters@ == clusters@,
        offset_pairs_view(r.offset_to_canonical@) == cluster_pairs_upto(
            clusters@,
            clusters@.len() as int,
        ),
{
    let nc: usize = clusters.len();
    let mut offset_map: Vec<(usize, String)> = Vec::new();
    let mut k: usize = 0;
    proof {
        assert(offset_pairs_view(offset_map@) =~= cluster_pairs_upto(clusters@, 0));
    }
    while k < nc
        invariant
            k <= nc,
            nc == clusters@.len(),
            offset_pairs_view(offset_map@) == cluster_pairs_upto(clusters@, k as int),
        decreases nc - k,
    {
        let nm: usize = clusters[k].mentions.len();
        let mut i: usize = 0;
        while i < nm
            invariant
                i <= nm,
                k < nc,
                nc == clusters@.len(),
                nm == clusters@[k as int].mentions@.len(),
                offset_pairs_view(offset_map@) == cluster_pairs_upto(clusters@, k as int)
                    + mention_pairs(clusters@[k as int]).take(i as int),
            decreases nm - i,
        {
            let pair = (clusters[k].mentions[i].start, clusters[k].canonical.clone());
            let ghost prev = offset_map@;
            offset_map.push(pair);
            proof {
                assert(mention_pairs(clusters@[k as int]).take(i + 1) =~= mention_pairs(
                    clusters@[k as int],
                ).take(i as int).push(
                    (clusters@[k as int].mentions@[i as int].start, clusters@[k as int].canonical@),
                ));
                assert(offset_map@ == prev.push(pair));
                assert(offset_pairs_view(prev).len() == prev.len());
                assert(prev.len() == cluster_pairs_upto(clusters@, k as int).len() + i);
                assert forall|x: int|
                    0 <= x < offset_map@.len() implies #[trigger] offset_pairs_view(
                    offset_map@,
                )[x] == (cluster_pairs_upto(clusters@, k as int) + mention_pairs(
                    clusters@[k as int],
                ).take(i + 1))[x] by {
                    let upto = cluster_pairs_upto(clusters@, k as int);
                    let mine = mention_pairs(clusters@[k as int]);
                    assert(offset_pairs_view(offset_map@)[x] == (offset_map@[x].0,
                    offset_map@[x].1@));
                    if x < prev.len() {
                        assert(offset_map@[x] == prev[x]);
                        assert(offset_pairs_view(prev)[x] == (prev[x].0, prev[x].1@));
                        assert(offset_pairs_view(prev)[x] == (upto + mine.take(i as int))[x]);
                        if x < upto.len() {
                            assert((upto + mine.take(i as int))[x] == upto[x]);
                            assert((upto + mine.take(i + 1))[x] == upto[x]);
                        } else {
                            assert((upto + mine.take(i as int))[x] == mine.take(i as int)[x
                                - upto.len()]);
                            assert((upto + mine.take(i + 1))[x] == mine.take(i + 1)[x
                                - upto.len()]);
                        }
                    } else {
                        assert(offset_map@[x] == pair);
                        assert((upto + mine.take(i + 1))[x] == mine.take(i + 1)[i as int]);
                        assert(mine.take(i + 1)[i as int] == mine[i as int]);
                        assert(mine[i as int] == (
                            clusters@[k as int].mentions@[i as int].start,
                            clusters@[k as int].canonical@,
                        ));
                    }
                }
                assert(offset_pairs_view(offset_map@) =~= cluster_pairs_upto(clusters@, k as int)
                    + mention_pairs(clusters@[k as int]).take(i + 1));
            }
            i += 1;
        }
        proof {
            assert(mention_pairs(clusters@[k as int]).take(nm as int) =~= mention_pairs(
                clusters@[k as int],
            ));
            assert(offset_pairs_view(offset_map@) =~= cluster_pairs_upto(clusters@, k + 1));
        }
        k += 1;
    }
    CoreferenceResult { resolved_text, clusters, offset_to_canonical: offset_map }
}

} // verus!
