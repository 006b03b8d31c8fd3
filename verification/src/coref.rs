//! Coreference resolution: rewriting pronouns to explicit antecedents.
//!
//! The rule-based strategy splits the text into sentences, detects
//! capitalized multi-token spans as candidate antecedents (leaving out
//! all-caps tokens and common determiners), classifies each pronoun through a
//! fixed lexical table, and replaces each pronoun with the nearest earlier
//! candidate whose heuristic class matches, within a configurable sentence
//! distance. Replacements are applied in reverse text order so earlier
//! offsets stay valid. A text without pronouns comes back unchanged, with no
//! clusters: that is part of the contract of `resolve`.

use crate::error::Error;
use crate::textutil::{
    char_is_alpha, char_is_space, chars_eq_str, chars_to_string, contains_sub, has_sub, is_alpha,
    is_space, is_upper, lowered, matches_at, string_to_chars, to_lower,
};
use vstd::prelude::*;
use vstd::string::StringExecFns;

verus! {

/// Strategy for coreference resolution.
#[derive(Debug, Clone, PartialEq, Eq, Structural)]
pub enum CorefStrategy {
    /// No coreference resolution: pass-through.
    Disabled,
    /// Rule-based resolution using heuristics.
    RuleBased,
}

/// Configuration for coreference resolution.
pub struct CorefConfig {
    /// Strategy for coreference resolution.
    pub strategy: CorefStrategy,
    /// Whether to keep the original text in the result.
    pub preserve_original: bool,
    /// Maximum distance in sentences to look back for antecedents.
    pub max_distance: usize,
    /// Minimum confidence for entity matches, per-mille.
    pub min_confidence_milli: u32,
}

impl Default for CorefConfig {
    /// Rule-based resolution, looking back up to three sentences.
    fn default() -> (r: Self)
        ensures
            r.strategy == CorefStrategy::RuleBased,
            r.preserve_original == true,
            r.max_distance == 3,
            r.min_confidence_milli == 700,
    {
        CorefConfig {
            strategy: CorefStrategy::RuleBased,
            preserve_original: true,
            max_distance: 3,
            min_confidence_milli: 700,
        }
    }
}

/// A single mention of an entity.
pub struct Mention {
    /// The text of the mention.
    pub text: String,
    /// Start character offset.
    pub start: usize,
    /// End character offset.
    pub end: usize,
    /// Whether this is the main mention of its cluster.
    pub is_main: bool,
    /// Sentence index.
    pub sentence_idx: usize,
}

/// A group of mentions referring to the same entity.
pub struct CorefCluster {
    /// Cluster id.
    pub id: usize,
    /// Main (canonical) mention.
    pub main_mention: Mention,
    /// All other mentions in the cluster.
    pub mentions: Vec<Mention>,
}

/// Result of coreference resolution.
pub struct CorefResult {
    /// Original text.
    pub original_text: String,
    /// Resolved text with pronouns replaced.
    pub resolved_text: String,
    /// Coreference clusters found.
    pub clusters: Vec<CorefCluster>,
    /// Mapping from original mention to resolved mention, keyed uniquely.
    pub mention_map: Vec<(String, String)>,
}

/// Pronoun classification.
#[derive(Debug, Clone, Copy, PartialEq, Eq, Structural)]
pub enum PronounType {
    Masculine,
    Feminine,
    Neutral,
    Plural,
}

// ---------------------------------------------------------------------------
// Tokens
// ---------------------------------------------------------------------------

/// The characters `i .. j` of `t` form a maximal run free of whitespace and
/// sentence dots: a word.
pub open spec fn is_token(t: Seq<char>, i: int, j: int) -> bool {
    &&& 0 <= i < j <= t.len()
    &&& forall|k: int| i <= k < j ==> !is_space(#[trigger] t[k]) && t[k] != '.'
    &&& (i == 0 || is_space(t[i - 1]) || t[i - 1] == '.')
    &&& (j == t.len() || is_space(t[j]) || t[j] == '.')
}

/// Drop non-letters from the front.
pub open spec fn trim_front(s: Seq<char>) -> Seq<char>
    decreases s.len(),
{
    if s.len() == 0 {
        s
    } else if !is_alpha(s[0]) {
        trim_front(s.drop_first())
    } else {
        s
    }
}

/// Drop non-letters from the back.
pub open spec fn trim_back(s: Seq<char>) -> Seq<char>
    decreases s.len(),
{
    if s.len() == 0 {
        s
    } else if !is_alpha(s.last()) {
        trim_back(s.drop_last())
    } else {
        s
    }
}

/// Drop non-letters from both ends.
pub open spec fn trim_non_alpha(s: Seq<char>) -> Seq<char> {
    trim_back(trim_front(s))
}

/// The pronoun class of a word, by the fixed lexical table, after
/// lowercasing and trimming non-letters.
pub open spec fn spec_classify(w: Seq<char>) -> Option<PronounType> {
    let t = trim_non_alpha(lowered(w));
    if t == "he"@ || t == "him"@ || t == "his"@ || t == "himself"@ {
        Some(PronounType::Masculine)
    } else if t == "she"@ || t == "her"@ || t == "hers"@ || t == "herself"@ {
        Some(PronounType::Feminine)
    } else if t == "it"@ || t == "its"@ || t == "itself"@ {
        Some(PronounType::Neutral)
    } else if t == "they"@ || t == "them"@ || t == "their"@ || t == "theirs"@ || t
        == "themselves"@ {
        Some(PronounType::Plural)
    } else {
        None
    }
}

/// Some word of the text classifies as a pronoun.
pub open spec fn has_pronoun_token(t: Seq<char>) -> bool {
    exists|i: int, j: int| is_token(t, i, j) && #[trigger] spec_classify(t.subrange(i, j)) is Some
}

/// One text splice: the characters `a .. b` replaced by `ins`; out-of-range
/// spans leave the text as it stands.
pub open spec fn splice_model(s: Seq<char>, a: int, b: int, ins: Seq<char>) -> Seq<char> {
    if 0 <= a && a < b && b <= s.len() {
        s.subrange(0, a) + ins + s.subrange(b, s.len() as int)
    } else {
        s
    }
}

/// The text after applying the replacements `k ..` of `reps`, last first, so
/// earlier offsets stay valid after each substitution.
pub open spec fn apply_reps(t: Seq<char>, reps: Seq<(int, int, Seq<char>)>, k: int) -> Seq<char>
    decreases reps.len() - k,
    when 0 <= k <= reps.len()
{
    if k >= reps.len() {
        t
    } else {
        splice_model(apply_reps(t, reps, k + 1), reps[k].0, reps[k].1, reps[k].2)
    }
}

/// The sentence bookkeeping after reading `t[0 .. i)`: how many sentence
/// breaks were passed (a dot after some non-whitespace since the last
/// break), and whether a non-whitespace character stands since the last
/// break.
pub open spec fn sent_state(t: Seq<char>, i: int) -> (nat, bool)
    decreases i,
    when 0 <= i <= t.len()
{
    if i <= 0 {
        (0, false)
    } else {
        let prev = sent_state(t, i - 1);
        let c = t[i - 1];
        if c == '.' {
            if prev.1 {
                ((prev.0 + 1) as nat, false)
            } else {
                prev
            }
        } else if is_space(c) {
            prev
        } else {
            (prev.0, true)
        }
    }
}

/// The sentence index at position `i` of the text.
pub open spec fn sentence_index(t: Seq<char>, i: int) -> nat {
    sent_state(t, i).0
}

proof fn lemma_sentence_const(t: Seq<char>, a: int, b: int)
    requires
        0 <= a <= b <= t.len(),
        forall|k: int| a <= k < b ==> t[k] != '.',
    ensures
        sentence_index(t, b) == sentence_index(t, a),
    decreases b - a,
{
    if a < b {
        lemma_sentence_const(t, a, b - 1);
    }
}

/// A proper-noun span head stands at `i .. j` of the text: a word that can
/// open a candidate antecedent.
pub open spec fn candidate_head_at(t: Seq<char>, i: int, j: int) -> bool {
    is_token(t, i, j) && spec_proper_noun_start(t.subrange(i, j))
}

/// One replacement is a genuine resolution: the replaced span is a word
/// classified as a pronoun, and the inserted text matches that pronoun's
/// class and opens with a capitalized candidate word standing earlier in the
/// text, at most `maxd` sentences back.
pub open spec fn rep_valid(t: Seq<char>, maxd: nat, rep: (int, int, Seq<char>)) -> bool {
    &&& is_token(t, rep.0, rep.1)
    &&& spec_classify(t.subrange(rep.0, rep.1)) is Some
    &&& spec_matches_pronoun(rep.2, spec_classify(t.subrange(rep.0, rep.1))->0)
    &&& exists|cp: int, j: int|
        {
            &&& #[trigger] candidate_head_at(t, cp, j)
            &&& matches_at(rep.2, t.subrange(cp, j), 0)
            &&& cp < rep.0
            &&& sentence_index(t, cp) <= sentence_index(t, rep.0)
            &&& sentence_index(t, rep.0) - sentence_index(t, cp) <= maxd
        }
}

/// A mention-map pair records a resolution: the key is a word of pronoun
/// class, the value a name matching that class.
pub open spec fn pair_resolved(p: (String, String)) -> bool {
    spec_classify(p.0@) is Some && spec_matches_pronoun(p.1@, spec_classify(p.0@)->0)
}

/// The resolved text is the original text with some sequence of genuine
/// resolutions spliced in, applied in reverse text order.
pub open spec fn resolution_evidence(t: Seq<char>, maxd: nat, resolved: Seq<char>) -> bool {
    exists|reps: Seq<(int, int, Seq<char>)>|
        #![trigger apply_reps(t, reps, 0)]
        {
            &&& resolved == apply_reps(t, reps, 0)
            &&& forall|k: int| 0 <= k < reps.len() ==> rep_valid(t, maxd, #[trigger] reps[k])
        }
}

// ---------------------------------------------------------------------------
// Word heuristics
// ---------------------------------------------------------------------------

/// A word that can start a proper-noun span: more than one character,
/// capitalized, and not all-caps.
pub open spec fn spec_proper_noun_start(w: Seq<char>) -> bool {
    w.len() > 1 && is_upper(w[0]) && !is_upper(w[1])
}

/// Check if a word starts a proper-noun span.
pub fn is_proper_noun_start(word: &str) -> (r: bool)
    ensures
        r == spec_proper_noun_start(word@),
{
    let cs = string_to_chars(word);
    if cs.len() <= 1 {
        return false;
    }
    let first_up = 'A' <= cs[0] && cs[0] <= 'Z';
    let second_up = 'A' <= cs[1] && cs[1] <= 'Z';
    first_up && !second_up
}

/// A word that can continue a proper-noun span: capitalized, with nothing
/// but lowercase or non-letter characters after the first.
pub open spec fn spec_proper_noun(w: Seq<char>) -> bool {
    w.len() > 0 && is_upper(w[0]) && forall|k: int|
        1 <= k < w.len() ==> crate::textutil::is_lower(#[trigger] w[k]) || !is_alpha(w[k])
}

/// Check if a word can stand inside a proper-noun span.
pub fn is_proper_noun(word: &str) -> (r: bool)
    ensures
        r == spec_proper_noun(word@),
{
    let cs = string_to_chars(word);
    let n: usize = cs.len();
    if n == 0 {
        return false;
    }
    if !('A' <= cs[0] && cs[0] <= 'Z') {
        return false;
    }
    let mut k: usize = 1;
    while k < n
        invariant
            1 <= k <= n,
            n == cs@.len(),
            cs@ == word@,
            forall|j: int|
                1 <= j < k ==> crate::textutil::is_lower(#[trigger] cs@[j]) || !is_alpha(cs@[j]),
        decreases n - k,
    {
        let c = cs[k];
        let lower = 'a' <= c && c <= 'z';
        let alpha = lower || ('A' <= c && c <= 'Z');
        if !lower && alpha {
            return false;
        }
        k += 1;
    }
    true
}

fn trim_front_exec(v: Vec<char>) -> (r: Vec<char>)
    ensures
        r@ == trim_front(v@),
    decreases v@.len(),
{
    if v.len() == 0 {
        v
    } else if !char_is_alpha(v[0]) {
        let mut v = v;
        let ghost before = v@;
        v.remove(0);
        proof {
            assert(v@ =~= before.drop_first());
        }
        trim_front_exec(v)
    } else {
        v
    }
}

fn trim_back_exec(v: Vec<char>) -> (r: Vec<char>)
    ensures
        r@ == trim_back(v@),
    decreases v@.len(),
{
    if v.len() == 0 {
        v
    } else if !char_is_alpha(v[v.len() - 1]) {
        let mut v = v;
        let ghost before = v@;
        v.pop();
        proof {
            assert(v@ =~= before.drop_last());
        }
        trim_back_exec(v)
    } else {
        v
    }
}

/// Classify a pronoun by the fixed lexical table; `None` for any other word.
pub fn classify_pronoun(word: &str) -> (r: Option<PronounType>)
    ensures
        r == spec_classify(word@),
{
    let lw = to_lower(word);
    let cs = string_to_chars(lw.as_str());
    let t = trim_back_exec(trim_front_exec(cs));
    if chars_eq_str(&t, "he") || chars_eq_str(&t, "him") || chars_eq_str(&t, "his")
        || chars_eq_str(&t, "himself") {
        Some(PronounType::Masculine)
    } else if chars_eq_str(&t, "she") || chars_eq_str(&t, "her") || chars_eq_str(&t, "hers")
        || chars_eq_str(&t, "herself") {
        Some(PronounType::Feminine)
    } else if chars_eq_str(&t, "it") || chars_eq_str(&t, "its") || chars_eq_str(&t, "itself") {
        Some(PronounType::Neutral)
    } else if chars_eq_str(&t, "they") || chars_eq_str(&t, "them") || chars_eq_str(&t, "their")
        || chars_eq_str(&t, "theirs") || chars_eq_str(&t, "themselves") {
        Some(PronounType::Plural)
    } else {
        None
    }
}

/// The number of whitespace-separated words in `s`, reading from `i` with
/// `in_word` saying whether position `i` continues a word.
pub open spec fn word_count_from(s: Seq<char>, i: int, in_word: bool) -> nat
    decreases s.len() - i,
    when 0 <= i <= s.len()
{
    if i >= s.len() {
        0
    } else if !is_space(s[i]) && !in_word {
        1 + word_count_from(s, i + 1, true)
    } else {
        word_count_from(s, i + 1, !is_space(s[i]))
    }
}

/// The number of whitespace-separated words in `s`.
pub open spec fn word_count(s: Seq<char>) -> nat {
    word_count_from(s, 0, false)
}

/// The text carries an organization suffix.
pub open spec fn org_suffix(e: Seq<char>) -> bool {
    has_sub(e, "Corp"@) || has_sub(e, "Inc"@) || has_sub(e, "LLC"@) || has_sub(e, "Ltd"@)
        || has_sub(e, "Company"@)
}

/// Whether an entity name is a plausible antecedent for a pronoun class:
/// a short personal name for masculine and feminine pronouns, an
/// organization-suffix-bearing name for neutral ones, a conjoined or
/// plural-looking name for plural ones.
pub open spec fn spec_matches_pronoun(e: Seq<char>, p: PronounType) -> bool {
    match p {
        PronounType::Masculine | PronounType::Feminine => word_count(e) <= 3 && !has_sub(
            lowered(e),
            " and "@,
        ) && !org_suffix(e),
        PronounType::Neutral => org_suffix(e),
        PronounType::Plural => has_sub(lowered(e), " and "@) || (e.len() > 0 && e.last() == 's'),
    }
}

fn count_words(cs: &Vec<char>) -> (r: usize)
    ensures
        r == word_count(cs@),
{
    let n: usize = cs.len();
    let mut count: usize = 0;
    let mut in_word = false;
    let mut i: usize = 0;
    while i < n
        invariant
            i <= n,
            n == cs@.len(),
            count <= i,
            count + word_count_from(cs@, i as int, in_word) == word_count(cs@),
        decreases n - i,
    {
        if !char_is_space(cs[i]) && !in_word {
            count += 1;
            in_word = true;
        } else {
            in_word = !char_is_space(cs[i]);
        }
        i += 1;
    }
    count
}

fn has_org_suffix(cs: &Vec<char>) -> (r: bool)
    ensures
        r == org_suffix(cs@),
{
    let c1 = string_to_chars("Corp");
    let c2 = string_to_chars("Inc");
    let c3 = string_to_chars("LLC");
    let c4 = string_to_chars("Ltd");
    let c5 = string_to_chars("Company");
    contains_sub(cs, &c1) || contains_sub(cs, &c2) || contains_sub(cs, &c3) || contains_sub(
        cs,
        &c4,
    ) || contains_sub(cs, &c5)
}

/// Check if an entity name matches a pronoun class.
pub fn matches_pronoun(entity: &str, pronoun: &PronounType) -> (r: bool)
    ensures
        r == spec_matches_pronoun(entity@, *pronoun),
{
    let cs = string_to_chars(entity);
    match pronoun {
        PronounType::Masculine | PronounType::Feminine => {
            let words = count_words(&cs);
            if words > 3 {
                return false;
            }
            let low = to_lower(entity);
            let lcs = string_to_chars(low.as_str());
            let and = string_to_chars(" and ");
            if contains_sub(&lcs, &and) {
                return false;
            }
            !has_org_suffix(&cs)
        },
        PronounType::Neutral => has_org_suffix(&cs),
        PronounType::Plural => {
            let low = to_lower(entity);
            let lcs = string_to_chars(low.as_str());
            let and = string_to_chars(" and ");
            if contains_sub(&lcs, &and) {
                return true;
            }
            cs.len() > 0 && cs[cs.len() - 1] == 's'
        },
    }
}

// ---------------------------------------------------------------------------
// Tokenizer
// ---------------------------------------------------------------------------

struct Token {
    start: usize,
    end: usize,
    sentence: usize,
}

/// Tokenize a text into words with their sentence indices. Every produced
/// span is a word of the text in the sense of `is_token` carrying its
/// sentence index, and spans come in increasing, non-overlapping text order.
#[verifier::rlimit(60)]
fn tokenize(cs: &Vec<char>) -> (toks: Vec<Token>)
    ensures
        forall|k: int|
            0 <= k < toks@.len() ==> is_token(
                cs@,
                (#[trigger] toks@[k]).start as int,
                toks@[k].end as int,
            ),
        forall|k: int|
            0 <= k < toks@.len() ==> (#[trigger] toks@[k]).sentence == sentence_index(
                cs@,
                toks@[k].start as int,
            ),
        forall|k: int|
            0 <= k && k + 1 < toks@.len() ==> (#[trigger] toks@[k]).end <= toks@[k + 1].start,
{
    let n: usize = cs.len();
    let mut toks: Vec<Token> = Vec::new();
    let mut sent: usize = 0;
    let mut had_nonws = false;
    let mut start: usize = 0;
    let mut in_tok = false;
    let mut i: usize = 0;
    while i < n
        invariant
            i <= n,
            n == cs@.len(),
            sent <= i,
            sent == sent_state(cs@, i as int).0,
            had_nonws == sent_state(cs@, i as int).1,
            in_tok ==> start < i,
            in_tok ==> forall|k: int|
                start <= k < i ==> !is_space(#[trigger] cs@[k]) && cs@[k] != '.',
            in_tok ==> (start == 0 || is_space(cs@[start - 1]) || cs@[start - 1] == '.'),
            !in_tok ==> (i == 0 || is_space(cs@[i - 1]) || cs@[i - 1] == '.'),
            forall|k: int|
                0 <= k < toks@.len() ==> is_token(
                    cs@,
                    (#[trigger] toks@[k]).start as int,
                    toks@[k].end as int,
                ),
            forall|k: int|
                0 <= k < toks@.len() ==> (#[trigger] toks@[k]).sentence == sentence_index(
                    cs@,
                    toks@[k].start as int,
                ),
            forall|k: int|
                0 <= k && k + 1 < toks@.len() ==> (#[trigger] toks@[k]).end <= toks@[k + 1].start,
            toks@.len() > 0 && in_tok ==> toks@[toks@.len() - 1].end <= start,
            toks@.len() > 0 && !in_tok ==> toks@[toks@.len() - 1].end <= i,
        decreases n - i,
    {
        let c = cs[i];
        let space = char_is_space(c);
        if c == '.' || space {
            if in_tok {
                proof {
                    assert(is_token(cs@, start as int, i as int));
                    lemma_sentence_const(cs@, start as int, i as int);
                    assert(toks@.len() > 0 ==> toks@[toks@.len() - 1].end <= start);
                }
                let ghost prev = toks@;
                toks.push(Token { start, end: i, sentence: sent });
                in_tok = false;
                proof {
                    assert forall|k: int|
                        0 <= k && k + 1 < toks@.len() implies (#[trigger] toks@[k]).end <= toks@[k
                        + 1].start by {
                        assert(toks@[k] == prev[k]);
                        if k + 2 < toks@.len() {
                            assert(toks@[k + 1] == prev[k + 1]);
                            assert(prev[k].end <= prev[k + 1].start);
                        } else {
                            assert(toks@[k + 1].start == start);
                            assert(prev[k].end <= start);
                        }
                    }
                }
            }
            if c == '.' {
                if had_nonws {
                    sent += 1;
                    had_nonws = false;
                }
            }
        } else {
            had_nonws = true;
            if !in_tok {
                in_tok = true;
                start = i;
            }
        }
        i += 1;
    }
    if in_tok {
        proof {
            assert(is_token(cs@, start as int, n as int));
            lemma_sentence_const(cs@, start as int, n as int);
            assert(toks@.len() > 0 ==> toks@[toks@.len() - 1].end <= start);
        }
        let ghost prev = toks@;
        toks.push(Token { start, end: n, sentence: sent });
        proof {
            assert forall|k: int|
                0 <= k && k + 1 < toks@.len() implies (#[trigger] toks@[k]).end <= toks@[k
                + 1].start by {
                assert(toks@[k] == prev[k]);
                if k + 2 < toks@.len() {
                    assert(toks@[k + 1] == prev[k + 1]);
                    assert(prev[k].end <= prev[k + 1].start);
                } else {
                    assert(toks@[k + 1].start == start);
                    assert(prev[k].end <= start);
                }
            }
        }
    }
    toks
}

fn sub_chars(v: &Vec<char>, a: usize, b: usize) -> (r: Vec<char>)
    requires
        a <= b <= v@.len(),
    ensures
        r@ == v@.subrange(a as int, b as int),
{
    let mut r: Vec<char> = Vec::new();
    let mut i: usize = a;
    while i < b
        invariant
            a <= i <= b <= v@.len(),
            r@ == v@.subrange(a as int, i as int),
        decreases b - i,
    {
        r.push(v[i]);
        proof {
            assert(r@ =~= v@.subrange(a as int, i + 1));
        }
        i += 1;
    }
    r
}

/// Splice: the characters of `v` with positions `a .. b` replaced by `ins`.
pub fn splice_chars(v: &Vec<char>, a: usize, b: usize, ins: &Vec<char>) -> (r: Vec<char>)
    requires
        a <= b <= v@.len(),
    ensures
        r@ == v@.subrange(0, a as int) + ins@ + v@.subrange(b as int, v@.len() as int),
{
    let mut r = sub_chars(v, 0, a);
    let mut k: usize = 0;
    while k < ins.len()
        invariant
            k <= ins@.len(),
            a <= b <= v@.len(),
            r@ == v@.subrange(0, a as int) + ins@.subrange(0, k as int),
        decreases ins@.len() - k,
    {
        r.push(ins[k]);
        proof {
            assert(r@ =~= v@.subrange(0, a as int) + ins@.subrange(0, k + 1));
        }
        k += 1;
    }
    let mut k2: usize = b;
    while k2 < v.len()
        invariant
            a <= b <= k2 <= v@.len(),
            r@ == v@.subrange(0, a as int) + ins@ + v@.subrange(b as int, k2 as int),
        decreases v@.len() - k2,
    {
        r.push(v[k2]);
        proof {
            assert(r@ =~= v@.subrange(0, a as int) + ins@ + v@.subrange(b as int, k2 + 1));
        }
        k2 += 1;
    }
    proof {
        assert(r@ =~= v@.subrange(0, a as int) + ins@ + v@.subrange(b as int, v@.len() as int));
    }
    r
}

struct Candidate {
    text: Vec<char>,
    start: usize,
    sentence: usize,
}

/// A candidate record is faithful to the text: a capitalized span head
/// stands at its recorded position, its text opens with that head word, and
/// its sentence index is the position's.
spec fn cand_ok(t: Seq<char>, c: Candidate) -> bool {
    &&& exists|j: int|
        #[trigger] candidate_head_at(t, c.start as int, j) && matches_at(
            c.text@,
            t.subrange(c.start as int, j),
            0,
        )
    &&& c.sentence == sentence_index(t, c.start as int)
}

/// Collect candidate antecedents: maximal runs of two or more capitalized
/// words within one sentence, leaving out all-caps words and the common
/// determiners. Every candidate is faithful to the text.
fn find_candidates(cs: &Vec<char>, toks: &Vec<Token>) -> (cands: Vec<Candidate>)
    requires
        forall|k: int|
            0 <= k < toks@.len() ==> is_token(
                cs@,
                (#[trigger] toks@[k]).start as int,
                toks@[k].end as int,
            ),
        forall|k: int|
            0 <= k < toks@.len() ==> (#[trigger] toks@[k]).sentence == sentence_index(
                cs@,
                toks@[k].start as int,
            ),
    ensures
        forall|k: int| 0 <= k < cands@.len() ==> cand_ok(cs@, #[trigger] cands@[k]),
{
    let n: usize = toks.len();
    let mut cands: Vec<Candidate> = Vec::new();
    let mut i: usize = 0;
    while i < n
        invariant
            n == toks@.len(),
            forall|k: int|
                0 <= k < toks@.len() ==> is_token(
                    cs@,
                    (#[trigger] toks@[k]).start as int,
                    toks@[k].end as int,
                ),
            forall|k: int|
                0 <= k < toks@.len() ==> (#[trigger] toks@[k]).sentence == sentence_index(
                    cs@,
                    toks@[k].start as int,
                ),
            forall|k: int| 0 <= k < cands@.len() ==> cand_ok(cs@, #[trigger] cands@[k]),
        decreases n - i,
    {
        let w = sub_chars(cs, toks[i].start, toks[i].end);
        let ws = chars_to_string(&w);
        let deter = chars_eq_str(&w, "The") || chars_eq_str(&w, "A") || chars_eq_str(&w, "This");
        if is_proper_noun_start(ws.as_str()) && !deter {
            let sent = toks[i].sentence;
            let start = toks[i].start;
            let ghost head_end = toks@[i as int].end as int;
            proof {
                assert(candidate_head_at(cs@, start as int, head_end));
            }
            let mut text = w;
            proof {
                assert(text@.subrange(0, head_end - (start as int)) =~= text@);
                assert(matches_at(text@, cs@.subrange(start as int, head_end), 0));
            }
            let mut count: usize = 1;
            let mut j: usize = i + 1;
            while j < n
                invariant
                    i < j <= n,
                    n == toks@.len(),
                    1 <= count <= j,
                    start == toks@[i as int].start,
                    sent == toks@[i as int].sentence,
                    candidate_head_at(cs@, start as int, head_end),
                    matches_at(text@, cs@.subrange(start as int, head_end), 0),
                    forall|k: int|
                        0 <= k < toks@.len() ==> is_token(
                            cs@,
                            (#[trigger] toks@[k]).start as int,
                            toks@[k].end as int,
                        ),
                decreases n - j,
            {
                if toks[j].sentence != sent {
                    break ;
                }
                let wj = sub_chars(cs, toks[j].start, toks[j].end);
                let wjs = chars_to_string(&wj);
                let deter_j = chars_eq_str(&wj, "The") || chars_eq_str(&wj, "A") || chars_eq_str(
                    &wj,
                    "This",
                );
                if is_proper_noun(wjs.as_str()) && !deter_j {
                    let ghost before = text@;
                    text.push(' ');
                    let mut m: usize = 0;
                    while m < wj.len()
                        invariant
                            m <= wj@.len(),
                            candidate_head_at(cs@, start as int, head_end),
                            text@.len() >= before.len(),
                            text@.subrange(0, before.len() as int) == before,
                            matches_at(before, cs@.subrange(start as int, head_end), 0),
                        decreases wj@.len() - m,
                    {
                        let ghost pre = text@;
                        text.push(wj[m]);
                        proof {
                            assert(text@.subrange(0, before.len() as int) =~= pre.subrange(
                                0,
                                before.len() as int,
                            ));
                        }
                        m += 1;
                    }
                    proof {
                        assert(matches_at(text@, cs@.subrange(start as int, head_end), 0)) by {
                            let hl = head_end - start;
                            assert(text@.subrange(0, hl) =~= text@.subrange(
                                0,
                                before.len() as int,
                            ).subrange(0, hl));
                        }
                    }
                    count += 1;
                    j += 1;
                } else {
                    break ;
                }
            }
            if count >= 2 {
                let cand = Candidate { text, start, sentence: sent };
                proof {
                    assert(candidate_head_at(cs@, cand.start as int, head_end));
                    assert(matches_at(cand.text@, cs@.subrange(cand.start as int, head_end), 0));
                    assert(cand.sentence == sentence_index(cs@, cand.start as int));
                    assert(cand_ok(cs@, cand));
                }
                cands.push(cand);
            }
            i = j;
        } else {
            i += 1;
        }
    }
    cands
}

/// Coreference resolver.
pub struct CorefResolver {
    /// The configuration this resolver was built with.
    pub config: CorefConfig,
}

impl CorefResolver {
    /// Create a new coreference resolver.
    pub fn new(config: CorefConfig) -> (r: Result<Self, Error>)
        ensures
            r is Ok,
            r->Ok_0.config == config,
    {
        Ok(Self { config })
    }

    /// Resolve coreferences in a text.
    ///
    /// Never fails; unresolved pronouns are left untouched. With the
    /// pass-through strategy the text comes back unchanged with no clusters.
    /// With the rule-based strategy, the resolved text is the original text
    /// with genuine resolutions spliced in — each replaces a word of pronoun
    /// class with a name matching that class, opening with a capitalized
    /// candidate word standing earlier in the text within the configured
    /// sentence distance — and every mention-map pair records such a
    /// resolution. A text without pronouns comes back unchanged with no
    /// clusters and an empty mention map.
    pub fn resolve(&self, text: &str) -> (r: Result<CorefResult, Error>)
        ensures
            r is Ok,
            r->Ok_0.original_text@ == text@,
            self.config.strategy == CorefStrategy::Disabled ==> {
                &&& r->Ok_0.resolved_text@ == text@
                &&& r->Ok_0.clusters@.len() == 0
                &&& r->Ok_0.mention_map@.len() == 0
            },
            self.config.strategy == CorefStrategy::RuleBased ==> {
                &&& resolution_evidence(
                    text@,
                    self.config.max_distance as nat,
                    r->Ok_0.resolved_text@,
                )
                &&& forall|m: int|
                    0 <= m < r->Ok_0.mention_map@.len() ==> pair_resolved(
                        #[trigger] r->Ok_0.mention_map@[m],
                    )
            },
            self.config.strategy == CorefStrategy::RuleBased && !has_pronoun_token(text@) ==> {
                &&& r->Ok_0.resolved_text@ == text@
                &&& r->Ok_0.clusters@.len() == 0
                &&& r->Ok_0.mention_map@.len() == 0
            },
    {
        match self.config.strategy {
            CorefStrategy::Disabled => Ok(
                CorefResult {
                    original_text: String::from_str(text),
                    resolved_text: String::from_str(text),
                    clusters: Vec::new(),
                    mention_map: Vec::new(),
                },
            ),
            CorefStrategy::RuleBased => Ok(self.resolve_rule_based(text)),
        }
    }

    /// Rule-based resolution.
    #[verifier::rlimit(100)]
    fn resolve_rule_based(&self, text: &str) -> (r: CorefResult)
        ensures
            r.original_text@ == text@,
            resolution_evidence(text@, self.config.max_distance as nat, r.resolved_text@),
            forall|m: int|
                0 <= m < r.mention_map@.len() ==> pair_resolved(#[trigger] r.mention_map@[m]),
            !has_pronoun_token(text@) ==> {
                &&& r.resolved_text@ == text@
                &&& r.clusters@.len() == 0
                &&& r.mention_map@.len() == 0
            },
    {
        let ghost maxd = self.config.max_distance as nat;
        let cs = string_to_chars(text);
        let toks = tokenize(&cs);
        let cands = find_candidates(&cs, &toks);

        let mut reps_start: Vec<usize> = Vec::new();
        let mut reps_end: Vec<usize> = Vec::new();
        let mut reps_text: Vec<Vec<char>> = Vec::new();
        let ghost mut reps: Seq<(int, int, Seq<char>)> = Seq::empty();
        let mut clusters: Vec<CorefCluster> = Vec::new();
        let mut mention_map: Vec<(String, String)> = Vec::new();

        let nt: usize = toks.len();
        let mut ti: usize = 0;
        while ti < nt
            invariant
                ti <= nt,
                nt == toks@.len(),
                cs@ == text@,
                maxd == self.config.max_distance as nat,
                forall|k: int|
                    0 <= k < toks@.len() ==> is_token(
                        cs@,
                        (#[trigger] toks@[k]).start as int,
                        toks@[k].end as int,
                    ),
                forall|k: int|
                    0 <= k < toks@.len() ==> (#[trigger] toks@[k]).sentence == sentence_index(
                        cs@,
                        toks@[k].start as int,
                    ),
                forall|k: int| 0 <= k < cands@.len() ==> cand_ok(cs@, #[trigger] cands@[k]),
                reps_start@.len() == reps_end@.len(),
                reps_start@.len() == reps_text@.len(),
                reps.len() == reps_start@.len(),
                forall|k: int|
                    0 <= k < reps.len() ==> #[trigger] reps[k] == (
                    reps_start@[k] as int,
                    reps_end@[k] as int,
                    reps_text@[k]@,
                ),
                forall|k: int| 0 <= k < reps.len() ==> rep_valid(text@, maxd, #[trigger] reps[k]),
                forall|m: int|
                    0 <= m < mention_map@.len() ==> pair_resolved(#[trigger] mention_map@[m]),
                !has_pronoun_token(text@) ==> reps.len() == 0 && clusters@.len() == 0
                    && mention_map@.len() == 0,
            decreases nt - ti,
        {
            let tstart = toks[ti].start;
            let tend = toks[ti].end;
            let tsent = toks[ti].sentence;
            let w = sub_chars(&cs, tstart, tend);
            let ws = chars_to_string(&w);
            match classify_pronoun(ws.as_str()) {
                Some(p) => {
                    proof {
                        assert(is_token(text@, tstart as int, tend as int));
                        assert(spec_classify(text@.subrange(tstart as int, tend as int)) is Some);
                        assert(has_pronoun_token(text@));
                        assert(tsent == sentence_index(text@, tstart as int));
                    }
                    // Nearest earlier candidate of a matching class within
                    // the configured sentence distance.
                    let mut chosen: Option<usize> = None;
                    let nc: usize = cands.len();
                    let mut ci: usize = 0;
                    while ci < nc
                        invariant
                            ci <= nc,
                            nc == cands@.len(),
                            cs@ == text@,
                            forall|k: int|
                                0 <= k < cands@.len() ==> cand_ok(cs@, #[trigger] cands@[k]),
                            spec_classify(text@.subrange(tstart as int, tend as int)) == Some(p),
                            tsent == sentence_index(text@, tstart as int),
                            match chosen {
                                Some(c) => {
                                    &&& c < cands@.len()
                                    &&& cands@[c as int].start < tstart
                                    &&& cands@[c as int].sentence <= tsent
                                    &&& tsent - cands@[c as int].sentence
                                        <= self.config.max_distance
                                    &&& spec_matches_pronoun(cands@[c as int].text@, p)
                                },
                                None => true,
                            },
                        decreases nc - ci,
                    {
                        let cand_sent = cands[ci].sentence;
                        let in_range = cands[ci].start < tstart && cand_sent <= tsent && tsent
                            - cand_sent <= self.config.max_distance;
                        if in_range {
                            let ctext = chars_to_string(&cands[ci].text);
                            if matches_pronoun(ctext.as_str(), &p) {
                                chosen = Some(ci);
                            }
                        }
                        ci += 1;
                    }
                    match chosen {
                        Some(c) => {
                            // Record the replacement if it stays in order.
                            let ok_order = if reps_end.len() == 0 {
                                true
                            } else {
                                reps_end[reps_end.len() - 1] <= tstart
                            };
                            if ok_order {
                                proof {
                                    let cc = cands@[c as int];
                                    assert(cand_ok(text@, cc));
                                    let j0 = choose|j: int|
                                        #[trigger] candidate_head_at(text@, cc.start as int, j)
                                            && matches_at(
                                            cc.text@,
                                            text@.subrange(cc.start as int, j),
                                            0,
                                        );
                                    assert(rep_valid(
                                        text@,
                                        maxd,
                                        (tstart as int, tend as int, cc.text@),
                                    ));
                                }
                                let ctext = chars_to_string(&cands[c].text);
                                reps_start.push(tstart);
                                reps_end.push(tend);
                                let mut copy: Vec<char> = Vec::new();
                                let mut m: usize = 0;
                                while m < cands[c].text.len()
                                    invariant
                                        c < cands@.len(),
                                        m <= cands@[c as int].text@.len(),
                                        copy@ == cands@[c as int].text@.take(m as int),
                                    decreases cands@[c as int].text@.len() - m,
                                {
                                    copy.push(cands[c].text[m]);
                                    proof {
                                        assert(copy@ =~= cands@[c as int].text@.take(m + 1));
                                    }
                                    m += 1;
                                }
                                proof {
                                    assert(copy@ =~= cands@[c as int].text@);
                                }
                                reps_text.push(copy);
                                proof {
                                    reps = reps.push(
                                        (tstart as int, tend as int, cands@[c as int].text@),
                                    );
                                    assert(forall|k: int|
                                        0 <= k < reps.len() - 1 ==> #[trigger] reps[k]
                                            == reps.drop_last()[k]);
                                }

                                // Record the pronoun -> antecedent pair.
                                record_pair(&mut mention_map, &w, &cands[c].text);

                                // Extend the cluster of this antecedent, or
                                // open a new one.
                                record_cluster(
                                    &mut clusters,
                                    &w,
                                    &cands[c].text,
                                    tstart,
                                    tend,
                                    tsent,
                                );
                            }
                        },
                        None => {},
                    }
                },
                None => {},
            }
            ti += 1;
        }

        // Apply replacements in reverse text order, so earlier offsets stay
        // valid after each substitution.
        let mut cur = string_to_chars(text);
        let nr: usize = reps_start.len();
        let mut k: usize = nr;
        while k > 0
            invariant
                k <= nr,
                nr == reps_start@.len(),
                nr == reps_end@.len(),
                nr == reps_text@.len(),
                reps.len() == nr,
                forall|q: int|
                    0 <= q < reps.len() ==> #[trigger] reps[q] == (
                    reps_start@[q] as int,
                    reps_end@[q] as int,
                    reps_text@[q]@,
                ),
                cur@ == apply_reps(text@, reps, k as int),
            decreases k,
        {
            k -= 1;
            let a = reps_start[k];
            let b = reps_end[k];
            let ghost before = cur@;
            if a < b && b <= cur.len() {
                let next = splice_chars(&cur, a, b, &reps_text[k]);
                cur = next;
                proof {
                    assert(cur@ =~= splice_model(before, a as int, b as int, reps_text@[k as int]@));
                }
            } else {
                proof {
                    assert(cur@ == splice_model(before, a as int, b as int, reps_text@[k as int]@));
                }
            }
        }

        let resolved = chars_to_string(&cur);
        proof {
            assert(resolved@ == apply_reps(text@, reps, 0));
            assert(resolution_evidence(text@, maxd, resolved@));
            if !has_pronoun_token(text@) {
                assert(resolved@ == text@);
            }
        }
        CorefResult {
            original_text: String::from_str(text),
            resolved_text: resolved,
            clusters,
            mention_map,
        }
    }
}

/// Record a resolved pronoun -> antecedent pair, once per pronoun spelling.
fn record_pair(map: &mut Vec<(String, String)>, word: &Vec<char>, ante: &Vec<char>)
    requires
        spec_classify(word@) is Some,
        spec_matches_pronoun(ante@, spec_classify(word@)->0),
        forall|m: int| 0 <= m < old(map)@.len() ==> pair_resolved(#[trigger] old(map)@[m]),
    ensures
        forall|m: int| 0 <= m < final(map)@.len() ==> pair_resolved(#[trigger] final(map)@[m]),
{
    let ws = chars_to_string(word);
    let mut found_key = false;
    let mut mi: usize = 0;
    while mi < map.len()
        invariant
            mi <= map@.len(),
            forall|m: int| 0 <= m < map@.len() ==> pair_resolved(#[trigger] map@[m]),
        decreases map@.len() - mi,
    {
        if crate::textutil::str_eq(map[mi].0.as_str(), ws.as_str()) {
            found_key = true;
        }
        mi += 1;
    }
    if !found_key {
        let ghost prev = map@;
        let pair = (chars_to_string(word), chars_to_string(ante));
        proof {
            assert(pair_resolved(pair));
        }
        map.push(pair);
        proof {
            assert(forall|m: int| 0 <= m < prev.len() ==> #[trigger] map@[m] == prev[m]);
        }
    }
}

/// Extend the cluster of this antecedent with the pronoun mention, or open a
/// new cluster for it.
fn record_cluster(
    clusters: &mut Vec<CorefCluster>,
    word: &Vec<char>,
    ante: &Vec<char>,
    tstart: usize,
    tend: usize,
    tsent: usize,
)
{
    let ctext = chars_to_string(ante);
    let mut cluster_idx: Option<usize> = None;
    let mut ki: usize = 0;
    while ki < clusters.len()
        invariant
            ki <= clusters@.len(),
            match cluster_idx {
                Some(x) => x < clusters@.len(),
                None => true,
            },
        decreases clusters@.len() - ki,
    {
        if crate::textutil::str_eq(clusters[ki].main_mention.text.as_str(), ctext.as_str()) {
            if cluster_idx.is_none() {
                cluster_idx = Some(ki);
            }
        }
        ki += 1;
    }
    let pron_mention = Mention {
        text: chars_to_string(word),
        start: tstart,
        end: tend,
        is_main: false,
        sentence_idx: tsent,
    };
    match cluster_idx {
        Some(x) => {
            let cl = &mut clusters[x];
            cl.mentions.push(pron_mention);
        },
        None => {
            let id = clusters.len();
            let mut mentions: Vec<Mention> = Vec::new();
            mentions.push(pron_mention);
            clusters.push(
                CorefCluster {
                    id,
                    main_mention: Mention {
                        text: ctext,
                        start: 0,
                        end: 0,
                        is_main: true,
                        sentence_idx: tsent,
                    },
                    mentions,
                },
            );
        },
    }
}

} // verus!
