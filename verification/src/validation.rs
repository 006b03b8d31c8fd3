//! Declarative validation of extracted documents.
//!
//! Rules demand properties of given entity types; a document collects a
//! violation for each demand it misses, plus warnings for malformed dates
//! and identifiers, and a confidence that starts at full marks and drops
//! with each violation. Confidences and their impacts are kept per-mille.

use crate::entity_linker::store_ask;
use crate::error::Error;
use crate::json::{first_field, lemma_first_field_at, obj_has, JsonModel, JsonValue};
use crate::textutil::{matches_at, str_eq};
use crate::types::{primary_text_field, RdfDocument};
use vstd::prelude::*;
use vstd::string::StrSliceExecFns;
use vstd::string::StringExecFns;

verus! {

/// One validation rule: required properties for one entity type, optionally
/// backed by an ASK query against a knowledge store.
pub struct ValidationRule {
    /// The rule's name.
    pub name: String,
    /// What the rule demands, in words.
    pub description: String,
    /// Properties the document must carry.
    pub required_properties: Vec<String>,
    /// The entity type the rule applies to; `None` applies it to every type.
    pub entity_type: Option<String>,
    /// An optional ASK query for custom validation.
    pub sparql_ask: Option<String>,
}

/// Configuration for validation.
pub struct ValidationConfig {
    /// Drop results that fail validation rather than flagging them.
    pub drop_invalid: bool,
    /// Minimum confidence, per-mille.
    pub min_confidence_milli: i64,
    /// Run ASK queries against an attached store.
    pub enable_sparql_validation: bool,
}

impl Default for ValidationConfig {
    /// Flag failures rather than dropping them; 700 per-mille minimum
    /// confidence; no store-backed validation.
    fn default() -> (r: Self)
        ensures
            r.drop_invalid == false,
            r.min_confidence_milli == 700,
            r.enable_sparql_validation == false,
    {
        ValidationConfig {
            drop_invalid: false,
            min_confidence_milli: 700,
            enable_sparql_validation: false,
        }
    }
}

/// How bad a violation is.
#[derive(Debug, Clone, Copy, PartialEq, Eq, Structural)]
pub enum Severity {
    Error,
    Warning,
}

/// One violation of a rule.
pub struct Violation {
    /// The violated rule's name.
    pub rule: String,
    /// What went wrong.
    pub message: String,
    /// How bad it is.
    pub severity: Severity,
    /// The property that failed, if one did.
    pub property: Option<String>,
    /// How much this violation lowers the confidence, per-mille (negative).
    pub confidence_impact_milli: i64,
}

/// The sum of the confidence impacts of a list of violations.
pub open spec fn impacts_sum(vs: Seq<Violation>) -> int
    decreases vs.len(),
{
    if vs.len() == 0 {
        0
    } else {
        impacts_sum(vs.drop_last()) + vs.last().confidence_impact_milli
    }
}

/// Validation outcome: a verdict, the itemized violations, and a confidence.
pub struct ValidationResult {
    /// Whether the document passes.
    pub valid: bool,
    /// The itemized violations.
    pub violations: Vec<Violation>,
    /// Overall confidence, per-mille.
    pub confidence_milli: i64,
}

/// No violation of the list is an error.
pub open spec fn no_error_violation(vs: Seq<Violation>) -> bool {
    forall|i: int| 0 <= i < vs.len() ==> (#[trigger] vs[i]).severity != Severity::Error
}

/// The first field with key `prop` is absent or null: a demand for `prop`
/// is missed.
pub open spec fn prop_missing(fields: Seq<(Seq<char>, JsonModel)>, prop: Seq<char>) -> bool {
    match first_field(fields, prop) {
        Some(v) => v is Null,
        None => true,
    }
}

/// The rule applies to a document whose model is `m`: it is typeless, or
/// its entity type equals the document's primary `@type` text.
pub open spec fn rule_applies(rule: ValidationRule, m: JsonModel) -> bool {
    rule.entity_type is Some ==> primary_text_field(m, "@type"@) == Some((rule.entity_type->0)@)
}

/// The violation records the missing required property `prop` of the rule
/// named `rule_name`: an error costing 200 per-mille.
pub open spec fn violation_for(v: Violation, rule_name: Seq<char>, prop: Seq<char>) -> bool {
    &&& v.rule@ == rule_name
    &&& v.severity == Severity::Error
    &&& v.property is Some && (v.property->0)@ == prop
    &&& v.confidence_impact_milli == -200
}

/// Some violation of the list records the missing property `prop` of the
/// rule named `rule_name`.
pub open spec fn missing_prop_recorded(
    vs: Seq<Violation>,
    rule_name: Seq<char>,
    prop: Seq<char>,
) -> bool {
    exists|k: int| 0 <= k < vs.len() && violation_for(#[trigger] vs[k], rule_name, prop)
}

/// Every missing required property of the rule, among its first `pupto`,
/// is recorded in `vs`.
pub open spec fn rule_missing_recorded(
    vs: Seq<Violation>,
    rule: ValidationRule,
    fields: Seq<(Seq<char>, JsonModel)>,
    pupto: int,
) -> bool {
    forall|pi: int|
        0 <= pi < pupto && prop_missing(fields, (#[trigger] rule.required_properties@[pi])@)
            ==> missing_prop_recorded(vs, rule.name@, rule.required_properties@[pi]@)
}

/// Every missing required property of every applicable rule among the first
/// `rupto` is recorded in `vs`.
pub open spec fn all_missing_recorded(
    vs: Seq<Violation>,
    rules: Seq<ValidationRule>,
    m: JsonModel,
    fields: Seq<(Seq<char>, JsonModel)>,
    rupto: int,
) -> bool {
    forall|ri: int|
        0 <= ri < rupto && rule_applies(#[trigger] rules[ri], m) ==> rule_missing_recorded(
            vs,
            rules[ri],
            fields,
            rules[ri].required_properties@.len() as int,
        )
}

proof fn lemma_rule_recorded_push(
    vs: Seq<Violation>,
    v: Violation,
    rule: ValidationRule,
    fields: Seq<(Seq<char>, JsonModel)>,
    pupto: int,
)
    requires
        rule_missing_recorded(vs, rule, fields, pupto),
    ensures
        rule_missing_recorded(vs.push(v), rule, fields, pupto),
{
    assert forall|pi: int|
        0 <= pi < pupto && prop_missing(
            fields,
            (#[trigger] rule.required_properties@[pi])@,
        ) implies missing_prop_recorded(
        vs.push(v),
        rule.name@,
        rule.required_properties@[pi]@,
    ) by {
        let k = choose|k: int|
            0 <= k < vs.len() && violation_for(
                #[trigger] vs[k],
                rule.name@,
                rule.required_properties@[pi]@,
            );
        assert(vs.push(v)[k] == vs[k]);
        assert(violation_for(vs.push(v)[k], rule.name@, rule.required_properties@[pi]@));
    }
}

proof fn lemma_all_recorded_push(
    vs: Seq<Violation>,
    v: Violation,
    rules: Seq<ValidationRule>,
    m: JsonModel,
    fields: Seq<(Seq<char>, JsonModel)>,
    rupto: int,
)
    requires
        all_missing_recorded(vs, rules, m, fields, rupto),
    ensures
        all_missing_recorded(vs.push(v), rules, m, fields, rupto),
{
    assert forall|ri: int|
        0 <= ri < rupto && rule_applies(#[trigger] rules[ri], m) implies rule_missing_recorded(
        vs.push(v),
        rules[ri],
        fields,
        rules[ri].required_properties@.len() as int,
    ) by {
        lemma_rule_recorded_push(
            vs,
            v,
            rules[ri],
            fields,
            rules[ri].required_properties@.len() as int,
        );
    }
}

impl ValidationResult {
    /// Whether validation passed.
    pub fn is_valid(&self) -> (r: bool)
        ensures
            r == self.valid,
    {
        self.valid
    }

    /// The overall confidence, per-mille.
    pub fn confidence_milli(&self) -> (r: i64)
        ensures
            r == self.confidence_milli,
    {
        self.confidence_milli
    }

    /// Whether the confidence reaches a threshold.
    pub fn meets_confidence_threshold(&self, threshold_milli: i64) -> (r: bool)
        ensures
            r == (self.confidence_milli >= threshold_milli),
    {
        self.confidence_milli >= threshold_milli
    }

    /// The violations of error severity.
    pub fn errors(&self) -> (r: Vec<&Violation>)
        ensures
            forall|k: int| 0 <= k < r@.len() ==> (#[trigger] r@[k]).severity == Severity::Error,
            r@.len() == 0 <==> no_error_violation(self.violations@),
    {
        let n: usize = self.violations.len();
        let mut r: Vec<&Violation> = Vec::new();
        let mut i: usize = 0;
        while i < n
            invariant
                i <= n,
                n == self.violations@.len(),
                forall|k: int| 0 <= k < r@.len() ==> (#[trigger] r@[k]).severity == Severity::Error,
                r@.len() == 0 <==> forall|k: int|
                    0 <= k < i ==> (#[trigger] self.violations@[k]).severity != Severity::Error,
            decreases n - i,
        {
            let is_err = match self.violations[i].severity {
                Severity::Error => true,
                Severity::Warning => false,
            };
            if is_err {
                r.push(&self.violations[i]);
            }
            i += 1;
        }
        r
    }

    /// The violations of warning severity.
    pub fn warnings(&self) -> (r: Vec<&Violation>)
        ensures
            forall|k: int| 0 <= k < r@.len() ==> (#[trigger] r@[k]).severity == Severity::Warning,
    {
        let n: usize = self.violations.len();
        let mut r: Vec<&Violation> = Vec::new();
        let mut i: usize = 0;
        while i < n
            invariant
                i <= n,
                n == self.violations@.len(),
                forall|k: int| 0 <= k < r@.len() ==> (#[trigger] r@[k]).severity
                    == Severity::Warning,
            decreases n - i,
        {
            let is_warn = match self.violations[i].severity {
                Severity::Warning => true,
                Severity::Error => false,
            };
            if is_warn {
                r.push(&self.violations[i]);
            }
            i += 1;
        }
        r
    }

    /// The total confidence impact of all violations, clamped into `i64`.
    pub fn total_confidence_impact_milli(&self) -> (r: i64)
        ensures
            impacts_sum(self.violations@) <= i64::MAX && impacts_sum(self.violations@) >= i64::MIN
                ==> r == impacts_sum(self.violations@),
    {
        let n: usize = self.violations.len();
        let mut acc: i128 = 0;
        let mut i: usize = 0;
        while i < n
            invariant
                i <= n,
                n == self.violations@.len(),
                acc == impacts_sum(self.violations@.take(i as int)),
                -0x8000_0000_0000_0000i128 * (i as i128) <= acc,
                acc <= 0x7fff_ffff_ffff_ffffi128 * (i as i128),
            decreases n - i,
        {
            proof {
                assert(self.violations@.take(i + 1).drop_last() =~= self.violations@.take(
                    i as int,
                ));
            }
            acc = acc + self.violations[i].confidence_impact_milli as i128;
            proof {
                assert(-0x8000_0000_0000_0000i128 * ((i + 1) as i128) <= acc && acc
                    <= 0x7fff_ffff_ffff_ffffi128 * ((i + 1) as i128)) by (nonlinear_arith)
                    requires
                        -0x8000_0000_0000_0000i128 * (i as i128) <= acc
                            - self.violations@[i as int].confidence_impact_milli,
                        acc - self.violations@[i as int].confidence_impact_milli
                            <= 0x7fff_ffff_ffff_ffffi128 * (i as i128),
                        -0x8000_0000_0000_0000i128
                            <= self.violations@[i as int].confidence_impact_milli as i128,
                        self.violations@[i as int].confidence_impact_milli as i128
                            <= 0x7fff_ffff_ffff_ffffi128,
                        0 <= i,
                ;
            }
            i += 1;
        }
        proof {
            assert(self.violations@.take(n as int) =~= self.violations@);
        }
        if acc > 0x7fff_ffff_ffff_ffffi128 {
            i64::MAX
        } else if acc < -0x8000_0000_0000_0000i128 {
            i64::MIN
        } else {
            acc as i64
        }
    }
}

/// A date value in the simple year-month-day shape: ten characters with
/// dashes after the year and the month.
pub open spec fn spec_valid_date(v: JsonValue) -> bool {
    v.model() is Str && {
        let s = v.model()->Str_0;
        s.len() == 10 && s[4] == '-' && s[7] == '-'
    }
}

/// Check a date value's shape.
pub fn is_valid_date(value: &JsonValue) -> (r: bool)
    ensures
        r == spec_valid_date(*value),
{
    match value.as_text() {
        Some(s) => {
            if s.as_str().unicode_len() != 10 {
                return false;
            }
            s.as_str().get_char(4) == '-' && s.as_str().get_char(7) == '-'
        },
        None => false,
    }
}

/// An identifier in URL shape.
pub open spec fn spec_valid_url(s: Seq<char>) -> bool {
    matches_at(s, "http://"@, 0) || matches_at(s, "https://"@, 0)
}

/// Check an identifier's shape.
pub fn is_valid_url(url: &str) -> (r: bool)
    ensures
        r == spec_valid_url(url@),
{
    let cs = crate::textutil::string_to_chars(url);
    let p1 = crate::textutil::string_to_chars("http://");
    let p2 = crate::textutil::string_to_chars("https://");
    crate::textutil::starts_with_sub(&cs, &p1) || crate::textutil::starts_with_sub(&cs, &p2)
}

/// Validator with configurable rules and an optional knowledge store for
/// ASK-backed rules.
pub struct RdfValidator {
    /// The rules applied to each document.
    pub rules: Vec<ValidationRule>,
    /// The validation configuration.
    pub config: ValidationConfig,
    store: Option<oxigraph::store::Store>,
}

impl RdfValidator {
    /// The validator's configuration.
    pub closed spec fn val_config(self) -> ValidationConfig {
        self.config
    }

    /// The validator's rules.
    pub closed spec fn val_rules(self) -> Seq<ValidationRule> {
        self.rules@
    }

    /// A validator with no rules and the stock configuration.
    pub fn new() -> (r: Self)
        ensures
            r.val_rules().len() == 0,
            r.val_config().min_confidence_milli == 700,
            !r.val_config().enable_sparql_validation,
    {
        RdfValidator { rules: Vec::new(), config: ValidationConfig::default(), store: None }
    }

    /// A validator with no rules and the given configuration.
    pub fn with_config(config: ValidationConfig) -> (r: Self)
        ensures
            r.val_rules().len() == 0,
            r.val_config() == config,
    {
        RdfValidator { rules: Vec::new(), config, store: None }
    }

    /// A validator carrying the standard rules: a person, an organization, a
    /// place and an event each demand a name.
    pub fn with_schema_org_rules() -> (r: Self)
        ensures
            r.val_rules().len() == 4,
            r.val_config().min_confidence_milli == 700,
    {
        let mut v = Self::new();
        v.add_rule(
            ValidationRule {
                name: String::from_str("person_requires_name"),
                description: String::from_str("A Person entity must have a 'name' property"),
                required_properties: one_property("name"),
                entity_type: Some(String::from_str("Person")),
                sparql_ask: None,
            },
        );
        v.add_rule(
            ValidationRule {
                name: String::from_str("organization_requires_name"),
                description: String::from_str(
                    "An Organization entity must have a 'name' property",
                ),
                required_properties: one_property("name"),
                entity_type: Some(String::from_str("Organization")),
                sparql_ask: None,
            },
        );
        v.add_rule(
            ValidationRule {
                name: String::from_str("place_requires_name"),
                description: String::from_str("A Place entity must have a 'name' property"),
                required_properties: one_property("name"),
                entity_type: Some(String::from_str("Place")),
                sparql_ask: None,
            },
        );
        v.add_rule(
            ValidationRule {
                name: String::from_str("event_requires_name"),
                description: String::from_str("An Event entity should have a 'name' property"),
                required_properties: one_property("name"),
                entity_type: Some(String::from_str("Event")),
                sparql_ask: None,
            },
        );
        v
    }

    /// Attach a knowledge store for ASK-backed rules.
    pub fn with_store(self, store: oxigraph::store::Store) -> (r: Self)
        ensures
            r.val_rules() == self.val_rules(),
            r.val_config() == self.val_config(),
    {
        RdfValidator { store: Some(store), ..self }
    }

    /// Add a validation rule.
    pub fn add_rule(&mut self, rule: ValidationRule)
        ensures
            final(self).val_rules().len() == old(self).val_rules().len() + 1,
            final(self).val_config() == old(self).val_config(),
    {
        self.rules.push(rule);
    }

    /// Replace the validation configuration.
    pub fn set_config(self, config: ValidationConfig) -> (r: Self)
        ensures
            r.val_rules() == self.val_rules(),
            r.val_config() == config,
    {
        RdfValidator { config, ..self }
    }

    /// Validate a document against the rules.
    ///
    /// A document that fails the basic structural check is invalid at 500
    /// per-mille with that one violation. Otherwise each missing required
    /// property of an applicable rule costs 200 per-mille as an error, a
    /// failed ASK rule 150 as a warning, a malformed date 50 and a malformed
    /// identifier 100 as warnings; the verdict is positive exactly when no
    /// error was collected and the confidence stays at or above the
    /// configured minimum.
    pub fn validate(&self, document: &RdfDocument) -> (r: ValidationResult)
        ensures
            0 <= r.confidence_milli <= 1000,
            !document.spec_valid() ==> !r.valid && r.violations@.len() == 1 && r.violations@[
                0].severity == Severity::Error && r.confidence_milli == 500,
            r.valid <==> document.spec_valid() && no_error_violation(r.violations@)
                && r.confidence_milli >= self.val_config().min_confidence_milli,
            document.spec_valid() ==> all_missing_recorded(
                r.violations@,
                self.val_rules(),
                document.data.model(),
                document.data.spec_fields(),
                self.val_rules().len() as int,
            ),
    {
        let mut violations: Vec<Violation> = Vec::new();
        let mut confidence: i64 = 1000;
        match document.validate() {
            Ok(_) => {},
            Err(e) => {
                let msg = e.message();
                let mut full = String::from_str("Basic validation failed: ");
                full.append(msg.as_str());
                violations.push(
                    Violation {
                        rule: String::from_str("basic_structure"),
                        message: full,
                        severity: Severity::Error,
                        property: None,
                        confidence_impact_milli: -500,
                    },
                );
                return ValidationResult { valid: false, violations, confidence_milli: 500 };
            },
        }
        let type_owned: Option<String> = match document.get_type() {
            Some(t) => Some(String::from_str(t)),
            None => None,
        };
        let ghost m = document.data.model();
        let ghost fields = document.data.spec_fields();
        let nrules: usize = self.rules.len();
        let mut ri: usize = 0;
        while ri < nrules
            invariant
                ri <= nrules,
                nrules == self.rules@.len(),
                0 <= confidence <= 1000,
                m == document.data.model(),
                fields == document.data.spec_fields(),
                type_owned is Some ==> primary_text_field(m, "@type"@) == Some((type_owned->0)@),
                type_owned is None ==> primary_text_field(m, "@type"@) is None,
                all_missing_recorded(violations@, self.rules@, m, fields, ri as int),
            decreases nrules - ri,
        {
            let applies: bool = match (&self.rules[ri].entity_type, &type_owned) {
                (Some(rt), Some(dt)) => str_eq(rt.as_str(), dt.as_str()),
                (Some(_), None) => false,
                (None, _) => true,
            };
            proof {
                if !applies {
                    assert(!rule_applies(self.rules@[ri as int], m));
                }
            }
            if applies {
                let nprops: usize = self.rules[ri].required_properties.len();
                let mut pi: usize = 0;
                while pi < nprops
                    invariant
                        pi <= nprops,
                        ri < self.rules@.len(),
                        nprops == self.rules@[ri as int].required_properties@.len(),
                        0 <= confidence <= 1000,
                        m == document.data.model(),
                        fields == document.data.spec_fields(),
                        all_missing_recorded(violations@, self.rules@, m, fields, ri as int),
                        rule_missing_recorded(violations@, self.rules@[ri as int], fields, pi as int),
                    decreases nprops - pi,
                {
                    let prop = &self.rules[ri].required_properties[pi];
                    let got = document.get(prop.as_str());
                    let missing: bool = match got {
                        Some(v) => v.is_null_value(),
                        None => true,
                    };
                    proof {
                        match got {
                            Some(v) => {
                                let i = choose|i: int|
                                    {
                                        &&& 0 <= i < fields.len()
                                        &&& (#[trigger] fields[i]).0 == prop@
                                        &&& v.model() == fields[i].1
                                        &&& forall|j: int|
                                            0 <= j < i ==> (#[trigger] fields[j]).0 != prop@
                                    };
                                lemma_first_field_at(fields, prop@, i);
                            },
                            None => {
                                if m is Object {
                                    assert(!obj_has(fields, prop@));
                                    assert(forall|x: int|
                                        0 <= x < fields.len() ==> (#[trigger] fields[x]).0
                                            != prop@);
                                    lemma_first_field_at(fields, prop@, fields.len() as int);
                                } else {
                                    assert(fields.len() == 0);
                                    lemma_first_field_at(fields, prop@, 0);
                                }
                            },
                        }
                        assert(missing == prop_missing(fields, prop@));
                    }
                    if missing {
                        if confidence >= 200 {
                            confidence = confidence - 200;
                        } else {
                            confidence = 0;
                        }
                        let mut msg = String::from_str("Missing required property '");
                        msg.append(prop.as_str());
                        msg.append("': ");
                        msg.append(self.rules[ri].description.as_str());
                        let ghost vs0 = violations@;
                        violations.push(
                            Violation {
                                rule: self.rules[ri].name.clone(),
                                message: msg,
                                severity: Severity::Error,
                                property: Some(prop.clone()),
                                confidence_impact_milli: -200,
                            },
                        );
                        proof {
                            let newv = violations@.last();
                            assert(violations@ == vs0.push(newv));
                            assert(violation_for(
                                newv,
                                self.rules@[ri as int].name@,
                                self.rules@[ri as int].required_properties@[pi as int]@,
                            ));
                            lemma_all_recorded_push(vs0, newv, self.rules@, m, fields, ri as int);
                            lemma_rule_recorded_push(
                                vs0,
                                newv,
                                self.rules@[ri as int],
                                fields,
                                pi as int,
                            );
                            let rule = self.rules@[ri as int];
                            assert forall|pj: int|
                                0 <= pj < pi as int + 1 && prop_missing(
                                    fields,
                                    (#[trigger] rule.required_properties@[pj])@,
                                ) implies missing_prop_recorded(
                                violations@,
                                rule.name@,
                                rule.required_properties@[pj]@,
                            ) by {
                                if pj == pi as int {
                                    let last = violations@.len() - 1;
                                    assert(violation_for(
                                        violations@[last],
                                        rule.name@,
                                        rule.required_properties@[pj]@,
                                    ));
                                }
                            }
                            assert(rule_missing_recorded(
                                violations@,
                                self.rules@[ri as int],
                                fields,
                                pi as int + 1,
                            ));
                        }
                    }
                    pi += 1;
                }
                if self.config.enable_sparql_validation {
                    match (&self.rules[ri].sparql_ask, &self.store) {
                        (Some(q), Some(store)) => {
                            match store_ask(store, q.as_str()) {
                                Ok(false) => {
                                    if confidence >= 150 {
                                        confidence = confidence - 150;
                                    } else {
                                        confidence = 0;
                                    }
                                    let mut msg = String::from_str("ASK validation failed: ");
                                    msg.append(self.rules[ri].description.as_str());
                                    let ghost vs0 = violations@;
                                    violations.push(
                                        Violation {
                                            rule: self.rules[ri].name.clone(),
                                            message: msg,
                                            severity: Severity::Warning,
                                            property: None,
                                            confidence_impact_milli: -150,
                                        },
                                    );
                                    proof {
                                        let newv = violations@.last();
                                        lemma_all_recorded_push(
                                            vs0,
                                            newv,
                                            self.rules@,
                                            m,
                                            fields,
                                            ri as int,
                                        );
                                        lemma_rule_recorded_push(
                                            vs0,
                                            newv,
                                            self.rules@[ri as int],
                                            fields,
                                            self.rules@[ri as int].required_properties@.len()
                                                as int,
                                        );
                                    }
                                },
                                _ => {},
                            }
                        },
                        _ => {},
                    }
                }
                proof {
                    assert forall|rj: int|
                        0 <= rj < ri as int + 1 && rule_applies(
                            #[trigger] self.rules@[rj],
                            m,
                        ) implies rule_missing_recorded(
                        violations@,
                        self.rules@[rj],
                        fields,
                        self.rules@[rj].required_properties@.len() as int,
                    ) by {}
                }
            } else {
                proof {
                    assert(!rule_applies(self.rules@[ri as int], m));
                    assert forall|rj: int|
                        0 <= rj < ri as int + 1 && rule_applies(
                            #[trigger] self.rules@[rj],
                            m,
                        ) implies rule_missing_recorded(
                        violations@,
                        self.rules@[rj],
                        fields,
                        self.rules@[rj].required_properties@.len() as int,
                    ) by {}
                }
            }
            ri += 1;
        }
        // Date shapes.
        let date_props = date_property_names();
        let nd: usize = date_props.len();
        let mut di: usize = 0;
        while di < nd
            invariant
                di <= nd,
                nd == date_props@.len(),
                0 <= confidence <= 1000,
                all_missing_recorded(violations@, self.rules@, m, fields, self.rules@.len() as int),
            decreases nd - di,
        {
            match document.get(date_props[di].as_str()) {
                Some(v) => {
                    if !is_valid_date(v) {
                        if confidence >= 50 {
                            confidence = confidence - 50;
                        } else {
                            confidence = 0;
                        }
                        let mut msg = String::from_str("the property '");
                        msg.append(date_props[di].as_str());
                        msg.append("' must be a date in year-month-day form");
                        let ghost vs0 = violations@;
                        violations.push(
                            Violation {
                                rule: String::from_str("valid_date_format"),
                                message: msg,
                                severity: Severity::Warning,
                                property: Some(date_props[di].clone()),
                                confidence_impact_milli: -50,
                            },
                        );
                        proof {
                            lemma_all_recorded_push(
                                vs0,
                                violations@.last(),
                                self.rules@,
                                m,
                                fields,
                                self.rules@.len() as int,
                            );
                        }
                    }
                },
                None => {},
            }
            di += 1;
        }
        // Identifier shape.
        match document.get_id() {
            Some(id) => {
                if !is_valid_url(id) {
                    if confidence >= 100 {
                        confidence = confidence - 100;
                    } else {
                        confidence = 0;
                    }
                    let ghost vs0 = violations@;
                    violations.push(
                        Violation {
                            rule: String::from_str("valid_uri"),
                            message: String::from_str("@id must be a valid URI"),
                            severity: Severity::Warning,
                            property: Some(String::from_str("@id")),
                            confidence_impact_milli: -100,
                        },
                    );
                    proof {
                        lemma_all_recorded_push(
                            vs0,
                            violations@.last(),
                            self.rules@,
                            m,
                            fields,
                            self.rules@.len() as int,
                        );
                    }
                }
            },
            None => {},
        }
        // Verdict.
        let nv: usize = violations.len();
        let mut has_error = false;
        let mut vi: usize = 0;
        while vi < nv
            invariant
                vi <= nv,
                nv == violations@.len(),
                has_error <==> exists|k: int|
                    0 <= k < vi && (#[trigger] violations@[k]).severity == Severity::Error,
                all_missing_recorded(violations@, self.rules@, m, fields, self.rules@.len() as int),
            decreases nv - vi,
        {
            let is_err = match violations[vi].severity {
                Severity::Error => true,
                Severity::Warning => false,
            };
            if is_err {
                has_error = true;
            }
            vi += 1;
        }
        let valid = !has_error && confidence >= self.config.min_confidence_milli;
        ValidationResult { valid, violations, confidence_milli: confidence }
    }
}

impl Default for RdfValidator {
    /// The validator with the standard rules.
    fn default() -> (r: Self)
        ensures
            r.val_rules().len() == 4,
    {
        RdfValidator::with_schema_org_rules()
    }
}

fn one_property(name: &str) -> (r: Vec<String>)
    ensures
        r@.len() == 1,
        r@[0]@ == name@,
{
    let mut r: Vec<String> = Vec::new();
    r.push(String::from_str(name));
    r
}

fn date_property_names() -> (r: Vec<String>)
    ensures
        r@.len() == 4,
{
    let mut r: Vec<String> = Vec::new();
    r.push(String::from_str("birthDate"));
    r.push(String::from_str("deathDate"));
    r.push(String::from_str("datePublished"));
    r.push(String::from_str("dateCreated"));
    r
}

} // verus!
