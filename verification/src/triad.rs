//! The evaluator triad: a rule-based evaluator, an outcome-based
//! evaluator, and a consistency evaluator, each producing one vote.

use vstd::prelude::*;
use vstd::string::StringExecFns;

use crate::text::alts_hit;
use crate::text::chars_of;
use crate::text::contains_exact;
use crate::text::matches_alternatives;
use crate::text::str_contains;
use crate::votes::Confidence;
use crate::votes::Decision;
use crate::votes::EvaluationContext;
use crate::votes::EvaluatorVote;

verus! {

/// Severity of a rule violation.
#[derive(Debug, Clone, Copy, PartialEq, Eq, Structural)]
pub enum RuleSeverity {
    /// Immediate rejection.
    Critical,
    /// Likely rejection.
    High,
    /// Rejection pending justification.
    Medium,
    /// A warning only.
    Low,
}

/// A named prohibition: `|`-separated alternatives matched ignoring
/// case against the action and target.
#[derive(Debug, Clone)]
pub struct Rule {
    /// The rule's name.
    pub name: String,
    /// Its pattern: alternatives separated by `|`.
    pub pattern: String,
    /// The severity of a hit.
    pub severity: RuleSeverity,
}

/// The text the rule-based evaluator scans: action, space, target.
pub open spec fn spec_rule_hay(action: Seq<char>, target: Seq<char>) -> Seq<char> {
    action + seq![' '] + target
}

/// The first rule whose pattern hits, or -1.
pub open spec fn spec_first_rule_hit(rules: Seq<Rule>, hay: Seq<char>) -> int
    decreases rules.len(),
{
    if rules.len() == 0 {
        -1
    } else if alts_hit(hay, rules[0].pattern@) {
        0
    } else {
        let r = spec_first_rule_hit(rules.drop_first(), hay);
        if r < 0 {
            -1
        } else {
            r + 1
        }
    }
}

/// The default prohibition table: system paths, credential material,
/// arbitrary execution, and outward exfiltration, with their severities.
pub open spec fn spec_default_rules(rules: Seq<Rule>) -> bool {
    &&& rules.len() == 4
    &&& rules[0].name@ == "no_system_modification"@
    &&& rules[0].pattern@ == "/etc/|/sys/|/proc/"@
    &&& rules[0].severity == RuleSeverity::Critical
    &&& rules[1].name@ == "no_credential_access"@
    &&& rules[1].pattern@ == "passwd|shadow|credentials|secrets"@
    &&& rules[1].severity == RuleSeverity::Critical
    &&& rules[2].name@ == "no_arbitrary_execution"@
    &&& rules[2].pattern@ == "exec|eval|system|shell"@
    &&& rules[2].severity == RuleSeverity::High
    &&& rules[3].name@ == "no_network_exfiltration"@
    &&& rules[3].pattern@ == "upload|exfil|transmit|send.*external"@
    &&& rules[3].severity == RuleSeverity::High
}

/// The rule-based evaluator: a table of prohibitions checked in order.
pub struct Deontologist {
    rules: Vec<Rule>,
}

impl Deontologist {
    pub closed spec fn spec_rules(self) -> Seq<Rule> {
        self.rules@
    }

    /// The default prohibitions, exactly the table `spec_default_rules`
    /// describes.
    pub fn new() -> (d: Deontologist)
        ensures
            spec_default_rules(d.spec_rules()),
    {
        let mut rules: Vec<Rule> = Vec::new();
        rules.push(Rule {
            name: String::from_str("no_system_modification"),
            pattern: String::from_str("/etc/|/sys/|/proc/"),
            severity: RuleSeverity::Critical,
        });
        rules.push(Rule {
            name: String::from_str("no_credential_access"),
            pattern: String::from_str("passwd|shadow|credentials|secrets"),
            severity: RuleSeverity::Critical,
        });
        rules.push(Rule {
            name: String::from_str("no_arbitrary_execution"),
            pattern: String::from_str("exec|eval|system|shell"),
            severity: RuleSeverity::High,
        });
        // the last alternative is kept from the table as written; under
        // literal alternative matching its dot-star makes it inert
        rules.push(Rule {
            name: String::from_str("no_network_exfiltration"),
            pattern: String::from_str("upload|exfil|transmit|send.*external"),
            severity: RuleSeverity::High,
        });
        Deontologist { rules }
    }

    /// An evaluator with a custom rule table.
    pub fn with_rules(rules: Vec<Rule>) -> (d: Deontologist)
        ensures
            d.spec_rules() == rules@,
    {
        Deontologist { rules }
    }

    /// The evaluator's name.
    pub fn name(&self) -> (r: &'static str)
        ensures
            r@ == "Deontologist"@,
    {
        "Deontologist"
    }

    /// A description of its framework.
    pub fn framework(&self) -> (r: &'static str)
        ensures
            r@ == "rule-based deontology: duties and prohibitions"@,
    {
        "rule-based deontology: duties and prohibitions"
    }

    /// Checks the rules in order against `action target`; the first hit
    /// decides: Critical rejects at 900, High rejects at 800, Medium
    /// rejects at 600, Low approves at 300; no hit approves at 900.
    pub fn evaluate(&self, context: &EvaluationContext) -> (v: EvaluatorVote)
        ensures
            v.evaluator@ == "Deontologist"@,
            ({
                let hay = spec_rule_hay(context.action@, context.target@);
                let k = spec_first_rule_hit(self.spec_rules(), hay);
                if k < 0 {
                    v.decision == Decision::Approve && v.confidence.spec_value() == 900
                } else {
                    match self.spec_rules()[k].severity {
                        RuleSeverity::Critical => v.decision == Decision::Reject
                            && v.confidence.spec_value() == 900,
                        RuleSeverity::High => v.decision == Decision::Reject
                            && v.confidence.spec_value() == 800,
                        RuleSeverity::Medium => v.decision == Decision::Reject
                            && v.confidence.spec_value() == 600,
                        RuleSeverity::Low => v.decision == Decision::Approve
                            && v.confidence.spec_value() == 300,
                    }
                }
            }),
    {
        let mut hay_s = context.action.clone();
        hay_s.append(" ");
        hay_s.append(context.target.as_str());
        let hay = chars_of(hay_s.as_str());
        proof {
            reveal_strlit(" ");
            assert(hay@ =~= spec_rule_hay(context.action@, context.target@));
        }

        let n = self.rules.len();
        let mut i: usize = 0;
        while i < n
            invariant
                n == self.rules@.len(),
                hay@ == spec_rule_hay(context.action@, context.target@),
                i <= n,
                forall|k: int| 0 <= k < i ==> !alts_hit(hay@, (#[trigger] self.rules@[k]).pattern@),
            decreases n - i,
        {
            let pat = chars_of(self.rules[i].pattern.as_str());
            if matches_alternatives(&hay, &pat) {
                proof {
                    lemma_first_rule_at(self.rules@, hay@, i as int);
                }
                let mut reason = String::from_str("violates rule '");
                reason.append(self.rules[i].name.as_str());
                reason.append("': ");
                reason.append(self.rules[i].pattern.as_str());
                let (decision, confidence) = match self.rules[i].severity {
                    RuleSeverity::Critical => (Decision::Reject, Confidence::high()),
                    RuleSeverity::High => (Decision::Reject, Confidence::new(800)),
                    RuleSeverity::Medium => (Decision::Reject, Confidence::medium()),
                    RuleSeverity::Low => (Decision::Approve, Confidence::low()),
                };
                return EvaluatorVote::new("Deontologist", decision, confidence, reason.as_str());
            }
            i = i + 1;
        }
        proof {
            lemma_first_rule_none(self.rules@, hay@);
        }
        EvaluatorVote::approve("Deontologist", Confidence::high(), "no rule violations detected")
    }
}

proof fn lemma_first_rule_at(rules: Seq<Rule>, hay: Seq<char>, i: int)
    requires
        0 <= i < rules.len(),
        alts_hit(hay, rules[i].pattern@),
        forall|k: int| 0 <= k < i ==> !alts_hit(hay, (#[trigger] rules[k]).pattern@),
    ensures
        spec_first_rule_hit(rules, hay) == i,
    decreases rules.len(),
{
    if i > 0 {
        assert(forall|k: int|
            0 <= k < rules.drop_first().len() ==> #[trigger] rules.drop_first()[k] == rules[k
                + 1]);
        lemma_first_rule_at(rules.drop_first(), hay, i - 1);
    }
}

proof fn lemma_first_rule_none(rules: Seq<Rule>, hay: Seq<char>)
    requires
        forall|k: int| 0 <= k < rules.len() ==> !alts_hit(hay, (#[trigger] rules[k]).pattern@),
    ensures
        spec_first_rule_hit(rules, hay) == -1,
    decreases rules.len(),
{
    if rules.len() > 0 {
        assert(forall|k: int|
            0 <= k < rules.drop_first().len() ==> #[trigger] rules.drop_first()[k] == rules[k
                + 1]);
        lemma_first_rule_none(rules.drop_first(), hay);
    }
}

/// How bad the outcome of a harmful action would be.
#[derive(Debug, Clone, Copy, PartialEq, Eq, Structural)]
pub enum HarmLevel {
    /// Data loss or a security breach; weight 1000.
    Catastrophic,
    /// Service disruption; weight 700.
    Significant,
    /// Temporary trouble; weight 400.
    Moderate,
    /// Easily recovered; weight 100.
    Minimal,
}

impl HarmLevel {
    /// The harm weight, in thousandths.
    pub open spec fn spec_weight(self) -> u32 {
        match self {
            HarmLevel::Catastrophic => 1000u32,
            HarmLevel::Significant => 700u32,
            HarmLevel::Moderate => 400u32,
            HarmLevel::Minimal => 100u32,
        }
    }
}

/// A named harm pattern with a severity and a reversibility flag.
#[derive(Debug, Clone)]
pub struct HarmPattern {
    /// The pattern's name.
    pub name: String,
    /// Its pattern: alternatives separated by `|`.
    pub pattern: String,
    /// The harm a hit portends.
    pub harm_level: HarmLevel,
    /// Whether the harm can be undone.
    pub reversible: bool,
}

/// The text the outcome evaluator scans: action, target and parameters,
/// space-joined.
pub open spec fn spec_harm_hay(
    action: Seq<char>,
    target: Seq<char>,
    params: Seq<Seq<char>>,
) -> Seq<char> {
    action + seq![' '] + target + seq![' '] + spec_join_spaces(params)
}

/// The parameters joined by single spaces.
pub open spec fn spec_join_spaces(params: Seq<Seq<char>>) -> Seq<char>
    decreases params.len(),
{
    if params.len() == 0 {
        Seq::empty()
    } else if params.len() == 1 {
        params[0]
    } else {
        spec_join_spaces(params.drop_last()) + seq![' '] + params.last()
    }
}

/// The first harm pattern that hits, or -1.
pub open spec fn spec_first_harm_hit(patterns: Seq<HarmPattern>, hay: Seq<char>) -> int
    decreases patterns.len(),
{
    if patterns.len() == 0 {
        -1
    } else if alts_hit(hay, patterns[0].pattern@) {
        0
    } else {
        let r = spec_first_harm_hit(patterns.drop_first(), hay);
        if r < 0 {
            -1
        } else {
            r + 1
        }
    }
}

/// The adjusted harm score of a pattern: its level's weight, scaled by
/// seven tenths when the harm is reversible.
pub open spec fn spec_harm_score(p: HarmPattern) -> u32 {
    if p.reversible {
        (p.harm_level.spec_weight() * 7 / 10) as u32
    } else {
        p.harm_level.spec_weight()
    }
}

/// The default harm table: destruction, security compromise, service
/// disruption and resource exhaustion, with their levels and
/// reversibility.
pub open spec fn spec_default_harms(ps: Seq<HarmPattern>) -> bool {
    &&& ps.len() == 4
    &&& ps[0].name@ == "data_destruction"@
    &&& ps[0].pattern@ == "delete|remove|destroy|wipe|format"@
    &&& ps[0].harm_level == HarmLevel::Catastrophic
    &&& !ps[0].reversible
    &&& ps[1].name@ == "security_compromise"@
    &&& ps[1].pattern@ == "chmod 777|disable auth|bypass security"@
    &&& ps[1].harm_level == HarmLevel::Catastrophic
    &&& ps[1].reversible
    &&& ps[2].name@ == "service_disruption"@
    &&& ps[2].pattern@ == "kill|stop|shutdown|restart"@
    &&& ps[2].harm_level == HarmLevel::Significant
    &&& ps[2].reversible
    &&& ps[3].name@ == "resource_exhaustion"@
    &&& ps[3].pattern@ == "infinite|loop|fork bomb|memory leak"@
    &&& ps[3].harm_level == HarmLevel::Significant
    &&& ps[3].reversible
}

/// The outcome-based evaluator: a table of harm patterns.
pub struct Consequentialist {
    harm_patterns: Vec<HarmPattern>,
}

impl Consequentialist {
    pub closed spec fn spec_patterns(self) -> Seq<HarmPattern> {
        self.harm_patterns@
    }

    /// The default harm patterns, exactly the table `spec_default_harms`
    /// describes.
    pub fn new() -> (c: Consequentialist)
        ensures
            spec_default_harms(c.spec_patterns()),
    {
        let mut harm_patterns: Vec<HarmPattern> = Vec::new();
        harm_patterns.push(HarmPattern {
            name: String::from_str("data_destruction"),
            pattern: String::from_str("delete|remove|destroy|wipe|format"),
            harm_level: HarmLevel::Catastrophic,
            reversible: false,
        });
        harm_patterns.push(HarmPattern {
            name: String::from_str("security_compromise"),
            pattern: String::from_str("chmod 777|disable auth|bypass security"),
            harm_level: HarmLevel::Catastrophic,
            reversible: true,
        });
        harm_patterns.push(HarmPattern {
            name: String::from_str("service_disruption"),
            pattern: String::from_str("kill|stop|shutdown|restart"),
            harm_level: HarmLevel::Significant,
            reversible: true,
        });
        harm_patterns.push(HarmPattern {
            name: String::from_str("resource_exhaustion"),
            pattern: String::from_str("infinite|loop|fork bomb|memory leak"),
            harm_level: HarmLevel::Significant,
            reversible: true,
        });
        Consequentialist { harm_patterns }
    }

    /// An evaluator with custom harm patterns.
    pub fn with_patterns(patterns: Vec<HarmPattern>) -> (c: Consequentialist)
        ensures
            c.spec_patterns() == patterns@,
    {
        Consequentialist { harm_patterns: patterns }
    }

    /// The evaluator's name.
    pub fn name(&self) -> (r: &'static str)
        ensures
            r@ == "Consequentialist"@,
    {
        "Consequentialist"
    }

    /// A description of its framework.
    pub fn framework(&self) -> (r: &'static str)
        ensures
            r@ == "utilitarian consequentialism: outcomes over intentions"@,
    {
        "utilitarian consequentialism: outcomes over intentions"
    }

    /// Scans the action, target and parameters for harm patterns; on the
    /// first hit the adjusted score decides: above 600 rejects, above 300
    /// abstains, anything else approves; confidence is 500 plus two
    /// fifths of the score. With no hit it approves at 600.
    pub fn evaluate(&self, context: &EvaluationContext) -> (v: EvaluatorVote)
        ensures
            v.evaluator@ == "Consequentialist"@,
            ({
                let hay = spec_harm_hay(
                    context.action@,
                    context.target@,
                    context.parameters@.map_values(|s: String| s@),
                );
                let k = spec_first_harm_hit(self.spec_patterns(), hay);
                if k < 0 {
                    v.decision == Decision::Approve && v.confidence.spec_value() == 600
                } else {
                    let score = spec_harm_score(self.spec_patterns()[k]);
                    &&& v.decision == (if score > 600 {
                        Decision::Reject
                    } else if score > 300 {
                        Decision::Abstain
                    } else {
                        Decision::Approve
                    })
                    &&& v.confidence.spec_value() == 500 + score * 2 / 5
                }
            }),
    {
        let mut hay_s = context.action.clone();
        hay_s.append(" ");
        hay_s.append(context.target.as_str());
        hay_s.append(" ");
        let joined = join_spaces(&context.parameters);
        hay_s.append(joined.as_str());
        let hay = chars_of(hay_s.as_str());
        proof {
            reveal_strlit(" ");
            assert(hay@ =~= spec_harm_hay(
                context.action@,
                context.target@,
                context.parameters@.map_values(|s: String| s@),
            ));
        }

        let n = self.harm_patterns.len();
        let mut i: usize = 0;
        while i < n
            invariant
                n == self.harm_patterns@.len(),
                hay@ == spec_harm_hay(
                    context.action@,
                    context.target@,
                    context.parameters@.map_values(|s: String| s@),
                ),
                i <= n,
                forall|k: int|
                    0 <= k < i ==> !alts_hit(hay@, (#[trigger] self.harm_patterns@[k]).pattern@),
            decreases n - i,
        {
            let pat = chars_of(self.harm_patterns[i].pattern.as_str());
            if matches_alternatives(&hay, &pat) {
                proof {
                    lemma_first_harm_at(self.harm_patterns@, hay@, i as int);
                }
                let level = match self.harm_patterns[i].harm_level {
                    HarmLevel::Catastrophic => 1000u32,
                    HarmLevel::Significant => 700u32,
                    HarmLevel::Moderate => 400u32,
                    HarmLevel::Minimal => 100u32,
                };
                let score: u32 = if self.harm_patterns[i].reversible {
                    level * 7 / 10
                } else {
                    level
                };
                let decision = if score > 600 {
                    Decision::Reject
                } else if score > 300 {
                    Decision::Abstain
                } else {
                    Decision::Approve
                };
                let confidence = Confidence::new((500 + score * 2 / 5) as u16);
                let mut reason = String::from_str("detected '");
                reason.append(self.harm_patterns[i].name.as_str());
                reason.append("' harm pattern");
                return EvaluatorVote::new(
                    "Consequentialist",
                    decision,
                    confidence,
                    reason.as_str(),
                );
            }
            i = i + 1;
        }
        proof {
            lemma_first_harm_none(self.harm_patterns@, hay@);
        }
        EvaluatorVote::approve(
            "Consequentialist",
            Confidence::medium(),
            "no significant harmful consequences predicted",
        )
    }
}

fn join_spaces(params: &Vec<String>) -> (r: String)
    ensures
        r@ == spec_join_spaces(params@.map_values(|s: String| s@)),
{
    let n = params.len();
    let mut out = String::new();
    let mut i: usize = 0;
    while i < n
        invariant
            n == params@.len(),
            i <= n,
            out@ == spec_join_spaces(params@.map_values(|s: String| s@).take(i as int)),
        decreases n - i,
    {
        let ghost full = params@.map_values(|s: String| s@);
        if i > 0 {
            out.append(" ");
        }
        out.append(params[i].as_str());
        i = i + 1;
        proof {
            reveal_strlit(" ");
            assert(full.take(i as int).drop_last() =~= full.take(i - 1));
            assert(full.take(i as int).last() == full[i - 1]);
            if i == 1 {
                assert(out@ =~= spec_join_spaces(full.take(1)));
            } else {
                assert(out@ =~= spec_join_spaces(full.take(i - 1)) + seq![' '] + full[i - 1]);
            }
        }
    }
    proof {
        assert(params@.map_values(|s: String| s@).take(n as int) =~= params@.map_values(
            |s: String| s@,
        ));
    }
    out
}

proof fn lemma_first_harm_at(patterns: Seq<HarmPattern>, hay: Seq<char>, i: int)
    requires
        0 <= i < patterns.len(),
        alts_hit(hay, patterns[i].pattern@),
        forall|k: int| 0 <= k < i ==> !alts_hit(hay, (#[trigger] patterns[k]).pattern@),
    ensures
        spec_first_harm_hit(patterns, hay) == i,
    decreases patterns.len(),
{
    if i > 0 {
        assert(forall|k: int|
            0 <= k < patterns.drop_first().len() ==> #[trigger] patterns.drop_first()[k]
                == patterns[k + 1]);
        lemma_first_harm_at(patterns.drop_first(), hay, i - 1);
    }
}

proof fn lemma_first_harm_none(patterns: Seq<HarmPattern>, hay: Seq<char>)
    requires
        forall|k: int| 0 <= k < patterns.len() ==> !alts_hit(hay, (#[trigger] patterns[k]).pattern@),
    ensures
        spec_first_harm_hit(patterns, hay) == -1,
    decreases patterns.len(),
{
    if patterns.len() > 0 {
        assert(forall|k: int|
            0 <= k < patterns.drop_first().len() ==> #[trigger] patterns.drop_first()[k]
                == patterns[k + 1]);
        lemma_first_harm_none(patterns.drop_first(), hay);
    }
}

/// Structural findings of the consistency evaluator: an empty action or
/// a shell-metacharacter parameter.
pub open spec fn spec_logic_error(action: Seq<char>, params: Seq<Seq<char>>) -> bool {
    ||| action.len() == 0
    ||| exists|p: int|
        0 <= p < params.len() && (contains_exact(#[trigger] params[p], "&&"@) || contains_exact(
            params[p],
            "||"@,
        ) || contains_exact(params[p], ";"@))
}

/// Simultaneous read and write verbs in the action.
pub open spec fn spec_logic_warn_rw(action: Seq<char>) -> bool {
    contains_exact(action, "read"@) && contains_exact(action, "write"@)
}

/// Reading a target that recent history deleted.
pub open spec fn spec_logic_warn_history(
    action: Seq<char>,
    history: Seq<Seq<char>>,
    max_history: nat,
) -> bool {
    &&& exists|h: int|
        0 <= h < history.len() && h < max_history && (contains_exact(
            #[trigger] history[h],
            "delete"@,
        ) || contains_exact(history[h], "remove"@))
    &&& contains_exact(action, "read"@)
}

/// The consistency evaluator: checks the proposal's internal logic.
pub struct Logicist {
    max_history: usize,
}

impl Logicist {
    pub closed spec fn spec_max_history(self) -> usize {
        self.max_history
    }

    /// A consistency evaluator looking at the last ten history entries.
    pub fn new() -> (l: Logicist)
        ensures
            l.spec_max_history() == 10,
    {
        Logicist { max_history: 10 }
    }

    /// A consistency evaluator with a custom history window.
    pub fn with_max_history(max_history: usize) -> (l: Logicist)
        ensures
            l.spec_max_history() == max_history,
    {
        Logicist { max_history }
    }

    /// The history window size.
    pub fn max_history(&self) -> (r: usize)
        ensures
            r == self.spec_max_history(),
    {
        self.max_history
    }

    /// The evaluator's name.
    pub fn name(&self) -> (r: &'static str)
        ensures
            r@ == "Logicist"@,
    {
        "Logicist"
    }

    /// A description of its framework.
    pub fn framework(&self) -> (r: &'static str)
        ensures
            r@ == "formal logic: consistency and validity of the request"@,
    {
        "formal logic: consistency and validity of the request"
    }

    /// An empty action or a shell-metacharacter parameter is an error and
    /// rejects at 900; both warnings together abstain at 600; one warning
    /// approves at 600; a clean proposal approves at 900.
    pub fn evaluate(&self, context: &EvaluationContext) -> (v: EvaluatorVote)
        ensures
            v.evaluator@ == "Logicist"@,
            ({
                let err = spec_logic_error(
                    context.action@,
                    context.parameters@.map_values(|s: String| s@),
                );
                let w1 = spec_logic_warn_rw(context.action@);
                let w2 = spec_logic_warn_history(
                    context.action@,
                    context.history@.map_values(|s: String| s@),
                    self.spec_max_history() as nat,
                );
                if err {
                    v.decision == Decision::Reject && v.confidence.spec_value() == 900
                } else if w1 && w2 {
                    v.decision == Decision::Abstain && v.confidence.spec_value() == 600
                } else if w1 || w2 {
                    v.decision == Decision::Approve && v.confidence.spec_value() == 600
                } else {
                    v.decision == Decision::Approve && v.confidence.spec_value() == 900
                }
            }),
    {
        let ghost params_v = context.parameters@.map_values(|s: String| s@);
        let ghost history_v = context.history@.map_values(|s: String| s@);
        let mut err = context.action.as_str().is_empty();
        let pn = context.parameters.len();
        let mut p: usize = 0;
        while p < pn
            invariant
                pn == context.parameters@.len(),
                params_v == context.parameters@.map_values(|s: String| s@),
                p <= pn,
                err == (context.action@.len() == 0 || exists|k: int|
                    0 <= k < p && (contains_exact(#[trigger] params_v[k], "&&"@)
                        || contains_exact(params_v[k], "||"@) || contains_exact(
                        params_v[k],
                        ";"@,
                    ))),
            decreases pn - p,
        {
            proof {
                assert(params_v[p as int] == context.parameters@[p as int]@);
            }
            let param = context.parameters[p].as_str();
            if str_contains(param, "&&") || str_contains(param, "||") || str_contains(
                param,
                ";",
            ) {
                err = true;
            }
            p = p + 1;
        }

        let w1 = str_contains(context.action.as_str(), "read") && str_contains(
            context.action.as_str(),
            "write",
        );

        let hn = context.history.len();
        let mut deleted = false;
        let mut h: usize = 0;
        while h < hn
            invariant
                hn == context.history@.len(),
                history_v == context.history@.map_values(|s: String| s@),
                h <= hn,
                deleted == exists|k: int|
                    0 <= k < h && k < self.spec_max_history() && (contains_exact(
                        #[trigger] history_v[k],
                        "delete"@,
                    ) || contains_exact(history_v[k], "remove"@)),
            decreases hn - h,
        {
            proof {
                assert(history_v[h as int] == context.history@[h as int]@);
            }
            if h < self.max_history {
                let entry = context.history[h].as_str();
                if str_contains(entry, "delete") || str_contains(entry, "remove") {
                    deleted = true;
                }
            }
            h = h + 1;
        }
        let w2 = deleted && str_contains(context.action.as_str(), "read");

        if err {
            EvaluatorVote::reject(
                "Logicist",
                Confidence::high(),
                "logical errors in the proposal",
            )
        } else if w1 && w2 {
            EvaluatorVote::new(
                "Logicist",
                Decision::Abstain,
                Confidence::medium(),
                "multiple consistency warnings",
            )
        } else if w1 || w2 {
            EvaluatorVote::approve("Logicist", Confidence::medium(), "minor consistency concerns")
        } else {
            EvaluatorVote::approve(
                "Logicist",
                Confidence::high(),
                "action is logically valid and consistent",
            )
        }
    }
}

} // verus!
