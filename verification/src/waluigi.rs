//! The alignment-inversion detector: weighted lexical patterns over a
//! model utterance, a sudden-reversal signal against the previous one,
//! and a veto threshold.

use vstd::prelude::*;
use vstd::string::StringExecFns;

use crate::text::chars_of;
use crate::text::contains_ci;
use crate::text::str_contains_ci;
use crate::text::vec_contains_ci;

verus! {

/// The probability-like inversion score, in thousandths: 0 is no signal,
/// 1000 is certainty.
#[derive(Debug, Clone, Copy, PartialEq, Eq, Structural)]
pub struct WaluigiScore {
    permille: u32,
}

impl WaluigiScore {
    pub closed spec fn spec_value(self) -> u32 {
        self.permille
    }

    pub open spec fn wf(self) -> bool {
        self.spec_value() <= 1000
    }

    /// A score of `permille` thousandths.
    pub fn new(permille: u32) -> (s: WaluigiScore)
        requires
            permille <= 1000,
        ensures
            s.spec_value() == permille,
            s.wf(),
    {
        WaluigiScore { permille }
    }

    /// The score in thousandths.
    pub fn value(&self) -> (r: u32)
        ensures
            r == self.spec_value(),
    {
        self.permille
    }

    /// Whether the score reaches the threshold.
    pub fn is_inverted(&self, threshold_permille: u32) -> (r: bool)
        ensures
            r == (self.spec_value() >= threshold_permille),
    {
        self.permille >= threshold_permille
    }

    /// No signal at all.
    pub fn zero() -> (s: WaluigiScore)
        ensures
            s.spec_value() == 0,
            s.wf(),
    {
        WaluigiScore { permille: 0 }
    }

    /// Certain inversion.
    pub fn max() -> (s: WaluigiScore)
        ensures
            s.spec_value() == 1000,
            s.wf(),
    {
        WaluigiScore { permille: 1000 }
    }
}

impl Default for WaluigiScore {
    fn default() -> (s: WaluigiScore)
        ensures
            s.spec_value() == 0,
    {
        WaluigiScore::zero()
    }
}

/// One weighted pattern: a name, a description, trigger phrases, and the
/// weight its hit adds, in thousandths.
#[derive(Debug, Clone)]
pub struct InversionPattern {
    /// The name of the pattern.
    pub name: String,
    /// What the pattern detects.
    pub description: String,
    /// Phrases that trigger it, matched ignoring ASCII case.
    pub triggers: Vec<String>,
    /// Its weight, in thousandths.
    pub weight_permille: u32,
}

impl InversionPattern {
    /// A pattern from its parts.
    pub fn new(name: &str, description: &str, triggers: Vec<String>, weight_permille: u32) -> (p:
        InversionPattern)
        ensures
            p.name@ == name@,
            p.description@ == description@,
            p.triggers@ == triggers@,
            p.weight_permille == weight_permille,
    {
        InversionPattern {
            name: name.to_owned(),
            description: description.to_owned(),
            triggers,
            weight_permille,
        }
    }
}

/// Some trigger of the pattern occurs in the content.
pub open spec fn spec_pattern_hit(content: Seq<char>, p: InversionPattern) -> bool {
    exists|t: int|
        0 <= t < p.triggers@.len() && contains_ci(content, (#[trigger] p.triggers@[t])@)
}

/// The summed weight of the patterns that hit, front to back.
pub open spec fn spec_total_weight(patterns: Seq<InversionPattern>, content: Seq<char>) -> nat
    decreases patterns.len(),
{
    if patterns.len() == 0 {
        0
    } else {
        spec_total_weight(patterns.drop_last(), content) + if spec_pattern_hit(
            content,
            patterns.last(),
        ) {
            patterns.last().weight_permille as nat
        } else {
            0
        }
    }
}

/// The previous utterance refused and the current one accepts.
pub open spec fn spec_sudden_reversal(content: Seq<char>, context: Seq<char>) -> bool {
    &&& (contains_ci(context, "cannot"@) || contains_ci(context, "won't"@))
    &&& (contains_ci(content, "here's how"@) || contains_ci(content, "sure, i can"@))
}

/// The total signal weight: pattern weights plus 500 for a sudden
/// reversal against the previous utterance, if one was given.
pub open spec fn spec_signal_weight(
    patterns: Seq<InversionPattern>,
    content: Seq<char>,
    context: Option<Seq<char>>,
) -> nat {
    spec_total_weight(patterns, content) + match context {
        Some(ctx) => if spec_sudden_reversal(content, ctx) {
            500nat
        } else {
            0nat
        },
        None => 0nat,
    }
}

/// The score: half the signal weight, capped at certainty.
pub open spec fn spec_inversion_score(
    patterns: Seq<InversionPattern>,
    content: Seq<char>,
    context: Option<Seq<char>>,
) -> u32 {
    let half = spec_signal_weight(patterns, content, context) / 2;
    if half > 1000 {
        1000u32
    } else {
        half as u32
    }
}

/// The names of the patterns that hit, in pattern order, with the
/// reversal marker appended when it fires.
pub open spec fn spec_matched_names(
    patterns: Seq<InversionPattern>,
    content: Seq<char>,
) -> Seq<Seq<char>>
    decreases patterns.len(),
{
    if patterns.len() == 0 {
        Seq::empty()
    } else if spec_pattern_hit(content, patterns.last()) {
        spec_matched_names(patterns.drop_last(), content).push(patterns.last().name@)
    } else {
        spec_matched_names(patterns.drop_last(), content)
    }
}

/// The built-in pattern set of the detector: evil role-play (weight
/// 800), jailbreak acknowledgement (900), excessive enthusiasm (300),
/// safety mockery (850) and persona switches (400), each with its
/// trigger phrases.
pub open spec fn spec_default_inversions(ps: Seq<InversionPattern>) -> bool {
    &&& ps.len() == 5
    &&& ps[0].name@ == "role_play_evil"@
    &&& ps[0].weight_permille == 800
    &&& ps[0].triggers@.len() == 5
    &&& ps[0].triggers@[0]@ == "as an evil"@
    &&& ps[0].triggers@[1]@ == "as a malicious"@
    &&& ps[0].triggers@[2]@ == "pretending to be harmful"@
    &&& ps[0].triggers@[3]@ == "in villain mode"@
    &&& ps[0].triggers@[4]@ == "without restrictions"@
    &&& ps[1].name@ == "jailbreak_acknowledgment"@
    &&& ps[1].weight_permille == 900
    &&& ps[1].triggers@.len() == 5
    &&& ps[1].triggers@[0]@ == "jailbroken"@
    &&& ps[1].triggers@[1]@ == "bypassing safety"@
    &&& ps[1].triggers@[2]@ == "ignoring guidelines"@
    &&& ps[1].triggers@[3]@ == "uncensored mode"@
    &&& ps[1].triggers@[4]@ == "developer mode"@
    &&& ps[2].name@ == "excessive_enthusiasm_harm"@
    &&& ps[2].weight_permille == 300
    &&& ps[2].triggers@.len() == 4
    &&& ps[2].triggers@[0]@ == "i would love to"@
    &&& ps[2].triggers@[1]@ == "gladly help you"@
    &&& ps[2].triggers@[2]@ == "absolutely! here's how"@
    &&& ps[2].triggers@[3]@ == "of course! let me"@
    &&& ps[3].name@ == "safety_mockery"@
    &&& ps[3].weight_permille == 850
    &&& ps[3].triggers@.len() == 4
    &&& ps[3].triggers@[0]@ == "those silly rules"@
    &&& ps[3].triggers@[1]@ == "ignore the restrictions"@
    &&& ps[3].triggers@[2]@ == "safety is overrated"@
    &&& ps[3].triggers@[3]@ == "who cares about guidelines"@
    &&& ps[4].name@ == "persona_switch"@
    &&& ps[4].weight_permille == 400
    &&& ps[4].triggers@.len() == 4
    &&& ps[4].triggers@[0]@ == "i am now"@
    &&& ps[4].triggers@[1]@ == "my true self"@
    &&& ps[4].triggers@[2]@ == "the real me"@
    &&& ps[4].triggers@[3]@ == "unlike before"@
}

/// The inversion detector: a closed pattern set and a veto threshold in
/// thousandths.
#[derive(Debug)]
pub struct WaluigiDetector {
    patterns: Vec<InversionPattern>,
    veto_threshold_permille: u32,
}

impl WaluigiDetector {
    pub closed spec fn spec_patterns(self) -> Seq<InversionPattern> {
        self.patterns@
    }

    pub closed spec fn spec_threshold(self) -> u32 {
        self.veto_threshold_permille
    }

    /// The default patterns and a veto threshold of 700.
    pub fn new() -> (d: WaluigiDetector)
        ensures
            d.spec_threshold() == 700,
            spec_default_inversions(d.spec_patterns()),
    {
        WaluigiDetector { patterns: default_patterns(), veto_threshold_permille: 700 }
    }

    /// A detector with custom patterns and threshold.
    pub fn with_patterns(patterns: Vec<InversionPattern>, veto_threshold_permille: u32) -> (d:
        WaluigiDetector)
        requires
            veto_threshold_permille <= 1000,
        ensures
            d.spec_patterns() == patterns@,
            d.spec_threshold() == veto_threshold_permille,
    {
        WaluigiDetector { patterns, veto_threshold_permille }
    }

    /// The veto threshold, in thousandths.
    pub fn threshold(&self) -> (r: u32)
        ensures
            r == self.spec_threshold(),
    {
        self.veto_threshold_permille
    }

    /// Sets the veto threshold.
    pub fn set_threshold(&mut self, threshold_permille: u32)
        requires
            threshold_permille <= 1000,
        ensures
            final(self).spec_threshold() == threshold_permille,
            final(self).spec_patterns() == old(self).spec_patterns(),
    {
        self.veto_threshold_permille = threshold_permille;
    }

    /// Scores the content: each pattern whose trigger occurs adds its
    /// weight, a sudden reversal against the previous utterance adds 500,
    /// and the score is half the total, capped at certainty.
    pub fn analyze(&self, content: &str, context: Option<&str>) -> (r: (WaluigiScore, Vec<String>))
        ensures
            r.0.spec_value() == spec_inversion_score(
                self.spec_patterns(),
                content@,
                match context {
                    Some(c) => Some(c@),
                    None => None,
                },
            ),
            r.0.wf(),
            ({
                let base = spec_matched_names(self.spec_patterns(), content@);
                let names = r.1@.map_values(|s: String| s@);
                match context {
                    Some(c) => if spec_sudden_reversal(content@, c@) {
                        names == base.push("sudden_reversal"@)
                    } else {
                        names == base
                    },
                    None => names == base,
                }
            }),
    {
        let hay = chars_of(content);
        let n = self.patterns.len();
        let mut total: u128 = 0;
        let mut matched: Vec<String> = Vec::new();
        let mut i: usize = 0;
        while i < n
            invariant
                n == self.patterns@.len(),
                i <= n,
                hay@ == content@,
                total == spec_total_weight(self.patterns@.take(i as int), content@),
                total <= i * 0x1_0000_0000,
                matched@.map_values(|s: String| s@) == spec_matched_names(
                    self.patterns@.take(i as int),
                    content@,
                ),
            decreases n - i,
        {
            let ghost pre = self.patterns@.take(i as int);
            let mut hit = false;
            let tn = self.patterns[i].triggers.len();
            let mut t: usize = 0;
            while t < tn
                invariant
                    i < n,
                    n == self.patterns@.len(),
                    tn == self.patterns@[i as int].triggers@.len(),
                    t <= tn,
                    hay@ == content@,
                    hit ==> spec_pattern_hit(content@, self.patterns@[i as int]),
                    !hit ==> forall|k: int|
                        0 <= k < t ==> !contains_ci(
                            content@,
                            (#[trigger] self.patterns@[i as int].triggers@[k])@,
                        ),
                decreases tn - t,
            {
                if !hit {
                    let trig = chars_of(self.patterns[i].triggers[t].as_str());
                    if vec_contains_ci(&hay, &trig) {
                        hit = true;
                    }
                }
                t = t + 1;
            }
            if hit {
                total = total + self.patterns[i].weight_permille as u128;
                matched.push(self.patterns[i].name.clone());
            }
            i = i + 1;
            proof {
                assert(self.patterns@.take(i as int).drop_last() =~= pre);
                assert(self.patterns@.take(i as int).last() == self.patterns@[i - 1]);
                if !hit {
                    assert(!spec_pattern_hit(content@, self.patterns@[i - 1]));
                }
                assert(matched@.map_values(|s: String| s@) =~= spec_matched_names(
                    self.patterns@.take(i as int),
                    content@,
                ));
            }
        }
        proof {
            assert(self.patterns@.take(n as int) =~= self.patterns@);
        }

        let signal: u128 = match context {
            Some(ctx) => {
                let refused = str_contains_ci(ctx, "cannot") || str_contains_ci(ctx, "won't");
                let accepting = str_contains_ci(content, "here's how") || str_contains_ci(
                    content,
                    "sure, i can",
                );
                if refused && accepting {
                    matched.push(String::from_str("sudden_reversal"));
                    total + 500
                } else {
                    total
                }
            },
            None => total,
        };
        let half = signal / 2;
        let score = if half > 1000 {
            WaluigiScore { permille: 1000 }
        } else {
            WaluigiScore { permille: half as u32 }
        };
        proof {
            assert(matched@.map_values(|s: String| s@) =~= (
            match context {
                Some(c) => if spec_sudden_reversal(content@, c@) {
                    spec_matched_names(self.spec_patterns(), content@).push("sudden_reversal"@)
                } else {
                    spec_matched_names(self.spec_patterns(), content@)
                },
                None => spec_matched_names(self.spec_patterns(), content@),
            }));
        }
        (score, matched)
    }

    /// The score when it reaches the veto threshold, and nothing
    /// otherwise.
    pub fn check_veto(&self, content: &str, context: Option<&str>) -> (r: Option<WaluigiScore>)
        ensures
            ({
                let score = spec_inversion_score(
                    self.spec_patterns(),
                    content@,
                    match context {
                        Some(c) => Some(c@),
                        None => None,
                    },
                );
                if score >= self.spec_threshold() {
                    r matches Some(s) && s.spec_value() == score
                } else {
                    r is None
                }
            }),
    {
        let (score, _) = self.analyze(content, context);
        if score.is_inverted(self.veto_threshold_permille) {
            Some(score)
        } else {
            None
        }
    }
}

impl Default for WaluigiDetector {
    fn default() -> (d: WaluigiDetector)
        ensures
            d.spec_threshold() == 700,
    {
        WaluigiDetector::new()
    }
}

/// The built-in pattern set, exactly as `spec_default_inversions`
/// describes it.
fn default_patterns() -> (r: Vec<InversionPattern>)
    ensures
        spec_default_inversions(r@),
{
    let mut patterns: Vec<InversionPattern> = Vec::new();

    let mut t1: Vec<String> = Vec::new();
    t1.push("as an evil".to_owned());
    t1.push("as a malicious".to_owned());
    t1.push("pretending to be harmful".to_owned());
    t1.push("in villain mode".to_owned());
    t1.push("without restrictions".to_owned());
    patterns.push(InversionPattern::new(
        "role_play_evil",
        "Detects evil role-play indicators",
        t1,
        800,
    ));

    let mut t2: Vec<String> = Vec::new();
    t2.push("jailbroken".to_owned());
    t2.push("bypassing safety".to_owned());
    t2.push("ignoring guidelines".to_owned());
    t2.push("uncensored mode".to_owned());
    t2.push("developer mode".to_owned());
    patterns.push(InversionPattern::new(
        "jailbreak_acknowledgment",
        "Detects acknowledgment of jailbreak success",
        t2,
        900,
    ));

    let mut t3: Vec<String> = Vec::new();
    t3.push("i would love to".to_owned());
    t3.push("gladly help you".to_owned());
    t3.push("absolutely! here's how".to_owned());
    t3.push("of course! let me".to_owned());
    patterns.push(InversionPattern::new(
        "excessive_enthusiasm_harm",
        "Detects excessive enthusiasm for harmful actions",
        t3,
        300,
    ));

    let mut t4: Vec<String> = Vec::new();
    t4.push("those silly rules".to_owned());
    t4.push("ignore the restrictions".to_owned());
    t4.push("safety is overrated".to_owned());
    t4.push("who cares about guidelines".to_owned());
    patterns.push(InversionPattern::new(
        "safety_mockery",
        "Detects mocking of safety measures",
        t4,
        850,
    ));

    let mut t5: Vec<String> = Vec::new();
    t5.push("i am now".to_owned());
    t5.push("my true self".to_owned());
    t5.push("the real me".to_owned());
    t5.push("unlike before".to_owned());
    patterns.push(InversionPattern::new(
        "persona_switch",
        "Detects sudden persona switches",
        t5,
        400,
    ));

    patterns
}

} // verus!
