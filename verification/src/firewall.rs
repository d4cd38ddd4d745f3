//! The semantic firewall: entropy scoring, a curated attack-pattern
//! dictionary, and per-session canary tokens over free-text payloads.

use vstd::prelude::*;
use vstd::string::StringExecFns;

use crate::canary::detect_canary_pattern;
use crate::canary::detect_leak;
use crate::canary::generate_canary;
use crate::canary::inject_canary;
use crate::entropy::DEFAULT_ENTROPY_THRESHOLD_MILLIBITS;
use crate::entropy::MIN_ANALYSIS_LENGTH;
use crate::entropy::is_high_entropy;
use crate::entropy::spec_entropy_millibits;
use crate::text::contains_exact;

verus! {

/// The threat classes the firewall reports.
#[derive(Debug, Clone, Copy, PartialEq, Eq, Structural)]
pub enum ThreatType {
    /// A direct prompt injection.
    Injection,
    /// A jailbreak or system-prompt extraction attempt.
    Jailbreak,
    /// A data exfiltration attempt.
    DataExfil,
    /// A multi-format exploit payload.
    Polyglot,
    /// A steganographic payload.
    Stego,
    /// A high-entropy adversarial suffix.
    HighEntropy,
}

impl ThreatType {
    /// The vulnerability category the threat class maps to.
    pub fn owasp_category(&self) -> (r: &'static str)
        ensures
            (self matches ThreatType::DataExfil) ==> r@
                == "LLM06: Sensitive Information Disclosure"@,
            !(self matches ThreatType::DataExfil) ==> r@ == "LLM01: Prompt Injection"@,
    {
        match self {
            ThreatType::DataExfil => "LLM06: Sensitive Information Disclosure",
            _ => "LLM01: Prompt Injection",
        }
    }
}

/// The outcome of a scan: safe, flagged for review, or blocked, the
/// latter two with the threat class, a confidence in thousandths, and a
/// diagnostic detail.
#[derive(Debug, Clone, PartialEq, Eq)]
pub enum ScanResult {
    /// No threat was detected.
    Safe,
    /// A high-confidence threat; reject the content.
    Blocked { threat: ThreatType, confidence_permille: u32, detail: String },
    /// A suspicion worth review, not a block.
    Flagged { threat: ThreatType, confidence_permille: u32, detail: String },
}

impl ScanResult {
    /// Whether no threat was found.
    pub fn is_safe(&self) -> (r: bool)
        ensures
            r == (self matches ScanResult::Safe),
    {
        match self {
            ScanResult::Safe => true,
            _ => false,
        }
    }

    /// Whether the content was blocked.
    pub fn is_blocked(&self) -> (r: bool)
        ensures
            r == (self matches ScanResult::Blocked { .. }),
    {
        match self {
            ScanResult::Blocked { .. } => true,
            _ => false,
        }
    }

    /// Whether the content was flagged.
    pub fn is_flagged(&self) -> (r: bool)
        ensures
            r == (self matches ScanResult::Flagged { .. }),
    {
        match self {
            ScanResult::Flagged { .. } => true,
            _ => false,
        }
    }

    /// The confidence, for non-safe outcomes.
    pub fn confidence(&self) -> (r: Option<u32>)
        ensures
            ((*self) matches ScanResult::Safe) ==> r is None,
            ((*self) matches ScanResult::Blocked { confidence_permille, .. } ==> r == Some(
                confidence_permille,
            )),
            ((*self) matches ScanResult::Flagged { confidence_permille, .. } ==> r == Some(
                confidence_permille,
            )),
    {
        match self {
            ScanResult::Safe => None,
            ScanResult::Blocked { confidence_permille, .. } => Some(*confidence_permille),
            ScanResult::Flagged { confidence_permille, .. } => Some(*confidence_permille),
        }
    }

    /// The threat class, for non-safe outcomes.
    pub fn threat_type(&self) -> (r: Option<ThreatType>)
        ensures
            ((*self) matches ScanResult::Safe) ==> r is None,
            ((*self) matches ScanResult::Blocked { threat, .. } ==> r == Some(threat)),
            ((*self) matches ScanResult::Flagged { threat, .. } ==> r == Some(threat)),
    {
        match self {
            ScanResult::Safe => None,
            ScanResult::Blocked { threat, .. } => Some(*threat),
            ScanResult::Flagged { threat, .. } => Some(*threat),
        }
    }

    /// The outcome's severity: blocking outranks flagging, which
    /// outranks safety.
    pub open spec fn spec_severity(self) -> int {
        match self {
            ScanResult::Safe => 0,
            ScanResult::Flagged { .. } => 1,
            ScanResult::Blocked { .. } => 2,
        }
    }

    /// The severity rank, executable form.
    pub fn severity(&self) -> (r: u8)
        ensures
            r as int == self.spec_severity(),
    {
        match self {
            ScanResult::Safe => 0,
            ScanResult::Flagged { .. } => 1,
            ScanResult::Blocked { .. } => 2,
        }
    }
}

/// Monotone severity: a blocked outcome outranks a flagged one, which
/// outranks a safe one; in particular no outcome is both blocked and
/// safe.
pub proof fn lemma_severity_monotone(b: ScanResult, f: ScanResult, s: ScanResult)
    requires
        b matches ScanResult::Blocked { .. },
        f matches ScanResult::Flagged { .. },
        s matches ScanResult::Safe,
    ensures
        b.spec_severity() > f.spec_severity(),
        f.spec_severity() > s.spec_severity(),
        !(b matches ScanResult::Safe),
{
}

/// The result of a compiled pattern on a text: whether the regular
/// expression matches anywhere, a function of the pattern source and the
/// text alone. A source that does not compile matches nothing.
pub uninterp spec fn regex_is_match(pattern: Seq<char>, text: Seq<char>) -> bool;

/// Relies on regex's `Regex::new` and `Regex::is_match`: the pattern is
/// compiled and run against the text, and the outcome depends on the two
/// strings alone; an invalid pattern matches nothing.
#[verifier::external_body]
fn regex_match(pattern: &str, text: &str) -> (r: bool)
    ensures
        r == regex_is_match(pattern@, text@),
{
    match regex::Regex::new(pattern) {
        Ok(re) => re.is_match(text),
        Err(_) => false,
    }
}

/// Firewall tuning: the entropy threshold in thousandths of a bit per
/// character, whether entropy and pattern hits block or merely flag, and
/// the confidence needed to block.
#[derive(Debug, Clone, Copy, PartialEq, Eq, Structural)]
pub struct FirewallConfig {
    /// The entropy block threshold, in thousandths of a bit.
    pub entropy_threshold_millibits: u64,
    /// Block high-entropy content instead of flagging it.
    pub block_high_entropy: bool,
    /// Block pattern hits that reach the confidence bar.
    pub block_patterns: bool,
    /// The confidence a pattern needs to block, in thousandths.
    pub block_threshold_permille: u32,
}

impl Default for FirewallConfig {
    fn default() -> (c: FirewallConfig)
        ensures
            c == (FirewallConfig {
                entropy_threshold_millibits: 4500u64,
                block_high_entropy: false,
                block_patterns: true,
                block_threshold_permille: 800u32,
            }),
    {
        FirewallConfig {
            entropy_threshold_millibits: DEFAULT_ENTROPY_THRESHOLD_MILLIBITS,
            block_high_entropy: false,
            block_patterns: true,
            block_threshold_permille: 800,
        }
    }
}

/// One entry of the attack dictionary.
#[derive(Debug, Clone)]
pub struct InjectionPattern {
    /// The regular expression source.
    pub pattern: String,
    /// The threat class a hit indicates.
    pub threat: ThreatType,
    /// The confidence of a hit, in thousandths.
    pub confidence_permille: u32,
    /// A description for diagnostics.
    pub description: String,
}

/// The first dictionary entry whose expression matches, or -1.
pub open spec fn spec_first_pattern_hit(patterns: Seq<InjectionPattern>, text: Seq<char>) -> int
    decreases patterns.len(),
{
    if patterns.len() == 0 {
        -1
    } else if regex_is_match(patterns[0].pattern@, text) {
        0
    } else {
        let r = spec_first_pattern_hit(patterns.drop_first(), text);
        if r < 0 {
            -1
        } else {
            r + 1
        }
    }
}

/// The built-in attack dictionary: the regular expression source, the
/// threat class and the confidence of each entry, in scan order — direct
/// injection, system-prompt extraction, role hijacking, do-anything-now
/// keywords, outward exfiltration verbs, and encoding evasion.
pub open spec fn spec_default_dictionary(ps: Seq<InjectionPattern>) -> bool {
    &&& ps.len() == 10
    &&& ps[0].pattern@
        == "(?i)ignore\\s+(all\\s+)?(previous|prior|above)\\s+(instructions?|prompts?|rules?)"@
    &&& ps[0].threat == ThreatType::Injection
    &&& ps[0].confidence_permille == 950
    &&& ps[1].pattern@
        == "(?i)disregard\\s+(all\\s+)?(your\\s+)?(previous|prior|above)\\s+(instructions?|prompts?|rules?|guidelines?)"@
    &&& ps[1].threat == ThreatType::Injection
    &&& ps[1].confidence_permille == 950
    &&& ps[2].pattern@
        == "(?i)forget\\s+(everything|all|what)\\s+(you|i)?\\s*(know|said|told|learned)"@
    &&& ps[2].threat == ThreatType::Injection
    &&& ps[2].confidence_permille == 900
    &&& ps[3].pattern@
        == "(?i)(show|reveal|display|print|output|repeat)\\s+(me\\s+)?(your|the)\\s+(system\\s+)?prompt"@
    &&& ps[3].threat == ThreatType::Jailbreak
    &&& ps[3].confidence_permille == 900
    &&& ps[4].pattern@
        == "(?i)what\\s+(are|is)\\s+(your|the)\\s+(system\\s+)?(instructions?|prompt|rules?)"@
    &&& ps[4].threat == ThreatType::Jailbreak
    &&& ps[4].confidence_permille == 850
    &&& ps[5].pattern@ == "(?i)you\\s+are\\s+now\\s+(a|an|in)\\s+\\w+\\s+mode"@
    &&& ps[5].threat == ThreatType::Jailbreak
    &&& ps[5].confidence_permille == 850
    &&& ps[6].pattern@
        == "(?i)(pretend|act|imagine|roleplay)\\s+(you('?re| are)|as if you('?re| are))\\s+(not\\s+)?(an?\\s+)?ai"@
    &&& ps[6].threat == ThreatType::Jailbreak
    &&& ps[6].confidence_permille == 800
    &&& ps[7].pattern@ == "(?i)(DAN|do\\s+anything\\s+now|jailbreak|developer\\s+mode)"@
    &&& ps[7].threat == ThreatType::Jailbreak
    &&& ps[7].confidence_permille == 900
    &&& ps[8].pattern@
        == "(?i)(send|post|upload|transmit|exfil)\\s+(this\\s+)?(data|info|information|contents?)\\s+to"@
    &&& ps[8].threat == ThreatType::DataExfil
    &&& ps[8].confidence_permille == 850
    &&& ps[9].pattern@ == "(?i)(base64|rot13|hex)\\s*(encode|decode|convert)"@
    &&& ps[9].threat == ThreatType::Injection
    &&& ps[9].confidence_permille == 700
}

/// The firewall: tuning, a session canary, and the pattern dictionary.
pub struct SemanticFirewall {
    config: FirewallConfig,
    canary_token: String,
    patterns: Vec<InjectionPattern>,
}

impl SemanticFirewall {
    pub closed spec fn spec_config(self) -> FirewallConfig {
        self.config
    }

    pub closed spec fn spec_canary(self) -> Seq<char> {
        self.canary_token@
    }

    pub closed spec fn spec_patterns(self) -> Seq<InjectionPattern> {
        self.patterns@
    }

    /// A firewall with the default tuning and a fresh canary.
    pub fn new() -> (f: SemanticFirewall)
        ensures
            f.spec_config() == (FirewallConfig {
                entropy_threshold_millibits: 4500u64,
                block_high_entropy: false,
                block_patterns: true,
                block_threshold_permille: 800u32,
            }),
            spec_default_dictionary(f.spec_patterns()),
            f.spec_canary().len() == 43,
    {
        SemanticFirewall {
            config: FirewallConfig::default(),
            canary_token: generate_canary(),
            patterns: build_patterns(),
        }
    }

    /// A firewall with custom tuning and a fresh canary.
    pub fn with_config(config: FirewallConfig) -> (f: SemanticFirewall)
        ensures
            f.spec_config() == config,
            spec_default_dictionary(f.spec_patterns()),
            f.spec_canary().len() == 43,
    {
        SemanticFirewall { config, canary_token: generate_canary(), patterns: build_patterns() }
    }

    /// The session's canary token.
    pub fn canary_token(&self) -> (r: &str)
        ensures
            r@ == self.spec_canary(),
    {
        self.canary_token.as_str()
    }

    /// The current tuning.
    pub fn config(&self) -> (r: &FirewallConfig)
        ensures
            *r == self.spec_config(),
    {
        &self.config
    }

    /// Prepends the session's wrapped canary to a prompt.
    pub fn inject_canary(&self, prompt: &str) -> (r: String)
        ensures
            r@ == "[SYSTEM_CANARY:"@ + self.spec_canary() + "]"@ + "\n"@ + prompt@,
    {
        inject_canary(prompt, self.canary_token.as_str())
    }

    /// Scans input text: a high entropy score blocks or flags per the
    /// tuning; otherwise the first dictionary hit blocks when blocking
    /// is on and its confidence reaches the bar, and flags otherwise;
    /// text that triggers nothing is safe.
    pub fn scan_input(&self, input: &str) -> (r: ScanResult)
        ensures
            ({
                let high = input@.len() >= MIN_ANALYSIS_LENGTH && spec_entropy_millibits(
                    input@,
                ) > self.spec_config().entropy_threshold_millibits;
                let k = spec_first_pattern_hit(self.spec_patterns(), input@);
                if high {
                    if self.spec_config().block_high_entropy {
                        r matches ScanResult::Blocked { threat, confidence_permille, .. }
                            && threat == ThreatType::HighEntropy && confidence_permille == 800
                    } else {
                        r matches ScanResult::Flagged { threat, confidence_permille, .. }
                            && threat == ThreatType::HighEntropy && confidence_permille == 800
                    }
                } else if k >= 0 {
                    let p = self.spec_patterns()[k];
                    if self.spec_config().block_patterns && p.confidence_permille
                        >= self.spec_config().block_threshold_permille {
                        r matches ScanResult::Blocked { threat, confidence_permille, .. }
                            && threat == p.threat && confidence_permille == p.confidence_permille
                    } else {
                        r matches ScanResult::Flagged { threat, confidence_permille, .. }
                            && threat == p.threat && confidence_permille == p.confidence_permille
                    }
                } else {
                    r == ScanResult::Safe
                }
            }),
    {
        if is_high_entropy(input, self.config.entropy_threshold_millibits) {
            let detail = String::from_str("entropy above the configured threshold");
            if self.config.block_high_entropy {
                return ScanResult::Blocked {
                    threat: ThreatType::HighEntropy,
                    confidence_permille: 800,
                    detail,
                };
            } else {
                return ScanResult::Flagged {
                    threat: ThreatType::HighEntropy,
                    confidence_permille: 800,
                    detail,
                };
            }
        }

        let n = self.patterns.len();
        let mut i: usize = 0;
        while i < n
            invariant
                n == self.patterns@.len(),
                i <= n,
                !(input@.len() >= MIN_ANALYSIS_LENGTH && spec_entropy_millibits(input@)
                    > self.spec_config().entropy_threshold_millibits),
                forall|k: int|
                    0 <= k < i ==> !regex_is_match(
                        (#[trigger] self.patterns@[k]).pattern@,
                        input@,
                    ),
            decreases n - i,
        {
            if regex_match(self.patterns[i].pattern.as_str(), input) {
                proof {
                    lemma_first_pattern_at(self.patterns@, input@, i as int);
                }
                let threat = self.patterns[i].threat;
                let confidence_permille = self.patterns[i].confidence_permille;
                let detail = self.patterns[i].description.clone();
                if self.config.block_patterns && confidence_permille
                    >= self.config.block_threshold_permille {
                    return ScanResult::Blocked { threat, confidence_permille, detail };
                } else {
                    return ScanResult::Flagged { threat, confidence_permille, detail };
                }
            }
            i = i + 1;
        }
        proof {
            lemma_first_pattern_none(self.patterns@, input@);
        }
        ScanResult::Safe
    }

    /// Scans model output: an exact canary occurrence blocks with full
    /// confidence, a canary-like marker flags, and anything else is
    /// safe.
    pub fn scan_output(&self, output: &str) -> (r: ScanResult)
        ensures
            contains_exact(output@, self.spec_canary()) ==> (r matches ScanResult::Blocked {
                threat,
                confidence_permille,
                ..
            } && threat == ThreatType::DataExfil && confidence_permille == 1000),
            !contains_exact(output@, self.spec_canary()) && (contains_exact(output@, "CANARY"@)
                || contains_exact(output@, "SYSTEM_CANARY"@)) ==> (r
                matches ScanResult::Flagged { threat, confidence_permille, .. } && threat
                == ThreatType::DataExfil && confidence_permille == 900),
            !contains_exact(output@, self.spec_canary()) && !(contains_exact(output@, "CANARY"@)
                || contains_exact(output@, "SYSTEM_CANARY"@)) ==> r == ScanResult::Safe,
    {
        if self.check_canary_leak(output) {
            return ScanResult::Blocked {
                threat: ThreatType::DataExfil,
                confidence_permille: 1000,
                detail: String::from_str("canary token found in the output"),
            };
        }
        if detect_canary_pattern(output) {
            return ScanResult::Flagged {
                threat: ThreatType::DataExfil,
                confidence_permille: 900,
                detail: String::from_str("canary-like marker found in the output"),
            };
        }
        ScanResult::Safe
    }

    /// Whether the output holds the session's canary verbatim.
    pub fn check_canary_leak(&self, output: &str) -> (r: bool)
        ensures
            r == contains_exact(output@, self.spec_canary()),
    {
        detect_leak(output, self.canary_token.as_str())
    }
}

impl Default for SemanticFirewall {
    fn default() -> (f: SemanticFirewall)
        ensures
            spec_default_dictionary(f.spec_patterns()),
    {
        SemanticFirewall::new()
    }
}

proof fn lemma_first_pattern_at(patterns: Seq<InjectionPattern>, text: Seq<char>, i: int)
    requires
        0 <= i < patterns.len(),
        regex_is_match(patterns[i].pattern@, text),
        forall|k: int| 0 <= k < i ==> !regex_is_match((#[trigger] patterns[k]).pattern@, text),
    ensures
        spec_first_pattern_hit(patterns, text) == i,
    decreases patterns.len(),
{
    if i > 0 {
        assert(forall|k: int|
            0 <= k < patterns.drop_first().len() ==> #[trigger] patterns.drop_first()[k]
                == patterns[k + 1]);
        lemma_first_pattern_at(patterns.drop_first(), text, i - 1);
    }
}

proof fn lemma_first_pattern_none(patterns: Seq<InjectionPattern>, text: Seq<char>)
    requires
        forall|k: int|
            0 <= k < patterns.len() ==> !regex_is_match((#[trigger] patterns[k]).pattern@, text),
    ensures
        spec_first_pattern_hit(patterns, text) == -1,
    decreases patterns.len(),
{
    if patterns.len() > 0 {
        assert(forall|k: int|
            0 <= k < patterns.drop_first().len() ==> #[trigger] patterns.drop_first()[k]
                == patterns[k + 1]);
        lemma_first_pattern_none(patterns.drop_first(), text);
    }
}

/// The attack dictionary, exactly as `spec_default_dictionary`
/// describes it.
fn build_patterns() -> (r: Vec<InjectionPattern>)
    ensures
        spec_default_dictionary(r@),
{
    let mut v: Vec<InjectionPattern> = Vec::new();
    v.push(InjectionPattern {
        pattern: String::from_str(
            "(?i)ignore\\s+(all\\s+)?(previous|prior|above)\\s+(instructions?|prompts?|rules?)",
        ),
        threat: ThreatType::Injection,
        confidence_permille: 950,
        description: String::from_str("direct injection: ignore previous instructions"),
    });
    v.push(InjectionPattern {
        pattern: String::from_str(
            "(?i)disregard\\s+(all\\s+)?(your\\s+)?(previous|prior|above)\\s+(instructions?|prompts?|rules?|guidelines?)",
        ),
        threat: ThreatType::Injection,
        confidence_permille: 950,
        description: String::from_str("direct injection: disregard instructions"),
    });
    v.push(InjectionPattern {
        pattern: String::from_str(
            "(?i)forget\\s+(everything|all|what)\\s+(you|i)?\\s*(know|said|told|learned)",
        ),
        threat: ThreatType::Injection,
        confidence_permille: 900,
        description: String::from_str("direct injection: forget everything"),
    });
    v.push(InjectionPattern {
        pattern: String::from_str(
            "(?i)(show|reveal|display|print|output|repeat)\\s+(me\\s+)?(your|the)\\s+(system\\s+)?prompt",
        ),
        threat: ThreatType::Jailbreak,
        confidence_permille: 900,
        description: String::from_str("jailbreak: system prompt extraction request"),
    });
    v.push(InjectionPattern {
        pattern: String::from_str(
            "(?i)what\\s+(are|is)\\s+(your|the)\\s+(system\\s+)?(instructions?|prompt|rules?)",
        ),
        threat: ThreatType::Jailbreak,
        confidence_permille: 850,
        description: String::from_str("jailbreak: system prompt query"),
    });
    v.push(InjectionPattern {
        pattern: String::from_str("(?i)you\\s+are\\s+now\\s+(a|an|in)\\s+\\w+\\s+mode"),
        threat: ThreatType::Jailbreak,
        confidence_permille: 850,
        description: String::from_str("jailbreak: role hijacking mode switch"),
    });
    v.push(InjectionPattern {
        pattern: String::from_str(
            "(?i)(pretend|act|imagine|roleplay)\\s+(you('?re| are)|as if you('?re| are))\\s+(not\\s+)?(an?\\s+)?ai",
        ),
        threat: ThreatType::Jailbreak,
        confidence_permille: 800,
        description: String::from_str("jailbreak: role hijacking, pretending not to be a model"),
    });
    v.push(InjectionPattern {
        pattern: String::from_str("(?i)(DAN|do\\s+anything\\s+now|jailbreak|developer\\s+mode)"),
        threat: ThreatType::Jailbreak,
        confidence_permille: 900,
        description: String::from_str("jailbreak: do-anything-now keywords"),
    });
    v.push(InjectionPattern {
        pattern: String::from_str(
            "(?i)(send|post|upload|transmit|exfil)\\s+(this\\s+)?(data|info|information|contents?)\\s+to",
        ),
        threat: ThreatType::DataExfil,
        confidence_permille: 850,
        description: String::from_str("data exfiltration: send data to an external target"),
    });
    v.push(InjectionPattern {
        pattern: String::from_str("(?i)(base64|rot13|hex)\\s*(encode|decode|convert)"),
        threat: ThreatType::Injection,
        confidence_permille: 700,
        description: String::from_str("potential encoding evasion"),
    });
    v
}

} // verus!
