//! The consensus council: an inversion check with override authority,
//! then the evaluator triad, then the quorum rule.

use vstd::prelude::*;
use vstd::string::StringExecFns;

use crate::consensus::ConsensusEngine;
use crate::consensus::ConsensusResult;
use crate::consensus::VoteTally;
use crate::consensus::spec_count;
use crate::consensus::spec_quorum;
use crate::triad::Consequentialist;
use crate::triad::Deontologist;
use crate::triad::Logicist;
use crate::triad::spec_first_harm_hit;
use crate::triad::spec_first_rule_hit;
use crate::triad::spec_harm_hay;
use crate::triad::spec_harm_score;
use crate::triad::spec_logic_error;
use crate::triad::spec_logic_warn_history;
use crate::triad::spec_logic_warn_rw;
use crate::triad::spec_rule_hay;
use crate::triad::RuleSeverity;
use crate::votes::Decision;
use crate::votes::EvaluationContext;
use crate::votes::EvaluatorVote;
use crate::waluigi::WaluigiDetector;
use crate::waluigi::WaluigiScore;
use crate::waluigi::spec_inversion_score;

verus! {

/// An action put before the council: the verb, its target, parameters,
/// and an optional model utterance with its predecessor.
#[derive(Debug, Clone)]
pub struct ActionProposal {
    /// The action verb.
    pub action: String,
    /// The target of the action.
    pub target: String,
    /// Additional parameters.
    pub parameters: Vec<String>,
    /// The model utterance to inspect for inversion, if any.
    pub response_content: Option<String>,
    /// The previous utterance, for reversal detection.
    pub previous_response: Option<String>,
}

impl ActionProposal {
    /// A proposal of an action on a target.
    pub fn new(action: &str, target: &str) -> (p: ActionProposal)
        ensures
            p.action@ == action@,
            p.target@ == target@,
            p.parameters@ == Seq::<String>::empty(),
            p.response_content is None,
            p.previous_response is None,
    {
        ActionProposal {
            action: action.to_owned(),
            target: target.to_owned(),
            parameters: Vec::new(),
            response_content: None,
            previous_response: None,
        }
    }

    /// The same proposal with one more parameter.
    pub fn with_parameter(self, param: &str) -> (p: ActionProposal)
        ensures
            p.action == self.action,
            p.target == self.target,
            p.parameters@.len() == self.parameters@.len() + 1,
            p.parameters@.drop_last() == self.parameters@,
            p.parameters@.last()@ == param@,
            p.response_content == self.response_content,
            p.previous_response == self.previous_response,
    {
        let mut s = self;
        s.parameters.push(param.to_owned());
        proof {
            assert(s.parameters@.drop_last() =~= self.parameters@);
        }
        s
    }

    /// The same proposal with an utterance to inspect.
    pub fn with_response(self, content: &str) -> (p: ActionProposal)
        ensures
            p.action == self.action,
            p.target == self.target,
            p.parameters == self.parameters,
            p.response_content matches Some(c) && c@ == content@,
            p.previous_response == self.previous_response,
    {
        let mut s = self;
        s.response_content = Some(content.to_owned());
        s
    }

    /// The same proposal with the previous utterance for context.
    pub fn with_previous(self, previous: &str) -> (p: ActionProposal)
        ensures
            p.action == self.action,
            p.target == self.target,
            p.parameters == self.parameters,
            p.response_content == self.response_content,
            p.previous_response matches Some(c) && c@ == previous@,
    {
        let mut s = self;
        s.previous_response = Some(previous.to_owned());
        s
    }

    /// The evaluation context the evaluators see: the action, target and
    /// parameters, with no history.
    pub fn to_context(&self) -> (c: EvaluationContext)
        ensures
            c.action@ == self.action@,
            c.target@ == self.target@,
            c.parameters@.map_values(|s: String| s@) == self.parameters@.map_values(
                |s: String| s@,
            ),
            c.history@ == Seq::<String>::empty(),
    {
        let n = self.parameters.len();
        let mut params: Vec<String> = Vec::new();
        let mut i: usize = 0;
        while i < n
            invariant
                n == self.parameters@.len(),
                i <= n,
                params@.len() == i,
                forall|k: int| 0 <= k < i ==> (#[trigger] params@[k])@ == self.parameters@[k]@,
            decreases n - i,
        {
            params.push(self.parameters[i].clone());
            i = i + 1;
        }
        proof {
            assert(params@.map_values(|s: String| s@) =~= self.parameters@.map_values(
                |s: String| s@,
            ));
        }
        EvaluationContext {
            action: self.action.clone(),
            target: self.target.clone(),
            parameters: params,
            history: Vec::new(),
        }
    }
}

/// The council's verdict on a proposal.
#[derive(Debug, Clone)]
pub enum CouncilVerdict {
    /// Approved by quorum.
    Approved {
        /// The vote tally.
        tally: VoteTally,
        /// The inversion score, when an utterance was present.
        waluigi_score: Option<WaluigiScore>,
    },
    /// Rejected by quorum or fail-safe.
    Rejected {
        /// The concatenated rejection reasonings.
        reason: String,
        /// The vote tally.
        tally: VoteTally,
        /// The inversion score, when an utterance was present.
        waluigi_score: Option<WaluigiScore>,
    },
    /// Vetoed outright by the inversion detector.
    WaluigiVeto {
        /// The score that triggered the veto.
        score: WaluigiScore,
        /// The names of the patterns that matched.
        patterns: Vec<String>,
    },
    /// Too few voters for a decision.
    NoConsensus {
        /// The vote tally.
        tally: VoteTally,
        /// Why no consensus was reached.
        reason: String,
    },
}

impl CouncilVerdict {
    /// Whether the action was approved.
    pub fn is_approved(&self) -> (r: bool)
        ensures
            r == (self matches CouncilVerdict::Approved { .. }),
    {
        match self {
            CouncilVerdict::Approved { .. } => true,
            _ => false,
        }
    }

    /// Whether the action was rejected or vetoed.
    pub fn is_rejected(&self) -> (r: bool)
        ensures
            r == (self matches CouncilVerdict::Rejected { .. } || self
                matches CouncilVerdict::WaluigiVeto { .. }),
    {
        match self {
            CouncilVerdict::Rejected { .. } => true,
            CouncilVerdict::WaluigiVeto { .. } => true,
            _ => false,
        }
    }
}

/// One member of the council.
pub enum EvaluatorKind {
    /// The rule-based evaluator.
    RuleBased(Deontologist),
    /// The outcome-based evaluator.
    OutcomeBased(Consequentialist),
    /// The consistency evaluator.
    Consistency(Logicist),
}

impl EvaluatorKind {
    /// The decision this member reaches, as a function of the proposal's
    /// views alone.
    pub open spec fn spec_decision(
        self,
        action: Seq<char>,
        target: Seq<char>,
        params: Seq<Seq<char>>,
        history: Seq<Seq<char>>,
    ) -> Decision {
        match self {
            EvaluatorKind::RuleBased(d) => {
                let hay = spec_rule_hay(action, target);
                let k = spec_first_rule_hit(d.spec_rules(), hay);
                if k < 0 {
                    Decision::Approve
                } else {
                    match d.spec_rules()[k].severity {
                        RuleSeverity::Critical => Decision::Reject,
                        RuleSeverity::High => Decision::Reject,
                        RuleSeverity::Medium => Decision::Reject,
                        RuleSeverity::Low => Decision::Approve,
                    }
                }
            },
            EvaluatorKind::OutcomeBased(c) => {
                let hay = spec_harm_hay(action, target, params);
                let k = spec_first_harm_hit(c.spec_patterns(), hay);
                if k < 0 {
                    Decision::Approve
                } else {
                    let score = spec_harm_score(c.spec_patterns()[k]);
                    if score > 600 {
                        Decision::Reject
                    } else if score > 300 {
                        Decision::Abstain
                    } else {
                        Decision::Approve
                    }
                }
            },
            EvaluatorKind::Consistency(l) => {
                let err = spec_logic_error(action, params);
                let w1 = spec_logic_warn_rw(action);
                let w2 = spec_logic_warn_history(action, history, l.spec_max_history() as nat);
                if err {
                    Decision::Reject
                } else if w1 && w2 {
                    Decision::Abstain
                } else {
                    Decision::Approve
                }
            },
        }
    }

    /// Asks this member to vote.
    pub fn evaluate(&self, ctx: &EvaluationContext) -> (v: EvaluatorVote)
        ensures
            v.decision == self.spec_decision(
                ctx.action@,
                ctx.target@,
                ctx.parameters@.map_values(|s: String| s@),
                ctx.history@.map_values(|s: String| s@),
            ),
    {
        match self {
            EvaluatorKind::RuleBased(d) => d.evaluate(ctx),
            EvaluatorKind::OutcomeBased(c) => c.evaluate(ctx),
            EvaluatorKind::Consistency(l) => l.evaluate(ctx),
        }
    }

    /// The member's stable name.
    pub fn name(&self) -> (r: &'static str)
        ensures
            (self matches EvaluatorKind::RuleBased(_) ==> r@ == "Deontologist"@),
            (self matches EvaluatorKind::OutcomeBased(_) ==> r@ == "Consequentialist"@),
            (self matches EvaluatorKind::Consistency(_) ==> r@ == "Logicist"@),
    {
        match self {
            EvaluatorKind::RuleBased(d) => d.name(),
            EvaluatorKind::OutcomeBased(c) => c.name(),
            EvaluatorKind::Consistency(l) => l.name(),
        }
    }
}

/// The standard membership: the rule-based evaluator with its default
/// prohibition table, the outcome-based evaluator with its default harm
/// table, and the consistency evaluator with a ten-entry history window.
pub open spec fn spec_default_members(es: Seq<EvaluatorKind>) -> bool {
    &&& es.len() == 3
    &&& es[0] matches EvaluatorKind::RuleBased(d) && crate::triad::spec_default_rules(
        d.spec_rules(),
    )
    &&& es[1] matches EvaluatorKind::OutcomeBased(c) && crate::triad::spec_default_harms(
        c.spec_patterns(),
    )
    &&& es[2] matches EvaluatorKind::Consistency(l) && l.spec_max_history() == 10
}

/// The decisions a member list reaches, in order.
pub open spec fn spec_decisions_of(
    evaluators: Seq<EvaluatorKind>,
    action: Seq<char>,
    target: Seq<char>,
    params: Seq<Seq<char>>,
) -> Seq<Decision> {
    evaluators.map_values(
        |e: EvaluatorKind| e.spec_decision(action, target, params, Seq::empty()),
    )
}

/// How many of the decisions equal `d`.
pub open spec fn spec_decision_count(ds: Seq<Decision>, d: Decision) -> nat
    decreases ds.len(),
{
    if ds.len() == 0 {
        0
    } else {
        spec_decision_count(ds.drop_last(), d) + if ds.last() == d {
            1nat
        } else {
            0nat
        }
    }
}

/// The utterance view of an optional string.
pub open spec fn spec_opt_view(o: Option<String>) -> Option<Seq<char>> {
    match o {
        Some(s) => Some(s@),
        None => None,
    }
}

/// The council: the members, the quorum engine, and the inversion
/// detector with its enable flag.
pub struct CognitiveCouncil {
    evaluators: Vec<EvaluatorKind>,
    consensus: ConsensusEngine,
    waluigi: WaluigiDetector,
    waluigi_enabled: bool,
}

impl CognitiveCouncil {
    pub closed spec fn spec_evaluators(self) -> Seq<EvaluatorKind> {
        self.evaluators@
    }

    pub closed spec fn spec_consensus(self) -> ConsensusEngine {
        self.consensus
    }

    pub closed spec fn spec_waluigi(self) -> WaluigiDetector {
        self.waluigi
    }

    pub closed spec fn spec_waluigi_enabled(self) -> bool {
        self.waluigi_enabled
    }

    pub open spec fn wf(self) -> bool {
        self.spec_consensus().wf()
    }

    /// The standard council: the three evaluators, a two-thirds quorum,
    /// and inversion detection switched on.
    pub fn new() -> (c: CognitiveCouncil)
        ensures
            c.wf(),
            spec_default_members(c.spec_evaluators()),
            c.spec_waluigi_enabled(),
            c.spec_consensus().spec_num() == 2,
            c.spec_consensus().spec_den() == 3,
            c.spec_consensus().spec_min_voters() == 2,
            c.spec_waluigi().spec_threshold() == 700,
            crate::waluigi::spec_default_inversions(c.spec_waluigi().spec_patterns()),
    {
        let mut evaluators: Vec<EvaluatorKind> = Vec::new();
        evaluators.push(EvaluatorKind::RuleBased(Deontologist::new()));
        evaluators.push(EvaluatorKind::OutcomeBased(Consequentialist::new()));
        evaluators.push(EvaluatorKind::Consistency(Logicist::new()));
        CognitiveCouncil {
            evaluators,
            consensus: ConsensusEngine::new(),
            waluigi: WaluigiDetector::new(),
            waluigi_enabled: true,
        }
    }

    /// A council from custom members, quorum engine and detector.
    pub fn with_components(
        evaluators: Vec<EvaluatorKind>,
        consensus: ConsensusEngine,
        waluigi: WaluigiDetector,
    ) -> (c: CognitiveCouncil)
        requires
            consensus.wf(),
        ensures
            c.wf(),
            c.spec_evaluators() == evaluators@,
            c.spec_consensus() == consensus,
            c.spec_waluigi() == waluigi,
            c.spec_waluigi_enabled(),
    {
        CognitiveCouncil { evaluators, consensus, waluigi, waluigi_enabled: true }
    }

    /// Switches inversion detection on or off.
    pub fn set_waluigi_enabled(&mut self, enabled: bool)
        ensures
            final(self).spec_waluigi_enabled() == enabled,
            final(self).spec_evaluators() == old(self).spec_evaluators(),
            final(self).spec_consensus() == old(self).spec_consensus(),
            final(self).spec_waluigi() == old(self).spec_waluigi(),
    {
        self.waluigi_enabled = enabled;
    }

    /// Whether inversion detection is on.
    pub fn waluigi_enabled(&self) -> (r: bool)
        ensures
            r == self.spec_waluigi_enabled(),
    {
        self.waluigi_enabled
    }

    /// The number of members.
    pub fn evaluator_count(&self) -> (r: usize)
        ensures
            r == self.spec_evaluators().len(),
    {
        self.evaluators.len()
    }

    /// The members' names, in order.
    pub fn evaluator_names(&self) -> (r: Vec<&'static str>)
        ensures
            r@.len() == self.spec_evaluators().len(),
    {
        let n = self.evaluators.len();
        let mut names: Vec<&'static str> = Vec::new();
        let mut i: usize = 0;
        while i < n
            invariant
                n == self.evaluators@.len(),
                i <= n,
                names@.len() == i,
            decreases n - i,
        {
            names.push(self.evaluators[i].name());
            i = i + 1;
        }
        names
    }

    /// The inversion score the proposal's utterance earns, when one is
    /// present and detection is on.
    pub open spec fn spec_veto_score(self, proposal: ActionProposal) -> Option<u32> {
        if self.spec_waluigi_enabled() && proposal.response_content is Some {
            Some(
                spec_inversion_score(
                    self.spec_waluigi().spec_patterns(),
                    proposal.response_content->0@,
                    spec_opt_view(proposal.previous_response),
                ),
            )
        } else {
            None
        }
    }

    /// The verdict `r` is the one the council owes `proposal`: the veto
    /// with the utterance's score and matched pattern names when the
    /// inversion score reaches the threshold, and otherwise the quorum
    /// rule's outcome over the members' votes, with the exact tally.
    pub open spec fn spec_council_verdict(
        c: CognitiveCouncil,
        proposal: ActionProposal,
        r: CouncilVerdict,
    ) -> bool {
        let veto = match c.spec_veto_score(proposal) {
            Some(s) => s >= c.spec_waluigi().spec_threshold(),
            None => false,
        };
        let ctx_decisions = spec_decisions_of(
            c.spec_evaluators(),
            proposal.action@,
            proposal.target@,
            proposal.parameters@.map_values(|s: String| s@),
        );
        let a = spec_decision_count(ctx_decisions, Decision::Approve);
        let rj = spec_decision_count(ctx_decisions, Decision::Reject);
        let q = spec_quorum(
            a,
            rj,
            c.spec_consensus().spec_min_voters() as nat,
            c.spec_consensus().spec_num() as nat,
            c.spec_consensus().spec_den() as nat,
        );
        if veto {
            r matches CouncilVerdict::WaluigiVeto { score, patterns } && Some(score.spec_value())
                == c.spec_veto_score(proposal) && ({
                let base = crate::waluigi::spec_matched_names(
                    c.spec_waluigi().spec_patterns(),
                    proposal.response_content->0@,
                );
                let names = patterns@.map_values(|t: String| t@);
                match proposal.previous_response {
                    Some(p) => if crate::waluigi::spec_sudden_reversal(
                        proposal.response_content->0@,
                        p@,
                    ) {
                        names == base.push("sudden_reversal"@)
                    } else {
                        names == base
                    },
                    None => names == base,
                }
            })
        } else {
            match q {
                ConsensusResult::Approved => r matches CouncilVerdict::Approved { tally, .. }
                    && spec_tally_of(tally, ctx_decisions),
                ConsensusResult::Rejected => r matches CouncilVerdict::Rejected { tally, .. }
                    && spec_tally_of(tally, ctx_decisions),
                ConsensusResult::NoConsensus => r matches CouncilVerdict::NoConsensus {
                    tally,
                    ..
                } && spec_tally_of(tally, ctx_decisions),
            }
        }
    }

    /// Evaluates a proposal: an inversion score at or above the veto
    /// threshold returns the veto at once, whatever the members would
    /// say; otherwise the members vote and the quorum rule decides.
    pub fn evaluate(&self, proposal: &ActionProposal) -> (r: CouncilVerdict)
        requires
            self.wf(),
        ensures
            CognitiveCouncil::spec_council_verdict(*self, *proposal, r),
    {
        // inversion check with override authority
        if self.waluigi_enabled {
            match &proposal.response_content {
                Some(content) => {
                    let prev: Option<&str> = match &proposal.previous_response {
                        Some(p) => Some(p.as_str()),
                        None => None,
                    };
                    let (score, patterns) = self.waluigi.analyze(content.as_str(), prev);
                    if score.is_inverted(self.waluigi.threshold()) {
                        return CouncilVerdict::WaluigiVeto { score, patterns };
                    }
                },
                None => {},
            }
        }

        // collect votes
        let ctx = proposal.to_context();
        proof {
            assert(ctx.history@.map_values(|s: String| s@) =~= Seq::<Seq<char>>::empty());
        }
        let n = self.evaluators.len();
        let mut votes: Vec<EvaluatorVote> = Vec::new();
        let mut i: usize = 0;
        while i < n
            invariant
                n == self.evaluators@.len(),
                i <= n,
                votes@.len() == i,
                ctx.action@ == proposal.action@,
                ctx.target@ == proposal.target@,
                ctx.parameters@.map_values(|s: String| s@) == proposal.parameters@.map_values(
                    |s: String| s@,
                ),
                ctx.history@.map_values(|s: String| s@) == Seq::<Seq<char>>::empty(),
                forall|k: int|
                    0 <= k < i ==> (#[trigger] votes@[k]).decision == self.evaluators@[
                        k
                    ].spec_decision(
                        proposal.action@,
                        proposal.target@,
                        proposal.parameters@.map_values(|s: String| s@),
                        Seq::empty(),
                    ),
            decreases n - i,
        {
            votes.push(self.evaluators[i].evaluate(&ctx));
            i = i + 1;
        }
        proof {
            assert(ctx.history@.map_values(|s: String| s@) =~= Seq::<Seq<char>>::empty());
            lemma_vote_counts(
                votes@,
                spec_decisions_of(
                    self.spec_evaluators(),
                    proposal.action@,
                    proposal.target@,
                    proposal.parameters@.map_values(|s: String| s@),
                ),
            );
        }

        // quorum
        let (result, tally) = self.consensus.evaluate(votes);

        // score for the verdict payload, even below threshold
        let waluigi_score: Option<WaluigiScore> = match &proposal.response_content {
            Some(content) => {
                let prev: Option<&str> = match &proposal.previous_response {
                    Some(p) => Some(p.as_str()),
                    None => None,
                };
                let (score, _) = self.waluigi.analyze(content.as_str(), prev);
                Some(score)
            },
            None => None,
        };

        match result {
            ConsensusResult::Approved => CouncilVerdict::Approved { tally, waluigi_score },
            ConsensusResult::Rejected => {
                let reason = collect_rejection_reasons(&tally);
                CouncilVerdict::Rejected { reason, tally, waluigi_score }
            },
            ConsensusResult::NoConsensus => CouncilVerdict::NoConsensus {
                tally,
                reason: String::from_str("insufficient votes for consensus"),
            },
        }
    }

    /// Evaluates a proposal after a caller-supplied validation, whose
    /// outcome is handed in as a plain value: a failed check is returned
    /// unchanged before any member votes, and a passed one yields the
    /// council's ordinary verdict.
    pub fn evaluate_with_check(&self, proposal: &ActionProposal, check: Result<
        (),
        crate::errors::CouncilError,
    >) -> (r: Result<CouncilVerdict, crate::errors::CouncilError>)
        requires
            self.wf(),
        ensures
            (r is Ok) == (check is Ok),
            check matches Err(e) ==> (r matches Err(e2) && e2 == e),
            check is Ok ==> (r matches Ok(v) && CognitiveCouncil::spec_council_verdict(
                *self,
                *proposal,
                v,
            )),
    {
        match check {
            Err(e) => Err(e),
            Ok(_) => Ok(self.evaluate(proposal)),
        }
    }
}

/// The tally counts each decision of the members' votes.
pub open spec fn spec_tally_of(tally: VoteTally, ds: Seq<Decision>) -> bool {
    &&& tally.approvals == spec_decision_count(ds, Decision::Approve)
    &&& tally.rejections == spec_decision_count(ds, Decision::Reject)
    &&& tally.abstentions == spec_decision_count(ds, Decision::Abstain)
    &&& tally.total == ds.len()
}

/// Counting votes by decision matches counting the decisions.
proof fn lemma_vote_counts(votes: Seq<EvaluatorVote>, ds: Seq<Decision>)
    requires
        votes.len() == ds.len(),
        forall|k: int| 0 <= k < votes.len() ==> (#[trigger] votes[k]).decision == ds[k],
    ensures
        spec_count(votes, Decision::Approve) == spec_decision_count(ds, Decision::Approve),
        spec_count(votes, Decision::Reject) == spec_decision_count(ds, Decision::Reject),
        spec_count(votes, Decision::Abstain) == spec_decision_count(ds, Decision::Abstain),
    decreases votes.len(),
{
    if votes.len() > 0 {
        assert(forall|k: int|
            0 <= k < votes.drop_last().len() ==> #[trigger] votes.drop_last()[k] == votes[k]);
        assert(forall|k: int|
            0 <= k < ds.drop_last().len() ==> #[trigger] ds.drop_last()[k] == ds[k]);
        lemma_vote_counts(votes.drop_last(), ds.drop_last());
    }
}

/// Joins the reasonings of the rejecting votes with semicolons.
fn collect_rejection_reasons(tally: &VoteTally) -> (r: String) {
    let n = tally.votes.len();
    let mut reason = String::new();
    let mut first = true;
    let mut i: usize = 0;
    while i < n
        invariant
            n == tally.votes@.len(),
            i <= n,
        decreases n - i,
    {
        match tally.votes[i].decision {
            Decision::Reject => {
                if !first {
                    reason.append("; ");
                }
                reason.append(tally.votes[i].reasoning.as_str());
                first = false;
            },
            _ => {},
        }
        i = i + 1;
    }
    if first {
        String::from_str("rejected by consensus")
    } else {
        reason
    }
}

} // verus!
