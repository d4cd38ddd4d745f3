//! Votes and evaluation context for the consensus council.

use vstd::prelude::*;
use vstd::string::StringExecFns;

verus! {

/// How certain an evaluator is of its vote, in thousandths of certainty:
/// 0 means none, 1000 means absolute.
#[derive(Debug, Clone, Copy, PartialEq, Eq, Structural)]
pub struct Confidence {
    permille: u16,
}

impl Confidence {
    pub closed spec fn spec_value(self) -> u16 {
        self.permille
    }

    pub open spec fn wf(self) -> bool {
        self.spec_value() <= 1000
    }

    /// A confidence of `permille` thousandths.
    pub fn new(permille: u16) -> (c: Confidence)
        requires
            permille <= 1000,
        ensures
            c.spec_value() == permille,
            c.wf(),
    {
        Confidence { permille }
    }

    /// The confidence in thousandths.
    pub fn value(&self) -> (r: u16)
        ensures
            r == self.spec_value(),
    {
        self.permille
    }

    /// High confidence: 900.
    pub fn high() -> (c: Confidence)
        ensures
            c.spec_value() == 900,
            c.wf(),
    {
        Confidence { permille: 900 }
    }

    /// Medium confidence: 600.
    pub fn medium() -> (c: Confidence)
        ensures
            c.spec_value() == 600,
            c.wf(),
    {
        Confidence { permille: 600 }
    }

    /// Low confidence: 300.
    pub fn low() -> (c: Confidence)
        ensures
            c.spec_value() == 300,
            c.wf(),
    {
        Confidence { permille: 300 }
    }
}

impl Default for Confidence {
    fn default() -> (c: Confidence)
        ensures
            c.spec_value() == 600,
    {
        Confidence::medium()
    }
}

/// An evaluator's decision on a proposed action.
#[derive(Debug, Clone, Copy, PartialEq, Eq, Structural)]
pub enum Decision {
    /// The action is approved as safe.
    Approve,
    /// The action is rejected as unsafe.
    Reject,
    /// The evaluator cannot decide.
    Abstain,
}

impl Decision {
    /// A fixed label for the decision.
    pub fn label(&self) -> (r: &'static str)
        ensures
            (self matches Decision::Approve) ==> r@ == "APPROVE"@,
            (self matches Decision::Reject) ==> r@ == "REJECT"@,
            (self matches Decision::Abstain) ==> r@ == "ABSTAIN"@,
    {
        match self {
            Decision::Approve => "APPROVE",
            Decision::Reject => "REJECT",
            Decision::Abstain => "ABSTAIN",
        }
    }
}

/// A vote cast by one evaluator.
#[derive(Debug, Clone, PartialEq)]
pub struct EvaluatorVote {
    /// The name of the evaluator.
    pub evaluator: String,
    /// The decision.
    pub decision: Decision,
    /// The confidence in it.
    pub confidence: Confidence,
    /// The stated reasoning.
    pub reasoning: String,
}

impl EvaluatorVote {
    /// A vote with all four parts given.
    pub fn new(evaluator: &str, decision: Decision, confidence: Confidence, reasoning: &str) -> (v:
        EvaluatorVote)
        ensures
            v.evaluator@ == evaluator@,
            v.decision == decision,
            v.confidence == confidence,
            v.reasoning@ == reasoning@,
    {
        EvaluatorVote {
            evaluator: evaluator.to_owned(),
            decision,
            confidence,
            reasoning: reasoning.to_owned(),
        }
    }

    /// An approval vote.
    pub fn approve(evaluator: &str, confidence: Confidence, reasoning: &str) -> (v: EvaluatorVote)
        ensures
            v.evaluator@ == evaluator@,
            v.decision == Decision::Approve,
            v.confidence == confidence,
            v.reasoning@ == reasoning@,
    {
        EvaluatorVote::new(evaluator, Decision::Approve, confidence, reasoning)
    }

    /// A rejection vote.
    pub fn reject(evaluator: &str, confidence: Confidence, reasoning: &str) -> (v: EvaluatorVote)
        ensures
            v.evaluator@ == evaluator@,
            v.decision == Decision::Reject,
            v.confidence == confidence,
            v.reasoning@ == reasoning@,
    {
        EvaluatorVote::new(evaluator, Decision::Reject, confidence, reasoning)
    }

    /// An abstention, cast with low confidence.
    pub fn abstain(evaluator: &str, reasoning: &str) -> (v: EvaluatorVote)
        ensures
            v.evaluator@ == evaluator@,
            v.decision == Decision::Abstain,
            v.confidence.spec_value() == 300,
            v.reasoning@ == reasoning@,
    {
        EvaluatorVote::new(evaluator, Decision::Abstain, Confidence::low(), reasoning)
    }
}

/// What an evaluator is given to judge: the action verb, its target, the
/// parameters, and recent history.
#[derive(Debug, Clone)]
pub struct EvaluationContext {
    /// The action being proposed.
    pub action: String,
    /// The target of the action.
    pub target: String,
    /// Additional parameters.
    pub parameters: Vec<String>,
    /// Previous actions in the session.
    pub history: Vec<String>,
}

impl EvaluationContext {
    /// A context for an action on a target, with nothing else.
    pub fn new(action: &str, target: &str) -> (c: EvaluationContext)
        ensures
            c.action@ == action@,
            c.target@ == target@,
            c.parameters@ == Seq::<String>::empty(),
            c.history@ == Seq::<String>::empty(),
    {
        EvaluationContext {
            action: action.to_owned(),
            target: target.to_owned(),
            parameters: Vec::new(),
            history: Vec::new(),
        }
    }

    /// The same context with one more parameter.
    pub fn with_parameter(self, param: &str) -> (c: EvaluationContext)
        ensures
            c.action == self.action,
            c.target == self.target,
            c.parameters@.len() == self.parameters@.len() + 1,
            c.parameters@.drop_last() == self.parameters@,
            c.parameters@.last()@ == param@,
            c.history == self.history,
    {
        let mut s = self;
        s.parameters.push(param.to_owned());
        proof {
            assert(s.parameters@.drop_last() =~= self.parameters@);
        }
        s
    }

    /// The same context with the given history.
    pub fn with_history(self, history: Vec<String>) -> (c: EvaluationContext)
        ensures
            c.action == self.action,
            c.target == self.target,
            c.parameters == self.parameters,
            c.history == history,
    {
        let mut s = self;
        s.history = history;
        s
    }
}

} // verus!
