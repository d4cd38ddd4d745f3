//! The quorum engine: tallies evaluator votes and decides under a
//! Byzantine-style majority rule that fails safe to rejection.

use vstd::prelude::*;
use vstd::string::StringExecFns;

use crate::votes::Decision;
use crate::votes::EvaluatorVote;

verus! {

/// The quorum's decision.
#[derive(Debug, Clone, Copy, PartialEq, Eq, Structural)]
pub enum ConsensusResult {
    /// Enough of the voting members approved.
    Approved,
    /// The action is rejected, by majority or by fail-safe.
    Rejected,
    /// Too few members cast a vote.
    NoConsensus,
}

/// Counts of each decision among a sequence of votes.
pub open spec fn spec_count(votes: Seq<EvaluatorVote>, d: Decision) -> nat
    decreases votes.len(),
{
    if votes.len() == 0 {
        0
    } else {
        spec_count(votes.drop_last(), d) + if votes.last().decision == d {
            1nat
        } else {
            0nat
        }
    }
}

/// The vote counts, with the votes retained.
#[derive(Debug, Clone)]
pub struct VoteTally {
    /// Approval votes.
    pub approvals: usize,
    /// Rejection votes.
    pub rejections: usize,
    /// Abstentions.
    pub abstentions: usize,
    /// All votes cast.
    pub total: usize,
    /// The individual votes.
    pub votes: Vec<EvaluatorVote>,
}

impl VoteTally {
    /// Counts consistent with the retained votes.
    pub open spec fn wf(self) -> bool {
        &&& self.approvals == spec_count(self.votes@, Decision::Approve)
        &&& self.rejections == spec_count(self.votes@, Decision::Reject)
        &&& self.abstentions == spec_count(self.votes@, Decision::Abstain)
        &&& self.total == self.votes@.len()
    }

    /// The counts as text, for verdict payloads.
    pub fn describe(&self) -> (r: String) {
        let mut out = String::from_str("approvals: ");
        out.append(crate::json::render_u64(self.approvals as u64).as_str());
        out.append(", rejections: ");
        out.append(crate::json::render_u64(self.rejections as u64).as_str());
        out.append(", abstentions: ");
        out.append(crate::json::render_u64(self.abstentions as u64).as_str());
        out
    }

    /// Tallies a collection of votes.
    pub fn from_votes(votes: Vec<EvaluatorVote>) -> (t: VoteTally)
        ensures
            t.wf(),
            t.votes@ == votes@,
    {
        let n = votes.len();
        let mut approvals: usize = 0;
        let mut rejections: usize = 0;
        let mut abstentions: usize = 0;
        let mut i: usize = 0;
        while i < n
            invariant
                n == votes@.len(),
                i <= n,
                approvals == spec_count(votes@.take(i as int), Decision::Approve),
                rejections == spec_count(votes@.take(i as int), Decision::Reject),
                abstentions == spec_count(votes@.take(i as int), Decision::Abstain),
                approvals + rejections + abstentions <= i,
            decreases n - i,
        {
            let ghost pre = votes@.take(i as int);
            match votes[i].decision {
                Decision::Approve => {
                    approvals = approvals + 1;
                },
                Decision::Reject => {
                    rejections = rejections + 1;
                },
                Decision::Abstain => {
                    abstentions = abstentions + 1;
                },
            }
            i = i + 1;
            proof {
                assert(votes@.take(i as int).drop_last() =~= pre);
                assert(votes@.take(i as int).last() == votes@[i - 1]);
            }
        }
        proof {
            assert(votes@.take(n as int) =~= votes@);
        }
        VoteTally { approvals, rejections, abstentions, total: n, votes }
    }
}

/// The quorum rule: with `a` approvals and `r` rejections among the
/// voting members (abstentions do not count), too few voters means no
/// consensus; an approval share reaching `num/den` approves; a rejection
/// share reaching it rejects; anything else — ties and sub-majorities —
/// rejects as the fail-safe.
pub open spec fn spec_quorum(a: nat, r: nat, min_voters: nat, num: nat, den: nat) -> ConsensusResult {
    if a + r < min_voters {
        ConsensusResult::NoConsensus
    } else if a * den >= (a + r) * num {
        ConsensusResult::Approved
    } else if r * den >= (a + r) * num {
        ConsensusResult::Rejected
    } else {
        ConsensusResult::Rejected
    }
}

/// Quorum fail-safe: whenever neither the approval share nor the
/// rejection share reaches the threshold, the verdict is Rejected.
pub proof fn lemma_quorum_fail_safe(a: nat, r: nat, min_voters: nat, num: nat, den: nat)
    requires
        a + r >= min_voters,
        a * den < (a + r) * num,
        r * den < (a + r) * num,
    ensures
        spec_quorum(a, r, min_voters, num, den) == ConsensusResult::Rejected,
{
}

/// The consensus engine: a threshold share and a voter minimum.
#[derive(Debug, Clone)]
pub struct ConsensusEngine {
    threshold_num: u64,
    threshold_den: u64,
    min_voters: usize,
}

impl ConsensusEngine {
    pub closed spec fn spec_num(self) -> u64 {
        self.threshold_num
    }

    pub closed spec fn spec_den(self) -> u64 {
        self.threshold_den
    }

    pub closed spec fn spec_min_voters(self) -> usize {
        self.min_voters
    }

    pub open spec fn wf(self) -> bool {
        &&& 0 < self.spec_den() <= 1000000
        &&& self.spec_num() <= self.spec_den()
    }

    /// The default rule: a two-thirds majority and at least two voters.
    pub fn new() -> (e: ConsensusEngine)
        ensures
            e.wf(),
            e.spec_num() == 2,
            e.spec_den() == 3,
            e.spec_min_voters() == 2,
    {
        ConsensusEngine { threshold_num: 2, threshold_den: 3, min_voters: 2 }
    }

    /// A custom rule: the threshold share `num / den` and a voter
    /// minimum.
    pub fn with_threshold(num: u64, den: u64, min_voters: usize) -> (e: ConsensusEngine)
        requires
            0 < den <= 1000000,
            num <= den,
        ensures
            e.wf(),
            e.spec_num() == num,
            e.spec_den() == den,
            e.spec_min_voters() == min_voters,
    {
        ConsensusEngine { threshold_num: num, threshold_den: den, min_voters }
    }

    /// The threshold share, as numerator and denominator.
    pub fn threshold(&self) -> (r: (u64, u64))
        ensures
            r.0 == self.spec_num(),
            r.1 == self.spec_den(),
    {
        (self.threshold_num, self.threshold_den)
    }

    /// The voter minimum.
    pub fn min_voters(&self) -> (r: usize)
        ensures
            r == self.spec_min_voters(),
    {
        self.min_voters
    }

    /// Tallies the votes and applies the quorum rule.
    pub fn evaluate(&self, votes: Vec<EvaluatorVote>) -> (r: (ConsensusResult, VoteTally))
        requires
            self.wf(),
        ensures
            r.1.wf(),
            r.1.votes@ == votes@,
            r.0 == spec_quorum(
                spec_count(votes@, Decision::Approve),
                spec_count(votes@, Decision::Reject),
                self.spec_min_voters() as nat,
                self.spec_num() as nat,
                self.spec_den() as nat,
            ),
    {
        let tally = VoteTally::from_votes(votes);
        let a = tally.approvals as u128;
        let rj = tally.rejections as u128;
        let voters = a + rj;
        let num = self.threshold_num as u128;
        let den = self.threshold_den as u128;

        proof {
            assert(a * den <= 0xFFFF_FFFF_FFFF_FFFF_FFFF_FFFF_FFFF_FFFF) by (nonlinear_arith)
                requires
                    a <= u64::MAX as u128,
                    den <= 1000000,
            ;
            assert(rj * den <= 0xFFFF_FFFF_FFFF_FFFF_FFFF_FFFF_FFFF_FFFF) by (nonlinear_arith)
                requires
                    rj <= u64::MAX as u128,
                    den <= 1000000,
            ;
            assert(voters * num <= 0xFFFF_FFFF_FFFF_FFFF_FFFF_FFFF_FFFF_FFFF)
                by (nonlinear_arith)
                requires
                    voters <= 2 * (u64::MAX as u128),
                    num <= 1000000,
            ;
        }
        let result = if voters < self.min_voters as u128 {
            ConsensusResult::NoConsensus
        } else if a * den >= voters * num {
            ConsensusResult::Approved
        } else if rj * den >= voters * num {
            ConsensusResult::Rejected
        } else {
            ConsensusResult::Rejected
        };
        (result, tally)
    }
}

impl Default for ConsensusEngine {
    fn default() -> (e: ConsensusEngine)
        ensures
            e.wf(),
            e.spec_num() == 2,
            e.spec_den() == 3,
            e.spec_min_voters() == 2,
    {
        ConsensusEngine::new()
    }
}

} // verus!
