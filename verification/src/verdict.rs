//! The facade's typed verdicts: allow, block with a typed reason, or
//! review with flags.

use vstd::prelude::*;
use vstd::string::StringExecFns;

use crate::json::HEX_DIGITS;

verus! {

/// Why a call was blocked.
#[derive(Debug, Clone, PartialEq, Eq)]
pub enum BlockReason {
    /// The schema drifted from its registered version.
    SchemaDrift { tool_name: String, drift_level: String },
    /// The declared schema hashes differently than the registered one.
    HashMismatch { tool_name: String, expected: String, actual: String },
    /// A cycle was detected in the execution record.
    CycleDetected { cycle: String },
    /// The gas budget cannot pay for the call.
    GasExhausted { used: u64, limit: u64 },
    /// The context store is over its bound.
    ContextOverflow { size: usize, max: usize },
    /// The council rejected the action.
    CouncilRejected { votes: String, reason: String },
    /// The inversion detector vetoed the utterance; the score is in
    /// thousandths.
    WaluigiEffect { score: u32, patterns: Vec<String> },
    /// The tool is not registered.
    UnknownTool { tool_name: String },
    /// An internal failure under the fail-closed policy.
    SecurityViolation { description: String },
}

/// Why a call needs review.
#[derive(Debug, Clone, PartialEq, Eq)]
pub enum ReviewFlag {
    /// Minor schema drift.
    MinorDrift { tool_name: String },
    /// The council vote split without a quorum.
    SplitVote { votes: String },
    /// Gas usage is high but not exhausted.
    HighGasUsage { percentage: u8 },
    /// A first sighting of this tool.
    NewTool { tool_name: String },
    /// An inversion score close to the veto threshold, in thousandths.
    BorderlineWaluigi { score: u32 },
}

/// The facade's verdict on a call.
#[derive(Debug, Clone, PartialEq, Eq)]
pub enum Verdict {
    /// The call passed every check.
    Allow,
    /// The call must not proceed.
    Block {
        /// The typed reason.
        reason: BlockReason,
    },
    /// The call needs human review.
    Review {
        /// At least one flag.
        flags: Vec<ReviewFlag>,
    },
}

impl Verdict {
    /// An allowing verdict.
    pub fn allow() -> (v: Verdict)
        ensures
            v == Verdict::Allow,
    {
        Verdict::Allow
    }

    /// A blocking verdict.
    pub fn block(reason: BlockReason) -> (v: Verdict)
        ensures
            v == (Verdict::Block { reason }),
    {
        Verdict::Block { reason }
    }

    /// A review verdict.
    pub fn review(flags: Vec<ReviewFlag>) -> (v: Verdict)
        ensures
            v == (Verdict::Review { flags }),
    {
        Verdict::Review { flags }
    }

    /// Whether the call may proceed.
    pub fn is_allowed(&self) -> (r: bool)
        ensures
            r == (self matches Verdict::Allow),
    {
        match self {
            Verdict::Allow => true,
            _ => false,
        }
    }

    /// Whether the call was blocked.
    pub fn is_blocked(&self) -> (r: bool)
        ensures
            r == (self matches Verdict::Block { .. }),
    {
        match self {
            Verdict::Block { .. } => true,
            _ => false,
        }
    }

    /// Whether the call needs review.
    pub fn requires_review(&self) -> (r: bool)
        ensures
            r == (self matches Verdict::Review { .. }),
    {
        match self {
            Verdict::Review { .. } => true,
            _ => false,
        }
    }
}

/// The lower-case hex digits of the bytes, two per byte.
pub open spec fn spec_hex_of(b: Seq<u8>) -> Seq<char>
    decreases b.len(),
{
    if b.len() == 0 {
        Seq::empty()
    } else {
        spec_hex_of(b.drop_last()) + seq![
            HEX_DIGITS@[b.last() as int / 16],
            HEX_DIGITS@[b.last() as int % 16],
        ]
    }
}

/// Renders bytes as lower-case hex.
pub fn hex_of(b: &Vec<u8>) -> (r: String)
    ensures
        r@ == spec_hex_of(b@),
{
    let n = b.len();
    let mut out = String::new();
    let mut i: usize = 0;
    while i < n
        invariant
            n == b@.len(),
            i <= n,
            out@ == spec_hex_of(b@.take(i as int)),
        decreases n - i,
    {
        let ghost pre = b@.take(i as int);
        let byte = b[i];
        crate::text::push_char(&mut out, HEX_DIGITS[(byte / 16) as usize]);
        crate::text::push_char(&mut out, HEX_DIGITS[(byte % 16) as usize]);
        i = i + 1;
        proof {
            assert(b@.take(i as int).drop_last() =~= pre);
            assert(b@.take(i as int).last() == b@[i - 1]);
        }
    }
    proof {
        assert(b@.take(n as int) =~= b@);
    }
    out
}

} // verus!
