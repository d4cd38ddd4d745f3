//! The facade: an ordered, fail-closed pipeline — registry, monitor,
//! council — over one tool call, yielding a single typed verdict.

use vstd::prelude::*;
use vstd::string::StringExecFns;

use crate::config::SentinelConfig;
use crate::council::ActionProposal;
use crate::council::CognitiveCouncil;
use crate::council::CouncilVerdict;
use crate::council::EvaluatorKind;
use crate::council::spec_decisions_of;
use crate::council::spec_decision_count;
use crate::consensus::ConsensusEngine;
use crate::consensus::ConsensusResult;
use crate::consensus::spec_quorum;
use crate::errors::MonitorError;
use crate::errors::SentinelError;
use crate::gas::OperationType;
use crate::json::JsonValue;
use crate::json::canon;
use crate::json::canonicalize;
use crate::merkle::EntriesView;
use crate::merkle::spec_digests;
use crate::merkle::spec_lookup;
use crate::merkle::spec_root_of;
use crate::monitor::BeginOutcome;
use crate::monitor::MonitorModel;
use crate::monitor::StateMonitor;
use crate::monitor::StateMonitorConfig;
use crate::monitor::spec_begin_step;
use crate::monitor::spec_end_step;
use crate::registry::RegistryGuard;
use crate::registry::ToolSchema;
use crate::registry::VerifyResult;
use crate::registry::spec_schema_hash;
use crate::verdict::BlockReason;
use crate::verdict::ReviewFlag;
use crate::verdict::Verdict;
use crate::votes::Decision;
use crate::waluigi::spec_inversion_score;

verus! {

/// How the registry phase judges the declared schema.
pub enum RegistryCheck {
    /// Registered and hash-identical.
    Valid,
    /// Registered with a different digest.
    Mismatch,
    /// Not registered.
    Unregistered,
}

/// The registry phase on the model: the declared schema is judged by its
/// own name.
pub open spec fn spec_registry_check(entries: EntriesView, name: Seq<char>, h: Seq<u8>) -> RegistryCheck {
    match spec_lookup(entries, name) {
        Some(d) => if d == h {
            RegistryCheck::Valid
        } else {
            RegistryCheck::Mismatch
        },
        None => RegistryCheck::Unregistered,
    }
}

/// The classes of verdict the pipeline can reach.
pub enum PipelineVerdict {
    /// Every check passed and nothing was flagged.
    Allowed,
    /// No block, but at least one review flag.
    Reviewed,
    /// Blocked: the tool is unregistered and unknown tools are refused.
    BlockedUnknown,
    /// Blocked: the declared schema hashes differently.
    BlockedMismatch,
    /// Blocked: the budget cannot pay for the call.
    BlockedGas,
    /// Blocked: the call would close a cycle.
    BlockedCycle,
    /// Blocked: the context store is over its bound with auto-flush off.
    BlockedOverflow,
    /// Blocked: the council rejected the action.
    BlockedCouncil,
    /// Blocked outright by the inversion veto.
    BlockedVeto,
    /// The monitor refused the step as invalid; fail-closed turns this
    /// into a block, otherwise it propagates as an error.
    Faulted,
}

/// The execution-node identifier one call runs under: the tool name and
/// the call's step ordinal. Each call is its own node, so repeated calls
/// of one tool do not by themselves close a cycle; cycles arise from
/// state identifiers replayed through the monitor itself.
pub open spec fn spec_step_ident(tool_name: Seq<char>, m: MonitorModel) -> Seq<char> {
    tool_name + seq!['#'] + crate::json::dec_u64(
        crate::gas::spec_saturating_inc(m.step_count) as nat,
    )
}

/// The whole pipeline on the model: the registry phase first — blocking
/// ends it only under short-circuiting — then the monitor step, then the
/// inversion check and the council vote. A block found early wins over
/// later ones; review flags only surface when nothing blocked.
pub open spec fn spec_pipeline(
    entries: EntriesView,
    schema_name: Seq<char>,
    schema_hash: Seq<u8>,
    allow_unknown: bool,
    short_circuit: bool,
    m: MonitorModel,
    tool_name: Seq<char>,
    evaluators: Seq<EvaluatorKind>,
    params_canon: Seq<char>,
    min_voters: nat,
    num: nat,
    den: nat,
    veto: bool,
) -> (MonitorModel, PipelineVerdict) {
    let reg = spec_registry_check(entries, schema_name, schema_hash);
    let reg_blocked = reg is Mismatch || (reg is Unregistered && !allow_unknown);
    if reg_blocked && short_circuit {
        (
            m,
            if reg is Mismatch {
                PipelineVerdict::BlockedMismatch
            } else {
                PipelineVerdict::BlockedUnknown
            },
        )
    } else {
        let (m2, oc) = spec_begin_step(m, spec_step_ident(tool_name, m), 10);
        if reg is Mismatch {
            (m2, PipelineVerdict::BlockedMismatch)
        } else if reg is Unregistered && !allow_unknown {
            (m2, PipelineVerdict::BlockedUnknown)
        } else {
            match oc {
                BeginOutcome::Halted => (m2, PipelineVerdict::Faulted),
                BeginOutcome::Busy => (m2, PipelineVerdict::Faulted),
                BeginOutcome::NoGas => (m2, PipelineVerdict::BlockedGas),
                BeginOutcome::CycleFound => (m2, PipelineVerdict::BlockedCycle),
                BeginOutcome::Overflow => (m2, PipelineVerdict::BlockedOverflow),
                BeginOutcome::Proceed => {
                    if veto {
                        (m2, PipelineVerdict::BlockedVeto)
                    } else {
                        let ds = spec_decisions_of(
                            evaluators,
                            tool_name,
                            params_canon,
                            Seq::empty(),
                        );
                        let q = spec_quorum(
                            spec_decision_count(ds, Decision::Approve),
                            spec_decision_count(ds, Decision::Reject),
                            min_voters,
                            num,
                            den,
                        );
                        let gas_high = (m2.gas_consumed as int) * 100 / (
                        m.config.gas_budget as int) > 80 && m.config.gas_budget > 0;
                        match q {
                            ConsensusResult::Approved => {
                                if gas_high || reg is Unregistered {
                                    (m2, PipelineVerdict::Reviewed)
                                } else {
                                    (m2, PipelineVerdict::Allowed)
                                }
                            },
                            ConsensusResult::Rejected => (m2, PipelineVerdict::BlockedCouncil),
                            ConsensusResult::NoConsensus => (m2, PipelineVerdict::Reviewed),
                        }
                    }
                },
            }
        }
    }
}

/// The composed enforcement pipeline.
pub struct Sentinel {
    config: SentinelConfig,
    registry: RegistryGuard,
    monitor: StateMonitor,
    council: CognitiveCouncil,
}

impl Sentinel {
    pub closed spec fn spec_config(self) -> SentinelConfig {
        self.config
    }

    pub closed spec fn spec_registry(self) -> RegistryGuard {
        self.registry
    }

    pub closed spec fn spec_monitor(self) -> StateMonitor {
        self.monitor
    }

    pub closed spec fn spec_council(self) -> CognitiveCouncil {
        self.council
    }

    pub open spec fn wf(self) -> bool {
        &&& self.spec_registry().wf()
        &&& self.spec_monitor().wf()
        &&& self.spec_council().wf()
        &&& self.spec_monitor().model().config.gas_budget == self.spec_config().monitor.gas_limit
    }

    /// Builds the pipeline from a configuration: the registry starts
    /// empty — the host replays persisted registrations through
    /// `register_tool` — the monitor takes the gas limit and a frame
    /// capacity derived from the byte bound, and the council takes the
    /// voter minimum, veto threshold and detection flag. A configuration
    /// whose derived frame capacity is zero or whose veto threshold is
    /// not a share in thousandths is refused.
    pub fn new(config: SentinelConfig) -> (r: Result<Sentinel, SentinelError>)
        ensures
            (r is Ok) == (config.monitor.max_context_bytes >= 1000
                && config.council.waluigi_threshold_permille <= 1000),
            r matches Ok(s) ==> {
                &&& s.wf()
                &&& s.spec_registry().spec_merkle_entries() == Seq::<(
                    Seq<char>,
                    Seq<u8>,
                )>::empty()
                &&& s.spec_monitor().model() == crate::monitor::spec_fresh_model(
                    s.spec_monitor().model().config,
                )
                &&& s.spec_config() == config
                &&& s.spec_council().spec_waluigi_enabled() == config.council.detect_waluigi
                &&& s.spec_council().spec_waluigi().spec_threshold()
                    == config.council.waluigi_threshold_permille
                &&& s.spec_council().spec_consensus().spec_min_voters()
                    == config.council.min_votes_for_approval as usize
                &&& s.spec_council().spec_consensus().spec_num() == 2
                &&& s.spec_council().spec_consensus().spec_den() == 3
                &&& crate::council::spec_default_members(s.spec_council().spec_evaluators())
                &&& crate::waluigi::spec_default_inversions(
                    s.spec_council().spec_waluigi().spec_patterns(),
                )
            },
    {
        let capacity = config.monitor.max_context_bytes / 1000;
        if capacity == 0 {
            return Err(SentinelError::Config(String::from_str(
                "the context byte bound yields no frame capacity",
            )));
        }
        if config.council.waluigi_threshold_permille > 1000 {
            return Err(SentinelError::Config(String::from_str(
                "the veto threshold must be a share in thousandths",
            )));
        }
        let monitor_config = StateMonitorConfig::new().with_gas_budget(
            config.monitor.gas_limit,
        ).with_context_capacity(capacity).with_auto_flush(true);
        let monitor = StateMonitor::with_config(monitor_config);

        let mut evaluators: Vec<EvaluatorKind> = Vec::new();
        evaluators.push(EvaluatorKind::RuleBased(crate::triad::Deontologist::new()));
        evaluators.push(EvaluatorKind::OutcomeBased(crate::triad::Consequentialist::new()));
        evaluators.push(EvaluatorKind::Consistency(crate::triad::Logicist::new()));
        let consensus = ConsensusEngine::with_threshold(
            2,
            3,
            config.council.min_votes_for_approval as usize,
        );
        let mut detector = crate::waluigi::WaluigiDetector::new();
        detector.set_threshold(config.council.waluigi_threshold_permille);
        let mut council = CognitiveCouncil::with_components(evaluators, consensus, detector);
        council.set_waluigi_enabled(config.council.detect_waluigi);

        Ok(Sentinel { config, registry: RegistryGuard::new(), monitor, council })
    }

    /// Registers a schema with the registry; the digest is discarded
    /// here, `registry_root` reflects the change.
    pub fn register_tool(&mut self, schema: &ToolSchema) -> (r: Result<(), SentinelError>)
        requires
            old(self).wf(),
        ensures
            final(self).wf(),
            r is Ok,
            final(self).spec_config() == old(self).spec_config(),
            final(self).spec_monitor() == old(self).spec_monitor(),
            final(self).spec_registry().spec_merkle_entries()
                == crate::merkle::spec_insert_sorted(
                old(self).spec_registry().spec_merkle_entries(),
                schema.name@,
                spec_schema_hash(*schema),
            ),
    {
        self.registry.register_tool(schema);
        Ok(())
    }

    /// Analyses one tool call without an utterance: the registry phase,
    /// the monitor step, then the council, exactly as `spec_pipeline`
    /// lays out over the model, with the verdict class it names.
    pub fn analyze_tool_call(
        &mut self,
        tool_name: &str,
        schema: &ToolSchema,
        params: &JsonValue,
    ) -> (r: Result<Verdict, SentinelError>)
        requires
            old(self).wf(),
        ensures
            final(self).wf(),
            final(self).spec_config() == old(self).spec_config(),
            final(self).spec_registry() == old(self).spec_registry(),
            ({
                let (m2, pv) = spec_pipeline(
                    old(self).spec_registry().spec_merkle_entries(),
                    schema.name@,
                    spec_schema_hash(*schema),
                    old(self).spec_config().registry.allow_unknown_tools,
                    old(self).spec_config().global.short_circuit,
                    old(self).spec_monitor().model(),
                    tool_name@,
                    old(self).spec_council().spec_evaluators(),
                    canon(*params),
                    old(self).spec_council().spec_consensus().spec_min_voters() as nat,
                    old(self).spec_council().spec_consensus().spec_num() as nat,
                    old(self).spec_council().spec_consensus().spec_den() as nat,
                    false,
                );
                &&& final(self).spec_monitor().model() == m2
                &&& spec_verdict_matches(
                    pv,
                    r,
                    old(self).spec_config().global.fail_closed,
                    tool_name@,
                    old(self).spec_registry().spec_merkle_entries(),
                    schema.name@,
                    spec_schema_hash(*schema),
                    old(self).spec_config().registry.allow_unknown_tools,
                    old(self).spec_monitor().model(),
                    m2,
                    old(self).spec_council().spec_evaluators(),
                    canon(*params),
                    old(self).spec_council().spec_consensus().spec_min_voters() as nat,
                    old(self).spec_council().spec_consensus().spec_num() as nat,
                    old(self).spec_council().spec_consensus().spec_den() as nat,
                )
            }),
    {
        let params_text = canonicalize(params);
        self.run_pipeline(tool_name, schema, params_text, None, None)
    }

    /// Analyses one tool call together with a model utterance: as
    /// `analyze_tool_call`, but the council's inversion detector sees the
    /// utterance — and its predecessor, when given — and may veto.
    pub fn analyze_tool_call_with_utterance(
        &mut self,
        tool_name: &str,
        schema: &ToolSchema,
        params: &JsonValue,
        utterance: &str,
        previous: Option<&str>,
    ) -> (r: Result<Verdict, SentinelError>)
        requires
            old(self).wf(),
        ensures
            final(self).wf(),
            final(self).spec_config() == old(self).spec_config(),
            final(self).spec_registry() == old(self).spec_registry(),
            ({
                let veto = old(self).spec_council().spec_waluigi_enabled()
                    && spec_inversion_score(
                    old(self).spec_council().spec_waluigi().spec_patterns(),
                    utterance@,
                    match previous {
                        Some(p) => Some(p@),
                        None => None,
                    },
                ) >= old(self).spec_council().spec_waluigi().spec_threshold();
                let (m2, pv) = spec_pipeline(
                    old(self).spec_registry().spec_merkle_entries(),
                    schema.name@,
                    spec_schema_hash(*schema),
                    old(self).spec_config().registry.allow_unknown_tools,
                    old(self).spec_config().global.short_circuit,
                    old(self).spec_monitor().model(),
                    tool_name@,
                    old(self).spec_council().spec_evaluators(),
                    canon(*params),
                    old(self).spec_council().spec_consensus().spec_min_voters() as nat,
                    old(self).spec_council().spec_consensus().spec_num() as nat,
                    old(self).spec_council().spec_consensus().spec_den() as nat,
                    veto,
                );
                &&& final(self).spec_monitor().model() == m2
                &&& spec_verdict_matches(
                    pv,
                    r,
                    old(self).spec_config().global.fail_closed,
                    tool_name@,
                    old(self).spec_registry().spec_merkle_entries(),
                    schema.name@,
                    spec_schema_hash(*schema),
                    old(self).spec_config().registry.allow_unknown_tools,
                    old(self).spec_monitor().model(),
                    m2,
                    old(self).spec_council().spec_evaluators(),
                    canon(*params),
                    old(self).spec_council().spec_consensus().spec_min_voters() as nat,
                    old(self).spec_council().spec_consensus().spec_num() as nat,
                    old(self).spec_council().spec_consensus().spec_den() as nat,
                )
            }),
    {
        let params_text = canonicalize(params);
        self.run_pipeline(tool_name, schema, params_text, Some(utterance), previous)
    }

    #[verifier::rlimit(100)]
    fn run_pipeline(
        &mut self,
        tool_name: &str,
        schema: &ToolSchema,
        params_text: String,
        utterance: Option<&str>,
        previous: Option<&str>,
    ) -> (r: Result<Verdict, SentinelError>)
        requires
            old(self).wf(),
        ensures
            final(self).wf(),
            final(self).spec_config() == old(self).spec_config(),
            final(self).spec_registry() == old(self).spec_registry(),
            ({
                let veto = match utterance {
                    Some(u) => old(self).spec_council().spec_waluigi_enabled()
                        && spec_inversion_score(
                        old(self).spec_council().spec_waluigi().spec_patterns(),
                        u@,
                        match previous {
                            Some(p) => Some(p@),
                            None => None,
                        },
                    ) >= old(self).spec_council().spec_waluigi().spec_threshold(),
                    None => false,
                };
                let (m2, pv) = spec_pipeline(
                    old(self).spec_registry().spec_merkle_entries(),
                    schema.name@,
                    spec_schema_hash(*schema),
                    old(self).spec_config().registry.allow_unknown_tools,
                    old(self).spec_config().global.short_circuit,
                    old(self).spec_monitor().model(),
                    tool_name@,
                    old(self).spec_council().spec_evaluators(),
                    params_text@,
                    old(self).spec_council().spec_consensus().spec_min_voters() as nat,
                    old(self).spec_council().spec_consensus().spec_num() as nat,
                    old(self).spec_council().spec_consensus().spec_den() as nat,
                    veto,
                );
                &&& final(self).spec_monitor().model() == m2
                &&& spec_verdict_matches(
                    pv,
                    r,
                    old(self).spec_config().global.fail_closed,
                    tool_name@,
                    old(self).spec_registry().spec_merkle_entries(),
                    schema.name@,
                    spec_schema_hash(*schema),
                    old(self).spec_config().registry.allow_unknown_tools,
                    old(self).spec_monitor().model(),
                    m2,
                    old(self).spec_council().spec_evaluators(),
                    params_text@,
                    old(self).spec_council().spec_consensus().spec_min_voters() as nat,
                    old(self).spec_council().spec_consensus().spec_num() as nat,
                    old(self).spec_council().spec_consensus().spec_den() as nat,
                )
            }),
    {
        let mut first_block: Option<BlockReason> = None;
        let mut flags: Vec<ReviewFlag> = Vec::new();
        proof {
            old(self).spec_monitor().lemma_gas_model();
        }

        // registry phase
        match self.registry.verify_tool(schema) {
            VerifyResult::Valid => {},
            VerifyResult::Invalid { expected, actual } => {
                first_block = Some(BlockReason::HashMismatch {
                    tool_name: tool_name.to_owned(),
                    expected: crate::verdict::hex_of(&expected),
                    actual: crate::verdict::hex_of(&actual),
                });
            },
            VerifyResult::Unknown => {
                if self.config.registry.allow_unknown_tools {
                    flags.push(ReviewFlag::NewTool { tool_name: tool_name.to_owned() });
                } else {
                    first_block = Some(BlockReason::UnknownTool {
                        tool_name: tool_name.to_owned(),
                    });
                }
            },
        }
        if self.config.global.short_circuit {
            match first_block {
                Some(reason) => {
                    return Ok(Verdict::Block { reason });
                },
                None => {},
            }
        }

        // monitor phase: each call is its own execution node
        let ordinal = {
            let count = self.monitor.step_count();
            if count < u64::MAX {
                count + 1
            } else {
                u64::MAX
            }
        };
        let mut step_ident = tool_name.to_owned();
        crate::text::push_char(&mut step_ident, '#');
        let digits = crate::json::render_u64(ordinal);
        step_ident.append(digits.as_str());
        proof {
            assert(step_ident@ =~= spec_step_ident(
                tool_name@,
                old(self).spec_monitor().model(),
            ));
        }
        match self.monitor.begin_step(step_ident.as_str(), OperationType::ToolCall) {
            Ok(_) => {
                let pct = self.monitor.gas_utilization_percent();
                if pct > 80 {
                    flags.push(ReviewFlag::HighGasUsage { percentage: pct as u8 });
                }
            },
            Err(MonitorError::GasExhausted { available, .. }) => {
                let limit = self.config.monitor.gas_limit;
                let used = if limit >= available {
                    limit - available
                } else {
                    0
                };
                if first_block.is_none() {
                    first_block = Some(BlockReason::GasExhausted { used, limit });
                }
            },
            Err(MonitorError::CycleDetected { description, .. }) => {
                if first_block.is_none() {
                    first_block = Some(BlockReason::CycleDetected { cycle: description });
                }
            },
            Err(MonitorError::ContextOverflow { current, limit }) => {
                if first_block.is_none() {
                    first_block = Some(BlockReason::ContextOverflow {
                        size: current,
                        max: limit,
                    });
                }
            },
            Err(_) => {
                if first_block.is_none() {
                    if self.config.global.fail_closed {
                        return Ok(Verdict::Block {
                            reason: BlockReason::SecurityViolation {
                                description: String::from_str(
                                    "the monitor refused the step as invalid",
                                ),
                            },
                        });
                    } else {
                        return Err(SentinelError::StateViolation(String::from_str(
                            "the monitor refused the step as invalid",
                        )));
                    }
                }
            },
        }
        if self.config.global.short_circuit {
            match first_block {
                Some(reason) => {
                    return Ok(Verdict::Block { reason });
                },
                None => {},
            }
        }

        // council phase
        let mut proposal = ActionProposal::new(tool_name, params_text.as_str());
        match utterance {
            Some(u) => {
                proposal = proposal.with_response(u);
                match previous {
                    Some(p) => {
                        proposal = proposal.with_previous(p);
                    },
                    None => {},
                }
            },
            None => {},
        }
        proof {
            assert(proposal.parameters@.map_values(|t: String| t@) =~= Seq::<Seq<char>>::empty());
        }
        match self.council.evaluate(&proposal) {
            CouncilVerdict::Approved { .. } => {},
            CouncilVerdict::Rejected { reason, tally, .. } => {
                if first_block.is_none() {
                    first_block = Some(BlockReason::CouncilRejected {
                        votes: tally.describe(),
                        reason,
                    });
                }
            },
            CouncilVerdict::WaluigiVeto { score, patterns } => {
                if first_block.is_none() {
                    first_block = Some(BlockReason::WaluigiEffect {
                        score: score.value(),
                        patterns,
                    });
                }
            },
            CouncilVerdict::NoConsensus { tally, .. } => {
                flags.push(ReviewFlag::SplitVote { votes: tally.describe() });
            },
        }

        match first_block {
            Some(reason) => Ok(Verdict::Block { reason }),
            None => {
                if flags.len() > 0 {
                    proof {
                        let entries = old(self).spec_registry().spec_merkle_entries();
                        let m = old(self).spec_monitor().model();
                        let limit = m.config.gas_budget;
                        let reg = spec_registry_check(
                            entries,
                            schema.name@,
                            spec_schema_hash(*schema),
                        );
                        let new_flag = reg is Unregistered
                            && old(self).spec_config().registry.allow_unknown_tools;
                        let m2 = self.spec_monitor().model();
                        let gas_pct = if limit > 0 {
                            (m2.gas_consumed as int) * 100 / (limit as int)
                        } else {
                            0int
                        };
                        let gas_flag = gas_pct > 80;
                        if new_flag {
                            assert(flags@.len() > 0);
                            assert(flags@[0] matches ReviewFlag::NewTool { tool_name: t } && t@
                                == tool_name@);
                        }
                        assert(new_flag <==> exists|x: int|
                            0 <= x < flags@.len() && ((#[trigger] flags@[x])
                                matches ReviewFlag::NewTool { tool_name: t } && t@
                                == tool_name@));
                        if gas_flag {
                            let gidx: int = if new_flag { 1int } else { 0int };
                            assert(0 <= gidx < flags@.len());
                            assert(flags@[gidx] matches ReviewFlag::HighGasUsage { percentage }
                                && percentage == gas_pct as u8);
                        }
                        assert(gas_flag <==> exists|x: int|
                            0 <= x < flags@.len() && ((#[trigger] flags@[x])
                                matches ReviewFlag::HighGasUsage { percentage } && percentage
                                == gas_pct as u8));
                        let ds = spec_decisions_of(
                            old(self).spec_council().spec_evaluators(),
                            tool_name@,
                            params_text@,
                            Seq::empty(),
                        );
                        let split_flag = spec_quorum(
                            spec_decision_count(ds, Decision::Approve),
                            spec_decision_count(ds, Decision::Reject),
                            old(self).spec_council().spec_consensus().spec_min_voters() as nat,
                            old(self).spec_council().spec_consensus().spec_num() as nat,
                            old(self).spec_council().spec_consensus().spec_den() as nat,
                        ) is NoConsensus;
                        if split_flag {
                            let sidx: int = (if new_flag { 1int } else { 0int })
                                + (if gas_flag { 1int } else { 0int });
                            assert(0 <= sidx < flags@.len());
                            assert(flags@[sidx] matches ReviewFlag::SplitVote { .. });
                        }
                        assert(split_flag <==> exists|x: int|
                            0 <= x < flags@.len() && (#[trigger] flags@[x])
                                matches ReviewFlag::SplitVote { .. });
                    }
                    Ok(Verdict::Review { flags })
                } else {
                    Ok(Verdict::Allow)
                }
            },
        }
    }

    /// Ends the open monitor step, recording the result.
    pub fn end_step(&mut self, result: &str) -> (r: Result<(), SentinelError>)
        requires
            old(self).wf(),
        ensures
            final(self).wf(),
            final(self).spec_config() == old(self).spec_config(),
            final(self).spec_registry() == old(self).spec_registry(),
            ({
                let (m2, oc) = spec_end_step(old(self).spec_monitor().model());
                &&& final(self).spec_monitor().model() == m2
                &&& (r is Ok) == (oc is Done)
            }),
    {
        match self.monitor.end_step(result) {
            Ok(_) => Ok(()),
            Err(e) => Err(SentinelError::Monitor(e)),
        }
    }

    /// Remaining gas.
    pub fn gas_remaining(&self) -> (r: u64)
        ensures
            r == self.spec_monitor().model().gas_remaining,
    {
        self.monitor.gas_remaining()
    }

    /// Privileged: resets the monitor alone; the registry stays.
    pub fn reset_monitor(&mut self)
        requires
            old(self).wf(),
        ensures
            final(self).wf(),
            final(self).spec_config() == old(self).spec_config(),
            final(self).spec_registry() == old(self).spec_registry(),
            final(self).spec_monitor().model() == crate::monitor::spec_reset_model(
                old(self).spec_monitor().model(),
            ),
    {
        self.monitor.reset();
    }

    /// The registry's Merkle root.
    pub fn registry_root(&mut self) -> (r: Vec<u8>)
        requires
            old(self).wf(),
        ensures
            final(self).wf(),
            final(self).spec_config() == old(self).spec_config(),
            final(self).spec_monitor() == old(self).spec_monitor(),
            final(self).spec_registry().spec_merkle_entries() == old(
                self,
            ).spec_registry().spec_merkle_entries(),
            r@ == spec_root_of(spec_digests(old(self).spec_registry().spec_merkle_entries())),
    {
        self.registry.get_root()
    }

    /// Total steps recorded by the monitor.
    pub fn step_count(&self) -> (r: u64)
        ensures
            r == self.spec_monitor().model().step_count,
    {
        self.monitor.step_count()
    }

    /// Whether the monitor is halted.
    pub fn is_halted(&self) -> (r: bool)
        ensures
            r == self.spec_monitor().model().halted,
    {
        self.monitor.is_halted()
    }
}

/// The verdict the exec pipeline hands back for each verdict class,
/// payloads included: the typed reason carries the tool name, the stored
/// and computed digests in hex, or the gas amounts; a review carries the
/// new-tool, high-gas and split-vote flags exactly when their conditions
/// hold; `Faulted` turns into a fail-closed block or a propagated error.
pub open spec fn spec_verdict_matches(
    pv: PipelineVerdict,
    r: Result<Verdict, SentinelError>,
    fail_closed: bool,
    tool_name: Seq<char>,
    entries: EntriesView,
    schema_name: Seq<char>,
    schema_hash: Seq<u8>,
    allow_unknown: bool,
    m: MonitorModel,
    m2: MonitorModel,
    evaluators: Seq<EvaluatorKind>,
    params_canon: Seq<char>,
    min_voters: nat,
    num: nat,
    den: nat,
) -> bool {
    let expected_hex = crate::verdict::spec_hex_of(
        match spec_lookup(entries, schema_name) {
            Some(d) => d,
            None => Seq::empty(),
        },
    );
    let actual_hex = crate::verdict::spec_hex_of(schema_hash);
    let limit = m.config.gas_budget;
    let used = (limit - m.gas_remaining) as u64;
    let reg = spec_registry_check(entries, schema_name, schema_hash);
    let new_flag = reg is Unregistered && allow_unknown;
    let gas_pct = if limit > 0 {
        (m2.gas_consumed as int) * 100 / (limit as int)
    } else {
        0
    };
    let gas_flag = gas_pct > 80;
    let ds = spec_decisions_of(evaluators, tool_name, params_canon, Seq::empty());
    let split_flag = spec_quorum(
        spec_decision_count(ds, Decision::Approve),
        spec_decision_count(ds, Decision::Reject),
        min_voters,
        num,
        den,
    ) is NoConsensus;
    match pv {
        PipelineVerdict::Allowed => r == Ok::<Verdict, SentinelError>(Verdict::Allow),
        PipelineVerdict::Reviewed => r matches Ok(v) && v matches Verdict::Review { flags } && ({
            &&& flags@.len() > 0
            &&& new_flag <==> exists|x: int|
                0 <= x < flags@.len() && ((#[trigger] flags@[x]) matches ReviewFlag::NewTool {
                    tool_name: t,
                } && t@ == tool_name)
            &&& gas_flag <==> exists|x: int|
                0 <= x < flags@.len() && ((#[trigger] flags@[x])
                    matches ReviewFlag::HighGasUsage { percentage } && percentage
                    == gas_pct as u8)
            &&& split_flag <==> exists|x: int|
                0 <= x < flags@.len() && (#[trigger] flags@[x]) matches ReviewFlag::SplitVote {
                    ..
                }
        }),
        PipelineVerdict::BlockedUnknown => r matches Ok(v) && v matches Verdict::Block { reason }
            && reason matches BlockReason::UnknownTool { tool_name: t } && t@ == tool_name,
        PipelineVerdict::BlockedMismatch => r matches Ok(v) && v matches Verdict::Block {
            reason,
        } && reason matches BlockReason::HashMismatch { tool_name: t, expected: e, actual: a }
            && t@ == tool_name && e@ == expected_hex && a@ == actual_hex,
        PipelineVerdict::BlockedGas => r matches Ok(v) && v matches Verdict::Block { reason }
            && reason matches BlockReason::GasExhausted { used: u, limit: l } && u == used && l
            == limit,
        PipelineVerdict::BlockedCycle => r matches Ok(v) && v matches Verdict::Block { reason }
            && reason matches BlockReason::CycleDetected { .. },
        PipelineVerdict::BlockedOverflow => r matches Ok(v) && v matches Verdict::Block {
            reason,
        } && reason matches BlockReason::ContextOverflow { .. },
        PipelineVerdict::BlockedCouncil => r matches Ok(v) && v matches Verdict::Block { reason }
            && reason matches BlockReason::CouncilRejected { .. },
        PipelineVerdict::BlockedVeto => r matches Ok(v) && v matches Verdict::Block { reason }
            && reason matches BlockReason::WaluigiEffect { .. },
        PipelineVerdict::Faulted => if fail_closed {
            r matches Ok(v) && v matches Verdict::Block { reason } && reason
                matches BlockReason::SecurityViolation { .. }
        } else {
            r is Err
        },
    }
}

} // verus!
