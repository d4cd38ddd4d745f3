//! The execution-state monitor: one `begin_step` / `end_step` interface
//! composing gas accounting, cycle detection and the bounded context store,
//! with a halt flag that no step request survives.

use vstd::prelude::*;
use vstd::string::StrSliceExecFns;
use vstd::string::StringExecFns;

use crate::context::ContextManager;
use crate::context::Frame;
use crate::cycle::Cycle;
use crate::cycle::CycleDetector;
use crate::cycle::ExecutionNode;
use crate::cycle::spec_has_repeat;
use crate::errors::MonitorError;
use crate::gas::GasBudget;
use crate::gas::OperationType;
use crate::gas::spec_saturating_inc;

verus! {

/// Monitor parameters: the gas allocation, the context bound, the flush
/// threshold in whole percent, and the auto-flush policy.
#[derive(Debug, Clone, Copy, PartialEq, Eq, Structural)]
pub struct StateMonitorConfig {
    /// Initial gas budget.
    pub gas_budget: u64,
    /// Maximum context frames.
    pub context_capacity: usize,
    /// Context flush threshold, in whole percent of capacity.
    pub flush_threshold_pct: u8,
    /// Evict automatically when the threshold is exceeded.
    pub auto_flush: bool,
    /// Frames to evict during an automatic flush.
    pub flush_count: usize,
}

impl StateMonitorConfig {
    /// A usable configuration: a positive context bound and a threshold
    /// that is a percentage.
    pub open spec fn wf(self) -> bool {
        &&& self.context_capacity > 0
        &&& self.flush_threshold_pct <= 100
    }

    /// The default parameters: 10,000 gas, 1,000 frames, an 80 percent
    /// threshold, auto-flush of 100 frames at a time.
    pub fn new() -> (c: StateMonitorConfig)
        ensures
            c == (StateMonitorConfig {
                gas_budget: 10000u64,
                context_capacity: 1000usize,
                flush_threshold_pct: 80u8,
                auto_flush: true,
                flush_count: 100usize,
            }),
            c.wf(),
    {
        StateMonitorConfig {
            gas_budget: 10_000,
            context_capacity: 1000,
            flush_threshold_pct: 80,
            auto_flush: true,
            flush_count: 100,
        }
    }

    /// The same configuration with another gas budget.
    pub fn with_gas_budget(self, budget: u64) -> (c: StateMonitorConfig)
        ensures
            c == (StateMonitorConfig { gas_budget: budget, ..self }),
    {
        StateMonitorConfig { gas_budget: budget, ..self }
    }

    /// The same configuration with another context bound.
    pub fn with_context_capacity(self, capacity: usize) -> (c: StateMonitorConfig)
        ensures
            c == (StateMonitorConfig { context_capacity: capacity, ..self }),
    {
        StateMonitorConfig { context_capacity: capacity, ..self }
    }

    /// The same configuration with another flush threshold, in percent.
    pub fn with_flush_threshold(self, threshold_pct: u8) -> (c: StateMonitorConfig)
        ensures
            c == (StateMonitorConfig { flush_threshold_pct: threshold_pct, ..self }),
    {
        StateMonitorConfig { flush_threshold_pct: threshold_pct, ..self }
    }

    /// The same configuration with auto-flush switched on or off.
    pub fn with_auto_flush(self, enabled: bool) -> (c: StateMonitorConfig)
        ensures
            c == (StateMonitorConfig { auto_flush: enabled, ..self }),
    {
        StateMonitorConfig { auto_flush: enabled, ..self }
    }

    /// The same configuration with another auto-flush eviction count.
    pub fn with_flush_count(self, count: usize) -> (c: StateMonitorConfig)
        ensures
            c == (StateMonitorConfig { flush_count: count, ..self }),
    {
        StateMonitorConfig { flush_count: count, ..self }
    }
}

impl Default for StateMonitorConfig {
    fn default() -> (c: StateMonitorConfig)
        ensures
            c == (StateMonitorConfig {
                gas_budget: 10000u64,
                context_capacity: 1000usize,
                flush_threshold_pct: 80u8,
                auto_flush: true,
                flush_count: 100usize,
            }),
    {
        StateMonitorConfig::new()
    }
}

/// Everything about a monitor that its step-level behaviour depends on:
/// the halt flag, the open step, the gas counters, the step counter, the
/// recorded state identifiers, the context occupancy, and the
/// configuration. Frame contents and access stamps play no part.
pub struct MonitorModel {
    pub halted: bool,
    pub open: Option<Seq<char>>,
    pub gas_remaining: u64,
    pub gas_consumed: u64,
    pub step_count: u64,
    pub path_ids: Seq<Seq<char>>,
    pub context_len: nat,
    pub config: StateMonitorConfig,
}

/// The outcome classes of `begin_step`.
pub enum BeginOutcome {
    /// The step may proceed.
    Proceed,
    /// The monitor is halted.
    Halted,
    /// A step is already open.
    Busy,
    /// The budget cannot pay for the operation.
    NoGas,
    /// The new step closes a cycle; the monitor halts.
    CycleFound,
    /// The context store is over its threshold and auto-flush is off.
    Overflow,
}

/// The outcome classes of `end_step`.
pub enum EndOutcome {
    /// The step was recorded.
    Done,
    /// The monitor is halted.
    Halted,
    /// No step is open.
    NotOpen,
}

/// The model of a freshly configured monitor.
pub open spec fn spec_fresh_model(config: StateMonitorConfig) -> MonitorModel {
    MonitorModel {
        halted: false,
        open: None,
        gas_remaining: config.gas_budget,
        gas_consumed: 0,
        step_count: 0,
        path_ids: Seq::empty(),
        context_len: 0,
        config,
    }
}

/// The model after a privileged reset: exactly the fresh model for the
/// monitor's own configuration.
pub open spec fn spec_reset_model(m: MonitorModel) -> MonitorModel {
    spec_fresh_model(m.config)
}

/// Whether a path of identifiers revisits some identifier.
pub open spec fn spec_ids_repeat(ids: Seq<Seq<char>>) -> bool {
    exists|i: int, j: int| #![trigger ids[i], ids[j]] 0 <= i < j < ids.len() && ids[i] == ids[j]
}

/// The context occupancy after the flush `begin_step` may trigger.
pub open spec fn spec_flushed_len(len: nat, count: nat) -> nat {
    if count < len {
        (len - count) as nat
    } else {
        0
    }
}

/// One `begin_step` on the model: the checks run in their fixed order and
/// the first that fails decides the outcome.
pub open spec fn spec_begin_step(m: MonitorModel, id: Seq<char>, cost: u64) -> (
    MonitorModel,
    BeginOutcome,
) {
    if m.halted {
        (m, BeginOutcome::Halted)
    } else if m.open is Some {
        (m, BeginOutcome::Busy)
    } else if cost > m.gas_remaining {
        (m, BeginOutcome::NoGas)
    } else {
        let paid = MonitorModel {
            gas_remaining: (m.gas_remaining - cost) as u64,
            gas_consumed: (m.gas_consumed + cost) as u64,
            step_count: spec_saturating_inc(m.step_count),
            path_ids: m.path_ids.push(id),
            ..m
        };
        if spec_ids_repeat(paid.path_ids) {
            (MonitorModel { halted: true, ..paid }, BeginOutcome::CycleFound)
        } else if paid.context_len * 100 > (m.config.flush_threshold_pct as nat)
            * (m.config.context_capacity as nat) {
            if m.config.auto_flush {
                (
                    MonitorModel {
                        open: Some(id),
                        context_len: spec_flushed_len(
                            paid.context_len,
                            m.config.flush_count as nat,
                        ),
                        ..paid
                    },
                    BeginOutcome::Proceed,
                )
            } else {
                (paid, BeginOutcome::Overflow)
            }
        } else {
            (MonitorModel { open: Some(id), ..paid }, BeginOutcome::Proceed)
        }
    }
}

/// One `end_step` on the model.
pub open spec fn spec_end_step(m: MonitorModel) -> (MonitorModel, EndOutcome) {
    if m.halted {
        (m, EndOutcome::Halted)
    } else if m.open is None {
        (m, EndOutcome::NotOpen)
    } else {
        let len2 = if m.context_len < m.config.context_capacity as nat {
            m.context_len + 1
        } else {
            m.context_len
        };
        (MonitorModel { open: None, context_len: len2, ..m }, EndOutcome::Done)
    }
}

/// A step request: a state identifier and the cost of its operation.
pub struct StepRequest {
    pub id: Seq<char>,
    pub cost: u64,
}

/// Replays a sequence of step requests, each as `begin_step` followed,
/// when the step proceeded, by `end_step`.
pub open spec fn spec_run(m: MonitorModel, steps: Seq<StepRequest>) -> MonitorModel
    decreases steps.len(),
{
    if steps.len() == 0 {
        m
    } else {
        let (m1, oc) = spec_begin_step(m, steps.first().id, steps.first().cost);
        let m2 = if oc is Proceed {
            spec_end_step(m1).0
        } else {
            m1
        };
        spec_run(m2, steps.drop_first())
    }
}

/// Reset then replay: after a privileged reset, any step sequence reaches
/// exactly the state — halted flag and step count included — that a fresh
/// monitor with the same configuration reaches on the same sequence.
pub proof fn lemma_reset_replays_like_fresh(m: MonitorModel, steps: Seq<StepRequest>)
    ensures
        spec_run(spec_reset_model(m), steps) == spec_run(spec_fresh_model(m.config), steps),
{
}

/// Monitor halting: once the model is halted, `begin_step` fails and
/// changes nothing, whatever the request — so the monitor stays halted
/// for every later request as well.
pub proof fn lemma_halted_monitor_refuses_steps(m: MonitorModel, id: Seq<char>, cost: u64)
    requires
        m.halted,
    ensures
        spec_begin_step(m, id, cost).0 == m,
        spec_begin_step(m, id, cost).1 is Halted,
{
}

/// A snapshot of the monitor's counters.
#[derive(Debug, Clone)]
pub struct MonitorStatus {
    /// Total steps recorded.
    pub step_count: u64,
    /// Remaining gas.
    pub gas_remaining: u64,
    /// Gas consumed.
    pub gas_consumed: u64,
    /// Gas consumed, in whole percent of the allocation.
    pub gas_utilization_pct: u64,
    /// Current context frames.
    pub context_frames: usize,
    /// Maximum context capacity.
    pub context_capacity: usize,
    /// Context occupancy, in whole percent of capacity.
    pub context_utilization_pct: u64,
    /// Total frames evicted.
    pub context_evicted: u64,
    /// Whether a cycle was detected.
    pub cycle_detected: bool,
    /// Whether the monitor is halted.
    pub halted: bool,
}

/// The composed execution-state monitor.
#[derive(Debug)]
pub struct StateMonitor {
    config: StateMonitorConfig,
    cycle_detector: CycleDetector,
    gas_budget: GasBudget,
    context: ContextManager,
    step_count: u64,
    current_step: Option<String>,
    last_cycle: Option<Cycle>,
    halted: bool,
}

impl StateMonitor {
    /// The monitor's behavioural state.
    pub closed spec fn model(self) -> MonitorModel {
        MonitorModel {
            halted: self.halted,
            open: match self.current_step {
                Some(s) => Some(s@),
                None => None,
            },
            gas_remaining: self.gas_budget.spec_remaining(),
            gas_consumed: self.gas_budget.spec_consumed(),
            step_count: self.step_count,
            path_ids: self.cycle_detector.spec_path().map_values(|n: ExecutionNode| n.spec_state_id()),
            context_len: self.context.spec_frames().len(),
            config: self.config,
        }
    }

    pub closed spec fn spec_context(self) -> ContextManager {
        self.context
    }

    pub closed spec fn spec_last_cycle(self) -> Option<Cycle> {
        self.last_cycle
    }

    /// Internal consistency: the budget conserves gas, the store is
    /// bounded, and both follow the configuration.
    pub closed spec fn wf(self) -> bool {
        &&& self.gas_budget.wf()
        &&& self.context.wf()
        &&& self.config.wf()
        &&& self.gas_budget.spec_initial() == self.config.gas_budget
        &&& self.context.spec_capacity() == self.config.context_capacity
        &&& self.context.spec_threshold_pct() == self.config.flush_threshold_pct
    }

    /// The gas ledger balances: spent and left sum to the budget.
    pub proof fn lemma_gas_model(self)
        requires
            self.wf(),
        ensures
            self.model().gas_remaining + self.model().gas_consumed
                == self.model().config.gas_budget,
    {
        crate::gas::lemma_gas_conservation(self.gas_budget);
    }

    /// A monitor with the default configuration.
    pub fn new() -> (m: StateMonitor)
        ensures
            m.wf(),
            m.model() == spec_fresh_model(
                StateMonitorConfig {
                    gas_budget: 10000u64,
                    context_capacity: 1000usize,
                    flush_threshold_pct: 80u8,
                    auto_flush: true,
                    flush_count: 100usize,
                },
            ),
    {
        StateMonitor::with_config(StateMonitorConfig::new())
    }

    /// A monitor with the given configuration.
    pub fn with_config(config: StateMonitorConfig) -> (m: StateMonitor)
        requires
            config.wf(),
        ensures
            m.wf(),
            m.model() == spec_fresh_model(config),
    {
        let m = StateMonitor {
            cycle_detector: CycleDetector::new(),
            gas_budget: GasBudget::new(config.gas_budget),
            context: ContextManager::with_threshold(
                config.context_capacity,
                config.flush_threshold_pct,
            ),
            config,
            step_count: 0,
            current_step: None,
            last_cycle: None,
            halted: false,
        };
        proof {
            assert(m.model().path_ids =~= Seq::<Seq<char>>::empty());
        }
        m
    }

    /// Begins a step for `step_id`, paying for `op_type` first: exactly the
    /// transition `spec_begin_step` describes, with the outcome class
    /// deciding the error.
    pub fn begin_step(&mut self, step_id: &str, op_type: OperationType) -> (r: Result<
        (),
        MonitorError,
    >)
        requires
            old(self).wf(),
        ensures
            final(self).wf(),
            ({
                let (m2, oc) = spec_begin_step(old(self).model(), step_id@, op_type.spec_cost());
                &&& final(self).model() == m2
                &&& match oc {
                    BeginOutcome::Proceed => r is Ok,
                    BeginOutcome::Halted => r matches Err(MonitorError::InvalidState(_)),
                    BeginOutcome::Busy => r matches Err(MonitorError::InvalidState(_)),
                    BeginOutcome::NoGas => r matches Err(MonitorError::GasExhausted {
                        required,
                        available,
                        ..
                    }) && required == op_type.spec_cost() && available == old(self).model().gas_remaining,
                    BeginOutcome::CycleFound => r matches Err(MonitorError::CycleDetected {
                        step,
                        ..
                    }) && step == final(self).model().step_count && final(self).spec_last_cycle() is Some,
                    BeginOutcome::Overflow => r matches Err(MonitorError::ContextOverflow {
                        current,
                        limit,
                    }) && current == old(self).model().context_len && limit == old(self).model().config.context_capacity,
                }
            }),
    {
        let ghost m0 = self.model();
        if self.halted {
            return Err(MonitorError::InvalidState(String::from_str(
                "monitor halted after a security violation",
            )));
        }
        if self.current_step.is_some() {
            return Err(MonitorError::InvalidState(String::from_str(
                "a step is already open",
            )));
        }

        let cost = op_type.cost();
        match self.gas_budget.consume(op_type) {
            Ok(_) => {},
            Err(e) => {
                return Err(e);
            },
        }

        if self.step_count < u64::MAX {
            self.step_count = self.step_count + 1;
        }
        let node = ExecutionNode::new(step_id, self.step_count);
        self.cycle_detector.record_step(node);
        proof {
            assert(self.cycle_detector.spec_path().map_values(
                |n: ExecutionNode| n.spec_state_id(),
            ) =~= m0.path_ids.push(step_id@));
            lemma_repeat_corresponds(self.cycle_detector.spec_path());
        }

        match self.cycle_detector.detect_cycle() {
            Some(cycle) => {
                let step_now = self.step_count;
                self.last_cycle = Some(cycle);
                self.halted = true;
                return Err(MonitorError::CycleDetected {
                    step: step_now,
                    description: String::from_str("a recorded state was revisited"),
                });
            },
            None => {},
        }

        if self.context.should_flush() {
            if self.config.auto_flush {
                proof {
                    crate::context::lemma_context_bounded(self.context);
                }
                self.context.flush(self.config.flush_count);
            } else {
                return Err(MonitorError::ContextOverflow {
                    current: self.context.len(),
                    limit: self.context.capacity(),
                });
            }
        }

        self.current_step = Some(step_id.to_owned());
        Ok(())
    }

    /// Ends the open step, recording `result` as a context frame: exactly
    /// the transition `spec_end_step` describes.
    pub fn end_step(&mut self, result: &str) -> (r: Result<(), MonitorError>)
        requires
            old(self).wf(),
        ensures
            final(self).wf(),
            ({
                let (m2, oc) = spec_end_step(old(self).model());
                &&& final(self).model() == m2
                &&& match oc {
                    EndOutcome::Done => r is Ok,
                    EndOutcome::Halted => r matches Err(MonitorError::InvalidState(_)),
                    EndOutcome::NotOpen => r matches Err(MonitorError::InvalidState(_)),
                }
            }),
    {
        if self.halted {
            return Err(MonitorError::InvalidState(String::from_str(
                "monitor halted after a security violation",
            )));
        }
        let step_id = match &self.current_step {
            Some(s) => s.clone(),
            None => {
                return Err(MonitorError::InvalidState(String::from_str(
                    "no step is open",
                )));
            },
        };
        self.current_step = None;
        let frame = Frame::new(step_id.as_str(), result);
        self.context.push(frame);
        Ok(())
    }

    /// Remaining gas.
    pub fn gas_remaining(&self) -> (r: u64)
        ensures
            r == self.model().gas_remaining,
    {
        self.gas_budget.remaining()
    }

    /// Consumed gas, in whole percent of the allocation.
    pub fn gas_utilization_percent(&self) -> (r: u64)
        requires
            self.wf(),
        ensures
            self.model().config.gas_budget == 0 ==> r == 0,
            self.model().config.gas_budget > 0 ==> r == (self.model().gas_consumed as int) * 100
                / (self.model().config.gas_budget as int),
            r <= 100,
    {
        self.gas_budget.utilization_percent()
    }

    /// Whether no gas at all remains.
    pub fn gas_exhausted(&self) -> (r: bool)
        ensures
            r == (self.model().gas_remaining == 0),
    {
        self.gas_budget.is_exhausted()
    }

    /// Current context frame count.
    pub fn context_frame_count(&self) -> (r: usize)
        ensures
            r == self.model().context_len,
    {
        self.context.len()
    }

    /// Total steps recorded.
    pub fn step_count(&self) -> (r: u64)
        ensures
            r == self.model().step_count,
    {
        self.step_count
    }

    /// Whether a cycle has been detected since the last reset.
    pub fn cycle_detected(&self) -> (r: bool)
        ensures
            r == (self.spec_last_cycle() is Some),
    {
        self.last_cycle.is_some()
    }

    /// The last detected cycle, if any.
    pub fn last_cycle(&self) -> (r: &Option<Cycle>)
        ensures
            r == self.spec_last_cycle(),
    {
        &self.last_cycle
    }

    /// Whether the monitor is halted.
    pub fn is_halted(&self) -> (r: bool)
        ensures
            r == self.model().halted,
    {
        self.halted
    }

    /// Manually evicts up to `count` context frames from the front.
    pub fn flush_context(&mut self, count: usize) -> (r: usize)
        requires
            old(self).wf(),
        ensures
            final(self).wf(),
            r == spec_min_nat(count as nat, old(self).model().context_len),
            final(self).model() == (MonitorModel {
                context_len: (old(self).model().context_len - r as nat) as nat,
                ..old(self).model()
            }),
    {
        proof {
            crate::context::lemma_context_bounded(self.context);
        }
        self.context.flush(count)
    }

    /// Whether the budget could pay for `op_type` and the monitor is not
    /// halted.
    pub fn can_afford(&self, op_type: OperationType) -> (r: bool)
        ensures
            r == (!self.model().halted && op_type.spec_cost() <= self.model().gas_remaining),
    {
        !self.halted && self.gas_budget.can_afford(op_type)
    }

    /// Privileged: returns the monitor to the state of a fresh one with
    /// the same configuration. The eviction total of the context store
    /// keeps accumulating across resets.
    pub fn reset(&mut self)
        requires
            old(self).wf(),
        ensures
            final(self).wf(),
            final(self).model() == spec_reset_model(old(self).model()),
            final(self).spec_last_cycle() is None,
    {
        self.cycle_detector.clear();
        self.gas_budget.reset();
        self.context.clear();
        self.step_count = 0;
        self.current_step = None;
        self.last_cycle = None;
        self.halted = false;
        proof {
            assert(self.model().path_ids =~= Seq::<Seq<char>>::empty());
        }
    }

    /// A snapshot of the counters.
    pub fn status_report(&self) -> (r: MonitorStatus)
        requires
            self.wf(),
        ensures
            r.step_count == self.model().step_count,
            r.gas_remaining == self.model().gas_remaining,
            r.gas_consumed == self.model().gas_consumed,
            r.context_frames == self.model().context_len,
            r.context_capacity == self.model().config.context_capacity,
            r.gas_utilization_pct == (if self.model().config.gas_budget == 0 {
                0int
            } else {
                (self.model().gas_consumed as int) * 100 / (self.model().config.gas_budget as int)
            }),
            r.context_utilization_pct == (self.model().context_len as int) * 100 / (
            self.model().config.context_capacity as int),
            r.context_evicted == self.spec_context().spec_evicted(),
            r.cycle_detected == (self.spec_last_cycle() is Some),
            r.halted == self.model().halted,
    {
        MonitorStatus {
            step_count: self.step_count,
            gas_remaining: self.gas_budget.remaining(),
            gas_consumed: self.gas_budget.consumed(),
            gas_utilization_pct: self.gas_budget.utilization_percent(),
            context_frames: self.context.len(),
            context_capacity: self.context.capacity(),
            context_utilization_pct: self.context.utilization_percent(),
            context_evicted: self.context.evicted_count(),
            cycle_detected: self.last_cycle.is_some(),
            halted: self.halted,
        }
    }
}

impl Default for StateMonitor {
    fn default() -> (m: StateMonitor)
        ensures
            m.wf(),
    {
        StateMonitor::new()
    }
}

/// The smaller of two counts.
pub open spec fn spec_min_nat(a: nat, b: nat) -> nat {
    if a < b {
        a
    } else {
        b
    }
}

/// A repeat among the nodes is a repeat among their identifiers.
proof fn lemma_repeat_corresponds(path: Seq<ExecutionNode>)
    ensures
        spec_has_repeat(path) == spec_ids_repeat(
            path.map_values(|n: ExecutionNode| n.spec_state_id()),
        ),
{
    let ids = path.map_values(|n: ExecutionNode| n.spec_state_id());
    assert(ids.len() == path.len());
    if spec_has_repeat(path) {
        let (i, j) = choose|i: int, j: int|
            #![trigger path[i].spec_state_id(), path[j].spec_state_id()]
            0 <= i < j < path.len() && path[i].spec_state_id() == path[j].spec_state_id();
        assert(ids[i] == path[i].spec_state_id());
        assert(ids[j] == path[j].spec_state_id());
        assert(spec_ids_repeat(ids));
    }
    if spec_ids_repeat(ids) {
        let (i, j) = choose|i: int, j: int|
            #![trigger ids[i], ids[j]]
            0 <= i < j < ids.len() && ids[i] == ids[j];
        assert(path[i].spec_state_id() == ids[i]);
        assert(path[j].spec_state_id() == ids[j]);
        assert(spec_has_repeat(path));
    }
}

} // verus!
