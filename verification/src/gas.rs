//! Gas-metered resource accounting: fixed per-operation costs deducted
//! before each monitored operation ever runs.

use vstd::prelude::*;
use vstd::string::StringExecFns;

use crate::errors::MonitorError;

verus! {

/// Operation kinds, each with a fixed unit cost.
#[derive(Debug, Clone, Copy, PartialEq, Eq, Hash)]
pub enum OperationType {
    /// Reading state; cost 1.
    StateRead,
    /// Writing state; cost 5.
    StateWrite,
    /// Invoking an external tool; cost 10.
    ToolCall,
    /// A model inference request; cost 100.
    LlmInference,
    /// Network input or output; cost 20.
    NetworkIo,
    /// A caller-priced operation.
    Custom(u64),
}

impl OperationType {
    /// The fixed gas cost of this operation kind.
    pub open spec fn spec_cost(self) -> u64 {
        match self {
            OperationType::StateRead => 1u64,
            OperationType::StateWrite => 5u64,
            OperationType::ToolCall => 10u64,
            OperationType::LlmInference => 100u64,
            OperationType::NetworkIo => 20u64,
            OperationType::Custom(c) => c,
        }
    }

    /// Returns the gas cost for this operation kind.
    pub fn cost(&self) -> (c: u64)
        ensures
            c == self.spec_cost(),
    {
        match self {
            OperationType::StateRead => 1,
            OperationType::StateWrite => 5,
            OperationType::ToolCall => 10,
            OperationType::LlmInference => 100,
            OperationType::NetworkIo => 20,
            OperationType::Custom(c) => *c,
        }
    }

    /// A fixed label for the operation kind, used in failure reports.
    pub fn label(&self) -> String {
        match self {
            OperationType::StateRead => String::from_str("state read"),
            OperationType::StateWrite => String::from_str("state write"),
            OperationType::ToolCall => String::from_str("tool call"),
            OperationType::LlmInference => String::from_str("llm inference"),
            OperationType::NetworkIo => String::from_str("network io"),
            OperationType::Custom(_) => String::from_str("custom operation"),
        }
    }
}

/// A bounded gas budget: `remaining` only falls during an execution, and
/// `remaining + consumed` always equals the initial allocation.
#[derive(Debug, Clone)]
pub struct GasBudget {
    initial: u64,
    remaining: u64,
    consumed: u64,
    operation_count: u64,
}

impl GasBudget {
    /// Conservation invariant: what is left and what was spent add up to
    /// the initial allocation, so `remaining` can never exceed it.
    pub closed spec fn wf(self) -> bool {
        self.remaining + self.consumed == self.initial
    }

    pub closed spec fn spec_initial(self) -> u64 {
        self.initial
    }

    pub closed spec fn spec_remaining(self) -> u64 {
        self.remaining
    }

    pub closed spec fn spec_consumed(self) -> u64 {
        self.consumed
    }

    pub closed spec fn spec_operation_count(self) -> u64 {
        self.operation_count
    }

    /// Creates a budget holding `initial_gas` units, none of them spent.
    pub fn new(initial_gas: u64) -> (b: GasBudget)
        ensures
            b.wf(),
            b.spec_initial() == initial_gas,
            b.spec_remaining() == initial_gas,
            b.spec_consumed() == 0,
            b.spec_operation_count() == 0,
    {
        GasBudget { initial: initial_gas, remaining: initial_gas, consumed: 0, operation_count: 0 }
    }

    /// The initial allocation; constant for the budget's lifetime.
    pub fn initial(&self) -> (r: u64)
        ensures
            r == self.spec_initial(),
    {
        self.initial
    }

    /// Gas still available.
    pub fn remaining(&self) -> (r: u64)
        ensures
            r == self.spec_remaining(),
    {
        self.remaining
    }

    /// Gas spent since creation or the last reset.
    pub fn consumed(&self) -> (r: u64)
        ensures
            r == self.spec_consumed(),
    {
        self.consumed
    }

    /// Operations paid for since creation or the last reset.
    pub fn operation_count(&self) -> (r: u64)
        ensures
            r == self.spec_operation_count(),
    {
        self.operation_count
    }

    /// Whether the budget could pay for `op` right now; mutates nothing.
    pub fn can_afford(&self, op: OperationType) -> (r: bool)
        ensures
            r == (op.spec_cost() <= self.spec_remaining()),
    {
        op.cost() <= self.remaining
    }

    /// Consumed gas as whole percent of the initial allocation, rounded
    /// down; 0 when the budget was created empty.
    pub fn utilization_percent(&self) -> (r: u64)
        requires
            self.wf(),
        ensures
            self.spec_initial() == 0 ==> r == 0,
            self.spec_initial() > 0 ==> r == (self.spec_consumed() as int) * 100 / (
            self.spec_initial() as int),
            r <= 100,
    {
        if self.initial == 0 {
            0
        } else {
            proof {
                assert(self.consumed <= self.initial);
                assert((self.consumed as int) * 100 <= (self.initial as int) * 100);
                assert((self.consumed as int) * 100 / (self.initial as int)
                    <= (self.initial as int) * 100 / (self.initial as int))
                    by (nonlinear_arith)
                    requires (self.consumed as int) * 100 <= (self.initial as int) * 100
                        && self.initial > 0;
                assert((self.initial as int) * 100 / (self.initial as int) == 100)
                    by (nonlinear_arith)
                    requires self.initial > 0;
            }
            (self.consumed as u128 * 100 / self.initial as u128) as u64
        }
    }

    /// Deducts the cost of `op`. On success returns the new remainder;
    /// with too little gas left the budget is unchanged and the operation
    /// is refused with the amounts involved.
    pub fn consume(&mut self, op: OperationType) -> (r: Result<u64, MonitorError>)
        requires
            old(self).wf(),
        ensures
            final(self).wf(),
            final(self).spec_initial() == old(self).spec_initial(),
            op.spec_cost() <= old(self).spec_remaining() ==> {
                &&& r == Ok::<u64, MonitorError>((old(self).spec_remaining() - op.spec_cost()) as u64)
                &&& final(self).spec_remaining() == old(self).spec_remaining() - op.spec_cost()
                &&& final(self).spec_consumed() == old(self).spec_consumed() + op.spec_cost()
                &&& final(self).spec_operation_count()
                    == spec_saturating_inc(old(self).spec_operation_count())
            },
            op.spec_cost() > old(self).spec_remaining() ==> {
                &&& r matches Err(e) && e matches MonitorError::GasExhausted {
                    required, available, ..
                } && required == op.spec_cost() && available == old(self).spec_remaining()
                &&& *final(self) == *old(self)
            },
    {
        let cost = op.cost();
        if self.remaining < cost {
            Err(MonitorError::GasExhausted {
                required: cost,
                available: self.remaining,
                operation: op.label(),
            })
        } else {
            self.remaining = self.remaining - cost;
            self.consumed = self.consumed + cost;
            if self.operation_count < u64::MAX {
                self.operation_count = self.operation_count + 1;
            }
            Ok(self.remaining)
        }
    }

    /// Deducts an explicit amount, under the same rules as `consume`.
    pub fn consume_raw(&mut self, amount: u64) -> (r: Result<u64, MonitorError>)
        requires
            old(self).wf(),
        ensures
            final(self).wf(),
            final(self).spec_initial() == old(self).spec_initial(),
            amount <= old(self).spec_remaining() ==> {
                &&& r == Ok::<u64, MonitorError>((old(self).spec_remaining() - amount) as u64)
                &&& final(self).spec_remaining() == old(self).spec_remaining() - amount
                &&& final(self).spec_consumed() == old(self).spec_consumed() + amount
                &&& final(self).spec_operation_count()
                    == spec_saturating_inc(old(self).spec_operation_count())
            },
            amount > old(self).spec_remaining() ==> {
                &&& r matches Err(e) && e matches MonitorError::GasExhausted {
                    required, available, ..
                } && required == amount && available == old(self).spec_remaining()
                &&& *final(self) == *old(self)
            },
    {
        if self.remaining < amount {
            Err(MonitorError::GasExhausted {
                required: amount,
                available: self.remaining,
                operation: String::from_str("raw consumption"),
            })
        } else {
            self.remaining = self.remaining - amount;
            self.consumed = self.consumed + amount;
            if self.operation_count < u64::MAX {
                self.operation_count = self.operation_count + 1;
            }
            Ok(self.remaining)
        }
    }

    /// Privileged: restores the initial allocation and zeroes the counters.
    pub fn reset(&mut self)
        ensures
            final(self).wf(),
            final(self).spec_initial() == old(self).spec_initial(),
            final(self).spec_remaining() == old(self).spec_initial(),
            final(self).spec_consumed() == 0,
            final(self).spec_operation_count() == 0,
    {
        self.remaining = self.initial;
        self.consumed = 0;
        self.operation_count = 0;
    }

    /// Whether nothing at all is left.
    pub fn is_exhausted(&self) -> (r: bool)
        ensures
            r == (self.spec_remaining() == 0),
    {
        self.remaining == 0
    }
}

impl Default for GasBudget {
    /// A budget of 10,000 units.
    fn default() -> (b: GasBudget)
        ensures
            b.wf(),
            b.spec_initial() == 10000,
            b.spec_remaining() == 10000,
            b.spec_consumed() == 0,
            b.spec_operation_count() == 0,
    {
        GasBudget::new(10_000)
    }
}

/// Gas conservation: every budget reachable through `new`, `consume`,
/// `consume_raw` and `reset` keeps `remaining + consumed == initial`, and
/// `remaining` never exceeds the initial allocation. Each of those
/// operations ensures `wf`, so this law applies after any sequence of them.
pub proof fn lemma_gas_conservation(b: GasBudget)
    requires
        b.wf(),
    ensures
        b.spec_remaining() + b.spec_consumed() == b.spec_initial(),
        b.spec_remaining() <= b.spec_initial(),
{
}

/// Incrementing that stops at the top of `u64` instead of overflowing.
pub open spec fn spec_saturating_inc(x: u64) -> u64 {
    if x < u64::MAX {
        (x + 1) as u64
    } else {
        u64::MAX
    }
}

} // verus!
