//! Cycle detection over recorded execution steps: a repeat-state check as
//! the primary detector, and a strongly-connected-component search over the
//! step-transition graph as the secondary one.

use vstd::prelude::*;
use vstd::string::StrSliceExecFns;

use crate::text::str_eq;

verus! {

/// One recorded step: a caller-supplied stable state identifier and the
/// step number at which it was recorded.
#[derive(Debug, Clone, PartialEq, Eq, Hash)]
pub struct ExecutionNode {
    state_id: String,
    step: u64,
}

impl ExecutionNode {
    pub closed spec fn spec_state_id(self) -> Seq<char> {
        self.state_id@
    }

    pub closed spec fn spec_step(self) -> u64 {
        self.step
    }

    /// A node for the given state at the given step number.
    pub fn new(state_id: &str, step: u64) -> (n: ExecutionNode)
        ensures
            n.spec_state_id() == state_id@,
            n.spec_step() == step,
    {
        ExecutionNode { state_id: state_id.to_owned(), step }
    }

    /// The node's state identifier.
    pub fn state_id(&self) -> (r: &str)
        ensures
            r@ == self.spec_state_id(),
    {
        self.state_id.as_str()
    }

    /// The node's step number.
    pub fn step(&self) -> (r: u64)
        ensures
            r == self.spec_step(),
    {
        self.step
    }

    fn duplicate(&self) -> (n: ExecutionNode)
        ensures
            n == *self,
    {
        ExecutionNode { state_id: self.state_id.clone(), step: self.step }
    }
}

/// Some state returns at `j` to the identifier it had at `i`, with a
/// different identifier recorded strictly between the two.
pub open spec fn spec_mixed_return(path: Seq<ExecutionNode>, i: int) -> bool {
    exists|k: int, j: int|
        #![trigger path[k].spec_state_id(), path[j].spec_state_id()]
        i < k < j < path.len() && path[j].spec_state_id() == path[i].spec_state_id()
            && path[k].spec_state_id() != path[i].spec_state_id()
}

/// The transition graph — one vertex per distinct state, one edge per pair
/// of consecutively recorded states — has a strongly connected component
/// of more than one vertex. That holds exactly when some state returns
/// after a different state intervened: such a span is a closed walk
/// through two distinct vertices, so both lie in one component; and when
/// no state so returns, every repeat is a contiguous run of one state, the
/// graph is a chain of runs with self-loops, and every component is a
/// single vertex.
pub open spec fn spec_multi_scc(path: Seq<ExecutionNode>) -> bool {
    exists|i: int| 0 <= i < path.len() && #[trigger] spec_mixed_return(path, i)
}

/// Some state identifier occurs twice in the path.
pub open spec fn spec_has_repeat(path: Seq<ExecutionNode>) -> bool {
    exists|i: int, j: int|
        #![trigger path[i].spec_state_id(), path[j].spec_state_id()]
        0 <= i < j < path.len() && path[i].spec_state_id() == path[j].spec_state_id()
}

/// The state at `i` occurs again later in the path.
pub open spec fn spec_has_later_dup(path: Seq<ExecutionNode>, i: int) -> bool {
    exists|j: int|
        #![trigger path[j].spec_state_id()]
        i < j < path.len() && path[i].spec_state_id() == path[j].spec_state_id()
}

/// The nodes whose step number falls in `[lo, hi]`, in path order.
pub open spec fn spec_nodes_in_range(path: Seq<ExecutionNode>, lo: u64, hi: u64) -> Seq<
    ExecutionNode,
>
    decreases path.len(),
{
    if path.len() == 0 {
        Seq::empty()
    } else if lo <= path.last().spec_step() && path.last().spec_step() <= hi {
        spec_nodes_in_range(path.drop_last(), lo, hi).push(path.last())
    } else {
        spec_nodes_in_range(path.drop_last(), lo, hi)
    }
}

/// Some node of `s` carries the identifier `id`.
pub open spec fn spec_has_id(s: Seq<ExecutionNode>, id: Seq<char>) -> bool {
    exists|k: int| 0 <= k < s.len() && s[k].spec_state_id() == id
}

/// The number of distinct state identifiers among the nodes.
pub open spec fn spec_distinct_ids(s: Seq<ExecutionNode>) -> nat
    decreases s.len(),
{
    if s.len() == 0 {
        0
    } else if spec_has_id(s.drop_last(), s.last().spec_state_id()) {
        spec_distinct_ids(s.drop_last())
    } else {
        spec_distinct_ids(s.drop_last()) + 1
    }
}

/// The cycle `c` spans positions `i` to `j` of the path: both carry the
/// same state, that state is the earliest one to recur, `j` is its last
/// occurrence, and the cycle holds exactly the nodes whose step numbers
/// fall between those two positions' steps.
pub open spec fn spec_repeat_span(path: Seq<ExecutionNode>, i: int, j: int, c: Cycle) -> bool {
    &&& 0 <= i < j < path.len()
    &&& path[i].spec_state_id() == path[j].spec_state_id()
    &&& forall|k: int| 0 <= k < i ==> !spec_has_later_dup(path, k)
    &&& forall|l: int|
        j < l < path.len() ==> path[l].spec_state_id() != path[i].spec_state_id()
    &&& c.spec_nodes() == spec_nodes_in_range(path, path[i].spec_step(), path[j].spec_step())
    &&& c.spec_detected_at() == path[j].spec_step()
}

/// A detected cycle: the nodes involved and the step number at which the
/// detection happened.
#[derive(Debug, Clone)]
pub struct Cycle {
    nodes: Vec<ExecutionNode>,
    detected_at_step: u64,
}

impl Cycle {
    pub closed spec fn spec_nodes(self) -> Seq<ExecutionNode> {
        self.nodes@
    }

    pub closed spec fn spec_detected_at(self) -> u64 {
        self.detected_at_step
    }

    /// A cycle from the involved nodes.
    pub fn new(nodes: Vec<ExecutionNode>, detected_at_step: u64) -> (c: Cycle)
        ensures
            c.spec_nodes() == nodes@,
            c.spec_detected_at() == detected_at_step,
    {
        Cycle { nodes, detected_at_step }
    }

    /// The nodes involved in this cycle.
    pub fn nodes(&self) -> (r: &Vec<ExecutionNode>)
        ensures
            r@ == self.spec_nodes(),
    {
        &self.nodes
    }

    /// The step at which the cycle was detected.
    pub fn detected_at_step(&self) -> (r: u64)
        ensures
            r == self.spec_detected_at(),
    {
        self.detected_at_step
    }

    /// The number of distinct states taking part in the cycle.
    pub fn length(&self) -> (r: usize)
        ensures
            r == spec_distinct_ids(self.spec_nodes()),
    {
        let n = self.nodes.len();
        let mut count: usize = 0;
        let mut i: usize = 0;
        while i < n
            invariant
                n == self.nodes@.len(),
                i <= n,
                count <= i,
                count == spec_distinct_ids(self.nodes@.take(i as int)),
            decreases n - i,
        {
            let mut seen = false;
            let mut wit: usize = 0;
            let mut j: usize = 0;
            while j < i
                invariant
                    i < n,
                    n == self.nodes@.len(),
                    j <= i,
                    seen ==> wit < j && self.nodes@[wit as int].spec_state_id() == self.nodes@[
                        i as int
                    ].spec_state_id(),
                    !seen ==> forall|k: int|
                        0 <= k < j ==> self.nodes@[k].spec_state_id() != self.nodes@[
                            i as int
                        ].spec_state_id(),
                decreases i - j,
            {
                if str_eq(self.nodes[j].state_id.as_str(), self.nodes[i].state_id.as_str()) {
                    seen = true;
                    wit = j;
                }
                j = j + 1;
            }
            i = i + 1;
            proof {
                let pre = self.nodes@.take(i - 1);
                let idv = self.nodes@[i - 1].spec_state_id();
                assert(self.nodes@.take(i as int).drop_last() =~= pre);
                assert(self.nodes@.take(i as int).last() == self.nodes@[i - 1]);
                if seen {
                    assert(pre[wit as int] == self.nodes@[wit as int]);
                    assert(pre[wit as int].spec_state_id() == idv);
                    assert(spec_has_id(pre, idv));
                } else {
                    assert forall|k: int| 0 <= k < pre.len() implies #[trigger] pre[
                        k
                    ].spec_state_id() != idv by {
                        assert(pre[k] == self.nodes@[k]);
                    }
                    assert(!spec_has_id(pre, idv));
                }
            }
            if !seen {
                count = count + 1;
            }
        }
        proof {
            assert(self.nodes@.take(n as int) =~= self.nodes@);
        }
        count
    }
}

/// Records execution steps and looks for revisited states.
#[derive(Debug)]
pub struct CycleDetector {
    path: Vec<ExecutionNode>,
}

impl CycleDetector {
    pub closed spec fn spec_path(self) -> Seq<ExecutionNode> {
        self.path@
    }

    /// A detector with no recorded steps.
    pub fn new() -> (d: CycleDetector)
        ensures
            d.spec_path() == Seq::<ExecutionNode>::empty(),
    {
        CycleDetector { path: Vec::new() }
    }

    /// Appends one execution step to the record.
    pub fn record_step(&mut self, node: ExecutionNode)
        ensures
            final(self).spec_path() == old(self).spec_path().push(node),
    {
        self.path.push(node);
    }

    /// The recorded execution path.
    pub fn path(&self) -> (r: &Vec<ExecutionNode>)
        ensures
            r@ == self.spec_path(),
    {
        &self.path
    }

    /// Forgets every recorded step.
    pub fn clear(&mut self)
        ensures
            final(self).spec_path() == Seq::<ExecutionNode>::empty(),
    {
        self.path = Vec::new();
    }

    /// The primary, repeat-state check: fires exactly when some state
    /// identifier occurs twice in the path. The reported cycle spans the
    /// first and the last occurrence of the earliest such state.
    pub fn detect_cycle_floyd(&self) -> (r: Option<Cycle>)
        ensures
            (r is Some) == spec_has_repeat(self.spec_path()),
            r is Some ==> exists|i: int, j: int|
                #[trigger] spec_repeat_span(self.spec_path(), i, j, r->Some_0),
    {
        let n = self.path.len();
        let mut i: usize = 0;
        while i < n
            invariant
                n == self.path@.len(),
                i <= n,
                forall|k: int| 0 <= k < i ==> !spec_has_later_dup(self.path@, k),
            decreases n - i,
        {
            // does state i recur later?
            let mut dup: bool = false;
            let mut j: usize = i + 1;
            let mut last: usize = i;
            while j < n
                invariant
                    i < j <= n,
                    n == self.path@.len(),
                    dup ==> i < last < n && self.path@[last as int].spec_state_id()
                        == self.path@[i as int].spec_state_id(),
                    dup == exists|l: int|
                        i < l < j && self.path@[l].spec_state_id() == self.path@[
                            i as int
                        ].spec_state_id(),
                    dup ==> forall|l: int|
                        last < l < j ==> self.path@[l].spec_state_id() != self.path@[
                            i as int
                        ].spec_state_id(),
                decreases n - j,
            {
                if str_eq(self.path[j].state_id.as_str(), self.path[i].state_id.as_str()) {
                    dup = true;
                    last = j;
                }
                j = j + 1;
            }
            if dup {
                let lo = self.path[i].step;
                let hi = self.path[last].step;
                let nodes = self.collect_in_range(lo, hi);
                let cyc = Cycle { nodes, detected_at_step: hi };
                let res = Some(cyc);
                proof {
                    assert(spec_repeat_span(
                        self.spec_path(),
                        i as int,
                        last as int,
                        res->Some_0,
                    ));
                    assert(spec_has_repeat(self.spec_path()));
                    assert(exists|a: int, b: int|
                        #[trigger] spec_repeat_span(self.spec_path(), a, b, res->Some_0));
                }
                return res;
            }
            i = i + 1;
        }
        proof {
            assert forall|a: int, b: int|
                !(0 <= a < b < self.path@.len() && self.path@[a].spec_state_id() == self.path@[
                    b
                ].spec_state_id()) by {
                if 0 <= a && a < b && b < self.path@.len() && self.path@[a].spec_state_id()
                    == self.path@[b].spec_state_id() {
                    assert(spec_has_later_dup(self.path@, a));
                }
            }
        }
        None
    }

    fn collect_in_range(&self, lo: u64, hi: u64) -> (r: Vec<ExecutionNode>)
        ensures
            r@ == spec_nodes_in_range(self.spec_path(), lo, hi),
    {
        let n = self.path.len();
        let mut r: Vec<ExecutionNode> = Vec::new();
        let mut i: usize = 0;
        while i < n
            invariant
                n == self.path@.len(),
                i <= n,
                r@ == spec_nodes_in_range(self.path@.take(i as int), lo, hi),
            decreases n - i,
        {
            let ghost pre = self.path@.take(i as int);
            if lo <= self.path[i].step && self.path[i].step <= hi {
                r.push(self.path[i].duplicate());
            }
            i = i + 1;
            proof {
                assert(self.path@.take(i as int).drop_last() =~= pre);
                assert(self.path@.take(i as int).last() == self.path@[i - 1]);
            }
        }
        proof {
            assert(self.path@.take(n as int) =~= self.path@);
        }
        r
    }

    /// The secondary check: fires exactly when the graph whose edges join
    /// consecutively recorded states has a strongly connected component of
    /// more than one vertex. Such a component exists exactly when some
    /// state returns after a different state intervened (`spec_multi_scc`),
    /// and the search looks for that witness directly. The reported cycle
    /// spans the first such return.
    pub fn detect_cycle_tarjan(&self) -> (r: Option<Cycle>)
        ensures
            (r is Some) == spec_multi_scc(self.spec_path()),
            r is Some ==> spec_has_repeat(self.spec_path()),
    {
        let n = self.path.len();
        let mut i: usize = 0;
        while i < n
            invariant
                n == self.path@.len(),
                i <= n,
                forall|a: int| 0 <= a < i ==> !(#[trigger] spec_mixed_return(self.path@, a)),
            decreases n - i,
        {
            let mut seen_diff = false;
            let mut kpos: usize = 0;
            let mut j: usize = i + 1;
            while j < n
                invariant
                    i < j <= n,
                    n == self.path@.len(),
                    seen_diff ==> i < kpos < j && self.path@[kpos as int].spec_state_id()
                        != self.path@[i as int].spec_state_id(),
                    !seen_diff ==> forall|l: int|
                        i < l < j ==> self.path@[l].spec_state_id() == self.path@[
                            i as int
                        ].spec_state_id(),
                    forall|k: int, jj: int|
                        #![trigger self.path@[k].spec_state_id(), self.path@[jj].spec_state_id()]
                        i < k < jj < j ==> !(self.path@[jj].spec_state_id() == self.path@[
                            i as int
                        ].spec_state_id() && self.path@[k].spec_state_id() != self.path@[
                            i as int
                        ].spec_state_id()),
                decreases n - j,
            {
                if str_eq(self.path[j].state_id.as_str(), self.path[i].state_id.as_str()) {
                    if seen_diff {
                        let lo = self.path[i].step;
                        let hi = self.path[j].step;
                        let nodes = self.collect_in_range(lo, hi);
                        let res = Some(Cycle { nodes, detected_at_step: hi });
                        proof {
                            assert(i < kpos < j < self.path@.len() && self.path@[
                                j as int
                            ].spec_state_id() == self.path@[i as int].spec_state_id()
                                && self.path@[kpos as int].spec_state_id() != self.path@[
                                i as int
                            ].spec_state_id());
                            assert(spec_mixed_return(self.path@, i as int));
                            assert(spec_multi_scc(self.path@));
                            assert(0 <= i < j < self.path@.len() && self.path@[
                                i as int
                            ].spec_state_id() == self.path@[j as int].spec_state_id());
                            assert(spec_has_repeat(self.path@));
                        }
                        return res;
                    }
                } else {
                    seen_diff = true;
                    kpos = j;
                }
                j = j + 1;
            }
            proof {
                assert(!spec_mixed_return(self.path@, i as int)) by {
                    if spec_mixed_return(self.path@, i as int) {
                        let (k, jj) = choose|k: int, jj: int|
                            #![trigger self.path@[k].spec_state_id(), self.path@[jj].spec_state_id()]
                            i < k < jj < self.path@.len() && self.path@[jj].spec_state_id()
                                == self.path@[i as int].spec_state_id() && self.path@[
                                k
                            ].spec_state_id() != self.path@[i as int].spec_state_id();
                        assert(false);
                    }
                }
            }
            i = i + 1;
        }
        proof {
            assert(!spec_multi_scc(self.path@)) by {
                if spec_multi_scc(self.path@) {
                    let a = choose|a: int|
                        0 <= a < self.path@.len() && #[trigger] spec_mixed_return(self.path@, a);
                    assert(false);
                }
            }
        }
        None
    }

    /// Runs the repeat-state check first and the component search second;
    /// fires exactly when some state identifier occurs twice.
    pub fn detect_cycle(&self) -> (r: Option<Cycle>)
        ensures
            (r is Some) == spec_has_repeat(self.spec_path()),
            r matches Some(c) ==> exists|i: int, j: int|
                #[trigger] spec_repeat_span(self.spec_path(), i, j, c),
    {
        let first = self.detect_cycle_floyd();
        match first {
            Some(c) => Some(c),
            None => {
                let second = self.detect_cycle_tarjan();
                proof {
                    if second is Some {
                        assert(spec_has_repeat(self.spec_path()));
                        assert(false);
                    }
                }
                second
            },
        }
    }
}

impl Default for CycleDetector {
    fn default() -> (d: CycleDetector)
        ensures
            d.spec_path() == Seq::<ExecutionNode>::empty(),
    {
        CycleDetector::new()
    }
}

} // verus!
