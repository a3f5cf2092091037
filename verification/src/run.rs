//! The per-run state machine: one status per node, readiness of nodes whose
//! predecessors are done, reconciliation of a resumed run with its persisted
//! artifacts, and the bookkeeping of one wave of results.
//!
//! Database reads and writes, file deletion and the scheduling of node work
//! happen outside the library; this module turns their plain results into
//! the next state.
use vstd::prelude::*;

use crate::table::FlowError;
use crate::text::str_eq;

verus! {

/// The status of one node, or of a whole run.
#[derive(Clone, Copy, Debug, PartialEq, Eq, Structural)]
pub enum WorkflowNodeStatusValue {
    WAITING,
    RUNNING,
    DONE,
    FAILED,
    CANCEL,
}

/// The database word for each status.
pub open spec fn spec_status_str(s: WorkflowNodeStatusValue) -> Seq<char> {
    match s {
        WorkflowNodeStatusValue::WAITING => "WAIT"@,
        WorkflowNodeStatusValue::RUNNING => "RUN"@,
        WorkflowNodeStatusValue::DONE => "DONE"@,
        WorkflowNodeStatusValue::FAILED => "FAIL"@,
        WorkflowNodeStatusValue::CANCEL => "CANCEL"@,
    }
}

impl WorkflowNodeStatusValue {
    /// The word the `run` table stores for this status.
    pub fn as_str(&self) -> (r: &'static str)
        ensures
            r@ == spec_status_str(*self),
    {
        match self {
            WorkflowNodeStatusValue::WAITING => "WAIT",
            WorkflowNodeStatusValue::RUNNING => "RUN",
            WorkflowNodeStatusValue::DONE => "DONE",
            WorkflowNodeStatusValue::FAILED => "FAIL",
            WorkflowNodeStatusValue::CANCEL => "CANCEL",
        }
    }
}

/// One edge of the workflow graph: the artifact of `source_node` feeds input
/// slot `target_slot` of `target_node`.
#[derive(Clone, Copy, Debug, PartialEq, Eq, Structural)]
pub struct WorkflowEdge {
    pub source_node: usize,
    pub target_node: usize,
    pub target_slot: usize,
}

/// The status of one node of a run.
#[derive(Clone, Debug)]
pub struct WorkflowNodeStatus {
    pub node_id: usize,
    pub status: WorkflowNodeStatusValue,
    pub uuid: String,
    pub is_output_node: bool,
    pub error: Option<String>,
}

/// The mathematical value of a node status.
#[verifier::ext_equal]
pub struct NodeStatusV {
    pub node_id: usize,
    pub status: WorkflowNodeStatusValue,
    pub uuid: Seq<char>,
    pub is_output_node: bool,
    pub error: Option<Seq<char>>,
}

impl View for WorkflowNodeStatus {
    type V = NodeStatusV;

    open spec fn view(&self) -> NodeStatusV {
        NodeStatusV {
            node_id: self.node_id,
            status: self.status,
            uuid: self.uuid@,
            is_output_node: self.is_output_node,
            error: crate::wiki_page::opt_str_view(self.error),
        }
    }
}

impl WorkflowNodeStatus {
    /// A fresh, waiting status for one node.
    pub fn new(node_id: usize) -> (r: Self)
        ensures
            r@ == fresh_status(node_id, false),
    {
        proof {
            reveal_strlit("");
        }
        WorkflowNodeStatus {
            node_id,
            status: WorkflowNodeStatusValue::WAITING,
            uuid: String::new(),
            is_output_node: false,
            error: None,
        }
    }

    /// Marks the node done and records its artifact.
    pub fn done_with_uuid(&mut self, uuid: &str)
        ensures
            final (self)@ == (NodeStatusV {
                status: WorkflowNodeStatusValue::DONE,
                uuid: uuid@,
                ..old(self)@
            }),
    {
        self.uuid = uuid.to_owned();
        self.status = WorkflowNodeStatusValue::DONE;
    }

    /// The node's artifact name.
    pub fn uuid(&self) -> (r: &str)
        ensures
            r@ == self@.uuid,
    {
        self.uuid.as_str()
    }

    /// Sets the node's status and error.
    pub fn set_status(&mut self, status: WorkflowNodeStatusValue, error: Option<String>)
        ensures
            final (self)@ == (NodeStatusV {
                status,
                error: crate::wiki_page::opt_str_view(error),
                ..old(self)@
            }),
    {
        self.status = status;
        self.error = error;
    }

    /// Whether the node has finished successfully.
    pub fn is_done(&self) -> (r: bool)
        ensures
            r == (self@.status == WorkflowNodeStatusValue::DONE),
    {
        matches!(self.status, WorkflowNodeStatusValue::DONE)
    }

    /// Whether the node still waits to run.
    pub fn is_waiting(&self) -> (r: bool)
        ensures
            r == (self@.status == WorkflowNodeStatusValue::WAITING),
    {
        matches!(self.status, WorkflowNodeStatusValue::WAITING)
    }

    /// Whether the node has failed.
    pub fn is_failed(&self) -> (r: bool)
        ensures
            r == (self@.status == WorkflowNodeStatusValue::FAILED),
    {
        matches!(self.status, WorkflowNodeStatusValue::FAILED)
    }
}

/// A fresh waiting status.
pub open spec fn fresh_status(node_id: usize, is_output: bool) -> NodeStatusV {
    NodeStatusV {
        node_id,
        status: WorkflowNodeStatusValue::WAITING,
        uuid: Seq::empty(),
        is_output_node: is_output,
        error: None,
    }
}

/// Whether node `id` has no outgoing edge: its artifact is a run result.
pub open spec fn is_output_id(edges: Seq<WorkflowEdge>, id: int) -> bool {
    forall|j: int| 0 <= j < edges.len() ==> (#[trigger] edges[j]).source_node != id
}

/// The fresh status vector of a run over `n` nodes.
pub open spec fn initial_statuses(n: nat, edges: Seq<WorkflowEdge>) -> Seq<NodeStatusV> {
    Seq::new(n, |i: int| fresh_status(i as usize, is_output_id(edges, i)))
}

/// Every edge's endpoints are nodes.
pub open spec fn edges_wf(edges: Seq<WorkflowEdge>, n: nat) -> bool {
    forall|j: int|
        0 <= j < edges.len() ==> (#[trigger] edges[j]).source_node < n && edges[j].target_node < n
}

/// Node `id` is ready: it waits, and every node feeding it is done.
pub open spec fn is_ready(statuses: Seq<NodeStatusV>, edges: Seq<WorkflowEdge>, id: int) -> bool {
    &&& 0 <= id < statuses.len()
    &&& statuses[id].status == WorkflowNodeStatusValue::WAITING
    &&& forall|j: int|
        0 <= j < edges.len() && (#[trigger] edges[j]).target_node == id ==> statuses[edges[j].source_node as int].status
            == WorkflowNodeStatusValue::DONE
}

/// The status vector of one run, with the edges it schedules by.
#[derive(Clone, Debug)]
pub struct WorkflowRun {
    pub workflow_id: usize,
    pub nodes_total: usize,
    pub id: Option<u64>,
    pub node_status: Vec<WorkflowNodeStatus>,
    pub edges: Vec<WorkflowEdge>,
}

/// The status views of a run.
pub open spec fn statuses_view(run: WorkflowRun) -> Seq<NodeStatusV> {
    run.node_status@.map_values(|s: WorkflowNodeStatus| s@)
}

/// The run's structural invariant: statuses are indexed by node id, and
/// edges stay inside the graph.
pub open spec fn run_wf(run: WorkflowRun) -> bool {
    &&& forall|i: int|
        0 <= i < statuses_view(run).len() ==> (#[trigger] statuses_view(run)[i]).node_id == i
    &&& edges_wf(run.edges@, statuses_view(run).len() as nat)
}

impl WorkflowRun {
    /// A fresh run over `n_nodes` nodes: every node waits, and the nodes
    /// with no outgoing edge are marked as output nodes.
    pub fn new_run(workflow_id: usize, n_nodes: usize, edges: Vec<WorkflowEdge>) -> (r: Self)
        requires
            edges_wf(edges@, n_nodes as nat),
        ensures
            statuses_view(r) == initial_statuses(n_nodes as nat, edges@),
            run_wf(r),
            r.edges@ == edges@,
            r.workflow_id == workflow_id,
            r.nodes_total == n_nodes,
            r.id is None,
    {
        let mut node_status: Vec<WorkflowNodeStatus> = Vec::new();
        let mut i: usize = 0;
        while i < n_nodes
            invariant
                i <= n_nodes,
                node_status@.len() == i,
                forall|x: int|
                    0 <= x < i ==> #[trigger] node_status@[x]@ == fresh_status(
                        x as usize,
                        is_output_id(edges@, x),
                    ),
            decreases n_nodes - i,
        {
            let mut s = WorkflowNodeStatus::new(i);
            // Output nodes are those no edge leaves.
            let mut is_output = true;
            let ne = edges.len();
            let mut j: usize = 0;
            while j < ne
                invariant
                    ne == edges@.len(),
                    j <= ne,
                    is_output == (forall|y: int|
                        0 <= y < j ==> (#[trigger] edges@[y]).source_node != i),
                decreases ne - j,
            {
                if edges[j].source_node == i {
                    proof {
                        assert(edges@[j as int].source_node == i);
                    }
                    is_output = false;
                }
                j = j + 1;
            }
            s.is_output_node = is_output;
            node_status.push(s);
            i = i + 1;
        }
        let r = WorkflowRun { workflow_id, nodes_total: n_nodes, id: None, node_status, edges };
        proof {
            assert forall|x: int| 0 <= x < n_nodes implies statuses_view(r)[x] == initial_statuses(
                n_nodes as nat,
                r.edges@,
            )[x] by {
                assert(statuses_view(r)[x] == r.node_status@[x]@);
            }
            assert(statuses_view(r) =~= initial_statuses(n_nodes as nat, r.edges@));
        }
        r
    }

    /// Remembers the run's database id.
    pub fn set_id(&mut self, id: u64)
        ensures
            *final (self) == (WorkflowRun { id: Some(id), ..*old(self) }),
    {
        self.id = Some(id);
    }

    /// The status of one node.
    pub fn get_node_status(&self, node_id: usize) -> (r: &WorkflowNodeStatus)
        requires
            node_id < statuses_view(*self).len(),
        ensures
            r@ == statuses_view(*self)[node_id as int],
    {
        proof {
            assert(statuses_view(*self)[node_id as int] == self.node_status@[node_id as int]@);
        }
        &self.node_status[node_id]
    }

    /// Whether `node_id` is an output node (unknown ids are not).
    pub fn is_output_node(&self, node_id: usize) -> (r: bool)
        ensures
            r == if node_id < statuses_view(*self).len() {
                statuses_view(*self)[node_id as int].is_output_node
            } else {
                false
            },
    {
        if node_id < self.node_status.len() {
            proof {
                assert(statuses_view(*self)[node_id as int] == self.node_status@[node_id as int]@);
            }
            self.node_status[node_id].is_output_node
        } else {
            false
        }
    }

    /// The ready nodes, in ascending order: every waiting node all of whose
    /// feeding nodes are done, and nothing else.
    pub fn get_next_nodes_to_run(&self) -> (r: Vec<usize>)
        requires
            run_wf(*self),
        ensures
            forall|x: int|
                0 <= x < r@.len() ==> is_ready(
                    statuses_view(*self),
                    self.edges@,
                    #[trigger] r@[x] as int,
                ),
            forall|id: int|
                0 <= id < statuses_view(*self).len() && is_ready(statuses_view(*self), self.edges@, id)
                    ==> r@.contains(id as usize),
            forall|x: int, y: int| 0 <= x < y < r@.len() ==> r@[x] < r@[y],
    {
        let mut r: Vec<usize> = Vec::new();
        let n = self.node_status.len();
        let mut i: usize = 0;
        while i < n
            invariant
                n == statuses_view(*self).len(),
                run_wf(*self),
                i <= n,
                forall|x: int|
                    0 <= x < r@.len() ==> is_ready(
                        statuses_view(*self),
                        self.edges@,
                        #[trigger] r@[x] as int,
                    ) && r@[x] < i,
                forall|id: int|
                    0 <= id < i && is_ready(statuses_view(*self), self.edges@, id) ==> r@.contains(
                        id as usize,
                    ),
                forall|x: int, y: int| 0 <= x < y < r@.len() ==> r@[x] < r@[y],
            decreases n - i,
        {
            proof {
                assert(statuses_view(*self)[i as int] == self.node_status@[i as int]@);
            }
            let waiting = self.node_status[i].is_waiting();
            if waiting {
                // All feeding nodes must be done.
                let mut all_done = true;
                let ne = self.edges.len();
                let mut j: usize = 0;
                while j < ne
                    invariant
                        ne == self.edges@.len(),
                        j <= ne,
                        n == statuses_view(*self).len(),
                        run_wf(*self),
                        i < n,
                        all_done == (forall|y: int|
                            0 <= y < j && (#[trigger] self.edges@[y]).target_node == i
                                ==> statuses_view(
                                *self,
                            )[self.edges@[y].source_node as int].status
                                == WorkflowNodeStatusValue::DONE),
                    decreases ne - j,
                {
                    let e = &self.edges[j];
                    proof {
                        assert(self.edges@[j as int] == *e);
                    }
                    if e.target_node == i {
                        proof {
                            assert(statuses_view(*self)[e.source_node as int]
                                == self.node_status@[e.source_node as int]@);
                        }
                        if !self.node_status[e.source_node].is_done() {
                            all_done = false;
                        }
                    }
                    j = j + 1;
                }
                if all_done {
                    let ghost prev = r@;
                    r.push(i);
                    proof {
                        assert(is_ready(statuses_view(*self), self.edges@, i as int));
                        assert forall|id: int|
                            0 <= id < i + 1 && is_ready(statuses_view(*self), self.edges@, id)
                                implies r@.contains(id as usize) by {
                            if id < i {
                                let w = choose|w: int| 0 <= w < prev.len() && prev[w] == id as usize;
                                assert(r@[w] == id as usize);
                            } else {
                                assert(r@[r@.len() - 1] == id as usize);
                            }
                        }
                    }
                }
            }
            i = i + 1;
        }
        r
    }

    /// Whether any node has failed.
    pub fn has_failed(&self) -> (r: bool)
        ensures
            r == exists|i: int|
                0 <= i < statuses_view(*self).len() && (#[trigger] statuses_view(*self)[i]).status
                    == WorkflowNodeStatusValue::FAILED,
    {
        let n = self.node_status.len();
        let mut i: usize = 0;
        while i < n
            invariant
                n == statuses_view(*self).len(),
                i <= n,
                forall|j: int|
                    0 <= j < i ==> (#[trigger] statuses_view(*self)[j]).status
                        != WorkflowNodeStatusValue::FAILED,
            decreases n - i,
        {
            proof {
                assert(statuses_view(*self)[i as int] == self.node_status@[i as int]@);
            }
            if self.node_status[i].is_failed() {
                return true;
            }
            i = i + 1;
        }
        false
    }

    /// Whether any node has completed (the run has produced something).
    pub fn has_completed_succesfully(&self) -> (r: bool)
        ensures
            r == exists|i: int|
                0 <= i < statuses_view(*self).len() && (#[trigger] statuses_view(*self)[i]).status
                    == WorkflowNodeStatusValue::DONE,
    {
        let n = self.node_status.len();
        let mut i: usize = 0;
        while i < n
            invariant
                n == statuses_view(*self).len(),
                i <= n,
                forall|j: int|
                    0 <= j < i ==> (#[trigger] statuses_view(*self)[j]).status
                        != WorkflowNodeStatusValue::DONE,
            decreases n - i,
        {
            proof {
                assert(statuses_view(*self)[i as int] == self.node_status@[i as int]@);
            }
            if self.node_status[i].is_done() {
                return true;
            }
            i = i + 1;
        }
        false
    }

    /// Whether the run has produced something or failed.
    pub fn has_ended(&self) -> (r: bool)
        ensures
            r == (exists|i: int|
                0 <= i < statuses_view(*self).len() && ((#[trigger] statuses_view(*self)[i]).status
                    == WorkflowNodeStatusValue::DONE || statuses_view(*self)[i].status
                    == WorkflowNodeStatusValue::FAILED)),
    {
        let done = self.has_completed_succesfully();
        if done {
            return true;
        }
        self.has_failed()
    }

    /// How many nodes are done.
    pub fn nodes_done(&self) -> (r: usize)
        ensures
            r as nat == count_done(statuses_view(*self)),
    {
        let n = self.node_status.len();
        let mut count: usize = 0;
        let mut i: usize = 0;
        while i < n
            invariant
                n == statuses_view(*self).len(),
                i <= n,
                count as nat == count_done(statuses_view(*self).take(i as int)),
                count <= i,
            decreases n - i,
        {
            proof {
                assert(statuses_view(*self)[i as int] == self.node_status@[i as int]@);
                assert(statuses_view(*self).take(i as int + 1).drop_last() =~= statuses_view(
                    *self,
                ).take(i as int));
                assert(statuses_view(*self).take(i as int + 1).last() == statuses_view(*self)[i as int]);
            }
            if self.node_status[i].is_done() {
                count = count + 1;
            }
            i = i + 1;
        }
        proof {
            assert(statuses_view(*self).take(n as int) =~= statuses_view(*self));
        }
        count
    }
}

/// How many statuses are DONE.
pub open spec fn count_done(statuses: Seq<NodeStatusV>) -> nat
    decreases statuses.len(),
{
    if statuses.len() == 0 {
        0
    } else {
        count_done(statuses.drop_last()) + if statuses.last().status
            == WorkflowNodeStatusValue::DONE {
            1nat
        } else {
            0nat
        }
    }
}

} // verus!

// ___________________________________________________________________________
// Resume reconciliation, waves, and the graph order.

verus! {

/// One persisted artifact row: the artifact's name and its node.
pub open spec fn file_rows_view(rows: Vec<(String, usize)>) -> Seq<(Seq<char>, usize)> {
    rows@.map_values(|p: (String, usize)| (p.0@, p.1))
}

/// The statuses after the persisted artifact rows are replayed: each named
/// node is done with its artifact; a later row for the same node wins.
pub open spec fn apply_rows(statuses: Seq<NodeStatusV>, rows: Seq<(Seq<char>, usize)>) -> Seq<
    NodeStatusV,
>
    decreases rows.len(),
{
    if rows.len() == 0 {
        statuses
    } else {
        let nid = rows[0].1 as int;
        let next = if 0 <= nid < statuses.len() {
            statuses.update(
                nid,
                NodeStatusV {
                    status: WorkflowNodeStatusValue::DONE,
                    uuid: rows[0].0,
                    error: None,
                    ..statuses[nid]
                },
            )
        } else {
            statuses
        };
        apply_rows(next, rows.drop_first())
    }
}

/// The last artifact row for node `i`, if any.
pub open spec fn last_row_for(rows: Seq<(Seq<char>, usize)>, i: int) -> Option<Seq<char>>
    decreases rows.len(),
{
    if rows.len() == 0 {
        None
    } else {
        match last_row_for(rows.drop_first(), i) {
            Some(u) => Some(u),
            None => if rows[0].1 == i {
                Some(rows[0].0)
            } else {
                None
            },
        }
    }
}

/// Replaying rows only turns nodes DONE, node by node: the result is the
/// prior status with the last row's artifact where one exists.
pub proof fn lemma_apply_rows_char(statuses: Seq<NodeStatusV>, rows: Seq<(Seq<char>, usize)>)
    ensures
        apply_rows(statuses, rows).len() == statuses.len(),
        forall|i: int|
            0 <= i < statuses.len() ==> #[trigger] apply_rows(statuses, rows)[i] == (
            match last_row_for(rows, i) {
                Some(u) => NodeStatusV {
                    status: WorkflowNodeStatusValue::DONE,
                    uuid: u,
                    error: None,
                    ..statuses[i]
                },
                None => statuses[i],
            }),
    decreases rows.len(),
{
    if rows.len() > 0 {
        let nid = rows[0].1 as int;
        let next = if 0 <= nid < statuses.len() {
            statuses.update(
                nid,
                NodeStatusV {
                    status: WorkflowNodeStatusValue::DONE,
                    uuid: rows[0].0,
                    error: None,
                    ..statuses[nid]
                },
            )
        } else {
            statuses
        };
        lemma_apply_rows_char(next, rows.drop_first());
    }
}

/// A reset node: waiting again, with no artifact and no error.
pub open spec fn reset_one(s: NodeStatusV) -> NodeStatusV {
    NodeStatusV {
        status: WorkflowNodeStatusValue::WAITING,
        uuid: Seq::empty(),
        error: None,
        ..s
    }
}

/// A done node some of whose feeding nodes are not done must run again.
pub open spec fn needs_reset(statuses: Seq<NodeStatusV>, edges: Seq<WorkflowEdge>, id: int) -> bool {
    &&& 0 <= id < statuses.len()
    &&& statuses[id].status == WorkflowNodeStatusValue::DONE
    &&& exists|j: int|
        0 <= j < edges.len() && (#[trigger] edges[j]).target_node == id
            && statuses[edges[j].source_node as int].status != WorkflowNodeStatusValue::DONE
}

/// Whether any node must run again.
pub open spec fn any_reset(statuses: Seq<NodeStatusV>, edges: Seq<WorkflowEdge>) -> bool {
    exists|id: int| needs_reset(statuses, edges, id)
}

/// One reconciliation round: every node that must run again is reset.
pub open spec fn reset_round(statuses: Seq<NodeStatusV>, edges: Seq<WorkflowEdge>) -> Seq<
    NodeStatusV,
> {
    Seq::new(
        statuses.len(),
        |i: int|
            if needs_reset(statuses, edges, i) {
                reset_one(statuses[i])
            } else {
                statuses[i]
            },
    )
}

proof fn lemma_count_done_pointwise(a: Seq<NodeStatusV>, b: Seq<NodeStatusV>, w: int)
    requires
        a.len() == b.len(),
        forall|i: int|
            0 <= i < b.len() && (#[trigger] b[i]).status == WorkflowNodeStatusValue::DONE
                ==> a[i].status == WorkflowNodeStatusValue::DONE,
    ensures
        count_done(b) <= count_done(a),
        (0 <= w < a.len() && a[w].status == WorkflowNodeStatusValue::DONE && b[w].status
            != WorkflowNodeStatusValue::DONE) ==> count_done(b) < count_done(a),
    decreases a.len(),
{
    if a.len() > 0 {
        let a1 = a.drop_last();
        let b1 = b.drop_last();
        assert(forall|i: int| 0 <= i < a1.len() ==> #[trigger] a1[i] == a[i]);
        assert(forall|i: int| 0 <= i < b1.len() ==> #[trigger] b1[i] == b[i]);
        if w < a.len() - 1 {
            lemma_count_done_pointwise(a1, b1, w);
        } else {
            lemma_count_done_pointwise(a1, b1, -1);
        }
        assert(a.last() == a[a.len() - 1]);
        assert(b.last() == b[a.len() - 1]);
    }
}

proof fn lemma_reset_round_decreases(statuses: Seq<NodeStatusV>, edges: Seq<WorkflowEdge>)
    requires
        any_reset(statuses, edges),
    ensures
        count_done(reset_round(statuses, edges)) < count_done(statuses),
{
    let w = choose|id: int| needs_reset(statuses, edges, id);
    lemma_count_done_pointwise(statuses, reset_round(statuses, edges), w);
}

/// The reconciled statuses: rounds of resets until no done node depends on
/// an undone one.
pub open spec fn reset_fix(statuses: Seq<NodeStatusV>, edges: Seq<WorkflowEdge>) -> Seq<
    NodeStatusV,
>
    decreases count_done(statuses),
    via reset_fix_decreases
{
    if any_reset(statuses, edges) {
        reset_fix(reset_round(statuses, edges), edges)
    } else {
        statuses
    }
}

#[via_fn]
proof fn reset_fix_decreases(statuses: Seq<NodeStatusV>, edges: Seq<WorkflowEdge>) {
    if any_reset(statuses, edges) {
        lemma_reset_round_decreases(statuses, edges);
    }
}

/// Reconciliation keeps every node either as it was or freshly reset, and
/// leaves no done node behind an undone one.
pub proof fn lemma_reset_fix_props(statuses: Seq<NodeStatusV>, edges: Seq<WorkflowEdge>)
    ensures
        reset_fix(statuses, edges).len() == statuses.len(),
        forall|i: int|
            0 <= i < statuses.len() ==> #[trigger] reset_fix(statuses, edges)[i] == statuses[i] || (
            statuses[i].status == WorkflowNodeStatusValue::DONE && reset_fix(statuses, edges)[i]
                == reset_one(statuses[i])),
        !any_reset(reset_fix(statuses, edges), edges),
    decreases count_done(statuses),
{
    if any_reset(statuses, edges) {
        lemma_reset_round_decreases(statuses, edges);
        let r = reset_round(statuses, edges);
        lemma_reset_fix_props(r, edges);
        assert forall|i: int| 0 <= i < statuses.len() implies #[trigger] reset_fix(
            statuses,
            edges,
        )[i] == statuses[i] || (statuses[i].status == WorkflowNodeStatusValue::DONE && reset_fix(
            statuses,
            edges,
        )[i] == reset_one(statuses[i])) by {
            assert(reset_fix(statuses, edges)[i] == reset_fix(r, edges)[i]);
            if r[i] == statuses[i] {
            } else {
                assert(r[i] == reset_one(statuses[i]));
                // A reset node is waiting; the next rounds leave it alone.
                assert(reset_fix(r, edges)[i] == r[i] || (r[i].status
                    == WorkflowNodeStatusValue::DONE && reset_fix(r, edges)[i] == reset_one(r[i])));
            }
        }
    }
}

impl WorkflowRun {
    /// Replays the persisted artifact rows of this run: each named node is
    /// done with its artifact. Fails with `Persistence` when a row names a
    /// node the run does not have.
    pub fn mark_done_from_files(&mut self, rows: &Vec<(String, usize)>) -> (r: Result<
        (),
        FlowError,
    >)
        requires
            run_wf(*old(self)),
        ensures
            final (self).edges@ == old(self).edges@,
            final (self).workflow_id == old(self).workflow_id,
            final (self).nodes_total == old(self).nodes_total,
            final (self).id == old(self).id,
            run_wf(*final (self)),
            match r {
                Ok(()) => {
                    &&& forall|j: int|
                        0 <= j < rows@.len() ==> (#[trigger] rows@[j]).1 < statuses_view(
                            *old(self),
                        ).len()
                    &&& statuses_view(*final (self)) == apply_rows(
                        statuses_view(*old(self)),
                        file_rows_view(*rows),
                    )
                },
                Err(FlowError::Persistence(_)) => exists|j: int|
                    0 <= j < rows@.len() && (#[trigger] rows@[j]).1 >= statuses_view(
                        *old(self),
                    ).len(),
                Err(_) => false,
            },
    {
        let n = rows.len();
        let mut i: usize = 0;
        proof {
            assert(file_rows_view(*rows).skip(0) =~= file_rows_view(*rows));
        }
        while i < n
            invariant
                n == rows@.len(),
                i <= n,
                run_wf(*self),
                self.edges@ == old(self).edges@,
                self.workflow_id == old(self).workflow_id,
                self.nodes_total == old(self).nodes_total,
                self.id == old(self).id,
                forall|j: int|
                    0 <= j < i ==> (#[trigger] rows@[j]).1 < statuses_view(*old(self)).len(),
                statuses_view(*self).len() == statuses_view(*old(self)).len(),
                apply_rows(statuses_view(*self), file_rows_view(*rows).skip(i as int)) == apply_rows(
                    statuses_view(*old(self)),
                    file_rows_view(*rows),
                ),
            decreases n - i,
    {
            proof {
                assert(file_rows_view(*rows).skip(i as int)[0] == (rows@[i as int].0@, rows@[i as int].1));
                assert(file_rows_view(*rows).skip(i as int).drop_first() =~= file_rows_view(
                    *rows,
                ).skip(i as int + 1));
            }
            let (uuid, node_id) = (&rows[i].0, rows[i].1);
            if node_id >= self.node_status.len() {
                proof {
                    assert(rows@[i as int].1 >= statuses_view(*old(self)).len());
                }
                return Err(FlowError::Persistence(uuid.clone()));
            }
            let ghost before = statuses_view(*self);
            let mut s = self.node_status[node_id].duplicate_status();
            s.uuid = uuid.clone();
            s.status = WorkflowNodeStatusValue::DONE;
            s.error = None;
            self.node_status.set(node_id, s);
            i = i + 1;
            proof {
                assert(statuses_view(*self) =~= before.update(
                    node_id as int,
                    NodeStatusV {
                        status: WorkflowNodeStatusValue::DONE,
                        uuid: rows@[i as int - 1].0@,
                        error: None,
                        ..before[node_id as int]
                    },
                )) by {
                    assert forall|x: int| 0 <= x < statuses_view(*self).len() implies statuses_view(
                        *self,
                    )[x] == before.update(
                        node_id as int,
                        NodeStatusV {
                            status: WorkflowNodeStatusValue::DONE,
                            uuid: rows@[i as int - 1].0@,
                            error: None,
                            ..before[node_id as int]
                        },
                    )[x] by {
                        assert(statuses_view(*self)[x] == self.node_status@[x]@);
                    }
                }
            }
        }
        proof {
            assert(file_rows_view(*rows).skip(n as int).len() == 0);
            assert(apply_rows(statuses_view(*self), file_rows_view(*rows).skip(n as int))
                == statuses_view(*self));
        }
        Ok(())
    }

    /// Resets every done node that depends on an undone one, to a fixpoint,
    /// and returns the artifact names of the reset nodes, to be deleted.
    pub fn reset_dependents(&mut self) -> (removed: Vec<String>)
        requires
            run_wf(*old(self)),
        ensures
            final (self).edges@ == old(self).edges@,
            final (self).workflow_id == old(self).workflow_id,
            final (self).nodes_total == old(self).nodes_total,
            final (self).id == old(self).id,
            run_wf(*final (self)),
            statuses_view(*final (self)) == reset_fix(statuses_view(*old(self)), old(self).edges@),
            forall|u: Seq<char>|
                #[trigger] crate::filter::contains_str(crate::text::strings_view(removed@), u)
                    <==> exists|i: int|
                    0 <= i < statuses_view(*old(self)).len() && #[trigger] statuses_view(
                        *final (self),
                    )[i] != statuses_view(*old(self))[i] && statuses_view(*old(self))[i].uuid == u,
    {
        let ghost a = statuses_view(*old(self));
        let ghost edges_v = old(self).edges@;
        // Snapshot which nodes are done now, and their artifacts: the rounds
        // below clear both.
        let n0 = self.node_status.len();
        let mut was_done: Vec<bool> = Vec::new();
        let mut old_uuids: Vec<String> = Vec::new();
        let mut i: usize = 0;
        while i < n0
            invariant
                n0 == statuses_view(*self).len(),
                statuses_view(*self) == a,
                i <= n0,
                was_done@.len() == i,
                old_uuids@.len() == i,
                forall|x: int|
                    0 <= x < i ==> #[trigger] was_done@[x] == (a[x].status
                        == WorkflowNodeStatusValue::DONE),
                forall|x: int| 0 <= x < i ==> (#[trigger] old_uuids@[x])@ == a[x].uuid,
            decreases n0 - i,
        {
            proof {
                assert(a[i as int] == self.node_status@[i as int]@);
            }
            was_done.push(self.node_status[i].is_done());
            old_uuids.push(self.node_status[i].uuid.clone());
            i = i + 1;
        }
        // Rounds of resets, to the fixpoint.
        loop
            invariant
                run_wf(*self),
                self.edges@ == edges_v,
                self.workflow_id == old(self).workflow_id,
                self.nodes_total == old(self).nodes_total,
                self.id == old(self).id,
                statuses_view(*self).len() == a.len(),
                reset_fix(statuses_view(*self), edges_v) == reset_fix(a, edges_v),
                forall|i: int|
                    0 <= i < a.len() ==> #[trigger] statuses_view(*self)[i] == a[i] || (a[i].status
                        == WorkflowNodeStatusValue::DONE && statuses_view(*self)[i] == reset_one(
                        a[i],
                    ) && statuses_view(*self)[i] != a[i]),
            ensures
                run_wf(*self),
                self.edges@ == edges_v,
                self.workflow_id == old(self).workflow_id,
                self.nodes_total == old(self).nodes_total,
                self.id == old(self).id,
                statuses_view(*self).len() == a.len(),
                statuses_view(*self) == reset_fix(a, edges_v),
                forall|i: int|
                    0 <= i < a.len() ==> #[trigger] statuses_view(*self)[i] == a[i] || (a[i].status
                        == WorkflowNodeStatusValue::DONE && statuses_view(*self)[i] == reset_one(
                        a[i],
                    ) && statuses_view(*self)[i] != a[i]),
            decreases count_done(statuses_view(*self)),
        {
            let ghost cur = statuses_view(*self);
            // Which nodes must run again?
            let mut to_reset: Vec<usize> = Vec::new();
            let n = self.node_status.len();
            let mut i: usize = 0;
            while i < n
                invariant
                    n == statuses_view(*self).len(),
                    i <= n,
                    run_wf(*self),
                    cur == statuses_view(*self),
                    forall|x: int|
                        0 <= x < to_reset@.len() ==> needs_reset(
                            cur,
                            self.edges@,
                            #[trigger] to_reset@[x] as int,
                        ) && to_reset@[x] < i,
                    forall|id: int|
                        0 <= id < i && needs_reset(cur, self.edges@, id) ==> to_reset@.contains(
                            id as usize,
                        ),
                    forall|x: int, y: int| 0 <= x < y < to_reset@.len() ==> to_reset@[x] < to_reset@[y],
                decreases n - i,
            {
                proof {
                    assert(cur[i as int] == self.node_status@[i as int]@);
                }
                if self.node_status[i].is_done() {
                    let mut undone_source = false;
                    let ne = self.edges.len();
                    let mut j: usize = 0;
                    while j < ne
                        invariant
                            ne == self.edges@.len(),
                            j <= ne,
                            n == statuses_view(*self).len(),
                            run_wf(*self),
                            cur == statuses_view(*self),
                            i < n,
                            undone_source == (exists|y: int|
                                0 <= y < j && (#[trigger] self.edges@[y]).target_node == i
                                    && cur[self.edges@[y].source_node as int].status
                                    != WorkflowNodeStatusValue::DONE),
                        decreases ne - j,
                    {
                        let e = &self.edges[j];
                        proof {
                            assert(self.edges@[j as int] == *e);
                        }
                        if e.target_node == i {
                            proof {
                                assert(cur[e.source_node as int]
                                    == self.node_status@[e.source_node as int]@);
                            }
                            if !self.node_status[e.source_node].is_done() {
                                proof {
                                    assert((self.edges@[j as int]).target_node == i
                                        && cur[self.edges@[j as int].source_node as int].status
                                        != WorkflowNodeStatusValue::DONE);
                                }
                                undone_source = true;
                            }
                        }
                        j = j + 1;
                    }
                    if undone_source {
                        let ghost prev = to_reset@;
                        to_reset.push(i);
                        proof {
                            assert(needs_reset(cur, self.edges@, i as int));
                            assert forall|id: int|
                                0 <= id < i + 1 && needs_reset(cur, self.edges@, id)
                                    implies to_reset@.contains(id as usize) by {
                                if id < i {
                                    let w = choose|w: int|
                                        0 <= w < prev.len() && prev[w] == id as usize;
                                    assert(to_reset@[w] == id as usize);
                                } else {
                                    assert(to_reset@[to_reset@.len() - 1] == id as usize);
                                }
                            }
                        }
                    }
                }
                i = i + 1;
            }
            if to_reset.len() == 0 {
                proof {
                    if any_reset(cur, self.edges@) {
                        let id = choose|id: int| needs_reset(cur, self.edges@, id);
                        assert(to_reset@.contains(id as usize));
                    }
                    // No resets pending: the fixpoint is reached.
                    assert(reset_fix(cur, edges_v) == cur);
                }
                break;
            }
            // Reset them all.
            proof {
                assert(needs_reset(cur, self.edges@, to_reset@[0] as int));
                lemma_reset_round_decreases(cur, self.edges@);
            }
            let m = to_reset.len();
            let mut x: usize = 0;
            while x < m
                invariant
                    m == to_reset@.len(),
                    x <= m,
                    run_wf(*self),
                    self.edges@ == edges_v,
                    self.workflow_id == old(self).workflow_id,
                    self.nodes_total == old(self).nodes_total,
                    self.id == old(self).id,
                    statuses_view(*self).len() == cur.len(),
                    cur.len() == a.len(),
                    forall|y: int|
                        0 <= y < m ==> needs_reset(cur, edges_v, #[trigger] to_reset@[y] as int),
                    forall|y1: int, y2: int|
                        0 <= y1 < y2 < m ==> to_reset@[y1] < to_reset@[y2],
                    forall|id: int|
                        0 <= id < cur.len() && needs_reset(cur, edges_v, id) ==> to_reset@.contains(
                            id as usize,
                        ),
                    // Nodes reset so far this round are reset; others as before.
                    forall|i: int|
                        0 <= i < cur.len() ==> #[trigger] statuses_view(*self)[i] == (
                        if exists|y: int| 0 <= y < x && to_reset@[y] == i as usize {
                            reset_one(cur[i])
                        } else {
                            cur[i]
                        }),
                    // The invariant facts about `a` for the outer loop.
                    forall|i: int|
                        0 <= i < a.len() ==> #[trigger] cur[i] == a[i] || (a[i].status
                            == WorkflowNodeStatusValue::DONE && cur[i] == reset_one(a[i])
                            && cur[i] != a[i]),
                    forall|i: int| 0 <= i < cur.len() ==> (#[trigger] cur[i]).node_id == i,
                decreases m - x,
            {
                let id = to_reset[x];
                proof {
                    assert(needs_reset(cur, edges_v, id as int));
                    assert(!(exists|y: int| 0 <= y < x && to_reset@[y] == id)) by {
                        if exists|y: int| 0 <= y < x && to_reset@[y] == id {
                            let y = choose|y: int| 0 <= y < x && to_reset@[y] == id;
                            assert(to_reset@[y] < to_reset@[x as int]);
                        }
                    }
                    assert(statuses_view(*self)[id as int] == cur[id as int]);
                    assert(cur[id as int].status == WorkflowNodeStatusValue::DONE);
                }
                let ghost before = statuses_view(*self);
                let mut s = self.node_status[id].duplicate_status();
                s.status = WorkflowNodeStatusValue::WAITING;
                s.error = None;
                s.uuid = String::new();
                self.node_status.set(id, s);
                x = x + 1;
                proof {
                    reveal_strlit("");
                    assert forall|i: int| 0 <= i < cur.len() implies #[trigger] statuses_view(
                        *self,
                    )[i] == (if exists|y: int| 0 <= y < x && to_reset@[y] == i as usize {
                        reset_one(cur[i])
                    } else {
                        cur[i]
                    }) by {
                        assert(statuses_view(*self)[i] == self.node_status@[i]@);
                        if i == id as int {
                            assert(to_reset@[x - 1] == i as usize);
                            assert(statuses_view(*self)[i] =~= reset_one(cur[i]));
                        } else {
                            assert(statuses_view(*self)[i] == before[i]);
                            if exists|y: int| 0 <= y < x && to_reset@[y] == i as usize {
                                let y = choose|y: int| 0 <= y < x && to_reset@[y] == i as usize;
                                assert(y < x - 1);
                            }
                        }
                    }
                    assert(run_wf(*self)) by {
                        assert forall|i: int| 0 <= i < statuses_view(*self).len() implies (
                        #[trigger] statuses_view(*self)[i]).node_id == i by {
                            assert(statuses_view(*self)[i] == (
                            if exists|y: int| 0 <= y < x && to_reset@[y] == i as usize {
                                reset_one(cur[i])
                            } else {
                                cur[i]
                            }));
                            assert(cur[i].node_id == i);
                        }
                    }
                }
            }
            proof {
                // One full round happened: the statuses now equal
                // reset_round(cur), and the fixpoint is unchanged.
                assert(statuses_view(*self) =~= reset_round(cur, edges_v)) by {
                    assert forall|i: int| 0 <= i < cur.len() implies statuses_view(*self)[i]
                        == reset_round(cur, edges_v)[i] by {
                        if needs_reset(cur, edges_v, i) {
                            assert(to_reset@.contains(i as usize));
                            let y = choose|y: int| 0 <= y < m && to_reset@[y] == i as usize;
                            assert(statuses_view(*self)[i] == reset_one(cur[i]));
                        } else {
                            if exists|y: int| 0 <= y < m && to_reset@[y] == i as usize {
                                let y = choose|y: int| 0 <= y < m && to_reset@[y] == i as usize;
                                assert(needs_reset(cur, edges_v, to_reset@[y] as int));
                            }
                            assert(statuses_view(*self)[i] == cur[i]);
                        }
                    }
                }
                assert(any_reset(cur, edges_v)) by {
                    assert(needs_reset(cur, edges_v, to_reset@[0] as int));
                }
                assert(reset_fix(statuses_view(*self), edges_v) == reset_fix(a, edges_v));
                // Every node reset this round was DONE; carry the a-facts on.
                assert forall|i: int| 0 <= i < a.len() implies #[trigger] statuses_view(*self)[i]
                    == a[i] || (a[i].status == WorkflowNodeStatusValue::DONE && statuses_view(
                    *self,
                )[i] == reset_one(a[i]) && statuses_view(*self)[i] != a[i]) by {
                    if needs_reset(cur, edges_v, i) {
                        assert(cur[i] == a[i]);
                        assert(statuses_view(*self)[i] == reset_one(a[i]));
                    }
                }
            }
        }
        // Collect the artifacts of the reset nodes.
        let ghost fin = statuses_view(*self);
        let mut removed: Vec<String> = Vec::new();
        let mut i: usize = 0;
        while i < n0
            invariant
                n0 == statuses_view(*self).len(),
                n0 == a.len(),
                fin == statuses_view(*self),
                i <= n0,
                was_done@.len() == n0,
                old_uuids@.len() == n0,
                forall|x: int|
                    0 <= x < n0 ==> #[trigger] was_done@[x] == (a[x].status
                        == WorkflowNodeStatusValue::DONE),
                forall|x: int| 0 <= x < n0 ==> (#[trigger] old_uuids@[x])@ == a[x].uuid,
                forall|x: int|
                    0 <= x < n0 ==> #[trigger] fin[x] == a[x] || (a[x].status
                        == WorkflowNodeStatusValue::DONE && fin[x] == reset_one(a[x]) && fin[x]
                        != a[x]),
                forall|u: Seq<char>|
                    #[trigger] crate::filter::contains_str(crate::text::strings_view(removed@), u)
                        <==> exists|x: int|
                        0 <= x < i && #[trigger] fin[x] != a[x] && a[x].uuid == u,
            decreases n0 - i,
        {
            proof {
                assert(fin[i as int] == self.node_status@[i as int]@);
            }
            let changed = was_done[i] && self.node_status[i].is_waiting();
            proof {
                // A node changed iff it was done and is now waiting again.
                if fin[i as int] != a[i as int] {
                    assert(fin[i as int] == reset_one(a[i as int]));
                }
                assert(changed == (fin[i as int] != a[i as int]));
            }
            if changed {
                let ghost prev = crate::text::strings_view(removed@);
                removed.push(old_uuids[i].clone());
                proof {
                    assert(crate::text::strings_view(removed@) =~= prev.push(a[i as int].uuid));
                    assert forall|u: Seq<char>|
                        #[trigger] crate::filter::contains_str(
                            crate::text::strings_view(removed@),
                            u,
                        ) <==> exists|x: int|
                        0 <= x < i + 1 && #[trigger] fin[x] != a[x] && a[x].uuid == u by {
                        let rv = crate::text::strings_view(removed@);
                        if crate::filter::contains_str(rv, u) {
                            let w = choose|w: int| 0 <= w < rv.len() && rv[w] == u;
                            if w < rv.len() - 1 {
                                assert(prev[w] == u);
                                assert(crate::filter::contains_str(prev, u));
                                let x = choose|x: int|
                                    0 <= x < i && #[trigger] fin[x] != a[x] && a[x].uuid == u;
                                assert(0 <= x < i + 1 && fin[x] != a[x] && a[x].uuid == u);
                            } else {
                                assert(fin[i as int] != a[i as int] && a[i as int].uuid == u);
                                assert(0 <= (i as int) && (i as int) < i + 1 && fin[i as int]
                                    != a[i as int] && a[i as int].uuid == u);
                            }
                        }
                        if exists|x: int| 0 <= x < i + 1 && #[trigger] fin[x] != a[x] && a[x].uuid
                            == u {
                            let x = choose|x: int|
                                0 <= x < i + 1 && #[trigger] fin[x] != a[x] && a[x].uuid == u;
                            if x < i {
                                assert(crate::filter::contains_str(prev, u));
                                let w = choose|w: int| 0 <= w < prev.len() && prev[w] == u;
                                assert(rv[w] == u);
                            } else {
                                assert(rv[rv.len() - 1] == u);
                            }
                        }
                    }
                }
            } else {
                proof {
                    assert(fin[i as int] == a[i as int]);
                    assert forall|u: Seq<char>|
                        #[trigger] crate::filter::contains_str(
                            crate::text::strings_view(removed@),
                            u,
                        ) implies exists|x: int|
                        0 <= x < i + 1 && #[trigger] fin[x] != a[x] && a[x].uuid == u by {
                        let x = choose|x: int|
                            0 <= x < i && #[trigger] fin[x] != a[x] && a[x].uuid == u;
                        assert(0 <= x < i + 1 && fin[x] != a[x] && a[x].uuid == u);
                    }
                    assert forall|u: Seq<char>|
                        (exists|x: int|
                            0 <= x < i + 1 && #[trigger] fin[x] != a[x] && a[x].uuid == u)
                            implies #[trigger] crate::filter::contains_str(
                            crate::text::strings_view(removed@),
                            u,
                        ) by {
                        let x = choose|x: int|
                            0 <= x < i + 1 && #[trigger] fin[x] != a[x] && a[x].uuid == u;
                        assert(x < i);
                        assert(exists|x: int|
                            0 <= x < i && #[trigger] fin[x] != a[x] && a[x].uuid == u);
                    }
                }
            }
            i = i + 1;
        }
        removed
    }
}

impl WorkflowNodeStatus {
    /// A field-for-field copy of this status.
    pub fn duplicate_status(&self) -> (r: Self)
        ensures
            r@ == self@,
    {
        WorkflowNodeStatus {
            node_id: self.node_id,
            status: self.status,
            uuid: self.uuid.clone(),
            is_output_node: self.is_output_node,
            error: match &self.error {
                Some(e) => Some(e.clone()),
                None => None,
            },
        }
    }
}

} // verus!

// ___________________________________________________________________________
// Waves, graph order, and the resume laws.

verus! {

impl WorkflowRun {
    /// Records one node's wave outcome: done on success, failed with its
    /// error otherwise.
    pub fn record_result(&mut self, node_id: usize, ok: bool, error: Option<String>)
        requires
            run_wf(*old(self)),
            node_id < statuses_view(*old(self)).len(),
        ensures
            run_wf(*final (self)),
            final (self).edges@ == old(self).edges@,
            final (self).workflow_id == old(self).workflow_id,
            final (self).nodes_total == old(self).nodes_total,
            final (self).id == old(self).id,
            statuses_view(*final (self)) == statuses_view(*old(self)).update(
                node_id as int,
                NodeStatusV {
                    status: if ok {
                        WorkflowNodeStatusValue::DONE
                    } else {
                        WorkflowNodeStatusValue::FAILED
                    },
                    error: crate::wiki_page::opt_str_view(error),
                    ..statuses_view(*old(self))[node_id as int]
                },
            ),
    {
        let mut s = self.node_status[node_id].duplicate_status();
        s.status = if ok {
            WorkflowNodeStatusValue::DONE
        } else {
            WorkflowNodeStatusValue::FAILED
        };
        s.error = error;
        self.node_status.set(node_id, s);
        proof {
            assert forall|x: int| 0 <= x < statuses_view(*self).len() implies statuses_view(
                *self,
            )[x] == statuses_view(*old(self)).update(
                node_id as int,
                NodeStatusV {
                    status: if ok {
                        WorkflowNodeStatusValue::DONE
                    } else {
                        WorkflowNodeStatusValue::FAILED
                    },
                    error: crate::wiki_page::opt_str_view(error),
                    ..statuses_view(*old(self))[node_id as int]
                },
            )[x] by {
                assert(statuses_view(*self)[x] == self.node_status@[x]@);
                assert(statuses_view(*old(self))[x] == old(self).node_status@[x]@);
            }
            assert(statuses_view(*self) =~= statuses_view(*old(self)).update(
                node_id as int,
                NodeStatusV {
                    status: if ok {
                        WorkflowNodeStatusValue::DONE
                    } else {
                        WorkflowNodeStatusValue::FAILED
                    },
                    error: crate::wiki_page::opt_str_view(error),
                    ..statuses_view(*old(self))[node_id as int]
                },
            ));
        }
    }

    /// Records a completed node's artifact.
    pub fn set_done_with_uuid(&mut self, node_id: usize, uuid: &str)
        requires
            run_wf(*old(self)),
            node_id < statuses_view(*old(self)).len(),
        ensures
            run_wf(*final (self)),
            final (self).edges@ == old(self).edges@,
            final (self).workflow_id == old(self).workflow_id,
            final (self).nodes_total == old(self).nodes_total,
            final (self).id == old(self).id,
            statuses_view(*final (self)) == statuses_view(*old(self)).update(
                node_id as int,
                NodeStatusV {
                    status: WorkflowNodeStatusValue::DONE,
                    uuid: uuid@,
                    ..statuses_view(*old(self))[node_id as int]
                },
            ),
    {
        let mut s = self.node_status[node_id].duplicate_status();
        s.status = WorkflowNodeStatusValue::DONE;
        s.uuid = uuid.to_owned();
        self.node_status.set(node_id, s);
        proof {
            assert forall|x: int| 0 <= x < statuses_view(*self).len() implies statuses_view(
                *self,
            )[x] == statuses_view(*old(self)).update(
                node_id as int,
                NodeStatusV {
                    status: WorkflowNodeStatusValue::DONE,
                    uuid: uuid@,
                    ..statuses_view(*old(self))[node_id as int]
                },
            )[x] by {
                assert(statuses_view(*self)[x] == self.node_status@[x]@);
                assert(statuses_view(*old(self))[x] == old(self).node_status@[x]@);
            }
            assert(statuses_view(*self) =~= statuses_view(*old(self)).update(
                node_id as int,
                NodeStatusV {
                    status: WorkflowNodeStatusValue::DONE,
                    uuid: uuid@,
                    ..statuses_view(*old(self))[node_id as int]
                },
            ));
        }
    }
}

/// Between waves the set of done nodes strictly grows, or the run ends:
/// when a non-empty wave of ready nodes all succeed, every previously done
/// node is still done and at least one more is.
pub proof fn lemma_wave_monotonic(
    before: Seq<NodeStatusV>,
    after: Seq<NodeStatusV>,
    ready: Seq<usize>,
)
    requires
        before.len() <= usize::MAX,
        before.len() == after.len(),
        ready.len() > 0,
        forall|x: int|
            0 <= x < ready.len() ==> (#[trigger] ready[x]) < before.len()
                && before[ready[x] as int].status == WorkflowNodeStatusValue::WAITING,
        forall|x: int|
            0 <= x < ready.len() ==> after[(#[trigger] ready[x]) as int].status
                == WorkflowNodeStatusValue::DONE,
        forall|i: int|
            0 <= i < before.len() && !(exists|x: int| 0 <= x < ready.len() && #[trigger] ready[x]
                == i as usize) ==> after[i] == before[i],
    ensures
        forall|i: int|
            0 <= i < before.len() && (#[trigger] before[i]).status == WorkflowNodeStatusValue::DONE
                ==> after[i].status == WorkflowNodeStatusValue::DONE,
        exists|i: int|
            0 <= i < after.len() && (#[trigger] after[i]).status == WorkflowNodeStatusValue::DONE
                && before[i].status != WorkflowNodeStatusValue::DONE,
{
    assert forall|i: int|
        0 <= i < before.len() && (#[trigger] before[i]).status == WorkflowNodeStatusValue::DONE
            implies after[i].status == WorkflowNodeStatusValue::DONE by {
        if exists|x: int| 0 <= x < ready.len() && #[trigger] ready[x] == i as usize {
            let x = choose|x: int| 0 <= x < ready.len() && #[trigger] ready[x] == i as usize;
            assert(ready[x] as int == i);
            assert(before[ready[x] as int].status == WorkflowNodeStatusValue::WAITING);
            assert(before[i].status == WorkflowNodeStatusValue::WAITING);
        } else {
            assert(after[i] == before[i]);
        }
    }
    let w = ready[0] as int;
    assert(after[w].status == WorkflowNodeStatusValue::DONE && before[w].status
        != WorkflowNodeStatusValue::DONE);
}

/// A topological order: a permutation of the node ids in which every edge
/// points forward.
pub open spec fn is_topo_order(order: Seq<usize>, n: nat, edges: Seq<WorkflowEdge>) -> bool {
    &&& order.len() == n
    &&& forall|x: int| 0 <= x < order.len() ==> (#[trigger] order[x]) < n
    &&& forall|x: int, y: int| 0 <= x < y < order.len() ==> order[x] != order[y]
    &&& forall|j: int, x: int, y: int|
        0 <= j < edges.len() && 0 <= x < order.len() && 0 <= y < order.len() && (
        #[trigger] edges[j]).source_node == #[trigger] order[x] && edges[j].target_node
            == #[trigger] order[y] ==> x < y
}

/// A witness that the workflow graph is acyclic: a topological order of its
/// nodes, when one exists. Every run of an acyclic workflow can thus be
/// scheduled wave by wave.
pub fn topological_order(n: usize, edges: &Vec<WorkflowEdge>) -> (r: Option<Vec<usize>>)
    requires
        edges_wf(edges@, n as nat),
    ensures
        match r {
            Some(o) => is_topo_order(o@, n as nat, edges@),
            None => true,
        },
{
    let mut out: Vec<usize> = Vec::new();
    let mut placed: Vec<bool> = Vec::new();
    let mut i: usize = 0;
    while i < n
        invariant
            i <= n,
            placed@.len() == i,
            forall|x: int| 0 <= x < i ==> !(#[trigger] placed@[x]),
        decreases n - i,
    {
        placed.push(false);
        i = i + 1;
    }
    let mut round: usize = 0;
    while round < n
        invariant
            round <= n,
            placed@.len() == n,
            edges_wf(edges@, n as nat),
            out@.len() == round,
            forall|x: int| 0 <= x < out@.len() ==> (#[trigger] out@[x]) < n,
            forall|x: int, y: int| 0 <= x < y < out@.len() ==> out@[x] != out@[y],
            forall|id: int|
                0 <= id < n ==> (#[trigger] placed@[id] <==> exists|x: int|
                    0 <= x < out@.len() && out@[x] == id as usize),
            forall|j: int, y: int|
                0 <= j < edges@.len() && 0 <= y < out@.len() && (#[trigger] edges@[j]).target_node
                    == #[trigger] out@[y] ==> exists|x: int|
                    0 <= x < y && out@[x] == edges@[j].source_node,
        decreases n - round,
    {
        // Find an unplaced node all of whose feeding nodes are placed.
        let mut found: Option<usize> = None;
        let mut cand: usize = 0;
        while cand < n
            invariant_except_break
                found is None,
            invariant
                cand <= n,
                placed@.len() == n,
                edges_wf(edges@, n as nat),
            ensures
                match found {
                    Some(id) => id < n && !placed@[id as int] && forall|y: int|
                        0 <= y < edges@.len() && (#[trigger] edges@[y]).target_node == id
                            ==> placed@[edges@[y].source_node as int],
                    None => true,
                },
            decreases n - cand,
        {
            if !placed[cand] {
                let mut all_in = true;
                let ne = edges.len();
                let mut j: usize = 0;
                while j < ne
                    invariant
                        ne == edges@.len(),
                        j <= ne,
                        cand < n,
                        placed@.len() == n,
                        edges_wf(edges@, n as nat),
                        all_in == (forall|y: int|
                            0 <= y < j && (#[trigger] edges@[y]).target_node == cand
                                ==> placed@[edges@[y].source_node as int]),
                    decreases ne - j,
                {
                    let e = &edges[j];
                    proof {
                        assert(edges@[j as int] == *e);
                    }
                    if e.target_node == cand {
                        if !placed[e.source_node] {
                            all_in = false;
                        }
                    }
                    j = j + 1;
                }
                if all_in {
                    found = Some(cand);
                    break ;
                }

            }
            cand = cand + 1;
        }
        match found {
            Some(id) => {
                proof {
                    assert(!placed@[id as int]);
                }
                let ghost prev = out@;
                out.push(id);
                placed.set(id, true);
                round = round + 1;
                proof {
                    assert forall|node: int| 0 <= node < n implies (#[trigger] placed@[node] <==>
                        exists|x: int| 0 <= x < out@.len() && out@[x] == node as usize) by {
                        if node == id as int {
                            assert(out@[out@.len() - 1] == node as usize);
                        } else {
                            if placed@[node] {
                                let x = choose|x: int|
                                    0 <= x < prev.len() && prev[x] == node as usize;
                                assert(out@[x] == node as usize);
                            }
                            if exists|x: int| 0 <= x < out@.len() && out@[x] == node as usize {
                                let x = choose|x: int|
                                    0 <= x < out@.len() && out@[x] == node as usize;
                                assert(x < out@.len() - 1);
                                assert(prev[x] == node as usize);
                            }
                        }
                    }
                    assert forall|x: int, y: int| 0 <= x < y < out@.len() implies out@[x]
                        != out@[y] by {
                        if y == out@.len() - 1 {
                            // A placed node never equals the fresh one.
                            assert(prev[x] == out@[x]);
                            if out@[x] == id {
                                assert(placed@[id as int]);
                            }
                        }
                    }
                    assert forall|j: int, y: int|
                        0 <= j < edges@.len() && 0 <= y < out@.len() && (
                        #[trigger] edges@[j]).target_node == #[trigger] out@[y] implies exists|
                        x: int,
                    | 0 <= x < y && out@[x] == edges@[j].source_node by {
                        if y == out@.len() - 1 {
                            // The fresh node's feeding nodes were all placed.
                            assert(placed@.len() == n);
                            let src = edges@[j].source_node;
                            if src == id {
                                assert(placed@[src as int]);
                                let x = choose|x: int|
                                    0 <= x < out@.len() && out@[x] == src as usize;
                                assert(x < y);
                            } else {
                                let x = choose|x: int|
                                    0 <= x < prev.len() && prev[x] == src as usize;
                                assert(out@[x] == src as usize);
                            }
                        } else {
                            let x = choose|x: int| 0 <= x < y && prev[x] == edges@[j].source_node;
                            assert(out@[x] == edges@[j].source_node);
                        }
                    }
                }
            },
            None => {
                return None;
            },
        }
    }
    proof {
        assert forall|j: int, x: int, y: int|
            0 <= j < edges@.len() && 0 <= x < out@.len() && 0 <= y < out@.len() && (
            #[trigger] edges@[j]).source_node == #[trigger] out@[x] && edges@[j].target_node
                == #[trigger] out@[y] implies x < y by {
            let w = choose|w: int| 0 <= w < y && out@[w] == edges@[j].source_node;
            if x != w {
                assert(out@[x] != out@[w] || x == w) by {
                    if x < w {
                        assert(out@[x] != out@[w]);
                    } else if w < x {
                        assert(out@[w] != out@[x]);
                    }
                }
                assert(false);
            }
        }
    }
    Some(out)
}

/// Loading a run twice produces the same status vector: replaying the file
/// rows that survive the first reconciliation (the reset nodes' artifacts
/// are deleted) reconciles to the same statuses, with nothing to reset.
pub proof fn lemma_resume_deterministic(
    n: nat,
    edges: Seq<WorkflowEdge>,
    rows: Seq<(Seq<char>, usize)>,
)
    requires
        n <= usize::MAX,
    ensures
        ({
            let first = reset_fix(apply_rows(initial_statuses(n, edges), rows), edges);
            let surviving = rows.filter(
                |p: (Seq<char>, usize)|
                    p.1 < n && first[p.1 as int].status == WorkflowNodeStatusValue::DONE,
            );
            reset_fix(apply_rows(initial_statuses(n, edges), surviving), edges) == first
        }),
{
    let init = initial_statuses(n, edges);
    let a = apply_rows(init, rows);
    let first = reset_fix(a, edges);
    let keep = |p: (Seq<char>, usize)|
        p.1 < n && first[p.1 as int].status == WorkflowNodeStatusValue::DONE;
    let surviving = rows.filter(keep);
    let a2 = apply_rows(init, surviving);
    lemma_apply_rows_char(init, rows);
    lemma_apply_rows_char(init, surviving);
    lemma_reset_fix_props(a, edges);
    // The second replay reproduces the reconciled vector node by node.
    assert forall|i: int| 0 <= i < n implies a2[i] == first[i] by {
        lemma_last_row_filter(rows, keep, i);
        if first[i].status == WorkflowNodeStatusValue::DONE {
            // Not reset: the first pass kept the node done, so its rows
            // survive and the same last row wins.
            assert(first[i] == a[i] || first[i] == reset_one(a[i]));
            assert(first[i] == a[i]);
            assert(exists|p: (Seq<char>, usize)| #[trigger] keep(p) && p.1 == i) by {
                let w: (Seq<char>, usize) = (Seq::empty(), i as usize);
                assert(keep(w) && w.1 == i);
            }
            assert(last_row_for(surviving, i) == last_row_for(rows, i));
        } else {
            // Reset or never done: the node has no surviving rows, and the
            // reconciled status is exactly the fresh one.
            assert(!(exists|p: (Seq<char>, usize)| #[trigger] keep(p) && p.1 == i)) by {
                if exists|p: (Seq<char>, usize)| #[trigger] keep(p) && p.1 == i {
                    let p = choose|p: (Seq<char>, usize)| #[trigger] keep(p) && p.1 == i;
                }
            }
            assert(last_row_for(surviving, i) is None);
            if first[i] == a[i] {
                if last_row_for(rows, i) is Some {
                    assert(a[i].status == WorkflowNodeStatusValue::DONE);
                }
                assert(a[i] == init[i]);
            } else {
                assert(first[i] == reset_one(a[i]));
                assert(a2[i] == init[i]);
                assert(init[i] =~= reset_one(a[i]));
            }
        }
    }
    assert(a2 =~= first);
    // The reconciled vector has nothing left to reset, so the second
    // reconciliation is the identity.
    assert(reset_fix(a2, edges) == first);
}

/// Filtering rows by node keeps a kept node's last row and drops all rows
/// of a dropped node.
proof fn lemma_last_row_filter(
    rows: Seq<(Seq<char>, usize)>,
    keep: spec_fn((Seq<char>, usize)) -> bool,
    i: int,
)
    requires
        forall|p: (Seq<char>, usize), q: (Seq<char>, usize)|
            p.1 == q.1 ==> (#[trigger] keep(p) <==> #[trigger] keep(q)),
    ensures
        ({
            let kept_i = exists|p: (Seq<char>, usize)| #[trigger] keep(p) && p.1 == i;
            if kept_i {
                last_row_for(rows.filter(keep), i) == last_row_for(rows, i)
            } else {
                last_row_for(rows.filter(keep), i) is None
            }
        }),
    decreases rows.len(),
{
    reveal(Seq::filter);
    let kept_i = exists|p: (Seq<char>, usize)| #[trigger] keep(p) && p.1 == i;
    if rows.len() == 0 {
    } else {
        let dl = rows.drop_last();
        lemma_last_row_filter(dl, keep, i);
        let x = rows.last();
        assert(rows =~= dl.push(x));
        lemma_last_row_snoc(dl, x, i);
        if keep(x) {
            assert(rows.filter(keep) == dl.filter(keep).push(x));
            lemma_last_row_snoc(dl.filter(keep), x, i);
            if x.1 == i {
                assert(kept_i) by {
                    assert(keep(x) && x.1 == i);
                }
                assert(last_row_for(rows.filter(keep), i) == Some(x.0));
                assert(last_row_for(rows, i) == Some(x.0));
            } else {
                assert(last_row_for(rows.filter(keep), i) == last_row_for(dl.filter(keep), i));
                assert(last_row_for(rows, i) == last_row_for(dl, i));
            }
        } else {
            assert(rows.filter(keep) == dl.filter(keep));
            if x.1 == i {
                // The whole node is dropped.
                assert(!kept_i) by {
                    if exists|p: (Seq<char>, usize)| #[trigger] keep(p) && p.1 == i {
                        let p = choose|p: (Seq<char>, usize)| #[trigger] keep(p) && p.1 == i;
                        assert(keep(x));
                    }
                }
            } else {
                assert(last_row_for(rows, i) == last_row_for(dl, i));
            }
        }
    }
}

/// Reading the last row of a sequence extended by one entry.
proof fn lemma_last_row_snoc(rows: Seq<(Seq<char>, usize)>, x: (Seq<char>, usize), i: int)
    ensures
        last_row_for(rows.push(x), i) == (if x.1 == i {
            Some(x.0)
        } else {
            last_row_for(rows, i)
        }),
    decreases rows.len(),
{
    let whole = rows.push(x);
    if rows.len() == 0 {
        assert(whole.drop_first() =~= Seq::<(Seq<char>, usize)>::empty());
    } else {
        assert(whole.drop_first() =~= rows.drop_first().push(x));
        lemma_last_row_snoc(rows.drop_first(), x, i);
        assert(whole[0] == rows[0]);
    }
}

} // verus!
