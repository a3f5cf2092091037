//! A workflow: its nodes, its edges, and the run that executes it. The
//! caller loads the workflow (its stored form lives in the database), then
//! drives the run wave by wave: ready nodes, their planned actions, their
//! results.
use vstd::prelude::*;

use crate::node::WorkflowNode;
use crate::run::{
    edges_wf, is_topo_order, run_wf, statuses_view, topological_order, WorkflowEdge, WorkflowRun,
};
use crate::text::str_eq;

verus! {

/// Whether a stored workflow is editable or published.
#[derive(Clone, Copy, Debug, PartialEq, Eq, Structural)]
pub enum WorkflowState {
    DRAFT,
    PUBLISHED,
}

impl Default for WorkflowState {
    /// A fresh workflow is a draft.
    fn default() -> (r: Self)
        ensures
            r == WorkflowState::DRAFT,
    {
        WorkflowState::DRAFT
    }
}

impl WorkflowState {
    /// Reads a state from its database word.
    pub fn from_str(s: &str) -> (r: Option<WorkflowState>)
        ensures
            r == Some(WorkflowState::DRAFT) <==> s@ == "DRAFT"@,
            r == Some(WorkflowState::PUBLISHED) <==> s@ == "PUBLISHED"@,
            r is None <==> (s@ != "DRAFT"@ && s@ != "PUBLISHED"@),
    {
        proof {
            reveal_strlit("DRAFT");
            reveal_strlit("PUBLISHED");
            assert("DRAFT"@.len() == 5);
            assert("PUBLISHED"@.len() == 9);
        }
        if str_eq(s, "DRAFT") {
            Some(WorkflowState::DRAFT)
        } else if str_eq(s, "PUBLISHED") {
            Some(WorkflowState::PUBLISHED)
        } else {
            None
        }
    }
}

/// One workflow, with the run that executes it.
#[derive(Debug)]
pub struct Workflow {
    pub nodes: Vec<WorkflowNode>,
    pub edges: Vec<WorkflowEdge>,
    pub state: WorkflowState,
    pub id: usize,
    pub user_id: usize,
    pub run: WorkflowRun,
    pub name: String,
}

/// A workflow is well formed when its edges stay inside the graph and its
/// run tracks exactly its nodes.
pub open spec fn workflow_wf(w: Workflow) -> bool {
    &&& edges_wf(w.edges@, w.nodes@.len() as nat)
    &&& run_wf(w.run)
    &&& statuses_view(w.run).len() == w.nodes@.len()
    &&& w.run.edges@ == w.edges@
}

/// An edge-for-edge copy.
pub fn clone_edges(edges: &Vec<WorkflowEdge>) -> (r: Vec<WorkflowEdge>)
    ensures
        r@ == edges@,
{
    let mut r: Vec<WorkflowEdge> = Vec::new();
    let n = edges.len();
    let mut i: usize = 0;
    while i < n
        invariant
            n == edges@.len(),
            i <= n,
            r@ == edges@.take(i as int),
        decreases n - i,
    {
        r.push(edges[i]);
        i = i + 1;
        proof {
            assert(r@ =~= edges@.take(i as int));
        }
    }
    proof {
        assert(r@ =~= edges@);
    }
    r
}

impl Workflow {
    /// A fresh workflow over the given nodes and edges, with a waiting run.
    pub fn new(nodes: Vec<WorkflowNode>, edges: Vec<WorkflowEdge>, user_id: usize) -> (r: Self)
        requires
            edges_wf(edges@, nodes@.len() as nat),
        ensures
            workflow_wf(r),
            r.nodes@ == nodes@,
            r.edges@ == edges@,
            r.user_id == user_id,
            r.id == 0,
            r.state == WorkflowState::DRAFT,
            statuses_view(r.run) == crate::run::initial_statuses(nodes@.len() as nat, edges@),
    {
        let n = nodes.len();
        let run = WorkflowRun::new_run(0, n, clone_edges(&edges));
        Workflow {
            nodes,
            edges,
            state: WorkflowState::DRAFT,
            id: 0,
            user_id,
            run,
            name: String::new(),
        }
    }

    /// The ready nodes of the next wave.
    pub fn get_next_nodes_to_run(&self) -> (r: Vec<usize>)
        requires
            workflow_wf(*self),
        ensures
            forall|x: int|
                0 <= x < r@.len() ==> crate::run::is_ready(
                    statuses_view(self.run),
                    self.edges@,
                    #[trigger] r@[x] as int,
                ),
            forall|id: int|
                0 <= id < statuses_view(self.run).len() && crate::run::is_ready(
                    statuses_view(self.run),
                    self.edges@,
                    id,
                ) ==> r@.contains(id as usize),
            forall|x: int, y: int| 0 <= x < y < r@.len() ==> r@[x] < r@[y],
    {
        self.run.get_next_nodes_to_run()
    }

    /// A topological order of the workflow's nodes, when the graph is
    /// acyclic: the witness that every run can be scheduled wave by wave.
    pub fn topological_order(&self) -> (r: Option<Vec<usize>>)
        requires
            workflow_wf(*self),
        ensures
            match r {
                Some(o) => is_topo_order(o@, self.nodes@.len() as nat, self.edges@),
                None => true,
            },
    {
        topological_order(self.nodes.len(), &self.edges)
    }

    /// The input artifacts of one node: for every edge feeding it, its slot
    /// and the source node's artifact, in edge order.
    pub fn node_inputs(&self, node_id: usize) -> (r: Vec<(usize, String)>)
        requires
            workflow_wf(*self),
        ensures
            r@.map_values(|p: (usize, String)| (p.0, p.1@)) == spec_node_inputs(
                statuses_view(self.run),
                self.edges@,
                node_id as int,
            ),
    {
        let ghost target = spec_node_inputs(statuses_view(self.run), self.edges@, node_id as int);
        let mut r: Vec<(usize, String)> = Vec::new();
        let ne = self.edges.len();
        let mut j: usize = 0;
        proof {
            assert(spec_node_inputs_upto(statuses_view(self.run), self.edges@, node_id as int, 0)
                =~= Seq::<(usize, Seq<char>)>::empty());
            assert(r@.map_values(|p: (usize, String)| (p.0, p.1@)) =~= Seq::<
                (usize, Seq<char>),
            >::empty());
        }
        while j < ne
            invariant
                ne == self.edges@.len(),
                j <= ne,
                workflow_wf(*self),
                r@.map_values(|p: (usize, String)| (p.0, p.1@)) == spec_node_inputs_upto(
                    statuses_view(self.run),
                    self.edges@,
                    node_id as int,
                    j as int,
                ),
            decreases ne - j,
        {
            let e = self.edges[j];
            proof {
                assert(self.edges@[j as int] == e);
            }
            if e.target_node == node_id {
                let ghost prev = r@.map_values(|p: (usize, String)| (p.0, p.1@));
                let uuid = self.run.get_node_status(e.source_node).uuid.clone();
                proof {
                    assert(uuid@ == statuses_view(self.run)[e.source_node as int].uuid);
                }
                r.push((e.target_slot, uuid));
                proof {
                    assert(r@.map_values(|p: (usize, String)| (p.0, p.1@)) =~= prev.push(
                        (
                            self.edges@[j as int].target_slot,
                            statuses_view(self.run)[self.edges@[j as int].source_node as int].uuid,
                        ),
                    ));
                }
            }
            j = j + 1;
        }
        proof {
            lemma_node_inputs_full(statuses_view(self.run), self.edges@, node_id as int);
        }
        r
    }
}

/// The slots and artifacts the first `upto` edges feed into `node_id`.
pub open spec fn spec_node_inputs_upto(
    statuses: Seq<crate::run::NodeStatusV>,
    edges: Seq<WorkflowEdge>,
    node_id: int,
    upto: int,
) -> Seq<(usize, Seq<char>)>
    decreases upto,
{
    if upto <= 0 {
        Seq::empty()
    } else {
        let rest = spec_node_inputs_upto(statuses, edges, node_id, upto - 1);
        let e = edges[upto - 1];
        if e.target_node == node_id && 0 <= e.source_node < statuses.len() {
            rest.push((e.target_slot, statuses[e.source_node as int].uuid))
        } else {
            rest
        }
    }
}

/// The slots and artifacts all edges feed into `node_id`.
pub open spec fn spec_node_inputs(
    statuses: Seq<crate::run::NodeStatusV>,
    edges: Seq<WorkflowEdge>,
    node_id: int,
) -> Seq<(usize, Seq<char>)> {
    spec_node_inputs_upto(statuses, edges, node_id, edges.len() as int)
}

proof fn lemma_node_inputs_full(
    statuses: Seq<crate::run::NodeStatusV>,
    edges: Seq<WorkflowEdge>,
    node_id: int,
)
    ensures
        spec_node_inputs(statuses, edges, node_id) == spec_node_inputs_upto(
            statuses,
            edges,
            node_id,
            edges.len() as int,
        ),
{
}

} // verus!
