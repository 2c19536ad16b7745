//! The renderable topology: the start page and the explored pages, with an
//! edge from each explored page to the page it was found on.

use vstd::prelude::*;
use crate::error::labelled;
use crate::link::contains_seq;
use crate::format::{copy_strings, strings_view, urls_string, urls_view};
use crate::topology::{Node, Topology};

verus! {

pub struct GraphNode {
    pub id: String,
    pub label: String,
    pub images: Vec<String>,
    pub comments: Vec<String>,
    pub inputs: Vec<String>,
}

pub struct GraphEdge {
    pub from: String,
    pub to: String,
}

pub struct Graph {
    pub nodes: Vec<GraphNode>,
    pub edges: Vec<GraphEdge>,
}

pub struct GraphError(pub String);

impl GraphError {
    /// The message shown for this error.
    pub fn print(&self) -> (r: String)
        ensures
            exists|p: Seq<char>| contains_seq(p, "Graph error"@) && r@ == p + ": "@ + self.0@,
    {
        proof {
            reveal_strlit("Graph error");
        }
        labelled("Graph error", self.0.as_str())
    }
}

/// `g` shows node `n`.
pub open spec fn shows(g: GraphNode, n: Node) -> bool {
    &&& g.id@ == n.id@
    &&& g.label@ == n.url.text@
    &&& strings_view(g.images@) == urls_view(n.images@)
    &&& strings_view(g.comments@) == strings_view(n.comments@)
    &&& strings_view(g.inputs@) == strings_view(n.inputs@)
}

/// The nodes that the graph shows: the start node, and each explored node.
pub open spec fn graph_members(t: Topology) -> Seq<usize> {
    Seq::new(t.nodes@.len(), |i: int| i as usize).filter(|i: usize| i == 0 || t.nodes@[i as int].explored)
}

/// The nodes that get an edge from their parent: each explored node that
/// has one.
pub open spec fn edge_targets(t: Topology) -> Seq<usize> {
    Seq::new(t.nodes@.len(), |i: int| i as usize).filter(
        |i: usize| t.nodes@[i as int].explored && t.nodes@[i as int].parents@.len() == 1,
    )
}

impl GraphNode {
    pub fn from_node(node: &Node) -> (r: GraphNode)
        ensures
            shows(r, *node),
    {
        GraphNode {
            id: node.id.clone(),
            label: node.url.text.clone(),
            images: urls_string(&node.images),
            comments: copy_strings(&node.comments),
            inputs: copy_strings(&node.inputs),
        }
    }
}

impl Graph {
    /// The graph of a topology: the start node and each explored node, in
    /// index order, and an edge from the parent of each explored node that
    /// has one.
    pub fn from_root(topology: &Topology) -> (r: Graph)
        requires
            topology.wf(),
        ensures
            r.nodes@.len() == graph_members(*topology).len(),
            forall|k: int|
                0 <= k < r.nodes@.len() ==> shows(
                    #[trigger] r.nodes@[k],
                    topology.nodes@[graph_members(*topology)[k] as int],
                ),
            r.edges@.len() == edge_targets(*topology).len(),
            forall|k: int|
                0 <= k < r.edges@.len() ==> {
                    let c = topology.nodes@[edge_targets(*topology)[k] as int];
                    &&& (#[trigger] r.edges@[k]).to@ == c.id@
                    &&& r.edges@[k].from@ == topology.nodes@[c.parents@[0] as int].id@
                },
    {
        proof {
            reveal(Topology::wf);
        }
        let ghost all = Seq::new(topology.nodes@.len(), |i: int| i as usize);
        let ghost member = |i: usize| i == 0 || topology.nodes@[i as int].explored;
        let ghost target = |i: usize| topology.nodes@[i as int].explored && topology.nodes@[i as int].parents@.len() == 1;
        let mut nodes: Vec<GraphNode> = Vec::new();
        let mut edges: Vec<GraphEdge> = Vec::new();
        let mut i: usize = 0;
        while i < topology.nodes.len()
            invariant
                topology.wf(),
                i <= topology.nodes@.len(),
                all == Seq::new(topology.nodes@.len(), |i: int| i as usize),
                member == (|i: usize| i == 0 || topology.nodes@[i as int].explored),
                target == (|i: usize| topology.nodes@[i as int].explored && topology.nodes@[i as int].parents@.len() == 1),
                nodes@.len() == all.take(i as int).filter(member).len(),
                forall|k: int|
                    0 <= k < nodes@.len() ==> shows(
                        #[trigger] nodes@[k],
                        topology.nodes@[all.take(i as int).filter(member)[k] as int],
                    ),
                edges@.len() == all.take(i as int).filter(target).len(),
                forall|k: int|
                    0 <= k < edges@.len() ==> {
                        let c = topology.nodes@[all.take(i as int).filter(target)[k] as int];
                        &&& (#[trigger] edges@[k]).to@ == c.id@
                        &&& edges@[k].from@ == topology.nodes@[c.parents@[0] as int].id@
                    },
            decreases topology.nodes@.len() - i,
        {
            proof {
                reveal(Topology::wf);
            }
            assert(all.take(i + 1).drop_last() =~= all.take(i as int));
            reveal(Seq::filter);
            let n = &topology.nodes[i];
            if i == 0 || n.explored {
                nodes.push(GraphNode::from_node(n));
            }
            if n.explored && n.parents.len() == 1 {
                let p = n.parents[0];
                edges.push(GraphEdge { from: topology.nodes[p].id.clone(), to: n.id.clone() });
            }
            i += 1;
        }
        assert(all.take(i as int) =~= all);
        Graph { nodes, edges }
    }
}

} // verus!
