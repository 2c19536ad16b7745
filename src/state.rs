//! The frontier of a crawl: the queue of layers still to visit, the layer
//! being drained, the set of pages already seen, and the running counters.

use vstd::prelude::*;
use crate::topology::Topology;

verus! {

pub struct State {
    /// The depth of the layer being crawled.
    pub current_depth: usize,
    /// The external hops spent so far.
    pub current_external: i32,
    /// The nodes met so far, one per id and URL.
    pub visited: Vec<usize>,
    /// The layers still to visit, the next one first.
    pub layers: Vec<Vec<usize>>,
    /// The layer being drained.
    pub current_layer: Vec<usize>,
}

/// Whether some visited node has the same id and URL as node `n`.
pub open spec fn seen(visited: Seq<usize>, topology: Topology, n: int) -> bool {
    exists|k: int|
        0 <= k < visited.len() && topology.nodes@[visited[k] as int].key() == topology.nodes@[n].key()
}

impl State {
    /// A frontier whose one layer holds the start node.
    pub fn new(root: usize) -> (r: State)
        ensures
            r.current_depth == 0,
            r.current_external == 0,
            r.visited@.len() == 0,
            r.layers@.len() == 1,
            r.layers@[0]@ == seq![root],
            r.current_layer@.len() == 0,
    {
        let mut layers: Vec<Vec<usize>> = Vec::new();
        layers.push(vec![root]);
        State { current_depth: 0, current_external: 0, visited: Vec::new(), layers, current_layer: Vec::new() }
    }

    /// Moves the next layer into the current buffer; `None` where no layer
    /// is left.
    pub fn pop_layer(&mut self) -> (r: Option<()>)
        ensures
            r is Some <==> old(self).layers@.len() > 0,
            r is Some ==> final(self).current_layer == old(self).layers@[0] && final(self).layers@
                == old(self).layers@.drop_first(),
            r is None ==> final(self).current_layer == old(self).current_layer && final(self).layers
                == old(self).layers,
            final(self).visited == old(self).visited,
            final(self).current_depth == old(self).current_depth,
            final(self).current_external == old(self).current_external,
    {
        if self.layers.len() == 0 {
            return None;
        }
        self.current_layer = self.layers.remove(0);
        Some(())
    }

    /// Appends nodes to the next layer, which is made where there is none;
    /// nothing is made for no nodes.
    pub fn add_to_next_layer(&mut self, links: Vec<usize>)
        ensures
            links@.len() == 0 ==> final(self).layers == old(self).layers,
            links@.len() > 0 && old(self).layers@.len() == 0 ==> final(self).layers@.len() == 1
                && final(self).layers@[0]@ == links@,
            links@.len() > 0 && old(self).layers@.len() > 0 ==> final(self).layers@.len() == old(self).layers@.len() && final(self).layers@[0]@ == old(self).layers@[0]@ + links@ && forall|l: int|
                1 <= l < old(self).layers@.len() ==> final(self).layers@[l] == old(self).layers@[l],
            final(self).visited == old(self).visited,
            final(self).current_layer == old(self).current_layer,
            final(self).current_depth == old(self).current_depth,
            final(self).current_external == old(self).current_external,
    {
        if links.len() == 0 {
            return;
        }
        if self.layers.len() == 0 {
            self.layers.push(links);
        } else {
            let mut links = links;
            self.layers[0].append(&mut links);
        }
    }

    /// Test and insert: whether a node with the id and URL of node `node`
    /// was met before; where it was not, `node` is recorded as met.
    pub fn known(&mut self, topology: &Topology, node: usize) -> (r: bool)
        requires
            node < topology.nodes@.len(),
            forall|k: int| 0 <= k < old(self).visited@.len() ==> old(self).visited@[k] < topology.nodes@.len(),
        ensures
            r == seen(old(self).visited@, *topology, node as int),
            final(self).visited@ == if r {
                old(self).visited@
            } else {
                old(self).visited@.push(node)
            },
            final(self).layers == old(self).layers,
            final(self).current_layer == old(self).current_layer,
            final(self).current_depth == old(self).current_depth,
            final(self).current_external == old(self).current_external,
    {
        let n = &topology.nodes[node];
        let mut k: usize = 0;
        while k < self.visited.len()
            invariant
                k <= self.visited@.len(),
                n == topology.nodes@[node as int],
                self.visited == old(self).visited,
                forall|j: int| 0 <= j < self.visited@.len() ==> self.visited@[j] < topology.nodes@.len(),
                forall|j: int| 0 <= j < k ==> topology.nodes@[self.visited@[j] as int].key() != n.key(),
            decreases self.visited@.len() - k,
        {
            let v = &topology.nodes[self.visited[k]];
            if v.id == n.id && v.url.text == n.url.text {
                return true;
            }
            k += 1;
        }
        self.visited.push(node);
        false
    }
}

} // verus!
