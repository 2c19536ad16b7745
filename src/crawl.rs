//! The crawl driver, as a state machine that the caller steps: take the next
//! layer, start fetches while slots are free, hand back each completed
//! fetch, and close the layer once all have completed. The caller performs
//! the fetches; every decision is taken here.

use vstd::prelude::*;
use crate::config::Config;
use crate::extract::{content_matches, html_nodes, links_of, parse_document};
use crate::link::{contains_seq, links_view, Link};
use crate::policy::{hops_after, page_filter};
use crate::scheduler::Scheduler;
use crate::state::{seen, State};
use crate::topology::{content_of, Node, Topology};

verus! {

pub struct Crawler {
    pub config: Config,
    pub topology: Topology,
    pub state: State,
    pub scheduler: Scheduler,
    /// A layer is being fetched.
    pub in_layer: bool,
    /// The crawl is over.
    pub halted: bool,
    /// The nodes whose fetch has started.
    pub fetched: Ghost<Set<int>>,
    /// The nodes let into the scheduler; each was new to the visited set.
    pub admitted: Ghost<Set<int>>,
}

/// No two nodes of `s` share an id and URL.
pub open spec fn keys_unique(t: Topology, s: Set<int>) -> bool {
    forall|i: int, j: int| s.contains(i) && s.contains(j) && t.nodes@[i].key() == t.nodes@[j].key() ==> i == j
}

/// The nodes of `before` keep their key and depth, and their place, in `after`.
pub open spec fn keeps_nodes(before: Topology, after: Topology) -> bool {
    &&& before.nodes@.len() <= after.nodes@.len()
    &&& forall|j: int|
        0 <= j < before.nodes@.len() ==> after.nodes@[j].key() == before.nodes@[j].key() && after.nodes@[j].depth
            == before.nodes@[j].depth
}

proof fn lemma_keys_unique_kept(before: Topology, after: Topology, s: Set<int>)
    requires
        keys_unique(before, s),
        keeps_nodes(before, after),
        forall|i: int| s.contains(i) ==> 0 <= i < before.nodes@.len(),
    ensures
        keys_unique(after, s),
{
    assert forall|i: int, j: int|
        s.contains(i) && s.contains(j) && after.nodes@[i].key() == after.nodes@[j].key() implies i == j by {
        assert(before.nodes@[i].key() == after.nodes@[i].key());
        assert(before.nodes@[j].key() == after.nodes@[j].key());
    }
}

/// Every node but the start page was found on a page, and that page is
/// explored.
#[verifier::opaque]
pub open spec fn found_on_explored(t: Topology) -> bool {
    forall|i: int|
        0 < i < t.nodes@.len() ==> t.nodes@[i].parents@.len() == 1 && t.nodes@[i].parents@[0] < i
            && t.nodes@[t.nodes@[i].parents@[0] as int].explored
}

proof fn lemma_found_kept(before: Topology, after: Topology)
    requires
        found_on_explored(before),
        before.nodes@.len() == after.nodes@.len(),
        forall|j: int|
            0 <= j < before.nodes@.len() ==> after.nodes@[j].parents == before.nodes@[j].parents && (
            before.nodes@[j].explored ==> after.nodes@[j].explored),
    ensures
        found_on_explored(after),
{
    reveal(found_on_explored);
    assert forall|i: int| 0 < i < after.nodes@.len() implies after.nodes@[i].parents@.len() == 1
        && after.nodes@[i].parents@[0] < i && after.nodes@[after.nodes@[i].parents@[0] as int].explored by {
        assert(before.nodes@[i].parents == after.nodes@[i].parents);
        let p = before.nodes@[i].parents@[0] as int;
        assert(before.nodes@[p].explored);
    }
}

/// What the triage of one candidate does: whether it is queued, and the
/// visited set after it. A candidate needs a host; one that no visited node
/// matches is recorded as visited, and queued where it holds the bound.
pub open spec fn triage_step(t: Topology, bound: Seq<char>, visited: Seq<usize>, n: usize) -> (Seq<usize>, bool) {
    let node = t.nodes@[n as int];
    if node.url.host is None {
        (visited, false)
    } else if seen(visited, t, n as int) {
        (visited, false)
    } else {
        (visited.push(n), contains_seq(node.url.text@, bound))
    }
}

/// The triage of a layer's candidates, in order: the visited set after them,
/// and the candidates queued for a fetch.
pub open spec fn triage(t: Topology, bound: Seq<char>, visited: Seq<usize>, layer: Seq<usize>) -> (Seq<usize>, Seq<usize>)
    decreases layer.len(),
{
    if layer.len() == 0 {
        (visited, Seq::empty())
    } else {
        let (v, queued) = triage(t, bound, visited, layer.drop_last());
        let (v2, take) = triage_step(t, bound, v, layer.last());
        (v2, if take { queued.push(layer.last()) } else { queued })
    }
}

/// A node whose key no visited node has shares it with no admitted node.
proof fn lemma_new_key(t: Topology, visited: Seq<usize>, admitted: Set<int>, n: int)
    requires
        forall|i: int| admitted.contains(i) ==> 0 <= i < t.nodes@.len() && visited.contains(i as usize),
        !seen(visited, t, n),
        t.nodes@.len() <= usize::MAX,
    ensures
        forall|i: int| admitted.contains(i) ==> t.nodes@[i].key() != t.nodes@[n].key(),
{
    assert forall|i: int| admitted.contains(i) implies t.nodes@[i].key() != t.nodes@[n].key() by {
        let k = choose|k: int| 0 <= k < visited.len() && visited[k] == i as usize;
        assert(visited[k] as int == i);
        assert(t.nodes@[visited[k] as int].key() != t.nodes@[n].key());
    }
}

/// What a fetched page gave: its images, comments and texts, and the new
/// pages found on it; counted up to the largest `usize`.
pub open spec fn page_count(n: Node, children: int) -> int {
    let total = n.images@.len() + n.comments@.len() + n.texts@.len() + children;
    if total <= usize::MAX {
        total
    } else {
        usize::MAX as int
    }
}

impl Crawler {
    /// The target depth; below 0 there is none.
    pub open spec fn target(&self) -> int {
        self.config.args.depth as int
    }

    pub open spec fn node(&self, i: int) -> Node {
        self.topology.nodes@[i]
    }

    pub open spec fn size(&self) -> int {
        self.topology.nodes@.len() as int
    }

    /// The depth that the nodes of the queued layer have.
    pub open spec fn queued_depth(&self) -> int {
        self.state.current_depth + if self.in_layer { 1int } else { 0int }
    }

    pub open spec fn wf(&self) -> bool {
        let d = self.state.current_depth as int;
        let s = self.size();
        &&& self.topology.wf()
        &&& self.scheduler.wf()
        &&& self.scheduler.limit == self.config.args.thread as usize
        &&& d + 1 < usize::MAX
        &&& s < usize::MAX
        &&& self.target() >= 0 ==> d <= self.target()
        &&& !self.in_layer ==> self.scheduler.is_idle() && self.state.current_layer@.len() == 0
        &&& self.halted ==> !self.in_layer
        &&& self.state.layers@.len() <= 1
        &&& self.state.layers@.len() == 1 ==> forall|k: int|
            0 <= k < self.state.layers@[0]@.len() ==> ({
                let n = #[trigger] self.state.layers@[0]@[k] as int;
                0 <= n < s && self.node(n).depth == self.queued_depth()
            })
        &&& forall|k: int|
            0 <= k < self.state.current_layer@.len() ==> ({
                let n = #[trigger] self.state.current_layer@[k] as int;
                0 <= n < s && self.node(n).depth == d
            })
        &&& forall|k: int|
            0 <= k < self.scheduler.pending@.len() ==> ({
                let n = #[trigger] self.scheduler.pending@[k] as int;
                0 <= n < s && self.node(n).depth == d && self.admitted@.contains(n) && !self.fetched@.contains(n)
            })
        &&& forall|k1: int, k2: int|
            0 <= k1 < k2 < self.scheduler.pending@.len() ==> self.scheduler.pending@[k1] != self.scheduler.pending@[k2]
        &&& forall|k: int|
            0 <= k < self.scheduler.in_flight@.len() ==> ({
                let n = #[trigger] self.scheduler.in_flight@[k] as int;
                0 <= n < s && self.node(n).depth == d && self.fetched@.contains(n) && !self.node(n).explored
            })
        &&& forall|k1: int, k2: int|
            0 <= k1 < k2 < self.scheduler.in_flight@.len() ==> self.scheduler.in_flight@[k1] != self.scheduler.in_flight@[k2]
        &&& forall|k: int| 0 <= k < self.state.visited@.len() ==> self.state.visited@[k] < s
        &&& forall|i: int|
            self.fetched@.contains(i) ==> 0 <= i < s && self.admitted@.contains(i) && self.node(i).depth <= d
        &&& forall|i: int|
            self.admitted@.contains(i) ==> 0 <= i < s && self.state.visited@.contains(i as usize)
        &&& keys_unique(self.topology, self.admitted@)
        &&& forall|i: int| 0 <= i < s && self.node(i).explored ==> self.fetched@.contains(i)
        &&& found_on_explored(self.topology)
    }

    /// A crawl of the configured start page, at depth 0, with nothing
    /// fetched yet.
    pub fn new(config: Config) -> (r: Crawler)
        requires
            config.args.thread >= 1,
        ensures
            r.wf(),
            r.config == config,
            r.topology.nodes@.len() == 1,
            r.topology.nodes@[0].url@ == config.root@,
            r.topology.nodes@[0].id@ == config.root.text@,
            r.state.layers@.len() == 1,
            r.state.layers@[0]@ == seq![0usize],
            r.state.current_depth == 0,
            r.state.current_external == 0,
            !r.in_layer,
            !r.halted,
            r.fetched@.is_empty(),
    {
        let root = config.root.duplicate();
        let id = config.root.text.clone();
        let topology = Topology::new(root, id);
        let state = State::new(0);
        let scheduler = Scheduler::new(config.args.thread as usize);
        proof {
            reveal(found_on_explored);
        }
        Crawler {
            config,
            topology,
            state,
            scheduler,
            in_layer: false,
            halted: false,
            fetched: Ghost(Set::empty()),
            admitted: Ghost(Set::empty()),
        }
    }

    /// Takes the next layer, where the crawl goes on and one is queued, and
    /// queues for a fetch each of its nodes that has a host, was not met
    /// before, and holds the bound; `false` once the crawl is over.
    pub fn next_layer(&mut self) -> (r: bool)
        requires
            old(self).wf(),
            !old(self).in_layer,
        ensures
            final(self).wf(),
            r == (!old(self).halted && old(self).state.layers@.len() > 0),
            final(self).in_layer == r,
            final(self).halted == !r,
            r ==> ({
                let (v, queued) = triage(
                    old(self).topology,
                    old(self).config.args.bound@,
                    old(self).state.visited@,
                    old(self).state.layers@[0]@,
                );
                &&& final(self).state.visited@ == v
                &&& final(self).scheduler.pending@ == queued
                &&& final(self).state.layers@ == old(self).state.layers@.drop_first()
            }),
            !r ==> final(self).state.visited == old(self).state.visited && final(self).scheduler == old(self).scheduler,
            final(self).scheduler.in_flight@.len() == 0,
            final(self).state.current_layer@.len() == 0,
            final(self).state.current_depth == old(self).state.current_depth,
            final(self).state.current_external == old(self).state.current_external,
            final(self).fetched == old(self).fetched,
            final(self).topology == old(self).topology,
            final(self).config == old(self).config,
    {
        if self.halted {
            return false;
        }
        if self.state.pop_layer().is_none() {
            self.halted = true;
            return false;
        }
        self.in_layer = true;
        let ghost d = self.state.current_depth as int;
        let ghost layer = self.state.current_layer@;
        let ghost visited0 = self.state.visited@;
        let ghost bound = self.config.args.bound@;
        let mut i: usize = 0;
        while i < self.state.current_layer.len()
            invariant
                self.wf(),
                self.in_layer,
                !self.halted,
                self.state.layers@ == old(self).state.layers@.drop_first(),
                self.state.current_layer@ == layer,
                layer == old(self).state.layers@[0]@,
                visited0 == old(self).state.visited@,
                bound == self.config.args.bound@,
                i <= layer.len(),
                d == self.state.current_depth,
                self.scheduler.in_flight@.len() == 0,
                (self.state.visited@, self.scheduler.pending@) == triage(self.topology, bound, visited0, layer.take(i as int)),
                self.state.current_external == old(self).state.current_external,
                self.fetched == old(self).fetched,
                self.topology == old(self).topology,
                self.config == old(self).config,
            decreases layer.len() - i,
        {
            let n = self.state.current_layer[i];
            assert(layer.take(i + 1).drop_last() =~= layer.take(i as int));
            self.consider(n);
            i += 1;
        }
        assert(layer.take(i as int) =~= layer);
        self.state.current_layer = Vec::new();
        true
    }

    /// Queues node `n` for a fetch where it has a host, was not met before,
    /// and holds the bound.
    fn consider(&mut self, n: usize)
        requires
            old(self).wf(),
            old(self).in_layer,
            0 <= n < old(self).size(),
            old(self).node(n as int).depth == old(self).state.current_depth,
        ensures
            final(self).wf(),
            final(self).in_layer,
            final(self).halted == old(self).halted,
            final(self).state.layers == old(self).state.layers,
            final(self).state.current_layer == old(self).state.current_layer,
            final(self).state.current_depth == old(self).state.current_depth,
            final(self).state.current_external == old(self).state.current_external,
            final(self).fetched == old(self).fetched,
            final(self).topology == old(self).topology,
            final(self).config == old(self).config,
            final(self).scheduler.in_flight == old(self).scheduler.in_flight,
            ({
                let (v, take) = triage_step(old(self).topology, old(self).config.args.bound@, old(self).state.visited@, n);
                &&& final(self).state.visited@ == v
                &&& final(self).scheduler.pending@ == if take {
                    old(self).scheduler.pending@.push(n)
                } else {
                    old(self).scheduler.pending@
                }
            }),
    {
        if self.topology.nodes[n].url.host.is_none() {
            return;
        }
        let ghost before = self.state.visited@;
        if self.state.known(&self.topology, n) {
            return;
        }
        if !self.config.in_bound(&self.topology.nodes[n].url) {
            assert forall|i: int| self.admitted@.contains(i) implies self.state.visited@.contains(i as usize) by {
                let k = choose|k: int| 0 <= k < before.len() && before[k] == i as usize;
                assert(self.state.visited@[k] == i as usize);
            }
            return;
        }
        proof {
            assert(self.state.visited@.last() == n);
            assert forall|i: int| self.admitted@.contains(i) implies self.state.visited@.contains(i as usize) by {
                let k = choose|k: int| 0 <= k < before.len() && before[k] == i as usize;
                assert(self.state.visited@[k] == i as usize);
            }
            lemma_new_key(self.topology, before, self.admitted@, n as int);
        }
        self.scheduler.enqueue(n);
        proof {
            self.admitted@ = self.admitted@.insert(n as int);
            assert(self.state.visited@[self.state.visited@.len() - 1] == n);
        }
    }

    /// Starts the fetch of the next queued node where a slot is free, and
    /// returns the node with the URL to fetch.
    pub fn start_fetch(&mut self) -> (r: Option<(usize, String)>)
        requires
            old(self).wf(),
        ensures
            final(self).wf(),
            r is Some <==> old(self).scheduler.in_flight@.len() < old(self).scheduler.limit
                && old(self).scheduler.pending@.len() > 0,
            r matches Some((n, url)) ==> n == old(self).scheduler.pending@[0] && url@ == old(self).node(
                n as int,
            ).url.text@ && final(self).fetched@ == old(self).fetched@.insert(n as int)
                && final(self).scheduler.in_flight@ == old(self).scheduler.in_flight@.push(n),
            r is None ==> final(self).fetched == old(self).fetched && final(self).scheduler == old(self).scheduler,
            final(self).topology == old(self).topology,
            final(self).state == old(self).state,
            final(self).config == old(self).config,
            final(self).in_layer == old(self).in_layer,
            final(self).halted == old(self).halted,
    {
        match self.scheduler.grant_slot() {
            Some(n) => {
                proof {
                    self.fetched@ = self.fetched@.insert(n as int);
                }
                let url = self.topology.nodes[n].url.text.clone();
                Some((n, url))
            },
            None => None,
        }
    }

    /// Makes each accepted link a child of node `node`, in order, and
    /// returns the new nodes.
    fn add_children(&mut self, node: usize, accepted: &Vec<Link>) -> (r: Vec<usize>)
        requires
            old(self).wf(),
            0 <= node < old(self).size(),
            old(self).node(node as int).depth == old(self).state.current_depth,
            old(self).node(node as int).explored,
            old(self).size() + accepted@.len() < usize::MAX,
        ensures
            final(self).wf(),
            final(self).size() == old(self).size() + accepted@.len(),
            r@ == Seq::new(accepted@.len(), |j: int| (old(self).size() + j) as usize),
            forall|j: int|
                0 <= j < accepted@.len() ==> {
                    let c = #[trigger] final(self).node(old(self).size() + j);
                    &&& c.url@ == accepted@[j]@
                    &&& c.id@ == accepted@[j].text@
                    &&& c.parents@ == seq![node]
                    &&& c.depth == old(self).state.current_depth + 1
                    &&& !c.explored
                    &&& c.children@.len() == 0
                },
            final(self).node(node as int).children@ == old(self).node(node as int).children@ + r@,
            final(self).node(node as int) == (Node { children: final(self).node(node as int).children, ..old(self).node(node as int) }),
            keeps_nodes(old(self).topology, final(self).topology),
            forall|j: int| 0 <= j < old(self).size() ==> final(self).node(j).explored == old(self).node(j).explored,
            final(self).state == old(self).state,
            final(self).scheduler == old(self).scheduler,
            final(self).config == old(self).config,
            final(self).fetched == old(self).fetched,
            final(self).admitted == old(self).admitted,
            final(self).in_layer == old(self).in_layer,
            final(self).halted == old(self).halted,
    {
        let ghost start = self.size();
        let ghost first = self.topology;
        let mut r: Vec<usize> = Vec::new();
        let mut k: usize = 0;
        while k < accepted.len()
            invariant
                self.wf(),
                k <= accepted@.len(),
                0 <= node < start,
                start == old(self).size(),
                first == old(self).topology,
                start + accepted@.len() < usize::MAX,
                self.size() == start + k,
                self.node(node as int).depth == old(self).state.current_depth,
                self.node(node as int).explored,
                r@ == Seq::new(k as nat, |j: int| (start + j) as usize),
                forall|j: int|
                    0 <= j < k ==> {
                        let c = #[trigger] self.node(start + j);
                        &&& c.url@ == accepted@[j]@
                        &&& c.id@ == accepted@[j].text@
                        &&& c.parents@ == seq![node]
                        &&& c.depth == old(self).state.current_depth + 1
                        &&& !c.explored
                        &&& c.children@.len() == 0
                    },
                self.node(node as int).children@ == old(self).node(node as int).children@ + r@,
                self.node(node as int) == (Node { children: self.node(node as int).children, ..old(self).node(node as int) }),
                keeps_nodes(first, self.topology),
                forall|j: int| 0 <= j < start ==> self.node(j).explored == old(self).node(j).explored,
                self.state == old(self).state,
                self.scheduler == old(self).scheduler,
                self.config == old(self).config,
                self.fetched == old(self).fetched,
                self.admitted == old(self).admitted,
                self.in_layer == old(self).in_layer,
                self.halted == old(self).halted,
            decreases accepted@.len() - k,
        {
            let ghost before = *self;
            let l = accepted[k].duplicate();
            let id = accepted[k].text.clone();
            let c = Node::new_arc(&mut self.topology, Some(node), l, id);
            r.push(c);
            proof {
                assert(keeps_nodes(before.topology, self.topology));
                lemma_keys_unique_kept(before.topology, self.topology, self.admitted@);
                reveal(found_on_explored);
                assert forall|i: int| 0 < i < self.size() implies self.node(i).parents@.len() == 1
                    && self.node(i).parents@[0] < i && self.node(self.node(i).parents@[0] as int).explored by {
                    if i < before.size() {
                        assert(before.node(i).parents == self.node(i).parents);
                        let p = before.node(i).parents@[0] as int;
                        assert(before.node(p).explored);
                        assert(p != node ==> self.node(p) == before.node(p));
                    }
                }
                assert(r@ =~= Seq::new((k + 1) as nat, |j: int| (start + j) as usize));
                assert(self.node(node as int).children@ =~= old(self).node(node as int).children@ + r@);
                assert forall|j: int| 0 <= j < k + 1 implies {
                    let c = #[trigger] self.node(start + j);
                    &&& c.url@ == accepted@[j]@
                    &&& c.id@ == accepted@[j].text@
                    &&& c.parents@ == seq![node]
                    &&& c.depth == old(self).state.current_depth + 1
                    &&& !c.explored
                    &&& c.children@.len() == 0
                } by {
                    if j < k {
                        assert(before.node(start + j) == self.node(start + j));
                    }
                }
            }
            k += 1;
        }
        r
    }

    /// Takes back the completed fetch of node `node`, which holds a slot,
    /// and releases the slot. A failure is recorded on the node. A page is
    /// parsed: its content is recorded as asked, the node is marked
    /// explored, and the links that the policy accepts become its children,
    /// queued for the next layer.
    pub fn finish_fetch(&mut self, node: usize, page: Result<String, String>) -> (found: usize)
        requires
            old(self).wf(),
            old(self).scheduler.in_flight@.contains(node),
        ensures
            final(self).wf(),
            final(self).scheduler.in_flight@.len() == old(self).scheduler.in_flight@.len() - 1,
            !final(self).scheduler.in_flight@.contains(node) || old(self).scheduler.in_flight@.len() > 1,
            final(self).scheduler.pending == old(self).scheduler.pending,
            final(self).scheduler.limit == old(self).scheduler.limit,
            final(self).in_layer == old(self).in_layer,
            final(self).halted == old(self).halted,
            final(self).config == old(self).config,
            final(self).fetched == old(self).fetched,
            final(self).state.current_depth == old(self).state.current_depth,
            keeps_nodes(old(self).topology, final(self).topology),
            page is Err ==> found == 0,
            page is Ok ==> found as int == page_count(final(self).node(node as int), final(self).size() - old(self).size()),
            page matches Err(m) ==> {
                &&& final(self).node(node as int) == (Node { failure: Some(m), ..old(self).node(node as int) })
                &&& final(self).size() == old(self).size()
                &&& final(self).state == old(self).state
            },
            page matches Ok(html) ==> ({
                let base = old(self).node(node as int).url.text@;
                let nodes = html_nodes(html@);
                let found = links_of(base, nodes);
                let accepted = page_filter(
                    found,
                    old(self).config.domain@,
                    old(self).config.args.bound@,
                    old(self).state.current_external as int,
                    old(self).config.args.external as int,
                ).0;
                let fresh = Seq::new(accepted.len(), |j: int| (old(self).size() + j) as usize);
                &&& final(self).state.current_external == hops_after(
                    found,
                    old(self).config.domain@,
                    old(self).config.args.bound@,
                    old(self).state.current_external as int,
                    old(self).config.args.external as int,
                )
                &&& final(self).node(node as int).explored
                &&& content_matches(content_of(final(self).node(node as int)), nodes, base, old(self).config.args.content@)
                &&& old(self).size() + accepted.len() < usize::MAX ==> {
                    &&& final(self).size() == old(self).size() + accepted.len()
                    &&& forall|j: int|
                        0 <= j < accepted.len() ==> {
                            let c = #[trigger] final(self).node(old(self).size() + j);
                            &&& c.url@ == accepted[j]
                            &&& c.parents@ == seq![node]
                            &&& c.depth == old(self).state.current_depth + 1
                            &&& !c.explored
                            &&& c.children@.len() == 0
                        }
                    &&& final(self).node(node as int).children@ == old(self).node(node as int).children@ + fresh
                    &&& accepted.len() > 0 ==> final(self).state.layers@.len() == 1 && final(self).state.layers@[0]@ == (if old(self).state.layers@.len() == 0 {
                        Seq::empty()
                    } else {
                        old(self).state.layers@[0]@
                    }) + fresh
                }
            }),
    {
        let ghost start = *self;
        let base = self.topology.nodes[node].url.duplicate();
        let held = self.scheduler.complete(node);
        proof {
            assert(start.fetched@.contains(node as int));
            assert(self.wf());
        }
        match page {
            Err(m) => {
                self.topology.record_failure(node, m);
                proof {
                    lemma_found_kept(start.topology, self.topology);
                    assert(keeps_nodes(start.topology, self.topology));
                    lemma_keys_unique_kept(start.topology, self.topology, self.admitted@);
                }
                0
            },
            Ok(html) => {
                let (links, content) = parse_document(html.as_str(), &base, &self.config.args.content);
                let (accepted, hops) = self.config.filter_links(&links, self.state.current_external);
                self.state.current_external = hops;
                let ghost mid = self.topology;
                self.topology.record(node, content);
                proof {
                    lemma_found_kept(mid, self.topology);
                    assert(keeps_nodes(mid, self.topology));
                    lemma_keys_unique_kept(mid, self.topology, self.admitted@);
                }
                let ghost recorded = *self;
                let children = if accepted.len() < usize::MAX - self.topology.nodes.len() {
                    self.add_children(node, &accepted)
                } else {
                    Vec::new()
                };
                let ghost after_children = *self;
                let page_node = &self.topology.nodes[node];
                let found = page_node.images.len().saturating_add(page_node.comments.len()).saturating_add(
                    page_node.texts.len(),
                ).saturating_add(children.len());
                let ghost before_add = *self;
                let ghost added = children@;
                self.state.add_to_next_layer(children);
                proof {
                    assert(start.scheduler.in_flight@.len() > 0);
                    assert(self.in_layer);
                    if self.state.layers@.len() == 1 {
                        let l0 = self.state.layers@[0]@;
                        let n0 = if before_add.state.layers@.len() == 0 {
                            0int
                        } else {
                            before_add.state.layers@[0]@.len() as int
                        };
                        assert forall|k: int| 0 <= k < l0.len() implies ({
                            let n = #[trigger] l0[k] as int;
                            0 <= n < self.size() && self.node(n).depth == self.queued_depth()
                        }) by {
                            if k < n0 {
                                assert(l0[k] == before_add.state.layers@[0]@[k]);
                            } else {
                                assert(l0[k] == added[k - n0]);
                                assert(added[k - n0] as int == start.size() + (k - n0));
                                assert(after_children.node(start.size() + (k - n0)).depth == start.state.current_depth + 1);
                            }
                        }
                    }
                    let acc = links_view(accepted@);
                    if start.size() + acc.len() < usize::MAX {
                        assert forall|j: int| 0 <= j < acc.len() implies {
                            let c = #[trigger] self.node(start.size() + j);
                            &&& c.url@ == acc[j]
                            &&& c.parents@ == seq![node]
                            &&& c.depth == start.state.current_depth + 1
                            &&& !c.explored
                            &&& c.children@.len() == 0
                        } by {
                            assert(after_children.node(start.size() + j).url@ == accepted@[j]@);
                        }
                    }
                }
                found
            },
        }
    }

    /// Whether the layer being closed is the last one: it lies at the
    /// target depth, or as deep as a `usize` can count.
    pub open spec fn last_layer(&self) -> bool {
        (self.target() >= 0 && self.state.current_depth == self.target()) || self.state.current_depth + 2
            >= usize::MAX
    }

    /// Closes a layer whose fetches have all completed. Where it is the last
    /// one the crawl halts, and the layer found below it is dropped: its
    /// nodes stay in the topology, unexplored. Otherwise the crawl moves one
    /// level down. Returns whether the crawl goes on.
    pub fn finish_layer(&mut self) -> (r: bool)
        requires
            old(self).wf(),
            old(self).in_layer,
            old(self).scheduler.is_idle(),
        ensures
            final(self).wf(),
            !final(self).in_layer,
            r == !old(self).last_layer(),
            final(self).halted == !r,
            r ==> final(self).state.current_depth == old(self).state.current_depth + 1 && final(self).state.layers
                == old(self).state.layers,
            !r ==> final(self).state.current_depth == old(self).state.current_depth && final(self).state.layers@.len()
                == 0,
            final(self).state.current_external == old(self).state.current_external,
            final(self).state.visited == old(self).state.visited,
            final(self).topology == old(self).topology,
            final(self).fetched == old(self).fetched,
            final(self).config == old(self).config,
    {
        self.in_layer = false;
        self.state.current_layer = Vec::new();
        let d = self.state.current_depth;
        if (self.config.args.depth >= 0 && d == self.config.args.depth as usize) || d + 2 >= usize::MAX {
            self.halted = true;
            self.state.layers = Vec::new();
            return false;
        }
        self.state.current_depth = d + 1;
        true
    }
}

/// No page below the target depth is fetched: where the target depth is not
/// negative, every node whose fetch has started, and so every explored node,
/// lies at most that many levels below the start page. Nodes one level
/// deeper may exist, unexplored.
pub proof fn lemma_depth_bound(c: Crawler)
    requires
        c.wf(),
        c.target() >= 0,
    ensures
        forall|i: int| c.fetched@.contains(i) ==> c.node(i).depth <= c.target(),
        forall|i: int| 0 <= i < c.size() && c.node(i).explored ==> c.node(i).depth <= c.target(),
        forall|i: int| 0 <= i < c.size() && c.node(i).depth > c.target() ==> !c.node(i).explored,
{
    assert forall|i: int| 0 <= i < c.size() && c.node(i).explored implies c.node(i).depth <= c.target() by {
        assert(c.fetched@.contains(i));
    }
}

/// With a target depth of 0 only the start page is ever fetched or
/// explored: every other node lies at least one level below it.
pub proof fn lemma_depth_zero(c: Crawler)
    requires
        c.wf(),
        c.target() == 0,
    ensures
        forall|i: int| c.fetched@.contains(i) ==> i == 0,
        forall|i: int| 0 <= i < c.size() && c.node(i).explored ==> i == 0,
{
    reveal(found_on_explored);
    assert forall|i: int| c.fetched@.contains(i) implies i == 0 by {
        if i != 0 {
            c.topology.lemma_found_below(i);
        }
    }
    assert forall|i: int| 0 <= i < c.size() && c.node(i).explored implies i == 0 by {
        assert(c.fetched@.contains(i));
    }
}

/// The nodes queued for a fetch have pairwise different ids and URLs, and
/// none of them has started a fetch: a duplicate is never queued twice.
pub proof fn lemma_queued_once(c: Crawler)
    requires
        c.wf(),
    ensures
        forall|k1: int, k2: int|
            0 <= k1 < k2 < c.scheduler.pending@.len() ==> c.node(c.scheduler.pending@[k1] as int).key() != c.node(
                c.scheduler.pending@[k2] as int,
            ).key(),
        forall|k: int| 0 <= k < c.scheduler.pending@.len() ==> !c.fetched@.contains(c.scheduler.pending@[k] as int),
{
    assert forall|k1: int, k2: int| 0 <= k1 < k2 < c.scheduler.pending@.len() implies c.node(
        c.scheduler.pending@[k1] as int,
    ).key() != c.node(c.scheduler.pending@[k2] as int).key() by {
        let a = c.scheduler.pending@[k1] as int;
        let b = c.scheduler.pending@[k2] as int;
        assert(c.admitted@.contains(a) && c.admitted@.contains(b));
        assert(a != b);
    }
}

/// Each id and URL is fetched at most once: no two nodes whose fetch has
/// started share them, and a node whose fetch never started, such as a
/// duplicate, is not explored.
pub proof fn lemma_fetched_once(c: Crawler)
    requires
        c.wf(),
    ensures
        forall|i: int, j: int|
            c.fetched@.contains(i) && c.fetched@.contains(j) && c.node(i).key() == c.node(j).key() ==> i == j,
        forall|i: int| 0 <= i < c.size() && !c.fetched@.contains(i) ==> !c.node(i).explored,
{
}

/// No more fetches hold a slot than the concurrency limit allows.
pub proof fn lemma_slots_bounded(c: Crawler)
    requires
        c.wf(),
    ensures
        c.scheduler.in_flight@.len() <= c.config.args.thread,
{
}

/// Every node but the start page was found on an explored page, earlier in
/// the crawl: following parents from any node reaches the start page through
/// explored nodes only, so each edge of the rendered graph leaves a shown
/// node.
pub proof fn lemma_found_on_explored(c: Crawler)
    requires
        c.wf(),
    ensures
        forall|i: int|
            0 < i < c.size() ==> c.node(i).parents@.len() == 1 && c.node(i).parents@[0] < i && c.node(
                c.node(i).parents@[0] as int,
            ).explored,
{
    reveal(found_on_explored);
}

} // verus!
