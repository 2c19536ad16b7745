//! The pages found by a crawl, as an arena: a node refers to its children and
//! to its parent by their index, so a child has one owner and the back
//! reference keeps nothing alive.

use vstd::prelude::*;
use crate::extract::PageContent;
use crate::link::Link;

verus! {

/// One page found by the crawl, fetched or not.
pub struct Node {
    pub id: String,
    pub url: Link,
    /// How many links lie between the start page and this one.
    pub depth: usize,
    /// Set once the page has been fetched and its content recorded.
    pub explored: bool,
    pub images: Vec<Link>,
    pub comments: Vec<String>,
    pub texts: Vec<String>,
    pub inputs: Vec<String>,
    pub links: Vec<Link>,
    /// Why the fetch of this page failed, where it did.
    pub failure: Option<String>,
    /// The pages found on this one, by index, in the order they were found.
    pub children: Vec<usize>,
    /// The page this one was found on, if any, by index.
    pub parents: Vec<usize>,
}

/// The content fields of a node, as values.
pub open spec fn content_of(n: Node) -> PageContent {
    PageContent { texts: n.texts, comments: n.comments, inputs: n.inputs, images: n.images, links: n.links }
}

impl Node {
    /// What identifies a node: its id and the text of its URL.
    pub open spec fn key(&self) -> (Seq<char>, Seq<char>) {
        (self.id@, self.url.text@)
    }

    fn fresh(url: Link, id: String, depth: usize, parents: Vec<usize>) -> (r: Node)
        ensures
            r.url == url,
            r.id == id,
            r.depth == depth,
            r.parents == parents,
            !r.explored,
            r.failure is None,
            r.children@.len() == 0,
            r.images@.len() == 0,
            r.comments@.len() == 0,
            r.texts@.len() == 0,
            r.inputs@.len() == 0,
            r.links@.len() == 0,
    {
        Node {
            id,
            url,
            depth,
            explored: false,
            images: Vec::new(),
            comments: Vec::new(),
            texts: Vec::new(),
            inputs: Vec::new(),
            links: Vec::new(),
            failure: None,
            children: Vec::new(),
            parents,
        }
    }

    /// Adds a node, found on `parent` where one is given, and returns its
    /// index: the new node is unexplored, empty, one level below its parent
    /// (or at level 0), and the parent's children end with it.
    pub fn new_arc(topology: &mut Topology, parent: Option<usize>, url: Link, id: String) -> (r: usize)
        requires
            old(topology).wf(),
            parent matches Some(p) ==> p < old(topology).nodes@.len() && old(topology).nodes@[p as int].depth
                < usize::MAX,
            old(topology).nodes@.len() < usize::MAX,
        ensures
            final(topology).wf(),
            r == old(topology).nodes@.len(),
            final(topology).nodes@.len() == r + 1,
            final(topology).nodes@[r as int].url == url,
            final(topology).nodes@[r as int].id == id,
            final(topology).nodes@[r as int].depth == match parent {
                Some(p) => old(topology).nodes@[p as int].depth + 1,
                None => 0,
            },
            !final(topology).nodes@[r as int].explored,
            final(topology).nodes@[r as int].failure is None,
            final(topology).nodes@[r as int].children@.len() == 0,
            content_of(final(topology).nodes@[r as int]).is_empty(),
            final(topology).nodes@[r as int].parents@ == match parent {
                Some(p) => seq![p],
                None => Seq::<usize>::empty(),
            },
            forall|j: int|
                0 <= j < r && parent != Some(j as usize) ==> final(topology).nodes@[j] == old(topology).nodes@[j],
            parent matches Some(p) ==> final(topology).nodes@[p as int] == (Node {
                children: final(topology).nodes@[p as int].children,
                ..old(topology).nodes@[p as int]
            }),
            parent matches Some(p) ==> final(topology).nodes@[p as int].children@ == old(
                topology,
            ).nodes@[p as int].children@.push(r),
    {
        reveal(Topology::wf);
        let r = topology.nodes.len();
        let (depth, parents) = match parent {
            Some(p) => (topology.nodes[p].depth + 1, vec![p]),
            None => (0, Vec::new()),
        };
        let node = Node::fresh(url, id, depth, parents);
        topology.nodes.push(node);
        if let Some(p) = parent {
            topology.nodes[p].add_child(r);
        }
        proof {
            let o = old(topology).nodes@;
            let n = topology.nodes@;
            assert forall|i: int, k: int| 0 <= i < n.len() && 0 <= k < n[i].children@.len() implies i
                < n[i].children@[k] < n.len() && n[n[i].children@[k] as int].parents@ == seq![i as usize] by {
                if i < o.len() && k < o[i].children@.len() {
                    assert(n[i].children@[k] == o[i].children@[k]);
                }
            }
            assert forall|i: int| 0 <= i < n.len() && n[i].parents@.len() == 1 implies ({
                let p = n[i].parents@[0] as int;
                p < i && n[i].depth == n[p].depth + 1 && n[p].children@.contains(i as usize)
            }) by {
                let p = n[i].parents@[0] as int;
                if i < o.len() {
                    let k = choose|k: int| 0 <= k < o[p].children@.len() && o[p].children@[k] == i as usize;
                    assert(n[p].children@[k] == i as usize);
                } else {
                    assert(n[p].children@.last() == i as usize);
                }
            }
        }
        r
    }

    /// Appends `child` to this node's children.
    pub fn add_child(&mut self, child: usize)
        ensures
            final(self).children@ == old(self).children@.push(child),
            *final(self) == (Node { children: final(self).children, ..*old(self) }),
    {
        self.children.push(child);
    }

    /// Marks this node as fetched and processed.
    pub fn explore(&mut self)
        ensures
            *final(self) == (Node { explored: true, ..*old(self) }),
    {
        self.explored = true;
    }

    /// How many images, comments and texts were taken from this page.
    pub fn quantity_elements(&self) -> (r: usize)
        requires
            self.images@.len() + self.comments@.len() + self.texts@.len() <= usize::MAX,
        ensures
            r == self.images@.len() + self.comments@.len() + self.texts@.len(),
    {
        self.images.len() + self.comments.len() + self.texts.len()
    }
}

/// All the nodes of a crawl; the start page is the first.
pub struct Topology {
    pub nodes: Vec<Node>,
}

impl Topology {
    /// Each node has at most one parent, found before it; a node with a
    /// parent sits one level below it and is among its children; a node
    /// without one sits at level 0; children are found after their parent,
    /// name it as their one parent, and are listed once.
    #[verifier::opaque]
    pub open spec fn wf(&self) -> bool {
        let n = self.nodes@;
        &&& n.len() > 0
        &&& forall|i: int| 0 <= i < n.len() ==> n[i].parents@.len() <= 1
        &&& forall|i: int| 0 <= i < n.len() && n[i].parents@.len() == 0 ==> n[i].depth == 0
        &&& forall|i: int|
            0 <= i < n.len() && n[i].parents@.len() == 1 ==> ({
                let p = n[i].parents@[0] as int;
                p < i && n[i].depth == n[p].depth + 1 && n[p].children@.contains(i as usize)
            })
        &&& forall|i: int, k: int|
            0 <= i < n.len() && 0 <= k < n[i].children@.len() ==> i < n[i].children@[k] < n.len()
                && n[n[i].children@[k] as int].parents@ == seq![i as usize]
        &&& forall|i: int, k1: int, k2: int|
            0 <= i < n.len() && 0 <= k1 < k2 < n[i].children@.len() ==> n[i].children@[k1]
                != n[i].children@[k2]
    }

    /// A topology holding the start page alone.
    pub fn new(url: Link, id: String) -> (r: Topology)
        ensures
            r.wf(),
            r.nodes@.len() == 1,
            r.nodes@[0].url == url,
            r.nodes@[0].id == id,
            r.nodes@[0].depth == 0,
            !r.nodes@[0].explored,
    {
        reveal(Topology::wf);
        let root = Node::fresh(url, id, 0, Vec::new());
        let mut nodes = Vec::new();
        nodes.push(root);
        Topology { nodes }
    }

    /// Records the content of a fetched page and marks it explored; a
    /// page's content is recorded once.
    pub fn record(&mut self, i: usize, content: PageContent)
        requires
            old(self).wf(),
            i < old(self).nodes@.len(),
            !old(self).nodes@[i as int].explored,
        ensures
            final(self).wf(),
            final(self).nodes@.len() == old(self).nodes@.len(),
            final(self).nodes@[i as int] == (Node {
                texts: content.texts,
                comments: content.comments,
                inputs: content.inputs,
                images: content.images,
                links: content.links,
                explored: true,
                ..old(self).nodes@[i as int]
            }),
            forall|j: int| 0 <= j < old(self).nodes@.len() && j != i ==> final(self).nodes@[j] == old(self).nodes@[j],
    {
        reveal(Topology::wf);
        let PageContent { texts, comments, inputs, images, links } = content;
        let mut node = self.nodes.remove(i);
        node.texts = texts;
        node.comments = comments;
        node.inputs = inputs;
        node.images = images;
        node.links = links;
        node.explore();
        self.nodes.insert(i, node);
        proof {
            let o = old(self).nodes@;
            let n = self.nodes@;
            assert(n =~= o.update(i as int, n[i as int]));
        }
    }

    /// Records why the fetch of a page failed; the page stays unexplored.
    pub fn record_failure(&mut self, i: usize, message: String)
        requires
            old(self).wf(),
            i < old(self).nodes@.len(),
        ensures
            final(self).wf(),
            final(self).nodes@.len() == old(self).nodes@.len(),
            final(self).nodes@[i as int] == (Node { failure: Some(message), ..old(self).nodes@[i as int] }),
            forall|j: int| 0 <= j < old(self).nodes@.len() && j != i ==> final(self).nodes@[j] == old(self).nodes@[j],
    {
        reveal(Topology::wf);
        let mut node = self.nodes.remove(i);
        node.failure = Some(message);
        self.nodes.insert(i, node);
        proof {
            let o = old(self).nodes@;
            let n = self.nodes@;
            assert(n =~= o.update(i as int, n[i as int]));
        }
    }

    /// A point-in-time copy of a node's children.
    pub fn children_snapshot(&self, i: usize) -> (r: Vec<usize>)
        requires
            i < self.nodes@.len(),
        ensures
            r@ == self.nodes@[i as int].children@,
    {
        self.nodes[i].children.clone()
    }

    /// A node found on another page lies at least one level below the start.
    pub proof fn lemma_found_below(&self, i: int)
        requires
            self.wf(),
            0 <= i < self.nodes@.len(),
            self.nodes@[i].parents@.len() == 1,
        ensures
            self.nodes@[i].depth >= 1,
    {
        reveal(Topology::wf);
    }

    fn walk(&self, i: usize, out: &mut Vec<usize>)
        requires
            self.wf(),
            i < self.nodes@.len(),
        ensures
            final(out)@ == old(out)@ + preorder_from(*self, i as int),
        decreases self.nodes@.len() - i, self.nodes@[i as int].children@.len() + 1,
    {
        proof {
            reveal(Topology::wf);
        }
        let ghost start = out@;
        out.push(i);
        let n = self.nodes[i].children.len();
        let mut k: usize = 0;
        while k < n
            invariant
                self.wf(),
                i < self.nodes@.len(),
                n == self.nodes@[i as int].children@.len(),
                k <= n,
                out@ == start + seq![i] + preorder_children(*self, i as int, k as int),
            decreases n - k,
        {
            proof {
                reveal(Topology::wf);
            }
            let c = self.nodes[i].children[k];
            assert(i < c < self.nodes@.len());
            if self.nodes[c].explored {
                self.walk(c, out);
            }
            k += 1;
            assert(out@ =~= start + seq![i] + preorder_children(*self, i as int, k as int));
        }
        assert(out@ =~= start + preorder_from(*self, i as int));
    }

    /// The nodes to show, depth first from the start page: the start page
    /// whatever its state, then, for each explored child in order, that child
    /// and what is shown below it. Unexplored nodes, and all below them, are
    /// left out.
    pub fn preorder(&self) -> (r: Vec<usize>)
        requires
            self.wf(),
        ensures
            r@ == preorder_from(*self, 0),
    {
        proof {
            reveal(Topology::wf);
        }
        let mut r: Vec<usize> = Vec::new();
        self.walk(0, &mut r);
        assert(r@ =~= preorder_from(*self, 0));
        r
    }
}

/// The nodes shown from node `i` on: `i` itself, then, for each explored
/// child in order, the nodes shown from that child.
pub open spec fn preorder_from(t: Topology, i: int) -> Seq<usize>
    decreases t.nodes@.len() - i, t.nodes@[i].children@.len() + 1,
{
    if 0 <= i < t.nodes@.len() {
        seq![i as usize] + preorder_children(t, i, t.nodes@[i].children@.len() as int)
    } else {
        Seq::empty()
    }
}

/// The nodes shown below the first `k` children of node `i`.
pub open spec fn preorder_children(t: Topology, i: int, k: int) -> Seq<usize>
    decreases t.nodes@.len() - i, k,
{
    if 0 <= i < t.nodes@.len() && 0 < k <= t.nodes@[i].children@.len() {
        let c = t.nodes@[i].children@[k - 1] as int;
        preorder_children(t, i, k - 1) + if i < c && c < t.nodes@.len() && t.nodes@[c].explored {
            preorder_from(t, c)
        } else {
            Seq::empty()
        }
    } else {
        Seq::empty()
    }
}

} // verus!
