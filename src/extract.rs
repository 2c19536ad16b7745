//! What is taken from a fetched page: its links, texts, comments, images and
//! form inputs, read from the nodes of the parsed document.

use vstd::prelude::*;
use crate::cli::Content;
use crate::link::{links_view, same_text, url_join, Link, LinkView};

verus! {

/// An element of a parsed page: its name, its attributes in the parser's
/// order, and its printed form.
pub struct Element {
    pub name: String,
    pub attrs: Vec<(String, String)>,
    pub debug: String,
}

/// One node of a parsed page.
pub enum PageNode {
    Text(String),
    Comment(String),
    Element(Element),
    /// The document itself, a doctype, or a processing instruction.
    Other,
}

/// The nodes that `scraper::Html::parse_document` makes of an HTML text, in
/// the order they were inserted into the parsed tree.
pub uninterp spec fn html_nodes(html: Seq<char>) -> Seq<PageNode>;

/// Relies on `scraper::Html::parse_document`, and on `Tree::values` of the
/// parsed tree to hand out its nodes in order; each is read out as plain
/// values (`Element::name`, `Element::attrs`, and its `Debug` form).
#[verifier::external_body]
fn parse_html(html: &str) -> (r: Vec<PageNode>)
    ensures
        r@ == html_nodes(html@),
{
    let document = scraper::Html::parse_document(html);
    document.tree.values().map(|v| match v {
        scraper::Node::Text(t) => PageNode::Text((&**t).to_string()),
        scraper::Node::Comment(c) => PageNode::Comment((&**c).to_string()),
        scraper::Node::Element(e) => PageNode::Element(Element {
            name: e.name().to_string(),
            attrs: e.attrs().map(|(k, a)| (k.to_string(), a.to_string())).collect(),
            debug: format!("{:?}", e),
        }),
        _ => PageNode::Other,
    }).collect()
}

/// What one page gave, per kind of content.
pub struct PageContent {
    pub texts: Vec<String>,
    pub comments: Vec<String>,
    pub inputs: Vec<String>,
    pub images: Vec<Link>,
    pub links: Vec<Link>,
}

impl PageContent {
    pub open spec fn is_empty(&self) -> bool {
        &&& self.texts@.len() == 0
        &&& self.comments@.len() == 0
        &&& self.inputs@.len() == 0
        &&& self.images@.len() == 0
        &&& self.links@.len() == 0
    }
}

/// The value of the first attribute named `key`.
pub open spec fn first_attr(attrs: Seq<(String, String)>, key: Seq<char>) -> Option<String>
    decreases attrs.len(),
{
    if attrs.len() == 0 {
        None
    } else {
        match first_attr(attrs.drop_last(), key) {
            Some(v) => Some(v),
            None => if attrs.last().0@ == key {
                Some(attrs.last().1)
            } else {
                None
            },
        }
    }
}

/// The texts of a page, in order.
pub open spec fn texts_of(nodes: Seq<PageNode>) -> Seq<String>
    decreases nodes.len(),
{
    if nodes.len() == 0 {
        Seq::empty()
    } else {
        let acc = texts_of(nodes.drop_last());
        match nodes.last() {
            PageNode::Text(t) => acc.push(t),
            _ => acc,
        }
    }
}

/// The non-empty comments of a page, in order.
pub open spec fn comments_of(nodes: Seq<PageNode>) -> Seq<String>
    decreases nodes.len(),
{
    if nodes.len() == 0 {
        Seq::empty()
    } else {
        let acc = comments_of(nodes.drop_last());
        match nodes.last() {
            PageNode::Comment(c) => if c@.len() > 0 {
                acc.push(c)
            } else {
                acc
            },
            _ => acc,
        }
    }
}

/// The printed form of each `input` element, in order.
pub open spec fn inputs_of(nodes: Seq<PageNode>) -> Seq<String>
    decreases nodes.len(),
{
    if nodes.len() == 0 {
        Seq::empty()
    } else {
        let acc = inputs_of(nodes.drop_last());
        match nodes.last() {
            PageNode::Element(e) => if e.name@ == "input"@ {
                acc.push(e.debug)
            } else {
                acc
            },
            _ => acc,
        }
    }
}

/// The URL a node points to through attribute `key` of an element named
/// `name`, resolved against the page's URL.
pub open spec fn target(base: Seq<char>, n: PageNode, name: Seq<char>, key: Seq<char>) -> Option<LinkView> {
    match n {
        PageNode::Element(e) => if e.name@ == name {
            match first_attr(e.attrs@, key) {
                Some(v) => url_join(base, v@),
                None => None,
            }
        } else {
            None
        },
        _ => None,
    }
}

/// The sources of the page's images that resolve, in order.
pub open spec fn images_of(base: Seq<char>, nodes: Seq<PageNode>) -> Seq<LinkView>
    decreases nodes.len(),
{
    if nodes.len() == 0 {
        Seq::empty()
    } else {
        let acc = images_of(base, nodes.drop_last());
        match target(base, nodes.last(), "img"@, "src"@) {
            Some(l) => acc.push(l),
            None => acc,
        }
    }
}

pub open spec fn has_text(s: Seq<LinkView>, text: Seq<char>) -> bool {
    exists|i: int| 0 <= i < s.len() && s[i].0 == text
}

/// The targets of the page's anchors that resolve, each URL once, in the
/// order of first appearance.
pub open spec fn links_of(base: Seq<char>, nodes: Seq<PageNode>) -> Seq<LinkView>
    decreases nodes.len(),
{
    if nodes.len() == 0 {
        Seq::empty()
    } else {
        let acc = links_of(base, nodes.drop_last());
        match target(base, nodes.last(), "a"@, "href"@) {
            Some(l) => if has_text(acc, l.0) {
                acc
            } else {
                acc.push(l)
            },
            None => acc,
        }
    }
}

/// The values held by the `Some` entries, in order.
pub open spec fn somes<T>(s: Seq<Option<T>>) -> Seq<T>
    decreases s.len(),
{
    if s.len() == 0 {
        Seq::empty()
    } else {
        match s.last() {
            Some(x) => somes(s.drop_last()).push(x),
            None => somes(s.drop_last()),
        }
    }
}

/// Whether a kind is asked for, by itself or through `All`.
pub open spec fn selects(contents: Seq<Content>, kind: Content) -> bool {
    exists|i: int| 0 <= i < contents.len() && (contents[i] == kind || contents[i] == Content::All)
}

/// The content taken from a page's nodes: each kind asked for, and nothing
/// of the others.
pub open spec fn content_matches(c: PageContent, nodes: Seq<PageNode>, base: Seq<char>, contents: Seq<Content>) -> bool {
    &&& c.texts@ == if selects(contents, Content::Texts) { texts_of(nodes) } else { Seq::empty() }
    &&& c.comments@ == if selects(contents, Content::Comments) { comments_of(nodes) } else { Seq::empty() }
    &&& c.inputs@ == if selects(contents, Content::Inputs) { inputs_of(nodes) } else { Seq::empty() }
    &&& links_view(c.images@) == if selects(contents, Content::Images) { images_of(base, nodes) } else { Seq::empty() }
    &&& links_view(c.links@) == if selects(contents, Content::Links) { links_of(base, nodes) } else { Seq::empty() }
}

fn attr_value(attrs: &Vec<(String, String)>, key: &str) -> (r: Option<String>)
    ensures
        r == first_attr(attrs@, key@),
{
    let mut found: Option<String> = None;
    let mut i: usize = 0;
    while i < attrs.len()
        invariant
            i <= attrs@.len(),
            found == first_attr(attrs@.take(i as int), key@),
        decreases attrs@.len() - i,
    {
        assert(attrs@.take(i + 1).drop_last() =~= attrs@.take(i as int));
        if found.is_none() && same_text(attrs[i].0.as_str(), key) {
            found = Some(attrs[i].1.clone());
        }
        i += 1;
    }
    assert(attrs@.take(i as int) =~= attrs@);
    found
}

fn resolve(base: &Link, n: &PageNode, name: &str, key: &str) -> (r: Option<Link>)
    ensures
        match r {
            Some(l) => target(base.text@, *n, name@, key@) == Some(l@),
            None => target(base.text@, *n, name@, key@) is None,
        },
{
    match n {
        PageNode::Element(e) => {
            if same_text(e.name.as_str(), name) {
                match attr_value(&e.attrs, key) {
                    Some(v) => base.join(v.as_str()),
                    None => None,
                }
            } else {
                None
            }
        },
        _ => None,
    }
}

/// The texts of a page, in order.
pub fn extract_texts(nodes: &Vec<PageNode>) -> (r: Vec<String>)
    ensures
        r@ == texts_of(nodes@),
{
    let mut r: Vec<String> = Vec::new();
    let mut i: usize = 0;
    while i < nodes.len()
        invariant
            i <= nodes@.len(),
            r@ == texts_of(nodes@.take(i as int)),
        decreases nodes@.len() - i,
    {
        assert(nodes@.take(i + 1).drop_last() =~= nodes@.take(i as int));
        if let PageNode::Text(t) = &nodes[i] {
            r.push(t.clone());
        }
        i += 1;
    }
    assert(nodes@.take(i as int) =~= nodes@);
    r
}

/// The non-empty comments of a page, in order.
pub fn extract_comments(nodes: &Vec<PageNode>) -> (r: Vec<String>)
    ensures
        r@ == comments_of(nodes@),
{
    let mut r: Vec<String> = Vec::new();
    let mut i: usize = 0;
    while i < nodes.len()
        invariant
            i <= nodes@.len(),
            r@ == comments_of(nodes@.take(i as int)),
        decreases nodes@.len() - i,
    {
        assert(nodes@.take(i + 1).drop_last() =~= nodes@.take(i as int));
        if let PageNode::Comment(c) = &nodes[i] {
            if c.unicode_len() > 0 {
                r.push(c.clone());
            }
        }
        i += 1;
    }
    assert(nodes@.take(i as int) =~= nodes@);
    r
}

/// The values that `filter` gives, in order, for the elements of a page:
/// `filter` is applied to each element once and to no other node, and each
/// `Some` it returns is kept.
pub fn extract_element<T, F: Fn(&Element) -> Option<T>>(nodes: &Vec<PageNode>, filter: F) -> (r: Vec<T>)
    requires
        forall|e: &Element| filter.requires((e,)),
    ensures
        exists|outs: Seq<Option<T>>|
            {
                &&& outs.len() == nodes@.len()
                &&& forall|i: int|
                    0 <= i < nodes@.len() ==> match nodes@[i] {
                        PageNode::Element(e) => filter.ensures((&e,), #[trigger] outs[i]),
                        _ => outs[i] is None,
                    }
                &&& r@ == somes(outs)
            },
{
    let ghost mut outs: Seq<Option<T>> = Seq::empty();
    let mut r: Vec<T> = Vec::new();
    let mut i: usize = 0;
    while i < nodes.len()
        invariant
            i <= nodes@.len(),
            forall|e: &Element| filter.requires((e,)),
            outs.len() == i,
            forall|j: int|
                0 <= j < i ==> match nodes@[j] {
                    PageNode::Element(e) => filter.ensures((&e,), #[trigger] outs[j]),
                    _ => outs[j] is None,
                },
            r@ == somes(outs),
        decreases nodes@.len() - i,
    {
        let ghost before = outs;
        match &nodes[i] {
            PageNode::Element(e) => {
                let v = filter(e);
                proof {
                    outs = outs.push(v);
                }
                match v {
                    Some(x) => r.push(x),
                    None => {},
                }
            },
            _ => {
                proof {
                    outs = outs.push(None);
                }
            },
        }
        assert(outs.drop_last() =~= before);
        assert forall|j: int| 0 <= j < i + 1 implies match nodes@[j] {
            PageNode::Element(e) => filter.ensures((&e,), #[trigger] outs[j]),
            _ => outs[j] is None,
        } by {
            if j < i {
                assert(outs[j] == before[j]);
            }
        }
        i += 1;
    }
    r
}

/// The printed form of each `input` element, in order.
pub fn extract_input(nodes: &Vec<PageNode>) -> (r: Vec<String>)
    ensures
        r@ == inputs_of(nodes@),
{
    let mut r: Vec<String> = Vec::new();
    let mut i: usize = 0;
    while i < nodes.len()
        invariant
            i <= nodes@.len(),
            r@ == inputs_of(nodes@.take(i as int)),
        decreases nodes@.len() - i,
    {
        assert(nodes@.take(i + 1).drop_last() =~= nodes@.take(i as int));
        if let PageNode::Element(e) = &nodes[i] {
            if same_text(e.name.as_str(), "input") {
                r.push(e.debug.clone());
            }
        }
        i += 1;
    }
    assert(nodes@.take(i as int) =~= nodes@);
    r
}

/// The sources of the page's images that resolve against its URL, in order.
pub fn extract_images(base: &Link, nodes: &Vec<PageNode>) -> (r: Vec<Link>)
    ensures
        links_view(r@) == images_of(base.text@, nodes@),
{
    let mut r: Vec<Link> = Vec::new();
    let mut i: usize = 0;
    while i < nodes.len()
        invariant
            i <= nodes@.len(),
            links_view(r@) == images_of(base.text@, nodes@.take(i as int)),
        decreases nodes@.len() - i,
    {
        assert(nodes@.take(i + 1).drop_last() =~= nodes@.take(i as int));
        if let Some(l) = resolve(base, &nodes[i], "img", "src") {
            r.push(l);
            assert(links_view(r@) =~= images_of(base.text@, nodes@.take(i as int)).push(r@.last()@));
        }
        i += 1;
    }
    assert(nodes@.take(i as int) =~= nodes@);
    r
}

fn holds_text(s: &Vec<Link>, text: &str) -> (r: bool)
    ensures
        r == has_text(links_view(s@), text@),
{
    let mut i: usize = 0;
    while i < s.len()
        invariant
            i <= s@.len(),
            forall|k: int| 0 <= k < i ==> s@[k].text@ != text@,
        decreases s@.len() - i,
    {
        if same_text(s[i].text.as_str(), text) {
            assert(links_view(s@)[i as int].0 == text@);
            return true;
        }
        i += 1;
    }
    false
}

/// The targets of the page's anchors that resolve against its URL, each URL
/// once, in the order of first appearance.
pub fn extract_links(base: &Link, nodes: &Vec<PageNode>) -> (r: Vec<Link>)
    ensures
        links_view(r@) == links_of(base.text@, nodes@),
{
    let mut r: Vec<Link> = Vec::new();
    let mut i: usize = 0;
    while i < nodes.len()
        invariant
            i <= nodes@.len(),
            links_view(r@) == links_of(base.text@, nodes@.take(i as int)),
        decreases nodes@.len() - i,
    {
        assert(nodes@.take(i + 1).drop_last() =~= nodes@.take(i as int));
        if let Some(l) = resolve(base, &nodes[i], "a", "href") {
            if !holds_text(&r, l.text.as_str()) {
                r.push(l);
                assert(links_view(r@) =~= links_of(base.text@, nodes@.take(i as int)).push(r@.last()@));
            }
        }
        i += 1;
    }
    assert(nodes@.take(i as int) =~= nodes@);
    r
}

/// Whether a kind is asked for, by itself or through `All`.
pub fn wants(contents: &Vec<Content>, kind: Content) -> (r: bool)
    ensures
        r == selects(contents@, kind),
{
    let mut i: usize = 0;
    while i < contents.len()
        invariant
            i <= contents@.len(),
            forall|k: int| 0 <= k < i ==> contents@[k] != kind && contents@[k] != Content::All,
        decreases contents@.len() - i,
    {
        if contents[i] == kind || contents[i] == Content::All {
            return true;
        }
        i += 1;
    }
    false
}

/// The content of a page, given its HTML and its URL, for the kinds asked
/// for (`All` asks for every kind), with the links found on it, which are
/// reported whatever was asked for.
pub fn parse_document(html: &str, base: &Link, contents: &Vec<Content>) -> (r: (Vec<Link>, PageContent))
    ensures
        links_view(r.0@) == links_of(base.text@, html_nodes(html@)),
        content_matches(r.1, html_nodes(html@), base.text@, contents@),
{
    let nodes = parse_html(html);
    let links = extract_links(base, &nodes);
    let texts = if wants(contents, Content::Texts) { extract_texts(&nodes) } else { Vec::new() };
    let comments = if wants(contents, Content::Comments) { extract_comments(&nodes) } else { Vec::new() };
    let inputs = if wants(contents, Content::Inputs) { extract_input(&nodes) } else { Vec::new() };
    let images = if wants(contents, Content::Images) { extract_images(base, &nodes) } else { Vec::new() };
    let page_links = if wants(contents, Content::Links) { extract_links(base, &nodes) } else { Vec::new() };
    proof {
        assert(links_view(Seq::<Link>::empty()) =~= Seq::<LinkView>::empty());
    }
    (links, PageContent { texts, comments, inputs, images, links: page_links })
}

} // verus!
