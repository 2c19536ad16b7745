use coma::cli::{Content, Display, Format};
use coma::error::{BrowseError, ScrapyError};
use coma::extract::PageContent;
use coma::format::{join, save_file_name, Data, FormatError, Output};
use coma::graph::{Graph, GraphError};
use coma::link::Link;
use coma::scheduler::Scheduler;
use coma::state::State;
use coma::topology::{Node, Topology};

fn link(s: &str) -> Link {
    Link::parse(s).ok().unwrap()
}

fn sample() -> Topology {
    let mut t = Topology::new(link("https://example.com/"), "https://example.com/".to_string());
    let a = Node::new_arc(&mut t, Some(0), link("https://example.com/a"), "https://example.com/a".to_string());
    let b = Node::new_arc(&mut t, Some(0), link("https://example.com/b"), "https://example.com/b".to_string());
    assert_eq!((a, b), (1, 2));
    t.record(
        0,
        PageContent {
            texts: vec!["hello".to_string(), "world".to_string()],
            comments: vec!["c".to_string()],
            inputs: vec!["<input>".to_string()],
            images: vec![link("https://example.com/i.png")],
            links: vec![link("https://example.com/a"), link("https://example.com/b")],
        },
    );
    t.record(1, PageContent { texts: vec![], comments: vec![], inputs: vec![], images: vec![], links: vec![] });
    t
}

#[test]
fn nodes_are_owned_by_their_parent() {
    let t = sample();
    assert_eq!(t.children_snapshot(0), vec![1, 2]);
    assert_eq!(t.nodes[1].parents, vec![0]);
    assert_eq!(t.nodes[2].depth, 1);
    assert_eq!(t.nodes[0].quantity_elements(), 4);
    assert_eq!(t.preorder(), vec![0, 1]);
}

#[test]
fn json_records_read_back_by_kind() {
    let t = sample();
    let d = t.nodes[0].aggregate_json(&vec![Content::All]);
    let kinds: Vec<Content> = d.iter().map(|x| x.kind).collect();
    assert_eq!(
        kinds,
        vec![Content::Texts, Content::Texts, Content::Comments, Content::Links, Content::Links, Content::Images, Content::Inputs]
    );
    let texts: Vec<String> = d.iter().filter(|x| x.kind == Content::Texts).map(|x| x.content.clone()).collect();
    assert_eq!(texts, vec!["hello", "world"]);
    let links: Vec<String> = d.iter().filter(|x| x.kind == Content::Links).map(|x| x.content.clone()).collect();
    assert_eq!(links, vec!["https://example.com/a", "https://example.com/b"]);
    let tagged = Data::json(vec!["x".to_string()], Content::Comments);
    assert_eq!(tagged.len(), 1);
    assert_eq!(tagged[0].kind, Content::Comments);
}

#[test]
fn raw_output_is_one_item_per_line() {
    let t = sample();
    let s = t.nodes[0].aggregate_raw(&vec![Content::Texts, Content::Images]);
    assert_eq!(s, "hello\nworld\nhttps://example.com/i.png");
    let all = t.nodes[0].aggregate_raw(&vec![Content::All]);
    assert_eq!(
        all,
        "hello\nworld\nc\nhttps://example.com/a\nhttps://example.com/b\nhttps://example.com/i.png\n<input>"
    );
    let lines: Vec<&str> = all.split('\n').collect();
    assert_eq!(lines.len(), 7);
    assert_eq!(lines[6], "<input>");
    assert_eq!(join(&vec![]), "");
    assert_eq!(join(&vec!["a".to_string()]), "a");
}

#[test]
fn format_follows_the_command() {
    let t = sample();
    let n = &t.nodes[0];
    match n.format(&vec![Content::Comments], &Display::Print { format: Format::Raw }) {
        Ok(Output::Raw(s)) => assert_eq!(s, "c"),
        _ => panic!("raw output"),
    }
    match n.format(&vec![Content::Inputs], &Display::Save { format: Format::Json, name: "out".to_string() }) {
        Ok(Output::Json(d)) => assert_eq!(d[0].content, "<input>"),
        _ => panic!("json output"),
    }
    assert!(matches!(n.format(&vec![Content::All], &Display::Graph), Err(FormatError::Graph)));
    assert_eq!(save_file_name(&"output".to_string(), Format::Json), "output.json");
    assert_eq!(save_file_name(&"output".to_string(), Format::Raw), "output.txt");
}

#[test]
fn graph_shows_explored_nodes() {
    let t = sample();
    let g = Graph::from_root(&t);
    let ids: Vec<String> = g.nodes.iter().map(|n| n.id.clone()).collect();
    assert_eq!(ids, vec!["https://example.com/", "https://example.com/a"]);
    assert_eq!(g.nodes[0].images, vec!["https://example.com/i.png"]);
    assert_eq!(g.edges.len(), 1);
    assert_eq!(g.edges[0].from, "https://example.com/");
    assert_eq!(g.edges[0].to, "https://example.com/a");
    let m = GraphError("boom".to_string()).print();
    assert!(m.contains("Graph error"));
    assert!(m.ends_with(": boom"));
}

#[test]
fn frontier_layers_and_visited_set() {
    let t = sample();
    let mut s = State::new(0);
    assert_eq!(s.pop_layer(), Some(()));
    assert_eq!(s.current_layer, vec![0]);
    assert_eq!(s.pop_layer(), None);
    s.add_to_next_layer(vec![]);
    assert!(s.layers.is_empty());
    s.add_to_next_layer(vec![1]);
    s.add_to_next_layer(vec![2]);
    assert_eq!(s.layers, vec![vec![1, 2]]);
    assert!(!s.known(&t, 1));
    assert!(s.known(&t, 1));
    assert!(!s.known(&t, 2));
    assert_eq!(s.visited, vec![1, 2]);
}

#[test]
fn scheduler_caps_the_slots() {
    let mut s = Scheduler::new(2);
    for n in 0..4 {
        s.enqueue(n);
    }
    assert_eq!(s.grant_slot(), Some(0));
    assert_eq!(s.grant_slot(), Some(1));
    assert_eq!(s.grant_slot(), None);
    assert!(s.complete(0));
    assert!(!s.complete(0));
    assert_eq!(s.grant_slot(), Some(2));
    assert!(!s.idle());
}

#[test]
fn error_messages() {
    let b = BrowseError::Browser("x".to_string()).print();
    assert!(b.contains("Browser error") && b.ends_with(": x"));
    let s = ScrapyError::Browser("y".to_string()).print();
    assert!(s.contains("Browser error") && s.ends_with(": y"));
}

#[test]
fn a_node_with_only_an_input_keeps_it_in_raw_output() {
    let mut t = Topology::new(link("https://example.com/"), "https://example.com/".to_string());
    t.record(
        0,
        PageContent { texts: vec![], comments: vec![], inputs: vec!["<input name=\"q\">".to_string()], images: vec![], links: vec![] },
    );
    assert_eq!(t.nodes[0].aggregate_raw(&vec![Content::All]), "<input name=\"q\">");
}

#[test]
fn shown_nodes_are_listed_depth_first() {
    let mut t = Topology::new(link("https://example.com/"), "https://example.com/".to_string());
    let a = Node::new_arc(&mut t, Some(0), link("https://example.com/a"), "a".to_string());
    let b = Node::new_arc(&mut t, Some(0), link("https://example.com/b"), "b".to_string());
    let c = Node::new_arc(&mut t, Some(a), link("https://example.com/c"), "c".to_string());
    let d = Node::new_arc(&mut t, Some(b), link("https://example.com/d"), "d".to_string());
    let e = Node::new_arc(&mut t, Some(d), link("https://example.com/e"), "e".to_string());
    for i in [0, a, b, c, e] {
        t.record(i, PageContent { texts: vec![], comments: vec![], inputs: vec![], images: vec![], links: vec![] });
    }
    assert_eq!((a, b, c, d, e), (1, 2, 3, 4, 5));
    assert_eq!(t.preorder(), vec![0, 1, 3, 2]);
}
