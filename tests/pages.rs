use coma::cli::{args, Cli, Content, Display, Format};
use coma::config::{Config, ConfigError};
use coma::extract::{
    extract_comments, extract_element, extract_images, extract_input, extract_links, extract_texts, parse_document,
    Element, PageNode,
};
use coma::link::{contains, same_text, Link};

fn settings(url: &str, bound: &str, external: i32) -> Cli {
    Cli {
        cmd: Display::Graph,
        content: vec![Content::All],
        url: url.to_string(),
        depth: 0,
        bound: bound.to_string(),
        thread: 1,
        external,
    }
}

fn link(s: &str) -> Link {
    match Link::parse(s) {
        Ok(l) => l,
        Err(e) => panic!("{}", e),
    }
}

fn texts(links: &[Link]) -> Vec<String> {
    links.iter().map(|l| l.text.clone()).collect()
}

#[test]
fn parse_reads_text_and_host() {
    let l = link("https://Example.com/a/../b?q=1");
    assert_eq!(l.text, "https://example.com/b?q=1");
    assert_eq!(l.host, Some("example.com".to_string()));
    assert!(Link::parse("not a url").is_err());
    assert_eq!(link("mailto:someone@example.com").host, None);
}

#[test]
fn join_resolves_against_the_base() {
    let base = link("https://example.com/dir/page.html");
    assert_eq!(base.join("other.html").unwrap().text, "https://example.com/dir/other.html");
    assert_eq!(base.join("/root").unwrap().text, "https://example.com/root");
    assert_eq!(base.join("https://other.org/x").unwrap().host, Some("other.org".to_string()));
    assert!(base.join("http://[").is_none());
}

#[test]
fn substring_search() {
    assert!(contains("https://example.com/blog/1", "/blog"));
    assert!(!contains("https://example.com/shop", "/blog"));
    assert!(contains("anything", ""));
    assert!(!contains("ab", "abc"));
    assert!(same_text("abc", "abc"));
    assert!(!same_text("abc", "abd"));
}

#[test]
fn args_need_a_url_with_a_host() {
    assert!(args(settings("https://example.com", "", 0)).is_ok());
    match args(settings("data:text/plain,hi", "", 0)) {
        Err(e) => {
            let m = e.print();
            assert!(m.contains("Invalid URL"));
            assert!(m.ends_with(": data:text/plain,hi"));
        }
        Ok(_) => panic!("a URL without a host is refused"),
    }
    assert!(args(settings("nope", "", 0)).is_err());
}

#[test]
fn config_derives_the_domain() {
    let c = match Config::new(settings("https://example.com/start", "", 0)) {
        Ok(c) => c,
        Err(_) => panic!("valid"),
    };
    assert_eq!(c.domain, "example.com");
    assert_eq!(c.root.text, "https://example.com/start");
    assert!(c.same_domain(&link("https://example.com/x")));
    assert!(!c.same_domain(&link("https://sub.example.com/x")));
    assert!(c.in_bound(&link("https://other.org")));
    match Config::new(settings("data:text/plain,hi", "", 0)) {
        Err(ConfigError::Message(m)) => assert_eq!(m, "Url doesn't have a domain"),
        Ok(_) => panic!("no host"),
    }
    let e = ConfigError::Message("bad".to_string());
    let m = e.print();
    assert!(m.contains("Config error"));
    assert!(m.ends_with(": bad"));
}

#[test]
fn policy_keeps_the_order_and_spends_one_hop() {
    let c = Config::new(settings("https://example.com", "", 1)).ok().unwrap();
    let links = vec![
        link("https://other.org/1"),
        link("https://example.com/a"),
        link("https://third.org/2"),
        link("mailto:x@example.com"),
    ];
    let (accepted, hops) = c.filter_links(&links, 0);
    assert_eq!(texts(&accepted), vec!["https://other.org/1", "https://example.com/a"]);
    assert_eq!(hops, 1);
    let (accepted, hops) = c.filter_links(&links, 1);
    assert_eq!(texts(&accepted), vec!["https://example.com/a"]);
    assert_eq!(hops, 1);
}

#[test]
fn policy_with_budget_left_takes_several_externals_for_one_hop() {
    let c = Config::new(settings("https://example.com", "", 3)).ok().unwrap();
    let links = vec![link("https://a.org/"), link("https://b.org/"), link("https://c.org/")];
    let (accepted, hops) = c.filter_links(&links, 0);
    assert_eq!(accepted.len(), 3);
    assert_eq!(hops, 1);
    let (accepted, hops) = c.filter_links(&vec![link("https://example.com/")], 0);
    assert_eq!(accepted.len(), 1);
    assert_eq!(hops, 0);
}

#[test]
fn policy_applies_the_bound() {
    let c = Config::new(settings("https://example.com/blog", "/blog", 5)).ok().unwrap();
    let links = vec![link("https://example.com/shop"), link("https://example.com/blog/1"), link("https://x.org/")];
    let (accepted, hops) = c.filter_links(&links, 0);
    assert_eq!(texts(&accepted), vec!["https://example.com/blog/1"]);
    assert_eq!(hops, 0);
}

const HTML: &str = "<html><head><title>T</title></head><body>\
<!-- note --><!---->\
<a href=\"/a\">one</a><a href=\"/a\">again</a><a>none</a><a href=\"https://x.org/\">x</a>\
<img src=\"pic.png\"><img alt=\"no source\">\
<form><input name=\"q\" type=\"text\"></form>\
</body></html>";

#[test]
fn parse_document_takes_what_is_asked() {
    let base = link("https://example.com/dir/");
    let (links, content) = parse_document(HTML, &base, &vec![Content::All]);
    assert_eq!(texts(&links), vec!["https://example.com/a", "https://x.org/"]);
    assert_eq!(content.comments, vec![" note ".to_string()]);
    assert_eq!(texts(&content.images), vec!["https://example.com/dir/pic.png"]);
    assert_eq!(content.inputs, vec!["<input name=\"q\" type=\"text\">".to_string()]);
    assert!(content.texts.contains(&"T".to_string()));
    assert!(content.texts.contains(&"one".to_string()));
    assert_eq!(texts(&content.links), texts(&links));

    let (links, content) = parse_document(HTML, &base, &vec![Content::Comments]);
    assert_eq!(links.len(), 2);
    assert_eq!(content.comments.len(), 1);
    assert!(content.texts.is_empty());
    assert!(content.images.is_empty());
    assert!(content.inputs.is_empty());
    assert!(content.links.is_empty());
}

fn element(name: &str, attrs: &[(&str, &str)]) -> PageNode {
    PageNode::Element(Element {
        name: name.to_string(),
        attrs: attrs.iter().map(|(k, v)| (k.to_string(), v.to_string())).collect(),
        debug: format!("<{}>", name),
    })
}

#[test]
fn elements_by_name() {
    let nodes = vec![
        PageNode::Other,
        element("a", &[("class", "c"), ("href", "/x")]),
        PageNode::Text("t".to_string()),
        element("img", &[("src", "/i.png")]),
        element("a", &[("href", "/x")]),
        element("a", &[("href", "/y")]),
        PageNode::Comment(String::new()),
        PageNode::Comment("kept".to_string()),
        element("input", &[]),
        element("a", &[]),
    ];
    let hrefs = extract_element(&nodes, |e: &Element| {
        if e.name == "a" {
            e.attrs.iter().find(|(k, _)| k == "href").map(|(_, v)| v.clone())
        } else {
            None
        }
    });
    assert_eq!(hrefs, vec!["/x", "/x", "/y"]);
    let names = extract_element(&nodes, |e: &Element| Some(e.name.clone()));
    assert_eq!(names, vec!["a", "img", "a", "a", "input", "a"]);
    let base = link("https://example.com/p/");
    assert_eq!(texts(&extract_links(&base, &nodes)), vec!["https://example.com/x", "https://example.com/y"]);
    assert_eq!(texts(&extract_images(&base, &nodes)), vec!["https://example.com/i.png"]);
    assert_eq!(extract_texts(&nodes), vec!["t".to_string()]);
    assert_eq!(extract_comments(&nodes), vec!["kept".to_string()]);
    assert_eq!(extract_input(&nodes), vec!["<input>".to_string()]);
}
