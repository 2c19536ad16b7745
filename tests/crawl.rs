use coma::cli::{Cli, Content, Display, Format};
use coma::config::Config;
use coma::crawl::Crawler;

fn settings(url: &str, depth: i32, bound: &str, thread: u32, external: i32) -> Cli {
    Cli {
        cmd: Display::Print { format: Format::Json },
        content: vec![Content::All],
        url: url.to_string(),
        depth,
        bound: bound.to_string(),
        thread,
        external,
    }
}

fn crawler(url: &str, depth: i32, bound: &str, thread: u32, external: i32) -> Crawler {
    match Config::new(settings(url, depth, bound, thread, external)) {
        Ok(c) => Crawler::new(c),
        Err(_) => panic!("the start URL is valid"),
    }
}

fn page(links: &[&str]) -> String {
    let mut s = String::from("<html><body>");
    for l in links {
        s.push_str(&format!("<a href=\"{}\">x</a>", l));
    }
    s.push_str("</body></html>");
    s
}

/// Runs one layer, answering each fetch with the page that `pages` gives.
fn run_layer(c: &mut Crawler, pages: &dyn Fn(&str) -> Result<String, String>) -> Vec<String> {
    let mut visited = Vec::new();
    loop {
        let mut started = Vec::new();
        while let Some((n, url)) = c.start_fetch() {
            assert!(c.scheduler.in_flight.len() <= c.scheduler.limit);
            started.push((n, url));
        }
        if started.is_empty() {
            break;
        }
        for (n, url) in started {
            visited.push(url.clone());
            c.finish_fetch(n, pages(&url));
        }
    }
    visited
}

fn url_of(c: &Crawler, i: usize) -> String {
    c.topology.nodes[i].url.text.clone()
}

#[test]
fn depth_one_with_no_external_budget() {
    let mut c = crawler("https://example.com", 1, "", 2, 0);
    let pages = |url: &str| -> Result<String, String> {
        if url == "https://example.com/" {
            Ok(page(&["https://example.com/a", "https://other.com/x"]))
        } else {
            Ok(page(&[]))
        }
    };
    assert!(c.next_layer());
    assert_eq!(run_layer(&mut c, &pages), vec!["https://example.com/".to_string()]);
    assert!(c.finish_layer());
    assert_eq!(c.topology.nodes.len(), 2);
    assert_eq!(url_of(&c, 1), "https://example.com/a");
    assert!(c.next_layer());
    assert_eq!(run_layer(&mut c, &pages), vec!["https://example.com/a".to_string()]);
    assert!(!c.finish_layer());
    assert!(c.topology.nodes[1].explored);
    assert_eq!(c.topology.nodes[1].depth, 1);
    assert!(c.topology.nodes.iter().all(|n| !n.url.text.contains("other.com")));
    assert_eq!(c.state.current_external, 0);
    assert!(!c.next_layer());
}

#[test]
fn depth_zero_fetches_the_root_alone() {
    let mut c = crawler("https://example.com", 0, "", 2, 0);
    let pages = |_: &str| -> Result<String, String> { Ok(page(&["/a", "/b"])) };
    assert!(c.next_layer());
    assert_eq!(run_layer(&mut c, &pages).len(), 1);
    assert!(!c.finish_layer());
    assert!(c.halted);
    assert_eq!(c.topology.nodes.len(), 3);
    assert_eq!(c.topology.nodes[0].children, vec![1, 2]);
    assert!(c.topology.nodes[0].explored);
    assert!(!c.topology.nodes[1].explored);
    assert!(!c.topology.nodes[2].explored);
    assert_eq!(c.topology.nodes[1].depth, 1);
    assert!(c.state.layers.is_empty());
    assert!(!c.next_layer());
    assert_eq!(c.topology.preorder(), vec![0]);
}

#[test]
fn bound_rejects_links_without_it() {
    let mut c = crawler("https://example.com/blog", 1, "/blog", 1, 0);
    let pages = |_: &str| -> Result<String, String> {
        Ok(page(&["https://example.com/shop", "https://example.com/blog/post"]))
    };
    assert!(c.next_layer());
    run_layer(&mut c, &pages);
    assert_eq!(c.topology.nodes.len(), 2);
    assert_eq!(url_of(&c, 1), "https://example.com/blog/post");
}

#[test]
fn duplicates_are_fetched_once() {
    let mut c = crawler("https://example.com", 2, "", 3, 0);
    let pages = |url: &str| -> Result<String, String> {
        match url {
            "https://example.com/" => Ok(page(&["/a", "/b"])),
            _ => Ok(page(&["/", "/a", "/b"])),
        }
    };
    let mut fetched = Vec::new();
    while c.next_layer() {
        fetched.extend(run_layer(&mut c, &pages));
        if !c.finish_layer() {
            break;
        }
    }
    fetched.sort();
    assert_eq!(
        fetched,
        vec!["https://example.com/", "https://example.com/a", "https://example.com/b"]
    );
    let explored = c.topology.preorder();
    assert_eq!(explored.len(), 3);
    assert!(c.topology.nodes.len() > 3);
    for n in &c.topology.nodes {
        assert!(n.depth <= 3);
        if n.explored {
            assert!(n.depth <= 2);
        }
    }
}

#[test]
fn nothing_deeper_than_the_target_is_fetched() {
    let mut c = crawler("https://example.com", 1, "", 2, 0);
    let pages = |url: &str| -> Result<String, String> { Ok(page(&[&format!("{}x", url)])) };
    let mut layers = 0;
    while c.next_layer() {
        run_layer(&mut c, &pages);
        layers += 1;
        if !c.finish_layer() {
            break;
        }
    }
    assert_eq!(layers, 2);
    assert_eq!(c.topology.nodes.len(), 3);
    assert!(c.topology.nodes[1].explored);
    assert!(!c.topology.nodes[2].explored);
    assert_eq!(c.topology.nodes[2].depth, 2);
}

#[test]
fn an_empty_frontier_ends_an_unbounded_crawl() {
    let mut c = crawler("https://example.com", -1, "", 2, 0);
    let pages = |_: &str| -> Result<String, String> { Ok(page(&[])) };
    assert!(c.next_layer());
    run_layer(&mut c, &pages);
    assert!(c.finish_layer());
    assert!(!c.next_layer());
    assert!(c.halted);
}

#[test]
fn a_failed_fetch_is_recorded_and_the_layer_goes_on() {
    let mut c = crawler("https://example.com", 1, "", 1, 0);
    let pages = |url: &str| -> Result<String, String> {
        match url {
            "https://example.com/" => Ok(page(&["/a", "/b"])),
            "https://example.com/a" => Err("navigation failed".to_string()),
            _ => Ok(page(&[])),
        }
    };
    assert!(c.next_layer());
    run_layer(&mut c, &pages);
    assert!(c.finish_layer());
    assert!(c.next_layer());
    assert_eq!(run_layer(&mut c, &pages).len(), 2);
    assert_eq!(c.topology.nodes[1].failure, Some("navigation failed".to_string()));
    assert!(!c.topology.nodes[1].explored);
    assert!(c.topology.nodes[2].explored);
}

#[test]
fn fetches_never_exceed_the_limit() {
    let mut c = crawler("https://example.com", 1, "", 2, 0);
    let pages = |_: &str| -> Result<String, String> { Ok(page(&["/a", "/b", "/c", "/d", "/e"])) };
    assert!(c.next_layer());
    run_layer(&mut c, &pages);
    assert!(c.finish_layer());
    assert!(c.next_layer());
    let mut running = 0;
    while c.start_fetch().is_some() {
        running += 1;
    }
    assert_eq!(running, 2);
    assert_eq!(c.scheduler.in_flight.len(), 2);
    assert_eq!(c.scheduler.pending.len(), 3);
}

#[test]
fn external_links_spend_one_hop_per_page() {
    let mut c = crawler("https://example.com", 1, "", 1, 2);
    let pages = |_: &str| -> Result<String, String> {
        Ok(page(&["https://a.org/1", "https://b.org/2", "https://example.com/c"]))
    };
    assert!(c.next_layer());
    run_layer(&mut c, &pages);
    assert_eq!(c.state.current_external, 1);
    assert_eq!(c.topology.nodes.len(), 4);
}
