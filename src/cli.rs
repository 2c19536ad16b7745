use vstd::prelude::*;
use crate::error::labelled;
use crate::link::{contains_seq, url_parse, Link};

verus! {

/// What to do with the content once the crawl is over.
#[derive(Clone, Debug)]
pub enum Display {
    /// Print the extracted content in the terminal.
    Print { format: Format },
    /// Save the extracted content in a file named `name`.
    Save { format: Format, name: String },
    /// Render the topology as an HTML graph.
    Graph,
}

/// A kind of content to take from each page.
#[derive(Clone, Copy, Debug, PartialEq, Eq, Structural)]
pub enum Content {
    Texts,
    Comments,
    Links,
    Images,
    Inputs,
    /// Every kind above.
    All,
}

/// How the extracted content is written out.
#[derive(Clone, Copy, Debug, PartialEq, Eq, Structural)]
pub enum Format {
    /// One JSON record per item, tagged with its kind.
    Json,
    /// One item per line.
    Raw,
}

/// The settings of one crawl.
#[derive(Clone, Debug)]
pub struct Cli {
    pub cmd: Display,
    /// The kinds of content to take from each page.
    pub content: Vec<Content>,
    /// Where the crawl starts.
    pub url: String,
    /// How deep to crawl: 0 for the start page alone, below 0 for no limit.
    pub depth: i32,
    /// A link whose text lacks this string is ignored; empty for no bound.
    pub bound: String,
    /// The most pages fetched at once.
    pub thread: u32,
    /// The most pages outside the start domain whose links are followed.
    pub external: i32,
}

pub enum ArgsError {
    InvalidUrl(String),
}

impl ArgsError {
    /// The message shown for this error.
    pub fn print(&self) -> (r: String)
        ensures
            match self {
                ArgsError::InvalidUrl(u) => exists|p: Seq<char>| contains_seq(p, "Invalid URL"@) && r@ == p + ": "@ + u@,
            },
    {
        proof {
            reveal_strlit("Invalid URL");
        }
        match self {
            ArgsError::InvalidUrl(u) => labelled("Invalid URL", u.as_str()),
        }
    }
}

/// Accepts settings whose start URL parses and has a host.
pub fn args(cli: Cli) -> (r: Result<Cli, ArgsError>)
    ensures
        r is Ok <==> (url_parse(cli.url@) matches Some(v) && v.1 is Some),
        r matches Ok(c) ==> c == cli,
{
    match Link::parse(cli.url.as_str()) {
        Ok(v) => {
            if v.host.is_none() {
                return Err(ArgsError::InvalidUrl(v.text));
            }
            Ok(cli)
        },
        Err(e) => Err(ArgsError::InvalidUrl(e)),
    }
}

} // verus!
