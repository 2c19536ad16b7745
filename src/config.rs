use vstd::prelude::*;
use crate::cli::Cli;
use crate::error::labelled;
use crate::link::{contains, contains_seq, same_text, url_parse, Link};

verus! {

/// The settings of a crawl together with what is derived from its start URL.
pub struct Config {
    /// The host of the start URL; links to it are internal.
    pub domain: String,
    /// The start URL.
    pub root: Link,
    pub args: Cli,
}

pub enum ConfigError {
    Message(String),
}

impl ConfigError {
    /// The message shown for this error.
    pub fn print(&self) -> (r: String)
        ensures
            match self {
                ConfigError::Message(m) => exists|p: Seq<char>| contains_seq(p, "Config error"@) && r@ == p + ": "@ + m@,
            },
    {
        proof {
            reveal_strlit("Config error");
        }
        match self {
            ConfigError::Message(m) => labelled("Config error", m.as_str()),
        }
    }
}

impl Config {
    /// The start URL's host, and the URL itself, where it parses and has one.
    pub open spec fn root_of(args: Cli) -> Option<(Seq<char>, Seq<char>)> {
        match url_parse(args.url@) {
            Some(v) => match v.1 {
                Some(h) => Some((h, v.0)),
                None => None,
            },
            None => None,
        }
    }

    /// Derives the domain and the start URL from the settings; fails where
    /// the start URL does not parse or has no host.
    pub fn new(args: Cli) -> (r: Result<Config, ConfigError>)
        ensures
            r is Ok <==> Self::root_of(args) is Some,
            r matches Ok(c) ==> {
                &&& c.args == args
                &&& Some((c.domain@, c.root.text@)) == Self::root_of(args)
                &&& c.root.host == Some(c.domain)
            },
            r matches Err(ConfigError::Message(m)) ==> (url_parse(args.url@) is Some ==> m@
                == "Url doesn't have a domain"@),
    {
        let root = match Link::parse(args.url.as_str()) {
            Ok(v) => v,
            Err(e) => return Err(ConfigError::Message(e)),
        };
        let domain = match &root.host {
            Some(h) => h.clone(),
            None => return Err(ConfigError::Message("Url doesn't have a domain".to_string())),
        };
        Ok(Config { domain, root, args })
    }

    /// Whether the link's host is the crawl's domain.
    pub fn same_domain(&self, url: &Link) -> (r: bool)
        ensures
            r == (url@.1 == Some(self.domain@)),
    {
        match &url.host {
            Some(h) => same_text(h.as_str(), self.domain.as_str()),
            None => false,
        }
    }

    /// Whether the link's text holds the bound (always so for an empty bound).
    pub fn in_bound(&self, url: &Link) -> (r: bool)
        ensures
            r == contains_seq(url@.0, self.args.bound@),
    {
        contains(url.text.as_str(), self.args.bound.as_str())
    }
}

} // verus!
