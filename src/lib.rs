//! A depth-limited, domain-bounded crawler core: the topology of the pages
//! found, the policy that decides which links become pages, the layered
//! frontier, the admission-controlled scheduler, and the driver that ties them.

pub mod cli;
pub mod config;
pub mod crawl;
pub mod error;
pub mod extract;
pub mod format;
pub mod graph;
pub mod link;
pub mod policy;
pub mod scheduler;
pub mod state;
pub mod topology;
