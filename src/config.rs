//! Where the builder reads and writes.
use crate::paths::{join, join_paths};
use vstd::prelude::*;
use vstd::string::*;

verus! {

/// The roots of one site: content in, pages out, logs.
#[derive(Debug, Clone)]
pub struct Config {
    pub content_root: String,
    pub output_root: String,
    pub logs_root: String,
    pub debug: bool,
}

impl Config {
    pub fn new(content_root: String, logs_root: String, output_root: String, debug: bool) -> (r:
        Config)
        ensures
            r.content_root@ == content_root@,
            r.logs_root@ == logs_root@,
            r.output_root@ == output_root@,
            r.debug == debug,
    {
        Config { content_root, logs_root, output_root, debug }
    }

    /// The folder of the structured logs.
    pub fn json_logs(&self) -> (r: String)
        ensures
            r@ == join(self.logs_root@, "json"@),
    {
        join_paths(self.logs_root.as_str(), "json")
    }

    /// The folder of the plain-text logs.
    pub fn txt_logs(&self) -> (r: String)
        ensures
            r@ == join(self.logs_root@, "txt"@),
    {
        join_paths(self.logs_root.as_str(), "txt")
    }
}

/// The fixed layout of a site, relative to where the builder runs.
#[derive(Debug, Clone)]
pub struct Site {
    pub content_dir: String,
    pub data_dir: String,
    pub docs_dir: String,
    pub scripts_dir: String,
}

impl Site {
    pub fn new() -> (r: Site)
        ensures
            r.content_dir@ == "content"@,
            r.data_dir@ == "content/_data"@,
            r.docs_dir@ == "docs"@,
            r.scripts_dir@ == "content/_scripts"@,
    {
        Site {
            content_dir: String::from_str("content"),
            data_dir: String::from_str("content/_data"),
            docs_dir: String::from_str("docs"),
            scripts_dir: String::from_str("content/_scripts"),
        }
    }
}

/// What the development server serves, and on which port.
#[derive(Debug, Clone)]
pub struct Server {
    pub config: Config,
    pub port: u16,
}

impl Server {
    pub fn new(config: Config, port: u16) -> (r: Server)
        ensures
            r.config == config,
            r.port == port,
    {
        Server { config, port }
    }
}

} // verus!
