//! Configuration values and their defaults. Reading a configuration file
//! from disk is a caller's concern; the accessors and the template are
//! plain logic.

use vstd::prelude::*;

verus! {

/// Scan-related settings.
#[derive(Debug)]
pub struct ScanConfig {
    pub max_file_size: Option<u64>,
    pub respect_gitignore: Option<bool>,
    pub tags: Option<Vec<String>>,
}

/// Output-related settings.
#[derive(Debug)]
pub struct OutputConfig {
    pub format: Option<String>,
    pub color: Option<String>,
}

/// Filter-related settings.
#[derive(Debug)]
pub struct FilterConfig {
    pub exclude_patterns: Option<Vec<String>>,
}

/// The whole configuration; every section is optional.
#[derive(Debug)]
pub struct Config {
    pub scan: Option<ScanConfig>,
    pub output: Option<OutputConfig>,
    pub filter: Option<FilterConfig>,
}

impl Default for Config {
    /// A configuration with nothing set.
    fn default() -> (r: Config)
        ensures
            r.scan is None,
            r.output is None,
            r.filter is None,
    {
        Config { scan: None, output: None, filter: None }
    }
}

impl Config {
    /// A configuration with nothing set.
    pub fn new() -> (r: Config)
        ensures
            r.scan is None,
            r.output is None,
            r.filter is None,
    {
        Config { scan: None, output: None, filter: None }
    }

    /// A commented template suitable for writing to a new configuration
    /// file.
    pub fn default_template() -> (r: String)
        ensures
            r@ == "# todo-tracker configuration\n# See: https://github.com/todo-tracker/todo-tracker\n\n# [scan]\n# max_file_size = 1048576  # 1MB\n# respect_gitignore = true\n# tags = [\"TODO\", \"FIXME\", \"HACK\", \"BUG\", \"XXX\"]\n\n# [output]\n# format = \"text\"  # text, json, csv, markdown, count\n# color = \"auto\"   # auto, always, never\n\n# [filter]\n# exclude_patterns = []\n"@,
    {
        String::from_str(
            "# todo-tracker configuration\n# See: https://github.com/todo-tracker/todo-tracker\n\n# [scan]\n# max_file_size = 1048576  # 1MB\n# respect_gitignore = true\n# tags = [\"TODO\", \"FIXME\", \"HACK\", \"BUG\", \"XXX\"]\n\n# [output]\n# format = \"text\"  # text, json, csv, markdown, count\n# color = \"auto\"   # auto, always, never\n\n# [filter]\n# exclude_patterns = []\n",
        )
    }

    /// The configured maximum file size, or one megabyte.
    pub fn get_max_file_size(&self) -> (r: u64)
        ensures
            r == (match self.scan {
                Some(s) => match s.max_file_size {
                    Some(m) => m,
                    None => 1048576u64,
                },
                None => 1048576u64,
            }),
    {
        match &self.scan {
            Some(s) => match s.max_file_size {
                Some(m) => m,
                None => 1048576,
            },
            None => 1048576,
        }
    }

    /// The configured output format name, or `text`.
    pub fn get_format(&self) -> (r: String)
        ensures
            r@ == (match self.output {
                Some(o) => match o.format {
                    Some(f) => f@,
                    None => "text"@,
                },
                None => "text"@,
            }),
    {
        match &self.output {
            Some(o) => match &o.format {
                Some(f) => f.clone(),
                None => String::from_str("text"),
            },
            None => String::from_str("text"),
        }
    }
}

} // verus!
