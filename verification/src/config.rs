//! The settings of a run.

use std::collections::HashMap;
use vstd::prelude::*;

verus! {

/// The settings of a run. They are supplied from outside; the engine only
/// reads them.
#[derive(Debug)]
pub struct Config {
    /// Whether static assets and the rendered page are minified.
    pub minify: bool,
    /// The retention window, in days.
    pub cache_max_days: i64,
    /// The title of the site.
    pub site_title: String,
    /// The directory that the cache artifact and the site are written to.
    pub target_dir: String,
    /// The directory of static assets.
    pub statics_dir: String,
    /// The directory of templates.
    pub templates_dir: String,
    /// An outbound proxy, if one is to be used.
    pub proxy: Option<String>,
    /// Where the previous aggregate can be loaded from, if anywhere.
    pub cache_url: Option<String>,
    /// The file name of the rendered output, if it is not the usual one.
    pub target_name: Option<String>,
    /// The feeds to poll, in order.
    pub sources: Vec<String>,
    /// Script helpers: a name and the path of its script.
    pub scripts: HashMap<String, String>,
}

impl Default for Config {
    /// The settings that hold where nothing else is configured.
    fn default() -> (config: Config)
        ensures
            !config.minify,
            config.cache_max_days == 0,
            config.site_title@ == "feed"@,
            config.target_dir@ == "target"@,
            config.statics_dir@ == "statics"@,
            config.templates_dir@ == "includes"@,
            config.proxy is None,
            config.cache_url is None,
            config.target_name is None,
            config.sources@.len() == 0,
            config.scripts@ == Map::<String, String>::empty(),
    {
        Config {
            minify: false,
            cache_max_days: 0,
            site_title: "feed".to_owned(),
            target_dir: "target".to_owned(),
            statics_dir: "statics".to_owned(),
            templates_dir: "includes".to_owned(),
            proxy: None,
            cache_url: None,
            target_name: None,
            sources: Vec::new(),
            scripts: HashMap::new(),
        }
    }
}

/// The name of the output file: the one that was asked for, else the one
/// that is configured, else `usual`.
pub open spec fn chosen_name(
    asked: Option<Seq<char>>,
    configured: Option<Seq<char>>,
    usual: Seq<char>,
) -> Seq<char> {
    match asked {
        Some(name) => name,
        None => match configured {
            Some(name) => name,
            None => usual,
        },
    }
}

/// The characters of a name that may be absent.
pub open spec fn name_view(name: Option<String>) -> Option<Seq<char>> {
    match name {
        Some(n) => Some(n@),
        None => None,
    }
}

impl Config {
    /// The name of the file that the rendered output is written to, within
    /// the target directory.
    pub fn output_name(&self, asked: Option<String>, usual: &str) -> (name: String)
        ensures
            name@ == chosen_name(name_view(asked), name_view(self.target_name), usual@),
    {
        match asked {
            Some(name) => name,
            None => match &self.target_name {
                Some(name) => name.clone(),
                None => usual.to_owned(),
            },
        }
    }
}

} // verus!
