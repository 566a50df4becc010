//! Project configuration as plain data.
//!
//! Parsing the on-disk configuration file is a collaborator's job; the
//! library only holds the parsed values and their defaults.

use vstd::prelude::*;
use vstd::string::StringExecFns;

verus! {

/// The whole configuration of one documentation project.
pub struct Config {
    pub package: Package,
    pub files: Files,
    pub options: Options,
}

/// Package identity: a display name, a language code, an optional author
/// and a list of translation pairs.
pub struct Package {
    pub name: String,
    pub code: String,
    pub author: Option<String>,
    pub translations: Vec<(String, String)>,
}

/// Behaviour switches.
pub struct Options {
    pub minify: bool,
}

impl Default for Options {
    /// Minification is on unless the configuration turns it off.
    fn default() -> (r: Options)
        ensures
            r.minify == true,
    {
        Options { minify: true }
    }
}

/// Where the project's files live, relative to its root.
pub struct Files {
    pub build: String,
    pub source: String,
    pub main: String,
    pub phoner: String,
    pub dict: String,
    pub template: String,
}

impl Default for Files {
    fn default() -> (r: Files)
        ensures
            r.build@ == "./build/"@,
            r.source@ == "./assets/"@,
            r.main@ == "main.ling"@,
            r.phoner@ == "phoner"@,
            r.dict@ == "dict.dlst"@,
            r.template@ == "template.html"@,
    {
        Files {
            build: String::from_str("./build/"),
            source: String::from_str("./assets/"),
            main: String::from_str("main.ling"),
            phoner: String::from_str("phoner"),
            dict: String::from_str("dict.dlst"),
            template: String::from_str("template.html"),
        }
    }
}

} // verus!
