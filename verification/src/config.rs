//! The configuration: where the templates are stored, which languages are
//! offered, and the theme.

use vstd::prelude::*;
use vstd::string::StringExecFns;

verus! {

/// The theme of a configuration that was never changed.
pub const DEFAULT_THEME: &'static str = "default";

/// The configuration.
#[derive(Debug, PartialEq, Eq)]
pub struct Config {
    /// The directory that holds the templates.
    pub template_dir: String,
    /// The languages offered where one is to be chosen.
    pub languages: Vec<String>,
    /// The theme, which changes nothing but looks.
    pub theme: String,
}

/// The languages offered by a configuration that was never changed.
pub open spec fn default_languages() -> Seq<Seq<char>> {
    seq!["Rust"@, "Python"@, "Java"@, "PHP"@, "C"@, "C++"@, "HTML"@, "Go"@]
}

impl Config {
    /// The configuration of a first run: the given store directory, the
    /// default languages and the default theme.
    pub fn init(template_dir: String) -> (config: Config)
        ensures
            config.template_dir == template_dir,
            config.languages.deep_view() == default_languages(),
            config.theme@ == DEFAULT_THEME@,
    {
        let mut languages: Vec<String> = Vec::new();
        languages.push(String::from_str("Rust"));
        languages.push(String::from_str("Python"));
        languages.push(String::from_str("Java"));
        languages.push(String::from_str("PHP"));
        languages.push(String::from_str("C"));
        languages.push(String::from_str("C++"));
        languages.push(String::from_str("HTML"));
        languages.push(String::from_str("Go"));
        assert(languages.deep_view() == default_languages());
        Config { template_dir, languages, theme: String::from_str(DEFAULT_THEME) }
    }
}

} // verus!
