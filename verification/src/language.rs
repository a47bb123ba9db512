//! Languages that submissions are written in, each a directory that holds
//! its build script and its builder and runner configurations.
use vstd::prelude::*;
use crate::text::{join_path, join_path_str};

verus! {

/// A language, by the directory that describes it.
pub struct Language {
    language_path: String,
}

impl Language {
    pub closed spec fn path_view(&self) -> Seq<char> {
        self.language_path@
    }

    /// The directory where the language `lang` would be described, under
    /// the directory of languages `lang_dir`.
    pub fn candidate_path(lang_dir: &str, lang: &str) -> (p: String)
        ensures
            p@ == join_path(lang_dir@, lang@),
    {
        join_path_str(lang_dir, lang)
    }

    /// The language described in `language_path`.
    pub fn from_path(language_path: String) -> (l: Language)
        ensures
            l.path_view() == language_path@,
    {
        Language { language_path }
    }

    /// The directory of the language.
    pub fn path(&self) -> (p: &str)
        ensures
            p@ == self.path_view(),
    {
        self.language_path.as_str()
    }

    pub fn build_script(&self) -> (p: String)
        ensures
            p@ == join_path(self.path_view(), "build.sh"@),
    {
        join_path_str(self.language_path.as_str(), "build.sh")
    }

    pub fn builder_config(&self) -> (p: String)
        ensures
            p@ == join_path(self.path_view(), "builder.toml"@),
    {
        join_path_str(self.language_path.as_str(), "builder.toml")
    }

    pub fn runner_config(&self) -> (p: String)
        ensures
            p@ == join_path(self.path_view(), "runner.toml"@),
    {
        join_path_str(self.language_path.as_str(), "runner.toml")
    }
}

} // verus!
