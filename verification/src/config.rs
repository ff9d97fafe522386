//! Downloader configuration and where each model category lives on disk.

use vstd::prelude::*;
use crate::paths::{join_path, path_has_prefix, path_join, path_parent, path_parent_of, path_starts_with, trim_slashes, trim_slashes_of};
use crate::table::StrTable;

verus! {

/// Where models are stored, the access token for gated downloads, and
/// per-category sub-directories that override the category name.
#[derive(Clone)]
pub struct Config {
    pub models_dir: String,
    pub hf_token: Option<String>,
    pub paths: StrTable<String>,
}

impl Config {
    /// The directory of a category: the models directory joined with the
    /// category's entry in `paths` (stripped of leading and trailing '/'),
    /// or with the category name itself when it has no entry.
    pub open spec fn category_dir(self, category: Seq<char>) -> Seq<char> {
        if self.paths@.contains_key(category) {
            path_join(self.models_dir@, trim_slashes(self.paths@[category]@))
        } else {
            path_join(self.models_dir@, category)
        }
    }

    /// `category_dir`, falling back to the models directory joined with the
    /// bare category name when both canonical forms are known and the
    /// resolved directory does not lie under the models directory.
    pub open spec fn category_dir_within(
        self,
        category: Seq<char>,
        canonical_base: Option<Seq<char>>,
        canonical_resolved: Option<Seq<char>>,
    ) -> Seq<char> {
        match (canonical_base, canonical_resolved) {
            (Some(b), Some(r)) => if path_has_prefix(r, b) {
                self.category_dir(category)
            } else {
                path_join(self.models_dir@, category)
            },
            _ => self.category_dir(category),
        }
    }

    /// The directory that holds models of `category`.
    pub fn resolve_category_dir(&self, category: &str) -> (r: String)
        ensures
            r@ == self.category_dir(category@),
    {
        match self.paths.get(category) {
            Some(sub) => {
                let trimmed = trim_slashes_of(sub.as_str());
                join_path(self.models_dir.as_str(), trimmed.as_str())
            },
            None => join_path(self.models_dir.as_str(), category),
        }
    }

    /// The directory of `category` with the path-traversal guard applied:
    /// given the canonical forms of the models directory and of the resolved
    /// directory (where they could be obtained), a resolved directory that
    /// is not under the models directory is replaced by the models directory
    /// joined with the category name.
    pub fn resolve_category_dir_within(
        &self,
        category: &str,
        canonical_base: Option<&str>,
        canonical_resolved: Option<&str>,
    ) -> (r: String)
        ensures
            r@ == self.category_dir_within(
                category@,
                match canonical_base {
                    Some(b) => Some(b@),
                    None => None,
                },
                match canonical_resolved {
                    Some(c) => Some(c@),
                    None => None,
                },
            ),
    {
        match (canonical_base, canonical_resolved) {
            (Some(b), Some(c)) => {
                if path_starts_with(c, b) {
                    self.resolve_category_dir(category)
                } else {
                    join_path(self.models_dir.as_str(), category)
                }
            },
            _ => self.resolve_category_dir(category),
        }
    }
}

/// The models directory inferred from the desktop launcher's output
/// directory: the parent of that directory joined with "Models".
pub open spec fn launcher_models_dir(launcher_output_dir: Option<Seq<char>>) -> Option<Seq<char>> {
    match launcher_output_dir {
        Some(o) => match path_parent_of(o) {
            Some(p) => Some(path_join(p, "Models"@)),
            None => None,
        },
        None => None,
    }
}

/// The models directory used when no configuration could be read:
/// "$HOME/SharedData/Models", or "./Models" without a home directory.
pub open spec fn fallback_models_dir(home: Option<Seq<char>>) -> Seq<char> {
    match home {
        Some(h) => path_join(h, "SharedData/Models"@),
        None => "./Models"@,
    }
}

/// Picks the configuration in the order the loader tries its sources: the
/// local config.yaml, then (with a home directory) the user's
/// configuration, then the launcher's output directory (whose parent's
/// "Models" replaces the models directory of the built-in default), then
/// the built-in default, and last a configuration that only names a models
/// directory under the home directory (or "./Models").
///
/// `local`, `user` and `default` are the parsed configurations where
/// reading and parsing succeeded; `launcher_output_dir` is the launcher's
/// `output_dir` where it was set; `home` is the home directory where known.
pub fn select_config(
    local: Option<Config>,
    home: Option<String>,
    user: Option<Config>,
    launcher_output_dir: Option<String>,
    default: Option<Config>,
) -> (r: Config)
    ensures
        local is Some ==> r == local->0,
        local is None && home is Some && user is Some ==> r == user->0,
        local is None && home is Some && user is None && launcher_models_dir(
            match launcher_output_dir {
                Some(o) => Some(o@),
                None => None,
            },
        ) is Some ==> {
            &&& Some(r.models_dir@) == launcher_models_dir(
                match launcher_output_dir {
                    Some(o) => Some(o@),
                    None => None,
                },
            )
            &&& default is Some ==> r.hf_token == default->0.hf_token && r.paths@ == default->0.paths@
            &&& default is None ==> r.hf_token is None && r.paths@ == Map::<Seq<char>, String>::empty()
        },
        local is None && (home is None || (user is None && launcher_models_dir(
            match launcher_output_dir {
                Some(o) => Some(o@),
                None => None,
            },
        ) is None)) ==> {
            &&& default is Some ==> r == default->0
            &&& default is None ==> r.models_dir@ == fallback_models_dir(
                match home {
                    Some(h) => Some(h@),
                    None => None,
                },
            ) && r.hf_token is None && r.paths@ == Map::<Seq<char>, String>::empty()
        },
{
    if let Some(c) = local {
        return c;
    }
    if home.is_some() {
        if let Some(c) = user {
            return c;
        }
        if let Some(out) = &launcher_output_dir {
            if let Some(parent) = path_parent(out.as_str()) {
                let inferred = join_path(parent.as_str(), "Models");
                return match default {
                    Some(d) => Config { models_dir: inferred, hf_token: d.hf_token, paths: d.paths },
                    None => Config { models_dir: inferred, hf_token: None, paths: StrTable::new() },
                };
            }
        }
    }
    if let Some(d) = default {
        return d;
    }
    let models_dir = match &home {
        Some(h) => join_path(h.as_str(), "SharedData/Models"),
        None => {
            let mut s = String::new();
            crate::text::push_str(&mut s, "./Models");
            s
        },
    };
    Config { models_dir, hf_token: None, paths: StrTable::new() }
}

} // verus!
