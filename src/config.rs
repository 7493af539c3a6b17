//! The tool's settings, and the choices made from them.

use vstd::prelude::*;
use crate::keyed::str_eq;
use crate::remote::{extension_of, path_extension};
use crate::text::views;

verus! {

/// The settings read from the configuration file.
#[derive(Clone, Debug, PartialEq, Eq)]
pub struct AppConfig {
    pub chroma_host: String,
    pub openai_api_key: Option<String>,
    pub openai_completion_model: String,
    pub openai_embedding_model: String,
    pub file_extensions: Option<Vec<String>>,
    pub syntax_theme: Option<String>,
}

/// The extensions of the files indexed when the settings name none.
pub open spec fn default_extension_list() -> Seq<Seq<char>> {
    seq!["md"@, "rs"@, "tsx"@, "ts"@, "js"@, "jsx"@, "html"@]
}

/// The extensions of the files indexed when the settings name none.
pub fn default_extensions() -> (r: Vec<String>)
    ensures
        views(r@) == default_extension_list(),
{
    let r = vec![
        "md".to_owned(),
        "rs".to_owned(),
        "tsx".to_owned(),
        "ts".to_owned(),
        "js".to_owned(),
        "jsx".to_owned(),
        "html".to_owned(),
    ];
    assert(views(r@) =~= default_extension_list());
    r
}

impl AppConfig {
    /// The settings written when there is no configuration file yet.
    pub fn with_defaults(openai_api_key: Option<String>) -> (r: Self)
        ensures
            r.chroma_host@ == "http://localhost:8000"@,
            r.openai_api_key == openai_api_key,
            r.openai_completion_model@ == "gpt-4"@,
            r.openai_embedding_model@ == "text-embedding-3-large"@,
            r.file_extensions is Some,
            views(r.file_extensions->Some_0@) == default_extension_list(),
            r.syntax_theme is Some,
            r.syntax_theme->Some_0@ == "gruvbox-dark"@,
    {
        AppConfig {
            chroma_host: "http://localhost:8000".to_owned(),
            openai_api_key,
            openai_completion_model: "gpt-4".to_owned(),
            openai_embedding_model: "text-embedding-3-large".to_owned(),
            file_extensions: Some(default_extensions()),
            syntax_theme: Some("gruvbox-dark".to_owned()),
        }
    }

    /// A key from the environment takes the place of the file's.
    pub fn apply_env_key(&mut self, env_key: Option<String>)
        ensures
            final(self).openai_api_key == (match env_key {
                Some(k) => Some(k),
                None => old(self).openai_api_key,
            }),
            final(self).chroma_host == old(self).chroma_host,
            final(self).openai_completion_model == old(self).openai_completion_model,
            final(self).openai_embedding_model == old(self).openai_embedding_model,
            final(self).file_extensions == old(self).file_extensions,
            final(self).syntax_theme == old(self).syntax_theme,
    {
        if env_key.is_some() {
            self.openai_api_key = env_key;
        }
    }

    /// The extensions of the files to index: those the settings name, or
    /// the default ones.
    pub fn allowed_extensions(&self) -> (r: Vec<String>)
        ensures
            views(r@) == match self.file_extensions {
                Some(v) => views(v@),
                None => default_extension_list(),
            },
    {
        match &self.file_extensions {
            Some(v) => {
                let mut out: Vec<String> = Vec::new();
                let mut i: usize = 0;
                while i < v.len()
                    invariant
                        i <= v@.len(),
                        views(out@) == views(v@).take(i as int),
                    decreases v@.len() - i,
                {
                    let ghost before = out@;
                    let c = v[i].clone();
                    out.push(c);
                    assert(views(out@) =~= views(before).push(v@[i as int]@));
                    i = i + 1;
                    assert(views(out@) =~= views(v@).take(i as int));
                }
                assert(views(v@).take(v@.len() as int) =~= views(v@));
                out
            },
            None => default_extensions(),
        }
    }
}

/// A key that is set and not empty.
pub open spec fn usable_key(k: Option<String>) -> bool {
    k is Some && k->Some_0@.len() > 0
}

/// The API key to use: the environment's if it is set and not empty, else
/// the configured one if it is set and not empty, else none.
pub fn choose_api_key(env_key: Option<String>, config_key: Option<String>) -> (r: Option<String>)
    ensures
        r == (if usable_key(env_key) {
            env_key
        } else if usable_key(config_key) {
            config_key
        } else {
            None
        }),
{
    match env_key {
        Some(k) => {
            if !k.as_str().is_empty() {
                return Some(k);
            }
        },
        None => {},
    }
    match config_key {
        Some(k) => {
            if !k.as_str().is_empty() {
                return Some(k);
            }
        },
        None => {},
    }
    None
}

/// The file at `p` is indexed: it has one of the allowed extensions.
pub open spec fn indexable(p: Seq<char>, allowed: Seq<Seq<char>>) -> bool {
    match extension_of(p) {
        Some(e) => allowed.contains(e),
        None => false,
    }
}

/// Whether the file at `path` has one of the allowed extensions.
pub fn is_indexable(path: &str, allowed: &Vec<String>) -> (r: bool)
    ensures
        r == indexable(path@, views(allowed@)),
{
    let ext = path_extension(path);
    match ext {
        Some(e) => {
            assert(extension_of(path@) == Some(e@));
            let mut i: usize = 0;
            while i < allowed.len()
                invariant
                    i <= allowed@.len(),
                    extension_of(path@) == Some(e@),
                    forall|j: int| 0 <= j < i ==> allowed@[j]@ != e@,
                decreases allowed@.len() - i,
            {
                if str_eq(allowed[i].as_str(), e.as_str()) {
                    assert(views(allowed@)[i as int] == e@);
                    assert(views(allowed@).contains(e@));
                    return true;
                }
                i = i + 1;
            }
            assert(!views(allowed@).contains(e@)) by {
                if views(allowed@).contains(e@) {
                    let j = choose|j: int| 0 <= j < views(allowed@).len() && views(allowed@)[j] == e@;
                    assert(allowed@[j]@ == e@);
                }
            }
            false
        },
        None => false,
    }
}

} // verus!
