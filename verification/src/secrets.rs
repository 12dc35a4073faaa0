//! Secrets read from the environment.
use vstd::prelude::*;
use crate::text::{trim, chars_of, trim_chars, string_from_chars};

verus! {

broadcast use vstd::string::group_string_axioms;

/// The secrets the server and the command use.
#[derive(Debug, Clone)]
pub struct SecretsConfig {
    pub curseforge_api_key: Option<String>,
}

/// The key held by the `CURSEFORGE_API_KEY` setting: trimmed, absent where empty.
pub open spec fn api_key_of(setting: Option<Seq<char>>) -> Option<Seq<char>> {
    match setting {
        Some(s) => if trim(s).len() > 0 {
            Some(trim(s))
        } else {
            None
        },
        None => None,
    }
}

/// The CurseForge key from the text of its setting.
pub fn load_curseforge_api_key(setting: Option<&str>) -> (k: Option<String>)
    ensures
        crate::search::opt_view(k) == api_key_of(crate::modrinth::opt_str(setting)),
{
    match setting {
        Some(s) => {
            let t = trim_chars(chars_of(s).as_slice());
            if t.len() > 0 {
                Some(string_from_chars(t.as_slice()))
            } else {
                None
            }
        },
        None => None,
    }
}

impl SecretsConfig {
    /// The secrets from the text of the `CURSEFORGE_API_KEY` setting.
    pub fn from_env(curseforge_api_key_setting: Option<&str>) -> (c: SecretsConfig)
        ensures
            crate::search::opt_view(c.curseforge_api_key) == api_key_of(
                crate::modrinth::opt_str(curseforge_api_key_setting),
            ),
    {
        SecretsConfig { curseforge_api_key: load_curseforge_api_key(curseforge_api_key_setting) }
    }
}

} // verus!
