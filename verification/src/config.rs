//! Where the application keeps its files, and the small pieces of
//! configuration logic that do not involve reading the config file.
use vstd::prelude::*;
use crate::paths::{join, opt_view, path_join};
use crate::text::{chars_of, has_prefix, string_from_range};

verus! {

/// `dirs::home_dir`, as a string. Trusted for nothing: the result comes from
/// the environment (`$HOME`) and may be absent.
#[verifier::external_body]
pub(crate) fn home_dir() -> (r: Option<String>) {
    match dirs::home_dir() {
        Some(p) => Some(p.to_string_lossy().into_owned()),
        None => None,
    }
}

/// `dirs::data_dir`, as a string. Trusted for nothing: the result comes from
/// the environment and may be absent.
#[verifier::external_body]
pub(crate) fn data_dir() -> (r: Option<String>) {
    match dirs::data_dir() {
        Some(p) => Some(p.to_string_lossy().into_owned()),
        None => None,
    }
}

/// `dirs::config_dir`, as a string. Trusted for nothing: the result comes
/// from the environment and may be absent.
#[verifier::external_body]
pub(crate) fn config_dir() -> (r: Option<String>) {
    match dirs::config_dir() {
        Some(p) => Some(p.to_string_lossy().into_owned()),
        None => None,
    }
}

/// `dirs::cache_dir`, as a string. Trusted for nothing: the result comes
/// from the environment and may be absent.
#[verifier::external_body]
pub(crate) fn cache_dir() -> (r: Option<String>) {
    match dirs::cache_dir() {
        Some(p) => Some(p.to_string_lossy().into_owned()),
        None => None,
    }
}

/// The application's directory under a base directory.
pub open spec fn app_dir(base: Seq<char>) -> Seq<char> {
    path_join(base, "shellbooks"@)
}

/// `library.json` under a data directory.
pub fn library_db_path_in(data: &str) -> (r: String)
    ensures
        r@ == path_join(app_dir(data@), "library.json"@),
{
    join(join(data, "shellbooks").as_str(), "library.json")
}

/// Where library.json lives, given the data directory if there is one.
pub open spec fn library_db_path_spec(data: Option<Seq<char>>) -> Option<Seq<char>> {
    match data {
        Some(d) => Some(path_join(app_dir(d), "library.json"@)),
        None => None,
    }
}

/// Where library.json lives, given what the data-directory lookup returned:
/// `None` exactly when there is no data directory.
pub fn library_db_path_from(data: Option<String>) -> (r: Option<String>)
    ensures
        opt_view(r) == library_db_path_spec(opt_view(data)),
{
    match data {
        Some(d) => Some(library_db_path_in(d.as_str())),
        None => None,
    }
}

/// Where library.json lives (`~/.local/share/shellbooks/library.json` on
/// Linux); `None` when there is no data directory.
pub fn library_db_path() -> (r: Option<String>)
    ensures
        r matches Some(p) ==> exists|d: Seq<char>| p@ == path_join(app_dir(d), "library.json"@),
{
    library_db_path_from(data_dir())
}

/// `config.toml` under a configuration directory.
pub fn config_path_in(config: &str) -> (r: String)
    ensures
        r@ == path_join(app_dir(config@), "config.toml"@),
{
    join(join(config, "shellbooks").as_str(), "config.toml")
}

/// Where the configuration file lives, given the configuration directory if
/// there is one.
pub open spec fn config_path_spec(config: Option<Seq<char>>) -> Option<Seq<char>> {
    match config {
        Some(d) => Some(path_join(app_dir(d), "config.toml"@)),
        None => None,
    }
}

/// Where the configuration file lives, given what the configuration-directory
/// lookup returned: `None` exactly when there is no configuration directory.
pub fn config_path_from(config: Option<String>) -> (r: Option<String>)
    ensures
        opt_view(r) == config_path_spec(opt_view(config)),
{
    match config {
        Some(d) => Some(config_path_in(d.as_str())),
        None => None,
    }
}

/// Where the configuration file lives (`~/.config/shellbooks/config.toml` on
/// Linux); `None` when there is no configuration directory.
pub fn config_path() -> (r: Option<String>)
    ensures
        r matches Some(p) ==> exists|d: Seq<char>| p@ == path_join(app_dir(d), "config.toml"@),
{
    config_path_from(config_dir())
}

/// A leading `~` expanded against a home directory: `~/rest` becomes the
/// home joined with `rest`, a bare `~` the home itself; anything else (or no
/// home) is left as it is.
pub open spec fn expand_tilde_spec(p: Seq<char>, home: Option<Seq<char>>) -> Seq<char> {
    match home {
        Some(h) => if has_prefix(p, "~/"@) {
            path_join(h, p.skip(2))
        } else if p == "~"@ {
            h
        } else {
            p
        },
        None => p,
    }
}

/// Expands a leading `~` in `p` against `home` (see `expand_tilde_spec`).
pub fn expand_tilde_with(p: &str, home: Option<String>) -> (r: String)
    ensures
        r@ == expand_tilde_spec(p@, crate::paths::opt_view(home)),
{
    let cs = chars_of(p);
    match home {
        Some(h) => {
            if crate::text::starts_with(&cs, &chars_of("~/")) {
                proof {
                    reveal_strlit("~/");
                }
                let rest = string_from_range(&cs, 2, cs.len());
                assert(rest@ =~= cs@.skip(2));
                join(h.as_str(), rest.as_str())
            } else if crate::text::chars_eq(&cs, &chars_of("~")) {
                h
            } else {
                p.to_owned()
            }
        },
        None => p.to_owned(),
    }
}

/// Expands a leading `~` against the user's home directory, so that users
/// can write `~/Audiobooks` in their configuration.
pub fn expand_tilde(p: &str) -> (r: String)
    ensures
        exists|home: Option<Seq<char>>| r@ == expand_tilde_spec(p@, home),
{
    let home = home_dir();
    let ghost hv = crate::paths::opt_view(home);
    let r = expand_tilde_with(p, home);
    assert(r@ == expand_tilde_spec(p@, hv));
    r
}

/// The default colour theme name.
pub fn default_theme() -> (r: String)
    ensures
        r@ == "gruvbox"@,
{
    "gruvbox".to_owned()
}

/// The default number of seconds before the end at which a book counts as
/// finished.
pub fn default_finish_threshold() -> (r: u64)
    ensures
        r == 30,
{
    30
}

} // verus!
