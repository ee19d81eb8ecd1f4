//! Data-directory resolution and config-file paths.
//!
//! The data directory is resolved with the precedence: `LM_DATA_DIR` env
//! (non-blank) → the config file's `data_dir` (non-blank) → error. Paths are
//! held as their text. Reading the environment and the config file is left to
//! the caller, which hands the values read to [`resolve`].

use vstd::prelude::*;

use crate::error::Error;
use crate::text::{chars_of, is_ws, lemma_trim_law, trim_chars, trimmed};

verus! {

/// Where the resolved data dir came from (for `lm config show`).
#[derive(Debug, Clone, PartialEq, Eq)]
pub enum DataDirSource {
    /// Resolved from the `LM_DATA_DIR` environment variable.
    Env,
    /// Resolved from the `data_dir` key of the config file at this path.
    ConfigFile(String),
}

/// On-disk config file shape.
#[derive(Debug)]
pub struct Config {
    /// The configured data directory, if set.
    pub data_dir: Option<String>,
}

impl Default for Config {
    fn default() -> (res: Self)
        ensures
            res.data_dir is None,
    {
        Config { data_dir: None }
    }
}

/// The name of the config directory under the XDG config base.
pub const CONFIG_DIR_NAME: &'static str = "life-maintenance";

/// The name of the config file inside the config directory.
pub const CONFIG_FILE_NAME: &'static str = "config.toml";

/// A single path component made only of ASCII letters, digits, `-`, `_` and
/// `.`, and not only of dots (so it is neither `.` nor `..`, and joining it
/// never replaces, re-roots or normalises the base path).
pub open spec fn plain_component(name: Seq<char>) -> bool {
    &&& name.len() > 0
    &&& forall|i: int|
        0 <= i < name.len() ==> {
            let c = #[trigger] name[i];
            ('a' <= c && c <= 'z') || ('A' <= c && c <= 'Z') || ('0' <= c && c <= '9') || c
                == '-' || c == '_' || c == '.'
        }
    &&& exists|i: int| 0 <= i < name.len() && #[trigger] name[i] != '.'
}

/// A path separator on some platform: `/` everywhere, `\\` on Windows.
pub open spec fn is_sep(c: char) -> bool {
    c == '/' || c == '\\'
}

/// A base path that no platform reads with a prefix: it is non-empty, neither
/// starts nor ends with `\\`, does not start with two separators (a UNC or
/// verbatim prefix) and has no `:` as its second character (a drive prefix).
pub open spec fn plain_base(b: Seq<char>) -> bool {
    &&& b.len() > 0
    &&& b[0] != '\\'
    &&& b.last() != '\\'
    &&& !(b.len() >= 2 && b[0] == '/' && is_sep(b[1]))
    &&& !(b.len() >= 2 && b[1] == ':')
}

/// `res` is `base` joined with the component `name`: `base` directly
/// followed by `name` when `base` ends with `/`, else `base`, one separator
/// character and `name`.
pub open spec fn joined(base: Seq<char>, name: Seq<char>, res: Seq<char>) -> bool {
    if base.len() > 0 && base.last() == '/' {
        res == base + name
    } else {
        &&& res.len() == base.len() + 1 + name.len()
        &&& is_sep(res[base.len() as int])
        &&& res == base + seq![res[base.len() as int]] + name
    }
}

/// Calls `std::path::Path::join` on the text of `base` with `name`.
///
/// Claims what the documentation of `Path::join`/`PathBuf::push` gives for a
/// relative one-component `name` joined to a base without a prefix: `name`
/// is appended, after the platform's separator (`/`, or `\\` on Windows)
/// unless `base` already ends with a separator. Nothing is claimed for a base
/// with a prefix (a Windows drive, UNC or verbatim path), which `push` may
/// rebuild.
#[verifier::external_body]
pub(crate) fn join_path(base: &str, name: &str) -> (res: String)
    requires
        plain_component(name@),
    ensures
        plain_base(base@) ==> joined(base@, name@, res@),
{
    std::path::Path::new(base).join(name).to_string_lossy().into_owned()
}

/// A joined path is again a base without a prefix.
proof fn lemma_joined_plain(base: Seq<char>, name: Seq<char>, res: Seq<char>)
    requires
        plain_base(base),
        plain_component(name),
        name.last() != '\\',
        joined(base, name, res),
    ensures
        plain_base(res),
{
    assert(res[0] == base[0]);
    assert(res.last() == name.last());
    if base.len() >= 2 {
        assert(res[1] == base[1]);
    } else if base.last() == '/' {
        assert(res[1] == name[0]);
        assert(name[0] != '\\' && name[0] != '/' && name[0] != ':');
    } else {
        assert(base[0] != '/');
        assert(is_sep(res[1]));
    }
}

/// `s` holds something other than white space.
pub open spec fn non_blank(s: Seq<char>) -> bool {
    trimmed(s).len() > 0
}

/// The message given when no data directory is configured.
pub open spec fn not_configured_message() -> Seq<char> {
    "data directory not configured: set LM_DATA_DIR or run `lm config set <path>`"@
}

/// An optional value that is present and not blank.
pub open spec fn given(v: Option<&str>) -> bool {
    v is Some && non_blank(v->0@)
}

/// An optional value that is present and not empty.
pub open spec fn set_non_empty(v: Option<&str>) -> bool {
    v is Some && v->0@.len() > 0
}

/// Whether `s` holds something other than white space.
fn is_non_blank(s: &str) -> (res: bool)
    ensures
        res == non_blank(s@),
{
    trim_chars(&chars_of(s)).len() > 0
}

/// Decide the data dir from already-read inputs.
///
/// - `env` = value of `LM_DATA_DIR` (`None` or blank → ignored).
/// - `configured` = `data_dir` from the config file (blank → ignored).
/// - `config_path` = the config file path, used only to label the source.
pub fn resolve(env: Option<&str>, configured: Option<&str>, config_path: &str) -> (res: Result<
    (String, DataDirSource),
    Error,
>)
    ensures
        given(env) ==> (res matches Ok((dir, src)) && dir@ == env->0@ && src
            == DataDirSource::Env),
        !given(env) && given(configured) ==> (res matches Ok((dir, src)) && dir@
            == configured->0@ && (src matches DataDirSource::ConfigFile(p) && p@ == config_path@)),
        !given(env) && !given(configured) ==> (res matches Err(Error::DataFile(m)) && m@
            == not_configured_message()),
{
    if let Some(e) = env {
        if is_non_blank(e) {
            return Ok((String::from_str(e), DataDirSource::Env));
        }
    }
    if let Some(c) = configured {
        if is_non_blank(c) {
            return Ok((String::from_str(c), DataDirSource::ConfigFile(String::from_str(config_path))));
        }
    }
    Err(
        Error::DataFile(
            String::from_str(
                "data directory not configured: set LM_DATA_DIR or run `lm config set <path>`",
            ),
        ),
    )
}

/// The message given when the home directory is unknown.
pub open spec fn no_home_message() -> Seq<char> {
    "cannot determine home directory: HOME is not set"@
}

/// The home directory from the value of `HOME`: it must be set and non-empty.
pub fn home_dir_from(home: Option<&str>) -> (res: Result<String, Error>)
    ensures
        set_non_empty(home) ==> (res matches Ok(d) && d@ == home->0@),
        !set_non_empty(home) ==> (res matches Err(Error::DataFile(m)) && m@ == no_home_message()),
{
    if let Some(h) = home {
        if h.unicode_len() > 0 {
            return Ok(String::from_str(h));
        }
    }
    Err(Error::DataFile(String::from_str("cannot determine home directory: HOME is not set")))
}

/// The XDG config base directory from the values of `XDG_CONFIG_HOME` and
/// `HOME`: `XDG_CONFIG_HOME` when it is set and non-empty, otherwise
/// `$HOME/.config`.
pub fn config_base_dir_from(xdg: Option<&str>, home: Option<&str>) -> (res: Result<String, Error>)
    ensures
        set_non_empty(xdg) ==> (res matches Ok(d) && d@ == xdg->0@),
        !set_non_empty(xdg) && set_non_empty(home) ==> (res is Ok),
        !set_non_empty(xdg) && set_non_empty(home) && plain_base(home->0@) ==> (res matches Ok(d)
            && joined(home->0@, ".config"@, d@)),
        !set_non_empty(xdg) && !set_non_empty(home) ==> (res matches Err(Error::DataFile(m))
            && m@ == no_home_message()),
{
    if let Some(x) = xdg {
        if x.unicode_len() > 0 {
            return Ok(String::from_str(x));
        }
    }
    let h: String = match home_dir_from(home) {
        Ok(h) => h,
        Err(e) => {
            return Err(e);
        },
    };
    proof {
        reveal_strlit(".config");
        assert(".config"@[1] != '.');
    }
    Ok(join_path(h.as_str(), ".config"))
}

/// `<base>/life-maintenance`.
pub fn config_dir_in(base: &str) -> (res: String)
    ensures
        plain_base(base@) ==> joined(base@, "life-maintenance"@, res@),
{
    proof {
        reveal_strlit("life-maintenance");
        assert("life-maintenance"@[0] != '.');
    }
    join_path(base, CONFIG_DIR_NAME)
}

/// `<base>/life-maintenance/config.toml`.
pub fn config_file_in(base: &str) -> (res: String)
    ensures
        plain_base(base@) ==> exists|dir: Seq<char>|
            joined(base@, "life-maintenance"@, dir) && #[trigger] joined(dir, "config.toml"@, res@),
{
    proof {
        reveal_strlit("life-maintenance");
        reveal_strlit("config.toml");
        assert("config.toml"@[0] != '.');
        assert("life-maintenance"@[0] != '.');
    }
    let dir: String = config_dir_in(base);
    proof {
        if plain_base(base@) {
            lemma_joined_plain(base@, "life-maintenance"@, dir@);
        }
    }
    let file: String = join_path(dir.as_str(), CONFIG_FILE_NAME);
    file
}

/// The blank law of data-directory resolution: a value (of `LM_DATA_DIR` or
/// of the config file's `data_dir`) counts as set exactly when it holds a
/// character that is not white space; empty and all-white-space values are
/// ignored.
pub proof fn lemma_blank_values_ignored(v: Seq<char>)
    ensures
        non_blank(v) <==> exists|i: int| 0 <= i < v.len() && !is_ws(#[trigger] v[i]),
{
    lemma_trim_law(v);
}

} // verus!
