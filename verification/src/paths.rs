//! Where everything lives: the per-platform base directories, resolved once into every path
//! the program uses. Resolving does no I/O.
use crate::fspath::{file_name_of, join_str, joined, path_from_str, path_of, single_component};
use crate::model::ids::ServerId;
use crate::text::{append_chars, chars_of, eq_str, string_from_chars};
use std::path::PathBuf;
use vstd::prelude::*;

verus! {

/// The directory name claimed under every platform base directory.
pub const APP_DIR: &'static str = "loxia-player";

/// The text of `APP_DIR`.
pub open spec fn app_dir() -> Seq<char> {
    "loxia-player"@
}

/// The four platform base directories, any of which a platform may lack.
pub trait BaseDirs {
    fn config_dir(&self) -> Option<PathBuf>;
    fn cache_dir(&self) -> Option<PathBuf>;
    fn data_dir(&self) -> Option<PathBuf>;
    fn state_dir(&self) -> Option<PathBuf>;
}

/// `dirs::config_dir`: the platform's configuration base, read from the environment.
#[verifier::external_body]
fn system_config_dir() -> Option<PathBuf> {
    dirs::config_dir()
}

/// `dirs::cache_dir`: the platform's cache base.
#[verifier::external_body]
fn system_cache_dir() -> Option<PathBuf> {
    dirs::cache_dir()
}

/// `dirs::data_dir`: the platform's data base.
#[verifier::external_body]
fn system_data_dir() -> Option<PathBuf> {
    dirs::data_dir()
}

/// `dirs::state_dir`: the platform's state base (none on macOS and Windows).
#[verifier::external_body]
fn system_state_dir() -> Option<PathBuf> {
    dirs::state_dir()
}

/// The base directories of the running system.
pub struct SystemDirs;

impl BaseDirs for SystemDirs {
    fn config_dir(&self) -> Option<PathBuf> {
        system_config_dir()
    }

    fn cache_dir(&self) -> Option<PathBuf> {
        system_cache_dir()
    }

    fn data_dir(&self) -> Option<PathBuf> {
        system_data_dir()
    }

    fn state_dir(&self) -> Option<PathBuf> {
        system_state_dir()
    }
}

fn copy_opt(p: &Option<PathBuf>) -> (r: Option<PathBuf>)
    ensures
        r == *p,
{
    match p {
        Some(x) => Some(x.clone()),
        None => None,
    }
}

/// Four given base directories.
pub struct FixedDirs {
    pub config: Option<PathBuf>,
    pub cache: Option<PathBuf>,
    pub data: Option<PathBuf>,
    pub state: Option<PathBuf>,
}

impl FixedDirs {
    pub fn new(config: Option<PathBuf>, cache: Option<PathBuf>, data: Option<PathBuf>, state: Option<PathBuf>) -> (d: FixedDirs)
        ensures
            d.config == config && d.cache == cache && d.data == data && d.state == state,
    {
        FixedDirs { config, cache, data, state }
    }
}

impl BaseDirs for FixedDirs {
    fn config_dir(&self) -> (r: Option<PathBuf>)
        ensures
            r == self.config,
    {
        copy_opt(&self.config)
    }

    fn cache_dir(&self) -> (r: Option<PathBuf>)
        ensures
            r == self.cache,
    {
        copy_opt(&self.cache)
    }

    fn data_dir(&self) -> (r: Option<PathBuf>)
        ensures
            r == self.data,
    {
        copy_opt(&self.data)
    }

    fn state_dir(&self) -> (r: Option<PathBuf>)
        ensures
            r == self.state,
    {
        copy_opt(&self.state)
    }
}

/// Why paths could not be resolved.
#[derive(Debug)]
pub enum PathError {
    /// A base directory the platform should have is missing.
    NoBaseDir,
    /// A configured directory is relative; it must be absolute.
    Relative(String),
}

/// A path error as plain values.
pub enum PathErrorView {
    NoBaseDir,
    Relative(Seq<char>),
}

impl View for PathError {
    type V = PathErrorView;

    open spec fn view(&self) -> PathErrorView {
        match self {
            PathError::NoBaseDir => PathErrorView::NoBaseDir,
            PathError::Relative(s) => PathErrorView::Relative(s@),
        }
    }
}

impl PathError {
    /// The message shown for the error.
    pub fn to_string(&self) -> (r: String)
        ensures
            r@ == match self@ {
                PathErrorView::NoBaseDir => "required base directory is unavailable on this system"@,
                PathErrorView::Relative(s) => "path override must be absolute, got a relative path: "@ + s,
            },
    {
        match self {
            PathError::NoBaseDir => "required base directory is unavailable on this system".to_string(),
            PathError::Relative(s) => {
                let mut m = chars_of("path override must be absolute, got a relative path: ");
                append_chars(&mut m, &chars_of(s.as_str()));
                string_from_chars(&m)
            },
        }
    }
}

/// What `Path::is_absolute` answers for `p` on this platform.
pub uninterp spec fn absolute(p: PathBuf) -> bool;

/// `Path::is_absolute`.
#[verifier::external_body]
fn path_is_absolute(p: &PathBuf) -> (r: bool)
    ensures
        r == absolute(*p),
{
    p.is_absolute()
}

/// The resolved paths as plain values.
pub struct PathsView {
    pub config_dir: PathBuf,
    pub cache_root: PathBuf,
    pub data_root: PathBuf,
    pub state_root: PathBuf,
}

/// Every directory the program uses, resolved.
pub struct Paths {
    config_dir: PathBuf,
    cache_root: PathBuf,
    data_root: PathBuf,
    state_root: PathBuf,
}

impl View for Paths {
    type V = PathsView;

    closed spec fn view(&self) -> PathsView {
        PathsView {
            config_dir: self.config_dir,
            cache_root: self.cache_root,
            data_root: self.data_root,
            state_root: self.state_root,
        }
    }
}

/// A configured directory: `auto` means the platform base (with the app's own directory under
/// it); anything else must be an absolute path, taken as is.
pub open spec fn spec_override(value: Seq<char>, base: Option<PathBuf>) -> Result<PathBuf, PathErrorView> {
    if value == "auto"@ {
        match base {
            None => Err(PathErrorView::NoBaseDir),
            Some(b) => Ok(joined(b, path_of(app_dir()))),
        }
    } else if absolute(path_of(value)) {
        Ok(path_of(value))
    } else {
        Err(PathErrorView::Relative(value))
    }
}

/// The paths resolved from the base directories and the configured cache and download
/// directories. `nest_cache` (Windows) puts the cache one level deeper, under `cache`.
pub open spec fn spec_resolve(
    config: Option<PathBuf>,
    cache: Option<PathBuf>,
    data: Option<PathBuf>,
    state: Option<PathBuf>,
    cache_dir: Seq<char>,
    download_dir: Seq<char>,
    nest_cache: bool,
) -> Result<PathsView, PathErrorView> {
    match config {
        None => Err(PathErrorView::NoBaseDir),
        Some(cb) => match spec_override(cache_dir, cache) {
            Err(e) => Err(e),
            Ok(cache_base) => match spec_override(download_dir, data) {
                Err(e) => Err(e),
                Ok(data_root) => Ok(PathsView {
                    config_dir: joined(cb, path_of(app_dir())),
                    cache_root: if nest_cache { joined(cache_base, path_of("cache"@)) } else { cache_base },
                    data_root,
                    state_root: match state {
                        Some(s) => joined(s, path_of(app_dir())),
                        None => data_root,
                    },
                }),
            },
        },
    }
}

/// The resolution as the caller sees it.
pub open spec fn outcome(r: Result<Paths, PathError>) -> Result<PathsView, PathErrorView> {
    match r {
        Ok(p) => Ok(p@),
        Err(e) => Err(e@),
    }
}

fn resolve_override(value: &str, base: Option<PathBuf>) -> (r: Result<PathBuf, PathError>)
    ensures
        match r {
            Ok(p) => spec_override(value@, base) == Ok::<PathBuf, PathErrorView>(p),
            Err(e) => spec_override(value@, base) == Err::<PathBuf, PathErrorView>(e@),
        },
{
    if eq_str(&chars_of(value), "auto") {
        return match base {
            None => Err(PathError::NoBaseDir),
            Some(b) => Ok(join_str(&b, "loxia-player")),
        };
    }
    let path = path_from_str(value);
    if !path_is_absolute(&path) {
        return Err(PathError::Relative(value.to_string()));
    }
    Ok(path)
}

/// The file name of one server's saved session.
pub open spec fn session_name(id: Seq<char>) -> Seq<char> {
    "session-"@ + id + ".json"@
}

/// A server id that can stand inside a file name: none of `/`, `\`, `:`.
pub open spec fn plain_id(id: Seq<char>) -> bool {
    forall|i: int| 0 <= i < id.len() ==> id[i] != '/' && id[i] != '\\' && id[i] != ':'
}

proof fn lemma_session_name_component(id: Seq<char>)
    ensures
        plain_id(id) ==> single_component(session_name(id)),
        session_name(id).len() == id.len() + 13,
        session_name(id).subrange(8, id.len() as int + 8) == id,
{
    reveal_strlit("session-");
    reveal_strlit(".json");
    reveal_strlit(".");
    reveal_strlit("..");
    let n = session_name(id);
    assert(n.subrange(8, id.len() as int + 8) =~= id);
    if plain_id(id) {
        assert forall|i: int| 0 <= i < n.len() implies n[i] != '/' && n[i] != '\\' && n[i] != ':' by {
            if 8 <= i < id.len() + 8 {
                assert(n[i] == id[i - 8]);
            }
        }
        assert(n.len() != ("."@).len());
        assert(n.len() != (".."@).len());
    }
}

/// Each server keeps its saved session in a file of its own: two paths that `session_file_for`
/// gave for different ids differ, and none of them is the active session's file, whose name
/// `session_file` gives as `session.json`.
pub proof fn lemma_session_files_apart(pa: PathBuf, pb: PathBuf, a: Seq<char>, b: Seq<char>)
    requires
        file_name_of(pa) == Some(session_name(a)),
        file_name_of(pb) == Some(session_name(b)),
        a != b,
    ensures
        pa != pb,
        file_name_of(pa) != Some("session.json"@),
{
    lemma_session_name_component(a);
    lemma_session_name_component(b);
    reveal_strlit("session.json");
    if pa == pb {
        assert(session_name(a) == session_name(b));
        assert(a == b);
    }
}

impl Paths {
    /// The paths from the given base directories (see `spec_resolve`).
    pub fn resolve_with(
        config: Option<PathBuf>,
        cache: Option<PathBuf>,
        data: Option<PathBuf>,
        state: Option<PathBuf>,
        cache_dir: &str,
        download_dir: &str,
        nest_cache: bool,
    ) -> (r: Result<Paths, PathError>)
        ensures
            outcome(r) == spec_resolve(config, cache, data, state, cache_dir@, download_dir@, nest_cache),
    {
        let config_dir = match config {
            None => {
                return Err(PathError::NoBaseDir);
            },
            Some(cb) => join_str(&cb, "loxia-player"),
        };
        let cache_base = match resolve_override(cache_dir, cache) {
            Err(e) => {
                return Err(e);
            },
            Ok(p) => p,
        };
        let cache_root = if nest_cache { join_str(&cache_base, "cache") } else { cache_base };
        let data_root = match resolve_override(download_dir, data) {
            Err(e) => {
                return Err(e);
            },
            Ok(p) => p,
        };
        let state_root = match state {
            Some(s) => join_str(&s, "loxia-player"),
            None => data_root.clone(),
        };
        Ok(Paths { config_dir, cache_root, data_root, state_root })
    }

    /// The paths from the platform's base directories as `dirs` reports them.
    pub fn resolve<D: BaseDirs>(dirs: &D, cache_dir: &str, download_dir: &str, nest_cache: bool) -> (r: Result<Paths, PathError>)
        ensures
            exists|c: Option<PathBuf>, ca: Option<PathBuf>, d: Option<PathBuf>, s: Option<PathBuf>|
                outcome(r) == #[trigger] spec_resolve(c, ca, d, s, cache_dir@, download_dir@, nest_cache),
    {
        let c = dirs.config_dir();
        let ca = dirs.cache_dir();
        let d = dirs.data_dir();
        let s = dirs.state_dir();
        Paths::resolve_with(c, ca, d, s, cache_dir, download_dir, nest_cache)
    }

    /// `config.toml` in the configuration directory.
    pub fn config_file(&self) -> (p: PathBuf)
        ensures
            p == joined(self@.config_dir, path_of("config.toml"@)),
    {
        join_str(&self.config_dir, "config.toml")
    }

    /// The cache root.
    pub fn cache_root(&self) -> (p: &PathBuf)
        ensures
            *p == self@.cache_root,
    {
        &self.cache_root
    }

    /// Where cached tracks live.
    pub fn tracks_dir(&self) -> (p: PathBuf)
        ensures
            p == joined(self@.cache_root, path_of("tracks"@)),
    {
        join_str(&self.cache_root, "tracks")
    }

    /// Where cached images live.
    pub fn images_dir(&self) -> (p: PathBuf)
        ensures
            p == joined(self@.cache_root, path_of("images"@)),
    {
        join_str(&self.cache_root, "images")
    }

    /// The rolling cache's index file.
    pub fn cache_index_file(&self) -> (p: PathBuf)
        ensures
            p == joined(self@.cache_root, path_of("cache_index.json"@)),
    {
        join_str(&self.cache_root, "cache_index.json")
    }

    /// Where downloads live.
    pub fn downloads_root(&self) -> (p: &PathBuf)
        ensures
            *p == self@.data_root,
    {
        &self.data_root
    }

    /// Where session, history, scrobbles and the log live.
    pub fn state_root(&self) -> (p: &PathBuf)
        ensures
            *p == self@.state_root,
    {
        &self.state_root
    }

    /// The saved session.
    pub fn session_file(&self) -> (p: PathBuf)
        ensures
            p == joined(self@.state_root, path_of("session.json"@)),
            file_name_of(p) == Some("session.json"@),
    {
        proof {
            reveal_strlit("session.json");
            reveal_strlit(".");
            reveal_strlit("..");
        }
        join_str(&self.state_root, "session.json")
    }

    /// The saved session of one server, kept apart from the active one's.
    pub fn session_file_for(&self, server: &ServerId) -> (p: PathBuf)
        ensures
            p == joined(self@.state_root, path_of(session_name(server@))),
            plain_id(server@) ==> file_name_of(p) == Some(session_name(server@)),
    {
        let mut name = chars_of("session-");
        append_chars(&mut name, &chars_of(server.as_str()));
        append_chars(&mut name, &chars_of(".json"));
        let n = string_from_chars(&name);
        proof {
            lemma_session_name_component(server@);
        }
        join_str(&self.state_root, n.as_str())
    }

    /// The play history.
    pub fn history_file(&self) -> (p: PathBuf)
        ensures
            p == joined(self@.state_root, path_of("history.json"@)),
    {
        join_str(&self.state_root, "history.json")
    }

    /// The offline playback-report queue.
    pub fn scrobbles_file(&self) -> (p: PathBuf)
        ensures
            p == joined(self@.state_root, path_of("scrobbles.json"@)),
    {
        join_str(&self.state_root, "scrobbles.json")
    }

    /// Where the log goes: the state root itself.
    pub fn log_dir(&self) -> (p: PathBuf)
        ensures
            p == self@.state_root,
    {
        self.state_root.clone()
    }
}

} // verus!
