//! Where the application keeps its configuration, data and cache.
use vstd::prelude::*;

use crate::text::is_ascii_alnum;

verus! {

/// A single file or directory name: ASCII letters, digits, `_`, `-` and `.`, not
/// starting with `.`, so neither absolute nor `.` nor `..`.
pub open spec fn plain_leaf(s: Seq<char>) -> bool {
    &&& s.len() > 0
    &&& s[0] != '.'
    &&& forall|k: int| 0 <= k < s.len() ==> is_ascii_alnum(#[trigger] s[k]) || s[k] == '_' || s[k] == '-' || s[k] == '.'
}

/// `s` ends with `t`.
pub open spec fn ends_with(s: Seq<char>, t: Seq<char>) -> bool {
    s.len() >= t.len() && s.subrange(s.len() - t.len(), s.len() as int) == t
}

/// A relative path on every platform: not empty, not opening with `/`, and holding no `\\`
/// and no `:`, so it has no root and no Windows prefix. Every plain file name is one.
pub open spec fn relative_text(s: Seq<char>) -> bool {
    &&& s.len() > 0
    &&& s[0] != '/'
    &&& forall|k: int| 0 <= k < s.len() ==> #[trigger] s[k] != '\\' && s[k] != ':'
}

/// `s` begins with `t`.
pub open spec fn starts_with(s: Seq<char>, t: Seq<char>) -> bool {
    s.len() >= t.len() && s.subrange(0, t.len() as int) == t
}

/// Holds no `\`, so no Windows prefix that the platform would rewrite.
pub open spec fn no_backslash(s: Seq<char>) -> bool {
    forall|k: int| 0 <= k < s.len() ==> #[trigger] s[k] != '\\'
}

/// Opens with `/`, so it has a root on every platform.
pub open spec fn rooted_text(s: Seq<char>) -> bool {
    s.len() > 0 && s[0] == '/'
}

/// A base with no Windows prefix: it holds no `:` (no drive) and no `\`, and does not
/// open with two `/` (no UNC, device or verbatim prefix).
pub open spec fn prefix_free(s: Seq<char>) -> bool {
    &&& no_backslash(s)
    &&& forall|k: int| 0 <= k < s.len() ==> #[trigger] s[k] != ':'
    &&& !(s.len() >= 2 && s[0] == '/' && s[1] == '/')
}

/// A path separator on some platform.
pub open spec fn separator(c: char) -> bool {
    c == '/' || c == '\\'
}

/// `r` is the name `leaf` put in the directory `dir`. When `dir` holds no `\`: `r` begins
/// with `dir` and ends with `leaf`; an empty `dir` or one ending in `/` is followed by the
/// leaf directly; any other `dir` without `:` (so not a bare Windows drive) is followed by
/// exactly one separator; a `dir` with a `:` by at most one.
pub open spec fn joined(r: Seq<char>, dir: Seq<char>, leaf: Seq<char>) -> bool {
    no_backslash(dir) ==> {
        &&& starts_with(r, dir)
        &&& ends_with(r, leaf)
        &&& if dir.len() == 0 || dir.last() == '/' {
            r.len() == dir.len() + leaf.len()
        } else if forall|k: int| 0 <= k < dir.len() ==> #[trigger] dir[k] != ':' {
            r.len() == dir.len() + 1 + leaf.len() && separator(r[dir.len() as int])
        } else {
            dir.len() + leaf.len() <= r.len() <= dir.len() + 1 + leaf.len()
        }
    }
}

/// `Path::is_absolute`. An absolute path has a root on Unix and a prefix on Windows, so a
/// text without either on both platforms is not absolute. Which other paths are absolute
/// is the platform's rule and is not stated.
#[verifier::external_body]
pub(crate) fn path_is_absolute(path: &str) -> (r: bool)
    ensures
        relative_text(path@) ==> !r,
{
    std::path::Path::new(path).is_absolute()
}

/// `Path::join`, as text. Its documentation (`PathBuf::push`) has a relative path
/// appended to the base, after the platform's separator unless the base is empty, ends in
/// a separator or is a bare Windows drive; so for a leaf without root or prefix, on a base
/// holding no `\`, the text is the base, that separator, and the leaf. Which separator,
/// what a base with a Windows verbatim prefix becomes (the platform normalises it), and
/// A leaf that opens with `/` replaces the whole base on Unix, where it is absolute; on
/// Windows it has a root, and replaces all but the base's prefix, or, holding a prefix
/// itself, the whole base; so on a base without prefix the text is the leaf.
/// What other leaves do is not stated.
#[verifier::external_body]
pub(crate) fn path_join(base: &str, leaf: &str) -> (r: String)
    ensures
        relative_text(leaf@) ==> joined(r@, base@, leaf@),
        rooted_text(leaf@) && prefix_free(base@) ==> r@ == leaf@,
{
    std::path::Path::new(base).join(leaf).to_string_lossy().into_owned()
}

/// The application's directories.
#[derive(Debug)]
pub struct Lair {
    pub config: String,
    pub data: String,
    pub cache: String,
}

impl Lair {
    /// `index.redb` in the data directory.
    pub fn index_path(&self) -> (r: String)
        ensures
            joined(r@, self.data@, "index.redb"@),
    {
        proof { reveal_strlit("index.redb"); }
        leaf_in(self.data.as_str(), "index.redb")
    }

    /// `media` in the cache directory.
    pub fn media_dir(&self) -> (r: String)
        ensures
            joined(r@, self.cache@, "media"@),
    {
        proof { reveal_strlit("media"); }
        leaf_in(self.cache.as_str(), "media")
    }

    /// `models` in the data directory.
    pub fn model_dir(&self) -> (r: String)
        ensures
            joined(r@, self.data@, "models"@),
    {
        proof { reveal_strlit("models"); }
        leaf_in(self.data.as_str(), "models")
    }
}

/// The file `leaf`, a plain name, in the directory `dir`.
fn leaf_in(dir: &str, leaf: &str) -> (r: String)
    requires
        plain_leaf(leaf@),
    ensures
        joined(r@, dir@, leaf@),
{
    path_join(dir, leaf)
}

/// The platform directories the viewer owns.
#[derive(Debug)]
pub struct ApplicationPaths {
    pub config: String,
    pub local_data: String,
    pub state: String,
    pub cache: String,
}

/// The viewer's files beneath the platform directories.
pub trait ViewerPaths {
    fn session_state_path(&self) -> String;
    fn index_path(&self) -> String;
    fn favorites_path(&self) -> String;
    fn config_path(&self) -> String;
    fn filter_library_path(&self) -> String;
    fn media_dir(&self) -> String;
    fn model_dir(&self) -> String;
    fn debug_dir(&self) -> String;
}

impl ViewerPaths for ApplicationPaths {
    /// `slate.toml` in the state directory; the name predates the session state's
    /// present name and stays for compatibility.
    fn session_state_path(&self) -> (r: String)
        ensures
            joined(r@, self.state@, "slate.toml"@),
    {
        proof { reveal_strlit("slate.toml"); }
        leaf_in(self.state.as_str(), "slate.toml")
    }

    fn index_path(&self) -> (r: String)
        ensures
            joined(r@, self.local_data@, "index.redb"@),
    {
        proof { reveal_strlit("index.redb"); }
        leaf_in(self.local_data.as_str(), "index.redb")
    }

    fn favorites_path(&self) -> (r: String)
        ensures
            joined(r@, self.local_data@, "favorites.roar"@),
    {
        proof { reveal_strlit("favorites.roar"); }
        leaf_in(self.local_data.as_str(), "favorites.roar")
    }

    fn config_path(&self) -> (r: String)
        ensures
            joined(r@, self.config@, "config.toml"@),
    {
        proof { reveal_strlit("config.toml"); }
        leaf_in(self.config.as_str(), "config.toml")
    }

    fn filter_library_path(&self) -> (r: String)
        ensures
            joined(r@, self.local_data@, "filters.toml"@),
    {
        proof { reveal_strlit("filters.toml"); }
        leaf_in(self.local_data.as_str(), "filters.toml")
    }

    fn media_dir(&self) -> (r: String)
        ensures
            joined(r@, self.cache@, "media"@),
    {
        proof { reveal_strlit("media"); }
        leaf_in(self.cache.as_str(), "media")
    }

    fn model_dir(&self) -> (r: String)
        ensures
            joined(r@, self.local_data@, "models"@),
    {
        proof { reveal_strlit("models"); }
        leaf_in(self.local_data.as_str(), "models")
    }

    fn debug_dir(&self) -> (r: String)
        ensures
            joined(r@, self.state@, "debug"@),
    {
        proof { reveal_strlit("debug"); }
        leaf_in(self.state.as_str(), "debug")
    }
}

/// A path as shown to the user; paths here are already text.
pub fn compact_path(path: &str) -> (r: String)
    ensures
        r@ == path@,
{
    String::from_str(path)
}

} // verus!
