//! Media URLs: the file extension a cached copy keeps, its hash, and the URL a fetch needs.
use vstd::prelude::*;
use vstd::string::{StrSliceExecFns, StringSliceAdditionalSpecFns};

use crate::model::PostId;
use crate::text::{ascii_alnum, chars_of, decimal, decimal_of, is_ascii_alnum, string_from};

verus! {

/// A decoded image: its post, width and height, and RGBA bytes.
#[derive(Debug)]
pub struct RgbaBlade {
    pub id: PostId,
    pub size: [usize; 2],
    pub rgba: Vec<u8>,
}

/// The URL up to its first `?`.
pub open spec fn before_query(url: Seq<char>) -> Seq<char> {
    if exists|k: int| 0 <= k < url.len() && url[k] == '?' {
        url.take(choose|k: int| 0 <= k < url.len() && url[k] == '?' && forall|j: int| 0 <= j < k ==> url[j] != '?')
    } else {
        url
    }
}

/// The extension kept for a cached file: the path's extension when it is ASCII letters and
/// digits only, otherwise `img`.
pub open spec fn kept_extension(ext: Option<Seq<char>>) -> Seq<char> {
    match ext {
        Some(e) => if forall|k: int| 0 <= k < e.len() ==> is_ascii_alnum(#[trigger] e[k]) { e } else { "img"@ },
        None => "img"@,
    }
}

/// The URL's path part, before any `?`.
pub fn url_path(url: &str) -> (r: String)
    ensures
        r@ == before_query(url@),
{
    let chars = chars_of(url);
    let mut k: usize = 0;
    while k < chars.len() && chars[k] != '?'
        invariant
            k <= chars@.len(),
            chars@ == url@,
            forall|j: int| 0 <= j < k ==> chars@[j] != '?',
        decreases chars.len() - k,
    {
        k = k + 1;
    }
    let mut out: Vec<char> = Vec::new();
    let mut i: usize = 0;
    while i < k
        invariant
            i <= k <= chars@.len(),
            out@ == chars@.take(i as int),
        decreases k - i,
    {
        out.push(chars[i]);
        assert(out@ =~= chars@.take(i + 1));
        i = i + 1;
    }
    proof {
        if k < chars.len() {
            let w = choose|j: int| 0 <= j < url@.len() && url@[j] == '?' && forall|m: int| 0 <= m < j ==> url@[m] != '?';
            assert(w == k) by {
                if w < k {
                    assert(chars@[w] != '?');
                } else if w > k {
                    assert(url@[k as int] != '?');
                }
            }
        } else {
            assert(chars@.take(k as int) =~= chars@);
        }
    }
    string_from(&out)
}

/// A path that is one plain file name on every platform: no `/`, `\` or `:` in it, so no
/// separator and no prefix, and not `..`.
pub open spec fn lone_name(p: Seq<char>) -> bool {
    &&& forall|k: int| 0 <= k < p.len() ==> #[trigger] p[k] != '/' && p[k] != '\\' && p[k] != ':'
    &&& p != ".."@
}

/// The last `.` of `s`, when one stands after the first character.
pub open spec fn last_dot(s: Seq<char>) -> int {
    choose|k: int| 0 < k < s.len() && s[k] == '.' && forall|j: int| k < j < s.len() ==> s[j] != '.'
}

/// The extension `Path::extension` documents for a file name: nothing without a `.`, or
/// when the only `.` begins the name; otherwise what follows the final `.`.
pub open spec fn name_extension(name: Seq<char>) -> Option<Seq<char>> {
    if exists|k: int| 0 < k < name.len() && name[k] == '.' {
        Some(name.skip(last_dot(name) + 1))
    } else {
        None
    }
}

/// The text after the last `/` of a path, or the whole path when it has none.
pub open spec fn last_segment(p: Seq<char>) -> Seq<char>
    decreases p.len(),
{
    if p.len() == 0 {
        p
    } else if p.last() == '/' {
        Seq::empty()
    } else {
        last_segment(p.drop_last()).push(p.last())
    }
}

/// The path without the `/`s that end it.
pub open spec fn strip_slashes(p: Seq<char>) -> Seq<char>
    decreases p.len(),
{
    if p.len() > 0 && p.last() == '/' {
        strip_slashes(p.drop_last())
    } else {
        p
    }
}

/// The last `/`-segment of the path once the `/`s that end it are set aside: trailing
/// separators name no component of their own.
pub open spec fn last_name(p: Seq<char>) -> Seq<char> {
    last_segment(strip_slashes(p))
}

pub open spec fn is_sep(c: char) -> bool {
    c == '/' || c == '\\'
}

/// A path whose file name is, on every platform, its last `/`-segment once trailing `/`s
/// are set aside: either one plain name, or a path that does not open with two separators
/// (which on Windows may begin a prefix that swallows the following components) and whose
/// last such segment is a plain name other than `.` (`/` separates components everywhere,
/// a plain name holds no other separator, and a trailing `.` would be skipped).
pub open spec fn named_by_tail(p: Seq<char>) -> bool {
    ||| lone_name(p)
    ||| {
        &&& !(p.len() >= 2 && is_sep(p[0]) && is_sep(p[1]))
        &&& lone_name(last_name(p))
        &&& last_name(p).len() > 0
        &&& last_name(p) != "."@
    }
}

/// `Path::extension` of a path given as text. For a path whose file name is its last
/// `/`-segment (trailing `/`s set aside) on every platform, the result is the one the
/// documentation gives for that name. For other paths what counts as a separator, a prefix and the file name is the
/// platform's, and nothing is stated.
#[verifier::external_body]
fn path_extension(path: &str) -> (r: Option<String>)
    ensures
        named_by_tail(path@) ==> match r {
            Some(e) => name_extension(last_name(path@)) == Some(e@),
            None => name_extension(last_name(path@)) is None,
        },
{
    std::path::Path::new(path).extension().and_then(|ext| ext.to_str()).map(|ext| ext.to_owned())
}

/// The extension to keep, given the one the path has.
pub fn kept(ext: &Option<String>) -> (r: String)
    ensures
        r@ == kept_extension(match ext { Some(e) => Some(e@), None => None }),
{
    match ext {
        Some(e) => {
            let chars = chars_of(e.as_str());
            if all_alnum(&chars) {
                String::from_str(e.as_str())
            } else {
                String::from_str("img")
            }
        },
        None => String::from_str("img"),
    }
}

fn all_alnum(chars: &[char]) -> (r: bool)
    ensures
        r == forall|k: int| 0 <= k < chars@.len() ==> is_ascii_alnum(#[trigger] chars@[k]),
{
    let mut k: usize = 0;
    while k < chars.len()
        invariant
            k <= chars@.len(),
            forall|j: int| 0 <= j < k ==> is_ascii_alnum(#[trigger] chars@[j]),
        decreases chars.len() - k,
    {
        if !ascii_alnum(chars[k]) {
            return false;
        }
        k = k + 1;
    }
    true
}

/// The extension kept for a URL: that of the last `/`-segment of its path, trailing `/`s
/// set aside.
pub open spec fn url_extension(url: Seq<char>) -> Seq<char> {
    kept_extension(name_extension(last_name(before_query(url))))
}

/// The extension of the URL's path when it is ASCII letters and digits, otherwise `img`.
pub fn extension(url: &str) -> (r: String)
    ensures
        r@ == "img"@ || forall|k: int| 0 <= k < r@.len() ==> is_ascii_alnum(#[trigger] r@[k]),
        named_by_tail(before_query(url@)) ==> r@ == url_extension(url@),
{
    let path = url_path(url);
    let ext = path_extension(path.as_str());
    proof {
        if named_by_tail(path@) {
            assert(match ext { Some(e) => Some(e@), None => None } == name_extension(last_name(path@)));
        }
    }
    kept(&ext)
}

/// 64-bit FNV-1a over bytes.
pub open spec fn fnv(bytes: Seq<u8>) -> u64
    decreases bytes.len(),
{
    if bytes.len() == 0 {
        0xcbf2_9ce4_8422_2325u64
    } else {
        (((fnv(bytes.drop_last()) ^ (bytes.last() as u64)) as int * 0x0000_0100_0000_01b3int) % 0x1_0000_0000_0000_0000int) as u64
    }
}

/// The FNV-1a hash of the text's UTF-8 bytes.
pub fn fnv1a(text: &str) -> (r: u64)
    ensures
        r == fnv(text.spec_bytes()),
{
    let bytes = text.as_bytes_vec();
    let mut hash: u64 = 0xcbf2_9ce4_8422_2325u64;
    let mut i: usize = 0;
    while i < bytes.len()
        invariant
            i <= bytes@.len(),
            bytes@ == text.spec_bytes(),
            hash == fnv(bytes@.take(i as int)),
        decreases bytes.len() - i,
    {
        assert(bytes@.take(i + 1).drop_last() =~= bytes@.take(i as int));
        hash = hash ^ (bytes[i] as u64);
        hash = hash.wrapping_mul(0x0000_0100_0000_01b3u64);
        i = i + 1;
    }
    assert(bytes@.take(i as int) =~= bytes@);
    hash
}

/// The failure of a fetch that has no URL.
#[derive(Clone, Copy, Debug, PartialEq, Eq, Structural)]
pub enum MediaError {
    NoUrl,
}

impl MediaError {
    /// What the failure says.
    pub fn message(&self) -> (r: &'static str)
        ensures
            match self {
                MediaError::NoUrl => r@ == "post has no media URL"@,
            },
    {
        match self {
            MediaError::NoUrl => "post has no media URL",
        }
    }
}

/// The URL, or `NoUrl` when the post has none.
pub fn required_url(url: Option<&str>) -> (r: Result<&str, MediaError>)
    ensures
        match url {
            Some(u) => r == Ok::<&str, MediaError>(u),
            None => r == Err::<&str, MediaError>(MediaError::NoUrl),
        },
{
    match url {
        Some(u) => Ok(u),
        None => Err(MediaError::NoUrl),
    }
}

/// The name a saved copy of a post gets: `danbooru-`, the post id, a dot and the extension.
pub open spec fn saved_name(id: PostId, ext: Seq<char>) -> Seq<char> {
    "danbooru-"@ + decimal(id.0 as nat) + seq!['.'] + ext
}

pub fn file_name(id: PostId, ext: &str) -> (r: String)
    ensures
        r@ == saved_name(id, ext@),
{
    let mut out = String::from_str("danbooru-");
    let digits = string_from(&decimal_of(id.0 as u64));
    out.append(digits.as_str());
    out.append(".");
    proof { reveal_strlit("."); }
    out.append(ext);
    proof {
        assert(".".view() =~= seq!['.']);
    }
    out
}

/// The name to save a post's media under, by the extension of its URL.
pub fn save_filename(post: &crate::model::PostRecord, url: &str) -> (r: String)
    ensures
        exists|ext: Seq<char>| r@ == saved_name(post.id, ext)
            && (ext == "img"@ || forall|k: int| 0 <= k < ext.len() ==> is_ascii_alnum(#[trigger] ext[k])),
        named_by_tail(before_query(url@)) ==> r@ == saved_name(post.id, url_extension(url@)),
{
    let ext = extension(url);
    let r = file_name(post.id, ext.as_str());
    assert(r@ == saved_name(post.id, ext@));
    r
}

} // verus!
