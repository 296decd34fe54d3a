//! The names the native UI boundary uses for its controls and targets.
use vstd::prelude::*;
use vstd::string::{StrSliceExecFns, StringSliceAdditionalSpecFns};

use crate::text::string_from;

verus! {

/// A button of the image viewer.
#[derive(Clone, Copy, Debug, PartialEq, Eq, Structural)]
pub enum ViewerControl {
    Tree,
    Tags,
    Copy,
    Save,
    Favorite,
    Close,
    Danbooru,
    Previous,
    Parent,
    Children,
    Next,
}

pub open spec fn control_wire(c: ViewerControl) -> Seq<char> {
    match c {
        ViewerControl::Tree => "tree"@,
        ViewerControl::Tags => "tags"@,
        ViewerControl::Copy => "copy"@,
        ViewerControl::Save => "save"@,
        ViewerControl::Favorite => "favorite"@,
        ViewerControl::Close => "close"@,
        ViewerControl::Danbooru => "danbooru"@,
        ViewerControl::Previous => "previous"@,
        ViewerControl::Parent => "parent"@,
        ViewerControl::Children => "children"@,
        ViewerControl::Next => "next"@,
    }
}

impl ViewerControl {
    /// The control's name on the wire.
    pub fn wire(self) -> (r: &'static str)
        ensures
            r@ == control_wire(self),
    {
        match self {
            ViewerControl::Tree => "tree",
            ViewerControl::Tags => "tags",
            ViewerControl::Copy => "copy",
            ViewerControl::Save => "save",
            ViewerControl::Favorite => "favorite",
            ViewerControl::Close => "close",
            ViewerControl::Danbooru => "danbooru",
            ViewerControl::Previous => "previous",
            ViewerControl::Parent => "parent",
            ViewerControl::Children => "children",
            ViewerControl::Next => "next",
        }
    }
}

/// The water modes as the UI boundary names them.
#[derive(Clone, Copy, Debug, PartialEq, Eq, Structural)]
pub enum Water {
    Dry,
    Wet,
    ReallyWet,
}

pub open spec fn water_wire(w: Water) -> Seq<char> {
    match w {
        Water::Dry => "dry"@,
        Water::Wet => "wet"@,
        Water::ReallyWet => "really"@,
    }
}

impl Water {
    pub fn wire(self) -> (r: &'static str)
        ensures
            r@ == water_wire(self),
    {
        match self {
            Water::Dry => "dry",
            Water::Wet => "wet",
            Water::ReallyWet => "really",
        }
    }
}

/// Bytes kept as they are in an encoded identity: ASCII letters, digits, `-`, `.`, `_`, `~`.
pub open spec fn unreserved(b: u8) -> bool {
    (48 <= b <= 57) || (65 <= b <= 90) || (97 <= b <= 122) || b == 45 || b == 46 || b == 95 || b == 126
}

pub open spec fn hex_digit(n: u8) -> char {
    if n < 10 { ((48 + n) as u8) as char } else { ((55 + n) as u8) as char }
}

/// One byte encoded: itself when unreserved, otherwise `%` and two upper-case hex digits.
pub open spec fn encoded_byte(b: u8) -> Seq<char> {
    if unreserved(b) { seq![b as char] } else { seq!['%', hex_digit(b / 16), hex_digit(b % 16)] }
}

/// Percent-encoding of a byte string, byte by byte.
pub open spec fn encoded(bs: Seq<u8>) -> Seq<char>
    decreases bs.len(),
{
    if bs.len() == 0 { Seq::empty() } else { encoded(bs.drop_last()) + encoded_byte(bs.last()) }
}

fn hex(n: u8) -> (r: char)
    requires
        n < 16,
    ensures
        r == hex_digit(n),
{
    if n < 10 { (48u8 + n) as char } else { (55u8 + n) as char }
}

/// The identity's UTF-8 bytes, percent-encoded except for unreserved ones.
pub fn encode_identity(identity: &str) -> (r: String)
    ensures
        r@ == encoded(identity.spec_bytes()),
{
    let bytes = identity.as_bytes_vec();
    let mut out: Vec<char> = Vec::new();
    let mut i: usize = 0;
    while i < bytes.len()
        invariant
            i <= bytes@.len(),
            bytes@ == identity.spec_bytes(),
            out@ == encoded(bytes@.take(i as int)),
        decreases bytes.len() - i,
    {
        let b = bytes[i];
        assert(bytes@.take(i + 1).drop_last() =~= bytes@.take(i as int));
        let ghost before = out@;
        if (48 <= b && b <= 57) || (65 <= b && b <= 90) || (97 <= b && b <= 122) || b == 45 || b == 46 || b == 95 || b == 126 {
            out.push(b as char);
        } else {
            out.push('%');
            out.push(hex(b / 16));
            out.push(hex(b % 16));
        }
        assert(out@ =~= before + encoded_byte(b));
        i = i + 1;
    }
    assert(bytes@.take(i as int) =~= bytes@);
    string_from(&out)
}

/// What a witness observation points at.
#[derive(Debug)]
pub enum Target {
    ImagesPerRow,
    Panel(String),
    TagEntry,
    ViewerControl(ViewerControl),
    ViewerSurface,
    Water(Water),
    Filter(String),
    LocalFavorites,
}

pub open spec fn target_wire(t: Target) -> Seq<char> {
    match t {
        Target::ImagesPerRow => "abv.gallery.images-per-row"@,
        Target::Panel(name) => "abv.inspector.panel/"@ + name@,
        Target::TagEntry => "abv.query.tag-entry"@,
        Target::ViewerControl(c) => "abv.viewer.control."@ + control_wire(c),
        Target::ViewerSurface => "abv.viewer.surface"@,
        Target::Water(w) => "abv.water.mode."@ + water_wire(w),
        Target::Filter(name) => "abv.cabinet.filter.entry/"@ + encoded(vstd::utf8::encode_utf8(name@)),
        Target::LocalFavorites => "abv.filter.local-favorites"@,
    }
}

fn joined(front: &str, back: &str) -> (r: String)
    ensures
        r@ == front@ + back@,
{
    let mut s = String::from_str(front);
    s.append(back);
    s
}

impl Target {
    /// The target's name on the wire.
    pub fn wire(&self) -> (r: String)
        ensures
            r@ == target_wire(*self),
    {
        match self {
            Target::ImagesPerRow => String::from_str("abv.gallery.images-per-row"),
            Target::Panel(name) => joined("abv.inspector.panel/", name.as_str()),
            Target::TagEntry => String::from_str("abv.query.tag-entry"),
            Target::ViewerControl(c) => joined("abv.viewer.control.", c.wire()),
            Target::ViewerSurface => String::from_str("abv.viewer.surface"),
            Target::Water(w) => joined("abv.water.mode.", w.wire()),
            Target::Filter(name) => {
                let code = encode_identity(name.as_str());
                joined("abv.cabinet.filter.entry/", code.as_str())
            },
            Target::LocalFavorites => String::from_str("abv.filter.local-favorites"),
        }
    }
}

} // verus!
