//! What a GoPro card looks like: its folders, its files and its version file.

use crate::text::{
    cut_last, is_digit, is_digit_char, lowered, replace, replaced, rsplit_once, same_text,
    strip_prefix, to_chars, to_lower,
};
use vstd::prelude::*;

verus! {

/// The kind of a file on a card, by its extension.
#[derive(Debug, Clone, Copy, PartialEq, Eq, Structural)]
pub enum MediaKind {
    Video,
    Video360,
    Photo,
    /// A low-resolution companion of a video.
    Proxy,
    /// A still companion of a video.
    Thumbnail,
    Unknown,
}

impl MediaKind {
    /// True of a still picture.
    pub fn is_photo(self) -> (r: bool)
        ensures
            r == (self == MediaKind::Photo),
    {
        self == MediaKind::Photo
    }

    /// True of a low-resolution companion.
    pub fn is_proxy(self) -> (r: bool)
        ensures
            r == (self == MediaKind::Proxy),
    {
        self == MediaKind::Proxy
    }

    /// True of a still companion.
    pub fn is_thumbnail(self) -> (r: bool)
        ensures
            r == (self == MediaKind::Thumbnail),
    {
        self == MediaKind::Thumbnail
    }
}

/// What follows the last dot of a name; empty without one.
pub open spec fn extension(name: Seq<char>) -> Seq<char> {
    match cut_last(name, '.') {
        Some((_, ext)) => ext,
        None => seq![],
    }
}

/// The kind of the file `name`. Upper and lower case count the same.
pub open spec fn kind_of(name: Seq<char>) -> MediaKind {
    let ext = lowered(extension(name));
    if ext == "mp4"@ {
        MediaKind::Video
    } else if ext == "360"@ {
        MediaKind::Video360
    } else if ext == "jpg"@ {
        MediaKind::Photo
    } else if ext == "lrv"@ {
        MediaKind::Proxy
    } else if ext == "thm"@ {
        MediaKind::Thumbnail
    } else {
        MediaKind::Unknown
    }
}

/// What follows the last dot of a name; empty without one.
pub fn extension_of(name: &str) -> (r: String)
    ensures
        r@ == extension(name@),
{
    match rsplit_once(name, '.') {
        Some((_, ext)) => ext,
        None => String::new(),
    }
}

/// The kind of the file `name`.
pub fn classify(name: &str) -> (r: MediaKind)
    ensures
        r == kind_of(name@),
{
    let ext = to_lower(extension_of(name).as_str());
    if same_text(ext.as_str(), "mp4") {
        MediaKind::Video
    } else if same_text(ext.as_str(), "360") {
        MediaKind::Video360
    } else if same_text(ext.as_str(), "jpg") {
        MediaKind::Photo
    } else if same_text(ext.as_str(), "lrv") {
        MediaKind::Proxy
    } else if same_text(ext.as_str(), "thm") {
        MediaKind::Thumbnail
    } else {
        MediaKind::Unknown
    }
}

/// True of folder names like `100GOPRO`: three digits and `GOPRO`.
pub open spec fn media_folder_name(name: Seq<char>) -> bool {
    &&& name.len() == 8
    &&& is_digit(name[0])
    &&& is_digit(name[1])
    &&& is_digit(name[2])
    &&& name.skip(3) == "GOPRO"@
}

/// True of folder names like `100GOPRO`.
pub fn is_gopro_media_folder(name: &str) -> (r: bool)
    ensures
        r == media_folder_name(name@),
{
    let v = to_chars(name);
    proof {
        reveal_strlit("GOPRO");
    }
    if v.len() != 8 {
        return false;
    }
    let r = is_digit_char(v[0]) && is_digit_char(v[1]) && is_digit_char(v[2]) && v[3] == 'G' && v[4]
        == 'O' && v[5] == 'P' && v[6] == 'R' && v[7] == 'O';
    proof {
        let t = name@.skip(3);
        if r {
            assert(t =~= "GOPRO"@);
        } else if t == "GOPRO"@ {
            assert(t[0] == v@[3] && t[1] == v@[4] && t[2] == v@[5] && t[3] == v@[6] && t[4]
                == v@[7]);
        }
    }
    r
}

/// One entry of the `DCIM` folder of a volume.
#[derive(Debug, Clone, PartialEq, Eq)]
pub struct FolderEntry<S = String> {
    /// Its name; `None` if it is not valid Unicode.
    pub name: Option<S>,
    pub is_dir: bool,
}

impl FolderEntry<String> {
    /// True of a directory whose name is that of a media folder.
    pub open spec fn is_media_folder(self) -> bool {
        self.is_dir && self.name is Some && media_folder_name(self.name->0@)
    }
}

/// A volume is a GoPro card iff its `DCIM` folder, of which `entries` is the
/// content, holds a media folder. A volume without one has no entries there.
pub fn is_gopro_card(entries: &Vec<FolderEntry>) -> (r: bool)
    ensures
        r == exists|i: int| 0 <= i < entries@.len() && (#[trigger] entries@[i]).is_media_folder(),
{
    let mut i: usize = 0;
    while i < entries.len()
        invariant
            i <= entries@.len(),
            forall|j: int| 0 <= j < i ==> !(#[trigger] entries@[j]).is_media_folder(),
        decreases entries.len() - i,
    {
        if entries[i].is_dir {
            if let Some(name) = &entries[i].name {
                if is_gopro_media_folder(name.as_str()) {
                    assert(entries@[i as int].is_media_folder());
                    return true;
                }
            }
        }
        i += 1;
    }
    false
}

/// What a card's version file says of its camera.
#[derive(Debug, Clone, PartialEq, Eq)]
pub struct CardVersion {
    pub firmware_version: String,
    pub camera_serial_number: String,
}

/// The version file as JSON: cameras break lines inside it and put a comma
/// before the closing brace.
pub open spec fn version_json(text: Seq<char>) -> Seq<char> {
    replaced(replaced(replaced(text, "\n"@, seq![]), "\r"@, seq![]), ",}"@, "}"@)
}

/// Turns the text of a version file into JSON.
pub fn sanitize_version_txt(text: &str) -> (r: String)
    ensures
        r@ == version_json(text@),
{
    proof {
        reveal_strlit("");
        assert(""@ =~= seq![]);
    }
    let a = replace(text, "\n", "");
    let b = replace(a.as_str(), "\r", "");
    replace(b.as_str(), ",}", "}")
}

/// The camera model that a firmware version belongs to, where it is known.
pub open spec fn family_of(firmware: Seq<char>) -> Option<Seq<char>> {
    if "H22"@.is_prefix_of(firmware) {
        Some("HERO11"@)
    } else {
        None
    }
}

/// The camera model that a firmware version belongs to, where it is known.
pub fn model_family(firmware: &str) -> (r: Option<String>)
    ensures
        crate::text::opt_view(r) == family_of(firmware@),
{
    match strip_prefix(firmware, "H22") {
        Some(_) => Some("HERO11".to_owned()),
        None => None,
    }
}

/// The serial number and the model of a card with version file `version`: an
/// empty serial number counts as none.
pub open spec fn identity_of(version: Option<CardVersion>) -> (Option<Seq<char>>, Option<
    Seq<char>,
>) {
    match version {
        Some(v) => (
            if v.camera_serial_number@.len() == 0 {
                None
            } else {
                Some(v.camera_serial_number@)
            },
            family_of(v.firmware_version@),
        ),
        None => (None, None),
    }
}

/// The serial number and the model of a card with version file `version`.
pub fn card_identity(version: &Option<CardVersion>) -> (r: (Option<String>, Option<String>))
    ensures
        (crate::text::opt_view(r.0), crate::text::opt_view(r.1)) == identity_of(*version),
{
    match version {
        Some(v) => {
            let serial = if v.camera_serial_number.as_str().is_empty() {
                None
            } else {
                Some(v.camera_serial_number.clone())
            };
            (serial, model_family(v.firmware_version.as_str()))
        },
        None => (None, None),
    }
}

} // verus!
