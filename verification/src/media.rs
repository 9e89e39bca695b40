//! Uploaded media: what the overview page shows, and which uploads are
//! accepted.

use crate::config::TomeConfig;
use crate::text::{chain, ends_with, join, joined, same_text, texts};
use vstd::prelude::*;

verus! {

/// What the media page shows.
#[derive(Clone, Debug)]
pub struct MediaOverview {
    /// The accepted endings, separated by a comma and a space.
    pub allowed_uploads: String,
    /// The names of the stored files.
    pub media: Vec<String>,
}

/// The directory that holds the uploaded files.
pub open spec fn media_dir() -> Seq<char> {
    "content/media"@
}

/// Whether some accepted ending is a suffix of the file name.
pub open spec fn has_allowed_ending(allowed: Seq<Seq<char>>, file_name: Seq<char>) -> bool {
    exists|i: int| 0 <= i < allowed.len() && (#[trigger] allowed[i]).is_suffix_of(file_name)
}

/// Whether a part of an upload form is stored: it must be the part named
/// `image`, and its file name must have an accepted ending.
pub open spec fn accepts_upload(
    allowed: Seq<Seq<char>>,
    name: Seq<char>,
    file_name: Seq<char>,
) -> bool {
    name == "image"@ && has_allowed_ending(allowed, file_name)
}

/// Where an upload with the given file name is stored.
pub open spec fn media_path(file_name: Seq<char>) -> Seq<char> {
    media_dir() + "/"@ + file_name
}

/// The media page for the given settings and the names of the stored
/// files: the accepted endings in one line, the names as they are.
pub fn get_media_overview(config: &TomeConfig, file_names: Vec<String>) -> (overview:
    MediaOverview)
    ensures
        overview.allowed_uploads@ == joined(texts(config.allowed_uploads@), ", "@),
        overview.media == file_names,
{
    MediaOverview { allowed_uploads: join(&config.allowed_uploads, ", "), media: file_names }
}

/// Whether the file name has one of the accepted endings.
pub fn allowed_ending(allowed: &Vec<String>, file_name: &str) -> (found: bool)
    ensures
        found == has_allowed_ending(texts(allowed@), file_name@),
{
    let mut i: usize = 0;
    while i < allowed.len()
        invariant
            i <= allowed.len(),
            forall|j: int| 0 <= j < i ==> !(#[trigger] texts(allowed@)[j]).is_suffix_of(file_name@),
        decreases allowed.len() - i,
    {
        if ends_with(file_name, allowed[i].as_str()) {
            assert(texts(allowed@)[i as int] == allowed@[i as int]@);
            return true;
        }
        i += 1;
    }
    false
}

/// Decides on one part of an upload form, by the part's name and its file
/// name: the path to store its content under, or `None` where the part is
/// passed over.
pub fn post_media(config: &TomeConfig, name: &str, file_name: &str) -> (target: Option<String>)
    ensures
        match target {
            Some(path) => accepts_upload(texts(config.allowed_uploads@), name@, file_name@)
                && path@ == media_path(file_name@),
            None => !accepts_upload(texts(config.allowed_uploads@), name@, file_name@),
        },
{
    if same_text(name, "image") && allowed_ending(&config.allowed_uploads, file_name) {
        proof {
            reveal_strlit("content/media/");
            reveal_strlit("content/media");
            reveal_strlit("/");
            assert("content/media/"@ =~= media_dir() + "/"@);
        }
        Some(chain("content/media/", file_name))
    } else {
        None
    }
}

} // verus!
