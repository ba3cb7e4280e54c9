//! What is known of the file that is renamed, and the texts that stand for it
//! in a template: its name and extension, its size and its time stamps.

use crate::placeholders::{PlaceholderTexts, PlaceholderValues};
use vstd::prelude::*;

verus! {

/// What the file system told of a file. Each entry is there or not on its own.
#[derive(Clone, Copy, Debug, PartialEq, Eq, Structural)]
pub struct FileMetadata {
    /// When the file was created, in seconds since 1970-01-01 00:00:00 UTC.
    pub created: Option<u64>,
    /// When the file was last modified, in seconds since 1970-01-01 00:00:00 UTC.
    pub modified: Option<u64>,
    /// The file's size in bytes.
    pub size: Option<u64>,
}

/// The stem that `std::path::Path::file_stem` gives for the path `path`, on the
/// platform that the library is built for; `None` where it gives none.
pub uninterp spec fn file_stem_text(path: Seq<char>) -> Option<Seq<char>>;

/// The extension that `std::path::Path::extension` gives for the path `path`, on
/// the platform that the library is built for; `None` where it gives none.
pub uninterp spec fn extension_text(path: Seq<char>) -> Option<Seq<char>>;

/// The text that `humansize` writes for a size of `bytes` bytes with its binary
/// options; `None` where it reports an error.
pub uninterp spec fn binary_size_text(bytes: u64) -> Option<Seq<char>>;

/// The text that `chrono` writes for the date and time of day, in UTC, that lie
/// `secs` seconds after 1970-01-01 00:00:00; `None` where `chrono` cannot hold
/// that moment.
pub uninterp spec fn timestamp_text(secs: i64) -> Option<Seq<char>>;

/// Calls `std::path::Path::file_stem` on `path`. Nothing is claimed of the stem
/// but that it depends on the path alone: it is `file_stem_text(path)`.
#[verifier::external_body]
fn path_file_stem(path: &str) -> (r: Option<String>)
    ensures
        match r {
            Some(stem) => file_stem_text(path@) == Some(stem@),
            None => file_stem_text(path@) is None,
        },
{
    match std::path::Path::new(path).file_stem() {
        Some(stem) => Some(stem.to_string_lossy().into_owned()),
        None => None,
    }
}

/// Calls `std::path::Path::extension` on `path`. Nothing is claimed of the
/// extension but that it depends on the path alone: it is `extension_text(path)`.
#[verifier::external_body]
fn path_extension(path: &str) -> (r: Option<String>)
    ensures
        match r {
            Some(extension) => extension_text(path@) == Some(extension@),
            None => extension_text(path@) is None,
        },
{
    match std::path::Path::new(path).extension() {
        Some(extension) => Some(extension.to_string_lossy().into_owned()),
        None => None,
    }
}

/// Calls `humansize::FileSize::file_size` on `bytes` with the options
/// `humansize::file_size_opts::BINARY`. Nothing is claimed of the text but that
/// it depends on `bytes` alone: it is `binary_size_text(bytes)`.
#[verifier::external_body]
fn binary_file_size(bytes: u64) -> (r: Result<String, String>)
    ensures
        match r {
            Ok(text) => binary_size_text(bytes) == Some(text@),
            Err(_) => binary_size_text(bytes) is None,
        },
{
    humansize::FileSize::file_size(&bytes, humansize::file_size_opts::BINARY)
}

/// Calls `chrono::DateTime::from_timestamp` with `secs` seconds and no
/// nanoseconds, and writes the date and time that it gives, without the zone,
/// through `chrono::NaiveDateTime`'s `to_string`. Nothing is claimed of the
/// text but that it depends on `secs` alone: it is `timestamp_text(secs)`.
#[verifier::external_body]
fn timestamp_to_text(secs: i64) -> (r: Option<String>)
    ensures
        match r {
            Some(text) => timestamp_text(secs) == Some(text@),
            None => timestamp_text(secs) is None,
        },
{
    match chrono::DateTime::from_timestamp(secs, 0) {
        Some(moment) => Some(moment.naive_utc().to_string()),
        None => None,
    }
}

/// The text itself, or no text at all where there is none.
pub open spec fn text_or_empty(text: Option<Seq<char>>) -> Seq<char> {
    match text {
        Some(t) => t,
        None => Seq::empty(),
    }
}

/// The name and the extension of the file at `path`; each is empty where the
/// path has none.
pub open spec fn split_name(path: Seq<char>) -> (Seq<char>, Seq<char>) {
    (text_or_empty(file_stem_text(path)), text_or_empty(extension_text(path)))
}

/// The text that stands for a file's size: empty where the size is not known.
pub open spec fn size_text(size: Option<u64>) -> Seq<char> {
    match size {
        Some(bytes) => text_or_empty(binary_size_text(bytes)),
        None => Seq::empty(),
    }
}

/// The text that stands for a time stamp, as date and time of day in UTC:
/// empty where the time is not known or is too far off to be written.
pub open spec fn date_text(moment: Option<u64>) -> Seq<char> {
    match moment {
        Some(secs) => if secs <= i64::MAX {
            text_or_empty(timestamp_text(secs as i64))
        } else {
            Seq::empty()
        },
        None => Seq::empty(),
    }
}

/// The creation time that a preview shows.
pub open spec fn preview_creation_date() -> Seq<char> {
    "2021-01-31 08:42:12"@
}

/// The modification time that a preview shows.
pub open spec fn preview_modification_date() -> Seq<char> {
    "2015-11-15 14:24:55"@
}

/// The size that a preview shows.
pub open spec fn preview_size() -> Seq<char> {
    "2 KB"@
}

/// The values of the fixed placeholders for the file at `path`. The name and
/// the extension come from the path, and the current path is the path itself.
/// In a preview, size and times are fixed texts and `metadata` is not looked
/// at; otherwise they are written from `metadata`, each empty where its entry
/// is missing.
pub open spec fn resolved_values(
    path: Seq<char>,
    example: bool,
    metadata: FileMetadata,
) -> PlaceholderTexts {
    PlaceholderTexts {
        name: split_name(path).0,
        extension: split_name(path).1,
        size: if example {
            preview_size()
        } else {
            size_text(metadata.size)
        },
        creation_date: if example {
            preview_creation_date()
        } else {
            date_text(metadata.created)
        },
        modification_date: if example {
            preview_modification_date()
        } else {
            date_text(metadata.modified)
        },
        current: path,
    }
}

/// The name and the extension of the file at `path`.
pub fn split_file_name(path: &str) -> (r: (String, String))
    ensures
        r.0@ == split_name(path@).0,
        r.1@ == split_name(path@).1,
{
    let name = match path_file_stem(path) {
        Some(stem) => stem,
        None => String::new(),
    };
    let extension = match path_extension(path) {
        Some(extension) => extension,
        None => String::new(),
    };
    (name, extension)
}

/// The text that stands for a file's size.
pub fn format_size(size: Option<u64>) -> (r: String)
    ensures
        r@ == size_text(size),
{
    match size {
        Some(bytes) => match binary_file_size(bytes) {
            Ok(text) => text,
            Err(_) => String::new(),
        },
        None => String::new(),
    }
}

/// The text that stands for a time stamp.
pub fn format_date(moment: Option<u64>) -> (r: String)
    ensures
        r@ == date_text(moment),
{
    match moment {
        Some(secs) => {
            if secs <= i64::MAX as u64 {
                match timestamp_to_text(secs as i64) {
                    Some(text) => text,
                    None => String::new(),
                }
            } else {
                String::new()
            }
        },
        None => String::new(),
    }
}

/// The values of the fixed placeholders for the file at `path`.
pub fn resolve_values(path: &str, example: bool, metadata: &FileMetadata) -> (r: PlaceholderValues)
    ensures
        r@ == resolved_values(path@, example, *metadata),
{
    let (name, extension) = split_file_name(path);
    let (size, creation_date, modification_date) = if example {
        ("2 KB".to_owned(), "2021-01-31 08:42:12".to_owned(), "2015-11-15 14:24:55".to_owned())
    } else {
        (format_size(metadata.size), format_date(metadata.created), format_date(metadata.modified))
    };
    PlaceholderValues {
        name,
        extension,
        size,
        creation_date,
        modification_date,
        current: path.to_owned(),
    }
}

} // verus!
