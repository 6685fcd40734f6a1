//! Files: what kind of media an upload is, and where it is kept.

use crate::ids::FileID;
use crate::model::{FileType, RepoError};
use crate::text::{
    has_prefix, is_prefix, lowercase_of, lowercased, replaced, replaced_of, same_text,
};
use crate::uuid_text::{hyphenated_of, uuid_text};
use vstd::prelude::*;
use vstd::string::StrSliceExecFns;
use vstd::string::StringExecFns;

verus! {

/// The kind of media that a lower-case file extension stands for.
pub open spec fn type_of_extension(ext: Seq<char>) -> Option<FileType> {
    if ext == "png"@ || ext == "jpg"@ || ext == "jpeg"@ || ext == "webp"@ || ext == "gif"@ {
        Some(FileType::Picture)
    } else if ext == "mp4"@ || ext == "mkv"@ || ext == "webm"@ || ext == "avi"@ || ext == "mov"@ {
        Some(FileType::Video)
    } else if ext == "mp3"@ || ext == "wav"@ || ext == "ogg"@ || ext == "flac"@ {
        Some(FileType::Audio)
    } else {
        None
    }
}

/// The kind of media that the essence of a MIME type (`type/subtype`)
/// stands for.
pub open spec fn type_of_essence(essence: Seq<char>) -> Option<FileType> {
    if is_prefix("image/"@, essence) {
        Some(FileType::Picture)
    } else if is_prefix("video/"@, essence) {
        Some(FileType::Video)
    } else if is_prefix("audio/"@, essence) {
        Some(FileType::Audio)
    } else {
        None
    }
}

/// The kind of media of an upload. Where a MIME type is given it decides
/// alone; otherwise the file extension does, letter case aside.
pub open spec fn file_type_spec(essence: Option<Seq<char>>, ext: Option<Seq<char>>) -> Option<
    FileType,
> {
    match essence {
        Some(essence) => type_of_essence(essence),
        None => match ext {
            Some(ext) => type_of_extension(lowercase_of(ext)),
            None => None,
        },
    }
}

/// The kind of media that a lower-case file extension stands for.
pub fn file_type_from_extension(ext: &str) -> (kind: Option<FileType>)
    ensures
        kind == type_of_extension(ext@),
{
    if same_text(ext, "png") || same_text(ext, "jpg") || same_text(ext, "jpeg") || same_text(
        ext,
        "webp",
    ) || same_text(ext, "gif") {
        Some(FileType::Picture)
    } else if same_text(ext, "mp4") || same_text(ext, "mkv") || same_text(ext, "webm")
        || same_text(ext, "avi") || same_text(ext, "mov") {
        Some(FileType::Video)
    } else if same_text(ext, "mp3") || same_text(ext, "wav") || same_text(ext, "ogg")
        || same_text(ext, "flac") {
        Some(FileType::Audio)
    } else {
        None
    }
}

/// The kind of media of an upload with MIME essence `mime` and file
/// extension `ext`, or `StorageError` where neither tells.
pub fn file_type_from_mime_and_ext(mime: Option<&str>, ext: Option<&str>) -> (kind: Result<
    FileType,
    RepoError,
>)
    ensures
        match file_type_spec(
            match mime {
                Some(essence) => Some(essence@),
                None => None,
            },
            match ext {
                Some(ext) => Some(ext@),
                None => None,
            },
        ) {
            Some(found) => kind == Ok::<FileType, RepoError>(found),
            None => kind == Err::<FileType, RepoError>(RepoError::StorageError),
        },
{
    if let Some(essence) = mime {
        return if has_prefix(essence, "image/") {
            Ok(FileType::Picture)
        } else if has_prefix(essence, "video/") {
            Ok(FileType::Video)
        } else if has_prefix(essence, "audio/") {
            Ok(FileType::Audio)
        } else {
            Err(RepoError::StorageError)
        };
    }
    match ext {
        None => Err(RepoError::StorageError),
        Some(ext) => {
            let lower = lowercased(ext);
            match file_type_from_extension(lower.as_str()) {
                Some(kind) => Ok(kind),
                None => Err(RepoError::StorageError),
            }
        },
    }
}

/// The name under which a file is kept: the identifier as text, and where
/// there is an extension, a dot and the extension after it.
pub open spec fn file_name_spec(id_text: Seq<char>, ext: Option<Seq<char>>) -> Seq<char> {
    match ext {
        Some(ext) => id_text + "."@ + ext,
        None => id_text,
    }
}

/// The three steps of the relative path of a file whose identifier reads
/// `id_text`: two directories named by the first and the second pair of
/// characters, then the file name.
pub fn rel_path_for(id_text: &str, ext: Option<&str>) -> (steps: Vec<String>)
    requires
        id_text@.len() >= 4,
    ensures
        steps@.len() == 3,
        steps@[0]@ == id_text@.subrange(0, 2),
        steps@[1]@ == id_text@.subrange(2, 4),
        steps@[2]@ == file_name_spec(
            id_text@,
            match ext {
                Some(ext) => Some(ext@),
                None => None,
            },
        ),
{
    let first = id_text.substring_char(0, 2).to_owned();
    let second = id_text.substring_char(2, 4).to_owned();
    let name = match ext {
        Some(ext) => id_text.to_owned().concat(".").concat(ext),
        None => id_text.to_owned(),
    };
    let mut steps: Vec<String> = Vec::new();
    steps.push(first);
    steps.push(second);
    steps.push(name);
    steps
}

/// The internal location that a download of the file at `path` is handed
/// over to: files below `/media/old` are served from the old protected
/// area, all others from the current one.
pub open spec fn redirect_spec(path: Seq<char>) -> Seq<char> {
    if is_prefix("/media/old"@, path) {
        replaced_of(path, "/media/old"@, "/protected_old"@)
    } else {
        replaced_of(path, "/media/new"@, "/protected_current"@)
    }
}

/// The internal location that a download of the file at `path` is handed
/// over to.
pub fn redirect_target(path: &str) -> (target: String)
    ensures
        target@ == redirect_spec(path@),
{
    if has_prefix(path, "/media/old") {
        replaced(path, "/media/old", "/protected_old")
    } else {
        replaced(path, "/media/new", "/protected_current")
    }
}

/// A file store below one directory.
#[derive(Debug)]
pub struct LocalFileStorage {
    root: String,
}

impl LocalFileStorage {
    pub closed spec fn root_view(&self) -> Seq<char> {
        self.root@
    }

    pub fn new(root: String) -> (storage: LocalFileStorage)
        ensures
            storage.root_view() == root@,
    {
        LocalFileStorage { root }
    }

    /// The directory that the store keeps its files below.
    pub fn root(&self) -> (root: &str)
        ensures
            root@ == self.root_view(),
    {
        self.root.as_str()
    }

    /// The steps of the path, relative to the root, of the file with
    /// identifier `id`.
    pub fn generate_rel_path(&self, id: FileID, ext: Option<&str>) -> (steps: Vec<String>)
        ensures
            steps@.len() == 3,
            steps@[0]@ == hyphenated_of(id).subrange(0, 2),
            steps@[1]@ == hyphenated_of(id).subrange(2, 4),
            steps@[2]@ == file_name_spec(
                hyphenated_of(id),
                match ext {
                    Some(ext) => Some(ext@),
                    None => None,
                },
            ),
    {
        let id_text = uuid_text(id);
        rel_path_for(id_text.as_str(), ext)
    }
}

} // verus!
