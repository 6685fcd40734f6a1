//! The records of the catalogue and the errors of its stores.

use crate::ids::{PlaylistItemID, TagID};
use crate::ranking::reversed;
use vstd::prelude::*;
use vstd::std_specs::convert::FromSpecImpl;

verus! {

/// Why a repository could not answer.
#[derive(Clone, Copy, Debug, PartialEq, Eq, Structural)]
pub enum RepoError {
    NotFound,
    StorageError,
}

/// Why a file store could not answer.
#[derive(Clone, Copy, Debug, PartialEq, Eq, Structural)]
pub enum StorageError {
    NotFound,
    StorageError,
    Io,
}

/// The kind of media in a file.
#[derive(Clone, Copy, Debug, PartialEq, Eq, Structural)]
pub enum FileType {
    Picture,
    Video,
    Audio,
}

/// The size class of a thumbnail.
#[derive(Clone, Copy, Debug, PartialEq, Eq, Structural)]
pub enum ThumbSizeType {
    Small,
    Medium,
    Large,
}

/// The category of a tag.
#[derive(Clone, Copy, Debug, PartialEq, Eq, Structural)]
pub enum TagCategory {
    Artist,
    Copyright,
    Character,
    General,
}

impl From<i16> for FileType {
    /// The kind with number `v`; an unknown number is read as a picture.
    fn from(v: i16) -> (kind: FileType) {
        match v {
            0 => FileType::Picture,
            1 => FileType::Video,
            2 => FileType::Audio,
            _ => FileType::Picture,
        }
    }
}

impl FromSpecImpl<i16> for FileType {
    open spec fn obeys_from_spec() -> bool {
        true
    }

    open spec fn from_spec(v: i16) -> FileType {
        if v == 1 {
            FileType::Video
        } else if v == 2 {
            FileType::Audio
        } else {
            FileType::Picture
        }
    }
}

impl From<FileType> for i16 {
    /// The number of the kind.
    fn from(kind: FileType) -> (v: i16) {
        match kind {
            FileType::Picture => 0,
            FileType::Video => 1,
            FileType::Audio => 2,
        }
    }
}

impl FromSpecImpl<FileType> for i16 {
    open spec fn obeys_from_spec() -> bool {
        true
    }

    open spec fn from_spec(kind: FileType) -> i16 {
        match kind {
            FileType::Picture => 0,
            FileType::Video => 1,
            FileType::Audio => 2,
        }
    }
}

/// The category with number `v`; an unknown number is read as general.
pub open spec fn category_of(v: i16) -> TagCategory {
    if v == 0 {
        TagCategory::Artist
    } else if v == 1 {
        TagCategory::Copyright
    } else if v == 2 {
        TagCategory::Character
    } else {
        TagCategory::General
    }
}

impl From<i16> for TagCategory {
    /// The category with number `v`; an unknown number is read as general.
    fn from(v: i16) -> (category: TagCategory) {
        match v {
            0 => TagCategory::Artist,
            1 => TagCategory::Copyright,
            2 => TagCategory::Character,
            _ => TagCategory::General,
        }
    }
}

impl FromSpecImpl<i16> for TagCategory {
    open spec fn obeys_from_spec() -> bool {
        true
    }

    open spec fn from_spec(v: i16) -> TagCategory {
        category_of(v)
    }
}

/// The category of a tag as a store spells it.
#[derive(Clone, Copy, Debug, PartialEq, Eq, Structural)]
pub enum TagCategoryResponse {
    Artist,
    Copyright,
    Character,
    General,
}

impl From<TagCategoryResponse> for TagCategory {
    fn from(c: TagCategoryResponse) -> (category: TagCategory) {
        match c {
            TagCategoryResponse::Artist => TagCategory::Artist,
            TagCategoryResponse::Copyright => TagCategory::Copyright,
            TagCategoryResponse::Character => TagCategory::Character,
            TagCategoryResponse::General => TagCategory::General,
        }
    }
}

impl FromSpecImpl<TagCategoryResponse> for TagCategory {
    open spec fn obeys_from_spec() -> bool {
        true
    }

    open spec fn from_spec(c: TagCategoryResponse) -> TagCategory {
        match c {
            TagCategoryResponse::Artist => TagCategory::Artist,
            TagCategoryResponse::Copyright => TagCategory::Copyright,
            TagCategoryResponse::Character => TagCategory::Character,
            TagCategoryResponse::General => TagCategory::General,
        }
    }
}

/// A tag to find or to create.
#[derive(Debug)]
pub struct NewTag {
    pub category: TagCategory,
    pub value: String,
}

/// A change of a tag.
#[derive(Debug)]
pub struct UpdateTag {
    pub category: TagCategory,
    pub value: String,
}

/// A user to create.
#[derive(Debug)]
pub struct NewUser {
    pub username: String,
    pub password_hash: String,
}

/// A change of a user; a field that is `None` stays as it is.
#[derive(Debug)]
pub struct UpdateUser {
    pub username: Option<String>,
    pub password_hash: Option<String>,
}

/// A tag: a name in a category, with the number of items that carry it.
#[derive(Debug)]
pub struct Tag {
    pub id: TagID,
    pub name: String,
    pub category: TagCategory,
    pub count: i32,
}

/// A tag as a store hands it out.
#[derive(Debug)]
pub struct TagResponse {
    pub id: TagID,
    pub name: String,
    pub category: i16,
    pub count: i16,
}

impl From<TagResponse> for Tag {
    fn from(t: TagResponse) -> (tag: Tag) {
        Tag {
            id: t.id,
            name: t.name,
            category: TagCategory::from(t.category),
            count: t.count as i32,
        }
    }
}

impl FromSpecImpl<TagResponse> for Tag {
    open spec fn obeys_from_spec() -> bool {
        true
    }

    open spec fn from_spec(t: TagResponse) -> Tag {
        Tag {
            id: t.id,
            name: t.name,
            category: category_of(t.category),
            count: t.count as i32,
        }
    }
}

/// What is known of the content of a file.
#[derive(Debug)]
pub struct FileMeta {
    pub width: Option<u32>,
    pub height: Option<u32>,
    pub extension: Option<String>,
    pub duration_ms: Option<u64>,
}

/// The same as a store hands it out, with signed numbers.
#[derive(Debug)]
pub struct FileMetaResponse {
    pub width: Option<i32>,
    pub height: Option<i32>,
    pub extension: Option<String>,
    pub duration_ms: Option<i64>,
}

/// A size as an unsigned number; a negative one counts as unknown.
pub open spec fn size_of(stored: Option<i32>) -> Option<u32> {
    match stored {
        Some(v) => if v >= 0 {
            Some(v as u32)
        } else {
            None
        },
        None => None,
    }
}

/// A duration as an unsigned number; a negative one counts as unknown.
pub open spec fn duration_of(stored: Option<i64>) -> Option<u64> {
    match stored {
        Some(v) => if v >= 0 {
            Some(v as u64)
        } else {
            None
        },
        None => None,
    }
}

impl From<FileMetaResponse> for FileMeta {
    fn from(m: FileMetaResponse) -> (meta: FileMeta) {
        let width = match m.width {
            Some(v) => if v >= 0 {
                Some(v as u32)
            } else {
                None
            },
            None => None,
        };
        let height = match m.height {
            Some(v) => if v >= 0 {
                Some(v as u32)
            } else {
                None
            },
            None => None,
        };
        let duration_ms = match m.duration_ms {
            Some(v) => if v >= 0 {
                Some(v as u64)
            } else {
                None
            },
            None => None,
        };
        FileMeta { width, height, extension: m.extension, duration_ms }
    }
}

impl FromSpecImpl<FileMetaResponse> for FileMeta {
    open spec fn obeys_from_spec() -> bool {
        true
    }

    open spec fn from_spec(m: FileMetaResponse) -> FileMeta {
        FileMeta {
            width: size_of(m.width),
            height: size_of(m.height),
            extension: m.extension,
            duration_ms: duration_of(m.duration_ms),
        }
    }
}

/// What stands at one place of a playlist: a post or a note.
#[derive(Debug)]
pub enum PlaylistContent<P> {
    Post(P),
    Note(String),
}

/// One place of a playlist.
#[derive(Debug)]
pub struct PlaylistItem<P> {
    pub id: PlaylistItemID,
    pub position: u32,
    pub content: PlaylistContent<P>,
}

/// One place of a playlist as a store hands it out: with a post, or else
/// with the text of a note.
#[derive(Debug)]
pub struct PlaylistItemPayload<P> {
    pub id: PlaylistItemID,
    pub position: i32,
    pub post: Option<P>,
    pub note: Option<String>,
}

/// The place of an item as an unsigned number; a negative one counts as 0.
pub open spec fn position_of(stored: i32) -> u32 {
    if stored < 0 {
        0
    } else {
        stored as u32
    }
}

/// The item that `payload` stands for. A payload with a post is a post; any
/// other is a note, with an empty text where it has none.
pub open spec fn playlist_item_of<P>(
    payload: PlaylistItemPayload<P>,
    item: PlaylistItem<P>,
) -> bool {
    &&& item.id == payload.id
    &&& item.position == position_of(payload.position)
    &&& match payload.post {
        Some(post) => item.content == PlaylistContent::Post(post),
        None => item.content matches PlaylistContent::Note(text) && text@ == match payload.note {
            Some(note) => note@,
            None => Seq::<char>::empty(),
        },
    }
}

/// The item that `payload` stands for.
pub fn map_playlist_item<P>(payload: PlaylistItemPayload<P>) -> (item: PlaylistItem<P>)
    ensures
        playlist_item_of(payload, item),
{
    let content = match payload.post {
        Some(post) => PlaylistContent::Post(post),
        None => PlaylistContent::Note(
            match payload.note {
                Some(note) => note,
                None => String::new(),
            },
        ),
    };
    let position: u32 = if payload.position < 0 {
        0
    } else {
        payload.position as u32
    };
    PlaylistItem { id: payload.id, position, content }
}

/// The items that `payloads` stand for, in the same order.
pub fn map_playlist_items<P>(payloads: Vec<PlaylistItemPayload<P>>) -> (items: Vec<PlaylistItem<P>>)
    ensures
        items@.len() == payloads@.len(),
        forall|i: int|
            0 <= i < items@.len() ==> playlist_item_of(payloads@[i], #[trigger] items@[i]),
{
    let mut rest = reversed(payloads);
    let mut items: Vec<PlaylistItem<P>> = Vec::new();
    while rest.len() > 0
        invariant
            rest@.len() + items@.len() == payloads@.len(),
            forall|i: int| 0 <= i < rest@.len() ==> rest@[i] == payloads@[payloads@.len() - 1 - i],
            forall|i: int|
                0 <= i < items@.len() ==> playlist_item_of(payloads@[i], #[trigger] items@[i]),
        decreases rest@.len(),
    {
        let last = rest.pop();
        match last {
            Some(payload) => {
                items.push(map_playlist_item(payload));
            },
            None => {},
        }
    }
    items
}

/// The place of a playlist item as a store keeps it, or `StorageError` for
/// a place beyond what the store can hold.
pub fn position_for_storage(position: u32) -> (stored: Result<i32, RepoError>)
    ensures
        match stored {
            Ok(v) => position <= i32::MAX && v == position,
            Err(error) => position > i32::MAX && error == RepoError::StorageError,
        },
{
    if position <= 2147483647 {
        Ok(position as i32)
    } else {
        Err(RepoError::StorageError)
    }
}

} // verus!
