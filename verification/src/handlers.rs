//! What a request handler decides before it turns to a store: which search
//! a request asks for, which requests are refused, and how the parts of a
//! request become a query and a cursor.

use crate::error::{joined, AppError};
use crate::ids::{ItemId, UserID};
use crate::keyset::{KeysetCursor, PaginationMode};
use crate::model::{NewTag, NewUser, TagCategory};
use crate::offset::Cursor;
use crate::query::{PlaylistQuery, TagQuery};
use crate::ranking::KeysetDirection;
use crate::text::{lowercase_of, lowercased, same_text, trimmed, trimmed_of};
use crate::uuid_text::{parse_uuid_text, uuid_of_text};
use vstd::prelude::*;
use vstd::std_specs::convert::FromSpecImpl;
use vstd::string::StringExecFns;

verus! {

/// The tag clauses of a search request.
#[derive(Debug)]
pub struct TagQueryParams {
    pub must: Vec<String>,
    pub should: Vec<String>,
    pub must_not: Vec<String>,
}

/// The cursor of a search request: the fields of both protocols, each of
/// them optional.
#[derive(Clone, Copy, Debug)]
pub struct SearchCursorParams {
    pub mode: Option<PaginationMode>,
    pub page: Option<i64>,
    pub last_id: Option<ItemId>,
    pub last_score: Option<u64>,
    pub limit: Option<i64>,
    pub direction: Option<KeysetDirection>,
}

/// A search request.
#[derive(Debug)]
pub struct SearchQueryParams {
    pub text_query: Option<String>,
    pub tag_query: Option<TagQueryParams>,
    pub cursor: Option<SearchCursorParams>,
}

/// The request for tags by the start of their name.
#[derive(Debug)]
pub struct SearchParams {
    pub query: String,
}

/// What comes with an upload besides the file.
#[derive(Debug)]
pub struct CreatePostMeta {
    pub title: String,
    pub tags: Vec<String>,
}

/// A name and a password, as sent to log in or to register.
#[derive(Debug)]
pub struct AuthRequest {
    username: String,
    password: String,
}

impl AuthRequest {
    pub closed spec fn name_view(&self) -> Seq<char> {
        self.username@
    }

    pub closed spec fn password_view(&self) -> Seq<char> {
        self.password@
    }

    pub fn new(username: String, password: String) -> (request: AuthRequest)
        ensures
            request.name_view() == username@,
            request.password_view() == password@,
    {
        AuthRequest { username, password }
    }

    pub fn username(&self) -> (name: &str)
        ensures
            name@ == self.name_view(),
    {
        self.username.as_str()
    }

    pub fn password(&self) -> (password: &str)
        ensures
            password@ == self.password_view(),
    {
        self.password.as_str()
    }

    /// The user to create for this request once the password is hashed.
    pub fn new_user(&self, password_hash: String) -> (user: NewUser)
        ensures
            user.username@ == self.name_view(),
            user.password_hash == password_hash,
    {
        NewUser { username: self.username.clone(), password_hash }
    }
}

impl Default for SearchCursorParams {
    fn default() -> (cursor: SearchCursorParams)
        ensures
            cursor == no_cursor(),
    {
        SearchCursorParams {
            mode: None,
            page: None,
            last_id: None,
            last_score: None,
            limit: None,
            direction: None,
        }
    }
}

/// The cursor of a request that sent none.
pub open spec fn no_cursor() -> SearchCursorParams {
    SearchCursorParams {
        mode: None,
        page: None,
        last_id: None,
        last_score: None,
        limit: None,
        direction: None,
    }
}

/// The keyset cursor in the cursor of a request.
pub open spec fn keyset_cursor_of(cursor: SearchCursorParams) -> KeysetCursor {
    KeysetCursor {
        mode: Some(PaginationMode::Keyset),
        last_id: cursor.last_id,
        last_score: cursor.last_score,
        limit: cursor.limit,
        direction: cursor.direction,
    }
}

/// The offset cursor in the cursor of a request: page 0 where none is
/// named.
pub open spec fn offset_cursor_of(cursor: SearchCursorParams) -> Cursor {
    Cursor {
        page: match cursor.page {
            Some(page) => page,
            None => 0,
        },
    }
}

impl From<SearchCursorParams> for KeysetCursor {
    fn from(cursor: SearchCursorParams) -> (keyset: KeysetCursor) {
        KeysetCursor {
            mode: Some(PaginationMode::Keyset),
            last_id: cursor.last_id,
            last_score: cursor.last_score,
            limit: cursor.limit,
            direction: cursor.direction,
        }
    }
}

impl FromSpecImpl<SearchCursorParams> for KeysetCursor {
    open spec fn obeys_from_spec() -> bool {
        true
    }

    open spec fn from_spec(cursor: SearchCursorParams) -> KeysetCursor {
        keyset_cursor_of(cursor)
    }
}

impl From<SearchCursorParams> for Cursor {
    fn from(cursor: SearchCursorParams) -> (offset: Cursor) {
        Cursor {
            page: match cursor.page {
                Some(page) => page,
                None => 0,
            },
        }
    }
}

impl FromSpecImpl<SearchCursorParams> for Cursor {
    open spec fn obeys_from_spec() -> bool {
        true
    }

    open spec fn from_spec(cursor: SearchCursorParams) -> Cursor {
        offset_cursor_of(cursor)
    }
}

impl From<TagQueryParams> for TagQuery {
    fn from(query: TagQueryParams) -> (tags: TagQuery) {
        TagQuery { must: query.must, should: query.should, must_not: query.must_not }
    }
}

impl FromSpecImpl<TagQueryParams> for TagQuery {
    open spec fn obeys_from_spec() -> bool {
        true
    }

    open spec fn from_spec(query: TagQueryParams) -> TagQuery {
        TagQuery { must: query.must, should: query.should, must_not: query.must_not }
    }
}

impl Default for TagQueryParams {
    fn default() -> (query: TagQueryParams)
        ensures
            query.must@.len() == 0,
            query.should@.len() == 0,
            query.must_not@.len() == 0,
    {
        TagQueryParams { must: Vec::new(), should: Vec::new(), must_not: Vec::new() }
    }
}

/// Whether the request names any tag at all, in any clause.
pub open spec fn has_filters_spec(tag_query: TagQueryParams) -> bool {
    tag_query.must@.len() > 0 || tag_query.should@.len() > 0 || tag_query.must_not@.len() > 0
}

/// Whether the request names any tag at all, in any clause.
pub fn has_filters(tag_query: &TagQueryParams) -> (any: bool)
    ensures
        any == has_filters_spec(*tag_query),
{
    !(tag_query.must.len() == 0 && tag_query.should.len() == 0 && tag_query.must_not.len() == 0)
}

/// The error for a text that is no identifier: a bad request that names the
/// field.
pub open spec fn invalid_field(field_name: Seq<char>, error: AppError) -> bool {
    error matches AppError::BadRequest(message) && message@ == "Invalid "@ + field_name
}

/// The identifier that was read, or the refusal of the field where none
/// was.
pub fn uuid_or_bad_request<E>(parsed: Result<ItemId, E>, field_name: &str) -> (outcome: Result<
    ItemId,
    AppError,
>)
    ensures
        match parsed {
            Ok(id) => outcome matches Ok(found) && found == id,
            Err(_) => outcome matches Err(error) && invalid_field(field_name@, error),
        },
{
    match parsed {
        Ok(id) => Ok(id),
        Err(_) => Err(AppError::bad_request(joined("Invalid ", field_name))),
    }
}

/// Reads an identifier from `value`. A text that is none is refused as a
/// bad request that names the field.
pub fn parse_uuid(value: &str, field_name: &str) -> (outcome: Result<ItemId, AppError>)
    ensures
        match uuid_of_text(value@) {
            Some(id) => outcome matches Ok(found) && found == id,
            None => outcome matches Err(error) && invalid_field(field_name@, error),
        },
{
    uuid_or_bad_request(parse_uuid_text(value), field_name)
}

/// The error for a request without a session.
pub open spec fn is_unauthorized(error: AppError) -> bool {
    error matches AppError::Unauthorized(message) && message@ == "Unauthorized"@
}

/// The user of a request: `identity` is the identifier text that the
/// session holds, if there is a session and it could be read.
pub fn resolve_user_id(identity: Option<&str>) -> (outcome: Result<UserID, AppError>)
    ensures
        match identity {
            None => outcome matches Err(error) && is_unauthorized(error),
            Some(text) => match uuid_of_text(text@) {
                Some(id) => outcome matches Ok(found) && found == id,
                None => outcome matches Err(error) && invalid_field("user id"@, error),
            },
        },
{
    match identity {
        None => Err(AppError::unauthorized("Unauthorized".to_owned())),
        Some(text) => parse_uuid(text, "user id"),
    }
}

/// The searches for posts that a request can ask for.
#[derive(Debug)]
pub enum PostSearch {
    OffsetAll(Cursor),
    OffsetSearch(TagQuery, Cursor),
    KeysetAll(KeysetCursor),
    KeysetSearch(TagQuery, KeysetCursor),
}

/// The searches for playlists that a request can ask for.
#[derive(Debug)]
pub enum PlaylistSearch {
    All(KeysetCursor),
    Search(PlaylistQuery, KeysetCursor),
}

/// The protocol that a request asks for: keyset unless it says otherwise.
pub open spec fn mode_of(params: SearchQueryParams) -> PaginationMode {
    match params.cursor {
        Some(cursor) => match cursor.mode {
            Some(mode) => mode,
            None => PaginationMode::Keyset,
        },
        None => PaginationMode::Keyset,
    }
}

/// The cursor that a request sends.
pub open spec fn cursor_of(params: SearchQueryParams) -> SearchCursorParams {
    match params.cursor {
        Some(cursor) => cursor,
        None => no_cursor(),
    }
}

/// Whether the request names any tag.
pub open spec fn names_tags(params: SearchQueryParams) -> bool {
    match params.tag_query {
        Some(tags) => has_filters_spec(tags),
        None => false,
    }
}

/// The text that a request sends.
pub open spec fn text_of(params: SearchQueryParams) -> Seq<char> {
    match params.text_query {
        Some(text) => text@,
        None => Seq::<char>::empty(),
    }
}

/// `query` holds the clauses of `params` unchanged.
pub open spec fn same_clauses(query: TagQuery, params: SearchQueryParams) -> bool {
    match params.tag_query {
        Some(tags) => query.must == tags.must && query.should == tags.should && query.must_not
            == tags.must_not,
        None => query.must@.len() == 0 && query.should@.len() == 0 && query.must_not@.len() == 0,
    }
}

/// `route` is the search for posts that `params` asks for: the protocol is
/// the one the cursor names, and a request that names no tag lists all
/// posts in creation order.
pub open spec fn is_post_route(params: SearchQueryParams, route: PostSearch) -> bool {
    match route {
        PostSearch::OffsetAll(cursor) => mode_of(params) == PaginationMode::Offset && !names_tags(
            params,
        ) && cursor == offset_cursor_of(cursor_of(params)),
        PostSearch::OffsetSearch(query, cursor) => mode_of(params) == PaginationMode::Offset
            && names_tags(params) && same_clauses(query, params) && cursor == offset_cursor_of(
            cursor_of(params),
        ),
        PostSearch::KeysetAll(cursor) => mode_of(params) == PaginationMode::Keyset && !names_tags(
            params,
        ) && cursor == keyset_cursor_of(cursor_of(params)),
        PostSearch::KeysetSearch(query, cursor) => mode_of(params) == PaginationMode::Keyset
            && names_tags(params) && same_clauses(query, params) && cursor == keyset_cursor_of(
            cursor_of(params),
        ),
    }
}

/// Decides which search for posts a request asks for.
pub fn route_post_search(params: SearchQueryParams) -> (route: PostSearch)
    ensures
        is_post_route(params, route),
{
    let cursor = match params.cursor {
        Some(cursor) => cursor,
        None => SearchCursorParams::default(),
    };
    let mode = match cursor.mode {
        Some(mode) => mode,
        None => PaginationMode::Keyset,
    };
    let tags = match params.tag_query {
        Some(tags) => tags,
        None => TagQueryParams::default(),
    };
    let filtered = has_filters(&tags);
    match mode {
        PaginationMode::Offset => {
            let offset = Cursor::from(cursor);
            if !filtered {
                PostSearch::OffsetAll(offset)
            } else {
                PostSearch::OffsetSearch(TagQuery::from(tags), offset)
            }
        },
        PaginationMode::Keyset => {
            let keyset = KeysetCursor::from(cursor);
            if !filtered {
                PostSearch::KeysetAll(keyset)
            } else {
                PostSearch::KeysetSearch(TagQuery::from(tags), keyset)
            }
        },
    }
}

/// The refusal of offset pagination for playlists.
pub open spec fn is_offset_refusal(error: AppError) -> bool {
    error matches AppError::BadRequest(message) && message@
        == "Offset mode doesn't support in playlist"@
}

/// `outcome` is the answer to a request for playlists: offset pagination is
/// refused, a request with neither text nor tags lists all playlists, and
/// any other is a search by its text and tags.
pub open spec fn is_playlist_route(
    params: SearchQueryParams,
    outcome: Result<PlaylistSearch, AppError>,
) -> bool {
    match outcome {
        Err(error) => mode_of(params) == PaginationMode::Offset && is_offset_refusal(error),
        Ok(PlaylistSearch::All(cursor)) => mode_of(params) == PaginationMode::Keyset && text_of(
            params,
        ).len() == 0 && !names_tags(params) && cursor == keyset_cursor_of(cursor_of(params)),
        Ok(PlaylistSearch::Search(query, cursor)) => mode_of(params) == PaginationMode::Keyset
            && !(text_of(params).len() == 0 && !names_tags(params)) && same_clauses(
            query.tags,
            params,
        ) && query.text@ == text_of(params) && cursor == keyset_cursor_of(cursor_of(params)),
    }
}

/// Decides which search for playlists a request asks for.
pub fn route_playlist_search(params: SearchQueryParams) -> (outcome: Result<
    PlaylistSearch,
    AppError,
>)
    ensures
        is_playlist_route(params, outcome),
{
    let cursor = match params.cursor {
        Some(cursor) => cursor,
        None => SearchCursorParams::default(),
    };
    let mode = match cursor.mode {
        Some(mode) => mode,
        None => PaginationMode::Keyset,
    };
    let tags = match params.tag_query {
        Some(tags) => tags,
        None => TagQueryParams::default(),
    };
    let text = match params.text_query {
        Some(text) => text,
        None => String::new(),
    };
    match mode {
        PaginationMode::Keyset => {
            let keyset = KeysetCursor::from(cursor);
            if text.as_str().is_empty() && !has_filters(&tags) {
                Ok(PlaylistSearch::All(keyset))
            } else {
                let query = PlaylistQuery { tags: TagQuery::from(tags), text };
                Ok(PlaylistSearch::Search(query, keyset))
            }
        },
        PaginationMode::Offset => Err(
            AppError::bad_request("Offset mode doesn't support in playlist".to_owned()),
        ),
    }
}

/// How many tags a search for tags returns at most.
pub const TAG_SEARCH_LIMIT: i64 = 10;

/// The refusal of a search for tags without a text.
pub open spec fn is_empty_query_refusal(error: AppError) -> bool {
    error matches AppError::BadRequest(message) && message@ == "No query given"@
}

/// Checks a search for tags: an empty text is refused, any other is
/// answered with up to `TAG_SEARCH_LIMIT` tags.
pub fn check_tag_search(params: &SearchParams) -> (outcome: Result<i64, AppError>)
    ensures
        match outcome {
            Ok(limit) => params.query@.len() > 0 && limit == TAG_SEARCH_LIMIT,
            Err(error) => params.query@.len() == 0 && is_empty_query_refusal(error),
        },
{
    if params.query.as_str().is_empty() {
        Err(AppError::bad_request("No query given".to_owned()))
    } else {
        Ok(TAG_SEARCH_LIMIT)
    }
}

/// The pattern that a store is asked with for the tags whose name begins
/// with `query`, letter case aside: the query in lower case, then the sign
/// for "anything".
pub fn tag_search_pattern(query: &str) -> (pattern: String)
    ensures
        pattern@ == lowercase_of(query@) + "%"@,
{
    lowercased(query).concat("%")
}

/// How a store is asked for a text in title or description.
#[derive(Debug)]
pub struct TextFilter {
    pub use_text_filter: bool,
    pub pattern: String,
}

/// The text filter for the text of a request: the text without the white
/// space around it, between two signs for "anything"; it is in use unless
/// nothing is left of the text.
pub fn playlist_text_filter(text: &str) -> (filter: TextFilter)
    ensures
        filter.use_text_filter == (trimmed_of(text@).len() > 0),
        filter.pattern@ == "%"@ + trimmed_of(text@) + "%"@,
{
    let needle = trimmed(text);
    TextFilter {
        use_text_filter: !needle.is_empty(),
        pattern: joined("%", needle).concat("%"),
    }
}

/// The tags to find or create for an upload: one general tag for each name
/// in `meta`, in the same order.
pub fn new_tags_from_meta(meta: &CreatePostMeta) -> (tags: Vec<NewTag>)
    ensures
        tags@.len() == meta.tags@.len(),
        forall|i: int|
            0 <= i < tags@.len() ==> (#[trigger] tags@[i]).category == TagCategory::General
                && tags@[i].value@ == meta.tags@[i]@,
{
    let mut tags: Vec<NewTag> = Vec::new();
    let mut i: usize = 0;
    while i < meta.tags.len()
        invariant
            0 <= i <= meta.tags@.len(),
            tags@.len() == i,
            forall|k: int|
                0 <= k < i ==> (#[trigger] tags@[k]).category == TagCategory::General
                    && tags@[k].value@ == meta.tags@[k]@,
        decreases meta.tags@.len() - i,
    {
        tags.push(NewTag { category: TagCategory::General, value: meta.tags[i].clone() });
        i += 1;
    }
    tags
}

/// The parts of an upload that a handler tells apart.
#[derive(Clone, Copy, Debug, PartialEq, Eq, Structural)]
pub enum UploadField {
    Meta,
    File,
    Other,
}

/// What a handler does with a part of an upload.
#[derive(Clone, Copy, Debug, PartialEq, Eq, Structural)]
pub enum UploadAction {
    ReadMeta,
    StoreFile,
    Skip,
}

/// The part that a field of the name `name` is.
pub fn classify_upload_field(name: &str) -> (field: UploadField)
    ensures
        field == if name@ == "meta"@ {
            UploadField::Meta
        } else if name@ == "file"@ {
            UploadField::File
        } else {
            UploadField::Other
        },
{
    if same_text(name, "meta") {
        UploadField::Meta
    } else if same_text(name, "file") {
        UploadField::File
    } else {
        UploadField::Other
    }
}

/// The refusal of a file that comes before its description.
pub open spec fn is_meta_order_refusal(error: AppError) -> bool {
    error matches AppError::BadRequest(message) && message@ == "Meta must be before file"@
}

/// The refusal of an upload that ends without a file.
pub open spec fn is_missing_file_refusal(error: AppError) -> bool {
    error matches AppError::BadRequest(message) && message@ == "Missing file"@
}

/// What to do with the next part of an upload. `has_meta` says whether the
/// description has been read; a file before it is refused.
pub fn upload_step(has_meta: bool, field: UploadField) -> (outcome: Result<UploadAction, AppError>)
    ensures
        match field {
            UploadField::Meta => outcome matches Ok(action) && action == UploadAction::ReadMeta,
            UploadField::File => if has_meta {
                outcome matches Ok(action) && action == UploadAction::StoreFile
            } else {
                outcome matches Err(error) && is_meta_order_refusal(error)
            },
            UploadField::Other => outcome matches Ok(action) && action == UploadAction::Skip,
        },
{
    match field {
        UploadField::Meta => Ok(UploadAction::ReadMeta),
        UploadField::File => {
            if has_meta {
                Ok(UploadAction::StoreFile)
            } else {
                Err(AppError::bad_request("Meta must be before file".to_owned()))
            }
        },
        UploadField::Other => Ok(UploadAction::Skip),
    }
}

/// The answer to an upload that ended without a file.
pub fn upload_without_file() -> (error: AppError)
    ensures
        is_missing_file_refusal(error),
{
    AppError::bad_request("Missing file".to_owned())
}

} // verus!
