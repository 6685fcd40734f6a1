//! Identifiers. Every identifier is a 128-bit number; identifiers are handed
//! out in creation order, so a larger number names a later item.

use vstd::prelude::*;

verus! {

pub type ItemId = u128;

pub type FileID = u128;

pub type PostID = u128;

pub type TagID = u128;

pub type PlaylistID = u128;

pub type PlaylistItemID = u128;

pub type UserID = u128;

} // verus!
