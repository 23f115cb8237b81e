use vstd::prelude::*;

use crate::ids::{EventId, EventImageId, TagId, UserId};

verus! {

/// A row of the users table.
pub struct User {
    pub id: UserId,
    pub user_login: String,
    pub password_argon2: String,
    pub display_name: String,
}

/// A row of the refresh-token table: at most one per user.
pub struct RefreshToken {
    pub user_id: UserId,
    pub token_blake3: Vec<u8>,
}

/// A row of the tags table.
pub struct Tag {
    pub id: TagId,
    pub name: String,
    pub owner_id: Option<UserId>,
}

/// A row of the tag-alias table, keyed by the pair of its fields.
pub struct TagAlias {
    pub tag_id: TagId,
    pub alias: String,
}

/// A row of the events table. Times are microseconds since the Unix epoch.
pub struct Event {
    pub id: EventId,
    pub title: String,
    pub description: String,
    pub author_id: UserId,
    pub with_attendance: bool,
    pub created_at: i64,
    pub modified_at: i64,
}

/// A row of the event-image table: the image's place among its event's images.
pub struct EventImage {
    pub id: EventImageId,
    pub event_id: EventId,
    pub position: i16,
}

/// A row of the event-to-tag link table, keyed by the pair of its fields.
pub struct EventToTag {
    pub event_id: EventId,
    pub tag_id: TagId,
}

} // verus!
