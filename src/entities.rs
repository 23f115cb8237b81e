use vstd::prelude::*;

use crate::ids::{EventId, TagId, UserId};
use crate::values::{
    EventDescription, EventImageIds, EventTagIds, EventTitle, TagAliases, TagName,
    UserDisplayName, UserLogin, UserPasswordHash,
};

verus! {

/// A user as the rest of the service sees it.
pub struct User {
    pub id: UserId,
    pub login: UserLogin,
    pub display_name: UserDisplayName,
}

/// A tag with all of its aliases.
pub struct Tag {
    pub id: TagId,
    pub name: TagName,
    pub aliases: TagAliases,
}

/// An event with its author, its images in order and its tags.
pub struct Event {
    pub id: EventId,
    pub author: User,
    pub image_ids: EventImageIds,
    pub title: EventTitle,
    pub description: EventDescription,
    pub tags: Vec<Tag>,
    pub with_attendance: bool,
    pub created_at: i64,
    pub modified_at: i64,
}

/// What a new user is made of.
pub struct NewUserForm {
    pub login: UserLogin,
    pub password_hash: UserPasswordHash,
    pub display_name: UserDisplayName,
}

/// What a new tag is made of.
pub struct NewTagForm {
    pub name: TagName,
    pub aliases: TagAliases,
}

/// What a new event is made of.
pub struct NewEventForm {
    pub title: EventTitle,
    pub description: EventDescription,
    pub with_attendance: bool,
    pub tag_ids: EventTagIds,
}

/// A partial change to an event: each field that is `None` stays as it is.
pub struct UpdateEventForm {
    pub title: Option<EventTitle>,
    pub description: Option<EventDescription>,
    pub with_attendance: Option<bool>,
    pub tag_ids: Option<EventTagIds>,
}

} // verus!
