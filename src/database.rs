use vstd::prelude::*;
use vstd::string::StrSliceExecFns;

use crate::ids::{EventId, EventImageId, TagId, UserId};
use crate::models::{EventImage, EventToTag, RefreshToken, Tag, TagAlias, User};
use crate::models;
use crate::values::{
    bounded_text, DESCRIPTION_MAX_LEN, DISPLAY_NAME_MAX_LEN, EVENT_IMAGES_MAX, LOGIN_MAX_LEN,
    TAG_NAME_MAX_LEN, TITLE_MAX_LEN,
};

pub mod events;
pub mod tags;
pub mod users;

verus! {

/// A character with ASCII upper case letters taken to lower case.
pub open spec fn fold_char(c: char) -> int {
    if 65 <= (c as u32) && (c as u32) <= 90 {
        (c as u32) + 32
    } else {
        (c as u32) as int
    }
}

/// Two logins are the same login when they differ at most in the case of ASCII letters.
pub open spec fn same_login(a: Seq<char>, b: Seq<char>) -> bool {
    &&& a.len() == b.len()
    &&& forall|i: int| 0 <= i < a.len() ==> #[trigger] fold_char(a[i]) == fold_char(b[i])
}

/// The event `id` has an image at `position`.
pub open spec fn image_at(t: Tables, id: EventId, position: int) -> bool {
    exists|i: int|
        0 <= i < t.event_images.len() && (#[trigger] t.event_images[i]).event_id == id
            && t.event_images[i].position == position
}

/// No two places of `s` hold items with the same key.
pub open spec fn keys_injective<A, K>(s: Seq<A>, key: spec_fn(A) -> K) -> bool {
    forall|i: int, j: int|
        0 <= i < s.len() && 0 <= j < s.len() && key(#[trigger] s[i]) == key(#[trigger] s[j]) ==> i == j
}

/// Keeping some items of a sequence keeps their keys apart.
pub proof fn lemma_filter_keys_injective<A, K>(s: Seq<A>, p: spec_fn(A) -> bool, key: spec_fn(A) -> K)
    requires
        keys_injective(s, key),
    ensures
        keys_injective(s.filter(p), key),
    decreases s.len(),
{
    reveal(Seq::filter);
    if s.len() > 0 {
        let r = s.drop_last();
        assert(keys_injective(r, key)) by {
            assert forall|i: int, j: int|
                0 <= i < r.len() && 0 <= j < r.len() && key(#[trigger] r[i]) == key(#[trigger] r[j]) implies i == j by {
                assert(r[i] == s[i] && r[j] == s[j]);
            }
        }
        lemma_filter_keys_injective(r, p, key);
        let fr = r.filter(p);
        if p(s.last()) {
            let f = fr.push(s.last());
            assert forall|i: int, j: int|
                0 <= i < f.len() && 0 <= j < f.len() && key(#[trigger] f[i]) == key(#[trigger] f[j]) implies i == j by {
                if i < fr.len() && j == fr.len() {
                    assert(f[i] == fr[i]);
                    assert(fr.contains(fr[i]));
                    r.lemma_filter_contains_rev(p, fr[i]);
                    let a = choose|a: int| 0 <= a < r.len() && r[a] == fr[i];
                    assert(s[a] == r[a]);
                    assert(key(s[a]) == key(s[s.len() - 1]));
                } else if j < fr.len() && i == fr.len() {
                    assert(f[j] == fr[j]);
                    assert(fr.contains(fr[j]));
                    r.lemma_filter_contains_rev(p, fr[j]);
                    let a = choose|a: int| 0 <= a < r.len() && r[a] == fr[j];
                    assert(s[a] == r[a]);
                    assert(key(s[a]) == key(s[s.len() - 1]));
                } else if i < fr.len() && j < fr.len() {
                    assert(f[i] == fr[i] && f[j] == fr[j]);
                }
            }
        }
    }
}

/// The content of every table of the catalogue.
pub struct Tables {
    pub users: Seq<User>,
    pub refresh_tokens: Seq<RefreshToken>,
    pub tags: Seq<Tag>,
    pub tag_aliases: Seq<TagAlias>,
    pub events: Seq<models::Event>,
    pub event_images: Seq<EventImage>,
    pub events_to_tags: Seq<EventToTag>,
}

impl Tables {
    pub open spec fn has_user(self, id: UserId) -> bool {
        exists|i: int| 0 <= i < self.users.len() && (#[trigger] self.users[i]).id == id
    }

    pub open spec fn has_login(self, login: Seq<char>) -> bool {
        exists|i: int|
            0 <= i < self.users.len() && same_login((#[trigger] self.users[i]).user_login@, login)
    }

    pub open spec fn has_tag(self, id: TagId) -> bool {
        exists|i: int| 0 <= i < self.tags.len() && (#[trigger] self.tags[i]).id == id
    }

    pub open spec fn has_tag_name(self, name: Seq<char>) -> bool {
        exists|i: int| 0 <= i < self.tags.len() && (#[trigger] self.tags[i]).name@ == name
    }

    pub open spec fn has_event(self, id: EventId) -> bool {
        exists|i: int| 0 <= i < self.events.len() && (#[trigger] self.events[i]).id == id
    }

    pub open spec fn has_image(self, id: EventImageId) -> bool {
        exists|i: int| 0 <= i < self.event_images.len() && (#[trigger] self.event_images[i]).id == id
    }

    pub open spec fn has_alias(self, tag: TagId, alias: Seq<char>) -> bool {
        exists|i: int|
            0 <= i < self.tag_aliases.len() && (#[trigger] self.tag_aliases[i]).tag_id == tag
                && self.tag_aliases[i].alias@ == alias
    }

    pub open spec fn linked(self, event: EventId, tag: TagId) -> bool {
        exists|i: int|
            0 <= i < self.events_to_tags.len() && (#[trigger] self.events_to_tags[i]).event_id
                == event && self.events_to_tags[i].tag_id == tag
    }

    pub open spec fn has_fingerprint(self, fingerprint: Seq<u8>) -> bool {
        exists|i: int|
            0 <= i < self.refresh_tokens.len() && (#[trigger] self.refresh_tokens[i]).token_blake3@
                == fingerprint
    }

    pub open spec fn users_unique(self) -> bool {
        &&& forall|i: int, j: int|
            0 <= i < self.users.len() && 0 <= j < self.users.len() && (#[trigger] self.users[i]).id
                == (#[trigger] self.users[j]).id ==> i == j
        &&& forall|i: int, j: int|
            0 <= i < self.users.len() && 0 <= j < self.users.len() && same_login(
                (#[trigger] self.users[i]).user_login@,
                (#[trigger] self.users[j]).user_login@,
            ) ==> i == j
    }

    pub open spec fn tokens_unique(self) -> bool {
        forall|i: int, j: int|
            0 <= i < self.refresh_tokens.len() && 0 <= j < self.refresh_tokens.len()
                && (#[trigger] self.refresh_tokens[i]).user_id
                == (#[trigger] self.refresh_tokens[j]).user_id ==> i == j
    }

    pub open spec fn tags_unique(self) -> bool {
        &&& forall|i: int, j: int|
            0 <= i < self.tags.len() && 0 <= j < self.tags.len() && (#[trigger] self.tags[i]).id
                == (#[trigger] self.tags[j]).id ==> i == j
        &&& forall|i: int, j: int|
            0 <= i < self.tags.len() && 0 <= j < self.tags.len() && (#[trigger] self.tags[i]).name@
                == (#[trigger] self.tags[j]).name@ ==> i == j
    }

    pub open spec fn events_unique(self) -> bool {
        forall|i: int, j: int|
            0 <= i < self.events.len() && 0 <= j < self.events.len()
                && (#[trigger] self.events[i]).id == (#[trigger] self.events[j]).id ==> i == j
    }

    pub open spec fn images_unique(self) -> bool {
        &&& forall|i: int, j: int|
            0 <= i < self.event_images.len() && 0 <= j < self.event_images.len()
                && (#[trigger] self.event_images[i]).id == (#[trigger] self.event_images[j]).id
                ==> i == j
        &&& forall|i: int, j: int|
            0 <= i < self.event_images.len() && 0 <= j < self.event_images.len()
                && (#[trigger] self.event_images[i]).event_id
                == (#[trigger] self.event_images[j]).event_id && self.event_images[i].position
                == self.event_images[j].position ==> i == j
    }

    /// Keys are unique: no two rows of a table share a key.
    pub open spec fn keys_unique(self) -> bool {
        &&& self.users_unique()
        &&& self.tokens_unique()
        &&& self.tags_unique()
        &&& self.events_unique()
        &&& self.images_unique()
    }

    pub open spec fn tokens_refs(self) -> bool {
        forall|i: int|
            0 <= i < self.refresh_tokens.len() ==> self.has_user(
                (#[trigger] self.refresh_tokens[i]).user_id,
            )
    }

    pub open spec fn tags_refs(self) -> bool {
        forall|i: int|
            0 <= i < self.tags.len() && (#[trigger] self.tags[i]).owner_id is Some ==> self.has_user(
                self.tags[i].owner_id->Some_0,
            )
    }

    pub open spec fn aliases_refs(self) -> bool {
        forall|i: int|
            0 <= i < self.tag_aliases.len() ==> self.has_tag((#[trigger] self.tag_aliases[i]).tag_id)
    }

    pub open spec fn events_refs(self) -> bool {
        forall|i: int|
            0 <= i < self.events.len() ==> self.has_user((#[trigger] self.events[i]).author_id)
    }

    pub open spec fn images_refs(self) -> bool {
        forall|i: int|
            0 <= i < self.event_images.len() ==> self.has_event(
                (#[trigger] self.event_images[i]).event_id,
            )
    }

    pub open spec fn links_refs(self) -> bool {
        forall|i: int|
            0 <= i < self.events_to_tags.len() ==> self.has_event(
                (#[trigger] self.events_to_tags[i]).event_id,
            ) && self.has_tag(self.events_to_tags[i].tag_id)
    }

    /// Every reference names a row that exists.
    pub open spec fn refs_exist(self) -> bool {
        &&& self.tokens_refs()
        &&& self.tags_refs()
        &&& self.aliases_refs()
        &&& self.events_refs()
        &&& self.images_refs()
        &&& self.links_refs()
    }

    /// Every stored value satisfies the rules of its value type.
    pub open spec fn values_valid(self) -> bool {
        &&& forall|i: int|
            0 <= i < self.users.len() ==> bounded_text(
                (#[trigger] self.users[i]).user_login@,
                LOGIN_MAX_LEN as nat,
            ) && bounded_text(self.users[i].display_name@, DISPLAY_NAME_MAX_LEN as nat)
        &&& forall|i: int|
            0 <= i < self.tags.len() ==> bounded_text(
                (#[trigger] self.tags[i]).name@,
                TAG_NAME_MAX_LEN as nat,
            )
        &&& forall|i: int|
            0 <= i < self.tag_aliases.len() ==> bounded_text(
                (#[trigger] self.tag_aliases[i]).alias@,
                TAG_NAME_MAX_LEN as nat,
            )
        &&& forall|i: int|
            0 <= i < self.events.len() ==> bounded_text(
                (#[trigger] self.events[i]).title@,
                TITLE_MAX_LEN as nat,
            ) && bounded_text(self.events[i].description@, DESCRIPTION_MAX_LEN as nat)
        &&& forall|i: int|
            0 <= i < self.event_images.len() ==> 0 <= (#[trigger] self.event_images[i]).position
                < EVENT_IMAGES_MAX
    }

    /// The images of each event stand at the positions 0, 1, 2, ... with no gap.
    pub open spec fn images_dense(self) -> bool {
        forall|i: int|
            0 <= i < self.event_images.len() && (#[trigger] self.event_images[i]).position > 0
                ==> image_at(self, self.event_images[i].event_id, self.event_images[i].position - 1)
    }

    pub open spec fn wf(self) -> bool {
        &&& self.keys_unique()
        &&& self.refs_exist()
        &&& self.values_valid()
        &&& self.images_dense()
    }
}

/// The catalogue: users, tags, events and what links them, held as relational tables.
/// Every operation is one transaction: it either makes all of its changes or returns an
/// error and leaves the tables as they were.
pub struct Database {
    users: Vec<User>,
    refresh_tokens: Vec<RefreshToken>,
    tags: Vec<Tag>,
    tag_aliases: Vec<TagAlias>,
    events: Vec<models::Event>,
    event_images: Vec<EventImage>,
    events_to_tags: Vec<EventToTag>,
}

impl View for Database {
    type V = Tables;

    closed spec fn view(&self) -> Tables {
        Tables {
            users: self.users@,
            refresh_tokens: self.refresh_tokens@,
            tags: self.tags@,
            tag_aliases: self.tag_aliases@,
            events: self.events@,
            event_images: self.event_images@,
            events_to_tags: self.events_to_tags@,
        }
    }
}

/// Whether two logins are the same login, ignoring the case of ASCII letters.
pub fn logins_match(a: &str, b: &str) -> (r: bool)
    ensures
        r == same_login(a@, b@),
{
    let n = a.unicode_len();
    if n != b.unicode_len() {
        return false;
    }
    let mut i: usize = 0;
    while i < n
        invariant
            n == a@.len(),
            n == b@.len(),
            i <= n,
            forall|k: int| 0 <= k < i ==> #[trigger] fold_char(a@[k]) == fold_char(b@[k]),
        decreases n - i,
    {
        let x = a.get_char(i) as u32;
        let y = b.get_char(i) as u32;
        let fx = if 65 <= x && x <= 90 { x + 32 } else { x };
        let fy = if 65 <= y && y <= 90 { y + 32 } else { y };
        if fx != fy {
            assert(fold_char(a@[i as int]) != fold_char(b@[i as int]));
            return false;
        }
        i += 1;
    }
    true
}

/// Whether two byte strings are equal.
pub fn bytes_equal(a: &Vec<u8>, b: &Vec<u8>) -> (r: bool)
    ensures
        r == (a@ == b@),
{
    if a.len() != b.len() {
        return false;
    }
    let mut i: usize = 0;
    while i < a.len()
        invariant
            a@.len() == b@.len(),
            i <= a@.len(),
            forall|k: int| 0 <= k < i ==> a@[k] == b@[k],
        decreases a@.len() - i,
    {
        if a[i] != b[i] {
            return false;
        }
        i += 1;
    }
    assert(a@ =~= b@);
    true
}

impl Database {
    /// An empty catalogue.
    pub fn new() -> (r: Database)
        ensures
            r@.wf(),
            r@.users.len() == 0,
            r@.refresh_tokens.len() == 0,
            r@.tags.len() == 0,
            r@.tag_aliases.len() == 0,
            r@.events.len() == 0,
            r@.event_images.len() == 0,
            r@.events_to_tags.len() == 0,
    {
        Database {
            users: Vec::new(),
            refresh_tokens: Vec::new(),
            tags: Vec::new(),
            tag_aliases: Vec::new(),
            events: Vec::new(),
            event_images: Vec::new(),
            events_to_tags: Vec::new(),
        }
    }

    fn user_index(&self, id: UserId) -> (r: Option<usize>)
        ensures
            r is Some ==> r->Some_0 < self@.users.len() && self@.users[r->Some_0 as int].id == id,
            r is None ==> !self@.has_user(id),
    {
        let mut i: usize = 0;
        while i < self.users.len()
            invariant
                i <= self.users@.len(),
                forall|k: int| 0 <= k < i ==> (#[trigger] self.users@[k]).id != id,
            decreases self.users@.len() - i,
        {
            if self.users[i].id == id {
                return Some(i);
            }
            i += 1;
        }
        None
    }

    fn login_index(&self, login: &str) -> (r: Option<usize>)
        ensures
            r is Some ==> r->Some_0 < self@.users.len() && same_login(
                self@.users[r->Some_0 as int].user_login@,
                login@,
            ),
            r is None ==> !self@.has_login(login@),
    {
        let mut i: usize = 0;
        while i < self.users.len()
            invariant
                i <= self.users@.len(),
                forall|k: int|
                    0 <= k < i ==> !same_login((#[trigger] self.users@[k]).user_login@, login@),
            decreases self.users@.len() - i,
        {
            if logins_match(self.users[i].user_login.as_str(), login) {
                return Some(i);
            }
            i += 1;
        }
        None
    }

    fn tag_index(&self, id: TagId) -> (r: Option<usize>)
        ensures
            r is Some ==> r->Some_0 < self@.tags.len() && self@.tags[r->Some_0 as int].id == id,
            r is None ==> !self@.has_tag(id),
    {
        let mut i: usize = 0;
        while i < self.tags.len()
            invariant
                i <= self.tags@.len(),
                forall|k: int| 0 <= k < i ==> (#[trigger] self.tags@[k]).id != id,
            decreases self.tags@.len() - i,
        {
            if self.tags[i].id == id {
                return Some(i);
            }
            i += 1;
        }
        None
    }

    fn tag_name_taken(&self, name: &String) -> (r: bool)
        ensures
            r == self@.has_tag_name(name@),
    {
        let mut i: usize = 0;
        while i < self.tags.len()
            invariant
                i <= self.tags@.len(),
                forall|k: int| 0 <= k < i ==> (#[trigger] self.tags@[k]).name@ != name@,
            decreases self.tags@.len() - i,
        {
            if self.tags[i].name == *name {
                return true;
            }
            i += 1;
        }
        false
    }

    fn event_index(&self, id: EventId) -> (r: Option<usize>)
        ensures
            r is Some ==> r->Some_0 < self@.events.len() && self@.events[r->Some_0 as int].id == id,
            r is None ==> !self@.has_event(id),
    {
        let mut i: usize = 0;
        while i < self.events.len()
            invariant
                i <= self.events@.len(),
                forall|k: int| 0 <= k < i ==> (#[trigger] self.events@[k]).id != id,
            decreases self.events@.len() - i,
        {
            if self.events[i].id == id {
                return Some(i);
            }
            i += 1;
        }
        None
    }

    fn image_id_taken(&self, id: EventImageId) -> (r: bool)
        ensures
            r == self@.has_image(id),
    {
        let mut i: usize = 0;
        while i < self.event_images.len()
            invariant
                i <= self.event_images@.len(),
                forall|k: int| 0 <= k < i ==> (#[trigger] self.event_images@[k]).id != id,
            decreases self.event_images@.len() - i,
        {
            if self.event_images[i].id == id {
                assert(self@.event_images[i as int].id == id);
                return true;
            }
            i += 1;
        }
        false
    }
}

} // verus!
