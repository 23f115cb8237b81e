use vstd::prelude::*;
use vstd::string::{StrSliceExecFns, StringExecFns};

use super::tags::shows_stored_tag;
use super::users::shows_user;
use super::{fold_char, image_at, Database, Tables};
use crate::entities;
use crate::errors::{ApiError, ApiResult};
use crate::ids::{EventId, EventImageId, TagId, UserId};
use crate::models::{self, EventImage, EventToTag};
use crate::outside::{new_v7_id, now_micros, uuid_string, uuid_text};
use crate::paging::{is_page, page_of};
use crate::values::{
    self, distinct, EventDescription, EventImageIds, EventTitle, DESCRIPTION_MAX_LEN,
    EVENT_IMAGES_MAX, TITLE_MAX_LEN,
};

verus! {

broadcast use vstd::seq_lib::group_filter_ensures, Seq::lemma_filter_contains_rev;

/// The image of the event `id` at `position`, where there is one.
pub open spec fn image_id_at(t: Tables, id: EventId, position: int) -> EventImageId {
    t.event_images[choose|i: int|
        0 <= i < t.event_images.len() && (#[trigger] t.event_images[i]).event_id == id
            && t.event_images[i].position == position].id
}

/// The images of the event `id` at positions below `p`, in order of position.
pub open spec fn images_below(t: Tables, id: EventId, p: nat) -> Seq<EventImageId>
    decreases p,
{
    if p == 0 {
        Seq::empty()
    } else {
        let s = images_below(t, id, (p - 1) as nat);
        if image_at(t, id, p - 1) {
            s.push(image_id_at(t, id, p - 1))
        } else {
            s
        }
    }
}

/// The images of the event `id`, in order of position.
pub open spec fn event_image_ids(t: Tables, id: EventId) -> Seq<EventImageId> {
    images_below(t, id, EVENT_IMAGES_MAX as nat)
}

/// `u` shows some row of the users table of `t` with id `id`.
pub open spec fn shows_stored_user(u: entities::User, t: Tables, id: UserId) -> bool {
    exists|i: int| 0 <= i < t.users.len() && (#[trigger] t.users[i]).id == id && shows_user(u, t.users[i])
}

/// One of `tags` has the id `x`.
pub open spec fn holds_tag_id(tags: Seq<entities::Tag>, x: TagId) -> bool {
    exists|k: int| 0 <= k < tags.len() && (#[trigger] tags[k]).id == x
}

/// One of the first `n` links joins the event `id` to the tag `x`.
pub open spec fn linked_below(t: Tables, id: EventId, x: TagId, n: int) -> bool {
    exists|m: int|
        0 <= m < n && (#[trigger] t.events_to_tags[m]).event_id == id && t.events_to_tags[m].tag_id == x
}

/// `tags` are the tags linked to the event `id`, each once, with their aliases.
pub open spec fn shows_event_tags(tags: Seq<entities::Tag>, t: Tables, id: EventId) -> bool {
    &&& forall|a: int, b: int| 0 <= a < tags.len() && 0 <= b < tags.len() && a != b ==> tags[a].id != tags[b].id
    &&& forall|k: int| 0 <= k < tags.len() ==> shows_stored_tag(#[trigger] tags[k], t)
    &&& forall|x: TagId| #[trigger] holds_tag_id(tags, x) <==> t.linked(id, x)
}

/// The event entity `e` shows the row `row` of `t` with its author, images and tags.
pub open spec fn shows_event(e: entities::Event, t: Tables, row: models::Event) -> bool {
    &&& e.id == row.id
    &&& e.title@ == row.title@
    &&& e.description@ == row.description@
    &&& e.with_attendance == row.with_attendance
    &&& e.created_at == row.created_at
    &&& e.modified_at == row.modified_at
    &&& e.author.id == row.author_id
    &&& shows_stored_user(e.author, t, row.author_id)
    &&& e.image_ids@ == event_image_ids(t, row.id)
    &&& shows_event_tags(e.tags@, t, row.id)
}

/// `e` shows the row of the events table of `t` with the same id.
pub open spec fn shows_stored_event(e: entities::Event, t: Tables) -> bool {
    exists|i: int| 0 <= i < t.events.len() && (#[trigger] t.events[i]).id == e.id && shows_event(e, t, t.events[i])
}

/// The event `id` exists and `user` is its author.
pub open spec fn authored_by(t: Tables, id: EventId, user: UserId) -> bool {
    exists|i: int| 0 <= i < t.events.len() && (#[trigger] t.events[i]).id == id && t.events[i].author_id == user
}

impl Tables {
    /// All tables but those of events, images and links are as in `other`.
    pub open spec fn same_but_events(self, other: Tables) -> bool {
        &&& self.users == other.users
        &&& self.refresh_tokens == other.refresh_tokens
        &&& self.tags == other.tags
        &&& self.tag_aliases == other.tag_aliases
    }

    /// `new` is `self` with the event `id` added at the end, made at `now`, and one link for
    /// each of `tag_ids`, in order.
    pub open spec fn added_event(
        self,
        new: Tables,
        id: EventId,
        title: Seq<char>,
        description: Seq<char>,
        with_attendance: bool,
        author: UserId,
        tag_ids: Seq<TagId>,
        now: i64,
    ) -> bool {
        &&& new.events.len() == self.events.len() + 1
        &&& new.events.drop_last() == self.events
        &&& new.events.last().id == id
        &&& new.events.last().title@ == title
        &&& new.events.last().description@ == description
        &&& new.events.last().with_attendance == with_attendance
        &&& new.events.last().author_id == author
        &&& new.events.last().created_at == now
        &&& new.events.last().modified_at == now
        &&& new.events_to_tags.len() == self.events_to_tags.len() + tag_ids.len()
        &&& new.events_to_tags.take(self.events_to_tags.len() as int) == self.events_to_tags
        &&& forall|k: int|
            0 <= k < tag_ids.len() ==> (#[trigger] new.events_to_tags[self.events_to_tags.len() + k])
                == (EventToTag { event_id: id, tag_id: tag_ids[k] })
        &&& new.event_images == self.event_images
        &&& new.same_but_events(self)
    }
}

pub open spec fn other_event(id: EventId) -> spec_fn(models::Event) -> bool {
    |r: models::Event| r.id != id
}

pub open spec fn image_of_other_event(id: EventId) -> spec_fn(EventImage) -> bool {
    |r: EventImage| r.event_id != id
}

pub open spec fn link_of_other_event(id: EventId) -> spec_fn(EventToTag) -> bool {
    |r: EventToTag| r.event_id != id
}

impl Tables {
    /// `self` without the event `id`, its images and its links to tags.
    pub open spec fn without_event(self, id: EventId) -> Tables {
        Tables {
            events: self.events.filter(other_event(id)),
            event_images: self.event_images.filter(image_of_other_event(id)),
            events_to_tags: self.events_to_tags.filter(link_of_other_event(id)),
            ..self
        }
    }
}

/// The view of an optional value.
pub open spec fn opt_view<T: View>(o: Option<T>) -> Option<T::V> {
    match o {
        Some(x) => Some(x@),
        None => None,
    }
}

/// The value of `o`, or `d` when there is none.
pub open spec fn or_else<T>(o: Option<T>, d: T) -> T {
    match o {
        Some(x) => x,
        None => d,
    }
}

/// The links of the event `id` to each of `tag_ids`, in order.
pub open spec fn links_to(id: EventId, tag_ids: Seq<TagId>) -> Seq<EventToTag> {
    tag_ids.map_values(|t: TagId| EventToTag { event_id: id, tag_id: t })
}

/// The time of change of a row changed at `now` that was last changed at `before`: `now`
/// when that is later, else just after `before`; it only stays put at the largest time.
pub open spec fn touched_at(before: i64, now: i64) -> i64 {
    if now > before {
        now
    } else if before < i64::MAX {
        (before + 1) as i64
    } else {
        before
    }
}

/// `new` is `self` with each row of the event `id` given these fields and a time of change
/// `touched_at(.., modified_at)`;
/// its id, author and creation time are kept, and every other row is as it was.
pub open spec fn rewrote_event(
    old: Tables,
    new: Tables,
    id: EventId,
    title: Option<Seq<char>>,
    description: Option<Seq<char>>,
    with_attendance: Option<bool>,
    modified_at: i64,
) -> bool {
    &&& new.events.len() == old.events.len()
    &&& forall|j: int|
        0 <= j < old.events.len() && (#[trigger] old.events[j]).id != id ==> new.events[j] == old.events[j]
    &&& forall|j: int|
        0 <= j < old.events.len() && (#[trigger] old.events[j]).id == id ==> {
            &&& new.events[j].id == id
            &&& new.events[j].author_id == old.events[j].author_id
            &&& new.events[j].created_at == old.events[j].created_at
            &&& new.events[j].title@ == or_else(title, old.events[j].title@)
            &&& new.events[j].description@ == or_else(description, old.events[j].description@)
            &&& new.events[j].with_attendance == or_else(with_attendance, old.events[j].with_attendance)
            &&& new.events[j].modified_at == touched_at(old.events[j].modified_at, modified_at)
        }
}

/// The flag `with_attendance` is absent, or the event `id` already has it.
pub open spec fn attendance_kept(t: Tables, id: EventId, with_attendance: Option<bool>) -> bool {
    match with_attendance {
        Some(w) => forall|j: int|
            0 <= j < t.events.len() && (#[trigger] t.events[j]).id == id ==> t.events[j].with_attendance == w,
        None => true,
    }
}

/// What `update_event` promises when it succeeds. A form that gives no field, or only the
/// attendance flag the event already has, changes nothing.
/// Otherwise the given fields are set, the rest kept, `modified_at` moves forward to `touched_at(.., now)`, and a
/// given tag list replaces all links of the event.
pub open spec fn updated_event(
    old: Tables,
    new: Tables,
    id: EventId,
    title: Option<Seq<char>>,
    description: Option<Seq<char>>,
    with_attendance: Option<bool>,
    tag_ids: Option<Seq<TagId>>,
    now: i64,
) -> bool {
    if title is None && description is None && attendance_kept(old, id, with_attendance) && tag_ids is None {
        new == old
    } else {
        &&& rewrote_event(old, new, id, title, description, with_attendance, now)
        &&& new.event_images == old.event_images
        &&& new.same_but_events(old)
        &&& new.events_to_tags == match tag_ids {
            Some(ts) => old.events_to_tags.filter(link_of_other_event(id)) + links_to(id, ts),
            None => old.events_to_tags,
        }
    }
}

/// The largest position among the images of the event `id` in `images`, or -1 when it
/// has none.
pub open spec fn max_position(images: Seq<EventImage>, id: EventId) -> int
    decreases images.len(),
{
    if images.len() == 0 {
        -1
    } else {
        let m = max_position(images.drop_last(), id);
        let last = images.last();
        if last.event_id == id && last.position > m {
            last.position as int
        } else {
            m
        }
    }
}

/// The position that the next image of the event `id` gets.
pub open spec fn next_position(t: Tables, id: EventId) -> int {
    max_position(t.event_images, id) + 1
}

pub proof fn lemma_max_position(images: Seq<EventImage>, id: EventId)
    ensures
        max_position(images, id) >= -1,
        forall|i: int|
            0 <= i < images.len() && (#[trigger] images[i]).event_id == id ==> images[i].position
                <= max_position(images, id),
        max_position(images, id) >= 0 ==> exists|i: int|
            0 <= i < images.len() && (#[trigger] images[i]).event_id == id && images[i].position
                == max_position(images, id),
    decreases images.len(),
{
    if images.len() > 0 {
        let rest = images.drop_last();
        lemma_max_position(rest, id);
        assert forall|i: int|
            0 <= i < images.len() && (#[trigger] images[i]).event_id == id implies images[i].position
            <= max_position(images, id) by {
            if i < images.len() - 1 {
                assert(images[i] == rest[i]);
            }
        }
        if max_position(images, id) >= 0 && max_position(images, id) == max_position(rest, id) {
            let i = choose|i: int|
                0 <= i < rest.len() && (#[trigger] rest[i]).event_id == id && rest[i].position
                    == max_position(rest, id);
            assert(images[i] == rest[i]);
        }
    }
}

proof fn lemma_dense_below(t: Tables, id: EventId, p: int)
    requires
        t.wf(),
        0 <= p <= max_position(t.event_images, id),
    ensures
        image_at(t, id, p),
    decreases max_position(t.event_images, id) - p,
{
    lemma_max_position(t.event_images, id);
    if p < max_position(t.event_images, id) {
        lemma_dense_below(t, id, p + 1);
        let j = choose|j: int|
            0 <= j < t.event_images.len() && (#[trigger] t.event_images[j]).event_id == id
                && t.event_images[j].position == p + 1;
        assert(image_at(t, t.event_images[j].event_id, t.event_images[j].position - 1));
    }
}

proof fn lemma_images_below_len(t: Tables, id: EventId, p: nat)
    requires
        t.wf(),
    ensures
        images_below(t, id, p).len() == if p < next_position(t, id) {
            p as int
        } else {
            next_position(t, id)
        },
    decreases p,
{
    lemma_max_position(t.event_images, id);
    if p > 0 {
        lemma_images_below_len(t, id, (p - 1) as nat);
        if p - 1 <= max_position(t.event_images, id) {
            lemma_dense_below(t, id, p - 1);
        } else if image_at(t, id, p - 1) {
            let j = choose|j: int|
                0 <= j < t.event_images.len() && (#[trigger] t.event_images[j]).event_id == id
                    && t.event_images[j].position == p - 1;
        }
    }
}

/// The next image of an event goes to the place just after its images: its position is
/// the number of images that the event shows, which is at most `EVENT_IMAGES_MAX`.
pub proof fn lemma_image_count(t: Tables, id: EventId)
    requires
        t.wf(),
    ensures
        event_image_ids(t, id).len() == next_position(t, id),
        0 <= next_position(t, id) <= EVENT_IMAGES_MAX,
{
    lemma_max_position(t.event_images, id);
    if max_position(t.event_images, id) >= 0 {
        let j = choose|j: int|
            0 <= j < t.event_images.len() && (#[trigger] t.event_images[j]).event_id == id
                && t.event_images[j].position == max_position(t.event_images, id);
    }
    lemma_images_below_len(t, id, EVENT_IMAGES_MAX as nat);
}

/// What `reserve_image` promises when it succeeds: the image is added after the last one
/// of its event, and its time of change moves forward to `touched_at(.., now)`.
pub open spec fn reserved_image(
    old: Tables,
    new: Tables,
    event_id: EventId,
    image_id: EventImageId,
    now: i64,
) -> bool {
    &&& new.event_images == old.event_images.push(
        EventImage { id: image_id, event_id, position: next_position(old, event_id) as i16 },
    )
    &&& rewrote_event(old, new, event_id, None, None, None, now)
    &&& new.events_to_tags == old.events_to_tags
    &&& new.same_but_events(old)
}

/// `needle` occurs in `hay` at `i`, the case of ASCII letters aside.
pub open spec fn matches_at(hay: Seq<char>, needle: Seq<char>, i: int) -> bool {
    forall|j: int| 0 <= j < needle.len() ==> #[trigger] fold_char(hay[i + j]) == fold_char(needle[j])
}

/// `needle` occurs somewhere in `hay`, the case of ASCII letters aside.
pub open spec fn contains_folded(hay: Seq<char>, needle: Seq<char>) -> bool {
    exists|i: int| 0 <= i <= hay.len() - needle.len() && #[trigger] matches_at(hay, needle, i)
}

/// The event row `row` passes the filters of a listing: linked to one of `tags` when some
/// are given, and holding `search` in its title or description when it is given.
pub open spec fn event_matches(t: Tables, row: models::Event, tags: Seq<TagId>, search: Option<Seq<char>>) -> bool {
    &&& tags.len() == 0 || exists|k: int| 0 <= k < tags.len() && t.linked(row.id, #[trigger] tags[k])
    &&& match search {
        Some(q) => contains_folded(row.title@, q) || contains_folded(row.description@, q),
        None => true,
    }
}

pub open spec fn event_filter(t: Tables, tags: Seq<TagId>, search: Option<Seq<char>>) -> spec_fn(models::Event) -> bool {
    |row: models::Event| event_matches(t, row, tags, search)
}

pub open spec fn event_id_number(row: models::Event) -> u128 {
    row.id.0
}

/// The ids of the events that pass the filters, in the order of the table.
pub open spec fn matching_event_ids(t: Tables, tags: Seq<TagId>, search: Option<Seq<char>>) -> Seq<u128> {
    t.events.filter(event_filter(t, tags, search)).map_values(|row: models::Event| event_id_number(row))
}

/// `x` is an image of the event `id`.
pub open spec fn image_of_event(t: Tables, id: EventId, x: EventImageId) -> bool {
    exists|i: int|
        0 <= i < t.event_images.len() && (#[trigger] t.event_images[i]).id == x && t.event_images[i].event_id == id
}

/// `order` lists exactly the images of the event `id`.
pub open spec fn same_images(t: Tables, id: EventId, order: Seq<EventImageId>) -> bool {
    &&& forall|k: int| 0 <= k < order.len() ==> image_of_event(t, id, #[trigger] order[k])
    &&& forall|i: int|
        0 <= i < t.event_images.len() && (#[trigger] t.event_images[i]).event_id == id
            ==> order.contains(t.event_images[i].id)
}

/// `new` is `old` with each image of the event `id` moved to the place of its id in `order`.
pub open spec fn reordered(old: Tables, new: Tables, id: EventId, order: Seq<EventImageId>) -> bool {
    &&& new.event_images.len() == old.event_images.len()
    &&& forall|i: int|
        0 <= i < old.event_images.len() && (#[trigger] old.event_images[i]).event_id != id
            ==> new.event_images[i] == old.event_images[i]
    &&& forall|i: int|
        0 <= i < old.event_images.len() && (#[trigger] old.event_images[i]).event_id == id ==> {
            &&& new.event_images[i].id == old.event_images[i].id
            &&& new.event_images[i].event_id == id
            &&& 0 <= new.event_images[i].position < order.len()
            &&& order[new.event_images[i].position as int] == old.event_images[i].id
        }
}

/// What `reserve_image_at` promises.
pub open spec fn reserve_image_post(
    old: Tables,
    event_id: EventId,
    image_id: EventImageId,
    user_id: UserId,
    now: i64,
    r: ApiResult<()>,
    new: Tables,
) -> bool {
    &&& new.wf()
    &&& r is Ok <==> authored_by(old, event_id, user_id) && !old.has_image(image_id)
        && event_image_ids(old, event_id).len() < EVENT_IMAGES_MAX
    &&& r is Ok ==> reserved_image(old, new, event_id, image_id, now)
    &&& r is Err ==> new == old
    &&& r is Err && !old.has_event(event_id) ==> r->Err_0 is NotFound
    &&& r is Err && old.has_event(event_id) && !authored_by(old, event_id, user_id) ==> r->Err_0 is Forbidden
    &&& r is Err && authored_by(old, event_id, user_id) ==> r->Err_0 is AlreadyExists
}

/// The tag at `k` is the first of `ids` that does not exist.
pub open spec fn first_missing_tag(t: Tables, ids: Seq<TagId>, k: int) -> bool {
    &&& 0 <= k < ids.len()
    &&& !t.has_tag(ids[k])
    &&& forall|m: int| 0 <= m < k ==> t.has_tag(#[trigger] ids[m])
}

/// The message that reports the tag `id` missing.
pub open spec fn missing_tag_message(id: TagId) -> Seq<char> {
    "no tag with id "@ + uuid_text(id.0)
}

/// `e` reports the first tag of `ids` that does not exist, if any is missing.
pub open spec fn names_first_missing(t: Tables, ids: Seq<TagId>, e: ApiError) -> bool {
    forall|k: int|
        #[trigger] first_missing_tag(t, ids, k) ==> e is InvalidArgument && e->InvalidArgument_0@
            == missing_tag_message(ids[k])
}

/// Every tag of `ids` exists.
pub open spec fn all_tags_exist(t: Tables, ids: Seq<TagId>) -> bool {
    forall|k: int| 0 <= k < ids.len() ==> t.has_tag(#[trigger] ids[k])
}

/// What `create_event` promises: a new event under a fresh id, made now, linked to its
/// tags; or an error with nothing changed. A missing author or tag gives `InvalidArgument`.
pub open spec fn create_event_post(
    old: Tables,
    form: entities::NewEventForm,
    author: UserId,
    r: ApiResult<EventId>,
    new: Tables,
) -> bool {
    &&& new.wf()
    &&& r is Ok ==> !old.has_event(r->Ok_0) && exists|now: i64| old.added_event(
        new,
        r->Ok_0,
        form.title@,
        form.description@,
        form.with_attendance,
        author,
        form.tag_ids@,
        now,
    )
    &&& r is Err ==> new == old
    &&& !(old.has_user(author) && all_tags_exist(old, form.tag_ids@)) ==> r is Err && r->Err_0 is InvalidArgument
    &&& r is Err && old.has_user(author) ==> names_first_missing(old, form.tag_ids@, r->Err_0)
    &&& old.has_user(author) && all_tags_exist(old, form.tag_ids@) && r is Err ==> r->Err_0 is AlreadyExists
        && old.events.len() > 0
}

impl Database {
    /// The index of the image of the event `id` at `position`, if there is one.
    fn image_index_at(&self, id: EventId, position: i16) -> (r: Option<usize>)
        ensures
            r is Some ==> r->Some_0 < self@.event_images.len() && self@.event_images[r->Some_0 as int].event_id
                == id && self@.event_images[r->Some_0 as int].position == position,
            r is None ==> !image_at(self@, id, position as int),
    {
        let mut i: usize = 0;
        while i < self.event_images.len()
            invariant
                i <= self@.event_images.len(),
                forall|k: int|
                    0 <= k < i ==> !((#[trigger] self@.event_images[k]).event_id == id
                        && self@.event_images[k].position == position),
            decreases self@.event_images.len() - i,
        {
            if self.event_images[i].event_id == id && self.event_images[i].position == position {
                return Some(i);
            }
            i += 1;
        }
        None
    }

    /// The images of the event `id`, in order of position.
    fn image_ids_of(&self, id: EventId) -> (r: EventImageIds)
        requires
            self@.wf(),
        ensures
            r@ == event_image_ids(self@, id),
    {
        let mut out: Vec<EventImageId> = Vec::new();
        let ghost mut src: Seq<int> = Seq::empty();
        let mut p: i16 = 0;
        while p < EVENT_IMAGES_MAX as i16
            invariant
                self@.wf(),
                0 <= p <= EVENT_IMAGES_MAX,
                out@ == images_below(self@, id, p as nat),
                out@.len() <= p,
                src.len() == out@.len(),
                forall|k: int|
                    0 <= k < out@.len() ==> 0 <= #[trigger] src[k] < self@.event_images.len()
                        && self@.event_images[src[k]].id == out@[k]
                        && self@.event_images[src[k]].position < p,
                distinct(out@),
            decreases EVENT_IMAGES_MAX - p,
        {
            match self.image_index_at(id, p) {
                Some(j) => {
                    let x = self.event_images[j].id;
                    proof {
                        let c = choose|c: int|
                            0 <= c < self@.event_images.len() && (#[trigger] self@.event_images[c]).event_id
                                == id && self@.event_images[c].position == p as int;
                        assert(self@.event_images[c] == self@.event_images[j as int]);
                        assert(image_id_at(self@, id, p as int) == x);
                        assert forall|k: int| 0 <= k < out@.len() implies out@[k] != x by {
                            if out@[k] == x {
                                assert(self@.event_images[src[k]] == self@.event_images[j as int]);
                            }
                        }
                    }
                    let ghost before = out@;
                    out.push(x);
                    proof {
                        src = src.push(j as int);
                        assert forall|a: int, b: int|
                            0 <= a < out@.len() && 0 <= b < out@.len() && a != b implies out@[a] != out@[b] by {
                            if a < before.len() && b < before.len() {
                                assert(out@[a] == before[a] && out@[b] == before[b]);
                            }
                        }
                    }
                },
                None => {},
            }
            p += 1;
        }
        EventImageIds::new_unchecked(out)
    }

    /// The tags linked to the event `id`, each once, with their aliases.
    fn tags_of(&self, id: EventId) -> (r: Vec<entities::Tag>)
        requires
            self@.wf(),
        ensures
            shows_event_tags(r@, self@, id),
    {
        let mut out: Vec<entities::Tag> = Vec::new();
        let mut i: usize = 0;
        while i < self.events_to_tags.len()
            invariant
                self@.wf(),
                i <= self@.events_to_tags.len(),
                forall|a: int, b: int|
                    0 <= a < out@.len() && 0 <= b < out@.len() && a != b ==> out@[a].id != out@[b].id,
                forall|k: int| 0 <= k < out@.len() ==> shows_stored_tag(#[trigger] out@[k], self@),
                forall|x: TagId| #[trigger] holds_tag_id(out@, x) <==> linked_below(self@, id, x, i as int),
            decreases self@.events_to_tags.len() - i,
        {
            let link_event = self.events_to_tags[i].event_id;
            let tag_id = self.events_to_tags[i].tag_id;
            let ghost before = out@;
            if link_event == id {
                let mut seen = false;
                let mut j: usize = 0;
                while j < out.len()
                    invariant
                        j <= out@.len(),
                        !seen ==> forall|k: int| 0 <= k < j ==> out@[k].id != tag_id,
                        seen ==> exists|k: int| 0 <= k < out@.len() && (#[trigger] out@[k]).id == tag_id,
                    decreases out@.len() - j,
                {
                    if out[j].id == tag_id {
                        seen = true;
                    }
                    j += 1;
                }
                if !seen {
                    proof {
                        assert(self@.has_tag(self@.events_to_tags[i as int].tag_id));
                    }
                    match self.tag_index(tag_id) {
                        Some(ti) => {
                            let t = self.tag_entity(ti);
                            proof {
                                assert(self@.tags[ti as int].id == t.id);
                            }
                            out.push(t);
                        },
                        None => {},
                    }
                }
                proof {
                    assert forall|x: TagId|
                        #[trigger] holds_tag_id(out@, x) <==> linked_below(self@, id, x, i + 1) by {
                        if holds_tag_id(out@, x) {
                            let k = choose|k: int| 0 <= k < out@.len() && (#[trigger] out@[k]).id == x;
                            if k < before.len() {
                                assert(before[k].id == x);
                                assert(holds_tag_id(before, x));
                                let m = choose|m: int|
                                    0 <= m < i && (#[trigger] self@.events_to_tags[m]).event_id == id
                                        && self@.events_to_tags[m].tag_id == x;
                                assert(self@.events_to_tags[m].event_id == id);
                            } else {
                                assert(self@.events_to_tags[i as int].event_id == id);
                            }
                        }
                        if linked_below(self@, id, x, i + 1) {
                            let m = choose|m: int|
                                0 <= m < i + 1 && (#[trigger] self@.events_to_tags[m]).event_id == id
                                    && self@.events_to_tags[m].tag_id == x;
                            if m < i {
                                assert(self@.events_to_tags[m].event_id == id);
                                assert(linked_below(self@, id, x, i as int));
                                assert(holds_tag_id(before, x));
                                let k = choose|k: int| 0 <= k < before.len() && (#[trigger] before[k]).id == x;
                                assert(out@[k] == before[k]);
                            } else if seen {
                                let k = choose|k: int| 0 <= k < out@.len() && (#[trigger] out@[k]).id == tag_id;
                            } else {
                                assert(out@[before.len() as int].id == x);
                            }
                        }
                    }
                    assert forall|k: int| 0 <= k < out@.len() implies shows_stored_tag(#[trigger] out@[k], self@) by {
                        if k < before.len() {
                            assert(out@[k] == before[k]);
                        }
                    }
                }
            } else {
                proof {
                    assert forall|x: TagId|
                        #[trigger] holds_tag_id(out@, x) <==> linked_below(self@, id, x, i + 1) by {
                        if linked_below(self@, id, x, i + 1) {
                            let m = choose|m: int|
                                0 <= m < i + 1 && (#[trigger] self@.events_to_tags[m]).event_id == id
                                    && self@.events_to_tags[m].tag_id == x;
                            assert(m != i);
                            assert(self@.events_to_tags[m].event_id == id);
                        }
                    }
                }
            }
            i += 1;
        }
        out
    }

    fn event_entity(&self, i: usize) -> (r: entities::Event)
        requires
            self@.wf(),
            i < self@.events.len(),
        ensures
            shows_event(r, self@, self@.events[i as int]),
    {
        let row = &self.events[i];
        assert(self@.events[i as int] == *row);
        proof {
            assert(self@.has_user(row.author_id));
        }
        let author = match self.user_index(row.author_id) {
            Some(u) => self.user_entity(u),
            // The author of a stored event always exists.
            None => {
                proof {
                    assert(false);
                }
                self.user_entity(0)
            },
        };
        entities::Event {
            id: row.id,
            author,
            image_ids: self.image_ids_of(row.id),
            title: EventTitle::new_unchecked(row.title.clone()),
            description: EventDescription::new_unchecked(row.description.clone()),
            tags: self.tags_of(row.id),
            with_attendance: row.with_attendance,
            created_at: row.created_at,
            modified_at: row.modified_at,
        }
    }

    /// The event `id` with its author, its images in order and its tags, or `NotFound`.
    pub fn find_event(&self, id: EventId) -> (r: ApiResult<entities::Event>)
        requires
            self@.wf(),
        ensures
            r is Ok <==> self@.has_event(id),
            r is Ok ==> r->Ok_0.id == id && shows_stored_event(r->Ok_0, self@),
            r is Err ==> r->Err_0 is NotFound,
    {
        match self.event_index(id) {
            Some(i) => Ok(self.event_entity(i)),
            None => Err(ApiError::NotFound(String::from_str("no event with the given id"))),
        }
    }

    fn keep_other_events(&mut self, id: EventId)
        ensures
            final(self)@.events == old(self)@.events.filter(other_event(id)),
            final(self)@.users == old(self)@.users,
            final(self)@.refresh_tokens == old(self)@.refresh_tokens,
            final(self)@.tags == old(self)@.tags,
            final(self)@.tag_aliases == old(self)@.tag_aliases,
            final(self)@.event_images == old(self)@.event_images,
            final(self)@.events_to_tags == old(self)@.events_to_tags,
    {
        let ghost start = self@.events;
        let mut kept: Vec<models::Event> = Vec::new();
        let mut rest = Vec::new();
        std::mem::swap(&mut rest, &mut self.events);
        assert(rest@ == start);
        let n = rest.len();
        let mut i: usize = 0;
        let ghost pred = other_event(id);
        while i < n
            invariant
                n == start.len(),
                i <= n,
                rest@.len() == n - i,
                forall|j: int| 0 <= j < rest@.len() ==> #[trigger] rest@[j] == start[j + i],
                kept@ == start.take(i as int).filter(pred),
                pred == other_event(id),
                self.users@ == old(self).users@,
                self.refresh_tokens@ == old(self).refresh_tokens@,
                self.tags@ == old(self).tags@,
                self.tag_aliases@ == old(self).tag_aliases@,
                self.event_images@ == old(self).event_images@,
                self.events_to_tags@ == old(self).events_to_tags@,
            decreases n - i,
        {
            let r = rest.remove(0);
            proof {
                assert(r == start[i as int]);
                assert(start.take(i + 1) =~= start.take(i as int).push(r));
                start.take(i as int).lemma_filter_push(r, pred);
            }
            if r.id != id {
                kept.push(r);
            }
            i += 1;
        }
        assert(start.take(n as int) =~= start);
        self.events = kept;
    }

    fn keep_images_of_other_events(&mut self, id: EventId)
        ensures
            final(self)@.event_images == old(self)@.event_images.filter(image_of_other_event(id)),
            final(self)@.users == old(self)@.users,
            final(self)@.refresh_tokens == old(self)@.refresh_tokens,
            final(self)@.tags == old(self)@.tags,
            final(self)@.tag_aliases == old(self)@.tag_aliases,
            final(self)@.events == old(self)@.events,
            final(self)@.events_to_tags == old(self)@.events_to_tags,
    {
        let ghost start = self@.event_images;
        let mut kept: Vec<EventImage> = Vec::new();
        let mut rest = Vec::new();
        std::mem::swap(&mut rest, &mut self.event_images);
        assert(rest@ == start);
        let n = rest.len();
        let mut i: usize = 0;
        let ghost pred = image_of_other_event(id);
        while i < n
            invariant
                n == start.len(),
                i <= n,
                rest@.len() == n - i,
                forall|j: int| 0 <= j < rest@.len() ==> #[trigger] rest@[j] == start[j + i],
                kept@ == start.take(i as int).filter(pred),
                pred == image_of_other_event(id),
                self.users@ == old(self).users@,
                self.refresh_tokens@ == old(self).refresh_tokens@,
                self.tags@ == old(self).tags@,
                self.tag_aliases@ == old(self).tag_aliases@,
                self.events@ == old(self).events@,
                self.events_to_tags@ == old(self).events_to_tags@,
            decreases n - i,
        {
            let r = rest.remove(0);
            proof {
                assert(r == start[i as int]);
                assert(start.take(i + 1) =~= start.take(i as int).push(r));
                start.take(i as int).lemma_filter_push(r, pred);
            }
            if r.event_id != id {
                kept.push(r);
            }
            i += 1;
        }
        assert(start.take(n as int) =~= start);
        self.event_images = kept;
    }

    fn keep_links_of_other_events(&mut self, id: EventId)
        ensures
            final(self)@.events_to_tags == old(self)@.events_to_tags.filter(link_of_other_event(id)),
            final(self)@.users == old(self)@.users,
            final(self)@.refresh_tokens == old(self)@.refresh_tokens,
            final(self)@.tags == old(self)@.tags,
            final(self)@.tag_aliases == old(self)@.tag_aliases,
            final(self)@.events == old(self)@.events,
            final(self)@.event_images == old(self)@.event_images,
    {
        let ghost start = self@.events_to_tags;
        let mut kept: Vec<EventToTag> = Vec::new();
        let mut rest = Vec::new();
        std::mem::swap(&mut rest, &mut self.events_to_tags);
        assert(rest@ == start);
        let n = rest.len();
        let mut i: usize = 0;
        let ghost pred = link_of_other_event(id);
        while i < n
            invariant
                n == start.len(),
                i <= n,
                rest@.len() == n - i,
                forall|j: int| 0 <= j < rest@.len() ==> #[trigger] rest@[j] == start[j + i],
                kept@ == start.take(i as int).filter(pred),
                pred == link_of_other_event(id),
                self.users@ == old(self).users@,
                self.refresh_tokens@ == old(self).refresh_tokens@,
                self.tags@ == old(self).tags@,
                self.tag_aliases@ == old(self).tag_aliases@,
                self.events@ == old(self).events@,
                self.event_images@ == old(self).event_images@,
            decreases n - i,
        {
            let r = rest.remove(0);
            proof {
                assert(r == start[i as int]);
                assert(start.take(i + 1) =~= start.take(i as int).push(r));
                start.take(i as int).lemma_filter_push(r, pred);
            }
            if r.event_id != id {
                kept.push(r);
            }
            i += 1;
        }
        assert(start.take(n as int) =~= start);
        self.events_to_tags = kept;
    }

    proof fn lemma_event_pushed(old: Tables, new: Tables)
        requires
            new.events.len() == old.events.len() + 1,
            new.events.drop_last() == old.events,
        ensures
            forall|id: EventId| old.has_event(id) ==> new.has_event(id),
    {
        assert forall|id: EventId| old.has_event(id) implies new.has_event(id) by {
            let i = choose|i: int| 0 <= i < old.events.len() && (#[trigger] old.events[i]).id == id;
            assert(new.events[i] == old.events[i]);
        }
    }

    /// Adds the event `id` by `author_id`, made at `now`, linked to the tags of `form`. A
    /// missing author or tag gives `InvalidArgument`; a taken id gives `AlreadyExists`.
    pub fn create_event_with_id(
        &mut self,
        id: EventId,
        form: &entities::NewEventForm,
        author_id: UserId,
        now: i64,
    ) -> (r: ApiResult<()>)
        requires
            old(self)@.wf(),
        ensures
            final(self)@.wf(),
            r is Ok <==> old(self)@.has_user(author_id) && all_tags_exist(old(self)@, form.tag_ids@)
                && !old(self)@.has_event(id),
            r is Ok ==> old(self)@.added_event(
                final(self)@,
                id,
                form.title@,
                form.description@,
                form.with_attendance,
                author_id,
                form.tag_ids@,
                now,
            ),
            r is Err ==> final(self)@ == old(self)@,
            r is Err && !(old(self)@.has_user(author_id) && all_tags_exist(old(self)@, form.tag_ids@))
                ==> r->Err_0 is InvalidArgument,
            r is Err && old(self)@.has_user(author_id) && all_tags_exist(old(self)@, form.tag_ids@)
                ==> r->Err_0 is AlreadyExists,
            r is Err && old(self)@.has_user(author_id) ==> names_first_missing(
                old(self)@,
                form.tag_ids@,
                r->Err_0,
            ),
    {
        if self.user_index(author_id).is_none() {
            return Err(ApiError::InvalidArgument(String::from_str("no author with the given id")));
        }
        let tag_ids = form.tag_ids.as_vec();
        let mut k: usize = 0;
        while k < tag_ids.len()
            invariant
                self@ == old(self)@,
                old(self)@.wf(),
                k <= tag_ids@.len(),
                tag_ids@ == form.tag_ids@,
                forall|m: int| 0 <= m < k ==> self@.has_tag(#[trigger] tag_ids@[m]),
            decreases tag_ids@.len() - k,
        {
            if self.tag_index(tag_ids[k]).is_none() {
                assert(!self@.has_tag(form.tag_ids@[k as int]));
                let e = missing_tag_error(tag_ids[k]);
                proof {
                    assert forall|m: int| #[trigger] first_missing_tag(self@, tag_ids@, m) implies m == k by {
                        if m < k {
                        } else if m > k {
                            assert(self@.has_tag(tag_ids@[k as int]));
                        }
                    }
                }
                return Err(e);
            }
            k += 1;
        }
        if self.event_index(id).is_some() {
            return Err(ApiError::AlreadyExists(String::from_str("an event with this id exists")));
        }
        let ghost t0 = self@;
        self.events.push(
            models::Event {
                id,
                title: form.title.to_string(),
                description: form.description.to_string(),
                author_id,
                with_attendance: form.with_attendance,
                created_at: now,
                modified_at: now,
            },
        );
        let ghost t1 = self@;
        proof {
            assert(t1.events.drop_last() =~= t0.events);
            Self::lemma_event_pushed(t0, t1);
        }
        let mut k: usize = 0;
        while k < tag_ids.len()
            invariant
                k <= tag_ids@.len(),
                tag_ids@ == form.tag_ids@,
                self@.events == t1.events,
                self@.event_images == t0.event_images,
                self@.same_but_events(t0),
                self@.events_to_tags.len() == t0.events_to_tags.len() + k,
                self@.events_to_tags.take(t0.events_to_tags.len() as int) == t0.events_to_tags,
                forall|m: int|
                    0 <= m < k ==> (#[trigger] self@.events_to_tags[t0.events_to_tags.len() + m])
                        == (EventToTag { event_id: id, tag_id: tag_ids@[m] }),
            decreases tag_ids@.len() - k,
        {
            let ghost before = self@.events_to_tags;
            self.events_to_tags.push(EventToTag { event_id: id, tag_id: tag_ids[k] });
            proof {
                assert(self@.events_to_tags.take(t0.events_to_tags.len() as int) =~= before.take(
                    t0.events_to_tags.len() as int,
                ));
                assert forall|m: int| 0 <= m < k + 1 implies (#[trigger] self@.events_to_tags[t0.events_to_tags.len()
                    + m]) == (EventToTag { event_id: id, tag_id: tag_ids@[m] }) by {
                    if m < k {
                        assert(self@.events_to_tags[t0.events_to_tags.len() + m]
                            == before[t0.events_to_tags.len() + m]);
                    }
                }
            }
            k += 1;
        }
        proof {
            let t2 = self@;
            let base = t0.events_to_tags.len() as int;
            let last = t1.events.len() - 1;
            assert(t1.events[last].id == id);
            assert(t2.has_event(id));
            assert forall|i: int| 0 <= i < base implies #[trigger] t2.events_to_tags[i]
                == t0.events_to_tags[i] by {
                assert(t2.events_to_tags.take(base)[i] == t2.events_to_tags[i]);
            }
            assert forall|i: int| 0 <= i < t2.events_to_tags.len() implies t2.has_event(
                (#[trigger] t2.events_to_tags[i]).event_id,
            ) && t2.has_tag(t2.events_to_tags[i].tag_id) by {
                if i < base {
                    assert(t2.events_to_tags[i] == t0.events_to_tags[i]);
                    assert(t0.has_event(t0.events_to_tags[i].event_id));
                    assert(t0.has_tag(t0.events_to_tags[i].tag_id));
                } else {
                    assert(t2.events_to_tags[base + (i - base)] == (EventToTag {
                        event_id: id,
                        tag_id: tag_ids@[i - base],
                    }));
                }
            }
            assert forall|i: int, j: int|
                0 <= i < t2.events.len() && 0 <= j < t2.events.len() && (#[trigger] t2.events[i]).id
                    == (#[trigger] t2.events[j]).id implies i == j by {
                if i < last {
                    assert(t0.events[i] == t2.events[i]);
                }
                if j < last {
                    assert(t0.events[j] == t2.events[j]);
                }
            }
            assert forall|i: int| 0 <= i < t2.events.len() implies t2.has_user(
                (#[trigger] t2.events[i]).author_id,
            ) && values::bounded_text(t2.events[i].title@, TITLE_MAX_LEN as nat)
                && values::bounded_text(t2.events[i].description@, DESCRIPTION_MAX_LEN as nat) by {
                if i < last {
                    assert(t0.events[i] == t2.events[i]);
                }
            }
            assert forall|i: int| 0 <= i < t2.event_images.len() implies t2.has_event(
                (#[trigger] t2.event_images[i]).event_id,
            ) by {
                assert(t0.has_event(t0.event_images[i].event_id));
            }
            assert(t2.events_to_tags.take(base) == t0.events_to_tags);
        }
        Ok(())
    }

    /// Adds an event by `author_id` under a newly generated time-ordered id, made now,
    /// linked to the tags of `form`, and returns the id.
    pub fn create_event(&mut self, form: entities::NewEventForm, author_id: UserId) -> (r: ApiResult<EventId>)
        requires
            old(self)@.wf(),
        ensures
            create_event_post(old(self)@, form, author_id, r, final(self)@),
    {
        let id = EventId(new_v7_id());
        let now = now_micros();
        let ghost t0 = self@;
        let r = self.create_event_with_id(id, &form, author_id, now);
        let res = match r {
            Ok(()) => Ok(id),
            Err(e) => Err(e),
        };
        proof {
            if res is Ok {
                assert(t0.added_event(
                    self@,
                    id,
                    form.title@,
                    form.description@,
                    form.with_attendance,
                    author_id,
                    form.tag_ids@,
                    now,
                ));
            }
            if res is Err && t0.has_user(author_id) && all_tags_exist(t0, form.tag_ids@) {
                let i = choose|i: int| 0 <= i < t0.events.len() && (#[trigger] t0.events[i]).id == id;
            }
            assert(create_event_post(t0, form, author_id, res, self@));
        }
        res
    }

    proof fn lemma_without_event_wf(t: Tables, id: EventId)
        requires
            t.wf(),
            super::keys_injective(t.events, |r: models::Event| r.id),
            super::keys_injective(t.event_images, |r: EventImage| r.id),
            super::keys_injective(t.event_images, |r: EventImage| (r.event_id, r.position)),
        ensures
            t.without_event(id).wf(),
    {
        let n = t.without_event(id);
        assert(n.users == t.users && n.tags == t.tags && n.tag_aliases == t.tag_aliases
            && n.refresh_tokens == t.refresh_tokens);
        assert forall|x: EventId| x != id && t.has_event(x) implies n.has_event(x) by {
            let i = choose|i: int| 0 <= i < t.events.len() && (#[trigger] t.events[i]).id == x;
            assert(other_event(id)(t.events[i]));
            assert(n.events.contains(t.events[i]));
        }
        super::lemma_filter_keys_injective(t.events, other_event(id), |r: models::Event| r.id);
        super::lemma_filter_keys_injective(t.event_images, image_of_other_event(id), |r: EventImage| r.id);
        super::lemma_filter_keys_injective(
            t.event_images,
            image_of_other_event(id),
            |r: EventImage| (r.event_id, r.position),
        );
        assert forall|i: int| 0 <= i < n.events.len() implies n.has_user(
            (#[trigger] n.events[i]).author_id,
        ) && values::bounded_text(n.events[i].title@, TITLE_MAX_LEN as nat)
            && values::bounded_text(n.events[i].description@, DESCRIPTION_MAX_LEN as nat) by {
            assert(n.events.contains(n.events[i]));
            let a = choose|a: int| 0 <= a < t.events.len() && t.events[a] == n.events[i];
            assert(t.has_user(t.events[a].author_id));
        }
        assert forall|i: int| 0 <= i < n.event_images.len() implies n.has_event(
            (#[trigger] n.event_images[i]).event_id,
        ) && 0 <= n.event_images[i].position < EVENT_IMAGES_MAX by {
            assert(n.event_images.contains(n.event_images[i]));
            assert(image_of_other_event(id)(n.event_images[i]));
            let a = choose|a: int| 0 <= a < t.event_images.len() && t.event_images[a] == n.event_images[i];
            assert(t.has_event(t.event_images[a].event_id));
        }
        assert forall|i: int|
            0 <= i < n.event_images.len() && (#[trigger] n.event_images[i]).position > 0 implies image_at(
            n,
            n.event_images[i].event_id,
            n.event_images[i].position - 1,
        ) by {
            assert(n.event_images.contains(n.event_images[i]));
            let a = choose|a: int| 0 <= a < t.event_images.len() && t.event_images[a] == n.event_images[i];
            assert(image_at(t, t.event_images[a].event_id, t.event_images[a].position - 1));
            let j = choose|j: int|
                0 <= j < t.event_images.len() && (#[trigger] t.event_images[j]).event_id
                    == t.event_images[a].event_id && t.event_images[j].position == t.event_images[a].position - 1;
            assert(image_of_other_event(id)(n.event_images[i]));
            assert(image_of_other_event(id)(t.event_images[j]));
            t.event_images.lemma_filter_contains(image_of_other_event(id), j);
            let k = choose|k: int| 0 <= k < n.event_images.len() && n.event_images[k] == t.event_images[j];
            assert(n.event_images[k].event_id == n.event_images[i].event_id);
        }
        assert forall|i: int| 0 <= i < n.events_to_tags.len() implies n.has_event(
            (#[trigger] n.events_to_tags[i]).event_id,
        ) && n.has_tag(n.events_to_tags[i].tag_id) by {
            assert(n.events_to_tags.contains(n.events_to_tags[i]));
            assert(link_of_other_event(id)(n.events_to_tags[i]));
            let a = choose|a: int|
                0 <= a < t.events_to_tags.len() && t.events_to_tags[a] == n.events_to_tags[i];
            assert(t.has_event(t.events_to_tags[a].event_id));
            assert(t.has_tag(t.events_to_tags[a].tag_id));
        }
        assert forall|i: int| 0 <= i < n.tags.len() && (#[trigger] n.tags[i]).owner_id is Some implies n.has_user(
            n.tags[i].owner_id->Some_0,
        ) by {}
        assert forall|i: int| 0 <= i < n.tag_aliases.len() implies n.has_tag(
            (#[trigger] n.tag_aliases[i]).tag_id,
        ) by {}
    }

    /// Deletes the event `id` with its images and its links to tags, in one step, and
    /// returns the ids of the images it had, in order. The event must exist (`NotFound`) and
    /// `user_id` must be its author (`Forbidden`).
    pub fn delete_event(&mut self, event_id: EventId, user_id: UserId) -> (r: ApiResult<EventImageIds>)
        requires
            old(self)@.wf(),
        ensures
            final(self)@.wf(),
            r is Ok <==> authored_by(old(self)@, event_id, user_id),
            r is Ok ==> final(self)@ == old(self)@.without_event(event_id) && r->Ok_0@
                == event_image_ids(old(self)@, event_id),
            r is Err ==> final(self)@ == old(self)@,
            r is Err && !old(self)@.has_event(event_id) ==> r->Err_0 is NotFound,
            r is Err && old(self)@.has_event(event_id) ==> r->Err_0 is Forbidden,
    {
        let i = match self.event_index(event_id) {
            Some(i) => i,
            None => {
                return Err(ApiError::NotFound(String::from_str("no event with the given id")));
            },
        };
        if self.events[i].author_id != user_id {
            proof {
                if authored_by(self@, event_id, user_id) {
                    let j = choose|j: int|
                        0 <= j < self@.events.len() && (#[trigger] self@.events[j]).id == event_id
                            && self@.events[j].author_id == user_id;
                    assert(self@.events[j] == self@.events[i as int]);
                }
            }
            return Err(ApiError::Forbidden(String::from_str("only the author can delete this event")));
        }
        let images = self.image_ids_of(event_id);
        let ghost t0 = self@;
        proof {
            assert(super::keys_injective(t0.events, |r: models::Event| r.id));
            assert(super::keys_injective(t0.event_images, |r: EventImage| r.id));
            assert(super::keys_injective(t0.event_images, |r: EventImage| (r.event_id, r.position)));
            Self::lemma_without_event_wf(t0, event_id);
        }
        self.keep_links_of_other_events(event_id);
        self.keep_images_of_other_events(event_id);
        self.keep_other_events(event_id);
        assert(self@ == t0.without_event(event_id));
        Ok(images)
    }

    /// Gives every row of the event `id` these fields and moves its time of change forward
    /// to `touched_at(.., modified_at)`.
    fn rewrite_event(
        &mut self,
        id: EventId,
        title: Option<&String>,
        description: Option<&String>,
        with_attendance: Option<bool>,
        modified_at: i64,
    )
        requires
            old(self)@.wf(),
            title is Some ==> values::bounded_text(title->Some_0@, TITLE_MAX_LEN as nat),
            description is Some ==> values::bounded_text(description->Some_0@, DESCRIPTION_MAX_LEN as nat),
        ensures
            final(self)@.wf(),
            rewrote_event(
                old(self)@,
                final(self)@,
                id,
                match title {
                    Some(t) => Some(t@),
                    None => None,
                },
                match description {
                    Some(d) => Some(d@),
                    None => None,
                },
                with_attendance,
                modified_at,
            ),
            final(self)@.event_images == old(self)@.event_images,
            final(self)@.events_to_tags == old(self)@.events_to_tags,
            final(self)@.same_but_events(old(self)@),
    {
        let ghost t0 = self@;
        let ghost tv = match title {
            Some(t) => Some(t@),
            None => None,
        };
        let ghost dv = match description {
            Some(d) => Some(d@),
            None => None,
        };
        let mut j: usize = 0;
        while j < self.events.len()
            invariant
                t0 == old(self)@,
                t0.wf(),
                j <= self@.events.len(),
                self@.events.len() == t0.events.len(),
                self@.event_images == t0.event_images,
                self@.events_to_tags == t0.events_to_tags,
                self@.same_but_events(t0),
                tv == match title {
                    Some(t) => Some(t@),
                    None => None,
                },
                dv == match description {
                    Some(d) => Some(d@),
                    None => None,
                },
                title is Some ==> values::bounded_text(title->Some_0@, TITLE_MAX_LEN as nat),
                description is Some ==> values::bounded_text(description->Some_0@, DESCRIPTION_MAX_LEN as nat),
                forall|k: int| j <= k < t0.events.len() ==> #[trigger] self@.events[k] == t0.events[k],
                forall|k: int|
                    0 <= k < j && (#[trigger] t0.events[k]).id != id ==> self@.events[k] == t0.events[k],
                forall|k: int|
                    0 <= k < j && (#[trigger] t0.events[k]).id == id ==> {
                        &&& self@.events[k].id == id
                        &&& self@.events[k].author_id == t0.events[k].author_id
                        &&& self@.events[k].created_at == t0.events[k].created_at
                        &&& self@.events[k].title@ == or_else(tv, t0.events[k].title@)
                        &&& self@.events[k].description@ == or_else(dv, t0.events[k].description@)
                        &&& self@.events[k].with_attendance == or_else(
                            with_attendance,
                            t0.events[k].with_attendance,
                        )
                        &&& self@.events[k].modified_at == touched_at(
                            t0.events[k].modified_at,
                            modified_at,
                        )
                    },
            decreases t0.events.len() - j,
        {
            if self.events[j].id == id {
                let new_title = match title {
                    Some(t) => t.clone(),
                    None => self.events[j].title.clone(),
                };
                let new_description = match description {
                    Some(d) => d.clone(),
                    None => self.events[j].description.clone(),
                };
                let new_attendance = match with_attendance {
                    Some(b) => b,
                    None => self.events[j].with_attendance,
                };
                let before = self.events[j].modified_at;
                let touched = if modified_at > before {
                    modified_at
                } else if before < i64::MAX {
                    before + 1
                } else {
                    before
                };
                let row = models::Event {
                    id,
                    title: new_title,
                    description: new_description,
                    author_id: self.events[j].author_id,
                    with_attendance: new_attendance,
                    created_at: self.events[j].created_at,
                    modified_at: touched,
                };
                self.events.set(j, row);
            }
            j += 1;
        }
        proof {
            let t1 = self@;
            assert forall|x: EventId| t0.has_event(x) implies t1.has_event(x) by {
                let k = choose|k: int| 0 <= k < t0.events.len() && (#[trigger] t0.events[k]).id == x;
                assert(t1.events[k].id == x);
            }
            assert forall|a: int, b: int|
                0 <= a < t1.events.len() && 0 <= b < t1.events.len() && (#[trigger] t1.events[a]).id
                    == (#[trigger] t1.events[b]).id implies a == b by {
                if t0.events[a].id != id {
                    assert(t1.events[a] == t0.events[a]);
                }
                if t0.events[b].id != id {
                    assert(t1.events[b] == t0.events[b]);
                }
                assert(t1.events[a].id == t0.events[a].id);
                assert(t1.events[b].id == t0.events[b].id);
            }
            assert forall|a: int| 0 <= a < t1.events.len() implies t1.has_user(
                (#[trigger] t1.events[a]).author_id,
            ) && values::bounded_text(t1.events[a].title@, TITLE_MAX_LEN as nat)
                && values::bounded_text(t1.events[a].description@, DESCRIPTION_MAX_LEN as nat) by {
                assert(t0.has_user(t0.events[a].author_id));
                assert(t1.users == t0.users);
            }
            assert forall|a: int| 0 <= a < t1.event_images.len() implies t1.has_event(
                (#[trigger] t1.event_images[a]).event_id,
            ) by {
                assert(t0.has_event(t0.event_images[a].event_id));
            }
            assert forall|a: int| 0 <= a < t1.events_to_tags.len() implies t1.has_event(
                (#[trigger] t1.events_to_tags[a]).event_id,
            ) && t1.has_tag(t1.events_to_tags[a].tag_id) by {
                assert(t0.has_event(t0.events_to_tags[a].event_id));
                assert(t0.has_tag(t0.events_to_tags[a].tag_id));
                assert(t1.tags == t0.tags);
            }
            assert(t1.users == t0.users && t1.refresh_tokens == t0.refresh_tokens);
            assert forall|a: int| 0 <= a < t1.refresh_tokens.len() implies t1.has_user(
                (#[trigger] t1.refresh_tokens[a]).user_id,
            ) by {
                assert(t0.has_user(t0.refresh_tokens[a].user_id));
            }
            assert forall|a: int| 0 <= a < t1.tags.len() && (#[trigger] t1.tags[a]).owner_id is Some implies t1.has_user(
                t1.tags[a].owner_id->Some_0,
            ) by {
                assert(t0.tags[a] == t1.tags[a]);
            }
            assert forall|a: int| 0 <= a < t1.tag_aliases.len() implies t1.has_tag(
                (#[trigger] t1.tag_aliases[a]).tag_id,
            ) by {
                assert(t0.has_tag(t0.tag_aliases[a].tag_id));
            }
        }
    }

    /// Replaces all links of the event `id` by one link to each of `tag_ids`, in order.
    fn replace_links(&mut self, id: EventId, tag_ids: &Vec<TagId>)
        requires
            old(self)@.wf(),
            old(self)@.has_event(id),
            all_tags_exist(old(self)@, tag_ids@),
        ensures
            final(self)@.wf(),
            final(self)@.events_to_tags == old(self)@.events_to_tags.filter(link_of_other_event(id))
                + links_to(id, tag_ids@),
            final(self)@.events == old(self)@.events,
            final(self)@.event_images == old(self)@.event_images,
            final(self)@.same_but_events(old(self)@),
    {
        let ghost t0 = self@;
        self.keep_links_of_other_events(id);
        let ghost kept = self@.events_to_tags;
        let mut k: usize = 0;
        while k < tag_ids.len()
            invariant
                k <= tag_ids@.len(),
                self@.events == t0.events,
                self@.event_images == t0.event_images,
                self@.same_but_events(t0),
                kept == t0.events_to_tags.filter(link_of_other_event(id)),
                self@.events_to_tags == kept + links_to(id, tag_ids@.take(k as int)),
            decreases tag_ids@.len() - k,
        {
            self.events_to_tags.push(EventToTag { event_id: id, tag_id: tag_ids[k] });
            proof {
                assert(links_to(id, tag_ids@.take(k + 1)) =~= links_to(id, tag_ids@.take(k as int)).push(
                    EventToTag { event_id: id, tag_id: tag_ids@[k as int] },
                ));
                assert(self@.events_to_tags =~= kept + links_to(id, tag_ids@.take(k + 1)));
            }
            k += 1;
        }
        proof {
            assert(tag_ids@.take(tag_ids@.len() as int) =~= tag_ids@);
            let t1 = self@;
            assert(t1.users == t0.users && t1.tags == t0.tags && t1.events == t0.events);
            assert forall|a: int| 0 <= a < t1.events_to_tags.len() implies t1.has_event(
                (#[trigger] t1.events_to_tags[a]).event_id,
            ) && t1.has_tag(t1.events_to_tags[a].tag_id) by {
                if a < kept.len() {
                    assert(t1.events_to_tags[a] == kept[a]);
                    assert(kept.contains(kept[a]));
                    let b = choose|b: int|
                        0 <= b < t0.events_to_tags.len() && t0.events_to_tags[b] == kept[a];
                    assert(t0.has_event(t0.events_to_tags[b].event_id));
                    assert(t0.has_tag(t0.events_to_tags[b].tag_id));
                } else {
                    let m = a - kept.len();
                    assert(t1.events_to_tags[a] == links_to(id, tag_ids@)[m]);
                    assert(t0.has_tag(tag_ids@[m]));
                }
            }
            assert forall|a: int| 0 <= a < t1.event_images.len() implies t1.has_event(
                (#[trigger] t1.event_images[a]).event_id,
            ) by {
                assert(t0.has_event(t0.event_images[a].event_id));
            }
            assert forall|a: int| 0 <= a < t1.events.len() implies t1.has_user(
                (#[trigger] t1.events[a]).author_id,
            ) by {
                assert(t0.has_user(t0.events[a].author_id));
            }
            assert forall|a: int| 0 <= a < t1.refresh_tokens.len() implies t1.has_user(
                (#[trigger] t1.refresh_tokens[a]).user_id,
            ) by {
                assert(t0.has_user(t0.refresh_tokens[a].user_id));
            }
            assert forall|a: int| 0 <= a < t1.tags.len() && (#[trigger] t1.tags[a]).owner_id is Some implies t1.has_user(
                t1.tags[a].owner_id->Some_0,
            ) by {
                assert(t0.tags[a] == t1.tags[a]);
            }
            assert forall|a: int| 0 <= a < t1.tag_aliases.len() implies t1.has_tag(
                (#[trigger] t1.tag_aliases[a]).tag_id,
            ) by {
                assert(t0.has_tag(t0.tag_aliases[a].tag_id));
            }
        }
    }

    /// Changes the fields of the event `event_id` that `form` gives, at time `now`; a given
    /// tag list replaces all links of the event. The event must exist (`NotFound`), `user_id`
    /// must be its author (`Forbidden`), and every given tag must exist (`InvalidArgument`).
    /// A form with no field changes nothing, not even the time of change.
    pub fn update_event_at(
        &mut self,
        event_id: EventId,
        user_id: UserId,
        form: &entities::UpdateEventForm,
        now: i64,
    ) -> (r: ApiResult<()>)
        requires
            old(self)@.wf(),
        ensures
            final(self)@.wf(),
            r is Ok <==> authored_by(old(self)@, event_id, user_id) && (form.tag_ids is Some
                ==> all_tags_exist(old(self)@, form.tag_ids->Some_0@)),
            r is Ok ==> updated_event(
                old(self)@,
                final(self)@,
                event_id,
                opt_view(form.title),
                opt_view(form.description),
                form.with_attendance,
                opt_view(form.tag_ids),
                now,
            ),
            r is Err ==> final(self)@ == old(self)@,
            r is Err && !old(self)@.has_event(event_id) ==> r->Err_0 is NotFound,
            r is Err && old(self)@.has_event(event_id) && !authored_by(old(self)@, event_id, user_id)
                ==> r->Err_0 is Forbidden,
            r is Err && authored_by(old(self)@, event_id, user_id) ==> r->Err_0 is InvalidArgument,
            r is Err && authored_by(old(self)@, event_id, user_id) && form.tag_ids is Some
                ==> names_first_missing(old(self)@, form.tag_ids->Some_0@, r->Err_0),
    {
        let i = match self.event_index(event_id) {
            Some(i) => i,
            None => {
                return Err(ApiError::NotFound(String::from_str("no event with the given id")));
            },
        };
        if self.events[i].author_id != user_id {
            proof {
                if authored_by(self@, event_id, user_id) {
                    let j = choose|j: int|
                        0 <= j < self@.events.len() && (#[trigger] self@.events[j]).id == event_id
                            && self@.events[j].author_id == user_id;
                    assert(j == i);
                }
            }
            return Err(ApiError::Forbidden(String::from_str("only the author can change this event")));
        }
        assert(authored_by(self@, event_id, user_id));
        let tag_ids: Option<Vec<TagId>> = match &form.tag_ids {
            Some(ts) => Some(ts.as_vec()),
            None => None,
        };
        if let Some(ts) = &tag_ids {
            let mut k: usize = 0;
            while k < ts.len()
                invariant
                    self@ == old(self)@,
                    old(self)@.wf(),
                    authored_by(self@, event_id, user_id),
                    form.tag_ids is Some,
                    ts@ == form.tag_ids->Some_0@,
                    k <= ts@.len(),
                    forall|m: int| 0 <= m < k ==> self@.has_tag(#[trigger] ts@[m]),
                decreases ts@.len() - k,
            {
                if self.tag_index(ts[k]).is_none() {
                    assert(!self@.has_tag(ts@[k as int]));
                    let e = missing_tag_error(ts[k]);
                    proof {
                        assert forall|m: int| #[trigger] first_missing_tag(self@, ts@, m) implies m == k by {
                            if m > k {
                                assert(self@.has_tag(ts@[k as int]));
                            }
                        }
                    }
                    return Err(e);
                }
                k += 1;
            }
        }
        let attendance_same = match form.with_attendance {
            Some(w) => w == self.events[i].with_attendance,
            None => true,
        };
        proof {
            if attendance_same && form.with_attendance is Some {
                assert forall|j: int|
                    0 <= j < self@.events.len() && (#[trigger] self@.events[j]).id == event_id implies self@.events[j].with_attendance
                    == form.with_attendance->Some_0 by {
                    assert(j == i);
                }
            }
            if !attendance_same {
                assert(self@.events[i as int].id == event_id);
            }
        }
        if form.title.is_none() && form.description.is_none() && attendance_same && tag_ids.is_none() {
            return Ok(());
        }
        let title = match &form.title {
            Some(t) => Some(t.to_string()),
            None => None,
        };
        let description = match &form.description {
            Some(d) => Some(d.to_string()),
            None => None,
        };
        let title_ref = match &title {
            Some(t) => Some(t),
            None => None,
        };
        let description_ref = match &description {
            Some(d) => Some(d),
            None => None,
        };
        let ghost t0 = self@;
        self.rewrite_event(event_id, title_ref, description_ref, form.with_attendance, now);
        let ghost t1 = self@;
        if let Some(ts) = &tag_ids {
            proof {
                let j = choose|j: int|
                    0 <= j < t0.events.len() && (#[trigger] t0.events[j]).id == event_id
                        && t0.events[j].author_id == user_id;
                assert(t1.events[j].id == event_id);
                assert(t1.has_event(event_id));
            }
            self.replace_links(event_id, ts);
        }
        Ok(())
    }

    /// `update_event_at` at the current time.
    pub fn update_event(&mut self, event_id: EventId, user_id: UserId, form: entities::UpdateEventForm) -> (r:
        ApiResult<()>)
        requires
            old(self)@.wf(),
        ensures
            final(self)@.wf(),
            r is Ok <==> authored_by(old(self)@, event_id, user_id) && (form.tag_ids is Some
                ==> all_tags_exist(old(self)@, form.tag_ids->Some_0@)),
            r is Ok ==> exists|now: i64|
                updated_event(
                    old(self)@,
                    final(self)@,
                    event_id,
                    opt_view(form.title),
                    opt_view(form.description),
                    form.with_attendance,
                    opt_view(form.tag_ids),
                    now,
                ),
            r is Err ==> final(self)@ == old(self)@,
            r is Err && !old(self)@.has_event(event_id) ==> r->Err_0 is NotFound,
            r is Err && old(self)@.has_event(event_id) && !authored_by(old(self)@, event_id, user_id)
                ==> r->Err_0 is Forbidden,
            r is Err && authored_by(old(self)@, event_id, user_id) ==> r->Err_0 is InvalidArgument,
    {
        let now = now_micros();
        let ghost t0 = self@;
        let r = self.update_event_at(event_id, user_id, &form, now);
        proof {
            if r is Ok {
                assert(updated_event(
                    t0,
                    self@,
                    event_id,
                    opt_view(form.title),
                    opt_view(form.description),
                    form.with_attendance,
                    opt_view(form.tag_ids),
                    now,
                ));
            }
        }
        r
    }

    /// The largest position among the images of the event `id`, or -1.
    fn last_position(&self, id: EventId) -> (r: i16)
        requires
            self@.wf(),
        ensures
            r == max_position(self@.event_images, id),
            -1 <= r < EVENT_IMAGES_MAX,
    {
        let mut m: i16 = -1;
        let mut j: usize = 0;
        while j < self.event_images.len()
            invariant
                self@.wf(),
                j <= self@.event_images.len(),
                m == max_position(self@.event_images.take(j as int), id),
                -1 <= m < EVENT_IMAGES_MAX,
            decreases self@.event_images.len() - j,
        {
            proof {
                let s = self@.event_images.take(j + 1);
                assert(s.drop_last() =~= self@.event_images.take(j as int));
                assert(s.last() == self@.event_images[j as int]);
            }
            if self.event_images[j].event_id == id && self.event_images[j].position > m {
                m = self.event_images[j].position;
            }
            j += 1;
        }
        assert(self@.event_images.take(j as int) =~= self@.event_images);
        m
    }

    /// Adds the image `image_id` to the event `event_id` after its last image, at time
    /// `now`. The event must exist (`NotFound`) and `user_id` must be its author
    /// (`Forbidden`); a taken image id or a full event gives `AlreadyExists`.
    pub fn reserve_image_at(
        &mut self,
        event_id: EventId,
        image_id: EventImageId,
        user_id: UserId,
        now: i64,
    ) -> (r: ApiResult<()>)
        requires
            old(self)@.wf(),
        ensures
            reserve_image_post(old(self)@, event_id, image_id, user_id, now, r, final(self)@),
    {
        let i = match self.event_index(event_id) {
            Some(i) => i,
            None => {
                return Err(ApiError::NotFound(String::from_str("no event with the given id")));
            },
        };
        if self.events[i].author_id != user_id {
            proof {
                if authored_by(self@, event_id, user_id) {
                    let j = choose|j: int|
                        0 <= j < self@.events.len() && (#[trigger] self@.events[j]).id == event_id
                            && self@.events[j].author_id == user_id;
                    assert(j == i);
                }
            }
            return Err(ApiError::Forbidden(String::from_str("only the author can change this event")));
        }
        assert(authored_by(self@, event_id, user_id));
        if self.image_id_taken(image_id) {
            return Err(ApiError::AlreadyExists(String::from_str("an image with this id exists")));
        }
        let last = self.last_position(event_id);
        proof {
            lemma_image_count(self@, event_id);
        }
        if last + 1 >= EVENT_IMAGES_MAX as i16 {
            return Err(ApiError::AlreadyExists(String::from_str("the event has all the images it can have")));
        }
        let position = last + 1;
        let ghost t0 = self@;
        proof {
            lemma_max_position(t0.event_images, event_id);
        }
        self.event_images.push(EventImage { id: image_id, event_id, position });
        proof {
            let t1 = self@;
            let n = t0.event_images.len() as int;
            assert(t1.event_images == t0.event_images.push(
                EventImage { id: image_id, event_id, position },
            ));
            assert(t1.events == t0.events && t1.users == t0.users && t1.tags == t0.tags);
            assert(t1.refresh_tokens == t0.refresh_tokens && t1.tag_aliases == t0.tag_aliases);
            assert forall|a: int, b: int|
                0 <= a < t1.event_images.len() && 0 <= b < t1.event_images.len()
                    && (#[trigger] t1.event_images[a]).id == (#[trigger] t1.event_images[b]).id implies t1.event_images[a]
                == t1.event_images[b] by {
                if a < n {
                    assert(t1.event_images[a] == t0.event_images[a]);
                }
                if b < n {
                    assert(t1.event_images[b] == t0.event_images[b]);
                }
            }
            assert forall|a: int, b: int|
                0 <= a < t1.event_images.len() && 0 <= b < t1.event_images.len()
                    && (#[trigger] t1.event_images[a]).event_id == (#[trigger] t1.event_images[b]).event_id
                    && t1.event_images[a].position == t1.event_images[b].position implies t1.event_images[a]
                == t1.event_images[b] by {
                if a < n {
                    assert(t1.event_images[a] == t0.event_images[a]);
                }
                if b < n {
                    assert(t1.event_images[b] == t0.event_images[b]);
                }
            }
            assert forall|a: int|
                0 <= a < t1.event_images.len() && (#[trigger] t1.event_images[a]).position > 0 implies image_at(
                t1,
                t1.event_images[a].event_id,
                t1.event_images[a].position - 1,
            ) by {
                if a < n {
                    assert(t1.event_images[a] == t0.event_images[a]);
                    assert(image_at(t0, t0.event_images[a].event_id, t0.event_images[a].position - 1));
                    let j = choose|j: int|
                        0 <= j < t0.event_images.len() && (#[trigger] t0.event_images[j]).event_id
                            == t0.event_images[a].event_id && t0.event_images[j].position
                            == t0.event_images[a].position - 1;
                    assert(t1.event_images[j] == t0.event_images[j]);
                } else {
                    let j = choose|j: int|
                        0 <= j < t0.event_images.len() && (#[trigger] t0.event_images[j]).event_id
                            == event_id && t0.event_images[j].position == max_position(
                            t0.event_images,
                            event_id,
                        );
                    assert(t1.event_images[j] == t0.event_images[j]);
                }
            }
            assert forall|a: int| 0 <= a < t1.event_images.len() implies t1.has_event(
                (#[trigger] t1.event_images[a]).event_id,
            ) && 0 <= t1.event_images[a].position < EVENT_IMAGES_MAX by {
                if a < n {
                    assert(t1.event_images[a] == t0.event_images[a]);
                    assert(t0.has_event(t0.event_images[a].event_id));
                } else {
                    assert(t0.events[i as int].id == event_id);
                    assert(t0.has_event(event_id));
                }
            }
            assert(t1.events == t0.events && t1.users == t0.users && t1.tags == t0.tags);
            assert forall|a: int| 0 <= a < t1.events_to_tags.len() implies t1.has_event(
                (#[trigger] t1.events_to_tags[a]).event_id,
            ) && t1.has_tag(t1.events_to_tags[a].tag_id) by {
                assert(t0.has_event(t0.events_to_tags[a].event_id));
                assert(t0.has_tag(t0.events_to_tags[a].tag_id));
            }
        }
        let ghost t1 = self@;
        self.rewrite_event(event_id, None, None, None, now);
        proof {
            let t2 = self@;
            assert(rewrote_event(t1, t2, event_id, None, None, None, now));
            assert(t1.events == t0.events);
        }
        Ok(())
    }

    /// `reserve_image_at` at the current time.
    pub fn reserve_image(&mut self, event_id: EventId, image_id: EventImageId, user_id: UserId) -> (r:
        ApiResult<()>)
        requires
            old(self)@.wf(),
        ensures
            final(self)@.wf(),
            r is Ok <==> authored_by(old(self)@, event_id, user_id) && !old(self)@.has_image(image_id)
                && event_image_ids(old(self)@, event_id).len() < EVENT_IMAGES_MAX,
            r is Ok ==> exists|now: i64| reserved_image(old(self)@, final(self)@, event_id, image_id, now),
            r is Err ==> final(self)@ == old(self)@,
            r is Err && !old(self)@.has_event(event_id) ==> r->Err_0 is NotFound,
            r is Err && old(self)@.has_event(event_id) && !authored_by(old(self)@, event_id, user_id)
                ==> r->Err_0 is Forbidden,
            r is Err && authored_by(old(self)@, event_id, user_id) ==> r->Err_0 is AlreadyExists,
    {
        let now = now_micros();
        let ghost t0 = self@;
        let r = self.reserve_image_at(event_id, image_id, user_id, now);
        proof {
            if r is Ok {
                assert(reserved_image(t0, self@, event_id, image_id, now));
            }
        }
        r
    }

    /// Moves each image of the event `event_id` to the place of its id in `image_order`, at
    /// time `now`. The event must exist (`NotFound`), and `image_order` must list exactly its
    /// images (`InvalidArgument`).
    pub fn reorder_images_at(&mut self, event_id: EventId, image_order: &EventImageIds, now: i64) -> (r:
        ApiResult<()>)
        requires
            old(self)@.wf(),
        ensures
            final(self)@.wf(),
            r is Ok <==> old(self)@.has_event(event_id) && same_images(old(self)@, event_id, image_order@),
            r is Ok ==> reordered(old(self)@, final(self)@, event_id, image_order@) && rewrote_event(
                old(self)@,
                final(self)@,
                event_id,
                None,
                None,
                None,
                now,
            ) && final(self)@.events_to_tags == old(self)@.events_to_tags && final(self)@.same_but_events(
                old(self)@,
            ),
            r is Err ==> final(self)@ == old(self)@,
            r is Err && !old(self)@.has_event(event_id) ==> r->Err_0 is NotFound,
            r is Err && old(self)@.has_event(event_id) ==> r->Err_0 is InvalidArgument,
    {
        if self.event_index(event_id).is_none() {
            return Err(ApiError::NotFound(String::from_str("no event with the given id")));
        }
        assert(self@.has_event(event_id));
        let order = image_order.as_vec();
        let n = order.len();
        let mut k: usize = 0;
        while k < n
            invariant
                self@ == old(self)@,
                old(self)@.wf(),
                old(self)@.has_event(event_id),
                n == order@.len(),
                order@ == image_order@,
                k <= n,
                forall|m: int| 0 <= m < k ==> image_of_event(self@, event_id, #[trigger] order@[m]),
            decreases n - k,
        {
            let mut found = false;
            let mut j: usize = 0;
            while j < self.event_images.len()
                invariant
                    k < n,
                    n == order@.len(),
                    j <= self@.event_images.len(),
                    !found ==> forall|i: int|
                        0 <= i < j ==> !((#[trigger] self@.event_images[i]).id == order@[k as int]
                            && self@.event_images[i].event_id == event_id),
                    found ==> image_of_event(self@, event_id, order@[k as int]),
                decreases self@.event_images.len() - j,
            {
                if self.event_images[j].id == order[k] && self.event_images[j].event_id == event_id {
                    assert(self@.event_images[j as int].id == order@[k as int]);
                    found = true;
                }
                j += 1;
            }
            if !found {
                proof {
                    assert(!image_of_event(self@, event_id, order@[k as int]));
                }
                return Err(ApiError::InvalidArgument(String::from_str("the order must list exactly the images of the event")));
            }
            k += 1;
        }
        let mut j: usize = 0;
        while j < self.event_images.len()
            invariant
                self@ == old(self)@,
                old(self)@.wf(),
                old(self)@.has_event(event_id),
                n == order@.len(),
                order@ == image_order@,
                forall|m: int| 0 <= m < n ==> image_of_event(self@, event_id, #[trigger] order@[m]),
                j <= self@.event_images.len(),
                forall|i: int|
                    0 <= i < j && (#[trigger] self@.event_images[i]).event_id == event_id ==> order@.contains(
                        self@.event_images[i].id,
                    ),
            decreases self@.event_images.len() - j,
        {
            if self.event_images[j].event_id == event_id {
                let mut k: usize = 0;
                let mut found = false;
                while k < n
                    invariant
                        n == order@.len(),
                        k <= n,
                        j < self@.event_images.len(),
                        !found ==> forall|m: int| 0 <= m < k ==> order@[m] != self@.event_images[j as int].id,
                        found ==> order@.contains(self@.event_images[j as int].id),
                    decreases n - k,
                {
                    if order[k] == self.event_images[j].id {
                        assert(order@[k as int] == self@.event_images[j as int].id);
                        found = true;
                    }
                    k += 1;
                }
                if !found {
                    assert(self@.event_images[j as int].event_id == event_id);
                    assert(!order@.contains(self@.event_images[j as int].id));
                    return Err(ApiError::InvalidArgument(String::from_str("the order must list exactly the images of the event")));
                }
            }
            j += 1;
        }
        let ghost t0 = self@;
        let mut j: usize = 0;
        while j < self.event_images.len()
            invariant
                t0 == old(self)@,
                t0.wf(),
                n == order@.len(),
                order@ == image_order@,
                n <= EVENT_IMAGES_MAX,
                distinct(order@),
                same_images(t0, event_id, order@),
                j <= self@.event_images.len(),
                self@.event_images.len() == t0.event_images.len(),
                self@.events == t0.events,
                self@.events_to_tags == t0.events_to_tags,
                self@.same_but_events(t0),
                forall|i: int| j <= i < t0.event_images.len() ==> #[trigger] self@.event_images[i] == t0.event_images[i],
                forall|i: int|
                    0 <= i < j && (#[trigger] t0.event_images[i]).event_id != event_id
                        ==> self@.event_images[i] == t0.event_images[i],
                forall|i: int|
                    0 <= i < j && (#[trigger] t0.event_images[i]).event_id == event_id ==> {
                        &&& self@.event_images[i].id == t0.event_images[i].id
                        &&& self@.event_images[i].event_id == event_id
                        &&& 0 <= self@.event_images[i].position < order@.len()
                        &&& order@[self@.event_images[i].position as int] == t0.event_images[i].id
                    },
            decreases t0.event_images.len() - j,
        {
            if self.event_images[j].event_id == event_id {
                let image_id = self.event_images[j].id;
                proof {
                    assert(order@.contains(t0.event_images[j as int].id));
                }
                let mut k: usize = 0;
                let mut pos: usize = n;
                while k < n
                    invariant
                        n == order@.len(),
                        k <= n,
                        pos == n ==> forall|m: int| 0 <= m < k ==> order@[m] != image_id,
                        pos < n ==> order@[pos as int] == image_id,
                        pos <= n,
                    decreases n - k,
                {
                    if pos == n && order[k] == image_id {
                        pos = k;
                    }
                    k += 1;
                }
                if pos == n {
                    proof {
                        let m = choose|m: int| 0 <= m < order@.len() && order@[m] == image_id;
                    }
                }
                let position = pos as i16;
                self.event_images.set(j, EventImage { id: image_id, event_id, position });
            }
            j += 1;
        }
        proof {
            let t1 = self@;
            assert forall|a: int, b: int|
                0 <= a < t1.event_images.len() && 0 <= b < t1.event_images.len()
                    && (#[trigger] t1.event_images[a]).id == (#[trigger] t1.event_images[b]).id implies a
                == b by {
                assert(t1.event_images[a].id == t0.event_images[a].id);
                assert(t1.event_images[b].id == t0.event_images[b].id);
            }
            assert forall|a: int, b: int|
                0 <= a < t1.event_images.len() && 0 <= b < t1.event_images.len()
                    && (#[trigger] t1.event_images[a]).event_id == (#[trigger] t1.event_images[b]).event_id
                    && t1.event_images[a].position == t1.event_images[b].position implies a == b by {
                let ea = t0.event_images[a].event_id;
                let eb = t0.event_images[b].event_id;
                if ea == event_id && eb == event_id {
                    assert(t1.event_images[a].id == t1.event_images[b].id);
                    assert(t0.event_images[a].id == t0.event_images[b].id);
                } else if ea != event_id && eb != event_id {
                    assert(t1.event_images[a] == t0.event_images[a]);
                    assert(t1.event_images[b] == t0.event_images[b]);
                } else if ea == event_id {
                    assert(t1.event_images[b] == t0.event_images[b]);
                } else {
                    assert(t1.event_images[a] == t0.event_images[a]);
                }
            }
            assert forall|a: int| 0 <= a < t1.event_images.len() implies t1.has_event(
                (#[trigger] t1.event_images[a]).event_id,
            ) && 0 <= t1.event_images[a].position < EVENT_IMAGES_MAX by {
                assert(t0.has_event(t0.event_images[a].event_id));
            }
            assert forall|a: int|
                0 <= a < t1.event_images.len() && (#[trigger] t1.event_images[a]).position > 0 implies image_at(
                t1,
                t1.event_images[a].event_id,
                t1.event_images[a].position - 1,
            ) by {
                if t0.event_images[a].event_id != event_id {
                    assert(t1.event_images[a] == t0.event_images[a]);
                    assert(image_at(t0, t0.event_images[a].event_id, t0.event_images[a].position - 1));
                    let j = choose|j: int|
                        0 <= j < t0.event_images.len() && (#[trigger] t0.event_images[j]).event_id
                            == t0.event_images[a].event_id && t0.event_images[j].position
                            == t0.event_images[a].position - 1;
                    assert(t1.event_images[j] == t0.event_images[j]);
                } else {
                    let p = t1.event_images[a].position as int;
                    let x = order@[p - 1];
                    assert(image_of_event(t0, event_id, x));
                    let j = choose|j: int|
                        0 <= j < t0.event_images.len() && (#[trigger] t0.event_images[j]).id == x
                            && t0.event_images[j].event_id == event_id;
                    let q = t1.event_images[j].position as int;
                    assert(order@[q] == x);
                    assert(q == p - 1);
                    assert(t1.event_images[j].event_id == event_id);
                }
            }
            assert forall|a: int| 0 <= a < t1.events_to_tags.len() implies t1.has_event(
                (#[trigger] t1.events_to_tags[a]).event_id,
            ) && t1.has_tag(t1.events_to_tags[a].tag_id) by {
                assert(t0.has_event(t0.events_to_tags[a].event_id));
                assert(t0.has_tag(t0.events_to_tags[a].tag_id));
            }
        }
        self.rewrite_event(event_id, None, None, None, now);
        Ok(())
    }

    /// `reorder_images_at` at the current time.
    pub fn reorder_images(&mut self, event_id: EventId, image_order: EventImageIds) -> (r: ApiResult<()>)
        requires
            old(self)@.wf(),
        ensures
            final(self)@.wf(),
            r is Ok <==> old(self)@.has_event(event_id) && same_images(old(self)@, event_id, image_order@),
            r is Ok ==> reordered(old(self)@, final(self)@, event_id, image_order@),
            r is Ok ==> exists|now: i64|
                rewrote_event(old(self)@, final(self)@, event_id, None, None, None, now),
            r is Ok ==> final(self)@.events_to_tags == old(self)@.events_to_tags
                && final(self)@.same_but_events(old(self)@),
            r is Err ==> final(self)@ == old(self)@,
            r is Err && !old(self)@.has_event(event_id) ==> r->Err_0 is NotFound,
            r is Err && old(self)@.has_event(event_id) ==> r->Err_0 is InvalidArgument,
    {
        let now = now_micros();
        let ghost t0 = self@;
        let r = self.reorder_images_at(event_id, &image_order, now);
        proof {
            if r is Ok {
                assert(rewrote_event(t0, self@, event_id, None, None, None, now));
            }
        }
        r
    }

    /// Whether the event `id` is linked to one of `tags`.
    fn linked_to_any(&self, id: EventId, tags: &Vec<TagId>) -> (r: bool)
        ensures
            r == exists|k: int| 0 <= k < tags@.len() && self@.linked(id, #[trigger] tags@[k]),
    {
        let mut k: usize = 0;
        while k < tags.len()
            invariant
                k <= tags@.len(),
                forall|m: int| 0 <= m < k ==> !self@.linked(id, #[trigger] tags@[m]),
            decreases tags@.len() - k,
        {
            let mut j: usize = 0;
            while j < self.events_to_tags.len()
                invariant
                    k < tags@.len(),
                    j <= self@.events_to_tags.len(),
                    forall|m: int|
                        0 <= m < j ==> !((#[trigger] self@.events_to_tags[m]).event_id == id
                            && self@.events_to_tags[m].tag_id == tags@[k as int]),
                decreases self@.events_to_tags.len() - j,
            {
                if self.events_to_tags[j].event_id == id && self.events_to_tags[j].tag_id == tags[k] {
                    assert(self@.linked(id, tags@[k as int]));
                    return true;
                }
                j += 1;
            }
            k += 1;
        }
        false
    }

    /// Whether the event row at `i` passes the filters of a listing.
    fn event_passes(&self, i: usize, tags: &Vec<TagId>, search: &Option<Vec<char>>) -> (r: bool)
        requires
            i < self@.events.len(),
        ensures
            r == event_matches(
                self@,
                self@.events[i as int],
                tags@,
                match search {
                    Some(q) => Some(q@),
                    None => None,
                },
            ),
    {
        let row = &self.events[i];
        assert(self@.events[i as int] == *row);
        if tags.len() > 0 && !self.linked_to_any(row.id, tags) {
            return false;
        }
        match search {
            Some(q) => {
                let title = chars_of(row.title.as_str());
                if contains_folded_chars(&title, q) {
                    return true;
                }
                let description = chars_of(row.description.as_str());
                contains_folded_chars(&description, q)
            },
            None => true,
        }
    }

    /// A page of events in ascending order of id, in plain cursor mode: those after
    /// `last_id` that are linked to one of `tags` (when `tags` is not empty) and hold
    /// `search` in their title or description, the case of ASCII letters aside (when it is
    /// given); at most `limit` of them, each with its author, images and tags.
    pub fn list_events(
        &self,
        last_id: Option<EventId>,
        limit: Option<values::PgLimit>,
        tags: Vec<TagId>,
        search: Option<String>,
    ) -> (r: ApiResult<Vec<entities::Event>>)
        requires
            self@.wf(),
        ensures
            r is Ok,
            is_page(
                matching_event_ids(
                    self@,
                    tags@,
                    match search {
                        Some(q) => Some(q@),
                        None => None,
                    },
                ),
                match last_id {
                    Some(e) => Some(e.0),
                    None => None,
                },
                match limit {
                    Some(l) => Some(l.value()),
                    None => None,
                },
                r->Ok_0@.map_values(|e: entities::Event| e.id.0),
            ),
            forall|k: int| 0 <= k < r->Ok_0@.len() ==> shows_stored_event(#[trigger] r->Ok_0@[k], self@),
    {
        let query: Option<Vec<char>> = match &search {
            Some(q) => Some(chars_of(q.as_str())),
            None => None,
        };
        let ghost sv: Option<Seq<char>> = match search {
            Some(q) => Some(q@),
            None => None,
        };
        assert(sv == match query {
            Some(q) => Some(q@),
            None => None::<Seq<char>>,
        });
        let ghost pred = event_filter(self@, tags@, sv);
        let mut candidates: Vec<u128> = Vec::new();
        let mut i: usize = 0;
        while i < self.events.len()
            invariant
                i <= self@.events.len(),
                pred == event_filter(self@, tags@, sv),
                sv == match query {
                    Some(q) => Some(q@),
                    None => None::<Seq<char>>,
                },
                candidates@ == self@.events.take(i as int).filter(pred).map_values(
                    |row: models::Event| event_id_number(row),
                ),
            decreases self@.events.len() - i,
        {
            let ghost before = self@.events.take(i as int);
            proof {
                assert(self@.events.take(i + 1) =~= before.push(self@.events[i as int]));
                before.lemma_filter_push(self@.events[i as int], pred);
            }
            if self.event_passes(i, &tags, &query) {
                candidates.push(self.events[i].id.0);
                proof {
                    assert(candidates@ =~= self@.events.take(i + 1).filter(pred).map_values(
                        |row: models::Event| event_id_number(row),
                    ));
                }
            }
            i += 1;
        }
        assert(self@.events.take(i as int) =~= self@.events);
        let after = match last_id {
            Some(e) => Some(e.0),
            None => None,
        };
        let lim = match limit {
            Some(l) => Some(l.get()),
            None => None,
        };
        let ids = page_of(&candidates, after, lim);
        let mut out: Vec<entities::Event> = Vec::new();
        let mut k: usize = 0;
        while k < ids.len()
            invariant
                self@.wf(),
                k <= ids@.len(),
                forall|j: int| 0 <= j < ids@.len() ==> candidates@.contains(#[trigger] ids@[j]),
                candidates@ == self@.events.filter(pred).map_values(|row: models::Event| event_id_number(row)),
                out@.len() == k,
                forall|j: int| 0 <= j < k ==> (#[trigger] out@[j]).id.0 == ids@[j],
                forall|j: int| 0 <= j < k ==> shows_stored_event(#[trigger] out@[j], self@),
            decreases ids@.len() - k,
        {
            let ghost want = ids@[k as int];
            proof {
                let c = choose|c: int| 0 <= c < candidates@.len() && candidates@[c] == want;
                let f = self@.events.filter(pred);
                assert(f.contains(f[c]));
                let e = choose|e: int| 0 <= e < self@.events.len() && self@.events[e] == f[c];
                assert(self@.events[e].id.0 == want);
            }
            match self.event_index(EventId(ids[k])) {
                Some(i) => {
                    let e = self.event_entity(i);
                    proof {
                        assert(self@.events[i as int].id == e.id);
                    }
                    out.push(e);
                },
                None => {
                    proof {
                        let c = choose|c: int| 0 <= c < candidates@.len() && candidates@[c] == want;
                        let f = self@.events.filter(pred);
                        assert(f.contains(f[c]));
                        let e = choose|e: int| 0 <= e < self@.events.len() && self@.events[e] == f[c];
                        assert(self@.events[e].id == EventId(want));
                    }
                },
            }
            k += 1;
        }
        assert(out@.map_values(|e: entities::Event| e.id.0) =~= ids@);
        Ok(out)
    }
}

/// The error that reports the tag `id` missing.
fn missing_tag_error(id: TagId) -> (e: ApiError)
    ensures
        e is InvalidArgument,
        e->InvalidArgument_0@ == missing_tag_message(id),
{
    let text = uuid_string(id.0);
    ApiError::InvalidArgument(String::from_str("no tag with id ").concat(text.as_str()))
}

/// The characters of `s`.
fn chars_of(s: &str) -> (r: Vec<char>)
    ensures
        r@ == s@,
{
    let n = s.unicode_len();
    let mut out: Vec<char> = Vec::new();
    let mut i: usize = 0;
    while i < n
        invariant
            n == s@.len(),
            i <= n,
            out@ == s@.take(i as int),
        decreases n - i,
    {
        out.push(s.get_char(i));
        assert(out@ =~= s@.take(i + 1));
        i += 1;
    }
    assert(out@ =~= s@);
    out
}

fn fold(c: char) -> (r: u32)
    ensures
        r as int == fold_char(c),
{
    let x = c as u32;
    if 65 <= x && x <= 90 {
        x + 32
    } else {
        x
    }
}

/// Whether `needle` occurs in `hay`, the case of ASCII letters aside.
pub fn contains_folded_chars(hay: &Vec<char>, needle: &Vec<char>) -> (r: bool)
    ensures
        r == contains_folded(hay@, needle@),
{
    if needle.len() == 0 {
        assert(matches_at(hay@, needle@, 0));
        return true;
    }
    if needle.len() > hay.len() {
        return false;
    }
    let last = hay.len() - needle.len();
    assert(hay@.len() == hay.len());
    let mut i: usize = 0;
    while i <= last
        invariant
            last == hay@.len() - needle@.len(),
            last < hay@.len(),
            hay@.len() <= usize::MAX,
            i <= last + 1,
            forall|p: int| 0 <= p < i ==> !#[trigger] matches_at(hay@, needle@, p),
        decreases last + 1 - i,
    {
        let mut j: usize = 0;
        let mut ok = true;
        while j < needle.len()
            invariant
                last == hay@.len() - needle@.len(),
                last < hay@.len(),
                hay@.len() <= usize::MAX,
                i <= last,
                j <= needle@.len(),
                ok ==> forall|q: int| 0 <= q < j ==> #[trigger] fold_char(hay@[i + q]) == fold_char(needle@[q]),
                !ok ==> !matches_at(hay@, needle@, i as int),
            decreases needle@.len() - j,
        {
            if ok && fold(hay[i + j]) != fold(needle[j]) {
                ok = false;
            }
            j += 1;
        }
        if ok {
            assert(matches_at(hay@, needle@, i as int));
            return true;
        }
        i += 1;
    }
    false
}

} // verus!
