use vstd::prelude::*;

use crate::database::events::{
    attendance_kept, authored_by, create_event_post, event_filter, event_image_ids, lemma_image_count,
    matching_event_ids, max_position, next_position, reserve_image_post, updated_event,
};
use crate::database::tags::{alias_of_other_tag, create_tag_post, link_to_other_tag};
use crate::database::users::create_user_post;
use crate::database::{same_login, Tables};
use crate::entities;
use crate::errors::ApiResult;
use crate::ids::{EventId, EventImageId, TagId, UserId};
use crate::models::EventImage;
use crate::paging::{concat_pages, is_walk, lemma_walk_complete, strictly_increasing};
use crate::values::EVENT_IMAGES_MAX;

verus! {

broadcast use vstd::seq_lib::group_filter_ensures, Seq::lemma_filter_contains_rev;

/// Once a user is created, creating another user whose login is the same, the case of
/// ASCII letters aside, fails with `AlreadyExists` and changes nothing.
pub proof fn lemma_login_unique(
    t0: Tables,
    login1: Seq<char>,
    hash1: Seq<char>,
    name1: Seq<char>,
    r1: ApiResult<UserId>,
    t1: Tables,
    login2: Seq<char>,
    hash2: Seq<char>,
    name2: Seq<char>,
    r2: ApiResult<UserId>,
    t2: Tables,
)
    requires
        create_user_post(t0, login1, hash1, name1, r1, t1),
        r1 is Ok,
        same_login(login1, login2),
        create_user_post(t1, login2, hash2, name2, r2, t2),
    ensures
        r2 is Err,
        r2->Err_0 is AlreadyExists,
        t2 == t1,
{
    let last = t1.users.len() - 1;
    assert(t1.users[last].user_login@ == login1);
    assert(t1.has_login(login2));
}

/// Once a tag is created, creating another tag with the same name fails and changes
/// nothing; the failure is `AlreadyExists` whenever the second owner exists.
pub proof fn lemma_tag_name_unique(
    t0: Tables,
    name: Seq<char>,
    aliases1: Seq<Seq<char>>,
    owner1: UserId,
    r1: ApiResult<TagId>,
    t1: Tables,
    aliases2: Seq<Seq<char>>,
    owner2: UserId,
    r2: ApiResult<TagId>,
    t2: Tables,
)
    requires
        create_tag_post(t0, name, aliases1, owner1, r1, t1),
        r1 is Ok,
        create_tag_post(t1, name, aliases2, owner2, r2, t2),
    ensures
        r2 is Err,
        t2 == t1,
        t1.has_user(owner2) ==> r2->Err_0 is AlreadyExists,
{
    let last = t1.tags.len() - 1;
    assert(t1.tags[last].name@ == name);
    assert(t1.has_tag_name(name));
}

/// A user who is not the author of an event is never its author in the sense that
/// `update_event`, `delete_event` and `reserve_image` check: each of them then fails with
/// `Forbidden` and changes nothing.
pub proof fn lemma_only_author(t: Tables, id: EventId, author: UserId, other: UserId)
    requires
        t.wf(),
        authored_by(t, id, author),
        other != author,
    ensures
        t.has_event(id),
        !authored_by(t, id, other),
{
    let i = choose|i: int| 0 <= i < t.events.len() && (#[trigger] t.events[i]).id == id && t.events[i].author_id == author;
    if authored_by(t, id, other) {
        let j = choose|j: int| 0 <= j < t.events.len() && (#[trigger] t.events[j]).id == id && t.events[j].author_id == other;
        assert(i == j);
    }
}

/// When creating an event fails, no event appears: an id that was free stays free.
pub proof fn lemma_failed_create_adds_nothing(
    old: Tables,
    form: entities::NewEventForm,
    author: UserId,
    r: ApiResult<EventId>,
    new: Tables,
    id: EventId,
)
    requires
        create_event_post(old, form, author, r, new),
        r is Err,
        !old.has_event(id),
    ensures
        !new.has_event(id),
        new == old,
{
}

/// An update whose form gives no title, description or tags, and no attendance flag other
/// than the one the event has, leaves every table as it was, the time of change included.
pub proof fn lemma_empty_update_changes_nothing(
    old: Tables,
    new: Tables,
    id: EventId,
    with_attendance: Option<bool>,
)
    requires
        attendance_kept(old, id, with_attendance),
        exists|now: i64| updated_event(old, new, id, None, None, with_attendance, None, now),
    ensures
        new == old,
{
}

/// Listing events with no filter, page after page from no cursor, each time after the last
/// id returned, until an empty page, returns every event exactly once, in ascending order.
pub proof fn lemma_event_listing_complete(t: Tables, limit: nat, pages: Seq<Seq<u128>>)
    requires
        limit >= 1,
        is_walk(matching_event_ids(t, Seq::empty(), None), limit, pages),
    ensures
        strictly_increasing(concat_pages(pages)),
        forall|c: u128| t.has_event(EventId(c)) <==> #[trigger] concat_pages(pages).contains(c),
{
    let ids = matching_event_ids(t, Seq::empty(), None);
    let pred = event_filter(t, Seq::empty(), None);
    lemma_walk_complete(ids, limit, pages);
    assert forall|c: u128| t.has_event(EventId(c)) <==> #[trigger] ids.contains(c) by {
        let f = t.events.filter(pred);
        if t.has_event(EventId(c)) {
            let i = choose|i: int| 0 <= i < t.events.len() && (#[trigger] t.events[i]).id == EventId(c);
            assert(pred(t.events[i]));
            assert(f.contains(t.events[i]));
            let k = choose|k: int| 0 <= k < f.len() && f[k] == t.events[i];
            assert(ids[k] == c);
        }
        if ids.contains(c) {
            let k = choose|k: int| 0 <= k < ids.len() && ids[k] == c;
            assert(f.contains(f[k]));
            let i = choose|i: int| 0 <= i < t.events.len() && t.events[i] == f[k];
            assert(t.events[i].id == EventId(c));
        }
    }
}

proof fn lemma_max_position_push(images: Seq<EventImage>, id: EventId, row: EventImage)
    requires
        row.event_id == id,
        row.position == max_position(images, id) + 1,
    ensures
        max_position(images.push(row), id) == row.position,
{
    assert(images.push(row).drop_last() =~= images);
}

/// Reserving images for one event, each time under a fresh image id and by its author,
/// starting with no image: the first `EVENT_IMAGES_MAX` calls succeed and put the images at
/// positions 0, 1, 2, ... in turn; every later call fails with `AlreadyExists`.
pub proof fn lemma_image_capacity(
    ts: Seq<Tables>,
    rs: Seq<ApiResult<()>>,
    event_id: EventId,
    user: UserId,
    images: Seq<EventImageId>,
    nows: Seq<i64>,
)
    requires
        ts.len() == rs.len() + 1,
        images.len() == rs.len(),
        nows.len() == rs.len(),
        ts[0].wf(),
        authored_by(ts[0], event_id, user),
        event_image_ids(ts[0], event_id).len() == 0,
        forall|k: int|
            0 <= k < rs.len() ==> reserve_image_post(
                ts[k],
                event_id,
                images[k],
                user,
                nows[k],
                #[trigger] rs[k],
                ts[k + 1],
            ),
        forall|k: int| 0 <= k < rs.len() ==> !(#[trigger] ts[k]).has_image(images[k]),
    ensures
        forall|k: int|
            0 <= k < rs.len() && k < EVENT_IMAGES_MAX ==> (#[trigger] rs[k]) is Ok
                && ts[k + 1].event_images.last() == (EventImage {
                id: images[k],
                event_id,
                position: k as i16,
            }),
        forall|k: int|
            0 <= k < rs.len() && k >= EVENT_IMAGES_MAX ==> (#[trigger] rs[k]) is Err
                && rs[k]->Err_0 is AlreadyExists,
{
    lemma_image_count(ts[0], event_id);
    lemma_capacity_steps(ts, rs, event_id, user, images, nows, rs.len() as int);
}

proof fn lemma_capacity_steps(
    ts: Seq<Tables>,
    rs: Seq<ApiResult<()>>,
    event_id: EventId,
    user: UserId,
    images: Seq<EventImageId>,
    nows: Seq<i64>,
    n: int,
)
    requires
        ts.len() == rs.len() + 1,
        images.len() == rs.len(),
        nows.len() == rs.len(),
        0 <= n <= rs.len(),
        ts[0].wf(),
        authored_by(ts[0], event_id, user),
        event_image_ids(ts[0], event_id).len() == 0,
        forall|k: int|
            0 <= k < rs.len() ==> reserve_image_post(
                ts[k],
                event_id,
                images[k],
                user,
                nows[k],
                #[trigger] rs[k],
                ts[k + 1],
            ),
        forall|k: int| 0 <= k < rs.len() ==> !(#[trigger] ts[k]).has_image(images[k]),
    ensures
        ts[n].wf(),
        authored_by(ts[n], event_id, user),
        next_position(ts[n], event_id) == if n < EVENT_IMAGES_MAX { n } else { EVENT_IMAGES_MAX as int },
        forall|k: int|
            0 <= k < n && k < EVENT_IMAGES_MAX ==> (#[trigger] rs[k]) is Ok && ts[k + 1].event_images.last()
                == (EventImage { id: images[k], event_id, position: k as i16 }),
        forall|k: int| 0 <= k < n && k >= EVENT_IMAGES_MAX ==> (#[trigger] rs[k]) is Err && rs[k]->Err_0 is AlreadyExists,
    decreases n,
{
    lemma_image_count(ts[0], event_id);
    if n > 0 {
        let k = n - 1;
        lemma_capacity_steps(ts, rs, event_id, user, images, nows, k);
        assert(reserve_image_post(ts[k], event_id, images[k], user, nows[k], rs[k], ts[k + 1]));
        assert(!ts[k].has_image(images[k]));
        lemma_image_count(ts[k], event_id);
        if k < EVENT_IMAGES_MAX {
            assert(rs[k] is Ok);
            let row = EventImage { id: images[k], event_id, position: k as i16 };
            assert(ts[k + 1].event_images == ts[k].event_images.push(row));
            lemma_max_position_push(ts[k].event_images, event_id, row);
            let i = choose|i: int|
                0 <= i < ts[k].events.len() && (#[trigger] ts[k].events[i]).id == event_id
                    && ts[k].events[i].author_id == user;
            assert(ts[k + 1].events[i].id == event_id);
            assert(authored_by(ts[k + 1], event_id, user));
        } else {
            assert(rs[k] is Err);
        }
    }
}

/// After a tag is deleted, no alias and no link to an event names it.
pub proof fn lemma_delete_tag_cascades(t: Tables, id: TagId)
    ensures
        forall|i: int|
            0 <= i < t.without_tag(id).tag_aliases.len() ==> (#[trigger] t.without_tag(id).tag_aliases[i]).tag_id != id,
        forall|i: int|
            0 <= i < t.without_tag(id).events_to_tags.len() ==> (#[trigger] t.without_tag(id).events_to_tags[i]).tag_id
                != id,
        !t.without_tag(id).has_tag(id),
{
    let n = t.without_tag(id);
    assert forall|i: int| 0 <= i < n.tag_aliases.len() implies (#[trigger] n.tag_aliases[i]).tag_id != id by {
        assert(alias_of_other_tag(id)(n.tag_aliases[i]));
    }
    assert forall|i: int| 0 <= i < n.events_to_tags.len() implies (#[trigger] n.events_to_tags[i]).tag_id != id by {
        assert(link_to_other_tag(id)(n.events_to_tags[i]));
    }
    if n.has_tag(id) {
        let i = choose|i: int| 0 <= i < n.tags.len() && (#[trigger] n.tags[i]).id == id;
        assert(crate::database::tags::other_tag(id)(n.tags[i]));
    }
}

} // verus!
