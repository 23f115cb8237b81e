use vstd::prelude::*;
use vstd::string::StringExecFns;

use super::{Database, Tables};
use crate::entities;
use crate::errors::{ApiError, ApiResult};
use crate::ids::{TagId, UserId};
use crate::models::{EventToTag, Tag, TagAlias};
use crate::outside::new_v7_id;
use crate::paging::{is_page, page_of};
use crate::values::{self, distinct, texts, TagAliases, TagName, TAG_NAME_MAX_LEN};

verus! {

broadcast use vstd::seq_lib::group_filter_ensures, Seq::lemma_filter_contains_rev;

/// The tag entity `t` shows the row `row` of `tables`, with every alias of that tag.
pub open spec fn shows_tag(t: entities::Tag, tables: Tables, row: Tag) -> bool {
    &&& t.id == row.id
    &&& t.name@ == row.name@
    &&& forall|a: Seq<char>| t.aliases@.contains(a) <==> tables.has_alias(row.id, a)
}

/// `t` shows some row of the tags table of `tables`.
pub open spec fn shows_stored_tag(t: entities::Tag, tables: Tables) -> bool {
    exists|i: int|
        0 <= i < tables.tags.len() && (#[trigger] tables.tags[i]).id == t.id && shows_tag(
            t,
            tables,
            tables.tags[i],
        )
}

/// The ids of all tags, in the order of the table.
pub open spec fn tag_ids(t: Tables) -> Seq<u128> {
    t.tags.map_values(|r: Tag| r.id.0)
}

pub open spec fn other_tag(id: TagId) -> spec_fn(Tag) -> bool {
    |r: Tag| r.id != id
}

pub open spec fn alias_of_other_tag(id: TagId) -> spec_fn(TagAlias) -> bool {
    |r: TagAlias| r.tag_id != id
}

pub open spec fn link_to_other_tag(id: TagId) -> spec_fn(EventToTag) -> bool {
    |r: EventToTag| r.tag_id != id
}

impl Tables {
    /// All tables but those of tags and aliases are as in `other`.
    pub open spec fn same_but_tags(self, other: Tables) -> bool {
        &&& self.users == other.users
        &&& self.refresh_tokens == other.refresh_tokens
        &&& self.events == other.events
        &&& self.event_images == other.event_images
        &&& self.events_to_tags == other.events_to_tags
    }

    /// `new` is `self` with the tag `id` added at the end, and one alias row for each of
    /// `aliases`, in order.
    pub open spec fn added_tag(
        self,
        new: Tables,
        id: TagId,
        name: Seq<char>,
        owner: UserId,
        aliases: Seq<Seq<char>>,
    ) -> bool {
        &&& new.tags.len() == self.tags.len() + 1
        &&& new.tags.drop_last() == self.tags
        &&& new.tags.last().id == id
        &&& new.tags.last().name@ == name
        &&& new.tags.last().owner_id == Some(owner)
        &&& new.tag_aliases.len() == self.tag_aliases.len() + aliases.len()
        &&& new.tag_aliases.take(self.tag_aliases.len() as int) == self.tag_aliases
        &&& forall|k: int|
            0 <= k < aliases.len() ==> (#[trigger] new.tag_aliases[self.tag_aliases.len() + k]).tag_id
                == id && new.tag_aliases[self.tag_aliases.len() + k].alias@ == aliases[k]
        &&& new.same_but_tags(self)
    }

    /// `self` without the tag `id`, its aliases and its links to events.
    pub open spec fn without_tag(self, id: TagId) -> Tables {
        Tables {
            tags: self.tags.filter(other_tag(id)),
            tag_aliases: self.tag_aliases.filter(alias_of_other_tag(id)),
            events_to_tags: self.events_to_tags.filter(link_to_other_tag(id)),
            ..self
        }
    }
}

/// The tag `id` exists and `user` owns it.
pub open spec fn tag_owned_by(t: Tables, id: TagId, user: UserId) -> bool {
    exists|i: int| 0 <= i < t.tags.len() && (#[trigger] t.tags[i]).id == id && t.tags[i].owner_id == Some(user)
}

/// What `create_tag` promises: a new tag under a fresh id with all its aliases, or an
/// error with nothing changed. A missing owner gives `InvalidArgument`, a taken name
/// `AlreadyExists`.
pub open spec fn create_tag_post(
    old: Tables,
    name: Seq<char>,
    aliases: Seq<Seq<char>>,
    owner: UserId,
    r: ApiResult<TagId>,
    new: Tables,
) -> bool {
    &&& new.wf()
    &&& r is Ok ==> !old.has_tag(r->Ok_0) && old.added_tag(new, r->Ok_0, name, owner, aliases)
    &&& r is Err ==> new == old
    &&& !old.has_user(owner) ==> r is Err && r->Err_0 is InvalidArgument
    &&& old.has_user(owner) && r is Err ==> r->Err_0 is AlreadyExists
    &&& old.has_tag_name(name) ==> r is Err
    &&& old.has_user(owner) && !old.has_tag_name(name) && r is Err ==> old.tags.len() > 0
}

impl Database {
    /// The aliases stored for the tag `id`.
    fn aliases_of(&self, id: TagId) -> (r: TagAliases)
        requires
            self@.wf(),
        ensures
            forall|a: Seq<char>| r@.contains(a) <==> self@.has_alias(id, a),
    {
        let mut out: Vec<values::TagAlias> = Vec::new();
        let mut i: usize = 0;
        while i < self.tag_aliases.len()
            invariant
                self@.wf(),
                i <= self@.tag_aliases.len(),
                distinct(texts(out@)),
                forall|k: int|
                    0 <= k < out@.len() ==> #[trigger] values::bounded_text(
                        texts(out@)[k],
                        TAG_NAME_MAX_LEN as nat,
                    ),
                forall|a: Seq<char>|
                    texts(out@).contains(a) <==> exists|k: int|
                        0 <= k < i && (#[trigger] self@.tag_aliases[k]).tag_id == id
                            && self@.tag_aliases[k].alias@ == a,
            decreases self@.tag_aliases.len() - i,
        {
            let row = &self.tag_aliases[i];
            assert(self@.tag_aliases[i as int] == *row);
            if row.tag_id == id {
                let mut seen = false;
                let mut j: usize = 0;
                while j < out.len()
                    invariant
                        j <= out@.len(),
                        !seen ==> forall|k: int| 0 <= k < j ==> texts(out@)[k] != row.alias@,
                        seen ==> texts(out@).contains(row.alias@),
                    decreases out@.len() - j,
                {
                    if out[j].same_text_as(&row.alias) {
                        assert(texts(out@)[j as int] == row.alias@);
                        seen = true;
                    }
                    j += 1;
                }
                if !seen {
                    let ghost before = out@;
                    out.push(values::TagAlias::new_unchecked(row.alias.clone()));
                    proof {
                        assert(texts(out@) =~= texts(before).push(row.alias@));
                        assert forall|a: Seq<char>|
                            texts(out@).contains(a) <==> exists|k: int|
                                0 <= k < i + 1 && (#[trigger] self@.tag_aliases[k]).tag_id == id
                                    && self@.tag_aliases[k].alias@ == a by {
                            if texts(out@).contains(a) && a != row.alias@ {
                                let k = choose|k: int|
                                    0 <= k < texts(out@).len() && texts(out@)[k] == a;
                                assert(texts(before)[k] == a);
                                assert(texts(before).contains(a));
                                let k2 = choose|k2: int|
                                    0 <= k2 < i && (#[trigger] self@.tag_aliases[k2]).tag_id == id
                                        && self@.tag_aliases[k2].alias@ == a;
                                assert(self@.tag_aliases[k2].tag_id == id);
                            }
                            if a != row.alias@ && exists|k: int|
                                0 <= k < i + 1 && (#[trigger] self@.tag_aliases[k]).tag_id == id
                                    && self@.tag_aliases[k].alias@ == a {
                                let k2 = choose|k2: int|
                                    0 <= k2 < i + 1 && (#[trigger] self@.tag_aliases[k2]).tag_id
                                        == id && self@.tag_aliases[k2].alias@ == a;
                                assert(k2 != i);
                                assert(self@.tag_aliases[k2].tag_id == id);
                                assert(texts(before).contains(a));
                                let k = choose|k: int|
                                    0 <= k < texts(before).len() && texts(before)[k] == a;
                                assert(texts(out@)[k] == a);
                            }
                            if a == row.alias@ {
                                assert(texts(out@)[before.len() as int] == a);
                                assert(self@.tag_aliases[i as int].tag_id == id);
                            }
                        }
                    }
                } else {
                    proof {
                        assert forall|a: Seq<char>|
                            texts(out@).contains(a) <==> exists|k: int|
                                0 <= k < i + 1 && (#[trigger] self@.tag_aliases[k]).tag_id == id
                                    && self@.tag_aliases[k].alias@ == a by {
                            if a == row.alias@ {
                                assert(self@.tag_aliases[i as int].alias@ == a);
                            }
                        }
                    }
                }
            }
            i += 1;
        }
        proof {
            assert forall|a: Seq<char>| texts(out@).contains(a) <==> self@.has_alias(id, a) by {
                if self@.has_alias(id, a) {
                    let k = choose|k: int|
                        0 <= k < self@.tag_aliases.len() && (#[trigger] self@.tag_aliases[k]).tag_id
                            == id && self@.tag_aliases[k].alias@ == a;
                }
            }
        }
        TagAliases::new_unchecked(out)
    }

    pub(crate) fn tag_entity(&self, i: usize) -> (r: entities::Tag)
        requires
            self@.wf(),
            i < self@.tags.len(),
        ensures
            shows_tag(r, self@, self@.tags[i as int]),
    {
        let row = &self.tags[i];
        assert(self@.tags[i as int] == *row);
        entities::Tag {
            id: row.id,
            name: TagName::new_unchecked(row.name.clone()),
            aliases: self.aliases_of(row.id),
        }
    }

    /// The tag `id` with all of its aliases, or `NotFound`.
    pub fn find_tag(&self, id: TagId) -> (r: ApiResult<entities::Tag>)
        requires
            self@.wf(),
        ensures
            r is Ok <==> self@.has_tag(id),
            r is Ok ==> exists|i: int|
                0 <= i < self@.tags.len() && (#[trigger] self@.tags[i]).id == id && shows_tag(
                    r->Ok_0,
                    self@,
                    self@.tags[i],
                ),
            r is Err ==> r->Err_0 is NotFound,
    {
        match self.tag_index(id) {
            Some(i) => Ok(self.tag_entity(i)),
            None => Err(ApiError::NotFound(String::from_str("no tag with the given id"))),
        }
    }

    /// A page of tags in ascending order of id: those after `last_id`, at most `limit` of
    /// them, each with all of its aliases.
    pub fn list_tags(&self, last_id: Option<TagId>, limit: Option<values::PgLimit>) -> (r: ApiResult<
        Vec<entities::Tag>,
    >)
        requires
            self@.wf(),
        ensures
            r is Ok,
            is_page(
                tag_ids(self@),
                match last_id {
                    Some(t) => Some(t.0),
                    None => None,
                },
                match limit {
                    Some(l) => Some(l.value()),
                    None => None,
                },
                r->Ok_0@.map_values(|t: entities::Tag| t.id.0),
            ),
            forall|k: int|
                0 <= k < r->Ok_0@.len() ==> shows_stored_tag(#[trigger] r->Ok_0@[k], self@),
    {
        let mut candidates: Vec<u128> = Vec::new();
        let mut i: usize = 0;
        while i < self.tags.len()
            invariant
                i <= self@.tags.len(),
                candidates@ == tag_ids(self@).take(i as int),
            decreases self@.tags.len() - i,
        {
            candidates.push(self.tags[i].id.0);
            proof {
                assert(tag_ids(self@).take(i + 1) =~= tag_ids(self@).take(i as int).push(
                    self@.tags[i as int].id.0,
                ));
            }
            i += 1;
        }
        assert(candidates@ =~= tag_ids(self@));
        let after = match last_id {
            Some(t) => Some(t.0),
            None => None,
        };
        let lim = match limit {
            Some(l) => Some(l.get()),
            None => None,
        };
        let ids = page_of(&candidates, after, lim);
        let mut out: Vec<entities::Tag> = Vec::new();
        let ghost mut rows: Seq<int> = Seq::empty();
        let mut k: usize = 0;
        while k < ids.len()
            invariant
                self@.wf(),
                k <= ids@.len(),
                forall|j: int| 0 <= j < ids@.len() ==> tag_ids(self@).contains(#[trigger] ids@[j]),
                out@.len() == k,
                forall|j: int| 0 <= j < k ==> (#[trigger] out@[j]).id.0 == ids@[j],
                rows.len() == k,
                forall|j: int|
                    0 <= j < k ==> 0 <= #[trigger] rows[j] < self@.tags.len() && self@.tags[rows[j]].id
                        == out@[j].id && shows_tag(out@[j], self@, self@.tags[rows[j]]),
            decreases ids@.len() - k,
        {
            let ghost want = ids@[k as int];
            proof {
                let i = choose|i: int| 0 <= i < tag_ids(self@).len() && tag_ids(self@)[i] == want;
                assert(self@.tags[i].id.0 == want);
            }
            match self.tag_index(TagId(ids[k])) {
                Some(i) => {
                    let t = self.tag_entity(i);
                    out.push(t);
                    proof {
                        rows = rows.push(i as int);
                        assert(out@[k as int].id.0 == ids@[k as int]);
                        assert(self@.tags[i as int].id == out@[k as int].id);
                    }
                },
                None => {
                    proof {
                        let i = choose|i: int|
                            0 <= i < tag_ids(self@).len() && tag_ids(self@)[i] == want;
                        assert(self@.tags[i].id == TagId(want));
                    }
                },
            }
            k += 1;
        }
        assert(out@.map_values(|t: entities::Tag| t.id.0) =~= ids@);
        proof {
            assert forall|j: int| 0 <= j < out@.len() implies shows_stored_tag(
                #[trigger] out@[j],
                self@,
            ) by {
                assert(0 <= rows[j] < self@.tags.len());
                assert(self@.tags[rows[j]].id == out@[j].id);
            }
        }
        Ok(out)
    }

    proof fn lemma_tag_pushed(old: Tables, new: Tables)
        requires
            new.tags.len() == old.tags.len() + 1,
            new.tags.drop_last() == old.tags,
        ensures
            forall|id: TagId| old.has_tag(id) ==> new.has_tag(id),
    {
        assert forall|id: TagId| old.has_tag(id) implies new.has_tag(id) by {
            let i = choose|i: int| 0 <= i < old.tags.len() && (#[trigger] old.tags[i]).id == id;
            assert(new.tags[i] == old.tags[i]);
        }
    }

    /// Adds the tag `id`, owned by `owner`, with the aliases of `form`. A missing owner
    /// gives `InvalidArgument`; a taken id or name gives `AlreadyExists`.
    pub fn create_tag_with_id(&mut self, id: TagId, form: &entities::NewTagForm, owner: UserId) -> (r:
        ApiResult<()>)
        requires
            old(self)@.wf(),
        ensures
            final(self)@.wf(),
            r is Ok <==> old(self)@.has_user(owner) && !old(self)@.has_tag(id)
                && !old(self)@.has_tag_name(form.name@),
            r is Ok ==> old(self)@.added_tag(final(self)@, id, form.name@, owner, form.aliases@),
            r is Err ==> final(self)@ == old(self)@,
            r is Err && !old(self)@.has_user(owner) ==> r->Err_0 is InvalidArgument,
            r is Err && old(self)@.has_user(owner) ==> r->Err_0 is AlreadyExists,
    {
        if self.user_index(owner).is_none() {
            return Err(ApiError::InvalidArgument(String::from_str("no user with the given id")));
        }
        if self.tag_index(id).is_some() {
            return Err(ApiError::AlreadyExists(String::from_str("a tag with this id exists")));
        }
        let name = form.name.to_string();
        if self.tag_name_taken(&name) {
            return Err(ApiError::AlreadyExists(String::from_str("this tag name is taken")));
        }
        let ghost t0 = self@;
        self.tags.push(Tag { id, name, owner_id: Some(owner) });
        let ghost t1 = self@;
        proof {
            assert(t1.tags.drop_last() =~= t0.tags);
            Self::lemma_tag_pushed(t0, t1);
        }
        let n = form.aliases.len();
        let mut k: usize = 0;
        while k < n
            invariant
                n == form.aliases@.len(),
                k <= n,
                self@.tags == t1.tags,
                self@.same_but_tags(t0),
                self@.tag_aliases.len() == t0.tag_aliases.len() + k,
                self@.tag_aliases.take(t0.tag_aliases.len() as int) == t0.tag_aliases,
                forall|m: int|
                    0 <= m < k ==> (#[trigger] self@.tag_aliases[t0.tag_aliases.len() + m]).tag_id
                        == id && self@.tag_aliases[t0.tag_aliases.len() + m].alias@
                        == form.aliases@[m] && values::bounded_text(
                        self@.tag_aliases[t0.tag_aliases.len() + m].alias@,
                        TAG_NAME_MAX_LEN as nat,
                    ),
            decreases n - k,
        {
            let a = form.aliases.get(k);
            let ghost before = self@.tag_aliases;
            self.tag_aliases.push(TagAlias { tag_id: id, alias: a });
            proof {
                assert(self@.tag_aliases.take(t0.tag_aliases.len() as int) =~= before.take(
                    t0.tag_aliases.len() as int,
                ));
                assert forall|m: int| 0 <= m < k + 1 implies (#[trigger] self@.tag_aliases[t0.tag_aliases.len()
                    + m]).tag_id == id && self@.tag_aliases[t0.tag_aliases.len() + m].alias@
                    == form.aliases@[m] && values::bounded_text(
                    self@.tag_aliases[t0.tag_aliases.len() + m].alias@,
                    TAG_NAME_MAX_LEN as nat,
                ) by {
                    if m < k {
                        assert(self@.tag_aliases[t0.tag_aliases.len() + m] == before[t0.tag_aliases.len()
                            + m]);
                    }
                }
            }
            k += 1;
        }
        proof {
            let t2 = self@;
            let base = t0.tag_aliases.len() as int;
            let last = t1.tags.len() - 1;
            assert(t1.tags[last].id == id);
            assert(t2.has_tag(id));
            assert forall|i: int| 0 <= i < base implies #[trigger] t2.tag_aliases[i] == t0.tag_aliases[i] by {
                assert(t2.tag_aliases.take(base)[i] == t2.tag_aliases[i]);
            }
            assert forall|i: int| 0 <= i < t2.tag_aliases.len() implies t2.has_tag(
                (#[trigger] t2.tag_aliases[i]).tag_id,
            ) && values::bounded_text(t2.tag_aliases[i].alias@, TAG_NAME_MAX_LEN as nat) by {
                if i < base {
                    assert(t2.tag_aliases[i] == t0.tag_aliases[i]);
                    assert(t0.has_tag(t0.tag_aliases[i].tag_id));
                } else {
                    assert(t2.tag_aliases[base + (i - base)].tag_id == id);
                }
            }
            assert forall|i: int, j: int|
                0 <= i < t2.tags.len() && 0 <= j < t2.tags.len() && (#[trigger] t2.tags[i]).id
                    == (#[trigger] t2.tags[j]).id implies t2.tags[i] == t2.tags[j] by {
                if i < last {
                    assert(t0.tags[i] == t2.tags[i]);
                }
                if j < last {
                    assert(t0.tags[j] == t2.tags[j]);
                }
            }
            assert forall|i: int, j: int|
                0 <= i < t2.tags.len() && 0 <= j < t2.tags.len() && (#[trigger] t2.tags[i]).name@
                    == (#[trigger] t2.tags[j]).name@ implies t2.tags[i] == t2.tags[j] by {
                if i < last {
                    assert(t0.tags[i] == t2.tags[i]);
                }
                if j < last {
                    assert(t0.tags[j] == t2.tags[j]);
                }
            }
            assert forall|i: int| 0 <= i < t2.tags.len() && (#[trigger] t2.tags[i]).owner_id is Some
                implies t2.has_user(t2.tags[i].owner_id->Some_0) && values::bounded_text(
                t2.tags[i].name@,
                TAG_NAME_MAX_LEN as nat,
            ) by {
                if i < last {
                    assert(t0.tags[i] == t2.tags[i]);
                }
            }
            assert forall|i: int| 0 <= i < t2.tags.len() implies values::bounded_text(
                (#[trigger] t2.tags[i]).name@,
                TAG_NAME_MAX_LEN as nat,
            ) by {
                if i < last {
                    assert(t0.tags[i] == t2.tags[i]);
                }
            }
            assert forall|i: int| 0 <= i < t2.events_to_tags.len() implies t2.has_tag(
                (#[trigger] t2.events_to_tags[i]).tag_id,
            ) by {
                assert(t0.has_tag(t0.events_to_tags[i].tag_id));
            }
            assert(t2.tag_aliases.take(base) == t0.tag_aliases);
        }
        Ok(())
    }

    /// Adds a tag under a newly generated time-ordered id, owned by `owner_id`, with the
    /// aliases of `form`, and returns the id.
    pub fn create_tag(&mut self, form: entities::NewTagForm, owner_id: UserId) -> (r: ApiResult<TagId>)
        requires
            old(self)@.wf(),
        ensures
            create_tag_post(old(self)@, form.name@, form.aliases@, owner_id, r, final(self)@),
    {
        let id = TagId(new_v7_id());
        let r = self.create_tag_with_id(id, &form, owner_id);
        proof {
            if r is Err && old(self)@.has_user(owner_id) && !old(self)@.has_tag_name(form.name@) {
                let i = choose|i: int| 0 <= i < old(self)@.tags.len() && (#[trigger] old(self)@.tags[i]).id == id;
            }
        }
        match r {
            Ok(()) => Ok(id),
            Err(e) => Err(e),
        }
    }

    fn keep_other_tags(&mut self, id: TagId)
        ensures
            final(self)@.tags == old(self)@.tags.filter(other_tag(id)),
            final(self)@.users == old(self)@.users,
            final(self)@.refresh_tokens == old(self)@.refresh_tokens,
            final(self)@.tag_aliases == old(self)@.tag_aliases,
            final(self)@.events == old(self)@.events,
            final(self)@.event_images == old(self)@.event_images,
            final(self)@.events_to_tags == old(self)@.events_to_tags,
    {
        let ghost start = self@.tags;
        let mut kept: Vec<Tag> = Vec::new();
        let mut rest = Vec::new();
        std::mem::swap(&mut rest, &mut self.tags);
        assert(rest@ == start);
        let n = rest.len();
        let mut i: usize = 0;
        let ghost pred = other_tag(id);
        while i < n
            invariant
                n == start.len(),
                i <= n,
                rest@.len() == n - i,
                forall|j: int| 0 <= j < rest@.len() ==> #[trigger] rest@[j] == start[j + i],
                kept@ == start.take(i as int).filter(pred),
                pred == other_tag(id),
                self.users@ == old(self).users@,
                self.refresh_tokens@ == old(self).refresh_tokens@,
                self.tag_aliases@ == old(self).tag_aliases@,
                self.events@ == old(self).events@,
                self.event_images@ == old(self).event_images@,
                self.events_to_tags@ == old(self).events_to_tags@,
            decreases n - i,
        {
            let r = rest.remove(0);
            proof {
                assert(r == start[i as int]);
                assert(start.take(i + 1) =~= start.take(i as int).push(r));
                start.take(i as int).lemma_filter_push(r, pred);
            }
            if r.id != id {
                kept.push(r);
            }
            i += 1;
        }
        assert(start.take(n as int) =~= start);
        self.tags = kept;
    }

    fn keep_aliases_of_other_tags(&mut self, id: TagId)
        ensures
            final(self)@.tag_aliases == old(self)@.tag_aliases.filter(alias_of_other_tag(id)),
            final(self)@.users == old(self)@.users,
            final(self)@.refresh_tokens == old(self)@.refresh_tokens,
            final(self)@.tags == old(self)@.tags,
            final(self)@.events == old(self)@.events,
            final(self)@.event_images == old(self)@.event_images,
            final(self)@.events_to_tags == old(self)@.events_to_tags,
    {
        let ghost start = self@.tag_aliases;
        let mut kept: Vec<TagAlias> = Vec::new();
        let mut rest = Vec::new();
        std::mem::swap(&mut rest, &mut self.tag_aliases);
        assert(rest@ == start);
        let n = rest.len();
        let mut i: usize = 0;
        let ghost pred = alias_of_other_tag(id);
        while i < n
            invariant
                n == start.len(),
                i <= n,
                rest@.len() == n - i,
                forall|j: int| 0 <= j < rest@.len() ==> #[trigger] rest@[j] == start[j + i],
                kept@ == start.take(i as int).filter(pred),
                pred == alias_of_other_tag(id),
                self.users@ == old(self).users@,
                self.refresh_tokens@ == old(self).refresh_tokens@,
                self.tags@ == old(self).tags@,
                self.events@ == old(self).events@,
                self.event_images@ == old(self).event_images@,
                self.events_to_tags@ == old(self).events_to_tags@,
            decreases n - i,
        {
            let r = rest.remove(0);
            proof {
                assert(r == start[i as int]);
                assert(start.take(i + 1) =~= start.take(i as int).push(r));
                start.take(i as int).lemma_filter_push(r, pred);
            }
            if r.tag_id != id {
                kept.push(r);
            }
            i += 1;
        }
        assert(start.take(n as int) =~= start);
        self.tag_aliases = kept;
    }

    fn keep_links_to_other_tags(&mut self, id: TagId)
        ensures
            final(self)@.events_to_tags == old(self)@.events_to_tags.filter(link_to_other_tag(id)),
            final(self)@.users == old(self)@.users,
            final(self)@.refresh_tokens == old(self)@.refresh_tokens,
            final(self)@.tags == old(self)@.tags,
            final(self)@.tag_aliases == old(self)@.tag_aliases,
            final(self)@.events == old(self)@.events,
            final(self)@.event_images == old(self)@.event_images,
    {
        let ghost start = self@.events_to_tags;
        let mut kept: Vec<EventToTag> = Vec::new();
        let mut rest = Vec::new();
        std::mem::swap(&mut rest, &mut self.events_to_tags);
        assert(rest@ == start);
        let n = rest.len();
        let mut i: usize = 0;
        let ghost pred = link_to_other_tag(id);
        while i < n
            invariant
                n == start.len(),
                i <= n,
                rest@.len() == n - i,
                forall|j: int| 0 <= j < rest@.len() ==> #[trigger] rest@[j] == start[j + i],
                kept@ == start.take(i as int).filter(pred),
                pred == link_to_other_tag(id),
                self.users@ == old(self).users@,
                self.refresh_tokens@ == old(self).refresh_tokens@,
                self.tags@ == old(self).tags@,
                self.tag_aliases@ == old(self).tag_aliases@,
                self.events@ == old(self).events@,
                self.event_images@ == old(self).event_images@,
            decreases n - i,
        {
            let r = rest.remove(0);
            proof {
                assert(r == start[i as int]);
                assert(start.take(i + 1) =~= start.take(i as int).push(r));
                start.take(i as int).lemma_filter_push(r, pred);
            }
            if r.tag_id != id {
                kept.push(r);
            }
            i += 1;
        }
        assert(start.take(n as int) =~= start);
        self.events_to_tags = kept;
    }

    proof fn lemma_without_tag_wf(t: Tables, id: TagId)
        requires
            t.wf(),
            super::keys_injective(t.tags, |r: Tag| r.id),
            super::keys_injective(t.tags, |r: Tag| r.name@),
        ensures
            t.without_tag(id).wf(),
            forall|x: TagId| x != id && t.has_tag(x) ==> t.without_tag(id).has_tag(x),
    {
        let n = t.without_tag(id);
        assert(n.users == t.users && n.events == t.events && n.event_images == t.event_images
            && n.refresh_tokens == t.refresh_tokens);
        assert(n.users_unique() && n.tokens_unique() && n.events_unique() && n.images_unique());
        assert(n.tokens_refs() && n.events_refs()) by {
            assert forall|i: int| 0 <= i < n.events.len() implies n.has_user(
                (#[trigger] n.events[i]).author_id,
            ) by {
                assert(t.has_user(t.events[i].author_id));
            }
            assert forall|i: int| 0 <= i < n.refresh_tokens.len() implies n.has_user(
                (#[trigger] n.refresh_tokens[i]).user_id,
            ) by {
                assert(t.has_user(t.refresh_tokens[i].user_id));
            }
        }
        assert(n.images_refs()) by {
            assert forall|i: int| 0 <= i < n.event_images.len() implies n.has_event(
                (#[trigger] n.event_images[i]).event_id,
            ) by {
                assert(t.has_event(t.event_images[i].event_id));
            }
        }
        assert forall|x: TagId| x != id && t.has_tag(x) implies n.has_tag(x) by {
            let i = choose|i: int| 0 <= i < t.tags.len() && (#[trigger] t.tags[i]).id == x;
            assert(other_tag(id)(t.tags[i]));
            assert(n.tags.contains(t.tags[i]));
        }
        super::lemma_filter_keys_injective(t.tags, other_tag(id), |r: Tag| r.id);
        super::lemma_filter_keys_injective(t.tags, other_tag(id), |r: Tag| r.name@);
        assert forall|i: int| 0 <= i < n.tags.len() implies (n.tags[i].owner_id is Some ==> n.has_user(
            n.tags[i].owner_id->Some_0,
        )) && values::bounded_text((#[trigger] n.tags[i]).name@, TAG_NAME_MAX_LEN as nat) by {
            assert(n.tags.contains(n.tags[i]));
            t.tags.lemma_filter_contains_rev(other_tag(id), n.tags[i]);
            assert(t.tags.contains(n.tags[i]));
            let a = choose|a: int| 0 <= a < t.tags.len() && t.tags[a] == n.tags[i];
            assert(t.tags[a] == n.tags[i]);
            assert(t.tags[a].owner_id is Some ==> t.has_user(t.tags[a].owner_id->Some_0));
            assert(n.users == t.users);
        }
        assert forall|i: int| 0 <= i < n.tag_aliases.len() implies n.has_tag(
            (#[trigger] n.tag_aliases[i]).tag_id,
        ) && values::bounded_text(n.tag_aliases[i].alias@, TAG_NAME_MAX_LEN as nat) by {
            assert(n.tag_aliases.contains(n.tag_aliases[i]));
            t.tag_aliases.lemma_filter_contains_rev(alias_of_other_tag(id), n.tag_aliases[i]);
            assert(t.tag_aliases.contains(n.tag_aliases[i]));
            assert(alias_of_other_tag(id)(n.tag_aliases[i]));
            let a = choose|a: int| 0 <= a < t.tag_aliases.len() && t.tag_aliases[a] == n.tag_aliases[i];
            assert(t.has_tag(t.tag_aliases[a].tag_id));
        }
        assert forall|i: int| 0 <= i < n.events_to_tags.len() implies n.has_event(
            (#[trigger] n.events_to_tags[i]).event_id,
        ) && n.has_tag(n.events_to_tags[i].tag_id) by {
            assert(n.events_to_tags.contains(n.events_to_tags[i]));
            t.events_to_tags.lemma_filter_contains_rev(link_to_other_tag(id), n.events_to_tags[i]);
            assert(t.events_to_tags.contains(n.events_to_tags[i]));
            assert(link_to_other_tag(id)(n.events_to_tags[i]));
            let a = choose|a: int|
                0 <= a < t.events_to_tags.len() && t.events_to_tags[a] == n.events_to_tags[i];
            assert(t.has_tag(t.events_to_tags[a].tag_id));
            assert(t.has_event(t.events_to_tags[a].event_id));
            assert(n.events == t.events);
            assert(t.events_to_tags[a].tag_id != id);
        }
    }

    /// Deletes the tag `id`, its aliases and its links to events, in one step. The tag must
    /// exist (`NotFound`) and be owned by `user_id` (`Forbidden`).
    pub fn delete_tag(&mut self, id: TagId, user_id: UserId) -> (r: ApiResult<()>)
        requires
            old(self)@.wf(),
        ensures
            final(self)@.wf(),
            r is Ok <==> tag_owned_by(old(self)@, id, user_id),
            r is Ok ==> final(self)@ == old(self)@.without_tag(id),
            r is Err ==> final(self)@ == old(self)@,
            r is Err && !old(self)@.has_tag(id) ==> r->Err_0 is NotFound,
            r is Err && old(self)@.has_tag(id) ==> r->Err_0 is Forbidden,
    {
        let i = match self.tag_index(id) {
            Some(i) => i,
            None => {
                return Err(ApiError::NotFound(String::from_str("no tag with the given id")));
            },
        };
        let owned = match self.tags[i].owner_id {
            Some(o) => o == user_id,
            None => false,
        };
        if !owned {
            proof {
                if tag_owned_by(self@, id, user_id) {
                    let j = choose|j: int|
                        0 <= j < self@.tags.len() && (#[trigger] self@.tags[j]).id == id
                            && self@.tags[j].owner_id == Some(user_id);
                    assert(self@.tags[j] == self@.tags[i as int]);
                }
            }
            return Err(ApiError::Forbidden(String::from_str("only the owner can delete this tag")));
        }
        let ghost t0 = self@;
        proof {
            assert(super::keys_injective(t0.tags, |r: Tag| r.id));
            assert(super::keys_injective(t0.tags, |r: Tag| r.name@));
            Self::lemma_without_tag_wf(t0, id);
        }
        self.keep_aliases_of_other_tags(id);
        self.keep_links_to_other_tags(id);
        self.keep_other_tags(id);
        assert(self@ == t0.without_tag(id));
        Ok(())
    }
}

} // verus!
