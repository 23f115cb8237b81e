use vstd::prelude::*;
use vstd::string::StringExecFns;

use super::{bytes_equal, same_login, Database, Tables};
use crate::entities;
use crate::errors::{ApiError, ApiResult};
use crate::ids::UserId;
use crate::models::{RefreshToken, User};
use crate::outside::new_v7_id;
use crate::values::{
    JsonWebTokenHash, UserDisplayName, UserLogin, UserPasswordHash, DISPLAY_NAME_MAX_LEN,
    LOGIN_MAX_LEN,
};

verus! {

/// The user entity `u` shows the row `row`.
pub open spec fn shows_user(u: entities::User, row: User) -> bool {
    &&& u.id == row.id
    &&& u.login@ == row.user_login@
    &&& u.display_name@ == row.display_name@
}

pub open spec fn user_row_is(
    row: User,
    id: UserId,
    login: Seq<char>,
    password_hash: Seq<char>,
    display_name: Seq<char>,
) -> bool {
    &&& row.id == id
    &&& row.user_login@ == login
    &&& row.password_argon2@ == password_hash
    &&& row.display_name@ == display_name
}

pub proof fn lemma_same_login_symmetric(a: Seq<char>, b: Seq<char>)
    ensures
        same_login(a, b) == same_login(b, a),
{
    if same_login(a, b) {
        assert forall|i: int| 0 <= i < b.len() implies #[trigger] super::fold_char(b[i])
            == super::fold_char(a[i]) by {
            assert(super::fold_char(a[i]) == super::fold_char(b[i]));
        }
    }
}

impl Tables {
    /// All tables but those of users and refresh tokens are as in `other`.
    pub open spec fn same_catalogue(self, other: Tables) -> bool {
        &&& self.tags == other.tags
        &&& self.tag_aliases == other.tag_aliases
        &&& self.events == other.events
        &&& self.event_images == other.event_images
        &&& self.events_to_tags == other.events_to_tags
    }

    /// `new` is `self` with one user row added at the end.
    pub open spec fn added_user(
        self,
        new: Tables,
        id: UserId,
        login: Seq<char>,
        password_hash: Seq<char>,
        display_name: Seq<char>,
    ) -> bool {
        &&& new.users.len() == self.users.len() + 1
        &&& new.users.drop_last() == self.users
        &&& user_row_is(new.users.last(), id, login, password_hash, display_name)
    }

    /// `new` holds `fingerprint` as the one refresh token of `user`, and the tokens of other
    /// users as in `self`.
    pub open spec fn put_token(self, new: Tables, user: UserId, fingerprint: Seq<u8>) -> bool {
        ||| exists|k: int|
            0 <= k < self.refresh_tokens.len() && (#[trigger] self.refresh_tokens[k]).user_id
                == user && new.refresh_tokens.len() == self.refresh_tokens.len()
                && new.refresh_tokens[k].user_id == user
                && new.refresh_tokens[k].token_blake3@ == fingerprint && forall|i: int|
                0 <= i < self.refresh_tokens.len() && i != k ==> new.refresh_tokens[i]
                    == self.refresh_tokens[i]
        ||| (forall|k: int|
            0 <= k < self.refresh_tokens.len() ==> (#[trigger] self.refresh_tokens[k]).user_id
                != user) && new.refresh_tokens.len() == self.refresh_tokens.len() + 1
            && new.refresh_tokens.drop_last() == self.refresh_tokens
            && new.refresh_tokens.last().user_id == user
            && new.refresh_tokens.last().token_blake3@ == fingerprint
    }
}

/// What `create_user` promises: a new user under a fresh id, or `AlreadyExists` with
/// nothing changed. A login that is already taken, in any case of its letters, is refused.
pub open spec fn create_user_post(
    old: Tables,
    login: Seq<char>,
    password_hash: Seq<char>,
    display_name: Seq<char>,
    r: ApiResult<UserId>,
    new: Tables,
) -> bool {
    &&& new.wf()
    &&& r is Ok ==> !old.has_user(r->Ok_0) && old.added_user(
        new,
        r->Ok_0,
        login,
        password_hash,
        display_name,
    ) && new.refresh_tokens == old.refresh_tokens && new.same_catalogue(old)
    &&& r is Err ==> r->Err_0 is AlreadyExists && new == old
    &&& old.has_login(login) ==> r is Err
    &&& r is Err && !old.has_login(login) ==> old.users.len() > 0
}

impl Database {
    proof fn lemma_user_pushed(old: Tables, new: Tables)
        requires
            new.users.len() == old.users.len() + 1,
            new.users.drop_last() == old.users,
        ensures
            forall|id: UserId| old.has_user(id) ==> new.has_user(id),
    {
        assert forall|id: UserId| old.has_user(id) implies new.has_user(id) by {
            let i = choose|i: int| 0 <= i < old.users.len() && (#[trigger] old.users[i]).id == id;
            assert(new.users[i] == old.users[i]);
        }
    }

    pub(crate) fn user_entity(&self, i: usize) -> (r: entities::User)
        requires
            self@.wf(),
            i < self@.users.len(),
        ensures
            shows_user(r, self@.users[i as int]),
    {
        let row = &self.users[i];
        assert(self@.users[i as int] == *row);
        entities::User {
            id: row.id,
            login: UserLogin::new_unchecked(row.user_login.clone()),
            display_name: UserDisplayName::new_unchecked(row.display_name.clone()),
        }
    }

    /// The user with id `id`, or `NotFound`.
    pub fn find_user(&self, id: UserId) -> (r: ApiResult<entities::User>)
        requires
            self@.wf(),
        ensures
            r is Ok <==> self@.has_user(id),
            r is Ok ==> exists|i: int|
                0 <= i < self@.users.len() && (#[trigger] self@.users[i]).id == id && shows_user(
                    r->Ok_0,
                    self@.users[i],
                ),
            r is Err ==> r->Err_0 is NotFound,
    {
        match self.user_index(id) {
            Some(i) => Ok(self.user_entity(i)),
            None => Err(ApiError::NotFound(String::from_str("no user with the given id"))),
        }
    }

    /// Every user, in the order of the table.
    pub fn list_users(&self) -> (r: ApiResult<Vec<entities::User>>)
        requires
            self@.wf(),
        ensures
            r is Ok,
            r->Ok_0@.len() == self@.users.len(),
            forall|i: int| 0 <= i < self@.users.len() ==> shows_user(r->Ok_0@[i], self@.users[i]),
    {
        let mut out: Vec<entities::User> = Vec::new();
        let mut i: usize = 0;
        while i < self.users.len()
            invariant
                self@.wf(),
                i <= self@.users.len(),
                out@.len() == i,
                forall|k: int| 0 <= k < i ==> shows_user(out@[k], self@.users[k]),
            decreases self@.users.len() - i,
        {
            let u = self.user_entity(i);
            out.push(u);
            i += 1;
        }
        Ok(out)
    }

    /// The id and stored password hash of the user with `login`, the case of ASCII letters
    /// aside. When there is none the error is `Forbidden`, the same as for wrong credentials.
    pub fn get_password_hash(&self, login: &UserLogin) -> (r: ApiResult<(UserId, UserPasswordHash)>)
        requires
            self@.wf(),
        ensures
            r is Ok <==> self@.has_login(login@),
            r is Ok ==> exists|i: int|
                0 <= i < self@.users.len() && same_login(
                    (#[trigger] self@.users[i]).user_login@,
                    login@,
                ) && r->Ok_0.0 == self@.users[i].id && r->Ok_0.1@ == self@.users[i].password_argon2@,
            r is Err ==> r->Err_0 is Forbidden,
    {
        match self.login_index(login.as_str()) {
            Some(i) => {
                let row = &self.users[i];
                assert(self@.users[i as int] == *row);
                Ok((row.id, UserPasswordHash::new(row.password_argon2.clone())))
            },
            None => Err(ApiError::Forbidden(String::from_str("wrong credentials"))),
        }
    }

    /// Adds the user `id` unless that id or the login is taken (`AlreadyExists`).
    pub fn create_user_with_id(
        &mut self,
        id: UserId,
        login: &UserLogin,
        password_hash: &UserPasswordHash,
        display_name: &UserDisplayName,
    ) -> (r: ApiResult<()>)
        requires
            old(self)@.wf(),
        ensures
            final(self)@.wf(),
            r is Ok <==> !old(self)@.has_user(id) && !old(self)@.has_login(login@),
            r is Ok ==> old(self)@.added_user(
                final(self)@,
                id,
                login@,
                password_hash@,
                display_name@,
            ) && final(self)@.refresh_tokens == old(self)@.refresh_tokens
                && final(self)@.same_catalogue(old(self)@),
            r is Err ==> r->Err_0 is AlreadyExists && final(self)@ == old(self)@,
    {
        if self.user_index(id).is_some() {
            return Err(ApiError::AlreadyExists(String::from_str("a user with this id exists")));
        }
        if self.login_index(login.as_str()).is_some() {
            return Err(ApiError::AlreadyExists(String::from_str("this login is taken")));
        }
        let ghost old_t = self@;
        let l = login.to_string();
        let n = display_name.to_string();
        self.users.push(
            User {
                id,
                user_login: l,
                password_argon2: String::from_str(password_hash.as_str()),
                display_name: n,
            },
        );
        proof {
            let new_t = self@;
            assert(new_t.same_catalogue(old_t));
            assert(new_t.refresh_tokens == old_t.refresh_tokens);
            assert(new_t.users.drop_last() =~= old_t.users);
            Self::lemma_user_pushed(old_t, new_t);
            let last = new_t.users.len() - 1;
            assert forall|i: int, j: int|
                0 <= i < new_t.users.len() && 0 <= j < new_t.users.len() && same_login(
                    (#[trigger] new_t.users[i]).user_login@,
                    (#[trigger] new_t.users[j]).user_login@,
                ) implies i == j by {
                if i < last && j == last {
                    assert(old_t.users[i] == new_t.users[i]);
                } else if j < last && i == last {
                    assert(old_t.users[j] == new_t.users[j]);
                    lemma_same_login_symmetric(new_t.users[i].user_login@, new_t.users[j].user_login@);
                } else if i < last && j < last {
                    assert(old_t.users[i] == new_t.users[i] && old_t.users[j] == new_t.users[j]);
                }
            }
            assert forall|i: int, j: int|
                0 <= i < new_t.users.len() && 0 <= j < new_t.users.len()
                    && (#[trigger] new_t.users[i]).id == (#[trigger] new_t.users[j]).id implies i
                == j by {
                if i < last && j < last {
                    assert(old_t.users[i] == new_t.users[i] && old_t.users[j] == new_t.users[j]);
                } else if i < last {
                    assert(old_t.users[i] == new_t.users[i]);
                } else if j < last {
                    assert(old_t.users[j] == new_t.users[j]);
                }
            }
            assert forall|i: int| 0 <= i < new_t.users.len() implies crate::values::bounded_text(
                (#[trigger] new_t.users[i]).user_login@,
                LOGIN_MAX_LEN as nat,
            ) && crate::values::bounded_text(
                new_t.users[i].display_name@,
                DISPLAY_NAME_MAX_LEN as nat,
            ) by {
                if i < last {
                    assert(old_t.users[i] == new_t.users[i]);
                }
            }
            assert(new_t.values_valid());
        }
        Ok(())
    }

    /// Adds a user under a newly generated time-ordered id and returns that id. A login
    /// that is taken, in any case of its letters, gives `AlreadyExists`.
    pub fn create_user(&mut self, form: entities::NewUserForm) -> (r: ApiResult<UserId>)
        requires
            old(self)@.wf(),
        ensures
            create_user_post(
                old(self)@,
                form.login@,
                form.password_hash@,
                form.display_name@,
                r,
                final(self)@,
            ),
    {
        let id = UserId(new_v7_id());
        let r = self.create_user_with_id(id, &form.login, &form.password_hash, &form.display_name);
        proof {
            if r is Err && !old(self)@.has_login(form.login@) {
                let i = choose|i: int| 0 <= i < old(self)@.users.len() && (#[trigger] old(self)@.users[i]).id == id;
            }
        }
        match r {
            Ok(()) => Ok(id),
            Err(e) => Err(e),
        }
    }

    /// Puts `token_hash` as the one refresh-token fingerprint of `user_id`, replacing any
    /// earlier one. A user that does not exist gives `InvalidArgument`.
    pub fn insert_refresh_token(&mut self, token_hash: &JsonWebTokenHash, user_id: UserId) -> (r:
        ApiResult<()>)
        requires
            old(self)@.wf(),
        ensures
            final(self)@.wf(),
            r is Ok <==> old(self)@.has_user(user_id),
            r is Ok ==> old(self)@.put_token(final(self)@, user_id, token_hash@)
                && final(self)@.users == old(self)@.users && final(self)@.same_catalogue(
                old(self)@,
            ),
            r is Err ==> r->Err_0 is InvalidArgument && final(self)@ == old(self)@,
    {
        if self.user_index(user_id).is_none() {
            return Err(ApiError::InvalidArgument(String::from_str("no user with the given id")));
        }
        self.put_token(token_hash, user_id);
        Ok(())
    }

    fn put_token(&mut self, token_hash: &JsonWebTokenHash, user_id: UserId)
        requires
            old(self)@.wf(),
            old(self)@.has_user(user_id),
        ensures
            final(self)@.wf(),
            old(self)@.put_token(final(self)@, user_id, token_hash@),
            final(self)@.users == old(self)@.users,
            final(self)@.same_catalogue(old(self)@),
    {
        let ghost old_t = self@;
        let bytes = token_hash.as_bytes().clone();
        assert(bytes@ == token_hash@);
        let mut i: usize = 0;
        while i < self.refresh_tokens.len()
            invariant
                self@ == old_t,
                old_t == old(self)@,
                old_t.wf(),
                old_t.has_user(user_id),
                bytes@ == token_hash@,
                i <= self@.refresh_tokens.len(),
                forall|k: int| 0 <= k < i ==> (#[trigger] self@.refresh_tokens[k]).user_id != user_id,
            decreases self@.refresh_tokens.len() - i,
        {
            if self.refresh_tokens[i].user_id == user_id {
                self.refresh_tokens.set(i, RefreshToken { user_id, token_blake3: bytes });
                proof {
                    let new_t = self@;
                    assert(old_t.refresh_tokens[i as int].user_id == user_id);
                    assert(new_t.same_catalogue(old_t));
                    assert(new_t.refresh_tokens.len() == old_t.refresh_tokens.len());
                    assert forall|a: int|
                        0 <= a < old_t.refresh_tokens.len() && a != i implies new_t.refresh_tokens[a]
                        == old_t.refresh_tokens[a] by {}
                    assert(new_t.users == old_t.users);
                    assert forall|a: int, b: int|
                        0 <= a < new_t.refresh_tokens.len() && 0 <= b < new_t.refresh_tokens.len()
                            && (#[trigger] new_t.refresh_tokens[a]).user_id
                            == (#[trigger] new_t.refresh_tokens[b]).user_id implies a == b by {
                        if a != i {
                            assert(old_t.refresh_tokens[a] == new_t.refresh_tokens[a]);
                        }
                        if b != i {
                            assert(old_t.refresh_tokens[b] == new_t.refresh_tokens[b]);
                        }
                    }
                    assert forall|a: int| 0 <= a < new_t.refresh_tokens.len() implies new_t.has_user(
                        (#[trigger] new_t.refresh_tokens[a]).user_id,
                    ) by {
                        if a != i {
                            assert(old_t.refresh_tokens[a] == new_t.refresh_tokens[a]);
                            assert(old_t.has_user(old_t.refresh_tokens[a].user_id));
                        }
                        assert(new_t.users == old_t.users);
                    }
                }
                return;
            }
            i += 1;
        }
        self.refresh_tokens.push(RefreshToken { user_id, token_blake3: bytes });
        proof {
            let new_t = self@;
            let last = new_t.refresh_tokens.len() - 1;
            assert(new_t.refresh_tokens.drop_last() =~= old_t.refresh_tokens);
            assert forall|a: int, b: int|
                0 <= a < new_t.refresh_tokens.len() && 0 <= b < new_t.refresh_tokens.len()
                    && (#[trigger] new_t.refresh_tokens[a]).user_id
                    == (#[trigger] new_t.refresh_tokens[b]).user_id implies a == b by {
                if a < last {
                    assert(old_t.refresh_tokens[a] == new_t.refresh_tokens[a]);
                }
                if b < last {
                    assert(old_t.refresh_tokens[b] == new_t.refresh_tokens[b]);
                }
            }
            assert(new_t.same_catalogue(old_t));
            assert forall|a: int| 0 <= a < new_t.refresh_tokens.len() implies new_t.has_user(
                (#[trigger] new_t.refresh_tokens[a]).user_id,
            ) by {
                if a < last {
                    assert(old_t.refresh_tokens[a] == new_t.refresh_tokens[a]);
                    assert(old_t.has_user(old_t.refresh_tokens[a].user_id));
                }
                assert(new_t.users == old_t.users);
            }
            assert(new_t.users == old_t.users);
            assert(forall|k: int|
                0 <= k < old_t.refresh_tokens.len() ==> (#[trigger] old_t.refresh_tokens[k]).user_id
                    != user_id);
            assert(new_t.refresh_tokens.last().token_blake3@ == token_hash@);
        }
    }

    /// Adds the user `user_id` and gives it `refresh_token_hash` as its refresh token, in one
    /// step. A taken id or login gives `AlreadyExists` and changes nothing.
    pub fn sign_up(
        &mut self,
        user_id: UserId,
        login: &UserLogin,
        password_hash: &UserPasswordHash,
        display_name: &UserDisplayName,
        refresh_token_hash: &JsonWebTokenHash,
    ) -> (r: ApiResult<()>)
        requires
            old(self)@.wf(),
        ensures
            final(self)@.wf(),
            r is Ok <==> !old(self)@.has_user(user_id) && !old(self)@.has_login(login@),
            r is Ok ==> old(self)@.added_user(
                final(self)@,
                user_id,
                login@,
                password_hash@,
                display_name@,
            ) && old(self)@.put_token(final(self)@, user_id, refresh_token_hash@)
                && final(self)@.same_catalogue(old(self)@),
            r is Err ==> r->Err_0 is AlreadyExists && final(self)@ == old(self)@,
    {
        let ghost t0 = self@;
        let res = self.create_user_with_id(user_id, login, password_hash, display_name);
        if res.is_err() {
            return res;
        }
        let ghost t1 = self@;
        proof {
            assert(t1.users[t1.users.len() - 1].id == user_id);
        }
        self.put_token(refresh_token_hash, user_id);
        proof {
            let t2 = self@;
            if exists|k: int|
                0 <= k < t1.refresh_tokens.len() && (#[trigger] t1.refresh_tokens[k]).user_id
                    == user_id {
                let k = choose|k: int|
                    0 <= k < t1.refresh_tokens.len() && (#[trigger] t1.refresh_tokens[k]).user_id
                        == user_id;
                assert(t1.has_user(t1.refresh_tokens[k].user_id));
                assert(t0.refresh_tokens[k].user_id == user_id);
                assert(t0.has_user(user_id));
            }
        }
        Ok(())
    }

    /// `Ok` when some user holds `token_hash` as refresh-token fingerprint, else `Auth`.
    pub fn check_refresh_token(&self, token_hash: &JsonWebTokenHash) -> (r: ApiResult<()>)
        requires
            self@.wf(),
        ensures
            r is Ok <==> self@.has_fingerprint(token_hash@),
            r is Err ==> r->Err_0 is Auth,
    {
        let mut i: usize = 0;
        while i < self.refresh_tokens.len()
            invariant
                i <= self@.refresh_tokens.len(),
                forall|k: int|
                    0 <= k < i ==> (#[trigger] self@.refresh_tokens[k]).token_blake3@ != token_hash@,
            decreases self@.refresh_tokens.len() - i,
        {
            if bytes_equal(&self.refresh_tokens[i].token_blake3, token_hash.as_bytes()) {
                assert(self@.refresh_tokens[i as int].token_blake3@ == token_hash@);
                return Ok(());
            }
            i += 1;
        }
        Err(ApiError::Auth(String::from_str("invalid refresh token")))
    }
}

} // verus!
