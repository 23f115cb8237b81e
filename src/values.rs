use vstd::prelude::*;
use vstd::string::{StrSliceExecFns, StringExecFns};

use crate::errors::ApiError;
use crate::ids::{EventImageId, TagId};

verus! {

/// Longest login, in characters.
pub const LOGIN_MAX_LEN: usize = 32;
/// Longest display name, in characters.
pub const DISPLAY_NAME_MAX_LEN: usize = 64;
/// Longest tag name or tag alias, in characters.
pub const TAG_NAME_MAX_LEN: usize = 32;
/// Longest event title, in characters.
pub const TITLE_MAX_LEN: usize = 128;
/// Longest event description, in characters.
pub const DESCRIPTION_MAX_LEN: usize = 4096;
/// Most aliases that one tag can have.
pub const TAG_ALIASES_MAX: usize = 16;
/// Most tags that one event can carry.
pub const EVENT_TAGS_MAX: usize = 10;
/// Most images that one event can have.
pub const EVENT_IMAGES_MAX: usize = 10;
/// Largest page that a listing returns.
pub const PG_LIMIT_MAX: u64 = 100;

/// A string of between 1 and `max` characters.
pub open spec fn bounded_text(s: Seq<char>, max: nat) -> bool {
    1 <= s.len() <= max
}

/// The items of `s` are pairwise distinct.
pub open spec fn distinct<T>(s: Seq<T>) -> bool {
    forall|i: int, j: int| 0 <= i < s.len() && 0 <= j < s.len() && i != j ==> s[i] != s[j]
}

fn check_bounded_text(s: &String, max: usize) -> (r: bool)
    ensures
        r == bounded_text(s@, max as nat),
{
    let n = s.as_str().unicode_len();
    1 <= n && n <= max
}

fn validation_error(what: &str) -> (r: ApiError)
    ensures
        r is Validation,
{
    ApiError::Validation(String::from_str(what))
}

/// A user's login: 1 to `LOGIN_MAX_LEN` characters.
pub struct UserLogin {
    inner: String,
}

impl View for UserLogin {
    type V = Seq<char>;

    closed spec fn view(&self) -> Seq<char> {
        self.inner@
    }
}

impl UserLogin {
    #[verifier::type_invariant]
    spec fn inv(&self) -> bool {
        bounded_text(self.inner@, LOGIN_MAX_LEN as nat)
    }

    /// Accepts `s` exactly when it has between 1 and `LOGIN_MAX_LEN` characters.
    pub fn new(s: String) -> (r: Result<UserLogin, ApiError>)
        ensures
            r is Ok <==> bounded_text(s@, LOGIN_MAX_LEN as nat),
            r is Ok ==> r->Ok_0@ == s@,
            r is Err ==> r->Err_0 is Validation,
    {
        if check_bounded_text(&s, LOGIN_MAX_LEN) {
            Ok(UserLogin { inner: s })
        } else {
            Err(validation_error("a login has between 1 and 32 characters"))
        }
    }

    /// Rebuilds a value that was validated before it was stored.
    pub(crate) fn new_unchecked(s: String) -> (r: UserLogin)
        requires
            bounded_text(s@, LOGIN_MAX_LEN as nat),
        ensures
            r@ == s@,
    {
        UserLogin { inner: s }
    }

    pub fn as_str(&self) -> (r: &str)
        ensures
            r@ == self@,
            bounded_text(self@, LOGIN_MAX_LEN as nat),
    {
        proof {
            use_type_invariant(self);
        }
        self.inner.as_str()
    }

    pub fn to_string(&self) -> (r: String)
        ensures
            r@ == self@,
            bounded_text(self@, LOGIN_MAX_LEN as nat),
    {
        proof {
            use_type_invariant(self);
        }
        self.inner.clone()
    }
}

/// The name a user shows to others: 1 to `DISPLAY_NAME_MAX_LEN` characters.
pub struct UserDisplayName {
    inner: String,
}

impl View for UserDisplayName {
    type V = Seq<char>;

    closed spec fn view(&self) -> Seq<char> {
        self.inner@
    }
}

impl UserDisplayName {
    #[verifier::type_invariant]
    spec fn inv(&self) -> bool {
        bounded_text(self.inner@, DISPLAY_NAME_MAX_LEN as nat)
    }

    /// Accepts `s` exactly when it has between 1 and `DISPLAY_NAME_MAX_LEN` characters.
    pub fn new(s: String) -> (r: Result<UserDisplayName, ApiError>)
        ensures
            r is Ok <==> bounded_text(s@, DISPLAY_NAME_MAX_LEN as nat),
            r is Ok ==> r->Ok_0@ == s@,
            r is Err ==> r->Err_0 is Validation,
    {
        if check_bounded_text(&s, DISPLAY_NAME_MAX_LEN) {
            Ok(UserDisplayName { inner: s })
        } else {
            Err(validation_error("a display name has between 1 and 64 characters"))
        }
    }

    /// Rebuilds a value that was validated before it was stored.
    pub(crate) fn new_unchecked(s: String) -> (r: UserDisplayName)
        requires
            bounded_text(s@, DISPLAY_NAME_MAX_LEN as nat),
        ensures
            r@ == s@,
    {
        UserDisplayName { inner: s }
    }

    pub fn as_str(&self) -> (r: &str)
        ensures
            r@ == self@,
            bounded_text(self@, DISPLAY_NAME_MAX_LEN as nat),
    {
        proof {
            use_type_invariant(self);
        }
        self.inner.as_str()
    }

    pub fn to_string(&self) -> (r: String)
        ensures
            r@ == self@,
            bounded_text(self@, DISPLAY_NAME_MAX_LEN as nat),
    {
        proof {
            use_type_invariant(self);
        }
        self.inner.clone()
    }
}

/// The name of a tag: 1 to `TAG_NAME_MAX_LEN` characters.
pub struct TagName {
    inner: String,
}

impl View for TagName {
    type V = Seq<char>;

    closed spec fn view(&self) -> Seq<char> {
        self.inner@
    }
}

impl TagName {
    #[verifier::type_invariant]
    spec fn inv(&self) -> bool {
        bounded_text(self.inner@, TAG_NAME_MAX_LEN as nat)
    }

    /// Accepts `s` exactly when it has between 1 and `TAG_NAME_MAX_LEN` characters.
    pub fn new(s: String) -> (r: Result<TagName, ApiError>)
        ensures
            r is Ok <==> bounded_text(s@, TAG_NAME_MAX_LEN as nat),
            r is Ok ==> r->Ok_0@ == s@,
            r is Err ==> r->Err_0 is Validation,
    {
        if check_bounded_text(&s, TAG_NAME_MAX_LEN) {
            Ok(TagName { inner: s })
        } else {
            Err(validation_error("a tag name has between 1 and 32 characters"))
        }
    }

    /// Rebuilds a value that was validated before it was stored.
    pub(crate) fn new_unchecked(s: String) -> (r: TagName)
        requires
            bounded_text(s@, TAG_NAME_MAX_LEN as nat),
        ensures
            r@ == s@,
    {
        TagName { inner: s }
    }

    pub fn as_str(&self) -> (r: &str)
        ensures
            r@ == self@,
            bounded_text(self@, TAG_NAME_MAX_LEN as nat),
    {
        proof {
            use_type_invariant(self);
        }
        self.inner.as_str()
    }

    pub fn to_string(&self) -> (r: String)
        ensures
            r@ == self@,
            bounded_text(self@, TAG_NAME_MAX_LEN as nat),
    {
        proof {
            use_type_invariant(self);
        }
        self.inner.clone()
    }
}

/// Another name under which a tag is found: 1 to `TAG_NAME_MAX_LEN` characters.
pub struct TagAlias {
    inner: String,
}

impl View for TagAlias {
    type V = Seq<char>;

    closed spec fn view(&self) -> Seq<char> {
        self.inner@
    }
}

impl TagAlias {
    #[verifier::type_invariant]
    spec fn inv(&self) -> bool {
        bounded_text(self.inner@, TAG_NAME_MAX_LEN as nat)
    }

    /// Accepts `s` exactly when it has between 1 and `TAG_NAME_MAX_LEN` characters.
    pub fn new(s: String) -> (r: Result<TagAlias, ApiError>)
        ensures
            r is Ok <==> bounded_text(s@, TAG_NAME_MAX_LEN as nat),
            r is Ok ==> r->Ok_0@ == s@,
            r is Err ==> r->Err_0 is Validation,
    {
        if check_bounded_text(&s, TAG_NAME_MAX_LEN) {
            Ok(TagAlias { inner: s })
        } else {
            Err(validation_error("a tag alias has between 1 and 32 characters"))
        }
    }

    /// Rebuilds a value that was validated before it was stored.
    pub(crate) fn new_unchecked(s: String) -> (r: TagAlias)
        requires
            bounded_text(s@, TAG_NAME_MAX_LEN as nat),
        ensures
            r@ == s@,
    {
        TagAlias { inner: s }
    }

    pub fn as_str(&self) -> (r: &str)
        ensures
            r@ == self@,
            bounded_text(self@, TAG_NAME_MAX_LEN as nat),
    {
        proof {
            use_type_invariant(self);
        }
        self.inner.as_str()
    }

    pub fn to_string(&self) -> (r: String)
        ensures
            r@ == self@,
            bounded_text(self@, TAG_NAME_MAX_LEN as nat),
    {
        proof {
            use_type_invariant(self);
        }
        self.inner.clone()
    }

    pub fn same_text_as(&self, other: &String) -> (r: bool)
        ensures
            r == (self@ == other@),
    {
        self.inner == *other
    }

    pub fn same_text(&self, other: &Self) -> (r: bool)
        ensures
            r == (self@ == other@),
    {
        self.inner == other.inner
    }
}

/// The title of an event: 1 to `TITLE_MAX_LEN` characters.
pub struct EventTitle {
    inner: String,
}

impl View for EventTitle {
    type V = Seq<char>;

    closed spec fn view(&self) -> Seq<char> {
        self.inner@
    }
}

impl EventTitle {
    #[verifier::type_invariant]
    spec fn inv(&self) -> bool {
        bounded_text(self.inner@, TITLE_MAX_LEN as nat)
    }

    /// Accepts `s` exactly when it has between 1 and `TITLE_MAX_LEN` characters.
    pub fn new(s: String) -> (r: Result<EventTitle, ApiError>)
        ensures
            r is Ok <==> bounded_text(s@, TITLE_MAX_LEN as nat),
            r is Ok ==> r->Ok_0@ == s@,
            r is Err ==> r->Err_0 is Validation,
    {
        if check_bounded_text(&s, TITLE_MAX_LEN) {
            Ok(EventTitle { inner: s })
        } else {
            Err(validation_error("an event title has between 1 and 128 characters"))
        }
    }

    /// Rebuilds a value that was validated before it was stored.
    pub(crate) fn new_unchecked(s: String) -> (r: EventTitle)
        requires
            bounded_text(s@, TITLE_MAX_LEN as nat),
        ensures
            r@ == s@,
    {
        EventTitle { inner: s }
    }

    pub fn as_str(&self) -> (r: &str)
        ensures
            r@ == self@,
            bounded_text(self@, TITLE_MAX_LEN as nat),
    {
        proof {
            use_type_invariant(self);
        }
        self.inner.as_str()
    }

    pub fn to_string(&self) -> (r: String)
        ensures
            r@ == self@,
            bounded_text(self@, TITLE_MAX_LEN as nat),
    {
        proof {
            use_type_invariant(self);
        }
        self.inner.clone()
    }
}

/// The description of an event: 1 to `DESCRIPTION_MAX_LEN` characters.
pub struct EventDescription {
    inner: String,
}

impl View for EventDescription {
    type V = Seq<char>;

    closed spec fn view(&self) -> Seq<char> {
        self.inner@
    }
}

impl EventDescription {
    #[verifier::type_invariant]
    spec fn inv(&self) -> bool {
        bounded_text(self.inner@, DESCRIPTION_MAX_LEN as nat)
    }

    /// Accepts `s` exactly when it has between 1 and `DESCRIPTION_MAX_LEN` characters.
    pub fn new(s: String) -> (r: Result<EventDescription, ApiError>)
        ensures
            r is Ok <==> bounded_text(s@, DESCRIPTION_MAX_LEN as nat),
            r is Ok ==> r->Ok_0@ == s@,
            r is Err ==> r->Err_0 is Validation,
    {
        if check_bounded_text(&s, DESCRIPTION_MAX_LEN) {
            Ok(EventDescription { inner: s })
        } else {
            Err(validation_error("an event description has between 1 and 4096 characters"))
        }
    }

    /// Rebuilds a value that was validated before it was stored.
    pub(crate) fn new_unchecked(s: String) -> (r: EventDescription)
        requires
            bounded_text(s@, DESCRIPTION_MAX_LEN as nat),
        ensures
            r@ == s@,
    {
        EventDescription { inner: s }
    }

    pub fn as_str(&self) -> (r: &str)
        ensures
            r@ == self@,
            bounded_text(self@, DESCRIPTION_MAX_LEN as nat),
    {
        proof {
            use_type_invariant(self);
        }
        self.inner.as_str()
    }

    pub fn to_string(&self) -> (r: String)
        ensures
            r@ == self@,
            bounded_text(self@, DESCRIPTION_MAX_LEN as nat),
    {
        proof {
            use_type_invariant(self);
        }
        self.inner.clone()
    }
}


/// Views of a sequence of text values.
pub open spec fn texts<T: View<V = Seq<char>>>(s: Seq<T>) -> Seq<Seq<char>> {
    s.map_values(|t: T| t@)
}

/// The aliases of a tag, pairwise distinct. A new list holds at most `TAG_ALIASES_MAX`.
pub struct TagAliases {
    inner: Vec<TagAlias>,
}

impl View for TagAliases {
    type V = Seq<Seq<char>>;

    closed spec fn view(&self) -> Seq<Seq<char>> {
        texts(self.inner@)
    }
}

impl TagAliases {
    #[verifier::type_invariant]
    spec fn inv(&self) -> bool {
        &&& distinct(texts(self.inner@))
        &&& forall|i: int| 0 <= i < self.inner@.len()
            ==> #[trigger] bounded_text(texts(self.inner@)[i], TAG_NAME_MAX_LEN as nat)
    }

    /// Accepts `v` exactly when it has at most `TAG_ALIASES_MAX` pairwise distinct aliases.
    pub fn new(v: Vec<TagAlias>) -> (r: Result<TagAliases, ApiError>)
        ensures
            r is Ok <==> (v@.len() <= TAG_ALIASES_MAX && distinct(texts(v@))),
            r is Ok ==> r->Ok_0@ == texts(v@),
            r is Err ==> r->Err_0 is Validation,
    {
        if v.len() > TAG_ALIASES_MAX {
            return Err(validation_error("a tag has at most 16 aliases"));
        }
        let n = v.len();
        let mut i: usize = 0;
        while i < n
            invariant
                n == v@.len(),
                i <= n,
                forall|a: int, b: int|
                    0 <= a < i && 0 <= b < n && a != b ==> texts(v@)[a] != texts(v@)[b],
                forall|k: int| 0 <= k < i ==> #[trigger] bounded_text(texts(v@)[k], TAG_NAME_MAX_LEN as nat),
            decreases n - i,
        {
            // The accessor's contract carries the alias's length bound.
            let _ = v[i].as_str();
            let mut j: usize = 0;
            while j < n
                invariant
                    n == v@.len(),
                    i < n,
                    j <= n,
                    forall|a: int, b: int|
                        0 <= a < i && 0 <= b < n && a != b ==> texts(v@)[a] != texts(v@)[b],
                    forall|b: int| 0 <= b < j && b != i ==> texts(v@)[i as int] != texts(v@)[b],
                decreases n - j,
            {
                if j != i && v[i].same_text(&v[j]) {
                    assert(texts(v@)[i as int] == texts(v@)[j as int]);
                    return Err(validation_error("the aliases of a tag are distinct"));
                }
                j += 1;
            }
            i += 1;
        }
        let r = TagAliases { inner: v };
        Ok(r)
    }

    /// No aliases at all.
    pub fn empty() -> (r: TagAliases)
        ensures
            r@ == Seq::<Seq<char>>::empty(),
    {
        let r = TagAliases { inner: Vec::new() };
        assert(r@ =~= Seq::<Seq<char>>::empty());
        r
    }

    /// Rebuilds an alias list that was validated before it was stored.
    pub(crate) fn new_unchecked(v: Vec<TagAlias>) -> (r: TagAliases)
        requires
            distinct(texts(v@)),
            forall|i: int| 0 <= i < v@.len() ==> #[trigger] bounded_text(texts(v@)[i], TAG_NAME_MAX_LEN as nat),
        ensures
            r@ == texts(v@),
    {
        TagAliases { inner: v }
    }

    pub fn len(&self) -> (r: usize)
        ensures
            r == self@.len(),
    {
        proof {
            use_type_invariant(self);
        }
        self.inner.len()
    }

    /// The alias at position `i`, as a string.
    pub fn get(&self, i: usize) -> (r: String)
        requires
            i < self@.len(),
        ensures
            r@ == self@[i as int],
            bounded_text(r@, TAG_NAME_MAX_LEN as nat),
    {
        proof {
            use_type_invariant(self);
        }
        self.inner[i].to_string()
    }
}

/// The tags of an event: at most `EVENT_TAGS_MAX` pairwise distinct ids.
pub struct EventTagIds {
    inner: Vec<TagId>,
}

impl View for EventTagIds {
    type V = Seq<TagId>;

    closed spec fn view(&self) -> Seq<TagId> {
        self.inner@
    }
}

impl EventTagIds {
    #[verifier::type_invariant]
    spec fn inv(&self) -> bool {
        self.inner@.len() <= EVENT_TAGS_MAX && distinct(self.inner@)
    }

    /// Accepts `v` exactly when it has at most `EVENT_TAGS_MAX` pairwise distinct ids.
    pub fn new(v: Vec<TagId>) -> (r: Result<EventTagIds, ApiError>)
        ensures
            r is Ok <==> (v@.len() <= EVENT_TAGS_MAX && distinct(v@)),
            r is Ok ==> r->Ok_0@ == v@,
            r is Err ==> r->Err_0 is Validation,
    {
        if v.len() > EVENT_TAGS_MAX || !all_distinct_tagid(&v) {
            return Err(validation_error("an event has at most 10 distinct tags"));
        }
        Ok(EventTagIds { inner: v })
    }

    /// Rebuilds a list that was validated before it was stored.
    pub(crate) fn new_unchecked(v: Vec<TagId>) -> (r: EventTagIds)
        requires
            v@.len() <= EVENT_TAGS_MAX,
            distinct(v@),
        ensures
            r@ == v@,
    {
        EventTagIds { inner: v }
    }

    pub fn len(&self) -> (r: usize)
        ensures
            r == self@.len(),
            r <= EVENT_TAGS_MAX,
    {
        proof {
            use_type_invariant(self);
        }
        self.inner.len()
    }

    pub fn get(&self, i: usize) -> (r: TagId)
        requires
            i < self@.len(),
        ensures
            r == self@[i as int],
    {
        self.inner[i]
    }

    pub fn as_vec(&self) -> (r: Vec<TagId>)
        ensures
            r@ == self@,
            r@.len() <= EVENT_TAGS_MAX,
            distinct(r@),
    {
        proof {
            use_type_invariant(self);
        }
        self.inner.clone()
    }
}

fn all_distinct_tagid(v: &Vec<TagId>) -> (r: bool)
    ensures
        r == distinct(v@),
{
    let n = v.len();
    let mut i: usize = 0;
    while i < n
        invariant
            n == v@.len(),
            i <= n,
            forall|a: int, b: int| 0 <= a < i && 0 <= b < n && a != b ==> v@[a] != v@[b],
        decreases n - i,
    {
        let mut j: usize = 0;
        while j < n
            invariant
                n == v@.len(),
                i < n,
                j <= n,
                forall|a: int, b: int| 0 <= a < i && 0 <= b < n && a != b ==> v@[a] != v@[b],
                forall|b: int| 0 <= b < j && b != i ==> v@[i as int] != v@[b],
            decreases n - j,
        {
            if j != i && v[i] == v[j] {
                return false;
            }
            j += 1;
        }
        i += 1;
    }
    true
}

/// The images of an event, in order: at most `EVENT_IMAGES_MAX` pairwise distinct ids.
pub struct EventImageIds {
    inner: Vec<EventImageId>,
}

impl View for EventImageIds {
    type V = Seq<EventImageId>;

    closed spec fn view(&self) -> Seq<EventImageId> {
        self.inner@
    }
}

impl EventImageIds {
    #[verifier::type_invariant]
    spec fn inv(&self) -> bool {
        self.inner@.len() <= EVENT_IMAGES_MAX && distinct(self.inner@)
    }

    /// Accepts `v` exactly when it has at most `EVENT_IMAGES_MAX` pairwise distinct ids.
    pub fn new(v: Vec<EventImageId>) -> (r: Result<EventImageIds, ApiError>)
        ensures
            r is Ok <==> (v@.len() <= EVENT_IMAGES_MAX && distinct(v@)),
            r is Ok ==> r->Ok_0@ == v@,
            r is Err ==> r->Err_0 is Validation,
    {
        if v.len() > EVENT_IMAGES_MAX || !all_distinct_eventimageid(&v) {
            return Err(validation_error("an event has at most 10 distinct images"));
        }
        Ok(EventImageIds { inner: v })
    }

    /// Rebuilds a list that was validated before it was stored.
    pub(crate) fn new_unchecked(v: Vec<EventImageId>) -> (r: EventImageIds)
        requires
            v@.len() <= EVENT_IMAGES_MAX,
            distinct(v@),
        ensures
            r@ == v@,
    {
        EventImageIds { inner: v }
    }

    pub fn len(&self) -> (r: usize)
        ensures
            r == self@.len(),
            r <= EVENT_IMAGES_MAX,
    {
        proof {
            use_type_invariant(self);
        }
        self.inner.len()
    }

    pub fn get(&self, i: usize) -> (r: EventImageId)
        requires
            i < self@.len(),
        ensures
            r == self@[i as int],
    {
        self.inner[i]
    }

    pub fn as_vec(&self) -> (r: Vec<EventImageId>)
        ensures
            r@ == self@,
            r@.len() <= EVENT_IMAGES_MAX,
            distinct(r@),
    {
        proof {
            use_type_invariant(self);
        }
        self.inner.clone()
    }
}

fn all_distinct_eventimageid(v: &Vec<EventImageId>) -> (r: bool)
    ensures
        r == distinct(v@),
{
    let n = v.len();
    let mut i: usize = 0;
    while i < n
        invariant
            n == v@.len(),
            i <= n,
            forall|a: int, b: int| 0 <= a < i && 0 <= b < n && a != b ==> v@[a] != v@[b],
        decreases n - i,
    {
        let mut j: usize = 0;
        while j < n
            invariant
                n == v@.len(),
                i < n,
                j <= n,
                forall|a: int, b: int| 0 <= a < i && 0 <= b < n && a != b ==> v@[a] != v@[b],
                forall|b: int| 0 <= b < j && b != i ==> v@[i as int] != v@[b],
            decreases n - j,
        {
            if j != i && v[i] == v[j] {
                return false;
            }
            j += 1;
        }
        i += 1;
    }
    true
}

/// The size of a page of a listing: 1 to `PG_LIMIT_MAX`.
#[derive(Clone, Copy, Debug, PartialEq, Eq, Structural)]
pub struct PgLimit {
    inner: u64,
}

impl PgLimit {
    pub closed spec fn value(self) -> nat {
        self.inner as nat
    }

    #[verifier::type_invariant]
    spec fn inv(&self) -> bool {
        1 <= self.inner <= PG_LIMIT_MAX
    }

    /// Accepts `n` exactly when it lies between 1 and `PG_LIMIT_MAX`.
    pub fn new(n: u64) -> (r: Result<PgLimit, ApiError>)
        ensures
            r is Ok <==> 1 <= n <= PG_LIMIT_MAX,
            r is Ok ==> r->Ok_0.value() == n,
            r is Err ==> r->Err_0 is Validation,
    {
        if 1 <= n && n <= PG_LIMIT_MAX {
            Ok(PgLimit { inner: n })
        } else {
            Err(validation_error("a page holds between 1 and 100 items"))
        }
    }

    pub fn get(&self) -> (r: u64)
        ensures
            r == self.value(),
            1 <= r <= PG_LIMIT_MAX,
    {
        proof {
            use_type_invariant(self);
        }
        self.inner
    }
}

/// A password hash, computed elsewhere and stored as it is.
#[derive(Clone, Debug)]
pub struct UserPasswordHash {
    inner: String,
}

impl View for UserPasswordHash {
    type V = Seq<char>;

    closed spec fn view(&self) -> Seq<char> {
        self.inner@
    }
}

impl UserPasswordHash {
    pub fn new(s: String) -> (r: UserPasswordHash)
        ensures
            r@ == s@,
    {
        UserPasswordHash { inner: s }
    }

    pub fn as_str(&self) -> (r: &str)
        ensures
            r@ == self@,
    {
        self.inner.as_str()
    }
}

/// The fingerprint of a refresh token, computed elsewhere and stored as it is.
#[derive(Clone, Debug)]
pub struct JsonWebTokenHash {
    inner: Vec<u8>,
}

impl View for JsonWebTokenHash {
    type V = Seq<u8>;

    closed spec fn view(&self) -> Seq<u8> {
        self.inner@
    }
}

impl JsonWebTokenHash {
    pub fn new(bytes: Vec<u8>) -> (r: JsonWebTokenHash)
        ensures
            r@ == bytes@,
    {
        JsonWebTokenHash { inner: bytes }
    }

    pub fn as_bytes(&self) -> (r: &Vec<u8>)
        ensures
            r@ == self@,
    {
        &self.inner
    }
}

} // verus!
