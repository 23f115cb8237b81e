use evops_db::database::Database;
use evops_db::entities::{NewEventForm, NewTagForm, NewUserForm, UpdateEventForm};
use evops_db::errors::ApiError;
use evops_db::ids::{EventId, EventImageId, TagId, UserId};
use evops_db::values::{
    EventDescription, EventImageIds, EventTagIds, EventTitle, JsonWebTokenHash, PgLimit, TagAlias,
    TagAliases, TagName, UserDisplayName, UserLogin, UserPasswordHash, EVENT_IMAGES_MAX,
};

fn user_form(login: &str) -> NewUserForm {
    NewUserForm {
        login: UserLogin::new(login.to_string()).unwrap(),
        password_hash: UserPasswordHash::new(format!("hash-of-{login}")),
        display_name: UserDisplayName::new(format!("{login} display")).unwrap(),
    }
}

fn tag_form(name: &str, aliases: &[&str]) -> NewTagForm {
    let aliases = aliases
        .iter()
        .map(|a| TagAlias::new(a.to_string()).unwrap())
        .collect();
    NewTagForm {
        name: TagName::new(name.to_string()).unwrap(),
        aliases: TagAliases::new(aliases).unwrap(),
    }
}

fn event_form(title: &str, description: &str, tags: Vec<TagId>) -> NewEventForm {
    NewEventForm {
        title: EventTitle::new(title.to_string()).unwrap(),
        description: EventDescription::new(description.to_string()).unwrap(),
        with_attendance: false,
        tag_ids: EventTagIds::new(tags).unwrap(),
    }
}

fn empty_update() -> UpdateEventForm {
    UpdateEventForm { title: None, description: None, with_attendance: None, tag_ids: None }
}

fn is_not_found<T>(r: &Result<T, ApiError>) -> bool {
    matches!(r, Err(ApiError::NotFound(_)))
}

fn is_forbidden<T>(r: &Result<T, ApiError>) -> bool {
    matches!(r, Err(ApiError::Forbidden(_)))
}

fn is_already_exists<T>(r: &Result<T, ApiError>) -> bool {
    matches!(r, Err(ApiError::AlreadyExists(_)))
}

fn is_invalid_argument<T>(r: &Result<T, ApiError>) -> bool {
    matches!(r, Err(ApiError::InvalidArgument(_)))
}

#[test]
fn create_then_find_user() {
    let mut db = Database::new();
    let id = db.create_user(user_form("alice")).unwrap();
    let user = db.find_user(id).unwrap();
    assert_eq!(user.id, id);
    assert_eq!(user.login.as_str(), "alice");
    assert_eq!(user.display_name.as_str(), "alice display");
    assert_eq!(db.list_users().unwrap().len(), 1);
}

#[test]
fn generated_ids_differ() {
    let mut db = Database::new();
    let a = db.create_user(user_form("alice")).unwrap();
    let b = db.create_user(user_form("bob")).unwrap();
    assert_ne!(a, b);
    assert_ne!(a.0, 0);
}

#[test]
fn unknown_user_is_not_found() {
    let db = Database::new();
    assert!(is_not_found(&db.find_user(UserId(7))));
}

#[test]
fn same_login_in_other_case_is_refused() {
    let mut db = Database::new();
    db.create_user(user_form("Alice")).unwrap();
    let second = db.create_user(user_form("aLICE"));
    assert!(is_already_exists(&second));
    assert_eq!(db.list_users().unwrap().len(), 1);
}

#[test]
fn same_tag_name_is_refused() {
    let mut db = Database::new();
    let owner = db.create_user(user_form("alice")).unwrap();
    db.create_tag(tag_form("rust", &["rs"]), owner).unwrap();
    let second = db.create_tag(tag_form("rust", &["rustlang"]), owner);
    assert!(is_already_exists(&second));
    assert_eq!(db.list_tags(None, None).unwrap().len(), 1);
}

#[test]
fn tag_with_missing_owner_is_invalid_argument() {
    let mut db = Database::new();
    assert!(is_invalid_argument(&db.create_tag(tag_form("rust", &[]), UserId(3))));
}

#[test]
fn password_hash_by_login_ignores_case() {
    let mut db = Database::new();
    let id = db.create_user(user_form("alice")).unwrap();
    let login = UserLogin::new("ALICE".to_string()).unwrap();
    let (found, hash) = db.get_password_hash(&login).unwrap();
    assert_eq!(found, id);
    assert_eq!(hash.as_str(), "hash-of-alice");
}

#[test]
fn password_hash_of_unknown_login_is_forbidden() {
    let db = Database::new();
    let login = UserLogin::new("nobody".to_string()).unwrap();
    assert!(is_forbidden(&db.get_password_hash(&login)));
}

#[test]
fn sign_up_stores_user_and_token() {
    let mut db = Database::new();
    let login = UserLogin::new("carol".to_string()).unwrap();
    let hash = UserPasswordHash::new("h".to_string());
    let name = UserDisplayName::new("Carol".to_string()).unwrap();
    let token = JsonWebTokenHash::new(vec![1, 2, 3]);
    db.sign_up(UserId(42), &login, &hash, &name, &token).unwrap();
    assert!(db.find_user(UserId(42)).is_ok());
    assert!(db.check_refresh_token(&token).is_ok());
    let again = db.sign_up(UserId(43), &login, &hash, &name, &token);
    assert!(is_already_exists(&again));
    assert!(is_not_found(&db.find_user(UserId(43))));
}

#[test]
fn refresh_token_is_replaced() {
    let mut db = Database::new();
    let id = db.create_user(user_form("dave")).unwrap();
    let first = JsonWebTokenHash::new(vec![9, 9]);
    let second = JsonWebTokenHash::new(vec![7]);
    db.insert_refresh_token(&first, id).unwrap();
    assert!(db.check_refresh_token(&first).is_ok());
    db.insert_refresh_token(&second, id).unwrap();
    assert!(db.check_refresh_token(&second).is_ok());
    assert!(matches!(db.check_refresh_token(&first), Err(ApiError::Auth(_))));
}

#[test]
fn refresh_token_for_missing_user_is_invalid_argument() {
    let mut db = Database::new();
    let token = JsonWebTokenHash::new(vec![1]);
    assert!(is_invalid_argument(&db.insert_refresh_token(&token, UserId(5))));
    assert!(matches!(db.check_refresh_token(&token), Err(ApiError::Auth(_))));
}

#[test]
fn only_the_author_may_change_an_event() {
    let mut db = Database::new();
    let author = db.create_user(user_form("author")).unwrap();
    let other = db.create_user(user_form("other")).unwrap();
    let event = db.create_event(event_form("Meetup", "Talks", vec![]), author).unwrap();
    let before = db.find_event(event).unwrap();
    let update = UpdateEventForm {
        title: Some(EventTitle::new("Hijacked".to_string()).unwrap()),
        ..empty_update()
    };
    assert!(is_forbidden(&db.update_event(event, other, update)));
    assert!(is_forbidden(&db.delete_event(event, other)));
    assert!(is_forbidden(&db.reserve_image(event, EventImageId(1), other)));
    let after = db.find_event(event).unwrap();
    assert_eq!(after.title.as_str(), "Meetup");
    assert_eq!(after.modified_at, before.modified_at);
    assert_eq!(after.image_ids.len(), 0);
}

#[test]
fn failed_event_creation_leaves_no_event() {
    let mut db = Database::new();
    let author = db.create_user(user_form("author")).unwrap();
    let r = db.create_event(event_form("Meetup", "Talks", vec![TagId(99)]), author);
    assert!(is_invalid_argument(&r));
    let page = db.list_events(None, None, vec![], None).unwrap();
    assert!(page.is_empty());
    let form = event_form("Meetup", "Talks", vec![TagId(99)]);
    assert!(is_invalid_argument(&db.create_event_with_id(EventId(5), &form, author, 0)));
    assert!(is_not_found(&db.find_event(EventId(5))));
}

#[test]
fn event_with_missing_author_is_invalid_argument() {
    let mut db = Database::new();
    let r = db.create_event(event_form("Meetup", "Talks", vec![]), UserId(1));
    assert!(is_invalid_argument(&r));
}

#[test]
fn taken_event_id_is_already_exists() {
    let mut db = Database::new();
    let author = db.create_user(user_form("author")).unwrap();
    let form = event_form("A", "B", vec![]);
    db.create_event_with_id(EventId(5), &form, author, 10).unwrap();
    assert!(is_already_exists(&db.create_event_with_id(EventId(5), &form, author, 11)));
}

#[test]
fn empty_update_changes_nothing() {
    let mut db = Database::new();
    let author = db.create_user(user_form("author")).unwrap();
    let tag = db.create_tag(tag_form("rust", &[]), author).unwrap();
    let form = event_form("Meetup", "Talks", vec![tag]);
    db.create_event_with_id(EventId(10), &form, author, 1000).unwrap();
    db.update_event(EventId(10), author, empty_update()).unwrap();
    let after = db.find_event(EventId(10)).unwrap();
    assert_eq!(after.title.as_str(), "Meetup");
    assert_eq!(after.description.as_str(), "Talks");
    assert_eq!(after.modified_at, 1000);
    assert_eq!(after.created_at, 1000);
    assert_eq!(after.tags.len(), 1);
}

#[test]
fn partial_update_keeps_other_fields() {
    let mut db = Database::new();
    let author = db.create_user(user_form("author")).unwrap();
    let rust = db.create_tag(tag_form("rust", &[]), author).unwrap();
    let go = db.create_tag(tag_form("go", &[]), author).unwrap();
    let form = event_form("Meetup", "Talks", vec![rust]);
    db.create_event_with_id(EventId(10), &form, author, 1000).unwrap();
    let update = UpdateEventForm {
        title: Some(EventTitle::new("Workshop".to_string()).unwrap()),
        description: None,
        with_attendance: Some(true),
        tag_ids: Some(EventTagIds::new(vec![go]).unwrap()),
    };
    db.update_event_at(EventId(10), author, &update, 2000).unwrap();
    let after = db.find_event(EventId(10)).unwrap();
    assert_eq!(after.title.as_str(), "Workshop");
    assert_eq!(after.description.as_str(), "Talks");
    assert!(after.with_attendance);
    assert_eq!(after.created_at, 1000);
    assert_eq!(after.modified_at, 2000);
    assert_eq!(after.tags.len(), 1);
    assert_eq!(after.tags[0].id, go);
}

#[test]
fn update_with_missing_tag_changes_nothing() {
    let mut db = Database::new();
    let author = db.create_user(user_form("author")).unwrap();
    let form = event_form("Meetup", "Talks", vec![]);
    db.create_event_with_id(EventId(10), &form, author, 1000).unwrap();
    let update = UpdateEventForm {
        title: Some(EventTitle::new("Workshop".to_string()).unwrap()),
        tag_ids: Some(EventTagIds::new(vec![TagId(77)]).unwrap()),
        ..empty_update()
    };
    assert!(is_invalid_argument(&db.update_event_at(EventId(10), author, &update, 2000)));
    let after = db.find_event(EventId(10)).unwrap();
    assert_eq!(after.title.as_str(), "Meetup");
    assert_eq!(after.modified_at, 1000);
}

#[test]
fn update_of_missing_event_is_not_found() {
    let mut db = Database::new();
    let author = db.create_user(user_form("author")).unwrap();
    assert!(is_not_found(&db.update_event(EventId(1), author, empty_update())));
    assert!(is_not_found(&db.delete_event(EventId(1), author)));
    assert!(is_not_found(&db.reserve_image(EventId(1), EventImageId(1), author)));
}

#[test]
fn paging_returns_every_event_once_in_order() {
    let mut db = Database::new();
    let author = db.create_user(user_form("author")).unwrap();
    for id in [50u128, 10, 40, 20, 70, 30, 60] {
        db.create_event_with_id(EventId(id), &event_form("E", "D", vec![]), author, 0).unwrap();
    }
    let limit = PgLimit::new(3).unwrap();
    let mut seen = Vec::new();
    let mut cursor = None;
    loop {
        let page = db.list_events(cursor, Some(limit), vec![], None).unwrap();
        if page.is_empty() {
            break;
        }
        assert!(page.len() <= 3);
        cursor = Some(page.last().unwrap().id);
        seen.extend(page.iter().map(|e| e.id.0));
    }
    assert_eq!(seen, vec![10, 20, 30, 40, 50, 60, 70]);
}

#[test]
fn tag_paging_is_ascending_after_cursor() {
    let mut db = Database::new();
    let owner = db.create_user(user_form("owner")).unwrap();
    for (id, name) in [(30u128, "c"), (10, "a"), (20, "b")] {
        db.create_tag_with_id(TagId(id), &tag_form(name, &[]), owner).unwrap();
    }
    let page = db.list_tags(Some(TagId(10)), Some(PgLimit::new(1).unwrap())).unwrap();
    assert_eq!(page.len(), 1);
    assert_eq!(page[0].id, TagId(20));
    assert_eq!(page[0].name.as_str(), "b");
    let rest = db.list_tags(Some(TagId(20)), None).unwrap();
    assert_eq!(rest.len(), 1);
    assert_eq!(rest[0].id, TagId(30));
}

#[test]
fn listing_filters_by_tag_and_search() {
    let mut db = Database::new();
    let author = db.create_user(user_form("author")).unwrap();
    let rust = db.create_tag(tag_form("rust", &[]), author).unwrap();
    let go = db.create_tag(tag_form("go", &[]), author).unwrap();
    db.create_event_with_id(EventId(1), &event_form("Rust Meetup", "Talks", vec![rust]), author, 0)
        .unwrap();
    db.create_event_with_id(EventId(2), &event_form("Go night", "About RUST too", vec![go]), author, 0)
        .unwrap();
    db.create_event_with_id(EventId(3), &event_form("Picnic", "Food", vec![]), author, 0).unwrap();
    let by_tag = db.list_events(None, None, vec![go], None).unwrap();
    assert_eq!(by_tag.iter().map(|e| e.id.0).collect::<Vec<_>>(), vec![2]);
    let by_text = db.list_events(None, None, vec![], Some("rust".to_string())).unwrap();
    assert_eq!(by_text.iter().map(|e| e.id.0).collect::<Vec<_>>(), vec![1, 2]);
    let both = db.list_events(None, None, vec![rust], Some("RUST".to_string())).unwrap();
    assert_eq!(both.iter().map(|e| e.id.0).collect::<Vec<_>>(), vec![1]);
    let none = db.list_events(None, None, vec![], Some("concert".to_string())).unwrap();
    assert!(none.is_empty());
}

#[test]
fn images_fill_up_to_the_cap() {
    let mut db = Database::new();
    let author = db.create_user(user_form("author")).unwrap();
    db.create_event_with_id(EventId(1), &event_form("E", "D", vec![]), author, 0).unwrap();
    for k in 0..EVENT_IMAGES_MAX {
        db.reserve_image_at(EventId(1), EventImageId(100 + k as u128), author, 5 + k as i64)
            .unwrap();
    }
    let over = db.reserve_image_at(EventId(1), EventImageId(999), author, 99);
    assert!(is_already_exists(&over));
    let event = db.find_event(EventId(1)).unwrap();
    assert_eq!(event.image_ids.len(), EVENT_IMAGES_MAX);
    for k in 0..EVENT_IMAGES_MAX {
        assert_eq!(event.image_ids.get(k), EventImageId(100 + k as u128));
    }
    assert_eq!(event.modified_at, 5 + EVENT_IMAGES_MAX as i64 - 1);
}

#[test]
fn taken_image_id_is_already_exists() {
    let mut db = Database::new();
    let author = db.create_user(user_form("author")).unwrap();
    db.create_event_with_id(EventId(1), &event_form("E", "D", vec![]), author, 0).unwrap();
    db.create_event_with_id(EventId(2), &event_form("F", "D", vec![]), author, 0).unwrap();
    db.reserve_image(EventId(1), EventImageId(8), author).unwrap();
    assert!(is_already_exists(&db.reserve_image(EventId(2), EventImageId(8), author)));
}

#[test]
fn deleting_a_tag_removes_its_links_and_aliases() {
    let mut db = Database::new();
    let owner = db.create_user(user_form("owner")).unwrap();
    let tag = db.create_tag(tag_form("rust", &["rs", "rustlang"]), owner).unwrap();
    assert_eq!(db.find_tag(tag).unwrap().aliases.len(), 2);
    let event = db.create_event(event_form("Meetup", "Talks", vec![tag]), owner).unwrap();
    db.delete_tag(tag, owner).unwrap();
    assert!(is_not_found(&db.find_tag(tag)));
    assert!(db.find_event(event).unwrap().tags.is_empty());
    let again = db.create_tag_with_id(tag, &tag_form("rust", &[]), owner).unwrap();
    assert_eq!(again, ());
    assert_eq!(db.find_tag(tag).unwrap().aliases.len(), 0);
}

#[test]
fn only_the_owner_may_delete_a_tag() {
    let mut db = Database::new();
    let owner = db.create_user(user_form("owner")).unwrap();
    let other = db.create_user(user_form("other")).unwrap();
    let tag = db.create_tag(tag_form("rust", &[]), owner).unwrap();
    assert!(is_forbidden(&db.delete_tag(tag, other)));
    assert!(db.find_tag(tag).is_ok());
    assert!(is_not_found(&db.delete_tag(TagId(1), owner)));
}

#[test]
fn meetup_scenario() {
    let mut db = Database::new();
    let u = db.create_user(user_form("u")).unwrap();
    let t = db.create_tag(tag_form("rust", &[]), u).unwrap();
    let ev = db.create_event(event_form("Meetup", "A meetup", vec![t]), u).unwrap();
    let found = db.find_event(ev).unwrap();
    assert_eq!(found.tags.len(), 1);
    assert_eq!(found.tags[0].name.as_str(), "rust");
    assert_eq!(found.tags[0].aliases.len(), 0);
    assert_eq!(found.author.id, u);
    db.delete_tag(t, u).unwrap();
    let found = db.find_event(ev).unwrap();
    assert!(found.tags.is_empty());
}

#[test]
fn event_creation_time_is_now() {
    let mut db = Database::new();
    let u = db.create_user(user_form("u")).unwrap();
    let ev = db.create_event(event_form("Meetup", "A meetup", vec![]), u).unwrap();
    let found = db.find_event(ev).unwrap();
    // 2020-01-01 in microseconds since the epoch.
    assert!(found.created_at > 1_577_836_800_000_000);
    assert_eq!(found.created_at, found.modified_at);
}

#[test]
fn delete_event_returns_its_images_in_order() {
    let mut db = Database::new();
    let author = db.create_user(user_form("author")).unwrap();
    let tag = db.create_tag(tag_form("rust", &[]), author).unwrap();
    db.create_event_with_id(EventId(1), &event_form("E", "D", vec![tag]), author, 0).unwrap();
    db.reserve_image_at(EventId(1), EventImageId(30), author, 1).unwrap();
    db.reserve_image_at(EventId(1), EventImageId(10), author, 2).unwrap();
    let images = db.delete_event(EventId(1), author).unwrap();
    assert_eq!(images.as_vec(), vec![EventImageId(30), EventImageId(10)]);
    assert!(is_not_found(&db.find_event(EventId(1))));
    assert!(db.find_tag(tag).is_ok());
    db.create_event_with_id(EventId(2), &event_form("F", "D", vec![]), author, 0).unwrap();
    db.reserve_image_at(EventId(2), EventImageId(30), author, 3).unwrap();
}

#[test]
fn reorder_rewrites_positions() {
    let mut db = Database::new();
    let author = db.create_user(user_form("author")).unwrap();
    db.create_event_with_id(EventId(1), &event_form("E", "D", vec![]), author, 0).unwrap();
    for k in 1..=3u128 {
        db.reserve_image_at(EventId(1), EventImageId(k), author, 0).unwrap();
    }
    let order = EventImageIds::new(vec![EventImageId(3), EventImageId(1), EventImageId(2)]).unwrap();
    db.reorder_images_at(EventId(1), &order, 50).unwrap();
    let event = db.find_event(EventId(1)).unwrap();
    assert_eq!(event.image_ids.as_vec(), order.as_vec());
    assert_eq!(event.modified_at, 50);
    let partial = EventImageIds::new(vec![EventImageId(3), EventImageId(1)]).unwrap();
    assert!(is_invalid_argument(&db.reorder_images(EventId(1), partial)));
    let foreign = EventImageIds::new(vec![EventImageId(3), EventImageId(1), EventImageId(9)]).unwrap();
    assert!(is_invalid_argument(&db.reorder_images(EventId(1), foreign)));
    let empty = EventImageIds::new(vec![]).unwrap();
    assert!(is_not_found(&db.reorder_images(EventId(2), empty)));
}

#[test]
fn value_types_reject_bad_input() {
    assert!(matches!(UserLogin::new(String::new()), Err(ApiError::Validation(_))));
    assert!(UserLogin::new("a".repeat(32)).is_ok());
    assert!(UserLogin::new("a".repeat(33)).is_err());
    assert!(EventTitle::new("t".repeat(129)).is_err());
    assert!(EventDescription::new("d".repeat(4096)).is_ok());
    let dup = vec![TagAlias::new("x".to_string()).unwrap(), TagAlias::new("x".to_string()).unwrap()];
    assert!(TagAliases::new(dup).is_err());
    let many: Vec<TagAlias> = (0..17).map(|k| TagAlias::new(format!("a{k}")).unwrap()).collect();
    assert!(TagAliases::new(many).is_err());
    assert!(EventTagIds::new(vec![TagId(1), TagId(1)]).is_err());
    assert!(EventImageIds::new((0..11).map(EventImageId).collect()).is_err());
    assert!(PgLimit::new(0).is_err());
    assert!(PgLimit::new(100).is_ok());
    assert!(PgLimit::new(101).is_err());
    assert!(matches!(TagName::new(String::new()), Err(ApiError::Validation(_))));
}

#[test]
fn error_message_is_kept() {
    let e = ApiError::Forbidden("no".to_string());
    assert_eq!(e.message(), "no");
}

#[test]
fn missing_tag_error_names_the_first_missing_tag() {
    let mut db = Database::new();
    let author = db.create_user(user_form("author")).unwrap();
    let rust = db.create_tag(tag_form("rust", &[]), author).unwrap();
    let form = event_form("Meetup", "Talks", vec![rust, TagId(99), TagId(100)]);
    match db.create_event_with_id(EventId(1), &form, author, 0) {
        Err(ApiError::InvalidArgument(m)) => {
            assert_eq!(m, "no tag with id 00000000-0000-0000-0000-000000000063")
        }
        _ => panic!("expected InvalidArgument"),
    }
    db.create_event_with_id(EventId(1), &event_form("E", "D", vec![]), author, 0).unwrap();
    let update = UpdateEventForm {
        tag_ids: Some(EventTagIds::new(vec![TagId(255), rust]).unwrap()),
        ..empty_update()
    };
    match db.update_event_at(EventId(1), author, &update, 5) {
        Err(ApiError::InvalidArgument(m)) => {
            assert_eq!(m, "no tag with id 00000000-0000-0000-0000-0000000000ff")
        }
        _ => panic!("expected InvalidArgument"),
    }
}

#[test]
fn time_of_change_moves_forward_even_when_clock_is_behind() {
    let mut db = Database::new();
    let author = db.create_user(user_form("author")).unwrap();
    db.create_event_with_id(EventId(1), &event_form("E", "D", vec![]), author, 1000).unwrap();
    let update = UpdateEventForm { with_attendance: Some(true), ..empty_update() };
    db.update_event_at(EventId(1), author, &update, 400).unwrap();
    assert_eq!(db.find_event(EventId(1)).unwrap().modified_at, 1001);
    db.reserve_image_at(EventId(1), EventImageId(1), author, 2000).unwrap();
    assert_eq!(db.find_event(EventId(1)).unwrap().modified_at, 2000);
    db.reserve_image_at(EventId(1), EventImageId(2), author, 2000).unwrap();
    let event = db.find_event(EventId(1)).unwrap();
    assert_eq!(event.modified_at, 2001);
    assert_eq!(event.created_at, 1000);
}

#[test]
fn first_user_tag_and_event_are_created() {
    let mut db = Database::new();
    let u = db.create_user(user_form("first")).unwrap();
    let t = db.create_tag(tag_form("first", &["one"]), u).unwrap();
    let e = db.create_event(event_form("First", "Event", vec![t]), u).unwrap();
    assert_eq!(db.find_event(e).unwrap().tags[0].id, t);
}

#[test]
fn update_with_the_same_attendance_changes_nothing() {
    let mut db = Database::new();
    let author = db.create_user(user_form("author")).unwrap();
    db.create_event_with_id(EventId(1), &event_form("E", "D", vec![]), author, 1000).unwrap();
    let same = UpdateEventForm { with_attendance: Some(false), ..empty_update() };
    db.update_event_at(EventId(1), author, &same, 5000).unwrap();
    assert_eq!(db.find_event(EventId(1)).unwrap().modified_at, 1000);
    let other = UpdateEventForm { with_attendance: Some(true), ..empty_update() };
    db.update_event_at(EventId(1), author, &other, 5000).unwrap();
    let event = db.find_event(EventId(1)).unwrap();
    assert!(event.with_attendance);
    assert_eq!(event.modified_at, 5000);
}
