use evops_db::database::events::contains_folded_chars;
use evops_db::database::logins_match;
use evops_db::paging::page_of;

fn chars(s: &str) -> Vec<char> {
    s.chars().collect()
}

#[test]
fn page_of_takes_smallest_ids_after_cursor() {
    let candidates = vec![9u128, 3, 7, 1, 5];
    assert_eq!(page_of(&candidates, None, Some(2)), vec![1, 3]);
    assert_eq!(page_of(&candidates, Some(3), Some(2)), vec![5, 7]);
    assert_eq!(page_of(&candidates, Some(7), Some(2)), vec![9]);
    assert_eq!(page_of(&candidates, Some(9), Some(2)), Vec::<u128>::new());
    assert_eq!(page_of(&candidates, Some(4), None), vec![5, 7, 9]);
    assert_eq!(page_of(&candidates, None, Some(0)), Vec::<u128>::new());
}

#[test]
fn page_of_ignores_repeated_candidates() {
    let candidates = vec![4u128, 2, 4, 2];
    assert_eq!(page_of(&candidates, None, None), vec![2, 4]);
}

#[test]
fn substring_search_ignores_ascii_case() {
    assert!(contains_folded_chars(&chars("Rust Meetup"), &chars("MEET")));
    assert!(contains_folded_chars(&chars("abc"), &chars("")));
    assert!(contains_folded_chars(&chars("abc"), &chars("ABC")));
    assert!(!contains_folded_chars(&chars("ab"), &chars("abc")));
    assert!(!contains_folded_chars(&chars("Rust"), &chars("go")));
    assert!(!contains_folded_chars(&chars("[x"), &chars("{X")));
}

#[test]
fn logins_match_ignores_ascii_case_only() {
    assert!(logins_match("Alice", "aLiCe"));
    assert!(!logins_match("alice", "alice2"));
    assert!(!logins_match("É", "é"));
    assert!(!logins_match("a@", "A`"));
}
