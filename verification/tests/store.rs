use rust_tag_server::cell::{apply_add, apply_remove, present};
use rust_tag_server::store::TagStore;

fn s(text: &str) -> String {
    String::from(text)
}

fn sorted(mut tags: Vec<String>) -> Vec<String> {
    tags.sort();
    tags
}

#[test]
fn a_new_store_lists_nothing() {
    let store = TagStore::new();
    assert!(store.tags_for_user(&s("u")).is_empty());
}

#[test]
fn an_added_tag_is_listed_once() {
    let mut store = TagStore::new();
    store.add_tag(&s("u"), &s("x"), 10);
    store.add_tag(&s("u"), &s("x"), 12);
    store.add_tag(&s("u"), &s("x"), 12);
    assert_eq!(store.tags_for_user(&s("u")), vec![s("x")]);
}

#[test]
fn the_listing_holds_every_present_tag_and_no_other() {
    let mut store = TagStore::new();
    store.add_tag(&s("u"), &s("a"), 1);
    store.add_tag(&s("u"), &s("b"), 2);
    store.add_tag(&s("u"), &s("c"), 3);
    store.remove_tag(&s("u"), &s("b"), 4);
    store.remove_tag(&s("u"), &s("d"), 4);
    assert_eq!(sorted(store.tags_for_user(&s("u"))), vec![s("a"), s("c")]);
}

#[test]
fn users_do_not_share_tags() {
    let mut store = TagStore::new();
    store.add_tag(&s("u"), &s("x"), 10);
    store.add_tag(&s("v"), &s("y"), 10);
    store.remove_tag(&s("v"), &s("x"), 20);
    assert_eq!(store.tags_for_user(&s("u")), vec![s("x")]);
    assert_eq!(store.tags_for_user(&s("v")), vec![s("y")]);
    assert!(store.tags_for_user(&s("w")).is_empty());
}

#[test]
fn keys_are_compared_as_they_stand() {
    let mut store = TagStore::new();
    store.add_tag(&s("u"), &s("Tag"), 10);
    store.remove_tag(&s("u"), &s("tag"), 20);
    store.remove_tag(&s("U"), &s("Tag"), 20);
    assert_eq!(store.tags_for_user(&s("u")), vec![s("Tag")]);
}

#[test]
fn the_empty_user_and_the_empty_tag_are_keys_like_others() {
    let mut store = TagStore::new();
    store.add_tag(&s(""), &s(""), 1);
    assert_eq!(store.tags_for_user(&s("")), vec![s("")]);
}

#[test]
fn add_then_remove_at_one_timestamp_leaves_the_tag_absent() {
    let mut store = TagStore::new();
    store.add_tag(&s("u"), &s("t"), 7);
    store.remove_tag(&s("u"), &s("t"), 7);
    assert!(store.tags_for_user(&s("u")).is_empty());
}

#[test]
fn remove_then_add_at_one_timestamp_leaves_the_tag_absent() {
    let mut store = TagStore::new();
    store.remove_tag(&s("u"), &s("t"), 7);
    store.add_tag(&s("u"), &s("t"), 7);
    assert!(store.tags_for_user(&s("u")).is_empty());
}

#[test]
fn a_tie_is_not_seen_by_a_newer_present_cell() {
    let mut store = TagStore::new();
    store.add_tag(&s("u"), &s("t"), 9);
    store.add_tag(&s("u"), &s("t"), 7);
    store.remove_tag(&s("u"), &s("t"), 7);
    assert_eq!(store.tags_for_user(&s("u")), vec![s("t")]);
}

#[test]
fn an_older_add_is_silent() {
    let mut store = TagStore::new();
    store.add_tag(&s("u"), &s("t"), 10);
    store.add_tag(&s("u"), &s("t"), 5);
    assert_eq!(store.tags_for_user(&s("u")), vec![s("t")]);
    // The cell still carries 10: a remove at 7 is older than it.
    store.remove_tag(&s("u"), &s("t"), 7);
    assert_eq!(store.tags_for_user(&s("u")), vec![s("t")]);
}

#[test]
fn an_older_remove_is_silent() {
    let mut store = TagStore::new();
    store.add_tag(&s("u"), &s("t"), 10);
    store.remove_tag(&s("u"), &s("t"), 5);
    assert_eq!(store.tags_for_user(&s("u")), vec![s("t")]);
}

#[test]
fn a_newer_remove_wins() {
    let mut store = TagStore::new();
    store.add_tag(&s("u"), &s("t"), 10);
    store.remove_tag(&s("u"), &s("t"), 11);
    assert!(store.tags_for_user(&s("u")).is_empty());
}

#[test]
fn a_newer_add_brings_a_removed_tag_back() {
    let mut store = TagStore::new();
    store.add_tag(&s("u"), &s("t"), 10);
    store.remove_tag(&s("u"), &s("t"), 11);
    store.add_tag(&s("u"), &s("t"), 11);
    assert!(store.tags_for_user(&s("u")).is_empty());
    store.add_tag(&s("u"), &s("t"), 12);
    assert_eq!(store.tags_for_user(&s("u")), vec![s("t")]);
}

#[test]
fn the_largest_timestamp_fits_a_cell() {
    let mut store = TagStore::new();
    store.add_tag(&s("u"), &s("t"), i64::MAX);
    assert_eq!(store.tags_for_user(&s("u")), vec![s("t")]);
    store.remove_tag(&s("u"), &s("t"), i64::MAX);
    assert!(store.tags_for_user(&s("u")).is_empty());
}

#[test]
fn reconciling_an_add() {
    assert_eq!(apply_add(10, 5), 10);
    assert_eq!(apply_add(10, 10), 10);
    assert_eq!(apply_add(10, 11), 11);
    assert_eq!(apply_add(-10, 5), -10);
    assert_eq!(apply_add(-10, 10), -10);
    assert_eq!(apply_add(-10, 11), 11);
    assert_eq!(apply_add(i64::MIN + 1, i64::MAX), i64::MIN + 1);
}

#[test]
fn reconciling_a_remove() {
    assert_eq!(apply_remove(10, 9), 10);
    assert_eq!(apply_remove(10, 10), -10);
    assert_eq!(apply_remove(10, 11), -11);
    assert_eq!(apply_remove(-10, 9), -10);
    assert_eq!(apply_remove(-10, 10), -10);
    assert_eq!(apply_remove(-10, 11), -11);
    assert_eq!(apply_remove(i64::MAX, i64::MAX), -i64::MAX);
}

#[test]
fn the_magnitude_of_a_cell_never_goes_down() {
    let cells: [i64; 6] = [1, -1, 10, -10, 1000, -1000];
    let stamps: [i64; 5] = [1, 9, 10, 11, 5000];
    for v in cells {
        for ts in stamps {
            assert!(apply_add(v, ts).abs() >= v.abs());
            assert!(apply_remove(v, ts).abs() >= v.abs());
        }
    }
}

#[test]
fn the_sign_of_a_cell_is_its_presence() {
    assert!(present(1));
    assert!(present(i64::MAX));
    assert!(!present(-1));
    assert!(!present(i64::MIN));
}
