use tagstore::digest::Digest;
use tagstore::error::{Error, StorageError};
use tagstore::store::Store;
use tagstore::tag::Tag;
use tagstore::transaction::add_tags_to_hash;

fn digest(fill: u8) -> Digest {
    Digest::try_from(&[fill; 32][..]).unwrap()
}

fn tag(text: &str) -> Tag {
    Tag::try_from(text.to_string()).unwrap()
}

fn tags(texts: &[&str]) -> Vec<Tag> {
    texts.iter().map(|t| tag(t)).collect()
}

fn sorted(mut found: Vec<String>) -> Vec<String> {
    found.sort();
    found
}

#[test]
fn new_store_knows_no_tags() {
    let store = Store::new();
    assert_eq!(store.get_tags(&digest(1)), Vec::<String>::new());
}

#[test]
fn resolving_a_hash_gives_the_first_identifier() {
    let mut store = Store::new();
    assert_eq!(store.get_or_insert_hash(&digest(1)), Ok(1));
}

#[test]
fn resolving_a_hash_again_gives_the_same_identifier() {
    let mut store = Store::new();
    let first = store.get_or_insert_hash(&digest(1)).unwrap();
    let other = store.get_or_insert_hash(&digest(2)).unwrap();
    let again = store.get_or_insert_hash(&digest(1)).unwrap();
    assert_eq!(first, 1);
    assert_eq!(other, 2);
    assert_eq!(again, first);
    assert_eq!(store.get_or_insert_hash(&digest(3)), Ok(3));
}

#[test]
fn resolving_a_tag_again_gives_the_same_identifier() {
    let mut store = Store::new();
    assert_eq!(store.get_or_insert_tag(&tag("a")), Ok(1));
    assert_eq!(store.get_or_insert_tag(&tag("b")), Ok(2));
    assert_eq!(store.get_or_insert_tag(&tag("a")), Ok(1));
    assert_eq!(store.get_or_insert_tag(&tag("c")), Ok(3));
}

#[test]
fn hashes_and_tags_are_numbered_apart() {
    let mut store = Store::new();
    assert_eq!(store.get_or_insert_hash(&digest(1)), Ok(1));
    assert_eq!(store.get_or_insert_tag(&tag("a")), Ok(1));
}

#[test]
fn full_table_fails_a_new_hash_and_serves_a_known_one() {
    let mut store = Store::with_limit(2);
    assert_eq!(store.get_or_insert_hash(&digest(1)), Ok(1));
    assert_eq!(store.get_or_insert_hash(&digest(2)), Ok(2));
    assert_eq!(store.get_or_insert_hash(&digest(3)), Err(StorageError::Exhausted));
    assert_eq!(store.get_or_insert_hash(&digest(2)), Ok(2));
}

#[test]
fn full_table_fails_a_new_tag_and_serves_a_known_one() {
    let mut store = Store::with_limit(1);
    assert_eq!(store.get_or_insert_tag(&tag("a")), Ok(1));
    assert_eq!(store.get_or_insert_tag(&tag("b")), Err(StorageError::Exhausted));
    assert_eq!(store.get_or_insert_tag(&tag("a")), Ok(1));
}

#[test]
fn negative_limit_is_no_room() {
    let mut store = Store::with_limit(-5);
    assert_eq!(store.get_or_insert_hash(&digest(1)), Err(StorageError::Exhausted));
    assert_eq!(store.get_or_insert_tag(&tag("a")), Err(StorageError::Exhausted));
}

#[test]
fn association_attaches_the_tag() {
    let mut store = Store::new();
    let h = store.get_or_insert_hash(&digest(1)).unwrap();
    let t = store.get_or_insert_tag(&tag("a")).unwrap();
    assert_eq!(store.get_tags(&digest(1)), Vec::<String>::new());
    assert_eq!(store.associate(h, t), Ok(()));
    assert_eq!(store.get_tags(&digest(1)), vec!["a".to_string()]);
}

#[test]
fn association_twice_is_recorded_once() {
    let mut store = Store::new();
    let h = store.get_or_insert_hash(&digest(1)).unwrap();
    let t = store.get_or_insert_tag(&tag("a")).unwrap();
    assert_eq!(store.associate(h, t), Ok(()));
    assert_eq!(store.associate(h, t), Ok(()));
    assert_eq!(store.get_tags(&digest(1)), vec!["a".to_string()]);
}

#[test]
fn association_of_an_unknown_identifier_fails() {
    let mut store = Store::new();
    let h = store.get_or_insert_hash(&digest(1)).unwrap();
    let t = store.get_or_insert_tag(&tag("a")).unwrap();
    assert_eq!(store.associate(h + 1, t), Err(StorageError::UnknownId));
    assert_eq!(store.associate(h, t + 1), Err(StorageError::UnknownId));
    assert_eq!(store.associate(0, t), Err(StorageError::UnknownId));
    assert_eq!(store.associate(h, 0), Err(StorageError::UnknownId));
    assert_eq!(store.associate(-1, -1), Err(StorageError::UnknownId));
    assert_eq!(store.get_tags(&digest(1)), Vec::<String>::new());
}

#[test]
fn tags_come_in_the_order_of_attachment() {
    let mut store = Store::new();
    add_tags_to_hash(&mut store, &digest(1), tags(&["c", "a"])).unwrap();
    add_tags_to_hash(&mut store, &digest(2), tags(&["z"])).unwrap();
    add_tags_to_hash(&mut store, &digest(1), tags(&["b", "a"])).unwrap();
    assert_eq!(store.get_tags(&digest(1)), vec!["c", "a", "b"]);
    assert_eq!(store.get_tags(&digest(2)), vec!["z"]);
}

#[test]
fn a_tag_is_shared_between_hashes() {
    let mut store = Store::new();
    add_tags_to_hash(&mut store, &digest(1), tags(&["a"])).unwrap();
    add_tags_to_hash(&mut store, &digest(2), tags(&["a"])).unwrap();
    assert_eq!(store.get_or_insert_tag(&tag("a")), Ok(1));
    assert_eq!(store.get_or_insert_tag(&tag("b")), Ok(2));
    assert_eq!(store.get_tags(&digest(1)), vec!["a"]);
    assert_eq!(store.get_tags(&digest(2)), vec!["a"]);
}

#[test]
fn attaching_no_tags_makes_the_hash_known() {
    let mut store = Store::with_limit(1);
    assert_eq!(add_tags_to_hash(&mut store, &digest(1), Vec::new()), Ok(()));
    assert_eq!(store.get_tags(&digest(1)), Vec::<String>::new());
    // The one row of the table is taken by the hash.
    assert_eq!(store.get_or_insert_hash(&digest(2)), Err(StorageError::Exhausted));
    assert_eq!(store.get_or_insert_hash(&digest(1)), Ok(1));
}

#[test]
fn attaching_the_same_tag_twice_in_one_call_attaches_it_once() {
    let mut store = Store::new();
    add_tags_to_hash(&mut store, &digest(1), tags(&["a", "a", "b", "a"])).unwrap();
    assert_eq!(store.get_tags(&digest(1)), vec!["a", "b"]);
}

#[test]
fn attaching_without_room_for_the_hash_fails() {
    let mut store = Store::with_limit(0);
    assert_eq!(
        add_tags_to_hash(&mut store, &digest(1), tags(&["a"])),
        Err(Error::Postgres(StorageError::Exhausted))
    );
    assert_eq!(store.get_tags(&digest(1)), Vec::<String>::new());
}

#[test]
fn attaching_without_room_for_a_tag_leaves_no_row() {
    let mut store = Store::with_limit(1);
    assert_eq!(
        add_tags_to_hash(&mut store, &digest(1), tags(&["x", "y"])),
        Err(Error::Postgres(StorageError::Exhausted))
    );
    let found = store.get_tags(&digest(1));
    assert!(!found.contains(&"x".to_string()));
    assert!(!found.contains(&"y".to_string()));
    assert_eq!(found, Vec::<String>::new());
    // Neither the row of the hash nor that of the first tag is left: both
    // tables have their one row free.
    assert_eq!(store.get_or_insert_hash(&digest(2)), Ok(1));
    assert_eq!(store.get_or_insert_tag(&tag("z")), Ok(1));
}

#[test]
fn failed_attaching_keeps_what_was_there() {
    let mut store = Store::with_limit(2);
    add_tags_to_hash(&mut store, &digest(1), tags(&["a", "b"])).unwrap();
    assert_eq!(
        add_tags_to_hash(&mut store, &digest(1), tags(&["a", "c"])),
        Err(Error::Postgres(StorageError::Exhausted))
    );
    assert_eq!(sorted(store.get_tags(&digest(1))), vec!["a", "b"]);
    // Known values need no room.
    assert_eq!(add_tags_to_hash(&mut store, &digest(1), tags(&["b", "a"])), Ok(()));
    assert_eq!(add_tags_to_hash(&mut store, &digest(2), tags(&["b"])), Ok(()));
    assert_eq!(store.get_tags(&digest(2)), vec!["b"]);
}

#[test]
fn rollback_takes_back_what_came_after_the_savepoint() {
    let mut store = Store::new();
    add_tags_to_hash(&mut store, &digest(1), tags(&["a"])).unwrap();
    let mark = store.savepoint();
    let h = store.get_or_insert_hash(&digest(2)).unwrap();
    let t = store.get_or_insert_tag(&tag("b")).unwrap();
    store.associate(h, t).unwrap();
    store.associate(1, t).unwrap();
    assert_eq!(store.get_tags(&digest(1)), vec!["a", "b"]);
    assert_eq!(store.get_tags(&digest(2)), vec!["b"]);
    store.rollback_to(&mark);
    assert_eq!(store.get_tags(&digest(1)), vec!["a"]);
    assert_eq!(store.get_tags(&digest(2)), Vec::<String>::new());
    assert_eq!(store.get_or_insert_tag(&tag("c")), Ok(2));
}
