use seekman::binary::{DbError, ReadPart};
use seekman::collection::{
    add_hashes_to_collection, collection_db_bytes, empty_collection, parse_collection_db,
    sorted_unique_strings, StableCollection, StableCollectionList,
};

fn strings(items: &[&str]) -> Vec<String> {
    items.iter().map(|s| s.to_string()).collect()
}

fn sample() -> StableCollection {
    StableCollection {
        version: 20240101,
        lists: vec![
            StableCollectionList { name: "Favourites".to_string(), hashes: strings(&["b", "a"]) },
            StableCollectionList { name: "".to_string(), hashes: Vec::new() },
        ],
    }
}

#[test]
fn empty_collection_has_default_version() {
    let c = empty_collection();
    assert_eq!(c.version, 20260412);
    assert!(c.lists.is_empty());
}

#[test]
fn collection_bytes_layout() {
    let c = StableCollection {
        version: 1,
        lists: vec![StableCollectionList { name: "x".to_string(), hashes: strings(&["ab"]) }],
    };
    let bytes = collection_db_bytes(&c);
    assert_eq!(
        bytes,
        vec![1, 0, 0, 0, 1, 0, 0, 0, 0x0b, 1, b'x', 1, 0, 0, 0, 0x0b, 2, b'a', b'b']
    );
}

#[test]
fn collection_roundtrip() {
    let c = sample();
    let mut bytes = collection_db_bytes(&c);
    bytes.extend_from_slice(&[1, 2, 3]);
    let parsed = parse_collection_db(&bytes).ok().unwrap();
    assert_eq!(parsed.version, c.version);
    assert_eq!(parsed.lists.len(), 2);
    assert_eq!(parsed.lists[0].name, "Favourites");
    assert_eq!(parsed.lists[0].hashes, strings(&["b", "a"]));
    assert_eq!(parsed.lists[1].name, "");
    assert!(parsed.lists[1].hashes.is_empty());
}

#[test]
fn negative_counts_read_as_zero() {
    let bytes = [5u8, 0, 0, 0, 0xff, 0xff, 0xff, 0xff];
    let parsed = parse_collection_db(&bytes).ok().unwrap();
    assert_eq!(parsed.version, 5);
    assert!(parsed.lists.is_empty());
}

#[test]
fn truncated_collection_is_an_error() {
    let bytes = [5u8, 0, 0];
    assert!(matches!(
        parse_collection_db(&bytes),
        Err(DbError::UnexpectedEnd(ReadPart::CollectionDb))
    ));
    let bytes = [5u8, 0, 0, 0, 1, 0, 0, 0, 0x07];
    assert!(matches!(parse_collection_db(&bytes), Err(DbError::BadStringMarker)));
}

#[test]
fn add_hashes_creates_list_at_end() {
    let mut c = sample();
    add_hashes_to_collection(&mut c, "Seekman", strings(&["z", "m", "z"]));
    assert_eq!(c.lists.len(), 3);
    assert_eq!(c.lists[2].name, "Seekman");
    assert_eq!(c.lists[2].hashes, strings(&["m", "z"]));
    assert_eq!(c.lists[0].hashes, strings(&["b", "a"]));
}

#[test]
fn add_hashes_merges_into_existing_list() {
    let mut c = sample();
    add_hashes_to_collection(&mut c, "Favourites", strings(&["c", "a"]));
    assert_eq!(c.lists.len(), 2);
    assert_eq!(c.lists[0].hashes, strings(&["a", "b", "c"]));
    assert_eq!(c.version, 20240101);
}

#[test]
fn sorted_unique_strings_sorts_and_dedups() {
    let v = strings(&["b", "a", "b", "c", "a"]);
    assert_eq!(sorted_unique_strings(&v), strings(&["a", "b", "c"]));
    assert!(sorted_unique_strings(&Vec::new()).is_empty());
}
