//! Group and group metadata tests.

use zarrs::group::{Group, GroupMetadata, GroupMetadataV3};
use zarrs::json::{parse_json, value_to_string};
use zarrs::node::NodePath;
use zarrs::storage::store::MemoryStore;
use zarrs::storage::{ReadableStorageTraits, StoreKey, StorePrefix, WritableStorageTraits};

const JSON_VALID1: &str = r#"{
    "zarr_format": 3,
    "node_type": "group",
    "attributes": {
        "spam": "ham",
        "eggs": 42
    }
}"#;

fn metadata_from_str(text: &str) -> GroupMetadata {
    let value = parse_json(text).unwrap();
    GroupMetadata::V3(GroupMetadataV3::from_value(value).unwrap())
}

#[test]
fn group_metadata1() {
    let group_metadata = metadata_from_str(JSON_VALID1);
    Group::new_with_metadata("/", group_metadata).unwrap();
}

#[test]
fn group_metadata2() {
    let group_metadata = metadata_from_str(
        r#"{
            "zarr_format": 3,
            "node_type": "group",
            "attributes": {
                "spam": "ham",
                "eggs": 42
            },
            "unknown": {
                "must_understand": false
            }
        }"#,
    );
    Group::new_with_metadata("/", group_metadata).unwrap();
}

#[test]
fn group_metadata_invalid_format() {
    let group_metadata = metadata_from_str(
        r#"{
            "zarr_format": 2,
            "node_type": "group",
            "attributes": {
                "spam": "ham",
                "eggs": 42
            }
        }"#,
    );
    let group_metadata = Group::new_with_metadata("/", group_metadata);
    assert_eq!(
        group_metadata.unwrap_err().to_string(),
        "invalid zarr format 2, expected 3"
    );
}

#[test]
fn group_metadata_invalid_type() {
    let group_metadata = metadata_from_str(
        r#"{
            "zarr_format": 3,
            "node_type": "array",
            "attributes": {
                "spam": "ham",
                "eggs": 42
            }
        }"#,
    );
    let group_metadata = Group::new_with_metadata("/", group_metadata);
    assert_eq!(
        group_metadata.unwrap_err().to_string(),
        "invalid zarr format array, expected group"
    );
}

#[test]
fn group_metadata_invalid_additional_field() {
    let group_metadata = metadata_from_str(
        r#"{
                "zarr_format": 3,
                "node_type": "group",
                "attributes": {
                  "spam": "ham",
                  "eggs": 42
                },
                "unknown": "fail"
            }"#,
    );
    let group_metadata = Group::new_with_metadata("/", group_metadata);
    assert_eq!(
        group_metadata.unwrap_err().to_string(),
        r#"unsupported additional field unknown with value "fail""#
    );
}

#[test]
fn group_metadata_write_read() {
    let mut store = MemoryStore::new();
    let group_path = "/group";
    let group =
        Group::new_with_metadata(group_path, GroupMetadata::V3(GroupMetadataV3::new())).unwrap();
    group.store_metadata(&mut store).unwrap();
    let read = Group::new(&store, group_path).unwrap();
    assert_eq!(read.metadata().to_string(), group.metadata().to_string());
    assert_eq!(
        group.metadata().to_string(),
        r#"{"node_type":"group","zarr_format":3}"#
    );
    assert_eq!(
        group.to_string(),
        r#"group at /group with metadata {"node_type":"group","zarr_format":3}"#
    );
}

#[test]
fn group_metadata_invalid_path() {
    let group_metadata = metadata_from_str(JSON_VALID1);
    assert_eq!(
        Group::new_with_metadata("abc", group_metadata)
            .unwrap_err()
            .to_string(),
        "invalid node path abc"
    );
}

#[test]
fn group_invalid_path() {
    let store = MemoryStore::new();
    assert_eq!(
        Group::new(&store, "abc").unwrap_err().to_string(),
        "invalid node path abc"
    );
}

#[test]
fn group_invalid_metadata() {
    let mut store = MemoryStore::new();
    store
        .set(&StoreKey::new("zarr.json").unwrap(), &[0])
        .unwrap();
    assert_eq!(
        Group::new(&store, "/").unwrap_err().to_string(),
        "error parsing metadata for zarr.json: expected value at line 1 column 1"
    );
}

#[test]
fn group_default() {
    let store = MemoryStore::new();
    let group_path = "/group";
    let group = Group::new(&store, group_path).unwrap();
    assert!(group.attributes().is_empty());
    assert!(group.additional_fields().is_empty());
}

#[test]
fn group_metadata_round_trip_attributes() {
    // writing and re-reading metadata preserves it, attributes included
    let mut store = MemoryStore::new();
    let group_metadata = metadata_from_str(JSON_VALID1);
    let group = Group::new_with_metadata("/group", group_metadata).unwrap();
    group.store_metadata(&mut store).unwrap();
    let read = Group::new(&store, "/group").unwrap();
    assert_eq!(read.metadata().to_string(), group.metadata().to_string());
    assert_eq!(read.attributes().len(), 2);
    assert_eq!(read.attributes()[0].0, "spam");
    assert_eq!(read.attributes()[1].0, "eggs");
}

#[test]
fn node_and_key_validation() {
    assert!(NodePath::new("/").is_ok());
    assert!(NodePath::new("/a/b").is_ok());
    assert!(NodePath::new("a").is_err());
    assert!(NodePath::new("/a/").is_err());
    assert!(NodePath::new("//a").is_err());
    assert!(StoreKey::new("a/b").is_ok());
    assert!(StoreKey::new("").is_err());
    assert!(StoreKey::new("/a").is_err());
    assert!(StoreKey::new("a/").is_err());
    assert!(StorePrefix::new("").is_ok());
    assert!(StorePrefix::new("a/").is_ok());
    assert!(StorePrefix::new("a").is_err());
}

#[test]
fn store_erase_prefix() {
    let mut store = MemoryStore::new();
    let ka = StoreKey::new("group/a").unwrap();
    let kb = StoreKey::new("group/b").unwrap();
    let kc = StoreKey::new("other/c").unwrap();
    store.set(&ka, &[1]).unwrap();
    store.set(&kb, &[2]).unwrap();
    store.set(&kc, &[3]).unwrap();
    store
        .erase_prefix(&StorePrefix::new("group/").unwrap())
        .unwrap();
    assert!(store.get(&ka).unwrap().is_none());
    assert!(store.get(&kb).unwrap().is_none());
    assert_eq!(store.get(&kc).unwrap(), Some(vec![3]));
}

#[test]
fn json_round_trip_text() {
    let text = r#"{"a":[1,2.5,-3],"b":"x\ny","c":{"d":null,"e":true},"f":18446744073709551615}"#;
    let v = parse_json(text).unwrap();
    assert_eq!(value_to_string(&v), text);
}

#[test]
fn group_metadata_repeated_field_last_wins() {
    let doc = r#"{"zarr_format":2,"node_type":"group","zarr_format":3}"#;
    let v = zarrs::json::parse_json(doc).unwrap();
    let m = zarrs::group::GroupMetadataV3::from_value(v).unwrap();
    assert_eq!(m.zarr_format, 3);
    assert_eq!(m.node_type, "group");
}
