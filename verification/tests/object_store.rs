use zatsu::commons::object_hash;
use zatsu::commons::object_directory_path;
use zatsu::commons::object_file_path;
use zatsu::commons::prepare_object;
use zatsu::commons::decode_object;
use zatsu::error::CODE_LOADING_FILE_FAILED;
use zatsu::store::ObjectStore;

const PAYLOAD: &[u8] = b"Hello, World!";
const PAYLOAD_SHA1: &str = "0a0a9f2a6772942557ab5355d76af442f8f65e01";
const PAYLOAD_SHA256: &str = "dffd6021bb2bd5b0af676290809ec3a53191dd81c7f70a4b28688a362182986f";

fn payload() -> Vec<u8> {
    PAYLOAD.to_vec()
}

#[test]
fn object_hash_is_calculatable() {
    let values = payload();
    let hash = object_hash(&values, 1);
    assert_eq!(PAYLOAD_SHA1, hash);
    let hash = object_hash(&values, 2);
    assert_eq!(PAYLOAD_SHA256, hash);
}

#[test]
fn object_paths_are_sharded_by_hash_prefix() {
    let hash = PAYLOAD_SHA1.to_string();
    assert_eq!(".zatsu/objects/0a", object_directory_path(&hash));
    assert_eq!(
        ".zatsu/objects/0a/0a0a9f2a6772942557ab5355d76af442f8f65e01",
        object_file_path(&hash)
    );
}

#[test]
fn stored_object_round_trips_through_zlib() {
    let values = payload();
    let prepared = prepare_object(&values, 1);
    assert_eq!(PAYLOAD_SHA1, prepared.hash);
    assert_ne!(prepared.data, values);
    let restored = decode_object(&prepared.data).unwrap();
    assert_eq!(values, restored);
}

#[test]
fn known_zlib_stream_decodes_to_payload() {
    let compressed: Vec<u8> = vec![
        120, 156, 243, 72, 205, 201, 201, 215, 81, 8, 207, 47, 202, 73, 81, 4, 0, 31, 158, 4, 106,
    ];
    let restored = decode_object(&compressed).unwrap();
    assert_eq!(payload(), restored);
}

#[test]
fn corrupt_zlib_stream_is_rejected() {
    let garbage: Vec<u8> = vec![1, 2, 3, 4];
    let error = decode_object(&garbage).unwrap_err();
    assert_eq!(CODE_LOADING_FILE_FAILED, error.code);
}

#[test]
fn put_is_idempotent_and_get_round_trips() {
    let values = payload();
    let mut store = ObjectStore::new(1);
    let hash = store.put_object(&values);
    assert_eq!(PAYLOAD_SHA1, hash);
    assert_eq!(1, store.objects.len());

    let again = store.put_object(&values);
    assert_eq!(hash, again);
    assert_eq!(1, store.objects.len());

    let restored = store.get(&hash).unwrap();
    assert_eq!(values, restored);
}

#[test]
fn get_of_a_missing_object_fails() {
    let store = ObjectStore::new(1);
    let error = store.get(&PAYLOAD_SHA1.to_string()).unwrap_err();
    assert_eq!(CODE_LOADING_FILE_FAILED, error.code);
}

#[test]
fn same_content_under_two_paths_stores_one_object() {
    let values = payload();
    let mut store = ObjectStore::new(2);
    let first = store.put_object(&values);
    let second = store.put_object(&values);
    assert_eq!(first, second);
    assert_eq!(PAYLOAD_SHA256, first);
    assert_eq!(1, store.objects.len());
}

#[test]
fn unreferenced_objects_are_swept_and_referenced_kept() {
    let kept_payload = payload();
    let dropped_payload = b"old only".to_vec();
    let mut store = ObjectStore::new(1);
    let kept_hash = store.put_object(&kept_payload);
    let dropped_hash = store.put_object(&dropped_payload);
    assert_eq!(2, store.objects.len());

    let referenced = vec![kept_hash.clone()];
    let removed = store.remove_unreferenced(&referenced);
    assert_eq!(1, removed);
    assert_eq!(1, store.objects.len());
    assert_eq!(kept_payload, store.get(&kept_hash).unwrap());
    assert!(store.get(&dropped_hash).is_err());
}
