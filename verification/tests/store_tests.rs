use blogamer::store::AssetStore;
use blogamer::store::create_hash_string;
use sha2::Digest;

#[test]
fn register_same_bytes_twice_is_idempotent() {
    let mut store = AssetStore::new();
    let first = store.register("note", ".bin", vec![1u8, 2, 3]).unwrap();
    assert_eq!(store.len(), 1);
    let second = store.register("note", ".bin", vec![1u8, 2, 3]).unwrap();
    assert_eq!(first, second);
    assert_eq!(store.len(), 1);
}

#[test]
fn register_distinct_buffers_yield_distinct_identifiers() {
    let mut store = AssetStore::new();
    let mut paths: Vec<String> = Vec::new();
    let mut i: u32 = 0;
    while i < 200 {
        let bytes = i.to_le_bytes().to_vec();
        let path = store.register("buf", ".bin", bytes).unwrap();
        assert!(!paths.contains(&path), "identifier repeated: {path}");
        paths.push(path);
        i += 1;
    }
    assert_eq!(store.len(), 200);
}

#[test]
fn hash_strings_stay_short_and_avoid_ambiguous_characters() {
    let mut i: u32 = 0;
    while i < 50 {
        let h = create_hash_string(&i.to_le_bytes());
        assert!(h.len() <= 24);
        for c in h.chars() {
            assert!(c.is_ascii_alphanumeric());
            assert!(c != '0' && c != 'O' && c != 'I' && c != 'l');
        }
        i += 1;
    }
}

#[test]
fn hash_string_matches_the_crates_it_relies_on() {
    let bytes = b"some asset content";
    let digest = sha2::Sha256::digest(bytes);
    let expected = bs58::encode(&digest[..16]).into_string();
    assert_eq!(create_hash_string(bytes), expected);
}

#[test]
fn register_builds_name_hash_extension_identifier() {
    let mut store = AssetStore::new();
    let content = vec![9u8, 9, 9];
    let path = store.register("cat", ".jpg", content.clone()).unwrap();
    let hash = create_hash_string(&content);
    assert_eq!(path, format!("/static/cat-{hash}.jpg"));
    let (id, stored) = store.get(0);
    assert_eq!(id, &format!("cat-{hash}.jpg"));
    assert_eq!(stored, &content);
}

#[test]
fn register_keeps_distinct_assets_in_order() {
    let mut store = AssetStore::new();
    let a = store.register("a", ".bin", vec![1u8]).unwrap();
    let b = store.register("b", ".bin", vec![2u8]).unwrap();
    assert_ne!(a, b);
    assert_eq!(store.len(), 2);
    let (first, _) = store.get(0);
    assert!(first.starts_with("a-"));
    let (second, _) = store.get(1);
    assert!(second.starts_with("b-"));
}
