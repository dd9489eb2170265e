use kvstore::storage::{Storage, StorageError};

#[test]
fn get_after_insert_returns_value() {
    let mut store = Storage::new();
    let s = std::sync::Arc::get_mut(&mut store).unwrap();
    assert!(s.insert("name", "foopler").is_ok());
    assert_eq!(s.get("name").unwrap(), "foopler");
    assert!(s.insert("name", "other").is_ok());
    assert_eq!(s.get("name").unwrap(), "other");
}

#[test]
fn missing_key_is_an_error() {
    let store = Storage::new();
    match store.get("foo") {
        Err(e) => {
            assert_eq!(e, StorageError::InvalidKey("foo".to_string()));
            assert_eq!(e.message(), "Invalid key foo");
        }
        Ok(_) => panic!("a fresh store holds no value"),
    }
}

#[test]
fn other_keys_are_unaffected() {
    let mut store = Storage::new();
    let s = std::sync::Arc::get_mut(&mut store).unwrap();
    s.insert("a", "1").unwrap();
    s.insert("b", "2").unwrap();
    assert_eq!(s.get("a").unwrap(), "1");
    assert_eq!(s.get("b").unwrap(), "2");
    assert!(s.get("c").is_err());
}
