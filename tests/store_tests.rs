use pedis_core::redis_store::{IStore, RedisStore, StoreError, Value, ValueKind};

#[test]
fn test_store_get_set() {
    let mut s = RedisStore::default();
    let value = Value::new_string("hello pedis".to_string().as_bytes().to_vec());
    let set_result = s.set("key:001".to_string(), value);
    assert_eq!(set_result, Result::Ok(()));

    let expected_value = Value::new_string("hello pedis".to_string().as_bytes().to_vec());
    let get_result = s.get("key:001".to_string(), ValueKind::String);
    assert_eq!(Result::Ok(&expected_value), get_result);

    let get_key_kind_mistmatch_result = s.get("key:001".to_string(), ValueKind::Dict);
    assert_eq!(
        Err(StoreError::KeyMismatchError(
            "key xxx does not match yyy".to_string()
        )),
        get_key_kind_mistmatch_result
    );

    let get_key_not_found_result = s.get("key:013".to_string(), ValueKind::String);
    assert_eq!(Err(StoreError::KeyNotFoundError), get_key_not_found_result);
}

#[test]
fn set_then_get_round_trips_every_kind() {
    let kinds = [ValueKind::String, ValueKind::Dict, ValueKind::Json, ValueKind::List];
    let mut s = RedisStore::new();
    for (i, k) in kinds.iter().enumerate() {
        let key = format!("k{}", i);
        assert_eq!(Ok(()), s.set(key.clone(), Value::new(vec![i as u8, 7], *k)));
        let got = s.get(key, *k).unwrap();
        assert_eq!(*k, got.kind);
        assert_eq!(vec![i as u8, 7], got.data);
    }
}

#[test]
fn overwrite_replaces_value_and_kind() {
    let mut s = RedisStore::new();
    s.set("a".to_string(), Value::new_string(vec![1])).unwrap();
    s.set("a".to_string(), Value::new_map(vec![2, 3])).unwrap();
    let got = s.get("a".to_string(), ValueKind::Dict).unwrap();
    assert_eq!(vec![2, 3], got.data);
    assert!(matches!(
        s.get("a".to_string(), ValueKind::String),
        Err(StoreError::KeyMismatchError(_))
    ));
}

#[test]
fn other_kind_is_mismatch_not_missing() {
    let mut s = RedisStore::new();
    s.set("j".to_string(), Value::new(vec![b'{', b'}'], ValueKind::Json)).unwrap();
    for k in [ValueKind::String, ValueKind::Dict, ValueKind::List] {
        assert!(matches!(s.get("j".to_string(), k), Err(StoreError::KeyMismatchError(_))));
    }
}

#[test]
fn never_set_key_is_missing() {
    let mut s = RedisStore::new();
    s.set("x".to_string(), Value::new_string(vec![1])).unwrap();
    s.set("y".to_string(), Value::new_string(vec![2])).unwrap();
    for k in [ValueKind::String, ValueKind::Dict, ValueKind::Json, ValueKind::List] {
        assert_eq!(Err(StoreError::KeyNotFoundError), s.get("z".to_string(), k));
    }
    assert_eq!(Err(StoreError::KeyNotFoundError), s.get("".to_string(), ValueKind::String));
}

#[test]
fn distinct_keys_all_kept() {
    let mut s = RedisStore::new();
    for i in 0..50u8 {
        s.set(format!("key:{}", i), Value::new_string(vec![i])).unwrap();
    }
    for i in 0..50u8 {
        assert_eq!(vec![i], s.get(format!("key:{}", i), ValueKind::String).unwrap().data);
    }
}

#[test]
fn error_messages() {
    assert_eq!("-ERR key not found", StoreError::KeyNotFoundError.message());
    assert_eq!(
        "-ERR key xxx does not match yyy",
        StoreError::KeyMismatchError("key xxx does not match yyy".to_string()).message()
    );
}

#[test]
fn kind_names() {
    assert_eq!("string", ValueKind::String.name());
    assert_eq!("map", ValueKind::Dict.name());
    assert_eq!("json", ValueKind::Json.name());
    assert_eq!("list", ValueKind::List.name());
}

#[test]
fn value_constructors() {
    let v = Value::new(vec![1, 2], ValueKind::List);
    assert_eq!(ValueKind::List, v.kind);
    assert_eq!(vec![1, 2], v.data);
    assert_eq!(ValueKind::String, Value::new_string(vec![]).kind);
    assert_eq!(ValueKind::Dict, Value::new_map(vec![9]).kind);
}

#[test]
fn describe_leaves_data_out() {
    assert_eq!("k=string len=11", Value::new_string(b"hello pedis".to_vec()).describe());
    assert_eq!("k=map len=0", Value::new_map(vec![]).describe());
    assert_eq!("k=list len=3", Value::new(vec![1, 2, 3], ValueKind::List).describe());
}
