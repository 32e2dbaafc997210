use pedis_core::decoder::decode;
use pedis_core::handler_config::ConfigHandler;
use pedis_core::redis_command::RedisCommand;
use pedis_core::redis_store::{IStore, RedisStore, StoreError, Teststore, ValueKind};
use pedis_core::registry::{builtin_registry, Builtin, Registry};

#[test]
fn set_frame_through_dispatch() {
    let reg = builtin_registry();
    let mut store = RedisStore::new();
    let (cmds, _) = decode("*3\r\n$3\r\nSET\r\n$3\r\nkey\r\n$11\r\nHello World\r\n");
    assert_eq!(1, cmds.len());
    assert_eq!("+OK", reg.dispatch(&mut store, &cmds[0]));
    let got = store.get("key".to_string(), ValueKind::String).unwrap();
    assert_eq!(b"Hello World".to_vec(), got.data);
}

#[test]
fn config_frame_always_ok() {
    let reg = builtin_registry();
    let (cmds, _) = decode("*3\r\n$6\r\nCONFIG\r\n$3\r\nGET\r\n$4\r\nsave\r\n");
    let mut empty = RedisStore::new();
    assert_eq!("+OK", reg.dispatch(&mut empty, &cmds[0]));
    let mut full = RedisStore::new();
    let (sets, _) = decode("*3\r\n$3\r\nset\r\n$1\r\na\r\n$1\r\nb\r\n");
    reg.dispatch(&mut full, &sets[0]);
    assert_eq!("+OK", reg.dispatch(&mut full, &cmds[0]));
    let mut closed = Teststore { err: true };
    assert_eq!("+OK", reg.dispatch(&mut closed, &cmds[0]));
}

#[test]
fn unknown_command_not_found() {
    let reg = builtin_registry();
    let mut store = RedisStore::new();
    let cmd = RedisCommand::from_args(vec!["frobnicate".to_string()]);
    assert_eq!("-ERR command not found", reg.dispatch(&mut store, &cmd));
}

#[test]
fn unknown_command_leaves_store_alone() {
    let reg = builtin_registry();
    let mut store = RedisStore::new();
    let cmd = RedisCommand::from_args(vec!["DEL".to_string(), "key".to_string()]);
    assert_eq!("-ERR command not found", reg.dispatch(&mut store, &cmd));
    assert_eq!(Err(StoreError::KeyNotFoundError), store.get("key".to_string(), ValueKind::String));
    assert_eq!(Err(StoreError::KeyNotFoundError), store.get("DEL".to_string(), ValueKind::String));
}

#[test]
fn dispatch_is_case_insensitive() {
    let reg = builtin_registry();
    let mut store = RedisStore::new();
    let cmd = RedisCommand::from_args(vec!["sEt".to_string(), "k".to_string(), "v".to_string()]);
    assert_eq!("+OK", reg.dispatch(&mut store, &cmd));
    assert_eq!(b"v".to_vec(), store.get("k".to_string(), ValueKind::String).unwrap().data);
}

#[test]
fn closed_store_error_reaches_reply() {
    let reg = builtin_registry();
    let mut store = Teststore { err: true };
    let cmd = RedisCommand::new("*3\r\n$3\r\nSET\r\n$3\r\nkey\r\n$11\r\nHello World\r\n".to_string());
    assert_eq!("-ERR key not found", reg.dispatch(&mut store, &cmd));
}

#[test]
fn register_replaces_existing_handler() {
    let mut reg: Registry<Builtin> = Registry::new();
    let mut store = RedisStore::new();
    let cmd = RedisCommand::from_args(vec!["SET".to_string(), "k".to_string(), "v".to_string()]);
    assert_eq!("-ERR command not found", reg.dispatch(&mut store, &cmd));
    reg.register("set".to_string(), Builtin::ConfigCmd(ConfigHandler {}));
    assert_eq!("+OK", reg.dispatch(&mut store, &cmd));
    assert_eq!(Err(StoreError::KeyNotFoundError), store.get("k".to_string(), ValueKind::String));
}

#[test]
fn dispatch_named_looks_up_given_name() {
    let reg = builtin_registry();
    let mut store = RedisStore::new();
    let cmd = RedisCommand::from_args(vec!["SET".to_string(), "k".to_string(), "v".to_string()]);
    assert_eq!("-ERR command not found", reg.dispatch_named(&"frobnicate".to_string(), &mut store, &cmd));
    assert_eq!("-ERR command not found", reg.dispatch_named(&"SET".to_string(), &mut store, &cmd));
    assert_eq!(Err(StoreError::KeyNotFoundError), store.get("k".to_string(), ValueKind::String));
    assert_eq!("+OK", reg.dispatch_named(&"set".to_string(), &mut store, &cmd));
    assert_eq!(b"v".to_vec(), store.get("k".to_string(), ValueKind::String).unwrap().data);
}
