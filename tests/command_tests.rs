use pedis_core::redis_command::RedisCommand;

const SET_FRAME: &str = "*3\r\n$3\r\nSET\r\n$3\r\nkey\r\n$11\r\nHello World\r\n";

#[test]
fn test_args() {
    let c = RedisCommand::new(SET_FRAME.to_string());
    assert_eq!(vec!["SET", "key", "Hello World"], c.params());
}

#[test]
fn test_name() {
    let c = RedisCommand::new(SET_FRAME.to_string());
    assert_eq!("set", c.name());
}

#[test]
fn name_folds_mixed_case() {
    let c = RedisCommand::from_args(vec!["CoNfIg".to_string(), "get".to_string()]);
    assert_eq!("config", c.name());
    assert_eq!(vec!["CoNfIg", "get"], c.params());
}

#[test]
fn fragment_without_count_has_no_args() {
    let c = RedisCommand::new("*\r\n$6\r\nCLIENT\r\n".to_string());
    assert_eq!(0, c.len());
    assert!(c.params().is_empty());
}

#[test]
fn fragment_args_and_len() {
    let c = RedisCommand::new("*2\r\n$4\r\nPING\r\n$0\r\n\r\n".to_string());
    assert_eq!(2, c.len());
    assert_eq!("PING", c.arg(0));
    assert_eq!("", c.arg(1));
}
