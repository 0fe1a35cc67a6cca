use ferriscuit::db::Database;
use ferriscuit::redis_parser::{get_redis_response, split_command, Message, RedisType};

#[test]
fn split_test() {
    let sen1: String = String::from("ECHO Hello world");
    let res1 = split_command(&sen1).unwrap();
    assert_eq!(res1, vec!["ECHO", "Hello world"]);
}

#[test]
fn test_req_split() {
    let msg: &str = "*2\r\n$4\r\nECHO\r\n$3\r\nhey\r\n";
    let mut msg: Vec<&str> = msg.split("\r\n").collect();
    msg.pop();
    assert_eq!(msg, vec!["*2", "$4", "ECHO", "$3", "hey"]);
}

#[test]
fn command_convert_test() {
    let sen1: String = String::from("ECHO Hello world");
    let res1: Vec<&str> = split_command(&sen1).unwrap();

    assert_eq!(
        RedisType::BulkString(res1[1].to_string()),
        RedisType::BulkString("Hello world".to_string())
    );
}

#[test]
fn simple_string_test() {
    let my_simple: RedisType = RedisType::SimpleString("OK");
    assert_eq!(my_simple.to_string(), "+OK\r\n");
}

#[test]
fn error_test() {
    let my_error: RedisType = RedisType::Error("Err unknown command");
    assert_eq!(my_error.to_string(), "-Err unknown command\r\n");
}

#[test]
fn integer_test() {
    let my_int: RedisType = RedisType::Integer(String::from("0"));
    assert_eq!(my_int.to_string(), ":0\r\n");
}

#[test]
fn bulk_test() {
    let my_bulk: RedisType = RedisType::BulkString("Hello world".to_string());
    assert_eq!(my_bulk.to_string(), "$11\r\nHello world\r\n");
}

#[test]
fn array_test_string() {
    let array: Box<Vec<RedisType>> = Box::new(vec![
        RedisType::BulkString("Hello".to_string()),
        RedisType::BulkString("world".to_string()),
    ]);

    let my_array_type: RedisType = RedisType::Array(array);
    assert_eq!(
        my_array_type.to_string(),
        "*2\r\n$5\r\nHello\r\n$5\r\nworld\r\n"
    );
}

#[test]
fn array_test_int() {
    let array: Box<Vec<RedisType>> = Box::new(vec![
        RedisType::Integer(String::from("1")),
        RedisType::Integer(String::from("2")),
        RedisType::Integer(String::from("3")),
    ]);

    let my_array_type: RedisType = RedisType::Array(array);
    assert_eq!(my_array_type.to_string(), "*3\r\n:1\r\n:2\r\n:3\r\n");
}

#[test]
fn null_test() {
    let my_null: RedisType = RedisType::Null;
    assert_eq!(my_null.to_string(), "_\r\n");
}

#[test]
fn bool_test() {
    let my_truthy: RedisType = RedisType::Boolean(true);
    let my_falsy: RedisType = RedisType::Boolean(false);
    assert_eq!(my_truthy.to_string(), "#t\r\n");
    assert_eq!(my_falsy.to_string(), "#f\r\n");
}

#[test]
fn bulk_length_counts_bytes() {
    // one character, two bytes: the prefix counts bytes
    let accented: RedisType = RedisType::BulkString(String::from("\u{e9}"));
    assert_eq!(accented.to_string(), "$2\r\n\u{e9}\r\n");
}

#[test]
fn null_bulk_test() {
    let my_null_bulk: RedisType = RedisType::NullBulk;
    assert_eq!(my_null_bulk.to_string(), "$-1\r\n");
}

#[test]
fn delay_encoding_and_equality() {
    let a: RedisType = RedisType::Delay(Message::new(5, "k1"));
    let b: RedisType = RedisType::Delay(Message::new(9, "other"));
    assert_eq!(a.to_string(), "$+OK\r\n");
    // any two delayed notices compare as equal
    assert_eq!(a, b);
    assert_eq!(Message::new(5, "k1"), Message::new(5, "k1"));
    assert!(Message::new(5, "k1") != Message::new(6, "k1"));
}

#[test]
fn split_command_without_whitespace() {
    let sen: String = String::from("PING");
    assert!(split_command(&sen).is_none());
}

#[test]
fn echo_command_test() {
    let mut data = Database::new();
    let msg: String = String::from("*2\r\n$4\r\nECHO\r\n$3\r\nhey\r\n");
    let ans = get_redis_response(&msg, &mut data).unwrap();
    assert_eq!(ans, RedisType::BulkString("hey".to_string()));
}

#[test]
fn get_conf_command_test() {
    let mut data = Database::new();
    data.add("dir", "/tmp/redis-files");

    data.add("dbfilename", "dump.rdb");

    let msg: String = String::from("*3\r\n$6\r\nCONFIG\r\n$3\r\nGET\r\n$3\r\ndir\r\n");
    let ans = get_redis_response(&msg, &mut data).unwrap();
    assert_eq!(
        ans,
        RedisType::Array(Box::new(vec![
            RedisType::BulkString("dir".to_string()),
            RedisType::BulkString("/tmp/redis-files".to_string())
        ]))
    );

    let msg: String = String::from("*3\r\n$6\r\nCONFIG\r\n$3\r\nGET\r\n$3\r\ndbfilename\r\n");
    let ans = get_redis_response(&msg, &mut data).unwrap();
    assert_eq!(
        ans,
        RedisType::Array(Box::new(vec![
            RedisType::BulkString("dbfilename".to_string()),
            RedisType::BulkString("dump.rdb".to_string())
        ]))
    );
}

#[test]
fn get_command_test() {
    let mut data = Database::new();
    data.add("foo", "bar");

    let msg: String = String::from("*2\r\n$3\r\nGET\r\n$3\r\nfoo\r\n");
    let ans = get_redis_response(&msg, &mut data).unwrap();
    assert_eq!(ans, RedisType::BulkString("bar".to_string()));
}

#[test]
fn set_command_test() {
    let mut data = Database::new();

    let msg: String = String::from("*3\r\n$3\r\nSET\r\n$3\r\nfoo\r\n$3\r\nbar\r\n");
    let ans = get_redis_response(&msg, &mut data).unwrap();
    assert_eq!(ans, RedisType::SimpleString("OK"));

    assert_eq!(*(data.get("foo").unwrap()), "bar".to_string());
}

#[test]
fn set_with_expiry_yields_delay() {
    let mut data = Database::new();
    let msg: String =
        String::from("*5\r\n$3\r\nSET\r\n$3\r\nfoo\r\n$3\r\nbar\r\n$2\r\npx\r\n$3\r\n150\r\n");
    let ans = get_redis_response(&msg, &mut data).unwrap();
    assert!(ans.is_delay());
    match ans {
        RedisType::Delay(m) => {
            assert_eq!(m.key, "foo");
            assert_eq!(m.time, 150);
        }
        _ => unreachable!(),
    }
    assert_eq!(*(data.get("foo").unwrap()), "bar".to_string());
}

#[test]
fn set_with_bad_expiry_is_an_error() {
    let mut data = Database::new();
    let msg: String =
        String::from("*5\r\n$3\r\nSET\r\n$3\r\nfoo\r\n$3\r\nbar\r\n$2\r\npx\r\n$3\r\nabc\r\n");
    assert!(get_redis_response(&msg, &mut data).is_err());
}

#[test]
fn config_without_get_is_an_error() {
    let mut data = Database::new();
    let msg: String = String::from("*1\r\n$6\r\nCONFIG\r\n");
    let err = get_redis_response(&msg, &mut data).unwrap_err();
    assert_eq!(
        err.to_string(),
        "Error: Error attaing index for CONFIG command"
    );
}

#[test]
fn get_of_missing_key_is_null_bulk() {
    let mut data = Database::new();
    let msg: String = String::from("*2\r\n$3\r\nGET\r\n$7\r\nmissing\r\n");
    let ans = get_redis_response(&msg, &mut data).unwrap();
    assert_eq!(ans, RedisType::NullBulk);
}

#[test]
fn unknown_command_pongs() {
    let mut data = Database::new();
    let msg: String = String::from("*1\r\n$4\r\nPING\r\n");
    let ans = get_redis_response(&msg, &mut data).unwrap();
    assert_eq!(ans, RedisType::SimpleString("PONG"));
}

#[test]
fn keys_command_lists_data_keys() {
    let mut data = Database::new();
    data.add("dir", "/tmp/redis-files");
    data.add("dbfilename", "dump.rdb");
    data.add("alpha", "1");
    data.add("beta", "2");
    let msg: String = String::from("*1\r\n$4\r\nKEYS\r\n");
    let ans = get_redis_response(&msg, &mut data).unwrap();
    assert_eq!(
        ans,
        RedisType::Array(Box::new(vec![
            RedisType::BulkString("alpha".to_string()),
            RedisType::BulkString("beta".to_string())
        ]))
    );
}

#[test]
fn database_operations() {
    let mut data = Database::new();
    assert!(data.try_get("a").is_none());
    data.add("a", "1");
    data.add("b", "2");
    assert!(data.try_get("a").is_some());
    assert_eq!(*(data.get("a").unwrap()), "1".to_string());
    data.add("a", "3");
    assert_eq!(*(data.get("a").unwrap()), "3".to_string());
    data.remove("a");
    assert!(data.try_get("a").is_none());
    assert!(data.try_get("b").is_some());
    data.add("c", "4");
    data.add("d", "5");
    // the first two stored pairs are configuration and stay unlisted
    assert_eq!(data.get_keys(), vec!["d".to_string()]);
}
