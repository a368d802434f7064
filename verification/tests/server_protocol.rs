use kevinbotlib_networking::protocol::{parse_command, Command, Step};
use kevinbotlib_networking::store::Store;

fn reply(step: Step) -> Vec<u8> {
    match step {
        Step::Reply(bytes) => bytes,
        Step::Rejected(_) => panic!("rejected"),
        Step::Close => panic!("closed"),
    }
}

fn text(step: Step) -> String {
    String::from_utf8(reply(step)).unwrap()
}

#[test]
fn parse_set_splits_key_at_first_space() {
    match parse_command("SET name John Smith") {
        Command::SetKey { key, value } => {
            assert_eq!(key, "name");
            assert_eq!(value, "John Smith");
        }
        _ => panic!("not a SET"),
    }
}

#[test]
fn parse_set_with_empty_value() {
    match parse_command("SET k ") {
        Command::SetKey { key, value } => {
            assert_eq!(key, "k");
            assert_eq!(value, "");
        }
        _ => panic!("not a SET"),
    }
}

#[test]
fn parse_set_without_value_is_malformed() {
    assert!(matches!(parse_command("SET onlykey"), Command::MalformedSet));
}

#[test]
fn parse_get_and_del_take_the_rest_as_key() {
    match parse_command("GET a b") {
        Command::Get { key } => assert_eq!(key, "a b"),
        _ => panic!("not a GET"),
    }
    match parse_command("DEL x") {
        Command::Delete { key } => assert_eq!(key, "x"),
        _ => panic!("not a DEL"),
    }
}

#[test]
fn parse_prefixes_are_case_sensitive() {
    assert!(matches!(parse_command("set a b"), Command::Unknown));
    assert!(matches!(parse_command("get a"), Command::Unknown));
    assert!(matches!(parse_command("GET"), Command::Unknown));
}

#[test]
fn parse_bare_commands_are_trimmed() {
    assert!(matches!(parse_command("  GKC \t"), Command::KeyCount));
    assert!(matches!(parse_command("GAK"), Command::AllKeys));
    assert!(matches!(parse_command("\u{3000}QUIT"), Command::Quit));
    assert!(matches!(parse_command("PING\r"), Command::Ping));
    assert!(matches!(parse_command("PING!"), Command::Unknown));
    assert!(matches!(parse_command(""), Command::Unknown));
}

#[test]
fn set_then_get_returns_value() {
    let mut store = Store::new();
    assert_eq!(text(store.handle_line("SET greeting hello world")), "OK\n");
    assert_eq!(text(store.handle_line("GET greeting")), "hello world\n");
}

#[test]
fn get_missing_key() {
    let mut store = Store::new();
    assert_eq!(text(store.handle_line("GET nothing")), "ERROR Key not found\n");
}

#[test]
fn delete_present_and_missing() {
    let mut store = Store::new();
    store.handle_line("SET a 1");
    assert_eq!(text(store.handle_line("DEL a")), "OK\n");
    assert_eq!(text(store.handle_line("DEL a")), "ERROR Key not found\n");
    assert_eq!(text(store.handle_line("GET a")), "ERROR Key not found\n");
}

#[test]
fn malformed_set_reply() {
    let mut store = Store::new();
    assert_eq!(text(store.handle_line("SET lonely")), "ERROR Invalid SET command\n");
    assert_eq!(text(store.handle_line("GKC")), "0\n");
}

#[test]
fn key_count_reply() {
    let mut store = Store::new();
    for i in 0..12 {
        store.handle_line(&format!("SET k{} v", i));
    }
    store.handle_line("SET k3 again");
    assert_eq!(text(store.handle_line("GKC")), "12\n");
}

#[test]
fn all_keys_reply_lists_each_key_once() {
    let mut store = Store::new();
    store.handle_line("SET b 2");
    store.handle_line("SET a 1");
    store.handle_line("SET c 3");
    store.handle_line("SET a 4");
    let listed = text(store.handle_line("GAK"));
    assert!(listed.ends_with('\n'));
    let mut keys: Vec<&str> = listed.trim_end().split(' ').collect();
    keys.sort();
    assert_eq!(keys, vec!["a", "b", "c"]);
}

#[test]
fn all_keys_of_empty_store() {
    let mut store = Store::new();
    assert_eq!(text(store.handle_line("GAK")), "\n");
}

#[test]
fn ping_quit_and_unknown() {
    let mut store = Store::new();
    assert_eq!(text(store.handle_line("PING")), "PONG\n");
    assert!(matches!(store.handle_line("QUIT"), Step::Close));
    match store.handle_line("HELLO") {
        Step::Rejected(bytes) => {
            assert_eq!(bytes, b"ERROR Invalid command or arguments\n".to_vec())
        }
        _ => panic!("not rejected"),
    }
}

#[test]
fn values_are_stored_as_utf8() {
    let mut store = Store::new();
    store.handle_line("SET clé ünïcødé ✓");
    assert_eq!(reply(store.handle_line("GET clé")), "ünïcødé ✓\n".as_bytes().to_vec());
}

#[test]
fn store_operations_directly() {
    let mut store = Store::new();
    store.set("x".to_string(), "y".to_string());
    assert_eq!(store.get("x"), Some(b"y".to_vec()));
    assert_eq!(store.len(), 1);
    assert!(store.delete("x"));
    assert!(!store.delete("x"));
    assert_eq!(store.get("x"), None);
    store.set("p".to_string(), "q".to_string());
    store.clear();
    assert_eq!(store.len(), 0);
    assert!(store.keys().is_empty());
}
