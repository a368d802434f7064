use kevinbotlib_networking::client::{
    encode_request, is_ok, key_count_of, keys_of, reply_text, ClientRequest,
};
use kevinbotlib_networking::protocol::{parse_command, Command, Step};
use kevinbotlib_networking::store::Store;

#[test]
fn request_messages() {
    let set = ClientRequest::SetKey { key: "k".to_string(), value: "v w".to_string() };
    assert_eq!(encode_request(&set), "SET k v w\n");
    assert_eq!(encode_request(&ClientRequest::Get { key: "k".to_string() }), "GET k\n");
    assert_eq!(encode_request(&ClientRequest::Delete { key: "k".to_string() }), "DEL k\n");
    assert_eq!(encode_request(&ClientRequest::AllKeys), "GAK\n");
    assert_eq!(encode_request(&ClientRequest::KeyCount), "GKC\n");
    assert_eq!(encode_request(&ClientRequest::Raw { command: "PING".to_string() }), "PING\n");
}

#[test]
fn reply_text_trims_end_only() {
    assert_eq!(reply_text("  OK \r\n"), "  OK");
    assert_eq!(reply_text("value\u{3000}\n"), "value");
    assert_eq!(reply_text("\n"), "");
}

#[test]
fn ok_replies() {
    assert!(is_ok("OK"));
    assert!(!is_ok("OK "));
    assert!(!is_ok("ok"));
    assert!(!is_ok("ERROR Key not found"));
}

#[test]
fn key_count_parsing() {
    assert_eq!(key_count_of("42"), 42);
    assert_eq!(key_count_of("+7"), 7);
    assert_eq!(key_count_of("18446744073709551615"), u64::MAX);
    assert_eq!(key_count_of("18446744073709551616"), 0);
    assert_eq!(key_count_of("-1"), 0);
    assert_eq!(key_count_of(""), 0);
    assert_eq!(key_count_of("+"), 0);
    assert_eq!(key_count_of("1 2"), 0);
}

#[test]
fn keys_from_reply() {
    assert_eq!(keys_of("a b  c"), vec!["a", "b", "c"]);
    assert_eq!(keys_of("  x\ty\u{2003}z "), vec!["x", "y", "z"]);
    assert!(keys_of("").is_empty());
    assert!(keys_of("   ").is_empty());
}

#[test]
fn client_and_server_agree_on_set_and_get() {
    let mut store = Store::new();
    let set = encode_request(&ClientRequest::SetKey {
        key: "name".to_string(),
        value: "Ada Lovelace  ".to_string(),
    });
    let line = set.trim_end_matches('\n');
    let reply = match store.handle_line(line) {
        Step::Reply(b) => String::from_utf8(b).unwrap(),
        _ => panic!(),
    };
    assert!(is_ok(&reply_text(&reply)));
    let get = encode_request(&ClientRequest::Get { key: "name".to_string() });
    let reply = match store.handle_line(get.trim_end_matches('\n')) {
        Step::Reply(b) => String::from_utf8(b).unwrap(),
        _ => panic!(),
    };
    assert_eq!(reply_text(&reply), "Ada Lovelace");
}

#[test]
fn client_reads_count_and_keys() {
    let mut store = Store::new();
    for k in ["one", "two", "three"] {
        store.handle_line(&format!("SET {} x", k));
    }
    let count = match store.handle_line("GKC") {
        Step::Reply(b) => String::from_utf8(b).unwrap(),
        _ => panic!(),
    };
    assert_eq!(key_count_of(&reply_text(&count)), 3);
    let listed = match store.handle_line("GAK") {
        Step::Reply(b) => String::from_utf8(b).unwrap(),
        _ => panic!(),
    };
    let mut keys = keys_of(&reply_text(&listed));
    keys.sort();
    assert_eq!(keys, vec!["one", "three", "two"]);
}

#[test]
fn server_reads_client_requests() {
    let line = encode_request(&ClientRequest::Delete { key: "k k".to_string() });
    match parse_command(line.trim_end_matches('\n')) {
        Command::Delete { key } => assert_eq!(key, "k k"),
        _ => panic!(),
    }
    let line = encode_request(&ClientRequest::KeyCount);
    assert!(matches!(parse_command(line.trim_end_matches('\n')), Command::KeyCount));
}
