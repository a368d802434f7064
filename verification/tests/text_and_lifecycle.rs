use kevinbotlib_networking::lifecycle::{address, ServerState, StartDecision};
use kevinbotlib_networking::string_store::{
    classify, parse_string_request, StringRequest, StringStep, StringStore,
};
use kevinbotlib_networking::text::{
    chars_of, decimal_digits, is_space_char, parse_u64_chars, split_words, trimmed,
};

#[test]
fn whitespace_set() {
    for c in [' ', '\t', '\n', '\r', '\u{0B}', '\u{0C}', '\u{85}', '\u{A0}', '\u{1680}', '\u{2000}',
        '\u{200A}', '\u{2028}', '\u{2029}', '\u{202F}', '\u{205F}', '\u{3000}']
    {
        assert!(is_space_char(c));
        assert!(c.is_whitespace());
    }
    for c in ['a', '0', '\u{200B}', '\u{180E}', '\u{FEFF}', '_'] {
        assert!(!is_space_char(c));
        assert!(!c.is_whitespace());
    }
}

#[test]
fn trimming_matches_str_trim() {
    for s in ["  a b  ", "\u{3000}x\u{A0}", "", "   ", "abc", "\tq\n"] {
        let cs = chars_of(s);
        let (lo, hi) = trimmed(&cs);
        let got: String = cs[lo..hi].iter().collect();
        assert_eq!(got, s.trim());
    }
}

#[test]
fn decimal_digits_of_numbers() {
    let d: String = decimal_digits(0).into_iter().collect();
    assert_eq!(d, "0");
    let d: String = decimal_digits(1234567890).into_iter().collect();
    assert_eq!(d, "1234567890");
    let d: String = decimal_digits(u64::MAX).into_iter().collect();
    assert_eq!(d, u64::MAX.to_string());
}

#[test]
fn parse_u64_matches_std() {
    for s in ["0", "007", "+12", "-3", "", "+", "99999999999999999999", "12a", "18446744073709551615"] {
        assert_eq!(parse_u64_chars(&chars_of(s)), s.parse::<u64>().ok());
    }
}

#[test]
fn split_words_matches_std() {
    for s in ["a  b", " lead trail ", "", "one", "x\u{2009}y\tz"] {
        let got = split_words(&chars_of(s));
        let want: Vec<String> = s.split_whitespace().map(|w| w.to_string()).collect();
        assert_eq!(got, want);
    }
}

#[test]
fn address_text() {
    assert_eq!(address("127.0.0.1", 8765), "127.0.0.1:8765");
    assert_eq!(address("localhost", 0), "localhost:0");
    assert_eq!(address("::1", 65535), "::1:65535");
}

#[test]
fn lifecycle_start_stop() {
    let mut state = ServerState::new();
    assert!(!state.running);
    assert!(matches!(state.start(false), StartDecision::InvalidAddress));
    assert!(!state.running);
    assert!(matches!(state.start(true), StartDecision::Launch));
    assert!(state.running);
    assert!(matches!(state.start(true), StartDecision::AlreadyRunning));
    assert!(state.keep_serving());
    state.request_stop();
    assert!(!state.keep_serving());
    assert!(state.running);
    state.finish();
    assert!(!state.running);
    assert!(!state.stop_requested);
    assert!(matches!(state.start(true), StartDecision::Launch));
}

fn reply(step: StringStep) -> String {
    match step {
        StringStep::Reply(s) => s,
        StringStep::Rejected(_) => panic!("rejected"),
    }
}

#[test]
fn string_store_set_get() {
    let mut store = StringStore::new();
    assert_eq!(reply(store.handle_line("SET color deep blue")), "OK\n");
    assert_eq!(reply(store.handle_line("GET color")), "deep blue\n");
    assert_eq!(reply(store.handle_line("GET other")), "ERROR Key not found\n");
}

#[test]
fn string_store_command_word_in_any_case() {
    let mut store = StringStore::new();
    assert_eq!(reply(store.handle_line("  sEt k v  ")), "OK\n");
    assert_eq!(reply(store.handle_line("get k")), "v\n");
    assert_eq!(reply(store.handle_line("\u{17F}et long s")), "OK\n");
    assert_eq!(reply(store.handle_line("GET long")), "s\n");
}

#[test]
fn string_store_invalid_lines() {
    let mut store = StringStore::new();
    for line in ["SET k", "GET", "", "DEL k", "PING"] {
        match store.handle_line(line) {
            StringStep::Rejected(t) => assert_eq!(t, "ERROR Invalid command or arguments\n"),
            StringStep::Reply(_) => panic!("accepted {}", line),
        }
    }
}

#[test]
fn string_store_split_keeps_empty_parts() {
    match parse_string_request("SET  v") {
        StringRequest::Put { key, value } => {
            assert_eq!(key, "");
            assert_eq!(value, "v");
        }
        _ => panic!(),
    }
    match parse_string_request("GET a b c") {
        StringRequest::Fetch { key } => assert_eq!(key, "a"),
        _ => panic!(),
    }
}

#[test]
fn classify_upper_cased_words() {
    assert!(matches!(
        classify("SET", Some("k".to_string()), Some("v".to_string())),
        StringRequest::Put { .. }
    ));
    assert!(matches!(classify("SET", Some("k".to_string()), None), StringRequest::Invalid));
    assert!(matches!(classify("GET", Some("k".to_string()), None), StringRequest::Fetch { .. }));
    assert!(matches!(classify("set", Some("k".to_string()), Some("v".to_string())), StringRequest::Invalid));
    assert!(matches!(classify("GET", None, None), StringRequest::Invalid));
}
