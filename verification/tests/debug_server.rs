use std::collections::hash_map::RandomState;
use std::hash::{BuildHasher, Hasher};

use agent_terminal::debug_server::{
    addr_is_loopback, admit_debug_request, handle_debug_body, handle_debug_body_error,
    handle_debug_request, handle_debug_write, header_value, host_is_loopback, host_name,
    next_default_debug_http_addr, next_default_port, parse_route, plan_debug_http_server,
    plan_debug_startup, random_token, request_path, resolve_session, should_log_debug_http_start,
    state_response, token_matches, BindPlan, ContentType, DebugAction, DebugHttpConfig,
    DebugStartup, DebugState, Destination, Endpoint, HttpHeader, Reply, RequestHead, Route,
    WriteOutcome, MAX_DEBUG_BODY_BYTES,
};
use agent_terminal::terminal::GridSize;

const TEST_TOKEN: &str = "test-token";

fn test_config() -> DebugHttpConfig {
    DebugHttpConfig::new(Some(TEST_TOKEN.to_string()), false, None).expect("explicit token")
}

/// Sixteen bytes that differ from call to call.
fn random_bytes() -> Option<Vec<u8>> {
    let mut bytes = Vec::new();
    for _ in 0..2 {
        let word = RandomState::new().build_hasher().finish();
        bytes.extend_from_slice(&word.to_le_bytes());
    }
    Some(bytes)
}

/// A server with one session: what it was told to write to the shell, and its
/// state.
struct Session {
    state: DebugState,
    has_writer: bool,
    sink: Vec<u8>,
}

impl Session {
    fn new(shell: &str, has_writer: bool) -> Session {
        Session {
            state: DebugState::new(
                shell.to_string(),
                "connected".to_string(),
                GridSize { cols: 80, rows: 24 },
            ),
            has_writer,
            sink: Vec::new(),
        }
    }

    fn state_json(&self) -> String {
        let mut object = serde_json::Map::new();
        object.insert("shell".to_string(), serde_json::Value::from(self.state.shell.clone()));
        object.insert("status".to_string(), serde_json::Value::from(self.state.status.clone()));
        object.insert("note".to_string(), serde_json::Value::from(self.state.note()));
        serde_json::to_string_pretty(&object).expect("json")
    }

    fn send(&mut self, head: RequestHead, method: &str, url: &str, body: &[u8]) -> Reply {
        self.state.record_http_request();
        let endpoint = match admit_debug_request(&head, &test_config(), method, url, &[7]) {
            Destination::Answered(reply) => return reply,
            Destination::Session(number, endpoint) => {
                assert_eq!(number, 7);
                endpoint
            }
        };
        let mut action = handle_debug_request(endpoint, self.has_writer, &self.state);
        loop {
            action = match action {
                DebugAction::Reply(reply) => return reply,
                DebugAction::SendState => return state_response(self.state_json()),
                DebugAction::ReadBody(endpoint) => {
                    handle_debug_body(endpoint, body.to_vec(), &mut self.state)
                }
                DebugAction::Write(endpoint, bytes) => {
                    self.sink.extend_from_slice(&bytes);
                    DebugAction::Reply(handle_debug_write(
                        endpoint,
                        bytes.len(),
                        None,
                        &mut self.state,
                    ))
                }
            };
        }
    }
}

fn head(token: Option<&str>) -> RequestHead {
    RequestHead {
        host: Some("127.0.0.1:37878".to_string()),
        host_address_is_loopback: true,
        token: token.map(|text| text.to_string()),
        body_length: None,
    }
}

#[test]
fn debug_http_serves_state_and_note() {
    let mut session = Session::new("test-shell", false);

    let state = session.send(head(Some(TEST_TOKEN)), "GET", "/debug/state", b"");
    assert_eq!(state.status, 200);
    assert_eq!(state.content_type, ContentType::Json);
    assert!(state.body.contains("\"shell\": \"test-shell\""));
    assert!(state.body.contains("\"status\": \"connected\""));

    let note_response =
        session.send(head(Some(TEST_TOKEN)), "POST", "/debug/note", b"hello from test");
    assert!(note_response.body.contains("note set"));

    let state_after_note = session.send(head(Some(TEST_TOKEN)), "GET", "/debug/state", b"");
    assert!(state_after_note.body.contains("\"note\": \"hello from test\""));
}

#[test]
fn debug_http_injects_input_to_writer() {
    let mut session = Session::new("test-shell", true);
    let payload = "echo injected\n";
    let response =
        session.send(head(Some(TEST_TOKEN)), "POST", "/debug/input", payload.as_bytes());
    assert!(response.body.contains("input injected"));
    assert_eq!(session.sink, payload.as_bytes());
    assert_eq!(session.state.counters.bytes_to_pty, 14);
    assert_eq!(session.state.counters.injected_events, 1);
}

#[test]
fn debug_http_replaces_input_line_in_writer() {
    let mut session = Session::new("test-shell", true);
    let payload = "replace with this";
    let response =
        session.send(head(Some(TEST_TOKEN)), "POST", "/debug/replace-line", payload.as_bytes());
    assert!(response.body.contains("input line replaced"));

    let mut expected = Vec::from([0x15]);
    expected.extend_from_slice(payload.as_bytes());
    assert_eq!(session.sink, expected);
}

#[test]
fn debug_http_rejects_input_without_token() {
    let mut session = Session::new("test-shell", true);
    let response = session.send(head(None), "POST", "/debug/input", b"echo pwned\n");
    assert_eq!(response.status, 401);
    assert!(session.sink.is_empty(), "unauthenticated request must not reach the PTY");
}

#[test]
fn debug_http_rejects_input_with_wrong_token() {
    let mut session = Session::new("test-shell", true);
    let response = session.send(head(Some("wrong-token")), "POST", "/debug/input", b"echo pwned\n");
    assert_eq!(response.status, 401);
    assert!(session.sink.is_empty(), "wrong token must not reach the PTY");
}

#[test]
fn debug_http_rejects_state_without_token() {
    let mut session = Session::new("secret-shell", false);
    let response = session.send(head(None), "GET", "/debug/state", b"");
    assert_eq!(response.status, 401);
    assert!(
        !response.body.contains("secret-shell"),
        "screen state must not leak to unauthenticated callers"
    );
}

#[test]
fn debug_http_rejects_foreign_host_header() {
    let mut session = Session::new("test-shell", true);
    let foreign = RequestHead {
        host: Some("attacker.example.com".to_string()),
        host_address_is_loopback: false,
        token: Some(TEST_TOKEN.to_string()),
        body_length: Some(11),
    };
    let response = session.send(foreign, "POST", "/debug/input", b"echo pwned\n");
    assert_eq!(response.status, 403);
    assert!(session.sink.is_empty(), "foreign Host must not reach the PTY");

    let missing = RequestHead { host: None, ..head(Some(TEST_TOKEN)) };
    assert_eq!(session.send(missing, "GET", "/debug/screen", b"").status, 403);
}

#[test]
fn debug_http_rejects_oversized_body() {
    let mut session = Session::new("test-shell", true);
    let oversized =
        RequestHead { body_length: Some(MAX_DEBUG_BODY_BYTES + 1), ..head(Some(TEST_TOKEN)) };
    let response = session.send(oversized, "POST", "/debug/input", b"");
    assert_eq!(response.status, 413);
    assert!(session.sink.is_empty());

    let fitting =
        RequestHead { body_length: Some(MAX_DEBUG_BODY_BYTES), ..head(Some(TEST_TOKEN)) };
    assert_eq!(session.send(fitting, "POST", "/debug/input", b"x").status, 200);
}

#[test]
fn debug_http_returns_404_for_unknown_path() {
    let mut session = Session::new("test-shell", false);
    let response = session.send(head(Some(TEST_TOKEN)), "GET", "/debug/nope", b"");
    assert_eq!(response.status, 404);
}

#[test]
fn generated_token_is_not_predictable() {
    let first = DebugHttpConfig::new(None, false, random_bytes()).expect("random bytes available");
    let second = DebugHttpConfig::new(None, false, random_bytes()).expect("random bytes available");

    assert_eq!(first.token().len(), 32);
    assert!(first.token().chars().all(|ch| ch.is_ascii_hexdigit()));
    assert_ne!(first.token(), second.token());
}

#[test]
fn blank_explicit_token_falls_back_to_random() {
    let config = DebugHttpConfig::new(Some("   ".to_string()), false, random_bytes())
        .expect("random fallback");
    assert_eq!(config.token().len(), 32);
    assert_eq!(random_token(&[0x00, 0x9f, 0xff]), "009fff");
    assert!(DebugHttpConfig::new(Some("   ".to_string()), false, None).is_none());
    assert!(DebugHttpConfig::new(None, false, Some(Vec::new())).is_none());
    let given = DebugHttpConfig::new(Some(" s3 ".to_string()), true, None).expect("token");
    assert_eq!(given.token(), "s3");
    assert!(given.allow_remote());
}

#[test]
fn token_comparison_rejects_mismatches() {
    assert!(token_matches("abc", "abc"));
    assert!(!token_matches("abc", "abd"));
    assert!(!token_matches("abc", "ab"));
    assert!(!token_matches("abc", "abcd"));
    assert!(!token_matches("abc", ""));
}

/// Whether an address with a numeric host is a loopback one; None for a name.
fn numeric(addr: &str) -> Option<bool> {
    let name = host_name(addr);
    if name == "::1" {
        Some(true)
    } else if name.chars().all(|ch| ch.is_ascii_digit() || ch == '.') {
        Some(name.starts_with("127."))
    } else {
        None
    }
}

#[test]
fn only_loopback_addresses_are_accepted_by_default() {
    assert!(addr_is_loopback(numeric("127.0.0.1:37878"), None));
    assert!(addr_is_loopback(numeric("localhost:37878"), Some(vec![true, true])));
    assert!(addr_is_loopback(numeric("[::1]:37878"), None));

    assert!(!addr_is_loopback(numeric("0.0.0.0:8080"), None));
    assert!(!addr_is_loopback(numeric("192.168.1.10:8080"), None));

    assert!(!addr_is_loopback(numeric("mixed.example:80"), Some(vec![true, false])));
    assert!(!addr_is_loopback(numeric("nothing.example:80"), Some(vec![])));
    assert!(!addr_is_loopback(numeric("unknown.example:80"), None));
}

#[test]
fn names_of_hosts() {
    assert_eq!(host_name(" [::1]:37878 "), "::1");
    assert_eq!(host_name("localhost:80"), "localhost");
    assert_eq!(host_name("example.com:8o"), "example.com:8o");
    assert_eq!(host_name("127.0.0.1"), "127.0.0.1");
    assert!(host_is_loopback(&Some("LocalHost:1".to_string()), false));
    assert!(!host_is_loopback(&Some("localhost.example.com".to_string()), false));
    assert!(!host_is_loopback(&None, true));
}

#[test]
fn headers_are_found_whatever_their_case() {
    let headers = [
        HttpHeader { field: "HOST".to_string(), value: "a".to_string() },
        HttpHeader { field: "x-debug-token".to_string(), value: "b".to_string() },
        HttpHeader { field: "X-Debug-Token".to_string(), value: "c".to_string() },
    ];
    assert_eq!(header_value(&headers, "Host"), Some("a"));
    assert_eq!(header_value(&headers, "X-Debug-Token"), Some("b"));
    assert_eq!(header_value(&headers, "Accept"), None);
}

#[test]
fn where_the_server_listens() {
    let config = test_config();
    let remote = DebugHttpConfig::new(Some("t".to_string()), true, None).expect("token");
    assert!(matches!(
        plan_debug_http_server(Some("127.0.0.1:1".to_string()), true, &config),
        BindPlan::At(addr) if addr == "127.0.0.1:1"
    ));
    assert!(matches!(
        plan_debug_http_server(Some("0.0.0.0:1".to_string()), false, &config),
        BindPlan::Refuse(message) if message == "refusing to start debug server on non-loopback address 0.0.0.0:1: this endpoint can execute arbitrary commands in your shell. Pass --debug-http-allow-remote if you really mean it."
    ));
    assert!(matches!(
        plan_debug_http_server(Some("0.0.0.0:1".to_string()), false, &remote),
        BindPlan::At(_)
    ));
    assert!(matches!(
        plan_debug_http_server(Some(" ".to_string()), false, &config),
        BindPlan::DefaultRange
    ));
    assert!(matches!(plan_debug_http_server(None, false, &config), BindPlan::DefaultRange));
}

#[test]
fn the_server_is_off_unless_asked_for() {
    assert!(matches!(plan_debug_startup(false, None, false, random_bytes()), DebugStartup::Off));
    match plan_debug_startup(true, Some("t".to_string()), false, None) {
        DebugStartup::Start(config, message) => {
            assert_eq!(config.token(), "t");
            assert_eq!(
                message,
                "debug http enabled; authenticate with header \"X-Debug-Token: t\""
            );
        }
        _ => panic!("expected a start"),
    }
    match plan_debug_startup(true, None, false, None) {
        DebugStartup::Refuse(message) => assert!(message.contains("--debug-http-token")),
        _ => panic!("expected a refusal"),
    }
}

#[test]
fn ports_go_round() {
    assert_eq!(next_default_debug_http_addr(37878), "127.0.0.1:37878");
    assert_eq!(next_default_debug_http_addr(1), "127.0.0.1:37878");
    assert_eq!(next_default_debug_http_addr(37977), "127.0.0.1:37977");
    assert_eq!(next_default_port(37878), 37879);
    assert_eq!(next_default_port(37977), 37878);
    assert_eq!(next_default_port(80), 37878);
    let mut port = 37900;
    for _ in 0..100 {
        port = next_default_port(port);
    }
    assert_eq!(port, 37900);
}

#[test]
fn yes_in_the_environment() {
    for yes in ["1", " true ", "YES"] {
        assert!(should_log_debug_http_start(Some(yes.to_string())));
    }
    for no in ["0", "", "y"] {
        assert!(!should_log_debug_http_start(Some(no.to_string())));
    }
    assert!(!should_log_debug_http_start(None));
}

#[test]
fn routes() {
    assert_eq!(parse_route("GET", "/debug"), Route::Index);
    assert_eq!(parse_route("GET", "/debug/tabs"), Route::Tabs);
    assert_eq!(parse_route("POST", "/debug/tabs"), Route::Unknown);
    assert_eq!(parse_route("GET", "/debug/state"), Route::Session(None, Endpoint::State));
    assert_eq!(parse_route("GET", "/debug/screen"), Route::Session(None, Endpoint::Screen));
    assert_eq!(parse_route("POST", "/debug/state"), Route::Unknown);
    assert_eq!(
        parse_route("POST", "/debug/tabs/12/input"),
        Route::Session(Some(12), Endpoint::Input)
    );
    assert_eq!(parse_route("POST", "/debug/tabs/x/input"), Route::Unknown);
    assert_eq!(parse_route("POST", "/debug/tabs//input"), Route::Unknown);
    assert_eq!(parse_route("POST", "/debug/tabs/18446744073709551616/input"), Route::Unknown);
    assert_eq!(
        parse_route("POST", "/debug/tabs/18446744073709551615/note"),
        Route::Session(Some(u64::MAX), Endpoint::Note)
    );
    assert_eq!(request_path("/debug/state?x=1?"), "/debug/state");
    assert_eq!(resolve_session(None, &[5, 3, 9]), Some(3));
    assert_eq!(resolve_session(Some(9), &[5, 3, 9]), Some(9));
    assert_eq!(resolve_session(Some(4), &[5, 3, 9]), None);
    assert_eq!(resolve_session(None, &[]), None);
}

#[test]
fn the_server_lists_its_sessions() {
    let index = admit_debug_request(&head(Some(TEST_TOKEN)), &test_config(), "GET", "/debug", &[]);
    assert!(matches!(
        index,
        Destination::Answered(reply) if reply.body.starts_with("available endpoints:\n")
    ));
    let tabs =
        admit_debug_request(&head(Some(TEST_TOKEN)), &test_config(), "GET", "/debug/tabs", &[2]);
    assert!(matches!(
        tabs,
        Destination::Answered(reply) if reply.body == "GET /debug/tabs/2/state\nGET /debug/tabs/2/screen\nPOST /debug/tabs/2/note\nPOST /debug/tabs/2/input\nPOST /debug/tabs/2/replace-line\n"
    ));
    let closed = admit_debug_request(
        &head(Some(TEST_TOKEN)),
        &test_config(),
        "POST",
        "/debug/tabs/3/input",
        &[2],
    );
    assert!(matches!(closed, Destination::Answered(reply) if reply.status == 404));
}

#[test]
fn listed_endpoints_are_served() {
    let live = [4, 17];
    let listed =
        admit_debug_request(&head(Some(TEST_TOKEN)), &test_config(), "GET", "/debug/tabs", &live);
    let Destination::Answered(reply) = listed else {
        panic!("expected a list");
    };
    let mut reached = Vec::new();
    for line in reply.body.lines() {
        let (method, path) = line.split_once(' ').expect("method and path");
        match admit_debug_request(&head(Some(TEST_TOKEN)), &test_config(), method, path, &live) {
            Destination::Session(number, _) => reached.push(number),
            Destination::Answered(_) => panic!("{line} is not served"),
        }
    }
    assert_eq!(reached, vec![4, 4, 4, 4, 4, 17, 17, 17, 17, 17]);
}

#[test]
fn answers_of_a_session() {
    let mut session = Session::new("zsh", false);
    let empty = session.send(head(Some(TEST_TOKEN)), "GET", "/debug/screen", b"");
    assert_eq!(empty.body, "<empty screen>\n");
    session.state.update_screen_snapshot(
        GridSize { cols: 10, rows: 2 },
        1,
        3,
        vec!["one".to_string(), "two".to_string()],
    );
    let screen = session.send(head(Some(TEST_TOKEN)), "GET", "/debug/screen", b"");
    assert_eq!(screen.body, "one\ntwo\n");
    assert_eq!(screen.content_type.media_type(), "text/plain; charset=utf-8");
    assert_eq!(ContentType::Json.media_type(), "application/json; charset=utf-8");
    let no_writer = session.send(head(Some(TEST_TOKEN)), "POST", "/debug/input", b"x");
    assert_eq!(no_writer.status, 503);

    let cleared = session.send(head(Some(TEST_TOKEN)), "POST", "/debug/note", b" \n ");
    assert_eq!(cleared.body, "note cleared\n");
    let invalid = session.send(head(Some(TEST_TOKEN)), "POST", "/debug/note", &[0xff]);
    assert_eq!((invalid.status, invalid.body.as_str()), (400, "invalid note body\n"));
    assert_eq!(
        session.state.last_error.as_deref(),
        Some("failed to read note body: stream did not contain valid UTF-8")
    );

    session.has_writer = true;
    let empty_input = session.send(head(Some(TEST_TOKEN)), "POST", "/debug/input", b"");
    assert_eq!((empty_input.status, empty_input.body.as_str()), (400, "input body is empty\n"));

    let unread = handle_debug_body_error(Endpoint::ReplaceLine, "gone", &mut session.state);
    assert_eq!((unread.status, unread.body.as_str()), (400, "invalid replace-line body\n"));
    assert_eq!(
        session.state.last_error.as_deref(),
        Some("failed to read replace-line body: gone")
    );
    let unwritten =
        handle_debug_write(Endpoint::Input, 3, Some("gone".to_string()), &mut session.state);
    assert_eq!((unwritten.status, unwritten.body.as_str()), (500, "failed to write to pty\n"));
    assert_eq!(session.state.last_error.as_deref(), Some("debug input write failed: gone"));
}

#[test]
fn counters_and_summary() {
    let mut state = DebugState::new(
        "zsh".to_string(),
        "connected".to_string(),
        GridSize { cols: 80, rows: 24 },
    );
    state.record_bytes_from_pty(10);
    state.record_input_write(3, WriteOutcome::Done);
    state.record_bytes_to_pty(2, true);
    state.record_key_event();
    state.record_resize();
    state.record_http_request();
    assert_eq!(
        state.status_summary(61),
        "connected | 80x24 | in:10 out:5 key:1 inj:1 req:1 resize:1 up:61s dbg:starting"
    );
    state.set_listening_addr("127.0.0.1:37878".to_string());
    assert!(state.status_summary(0).ends_with("up:0s dbg:127.0.0.1:37878"));
    state.record_input_write(3, WriteOutcome::NoWriter);
    assert_eq!(
        state.last_error.as_deref(),
        Some("write skipped because PTY writer is unavailable")
    );
    state.record_input_write(3, WriteOutcome::Failed("gone".to_string()));
    assert_eq!(state.last_error.as_deref(), Some("failed to write input: gone"));
    assert_eq!(state.counters.bytes_to_pty, 5);
    state.counters.key_events = u64::MAX;
    state.record_key_event();
    assert_eq!(state.counters.key_events, 0);
}
