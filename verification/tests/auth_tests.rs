use oxibus::auth::client::{ClientAction, ClientAuth, ClientCookieEnv};
use oxibus::auth::keyring::{parse_keyring_text, Keyring, DEFAULT_CONTEXT};
use oxibus::auth::mechanism::Mechanism;
use sha1::Digest;
use oxibus::auth::server::{CookieEnv, ServerAction, ServerAuth, MAX_FAILURES};
use oxibus::credentials::PeerCredentials;

fn peer(uid: u32) -> PeerCredentials {
    PeerCredentials { uid, gid: uid, pid: 1 }
}

fn no_cookie(uid: u32) -> CookieEnv {
    CookieEnv { our_uid: uid, best_key: None, key_hex: None, challenge: Vec::new() }
}

#[test]
fn external_with_initial_response_matching_peer_authenticates() {
    let my_uid = 1000u32;
    let env = no_cookie(my_uid);
    let mut auth = ServerAuth::new(peer(my_uid), vec![Mechanism::External], false, "deadbeef".into(), None);
    let hex_uid = hex::encode(my_uid.to_string());
    let action = auth.feed_line(&format!("AUTH EXTERNAL {hex_uid}"), &env);
    match action {
        ServerAction::Send(lines) => assert!(lines[0].starts_with("OK ")),
        other => panic!("expected OK, got {other:?}"),
    }
    let begin = auth.feed_line("BEGIN", &env);
    assert!(matches!(begin, ServerAction::Begin { uid: Some(u) } if u == my_uid));
}

#[test]
fn external_with_mismatched_uid_is_rejected() {
    let env = no_cookie(1000);
    let mut auth = ServerAuth::new(peer(1000), vec![Mechanism::External], false, "deadbeef".into(), None);
    let hex_uid = hex::encode("9999");
    let action = auth.feed_line(&format!("AUTH EXTERNAL {hex_uid}"), &env);
    match action {
        ServerAction::Send(lines) => assert!(lines[0].starts_with("REJECTED")),
        other => panic!("expected REJECTED, got {other:?}"),
    }
}

#[test]
fn unknown_mechanism_is_rejected() {
    let env = no_cookie(1000);
    let mut auth = ServerAuth::new(peer(1000), vec![Mechanism::External], false, "g".into(), None);
    let action = auth.feed_line("AUTH BOGUS", &env);
    assert!(matches!(action, ServerAction::Send(_)));
}

#[test]
fn anonymous_disallowed_by_default() {
    let env = no_cookie(1000);
    let mut auth = ServerAuth::new(peer(1000), vec![Mechanism::Anonymous], false, "g".into(), None);
    let action = auth.feed_line("AUTH ANONYMOUS 74657374", &env);
    match action {
        ServerAction::Send(lines) => assert!(lines[0].starts_with("REJECTED")),
        other => panic!("expected REJECTED, got {other:?}"),
    }
}

#[test]
fn anonymous_allowed_authenticates_with_no_uid() {
    let env = no_cookie(1000);
    let mut auth = ServerAuth::new(peer(1000), vec![Mechanism::Anonymous], true, "g".into(), None);
    let action = auth.feed_line("AUTH ANONYMOUS 74657374", &env);
    assert!(matches!(action, ServerAction::Send(ref l) if l[0].starts_with("OK ")));
    let begin = auth.feed_line("BEGIN", &env);
    assert!(matches!(begin, ServerAction::Begin { uid: None }));
}

#[test]
fn max_failures_disconnects() {
    let env = no_cookie(1000);
    let mut auth = ServerAuth::new(peer(1000), vec![Mechanism::External], false, "g".into(), None);
    let mut last = ServerAction::Send(vec![]);
    for _ in 0..MAX_FAILURES {
        last = auth.feed_line("AUTH BOGUS", &env);
    }
    assert!(matches!(last, ServerAction::Disconnect(_)));
}

#[test]
fn ok_line_carries_the_guid() {
    let env = no_cookie(42);
    let mut auth = ServerAuth::new(peer(42), vec![Mechanism::External], false, "cafe".into(), None);
    let action = auth.feed_line(&format!("AUTH EXTERNAL {}", hex::encode("42")), &env);
    match action {
        ServerAction::Send(lines) => assert_eq!(lines[0], "OK cafe"),
        other => panic!("expected OK, got {other:?}"),
    }
}

#[test]
fn mechanism_names_parse_back() {
    for m in [Mechanism::External, Mechanism::DbusCookieSha1, Mechanism::Anonymous] {
        assert_eq!(Mechanism::parse(m.name()), Some(m));
    }
    assert_eq!(Mechanism::parse("PLAIN"), None);
}

#[test]
fn cookie_sha1_full_handshake() {
    let my_uid = 1000u32;
    let mut keyring = Keyring::new("/home/u/.dbus-keyrings".to_string(), DEFAULT_CONTEXT.to_string(), vec![]);
    let (id, added) = keyring.best_key(1_700_000_000);
    assert!(added);
    let mut server = ServerAuth::new(
        peer(my_uid),
        vec![Mechanism::DbusCookieSha1],
        false,
        "guid1".into(),
        Some("/home/u".to_string()),
    );
    let first_env = CookieEnv { our_uid: my_uid, best_key: Some(id), key_hex: None, challenge: vec![9u8; 16] };
    let hex_uid = hex::encode(my_uid.to_string());
    let first = server.feed_line(&format!("AUTH DBUS_COOKIE_SHA1 {hex_uid}"), &first_env);
    let ServerAction::Send(lines) = first else { panic!("expected DATA challenge") };
    assert!(lines[0].starts_with("DATA "));
    let payload = String::from_utf8(hex::decode(lines[0].strip_prefix("DATA ").unwrap()).unwrap()).unwrap();
    let mut it = payload.splitn(3, ' ');
    let context = it.next().unwrap();
    let cookie_id: u32 = it.next().unwrap().parse().unwrap();
    let server_challenge_hex = it.next().unwrap().to_string();
    assert_eq!(context, DEFAULT_CONTEXT);
    assert_eq!(cookie_id, id);

    let reread = Keyring::new(String::new(), String::new(), parse_keyring_text(&keyring.file_text()).unwrap());
    let cookie_hex = reread.hex_key(cookie_id).unwrap();
    let client_challenge_hex = hex::encode([7u8; 16]);
    let to_hash = format!("{server_challenge_hex}:{client_challenge_hex}:{cookie_hex}");
    let hash_hex = hex::encode(sha1::Sha1::digest(to_hash.as_bytes()));
    let response = format!("{client_challenge_hex} {hash_hex}");
    let second_env = CookieEnv { our_uid: my_uid, best_key: None, key_hex: Some(cookie_hex.clone()), challenge: vec![] };
    match server.feed_line(&format!("DATA {}", hex::encode(response)), &second_env) {
        ServerAction::Send(lines) => assert!(lines[0].starts_with("OK ")),
        other => panic!("expected OK, got {other:?}"),
    }
}

#[test]
fn best_key_creates_and_reuses() {
    let mut kr = Keyring::new("/tmp/keyrings".to_string(), "test_context".to_string(), vec![]);
    let (id1, _) = kr.best_key(1_700_000_000);
    let (id2, added) = kr.best_key(1_700_000_010);
    assert_eq!(id1, id2);
    assert!(!added);
    let kr2 = Keyring::new(String::new(), String::new(), parse_keyring_text(&kr.file_text()).unwrap());
    assert!(kr2.hex_key(id1).is_some());
}

#[test]
fn client_without_mechanisms_reads_final_lines() {
    let env = ClientCookieEnv { key_hex: Ok(None), challenge: vec![] };
    let mut c = ClientAuth::new(vec![], false, None, 1000);
    assert!(!c.has_more_mechanisms());
    assert!(c.try_next_mechanism().is_none());
    assert!(matches!(c.feed_line("ERROR nope", &env), ClientAction::ProtocolError(m) if m == "nope"));
    assert!(matches!(c.feed_line("REJECTED EXTERNAL", &env), ClientAction::MechanismRejected { .. }));
    assert!(matches!(c.feed_line("OK 1234", &env), ClientAction::Authenticated));
}

#[test]
fn client_tries_mechanisms_one_by_one() {
    let ms = vec![Mechanism::External, Mechanism::DbusCookieSha1, Mechanism::Anonymous];
    let mut c = ClientAuth::new(ms, false, None, 1000);
    assert!(c.start().starts_with("AUTH EXTERNAL "));
    assert!(c.has_more_mechanisms());
    assert!(c.try_next_mechanism().unwrap().starts_with("AUTH DBUS_COOKIE_SHA1 "));
    assert!(c.has_more_mechanisms());
    assert!(c.try_next_mechanism().unwrap().starts_with("AUTH ANONYMOUS "));
    assert!(!c.has_more_mechanisms());
    assert!(c.try_next_mechanism().is_none());
    assert!(c.try_next_mechanism().is_none());
}
