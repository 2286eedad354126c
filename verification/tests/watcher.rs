//! Event keys, tokens and the registry of watchers.

use std::collections::hash_map::DefaultHasher;
use std::hash::{Hash, Hasher};

use workspace_files::watcher::{
    batch_event, cmd_workspace_watch_created, cmd_workspace_watch_start, cmd_workspace_watch_stop,
    event_key_for_workspace, format_token, parse_token, PendingWatch, WatchFailure, WatchHandle,
    WatchStart, WorkspaceWatchers, DEBOUNCE_SECONDS,
};

const NONCE: u64 = 0x0123_4567_89ab_cdef;

fn root(path: &str) -> Result<String, String> {
    Ok(path.to_string())
}

fn shared(start: WatchStart) -> WatchHandle {
    match start {
        WatchStart::Shared(handle) => handle,
        other => panic!("expected a shared watcher, got {:?}", other),
    }
}

fn pending(start: WatchStart) -> PendingWatch {
    match start {
        WatchStart::Create(pending) => pending,
        other => panic!("expected a new watcher, got {:?}", other),
    }
}

/// Starts a watch; a watcher that is needed is `watcher`.
fn start(state: &mut WorkspaceWatchers<&'static str>, path: &str, watcher: &'static str) -> WatchHandle {
    assert!(state.room());
    match cmd_workspace_watch_start(state, NONCE, root(path)) {
        WatchStart::Shared(handle) => handle,
        WatchStart::Create(pending) => {
            cmd_workspace_watch_created(state, pending, Ok(watcher)).unwrap()
        }
        WatchStart::Refused(e) => panic!("refused: {}", e),
    }
}

fn refs(state: &WorkspaceWatchers<&'static str>, key: &str) -> Option<usize> {
    state.inner.iter().find(|e| e.event_key == key).map(|e| e.refs)
}

#[test]
fn event_key_is_deterministic() {
    let k1 = event_key_for_workspace("/Users/alice/proj");
    let k2 = event_key_for_workspace("/Users/alice/proj");
    assert_eq!(k1, k2);
    let k3 = event_key_for_workspace("/Users/alice/other");
    assert_ne!(k1, k3);
}

#[test]
fn event_key_is_hex_16chars() {
    let k = event_key_for_workspace("any-path");
    assert_eq!(k.len(), 16);
    assert!(k.chars().all(|c| c.is_ascii_hexdigit()));
}

#[test]
fn event_key_is_the_hash_in_hexadecimal() {
    for path in ["", "/", "/Users/alice/proj", "C:\\work", "/tmp/\u{fc}nic\u{f6}de"] {
        let mut hasher = DefaultHasher::new();
        path.hash(&mut hasher);
        assert_eq!(event_key_for_workspace(path), format!("{:016x}", hasher.finish()));
    }
}

#[test]
fn token_index_routes_stop_to_correct_entry() {
    let mut registry: WorkspaceWatchers<&'static str> = WorkspaceWatchers::default();
    let tokens = &mut registry.token_index;
    tokens.insert(1, "key_a".to_string());
    tokens.insert(2, "key_a".to_string());
    tokens.insert(3, "key_b".to_string());

    assert_eq!(tokens.remove(&1).as_deref(), Some("key_a"));
    assert_eq!(tokens.remove(&3).as_deref(), Some("key_b"));
    assert_eq!(tokens.remove(&2).as_deref(), Some("key_a"));
    assert_eq!(tokens.remove(&999), None);
}

#[test]
fn next_token_is_monotonic() {
    let mut registry: WorkspaceWatchers<&'static str> = WorkspaceWatchers::default();
    let a = pending(cmd_workspace_watch_start(&mut registry, NONCE, root("/w"))).number;
    let b = pending(cmd_workspace_watch_start(&mut registry, NONCE, root("/w"))).number;
    let c = pending(cmd_workspace_watch_start(&mut registry, NONCE, root("/w"))).number;
    assert_eq!(b, a + 1);
    assert_eq!(c, a + 2);
}

#[test]
fn watch_stop_invalid_token_is_noop() {
    let mut registry: WorkspaceWatchers<&'static str> = WorkspaceWatchers::default();
    assert!(parse_token("not-hex", NONCE).is_none());
    assert!(parse_token("0123456789abcdef", NONCE).is_none());
    assert!(parse_token("0000000000000000-0000000000000001", NONCE).is_none());
    for token in ["not-hex", "0123456789abcdef", "0000000000000000-0000000000000001"] {
        assert_eq!(cmd_workspace_watch_stop(&mut registry, NONCE, token), None);
    }
    assert!(registry.inner.is_empty());
}

#[test]
fn parse_token_rejects_foreign_nonce() {
    let token = format!("{:016x}-{:016x}", NONCE, 42u64);
    assert_eq!(parse_token(&token, NONCE), Some(42));
    let bad_nonce = NONCE ^ 0x8000_0000_0000_0000;
    let foreign = format!("{:016x}-{:016x}", bad_nonce, 42u64);
    assert!(parse_token(&foreign, NONCE).is_none());
}

#[test]
fn tokens_have_the_documented_form() {
    assert_eq!(format_token(NONCE, 42), "0123456789abcdef-000000000000002a");
    assert_eq!(format_token(0, u64::MAX), "0000000000000000-ffffffffffffffff");
    assert_ne!(format_token(NONCE, 1), format_token(NONCE, 2));
}

#[test]
fn tokens_read_back() {
    for n in [0, 1, 15, 16, 42, 0xdead_beef, u64::MAX - 1, u64::MAX] {
        assert_eq!(parse_token(&format_token(NONCE, n), NONCE), Some(n));
        assert_eq!(parse_token(&format_token(n, 7), n), Some(7));
    }
}

#[test]
fn numbers_in_tokens_are_read_as_hexadecimal() {
    assert_eq!(parse_token("0-ff", 0), Some(255));
    assert_eq!(parse_token("0-FF", 0), Some(255));
    assert_eq!(parse_token("+0-+a", 0), Some(10));
    assert_eq!(parse_token("0-000000000000000000000001", 0), Some(1));
    assert_eq!(parse_token("0-10000000000000000", 0), None);
    assert_eq!(parse_token("0-", 0), None);
    assert_eq!(parse_token("-0", 0), None);
    assert_eq!(parse_token("0-+", 0), None);
    assert_eq!(parse_token("0-1-1", 0), None);
    assert_eq!(parse_token("0- 1", 0), None);
    assert_eq!(parse_token("0-g", 0), None);
}

#[test]
fn start_names_the_event_and_the_thread() {
    let mut state: WorkspaceWatchers<&'static str> = WorkspaceWatchers::default();
    let key = event_key_for_workspace("/w");
    let p = pending(cmd_workspace_watch_start(&mut state, NONCE, root("/w")));
    assert_eq!(p.handle.event_key, key);
    assert_eq!(p.handle.token, format_token(NONCE, 0));
    assert_eq!(p.event_name, format!("workspace:files-changed:{}", key));
    assert_eq!(p.thread_name, format!("ws-watcher:{}", &key[..8]));
}

#[test]
fn start_refuses_a_bad_workspace_and_changes_nothing() {
    let mut state: WorkspaceWatchers<&'static str> = WorkspaceWatchers::default();
    let r = cmd_workspace_watch_start(&mut state, NONCE, Err("no such workspace".to_string()));
    assert!(matches!(r, WatchStart::Refused(e) if e == "no such workspace"));
    assert_eq!(state.next_token, 0);
    assert!(state.inner.is_empty());
    assert!(state.token_index.is_empty());
}

#[test]
fn failed_watchers_are_not_registered() {
    let mut state: WorkspaceWatchers<&'static str> = WorkspaceWatchers::default();
    let failures = [
        (WatchFailure::Debouncer("a".to_string()), "create debouncer failed: a"),
        (WatchFailure::Watch("b".to_string()), "watch workspace failed: b"),
        (WatchFailure::Thread("c".to_string()), "spawn watcher thread failed: c"),
    ];
    for (failure, message) in failures {
        let p = pending(cmd_workspace_watch_start(&mut state, NONCE, root("/w")));
        let r = cmd_workspace_watch_created(&mut state, p, Err(failure));
        assert_eq!(r.unwrap_err(), message);
        assert!(state.inner.is_empty());
        assert!(state.token_index.is_empty());
    }
    assert_eq!(state.next_token, 3);
}

#[test]
fn one_watcher_is_shared_until_the_last_stop() {
    let mut state: WorkspaceWatchers<&'static str> = WorkspaceWatchers::default();
    let key = event_key_for_workspace("/w");
    let a = start(&mut state, "/w", "first");
    let b = shared(cmd_workspace_watch_start(&mut state, NONCE, root("/w")));
    assert_eq!(a.event_key, b.event_key);
    assert_ne!(a.token, b.token);
    assert_eq!(refs(&state, &key), Some(2));

    assert_eq!(cmd_workspace_watch_stop(&mut state, NONCE, &a.token), None);
    assert_eq!(refs(&state, &key), Some(1));
    assert_eq!(cmd_workspace_watch_stop(&mut state, NONCE, &a.token), None);
    assert_eq!(refs(&state, &key), Some(1));
    assert_eq!(cmd_workspace_watch_stop(&mut state, NONCE, &b.token), Some("first"));
    assert_eq!(refs(&state, &key), None);
    assert_eq!(cmd_workspace_watch_stop(&mut state, NONCE, &b.token), None);
}

#[test]
fn stop_spares_other_workspaces() {
    let mut state: WorkspaceWatchers<&'static str> = WorkspaceWatchers::default();
    let a = start(&mut state, "/a", "watcher of a");
    let b = start(&mut state, "/b", "watcher of b");
    let c = start(&mut state, "/a", "never needed");
    assert_eq!(state.inner.len(), 2);
    assert_eq!(refs(&state, &a.event_key), Some(2));
    assert_eq!(refs(&state, &b.event_key), Some(1));

    assert_eq!(cmd_workspace_watch_stop(&mut state, NONCE, &b.token), Some("watcher of b"));
    assert_eq!(refs(&state, &a.event_key), Some(2));
    assert_eq!(cmd_workspace_watch_stop(&mut state, NONCE, &c.token), None);
    assert_eq!(cmd_workspace_watch_stop(&mut state, NONCE, &a.token), Some("watcher of a"));
    assert!(state.inner.is_empty());
    assert!(state.token_index.is_empty());
    assert_eq!(state.next_token, 3);
}

#[test]
fn a_token_of_another_process_stops_nothing() {
    let mut state: WorkspaceWatchers<&'static str> = WorkspaceWatchers::default();
    let a = start(&mut state, "/a", "w");
    let foreign = format_token(NONCE + 1, 0);
    assert_eq!(cmd_workspace_watch_stop(&mut state, NONCE, &foreign), None);
    assert_eq!(refs(&state, &a.event_key), Some(1));
}

#[test]
fn room_is_told_from_the_counters() {
    let mut state: WorkspaceWatchers<&'static str> = WorkspaceWatchers::default();
    assert!(state.room());
    start(&mut state, "/a", "w");
    assert!(state.room());
    state.inner[0].refs = usize::MAX;
    assert!(!state.room());
    state.inner[0].refs = 1;
    state.next_token = u64::MAX;
    assert!(!state.room());
}

#[test]
fn changes_are_told_of_and_errors_are_not() {
    let event = batch_event(true, "workspace:files-changed:0", "/ws");
    assert_eq!(event, Some(("workspace:files-changed:0".to_string(), "/ws".to_string())));
    assert_eq!(batch_event(false, "workspace:files-changed:0", "/ws"), None);
    assert_eq!(DEBOUNCE_SECONDS, 5);
}

#[test]
fn event_keys_have_small_letters() {
    for i in 0..50 {
        let key = event_key_for_workspace(&format!("/ws/{}", i));
        assert_eq!(key, key.to_ascii_lowercase());
    }
}
