//! Checking which paths exist, played through against a disk in memory.

use workspace_files::check_paths::{
    check_one, cmd_workspace_check_paths, CheckAsk, CheckPathsResult, CheckSeen, Found, LookupSeen,
    PathInfo, PathInfos, MAX_BATCH_SIZE,
};
use workspace_files::flow::Step;

fn find(path: &str) -> Found {
    match path {
        "a.txt" => Found::SomethingElse,
        "b" => Found::Directory,
        _ => Found::Nothing,
    }
}

fn check(paths: &[&str]) -> Result<CheckPathsResult, String> {
    let paths: Vec<String> = paths.iter().map(|p| p.to_string()).collect();
    let mut seen = CheckSeen::new();
    let mut current = String::new();
    for _ in 0..2000 {
        match cmd_workspace_check_paths("/ws", &paths, &seen) {
            Step::Done(result) => return result,
            Step::Ask(CheckAsk::CheckRoot(w)) => {
                assert_eq!(w, "/ws");
                seen.root = Some(Ok(w));
            }
            Step::Ask(CheckAsk::Resolve(p)) => {
                seen.current.resolved = Some(!p.starts_with('/') && !p.contains(".."));
                current = p;
            }
            Step::Ask(CheckAsk::Look) => seen.current.found = Some(find(&current)),
            Step::Ask(CheckAsk::Record(info)) => seen.record(info),
        }
    }
    panic!("the operation does not end");
}

#[test]
fn returns_correct_kinds() {
    let res = check(&["a.txt", "b", "missing"]).unwrap();
    assert_eq!(res.results.get("a.txt").unwrap().exists, true);
    assert_eq!(res.results.get("a.txt").unwrap().kind, "file");
    assert_eq!(res.results.get("b").unwrap().exists, true);
    assert_eq!(res.results.get("b").unwrap().kind, "dir");
    assert_eq!(res.results.get("missing").unwrap().exists, false);
    assert_eq!(res.results.get("missing").unwrap().kind, "file");
}

#[test]
fn traversal_collapses_to_not_found() {
    let res = check(&["../etc/hosts", "/etc/passwd"]).unwrap();
    assert_eq!(res.results.get("../etc/hosts").unwrap().exists, false);
    assert_eq!(res.results.get("/etc/passwd").unwrap().exists, false);
}

#[test]
fn empty_batch_is_ok() {
    let res = check(&[]).unwrap();
    assert!(res.results.is_empty());
}

#[test]
fn rejects_oversized_batch() {
    let paths: Vec<String> = (0..MAX_BATCH_SIZE + 1).map(|i| format!("p{}", i)).collect();
    let borrowed: Vec<&str> = paths.iter().map(|p| p.as_str()).collect();
    let res = check(&borrowed);
    assert!(res.is_err());
    let message = res.unwrap_err();
    assert!(message.contains("max"));
    assert_eq!(message, "Too many paths (max 200).");
}

#[test]
fn empty_string_path_is_not_found() {
    let res = check(&["", "  "]).unwrap();
    assert_eq!(res.results.get("").unwrap().exists, false);
    assert_eq!(res.results.get("  ").unwrap().exists, false);
}

#[test]
fn response_keys_echo_input() {
    let res = check(&["a.txt"]).unwrap();
    assert!(res.results.contains_key("a.txt"));
}

#[test]
fn a_full_batch_is_answered_in_order() {
    let paths: Vec<String> = (0..MAX_BATCH_SIZE).map(|i| format!("p{}", i)).collect();
    let borrowed: Vec<&str> = paths.iter().map(|p| p.as_str()).collect();
    let res = check(&borrowed).unwrap();
    let given: Vec<&str> = res.results.entries.iter().map(|e| e.path.as_str()).collect();
    assert_eq!(given, borrowed);
}

#[test]
fn repeated_paths_are_answered_once_and_keep_their_place() {
    let res = check(&["b", " b", "a.txt", "b"]).unwrap();
    let given: Vec<&str> = res.results.entries.iter().map(|e| e.path.as_str()).collect();
    assert_eq!(given, vec!["b", " b", "a.txt"]);
    assert_eq!(res.results.get(" b").unwrap().kind, "dir");
}

#[test]
fn a_refused_workspace_is_an_error() {
    let mut seen = CheckSeen::new();
    seen.root = Some(Err("no".to_string()));
    assert!(matches!(
        cmd_workspace_check_paths("/ws", &vec![], &seen),
        Step::Done(Err(e)) if e == "no"
    ));
}

#[test]
fn one_path_is_resolved_before_it_is_looked_at() {
    let mut seen = LookupSeen::new();
    assert!(matches!(check_one(" a ", &seen), CheckAsk::Resolve(p) if p == "a"));
    seen.resolved = Some(true);
    assert!(matches!(check_one("a", &seen), CheckAsk::Look));
    seen.found = Some(Found::Directory);
    assert!(matches!(check_one("a", &seen), CheckAsk::Record(i) if i.exists && i.kind == "dir"));
    seen.resolved = Some(false);
    assert!(matches!(check_one("a", &seen), CheckAsk::Record(i) if !i.exists && i.kind == "file"));
    assert!(matches!(check_one("\t\n", &LookupSeen::new()), CheckAsk::Record(i) if !i.exists));
}

#[test]
fn a_later_answer_replaces_an_earlier_one() {
    let mut infos = PathInfos::new();
    infos.insert("a".to_string(), PathInfo { exists: false, kind: "file".to_string() });
    infos.insert("b".to_string(), PathInfo { exists: false, kind: "file".to_string() });
    infos.insert("a".to_string(), PathInfo { exists: true, kind: "dir".to_string() });
    assert_eq!(infos.entries.len(), 2);
    assert_eq!(infos.get("a").unwrap().kind, "dir");
    assert_eq!(infos.get("b").unwrap().exists, false);
    assert!(infos.get("c").is_none());
    assert!(!infos.contains_key("c"));
    assert_eq!(infos.entries[0].path, "a");
}
