//! Handing items to the system.

use workspace_files::flow::Step;
use workspace_files::paths::Platform;
use workspace_files::system_open::{
    cmd_workspace_open_in_finder, cmd_workspace_open_with_default, spawn_default_open, spawn_reveal,
    CommandLine, OpenAsk, OpenMode, OpenSeen, SystemOpenResult,
};

const PLATFORMS: [Platform; 3] = [Platform::MacOs, Platform::Windows, Platform::OtherUnix];

struct Outcome {
    result: Result<SystemOpenResult, String>,
    started: Vec<CommandLine>,
}

fn open(
    platform: Platform,
    mode: OpenMode,
    path: &str,
    exists: bool,
    spawned: Result<(), String>,
) -> Outcome {
    let mut seen = OpenSeen::new();
    let mut started = Vec::new();
    for _ in 0..10 {
        let step = match mode {
            OpenMode::Reveal => cmd_workspace_open_in_finder(platform, "/ws", path, &seen),
            OpenMode::DefaultApp => cmd_workspace_open_with_default(platform, "/ws", path, &seen),
        };
        match step {
            Step::Done(result) => return Outcome { result, started },
            Step::Ask(OpenAsk::CheckRoot(w)) => {
                assert_eq!(w, "/ws");
                seen.root = Some(Ok(()));
            }
            Step::Ask(OpenAsk::Resolve(p)) => {
                seen.target = Some(if p.starts_with("..") {
                    Err("Path escapes workspace".to_string())
                } else {
                    Ok(format!("/ws/{}", p))
                })
            }
            Step::Ask(OpenAsk::Exists) => seen.exists = Some(exists),
            Step::Ask(OpenAsk::Spawn(command)) => {
                started.push(command);
                seen.spawned = Some(spawned.clone());
            }
        }
    }
    panic!("the operation does not end");
}

fn words(command: &CommandLine) -> Vec<&str> {
    let mut words = vec![command.program.as_str()];
    words.extend(command.args.iter().map(|a| a.as_str()));
    words
}

#[test]
fn rejects_missing_target() {
    let out = open(Platform::MacOs, OpenMode::DefaultApp, "nope.txt", false, Ok(()));
    assert!(out.result.is_err());
    assert_eq!(out.result.unwrap_err(), "File not found");
    assert!(out.started.is_empty());
}

#[test]
fn system_open_rejects_traversal() {
    let out = open(Platform::MacOs, OpenMode::DefaultApp, "../etc/hosts", true, Ok(()));
    assert!(out.result.is_err());
    assert_eq!(out.result.unwrap_err(), "Path escapes workspace");
    assert!(out.started.is_empty());
}

#[test]
fn opens_existing_items() {
    for platform in PLATFORMS {
        for mode in [OpenMode::Reveal, OpenMode::DefaultApp] {
            let out = open(platform, mode, " a b.txt ", true, Ok(()));
            assert!(out.result.unwrap().success);
            assert_eq!(out.started.len(), 1);
        }
    }
    let out = open(Platform::OtherUnix, OpenMode::DefaultApp, " a.txt ", true, Ok(()));
    assert_eq!(words(&out.started[0]), vec!["xdg-open", "/ws/a.txt"]);
    let out = open(Platform::OtherUnix, OpenMode::Reveal, "d/a.txt", true, Ok(()));
    assert_eq!(words(&out.started[0]), vec!["xdg-open", "/ws/d"]);
}

#[test]
fn refused_workspaces_and_missing_items_are_errors() {
    let mut seen = OpenSeen::new();
    seen.root = Some(Err("no workspace".to_string()));
    assert!(matches!(
        cmd_workspace_open_in_finder(Platform::MacOs, "/ws", "a", &seen),
        Step::Done(Err(e)) if e == "no workspace"
    ));
    let out = open(Platform::MacOs, OpenMode::Reveal, "a", false, Ok(()));
    assert_eq!(out.result.unwrap_err(), "File or folder not found");
}

#[test]
fn failures_to_start_name_the_program() {
    let failed = || Err("denied".to_string());
    let message = |platform, mode| open(platform, mode, "a", true, failed()).result.unwrap_err();
    assert_eq!(message(Platform::MacOs, OpenMode::Reveal), "open -R failed: denied");
    assert_eq!(message(Platform::Windows, OpenMode::Reveal), "explorer /select failed: denied");
    assert_eq!(message(Platform::OtherUnix, OpenMode::Reveal), "xdg-open failed: denied");
    assert_eq!(message(Platform::MacOs, OpenMode::DefaultApp), "open failed: denied");
    assert_eq!(
        message(Platform::Windows, OpenMode::DefaultApp),
        "powershell Start-Process failed: denied"
    );
    assert_eq!(message(Platform::OtherUnix, OpenMode::DefaultApp), "xdg-open failed: denied");
}

#[test]
fn commands_have_the_documented_form() {
    assert_eq!(words(&spawn_reveal(Platform::MacOs, "/a/b")), vec!["open", "-R", "/a/b"]);
    assert_eq!(
        words(&spawn_reveal(Platform::Windows, "C:\\a\\b")),
        vec!["explorer", "/select,", "C:\\a\\b"]
    );
    assert_eq!(words(&spawn_reveal(Platform::OtherUnix, "/a/b")), vec!["xdg-open", "/a"]);
    assert_eq!(words(&spawn_reveal(Platform::OtherUnix, "/")), vec!["xdg-open", "/"]);
    assert_eq!(words(&spawn_default_open(Platform::MacOs, "/a b")), vec!["open", "/a b"]);
    assert_eq!(words(&spawn_default_open(Platform::OtherUnix, "/a b")), vec!["xdg-open", "/a b"]);
    assert_eq!(
        words(&spawn_default_open(Platform::Windows, "C:\\x & y.txt")),
        vec!["powershell", "-NoProfile", "-Command", "Start-Process -FilePath 'C:\\x & y.txt'"]
    );
}

#[test]
fn single_quotes_in_paths_are_doubled() {
    let command = spawn_default_open(Platform::Windows, "C:\\it's ''here''");
    assert_eq!(command.args[2], "Start-Process -FilePath 'C:\\it''s ''''here'''''");
}
