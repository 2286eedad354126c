//! Creating, renaming and moving items, played through against a disk in memory.

use std::collections::BTreeMap;

use workspace_files::crud::{
    cmd_workspace_new_file, cmd_workspace_new_folder, cmd_workspace_rename, CreateAsk,
    CreatePathResult, CreateSeen, NewItem, RenameAsk, RenameResult, RenameSeen,
};
use workspace_files::flow::Step;
use workspace_files::move_items::{
    cmd_workspace_move, offer, relativize, ItemOutcome, MoveAsk, MoveResult, MoveSeen, NameSearch,
    MAX_COUNTER,
};
use workspace_files::paths::Platform;

const WS: &str = "/ws";
const UNIX: Platform = Platform::OtherUnix;

#[derive(Clone, Copy, Debug, PartialEq)]
enum Node {
    File,
    Dir,
    BrokenLink,
}

/// A disk with one workspace.
struct Disk {
    nodes: BTreeMap<String, Node>,
    broken: Option<String>,
}

impl Disk {
    fn new(entries: &[(&str, Node)]) -> Disk {
        let mut nodes = BTreeMap::new();
        nodes.insert(WS.to_string(), Node::Dir);
        for (path, node) in entries {
            nodes.insert(format!("{}/{}", WS, path), *node);
        }
        Disk { nodes, broken: None }
    }

    fn check_name(&self, name: &str) -> Result<(), String> {
        if name.is_empty() || name.contains('/') || name.contains('\\') || name == ".." {
            Err("Invalid name".to_string())
        } else {
            Ok(())
        }
    }

    fn check_root(&self, workspace: &str) -> Result<String, String> {
        if workspace == WS {
            Ok(WS.to_string())
        } else {
            Err("Workspace not found".to_string())
        }
    }

    fn resolve(&self, path: &str) -> Result<String, String> {
        if path.starts_with('/') || path.split('/').any(|p| p == "..") {
            Err("Path escapes workspace".to_string())
        } else if path.is_empty() {
            Ok(WS.to_string())
        } else {
            Ok(format!("{}/{}", WS, path))
        }
    }

    fn node(&self, path: &str) -> Option<Node> {
        self.nodes.get(path).copied()
    }

    fn has(&self, path: &str) -> bool {
        self.node(&format!("{}/{}", WS, path)).is_some()
    }

    fn is_there(&self, path: &str) -> bool {
        matches!(self.node(path), Some(Node::File) | Some(Node::Dir))
    }

    fn is_dir(&self, path: &str) -> bool {
        self.node(path) == Some(Node::Dir)
    }

    fn outcome(&self) -> Result<(), String> {
        match &self.broken {
            Some(e) => Err(e.clone()),
            None => Ok(()),
        }
    }

    fn rename(&mut self, from: &str, to: &str) -> Result<(), String> {
        self.outcome()?;
        let below = format!("{}/", from);
        let moved: Vec<String> =
            self.nodes.keys().filter(|p| *p == from || p.starts_with(&below)).cloned().collect();
        for path in moved {
            let node = self.nodes.remove(&path).unwrap();
            self.nodes.insert(format!("{}{}", to, &path[from.len()..]), node);
        }
        Ok(())
    }
}

fn create(
    disk: &mut Disk,
    kind: NewItem,
    workspace: &str,
    parent_dir: &str,
    name: &str,
) -> Result<CreatePathResult, String> {
    let mut seen = CreateSeen::new();
    for _ in 0..10 {
        let step = match kind {
            NewItem::File => cmd_workspace_new_file(UNIX, workspace, parent_dir, name, &seen),
            NewItem::Folder => cmd_workspace_new_folder(UNIX, workspace, parent_dir, name, &seen),
        };
        let dir = match &seen.parent {
            Some(Ok(dir)) => dir.clone(),
            _ => String::new(),
        };
        match step {
            Step::Done(result) => return result,
            Step::Ask(CreateAsk::CheckName(n)) => seen.name = Some(disk.check_name(&n)),
            Step::Ask(CreateAsk::CheckRoot(w)) => seen.root = Some(disk.check_root(&w)),
            Step::Ask(CreateAsk::Resolve(p)) => seen.parent = Some(disk.resolve(&p)),
            Step::Ask(CreateAsk::ParentIsDir) => seen.parent_is_dir = Some(disk.is_dir(&dir)),
            Step::Ask(CreateAsk::SlotOccupied(n)) => {
                seen.slot_occupied = Some(disk.node(&format!("{}/{}", dir, n)).is_some())
            }
            Step::Ask(CreateAsk::Create(n)) => {
                let made = disk.outcome();
                if made.is_ok() {
                    let node = if kind == NewItem::File { Node::File } else { Node::Dir };
                    disk.nodes.insert(format!("{}/{}", dir, n), node);
                }
                seen.created = Some(made);
            }
        }
    }
    panic!("the operation does not end");
}

fn rename(disk: &mut Disk, workspace: &str, old: &str, new: &str) -> Result<RenameResult, String> {
    let mut seen = RenameSeen::new();
    for _ in 0..10 {
        let source = match &seen.source {
            Some(Ok(source)) => source.clone(),
            _ => String::new(),
        };
        let dir = match source.rfind('/') {
            Some(i) => source[..i].to_string(),
            None => String::new(),
        };
        match cmd_workspace_rename(UNIX, workspace, old, new, &seen) {
            Step::Done(result) => return result,
            Step::Ask(RenameAsk::CheckName(n)) => seen.name = Some(disk.check_name(&n)),
            Step::Ask(RenameAsk::CheckRoot(w)) => seen.root = Some(disk.check_root(&w)),
            Step::Ask(RenameAsk::Resolve(p)) => seen.source = Some(disk.resolve(&p)),
            Step::Ask(RenameAsk::SourceExists) => seen.source_exists = Some(disk.is_there(&source)),
            Step::Ask(RenameAsk::SlotOccupied(n)) => {
                seen.slot_occupied = Some(disk.node(&format!("{}/{}", dir, n)).is_some())
            }
            Step::Ask(RenameAsk::Rename(n)) => {
                seen.renamed = Some(disk.rename(&source, &format!("{}/{}", dir, n)))
            }
        }
    }
    panic!("the operation does not end");
}

fn move_items(disk: &mut Disk, sources: &[&str], target_dir: &str) -> Result<MoveResult, String> {
    let sources: Vec<String> = sources.iter().map(|s| s.to_string()).collect();
    let mut seen = MoveSeen::new();
    for _ in 0..20_000 {
        let source = match &seen.current.resolved {
            Some(Ok(source)) => source.clone(),
            _ => String::new(),
        };
        let target = match &seen.target {
            Some(Ok(target)) => target.clone(),
            _ => String::new(),
        };
        match cmd_workspace_move(UNIX, WS, &sources, target_dir, &seen) {
            Step::Done(result) => return result,
            Step::Ask(MoveAsk::CheckRoot(w)) => seen.root = Some(disk.check_root(&w)),
            Step::Ask(MoveAsk::ResolveTarget(p)) => seen.target = Some(disk.resolve(&p)),
            Step::Ask(MoveAsk::TargetIsDir) => seen.target_is_dir = Some(disk.is_dir(&target)),
            Step::Ask(MoveAsk::ResolveSource(p)) => seen.current.resolved = Some(disk.resolve(&p)),
            Step::Ask(MoveAsk::SourceExists) => seen.current.exists = Some(disk.is_there(&source)),
            Step::Ask(MoveAsk::NameTaken(n)) => {
                let taken = disk.node(&format!("{}/{}", target, n)).is_some();
                seen.current.names.note(taken);
            }
            Step::Ask(MoveAsk::MoveTo(n)) => {
                seen.current.moved = Some(disk.rename(&source, &format!("{}/{}", target, n)))
            }
            Step::Ask(MoveAsk::Record(outcome)) => seen.record(outcome),
        }
    }
    panic!("the operation does not end");
}

#[test]
fn creates_file() {
    let mut disk = Disk::new(&[]);
    let res = create(&mut disk, NewItem::File, WS, "", "hello.txt").unwrap();
    assert_eq!(res.path, "hello.txt");
    assert!(res.success);
    assert_eq!(disk.node("/ws/hello.txt"), Some(Node::File));
}

#[test]
fn rejects_existing_file() {
    let mut disk = Disk::new(&[("a.txt", Node::File)]);
    let res = create(&mut disk, NewItem::File, WS, "", "a.txt");
    assert!(res.is_err());
    assert_eq!(res.unwrap_err(), "File already exists");
}

#[test]
fn rejects_invalid_name() {
    let mut disk = Disk::new(&[]);
    let res = create(&mut disk, NewItem::File, WS, "", "../escape.txt");
    assert!(res.is_err());
    assert_eq!(disk.nodes.len(), 1);
}

#[test]
fn creates_folder() {
    let mut disk = Disk::new(&[]);
    let res = create(&mut disk, NewItem::Folder, WS, "", "subdir").unwrap();
    assert_eq!(res.path, "subdir");
    assert_eq!(disk.node("/ws/subdir"), Some(Node::Dir));
}

#[test]
fn renames_file() {
    let mut disk = Disk::new(&[("old.txt", Node::File)]);
    let res = rename(&mut disk, WS, "old.txt", "new.txt").unwrap();
    assert_eq!(res.new_path, "new.txt");
    assert_eq!(disk.node("/ws/new.txt"), Some(Node::File));
    assert!(!disk.has("old.txt"));
}

#[test]
fn rejects_rename_collision() {
    let mut disk = Disk::new(&[("a.txt", Node::File), ("b.txt", Node::File)]);
    let res = rename(&mut disk, WS, "a.txt", "b.txt");
    assert!(res.is_err());
    assert_eq!(res.unwrap_err(), "Target name already exists");
    assert!(disk.has("a.txt"));
}

#[test]
fn moves_files() {
    let mut disk = Disk::new(&[("dst", Node::Dir), ("a.txt", Node::File), ("b.txt", Node::File)]);
    let res = move_items(&mut disk, &["a.txt", "b.txt"], "dst").unwrap();
    assert_eq!(res.moved_files.len(), 2);
    assert_eq!(disk.node("/ws/dst/a.txt"), Some(Node::File));
    assert_eq!(disk.node("/ws/dst/b.txt"), Some(Node::File));
    assert_eq!(res.moved_files[0].old_path, "a.txt");
    assert_eq!(res.moved_files[0].new_path, "dst/a.txt");
    assert!(res.success);
    assert!(res.errors.is_empty());
}

#[test]
fn move_auto_renames_collision() {
    let mut disk =
        Disk::new(&[("dst", Node::Dir), ("dst/a.txt", Node::File), ("a.txt", Node::File)]);
    let res = move_items(&mut disk, &["a.txt"], "dst").unwrap();
    assert_eq!(res.moved_files[0].new_path, "dst/a (1).txt");
}

#[test]
fn move_blocks_dir_into_self() {
    let mut disk = Disk::new(&[("a", Node::Dir), ("a/b", Node::Dir)]);
    let res = move_items(&mut disk, &["a"], "a/b").unwrap();
    assert!(res.moved_files.is_empty());
    assert_eq!(res.errors.len(), 1);
    assert_eq!(res.errors[0], "Cannot move folder into itself: a");
}

#[test]
fn creates_in_a_subdirectory_with_trimmed_names() {
    let mut disk = Disk::new(&[("src", Node::Dir)]);
    let res = create(&mut disk, NewItem::File, WS, "  src ", "\tmain.rs\n").unwrap();
    assert_eq!(res.path, "src/main.rs");
    assert!(disk.has("src/main.rs"));
}

#[test]
fn create_reports_every_error() {
    let mut disk = Disk::new(&[("d", Node::Dir), ("f", Node::File)]);
    let file = NewItem::File;
    let folder = NewItem::Folder;
    assert_eq!(create(&mut disk, file, WS, "", "").unwrap_err(), "Invalid name");
    assert_eq!(create(&mut disk, file, "/no", "", "x").unwrap_err(), "Workspace not found");
    assert_eq!(create(&mut disk, file, WS, "../x", "x").unwrap_err(), "Path escapes workspace");
    assert_eq!(create(&mut disk, file, WS, "f", "x").unwrap_err(), "Parent directory does not exist");
    assert_eq!(create(&mut disk, file, WS, "no", "x").unwrap_err(), "Parent directory does not exist");
    assert_eq!(create(&mut disk, folder, WS, "", "d").unwrap_err(), "Folder already exists");
    disk.broken = Some("disk full".to_string());
    assert_eq!(create(&mut disk, file, WS, "", "x").unwrap_err(), "Failed to create file: disk full");
    assert_eq!(create(&mut disk, folder, WS, "", "x").unwrap_err(), "Failed to create folder: disk full");
}

#[test]
fn create_does_not_write_through_a_broken_link() {
    let mut disk = Disk::new(&[("link", Node::BrokenLink)]);
    assert_eq!(create(&mut disk, NewItem::File, WS, "", "link").unwrap_err(), "File already exists");
    assert_eq!(disk.node("/ws/link"), Some(Node::BrokenLink));
}

#[test]
fn an_item_outside_the_workspace_is_an_escape() {
    let seen = CreateSeen {
        name: Some(Ok(())),
        root: Some(Ok("/ws".to_string())),
        parent: Some(Ok("/elsewhere".to_string())),
        parent_is_dir: Some(true),
        slot_occupied: Some(false),
        created: Some(Ok(())),
    };
    match cmd_workspace_new_file(UNIX, WS, "", "x", &seen) {
        Step::Done(Err(e)) => assert_eq!(e, "Path escaped workspace"),
        _ => panic!("expected an error"),
    }
}

#[test]
fn created_paths_have_forward_slashes_on_windows() {
    let seen = CreateSeen {
        name: Some(Ok(())),
        root: Some(Ok("C:\\ws".to_string())),
        parent: Some(Ok("C:\\ws\\src\\deep".to_string())),
        parent_is_dir: Some(true),
        slot_occupied: Some(false),
        created: Some(Ok(())),
    };
    match cmd_workspace_new_folder(Platform::Windows, "C:\\ws", "src\\deep", "x", &seen) {
        Step::Done(Ok(r)) => assert_eq!(r.path, "src/deep/x"),
        _ => panic!("expected a result"),
    }
}

#[test]
fn rename_keeps_the_directory() {
    let mut disk = Disk::new(&[("src", Node::Dir), ("src/a.rs", Node::File)]);
    let res = rename(&mut disk, WS, " src/a.rs ", " b.rs ").unwrap();
    assert!(res.success);
    assert_eq!(res.new_path, "src/b.rs");
    assert!(disk.has("src/b.rs"));
    assert!(!disk.has("src/a.rs"));
}

#[test]
fn rename_reports_every_error() {
    let mut disk = Disk::new(&[("a", Node::File), ("link", Node::BrokenLink)]);
    assert_eq!(rename(&mut disk, WS, "a", "x/y").unwrap_err(), "Invalid name");
    assert_eq!(rename(&mut disk, "/no", "a", "b").unwrap_err(), "Workspace not found");
    assert_eq!(rename(&mut disk, WS, "../a", "b").unwrap_err(), "Path escapes workspace");
    assert_eq!(rename(&mut disk, WS, "no", "b").unwrap_err(), "File or folder not found");
    assert_eq!(rename(&mut disk, WS, "a", "link").unwrap_err(), "Target name already exists");
    disk.broken = Some("busy".to_string());
    assert_eq!(rename(&mut disk, WS, "a", "b").unwrap_err(), "Rename failed: busy");
    let mut seen = RenameSeen::new();
    seen.name = Some(Ok(()));
    seen.root = Some(Ok("/".to_string()));
    seen.source = Some(Ok("/".to_string()));
    seen.source_exists = Some(true);
    match cmd_workspace_rename(UNIX, "/", "", "b", &seen) {
        Step::Done(Err(e)) => assert_eq!(e, "No parent directory"),
        _ => panic!("expected an error"),
    }
    seen.root = Some(Ok("/ws/deep".to_string()));
    seen.source = Some(Ok("/ws/other".to_string()));
    seen.slot_occupied = Some(false);
    seen.renamed = Some(Ok(()));
    match cmd_workspace_rename(UNIX, "/ws/deep", "other", "b", &seen) {
        Step::Done(Err(e)) => assert_eq!(e, "Path escaped workspace"),
        _ => panic!("expected an error"),
    }
}

#[test]
fn a_drive_has_no_parent_directory() {
    let mut seen = RenameSeen::new();
    seen.name = Some(Ok(()));
    seen.root = Some(Ok("C:\\".to_string()));
    seen.source = Some(Ok("C:\\".to_string()));
    seen.source_exists = Some(true);
    assert!(matches!(
        cmd_workspace_rename(Platform::Windows, "C:\\", "", "b", &seen),
        Step::Done(Err(e)) if e == "No parent directory"
    ));
    seen.source = Some(Ok("C:\\a".to_string()));
    seen.slot_occupied = Some(false);
    seen.renamed = Some(Ok(()));
    assert!(matches!(
        cmd_workspace_rename(Platform::Windows, "C:\\", "a", "b", &seen),
        Step::Done(Ok(r)) if r.new_path == "b"
    ));
}

#[test]
fn a_refused_name_is_never_created() {
    let mut seen = CreateSeen::new();
    seen.name = Some(Err("bad".to_string()));
    assert!(matches!(
        cmd_workspace_new_file(UNIX, WS, "", "x", &seen),
        Step::Done(Err(e)) if e == "bad"
    ));
}

#[test]
fn offered_names_count_up_before_the_extension() {
    assert_eq!(offer("a.txt", 0), "a.txt");
    assert_eq!(offer("a.txt", 1), "a (1).txt");
    assert_eq!(offer("a.txt", 12), "a (12).txt");
    assert_eq!(offer("archive.tar.gz", 2), "archive.tar (2).gz");
    assert_eq!(offer("Makefile", 1), "Makefile (1)");
    assert_eq!(offer(".env", 1), ".env (1)");
    assert_eq!(offer("dot.", 3), "dot (3).");
    assert_eq!(offer("", 1), " (1)");
    assert_eq!(offer("a.txt", MAX_COUNTER), "a (9999).txt");
    assert_eq!(offer("\u{e4}.\u{f6}", 1), "\u{e4} (1).\u{f6}");
}

#[test]
fn offered_names_are_all_different() {
    let names: Vec<String> = (0..300).map(|k| offer("a (1).txt", k)).collect();
    for i in 0..names.len() {
        for j in 0..i {
            assert_ne!(names[i], names[j]);
        }
    }
}

#[test]
fn search_stops_at_the_first_free_name() {
    let mut search = NameSearch::new();
    search.note(true);
    search.note(true);
    search.note(false);
    assert_eq!(search, NameSearch { taken: 2, free: true });
    let mut disk = Disk::new(&[
        ("dst", Node::Dir),
        ("dst/a.txt", Node::File),
        ("dst/a (1).txt", Node::BrokenLink),
        ("dst/a (3).txt", Node::File),
        ("a.txt", Node::File),
    ]);
    let res = move_items(&mut disk, &["a.txt"], "dst").unwrap();
    assert_eq!(res.moved_files[0].new_path, "dst/a (2).txt");
}

#[test]
fn search_gives_up_after_the_last_counter() {
    let mut entries: Vec<(String, Node)> = vec![("dst".to_string(), Node::Dir)];
    for k in 0..=MAX_COUNTER {
        entries.push((format!("dst/{}", offer("a", k)), Node::File));
    }
    entries.push(("a".to_string(), Node::File));
    let borrowed: Vec<(&str, Node)> = entries.iter().map(|(p, n)| (p.as_str(), *n)).collect();
    let mut disk = Disk::new(&borrowed);
    let res = move_items(&mut disk, &["a"], "dst").unwrap();
    assert_eq!(res.moved_files[0].new_path, "dst/a");
}

#[test]
fn move_reports_each_source_on_its_own() {
    let mut disk = Disk::new(&[
        ("dst", Node::Dir),
        ("dst/here", Node::File),
        ("a", Node::File),
        ("link", Node::BrokenLink),
    ]);
    let res =
        move_items(&mut disk, &["../x", "missing", "dst", " dst/here ", "a", "link"], " dst ").unwrap();
    assert_eq!(
        res.errors,
        vec![
            "Invalid source ../x: Path escapes workspace",
            "Not found: missing",
            "Cannot move folder into itself: dst",
            "Not found: link",
        ]
    );
    assert_eq!(res.moved_files.len(), 1);
    assert_eq!(res.moved_files[0].new_path, "dst/a");
    assert!(disk.has("dst/here"));
}

#[test]
fn move_reports_errors_of_the_whole() {
    let mut disk = Disk::new(&[("f", Node::File), ("g", Node::File), ("dst", Node::Dir)]);
    assert_eq!(move_items(&mut disk, &[], "dst").unwrap_err(), "sourcePaths is required");
    assert_eq!(move_items(&mut disk, &["f"], "../x").unwrap_err(), "Path escapes workspace");
    assert_eq!(
        move_items(&mut disk, &["f"], "g").unwrap_err(),
        "Target must be an existing directory"
    );
    disk.broken = Some("busy".to_string());
    let res = move_items(&mut disk, &[" f "], "dst").unwrap();
    assert_eq!(res.errors, vec!["Move f failed: busy"]);
    let mut seen = MoveSeen::new();
    seen.root = Some(Err("no".to_string()));
    let sources = vec!["f".to_string()];
    assert!(matches!(
        cmd_workspace_move(UNIX, WS, &sources, "dst", &seen),
        Step::Done(Err(e)) if e == "no"
    ));
}

#[test]
fn a_source_without_a_name_is_an_error() {
    let mut seen = MoveSeen::new();
    seen.root = Some(Ok("/ws".to_string()));
    seen.target = Some(Ok("/ws/dst".to_string()));
    seen.target_is_dir = Some(true);
    seen.current.resolved = Some(Ok("/ws/..".to_string()));
    seen.current.exists = Some(true);
    let sources = vec!["x".to_string()];
    match cmd_workspace_move(UNIX, "/ws", &sources, "dst", &seen) {
        Step::Ask(MoveAsk::Record(ItemOutcome::Failed(e))) => {
            assert_eq!(e, "Cannot determine filename for x")
        }
        _ => panic!("expected a failure"),
    }
}

#[test]
fn a_share_cannot_be_moved() {
    let mut seen = MoveSeen::new();
    seen.root = Some(Ok("C:\\ws".to_string()));
    seen.target = Some(Ok("C:\\ws\\dst".to_string()));
    seen.target_is_dir = Some(true);
    seen.current.resolved = Some(Ok("\\\\server\\share".to_string()));
    seen.current.exists = Some(true);
    let sources = vec!["x".to_string()];
    match cmd_workspace_move(Platform::Windows, "C:\\ws", &sources, "dst", &seen) {
        Step::Ask(MoveAsk::Record(ItemOutcome::Failed(e))) => {
            assert_eq!(e, "Cannot determine filename for x")
        }
        _ => panic!("expected a failure"),
    }
}

#[test]
fn moving_keeps_every_file() {
    let mut disk = Disk::new(&[
        ("d", Node::Dir),
        ("d/x", Node::File),
        ("d/sub", Node::Dir),
        ("d/sub/y", Node::BrokenLink),
        ("dst", Node::Dir),
        ("dst/d", Node::Dir),
        ("dst/d/x", Node::File),
        ("other", Node::File),
    ]);
    let mut expected = disk.nodes.clone();
    for (old, new) in [
        ("/ws/d", "/ws/dst/d (1)"),
        ("/ws/d/x", "/ws/dst/d (1)/x"),
        ("/ws/d/sub", "/ws/dst/d (1)/sub"),
        ("/ws/d/sub/y", "/ws/dst/d (1)/sub/y"),
    ] {
        let node = expected.remove(old).unwrap();
        assert!(expected.insert(new.to_string(), node).is_none());
    }
    let res = move_items(&mut disk, &["d"], "dst").unwrap();
    assert_eq!(res.moved_files[0].new_path, "dst/d (1)");
    assert_eq!(disk.nodes, expected);
}

#[test]
fn renaming_back_restores_the_path() {
    let mut disk = Disk::new(&[("d", Node::Dir), ("d/a", Node::Dir), ("d/a/x", Node::File)]);
    let before = disk.nodes.clone();
    let there = rename(&mut disk, WS, "d/a", "b").unwrap();
    assert_eq!(there.new_path, "d/b");
    assert!(disk.has("d/b/x"));
    let back = rename(&mut disk, WS, &there.new_path, "a").unwrap();
    assert_eq!(back.new_path, "d/a");
    assert_eq!(disk.nodes, before);
}

#[test]
fn a_directory_with_a_longer_name_is_no_descendant() {
    let mut disk = Disk::new(&[("a", Node::Dir), ("ab", Node::Dir)]);
    let res = move_items(&mut disk, &["a"], "ab").unwrap();
    assert_eq!(res.moved_files[0].new_path, "ab/a");
}

#[test]
fn relative_forms_use_forward_slashes() {
    assert_eq!(relativize(UNIX, "/ws/a/b", "/ws"), "a/b");
    assert_eq!(relativize(UNIX, "/other/b", "/ws"), "/other/b");
    assert_eq!(relativize(UNIX, "/ws", "/ws"), "");
    assert_eq!(relativize(Platform::Windows, "C:\\ws\\a\\b", "C:\\ws"), "a/b");
    assert_eq!(relativize(Platform::Windows, "D:\\x", "C:\\ws"), "D:\\x");
}
