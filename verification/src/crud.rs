//! Creating and renaming items in a workspace.

use vstd::prelude::*;

use crate::files::{files_renamed, is_free, keeps_every_file, law_renaming_back_restores};
use crate::files::law_renaming_keeps_every_file;
use crate::flow::{unknown, Step, StepView};
use crate::path_laws::{is_single_component, law_join_adds_component, law_join_stays_within};
use crate::path_laws::{are_plain_names, directory_below, law_item_below_root};
use crate::path_laws::{law_parent_drops_last_component, law_parent_undoes_join, takes_names};
use crate::paths::{components, is_within, join, joined_path, parent, parent_of, Platform};
use crate::paths::{to_workspace_relative, workspace_relative};
use crate::text::{concat2, joined, trim, trimmed};

verus! {

/// What the renderer is told about a new item.
#[derive(Debug)]
pub struct CreatePathResult {
    pub success: bool,
    pub path: String,
}

/// A [`CreatePathResult`] with its text as a character sequence.
#[verifier::ext_equal]
pub struct CreatePathView {
    pub success: bool,
    pub path: Seq<char>,
}

impl View for CreatePathResult {
    type V = CreatePathView;

    open spec fn view(&self) -> CreatePathView {
        CreatePathView { success: self.success, path: self.path@ }
    }
}

/// What the renderer is told about a renamed item.
#[derive(Debug)]
pub struct RenameResult {
    pub success: bool,
    pub new_path: String,
}

/// A [`RenameResult`] with its text as a character sequence.
#[verifier::ext_equal]
pub struct RenameView {
    pub success: bool,
    pub new_path: Seq<char>,
}

impl View for RenameResult {
    type V = RenameView;

    open spec fn view(&self) -> RenameView {
        RenameView { success: self.success, new_path: self.new_path@ }
    }
}

// ---------------------------------------------------------------------------------------------
// Creating
// ---------------------------------------------------------------------------------------------
/// The two kinds of item that can be created.
#[derive(Clone, Copy, Debug, PartialEq, Eq, Structural)]
pub enum NewItem {
    File,
    Folder,
}

/// What creating an item needs to have done; `T` is the type of texts.
#[verifier::ext_equal]
pub enum CreateAsk<T> {
    /// Check that this is an acceptable name for an item.
    CheckName(T),
    /// Check that this is a workspace, and report its root path.
    CheckRoot(T),
    /// Resolve this path inside the workspace, and report where the parent directory is.
    Resolve(T),
    /// Report whether the parent is a directory.
    ParentIsDir,
    /// Report whether the parent directory has an entry of this name, be it a link to nowhere.
    SlotOccupied(T),
    /// Create an item of this name in the parent directory.
    Create(T),
}

impl View for CreateAsk<String> {
    type V = CreateAsk<Seq<char>>;

    open spec fn view(&self) -> CreateAsk<Seq<char>> {
        match self {
            CreateAsk::CheckName(t) => CreateAsk::CheckName(t@),
            CreateAsk::CheckRoot(t) => CreateAsk::CheckRoot(t@),
            CreateAsk::Resolve(t) => CreateAsk::Resolve(t@),
            CreateAsk::ParentIsDir => CreateAsk::ParentIsDir,
            CreateAsk::SlotOccupied(t) => CreateAsk::SlotOccupied(t@),
            CreateAsk::Create(t) => CreateAsk::Create(t@),
        }
    }
}

/// What has been observed while creating an item. Errors are messages.
pub struct CreateSeen {
    pub name: Option<Result<(), String>>,
    pub root: Option<Result<String, String>>,
    pub parent: Option<Result<String, String>>,
    pub parent_is_dir: Option<bool>,
    pub slot_occupied: Option<bool>,
    pub created: Option<Result<(), String>>,
}

impl CreateSeen {
    /// Nothing has been observed yet.
    pub fn new() -> (seen: CreateSeen)
        ensures
            seen == (CreateSeen {
                name: None,
                root: None,
                parent: None,
                parent_is_dir: None,
                slot_occupied: None,
                created: None,
            }),
    {
        CreateSeen {
            name: None,
            root: None,
            parent: None,
            parent_is_dir: None,
            slot_occupied: None,
            created: None,
        }
    }
}

/// The message for a name that is already in use.
pub open spec fn already_exists(kind: NewItem) -> Seq<char> {
    match kind {
        NewItem::File => "File already exists"@,
        NewItem::Folder => "Folder already exists"@,
    }
}

/// The beginning of the message for a creation that the system refused.
pub open spec fn creation_failed(kind: NewItem) -> Seq<char> {
    match kind {
        NewItem::File => "Failed to create file: "@,
        NewItem::Folder => "Failed to create folder: "@,
    }
}

/// The step that follows from what has been observed: the name is checked, then the workspace, then
/// the parent directory; only a name that is free is created.
pub open spec fn create_next(
    platform: Platform,
    kind: NewItem,
    workspace: Seq<char>,
    parent_dir: Seq<char>,
    name: Seq<char>,
    seen: CreateSeen,
) -> StepView<CreateAsk<Seq<char>>, CreatePathView> {
    match (seen.name, seen.root, seen.parent, seen.parent_is_dir, seen.slot_occupied, seen.created) {
        (None, _, _, _, _, _) => StepView::Ask(CreateAsk::CheckName(trimmed(name))),
        (Some(Err(e)), _, _, _, _, _) => StepView::Done(Err(e@)),
        (_, None, _, _, _, _) => StepView::Ask(CreateAsk::CheckRoot(workspace)),
        (_, Some(Err(e)), _, _, _, _) => StepView::Done(Err(e@)),
        (_, _, None, _, _, _) => StepView::Ask(CreateAsk::Resolve(trimmed(parent_dir))),
        (_, _, Some(Err(e)), _, _, _) => StepView::Done(Err(e@)),
        (_, _, _, None, _, _) => StepView::Ask(CreateAsk::ParentIsDir),
        (_, _, _, Some(false), _, _) => StepView::Done(Err("Parent directory does not exist"@)),
        (_, _, _, _, None, _) => StepView::Ask(CreateAsk::SlotOccupied(trimmed(name))),
        (_, _, _, _, Some(true), _) => StepView::Done(Err(already_exists(kind))),
        (_, _, _, _, _, None) => StepView::Ask(CreateAsk::Create(trimmed(name))),
        (_, _, _, _, _, Some(Err(e))) => StepView::Done(Err(creation_failed(kind) + e@)),
        (_, Some(Ok(root)), Some(Ok(dir)), _, _, _) => match workspace_relative(
            platform,
            joined_path(platform, dir@, trimmed(name)),
            root@,
        ) {
            Some(path) => StepView::Done(Ok(CreatePathView { success: true, path })),
            None => StepView::Done(Err("Path escaped workspace"@)),
        },
    }
}

/// Decides the next step of creating an item.
fn create_step(
    platform: Platform,
    kind: NewItem,
    workspace: &str,
    parent_dir: &str,
    name: &str,
    seen: &CreateSeen,
) -> (step: Step<CreateAsk<String>, CreatePathResult>)
    ensures
        step@ == create_next(platform, kind, workspace@, parent_dir@, name@, *seen),
{
    match &seen.name {
        None => {
            return Step::Ask(CreateAsk::CheckName(trim(name)));
        },
        Some(Err(e)) => {
            return Step::Done(Err(e.clone()));
        },
        Some(Ok(_)) => {},
    }
    let root = match &seen.root {
        None => {
            return Step::Ask(CreateAsk::CheckRoot(workspace.to_owned()));
        },
        Some(Err(e)) => {
            return Step::Done(Err(e.clone()));
        },
        Some(Ok(root)) => root,
    };
    let dir = match &seen.parent {
        None => {
            return Step::Ask(CreateAsk::Resolve(trim(parent_dir)));
        },
        Some(Err(e)) => {
            return Step::Done(Err(e.clone()));
        },
        Some(Ok(dir)) => dir,
    };
    match seen.parent_is_dir {
        None => {
            return Step::Ask(CreateAsk::ParentIsDir);
        },
        Some(is_dir) => {
            if !is_dir {
                return Step::Done(Err("Parent directory does not exist".to_owned()));
            }
        },
    }
    match seen.slot_occupied {
        None => {
            return Step::Ask(CreateAsk::SlotOccupied(trim(name)));
        },
        Some(occupied) => {
            if occupied {
                return Step::Done(
                    Err(
                        match kind {
                            NewItem::File => "File already exists".to_owned(),
                            NewItem::Folder => "Folder already exists".to_owned(),
                        },
                    ),
                );
            }
        },
    }
    match &seen.created {
        None => Step::Ask(CreateAsk::Create(trim(name))),
        Some(Err(e)) => Step::Done(
            Err(
                match kind {
                    NewItem::File => concat2("Failed to create file: ", e.as_str()),
                    NewItem::Folder => concat2("Failed to create folder: ", e.as_str()),
                },
            ),
        ),
        Some(Ok(_)) => {
            let target = join(platform, dir.as_str(), trim(name).as_str());
            match to_workspace_relative(platform, target.as_str(), root.as_str()) {
                Some(path) => Step::Done(Ok(CreatePathResult { success: true, path })),
                None => Step::Done(Err("Path escaped workspace".to_owned())),
            }
        },
    }
}

/// Creates an empty file: decides the next step from what has been observed.
pub fn cmd_workspace_new_file(
    platform: Platform,
    workspace: &str,
    parent_dir: &str,
    name: &str,
    seen: &CreateSeen,
) -> (step: Step<CreateAsk<String>, CreatePathResult>)
    ensures
        step@ == create_next(platform, NewItem::File, workspace@, parent_dir@, name@, *seen),
{
    create_step(platform, NewItem::File, workspace, parent_dir, name, seen)
}

/// Creates a folder: decides the next step from what has been observed.
pub fn cmd_workspace_new_folder(
    platform: Platform,
    workspace: &str,
    parent_dir: &str,
    name: &str,
    seen: &CreateSeen,
) -> (step: Step<CreateAsk<String>, CreatePathResult>)
    ensures
        step@ == create_next(platform, NewItem::Folder, workspace@, parent_dir@, name@, *seen),
{
    create_step(platform, NewItem::Folder, workspace, parent_dir, name, seen)
}

/// An item is created only under a name that was accepted and found free, in a directory that was
/// found to be one.
pub proof fn law_create_only_in_free_slot(
    platform: Platform,
    kind: NewItem,
    workspace: Seq<char>,
    parent_dir: Seq<char>,
    name: Seq<char>,
    seen: CreateSeen,
    asked: Seq<char>,
)
    requires
        create_next(platform, kind, workspace, parent_dir, name, seen) == StepView::<
            CreateAsk<Seq<char>>,
            CreatePathView,
        >::Ask(CreateAsk::Create(asked)),
    ensures
        asked == trimmed(name),
        seen.name matches Some(Ok(_)),
        seen.root matches Some(Ok(_)),
        seen.parent matches Some(Ok(_)),
        seen.parent_is_dir == Some(true),
        seen.slot_occupied == Some(false),
{
}

/// The path that a creation ends with, where every check passed, the item was created and it lies in
/// the workspace.
pub open spec fn created_path(platform: Platform, name: Seq<char>, seen: CreateSeen) -> Option<
    Seq<char>,
> {
    match (seen.root, seen.parent) {
        (Some(Ok(root)), Some(Ok(dir))) => if (seen.name matches Some(Ok(_)))
            && seen.parent_is_dir == Some(true) && seen.slot_occupied == Some(false) && (
        seen.created matches Some(Ok(_))) {
            workspace_relative(platform, joined_path(platform, dir@, trimmed(name)), root@)
        } else {
            None
        },
        _ => None,
    }
}

/// Creation succeeds exactly when every check passed, the item was created and it lies in the
/// workspace; the renderer is then told its relative path.
pub proof fn law_create_success(
    platform: Platform,
    kind: NewItem,
    workspace: Seq<char>,
    parent_dir: Seq<char>,
    name: Seq<char>,
    seen: CreateSeen,
    path: Seq<char>,
)
    ensures
        create_next(platform, kind, workspace, parent_dir, name, seen) == StepView::<
            CreateAsk<Seq<char>>,
            CreatePathView,
        >::Done(Ok(CreatePathView { success: true, path })) <==> created_path(platform, name, seen)
            == Some(path),
{
}

/// A single-component name in a directory inside the workspace never escapes the workspace: once
/// the item is created, the operation succeeds.
pub proof fn law_create_does_not_escape(
    platform: Platform,
    kind: NewItem,
    workspace: Seq<char>,
    parent_dir: Seq<char>,
    name: Seq<char>,
    seen: CreateSeen,
)
    requires
        seen.name matches Some(Ok(_)),
        seen.root matches Some(Ok(_)),
        seen.parent matches Some(Ok(_)),
        seen.parent_is_dir == Some(true),
        seen.slot_occupied == Some(false),
        seen.created matches Some(Ok(_)),
        is_single_component(platform, trimmed(name)),
        takes_names(platform, seen.parent->0->Ok_0@),
        is_within(platform, seen.parent->0->Ok_0@, seen.root->0->Ok_0@),
    ensures
        create_next(platform, kind, workspace, parent_dir, name, seen) matches StepView::Done(Ok(_)),
{
    law_join_stays_within(
        platform,
        seen.root->0->Ok_0@,
        seen.parent->0->Ok_0@,
        trimmed(name),
    );
}

/// Creating an item asks only for what has not been observed.
pub proof fn law_create_asks_what_is_unknown(
    platform: Platform,
    kind: NewItem,
    workspace: Seq<char>,
    parent_dir: Seq<char>,
    name: Seq<char>,
    seen: CreateSeen,
)
    ensures
        create_next(platform, kind, workspace, parent_dir, name, seen) matches StepView::Ask(ask)
            ==> match ask {
            CreateAsk::CheckName(_) => seen.name is None,
            CreateAsk::CheckRoot(_) => seen.root is None,
            CreateAsk::Resolve(_) => seen.parent is None,
            CreateAsk::ParentIsDir => seen.parent_is_dir is None,
            CreateAsk::SlotOccupied(_) => seen.slot_occupied is None,
            CreateAsk::Create(_) => seen.created is None,
        },
{
}

/// How many questions of creating an item are still open.
pub open spec fn create_unknowns(seen: CreateSeen) -> nat {
    unknown(seen.name) + unknown(seen.root) + unknown(seen.parent) + unknown(seen.parent_is_dir) + unknown(seen.slot_occupied) + unknown(seen.created)
}

/// What was observed afterwards is what was observed before and an answer to the question.
pub open spec fn create_answered(ask: CreateAsk<Seq<char>>, before: CreateSeen, after: CreateSeen) -> bool {
    match ask {
        CreateAsk::CheckName(_) => after.name is Some && after == (CreateSeen { name: after.name, ..before }),
        CreateAsk::CheckRoot(_) => after.root is Some && after == (CreateSeen { root: after.root, ..before }),
        CreateAsk::Resolve(_) => after.parent is Some && after == (CreateSeen { parent: after.parent, ..before }),
        CreateAsk::ParentIsDir => after.parent_is_dir is Some && after == (CreateSeen { parent_is_dir: after.parent_is_dir, ..before }),
        CreateAsk::SlotOccupied(_) => after.slot_occupied is Some && after == (CreateSeen { slot_occupied: after.slot_occupied, ..before }),
        CreateAsk::Create(_) => after.created is Some && after == (CreateSeen { created: after.created, ..before }),
    }
}

/// Creating an item ends: every answer leaves fewer questions open.
pub proof fn law_create_ends(
    platform: Platform,
    kind: NewItem,
    workspace: Seq<char>,
    parent_dir: Seq<char>,
    name: Seq<char>,
    seen: CreateSeen,
    ask: CreateAsk<Seq<char>>,
    after: CreateSeen,
)
    requires
        create_next(platform, kind, workspace, parent_dir, name, seen) == StepView::<
            CreateAsk<Seq<char>>,
            CreatePathView,
        >::Ask(ask),
        create_answered(ask, seen, after),
    ensures
        create_unknowns(after) < create_unknowns(seen),
{
}

// ---------------------------------------------------------------------------------------------
// Renaming
// ---------------------------------------------------------------------------------------------
/// What renaming an item needs to have done; `T` is the type of texts.
#[verifier::ext_equal]
pub enum RenameAsk<T> {
    /// Check that this is an acceptable name for an item.
    CheckName(T),
    /// Check that this is a workspace, and report its root path.
    CheckRoot(T),
    /// Resolve this path inside the workspace, and report where the item is.
    Resolve(T),
    /// Report whether the item exists.
    SourceExists,
    /// Report whether the item's directory has an entry of this name, be it a link to nowhere.
    SlotOccupied(T),
    /// Give the item this name, in its directory.
    Rename(T),
}

impl View for RenameAsk<String> {
    type V = RenameAsk<Seq<char>>;

    open spec fn view(&self) -> RenameAsk<Seq<char>> {
        match self {
            RenameAsk::CheckName(t) => RenameAsk::CheckName(t@),
            RenameAsk::CheckRoot(t) => RenameAsk::CheckRoot(t@),
            RenameAsk::Resolve(t) => RenameAsk::Resolve(t@),
            RenameAsk::SourceExists => RenameAsk::SourceExists,
            RenameAsk::SlotOccupied(t) => RenameAsk::SlotOccupied(t@),
            RenameAsk::Rename(t) => RenameAsk::Rename(t@),
        }
    }
}

/// What has been observed while renaming an item. Errors are messages.
pub struct RenameSeen {
    pub name: Option<Result<(), String>>,
    pub root: Option<Result<String, String>>,
    pub source: Option<Result<String, String>>,
    pub source_exists: Option<bool>,
    pub slot_occupied: Option<bool>,
    pub renamed: Option<Result<(), String>>,
}

impl RenameSeen {
    /// Nothing has been observed yet.
    pub fn new() -> (seen: RenameSeen)
        ensures
            seen == (RenameSeen {
                name: None,
                root: None,
                source: None,
                source_exists: None,
                slot_occupied: None,
                renamed: None,
            }),
    {
        RenameSeen {
            name: None,
            root: None,
            source: None,
            source_exists: None,
            slot_occupied: None,
            renamed: None,
        }
    }
}

/// The step that follows from what has been observed: the new name is checked, then the workspace,
/// then the item; only a free name in the item's own directory is taken.
pub open spec fn rename_next(
    platform: Platform,
    workspace: Seq<char>,
    old_path: Seq<char>,
    new_name: Seq<char>,
    seen: RenameSeen,
) -> StepView<RenameAsk<Seq<char>>, RenameView> {
    match (seen.name, seen.root, seen.source, seen.source_exists) {
        (None, _, _, _) => StepView::Ask(RenameAsk::CheckName(trimmed(new_name))),
        (Some(Err(e)), _, _, _) => StepView::Done(Err(e@)),
        (_, None, _, _) => StepView::Ask(RenameAsk::CheckRoot(workspace)),
        (_, Some(Err(e)), _, _) => StepView::Done(Err(e@)),
        (_, _, None, _) => StepView::Ask(RenameAsk::Resolve(trimmed(old_path))),
        (_, _, Some(Err(e)), _) => StepView::Done(Err(e@)),
        (_, _, _, None) => StepView::Ask(RenameAsk::SourceExists),
        (_, _, _, Some(false)) => StepView::Done(Err("File or folder not found"@)),
        (_, Some(Ok(root)), Some(Ok(source)), _) => match (
            parent_of(platform, source@),
            seen.slot_occupied,
            seen.renamed,
        ) {
            (None, _, _) => StepView::Done(Err("No parent directory"@)),
            (_, None, _) => StepView::Ask(RenameAsk::SlotOccupied(trimmed(new_name))),
            (_, Some(true), _) => StepView::Done(Err("Target name already exists"@)),
            (_, _, None) => StepView::Ask(RenameAsk::Rename(trimmed(new_name))),
            (_, _, Some(Err(e))) => StepView::Done(Err("Rename failed: "@ + e@)),
            (Some(dir), _, _) => match workspace_relative(
                platform,
                joined_path(platform, dir, trimmed(new_name)),
                root@,
            ) {
                Some(new_path) => StepView::Done(Ok(RenameView { success: true, new_path })),
                None => StepView::Done(Err("Path escaped workspace"@)),
            },
        },
    }
}

/// Renames an item in its directory: decides the next step from what has been observed.
pub fn cmd_workspace_rename(
    platform: Platform,
    workspace: &str,
    old_path: &str,
    new_name: &str,
    seen: &RenameSeen,
) -> (step: Step<RenameAsk<String>, RenameResult>)
    ensures
        step@ == rename_next(platform, workspace@, old_path@, new_name@, *seen),
{
    match &seen.name {
        None => {
            return Step::Ask(RenameAsk::CheckName(trim(new_name)));
        },
        Some(Err(e)) => {
            return Step::Done(Err(e.clone()));
        },
        Some(Ok(_)) => {},
    }
    let root = match &seen.root {
        None => {
            return Step::Ask(RenameAsk::CheckRoot(workspace.to_owned()));
        },
        Some(Err(e)) => {
            return Step::Done(Err(e.clone()));
        },
        Some(Ok(root)) => root,
    };
    let source = match &seen.source {
        None => {
            return Step::Ask(RenameAsk::Resolve(trim(old_path)));
        },
        Some(Err(e)) => {
            return Step::Done(Err(e.clone()));
        },
        Some(Ok(source)) => source,
    };
    match seen.source_exists {
        None => {
            return Step::Ask(RenameAsk::SourceExists);
        },
        Some(exists) => {
            if !exists {
                return Step::Done(Err("File or folder not found".to_owned()));
            }
        },
    }
    let dir = match parent(platform, source.as_str()) {
        None => {
            return Step::Done(Err("No parent directory".to_owned()));
        },
        Some(dir) => dir,
    };
    match seen.slot_occupied {
        None => {
            return Step::Ask(RenameAsk::SlotOccupied(trim(new_name)));
        },
        Some(occupied) => {
            if occupied {
                return Step::Done(Err("Target name already exists".to_owned()));
            }
        },
    }
    match &seen.renamed {
        None => Step::Ask(RenameAsk::Rename(trim(new_name))),
        Some(Err(e)) => Step::Done(Err(concat2("Rename failed: ", e.as_str()))),
        Some(Ok(_)) => {
            let target = join(platform, dir.as_str(), trim(new_name).as_str());
            match to_workspace_relative(platform, target.as_str(), root.as_str()) {
                Some(new_path) => Step::Done(Ok(RenameResult { success: true, new_path })),
                None => Step::Done(Err("Path escaped workspace".to_owned())),
            }
        },
    }
}

/// An item is renamed only when it was found, its new name was accepted and that name was found
/// free.
pub proof fn law_rename_only_to_free_slot(
    platform: Platform,
    workspace: Seq<char>,
    old_path: Seq<char>,
    new_name: Seq<char>,
    seen: RenameSeen,
    asked: Seq<char>,
)
    requires
        rename_next(platform, workspace, old_path, new_name, seen) == StepView::<
            RenameAsk<Seq<char>>,
            RenameView,
        >::Ask(RenameAsk::Rename(asked)),
    ensures
        asked == trimmed(new_name),
        seen.name matches Some(Ok(_)),
        seen.root matches Some(Ok(_)),
        seen.source matches Some(Ok(_)),
        seen.source_exists == Some(true),
        seen.slot_occupied == Some(false),
{
}

/// A renamed item stays in its directory: it has the components of the old path, with the new name
/// in the place of the old one, and is still in the workspace.
pub proof fn law_rename_stays_in_directory(
    platform: Platform,
    workspace: Seq<char>,
    old_path: Seq<char>,
    new_name: Seq<char>,
    seen: RenameSeen,
)
    requires
        seen.name matches Some(Ok(_)),
        seen.root matches Some(Ok(_)),
        seen.source matches Some(Ok(_)),
        seen.source_exists == Some(true),
        seen.slot_occupied == Some(false),
        seen.renamed matches Some(Ok(_)),
        is_single_component(platform, trimmed(new_name)),
        is_within(platform, seen.source->0->Ok_0@, seen.root->0->Ok_0@),
        components(platform, seen.source->0->Ok_0@) != components(platform, seen.root->0->Ok_0@),
        parent_of(platform, seen.source->0->Ok_0@) matches Some(dir) && takes_names(platform, dir),
    ensures
        ({
            let source = seen.source->0->Ok_0@;
            let root = seen.root->0->Ok_0@;
            let dir = parent_of(platform, source)->0;
            let target = joined_path(platform, dir, trimmed(new_name));
            &&& components(platform, target) == components(platform, source).drop_last().push(
                trimmed(new_name),
            )
            &&& rename_next(platform, workspace, old_path, new_name, seen) matches StepView::Done(
                Ok(r),
            ) && r.success && workspace_relative(platform, target, root) == Some(r.new_path)
        }),
{
    let source = seen.source->0->Ok_0@;
    let root = seen.root->0->Ok_0@;
    let dir = parent_of(platform, source)->0;
    law_parent_drops_last_component(platform, source);
    law_join_adds_component(platform, dir, trimmed(new_name));
    let r = components(platform, root);
    let s = components(platform, source);
    if r.len() == s.len() {
        assert(s.subrange(0, r.len() as int) =~= s);
    }
    assert(components(platform, dir).subrange(0, r.len() as int) =~= s.subrange(0, r.len() as int));
    law_join_stays_within(platform, root, dir, trimmed(new_name));
}

/// Renaming an item asks only for what has not been observed.
pub proof fn law_rename_asks_what_is_unknown(
    platform: Platform,
    workspace: Seq<char>,
    old_path: Seq<char>,
    new_name: Seq<char>,
    seen: RenameSeen,
)
    ensures
        rename_next(platform, workspace, old_path, new_name, seen) matches StepView::Ask(ask)
            ==> match ask {
            RenameAsk::CheckName(_) => seen.name is None,
            RenameAsk::CheckRoot(_) => seen.root is None,
            RenameAsk::Resolve(_) => seen.source is None,
            RenameAsk::SourceExists => seen.source_exists is None,
            RenameAsk::SlotOccupied(_) => seen.slot_occupied is None,
            RenameAsk::Rename(_) => seen.renamed is None,
        },
{
}

/// How many questions of renaming an item are still open.
pub open spec fn rename_unknowns(seen: RenameSeen) -> nat {
    unknown(seen.name) + unknown(seen.root) + unknown(seen.source) + unknown(seen.source_exists) + unknown(seen.slot_occupied) + unknown(seen.renamed)
}

/// What was observed afterwards is what was observed before and an answer to the question.
pub open spec fn rename_answered(ask: RenameAsk<Seq<char>>, before: RenameSeen, after: RenameSeen) -> bool {
    match ask {
        RenameAsk::CheckName(_) => after.name is Some && after == (RenameSeen { name: after.name, ..before }),
        RenameAsk::CheckRoot(_) => after.root is Some && after == (RenameSeen { root: after.root, ..before }),
        RenameAsk::Resolve(_) => after.source is Some && after == (RenameSeen { source: after.source, ..before }),
        RenameAsk::SourceExists => after.source_exists is Some && after == (RenameSeen { source_exists: after.source_exists, ..before }),
        RenameAsk::SlotOccupied(_) => after.slot_occupied is Some && after == (RenameSeen { slot_occupied: after.slot_occupied, ..before }),
        RenameAsk::Rename(_) => after.renamed is Some && after == (RenameSeen { renamed: after.renamed, ..before }),
    }
}

/// Renaming an item ends: every answer leaves fewer questions open.
pub proof fn law_rename_ends(
    platform: Platform,
    workspace: Seq<char>,
    old_path: Seq<char>,
    new_name: Seq<char>,
    seen: RenameSeen,
    ask: RenameAsk<Seq<char>>,
    after: RenameSeen,
)
    requires
        rename_next(platform, workspace, old_path, new_name, seen) == StepView::<
            RenameAsk<Seq<char>>,
            RenameView,
        >::Ask(ask),
        rename_answered(ask, seen, after),
    ensures
        rename_unknowns(after) < rename_unknowns(seen),
{
}

/// Every question of renaming an item was answered favourably.
pub open spec fn is_renamed(seen: RenameSeen) -> bool {
    &&& seen.name matches Some(Ok(_))
    &&& seen.root matches Some(Ok(_))
    &&& seen.source matches Some(Ok(_))
    &&& seen.source_exists == Some(true)
    &&& seen.slot_occupied == Some(false)
    &&& seen.renamed matches Some(Ok(_))
}

/// Renaming an item and renaming it back gives the old relative path and leaves the files as they
/// were. The item at `source` is written as its directory and its name, and the second request
/// resolves to where the first one put the item.
pub proof fn law_rename_back_restores<F>(
    platform: Platform,
    workspace: Seq<char>,
    old_path: Seq<char>,
    new_name: Seq<char>,
    seen: RenameSeen,
    back_path: Seq<char>,
    old_name: Seq<char>,
    back: RenameSeen,
    files: Map<Seq<Seq<char>>, F>,
)
    requires
        is_renamed(seen),
        is_renamed(back),
        back.root->0->Ok_0@ == seen.root->0->Ok_0@,
        is_single_component(platform, trimmed(old_name)),
        is_single_component(platform, trimmed(new_name)),
        is_within(platform, seen.source->0->Ok_0@, seen.root->0->Ok_0@),
        components(platform, seen.source->0->Ok_0@) != components(platform, seen.root->0->Ok_0@),
        parent_of(platform, seen.source->0->Ok_0@) matches Some(dir) && {
            &&& takes_names(platform, dir)
            &&& seen.source->0->Ok_0@ == joined_path(platform, dir, trimmed(old_name))
            &&& back.source->0->Ok_0@ == joined_path(platform, dir, trimmed(new_name))
        },
        is_free(files, components(platform, back.source->0->Ok_0@)),
    ensures
        ({
            let root = seen.root->0->Ok_0@;
            let source = seen.source->0->Ok_0@;
            let target = back.source->0->Ok_0@;
            let here = components(platform, source);
            let there = components(platform, target);
            &&& rename_next(platform, workspace, old_path, new_name, seen) matches StepView::Done(
                Ok(r1),
            ) && workspace_relative(platform, target, root) == Some(r1.new_path)
            &&& parent_of(platform, target) matches Some(dir) && joined_path(
                platform,
                dir,
                trimmed(old_name),
            ) == source
            &&& rename_next(platform, workspace, back_path, old_name, back) matches StepView::Done(
                Ok(r2),
            ) && workspace_relative(platform, source, root) == Some(r2.new_path)
            &&& files_renamed(files_renamed(files, here, there), there, here) == files
        }),
{
    let source = seen.source->0->Ok_0@;
    let target = back.source->0->Ok_0@;
    let dir = parent_of(platform, source)->0;
    law_rename_stays_in_directory(platform, workspace, old_path, new_name, seen);
    law_parent_undoes_join(platform, dir, trimmed(old_name), trimmed(new_name));
    law_parent_drops_last_component(platform, source);
    law_join_adds_component(platform, dir, trimmed(old_name));
    law_join_adds_component(platform, dir, trimmed(new_name));
    law_renaming_back_restores(
        files,
        components(platform, source),
        components(platform, target),
    );
}

/// Renaming an item into a free place keeps every file: those at and below the item are then at and
/// below its new path, all others are where they were, and none is replaced.
pub proof fn law_rename_keeps_every_file<F>(
    platform: Platform,
    workspace: Seq<char>,
    old_path: Seq<char>,
    new_name: Seq<char>,
    seen: RenameSeen,
    asked: Seq<char>,
    files: Map<Seq<Seq<char>>, F>,
)
    requires
        rename_next(platform, workspace, old_path, new_name, seen) == StepView::<
            RenameAsk<Seq<char>>,
            RenameView,
        >::Ask(RenameAsk::Rename(asked)),
        is_single_component(platform, asked),
        parent_of(platform, seen.source->0->Ok_0@) matches Some(dir) && {
            &&& takes_names(platform, dir)
            &&& is_free(files, components(platform, joined_path(platform, dir, asked)))
        },
    ensures
        ({
            let source = seen.source->0->Ok_0@;
            let dir = parent_of(platform, source)->0;
            let from = components(platform, source);
            let to = components(platform, joined_path(platform, dir, asked));
            &&& to == from.drop_last().push(asked)
            &&& keeps_every_file(files, files_renamed(files, from, to), from, to)
        }),
{
    let source = seen.source->0->Ok_0@;
    let dir = parent_of(platform, source)->0;
    law_parent_drops_last_component(platform, source);
    law_join_adds_component(platform, dir, asked);
    law_renaming_keeps_every_file(
        files,
        components(platform, source),
        components(platform, joined_path(platform, dir, asked)),
    );
}

/// Every question of creating an item is about what was asked for: the name and the parent directory
/// as they were given, without white space at their ends, and the workspace.
pub proof fn law_create_asks_about_what_was_given(
    platform: Platform,
    kind: NewItem,
    workspace: Seq<char>,
    parent_dir: Seq<char>,
    name: Seq<char>,
    seen: CreateSeen,
)
    ensures
        create_next(platform, kind, workspace, parent_dir, name, seen) matches StepView::Ask(ask)
            ==> match ask {
            CreateAsk::CheckName(asked) => asked == trimmed(name),
            CreateAsk::CheckRoot(asked) => asked == workspace,
            CreateAsk::Resolve(asked) => asked == trimmed(parent_dir),
            CreateAsk::ParentIsDir => true,
            CreateAsk::SlotOccupied(asked) => asked == trimmed(name),
            CreateAsk::Create(asked) => asked == trimmed(name),
        },
{
}

/// Creating an item fails only for a reason that was observed, and says which: the first refusal, in
/// the order of the questions, is the answer.
pub proof fn law_create_fails_only_for_cause(
    platform: Platform,
    kind: NewItem,
    workspace: Seq<char>,
    parent_dir: Seq<char>,
    name: Seq<char>,
    seen: CreateSeen,
    message: Seq<char>,
)
    requires
        create_next(platform, kind, workspace, parent_dir, name, seen) == StepView::<
            CreateAsk<Seq<char>>,
            CreatePathView,
        >::Done(Err(message)),
    ensures
        ({
            ||| seen.name matches Some(Err(e)) && message == e@
            ||| {
                &&& seen.name matches Some(Ok(_))
                &&& {
                    ||| seen.root matches Some(Err(e)) && message == e@
                    ||| {
                        &&& seen.root matches Some(Ok(_))
                        &&& {
                            ||| seen.parent matches Some(Err(e)) && message == e@
                            ||| {
                                &&& seen.parent matches Some(Ok(_))
                                &&& {
                                    ||| seen.parent_is_dir == Some(false) && message
                                        == "Parent directory does not exist"@
                                    ||| seen.parent_is_dir == Some(true) && seen.slot_occupied
                                        == Some(true) && message == (if kind is File {
                                        "File already exists"@
                                    } else {
                                        "Folder already exists"@
                                    })
                                    ||| seen.parent_is_dir == Some(true) && seen.slot_occupied
                                        == Some(false) && (seen.created matches Some(Err(e))
                                        && message == (if kind is File {
                                        "Failed to create file: "@
                                    } else {
                                        "Failed to create folder: "@
                                    }) + e@)
                                    ||| seen.parent_is_dir == Some(true) && seen.slot_occupied
                                        == Some(false) && (seen.created matches Some(Ok(_))
                                        && message == "Path escaped workspace"@ && !is_within(
                                        platform,
                                        joined_path(
                                            platform,
                                            seen.parent->0->Ok_0@,
                                            trimmed(name),
                                        ),
                                        seen.root->0->Ok_0@,
                                    ))
                                }
                            }
                        }
                    }
                }
            }
        }),
{
}

/// A refusal ends the creation of an item at once: where an answer is a refusal and all before it were
/// favourable, no further question is asked.
pub proof fn law_create_stops_at_a_refusal(
    platform: Platform,
    kind: NewItem,
    workspace: Seq<char>,
    parent_dir: Seq<char>,
    name: Seq<char>,
    seen: CreateSeen,
)
    requires
        ({
            ||| seen.name matches Some(Err(_))
            ||| (seen.name matches Some(Ok(_))) && {
                ||| seen.root matches Some(Err(_))
                ||| (seen.root matches Some(Ok(_))) && {
                    ||| seen.parent matches Some(Err(_))
                    ||| (seen.parent matches Some(Ok(_))) && {
                        ||| seen.parent_is_dir == Some(false)
                        ||| seen.parent_is_dir == Some(true) && {
                            ||| seen.slot_occupied == Some(true)
                            ||| seen.slot_occupied == Some(false) && (
                            seen.created matches Some(Err(_)))
                        }
                    }
                }
            }
        }),
    ensures
        create_next(platform, kind, workspace, parent_dir, name, seen) matches StepView::Done(
            Err(_),
        ),
{
}

/// A created item is where it was asked for: in a workspace that resolves the parent directory to the
/// directories below its root that the request names, the item has the components of the root, of the
/// directories and the name, and the renderer is told the directories and the name, with slashes
/// between them.
pub proof fn law_created_item_is_where_it_was_asked_for(
    platform: Platform,
    kind: NewItem,
    workspace: Seq<char>,
    parent_dir: Seq<char>,
    name: Seq<char>,
    seen: CreateSeen,
    dirs: Seq<Seq<char>>,
)
    requires
        seen.name matches Some(Ok(_)),
        seen.root matches Some(Ok(_)),
        seen.parent matches Some(Ok(_)),
        seen.parent_is_dir == Some(true),
        seen.slot_occupied == Some(false),
        seen.created matches Some(Ok(_)),
        trimmed(parent_dir) == joined(dirs, seq!['/']),
        takes_names(platform, seen.root->0->Ok_0@),
        are_plain_names(platform, dirs.push(trimmed(name))),
        seen.parent->0->Ok_0@ == directory_below(platform, seen.root->0->Ok_0@, dirs),
    ensures
        create_next(platform, kind, workspace, parent_dir, name, seen) == StepView::<
            CreateAsk<Seq<char>>,
            CreatePathView,
        >::Done(
            Ok(
                CreatePathView {
                    success: true,
                    path: if dirs.len() == 0 {
                        trimmed(name)
                    } else {
                        trimmed(parent_dir) + seq!['/'] + trimmed(name)
                    },
                },
            ),
        ),
        components(
            platform,
            joined_path(platform, seen.parent->0->Ok_0@, trimmed(name)),
        ) == components(platform, seen.root->0->Ok_0@) + dirs.push(trimmed(name)),
{
    law_item_below_root(platform, seen.root->0->Ok_0@, dirs, trimmed(name));
    assert(dirs.push(trimmed(name)).drop_last() =~= dirs);
}

/// Creating an item asks for nothing but the next thing that is not known: with everything up to it
/// answered favourably, that is the question, and it is not passed over.
pub proof fn law_create_asks_in_order(
    platform: Platform,
    kind: NewItem,
    workspace: Seq<char>,
    parent_dir: Seq<char>,
    name: Seq<char>,
    seen: CreateSeen,
)
    ensures
        ({
            let next = create_next(platform, kind, workspace, parent_dir, name, seen);
            let named = seen.name matches Some(Ok(_));
            let rooted = named && (seen.root matches Some(Ok(_)));
            let placed = rooted && (seen.parent matches Some(Ok(_)));
            let in_dir = placed && seen.parent_is_dir == Some(true);
            let free = in_dir && seen.slot_occupied == Some(false);
            &&& seen.name is None ==> (next matches StepView::Ask(CreateAsk::CheckName(_)))
            &&& named && seen.root is None ==> (next matches StepView::Ask(CreateAsk::CheckRoot(_)))
            &&& rooted && seen.parent is None ==> (next matches StepView::Ask(
                CreateAsk::Resolve(_),
            ))
            &&& placed && seen.parent_is_dir is None ==> (next matches StepView::Ask(
                CreateAsk::ParentIsDir,
            ))
            &&& in_dir && seen.slot_occupied is None ==> (next matches StepView::Ask(
                CreateAsk::SlotOccupied(_),
            ))
            &&& free && seen.created is None ==> (next matches StepView::Ask(CreateAsk::Create(_)))
        }),
{
}

/// Every question of renaming an item is about what was asked for: the path and the new name as they
/// were given, without white space at their ends, and the workspace.
pub proof fn law_rename_asks_about_what_was_given(
    platform: Platform,
    workspace: Seq<char>,
    old_path: Seq<char>,
    new_name: Seq<char>,
    seen: RenameSeen,
)
    ensures
        rename_next(platform, workspace, old_path, new_name, seen) matches StepView::Ask(ask)
            ==> match ask {
            RenameAsk::CheckName(asked) => asked == trimmed(new_name),
            RenameAsk::CheckRoot(asked) => asked == workspace,
            RenameAsk::Resolve(asked) => asked == trimmed(old_path),
            RenameAsk::SourceExists => true,
            RenameAsk::SlotOccupied(asked) => asked == trimmed(new_name),
            RenameAsk::Rename(asked) => asked == trimmed(new_name),
        },
{
}

/// Renaming an item fails only for a reason that was observed, and says which: the first refusal, in
/// the order of the questions, is the answer.
pub proof fn law_rename_fails_only_for_cause(
    platform: Platform,
    workspace: Seq<char>,
    old_path: Seq<char>,
    new_name: Seq<char>,
    seen: RenameSeen,
    message: Seq<char>,
)
    requires
        rename_next(platform, workspace, old_path, new_name, seen) == StepView::<
            RenameAsk<Seq<char>>,
            RenameView,
        >::Done(Err(message)),
    ensures
        ({
            let found = (seen.name matches Some(Ok(_))) && (seen.root matches Some(Ok(_))) && (
            seen.source matches Some(Ok(_))) && seen.source_exists == Some(true);
            let source = seen.source->0->Ok_0@;
            let parent = parent_of(platform, source);
            ||| seen.name matches Some(Err(e)) && message == e@
            ||| (seen.name matches Some(Ok(_))) && (seen.root matches Some(Err(e)) && message == e@)
            ||| (seen.name matches Some(Ok(_))) && (seen.root matches Some(Ok(_))) && (
            seen.source matches Some(Err(e)) && message == e@)
            ||| (seen.name matches Some(Ok(_))) && (seen.root matches Some(Ok(_))) && (
            seen.source matches Some(Ok(_))) && seen.source_exists == Some(false) && message
                == "File or folder not found"@
            ||| found && parent is None && message == "No parent directory"@
            ||| found && parent is Some && seen.slot_occupied == Some(true) && message
                == "Target name already exists"@
            ||| found && parent is Some && seen.slot_occupied == Some(false) && (
            seen.renamed matches Some(Err(e)) && message == "Rename failed: "@ + e@)
            ||| found && parent is Some && seen.slot_occupied == Some(false) && (
            seen.renamed matches Some(Ok(_)) && message == "Path escaped workspace"@ && !is_within(
                platform,
                joined_path(platform, parent->0, trimmed(new_name)),
                seen.root->0->Ok_0@,
            ))
        }),
{
}

/// Renaming an item asks for nothing but the next thing that is not known: with everything up to it
/// answered favourably, that is the question, and it is not passed over. A refusal ends it at once.
pub proof fn law_rename_asks_in_order(
    platform: Platform,
    workspace: Seq<char>,
    old_path: Seq<char>,
    new_name: Seq<char>,
    seen: RenameSeen,
)
    ensures
        ({
            let next = rename_next(platform, workspace, old_path, new_name, seen);
            let named = seen.name matches Some(Ok(_));
            let rooted = named && (seen.root matches Some(Ok(_)));
            let placed = rooted && (seen.source matches Some(Ok(_)));
            let found = placed && seen.source_exists == Some(true) && parent_of(
                platform,
                seen.source->0->Ok_0@,
            ) is Some;
            let free = found && seen.slot_occupied == Some(false);
            let refused = {
                ||| seen.name matches Some(Err(_))
                ||| named && (seen.root matches Some(Err(_)))
                ||| rooted && (seen.source matches Some(Err(_)))
                ||| placed && seen.source_exists == Some(false)
                ||| found && seen.slot_occupied == Some(true)
                ||| free && (seen.renamed matches Some(Err(_)))
            };
            &&& seen.name is None ==> (next matches StepView::Ask(RenameAsk::CheckName(_)))
            &&& named && seen.root is None ==> (next matches StepView::Ask(RenameAsk::CheckRoot(_)))
            &&& rooted && seen.source is None ==> (next matches StepView::Ask(
                RenameAsk::Resolve(_),
            ))
            &&& placed && seen.source_exists is None ==> (next matches StepView::Ask(
                RenameAsk::SourceExists,
            ))
            &&& found && seen.slot_occupied is None ==> (next matches StepView::Ask(
                RenameAsk::SlotOccupied(_),
            ))
            &&& free && seen.renamed is None ==> (next matches StepView::Ask(RenameAsk::Rename(_)))
            &&& refused ==> (next matches StepView::Done(Err(_)))
            &&& placed && seen.source_exists == Some(true) && parent_of(
                platform,
                seen.source->0->Ok_0@,
            ) is None ==> next == StepView::<RenameAsk<Seq<char>>, RenameView>::Done(
                Err("No parent directory"@),
            )
        }),
{
}

/// Renaming succeeds exactly when every check passed, the item has a parent, it was renamed and its
/// new place lies in the workspace; the renderer is then told the relative form of that place.
pub proof fn law_rename_success(
    platform: Platform,
    workspace: Seq<char>,
    old_path: Seq<char>,
    new_name: Seq<char>,
    seen: RenameSeen,
)
    ensures
        ({
            let next = rename_next(platform, workspace, old_path, new_name, seen);
            let parent = parent_of(platform, seen.source->0->Ok_0@);
            let place = joined_path(platform, parent->0, trimmed(new_name));
            &&& (next matches StepView::Done(Ok(_))) <==> is_renamed(seen) && parent is Some
                && components(platform, seen.root->0->Ok_0@).is_prefix_of(
                components(platform, place),
            )
            &&& next matches StepView::Done(Ok(r)) ==> r.success && workspace_relative(
                platform,
                place,
                seen.root->0->Ok_0@,
            ) == Some(r.new_path)
        }),
{
}

/// A renamed item is shown where it is: in a workspace that resolves the path to an item in some
/// directories below its root, the renderer is told these directories and the new name, with slashes
/// between them.
pub proof fn law_renamed_item_is_shown_where_it_is(
    platform: Platform,
    workspace: Seq<char>,
    old_path: Seq<char>,
    new_name: Seq<char>,
    seen: RenameSeen,
    dirs: Seq<Seq<char>>,
    old_name: Seq<char>,
)
    requires
        is_renamed(seen),
        takes_names(platform, seen.root->0->Ok_0@),
        are_plain_names(platform, dirs.push(old_name)),
        are_plain_names(platform, dirs.push(trimmed(new_name))),
        ({
            let dir = directory_below(platform, seen.root->0->Ok_0@, dirs);
            &&& seen.source->0->Ok_0@ == joined_path(platform, dir, old_name)
            &&& parent_of(platform, seen.source->0->Ok_0@) == Some(dir)
        }),
    ensures
        rename_next(platform, workspace, old_path, new_name, seen) == StepView::<
            RenameAsk<Seq<char>>,
            RenameView,
        >::Done(
            Ok(
                RenameView {
                    success: true,
                    new_path: joined(dirs.push(trimmed(new_name)), seq!['/']),
                },
            ),
        ),
{
    law_item_below_root(platform, seen.root->0->Ok_0@, dirs, trimmed(new_name));
}

} // verus!
