//! Moving items of a workspace into one of its directories.
//!
//! Every source is handled on its own: it is moved, it is left alone because it is already there, or
//! it is reported as an error. A name that is taken in the target directory is made unique with a
//! counter, as in `name (1).ext`.

use vstd::prelude::*;

use crate::files::{files_renamed, is_free, keeps_every_file, names_in};
use crate::files::law_renaming_keeps_every_file;
use crate::flow::{unknown, Step, StepView};
use crate::numbers::{decimal, law_decimal_is_digits, law_decimal_is_injective, push_decimal};
use crate::path_laws::{are_plain_names, directory_below, law_item_below_root};
use crate::path_laws::law_parent_drops_last_component;
use crate::path_laws::{is_bare_drive, is_single_component, law_file_name_is_single_component};
use crate::path_laws::{law_join_adds_component, law_join_has_file_name, law_join_stays_within};
use crate::path_laws::{law_relative_forms_compose, law_relative_forms_have_no_backslash};
use crate::path_laws::{law_trailing_separator_adds_nothing, takes_names};
use crate::paths::{body, lemma_places, spans};
use crate::paths::{components, file_name, file_name_of, has_drive, is_verbatim, is_within, join};
use crate::paths::{joined_path, main_separator, parent, parent_of, Platform, same_path};
use crate::paths::{separates, to_workspace_relative, within, workspace_relative};
use crate::text::{concat2, concat3, last_at, last_position, substring, to_chars, trim, trimmed};
use crate::text::{is_last_position, joined, lemma_last_at};

verus! {

/// One item that was moved, before and after, relative to the workspace.
#[derive(Debug)]
pub struct MovedFile {
    pub old_path: String,
    pub new_path: String,
}

/// A [`MovedFile`] with its texts as character sequences.
#[verifier::ext_equal]
pub struct MovedView {
    pub old_path: Seq<char>,
    pub new_path: Seq<char>,
}

impl View for MovedFile {
    type V = MovedView;

    open spec fn view(&self) -> MovedView {
        MovedView { old_path: self.old_path@, new_path: self.new_path@ }
    }
}

/// What the renderer is told about a move.
#[derive(Debug)]
pub struct MoveResult {
    pub success: bool,
    pub moved_files: Vec<MovedFile>,
    pub errors: Vec<String>,
}

/// A [`MoveResult`] with its texts as character sequences.
#[verifier::ext_equal]
pub struct MoveView {
    pub success: bool,
    pub moved_files: Seq<MovedView>,
    pub errors: Seq<Seq<char>>,
}

impl View for MoveResult {
    type V = MoveView;

    open spec fn view(&self) -> MoveView {
        MoveView {
            success: self.success,
            moved_files: self.moved_files@.map_values(|m: MovedFile| m@),
            errors: self.errors@.map_values(|e: String| e@),
        }
    }
}

// ---------------------------------------------------------------------------------------------
// Names
// ---------------------------------------------------------------------------------------------
/// The highest counter that is tried.
pub const MAX_COUNTER: u32 = 9999;

/// Where the extension of an item name begins: at the last dot that has something before it, else
/// at the end.
pub open spec fn stem_end(item: Seq<char>) -> int {
    match last_at(item, '.') {
        Some(i) => if i > 0 {
            i
        } else {
            item.len() as int
        },
        None => item.len() as int,
    }
}

/// The item name with a counter put before its extension.
pub open spec fn numbered(item: Seq<char>, counter: nat) -> Seq<char> {
    item.subrange(0, stem_end(item)) + " ("@ + decimal(counter) + ")"@ + item.subrange(
        stem_end(item),
        item.len() as int,
    )
}

/// The names that are tried, in order: the item's own, then the numbered ones.
pub open spec fn offered(item: Seq<char>, attempt: nat) -> Seq<char> {
    if attempt == 0 {
        item
    } else {
        numbered(item, attempt)
    }
}

/// The name that is tried at an attempt.
pub fn offer(item: &str, attempt: u32) -> (name: String)
    ensures
        name@ == offered(item@, attempt as nat),
{
    if attempt == 0 {
        return item.to_owned();
    }
    let chars = to_chars(item);
    let len: usize = chars.len();
    let end: usize = match last_position(&chars, '.') {
        Some(i) => if i > 0 {
            i
        } else {
            len
        },
        None => len,
    };
    let mut name = concat2(substring(&chars, 0, end).as_str(), " (");
    push_decimal(&mut name, attempt as u64);
    name.append(")");
    name.append(substring(&chars, end, len).as_str());
    name
}

/// How far the search for a free name has come.
#[derive(Clone, Copy, Debug, PartialEq, Eq, Structural)]
pub struct NameSearch {
    /// How many of the offered names were found taken, one after the other.
    pub taken: u32,
    /// Whether the name after those was found free.
    pub free: bool,
}

impl NameSearch {
    /// No name has been offered yet.
    pub fn new() -> (search: NameSearch)
        ensures
            search == (NameSearch { taken: 0, free: false }),
    {
        NameSearch { taken: 0, free: false }
    }

    /// The search is over: a name is free, or all names have been tried.
    pub open spec fn is_over(self) -> bool {
        self.free || self.taken > MAX_COUNTER
    }

    /// The name that the search came to: the free one, or the item's own where none is free.
    pub open spec fn chosen(self, item: Seq<char>) -> Seq<char> {
        if self.free {
            offered(item, self.taken as nat)
        } else {
            item
        }
    }

    /// Takes note of whether the name on offer is taken.
    pub fn note(&mut self, name_is_taken: bool)
        requires
            !old(self).is_over(),
        ensures
            *final(self) == (if name_is_taken {
                NameSearch { taken: (old(self).taken + 1) as u32, free: false }
            } else {
                NameSearch { taken: old(self).taken, free: true }
            }),
    {
        if name_is_taken {
            self.taken = self.taken + 1;
        } else {
            self.free = true;
        }
    }

    /// The search agrees with a directory: the names counted are occupied there, and the name called
    /// free is not.
    pub open spec fn agrees(self, item: Seq<char>, occupied: Set<Seq<char>>) -> bool {
        &&& self.taken <= MAX_COUNTER + 1
        &&& forall|k: nat|
            k < self.taken ==> occupied.contains(#[trigger] offered(item, k))
        &&& self.free ==> self.taken <= MAX_COUNTER && !occupied.contains(
            offered(item, self.taken as nat),
        )
    }
}

// ---------------------------------------------------------------------------------------------
// One source
// ---------------------------------------------------------------------------------------------
/// How the handling of one source ended.
#[derive(Debug)]
pub enum ItemOutcome {
    /// The item was moved.
    Moved(MovedFile),
    /// The item was not moved, with the message that says why.
    Failed(String),
    /// The item is in the target directory already.
    Skipped,
}

/// An [`ItemOutcome`] with its texts as character sequences.
#[verifier::ext_equal]
pub enum OutcomeView {
    Moved(MovedView),
    Failed(Seq<char>),
    Skipped,
}

impl View for ItemOutcome {
    type V = OutcomeView;

    open spec fn view(&self) -> OutcomeView {
        match self {
            ItemOutcome::Moved(m) => OutcomeView::Moved(m@),
            ItemOutcome::Failed(e) => OutcomeView::Failed(e@),
            ItemOutcome::Skipped => OutcomeView::Skipped,
        }
    }
}

/// What a move needs to have done; `T` is the type of texts, `O` that of outcomes.
#[verifier::ext_equal]
pub enum MoveAsk<T, O> {
    /// Check that this is a workspace, and report its root path.
    CheckRoot(T),
    /// Resolve this path inside the workspace, and report where the target directory is.
    ResolveTarget(T),
    /// Report whether the target is a directory.
    TargetIsDir,
    /// Resolve this path inside the workspace, and report where the current source is.
    ResolveSource(T),
    /// Report whether the current source exists.
    SourceExists,
    /// Report whether the target directory has an entry of this name, be it a link to nowhere.
    NameTaken(T),
    /// Move the current source into the target directory under this name.
    MoveTo(T),
    /// Record how the current source ended, and go on with the next one.
    Record(O),
}

impl View for MoveAsk<String, ItemOutcome> {
    type V = MoveAsk<Seq<char>, OutcomeView>;

    open spec fn view(&self) -> MoveAsk<Seq<char>, OutcomeView> {
        match self {
            MoveAsk::CheckRoot(t) => MoveAsk::CheckRoot(t@),
            MoveAsk::ResolveTarget(t) => MoveAsk::ResolveTarget(t@),
            MoveAsk::TargetIsDir => MoveAsk::TargetIsDir,
            MoveAsk::ResolveSource(t) => MoveAsk::ResolveSource(t@),
            MoveAsk::SourceExists => MoveAsk::SourceExists,
            MoveAsk::NameTaken(t) => MoveAsk::NameTaken(t@),
            MoveAsk::MoveTo(t) => MoveAsk::MoveTo(t@),
            MoveAsk::Record(o) => MoveAsk::Record(o@),
        }
    }
}

/// What has been observed of the current source. Errors are messages.
pub struct ItemSeen {
    pub resolved: Option<Result<String, String>>,
    pub exists: Option<bool>,
    pub names: NameSearch,
    pub moved: Option<Result<(), String>>,
}

impl ItemSeen {
    /// Nothing has been observed of the source yet.
    pub fn new() -> (seen: ItemSeen)
        ensures
            seen == (ItemSeen {
                resolved: None,
                exists: None,
                names: NameSearch { taken: 0, free: false },
                moved: None,
            }),
    {
        ItemSeen { resolved: None, exists: None, names: NameSearch::new(), moved: None }
    }
}

/// The target directory is the item itself or lies inside it.
pub open spec fn moves_into_itself(
    platform: Platform,
    item: Seq<char>,
    target: Seq<char>,
) -> bool {
    ||| components(platform, item) == components(platform, target)
    ||| is_within(platform, target, item + main_separator(platform))
}

/// The item lies directly in the target directory.
pub open spec fn is_already_there(platform: Platform, item: Seq<char>, target: Seq<char>) -> bool {
    match parent_of(platform, item) {
        Some(dir) => components(platform, dir) == components(platform, target),
        None => false,
    }
}

/// The form that the renderer sees; a path outside the workspace is shown as it is.
pub open spec fn relative_or_whole(platform: Platform, p: Seq<char>, root: Seq<char>) -> Seq<char> {
    match workspace_relative(platform, p, root) {
        Some(rest) => rest,
        None => p,
    }
}

/// The form that the renderer sees; a path outside the workspace is shown as it is.
pub fn relativize(platform: Platform, p: &str, root: &str) -> (r: String)
    ensures
        r@ == relative_or_whole(platform, p@, root@),
{
    match to_workspace_relative(platform, p, root) {
        Some(rest) => rest,
        None => p.to_owned(),
    }
}

/// What to do next for one source.
pub open spec fn item_next(
    platform: Platform,
    root: Seq<char>,
    target: Seq<char>,
    source: Seq<char>,
    seen: ItemSeen,
) -> MoveAsk<Seq<char>, OutcomeView> {
    let given = trimmed(source);
    match (seen.resolved, seen.exists) {
        (None, _) => MoveAsk::ResolveSource(given),
        (Some(Err(e)), _) => MoveAsk::Record(
            OutcomeView::Failed("Invalid source "@ + given + ": "@ + e@),
        ),
        (_, None) => MoveAsk::SourceExists,
        (_, Some(false)) => MoveAsk::Record(OutcomeView::Failed("Not found: "@ + given)),
        (Some(Ok(at)), _) => if moves_into_itself(platform, at@, target) {
            MoveAsk::Record(OutcomeView::Failed("Cannot move folder into itself: "@ + given))
        } else {
            match file_name_of(platform, at@) {
                None => MoveAsk::Record(
                    OutcomeView::Failed("Cannot determine filename for "@ + given),
                ),
                Some(item) => if is_already_there(platform, at@, target) {
                    MoveAsk::Record(OutcomeView::Skipped)
                } else if !seen.names.is_over() {
                    MoveAsk::NameTaken(offered(item, seen.names.taken as nat))
                } else {
                    match seen.moved {
                        None => MoveAsk::MoveTo(seen.names.chosen(item)),
                        Some(Err(e)) => MoveAsk::Record(
                            OutcomeView::Failed("Move "@ + given + " failed: "@ + e@),
                        ),
                        Some(Ok(_)) => MoveAsk::Record(
                            OutcomeView::Moved(
                                MovedView {
                                    old_path: relative_or_whole(platform, at@, root),
                                    new_path: relative_or_whole(
                                        platform,
                                        joined_path(platform, target, seen.names.chosen(item)),
                                        root,
                                    ),
                                },
                            ),
                        ),
                    }
                },
            }
        },
    }
}

/// Whether the target directory is the item itself or lies inside it.
fn into_itself(platform: Platform, item: &str, target: &str) -> (r: bool)
    ensures
        r == moves_into_itself(platform, item@, target@),
{
    if same_path(platform, item, target) {
        return true;
    }
    let mut inside = item.to_owned();
    if platform == Platform::Windows {
        inside.push('\\');
    } else {
        inside.push('/');
    }
    assert(inside@ =~= item@ + main_separator(platform));
    within(platform, target, inside.as_str())
}

/// Whether the item lies directly in the target directory.
fn already_there(platform: Platform, item: &str, target: &str) -> (r: bool)
    ensures
        r == is_already_there(platform, item@, target@),
{
    match parent(platform, item) {
        Some(dir) => same_path(platform, dir.as_str(), target),
        None => false,
    }
}

/// Decides what to do next for one source.
fn item_step(
    platform: Platform,
    root: &str,
    target: &str,
    source: &str,
    seen: &ItemSeen,
) -> (ask: MoveAsk<String, ItemOutcome>)
    ensures
        ask@ == item_next(platform, root@, target@, source@, *seen),
{
    let given = trim(source);
    let at = match &seen.resolved {
        None => {
            return MoveAsk::ResolveSource(given);
        },
        Some(Err(e)) => {
            let mut message = concat3("Invalid source ", given.as_str(), ": ");
            message.append(e.as_str());
            return MoveAsk::Record(ItemOutcome::Failed(message));
        },
        Some(Ok(at)) => at,
    };
    match seen.exists {
        None => {
            return MoveAsk::SourceExists;
        },
        Some(exists) => {
            if !exists {
                return MoveAsk::Record(ItemOutcome::Failed(concat2("Not found: ", given.as_str())));
            }
        },
    }
    if into_itself(platform, at.as_str(), target) {
        return MoveAsk::Record(
            ItemOutcome::Failed(concat2("Cannot move folder into itself: ", given.as_str())),
        );
    }
    let item = match file_name(platform, at.as_str()) {
        None => {
            return MoveAsk::Record(
                ItemOutcome::Failed(concat2("Cannot determine filename for ", given.as_str())),
            );
        },
        Some(item) => item,
    };
    if already_there(platform, at.as_str(), target) {
        return MoveAsk::Record(ItemOutcome::Skipped);
    }
    if !(seen.names.free || seen.names.taken > MAX_COUNTER) {
        return MoveAsk::NameTaken(offer(item.as_str(), seen.names.taken));
    }
    let name = if seen.names.free {
        offer(item.as_str(), seen.names.taken)
    } else {
        item
    };
    match &seen.moved {
        None => MoveAsk::MoveTo(name),
        Some(Err(e)) => {
            let mut message = concat3("Move ", given.as_str(), " failed: ");
            message.append(e.as_str());
            MoveAsk::Record(ItemOutcome::Failed(message))
        },
        Some(Ok(_)) => {
            let destination = join(platform, target, name.as_str());
            MoveAsk::Record(
                ItemOutcome::Moved(
                    MovedFile {
                        old_path: relativize(platform, at.as_str(), root),
                        new_path: relativize(platform, destination.as_str(), root),
                    },
                ),
            )
        },
    }
}

// ---------------------------------------------------------------------------------------------
// All sources
// ---------------------------------------------------------------------------------------------
/// What has been observed of a move. Errors are messages.
pub struct MoveSeen {
    pub root: Option<Result<String, String>>,
    pub target: Option<Result<String, String>>,
    pub target_is_dir: Option<bool>,
    /// How the first sources ended, in order.
    pub finished: Vec<ItemOutcome>,
    /// What is known of the source after those.
    pub current: ItemSeen,
}

/// The outcomes with their texts as character sequences.
pub open spec fn outcomes(v: Seq<ItemOutcome>) -> Seq<OutcomeView> {
    v.map_values(|o: ItemOutcome| o@)
}

impl MoveSeen {
    /// Nothing has been observed yet.
    pub fn new() -> (seen: MoveSeen)
        ensures
            seen.root is None,
            seen.target is None,
            seen.target_is_dir is None,
            seen.finished@ == Seq::<ItemOutcome>::empty(),
            seen.current == (ItemSeen {
                resolved: None,
                exists: None,
                names: NameSearch { taken: 0, free: false },
                moved: None,
            }),
    {
        MoveSeen {
            root: None,
            target: None,
            target_is_dir: None,
            finished: Vec::new(),
            current: ItemSeen::new(),
        }
    }

    /// Records how the current source ended; nothing is known of the next one.
    pub fn record(&mut self, outcome: ItemOutcome)
        ensures
            final(self).root == old(self).root,
            final(self).target == old(self).target,
            final(self).target_is_dir == old(self).target_is_dir,
            final(self).finished@ == old(self).finished@.push(outcome),
            final(self).current == (ItemSeen {
                resolved: None,
                exists: None,
                names: NameSearch { taken: 0, free: false },
                moved: None,
            }),
    {
        self.finished.push(outcome);
        self.current = ItemSeen::new();
    }
}

/// The items among the outcomes that were moved, in order.
pub open spec fn moved_among(v: Seq<OutcomeView>) -> Seq<MovedView>
    decreases v.len(),
{
    if v.len() == 0 {
        Seq::empty()
    } else {
        let rest = moved_among(v.drop_last());
        match v.last() {
            OutcomeView::Moved(m) => rest.push(m),
            _ => rest,
        }
    }
}

/// The messages among the outcomes, in order.
pub open spec fn errors_among(v: Seq<OutcomeView>) -> Seq<Seq<char>>
    decreases v.len(),
{
    if v.len() == 0 {
        Seq::empty()
    } else {
        let rest = errors_among(v.drop_last());
        match v.last() {
            OutcomeView::Failed(e) => rest.push(e),
            _ => rest,
        }
    }
}

/// The step that follows from what has been observed: the workspace and the target directory are
/// checked, then the sources are handled one by one; the result tells how they ended.
pub open spec fn move_next(
    platform: Platform,
    workspace: Seq<char>,
    sources: Seq<String>,
    target_dir: Seq<char>,
    seen: MoveSeen,
) -> StepView<MoveAsk<Seq<char>, OutcomeView>, MoveView> {
    if sources.len() == 0 {
        StepView::Done(Err("sourcePaths is required"@))
    } else {
        match (seen.root, seen.target, seen.target_is_dir) {
            (None, _, _) => StepView::Ask(MoveAsk::CheckRoot(workspace)),
            (Some(Err(e)), _, _) => StepView::Done(Err(e@)),
            (_, None, _) => StepView::Ask(MoveAsk::ResolveTarget(trimmed(target_dir))),
            (_, Some(Err(e)), _) => StepView::Done(Err(e@)),
            (_, _, None) => StepView::Ask(MoveAsk::TargetIsDir),
            (_, _, Some(false)) => StepView::Done(Err("Target must be an existing directory"@)),
            (Some(Ok(root)), Some(Ok(target)), _) => if seen.finished@.len() < sources.len() {
                StepView::Ask(
                    item_next(
                        platform,
                        root@,
                        target@,
                        sources[seen.finished@.len() as int]@,
                        seen.current,
                    ),
                )
            } else {
                StepView::Done(
                    Ok(
                        MoveView {
                            success: true,
                            moved_files: moved_among(outcomes(seen.finished@)),
                            errors: errors_among(outcomes(seen.finished@)),
                        },
                    ),
                )
            },
        }
    }
}

/// The result of a move whose sources have all been handled.
fn move_result(finished: &Vec<ItemOutcome>) -> (r: MoveResult)
    ensures
        r@ == (MoveView {
            success: true,
            moved_files: moved_among(outcomes(finished@)),
            errors: errors_among(outcomes(finished@)),
        }),
{
    let mut moved_files: Vec<MovedFile> = Vec::new();
    let mut errors: Vec<String> = Vec::new();
    let mut i: usize = 0;
    let ghost all = outcomes(finished@);
    while i < finished.len()
        invariant
            i <= finished@.len(),
            all == outcomes(finished@),
            moved_files@.map_values(|m: MovedFile| m@) == moved_among(all.take(i as int)),
            errors@.map_values(|e: String| e@) == errors_among(all.take(i as int)),
        decreases finished@.len() - i,
    {
        let ghost moved_before = moved_files@;
        let ghost errors_before = errors@;
        assert(all.take(i + 1).drop_last() =~= all.take(i as int));
        assert(all.take(i + 1).last() == finished@[i as int]@);
        match &finished[i] {
            ItemOutcome::Moved(m) => {
                let copy = MovedFile { old_path: m.old_path.clone(), new_path: m.new_path.clone() };
                assert(copy@ == m@);
                moved_files.push(copy);
                assert(moved_files@.map_values(|m: MovedFile| m@) =~= moved_before.map_values(
                    |m: MovedFile| m@,
                ).push(m@));
            },
            ItemOutcome::Failed(e) => {
                errors.push(e.clone());
                assert(errors@.map_values(|e: String| e@) =~= errors_before.map_values(
                    |e: String| e@,
                ).push(e@));
            },
            ItemOutcome::Skipped => {},
        }
        i = i + 1;
    }
    assert(all.take(i as int) =~= all);
    MoveResult { success: true, moved_files, errors }
}

/// Moves items into a directory: decides the next step from what has been observed.
pub fn cmd_workspace_move(
    platform: Platform,
    workspace: &str,
    source_paths: &Vec<String>,
    target_dir: &str,
    seen: &MoveSeen,
) -> (step: Step<MoveAsk<String, ItemOutcome>, MoveResult>)
    ensures
        step@ == move_next(platform, workspace@, source_paths@, target_dir@, *seen),
{
    if source_paths.len() == 0 {
        return Step::Done(Err("sourcePaths is required".to_owned()));
    }
    let root = match &seen.root {
        None => {
            return Step::Ask(MoveAsk::CheckRoot(workspace.to_owned()));
        },
        Some(Err(e)) => {
            return Step::Done(Err(e.clone()));
        },
        Some(Ok(root)) => root,
    };
    let target = match &seen.target {
        None => {
            return Step::Ask(MoveAsk::ResolveTarget(trim(target_dir)));
        },
        Some(Err(e)) => {
            return Step::Done(Err(e.clone()));
        },
        Some(Ok(target)) => target,
    };
    match seen.target_is_dir {
        None => {
            return Step::Ask(MoveAsk::TargetIsDir);
        },
        Some(is_dir) => {
            if !is_dir {
                return Step::Done(Err("Target must be an existing directory".to_owned()));
            }
        },
    }
    if seen.finished.len() < source_paths.len() {
        let source = &source_paths[seen.finished.len()];
        Step::Ask(
            item_step(platform, root.as_str(), target.as_str(), source.as_str(), &seen.current),
        )
    } else {
        Step::Done(Ok(move_result(&seen.finished)))
    }
}

// ---------------------------------------------------------------------------------------------
// Laws
// ---------------------------------------------------------------------------------------------
/// A search that is told the truth about a directory goes on agreeing with it.
pub proof fn law_search_stays_truthful(
    search: NameSearch,
    item: Seq<char>,
    occupied: Set<Seq<char>>,
)
    requires
        search.agrees(item, occupied),
        !search.is_over(),
    ensures
        ({
            let after = if occupied.contains(offered(item, search.taken as nat)) {
                NameSearch { taken: (search.taken + 1) as u32, free: false }
            } else {
                NameSearch { taken: search.taken, free: true }
            };
            after.agrees(item, occupied)
        }),
{
}

/// A truthful search that is over has chosen the first free name, or has found every name taken and
/// fallen back on the item's own.
pub proof fn law_search_finds_first_free_name(
    search: NameSearch,
    item: Seq<char>,
    occupied: Set<Seq<char>>,
)
    requires
        search.agrees(item, occupied),
        search.is_over(),
    ensures
        ({
            ||| {
                &&& !occupied.contains(search.chosen(item))
                &&& search.taken <= MAX_COUNTER
                &&& search.chosen(item) == offered(item, search.taken as nat)
                &&& forall|k: nat|
                    k < search.taken ==> occupied.contains(#[trigger] offered(item, k))
            }
            ||| {
                &&& search.chosen(item) == item
                &&& forall|k: nat|
                    k <= MAX_COUNTER ==> occupied.contains(#[trigger] offered(item, k))
            }
        }),
{
}

proof fn lemma_stem_end(item: Seq<char>)
    ensures
        0 <= stem_end(item) <= item.len(),
        stem_end(item) < item.len() ==> stem_end(item) > 0 && is_last_position(
            item,
            '.',
            stem_end(item),
        ),
        stem_end(item) == item.len() ==> forall|j: int|
            0 < j < item.len() ==> item[j] != '.',
{
    if item.contains('.') {
        lemma_has_last_position(item, '.');
        let i = choose|i: int| is_last_position(item, '.', i);
    } else {
        assert forall|j: int| 0 < j < item.len() implies item[j] != '.' by {
            if item[j] == '.' {
                assert(item.contains(item[j]));
            }
        }
    }
}

proof fn lemma_has_last_position(s: Seq<char>, c: char)
    requires
        s.contains(c),
    ensures
        exists|i: int| is_last_position(s, c, i),
    decreases s.len(),
{
    if s.last() == c {
        assert(is_last_position(s, c, s.len() - 1));
    } else {
        let front = s.drop_last();
        let k = choose|k: int| 0 <= k < s.len() && s[k] == c;
        assert(front[k] == c);
        lemma_has_last_position(front, c);
        let i = choose|i: int| is_last_position(front, c, i);
        assert forall|j: int| i < j < s.len() implies s[j] != c by {
            if j < front.len() {
                assert(front[j] == s[j]);
            }
        }
        assert(is_last_position(s, c, i));
    }
}

/// The parts that a numbered name is made of, by position.
proof fn lemma_numbered(item: Seq<char>, counter: nat)
    ensures
        ({
            let name = numbered(item, counter);
            let e = stem_end(item);
            let d = decimal(counter).len();
            &&& 0 <= e <= item.len()
            &&& d > 0
            &&& name.len() == item.len() + 3 + d
            &&& name.subrange(0, e) == item.subrange(0, e)
            &&& name.subrange(e + 2, e + 2 + d) == decimal(counter)
            &&& name.subrange(e + 3 + d, name.len() as int) == item.subrange(
                e,
                item.len() as int,
            )
            &&& name[e] == ' ' && name[e + 1] == '(' && name[e + 2 + d] == ')'
        }),
{
    reveal_strlit(" (");
    reveal_strlit(")");
    lemma_stem_end(item);
    law_decimal_is_digits(counter);
    let name = numbered(item, counter);
    let e = stem_end(item);
    let d = decimal(counter).len();
    assert(name.subrange(0, e) =~= item.subrange(0, e));
    assert(name.subrange(e + 2, e + 2 + d) =~= decimal(counter));
    assert(name.subrange(e + 3 + d, name.len() as int) =~= item.subrange(e, item.len() as int));
}

/// No name is offered twice.
pub proof fn law_offered_names_are_distinct(item: Seq<char>, j: nat, k: nat)
    requires
        offered(item, j) == offered(item, k),
    ensures
        j == k,
{
    lemma_numbered(item, j);
    lemma_numbered(item, k);
    if j > 0 && k > 0 {
        law_decimal_is_injective(j, k);
    }
}

/// A numbered name has the extension of the item's own name.
pub proof fn law_numbered_keeps_extension(item: Seq<char>, counter: nat)
    ensures
        ({
            let name = numbered(item, counter);
            name.subrange(stem_end(name), name.len() as int) == item.subrange(
                stem_end(item),
                item.len() as int,
            )
        }),
{
    lemma_numbered(item, counter);
    lemma_stem_end(item);
    law_decimal_is_digits(counter);
    let name = numbered(item, counter);
    let e = stem_end(item);
    let d = decimal(counter).len() as int;
    let tail = e + 3 + d;
    assert forall|j: int| e <= j < tail implies name[j] != '.' by {
        if e + 2 <= j < e + 2 + d {
            assert(name.subrange(e + 2, e + 2 + d)[j - e - 2] == name[j]);
        }
    }
    assert forall|j: int| 0 <= j < e implies name[j] == item[j] by {
        assert(name.subrange(0, e)[j] == item.subrange(0, e)[j]);
    }
    assert forall|j: int| tail <= j < name.len() implies name[j] == item[j - 3 - d] by {
        assert(name.subrange(tail, name.len() as int)[j - tail] == item.subrange(
            e,
            item.len() as int,
        )[j - tail]);
    }
    if e < item.len() {
        assert(name[tail] == item[e]);
        assert(is_last_position(name, '.', tail));
        lemma_last_at(name, '.', tail);
    } else {
        lemma_stem_end(name);
        if stem_end(name) < name.len() {
            let p = stem_end(name);
            assert(name[p] == '.');
            assert(p < e);
            assert(item[p] == '.');
        }
        assert(name.subrange(stem_end(name), name.len() as int) =~= item.subrange(
            e,
            item.len() as int,
        ));
    }
}

/// Every offered name is a single component where the item's own name is one.
pub proof fn law_offered_is_single_component(platform: Platform, item: Seq<char>, attempt: nat)
    requires
        is_single_component(platform, item),
    ensures
        is_single_component(platform, offered(item, attempt)),
{
    lemma_numbered(item, attempt);
    law_decimal_is_digits(attempt);
    let name = numbered(item, attempt);
    let e = stem_end(item);
    let d = decimal(attempt).len() as int;
    let tail = e + 3 + d;
    assert forall|j: int| 0 <= j < name.len() implies !separates(platform, #[trigger] name[j]) by {
        if j < e {
            assert(name.subrange(0, e)[j] == item.subrange(0, e)[j]);
        } else if e + 2 <= j < e + 2 + d {
            assert(name.subrange(e + 2, e + 2 + d)[j - e - 2] == name[j]);
        } else if tail <= j {
            assert(name.subrange(tail, name.len() as int)[j - tail] == item.subrange(
                e,
                item.len() as int,
            )[j - tail]);
        }
    }
}

/// A source is moved only when it was found, does not hold the target directory, is not in it
/// already, and the search for a name is over.
pub proof fn law_move_only_outside_itself(
    platform: Platform,
    root: Seq<char>,
    target: Seq<char>,
    source: Seq<char>,
    seen: ItemSeen,
    name: Seq<char>,
)
    requires
        item_next(platform, root, target, source, seen) == MoveAsk::<
            Seq<char>,
            OutcomeView,
        >::MoveTo(name),
    ensures
        seen.exists == Some(true),
        seen.names.is_over(),
        seen.resolved matches Some(Ok(at)) && {
            &&& !moves_into_itself(platform, at@, target)
            &&& !is_already_there(platform, at@, target)
            &&& file_name_of(platform, at@) matches Some(item) && name == seen.names.chosen(item)
        },
{
}

/// An item that is more than a drive, and that names can stand behind, holds the target directory
/// exactly when the target is the item or lies below it.
pub proof fn law_into_itself_is_within(platform: Platform, item: Seq<char>, target: Seq<char>)
    requires
        takes_names(platform, item),
        item.len() > 0,
        !is_bare_drive(platform, item),
    ensures
        moves_into_itself(platform, item, target) == is_within(platform, target, item),
{
    law_trailing_separator_adds_nothing(platform, item);
    let c = components(platform, item);
    assert(c.subrange(0, c.len() as int) =~= c);
}

/// A moved item whose name does not look like a drive or a path lands in the target directory under
/// the chosen name, inside the workspace where the target directory is.
pub proof fn law_moved_item_stays_in_workspace(
    platform: Platform,
    root: Seq<char>,
    target: Seq<char>,
    at: Seq<char>,
    item: Seq<char>,
    search: NameSearch,
)
    requires
        is_within(platform, target, root),
        file_name_of(platform, at) == Some(item),
        takes_names(platform, target),
        !has_drive(platform, item),
        is_verbatim(platform, at) ==> !item.contains('/'),
    ensures
        ({
            let destination = joined_path(platform, target, search.chosen(item));
            &&& is_within(platform, destination, root)
            &&& workspace_relative(platform, destination, root) is Some
            &&& file_name_of(platform, destination) == Some(search.chosen(item))
            &&& components(platform, destination) == components(platform, target).push(
                search.chosen(item),
            )
        }),
{
    law_file_name_is_single_component(platform, at);
    law_offered_is_single_component(platform, item, search.taken as nat);
    law_join_stays_within(platform, root, target, search.chosen(item));
    law_join_adds_component(platform, target, search.chosen(item));
    law_join_has_file_name(platform, target, search.chosen(item));
}

/// How many sources were left alone.
pub open spec fn skipped_among(v: Seq<OutcomeView>) -> nat
    decreases v.len(),
{
    if v.len() == 0 {
        0
    } else {
        skipped_among(v.drop_last()) + (if v.last() is Skipped {
            1nat
        } else {
            0nat
        })
    }
}

/// Every source is reported as moved, reported as an error, or left alone.
pub proof fn law_every_source_is_accounted_for(v: Seq<OutcomeView>)
    ensures
        moved_among(v).len() + errors_among(v).len() + skipped_among(v) == v.len(),
    decreases v.len(),
{
    if v.len() > 0 {
        law_every_source_is_accounted_for(v.drop_last());
    }
}

/// A move asks only for what has not been observed, offers a name only while the search for one goes
/// on, and records an outcome only while sources are left.
pub proof fn law_move_asks_what_is_unknown(
    platform: Platform,
    workspace: Seq<char>,
    sources: Seq<String>,
    target_dir: Seq<char>,
    seen: MoveSeen,
)
    ensures
        move_next(platform, workspace, sources, target_dir, seen) matches StepView::Ask(ask)
            ==> match ask {
            MoveAsk::CheckRoot(_) => seen.root is None,
            MoveAsk::ResolveTarget(_) => seen.target is None,
            MoveAsk::TargetIsDir => seen.target_is_dir is None,
            MoveAsk::ResolveSource(_) => seen.current.resolved is None,
            MoveAsk::SourceExists => seen.current.exists is None,
            MoveAsk::NameTaken(_) => !seen.current.names.is_over(),
            MoveAsk::MoveTo(_) => seen.current.moved is None,
            MoveAsk::Record(_) => seen.finished@.len() < sources.len(),
        },
{
}

/// Once the workspace and the target directory have been accepted, the move as a whole succeeds: what
/// goes wrong with a source is reported with it and does not fail the others.
pub proof fn law_bad_sources_do_not_fail_the_move(
    platform: Platform,
    workspace: Seq<char>,
    sources: Seq<String>,
    target_dir: Seq<char>,
    seen: MoveSeen,
)
    requires
        sources.len() > 0,
        seen.root matches Some(Ok(_)),
        seen.target matches Some(Ok(_)),
        seen.target_is_dir == Some(true),
    ensures
        move_next(platform, workspace, sources, target_dir, seen) matches StepView::Done(r) ==> {
            &&& r matches Ok(result) && result.success
            &&& seen.finished@.len() >= sources.len()
        },
{
}

/// How many names the search can still offer.
pub open spec fn names_left(search: NameSearch) -> int {
    if search.is_over() {
        0
    } else {
        MAX_COUNTER + 1 - search.taken
    }
}

/// How many questions of a move of `n` sources are still open, at most: for each source that is left,
/// three and one for every name that can be offered.
pub open spec fn move_unknowns(n: nat, seen: MoveSeen) -> int {
    unknown(seen.root) + unknown(seen.target) + unknown(seen.target_is_dir) + (MAX_COUNTER + 5) * (n
        - seen.finished@.len()) + unknown(seen.current.resolved) + unknown(seen.current.exists)
        + unknown(seen.current.moved) + names_left(seen.current.names)
}

/// What was observed afterwards is what was observed before and an answer to the question.
pub open spec fn move_answered(
    ask: MoveAsk<Seq<char>, OutcomeView>,
    before: MoveSeen,
    after: MoveSeen,
) -> bool {
    match ask {
        MoveAsk::CheckRoot(_) => after.root is Some && after == (MoveSeen {
            root: after.root,
            ..before
        }),
        MoveAsk::ResolveTarget(_) => after.target is Some && after == (MoveSeen {
            target: after.target,
            ..before
        }),
        MoveAsk::TargetIsDir => after.target_is_dir is Some && after == (MoveSeen {
            target_is_dir: after.target_is_dir,
            ..before
        }),
        MoveAsk::ResolveSource(_) => after.current.resolved is Some && after == (MoveSeen {
            current: ItemSeen { resolved: after.current.resolved, ..before.current },
            ..before
        }),
        MoveAsk::SourceExists => after.current.exists is Some && after == (MoveSeen {
            current: ItemSeen { exists: after.current.exists, ..before.current },
            ..before
        }),
        MoveAsk::NameTaken(_) => {
            &&& after == (MoveSeen {
                current: ItemSeen { names: after.current.names, ..before.current },
                ..before
            })
            &&& {
                ||| after.current.names == (NameSearch {
                    taken: (before.current.names.taken + 1) as u32,
                    free: false,
                })
                ||| after.current.names == (NameSearch {
                    taken: before.current.names.taken,
                    free: true,
                })
            }
        },
        MoveAsk::MoveTo(_) => after.current.moved is Some && after == (MoveSeen {
            current: ItemSeen { moved: after.current.moved, ..before.current },
            ..before
        }),
        MoveAsk::Record(_) => {
            &&& after.root == before.root
            &&& after.target == before.target
            &&& after.target_is_dir == before.target_is_dir
            &&& after.finished@.len() == before.finished@.len() + 1
            &&& after.current == (ItemSeen {
                resolved: None,
                exists: None,
                names: NameSearch { taken: 0, free: false },
                moved: None,
            })
        },
    }
}

/// A move ends: every answer leaves fewer questions open, and there are never fewer than none.
pub proof fn law_move_ends(
    platform: Platform,
    workspace: Seq<char>,
    sources: Seq<String>,
    target_dir: Seq<char>,
    seen: MoveSeen,
    ask: MoveAsk<Seq<char>, OutcomeView>,
    after: MoveSeen,
)
    requires
        move_next(platform, workspace, sources, target_dir, seen) == StepView::<
            MoveAsk<Seq<char>, OutcomeView>,
            MoveView,
        >::Ask(ask),
        move_answered(ask, seen, after),
        seen.finished@.len() <= sources.len(),
    ensures
        0 <= move_unknowns(sources.len(), after) < move_unknowns(sources.len(), seen),
        after.finished@.len() <= sources.len(),
{
    let k = (MAX_COUNTER + 5) as int;
    let n = sources.len() as int;
    let f = seen.finished@.len() as int;
    if ask is Record {
        assert(k * (n - f - 1) == k * (n - f) - k) by (nonlinear_arith);
        assert(k * (n - f - 1) >= 0) by (nonlinear_arith)
            requires
                k >= 0,
                n - f - 1 >= 0,
        ;
    } else {
        assert(k * (n - f) >= 0) by (nonlinear_arith)
            requires
                k >= 0,
                n - f >= 0,
        ;
    }
}

/// What the renderer is told about a path composes over directories of several components: an item
/// that is `c` below `b`, which is below `a`, is `c` in the workspace `a/b`, and `b`, a slash and `c`
/// in the workspace `a`; no backslash is left.
pub proof fn law_relativize_composes(
    platform: Platform,
    a: Seq<char>,
    bs: Seq<Seq<char>>,
    cs: Seq<Seq<char>>,
)
    requires
        takes_names(platform, a),
        bs.len() > 0,
        cs.len() > 0,
        forall|k: int|
            0 <= k < bs.len() ==> is_single_component(platform, #[trigger] bs[k])
                && !bs[k].contains('\\'),
        forall|k: int|
            0 <= k < cs.len() ==> is_single_component(platform, #[trigger] cs[k])
                && !cs[k].contains('\\'),
    ensures
        ({
            let b = joined(bs, seq!['/']);
            let c = joined(cs, seq!['/']);
            let ab = joined_path(platform, a, b);
            let p = joined_path(platform, ab, c);
            &&& relative_or_whole(platform, p, ab) == c
            &&& relative_or_whole(platform, p, a) == b + seq!['/'] + relative_or_whole(
                platform,
                p,
                ab,
            )
            &&& !relative_or_whole(platform, p, a).contains('\\')
        }),
{
    law_relative_forms_compose(platform, a, bs, cs);
    let ab = joined_path(platform, a, joined(bs, seq!['/']));
    let p = joined_path(platform, ab, joined(cs, seq!['/']));
    law_relative_forms_have_no_backslash(platform, p, a);
}

/// Moving a source under a name that a truthful search found free keeps every file: those at and below
/// the source are then at and below the new path, which is the target directory and the name; all
/// others are where they were, and none is replaced. The source does not hold its own new path.
pub proof fn law_move_keeps_every_file<F>(
    platform: Platform,
    root: Seq<char>,
    target: Seq<char>,
    source: Seq<char>,
    seen: ItemSeen,
    name: Seq<char>,
    files: Map<Seq<Seq<char>>, F>,
)
    requires
        item_next(platform, root, target, source, seen) == MoveAsk::<
            Seq<char>,
            OutcomeView,
        >::MoveTo(name),
        takes_names(platform, target),
        takes_names(platform, seen.resolved->0->Ok_0@),
        file_name_of(platform, seen.resolved->0->Ok_0@) matches Some(item) && {
            &&& !has_drive(platform, item)
            &&& is_verbatim(platform, seen.resolved->0->Ok_0@) ==> !item.contains('/')
            &&& seen.names.agrees(item, names_in(files, components(platform, target)))
        },
        seen.names.free,
    ensures
        ({
            let from = components(platform, seen.resolved->0->Ok_0@);
            let to = components(platform, joined_path(platform, target, name));
            &&& to == components(platform, target).push(name)
            &&& is_free(files, to)
            &&& !from.is_prefix_of(to)
            &&& keeps_every_file(files, files_renamed(files, from, to), from, to)
        }),
{
    let at = seen.resolved->0->Ok_0@;
    let item = file_name_of(platform, at)->0;
    let from = components(platform, at);
    let dir = components(platform, target);
    let to = components(platform, joined_path(platform, target, name));
    law_move_only_outside_itself(platform, root, target, source, seen, name);
    law_file_name_is_single_component(platform, at);
    law_offered_is_single_component(platform, item, seen.names.taken as nat);
    law_join_adds_component(platform, target, name);
    assert(!names_in(files, dir).contains(name));
    assert(!from.is_prefix_of(to)) by {
        if from.is_prefix_of(to) {
            law_parent_drops_last_component(platform, at);
            if from.len() == to.len() {
                assert(to.subrange(0, from.len() as int) =~= to);
                assert(to.drop_last() =~= dir);
            } else {
                assert(to.subrange(0, from.len() as int) =~= dir.subrange(0, from.len() as int));
                assert(at.len() > 0) by {
                    if at.len() == 0 {
                        assert(at =~= Seq::empty());
                        assert(components(platform, at).len() == 0);
                    }
                }
                law_into_itself_is_within(platform, at, target);
            }
        }
    }
    law_renaming_keeps_every_file(files, from, to);
}

// ---------------------------------------------------------------------------------------------
// Laws on what becomes of a source
// ---------------------------------------------------------------------------------------------
/// A path with a file name has a parent, whose components are all but the last.
proof fn lemma_parent_of_named(platform: Platform, at: Seq<char>)
    requires
        file_name_of(platform, at) is Some,
    ensures
        at.len() > 0,
        parent_of(platform, at) matches Some(dir) && components(platform, at).len() > 0
            && components(platform, dir) == components(platform, at).drop_last(),
{
    law_parent_drops_last_component(platform, at);
    assert(components(platform, at).len() == spans(platform, at).len());
    if at.len() == 0 {
        assert(spans(platform, at) =~= Seq::empty());
    }
}

/// A source is left alone only where it lies directly in the target directory: its path has the
/// components of the target directory and one name more.
pub proof fn law_only_what_is_there_is_left_alone(
    platform: Platform,
    root: Seq<char>,
    target: Seq<char>,
    source: Seq<char>,
    seen: ItemSeen,
)
    requires
        item_next(platform, root, target, source, seen) == MoveAsk::<
            Seq<char>,
            OutcomeView,
        >::Record(OutcomeView::Skipped),
    ensures
        seen.exists == Some(true),
        seen.resolved matches Some(Ok(at)) && components(platform, at@).len() > 0 && components(
            platform,
            at@,
        ).drop_last() == components(platform, target),
{
    let at = seen.resolved->0->Ok_0@;
    lemma_parent_of_named(platform, at);
}

/// A source that was found, has a file name and does not hold the target directory is left alone
/// exactly when the components of its path are those of the target directory and one name more. Every
/// other such source, in whatever directory it lies, goes on to be moved: a name is tried for it, it
/// is moved, or how the move ended is recorded. A separator at the end adds nothing to the path, as
/// with every path that names can stand behind.
pub proof fn law_every_other_source_is_moved(
    platform: Platform,
    root: Seq<char>,
    target: Seq<char>,
    source: Seq<char>,
    seen: ItemSeen,
    at: Seq<char>,
    item: Seq<char>,
)
    requires
        seen.resolved matches Some(Ok(found)) && found@ == at,
        seen.exists == Some(true),
        file_name_of(platform, at) == Some(item),
        components(platform, at + main_separator(platform)) == components(platform, at),
        !components(platform, at).is_prefix_of(components(platform, target)),
    ensures
        ({
            let next = item_next(platform, root, target, source, seen);
            let there = components(platform, at).drop_last() == components(platform, target);
            let over = seen.names.free || seen.names.taken > 9999;
            let name = if seen.names.free && seen.names.taken > 0 {
                numbered(item, seen.names.taken as nat)
            } else {
                item
            };
            &&& (next == MoveAsk::<Seq<char>, OutcomeView>::Record(OutcomeView::Skipped)) <==> there
            &&& !there && !over ==> next == MoveAsk::<Seq<char>, OutcomeView>::NameTaken(
                offered(item, seen.names.taken as nat),
            )
            &&& !there && over && seen.moved is None ==> next == MoveAsk::<
                Seq<char>,
                OutcomeView,
            >::MoveTo(name)
            &&& !there && over ==> (seen.moved matches Some(Err(e)) ==> next == MoveAsk::<
                Seq<char>,
                OutcomeView,
            >::Record(OutcomeView::Failed("Move "@ + trimmed(source) + " failed: "@ + e@)))
            &&& !there && over ==> (seen.moved matches Some(Ok(_)) ==> next == MoveAsk::<
                Seq<char>,
                OutcomeView,
            >::Record(
                OutcomeView::Moved(
                    MovedView {
                        old_path: relative_or_whole(platform, at, root),
                        new_path: relative_or_whole(
                            platform,
                            joined_path(platform, target, name),
                            root,
                        ),
                    },
                ),
            ))
        }),
{
    lemma_parent_of_named(platform, at);
    let c = components(platform, at);
    if c == components(platform, target) {
        assert(c.subrange(0, c.len() as int) =~= c);
    }
}

/// A separator at the end adds nothing to a path with a file name that names can stand behind; on
/// other systems than Windows these are all paths with a file name.
pub proof fn law_named_path_takes_a_separator(platform: Platform, at: Seq<char>)
    requires
        file_name_of(platform, at) is Some,
        takes_names(platform, at),
    ensures
        components(platform, at + main_separator(platform)) == components(platform, at),
{
    lemma_parent_of_named(platform, at);
    if is_bare_drive(platform, at) {
        lemma_places(platform, at);
        assert(body(platform, at).len() == 0);
        assert(spans(platform, at) =~= seq![(0int, 2int)]);
    }
    law_trailing_separator_adds_nothing(platform, at);
}

/// A source that holds the target directory, or is it, is never moved: where names can stand behind
/// its path, and the target directory has the components of that path or more, the answer is a
/// refusal that says so.
pub proof fn law_no_source_moves_into_itself(
    platform: Platform,
    root: Seq<char>,
    target: Seq<char>,
    source: Seq<char>,
    seen: ItemSeen,
    at: Seq<char>,
)
    requires
        seen.resolved matches Some(Ok(found)) && found@ == at,
        seen.exists == Some(true),
        takes_names(platform, at),
        components(platform, at).len() > 0,
        !is_bare_drive(platform, at),
        components(platform, at).is_prefix_of(components(platform, target)),
    ensures
        item_next(platform, root, target, source, seen) == MoveAsk::<
            Seq<char>,
            OutcomeView,
        >::Record(OutcomeView::Failed("Cannot move folder into itself: "@ + trimmed(source))),
{
    if at.len() == 0 {
        assert(spans(platform, at) =~= Seq::empty());
    }
    law_into_itself_is_within(platform, at, target);
}

/// Before anything is decided about a source, it is resolved as it was given, without white space at
/// its ends, and looked for; each refusal is recorded with the source it is about.
pub proof fn law_source_is_resolved_as_given(
    platform: Platform,
    root: Seq<char>,
    target: Seq<char>,
    source: Seq<char>,
    seen: ItemSeen,
)
    ensures
        ({
            let next = item_next(platform, root, target, source, seen);
            let resolved = seen.resolved matches Some(Ok(_));
            &&& (next matches MoveAsk::ResolveSource(_)) <==> seen.resolved is None
            &&& next matches MoveAsk::ResolveSource(asked) ==> asked == trimmed(source)
            &&& seen.resolved matches Some(Err(e)) ==> next == MoveAsk::<
                Seq<char>,
                OutcomeView,
            >::Record(OutcomeView::Failed("Invalid source "@ + trimmed(source) + ": "@ + e@))
            &&& resolved && seen.exists is None <==> next == MoveAsk::<
                Seq<char>,
                OutcomeView,
            >::SourceExists
            &&& resolved && seen.exists == Some(false) ==> next == MoveAsk::<
                Seq<char>,
                OutcomeView,
            >::Record(OutcomeView::Failed("Not found: "@ + trimmed(source)))
            &&& !(next matches MoveAsk::CheckRoot(_))
            &&& !(next matches MoveAsk::ResolveTarget(_))
            &&& next != MoveAsk::<Seq<char>, OutcomeView>::TargetIsDir
        }),
{
}

/// A source without a file name cannot be moved and is reported as such, unless it holds the target
/// directory.
pub proof fn law_source_without_name_is_reported(
    platform: Platform,
    root: Seq<char>,
    target: Seq<char>,
    source: Seq<char>,
    seen: ItemSeen,
    at: Seq<char>,
)
    requires
        seen.resolved matches Some(Ok(found)) && found@ == at,
        seen.exists == Some(true),
        file_name_of(platform, at) is None,
    ensures
        item_next(platform, root, target, source, seen) matches MoveAsk::Record(
            OutcomeView::Failed(message),
        ) && {
            ||| message == "Cannot determine filename for "@ + trimmed(source)
            ||| message == "Cannot move folder into itself: "@ + trimmed(source)
        },
        components(platform, at + main_separator(platform)) == components(platform, at)
            && !components(platform, at).is_prefix_of(components(platform, target)) ==> item_next(
            platform,
            root,
            target,
            source,
            seen,
        ) == MoveAsk::<Seq<char>, OutcomeView>::Record(
            OutcomeView::Failed("Cannot determine filename for "@ + trimmed(source)),
        ),
{
    let c = components(platform, at);
    if c == components(platform, target) {
        assert(c.subrange(0, c.len() as int) =~= c);
    }
}

/// The counter of a numbered name stands before what follows the last dot of the name.
pub proof fn law_counter_stands_before_the_extension(
    stem: Seq<char>,
    ext: Seq<char>,
    counter: nat,
)
    requires
        stem.len() > 0,
        !ext.contains('.'),
        counter > 0,
    ensures
        offered(stem + seq!['.'] + ext, counter) == stem + seq![' ', '('] + decimal(counter) + seq![
            ')',
            '.',
        ] + ext,
        offered(stem + seq!['.'] + ext, 0) == stem + seq!['.'] + ext,
{
    reveal_strlit(" (");
    reveal_strlit(")");
    let item = stem + seq!['.'] + ext;
    let i = stem.len() as int;
    assert(item[i] == '.');
    assert forall|j: int| i < j < item.len() implies item[j] != '.' by {
        assert(item[j] == ext[j - i - 1]);
        assert(ext.contains(ext[j - i - 1]));
    }
    assert(is_last_position(item, '.', i));
    lemma_last_at(item, '.', i);
    assert(item.subrange(0, i) =~= stem);
    assert(item.subrange(i, item.len() as int) =~= seq!['.'] + ext);
    assert(offered(item, counter) =~= stem + seq![' ', '('] + decimal(counter) + seq![')', '.']
        + ext);
}

/// The counter of a numbered name stands at its end where no dot follows the first character.
pub proof fn law_counter_stands_at_the_end(item: Seq<char>, counter: nat)
    requires
        forall|j: int| 0 < j < item.len() ==> item[j] != '.',
        counter > 0,
    ensures
        offered(item, counter) == item + seq![' ', '('] + decimal(counter) + seq![')'],
        offered(item, 0) == item,
{
    reveal_strlit(" (");
    reveal_strlit(")");
    lemma_stem_end(item);
    assert(stem_end(item) == item.len());
    assert(item.subrange(0, item.len() as int) =~= item);
    assert(offered(item, counter) =~= item + seq![' ', '('] + decimal(counter) + seq![')']);
}

/// A path outside the workspace is shown as it is, and every other by its form relative to the root.
pub proof fn law_outside_paths_are_shown_whole(platform: Platform, p: Seq<char>, root: Seq<char>)
    ensures
        !components(platform, root).is_prefix_of(components(platform, p)) ==> relative_or_whole(
            platform,
            p,
            root,
        ) == p,
        components(platform, root).is_prefix_of(components(platform, p)) ==> Some(
            relative_or_whole(platform, p, root),
        ) == workspace_relative(platform, p, root),
{
}

/// A moved item is shown where it was and where it is: with the source in some directories below the
/// root of the workspace, and the target directory below it too, the renderer is told the names that
/// led to the source and those that lead to the target directory with the chosen name behind them,
/// with slashes between them.
pub proof fn law_moved_item_is_shown_where_it_is(
    platform: Platform,
    root: Seq<char>,
    target: Seq<char>,
    source: Seq<char>,
    seen: ItemSeen,
    moved: MovedView,
    from_dirs: Seq<Seq<char>>,
    item: Seq<char>,
    to_dirs: Seq<Seq<char>>,
)
    requires
        takes_names(platform, root),
        are_plain_names(platform, from_dirs.push(item)),
        are_plain_names(platform, to_dirs.push(seen.names.chosen(item))),
        target == directory_below(platform, root, to_dirs),
        seen.resolved matches Some(Ok(at)) && at@ == joined_path(
            platform,
            directory_below(platform, root, from_dirs),
            item,
        ),
        item_next(platform, root, target, source, seen) == MoveAsk::<
            Seq<char>,
            OutcomeView,
        >::Record(OutcomeView::Moved(moved)),
    ensures
        moved.old_path == joined(from_dirs.push(item), seq!['/']),
        moved.new_path == joined(to_dirs.push(seen.names.chosen(item)), seq!['/']),
        seen.moved matches Some(Ok(_)),
        seen.exists == Some(true),
{
    law_item_below_root(platform, root, from_dirs, item);
    law_item_below_root(platform, root, to_dirs, seen.names.chosen(item));
}

/// A move checks that there are sources, then the workspace, then the target directory as it was
/// given, without white space at its ends; each refusal is the answer.
pub proof fn law_move_checks_in_order(
    platform: Platform,
    workspace: Seq<char>,
    sources: Seq<String>,
    target_dir: Seq<char>,
    seen: MoveSeen,
)
    ensures
        ({
            let next = move_next(platform, workspace, sources, target_dir, seen);
            let some = sources.len() > 0;
            let rooted = some && (seen.root matches Some(Ok(_)));
            let placed = rooted && (seen.target matches Some(Ok(_)));
            &&& sources.len() == 0 ==> next == StepView::<
                MoveAsk<Seq<char>, OutcomeView>,
                MoveView,
            >::Done(Err("sourcePaths is required"@))
            &&& some && seen.root is None ==> next == StepView::<
                MoveAsk<Seq<char>, OutcomeView>,
                MoveView,
            >::Ask(MoveAsk::CheckRoot(workspace))
            &&& some ==> (seen.root matches Some(Err(e)) ==> next == StepView::<
                MoveAsk<Seq<char>, OutcomeView>,
                MoveView,
            >::Done(Err(e@)))
            &&& rooted && seen.target is None ==> next == StepView::<
                MoveAsk<Seq<char>, OutcomeView>,
                MoveView,
            >::Ask(MoveAsk::ResolveTarget(trimmed(target_dir)))
            &&& rooted ==> (seen.target matches Some(Err(e)) ==> next == StepView::<
                MoveAsk<Seq<char>, OutcomeView>,
                MoveView,
            >::Done(Err(e@)))
            &&& placed && seen.target_is_dir is None ==> next == StepView::<
                MoveAsk<Seq<char>, OutcomeView>,
                MoveView,
            >::Ask(MoveAsk::TargetIsDir)
            &&& placed && seen.target_is_dir == Some(false) ==> next == StepView::<
                MoveAsk<Seq<char>, OutcomeView>,
                MoveView,
            >::Done(Err("Target must be an existing directory"@))
        }),
{
}

/// The sources of a move are handled one after the other, each by what was observed of it alone, and
/// the move is over when, and only when, every source has ended; it then has succeeded.
pub proof fn law_sources_are_handled_in_order(
    platform: Platform,
    workspace: Seq<char>,
    sources: Seq<String>,
    target_dir: Seq<char>,
    seen: MoveSeen,
)
    requires
        sources.len() > 0,
        seen.root matches Some(Ok(_)),
        seen.target matches Some(Ok(_)),
        seen.target_is_dir == Some(true),
    ensures
        ({
            let next = move_next(platform, workspace, sources, target_dir, seen);
            &&& seen.finished@.len() < sources.len() ==> next == StepView::<
                MoveAsk<Seq<char>, OutcomeView>,
                MoveView,
            >::Ask(
                item_next(
                    platform,
                    seen.root->0->Ok_0@,
                    seen.target->0->Ok_0@,
                    sources[seen.finished@.len() as int]@,
                    seen.current,
                ),
            )
            &&& (next matches StepView::Done(_)) <==> seen.finished@.len() >= sources.len()
            &&& next matches StepView::Done(r) ==> r is Ok && r->Ok_0.success
        }),
{
}

/// The report of a move lists the moved items and the messages in the order of the sources, one for
/// each source that ended so: the one of source `i` stands behind those of the sources before it.
pub proof fn law_report_keeps_the_order_of_the_sources(v: Seq<OutcomeView>, i: int)
    requires
        0 <= i < v.len(),
    ensures
        moved_among(v.take(i)).len() <= moved_among(v).len(),
        errors_among(v.take(i)).len() <= errors_among(v).len(),
        v[i] matches OutcomeView::Moved(m) ==> {
            let k = moved_among(v.take(i)).len() as int;
            k < moved_among(v).len() && moved_among(v)[k] == m
        },
        v[i] matches OutcomeView::Failed(e) ==> {
            let k = errors_among(v.take(i)).len() as int;
            k < errors_among(v).len() && errors_among(v)[k] == e
        },
    decreases v.len(),
{
    let front = v.drop_last();
    if i == v.len() - 1 {
        assert(v.take(i) =~= front);
    } else {
        assert(v.take(i) =~= front.take(i));
        law_report_keeps_the_order_of_the_sources(front, i);
    }
}

/// The report of a move is made of how its sources ended, and of nothing else.
pub proof fn law_report_is_made_of_the_outcomes(
    platform: Platform,
    workspace: Seq<char>,
    sources: Seq<String>,
    target_dir: Seq<char>,
    seen: MoveSeen,
    report: MoveView,
)
    requires
        move_next(platform, workspace, sources, target_dir, seen) == StepView::<
            MoveAsk<Seq<char>, OutcomeView>,
            MoveView,
        >::Done(Ok(report)),
    ensures
        report.success,
        report.moved_files == moved_among(outcomes(seen.finished@)),
        report.errors == errors_among(outcomes(seen.finished@)),
        report.moved_files.len() + report.errors.len() + skipped_among(outcomes(seen.finished@))
            == seen.finished@.len(),
{
    law_every_source_is_accounted_for(outcomes(seen.finished@));
}

} // verus!
