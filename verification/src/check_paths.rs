//! Checking in one go which paths of a workspace exist.
//!
//! A path that is blank, that leads out of the workspace or that is not there is reported as missing
//! and does not spoil the answer for the others.

use vstd::prelude::*;

use crate::flow::{unknown, Step, StepView};
use crate::numbers::{decimal, push_decimal};
use crate::text::{is_blank, law_blank_trims_to_nothing, same_text, texts, trim, trimmed};

verus! {

/// The most paths that one request may hold.
pub const MAX_BATCH_SIZE: usize = 200;

/// What is known of one path.
#[derive(Debug)]
pub struct PathInfo {
    pub exists: bool,
    /// `file` or `dir`; `file` where the path is missing.
    pub kind: String,
}

/// A [`PathInfo`] with its text as a character sequence.
#[verifier::ext_equal]
pub struct InfoView {
    pub exists: bool,
    pub kind: Seq<char>,
}

impl View for PathInfo {
    type V = InfoView;

    open spec fn view(&self) -> InfoView {
        InfoView { exists: self.exists, kind: self.kind@ }
    }
}

/// One answer: the path as it was asked for, and what is known of it.
#[derive(Debug)]
pub struct PathEntry {
    pub path: String,
    pub info: PathInfo,
}

impl View for PathEntry {
    type V = (Seq<char>, InfoView);

    open spec fn view(&self) -> (Seq<char>, InfoView) {
        (self.path@, self.info@)
    }
}

/// Answers by path, in the order in which the paths were first asked for. No path occurs twice.
#[derive(Debug)]
pub struct PathInfos {
    pub entries: Vec<PathEntry>,
}

impl View for PathInfos {
    type V = Seq<(Seq<char>, InfoView)>;

    open spec fn view(&self) -> Seq<(Seq<char>, InfoView)> {
        self.entries@.map_values(|e: PathEntry| e@)
    }
}

/// The answer at position `i` is for this path.
pub open spec fn answers_at(list: Seq<(Seq<char>, InfoView)>, i: int, path: Seq<char>) -> bool {
    0 <= i < list.len() && list[i].0 == path
}

/// There is an answer for this path.
pub open spec fn answers(list: Seq<(Seq<char>, InfoView)>, path: Seq<char>) -> bool {
    exists|i: int| answers_at(list, i, path)
}

/// No path has two answers.
pub open spec fn paths_distinct(list: Seq<(Seq<char>, InfoView)>) -> bool {
    forall|i: int, j: int, path: Seq<char>|
        answers_at(list, i, path) && answers_at(list, j, path) ==> i == j
}

/// The answer for a path, if there is one.
pub open spec fn answer_for(list: Seq<(Seq<char>, InfoView)>, path: Seq<char>) -> Option<InfoView> {
    if answers(list, path) {
        Some(list[choose|i: int| answers_at(list, i, path)].1)
    } else {
        None
    }
}

/// The answers with one more: a later answer for the same path takes the place of the earlier one.
pub open spec fn with_answer(
    list: Seq<(Seq<char>, InfoView)>,
    path: Seq<char>,
    info: InfoView,
) -> Seq<(Seq<char>, InfoView)> {
    if answers(list, path) {
        list.update(choose|i: int| answers_at(list, i, path), (path, info))
    } else {
        list.push((path, info))
    }
}

impl PathInfos {
    /// No answers.
    pub fn new() -> (r: PathInfos)
        ensures
            r@ == Seq::<(Seq<char>, InfoView)>::empty(),
    {
        let r = PathInfos { entries: Vec::new() };
        assert(r@ =~= Seq::empty());
        r
    }

    fn position(&self, path: &str) -> (r: Option<usize>)
        ensures
            match r {
                Some(i) => answers_at(self@, i as int, path@),
                None => !answers(self@, path@),
            },
    {
        let mut i: usize = 0;
        while i < self.entries.len()
            invariant
                i <= self.entries@.len(),
                forall|k: int| 0 <= k < i ==> !#[trigger] answers_at(self@, k, path@),
            decreases self.entries@.len() - i,
        {
            if same_text(self.entries[i].path.as_str(), path) {
                return Some(i);
            }
            i = i + 1;
        }
        None
    }

    /// The answer for a path.
    pub fn get(&self, path: &str) -> (r: Option<&PathInfo>)
        requires
            paths_distinct(self@),
        ensures
            match r {
                Some(info) => answer_for(self@, path@) == Some(info@),
                None => answer_for(self@, path@) is None,
            },
    {
        match self.position(path) {
            Some(i) => {
                proof {
                    let k = choose|k: int| answers_at(self@, k, path@);
                    assert(answers_at(self@, i as int, path@) && answers_at(self@, k, path@));
                }
                Some(&self.entries[i].info)
            },
            None => None,
        }
    }

    /// Whether there is an answer for a path.
    pub fn contains_key(&self, path: &str) -> (r: bool)
        ensures
            r == answers(self@, path@),
    {
        self.position(path).is_some()
    }

    /// Whether there are no answers.
    pub fn is_empty(&self) -> (r: bool)
        ensures
            r == (self@.len() == 0),
    {
        self.entries.len() == 0
    }

    /// Adds an answer, in the place of an earlier one for the same path.
    pub fn insert(&mut self, path: String, info: PathInfo)
        requires
            paths_distinct(old(self)@),
        ensures
            final(self)@ == with_answer(old(self)@, path@, info@),
            paths_distinct(final(self)@),
    {
        let ghost before = self@;
        proof {
            law_one_answer_for_each_path(before, path@, info@);
        }
        match self.position(path.as_str()) {
            Some(i) => {
                proof {
                    let k = choose|k: int| answers_at(before, k, path@);
                    assert(answers_at(before, i as int, path@) && answers_at(before, k, path@));
                }
                let entry = PathEntry { path, info };
                self.entries.set(i, entry);
                assert(self@ =~= with_answer(before, path@, info@));
            },
            None => {
                self.entries.push(PathEntry { path, info });
                assert(self@ =~= with_answer(before, path@, info@));
            },
        }
    }
}

/// Adding an answer leaves one answer for each path: the new one for its own path, and the earlier
/// ones for all others.
pub proof fn law_one_answer_for_each_path(
    list: Seq<(Seq<char>, InfoView)>,
    path: Seq<char>,
    info: InfoView,
)
    requires
        paths_distinct(list),
    ensures
        paths_distinct(with_answer(list, path, info)),
        answer_for(with_answer(list, path, info), path) == Some(info),
        forall|other: Seq<char>|
            other != path ==> #[trigger] answer_for(with_answer(list, path, info), other)
                == answer_for(list, other),
{
    let after = with_answer(list, path, info);
    let at = if answers(list, path) {
        choose|i: int| answers_at(list, i, path)
    } else {
        list.len() as int
    };
    assert forall|i: int, p: Seq<char>| #[trigger] answers_at(after, i, p) implies (i == at && p
        == path) || answers_at(list, i, p) by {}
    assert forall|i: int, j: int, p: Seq<char>|
        answers_at(after, i, p) && answers_at(after, j, p) implies i == j by {
        if i != at && j != at {
            assert(answers_at(list, i, p) && answers_at(list, j, p));
        } else if i != at {
            assert(answers_at(list, i, p));
            if answers(list, path) {
                assert(answers_at(list, at, path));
            }
        } else if j != at {
            assert(answers_at(list, j, p));
            if answers(list, path) {
                assert(answers_at(list, at, path));
            }
        }
    }
    assert(answers_at(after, at, path));
    let k = choose|k: int| answers_at(after, k, path);
    assert(k == at);
    assert forall|other: Seq<char>| other != path implies #[trigger] answer_for(after, other)
        == answer_for(list, other) by {
        if answers(list, other) {
            let i = choose|i: int| answers_at(list, i, other);
            assert(answers_at(after, i, other));
            let j = choose|j: int| answers_at(after, j, other);
            assert(i == j);
        }
        if answers(after, other) {
            let j = choose|j: int| answers_at(after, j, other);
            assert(answers_at(list, j, other));
        }
    }
}

/// What the renderer is told about a batch of paths.
#[derive(Debug)]
pub struct CheckPathsResult {
    pub results: PathInfos,
}

impl View for CheckPathsResult {
    type V = Seq<(Seq<char>, InfoView)>;

    open spec fn view(&self) -> Seq<(Seq<char>, InfoView)> {
        self.results@
    }
}

// ---------------------------------------------------------------------------------------------
// One path
// ---------------------------------------------------------------------------------------------
/// What is at a path, with links followed.
#[derive(Clone, Copy, Debug, PartialEq, Eq, Structural)]
pub enum Found {
    Directory,
    SomethingElse,
    Nothing,
}

/// What checking paths needs to have done; `T` is the type of texts, `I` that of answers.
#[verifier::ext_equal]
pub enum CheckAsk<T, I> {
    /// Check that this is a workspace, and report its root path.
    CheckRoot(T),
    /// Resolve this path inside the workspace, and report whether that is possible.
    Resolve(T),
    /// Report what is at the resolved path.
    Look,
    /// Record the answer for the current path, and go on with the next one.
    Record(I),
}

impl View for CheckAsk<String, PathInfo> {
    type V = CheckAsk<Seq<char>, InfoView>;

    open spec fn view(&self) -> CheckAsk<Seq<char>, InfoView> {
        match self {
            CheckAsk::CheckRoot(t) => CheckAsk::CheckRoot(t@),
            CheckAsk::Resolve(t) => CheckAsk::Resolve(t@),
            CheckAsk::Look => CheckAsk::Look,
            CheckAsk::Record(i) => CheckAsk::Record(i@),
        }
    }
}

/// What has been observed of the current path.
#[derive(Clone, Copy, Debug, PartialEq, Eq)]
pub struct LookupSeen {
    pub resolved: Option<bool>,
    pub found: Option<Found>,
}

impl LookupSeen {
    /// Nothing has been observed of the path yet.
    pub fn new() -> (seen: LookupSeen)
        ensures
            seen == (LookupSeen { resolved: None, found: None }),
    {
        LookupSeen { resolved: None, found: None }
    }
}

/// The answer for a path that is not there.
pub open spec fn missing() -> InfoView {
    InfoView { exists: false, kind: "file"@ }
}

/// The answer for what was found at a path.
pub open spec fn info_of(found: Found) -> InfoView {
    match found {
        Found::Directory => InfoView { exists: true, kind: "dir"@ },
        Found::SomethingElse => InfoView { exists: true, kind: "file"@ },
        Found::Nothing => missing(),
    }
}

/// What to do next for one path: a blank path and one that cannot be resolved are missing.
pub open spec fn check_one_next(raw: Seq<char>, seen: LookupSeen) -> CheckAsk<Seq<char>, InfoView> {
    if trimmed(raw).len() == 0 {
        CheckAsk::Record(missing())
    } else {
        match (seen.resolved, seen.found) {
            (None, _) => CheckAsk::Resolve(trimmed(raw)),
            (Some(false), _) => CheckAsk::Record(missing()),
            (_, None) => CheckAsk::Look,
            (_, Some(found)) => CheckAsk::Record(info_of(found)),
        }
    }
}

/// The answer for a path that is not there.
fn missing_info() -> (r: PathInfo)
    ensures
        r@ == missing(),
{
    PathInfo { exists: false, kind: "file".to_owned() }
}

/// Decides what to do next for one path.
pub fn check_one(raw: &str, seen: &LookupSeen) -> (ask: CheckAsk<String, PathInfo>)
    ensures
        ask@ == check_one_next(raw@, *seen),
{
    let path = trim(raw);
    if path.as_str().is_empty() {
        return CheckAsk::Record(missing_info());
    }
    match seen.resolved {
        None => CheckAsk::Resolve(path),
        Some(resolved) => {
            if !resolved {
                return CheckAsk::Record(missing_info());
            }
            match seen.found {
                None => CheckAsk::Look,
                Some(Found::Directory) => CheckAsk::Record(
                    PathInfo { exists: true, kind: "dir".to_owned() },
                ),
                Some(Found::SomethingElse) => CheckAsk::Record(
                    PathInfo { exists: true, kind: "file".to_owned() },
                ),
                Some(Found::Nothing) => CheckAsk::Record(missing_info()),
            }
        },
    }
}

// ---------------------------------------------------------------------------------------------
// The batch
// ---------------------------------------------------------------------------------------------
/// What has been observed of a batch. Errors are messages.
pub struct CheckSeen {
    pub root: Option<Result<String, String>>,
    /// The answers for the first paths, in order.
    pub finished: Vec<PathInfo>,
    /// What is known of the path after those.
    pub current: LookupSeen,
}

impl CheckSeen {
    /// Nothing has been observed yet.
    pub fn new() -> (seen: CheckSeen)
        ensures
            seen.root is None,
            seen.finished@ == Seq::<PathInfo>::empty(),
            seen.current == (LookupSeen { resolved: None, found: None }),
    {
        CheckSeen { root: None, finished: Vec::new(), current: LookupSeen::new() }
    }

    /// Records the answer for the current path; nothing is known of the next one.
    pub fn record(&mut self, info: PathInfo)
        ensures
            final(self).root == old(self).root,
            final(self).finished@ == old(self).finished@.push(info),
            final(self).current == (LookupSeen { resolved: None, found: None }),
    {
        self.finished.push(info);
        self.current = LookupSeen::new();
    }
}

/// The answers for the paths, one after the other.
pub open spec fn collected(paths: Seq<Seq<char>>, infos: Seq<InfoView>) -> Seq<
    (Seq<char>, InfoView),
>
    recommends
        paths.len() == infos.len(),
    decreases paths.len(),
{
    if paths.len() == 0 {
        Seq::empty()
    } else {
        with_answer(
            collected(paths.drop_last(), infos.drop_last()),
            paths.last(),
            infos.last(),
        )
    }
}

/// The answers with their texts as character sequences.
pub open spec fn info_views(v: Seq<PathInfo>) -> Seq<InfoView> {
    v.map_values(|i: PathInfo| i@)
}

/// The step that follows from what has been observed: the size of the batch and the workspace are
/// checked, then the paths one by one; the result holds the answers.
pub open spec fn check_next(workspace: Seq<char>, paths: Seq<String>, seen: CheckSeen) -> StepView<
    CheckAsk<Seq<char>, InfoView>,
    Seq<(Seq<char>, InfoView)>,
> {
    if paths.len() > MAX_BATCH_SIZE {
        StepView::Done(Err("Too many paths (max "@ + decimal(MAX_BATCH_SIZE as nat) + ")."@))
    } else {
        match seen.root {
            None => StepView::Ask(CheckAsk::CheckRoot(workspace)),
            Some(Err(e)) => StepView::Done(Err(e@)),
            Some(Ok(_)) => if seen.finished@.len() < paths.len() {
                StepView::Ask(
                    check_one_next(paths[seen.finished@.len() as int]@, seen.current),
                )
            } else {
                StepView::Done(
                    Ok(
                        collected(
                            texts(paths),
                            info_views(seen.finished@).take(paths.len() as int),
                        ),
                    ),
                )
            },
        }
    }
}

/// Collects the answers for the paths.
fn collect(paths: &Vec<String>, infos: &Vec<PathInfo>) -> (r: PathInfos)
    requires
        paths@.len() <= infos@.len(),
    ensures
        r@ == collected(texts(paths@), info_views(infos@).take(paths@.len() as int)),
        paths_distinct(r@),
{
    let mut r = PathInfos::new();
    let ghost names = texts(paths@);
    let ghost views = info_views(infos@);
    let mut i: usize = 0;
    assert(names.take(0) =~= Seq::empty());
    while i < paths.len()
        invariant
            i <= paths@.len() <= infos@.len(),
            names == texts(paths@),
            views == info_views(infos@),
            r@ == collected(names.take(i as int), views.take(i as int)),
            paths_distinct(r@),
        decreases paths@.len() - i,
    {
        let info = PathInfo { exists: infos[i].exists, kind: infos[i].kind.clone() };
        assert(names.take(i + 1).drop_last() =~= names.take(i as int));
        assert(views.take(i + 1).drop_last() =~= views.take(i as int));
        assert(names.take(i + 1).last() == paths@[i as int]@);
        assert(views.take(i + 1).last() == info@);
        r.insert(paths[i].clone(), info);
        i = i + 1;
    }
    assert(names.take(i as int) =~= names);
    r
}

/// Checks which paths exist: decides the next step from what has been observed.
pub fn cmd_workspace_check_paths(workspace: &str, paths: &Vec<String>, seen: &CheckSeen) -> (step:
    Step<CheckAsk<String, PathInfo>, CheckPathsResult>)
    ensures
        step@ == check_next(workspace@, paths@, *seen),
        step matches Step::Done(Ok(r)) ==> paths_distinct(r@),
{
    if paths.len() > MAX_BATCH_SIZE {
        let mut message = "Too many paths (max ".to_owned();
        push_decimal(&mut message, MAX_BATCH_SIZE as u64);
        message.append(").");
        return Step::Done(Err(message));
    }
    match &seen.root {
        None => Step::Ask(CheckAsk::CheckRoot(workspace.to_owned())),
        Some(Err(e)) => Step::Done(Err(e.clone())),
        Some(Ok(_)) => {
            if seen.finished.len() < paths.len() {
                Step::Ask(check_one(paths[seen.finished.len()].as_str(), &seen.current))
            } else {
                let results = collect(paths, &seen.finished);
                Step::Done(Ok(CheckPathsResult { results }))
            }
        },
    }
}

// ---------------------------------------------------------------------------------------------
// Laws
// ---------------------------------------------------------------------------------------------
/// The paths in the order in which they first occur, each once.
pub open spec fn first_occurrences(paths: Seq<Seq<char>>) -> Seq<Seq<char>>
    decreases paths.len(),
{
    if paths.len() == 0 {
        Seq::empty()
    } else {
        let front = first_occurrences(paths.drop_last());
        if paths.drop_last().contains(paths.last()) {
            front
        } else {
            front.push(paths.last())
        }
    }
}

/// The answers are for the paths exactly as they were given, each once, in the order in which they
/// first occur.
pub proof fn law_answers_echo_the_paths(paths: Seq<Seq<char>>, infos: Seq<InfoView>)
    requires
        paths.len() == infos.len(),
    ensures
        paths_distinct(collected(paths, infos)),
        forall|p: Seq<char>| #[trigger] answers(collected(paths, infos), p) <==> paths.contains(p),
        collected(paths, infos).map_values(|e: (Seq<char>, InfoView)| e.0) == first_occurrences(
            paths,
        ),
    decreases paths.len(),
{
    let list = collected(paths, infos);
    if paths.len() == 0 {
        assert(list.map_values(|e: (Seq<char>, InfoView)| e.0) =~= Seq::empty());
        assert forall|p: Seq<char>| #[trigger] answers(list, p) <==> paths.contains(p) by {
            if answers(list, p) {
                let i = choose|i: int| answers_at(list, i, p);
                assert(answers_at(list, i, p));
            }
        }
    } else {
        let front = paths.drop_last();
        let before = collected(front, infos.drop_last());
        law_answers_echo_the_paths(front, infos.drop_last());
        law_one_answer_for_each_path(before, paths.last(), infos.last());
        assert forall|p: Seq<char>| #[trigger] answers(list, p) <==> paths.contains(p) by {
            if p == paths.last() {
                assert(answer_for(list, p) == Some(infos.last()));
                assert(paths[paths.len() - 1] == p);
            } else {
                assert(answer_for(list, p) == answer_for(before, p));
                assert(answers(before, p) <==> front.contains(p));
                if paths.contains(p) {
                    let i = choose|i: int| 0 <= i < paths.len() && paths[i] == p;
                    assert(front[i] == p);
                }
                if front.contains(p) {
                    let i = choose|i: int| 0 <= i < front.len() && front[i] == p;
                    assert(paths[i] == p);
                }
            }
        }
        assert(answers(before, paths.last()) <==> front.contains(paths.last()));
        if answers(before, paths.last()) {
            let at = choose|i: int| answers_at(before, i, paths.last());
            assert(answers_at(before, at, paths.last()));
            assert(list.map_values(|e: (Seq<char>, InfoView)| e.0) =~= before.map_values(
                |e: (Seq<char>, InfoView)| e.0,
            ));
        } else {
            assert(list.map_values(|e: (Seq<char>, InfoView)| e.0) =~= before.map_values(
                |e: (Seq<char>, InfoView)| e.0,
            ).push(paths.last()));
        }
    }
}

/// The answer for a path is the one that was recorded for it, the latest where it was given more
/// than once.
pub proof fn law_latest_answer_counts(paths: Seq<Seq<char>>, infos: Seq<InfoView>, i: int)
    requires
        paths.len() == infos.len(),
        0 <= i < paths.len(),
        forall|j: int| i < j < paths.len() ==> paths[j] != paths[i],
    ensures
        answer_for(collected(paths, infos), paths[i]) == Some(infos[i]),
    decreases paths.len(),
{
    let front = paths.drop_last();
    let before = collected(front, infos.drop_last());
    law_answers_echo_the_paths(front, infos.drop_last());
    law_one_answer_for_each_path(before, paths.last(), infos.last());
    if i < paths.len() - 1 {
        assert(paths[paths.len() - 1] != paths[i]);
        assert forall|j: int| i < j < front.len() implies front[j] != front[i] by {
            assert(paths[j] != paths[i]);
        }
        law_latest_answer_counts(front, infos.drop_last(), i);
    }
}

/// A blank path is missing, whatever is observed.
pub proof fn law_blank_path_is_missing(raw: Seq<char>, seen: LookupSeen)
    requires
        is_blank(raw),
    ensures
        check_one_next(raw, seen) == CheckAsk::<Seq<char>, InfoView>::Record(missing()),
{
    law_blank_trims_to_nothing(raw);
}

/// A path that does not resolve inside the workspace is missing, and is not looked at.
pub proof fn law_unresolved_path_is_missing(raw: Seq<char>, seen: LookupSeen)
    requires
        seen.resolved == Some(false),
    ensures
        check_one_next(raw, seen) == CheckAsk::<Seq<char>, InfoView>::Record(missing()),
{
}

/// A batch asks only for what has not been observed, and records an answer only while paths are
/// left.
pub proof fn law_check_asks_what_is_unknown(
    workspace: Seq<char>,
    paths: Seq<String>,
    seen: CheckSeen,
)
    ensures
        check_next(workspace, paths, seen) matches StepView::Ask(ask) ==> match ask {
            CheckAsk::CheckRoot(_) => seen.root is None,
            CheckAsk::Resolve(_) => seen.current.resolved is None,
            CheckAsk::Look => seen.current.found is None,
            CheckAsk::Record(_) => seen.finished@.len() < paths.len(),
        },
{
}

/// A batch that is not too large, of a workspace that was accepted, does not fail, whatever its paths
/// are.
pub proof fn law_bad_paths_do_not_fail_the_batch(
    workspace: Seq<char>,
    paths: Seq<String>,
    seen: CheckSeen,
)
    requires
        paths.len() <= MAX_BATCH_SIZE,
        seen.root matches Some(Ok(_)),
    ensures
        check_next(workspace, paths, seen) matches StepView::Done(r) ==> r is Ok,
{
}

/// How many questions of a batch of `n` paths are still open, at most: three for each path that is
/// left.
pub open spec fn check_unknowns(n: nat, seen: CheckSeen) -> int {
    unknown(seen.root) + 3 * (n - seen.finished@.len()) + unknown(seen.current.resolved) + unknown(
        seen.current.found,
    )
}

/// What was observed afterwards is what was observed before and an answer to the question.
pub open spec fn check_answered(
    ask: CheckAsk<Seq<char>, InfoView>,
    before: CheckSeen,
    after: CheckSeen,
) -> bool {
    match ask {
        CheckAsk::CheckRoot(_) => after.root is Some && after == (CheckSeen {
            root: after.root,
            ..before
        }),
        CheckAsk::Resolve(_) => after.current.resolved is Some && after == (CheckSeen {
            current: LookupSeen { resolved: after.current.resolved, ..before.current },
            ..before
        }),
        CheckAsk::Look => after.current.found is Some && after == (CheckSeen {
            current: LookupSeen { found: after.current.found, ..before.current },
            ..before
        }),
        CheckAsk::Record(_) => {
            &&& after.root == before.root
            &&& after.finished@.len() == before.finished@.len() + 1
            &&& after.current == (LookupSeen { resolved: None, found: None })
        },
    }
}

/// A batch ends: every answer leaves fewer questions open, and there are never fewer than none.
pub proof fn law_check_ends(
    workspace: Seq<char>,
    paths: Seq<String>,
    seen: CheckSeen,
    ask: CheckAsk<Seq<char>, InfoView>,
    after: CheckSeen,
)
    requires
        check_next(workspace, paths, seen) == StepView::<
            CheckAsk<Seq<char>, InfoView>,
            Seq<(Seq<char>, InfoView)>,
        >::Ask(ask),
        check_answered(ask, seen, after),
        seen.finished@.len() <= paths.len(),
    ensures
        0 <= check_unknowns(paths.len(), after) < check_unknowns(paths.len(), seen),
        after.finished@.len() <= paths.len(),
{
}

/// A path that is not blank is called missing only where that was observed: it does not resolve inside
/// the workspace, or nothing was found there. Its text alone never decides.
pub proof fn law_missing_only_where_nothing_was_found(
    raw: Seq<char>,
    seen: LookupSeen,
    info: InfoView,
)
    requires
        !is_blank(raw),
        check_one_next(raw, seen) == CheckAsk::<Seq<char>, InfoView>::Record(info),
        !info.exists,
    ensures
        seen.resolved == Some(false) || (seen.resolved == Some(true) && seen.found == Some(
            Found::Nothing,
        )),
        info.kind == "file"@,
{
    law_blank_trims_to_nothing(raw);
}

/// What was found at a path that is not blank is what is reported: a directory as `dir`, anything else
/// as `file`.
pub proof fn law_found_path_is_reported(raw: Seq<char>, seen: LookupSeen)
    requires
        !is_blank(raw),
        seen.resolved == Some(true),
    ensures
        seen.found == Some(Found::Directory) ==> check_one_next(raw, seen) == CheckAsk::<
            Seq<char>,
            InfoView,
        >::Record(InfoView { exists: true, kind: "dir"@ }),
        seen.found == Some(Found::SomethingElse) ==> check_one_next(raw, seen) == CheckAsk::<
            Seq<char>,
            InfoView,
        >::Record(InfoView { exists: true, kind: "file"@ }),
        seen.found == Some(Found::Nothing) ==> check_one_next(raw, seen) == CheckAsk::<
            Seq<char>,
            InfoView,
        >::Record(InfoView { exists: false, kind: "file"@ }),
        seen.found is None ==> check_one_next(raw, seen) == CheckAsk::<Seq<char>, InfoView>::Look,
{
    law_blank_trims_to_nothing(raw);
}

/// Every path that is not blank is resolved as it was given, without white space at its ends, before
/// anything is said of it.
pub proof fn law_path_is_resolved_as_given(raw: Seq<char>, seen: LookupSeen)
    requires
        !is_blank(raw),
    ensures
        seen.resolved is None <==> (check_one_next(raw, seen) matches CheckAsk::Resolve(_)),
        check_one_next(raw, seen) matches CheckAsk::Resolve(asked) ==> asked == trimmed(raw),
        !(check_one_next(raw, seen) matches CheckAsk::CheckRoot(_)),
{
    law_blank_trims_to_nothing(raw);
}

/// Two paths that differ in white space at their ends alone are treated alike.
pub proof fn law_white_space_at_the_ends_makes_no_difference(
    a: Seq<char>,
    b: Seq<char>,
    seen: LookupSeen,
)
    requires
        trimmed(a) == trimmed(b),
    ensures
        check_one_next(a, seen) == check_one_next(b, seen),
{
}

/// A batch is refused for its size exactly when it holds more than 200 paths; else the workspace is
/// checked first, and its refusal is the answer.
pub proof fn law_batch_size_and_workspace(workspace: Seq<char>, paths: Seq<String>, seen: CheckSeen)
    ensures
        paths.len() > 200 ==> check_next(workspace, paths, seen) == StepView::<
            CheckAsk<Seq<char>, InfoView>,
            Seq<(Seq<char>, InfoView)>,
        >::Done(Err("Too many paths (max "@ + decimal(200) + ")."@)),
        paths.len() <= 200 && seen.root is None ==> check_next(workspace, paths, seen)
            == StepView::<
            CheckAsk<Seq<char>, InfoView>,
            Seq<(Seq<char>, InfoView)>,
        >::Ask(CheckAsk::CheckRoot(workspace)),
        paths.len() <= 200 ==> (seen.root matches Some(Err(e)) ==> check_next(
            workspace,
            paths,
            seen,
        ) == StepView::<CheckAsk<Seq<char>, InfoView>, Seq<(Seq<char>, InfoView)>>::Done(Err(e@))),
{
}

/// The paths of a batch are looked up one after the other, each by what was observed of it alone, and
/// the batch is over when, and only when, every path has its answer.
pub proof fn law_paths_are_looked_up_in_order(
    workspace: Seq<char>,
    paths: Seq<String>,
    seen: CheckSeen,
)
    requires
        paths.len() <= 200,
        seen.root matches Some(Ok(_)),
    ensures
        seen.finished@.len() < paths.len() ==> check_next(workspace, paths, seen) == StepView::<
            CheckAsk<Seq<char>, InfoView>,
            Seq<(Seq<char>, InfoView)>,
        >::Ask(check_one_next(paths[seen.finished@.len() as int]@, seen.current)),
        (check_next(workspace, paths, seen) matches StepView::Done(_)) <==> seen.finished@.len()
            >= paths.len(),
{
}

/// The answer of a batch for a path that it holds is the one that was recorded for its last occurrence.
pub proof fn law_batch_answers_what_was_recorded(
    workspace: Seq<char>,
    paths: Seq<String>,
    seen: CheckSeen,
    i: int,
)
    requires
        paths.len() <= 200,
        seen.root matches Some(Ok(_)),
        seen.finished@.len() == paths.len(),
        0 <= i < paths.len(),
        forall|j: int| i < j < paths.len() ==> paths[j]@ != paths[i]@,
    ensures
        check_next(workspace, paths, seen) matches StepView::Done(Ok(list)) && {
            &&& answer_for(list, paths[i]@) == Some(seen.finished@[i]@)
            &&& paths_distinct(list)
            &&& forall|p: Seq<char>| #[trigger] answers(list, p) <==> texts(paths).contains(p)
        },
{
    let names = texts(paths);
    let infos = info_views(seen.finished@).take(paths.len() as int);
    assert forall|j: int| i < j < names.len() implies names[j] != names[i] by {
        assert(paths[j]@ != paths[i]@);
    }
    law_latest_answer_counts(names, infos, i);
    law_answers_echo_the_paths(names, infos);
    assert(infos[i] == seen.finished@[i]@);
}

} // verus!
