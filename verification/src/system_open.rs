//! Showing an item in the file manager, and opening it with its default application.

use vstd::prelude::*;

use crate::flow::{unknown, Step, StepView};
use crate::path_laws::{law_parent_drops_last_component, law_parent_is_a_beginning};
use crate::paths::{components, ends_in_head, parent, parent_of, Platform};
use crate::text::{concat2, concat3, lemma_replaced_concat, replace_char, replaced, texts};
use crate::text::{trim, trimmed};

verus! {

/// What the renderer is told after an item was handed to the system.
#[derive(Debug)]
pub struct SystemOpenResult {
    pub success: bool,
}

impl View for SystemOpenResult {
    type V = bool;

    open spec fn view(&self) -> bool {
        self.success
    }
}

/// A program to start, with its arguments.
#[derive(Debug)]
pub struct CommandLine {
    pub program: String,
    pub args: Vec<String>,
}

/// A [`CommandLine`] with its texts as character sequences.
#[verifier::ext_equal]
pub struct CommandView {
    pub program: Seq<char>,
    pub args: Seq<Seq<char>>,
}

impl View for CommandLine {
    type V = CommandView;

    open spec fn view(&self) -> CommandView {
        CommandView { program: self.program@, args: texts(self.args@) }
    }
}

/// A command line with one argument.
fn command1(program: &str, arg: &str) -> (r: CommandLine)
    ensures
        r@ == (CommandView { program: program@, args: seq![arg@] }),
{
    let mut args: Vec<String> = Vec::new();
    args.push(arg.to_owned());
    assert(texts(args@) =~= seq![arg@]);
    CommandLine { program: program.to_owned(), args }
}

/// A command line with two arguments.
fn command2(program: &str, first: &str, second: &str) -> (r: CommandLine)
    ensures
        r@ == (CommandView { program: program@, args: seq![first@, second@] }),
{
    let mut args: Vec<String> = Vec::new();
    args.push(first.to_owned());
    args.push(second.to_owned());
    assert(texts(args@) =~= seq![first@, second@]);
    CommandLine { program: program.to_owned(), args }
}

// ---------------------------------------------------------------------------------------------
// Showing an item
// ---------------------------------------------------------------------------------------------
/// The command that shows an item in the file manager. Where the file manager cannot select an
/// item, its directory is opened.
pub open spec fn reveal_command(platform: Platform, target: Seq<char>) -> CommandView {
    match platform {
        Platform::MacOs => CommandView { program: "open"@, args: seq!["-R"@, target] },
        Platform::Windows => CommandView { program: "explorer"@, args: seq!["/select,"@, target] },
        Platform::OtherUnix => CommandView {
            program: "xdg-open"@,
            args: seq![
                match parent_of(platform, target) {
                    Some(dir) => dir,
                    None => target,
                },
            ],
        },
    }
}

/// The beginning of the message for an item that could not be shown.
pub open spec fn reveal_failed(platform: Platform) -> Seq<char> {
    match platform {
        Platform::MacOs => "open -R failed: "@,
        Platform::Windows => "explorer /select failed: "@,
        Platform::OtherUnix => "xdg-open failed: "@,
    }
}

/// The command that shows an item in the file manager.
pub fn spawn_reveal(platform: Platform, target: &str) -> (r: CommandLine)
    ensures
        r@ == reveal_command(platform, target@),
{
    match platform {
        Platform::MacOs => command2("open", "-R", target),
        Platform::Windows => command2("explorer", "/select,", target),
        Platform::OtherUnix => match parent(platform, target) {
            Some(dir) => command1("xdg-open", dir.as_str()),
            None => command1("xdg-open", target),
        },
    }
}

// ---------------------------------------------------------------------------------------------
// Opening an item
// ---------------------------------------------------------------------------------------------
/// A text as PowerShell wants it between single quotes: every single quote doubled.
pub open spec fn quote_doubled(t: Seq<char>) -> Seq<char> {
    replaced(t, '\'', seq!['\'', '\''])
}

/// The command that opens an item with its default application.
pub open spec fn default_open_command(platform: Platform, target: Seq<char>) -> CommandView {
    match platform {
        Platform::MacOs => CommandView { program: "open"@, args: seq![target] },
        Platform::Windows => CommandView {
            program: "powershell"@,
            args: seq![
                "-NoProfile"@,
                "-Command"@,
                "Start-Process -FilePath '"@ + quote_doubled(target) + "'"@,
            ],
        },
        Platform::OtherUnix => CommandView { program: "xdg-open"@, args: seq![target] },
    }
}

/// The beginning of the message for an item that could not be opened.
pub open spec fn default_open_failed(platform: Platform) -> Seq<char> {
    match platform {
        Platform::MacOs => "open failed: "@,
        Platform::Windows => "powershell Start-Process failed: "@,
        Platform::OtherUnix => "xdg-open failed: "@,
    }
}

/// The command that opens an item with its default application.
pub fn spawn_default_open(platform: Platform, target: &str) -> (r: CommandLine)
    ensures
        r@ == default_open_command(platform, target@),
{
    match platform {
        Platform::MacOs => command1("open", target),
        Platform::Windows => {
            proof {
                reveal_strlit("''");
                assert("''"@ =~= seq!['\'', '\'']);
            }
            let escaped = replace_char(target, '\'', "''");
            let script = concat3("Start-Process -FilePath '", escaped.as_str(), "'");
            let mut r = command2("powershell", "-NoProfile", "-Command");
            let ghost before = r.args@;
            r.args.push(script);
            assert(texts(r.args@) =~= texts(before).push(script@));
            assert(texts(r.args@) =~= default_open_command(platform, target@).args);
            r
        },
        Platform::OtherUnix => command1("xdg-open", target),
    }
}

/// What a quotation says, read from behind its opening single quote: up to the first single quote
/// that is not doubled, with every doubled one read as one.
pub open spec fn read_quoted(s: Seq<char>) -> Seq<char>
    decreases s.len(),
{
    if s.len() == 0 {
        Seq::empty()
    } else if s[0] != '\'' {
        seq![s[0]] + read_quoted(s.subrange(1, s.len() as int))
    } else if s.len() > 1 && s[1] == '\'' {
        seq!['\''] + read_quoted(s.subrange(2, s.len() as int))
    } else {
        Seq::empty()
    }
}

/// Between single quotes, a text with doubled quotes says the text itself, whole: no single quote in
/// a path is taken for the end of the quotation.
pub proof fn law_doubled_quotes_say_the_text(t: Seq<char>, rest: Seq<char>)
    requires
        rest.len() > 0 ==> rest[0] != '\'',
    ensures
        read_quoted(quote_doubled(t) + seq!['\''] + rest) == t,
    decreases t.len(),
{
    let close = seq!['\''] + rest;
    if t.len() == 0 {
        assert(quote_doubled(t) + seq!['\''] + rest =~= close);
        assert(read_quoted(close) =~= t);
    } else {
        let first = t.subrange(0, 1);
        let others = t.subrange(1, t.len() as int);
        assert(t =~= first + others);
        lemma_replaced_concat(first, others, '\'', seq!['\'', '\'']);
        assert(first.drop_last() =~= Seq::empty());
        reveal_with_fuel(replaced, 2);
        let all = quote_doubled(t) + seq!['\''] + rest;
        let tail = quote_doubled(others) + seq!['\''] + rest;
        law_doubled_quotes_say_the_text(others, rest);
        if t[0] == '\'' {
            assert(quote_doubled(first) =~= seq!['\'', '\'']);
            assert(all.subrange(2, all.len() as int) =~= tail);
        } else {
            assert(quote_doubled(first) =~= first);
            assert(all.subrange(1, all.len() as int) =~= tail);
        }
        assert(read_quoted(all) =~= t);
    }
}

// ---------------------------------------------------------------------------------------------
// The operations
// ---------------------------------------------------------------------------------------------
/// What handing an item to the system needs to have done; `T` is the type of texts, `C` that of
/// command lines.
#[verifier::ext_equal]
pub enum OpenAsk<T, C> {
    /// Check that this is a workspace.
    CheckRoot(T),
    /// Resolve this path inside the workspace, and report where the item is.
    Resolve(T),
    /// Report whether the item exists.
    Exists,
    /// Start this program, without waiting for it.
    Spawn(C),
}

impl View for OpenAsk<String, CommandLine> {
    type V = OpenAsk<Seq<char>, CommandView>;

    open spec fn view(&self) -> OpenAsk<Seq<char>, CommandView> {
        match self {
            OpenAsk::CheckRoot(t) => OpenAsk::CheckRoot(t@),
            OpenAsk::Resolve(t) => OpenAsk::Resolve(t@),
            OpenAsk::Exists => OpenAsk::Exists,
            OpenAsk::Spawn(c) => OpenAsk::Spawn(c@),
        }
    }
}

/// What has been observed while handing an item to the system. Errors are messages.
pub struct OpenSeen {
    pub root: Option<Result<(), String>>,
    pub target: Option<Result<String, String>>,
    pub exists: Option<bool>,
    pub spawned: Option<Result<(), String>>,
}

impl OpenSeen {
    /// Nothing has been observed yet.
    pub fn new() -> (seen: OpenSeen)
        ensures
            seen == (OpenSeen { root: None, target: None, exists: None, spawned: None }),
    {
        OpenSeen { root: None, target: None, exists: None, spawned: None }
    }
}

/// The two ways to hand an item to the system.
#[derive(Clone, Copy, Debug, PartialEq, Eq, Structural)]
pub enum OpenMode {
    Reveal,
    DefaultApp,
}

/// The message for an item that is not there.
pub open spec fn not_found(mode: OpenMode) -> Seq<char> {
    match mode {
        OpenMode::Reveal => "File or folder not found"@,
        OpenMode::DefaultApp => "File not found"@,
    }
}

/// The command that hands the item to the system.
pub open spec fn open_command(
    platform: Platform,
    mode: OpenMode,
    target: Seq<char>,
) -> CommandView {
    match mode {
        OpenMode::Reveal => reveal_command(platform, target),
        OpenMode::DefaultApp => default_open_command(platform, target),
    }
}

/// The beginning of the message for a program that could not be started.
pub open spec fn open_failed(platform: Platform, mode: OpenMode) -> Seq<char> {
    match mode {
        OpenMode::Reveal => reveal_failed(platform),
        OpenMode::DefaultApp => default_open_failed(platform),
    }
}

/// The step that follows from what has been observed: only an item of the workspace that exists is
/// handed to the system.
pub open spec fn open_next(
    platform: Platform,
    mode: OpenMode,
    workspace: Seq<char>,
    path: Seq<char>,
    seen: OpenSeen,
) -> StepView<OpenAsk<Seq<char>, CommandView>, bool> {
    match (seen.root, seen.target, seen.exists, seen.spawned) {
        (None, _, _, _) => StepView::Ask(OpenAsk::CheckRoot(workspace)),
        (Some(Err(e)), _, _, _) => StepView::Done(Err(e@)),
        (_, None, _, _) => StepView::Ask(OpenAsk::Resolve(trimmed(path))),
        (_, Some(Err(e)), _, _) => StepView::Done(Err(e@)),
        (_, _, None, _) => StepView::Ask(OpenAsk::Exists),
        (_, _, Some(false), _) => StepView::Done(Err(not_found(mode))),
        (_, Some(Ok(target)), _, None) => StepView::Ask(
            OpenAsk::Spawn(open_command(platform, mode, target@)),
        ),
        (_, _, _, Some(Err(e))) => StepView::Done(Err(open_failed(platform, mode) + e@)),
        (_, _, _, Some(Ok(_))) => StepView::Done(Ok(true)),
    }
}

/// Decides the next step of handing an item to the system.
fn open_step(
    platform: Platform,
    mode: OpenMode,
    workspace: &str,
    path: &str,
    seen: &OpenSeen,
) -> (step: Step<OpenAsk<String, CommandLine>, SystemOpenResult>)
    ensures
        step@ == open_next(platform, mode, workspace@, path@, *seen),
{
    match &seen.root {
        None => {
            return Step::Ask(OpenAsk::CheckRoot(workspace.to_owned()));
        },
        Some(Err(e)) => {
            return Step::Done(Err(e.clone()));
        },
        Some(Ok(_)) => {},
    }
    let target = match &seen.target {
        None => {
            return Step::Ask(OpenAsk::Resolve(trim(path)));
        },
        Some(Err(e)) => {
            return Step::Done(Err(e.clone()));
        },
        Some(Ok(target)) => target,
    };
    match seen.exists {
        None => {
            return Step::Ask(OpenAsk::Exists);
        },
        Some(exists) => {
            if !exists {
                let message = match mode {
                    OpenMode::Reveal => "File or folder not found",
                    OpenMode::DefaultApp => "File not found",
                };
                return Step::Done(Err(message.to_owned()));
            }
        },
    }
    match &seen.spawned {
        None => {
            let command = match mode {
                OpenMode::Reveal => spawn_reveal(platform, target.as_str()),
                OpenMode::DefaultApp => spawn_default_open(platform, target.as_str()),
            };
            Step::Ask(OpenAsk::Spawn(command))
        },
        Some(Err(e)) => {
            let prefix = match (mode, platform) {
                (OpenMode::Reveal, Platform::MacOs) => "open -R failed: ",
                (OpenMode::Reveal, Platform::Windows) => "explorer /select failed: ",
                (OpenMode::Reveal, Platform::OtherUnix) => "xdg-open failed: ",
                (OpenMode::DefaultApp, Platform::MacOs) => "open failed: ",
                (OpenMode::DefaultApp, Platform::Windows) => "powershell Start-Process failed: ",
                (OpenMode::DefaultApp, Platform::OtherUnix) => "xdg-open failed: ",
            };
            Step::Done(Err(concat2(prefix, e.as_str())))
        },
        Some(Ok(_)) => Step::Done(Ok(SystemOpenResult { success: true })),
    }
}

/// Shows an item in the file manager: decides the next step from what has been observed.
pub fn cmd_workspace_open_in_finder(
    platform: Platform,
    workspace: &str,
    path: &str,
    seen: &OpenSeen,
) -> (step: Step<OpenAsk<String, CommandLine>, SystemOpenResult>)
    ensures
        step@ == open_next(platform, OpenMode::Reveal, workspace@, path@, *seen),
{
    open_step(platform, OpenMode::Reveal, workspace, path, seen)
}

/// Opens an item with its default application: decides the next step from what has been observed.
pub fn cmd_workspace_open_with_default(
    platform: Platform,
    workspace: &str,
    path: &str,
    seen: &OpenSeen,
) -> (step: Step<OpenAsk<String, CommandLine>, SystemOpenResult>)
    ensures
        step@ == open_next(platform, OpenMode::DefaultApp, workspace@, path@, *seen),
{
    open_step(platform, OpenMode::DefaultApp, workspace, path, seen)
}

/// A program is started only for an item of the workspace that exists.
pub proof fn law_only_existing_items_are_opened(
    platform: Platform,
    mode: OpenMode,
    workspace: Seq<char>,
    path: Seq<char>,
    seen: OpenSeen,
    command: CommandView,
)
    requires
        open_next(platform, mode, workspace, path, seen) == StepView::<
            OpenAsk<Seq<char>, CommandView>,
            bool,
        >::Ask(OpenAsk::Spawn(command)),
    ensures
        seen.root matches Some(Ok(_)),
        seen.exists == Some(true),
        seen.target matches Some(Ok(target)) && command == open_command(platform, mode, target@),
{
}

/// Handing an item to the system asks only for what has not been observed.
pub proof fn law_open_asks_what_is_unknown(
    platform: Platform,
    mode: OpenMode,
    workspace: Seq<char>,
    path: Seq<char>,
    seen: OpenSeen,
)
    ensures
        open_next(platform, mode, workspace, path, seen) matches StepView::Ask(ask) ==> match ask {
            OpenAsk::CheckRoot(_) => seen.root is None,
            OpenAsk::Resolve(_) => seen.target is None,
            OpenAsk::Exists => seen.exists is None,
            OpenAsk::Spawn(_) => seen.spawned is None,
        },
{
}

/// How many questions of handing an item to the system are still open.
pub open spec fn open_unknowns(seen: OpenSeen) -> nat {
    unknown(seen.root) + unknown(seen.target) + unknown(seen.exists) + unknown(seen.spawned)
}

/// What was observed afterwards is what was observed before and an answer to the question.
pub open spec fn open_answered(ask: OpenAsk<Seq<char>, CommandView>, before: OpenSeen, after: OpenSeen) -> bool {
    match ask {
        OpenAsk::CheckRoot(_) => after.root is Some && after == (OpenSeen { root: after.root, ..before }),
        OpenAsk::Resolve(_) => after.target is Some && after == (OpenSeen { target: after.target, ..before }),
        OpenAsk::Exists => after.exists is Some && after == (OpenSeen { exists: after.exists, ..before }),
        OpenAsk::Spawn(_) => after.spawned is Some && after == (OpenSeen { spawned: after.spawned, ..before }),
    }
}

/// Handing an item to the system ends: every answer leaves fewer questions open.
pub proof fn law_open_ends(
    platform: Platform,
    mode: OpenMode,
    workspace: Seq<char>,
    path: Seq<char>,
    seen: OpenSeen,
    ask: OpenAsk<Seq<char>, CommandView>,
    after: OpenSeen,
)
    requires
        open_next(platform, mode, workspace, path, seen) == StepView::<
            OpenAsk<Seq<char>, CommandView>,
            bool,
        >::Ask(ask),
        open_answered(ask, seen, after),
    ensures
        open_unknowns(after) < open_unknowns(seen),
{
}

/// Handing an item to the system checks the workspace, resolves the path as it was given, without
/// white space at its ends, and looks for the item, in this order; each refusal is the answer, and an
/// item whose program was started is a success.
pub proof fn law_open_checks_in_order(
    platform: Platform,
    mode: OpenMode,
    workspace: Seq<char>,
    path: Seq<char>,
    seen: OpenSeen,
)
    ensures
        ({
            let next = open_next(platform, mode, workspace, path, seen);
            let rooted = seen.root matches Some(Ok(_));
            let placed = rooted && (seen.target matches Some(Ok(_)));
            let found = placed && seen.exists == Some(true);
            &&& seen.root is None ==> next == StepView::<
                OpenAsk<Seq<char>, CommandView>,
                bool,
            >::Ask(OpenAsk::CheckRoot(workspace))
            &&& seen.root matches Some(Err(e)) ==> next == StepView::<
                OpenAsk<Seq<char>, CommandView>,
                bool,
            >::Done(Err(e@))
            &&& rooted && seen.target is None ==> next == StepView::<
                OpenAsk<Seq<char>, CommandView>,
                bool,
            >::Ask(OpenAsk::Resolve(trimmed(path)))
            &&& rooted ==> (seen.target matches Some(Err(e)) ==> next == StepView::<
                OpenAsk<Seq<char>, CommandView>,
                bool,
            >::Done(Err(e@)))
            &&& placed && seen.exists is None ==> next == StepView::<
                OpenAsk<Seq<char>, CommandView>,
                bool,
            >::Ask(OpenAsk::Exists)
            &&& placed && seen.exists == Some(false) ==> next == StepView::<
                OpenAsk<Seq<char>, CommandView>,
                bool,
            >::Done(
                Err(
                    if mode is Reveal {
                        "File or folder not found"@
                    } else {
                        "File not found"@
                    },
                ),
            )
            &&& found && seen.spawned is None ==> (next matches StepView::Ask(OpenAsk::Spawn(_)))
            &&& found ==> (seen.spawned matches Some(Ok(_)) ==> next == StepView::<
                OpenAsk<Seq<char>, CommandView>,
                bool,
            >::Done(Ok(true)))
            &&& found ==> (seen.spawned matches Some(Err(e)) ==> next == StepView::<
                OpenAsk<Seq<char>, CommandView>,
                bool,
            >::Done(
                Err(
                    (match (mode, platform) {
                        (OpenMode::Reveal, Platform::MacOs) => "open -R failed: "@,
                        (OpenMode::Reveal, Platform::Windows) => "explorer /select failed: "@,
                        (OpenMode::DefaultApp, Platform::MacOs) => "open failed: "@,
                        (OpenMode::DefaultApp, Platform::Windows) =>
                            "powershell Start-Process failed: "@,
                        (_, Platform::OtherUnix) => "xdg-open failed: "@,
                    }) + e@,
                ),
            ))
        }),
{
}

/// Showing an item selects that item where the file manager can; elsewhere the directory that holds
/// it is opened, which has all components of its path but the last, and a root is opened itself.
pub proof fn law_reveal_leads_to_the_item(platform: Platform, target: Seq<char>)
    ensures
        ({
            let command = open_command(platform, OpenMode::Reveal, target);
            &&& platform is MacOs ==> command.program == "open"@ && command.args == seq![
                "-R"@,
                target,
            ]
            &&& platform is Windows ==> command.program == "explorer"@ && command.args == seq![
                "/select,"@,
                target,
            ]
            &&& platform is OtherUnix ==> command.program == "xdg-open"@ && command.args.len() == 1
                && if components(platform, target).len() == 0 || ends_in_head(platform, target) {
                command.args[0] == target
            } else {
                components(platform, command.args[0]) == components(platform, target).drop_last()
                    && command.args[0].is_prefix_of(target)
            }
        }),
{
    law_parent_drops_last_component(platform, target);
    law_parent_is_a_beginning(platform, target);
}

/// Opening an item hands its path to the system as it is: as the one argument of the program or,
/// where a script starts it, as a quotation that says the path and nothing else.
pub proof fn law_default_open_names_the_item(platform: Platform, target: Seq<char>)
    ensures
        ({
            let command = open_command(platform, OpenMode::DefaultApp, target);
            &&& platform is MacOs ==> command.program == "open"@ && command.args == seq![target]
            &&& platform is OtherUnix ==> command.program == "xdg-open"@ && command.args == seq![
                target,
            ]
            &&& platform is Windows ==> {
                let open = "Start-Process -FilePath '"@;
                &&& command.program == "powershell"@
                &&& command.args.len() == 3
                &&& command.args[0] == "-NoProfile"@
                &&& command.args[1] == "-Command"@
                &&& open.is_prefix_of(command.args[2])
                &&& open.last() == '\''
                &&& read_quoted(
                    command.args[2].subrange(open.len() as int, command.args[2].len() as int),
                ) == target
                &&& command.args[2].last() == '\''
                &&& command.args[2].len() == open.len() + quote_doubled(target).len() + 1
            }
        }),
{
    if platform is Windows {
        let command = open_command(platform, OpenMode::DefaultApp, target);
        let open = "Start-Process -FilePath '"@;
        let script = command.args[2];
        reveal_strlit("Start-Process -FilePath '");
        reveal_strlit("'");
        assert("'"@ =~= seq!['\'']);
        assert(script.subrange(0, open.len() as int) =~= open);
        assert(script.subrange(open.len() as int, script.len() as int) =~= quote_doubled(target)
            + seq!['\''] + Seq::empty());
        law_doubled_quotes_say_the_text(target, Seq::empty());
    }
}

} // verus!
