//! Reading a file of a workspace as text, for the preview.

use vstd::prelude::*;

use crate::flow::{unknown, Step, StepView};
use crate::path_laws::{is_single_component, law_join_has_file_name, law_name_is_its_file_name};
use crate::path_laws::law_extension_follows_the_last_dot;
use crate::path_laws::{law_no_dot_no_extension, law_stem_and_extension, takes_names};
use crate::paths::{body_spans, components, extension, extension_of, file_name, file_name_of};
use crate::paths::{has_drive, has_root, joined_path, leads_with_dot, lemma_places, lemma_run_is};
use crate::paths::{Platform, prefix_end, separates, spans};
use crate::text::{ascii_lower, concat3, is_blank, law_blank_trims_to_nothing, spells};
use crate::text::{to_ascii_lower, to_chars, trim, trimmed};

verus! {

/// The size of the largest file that is previewed.
pub const MAX_PREVIEW_BYTES: u64 = 512 * 1024;

/// What the renderer is told about a previewed file.
#[derive(Debug)]
pub struct PreviewResult {
    pub content: String,
    pub name: String,
    pub size: u64,
}

/// A [`PreviewResult`] with its texts as character sequences.
#[verifier::ext_equal]
pub struct PreviewView {
    pub content: Seq<char>,
    pub name: Seq<char>,
    pub size: u64,
}

impl View for PreviewResult {
    type V = PreviewView;

    open spec fn view(&self) -> PreviewView {
        PreviewView { content: self.content@, name: self.name@, size: self.size }
    }
}

// ---------------------------------------------------------------------------------------------
// Which files can be previewed
// ---------------------------------------------------------------------------------------------
/// The extensions, in small letters, of files that can be shown as text.
pub open spec fn is_text_extension(ext: Seq<char>) -> bool {
    // Text and documents
    ||| ext == "md"@
    ||| ext == "mdx"@
    ||| ext == "txt"@
    ||| ext == "log"@
    ||| ext == "rst"@
    ||| ext == "tex"@
    // Code
    ||| ext == "ts"@
    ||| ext == "tsx"@
    ||| ext == "js"@
    ||| ext == "jsx"@
    ||| ext == "mjs"@
    ||| ext == "cjs"@
    ||| ext == "rs"@
    ||| ext == "go"@
    ||| ext == "py"@
    ||| ext == "rb"@
    ||| ext == "java"@
    ||| ext == "kt"@
    ||| ext == "swift"@
    ||| ext == "c"@
    ||| ext == "h"@
    ||| ext == "cpp"@
    ||| ext == "hpp"@
    ||| ext == "cc"@
    ||| ext == "cs"@
    ||| ext == "sh"@
    ||| ext == "zsh"@
    ||| ext == "bash"@
    ||| ext == "fish"@
    ||| ext == "ps1"@
    ||| ext == "bat"@
    ||| ext == "cmd"@
    ||| ext == "lua"@
    ||| ext == "pl"@
    ||| ext == "php"@
    ||| ext == "scala"@
    ||| ext == "groovy"@
    ||| ext == "dart"@
    ||| ext == "vue"@
    ||| ext == "svelte"@
    ||| ext == "astro"@
    // Markup and data
    ||| ext == "json"@
    ||| ext == "json5"@
    ||| ext == "yaml"@
    ||| ext == "yml"@
    ||| ext == "toml"@
    ||| ext == "ini"@
    ||| ext == "env"@
    ||| ext == "html"@
    ||| ext == "htm"@
    ||| ext == "xml"@
    ||| ext == "svg"@
    ||| ext == "css"@
    ||| ext == "scss"@
    ||| ext == "sass"@
    ||| ext == "less"@
    ||| ext == "csv"@
    ||| ext == "tsv"@
    ||| ext == "graphql"@
    ||| ext == "gql"@
    ||| ext == "sql"@
    // Configuration
    ||| ext == "conf"@
    ||| ext == "cfg"@
    ||| ext == "rc"@
    ||| ext == "lock"@
}

/// The names of files without an extension that can be shown as text.
pub open spec fn is_known_text_name(name: Seq<char>) -> bool {
    ||| name == "README"@
    ||| name == "LICENSE"@
    ||| name == "CHANGELOG"@
    ||| name == "Makefile"@
    ||| name == "Dockerfile"@
    ||| name == "Procfile"@
    ||| name == ".gitignore"@
}

/// A file can be previewed by its extension, whatever the case of its letters, or, where it has
/// none, by its name.
pub open spec fn can_preview(platform: Platform, name: Seq<char>) -> bool {
    match extension_of(platform, name) {
        Some(ext) => is_text_extension(ascii_lower(ext)),
        None => is_known_text_name(name),
    }
}

/// Whether this is the extension, in small letters, of a file that can be shown as text.
fn text_extension(ext: &str) -> (r: bool)
    ensures
        r == is_text_extension(ext@),
{
    let chars = to_chars(ext);
    spells(&chars, "md") || spells(&chars, "mdx") || spells(&chars, "txt") || spells(&chars,
        "log") || spells(&chars, "rst") || spells(&chars, "tex") || spells(&chars, "ts") ||
        spells(&chars, "tsx") || spells(&chars, "js") || spells(&chars, "jsx") ||
        spells(&chars, "mjs") || spells(&chars, "cjs") || spells(&chars, "rs") ||
        spells(&chars, "go") || spells(&chars, "py") || spells(&chars, "rb") ||
        spells(&chars, "java") || spells(&chars, "kt") || spells(&chars, "swift") ||
        spells(&chars, "c") || spells(&chars, "h") || spells(&chars, "cpp") ||
        spells(&chars, "hpp") || spells(&chars, "cc") || spells(&chars, "cs") ||
        spells(&chars, "sh") || spells(&chars, "zsh") || spells(&chars, "bash") ||
        spells(&chars, "fish") || spells(&chars, "ps1") || spells(&chars, "bat") ||
        spells(&chars, "cmd") || spells(&chars, "lua") || spells(&chars, "pl") ||
        spells(&chars, "php") || spells(&chars, "scala") || spells(&chars, "groovy") ||
        spells(&chars, "dart") || spells(&chars, "vue") || spells(&chars, "svelte") ||
        spells(&chars, "astro") || spells(&chars, "json") || spells(&chars, "json5") ||
        spells(&chars, "yaml") || spells(&chars, "yml") || spells(&chars, "toml") ||
        spells(&chars, "ini") || spells(&chars, "env") || spells(&chars, "html") ||
        spells(&chars, "htm") || spells(&chars, "xml") || spells(&chars, "svg") ||
        spells(&chars, "css") || spells(&chars, "scss") || spells(&chars, "sass") ||
        spells(&chars, "less") || spells(&chars, "csv") || spells(&chars, "tsv") ||
        spells(&chars, "graphql") || spells(&chars, "gql") || spells(&chars, "sql") ||
        spells(&chars, "conf") || spells(&chars, "cfg") || spells(&chars, "rc") ||
        spells(&chars, "lock")
}

/// Whether this is the name of a file without extension that can be shown as text.
fn known_text_name(name: &str) -> (r: bool)
    ensures
        r == is_known_text_name(name@),
{
    let chars = to_chars(name);
    spells(&chars, "README") || spells(&chars, "LICENSE") || spells(&chars, "CHANGELOG") ||
        spells(&chars, "Makefile") || spells(&chars, "Dockerfile") || spells(&chars,
        "Procfile") || spells(&chars, ".gitignore")
}

/// Whether a file of this name can be previewed.
pub fn is_previewable(platform: Platform, name: &str) -> (r: bool)
    ensures
        r == can_preview(platform, name@),
{
    match extension(platform, name) {
        Some(ext) => text_extension(to_ascii_lower(ext.as_str()).as_str()),
        None => known_text_name(name),
    }
}

/// The name that a file is shown under: the last component of its path, else the whole path.
pub open spec fn shown_name(platform: Platform, path: Seq<char>) -> Seq<char> {
    match file_name_of(platform, path) {
        Some(name) => name,
        None => path,
    }
}

/// The name that a file is shown under.
pub fn display_name(platform: Platform, path: &str) -> (r: String)
    ensures
        r@ == shown_name(platform, path@),
{
    match file_name(platform, path) {
        Some(name) => name,
        None => path.to_owned(),
    }
}

// ---------------------------------------------------------------------------------------------
// Previewing
// ---------------------------------------------------------------------------------------------
/// What is at a path, with a link not followed.
#[derive(Clone, Copy, Debug, PartialEq, Eq, Structural)]
pub enum LinkKind {
    Nothing,
    Link,
    File,
    SomethingElse,
}

/// What a link leads to.
#[derive(Clone, Copy, Debug, PartialEq, Eq, Structural)]
pub enum LinkTarget {
    Nothing,
    File,
    SomethingElse,
}

/// What a preview needs to have done; `T` is the type of texts.
#[verifier::ext_equal]
pub enum PreviewAsk<T> {
    /// Check that this is a workspace.
    CheckRoot(T),
    /// Resolve this path inside the workspace.
    Resolve(T),
    /// Report what is at the path, with a link not followed.
    LinkKind,
    /// Report what the link leads to.
    LinkTarget,
    /// Report the size of the file, with links followed, if it can be had.
    Size,
    /// Read the file as text.
    ReadText,
}

impl View for PreviewAsk<String> {
    type V = PreviewAsk<Seq<char>>;

    open spec fn view(&self) -> PreviewAsk<Seq<char>> {
        match self {
            PreviewAsk::CheckRoot(t) => PreviewAsk::CheckRoot(t@),
            PreviewAsk::Resolve(t) => PreviewAsk::Resolve(t@),
            PreviewAsk::LinkKind => PreviewAsk::LinkKind,
            PreviewAsk::LinkTarget => PreviewAsk::LinkTarget,
            PreviewAsk::Size => PreviewAsk::Size,
            PreviewAsk::ReadText => PreviewAsk::ReadText,
        }
    }
}

/// What has been observed for a preview. Errors are messages.
pub struct PreviewSeen {
    pub root: Option<Result<(), String>>,
    pub resolved: Option<Result<(), String>>,
    pub link_kind: Option<LinkKind>,
    pub link_target: Option<LinkTarget>,
    /// The size, where it could be had.
    pub size: Option<Option<u64>>,
    pub content: Option<Result<String, String>>,
}

impl PreviewSeen {
    /// Nothing has been observed yet.
    pub fn new() -> (seen: PreviewSeen)
        ensures
            seen == (PreviewSeen {
                root: None,
                resolved: None,
                link_kind: None,
                link_target: None,
                size: None,
                content: None,
            }),
    {
        PreviewSeen {
            root: None,
            resolved: None,
            link_kind: None,
            link_target: None,
            size: None,
            content: None,
        }
    }
}

/// The size that counts: one that could not be had counts as zero.
pub open spec fn size_or_zero(size: Option<u64>) -> u64 {
    match size {
        Some(n) => n,
        None => 0,
    }
}

/// The error that follows from what is at the path, if any: only a regular file, or a link to one,
/// is previewed.
pub open spec fn kind_error(kind: LinkKind, target: Option<LinkTarget>) -> Option<Seq<char>> {
    match (kind, target) {
        (LinkKind::Nothing, _) => Some("File not found"@),
        (LinkKind::SomethingElse, _) => Some("Not a regular file"@),
        (LinkKind::Link, Some(LinkTarget::Nothing)) => Some("Symlink target missing"@),
        (LinkKind::Link, Some(LinkTarget::SomethingElse)) => Some("Not a regular file"@),
        _ => None,
    }
}

/// The step that follows from what has been observed: the path is checked, then what is there, then
/// the kind of text and the size; only then is the file read.
pub open spec fn preview_next(
    platform: Platform,
    workspace: Seq<char>,
    path: Seq<char>,
    seen: PreviewSeen,
) -> StepView<PreviewAsk<Seq<char>>, PreviewView> {
    if trimmed(path).len() == 0 {
        StepView::Done(Err("Missing path"@))
    } else {
        match (seen.root, seen.resolved, seen.link_kind) {
            (None, _, _) => StepView::Ask(PreviewAsk::CheckRoot(workspace)),
            (Some(Err(e)), _, _) => StepView::Done(Err(e@)),
            (_, None, _) => StepView::Ask(PreviewAsk::Resolve(path)),
            (_, Some(Err(e)), _) => StepView::Done(Err(e@)),
            (_, _, None) => StepView::Ask(PreviewAsk::LinkKind),
            (_, _, Some(kind)) => if kind_error(kind, seen.link_target) is Some {
                StepView::Done(Err(kind_error(kind, seen.link_target)->0))
            } else if kind is Link && seen.link_target is None {
                StepView::Ask(PreviewAsk::LinkTarget)
            } else if !can_preview(platform, shown_name(platform, path)) {
                StepView::Done(Err("File type not supported"@))
            } else {
                match (seen.size, seen.content) {
                    (None, _) => StepView::Ask(PreviewAsk::Size),
                    (Some(size), content) => if size_or_zero(size) > MAX_PREVIEW_BYTES {
                        StepView::Done(Err("File too large to preview"@))
                    } else {
                        match content {
                            None => StepView::Ask(PreviewAsk::ReadText),
                            Some(Err(e)) => StepView::Done(
                                Err("Failed to read "@ + path + ": "@ + e@),
                            ),
                            Some(Ok(content)) => StepView::Done(
                                Ok(
                                    PreviewView {
                                        content: content@,
                                        name: shown_name(platform, path),
                                        size: size_or_zero(size),
                                    },
                                ),
                            ),
                        }
                    },
                }
            },
        }
    }
}

/// Decides whether what is at the path can be previewed: the error, the need to follow a link, or
/// nothing in the way.
fn kind_step(kind: LinkKind, target: Option<LinkTarget>) -> (r: Result<bool, String>)
    ensures
        match r {
            Err(e) => kind_error(kind, target) == Some(e@),
            Ok(follow) => kind_error(kind, target) is None && follow == (kind is Link
                && target is None),
        },
{
    match kind {
        LinkKind::Nothing => Err("File not found".to_owned()),
        LinkKind::SomethingElse => Err("Not a regular file".to_owned()),
        LinkKind::File => Ok(false),
        LinkKind::Link => match target {
            None => Ok(true),
            Some(LinkTarget::Nothing) => Err("Symlink target missing".to_owned()),
            Some(LinkTarget::SomethingElse) => Err("Not a regular file".to_owned()),
            Some(LinkTarget::File) => Ok(false),
        },
    }
}

/// Reads a file for the preview: decides the next step from what has been observed.
pub fn cmd_workspace_read_preview(
    platform: Platform,
    workspace: &str,
    path: &str,
    seen: &PreviewSeen,
) -> (step: Step<PreviewAsk<String>, PreviewResult>)
    ensures
        step@ == preview_next(platform, workspace@, path@, *seen),
{
    if trim(path).as_str().is_empty() {
        return Step::Done(Err("Missing path".to_owned()));
    }
    match &seen.root {
        None => {
            return Step::Ask(PreviewAsk::CheckRoot(workspace.to_owned()));
        },
        Some(Err(e)) => {
            return Step::Done(Err(e.clone()));
        },
        Some(Ok(_)) => {},
    }
    match &seen.resolved {
        None => {
            return Step::Ask(PreviewAsk::Resolve(path.to_owned()));
        },
        Some(Err(e)) => {
            return Step::Done(Err(e.clone()));
        },
        Some(Ok(_)) => {},
    }
    let kind = match seen.link_kind {
        None => {
            return Step::Ask(PreviewAsk::LinkKind);
        },
        Some(kind) => kind,
    };
    match kind_step(kind, seen.link_target) {
        Err(e) => {
            return Step::Done(Err(e));
        },
        Ok(follow) => {
            if follow {
                return Step::Ask(PreviewAsk::LinkTarget);
            }
        },
    }
    let name = display_name(platform, path);
    if !is_previewable(platform, name.as_str()) {
        return Step::Done(Err("File type not supported".to_owned()));
    }
    let size: u64 = match seen.size {
        None => {
            return Step::Ask(PreviewAsk::Size);
        },
        Some(Some(n)) => n,
        Some(None) => 0,
    };
    if size > MAX_PREVIEW_BYTES {
        return Step::Done(Err("File too large to preview".to_owned()));
    }
    match &seen.content {
        None => Step::Ask(PreviewAsk::ReadText),
        Some(Err(e)) => {
            let mut message = concat3("Failed to read ", path, ": ");
            message.append(e.as_str());
            Step::Done(Err(message))
        },
        Some(Ok(content)) => Step::Done(Ok(PreviewResult { content: content.clone(), name, size })),
    }
}

/// A file is read only when it is a regular file or a link to one, is of a kind that can be shown as
/// text, and was measured and found small enough.
pub proof fn law_only_small_text_is_read(
    platform: Platform,
    workspace: Seq<char>,
    path: Seq<char>,
    seen: PreviewSeen,
)
    requires
        preview_next(platform, workspace, path, seen) == StepView::<
            PreviewAsk<Seq<char>>,
            PreviewView,
        >::Ask(PreviewAsk::ReadText),
    ensures
        seen.resolved matches Some(Ok(_)),
        seen.link_kind == Some(LinkKind::File) || (seen.link_kind == Some(LinkKind::Link)
            && seen.link_target == Some(LinkTarget::File)),
        can_preview(platform, shown_name(platform, path)),
        seen.size matches Some(size) && size_or_zero(size) <= MAX_PREVIEW_BYTES,
{
}

/// What is previewed is the content that was read, under its name, and never more than the limit.
pub proof fn law_preview_shows_what_was_read(
    platform: Platform,
    workspace: Seq<char>,
    path: Seq<char>,
    seen: PreviewSeen,
)
    ensures
        preview_next(platform, workspace, path, seen) matches StepView::Done(Ok(r)) ==> {
            &&& seen.content matches Some(Ok(content)) && r.content == content@
            &&& r.name == shown_name(platform, path)
            &&& r.size <= MAX_PREVIEW_BYTES
        },
{
}

/// A preview asks only for what has not been observed.
pub proof fn law_preview_asks_what_is_unknown(
    platform: Platform,
    workspace: Seq<char>,
    path: Seq<char>,
    seen: PreviewSeen,
)
    ensures
        preview_next(platform, workspace, path, seen) matches StepView::Ask(ask) ==> match ask {
            PreviewAsk::CheckRoot(_) => seen.root is None,
            PreviewAsk::Resolve(_) => seen.resolved is None,
            PreviewAsk::LinkKind => seen.link_kind is None,
            PreviewAsk::LinkTarget => seen.link_target is None,
            PreviewAsk::Size => seen.size is None,
            PreviewAsk::ReadText => seen.content is None,
        },
{
}

/// How many questions of a preview are still open.
pub open spec fn preview_unknowns(seen: PreviewSeen) -> nat {
    unknown(seen.root) + unknown(seen.resolved) + unknown(seen.link_kind) + unknown(seen.link_target) + unknown(seen.size) + unknown(seen.content)
}

/// What was observed afterwards is what was observed before and an answer to the question.
pub open spec fn preview_answered(ask: PreviewAsk<Seq<char>>, before: PreviewSeen, after: PreviewSeen) -> bool {
    match ask {
        PreviewAsk::CheckRoot(_) => after.root is Some && after == (PreviewSeen { root: after.root, ..before }),
        PreviewAsk::Resolve(_) => after.resolved is Some && after == (PreviewSeen { resolved: after.resolved, ..before }),
        PreviewAsk::LinkKind => after.link_kind is Some && after == (PreviewSeen { link_kind: after.link_kind, ..before }),
        PreviewAsk::LinkTarget => after.link_target is Some && after == (PreviewSeen { link_target: after.link_target, ..before }),
        PreviewAsk::Size => after.size is Some && after == (PreviewSeen { size: after.size, ..before }),
        PreviewAsk::ReadText => after.content is Some && after == (PreviewSeen { content: after.content, ..before }),
    }
}

/// A preview ends: every answer leaves fewer questions open.
pub proof fn law_preview_ends(
    platform: Platform,
    workspace: Seq<char>,
    path: Seq<char>,
    seen: PreviewSeen,
    ask: PreviewAsk<Seq<char>>,
    after: PreviewSeen,
)
    requires
        preview_next(platform, workspace, path, seen) == StepView::<
            PreviewAsk<Seq<char>>,
            PreviewView,
        >::Ask(ask),
        preview_answered(ask, seen, after),
    ensures
        preview_unknowns(after) < preview_unknowns(seen),
{
}

// ---------------------------------------------------------------------------------------------
// Laws on what can be previewed
// ---------------------------------------------------------------------------------------------
/// The extensions of the files that can be shown as text are these and no others, all in small
/// letters: documents, program sources, markup and data, configuration.
pub proof fn law_text_extensions(ext: Seq<char>)
    ensures
        is_text_extension(ext) <==> seq![
            "md"@,
            "mdx"@,
            "txt"@,
            "log"@,
            "rst"@,
            "tex"@,
            "ts"@,
            "tsx"@,
            "js"@,
            "jsx"@,
            "mjs"@,
            "cjs"@,
            "rs"@,
            "go"@,
            "py"@,
            "rb"@,
            "java"@,
            "kt"@,
            "swift"@,
            "c"@,
            "h"@,
            "cpp"@,
            "hpp"@,
            "cc"@,
            "cs"@,
            "sh"@,
            "zsh"@,
            "bash"@,
            "fish"@,
            "ps1"@,
            "bat"@,
            "cmd"@,
            "lua"@,
            "pl"@,
            "php"@,
            "scala"@,
            "groovy"@,
            "dart"@,
            "vue"@,
            "svelte"@,
            "astro"@,
            "json"@,
            "json5"@,
            "yaml"@,
            "yml"@,
            "toml"@,
            "ini"@,
            "env"@,
            "html"@,
            "htm"@,
            "xml"@,
            "svg"@,
            "css"@,
            "scss"@,
            "sass"@,
            "less"@,
            "csv"@,
            "tsv"@,
            "graphql"@,
            "gql"@,
            "sql"@,
            "conf"@,
            "cfg"@,
            "rc"@,
            "lock"@,
        ].contains(ext),
{
    let all = seq![
        "md"@,
        "mdx"@,
        "txt"@,
        "log"@,
        "rst"@,
        "tex"@,
        "ts"@,
        "tsx"@,
        "js"@,
        "jsx"@,
        "mjs"@,
        "cjs"@,
        "rs"@,
        "go"@,
        "py"@,
        "rb"@,
        "java"@,
        "kt"@,
        "swift"@,
        "c"@,
        "h"@,
        "cpp"@,
        "hpp"@,
        "cc"@,
        "cs"@,
        "sh"@,
        "zsh"@,
        "bash"@,
        "fish"@,
        "ps1"@,
        "bat"@,
        "cmd"@,
        "lua"@,
        "pl"@,
        "php"@,
        "scala"@,
        "groovy"@,
        "dart"@,
        "vue"@,
        "svelte"@,
        "astro"@,
        "json"@,
        "json5"@,
        "yaml"@,
        "yml"@,
        "toml"@,
        "ini"@,
        "env"@,
        "html"@,
        "htm"@,
        "xml"@,
        "svg"@,
        "css"@,
        "scss"@,
        "sass"@,
        "less"@,
        "csv"@,
        "tsv"@,
        "graphql"@,
        "gql"@,
        "sql"@,
        "conf"@,
        "cfg"@,
        "rc"@,
        "lock"@,
    ];
    if is_text_extension(ext) {
        assert(all[0] == "md"@);
        assert(all[1] == "mdx"@);
        assert(all[2] == "txt"@);
        assert(all[3] == "log"@);
        assert(all[4] == "rst"@);
        assert(all[5] == "tex"@);
        assert(all[6] == "ts"@);
        assert(all[7] == "tsx"@);
        assert(all[8] == "js"@);
        assert(all[9] == "jsx"@);
        assert(all[10] == "mjs"@);
        assert(all[11] == "cjs"@);
        assert(all[12] == "rs"@);
        assert(all[13] == "go"@);
        assert(all[14] == "py"@);
        assert(all[15] == "rb"@);
        assert(all[16] == "java"@);
        assert(all[17] == "kt"@);
        assert(all[18] == "swift"@);
        assert(all[19] == "c"@);
        assert(all[20] == "h"@);
        assert(all[21] == "cpp"@);
        assert(all[22] == "hpp"@);
        assert(all[23] == "cc"@);
        assert(all[24] == "cs"@);
        assert(all[25] == "sh"@);
        assert(all[26] == "zsh"@);
        assert(all[27] == "bash"@);
        assert(all[28] == "fish"@);
        assert(all[29] == "ps1"@);
        assert(all[30] == "bat"@);
        assert(all[31] == "cmd"@);
        assert(all[32] == "lua"@);
        assert(all[33] == "pl"@);
        assert(all[34] == "php"@);
        assert(all[35] == "scala"@);
        assert(all[36] == "groovy"@);
        assert(all[37] == "dart"@);
        assert(all[38] == "vue"@);
        assert(all[39] == "svelte"@);
        assert(all[40] == "astro"@);
        assert(all[41] == "json"@);
        assert(all[42] == "json5"@);
        assert(all[43] == "yaml"@);
        assert(all[44] == "yml"@);
        assert(all[45] == "toml"@);
        assert(all[46] == "ini"@);
        assert(all[47] == "env"@);
        assert(all[48] == "html"@);
        assert(all[49] == "htm"@);
        assert(all[50] == "xml"@);
        assert(all[51] == "svg"@);
        assert(all[52] == "css"@);
        assert(all[53] == "scss"@);
        assert(all[54] == "sass"@);
        assert(all[55] == "less"@);
        assert(all[56] == "csv"@);
        assert(all[57] == "tsv"@);
        assert(all[58] == "graphql"@);
        assert(all[59] == "gql"@);
        assert(all[60] == "sql"@);
        assert(all[61] == "conf"@);
        assert(all[62] == "cfg"@);
        assert(all[63] == "rc"@);
        assert(all[64] == "lock"@);
    }
    if all.contains(ext) {
        let i = choose|i: int| 0 <= i < all.len() && all[i] == ext;
    }
}

/// The names without extension of files that can be shown as text are these and no others.
pub proof fn law_known_text_names(name: Seq<char>)
    ensures
        is_known_text_name(name) <==> seq![
            "README"@,
            "LICENSE"@,
            "CHANGELOG"@,
            "Makefile"@,
            "Dockerfile"@,
            "Procfile"@,
            ".gitignore"@,
        ].contains(name),
{
    let all = seq![
        "README"@,
        "LICENSE"@,
        "CHANGELOG"@,
        "Makefile"@,
        "Dockerfile"@,
        "Procfile"@,
        ".gitignore"@,
    ];
    if is_known_text_name(name) {
        assert(all[0] == "README"@);
        assert(all[1] == "LICENSE"@);
        assert(all[2] == "CHANGELOG"@);
        assert(all[3] == "Makefile"@);
        assert(all[4] == "Dockerfile"@);
        assert(all[5] == "Procfile"@);
        assert(all[6] == ".gitignore"@);
    }
    if all.contains(name) {
        let i = choose|i: int| 0 <= i < all.len() && all[i] == name;
    }
}

/// What follows the last dot decides whether a file can be previewed, whatever stands before it: a
/// name that begins with a dot or holds others is judged by its extension alone.
pub proof fn law_extension_decides_the_preview(platform: Platform, stem: Seq<char>, ext: Seq<char>)
    requires
        stem.len() > 0,
        forall|i: int| 0 <= i < stem.len() ==> !separates(platform, #[trigger] stem[i]),
        forall|i: int| 0 <= i < ext.len() ==> !separates(platform, #[trigger] ext[i]),
        !ext.contains('.'),
        !has_drive(platform, stem + seq!['.'] + ext),
    ensures
        can_preview(platform, stem + seq!['.'] + ext) <==> is_text_extension(ascii_lower(ext)),
{
    let name = stem + seq!['.'] + ext;
    if stem == seq!['.'] && ext.len() == 0 {
        assert(ascii_lower(ext) =~= Seq::empty());
        lemma_listed_is_not_empty(Seq::empty(), name);
        assert(name =~= seq!['.', '.']);
        lemma_dots_have_no_extension(platform);
    } else {
        law_stem_and_extension(platform, stem, ext);
    }
}

/// A listed extension is not empty, and a known name does not consist of dots.
proof fn lemma_listed_is_not_empty(ext: Seq<char>, name: Seq<char>)
    ensures
        is_text_extension(ext) ==> ext.len() > 0,
        is_known_text_name(name) ==> name.len() > 2,
{
    reveal_strlit("md");
    reveal_strlit("mdx");
    reveal_strlit("txt");
    reveal_strlit("log");
    reveal_strlit("rst");
    reveal_strlit("tex");
    reveal_strlit("ts");
    reveal_strlit("tsx");
    reveal_strlit("js");
    reveal_strlit("jsx");
    reveal_strlit("mjs");
    reveal_strlit("cjs");
    reveal_strlit("rs");
    reveal_strlit("go");
    reveal_strlit("py");
    reveal_strlit("rb");
    reveal_strlit("java");
    reveal_strlit("kt");
    reveal_strlit("swift");
    reveal_strlit("c");
    reveal_strlit("h");
    reveal_strlit("cpp");
    reveal_strlit("hpp");
    reveal_strlit("cc");
    reveal_strlit("cs");
    reveal_strlit("sh");
    reveal_strlit("zsh");
    reveal_strlit("bash");
    reveal_strlit("fish");
    reveal_strlit("ps1");
    reveal_strlit("bat");
    reveal_strlit("cmd");
    reveal_strlit("lua");
    reveal_strlit("pl");
    reveal_strlit("php");
    reveal_strlit("scala");
    reveal_strlit("groovy");
    reveal_strlit("dart");
    reveal_strlit("vue");
    reveal_strlit("svelte");
    reveal_strlit("astro");
    reveal_strlit("json");
    reveal_strlit("json5");
    reveal_strlit("yaml");
    reveal_strlit("yml");
    reveal_strlit("toml");
    reveal_strlit("ini");
    reveal_strlit("env");
    reveal_strlit("html");
    reveal_strlit("htm");
    reveal_strlit("xml");
    reveal_strlit("svg");
    reveal_strlit("css");
    reveal_strlit("scss");
    reveal_strlit("sass");
    reveal_strlit("less");
    reveal_strlit("csv");
    reveal_strlit("tsv");
    reveal_strlit("graphql");
    reveal_strlit("gql");
    reveal_strlit("sql");
    reveal_strlit("conf");
    reveal_strlit("cfg");
    reveal_strlit("rc");
    reveal_strlit("lock");
    reveal_strlit("README");
    reveal_strlit("LICENSE");
    reveal_strlit("CHANGELOG");
    reveal_strlit("Makefile");
    reveal_strlit("Dockerfile");
    reveal_strlit("Procfile");
    reveal_strlit(".gitignore");
}

/// The same of every text that has such a file name, also with directories or a drive before it.
pub proof fn law_extension_of_the_file_name_decides(
    platform: Platform,
    t: Seq<char>,
    stem: Seq<char>,
    ext: Seq<char>,
)
    requires
        file_name_of(platform, t) == Some(stem + seq!['.'] + ext),
        stem.len() > 0,
        !ext.contains('.'),
    ensures
        can_preview(platform, t) <==> is_text_extension(ascii_lower(ext)),
{
    law_extension_follows_the_last_dot(platform, t, stem, ext);
}

/// The two dots that lead to the directory above are no file name and have no extension.
proof fn lemma_dots_have_no_extension(platform: Platform)
    ensures
        extension_of(platform, seq!['.', '.']) is None,
{
    let dots = seq!['.', '.'];
    let parts = components(platform, dots);
    lemma_places(platform, dots);
    assert(prefix_end(platform, dots) == 0);
    assert(!has_root(platform, dots));
    assert(!leads_with_dot(platform, dots));
    lemma_run_is(platform, false, dots, 0, 2);
    assert(body_spans(platform, false, dots, 2) =~= Seq::empty());
    assert(body_spans(platform, false, dots, 0) =~= seq![(0int, 2int)]);
    assert(spans(platform, dots) =~= seq![(0int, 2int)]);
    assert(parts.last() =~= dots);
}

/// A name without a dot behind its first character can be previewed exactly when it is one of the
/// known names.
pub proof fn law_name_decides_without_extension(platform: Platform, name: Seq<char>)
    requires
        is_single_component(platform, name),
        forall|j: int| 0 < j < name.len() ==> name[j] != '.',
    ensures
        can_preview(platform, name) <==> is_known_text_name(name),
{
    law_name_is_its_file_name(platform, name);
    law_no_dot_no_extension(platform, name);
}

/// Capital letters in an extension make no difference to whether a file can be previewed.
pub proof fn law_preview_ignores_the_case_of_extensions(
    platform: Platform,
    stem: Seq<char>,
    ext: Seq<char>,
    other: Seq<char>,
)
    requires
        stem.len() > 0,
        forall|i: int| 0 <= i < stem.len() ==> !separates(platform, #[trigger] stem[i]),
        forall|i: int| 0 <= i < ext.len() ==> !separates(platform, #[trigger] ext[i]),
        forall|i: int| 0 <= i < other.len() ==> !separates(platform, #[trigger] other[i]),
        !ext.contains('.'),
        !other.contains('.'),
        !has_drive(platform, stem + seq!['.'] + ext),
        !has_drive(platform, stem + seq!['.'] + other),
        ascii_lower(ext) == ascii_lower(other),
    ensures
        can_preview(platform, stem + seq!['.'] + ext) == can_preview(
            platform,
            stem + seq!['.'] + other,
        ),
{
    law_extension_decides_the_preview(platform, stem, ext);
    law_extension_decides_the_preview(platform, stem, other);
}

/// A file is shown under the last name of its path; a path without a file name is shown whole.
pub proof fn law_file_is_shown_under_its_name(
    platform: Platform,
    dir: Seq<char>,
    name: Seq<char>,
)
    requires
        takes_names(platform, dir),
        is_single_component(platform, name),
    ensures
        shown_name(platform, joined_path(platform, dir, name)) == name,
        shown_name(platform, name) == name,
        file_name_of(platform, dir) is None ==> shown_name(platform, dir) == dir,
{
    law_join_has_file_name(platform, dir, name);
    law_name_is_its_file_name(platform, name);
}

/// Nothing is in the way of previewing the path, as far as was observed: the workspace was accepted,
/// the path resolves, and a regular file is there, or a link to one.
pub open spec fn is_regular_file_seen(seen: PreviewSeen) -> bool {
    &&& seen.root matches Some(Ok(_))
    &&& seen.resolved matches Some(Ok(_))
    &&& seen.link_kind == Some(LinkKind::File) || (seen.link_kind == Some(LinkKind::Link)
        && seen.link_target == Some(LinkTarget::File))
}

/// A regular file whose name can be previewed is measured, then read, then shown: it is refused only
/// where it is larger than 524288 bytes or cannot be read, and a size that cannot be had counts as
/// zero.
pub proof fn law_text_file_is_previewed(
    platform: Platform,
    workspace: Seq<char>,
    path: Seq<char>,
    seen: PreviewSeen,
    name: Seq<char>,
)
    requires
        !is_blank(path),
        is_regular_file_seen(seen),
        name == (match file_name_of(platform, path) {
            Some(last) => last,
            None => path,
        }),
        can_preview(platform, name),
    ensures
        ({
            let next = preview_next(platform, workspace, path, seen);
            let bytes: int = match seen.size {
                Some(Some(n)) => n as int,
                _ => 0,
            };
            &&& seen.size is None ==> next == StepView::<PreviewAsk<Seq<char>>, PreviewView>::Ask(
                PreviewAsk::Size,
            )
            &&& seen.size is Some && bytes > 524288 ==> next == StepView::<
                PreviewAsk<Seq<char>>,
                PreviewView,
            >::Done(Err("File too large to preview"@))
            &&& seen.size is Some && bytes <= 524288 && seen.content is None ==> next
                == StepView::<PreviewAsk<Seq<char>>, PreviewView>::Ask(PreviewAsk::ReadText)
            &&& seen.size is Some && bytes <= 524288 ==> (seen.content matches Some(Err(e)) ==> next
                == StepView::<PreviewAsk<Seq<char>>, PreviewView>::Done(
                Err("Failed to read "@ + path + ": "@ + e@),
            ))
            &&& seen.size is Some && bytes <= 524288 ==> (seen.content matches Some(Ok(content))
                ==> next == StepView::<PreviewAsk<Seq<char>>, PreviewView>::Done(
                Ok(PreviewView { content: content@, name, size: bytes as u64 }),
            ))
        }),
{
    law_blank_trims_to_nothing(path);
}

/// A regular file whose name cannot be previewed is refused as such, and is neither measured nor read.
pub proof fn law_other_file_is_refused(
    platform: Platform,
    workspace: Seq<char>,
    path: Seq<char>,
    seen: PreviewSeen,
    name: Seq<char>,
)
    requires
        !is_blank(path),
        is_regular_file_seen(seen),
        name == (match file_name_of(platform, path) {
            Some(last) => last,
            None => path,
        }),
        !can_preview(platform, name),
    ensures
        preview_next(platform, workspace, path, seen) == StepView::<
            PreviewAsk<Seq<char>>,
            PreviewView,
        >::Done(Err("File type not supported"@)),
{
    law_blank_trims_to_nothing(path);
}

/// Before the name of a file counts, the path, the workspace and what is at the path are checked, in
/// this order; each refusal is the answer. The path is resolved as it was given.
pub proof fn law_preview_checks_in_order(
    platform: Platform,
    workspace: Seq<char>,
    path: Seq<char>,
    seen: PreviewSeen,
)
    ensures
        ({
            let next = preview_next(platform, workspace, path, seen);
            let rooted = !is_blank(path) && (seen.root matches Some(Ok(_)));
            let resolved = rooted && (seen.resolved matches Some(Ok(_)));
            let link = resolved && seen.link_kind == Some(LinkKind::Link);
            &&& is_blank(path) ==> next == StepView::<PreviewAsk<Seq<char>>, PreviewView>::Done(
                Err("Missing path"@),
            )
            &&& !is_blank(path) && seen.root is None ==> next == StepView::<
                PreviewAsk<Seq<char>>,
                PreviewView,
            >::Ask(PreviewAsk::CheckRoot(workspace))
            &&& !is_blank(path) ==> (seen.root matches Some(Err(e)) ==> next == StepView::<
                PreviewAsk<Seq<char>>,
                PreviewView,
            >::Done(Err(e@)))
            &&& rooted && seen.resolved is None ==> next == StepView::<
                PreviewAsk<Seq<char>>,
                PreviewView,
            >::Ask(PreviewAsk::Resolve(path))
            &&& rooted ==> (seen.resolved matches Some(Err(e)) ==> next == StepView::<
                PreviewAsk<Seq<char>>,
                PreviewView,
            >::Done(Err(e@)))
            &&& resolved && seen.link_kind is None ==> next == StepView::<
                PreviewAsk<Seq<char>>,
                PreviewView,
            >::Ask(PreviewAsk::LinkKind)
            &&& resolved && seen.link_kind == Some(LinkKind::Nothing) ==> next == StepView::<
                PreviewAsk<Seq<char>>,
                PreviewView,
            >::Done(Err("File not found"@))
            &&& resolved && seen.link_kind == Some(LinkKind::SomethingElse) ==> next == StepView::<
                PreviewAsk<Seq<char>>,
                PreviewView,
            >::Done(Err("Not a regular file"@))
            &&& link && seen.link_target is None ==> next == StepView::<
                PreviewAsk<Seq<char>>,
                PreviewView,
            >::Ask(PreviewAsk::LinkTarget)
            &&& link && seen.link_target == Some(LinkTarget::Nothing) ==> next == StepView::<
                PreviewAsk<Seq<char>>,
                PreviewView,
            >::Done(Err("Symlink target missing"@))
            &&& link && seen.link_target == Some(LinkTarget::SomethingElse) ==> next == StepView::<
                PreviewAsk<Seq<char>>,
                PreviewView,
            >::Done(Err("Not a regular file"@))
        }),
{
    law_blank_trims_to_nothing(path);
}

} // verus!
