//! Paths as text: components, file names, extensions, parents and relative forms.
//!
//! A path is read the way the standard library reads one: separators come in runs, a leading
//! separator is the root, and `.` counts only as the very first component. On Windows the backslash
//! separates too, and a path can begin with a prefix, which is a component of its own: a drive, a
//! share, a device or a verbatim form of these. Behind a verbatim prefix only the backslash separates
//! and every `.` counts.

use vstd::prelude::*;

use crate::text::{concat2, join_all, joined, replace_char, replaced, same_chars, spells, substring};
use crate::text::{last_at, last_position, slice, texts, to_chars};

verus! {

/// The family of systems that the application runs on.
#[derive(Clone, Copy, Debug, PartialEq, Eq, Structural)]
pub enum Platform {
    MacOs,
    Windows,
    OtherUnix,
}

/// The characters that separate path components.
pub open spec fn separates(platform: Platform, c: char) -> bool {
    c == '/' || (platform is Windows && c == '\\')
}

/// The characters that separate components in a path that is verbatim or not.
pub open spec fn divides(platform: Platform, verbatim: bool, c: char) -> bool {
    if verbatim {
        c == '\\'
    } else {
        separates(platform, c)
    }
}

/// The separator that the system itself writes.
pub open spec fn main_separator(platform: Platform) -> Seq<char> {
    if platform is Windows {
        seq!['\\']
    } else {
        seq!['/']
    }
}

/// Where the run of ordinary characters that begins at `i` ends.
pub open spec fn run_end(platform: Platform, verbatim: bool, t: Seq<char>, i: int) -> int
    decreases t.len() - i,
{
    if 0 <= i < t.len() && !divides(platform, verbatim, t[i]) {
        run_end(platform, verbatim, t, i + 1)
    } else {
        i
    }
}

/// A run holds no separator, and what stops it is one.
pub proof fn lemma_run_end(platform: Platform, verbatim: bool, t: Seq<char>, i: int)
    requires
        0 <= i <= t.len(),
    ensures
        i <= run_end(platform, verbatim, t, i) <= t.len(),
        i < t.len() && !divides(platform, verbatim, t[i]) ==> i < run_end(platform, verbatim, t, i),
        forall|j: int|
            i <= j < run_end(platform, verbatim, t, i) ==> !divides(
                platform,
                verbatim,
                #[trigger] t[j],
            ),
        run_end(platform, verbatim, t, i) < t.len() ==> divides(
            platform,
            verbatim,
            t[run_end(platform, verbatim, t, i)],
        ),
    decreases t.len() - i,
{
    if i < t.len() && !divides(platform, verbatim, t[i]) {
        lemma_run_end(platform, verbatim, t, i + 1);
    }
}

// ---------------------------------------------------------------------------------------------
// Prefixes
// ---------------------------------------------------------------------------------------------
/// The letters that name drives.
pub open spec fn is_letter(c: char) -> bool {
    ('a' <= c <= 'z') || ('A' <= c <= 'Z')
}

/// A letter and a colon stand at position `i`.
pub open spec fn drive_at(t: Seq<char>, i: int) -> bool {
    0 <= i && i + 2 <= t.len() && is_letter(t[i]) && t[i + 1] == ':'
}

/// The path begins with a drive, as in `C:`.
pub open spec fn has_drive(platform: Platform, t: Seq<char>) -> bool {
    platform is Windows && drive_at(t, 0)
}

/// The path begins with two separators, as prefixes other than a drive do.
pub open spec fn is_doubly_rooted(platform: Platform, t: Seq<char>) -> bool {
    platform is Windows && t.len() >= 2 && separates(platform, t[0]) && separates(platform, t[1])
}

/// The path begins with `\\?\`, written with backslashes.
pub open spec fn is_verbatim(platform: Platform, t: Seq<char>) -> bool {
    platform is Windows && t.len() >= 4 && t[0] == '\\' && t[1] == '\\' && t[2] == '?' && t[3] == '\\'
}

/// The path begins with a verbatim drive, as in `\\?\C:`, and nothing else belongs to that name.
pub open spec fn is_verbatim_drive(platform: Platform, t: Seq<char>) -> bool {
    is_verbatim(platform, t) && drive_at(t, 4) && (t.len() == 6 || separates(platform, t[6]))
}

/// The path begins like a verbatim share, with `\\?\UNC\`.
pub open spec fn is_verbatim_share(platform: Platform, t: Seq<char>) -> bool {
    is_verbatim(platform, t) && t.len() >= 8 && t[4] == 'U' && t[5] == 'N' && t[6] == 'C'
        && separates(platform, t[7])
}

/// The path begins like a device, with `\\.\`.
pub open spec fn is_device(platform: Platform, t: Seq<char>) -> bool {
    is_doubly_rooted(platform, t) && t.len() >= 4 && t[2] == '.' && separates(platform, t[3])
}

/// Where a second name ends that follows the one at `i` and one separator; where there is none, the
/// end of the first.
pub open spec fn second_end(platform: Platform, verbatim: bool, t: Seq<char>, i: int) -> int {
    let first = run_end(platform, verbatim, t, i);
    let second = run_end(platform, verbatim, t, first + 1);
    if first < t.len() && second > first + 1 {
        second
    } else {
        first
    }
}

/// Where the prefix of a path ends; zero where there is none.
pub open spec fn prefix_end(platform: Platform, t: Seq<char>) -> int {
    if has_drive(platform, t) {
        2
    } else if is_verbatim_share(platform, t) {
        second_end(platform, true, t, 8)
    } else if is_verbatim_drive(platform, t) {
        6
    } else if is_verbatim(platform, t) {
        run_end(platform, true, t, 4)
    } else if is_device(platform, t) {
        run_end(platform, false, t, 4)
    } else if is_doubly_rooted(platform, t) {
        let server = run_end(platform, false, t, 2);
        let share = second_end(platform, false, t, 2);
        if server > 2 && share > server {
            share
        } else {
            0
        }
    } else {
        0
    }
}

/// A letter as a capital; every other character as it is.
pub open spec fn capital(c: char) -> char {
    if 'a' <= c <= 'z' {
        (c as u32 - 32) as char
    } else {
        c
    }
}

/// A separator as a slash; every other character as it is.
pub open spec fn slashed(platform: Platform, c: char) -> char {
    if separates(platform, c) {
        '/'
    } else {
        c
    }
}

/// The form of a prefix that is compared: drives have capital letters, the separators of a share or
/// device are slashes, and a verbatim prefix is told from others by its backslashes.
pub open spec fn prefix_name(platform: Platform, t: Seq<char>) -> Seq<char> {
    if has_drive(platform, t) {
        seq![capital(t[0]), ':']
    } else if is_verbatim_share(platform, t) {
        t.subrange(0, 7).push('\\') + t.subrange(8, prefix_end(platform, t))
    } else if is_verbatim_drive(platform, t) {
        t.subrange(0, 4).push(capital(t[4])).push(':')
    } else if is_verbatim(platform, t) {
        t.subrange(0, prefix_end(platform, t))
    } else {
        t.subrange(0, prefix_end(platform, t)).map_values(|c: char| slashed(platform, c))
    }
}

// ---------------------------------------------------------------------------------------------
// Components
// ---------------------------------------------------------------------------------------------
/// A separator stands where the root does: at the very beginning, or right behind a prefix.
pub open spec fn has_root(platform: Platform, t: Seq<char>) -> bool {
    prefix_end(platform, t) < t.len() && separates(platform, t[prefix_end(platform, t)])
}

/// A share or a device stands alone; it has a root all the same.
pub open spec fn implies_root(platform: Platform, t: Seq<char>) -> bool {
    prefix_end(platform, t) > 0 && !has_drive(platform, t) && !is_verbatim(platform, t) && !has_root(
        platform,
        t,
    )
}

/// A `.` is the first component.
pub open spec fn leads_with_dot(platform: Platform, t: Seq<char>) -> bool {
    prefix_end(platform, t) == 0 && t.len() > 0 && t[0] == '.' && (t.len() == 1 || separates(
        platform,
        t[1],
    ))
}

/// Where the components behind prefix, root and leading `.` begin to be looked for.
pub open spec fn body_start(platform: Platform, t: Seq<char>) -> int {
    prefix_end(platform, t) + (if has_root(platform, t) || leads_with_dot(platform, t) {
        1int
    } else {
        0int
    })
}

/// The places of prefix, root and leading `.`, as far as they are there. A root that no separator
/// stands for has an empty place.
pub open spec fn head_spans(platform: Platform, t: Seq<char>) -> Seq<(int, int)> {
    let end = prefix_end(platform, t);
    (if end > 0 {
        seq![(0int, end)]
    } else {
        Seq::empty()
    }) + (if has_root(platform, t) || leads_with_dot(platform, t) {
        seq![(end, end + 1)]
    } else if implies_root(platform, t) {
        seq![(end, end)]
    } else {
        Seq::empty()
    })
}

/// The places of the runs of ordinary characters from position `i` on, but for a `.` in a path that
/// is not verbatim.
pub open spec fn body_spans(platform: Platform, verbatim: bool, t: Seq<char>, i: int) -> Seq<
    (int, int),
>
    decreases t.len() - i,
{
    if !(0 <= i < t.len()) {
        Seq::empty()
    } else if divides(platform, verbatim, t[i]) {
        body_spans(platform, verbatim, t, i + 1)
    } else {
        proof {
            lemma_run_end(platform, verbatim, t, i);
        }
        let end = run_end(platform, verbatim, t, i);
        let rest = body_spans(platform, verbatim, t, end);
        if !verbatim && end == i + 1 && t[i] == '.' {
            rest
        } else {
            seq![(i, end)] + rest
        }
    }
}

/// The places of the components behind prefix, root and leading `.`.
pub open spec fn body(platform: Platform, t: Seq<char>) -> Seq<(int, int)> {
    body_spans(platform, is_verbatim(platform, t), t, body_start(platform, t))
}

/// The places of all components of a path.
pub open spec fn spans(platform: Platform, t: Seq<char>) -> Seq<(int, int)> {
    head_spans(platform, t) + body(platform, t)
}

/// The place is that of the prefix.
pub open spec fn is_prefix_place(platform: Platform, t: Seq<char>, span: (int, int)) -> bool {
    prefix_end(platform, t) > 0 && span.0 == 0
}

/// The place is that of the root.
pub open spec fn is_root_place(platform: Platform, t: Seq<char>, span: (int, int)) -> bool {
    span.0 == prefix_end(platform, t) && (has_root(platform, t) || implies_root(platform, t))
}

/// The text of the component at a place; the root is always written `/`.
pub open spec fn piece(platform: Platform, t: Seq<char>, span: (int, int)) -> Seq<char> {
    if is_prefix_place(platform, t, span) {
        prefix_name(platform, t)
    } else if is_root_place(platform, t, span) {
        seq!['/']
    } else {
        t.subrange(span.0, span.1)
    }
}

/// The components of a path.
pub open spec fn components(platform: Platform, t: Seq<char>) -> Seq<Seq<char>> {
    spans(platform, t).map_values(|span: (int, int)| piece(platform, t, span))
}

/// The last component is a prefix or a root.
pub open spec fn ends_in_head(platform: Platform, t: Seq<char>) -> bool {
    is_prefix_place(platform, t, spans(platform, t).last()) || is_root_place(
        platform,
        t,
        spans(platform, t).last(),
    )
}

/// The last component, where it names an item: not a prefix, not the root, not `.` and not `..`.
pub open spec fn file_name_of(platform: Platform, t: Seq<char>) -> Option<Seq<char>> {
    let parts = components(platform, t);
    if parts.len() == 0 || ends_in_head(platform, t) || parts.last() == seq!['.'] || parts.last()
        == seq!['.', '.'] {
        None
    } else {
        Some(parts.last())
    }
}

/// What follows the last dot of a file name, where something stands before that dot.
pub open spec fn extension_of(platform: Platform, t: Seq<char>) -> Option<Seq<char>> {
    match file_name_of(platform, t) {
        Some(name) => match last_at(name, '.') {
            Some(i) => if i > 0 {
                Some(name.subrange(i + 1, name.len() as int))
            } else {
                None
            },
            None => None,
        },
        None => None,
    }
}

/// The end of a `.` right behind a drive, which is no component but stays in the text; zero where
/// there is none.
pub open spec fn drive_dot_end(platform: Platform, t: Seq<char>) -> int {
    if has_drive(platform, t) && t.len() >= 3 && t[2] == '.' && (t.len() == 3 || separates(
        platform,
        t[3],
    )) {
        3
    } else {
        0
    }
}

/// The larger of two positions.
pub open spec fn later(a: int, b: int) -> int {
    if a < b {
        b
    } else {
        a
    }
}

/// The path without its last component; a prefix, a root and an empty path have no parent.
pub open spec fn parent_of(platform: Platform, t: Seq<char>) -> Option<Seq<char>> {
    let places = spans(platform, t);
    if places.len() == 0 || ends_in_head(platform, t) {
        None
    } else if places.len() == 1 {
        Some(Seq::empty())
    } else {
        Some(t.subrange(0, later(places[places.len() - 2].1, drive_dot_end(platform, t))))
    }
}

/// `base` is the path `t` or one of its ancestors.
pub open spec fn is_within(platform: Platform, t: Seq<char>, base: Seq<char>) -> bool {
    components(platform, base).is_prefix_of(components(platform, t))
}

/// What is left of `t` below `base`, as it is written in `t`.
pub open spec fn below(platform: Platform, t: Seq<char>, base: Seq<char>) -> Option<Seq<char>> {
    let places = spans(platform, t);
    let depth = spans(platform, base).len() as int;
    let prefix = prefix_end(platform, t);
    if !is_within(platform, t, base) {
        None
    } else if depth == 1 && prefix > 0 {
        Some(
            t.subrange(prefix, later(places.last().1, drive_dot_end(platform, t))),
        )
    } else if depth == places.len() {
        Some(Seq::empty())
    } else {
        Some(
            t.subrange(places[depth].0, later(places.last().1, drive_dot_end(platform, t))),
        )
    }
}

/// The texts at some places.
pub open spec fn texts_at(t: Seq<char>, places: Seq<(int, int)>) -> Seq<Seq<char>> {
    places.map_values(|p: (int, int)| t.subrange(p.0, p.1))
}

/// Where some steps lead from a directory: `.` stays, `..` takes a name back where there is one, and
/// a name goes down.
pub open spec fn walked(names: Seq<Seq<char>>, steps: Seq<Seq<char>>) -> Seq<Seq<char>>
    decreases steps.len(),
{
    if steps.len() == 0 {
        names
    } else {
        let here = walked(names, steps.drop_last());
        let step = steps.last();
        if step == seq!['.'] {
            here
        } else if step == seq!['.', '.'] {
            if here.len() > 0 && here.last() != seq!['.'] && here.last() != seq!['.', '.'] {
                here.drop_last()
            } else {
                here
            }
        } else {
            here.push(step)
        }
    }
}

/// A path without prefix put behind a verbatim base. The steps are walked, since nothing would read
/// them later, and the path is written anew with backslashes.
pub open spec fn verbatim_join(platform: Platform, base: Seq<char>, name: Seq<char>) -> Seq<char> {
    let rooted = has_root(platform, name);
    let names = walked(
        if rooted {
            Seq::empty()
        } else {
            texts_at(base, body(platform, base))
        },
        texts_at(
            name,
            spans(platform, name).skip(
                if rooted {
                    1
                } else {
                    0
                },
            ),
        ),
    );
    base.subrange(0, prefix_end(platform, base)) + (if names.len() > 0 {
        seq!['\\'] + joined(names, seq!['\\'])
    } else if rooted || has_root(platform, base) {
        seq!['\\']
    } else {
        Seq::empty()
    })
}

/// The base that a name can be put behind: with a separator at its end, unless it is empty or a
/// drive.
pub open spec fn join_base(platform: Platform, base: Seq<char>) -> Seq<char> {
    if base.len() == 0 || separates(platform, base.last()) || (has_drive(platform, base) && base.len()
        == 2) {
        base
    } else {
        base + main_separator(platform)
    }
}

/// A path put behind a base: one with a prefix replaces the base, and a rooted one replaces all of it
/// but the prefix.
pub open spec fn joined_path(platform: Platform, base: Seq<char>, name: Seq<char>) -> Seq<char> {
    if prefix_end(platform, name) > 0 {
        name
    } else if is_verbatim(platform, base) && name.len() > 0 {
        verbatim_join(platform, base, name)
    } else if has_root(platform, name) {
        base.subrange(0, prefix_end(platform, base)) + name
    } else {
        join_base(platform, base) + name
    }
}

/// The form that the renderer sees: relative to the workspace, with forward slashes.
pub open spec fn workspace_relative(platform: Platform, t: Seq<char>, root: Seq<char>) -> Option<
    Seq<char>,
> {
    match below(platform, t, root) {
        Some(rest) => Some(replaced(rest, '\\', seq!['/'])),
        None => None,
    }
}

// ---------------------------------------------------------------------------------------------
// Facts about prefixes and places
// ---------------------------------------------------------------------------------------------
/// A run is known by having no separator inside and one behind.
pub proof fn lemma_run_is(platform: Platform, verbatim: bool, t: Seq<char>, i: int, end: int)
    requires
        0 <= i <= end <= t.len(),
        forall|j: int| i <= j < end ==> !divides(platform, verbatim, #[trigger] t[j]),
        end == t.len() || divides(platform, verbatim, t[end]),
    ensures
        run_end(platform, verbatim, t, i) == end,
    decreases end - i,
{
    if i < end {
        assert(!divides(platform, verbatim, t[i]));
        lemma_run_is(platform, verbatim, t, i + 1, end);
    }
}

/// A second name ends inside the text, at its end or at a separator.
pub proof fn lemma_second_end(platform: Platform, verbatim: bool, t: Seq<char>, i: int)
    requires
        0 <= i <= t.len(),
    ensures
        i <= run_end(platform, verbatim, t, i) <= second_end(platform, verbatim, t, i) <= t.len(),
        second_end(platform, verbatim, t, i) < t.len() ==> divides(
            platform,
            verbatim,
            t[second_end(platform, verbatim, t, i)],
        ),
{
    lemma_run_end(platform, verbatim, t, i);
    let first = run_end(platform, verbatim, t, i);
    if first < t.len() {
        lemma_run_end(platform, verbatim, t, first + 1);
    }
}

/// A prefix lies inside the text; one that is no drive ends at the end of the text or at a root.
pub proof fn lemma_prefix_end(platform: Platform, t: Seq<char>)
    ensures
        0 <= prefix_end(platform, t) <= t.len(),
        prefix_end(platform, t) > 0 ==> platform is Windows && prefix_end(platform, t) >= 2,
        prefix_end(platform, t) > 0 && !has_drive(platform, t) ==> prefix_end(platform, t) >= 4 && (
        prefix_end(platform, t) == t.len() || has_root(platform, t)),
        is_verbatim(platform, t) ==> prefix_end(platform, t) >= 4 && !has_drive(platform, t),
        is_verbatim(platform, t) && !is_verbatim_drive(platform, t) && prefix_end(platform, t)
            < t.len() ==> t[prefix_end(platform, t)] == '\\',
        is_verbatim_drive(platform, t) ==> !is_verbatim_share(platform, t),
{
    if is_verbatim_share(platform, t) {
        lemma_second_end(platform, true, t, 8);
    } else if is_verbatim(platform, t) {
        lemma_run_end(platform, true, t, 4);
    } else if is_device(platform, t) {
        lemma_run_end(platform, false, t, 4);
    } else if is_doubly_rooted(platform, t) {
        lemma_second_end(platform, false, t, 2);
        lemma_run_end(platform, false, t, 2);
    }
}

/// A verbatim share whose second name is missing.
pub open spec fn is_open_share(platform: Platform, t: Seq<char>) -> bool {
    is_verbatim_share(platform, t) && second_end(platform, true, t, 8) == run_end(
        platform,
        true,
        t,
        8,
    )
}

/// A prefix is still the prefix in another text that begins with it and has a root behind it.
pub proof fn lemma_prefix_kept(platform: Platform, t: Seq<char>, u: Seq<char>)
    requires
        prefix_end(platform, t) > 0,
        u.len() >= prefix_end(platform, t),
        forall|j: int| 0 <= j < prefix_end(platform, t) ==> #[trigger] u[j] == t[j],
        !has_drive(platform, t) ==> u.len() > prefix_end(platform, t) && separates(
            platform,
            u[prefix_end(platform, t)],
        ),
        is_verbatim(platform, t) ==> t.len() > prefix_end(platform, t),
        is_verbatim(platform, t) && !is_verbatim_drive(platform, t) ==> u[prefix_end(platform, t)]
            == '\\',
        is_open_share(platform, t) ==> u.len() == prefix_end(platform, t) + 1 || u[prefix_end(
            platform,
            t,
        ) + 1] == '\\',
    ensures
        prefix_end(platform, u) == prefix_end(platform, t),
        has_drive(platform, u) == has_drive(platform, t),
        is_verbatim(platform, u) == is_verbatim(platform, t),
        is_open_share(platform, u) == is_open_share(platform, t),
        prefix_name(platform, u) == prefix_name(platform, t),
{
    let end = prefix_end(platform, t);
    lemma_prefix_end(platform, t);
    assert(u[0] == t[0] && u[1] == t[1]);
    if !has_drive(platform, t) {
        assert(u[2] == t[2] && u[3] == t[3]);
        if is_verbatim_share(platform, t) {
            lemma_second_end(platform, true, t, 8);
            lemma_run_end(platform, true, t, 8);
            assert(u[4] == t[4] && u[5] == t[5] && u[6] == t[6] && u[7] == t[7]);
            let first = run_end(platform, true, t, 8);
            lemma_run_is(platform, true, u, 8, first);
            if is_open_share(platform, t) {
                if u.len() > end + 1 {
                    lemma_run_is(platform, true, u, end + 1, end + 1);
                } else {
                    assert(run_end(platform, true, u, end + 1) == end + 1);
                }
            } else {
                lemma_run_end(platform, true, t, first + 1);
                lemma_run_is(platform, true, u, first + 1, end);
            }
        } else if is_verbatim_drive(platform, t) {
            assert(u[4] == t[4] && u[5] == t[5]);
            assert(u[4] != 'U' || u[5] != 'N');
        } else if is_verbatim(platform, t) {
            lemma_run_end(platform, true, t, 4);
            lemma_run_is(platform, true, u, 4, end);
            assert(forall|j: int| 4 <= j < end ==> #[trigger] t[j] != '\\');
            if end >= 8 {
                assert(u[4] == t[4] && u[5] == t[5] && u[6] == t[6] && u[7] == t[7]);
            } else if end == 7 {
                assert(t[7] == '\\');
                assert(u[4] == t[4] && u[5] == t[5] && u[6] == t[6]);
            } else {
                assert(u[end] == '\\');
                if end == 6 {
                    assert(u[4] == t[4] && u[5] == t[5]);
                    assert(t[6] == '\\');
                } else if end == 5 {
                    assert(u[5] == '\\');
                } else {
                    assert(u[4] == '\\');
                }
            }
        } else if is_device(platform, t) {
            lemma_run_end(platform, false, t, 4);
            lemma_run_is(platform, false, u, 4, end);
        } else {
            lemma_second_end(platform, false, t, 2);
            lemma_run_end(platform, false, t, 2);
            let first = run_end(platform, false, t, 2);
            lemma_run_end(platform, false, t, first + 1);
            lemma_run_is(platform, false, u, 2, first);
            lemma_run_is(platform, false, u, first + 1, end);
        }
    }
    assert(u.subrange(0, end) =~= t.subrange(0, end));
    if is_verbatim_share(platform, t) {
        assert(u.subrange(0, 7) =~= t.subrange(0, 7));
        assert(u.subrange(8, end) =~= t.subrange(8, end));
    }
    if is_verbatim_drive(platform, t) {
        assert(u.subrange(0, 4) =~= t.subrange(0, 4));
    }
}

/// The beginning of a path without prefix has none either.
pub proof fn lemma_no_prefix_in_beginning(platform: Platform, t: Seq<char>, end: int)
    requires
        prefix_end(platform, t) == 0,
        0 <= end <= t.len(),
    ensures
        prefix_end(platform, t.take(end)) == 0,
{
    let front = t.take(end);
    lemma_prefix_end(platform, t);
    lemma_prefix_end(platform, front);
    if prefix_end(platform, front) > 0 {
        assert(front[0] == t[0] && front[1] == t[1]);
        if !has_drive(platform, front) {
            assert(front[2] == t[2] && front[3] == t[3]);
            if is_device(platform, t) {
                lemma_run_end(platform, false, t, 4);
            }
            let first = run_end(platform, false, front, 2);
            lemma_run_end(platform, false, front, 2);
            lemma_run_end(platform, false, front, first + 1);
            assert(forall|j: int| 2 <= j < first ==> !divides(platform, false, #[trigger] front[j]));
            assert forall|j: int| 2 <= j < first implies !divides(platform, false, #[trigger] t[j]) by {
                assert(front[j] == t[j]);
            }
            assert(front[first] == t[first]);
            lemma_run_is(platform, false, t, 2, first);
            assert(front[first + 1] == t[first + 1]);
            lemma_run_end(platform, false, t, first + 1);
        }
    }
}

/// Places of the body lie inside the text, in order, are not empty and hold no separator.
pub proof fn lemma_body_places(platform: Platform, verbatim: bool, t: Seq<char>, i: int)
    requires
        0 <= i <= t.len(),
    ensures
        forall|k: int|
            #![trigger body_spans(platform, verbatim, t, i)[k]]
            0 <= k < body_spans(platform, verbatim, t, i).len() ==> {
                let span = body_spans(platform, verbatim, t, i)[k];
                &&& i <= span.0 < span.1 <= t.len()
                &&& span.1 == t.len() || divides(platform, verbatim, t[span.1])
                &&& forall|j: int|
                    span.0 <= j < span.1 ==> !divides(platform, verbatim, #[trigger] t[j])
            },
        forall|k: int, m: int|
            #![trigger body_spans(platform, verbatim, t, i)[k], body_spans(platform, verbatim, t, i)[m]]
            0 <= k < m < body_spans(platform, verbatim, t, i).len() ==> body_spans(
                platform,
                verbatim,
                t,
                i,
            )[k].1 <= body_spans(platform, verbatim, t, i)[m].0,
    decreases t.len() - i,
{
    if i < t.len() {
        let next = if divides(platform, verbatim, t[i]) {
            i + 1
        } else {
            run_end(platform, verbatim, t, i)
        };
        lemma_run_end(platform, verbatim, t, i);
        lemma_body_places(platform, verbatim, t, next);
        let all = body_spans(platform, verbatim, t, i);
        let rest = body_spans(platform, verbatim, t, next);
        let shift = all.len() - rest.len();
        assert forall|k: int| 0 <= k < all.len() implies {
            let span = #[trigger] all[k];
            &&& i <= span.0 < span.1 <= t.len()
            &&& span.1 == t.len() || divides(platform, verbatim, t[span.1])
            &&& forall|j: int| span.0 <= j < span.1 ==> !divides(platform, verbatim, #[trigger] t[j])
        } by {
            if k >= shift {
                assert(all[k] == rest[k - shift]);
            }
        }
        assert forall|k: int, m: int| 0 <= k < m < all.len() implies (#[trigger] all[k]).1 <= (
        #[trigger] all[m]).0 by {
            assert(all[m] == rest[m - shift]);
            if k >= shift {
                assert(all[k] == rest[k - shift]);
            }
        }
    }
}

/// Places lie inside the text, in order; those of the head come first.
pub proof fn lemma_places(platform: Platform, t: Seq<char>)
    ensures
        0 <= prefix_end(platform, t) <= body_start(platform, t) <= t.len(),
        head_spans(platform, t).len() <= 2,
        forall|k: int|
            #![trigger spans(platform, t)[k]]
            0 <= k < spans(platform, t).len() ==> 0 <= spans(platform, t)[k].0 <= spans(
                platform,
                t,
            )[k].1 <= t.len(),
        forall|k: int|
            #![trigger spans(platform, t)[k]]
            0 <= k < head_spans(platform, t).len() ==> spans(platform, t)[k] == head_spans(
                platform,
                t,
            )[k] && spans(platform, t)[k].1 <= body_start(platform, t),
        forall|k: int|
            #![trigger spans(platform, t)[k]]
            head_spans(platform, t).len() <= k < spans(platform, t).len() ==> {
                let span = spans(platform, t)[k];
                &&& span == body(platform, t)[k - head_spans(platform, t).len()]
                &&& body_start(platform, t) <= span.0 < span.1
                &&& !is_prefix_place(platform, t, span)
                &&& !is_root_place(platform, t, span)
                &&& span.1 == t.len() || divides(platform, is_verbatim(platform, t), t[span.1])
                &&& forall|j: int|
                    span.0 <= j < span.1 ==> !divides(
                        platform,
                        is_verbatim(platform, t),
                        #[trigger] t[j],
                    )
            },
        forall|k: int, m: int|
            #![trigger spans(platform, t)[k], spans(platform, t)[m]]
            0 <= k < m < spans(platform, t).len() ==> spans(platform, t)[k].1 <= spans(
                platform,
                t,
            )[m].0,
{
    lemma_prefix_end(platform, t);
    lemma_body_places(platform, is_verbatim(platform, t), t, body_start(platform, t));
    let head = head_spans(platform, t);
    let rest = body(platform, t);
    let all = spans(platform, t);
    assert forall|k: int| head.len() <= k < all.len() implies (#[trigger] all[k]) == rest[k
        - head.len()] && !is_prefix_place(platform, t, all[k]) && !is_root_place(
        platform,
        t,
        all[k],
    ) by {
        assert(all[k] == rest[k - head.len()]);
        assert(rest[k - head.len()].0 >= body_start(platform, t));
        if implies_root(platform, t) {
            assert(prefix_end(platform, t) == t.len());
            assert(rest[k - head.len()].1 <= t.len());
        }
    }
    assert forall|k: int, m: int| 0 <= k < m < all.len() implies (#[trigger] all[k]).1 <= (
    #[trigger] all[m]).0 by {
        if m >= head.len() {
            assert(all[m] == rest[m - head.len()]);
            if k >= head.len() {
                assert(all[k] == rest[k - head.len()]);
            }
        }
    }
}

// ---------------------------------------------------------------------------------------------
// Reading
// ---------------------------------------------------------------------------------------------
/// Places held in machine integers, as places.
pub open spec fn as_places(v: Seq<(usize, usize)>) -> Seq<(int, int)> {
    v.map_values(|p: (usize, usize)| (p.0 as int, p.1 as int))
}

/// Whether a character separates path components.
fn is_separator(platform: Platform, c: char) -> (r: bool)
    ensures
        r == separates(platform, c),
{
    c == '/' || (platform == Platform::Windows && c == '\\')
}

/// Whether a character separates components in a path that is verbatim or not.
fn is_divider(platform: Platform, verbatim: bool, c: char) -> (r: bool)
    ensures
        r == divides(platform, verbatim, c),
{
    if verbatim {
        c == '\\'
    } else {
        is_separator(platform, c)
    }
}

/// Finds where a run of ordinary characters ends.
fn find_run_end(platform: Platform, verbatim: bool, t: &Vec<char>, start: usize) -> (end: usize)
    requires
        start <= t@.len(),
    ensures
        end == run_end(platform, verbatim, t@, start as int),
        start <= end <= t@.len(),
{
    let mut i: usize = start;
    while i < t.len() && !is_divider(platform, verbatim, t[i])
        invariant
            start <= i <= t@.len(),
            run_end(platform, verbatim, t@, start as int) == run_end(
                platform,
                verbatim,
                t@,
                i as int,
            ),
        decreases t@.len() - i,
    {
        i = i + 1;
    }
    i
}

/// Finds where a second name ends.
fn find_second_end(platform: Platform, verbatim: bool, t: &Vec<char>, start: usize) -> (end: usize)
    requires
        start <= t@.len(),
    ensures
        end == second_end(platform, verbatim, t@, start as int),
        start <= end <= t@.len(),
{
    let first: usize = find_run_end(platform, verbatim, t, start);
    if first < t.len() {
        let second: usize = find_run_end(platform, verbatim, t, first + 1);
        if second > first + 1 {
            return second;
        }
    }
    first
}

/// Whether a letter and a colon stand at a position.
fn has_drive_at(t: &Vec<char>, i: usize) -> (r: bool)
    requires
        i < 8,
    ensures
        r == drive_at(t@, i as int),
{
    i + 2 <= t.len() && (('a' <= t[i] && t[i] <= 'z') || ('A' <= t[i] && t[i] <= 'Z')) && t[i + 1]
        == ':'
}

/// What a path begins with.
struct Head {
    /// Where the prefix ends.
    prefix: usize,
    drive: bool,
    verbatim: bool,
    verbatim_share: bool,
    verbatim_drive: bool,
    root: bool,
    implied_root: bool,
    dot: bool,
    /// Where the body begins.
    start: usize,
}

/// The head describes what the path begins with.
spec fn describes(h: Head, platform: Platform, t: Seq<char>) -> bool {
    &&& h.prefix == prefix_end(platform, t)
    &&& h.drive == has_drive(platform, t)
    &&& h.verbatim == is_verbatim(platform, t)
    &&& h.verbatim_share == is_verbatim_share(platform, t)
    &&& h.verbatim_drive == is_verbatim_drive(platform, t)
    &&& h.root == has_root(platform, t)
    &&& h.implied_root == implies_root(platform, t)
    &&& h.dot == leads_with_dot(platform, t)
    &&& h.start == body_start(platform, t)
    &&& h.prefix <= h.start <= t.len()
}

/// Reads what a path begins with.
fn read_head(platform: Platform, t: &Vec<char>) -> (h: Head)
    ensures
        describes(h, platform, t@),
{
    proof {
        lemma_prefix_end(platform, t@);
    }
    let windows = platform == Platform::Windows;
    let len: usize = t.len();
    let drive = windows && has_drive_at(t, 0);
    let double = windows && len >= 2 && is_separator(platform, t[0]) && is_separator(platform, t[1]);
    let verbatim = windows && len >= 4 && t[0] == '\\' && t[1] == '\\' && t[2] == '?' && t[3]
        == '\\';
    let verbatim_share = verbatim && len >= 8 && t[4] == 'U' && t[5] == 'N' && t[6] == 'C'
        && is_separator(platform, t[7]);
    let verbatim_drive = verbatim && has_drive_at(t, 4) && (len == 6 || is_separator(platform, t[6]));
    let device = double && len >= 4 && t[2] == '.' && is_separator(platform, t[3]);
    let prefix: usize = if drive {
        2
    } else if verbatim_share {
        find_second_end(platform, true, t, 8)
    } else if verbatim_drive {
        6
    } else if verbatim {
        find_run_end(platform, true, t, 4)
    } else if device {
        find_run_end(platform, false, t, 4)
    } else if double {
        let server: usize = find_run_end(platform, false, t, 2);
        let share: usize = find_second_end(platform, false, t, 2);
        if server > 2 && share > server {
            share
        } else {
            0
        }
    } else {
        0
    };
    let root = prefix < len && is_separator(platform, t[prefix]);
    let implied_root = prefix > 0 && !drive && !verbatim && !root;
    let dot = prefix == 0 && len > 0 && t[0] == '.' && (len == 1 || is_separator(platform, t[1]));
    let start: usize = if root || dot {
        prefix + 1
    } else {
        prefix
    };
    Head {
        prefix,
        drive,
        verbatim,
        verbatim_share,
        verbatim_drive,
        root,
        implied_root,
        dot,
        start,
    }
}

/// Finds the places of all components.
fn find_spans(platform: Platform, t: &Vec<char>, h: &Head) -> (v: Vec<(usize, usize)>)
    requires
        describes(*h, platform, t@),
    ensures
        as_places(v@) == spans(platform, t@),
{
    let mut v: Vec<(usize, usize)> = Vec::new();
    if h.prefix > 0 {
        v.push((0, h.prefix));
    }
    if h.root || h.dot {
        v.push((h.prefix, h.prefix + 1));
    } else if h.implied_root {
        v.push((h.prefix, h.prefix));
    }
    let ghost head = head_spans(platform, t@);
    assert(as_places(v@) =~= head);
    let verbatim = h.verbatim;
    let mut i: usize = h.start;
    while i < t.len()
        invariant
            i <= t@.len(),
            as_places(v@) + body_spans(platform, verbatim, t@, i as int) == spans(platform, t@),
        decreases t@.len() - i,
    {
        let ghost before = v@;
        let ghost at = i as int;
        if is_divider(platform, verbatim, t[i]) {
            i = i + 1;
        } else {
            let start: usize = i;
            i = find_run_end(platform, verbatim, t, start);
            proof {
                lemma_run_end(platform, verbatim, t@, at);
            }
            if verbatim || i != start + 1 || t[start] != '.' {
                v.push((start, i));
                assert(as_places(v@) =~= as_places(before).push((start as int, i as int)));
            }
        }
        assert(as_places(v@) + body_spans(platform, verbatim, t@, i as int) =~= as_places(before)
            + body_spans(platform, verbatim, t@, at));
    }
    assert(as_places(v@) + body_spans(platform, verbatim, t@, i as int) =~= as_places(v@));
    v
}

/// A letter as a capital.
fn capital_of(c: char) -> (r: char)
    ensures
        r == capital(c),
{
    if 'a' <= c && c <= 'z' {
        ((c as u8) - 32) as char
    } else {
        c
    }
}

/// The form of a prefix that is compared.
fn name_of_prefix(platform: Platform, t: &Vec<char>, h: &Head) -> (r: Vec<char>)
    requires
        describes(*h, platform, t@),
        h.prefix > 0,
    ensures
        r@ == prefix_name(platform, t@),
{
    proof {
        lemma_prefix_end(platform, t@);
        if is_verbatim_share(platform, t@) {
            lemma_second_end(platform, true, t@, 8);
        }
    }
    if h.drive {
        let mut r: Vec<char> = Vec::new();
        r.push(capital_of(t[0]));
        r.push(':');
        assert(r@ =~= prefix_name(platform, t@));
        return r;
    }
    if h.verbatim_share {
        let mut r = slice(t, 0, h.prefix);
        r.set(7, '\\');
        assert(r@ =~= prefix_name(platform, t@));
        return r;
    }
    if h.verbatim_drive {
        let mut r = slice(t, 0, 4);
        r.push(capital_of(t[4]));
        r.push(':');
        return r;
    }
    if h.verbatim {
        return slice(t, 0, h.prefix);
    }
    let mut r: Vec<char> = Vec::new();
    let mut i: usize = 0;
    while i < h.prefix
        invariant
            i <= h.prefix <= t@.len(),
            r@.len() == i,
            forall|k: int| 0 <= k < i ==> r@[k] == slashed(platform, #[trigger] t@[k]),
        decreases h.prefix - i,
    {
        if is_separator(platform, t[i]) {
            r.push('/');
        } else {
            r.push(t[i]);
        }
        i = i + 1;
    }
    assert(r@ =~= prefix_name(platform, t@));
    r
}

/// The text of the component at a place.
fn piece_at(platform: Platform, t: &Vec<char>, h: &Head, span: (usize, usize)) -> (r: Vec<char>)
    requires
        describes(*h, platform, t@),
        span.0 <= span.1 <= t@.len(),
    ensures
        r@ == piece(platform, t@, (span.0 as int, span.1 as int)),
{
    if h.prefix > 0 && span.0 == 0 {
        return name_of_prefix(platform, t, h);
    }
    if span.0 == h.prefix && (h.root || h.implied_root) {
        let mut r: Vec<char> = Vec::new();
        r.push('/');
        assert(r@ =~= seq!['/']);
        return r;
    }
    slice(t, span.0, span.1)
}

/// Whether a place is that of a prefix or a root.
fn is_head_place(h: &Head, span: (usize, usize)) -> (r: bool)
    ensures
        forall|platform: Platform, t: Seq<char>| #[trigger]
            describes(*h, platform, t) ==> r == (is_prefix_place(
                platform,
                t,
                (span.0 as int, span.1 as int),
            ) || is_root_place(platform, t, (span.0 as int, span.1 as int))),
{
    (h.prefix > 0 && span.0 == 0) || (span.0 == h.prefix && (h.root || h.implied_root))
}

/// Whether a text is `.`.
fn is_dot(t: &Vec<char>) -> (r: bool)
    ensures
        r == (t@ == seq!['.']),
{
    proof {
        reveal_strlit(".");
        assert("."@ =~= seq!['.']);
    }
    spells(t, ".")
}

/// Whether a text is `..`.
fn is_double_dot(t: &Vec<char>) -> (r: bool)
    ensures
        r == (t@ == seq!['.', '.']),
{
    proof {
        reveal_strlit("..");
        assert(".."@ =~= seq!['.', '.']);
    }
    spells(t, "..")
}

/// The last component, where it names an item.
pub fn file_name(platform: Platform, path: &str) -> (r: Option<String>)
    ensures
        match r {
            Some(name) => file_name_of(platform, path@) == Some(name@),
            None => file_name_of(platform, path@) is None,
        },
{
    let t = to_chars(path);
    let h = read_head(platform, &t);
    let v = find_spans(platform, &t, &h);
    proof {
        lemma_places(platform, t@);
    }
    let ghost places = spans(platform, t@);
    assert(places.len() == v@.len());
    if v.len() == 0 {
        return None;
    }
    let last: (usize, usize) = v[v.len() - 1];
    assert(places.last() == (last.0 as int, last.1 as int));
    if is_head_place(&h, last) {
        return None;
    }
    let name = slice(&t, last.0, last.1);
    assert(components(platform, t@).last() == name@);
    if is_dot(&name) || is_double_dot(&name) {
        return None;
    }
    let r = substring(&name, 0, name.len());
    assert(r@ =~= name@);
    Some(r)
}

/// What follows the last dot of the file name, where something stands before that dot.
pub fn extension(platform: Platform, path: &str) -> (r: Option<String>)
    ensures
        match r {
            Some(ext) => extension_of(platform, path@) == Some(ext@),
            None => extension_of(platform, path@) is None,
        },
{
    match file_name(platform, path) {
        Some(name) => {
            let chars = to_chars(name.as_str());
            let len: usize = chars.len();
            match last_position(&chars, '.') {
                Some(i) => {
                    if i > 0 {
                        Some(substring(&chars, i + 1, len))
                    } else {
                        None
                    }
                },
                None => None,
            }
        },
        None => None,
    }
}

/// Finds the end of a `.` right behind a drive, or `end` where that is later.
fn behind_drive_dot(platform: Platform, t: &Vec<char>, h: &Head, end: usize) -> (r: usize)
    requires
        describes(*h, platform, t@),
        end <= t@.len(),
    ensures
        r == later(end as int, drive_dot_end(platform, t@)),
        end <= r <= t@.len(),
{
    if h.drive && t.len() >= 3 && t[2] == '.' && (t.len() == 3 || is_separator(platform, t[3])) && end
        < 3 {
        3
    } else {
        end
    }
}

/// The path without its last component.
pub fn parent(platform: Platform, path: &str) -> (r: Option<String>)
    ensures
        match r {
            Some(p) => parent_of(platform, path@) == Some(p@),
            None => parent_of(platform, path@) is None,
        },
{
    let t = to_chars(path);
    let h = read_head(platform, &t);
    let v = find_spans(platform, &t, &h);
    proof {
        lemma_places(platform, t@);
    }
    let ghost places = spans(platform, t@);
    assert(places.len() == v@.len());
    if v.len() == 0 {
        return None;
    }
    let last: (usize, usize) = v[v.len() - 1];
    assert(places.last() == (last.0 as int, last.1 as int));
    if is_head_place(&h, last) {
        return None;
    }
    if v.len() == 1 {
        return Some(String::new());
    }
    let before: (usize, usize) = v[v.len() - 2];
    assert(places[places.len() - 2] == (before.0 as int, before.1 as int));
    let end: usize = behind_drive_dot(platform, &t, &h, before.1);
    Some(substring(&t, 0, end))
}

/// How many of the components of `t` are the components of `base`: all of `base`, or none.
fn depth_within(
    platform: Platform,
    t: &Vec<char>,
    t_head: &Head,
    t_spans: &Vec<(usize, usize)>,
    base: &Vec<char>,
) -> (r: Option<usize>)
    requires
        describes(*t_head, platform, t@),
        as_places(t_spans@) == spans(platform, t@),
    ensures
        match r {
            Some(depth) => is_within(platform, t@, base@) && depth == spans(platform, base@).len()
                && depth <= t_spans@.len(),
            None => !is_within(platform, t@, base@),
        },
{
    let base_head = read_head(platform, base);
    let base_spans = find_spans(platform, base, &base_head);
    let ghost ours = components(platform, t@);
    let ghost theirs = components(platform, base@);
    assert(ours.len() == t_spans@.len());
    assert(theirs.len() == base_spans@.len());
    if base_spans.len() > t_spans.len() {
        return None;
    }
    let mut i: usize = 0;
    while i < base_spans.len()
        invariant
            i <= base_spans@.len() <= t_spans@.len(),
            describes(*t_head, platform, t@),
            describes(base_head, platform, base@),
            as_places(t_spans@) == spans(platform, t@),
            as_places(base_spans@) == spans(platform, base@),
            ours == components(platform, t@),
            theirs == components(platform, base@),
            ours.len() == t_spans@.len(),
            theirs.len() == base_spans@.len(),
            forall|k: int| 0 <= k < i ==> ours[k] == theirs[k],
        decreases base_spans@.len() - i,
    {
        proof {
            lemma_places(platform, t@);
            lemma_places(platform, base@);
        }
        let ours_at: (usize, usize) = t_spans[i];
        let theirs_at: (usize, usize) = base_spans[i];
        assert(spans(platform, t@)[i as int] == (ours_at.0 as int, ours_at.1 as int));
        assert(spans(platform, base@)[i as int] == (theirs_at.0 as int, theirs_at.1 as int));
        let a = piece_at(platform, t, t_head, ours_at);
        let b = piece_at(platform, base, &base_head, theirs_at);
        assert(ours[i as int] == a@);
        assert(theirs[i as int] == b@);
        if !same_chars(&a, &b) {
            return None;
        }
        i = i + 1;
    }
    assert(ours.subrange(0, theirs.len() as int) =~= theirs);
    Some(base_spans.len())
}

/// Whether `base` is the path itself or one of its ancestors.
pub fn within(platform: Platform, path: &str, base: &str) -> (r: bool)
    ensures
        r == is_within(platform, path@, base@),
{
    let t = to_chars(path);
    let h = read_head(platform, &t);
    let v = find_spans(platform, &t, &h);
    depth_within(platform, &t, &h, &v, &to_chars(base)).is_some()
}

/// Whether two paths have the same components.
pub fn same_path(platform: Platform, a: &str, b: &str) -> (r: bool)
    ensures
        r == (components(platform, a@) == components(platform, b@)),
{
    let r = within(platform, a, b) && within(platform, b, a);
    proof {
        let x = components(platform, a@);
        let y = components(platform, b@);
        if r {
            assert(x =~= y);
        } else if x == y {
            assert(x.subrange(0, x.len() as int) =~= x);
        }
    }
    r
}

/// What is left of a path below a base, as it is written in the path.
pub fn strip_base(platform: Platform, path: &str, base: &str) -> (r: Option<String>)
    ensures
        match r {
            Some(rest) => below(platform, path@, base@) == Some(rest@),
            None => below(platform, path@, base@) is None,
        },
{
    let t = to_chars(path);
    let h = read_head(platform, &t);
    let v = find_spans(platform, &t, &h);
    proof {
        lemma_places(platform, t@);
    }
    let ghost places = spans(platform, t@);
    assert(places.len() == v@.len());
    match depth_within(platform, &t, &h, &v, &to_chars(base)) {
        Some(depth) => {
            if v.len() == 0 {
                return Some(String::new());
            }
            let last: (usize, usize) = v[v.len() - 1];
            assert(places.last() == (last.0 as int, last.1 as int));
            let end: usize = behind_drive_dot(platform, &t, &h, last.1);
            if depth == 1 && h.prefix > 0 {
                proof {
                    assert(places[0] == (0int, h.prefix as int));
                    if places.len() > 1 {
                        assert(places[0].1 <= places[places.len() - 1].0);
                    }
                }
                Some(substring(&t, h.prefix, end))
            } else if depth == v.len() {
                Some(String::new())
            } else {
                let first: (usize, usize) = v[depth];
                assert(places[depth as int] == (first.0 as int, first.1 as int));
                Some(substring(&t, first.0, end))
            }
        },
        None => None,
    }
}

/// The form that the renderer sees, for a path inside the workspace.
pub fn to_workspace_relative(platform: Platform, path: &str, root: &str) -> (r: Option<String>)
    ensures
        match r {
            Some(rest) => workspace_relative(platform, path@, root@) == Some(rest@),
            None => workspace_relative(platform, path@, root@) is None,
        },
{
    match strip_base(platform, path, root) {
        Some(rest) => {
            proof {
                reveal_strlit("/");
                assert("/"@ =~= seq!['/']);
            }
            Some(replace_char(rest.as_str(), '\\', "/"))
        },
        None => None,
    }
}

/// Takes the steps of a path from a directory.
fn walk(names: Vec<String>, t: &Vec<char>, v: &Vec<(usize, usize)>, first: usize) -> (r: Vec<String>)
    requires
        first <= v@.len(),
        forall|k: int| 0 <= k < v@.len() ==> (#[trigger] v@[k]).0 <= v@[k].1 <= t@.len(),
    ensures
        texts(r@) == walked(texts(names@), texts_at(t@, as_places(v@).skip(first as int))),
{
    let ghost steps = texts_at(t@, as_places(v@).skip(first as int));
    let ghost begin = texts(names@);
    let mut r = names;
    let mut i: usize = first;
    assert(steps.take(0) =~= Seq::empty());
    while i < v.len()
        invariant
            first <= i <= v@.len(),
            steps == texts_at(t@, as_places(v@).skip(first as int)),
            steps.len() == v@.len() - first,
            forall|k: int| 0 <= k < v@.len() ==> (#[trigger] v@[k]).0 <= v@[k].1 <= t@.len(),
            texts(r@) == walked(begin, steps.take(i - first)),
        decreases v@.len() - i,
    {
        let span: (usize, usize) = v[i];
        let step = slice(t, span.0, span.1);
        let ghost before = r@;
        let ghost k = i - first;
        assert(steps.take(k + 1).drop_last() =~= steps.take(k));
        assert(as_places(v@).skip(first as int)[k] == as_places(v@)[i as int]);
        assert(steps.take(k + 1).last() == step@);
        if is_dot(&step) {
        } else if is_double_dot(&step) {
            if r.len() > 0 {
                let last = to_chars(r[r.len() - 1].as_str());
                assert(texts(before).last() == last@);
                if !is_dot(&last) && !is_double_dot(&last) {
                    r.pop();
                    assert(texts(r@) =~= texts(before).drop_last());
                }
            }
        } else {
            let name = substring(&step, 0, step.len());
            assert(name@ =~= step@);
            r.push(name);
            assert(texts(r@) =~= texts(before).push(step@));
        }
        i = i + 1;
    }
    assert(steps.take(i - first) =~= steps);
    r
}

/// The texts at the places from `first` on.
fn names_from(t: &Vec<char>, v: &Vec<(usize, usize)>, first: usize) -> (r: Vec<String>)
    requires
        first <= v@.len(),
        forall|k: int| 0 <= k < v@.len() ==> (#[trigger] v@[k]).0 <= v@[k].1 <= t@.len(),
    ensures
        texts(r@) == texts_at(t@, as_places(v@).skip(first as int)),
{
    let mut r: Vec<String> = Vec::new();
    let mut i: usize = first;
    let ghost all = texts_at(t@, as_places(v@).skip(first as int));
    while i < v.len()
        invariant
            first <= i <= v@.len(),
            all == texts_at(t@, as_places(v@).skip(first as int)),
            all.len() == v@.len() - first,
            forall|k: int| 0 <= k < v@.len() ==> (#[trigger] v@[k]).0 <= v@[k].1 <= t@.len(),
            texts(r@) == all.take(i - first),
        decreases v@.len() - i,
    {
        let span: (usize, usize) = v[i];
        let ghost before = r@;
        let ghost k = i - first;
        let name = substring(t, span.0, span.1);
        assert(as_places(v@).skip(first as int)[k] == as_places(v@)[i as int]);
        assert(all[k] == name@);
        r.push(name);
        i = i + 1;
        assert(texts(r@) =~= texts(before).push(name@));
        assert(texts(r@) =~= all.take(i - first));
    }
    assert(all.take(i - first) =~= all);
    r
}

/// A path without prefix put behind a verbatim base.
fn join_verbatim(platform: Platform, base: &Vec<char>, name: &Vec<char>) -> (r: String)
    requires
        is_verbatim(platform, base@),
        prefix_end(platform, name@) == 0,
    ensures
        r@ == verbatim_join(platform, base@, name@),
{
    let base_head = read_head(platform, base);
    let base_spans = find_spans(platform, base, &base_head);
    let name_head = read_head(platform, name);
    let name_spans = find_spans(platform, name, &name_head);
    proof {
        lemma_places(platform, base@);
        lemma_places(platform, name@);
        lemma_prefix_end(platform, base@);
        assert forall|k: int| 0 <= k < base_spans@.len() implies (#[trigger] base_spans@[k]).0
            <= base_spans@[k].1 <= base@.len() by {
            assert(as_places(base_spans@)[k] == spans(platform, base@)[k]);
        }
        assert forall|k: int| 0 <= k < name_spans@.len() implies (#[trigger] name_spans@[k]).0
            <= name_spans@[k].1 <= name@.len() by {
            assert(as_places(name_spans@)[k] == spans(platform, name@)[k]);
        }
        assert(as_places(base_spans@).len() == base_spans@.len());
        assert(as_places(name_spans@).len() == name_spans@.len());
    }
    let head_len: usize = if base_head.root {
        2
    } else {
        1
    };
    assert(head_len == head_spans(platform, base@).len());
    assert(as_places(base_spans@).skip(head_len as int) =~= body(platform, base@));
    let start = if name_head.root {
        let none: Vec<String> = Vec::new();
        assert(texts(none@) =~= Seq::empty());
        none
    } else {
        names_from(base, &base_spans, head_len)
    };
    let first: usize = if name_head.root {
        1
    } else {
        0
    };
    let names = walk(start, name, &name_spans, first);
    proof {
        reveal_strlit("\\");
        assert("\\"@ =~= seq!['\\']);
    }
    let prefix = substring(base, 0, base_head.prefix);
    if names.len() > 0 {
        let mut r = concat2(prefix.as_str(), "\\");
        r.append(join_all(&names, "\\").as_str());
        assert(r@ =~= verbatim_join(platform, base@, name@));
        r
    } else if name_head.root || base_head.root {
        concat2(prefix.as_str(), "\\")
    } else {
        assert(prefix@ =~= verbatim_join(platform, base@, name@));
        prefix
    }
}

/// A path put behind a base.
pub fn join(platform: Platform, base: &str, name: &str) -> (r: String)
    ensures
        r@ == joined_path(platform, base@, name@),
{
    let base_chars = to_chars(base);
    let name_chars = to_chars(name);
    let name_head = read_head(platform, &name_chars);
    if name_head.prefix > 0 {
        return name.to_owned();
    }
    let head = read_head(platform, &base_chars);
    if head.verbatim && name_chars.len() > 0 {
        return join_verbatim(platform, &base_chars, &name_chars);
    }
    if name_head.root {
        return concat2(substring(&base_chars, 0, head.prefix).as_str(), name);
    }
    let mut r = base.to_owned();
    let len: usize = base_chars.len();
    if !(len == 0 || is_separator(platform, base_chars[len - 1]) || (head.drive && len == 2)) {
        if platform == Platform::Windows {
            r.push('\\');
        } else {
            r.push('/');
        }
        assert(r@ =~= base@ + main_separator(platform));
    }
    r.append(name);
    r
}

} // verus!
