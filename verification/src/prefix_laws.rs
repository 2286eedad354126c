//! Laws of how paths begin: separators, drives, shares, devices and verbatim forms.
//!
//! Each law gives the components of a root as it is written. What stands behind such a root is read
//! name by name, as the laws of joining say.

use vstd::prelude::*;

use crate::path_laws::{are_plain_names, directory_below, law_item_below_root, takes_names};
use crate::paths::{body_spans, components, file_name_of, has_drive, has_root, is_device};
use crate::paths::{is_open_share, is_verbatim, is_verbatim_drive, is_verbatim_share, joined_path};
use crate::paths::{lemma_run_is, parent_of, Platform, prefix_end, prefix_name, separates, slashed};
use crate::paths::{spans, walked};

verus! {

/// The slash separates components everywhere, the backslash on Windows, and nothing else does.
pub proof fn law_separators(platform: Platform, c: char)
    ensures
        separates(platform, c) <==> c as int == 47 || (platform is Windows && c as int == 92),
{
}

/// A drive is a Latin letter and a colon at the beginning of a path, on Windows alone.
pub proof fn law_drives(platform: Platform, t: Seq<char>)
    ensures
        has_drive(platform, t) <==> platform is Windows && t.len() >= 2 && t[1] as int == 58 && (65
            <= t[0] as int <= 90 || 97 <= t[0] as int <= 122),
{
}

/// An empty path has no components, a separator alone is the root and nothing else, and a dot alone is
/// a component but no file name.
pub proof fn law_bare_root(platform: Platform, sep: char)
    requires
        separates(platform, sep),
    ensures
        components(platform, Seq::empty()) == Seq::<Seq<char>>::empty(),
        takes_names(platform, Seq::empty()),
        components(platform, seq![sep]) == seq![seq!['/']],
        takes_names(platform, seq![sep]),
        file_name_of(platform, seq![sep]) is None,
        parent_of(platform, seq![sep]) is None,
        components(platform, seq!['.']) == seq![seq!['.']],
        takes_names(platform, seq!['.']),
        file_name_of(platform, seq!['.']) is None,
{
    let dot = seq!['.'];
    assert(prefix_end(platform, dot) == 0);
    assert(body_spans(platform, false, dot, 1) =~= Seq::empty());
    assert(spans(platform, dot) =~= seq![(0int, 1int)]);
    assert(dot.subrange(0, 1) =~= dot);
    assert(components(platform, dot) =~= seq![dot]);
    let t = seq![sep];
    assert(prefix_end(platform, t) == 0);
    assert(body_spans(platform, false, t, 1) =~= Seq::empty());
    assert(spans(platform, t) =~= seq![(0int, 1int)]);
    assert(components(platform, t) =~= seq![seq!['/']]);
    assert(spans(platform, Seq::empty()) =~= Seq::empty());
    assert(components(platform, Seq::empty()) =~= Seq::empty());
}

/// Names behind a root are the components behind it, and names alone are components alone. The last
/// name is the file name.
pub proof fn law_rooted_and_relative_paths(
    platform: Platform,
    sep: char,
    dirs: Seq<Seq<char>>,
    name: Seq<char>,
)
    requires
        separates(platform, sep),
        are_plain_names(platform, dirs.push(name)),
    ensures
        ({
            let rooted = joined_path(platform, directory_below(platform, seq![sep], dirs), name);
            let relative = joined_path(platform, directory_below(platform, Seq::empty(), dirs), name);
            &&& components(platform, rooted) == seq![seq!['/']] + dirs.push(name)
            &&& file_name_of(platform, rooted) == Some(name)
            &&& components(platform, relative) == dirs.push(name)
            &&& file_name_of(platform, relative) == Some(name)
        }),
{
    law_bare_root(platform, sep);
    law_item_below_root(platform, seq![sep], dirs, name);
    law_item_below_root(platform, Seq::empty(), dirs, name);
    assert(Seq::<Seq<char>>::empty() + dirs.push(name) =~= dirs.push(name));
}

/// A drive with a root is two components, the drive and the root, whatever the case of its letter and
/// whichever separator is written; a drive alone is one. Neither has a file name or a parent.
pub proof fn law_drive_root(letter: char, sep: char)
    requires
        65 <= letter as int <= 90 || 97 <= letter as int <= 122,
        sep == '/' || sep == '\\',
    ensures
        ({
            let w = Platform::Windows;
            let rooted = seq![letter, ':', sep];
            let alone = seq![letter, ':'];
            let drive = seq![
                if letter as int >= 97 {
                    (letter as int - 32) as char
                } else {
                    letter
                },
                ':',
            ];
            &&& components(w, rooted) == seq![drive, seq!['/']]
            &&& components(w, alone) == seq![drive]
            &&& takes_names(w, rooted)
            &&& takes_names(w, alone)
            &&& file_name_of(w, rooted) is None
            &&& file_name_of(w, alone) is None
            &&& parent_of(w, rooted) is None
            &&& parent_of(w, alone) is None
        }),
{
    let w = Platform::Windows;
    let rooted = seq![letter, ':', sep];
    let alone = seq![letter, ':'];
    assert(has_drive(w, rooted) && has_drive(w, alone));
    assert(body_spans(w, false, rooted, 3) =~= Seq::empty());
    assert(body_spans(w, false, alone, 2) =~= Seq::empty());
    assert(spans(w, rooted) =~= seq![(0int, 2int), (2int, 3int)]);
    assert(spans(w, alone) =~= seq![(0int, 2int)]);
    assert(components(w, rooted) =~= seq![prefix_name(w, rooted), seq!['/']]);
    assert(components(w, alone) =~= seq![prefix_name(w, alone)]);
}

/// A share or a device that is the whole path is two components: itself, with slashes for its
/// separators, and the root.
proof fn lemma_prefix_alone(t: Seq<char>)
    requires
        !has_drive(Platform::Windows, t),
        !is_verbatim(Platform::Windows, t),
        prefix_end(Platform::Windows, t) == t.len(),
        t.len() > 4,
    ensures
        components(Platform::Windows, t) == seq![
            t.map_values(|c: char| slashed(Platform::Windows, c)),
            seq!['/'],
        ],
        takes_names(Platform::Windows, t),
        file_name_of(Platform::Windows, t) is None,
        parent_of(Platform::Windows, t) is None,
{
    let w = Platform::Windows;
    let n = t.len() as int;
    assert(!has_root(w, t));
    assert(body_spans(w, false, t, n) =~= Seq::empty());
    assert(spans(w, t) =~= seq![(0int, n), (n, n)]);
    assert(t.subrange(0, n) =~= t);
    assert(components(w, t) =~= seq![prefix_name(w, t), seq!['/']]);
}

/// A server and a share are a prefix that ends with the path.
proof fn lemma_share_end(one: char, two: char, server: Seq<char>, three: char, share: Seq<char>)
    requires
        one == '/' || one == '\\',
        two == '/' || two == '\\',
        three == '/' || three == '\\',
        server.len() > 0,
        share.len() > 0,
        forall|i: int|
            0 <= i < server.len() ==> !separates(Platform::Windows, #[trigger] server[i]),
        forall|i: int| 0 <= i < share.len() ==> !separates(Platform::Windows, #[trigger] share[i]),
        server != seq!['.'],
        !(server == seq!['?'] && one == '\\' && two == '\\' && three == '\\'),
    ensures
        ({
            let w = Platform::Windows;
            let t = seq![one, two] + server + seq![three] + share;
            &&& !has_drive(w, t)
            &&& !is_verbatim(w, t)
            &&& prefix_end(w, t) == t.len()
        }),
{
    let w = Platform::Windows;
    let t = seq![one, two] + server + seq![three] + share;
    let n = 2 + server.len() as int;
    assert(t[0] == one && t[1] == two && t[2] == server[0] && t[n] == three);
    assert(!separates(w, server[0]));
    assert forall|j: int| 2 <= j < n implies !separates(w, #[trigger] t[j]) by {
        assert(t[j] == server[j - 2]);
    }
    assert forall|j: int| n + 1 <= j < t.len() implies !separates(w, #[trigger] t[j]) by {
        assert(t[j] == share[j - n - 1]);
    }
    lemma_run_is(w, false, t, 2, n);
    lemma_run_is(w, false, t, n + 1, t.len() as int);
    if is_verbatim(w, t) {
        assert(n == 3);
        assert(server =~= seq!['?']);
    }
    if is_device(w, t) {
        assert(n == 3);
        assert(server =~= seq!['.']);
    }
}

/// A server and a share behind two separators are one component, and a root follows though none is
/// written. Which separators are written makes no difference.
pub proof fn law_share_root(
    one: char,
    two: char,
    server: Seq<char>,
    three: char,
    share: Seq<char>,
)
    requires
        one == '/' || one == '\\',
        two == '/' || two == '\\',
        three == '/' || three == '\\',
        server.len() > 0,
        share.len() > 0,
        forall|i: int|
            0 <= i < server.len() ==> !separates(Platform::Windows, #[trigger] server[i]),
        forall|i: int| 0 <= i < share.len() ==> !separates(Platform::Windows, #[trigger] share[i]),
        server != seq!['.'],
        !(server == seq!['?'] && one == '\\' && two == '\\' && three == '\\'),
    ensures
        ({
            let w = Platform::Windows;
            let t = seq![one, two] + server + seq![three] + share;
            &&& components(w, t) == seq![seq!['/', '/'] + server + seq!['/'] + share, seq!['/']]
            &&& takes_names(w, t)
            &&& file_name_of(w, t) is None
            &&& parent_of(w, t) is None
        }),
{
    let w = Platform::Windows;
    let t = seq![one, two] + server + seq![three] + share;
    let name = seq!['/', '/'] + server + seq!['/'] + share;
    lemma_share_end(one, two, server, three, share);
    lemma_prefix_alone(t);
    assert forall|j: int| 0 <= j < t.len() implies slashed(w, #[trigger] t[j]) == name[j] by {
        if 2 <= j < 2 + server.len() {
            assert(t[j] == server[j - 2]);
        } else if j > 2 + server.len() {
            assert(t[j] == share[j - 3 - server.len()]);
        }
    }
    assert(t.map_values(|c: char| slashed(w, c)) =~= name);
}

/// A device is one component, and a root follows though none is written.
pub proof fn law_device_root(name: Seq<char>)
    requires
        name.len() > 0,
        forall|i: int| 0 <= i < name.len() ==> !separates(Platform::Windows, #[trigger] name[i]),
    ensures
        ({
            let w = Platform::Windows;
            let t = seq!['\\', '\\', '.', '\\'] + name;
            &&& components(w, t) == seq![seq!['/', '/', '.', '/'] + name, seq!['/']]
            &&& takes_names(w, t)
            &&& file_name_of(w, t) is None
            &&& parent_of(w, t) is None
        }),
{
    let w = Platform::Windows;
    let t = seq!['\\', '\\', '.', '\\'] + name;
    assert forall|j: int| 4 <= j < t.len() implies !separates(w, #[trigger] t[j]) by {
        assert(t[j] == name[j - 4]);
    }
    lemma_run_is(w, false, t, 4, t.len() as int);
    assert(t[0] == '\\' && t[1] == '\\' && t[2] == '.' && t[3] == '\\');
    lemma_prefix_alone(t);
    assert(t.map_values(|c: char| slashed(w, c)) =~= seq!['/', '/', '.', '/'] + name);
}

/// A verbatim drive with its root is two components, and is told from the same drive without the
/// verbatim mark.
pub proof fn law_verbatim_drive_root(letter: char)
    requires
        65 <= letter as int <= 90 || 97 <= letter as int <= 122,
    ensures
        ({
            let w = Platform::Windows;
            let t = seq!['\\', '\\', '?', '\\', letter, ':', '\\'];
            let drive = seq![
                '\\',
                '\\',
                '?',
                '\\',
                if letter as int >= 97 {
                    (letter as int - 32) as char
                } else {
                    letter
                },
                ':',
            ];
            &&& components(w, t) == seq![drive, seq!['/']]
            &&& takes_names(w, t)
            &&& file_name_of(w, t) is None
            &&& parent_of(w, t) is None
        }),
{
    let w = Platform::Windows;
    let t = seq!['\\', '\\', '?', '\\', letter, ':', '\\'];
    assert(is_verbatim(w, t) && is_verbatim_drive(w, t));
    assert(prefix_end(w, t) == 6);
    assert(body_spans(w, true, t, 7) =~= Seq::empty());
    assert(spans(w, t) =~= seq![(0int, 6int), (6int, 7int)]);
    assert(components(w, t) =~= seq![prefix_name(w, t), seq!['/']]);
    assert(components(w, t)[0] =~= seq![
        '\\',
        '\\',
        '?',
        '\\',
        if letter as int >= 97 {
            (letter as int - 32) as char
        } else {
            letter
        },
        ':',
    ]);
}

/// A verbatim server and share are a prefix that ends before the root.
proof fn lemma_verbatim_share_end(server: Seq<char>, share: Seq<char>)
    requires
        server.len() > 0,
        share.len() > 0,
        !server.contains('\\'),
        !share.contains('\\'),
    ensures
        ({
            let w = Platform::Windows;
            let mark = seq!['\\', '\\', '?', '\\', 'U', 'N', 'C', '\\'];
            let t = mark + server + seq!['\\'] + share + seq!['\\'];
            let end = t.len() - 1;
            &&& is_verbatim_share(w, t)
            &&& prefix_end(w, t) == end
            &&& t[end] == '\\'
            &&& t.subrange(0, 7).push('\\') + t.subrange(8, end) == mark + server + seq!['\\']
                + share
            &&& !is_open_share(w, t)
        }),
{
    let w = Platform::Windows;
    let mark = seq!['\\', '\\', '?', '\\', 'U', 'N', 'C', '\\'];
    let t = mark + server + seq!['\\'] + share + seq!['\\'];
    let n = 8 + server.len() as int;
    let end = t.len() - 1;
    assert forall|j: int| 8 <= j < n implies (#[trigger] t[j]) != '\\' by {
        assert(t[j] == server[j - 8]);
        assert(server.contains(server[j - 8]));
    }
    assert forall|j: int| n + 1 <= j < end implies (#[trigger] t[j]) != '\\' by {
        assert(t[j] == share[j - n - 1]);
        assert(share.contains(share[j - n - 1]));
    }
    assert(t[n] == '\\' && t[end] == '\\');
    assert(t[0] == '\\' && t[1] == '\\' && t[2] == '?' && t[3] == '\\');
    assert(t[4] == 'U' && t[5] == 'N' && t[6] == 'C' && t[7] == '\\');
    lemma_run_is(w, true, t, 8, n);
    lemma_run_is(w, true, t, n + 1, end);
    assert(t.subrange(0, 7).push('\\') + t.subrange(8, end) =~= mark + server + seq!['\\'] + share);
}

/// A verbatim share with its root is two components, and is told from the same share without the
/// verbatim mark.
pub proof fn law_verbatim_share_root(server: Seq<char>, share: Seq<char>)
    requires
        server.len() > 0,
        share.len() > 0,
        !server.contains('\\'),
        !share.contains('\\'),
    ensures
        ({
            let w = Platform::Windows;
            let mark = seq!['\\', '\\', '?', '\\', 'U', 'N', 'C', '\\'];
            let t = mark + server + seq!['\\'] + share + seq!['\\'];
            &&& components(w, t) == seq![mark + server + seq!['\\'] + share, seq!['/']]
            &&& takes_names(w, t)
            &&& file_name_of(w, t) is None
            &&& parent_of(w, t) is None
        }),
{
    let w = Platform::Windows;
    let mark = seq!['\\', '\\', '?', '\\', 'U', 'N', 'C', '\\'];
    let t = mark + server + seq!['\\'] + share + seq!['\\'];
    lemma_verbatim_share_end(server, share);
    lemma_rooted_prefix(t);
    assert(!has_drive(w, t));
}

/// A verbatim prefix with a root behind it and nothing more is two components.
proof fn lemma_rooted_prefix(t: Seq<char>)
    requires
        is_verbatim(Platform::Windows, t),
        prefix_end(Platform::Windows, t) == t.len() - 1,
        t.last() == '\\',
    ensures
        components(Platform::Windows, t) == seq![prefix_name(Platform::Windows, t), seq!['/']],
        file_name_of(Platform::Windows, t) is None,
        parent_of(Platform::Windows, t) is None,
{
    let w = Platform::Windows;
    let n = t.len() as int;
    assert(has_root(w, t));
    assert(body_spans(w, true, t, n) =~= Seq::empty());
    assert(spans(w, t) =~= seq![(0int, n - 1), (n - 1, n)]);
    assert(components(w, t) =~= seq![prefix_name(w, t), seq!['/']]);
}

/// Steps lead from a directory one by one: a name goes down, a dot stays, and two dots take a name
/// back.
pub proof fn law_steps(names: Seq<Seq<char>>, steps: Seq<Seq<char>>, name: Seq<char>)
    requires
        name != seq!['.'],
        name != seq!['.', '.'],
    ensures
        walked(names, Seq::empty()) == names,
        walked(names, steps.push(name)) == walked(names, steps).push(name),
        walked(names, steps.push(seq!['.'])) == walked(names, steps),
        walked(names, steps.push(name).push(seq!['.', '.'])) == walked(names, steps),
{
    let down = steps.push(name);
    assert(down.drop_last() =~= steps);
    assert(steps.push(seq!['.']).drop_last() =~= steps);
    assert(down.push(seq!['.', '.']).drop_last() =~= down);
    assert(seq!['.', '.'].len() == 2 && seq!['.'].len() == 1);
    assert(walked(names, down) == walked(names, steps).push(name));
    assert(walked(names, steps).push(name).drop_last() =~= walked(names, steps));
}

/// A path that begins with a prefix replaces what it is joined to, and a path with a root replaces all
/// but the prefix.
pub proof fn law_join_replaces(platform: Platform, base: Seq<char>, path: Seq<char>)
    ensures
        prefix_end(platform, path) > 0 ==> joined_path(platform, base, path) == path,
        !(platform is Windows) && path.len() > 0 && path[0] == '/' ==> joined_path(
            platform,
            base,
            path,
        ) == path,
        platform is Windows && prefix_end(platform, path) == 0 && has_root(platform, path)
            && !is_verbatim(platform, base) ==> joined_path(platform, base, path) == base.subrange(
            0,
            prefix_end(platform, base),
        ) + path,
{
    if !(platform is Windows) && path.len() > 0 && path[0] == '/' {
        assert(base.subrange(0, 0) + path =~= path);
    }
}

} // verus!
