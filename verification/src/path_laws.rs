//! Laws of paths: what joining, taking the parent, naming and relating paths do to one another.

use vstd::prelude::*;

use crate::paths::{below, body, body_spans, body_start, components, divides, drive_dot_end};
use crate::paths::{ends_in_head, extension_of, file_name_of, has_drive, has_root, head_spans, implies_root};
use crate::paths::{is_device, is_doubly_rooted, is_open_share, is_verbatim, is_within};
use crate::paths::{join_base, joined_path, later, leads_with_dot, lemma_body_places};
use crate::paths::{lemma_no_prefix_in_beginning, lemma_places, lemma_prefix_end};
use crate::paths::{lemma_prefix_kept, lemma_run_end, lemma_run_is, lemma_second_end};
use crate::paths::{main_separator, parent_of, piece, Platform, prefix_end, prefix_name};
use crate::paths::{run_end, separates, spans, texts_at, walked, workspace_relative};
use crate::text::{is_last_position, joined, lemma_last_at, lemma_replaced_concat, replaced};

verus! {

/// A name that is a single component: not empty, without a drive and separators, not `.` and not
/// `..`.
pub open spec fn is_single_component(platform: Platform, name: Seq<char>) -> bool {
    &&& name.len() > 0
    &&& !has_drive(platform, name)
    &&& name != seq!['.']
    &&& name != seq!['.', '.']
    &&& forall|i: int| 0 <= i < name.len() ==> !separates(platform, #[trigger] name[i])
}

/// A path behind which a name is one more component. On other systems than Windows that is every
/// path. On Windows it is one whose prefix is finished, unlike `\\server` without a share, and, for a
/// verbatim one, has a root behind it; a drive must not be followed by a lone `.`.
pub open spec fn takes_names(platform: Platform, t: Seq<char>) -> bool {
    ||| prefix_end(platform, t) == 0 && !is_doubly_rooted(platform, t)
    ||| has_drive(platform, t) && drive_dot_end(platform, t) == 0
    ||| prefix_end(platform, t) > 0 && !has_drive(platform, t) && !is_verbatim(platform, t)
        && t.len() > 4
    ||| is_verbatim(platform, t) && has_root(platform, t) && !is_open_share(platform, t)
}

/// The path is a drive and nothing else.
pub open spec fn is_bare_drive(platform: Platform, t: Seq<char>) -> bool {
    has_drive(platform, t) && t.len() == 2
}

/// A separator at the end of a text adds no component to its body.
proof fn lemma_body_push(platform: Platform, verbatim: bool, t: Seq<char>, c: char, i: int)
    requires
        0 <= i <= t.len(),
        divides(platform, verbatim, c),
    ensures
        body_spans(platform, verbatim, t.push(c), i) == body_spans(platform, verbatim, t, i),
    decreases t.len() - i,
{
    let longer = t.push(c);
    if i == t.len() {
        assert(longer[i] == c);
        assert(body_spans(platform, verbatim, longer, i) == body_spans(
            platform,
            verbatim,
            longer,
            i + 1,
        ));
    } else {
        assert(longer[i] == t[i]);
        if divides(platform, verbatim, t[i]) {
            lemma_body_push(platform, verbatim, t, c, i + 1);
        } else {
            let end = run_end(platform, verbatim, t, i);
            lemma_run_end(platform, verbatim, t, i);
            assert forall|j: int| i <= j < end implies !divides(
                platform,
                verbatim,
                #[trigger] longer[j],
            ) by {
                assert(longer[j] == t[j]);
            }
            assert(divides(platform, verbatim, longer[end]));
            lemma_run_is(platform, verbatim, longer, i, end);
            lemma_body_push(platform, verbatim, t, c, end);
        }
    }
}

/// A run behind a text that is read up to its end or ends with a separator is one more component of
/// its body.
proof fn lemma_body_append(
    platform: Platform,
    verbatim: bool,
    t: Seq<char>,
    name: Seq<char>,
    i: int,
)
    requires
        0 <= i <= t.len(),
        t.len() == i || divides(platform, verbatim, t.last()),
        name.len() > 0,
        verbatim || name != seq!['.'],
        forall|j: int| 0 <= j < name.len() ==> !divides(platform, verbatim, #[trigger] name[j]),
    ensures
        body_spans(platform, verbatim, t + name, i) == body_spans(platform, verbatim, t, i).push(
            (t.len() as int, (t.len() + name.len()) as int),
        ),
    decreases t.len() - i,
{
    let all = t + name;
    if i == t.len() {
        assert forall|j: int| i <= j < all.len() implies !divides(
            platform,
            verbatim,
            #[trigger] all[j],
        ) by {
            assert(all[j] == name[j - i]);
        }
        lemma_run_is(platform, verbatim, all, i, all.len() as int);
        if name.len() == 1 && name[0] == '.' {
            assert(name =~= seq!['.']);
        }
        assert(all[i] == name[0]);
        assert(!divides(platform, verbatim, name[0]));
        assert(body_spans(platform, verbatim, all, all.len() as int) =~= Seq::empty());
        assert(body_spans(platform, verbatim, all, i) =~= seq![(i, all.len() as int)]);
    } else {
        assert(all[i] == t[i]);
        if divides(platform, verbatim, t[i]) {
            lemma_body_append(platform, verbatim, t, name, i + 1);
        } else {
            let end = run_end(platform, verbatim, t, i);
            lemma_run_end(platform, verbatim, t, i);
            assert(end < t.len()) by {
                if end == t.len() {
                    assert(!divides(platform, verbatim, t[t.len() - 1]));
                }
            }
            assert forall|j: int| i <= j < end implies !divides(
                platform,
                verbatim,
                #[trigger] all[j],
            ) by {
                assert(all[j] == t[j]);
            }
            assert(all[end] == t[end]);
            lemma_run_is(platform, verbatim, all, i, end);
            lemma_body_append(platform, verbatim, t, name, end);
        }
        assert(body_spans(platform, verbatim, all, i) =~= body_spans(platform, verbatim, t, i).push(
            (t.len() as int, (t.len() + name.len()) as int),
        ));
    }
}

/// The places of names that are written one after the other from `start` on, with one separator in
/// every gap.
pub open spec fn name_places(names: Seq<Seq<char>>, start: int) -> Seq<(int, int)>
    decreases names.len(),
{
    if names.len() == 0 {
        Seq::empty()
    } else {
        let at = if names.len() == 1 {
            start
        } else {
            start + joined(names.drop_last(), seq!['/']).len() + 1
        };
        name_places(names.drop_last(), start).push((at, (at + names.last().len())))
    }
}

/// The length of joined names does not depend on the separator.
proof fn lemma_joined_len(names: Seq<Seq<char>>, c: char)
    ensures
        joined(names, seq![c]).len() == joined(names, seq!['/']).len(),
    decreases names.len(),
{
    if names.len() > 1 {
        lemma_joined_len(names.drop_last(), c);
    }
}

/// Joined names stand at their places.
proof fn lemma_name_places(names: Seq<Seq<char>>, w: Seq<char>, c: char)
    ensures
        name_places(names, w.len() as int).len() == names.len(),
        texts_at(w + joined(names, seq![c]), name_places(names, w.len() as int)) == names,
        forall|k: int|
            0 <= k < names.len() ==> w.len() <= (#[trigger] name_places(names, w.len() as int)[k]).0
                <= name_places(names, w.len() as int)[k].1 <= w.len() + joined(
                names,
                seq![c],
            ).len(),
        names.len() > 0 ==> name_places(names, w.len() as int)[0].0 == w.len() && name_places(
            names,
            w.len() as int,
        ).last().1 == w.len() + joined(names, seq![c]).len(),
    decreases names.len(),
{
    let places = name_places(names, w.len() as int);
    let all = w + joined(names, seq![c]);
    if names.len() == 0 {
        assert(texts_at(all, places) =~= names);
    } else {
        let front = names.drop_last();
        let before = name_places(front, w.len() as int);
        let shorter = w + joined(front, seq![c]);
        lemma_name_places(front, w, c);
        lemma_joined_len(front, c);
        assert(places == before.push(places.last()));
        assert forall|k: int| 0 <= k < names.len() implies #[trigger] texts_at(all, places)[k]
            == names[k] by {
            if k < front.len() {
                assert(places[k] == before[k]);
                assert(texts_at(shorter, before)[k] == front[k]);
                assert(all.subrange(before[k].0, before[k].1) =~= shorter.subrange(
                    before[k].0,
                    before[k].1,
                ));
            } else {
                assert(all.subrange(places[k].0, places[k].1) =~= names.last());
            }
        }
        assert(texts_at(all, places) =~= names);
        assert forall|k: int| 0 <= k < names.len() implies w.len() <= (#[trigger] places[k]).0
            <= places[k].1 <= w.len() + joined(names, seq![c]).len() by {
            if k < front.len() {
                assert(places[k] == before[k]);
            }
        }
        if front.len() > 0 {
            assert(places[0] == before[0]);
        }
    }
}

/// Names can be runs of a body: not empty, without separators, and not a `.` that would be skipped.
spec fn are_runs(platform: Platform, verbatim: bool, names: Seq<Seq<char>>) -> bool {
    forall|k: int| #![trigger names[k]]
        0 <= k < names.len() ==> {
            &&& names[k].len() > 0
            &&& verbatim || names[k] != seq!['.']
            &&& forall|j: int|
                0 <= j < names[k].len() ==> !divides(platform, verbatim, #[trigger] names[k][j])
        }
}

/// Joined names behind a text are that many more components of its body.
proof fn lemma_body_names(
    platform: Platform,
    verbatim: bool,
    w: Seq<char>,
    i: int,
    names: Seq<Seq<char>>,
    c: char,
)
    requires
        0 <= i <= w.len(),
        w.len() == i || divides(platform, verbatim, w.last()),
        divides(platform, verbatim, c),
        are_runs(platform, verbatim, names),
    ensures
        body_spans(platform, verbatim, w + joined(names, seq![c]), i) == body_spans(
            platform,
            verbatim,
            w,
            i,
        ) + name_places(names, w.len() as int),
    decreases names.len(),
{
    let all = w + joined(names, seq![c]);
    let old_spans = body_spans(platform, verbatim, w, i);
    if names.len() == 0 {
        assert(all =~= w);
        assert(old_spans + name_places(names, w.len() as int) =~= old_spans);
    } else if names.len() == 1 {
        assert(names.drop_last() =~= Seq::empty());
        assert(all =~= w + names[0]);
        lemma_body_append(platform, verbatim, w, names[0], i);
        reveal_with_fuel(name_places, 2);
        assert(old_spans + name_places(names, w.len() as int) =~= old_spans.push(
            (w.len() as int, (w.len() + names[0].len()) as int),
        ));
    } else {
        let front = names.drop_last();
        let shorter = w + joined(front, seq![c]);
        assert forall|k: int| #![trigger front[k]]
            0 <= k < front.len() implies front[k].len() > 0 && (verbatim || front[k] != seq!['.'])
            && forall|j: int|
            0 <= j < front[k].len() ==> !divides(platform, verbatim, #[trigger] front[k][j]) by {
            assert(front[k] == names[k]);
        }
        lemma_body_names(platform, verbatim, w, i, front, c);
        lemma_joined_len(front, c);
        lemma_body_push(platform, verbatim, shorter, c, i);
        let gap = shorter.push(c);
        let last = names.last();
        assert(last == names[names.len() - 1]);
        lemma_body_append(platform, verbatim, gap, last, i);
        assert(all =~= gap + last);
        assert(old_spans + name_places(names, w.len() as int) =~= (old_spans + name_places(
            front,
            w.len() as int,
        )).push((gap.len() as int, (gap.len() + last.len()) as int)));
    }
}

/// The places of the components of a path in another that continues it: a root is in writing where
/// one was implied, and the names of a verbatim path have one separator in every gap.
spec fn kept_spans(platform: Platform, t: Seq<char>) -> Seq<(int, int)> {
    let end = prefix_end(platform, t);
    (if end > 0 {
        seq![(0int, end)]
    } else {
        Seq::empty()
    }) + (if has_root(platform, t) || implies_root(platform, t) || leads_with_dot(platform, t) {
        seq![(end, end + 1)]
    } else {
        Seq::empty()
    }) + (if is_verbatim(platform, t) {
        name_places(texts_at(t, body(platform, t)), end + 1)
    } else {
        body(platform, t)
    })
}

/// What stays of a path when text is put behind it: the head as it was, with a root in writing where
/// one was implied, and the body `more`.
spec fn is_continued(
    platform: Platform,
    t: Seq<char>,
    u: Seq<char>,
    more: Seq<(int, int)>,
) -> bool {
    &&& prefix_end(platform, u) == prefix_end(platform, t)
    &&& has_drive(platform, u) == has_drive(platform, t)
    &&& is_verbatim(platform, u) == is_verbatim(platform, t)
    &&& drive_dot_end(platform, u) == 0
    &&& has_root(platform, u) == (has_root(platform, t) || implies_root(platform, t))
    &&& !implies_root(platform, u)
    &&& leads_with_dot(platform, u) == leads_with_dot(platform, t)
    &&& takes_names(platform, u)
    &&& kept_spans(platform, t).len() == spans(platform, t).len()
    &&& spans(platform, u) == kept_spans(platform, t) + more
    &&& components(platform, u) == components(platform, t) + texts_at(u, more)
}

/// A path that is not verbatim is continued by text that adds to its body.
proof fn lemma_continued(
    platform: Platform,
    t: Seq<char>,
    u: Seq<char>,
    more: Seq<(int, int)>,
)
    requires
        takes_names(platform, t),
        !is_verbatim(platform, t),
        t.len() < u.len(),
        forall|j: int| 0 <= j < t.len() ==> #[trigger] u[j] == t[j],
        t.len() == 0 ==> !separates(platform, u[0]) && !has_drive(platform, u) && !(u[0] == '.' && (
        u.len() == 1 || separates(platform, u[1]))),
        is_bare_drive(platform, t) ==> !separates(platform, u[2]) && !(u[2] == '.' && (u.len() == 3
            || separates(platform, u[3]))),
        t.len() == 1 && separates(platform, t[0]) ==> !(platform is Windows && separates(
            platform,
            u[1],
        )),
        t.len() > 0 && !is_bare_drive(platform, t) ==> separates(platform, t.last()) || separates(
            platform,
            u[t.len() as int],
        ),
        ({
            let start = body_start(platform, t) + (if implies_root(platform, t) {
                1int
            } else {
                0int
            });
            body_spans(platform, false, u, start) == body(platform, t) + more
        }),
        forall|k: int| 0 <= k < more.len() ==> t.len() <= (#[trigger] more[k]).0 < more[k].1 <= u.len(),
    ensures
        is_continued(platform, t, u, more),
        forall|k: int|
            0 <= k < spans(platform, t).len() ==> (#[trigger] spans(platform, u)[k]).0 == spans(
                platform,
                t,
            )[k].0,
{
    let end = prefix_end(platform, t);
    lemma_prefix_end(platform, t);
    lemma_places(platform, t);
    if end > 0 {
        if !has_drive(platform, t) {
            assert(end == t.len() || has_root(platform, t));
            if end == t.len() {
                assert(!separates(platform, t.last())) by {
                    if is_device(platform, t) {
                        lemma_run_end(platform, false, t, 4);
                        assert(!divides(platform, false, t[end - 1]));
                    } else {
                        lemma_second_end(platform, false, t, 2);
                        let first = run_end(platform, false, t, 2);
                        lemma_run_end(platform, false, t, 2);
                        lemma_run_end(platform, false, t, first + 1);
                        assert(!divides(platform, false, t[end - 1]));
                    }
                }
            }
        }
        lemma_prefix_kept(platform, t, u);
    } else {
        if t.len() >= 2 {
            assert(u[0] == t[0] && u[1] == t[1]);
        } else if t.len() == 1 {
            assert(u[0] == t[0]);
        }
        assert(prefix_end(platform, u) == 0);
    }
    if end < t.len() {
        assert(u[end] == t[end]);
    }
    assert(has_root(platform, u) == (has_root(platform, t) || implies_root(platform, t)));
    if end == 0 && t.len() > 0 {
        assert(u[0] == t[0]);
        if t.len() >= 2 {
            assert(u[1] == t[1]);
        }
    }
    assert(leads_with_dot(platform, u) == leads_with_dot(platform, t));
    if has_drive(platform, t) && t.len() > 2 {
        assert(u[2] == t[2]);
        if t.len() > 3 {
            assert(u[3] == t[3]);
        }
    }
    assert(drive_dot_end(platform, u) == 0);
    let before = spans(platform, t);
    let after = spans(platform, u);
    assert(head_spans(platform, u).len() == head_spans(platform, t).len());
    assert(after =~= kept_spans(platform, t) + more);
    assert forall|k: int| 0 <= k < before.len() implies (#[trigger] after[k]).0 == before[k].0 by {}
    let left = components(platform, u);
    let right = components(platform, t) + texts_at(u, more);
    lemma_places(platform, u);
    assert forall|k: int| 0 <= k < left.len() implies #[trigger] left[k] == right[k] by {
        assert(left[k] == piece(platform, u, after[k]));
        if k < before.len() {
            assert(right[k] == piece(platform, t, before[k]));
            assert(after[k].0 == before[k].0);
            if k >= head_spans(platform, t).len() {
                assert(after[k] == before[k]);
                assert(u.subrange(before[k].0, before[k].1) =~= t.subrange(before[k].0, before[k].1));
            } else {
                assert(before[k] == head_spans(platform, t)[k]);
                assert(after[k] == head_spans(platform, u)[k]);
                if leads_with_dot(platform, t) {
                    assert(u.subrange(0, 1) =~= t.subrange(0, 1));
                }
            }
        } else {
            assert(after[k] == more[k - before.len()]);
            assert(right[k] == texts_at(u, more)[k - before.len()]);
        }
    }
    assert(left =~= right);
}

/// Joined names begin with the first of them.
proof fn lemma_joined_begins(names: Seq<Seq<char>>, c: char)
    requires
        names.len() > 0,
    ensures
        joined(names, seq![c]).len() >= names[0].len(),
        forall|j: int|
            0 <= j < names[0].len() ==> #[trigger] joined(names, seq![c])[j] == names[0][j],
        names.len() == 1 ==> joined(names, seq![c]) == names[0],
        names.len() > 1 ==> joined(names, seq![c]).len() > names[0].len() && joined(
            names,
            seq![c],
        )[names[0].len() as int] == c,
    decreases names.len(),
{
    if names.len() > 1 {
        lemma_joined_begins(names.drop_last(), c);
    }
}

/// Names joined with slashes are a relative path with these components.
proof fn lemma_relative(platform: Platform, names: Seq<Seq<char>>)
    requires
        names.len() > 0,
        forall|k: int| 0 <= k < names.len() ==> is_single_component(platform, #[trigger] names[k]),
    ensures
        ({
            let rel = joined(names, seq!['/']);
            &&& rel.len() > 0
            &&& !separates(platform, rel[0])
            &&& !has_drive(platform, rel)
            &&& !(rel[0] == '.' && (rel.len() == 1 || separates(platform, rel[1])))
            &&& prefix_end(platform, rel) == 0
            &&& !has_root(platform, rel)
            &&& texts_at(rel, spans(platform, rel)) == names
        }),
        are_runs(platform, false, names),
{
    let rel = joined(names, seq!['/']);
    let first = names[0];
    assert(is_single_component(platform, first));
    lemma_joined_begins(names, '/');
    assert(rel[0] == first[0]);
    if first.len() >= 2 {
        assert(rel[1] == first[1]);
    } else if first[0] == '.' {
        assert(first =~= seq!['.']);
    }
    assert(prefix_end(platform, rel) == 0);
    assert forall|k: int| #![trigger names[k]]
        0 <= k < names.len() implies names[k].len() > 0 && names[k] != seq!['.'] && forall|j: int|
        0 <= j < names[k].len() ==> !divides(platform, false, #[trigger] names[k][j]) by {
        assert(is_single_component(platform, names[k]));
    }
    let none = Seq::<char>::empty();
    assert(none + rel =~= rel);
    lemma_body_names(platform, false, none, 0, names, '/');
    lemma_name_places(names, none, '/');
    assert(spans(platform, rel) =~= name_places(names, 0));
}

/// Names are walked by going down.
proof fn lemma_walk_down(here: Seq<Seq<char>>, names: Seq<Seq<char>>)
    requires
        forall|k: int|
            0 <= k < names.len() ==> (#[trigger] names[k]) != seq!['.'] && names[k] != seq!['.', '.'],
    ensures
        walked(here, names) == here + names,
    decreases names.len(),
{
    if names.len() == 0 {
        assert(here + names =~= here);
    } else {
        let front = names.drop_last();
        assert forall|k: int| 0 <= k < front.len() implies (#[trigger] front[k]) != seq!['.']
            && front[k] != seq!['.', '.'] by {
            assert(front[k] == names[k]);
        }
        lemma_walk_down(here, front);
        assert(names.last() == names[names.len() - 1]);
        assert(here + names =~= (here + front).push(names.last()));
    }
}

/// What names are written behind others: nothing at the beginning, else the others and a separator.
spec fn names_before(names: Seq<Seq<char>>, c: char) -> Seq<char> {
    if names.len() == 0 {
        Seq::empty()
    } else {
        joined(names, seq![c]) + seq![c]
    }
}

/// Two lists of names are joined, and placed, one after the other.
proof fn lemma_joined_concat(a: Seq<Seq<char>>, b: Seq<Seq<char>>, c: char, start: int)
    requires
        b.len() > 0,
    ensures
        joined(a + b, seq![c]) == names_before(a, c) + joined(b, seq![c]),
        name_places(a + b, start) == name_places(a, start) + name_places(
            b,
            start + names_before(a, c).len(),
        ),
    decreases b.len(),
{
    let all = a + b;
    assert(all.drop_last() =~= a + b.drop_last());
    assert(all.last() == b.last());
    lemma_joined_len(a, c);
    if b.len() == 1 {
        assert(b.drop_last() =~= Seq::empty());
        assert(all.drop_last() =~= a);
        assert(joined(all, seq![c]) =~= names_before(a, c) + joined(b, seq![c]));
        reveal_with_fuel(name_places, 2);
        assert(name_places(all, start) =~= name_places(a, start) + name_places(
            b,
            start + names_before(a, c).len(),
        ));
    } else {
        let front = b.drop_last();
        lemma_joined_concat(a, front, c, start);
        lemma_joined_len(front, c);
        lemma_joined_len(a + front, c);
        assert(joined(all, seq![c]) =~= names_before(a, c) + joined(b, seq![c]));
        assert(name_places(all, start) =~= name_places(a, start) + name_places(
            b,
            start + names_before(a, c).len(),
        ));
    }
}

/// The text that names are written behind when they are joined to a base.
spec fn name_base(platform: Platform, base: Seq<char>) -> Seq<char> {
    if is_verbatim(platform, base) {
        base.subrange(0, prefix_end(platform, base)).push('\\') + names_before(
            texts_at(base, body(platform, base)),
            '\\',
        )
    } else {
        join_base(platform, base)
    }
}

/// The separator that is written between names when they are joined to a base.
spec fn name_separator(platform: Platform, base: Seq<char>) -> char {
    if is_verbatim(platform, base) {
        '\\'
    } else {
        '/'
    }
}

/// The names of a body are runs.
proof fn lemma_body_names_are_runs(platform: Platform, t: Seq<char>)
    ensures
        is_verbatim(platform, t) ==> are_runs(
            platform,
            true,
            texts_at(t, body(platform, t)),
        ),
{
    if is_verbatim(platform, t) {
        lemma_places(platform, t);
        lemma_body_places(platform, true, t, body_start(platform, t));
        let names = texts_at(t, body(platform, t));
        assert forall|k: int| #![trigger names[k]]
            0 <= k < names.len() implies names[k].len() > 0 && forall|j: int|
            0 <= j < names[k].len() ==> !divides(platform, true, #[trigger] names[k][j]) by {
            let span = body(platform, t)[k];
            assert(names[k] == t.subrange(span.0, span.1));
            assert forall|j: int| 0 <= j < names[k].len() implies !divides(
                platform,
                true,
                #[trigger] names[k][j],
            ) by {
                assert(names[k][j] == t[span.0 + j]);
            }
        }
    }
}

/// A rooted verbatim path that is written anew, with some names behind it, is continued by them.
proof fn lemma_rewritten(platform: Platform, base: Seq<char>, names: Seq<Seq<char>>)
    requires
        is_verbatim(platform, base),
        takes_names(platform, base),
        are_runs(platform, true, names),
        names.len() > 0,
    ensures
        is_continued(
            platform,
            base,
            name_base(platform, base) + joined(names, seq!['\\']),
            name_places(names, name_base(platform, base).len() as int),
        ),
{
    let end = prefix_end(platform, base);
    lemma_prefix_end(platform, base);
    lemma_places(platform, base);
    lemma_body_names_are_runs(platform, base);
    let inner = texts_at(base, body(platform, base));
    let w = base.subrange(0, end).push('\\');
    let list = inner + names;
    let more = name_places(names, name_base(platform, base).len() as int);
    let u = name_base(platform, base) + joined(names, seq!['\\']);
    lemma_joined_concat(inner, names, '\\', w.len() as int);
    assert(u =~= w + joined(list, seq!['\\']));
    assert(u[end] == '\\');
    lemma_prefix_kept(platform, base, u);
    assert(body_start(platform, u) == end + 1);
    assert forall|k: int| #![trigger list[k]]
        0 <= k < list.len() implies list[k].len() > 0 && forall|j: int|
        0 <= j < list[k].len() ==> !divides(platform, true, #[trigger] list[k][j]) by {
        if k < inner.len() {
            assert(list[k] == inner[k]);
        } else {
            assert(list[k] == names[k - inner.len()]);
        }
    }
    lemma_body_names(platform, true, w, end + 1, list, '\\');
    assert(body_spans(platform, true, w, end + 1) =~= Seq::empty());
    assert(body(platform, u) =~= name_places(inner, end + 1) + more);
    lemma_name_places(list, w, '\\');
    lemma_name_places(inner, w, '\\');
    lemma_name_places(names, name_base(platform, base), '\\');
    lemma_places(platform, u);
    let before = spans(platform, base);
    let after = spans(platform, u);
    assert(head_spans(platform, u) =~= head_spans(platform, base));
    let left = components(platform, u);
    let right = components(platform, base) + texts_at(u, more);
    let head = head_spans(platform, base).len() as int;
    assert forall|k: int| 0 <= k < left.len() implies #[trigger] left[k] == right[k] by {
        assert(left[k] == piece(platform, u, after[k]));
        if k < head {
            assert(after[k] == before[k]);
            assert(right[k] == piece(platform, base, before[k]));
        } else {
            assert(after[k] == name_places(list, end + 1)[k - head]);
            assert(left[k] == texts_at(u, name_places(list, end + 1))[k - head]);
            assert(left[k] == list[k - head]);
            if k < before.len() {
                assert(right[k] == piece(platform, base, before[k]));
                assert(inner[k - head] == base.subrange(before[k].0, before[k].1));
            } else {
                assert(texts_at(u, more)[k - before.len()] == names[k - before.len()]);
            }
        }
    }
    assert(left =~= right);
    assert(after =~= kept_spans(platform, base) + more);
}

/// Names joined to a base continue it.
proof fn lemma_join_names(platform: Platform, base: Seq<char>, names: Seq<Seq<char>>)
    requires
        takes_names(platform, base),
        names.len() > 0,
        forall|k: int| 0 <= k < names.len() ==> is_single_component(platform, #[trigger] names[k]),
    ensures
        ({
            let w = name_base(platform, base);
            let u = joined_path(platform, base, joined(names, seq!['/']));
            &&& u == w + joined(names, seq![name_separator(platform, base)])
            &&& is_continued(platform, base, u, name_places(names, w.len() as int))
            &&& !is_verbatim(platform, base) ==> forall|k: int|
                0 <= k < spans(platform, base).len() ==> (#[trigger] spans(platform, u)[k]).0
                    == spans(platform, base)[k].0
        }),
{
    let rel = joined(names, seq!['/']);
    let u = joined_path(platform, base, rel);
    let w = name_base(platform, base);
    lemma_relative(platform, names);
    if is_verbatim(platform, base) {
        assert forall|k: int| 0 <= k < names.len() implies (#[trigger] names[k]) != seq!['.']
            && names[k] != seq!['.', '.'] by {
            assert(is_single_component(platform, names[k]));
        }
        let inner = texts_at(base, body(platform, base));
        assert(spans(platform, rel).skip(0) =~= spans(platform, rel));
        lemma_walk_down(inner, names);
        lemma_joined_concat(inner, names, '\\', 0);
        lemma_prefix_end(platform, base);
        assert(u =~= w + joined(names, seq!['\\']));
        assert forall|k: int| #![trigger names[k]]
            0 <= k < names.len() implies names[k].len() > 0 && forall|j: int|
            0 <= j < names[k].len() ==> !divides(platform, true, #[trigger] names[k][j]) by {
            assert(is_single_component(platform, names[k]));
            assert forall|j: int| 0 <= j < names[k].len() implies !divides(
                platform,
                true,
                #[trigger] names[k][j],
            ) by {
                assert(!separates(platform, names[k][j]));
            }
        }
        lemma_rewritten(platform, base, names);
    } else {
        assert(u =~= w + rel);
        lemma_places(platform, base);
        lemma_prefix_end(platform, base);
        let start = body_start(platform, base) + (if implies_root(platform, base) {
            1int
        } else {
            0int
        });
        let more = name_places(names, w.len() as int);
        if w != base {
            assert(w =~= base.push(main_separator(platform)[0]));
            if implies_root(platform, base) {
                assert(body_spans(platform, false, w, start) =~= Seq::empty());
                assert(body(platform, base) =~= Seq::empty());
            } else {
                lemma_body_push(platform, false, base, main_separator(platform)[0], start);
            }
            assert(w.last() == main_separator(platform)[0]);
        } else if implies_root(platform, base) {
            assert(base.len() > 4 && prefix_end(platform, base) == base.len());
            assert(false) by {
                if is_device(platform, base) {
                    lemma_run_end(platform, false, base, 4);
                    assert(!divides(platform, false, base[base.len() - 1]));
                } else {
                    lemma_second_end(platform, false, base, 2);
                    let first = run_end(platform, false, base, 2);
                    lemma_run_end(platform, false, base, 2);
                    lemma_run_end(platform, false, base, first + 1);
                    assert(!divides(platform, false, base[base.len() - 1]));
                }
            }
        }
        lemma_body_names(platform, false, w, start, names, '/');
        lemma_name_places(names, w, '/');
        assert forall|k: int| 0 <= k < more.len() implies base.len() <= (#[trigger] more[k]).0
            < more[k].1 <= u.len() by {
            assert(texts_at(u, more)[k] == names[k]);
            assert(is_single_component(platform, names[k]));
            assert(u.subrange(more[k].0, more[k].1).len() == names[k].len());
        }
        assert(u[w.len() as int] == rel[0]);
        if rel.len() > 1 {
            assert(u[w.len() as int + 1] == rel[1]);
        }
        lemma_continued(platform, base, u, more);
    }
}

/// A separator put at the end of a path adds no component and leaves the file name.
pub proof fn law_trailing_separator_adds_nothing(platform: Platform, t: Seq<char>)
    requires
        takes_names(platform, t),
        t.len() > 0,
        !is_bare_drive(platform, t),
    ensures
        components(platform, t + main_separator(platform)) == components(platform, t),
        file_name_of(platform, t + main_separator(platform)) == file_name_of(platform, t),
{
    let c = main_separator(platform)[0];
    let longer = t + main_separator(platform);
    assert(longer =~= t.push(c));
    let none = Seq::<(int, int)>::empty();
    lemma_places(platform, t);
    lemma_prefix_end(platform, t);
    if is_verbatim(platform, t) {
        lemma_prefix_kept(platform, t, longer);
        lemma_body_push(platform, true, t, c, body_start(platform, t));
        lemma_places(platform, longer);
        assert(spans(platform, longer) =~= spans(platform, t));
        lemma_same_pieces(platform, t, longer);
    } else if t.len() == 1 && separates(platform, t[0]) {
        assert(run_end(platform, false, longer, 2) == 2);
        assert(prefix_end(platform, longer) == 0);
        lemma_body_push(platform, false, t, c, 1);
        assert(spans(platform, longer) =~= spans(platform, t));
        lemma_places(platform, longer);
        lemma_same_pieces(platform, t, longer);
    } else {
        let start = body_start(platform, t) + (if implies_root(platform, t) {
            1int
        } else {
            0int
        });
        if implies_root(platform, t) {
            assert(body_spans(platform, false, longer, start) =~= Seq::empty());
            assert(body(platform, t) =~= Seq::empty());
        } else {
            lemma_body_push(platform, false, t, c, start);
        }
        assert(body(platform, t) + none =~= body(platform, t));
        lemma_continued(platform, t, longer, none);
        assert(components(platform, t) + texts_at(longer, none) =~= components(platform, t));
    }
}

/// Equal places under equal heads are equal components.
proof fn lemma_same_pieces(platform: Platform, t: Seq<char>, u: Seq<char>)
    requires
        t.len() <= u.len(),
        forall|j: int| 0 <= j < t.len() ==> #[trigger] u[j] == t[j],
        spans(platform, u) == spans(platform, t),
        prefix_end(platform, u) == prefix_end(platform, t),
        has_root(platform, u) == has_root(platform, t),
        implies_root(platform, u) == implies_root(platform, t),
        prefix_end(platform, t) > 0 ==> prefix_name(platform, u) == prefix_name(platform, t),
    ensures
        components(platform, u) == components(platform, t),
{
    let places = spans(platform, t);
    lemma_places(platform, t);
    assert forall|k: int| 0 <= k < places.len() implies #[trigger] components(platform, u)[k]
        == components(platform, t)[k] by {
        let span = places[k];
        assert(u.subrange(span.0, span.1) =~= t.subrange(span.0, span.1));
    }
    assert(components(platform, u) =~= components(platform, t));
}

/// A file name that does not look like a drive, and holds no slash where the path is verbatim, is a
/// single component.
pub proof fn law_file_name_is_single_component(platform: Platform, t: Seq<char>)
    requires
        file_name_of(platform, t) matches Some(name) ==> !has_drive(platform, name) && (is_verbatim(
            platform,
            t,
        ) ==> !name.contains('/')),
    ensures
        file_name_of(platform, t) matches Some(name) ==> is_single_component(platform, name),
{
    lemma_places(platform, t);
    let places = spans(platform, t);
    if let Some(name) = file_name_of(platform, t) {
        let k = places.len() - 1;
        let span = places[k];
        assert(components(platform, t).last() == piece(platform, t, span));
        assert(name == t.subrange(span.0, span.1));
        if k < head_spans(platform, t).len() {
            assert(span == head_spans(platform, t)[k]);
            assert(leads_with_dot(platform, t));
            assert(name =~= seq!['.']);
        }
        assert forall|j: int| 0 <= j < name.len() implies !separates(platform, #[trigger] name[j]) by {
            assert(name[j] == t[span.0 + j]);
            if name[j] == '/' {
                assert(name.contains(name[j]));
            }
        }
    }
}

/// A single name as a list of names.
proof fn lemma_one_name(platform: Platform, base: Seq<char>, name: Seq<char>)
    requires
        takes_names(platform, base),
        is_single_component(platform, name),
    ensures
        ({
            let w = name_base(platform, base);
            let u = joined_path(platform, base, name);
            let more = seq![(w.len() as int, u.len() as int)];
            &&& u == w + name
            &&& is_continued(platform, base, u, more)
            &&& texts_at(u, more) == seq![name]
            &&& !is_verbatim(platform, base) ==> forall|k: int|
                0 <= k < spans(platform, base).len() ==> (#[trigger] spans(platform, u)[k]).0
                    == spans(platform, base)[k].0
        }),
{
    let names = seq![name];
    let w = name_base(platform, base);
    assert(joined(names, seq!['/']) == name);
    assert(joined(names, seq!['\\']) == name);
    lemma_join_names(platform, base, names);
    assert(names.drop_last() =~= Seq::empty());
    reveal_with_fuel(name_places, 2);
    let u = joined_path(platform, base, name);
    assert(name_places(names, w.len() as int) =~= seq![(w.len() as int, u.len() as int)]);
    lemma_name_places(names, w, '/');
}

/// Joining a single component adds exactly that component.
pub proof fn law_join_adds_component(platform: Platform, base: Seq<char>, name: Seq<char>)
    requires
        takes_names(platform, base),
        is_single_component(platform, name),
    ensures
        components(platform, joined_path(platform, base, name)) == components(platform, base).push(
            name,
        ),
        takes_names(platform, joined_path(platform, base, name)),
{
    lemma_one_name(platform, base, name);
    assert(components(platform, base) + seq![name] =~= components(platform, base).push(name));
}

/// The last place of a joined path is not in its head.
proof fn lemma_joined_last(platform: Platform, base: Seq<char>, name: Seq<char>)
    requires
        takes_names(platform, base),
        is_single_component(platform, name),
    ensures
        spans(platform, joined_path(platform, base, name)).len() == spans(platform, base).len() + 1,
        !ends_in_head(platform, joined_path(platform, base, name)),
{
    lemma_one_name(platform, base, name);
    let u = joined_path(platform, base, name);
    let w = name_base(platform, base);
    lemma_places(platform, base);
    lemma_prefix_end(platform, base);
    assert(spans(platform, u).last() == (w.len() as int, u.len() as int));
    assert(u[w.len() as int] == name[0]);
    assert(!separates(platform, name[0]));
}

/// The file name of a joined path is the name that was joined.
pub proof fn law_join_has_file_name(platform: Platform, base: Seq<char>, name: Seq<char>)
    requires
        takes_names(platform, base),
        is_single_component(platform, name),
    ensures
        file_name_of(platform, joined_path(platform, base, name)) == Some(name),
{
    law_join_adds_component(platform, base, name);
    lemma_joined_last(platform, base, name);
}

/// An item in a directory of the workspace is in the workspace.
pub proof fn law_join_stays_within(
    platform: Platform,
    root: Seq<char>,
    base: Seq<char>,
    name: Seq<char>,
)
    requires
        takes_names(platform, base),
        is_single_component(platform, name),
        is_within(platform, base, root),
    ensures
        is_within(platform, joined_path(platform, base, name), root),
        workspace_relative(platform, joined_path(platform, base, name), root) is Some,
{
    law_join_adds_component(platform, base, name);
    let longer = components(platform, base).push(name);
    let r = components(platform, root);
    assert(longer.subrange(0, r.len() as int) =~= components(platform, base).subrange(
        0,
        r.len() as int,
    ));
}

/// A path with nothing but a drive for a component is that drive.
proof fn lemma_bare_drive(platform: Platform, t: Seq<char>)
    requires
        takes_names(platform, t),
        prefix_end(platform, t) > 0,
        spans(platform, t).len() == 1,
    ensures
        is_bare_drive(platform, t),
{
    lemma_prefix_end(platform, t);
    lemma_places(platform, t);
    assert(has_drive(platform, t));
    assert(body(platform, t).len() == 0);
    if t.len() > 2 {
        lemma_run_end(platform, false, t, 2);
        let end = run_end(platform, false, t, 2);
        assert(end == 3 && t[2] == '.');
        assert(drive_dot_end(platform, t) == 3);
    }
}

/// What is left of a continued path below the path it continues.
proof fn lemma_below_continued(
    platform: Platform,
    t: Seq<char>,
    u: Seq<char>,
    more: Seq<(int, int)>,
)
    requires
        takes_names(platform, t),
        is_continued(platform, t, u, more),
        more.len() > 0,
        more.last().1 == u.len(),
        is_bare_drive(platform, t) ==> more[0].0 == 2,
        more[0].0 <= u.len(),
    ensures
        is_within(platform, u, t),
        below(platform, u, t) == Some(u.subrange(more[0].0, u.len() as int)),
{
    let x = components(platform, t);
    let y = components(platform, u);
    assert(y.subrange(0, x.len() as int) =~= x);
    let depth = spans(platform, t).len() as int;
    assert(spans(platform, u)[depth] == more[0]);
    assert(spans(platform, u).last() == more.last());
    if depth == 1 && prefix_end(platform, u) > 0 {
        lemma_bare_drive(platform, t);
    }
}

/// An item directly in the workspace root is known to the renderer by its name.
pub proof fn law_item_in_root(platform: Platform, root: Seq<char>, name: Seq<char>)
    requires
        takes_names(platform, root),
        is_single_component(platform, name),
    ensures
        workspace_relative(platform, joined_path(platform, root, name), root) == Some(
            replaced(name, '\\', seq!['/']),
        ),
{
    lemma_one_name(platform, root, name);
    let u = joined_path(platform, root, name);
    let w = name_base(platform, root);
    lemma_below_continued(platform, root, u, seq![(w.len() as int, u.len() as int)]);
    assert(u.subrange(w.len() as int, u.len() as int) =~= name);
}

/// An item in a directory below the root is known by the directory's relative form, a slash and the
/// name, where the directory is more than a drive, is not verbatim and is written without anything
/// behind its last component.
#[verifier::rlimit(60)]
#[verifier::spinoff_prover]
pub proof fn law_item_in_directory(
    platform: Platform,
    root: Seq<char>,
    base: Seq<char>,
    name: Seq<char>,
)
    requires
        takes_names(platform, base),
        !is_verbatim(platform, base),
        !is_bare_drive(platform, base),
        is_single_component(platform, name),
        is_within(platform, base, root),
        spans(platform, base).len() > spans(platform, root).len(),
        spans(platform, base).last().1 == base.len(),
        !separates(platform, base.last()),
    ensures
        workspace_relative(platform, joined_path(platform, base, name), root) == Some(
            workspace_relative(platform, base, root)->0 + seq!['/'] + replaced(
                name,
                '\\',
                seq!['/'],
            ),
        ),
{
    lemma_one_name(platform, base, name);
    lemma_places(platform, base);
    lemma_prefix_end(platform, base);
    law_join_stays_within(platform, root, base, name);
    let all = joined_path(platform, base, name);
    let depth = spans(platform, root).len() as int;
    assert(spans(platform, all)[depth].0 == spans(platform, base)[depth].0);
    let start = if depth == 1 && prefix_end(platform, base) > 0 {
        prefix_end(platform, base)
    } else {
        spans(platform, base)[depth].0
    };
    let rest = base.subrange(start, base.len() as int);
    assert(below(platform, base, root) == Some(rest));
    assert(spans(platform, all).last().1 == all.len());
    assert(below(platform, all, root) == Some(all.subrange(start, all.len() as int)));
    assert(all.subrange(start, all.len() as int) =~= rest + main_separator(platform) + name);
    lemma_replaced_concat(rest + main_separator(platform), name, '\\', seq!['/']);
    lemma_replaced_concat(rest, main_separator(platform), '\\', seq!['/']);
    lemma_replaced_separator(platform);
}

/// The system's own separator becomes a slash.
proof fn lemma_replaced_separator(platform: Platform)
    ensures
        replaced(main_separator(platform), '\\', seq!['/']) == seq!['/'],
        replaced(seq!['/'], '\\', seq!['/']) == seq!['/'],
        replaced(seq!['\\'], '\\', seq!['/']) == seq!['/'],
{
    reveal_with_fuel(replaced, 2);
    assert(main_separator(platform).drop_last() =~= Seq::empty());
    assert(seq!['/'].drop_last() =~= Seq::empty());
    assert(seq!['\\'].drop_last() =~= Seq::empty());
    assert(replaced(Seq::empty(), '\\', seq!['/']) =~= Seq::empty());
    assert(replaced(main_separator(platform), '\\', seq!['/']) =~= seq!['/']);
    assert(replaced(seq!['/'], '\\', seq!['/']) =~= seq!['/']);
    assert(replaced(seq!['\\'], '\\', seq!['/']) =~= seq!['/']);
}

/// The components of the beginning of a body, up to a place where one of them ends, come first among
/// those of the body, and the others begin behind that place.
proof fn lemma_body_of_beginning(
    platform: Platform,
    verbatim: bool,
    t: Seq<char>,
    i: int,
    end: int,
)
    requires
        0 <= i <= end <= t.len(),
        end == i || end == t.len() || divides(platform, verbatim, t[end]),
    ensures
        body_spans(platform, verbatim, t.take(end), i).is_prefix_of(
            body_spans(platform, verbatim, t, i),
        ),
        forall|k: int|
            #![trigger body_spans(platform, verbatim, t, i)[k]]
            body_spans(platform, verbatim, t.take(end), i).len() <= k < body_spans(
                platform,
                verbatim,
                t,
                i,
            ).len() ==> end <= body_spans(platform, verbatim, t, i)[k].0,
    decreases end - i,
{
    let front = t.take(end);
    let all = body_spans(platform, verbatim, t, i);
    let ours = body_spans(platform, verbatim, front, i);
    lemma_body_places(platform, verbatim, t, i);
    if i == end {
        assert(ours =~= Seq::empty());
        assert(all.subrange(0, 0) =~= ours);
    } else {
        assert(front[i] == t[i]);
        let next = if divides(platform, verbatim, t[i]) {
            i + 1
        } else {
            run_end(platform, verbatim, t, i)
        };
        lemma_run_end(platform, verbatim, t, i);
        if !divides(platform, verbatim, t[i]) {
            assert(next <= end);
            assert forall|j: int| i <= j < next implies !divides(
                platform,
                verbatim,
                #[trigger] front[j],
            ) by {
                assert(front[j] == t[j]);
            }
            if next < end {
                assert(front[next] == t[next]);
            }
            lemma_run_is(platform, verbatim, front, i, next);
        }
        lemma_body_of_beginning(platform, verbatim, t, next, end);
        let rest = body_spans(platform, verbatim, t, next);
        let our_rest = body_spans(platform, verbatim, front, next);
        let shift = all.len() - rest.len();
        assert(ours.len() == our_rest.len() + shift);
        assert forall|k: int| 0 <= k < ours.len() implies #[trigger] ours[k] == all[k] by {
            if k >= shift {
                assert(ours[k] == our_rest[k - shift]);
                assert(all[k] == rest[k - shift]);
                assert(rest.subrange(0, our_rest.len() as int)[k - shift] == rest[k - shift]);
            }
        }
        assert(all.subrange(0, ours.len() as int) =~= ours);
        assert forall|k: int| ours.len() <= k < all.len() implies end <= (#[trigger] all[k]).0 by {
            assert(all[k] == rest[k - shift]);
        }
    }
}

/// A parent has all components but the last.
#[verifier::rlimit(60)]
#[verifier::spinoff_prover]
pub proof fn law_parent_drops_last_component(platform: Platform, t: Seq<char>)
    ensures
        parent_of(platform, t) matches Some(dir) ==> components(platform, t).len() > 0 && components(
            platform,
            dir,
        ) == components(platform, t).drop_last(),
{
    let places = spans(platform, t);
    if let Some(dir) = parent_of(platform, t) {
        lemma_places(platform, t);
        lemma_prefix_end(platform, t);
        if places.len() == 1 {
            assert(spans(platform, dir) =~= Seq::empty());
            assert(components(platform, dir) =~= components(platform, t).drop_last());
        } else {
            let n = places.len() as int;
            let end = later(places[n - 2].1, drive_dot_end(platform, t));
            assert(dir =~= t.take(end));
            lemma_head_of_parent(platform, t, end);
            let verbatim = is_verbatim(platform, t);
            let start = body_start(platform, t);
            let head = head_spans(platform, t).len() as int;
            lemma_body_of_beginning(platform, verbatim, t, start, end);
            lemma_body_places(platform, verbatim, dir, start);
            lemma_places(platform, dir);
            let all = body(platform, t);
            let ours = body(platform, dir);
            let m = all.len() as int;
            assert(places[n - 1] == all[m - 1]);
            assert(ours.len() == m - 1) by {
                if ours.len() == m {
                    assert(all.subrange(0, m)[m - 1] == all[m - 1]);
                    assert(ours[m - 1] == all[m - 1]);
                    assert(ours[m - 1].1 <= dir.len());
                    assert(places[n - 2].1 <= places[n - 1].0);
                    assert(drive_dot_end(platform, t) <= places[n - 1].1);
                    lemma_behind_drive_dot(platform, t);
                } else if ours.len() < m - 1 {
                    assert(places[n - 2] == all[m - 2]);
                    assert(end <= all[m - 2].0);
                }
            }
            assert(spans(platform, dir) =~= places.drop_last()) by {
                assert forall|k: int| 0 <= k < n - 1 implies #[trigger] spans(platform, dir)[k]
                    == places[k] by {
                    if k >= head {
                        assert(spans(platform, dir)[k] == ours[k - head]);
                        assert(all.subrange(0, m - 1)[k - head] == all[k - head]);
                    } else {
                        assert(spans(platform, dir)[k] == head_spans(platform, dir)[k]);
                    }
                }
            }
            assert forall|k: int| 0 <= k < n - 1 implies #[trigger] components(platform, dir)[k]
                == components(platform, t)[k] by {
                assert(spans(platform, dir)[k] == places[k]);
                assert(places[k].1 <= end) by {
                    if k < n - 2 {
                        assert(places[k].1 <= places[n - 2].0);
                    }
                }
                assert(dir.subrange(places[k].0, places[k].1) =~= t.subrange(
                    places[k].0,
                    places[k].1,
                ));
            }
            assert(components(platform, dir) =~= components(platform, t).drop_last());
        }
    }
}

/// The body behind a drive and a lone `.` begins behind that `.`.
proof fn lemma_behind_drive_dot(platform: Platform, t: Seq<char>)
    ensures
        drive_dot_end(platform, t) > 0 ==> forall|k: int|
            0 <= k < body(platform, t).len() ==> 3 <= (#[trigger] body(platform, t)[k]).0,
{
    if drive_dot_end(platform, t) > 0 {
        assert(body_start(platform, t) == 2);
        lemma_run_is(platform, false, t, 2, 3);
        assert(body(platform, t) == body_spans(platform, false, t, 3));
        lemma_body_places(platform, false, t, 3);
    }
}

/// A parent has the head of the path.
proof fn lemma_head_of_parent(platform: Platform, t: Seq<char>, end: int)
    requires
        spans(platform, t).len() >= 2,
        !ends_in_head(platform, t),
        end == later(spans(platform, t)[spans(platform, t).len() - 2].1, drive_dot_end(platform, t)),
    ensures
        body_start(platform, t) <= end <= t.len(),
        end == body_start(platform, t) || end == t.len() || divides(
            platform,
            is_verbatim(platform, t),
            t[end],
        ),
        ({
            let dir = t.take(end);
            &&& prefix_end(platform, dir) == prefix_end(platform, t)
            &&& prefix_end(platform, t) > 0 ==> prefix_name(platform, dir) == prefix_name(platform, t)
            &&& is_verbatim(platform, dir) == is_verbatim(platform, t)
            &&& has_root(platform, dir) == has_root(platform, t)
            &&& implies_root(platform, dir) == implies_root(platform, t)
            &&& leads_with_dot(platform, dir) == leads_with_dot(platform, t)
        }),
        spans(platform, t).len() > head_spans(platform, t).len(),
{
    let places = spans(platform, t);
    let n = places.len() as int;
    let pe = prefix_end(platform, t);
    let head = head_spans(platform, t);
    let dir = t.take(end);
    lemma_places(platform, t);
    lemma_prefix_end(platform, t);
    assert(n > head.len()) by {
        if n == head.len() {
            assert(places[n - 1] == head[n - 1]);
        }
    }
    let before = places[n - 2];
    assert(places[n - 1].0 >= body_start(platform, t));
    assert(places[n - 1].0 < t.len());
    if n - 2 < head.len() {
        assert(before == head[n - 2]);
        assert(before.1 == body_start(platform, t));
    } else {
        assert(before.1 > body_start(platform, t));
        assert(before.1 <= places[n - 1].0);
    }
    assert(!implies_root(platform, t));
    if pe > 0 {
        if !has_drive(platform, t) {
            assert(has_root(platform, t));
            assert(dir[pe] == t[pe]);
            if is_open_share(platform, t) {
                lemma_second_end(platform, true, t, 8);
                lemma_run_end(platform, true, t, 8);
                if t.len() > pe + 1 {
                    lemma_run_end(platform, true, t, pe + 1);
                    assert(t[pe + 1] == '\\');
                    if dir.len() > pe + 1 {
                        assert(dir[pe + 1] == t[pe + 1]);
                    }
                }
            }
        }
        lemma_prefix_kept(platform, t, dir);
    } else {
        lemma_no_prefix_in_beginning(platform, t, end);
        assert(!is_verbatim(platform, t) && !is_verbatim(platform, dir)) by {
            lemma_prefix_end(platform, dir);
        }
    }
    if pe < end {
        assert(dir[pe] == t[pe]);
    }
    if pe == 0 && end > 0 {
        assert(dir[0] == t[0]);
        if end > 1 {
            assert(dir[1] == t[1]);
        }
        if end == 1 && t[0] == '.' && !leads_with_dot(platform, t) {
            assert(head.len() == 0);
            assert(places[n - 2].0 == 0);
            assert(divides(platform, false, t[1]));
        }
    }
}

/// The parent of an item that was put into a directory is that directory, as it is written, where
/// that holds of one item.
pub proof fn law_parent_undoes_join(
    platform: Platform,
    dir: Seq<char>,
    one: Seq<char>,
    other: Seq<char>,
)
    requires
        takes_names(platform, dir),
        is_single_component(platform, one),
        is_single_component(platform, other),
        parent_of(platform, joined_path(platform, dir, one)) == Some(dir),
    ensures
        parent_of(platform, joined_path(platform, dir, other)) == Some(dir),
{
    lemma_one_name(platform, dir, one);
    lemma_one_name(platform, dir, other);
    lemma_joined_last(platform, dir, one);
    lemma_joined_last(platform, dir, other);
    let u = joined_path(platform, dir, one);
    let v = joined_path(platform, dir, other);
    let n = spans(platform, u).len() as int;
    lemma_places(platform, u);
    if n > 1 {
        assert(spans(platform, u)[n - 2] == kept_spans(platform, dir)[n - 2]);
        assert(spans(platform, v)[n - 2] == kept_spans(platform, dir)[n - 2]);
        let end = kept_spans(platform, dir)[n - 2].1;
        assert(end <= spans(platform, u)[n - 1].0);
        assert(u.subrange(0, end) =~= v.subrange(0, end));
    }
}

/// Without backslashes in them, joined names are written with slashes once backslashes are replaced.
proof fn lemma_replaced_names(platform: Platform, names: Seq<Seq<char>>, c: char)
    requires
        c == '/' || c == '\\',
        forall|k: int| 0 <= k < names.len() ==> !(#[trigger] names[k]).contains('\\'),
    ensures
        replaced(joined(names, seq![c]), '\\', seq!['/']) == joined(names, seq!['/']),
    decreases names.len(),
{
    if names.len() == 0 {
        assert(joined(names, seq![c]) =~= Seq::empty());
    } else if names.len() == 1 {
        assert(!names[0].contains('\\'));
        lemma_nothing_replaced(names[0]);
    } else {
        let front = names.drop_last();
        assert forall|k: int| 0 <= k < front.len() implies !(#[trigger] front[k]).contains('\\') by {
            assert(front[k] == names[k]);
        }
        lemma_replaced_names(platform, front, c);
        assert(!names[names.len() - 1].contains('\\'));
        lemma_nothing_replaced(names.last());
        lemma_replaced_concat(joined(front, seq![c]) + seq![c], names.last(), '\\', seq!['/']);
        lemma_replaced_concat(joined(front, seq![c]), seq![c], '\\', seq!['/']);
        lemma_replaced_separator(platform);
    }
}

/// A text without backslashes stays as it is.
proof fn lemma_nothing_replaced(s: Seq<char>)
    requires
        !s.contains('\\'),
    ensures
        replaced(s, '\\', seq!['/']) == s,
    decreases s.len(),
{
    if s.len() > 0 {
        let front = s.drop_last();
        assert(!front.contains('\\')) by {
            if front.contains('\\') {
                let k = choose|k: int| 0 <= k < front.len() && front[k] == '\\';
                assert(s[k] == '\\');
            }
        }
        lemma_nothing_replaced(front);
        assert(s.contains(s.last())) by {
            assert(s[s.len() - 1] == s.last());
        }
        assert(replaced(s, '\\', seq!['/']) =~= s);
    } else {
        assert(s =~= Seq::empty());
    }
}

/// No relative form holds a backslash.
pub proof fn law_relative_forms_have_no_backslash(platform: Platform, t: Seq<char>, root: Seq<char>)
    ensures
        workspace_relative(platform, t, root) matches Some(rest) ==> !rest.contains('\\'),
{
    if let Some(rest) = below(platform, t, root) {
        lemma_all_replaced(rest);
    }
}

/// Where backslashes are replaced, none is left.
proof fn lemma_all_replaced(s: Seq<char>)
    ensures
        !replaced(s, '\\', seq!['/']).contains('\\'),
    decreases s.len(),
{
    if s.len() > 0 {
        lemma_all_replaced(s.drop_last());
        let front = replaced(s.drop_last(), '\\', seq!['/']);
        let all = replaced(s, '\\', seq!['/']);
        if all.contains('\\') {
            let k = choose|k: int| 0 <= k < all.len() && all[k] == '\\';
            if k < front.len() {
                assert(front[k] == '\\');
            }
        }
    }
}

/// The names behind the head of a path are its components behind the head.
proof fn lemma_body_components(platform: Platform, t: Seq<char>)
    ensures
        components(platform, t).skip(head_spans(platform, t).len() as int) == texts_at(
            t,
            body(platform, t),
        ),
{
    lemma_places(platform, t);
    let head = head_spans(platform, t).len() as int;
    let left = components(platform, t).skip(head);
    let right = texts_at(t, body(platform, t));
    assert forall|k: int| 0 <= k < left.len() implies #[trigger] left[k] == right[k] by {
        assert(left[k] == components(platform, t)[k + head]);
        assert(spans(platform, t)[k + head] == body(platform, t)[k]);
    }
    assert(left =~= right);
}

/// Names that are joined one list after the other are joined as one list, in a verbatim path.
#[verifier::rlimit(60)]
#[verifier::spinoff_prover]
proof fn lemma_verbatim_joins(
    platform: Platform,
    a: Seq<char>,
    bs: Seq<Seq<char>>,
    cs: Seq<Seq<char>>,
)
    requires
        takes_names(platform, a),
        is_verbatim(platform, a),
        bs.len() > 0,
        cs.len() > 0,
        forall|k: int| 0 <= k < bs.len() ==> is_single_component(platform, #[trigger] bs[k]),
        forall|k: int| 0 <= k < cs.len() ==> is_single_component(platform, #[trigger] cs[k]),
    ensures
        joined_path(
            platform,
            joined_path(platform, a, joined(bs, seq!['/'])),
            joined(cs, seq!['/']),
        ) == joined_path(platform, a, joined(bs + cs, seq!['/'])),
{
    let ab = joined_path(platform, a, joined(bs, seq!['/']));
    let all = bs + cs;
    assert forall|k: int| 0 <= k < all.len() implies is_single_component(
        platform,
        #[trigger] all[k],
    ) by {
        if k < bs.len() {
            assert(all[k] == bs[k]);
        } else {
            assert(all[k] == cs[k - bs.len()]);
        }
    }
    lemma_join_names(platform, a, bs);
    lemma_join_names(platform, ab, cs);
    lemma_join_names(platform, a, all);
    lemma_prefix_end(platform, a);
    lemma_places(platform, a);
    lemma_places(platform, ab);
    lemma_body_components(platform, a);
    lemma_body_components(platform, ab);
    let inner = texts_at(a, body(platform, a));
    let w = name_base(platform, a);
    lemma_name_places(bs, w, '\\');
    assert(texts_at(ab, body(platform, ab)) =~= inner + bs);
    lemma_joined_concat(inner, bs, '\\', 0);
    lemma_joined_concat(bs, cs, '\\', 0);
    let end = prefix_end(platform, a);
    assert(ab.subrange(0, end) =~= a.subrange(0, end));
    let p = name_base(platform, ab) + joined(cs, seq!['\\']);
    assert(p =~= w + joined(all, seq!['\\']));
}

/// Relative forms compose over directories of several components: an item that is `c` below `b`,
/// which is below `a`, is known as `c` below `a/b`, and as `b`, a slash and `c` below `a`.
#[verifier::rlimit(60)]
#[verifier::spinoff_prover]
pub proof fn law_relative_forms_compose(
    platform: Platform,
    a: Seq<char>,
    bs: Seq<Seq<char>>,
    cs: Seq<Seq<char>>,
)
    requires
        takes_names(platform, a),
        bs.len() > 0,
        cs.len() > 0,
        forall|k: int|
            0 <= k < bs.len() ==> is_single_component(platform, #[trigger] bs[k])
                && !bs[k].contains('\\'),
        forall|k: int|
            0 <= k < cs.len() ==> is_single_component(platform, #[trigger] cs[k])
                && !cs[k].contains('\\'),
    ensures
        ({
            let b = joined(bs, seq!['/']);
            let c = joined(cs, seq!['/']);
            let ab = joined_path(platform, a, b);
            let p = joined_path(platform, ab, c);
            &&& workspace_relative(platform, p, ab) == Some(c)
            &&& workspace_relative(platform, p, a) == Some(b + seq!['/'] + c)
        }),
{
    let b = joined(bs, seq!['/']);
    let c = joined(cs, seq!['/']);
    let ab = joined_path(platform, a, b);
    let p = joined_path(platform, ab, c);
    let w = name_base(platform, a);
    let v = name_base(platform, ab);
    let sep = name_separator(platform, a);
    lemma_join_names(platform, a, bs);
    lemma_join_names(platform, ab, cs);
    lemma_name_places(bs, w, sep);
    lemma_name_places(cs, v, sep);
    lemma_replaced_names(platform, bs, sep);
    lemma_replaced_names(platform, cs, sep);
    assert(!is_bare_drive(platform, ab)) by {
        lemma_relative(platform, bs);
        lemma_prefix_end(platform, a);
        lemma_joined_begins(bs, sep);
        assert(w.len() >= prefix_end(platform, a)) by {
            lemma_places(platform, a);
        }
        assert(is_single_component(platform, bs[0]));
    }
    lemma_below_continued(platform, ab, p, name_places(cs, v.len() as int));
    assert(p.subrange(v.len() as int, p.len() as int) =~= joined(cs, seq![sep]));
    if is_verbatim(platform, a) {
        let all = bs + cs;
        lemma_verbatim_joins(platform, a, bs, cs);
        assert forall|k: int| 0 <= k < all.len() implies is_single_component(
            platform,
            #[trigger] all[k],
        ) && !all[k].contains('\\') by {
            if k < bs.len() {
                assert(all[k] == bs[k]);
            } else {
                assert(all[k] == cs[k - bs.len()]);
            }
        }
        lemma_join_names(platform, a, all);
        lemma_name_places(all, w, '\\');
        lemma_below_continued(platform, a, p, name_places(all, w.len() as int));
        assert(p.subrange(w.len() as int, p.len() as int) =~= joined(all, seq!['\\']));
        lemma_replaced_names(platform, all, '\\');
        lemma_joined_concat(bs, cs, '/', 0);
    } else {
        lemma_last_is_no_separator(platform, bs, w);
        assert(v =~= ab + main_separator(platform));
        let depth = spans(platform, a).len() as int;
        let places = spans(platform, p);
        assert(spans(platform, ab)[depth] == name_places(bs, w.len() as int)[0]);
        assert(places[depth].0 == spans(platform, ab)[depth].0);
        assert(places.last() == name_places(cs, v.len() as int).last());
        let x = components(platform, a);
        assert(components(platform, p).subrange(0, x.len() as int) =~= x);
        if depth == 1 && prefix_end(platform, a) > 0 {
            lemma_bare_drive(platform, a);
        }
        assert(below(platform, p, a) == Some(p.subrange(w.len() as int, p.len() as int)));
        assert(p.subrange(w.len() as int, p.len() as int) =~= b + main_separator(platform) + c);
        lemma_replaced_concat(b + main_separator(platform), c, '\\', seq!['/']);
        lemma_replaced_concat(b, main_separator(platform), '\\', seq!['/']);
        lemma_replaced_separator(platform);
        assert(b + seq!['/'] + c =~= replaced(b + main_separator(platform) + c, '\\', seq!['/']));
    }
}

/// Joined names do not end with a separator.
proof fn lemma_last_is_no_separator(platform: Platform, names: Seq<Seq<char>>, w: Seq<char>)
    requires
        names.len() > 0,
        forall|k: int| 0 <= k < names.len() ==> is_single_component(platform, #[trigger] names[k]),
    ensures
        (w + joined(names, seq!['/'])).len() > 0,
        !separates(platform, (w + joined(names, seq!['/'])).last()),
{
    let last = names[names.len() - 1];
    assert(is_single_component(platform, last));
    let all = w + joined(names, seq!['/']);
    assert(all.last() == last[last.len() - 1]);
    assert(!separates(platform, last[last.len() - 1]));
}

/// The extension of a path is what follows the last dot of its file name, however many dots stand
/// before that one.
pub proof fn law_extension_follows_the_last_dot(
    platform: Platform,
    t: Seq<char>,
    stem: Seq<char>,
    ext: Seq<char>,
)
    requires
        file_name_of(platform, t) == Some(stem + seq!['.'] + ext),
        stem.len() > 0,
        !ext.contains('.'),
    ensures
        extension_of(platform, t) == Some(ext),
{
    let name = stem + seq!['.'] + ext;
    let i = stem.len() as int;
    assert(name[i] == '.');
    assert forall|j: int| i < j < name.len() implies name[j] != '.' by {
        assert(name[j] == ext[j - i - 1]);
        assert(ext.contains(ext[j - i - 1]));
    }
    lemma_last_at(name, '.', i);
    assert(name.subrange(i + 1, name.len() as int) =~= ext);
}

/// A file name without a dot behind its first character has no extension.
pub proof fn law_no_dot_no_extension(platform: Platform, t: Seq<char>)
    requires
        file_name_of(platform, t) matches Some(name) ==> forall|j: int|
            0 < j < name.len() ==> name[j] != '.',
    ensures
        extension_of(platform, t) is None,
{
    if let Some(name) = file_name_of(platform, t) {
        if name.contains('.') {
            let k = choose|k: int| 0 <= k < name.len() && name[k] == '.';
            assert(is_last_position(name, '.', 0));
            lemma_last_at(name, '.', 0);
        }
    }
}

/// A name that is a single component is its own file name.
pub proof fn law_name_is_its_file_name(platform: Platform, name: Seq<char>)
    requires
        is_single_component(platform, name),
    ensures
        file_name_of(platform, name) == Some(name),
        components(platform, name) == seq![name],
{
    let none = Seq::<char>::empty();
    law_join_has_file_name(platform, none, name);
    law_join_adds_component(platform, none, name);
    lemma_relative(platform, seq![name]);
    assert(joined(seq![name], seq!['/']) == name);
    assert(joined_path(platform, none, name) =~= name);
    assert(components(platform, none) =~= Seq::empty());
    assert(components(platform, name) =~= seq![name]);
}

/// A stem that is not empty, a dot and an extension are the file name of a path that is written so,
/// and the extension is found.
pub proof fn law_stem_and_extension(platform: Platform, stem: Seq<char>, ext: Seq<char>)
    requires
        stem.len() > 0,
        forall|i: int| 0 <= i < stem.len() ==> !separates(platform, #[trigger] stem[i]),
        forall|i: int| 0 <= i < ext.len() ==> !separates(platform, #[trigger] ext[i]),
        !ext.contains('.'),
        !has_drive(platform, stem + seq!['.'] + ext),
        !(stem == seq!['.'] && ext.len() == 0),
    ensures
        is_single_component(platform, stem + seq!['.'] + ext),
        file_name_of(platform, stem + seq!['.'] + ext) == Some(stem + seq!['.'] + ext),
        extension_of(platform, stem + seq!['.'] + ext) == Some(ext),
{
    let name = stem + seq!['.'] + ext;
    assert forall|j: int| 0 <= j < name.len() implies !separates(platform, #[trigger] name[j]) by {
        if j < stem.len() {
            assert(name[j] == stem[j]);
        } else if j > stem.len() {
            assert(name[j] == ext[j - stem.len() - 1]);
        }
    }
    if name == seq!['.', '.'] {
        assert(stem.len() == 1 || stem.len() == 2);
        if stem.len() == 1 {
            assert(name[0] == stem[0]);
            assert(stem =~= seq!['.']);
        }
    }
    law_name_is_its_file_name(platform, name);
    law_extension_follows_the_last_dot(platform, name, stem, ext);
}

/// The directory below a root that some names lead to, one after the other.
pub open spec fn directory_below(platform: Platform, root: Seq<char>, dirs: Seq<Seq<char>>) -> Seq<
    char,
> {
    if dirs.len() == 0 {
        root
    } else {
        joined_path(platform, root, joined(dirs, seq!['/']))
    }
}

/// The names are single components without a backslash, as they are where slashes stand between them.
pub open spec fn are_plain_names(platform: Platform, names: Seq<Seq<char>>) -> bool {
    forall|k: int|
        0 <= k < names.len() ==> is_single_component(platform, #[trigger] names[k])
            && !names[k].contains('\\')
}

/// A directory below a root has the components of the root and the names that lead to it.
pub proof fn law_directory_below_root(platform: Platform, root: Seq<char>, dirs: Seq<Seq<char>>)
    requires
        takes_names(platform, root),
        are_plain_names(platform, dirs),
    ensures
        takes_names(platform, directory_below(platform, root, dirs)),
        components(platform, directory_below(platform, root, dirs)) == components(platform, root)
            + dirs,
        is_within(platform, directory_below(platform, root, dirs), root),
{
    let c = components(platform, root);
    assert((c + dirs).subrange(0, c.len() as int) =~= c);
    if dirs.len() == 0 {
        assert(c + dirs =~= c);
    } else {
        lemma_join_names(platform, root, dirs);
        lemma_name_places(dirs, name_base(platform, root), name_separator(platform, root));
    }
}

/// An item below a root is known relative to it by the names that lead to it, with slashes between
/// them.
pub proof fn law_item_below_root(
    platform: Platform,
    root: Seq<char>,
    dirs: Seq<Seq<char>>,
    name: Seq<char>,
)
    requires
        takes_names(platform, root),
        are_plain_names(platform, dirs.push(name)),
    ensures
        ({
            let item = joined_path(platform, directory_below(platform, root, dirs), name);
            &&& workspace_relative(platform, item, root) == Some(
                joined(dirs.push(name), seq!['/']),
            )
            &&& components(platform, item) == components(platform, root) + dirs.push(name)
            &&& file_name_of(platform, item) == Some(name)
        }),
{
    let names = dirs.push(name);
    assert(names[dirs.len() as int] == name);
    assert forall|k: int| 0 <= k < dirs.len() implies is_single_component(
        platform,
        #[trigger] dirs[k],
    ) && !dirs[k].contains('\\') by {
        assert(names[k] == dirs[k]);
    }
    law_directory_below_root(platform, root, dirs);
    let dir = directory_below(platform, root, dirs);
    law_join_adds_component(platform, dir, name);
    law_join_has_file_name(platform, dir, name);
    assert((components(platform, root) + dirs).push(name) =~= components(platform, root) + names);
    assert(names.drop_last() =~= dirs);
    if dirs.len() == 0 {
        law_item_in_root(platform, root, name);
        lemma_nothing_replaced(name);
        assert(joined(names, seq!['/']) == name);
    } else {
        assert(joined(seq![name], seq!['/']) == name);
        law_relative_forms_compose(platform, root, dirs, seq![name]);
    }
}

/// A parent is the beginning of the path, and there is one exactly where the path has components and
/// the last is no prefix and no root.
pub proof fn law_parent_is_a_beginning(platform: Platform, t: Seq<char>)
    ensures
        parent_of(platform, t) is Some <==> components(platform, t).len() > 0 && !ends_in_head(
            platform,
            t,
        ),
        parent_of(platform, t) matches Some(dir) ==> dir.is_prefix_of(t) && dir.len() < t.len(),
        file_name_of(platform, t) is Some ==> parent_of(platform, t) is Some,
{
    lemma_places(platform, t);
    lemma_prefix_end(platform, t);
    let places = spans(platform, t);
    assert(components(platform, t).len() == places.len());
    if let Some(dir) = parent_of(platform, t) {
        let n = places.len() as int;
        assert(places[n - 1].0 < places[n - 1].1 <= t.len());
        assert(dir.len() <= places[n - 1].0 < t.len()) by {
            if n > 1 {
                assert(places[n - 2].1 <= places[n - 1].0);
                if drive_dot_end(platform, t) > 0 {
                    lemma_behind_drive_dot(platform, t);
                }
            }
        }
        assert(t.subrange(0, dir.len() as int) =~= dir);
    }
}

/// A path has a form relative to a root exactly when the root's components come first in it.
pub proof fn law_relative_form_only_below_the_root(
    platform: Platform,
    t: Seq<char>,
    root: Seq<char>,
)
    ensures
        workspace_relative(platform, t, root) is Some <==> components(
            platform,
            root,
        ).is_prefix_of(components(platform, t)),
        components(platform, t) == components(platform, root) && prefix_end(platform, t) == 0
            ==> workspace_relative(platform, t, root) == Some(Seq::<char>::empty()),
{
    let c = components(platform, t);
    assert(c.subrange(0, c.len() as int) =~= c);
    assert(c.len() == spans(platform, t).len());
    assert(components(platform, root).len() == spans(platform, root).len());
    assert(replaced(Seq::<char>::empty(), '\\', seq!['/']) =~= Seq::empty());
}

/// A name is put behind a path that is not verbatim as it is: with the system's separator between
/// them, or none where the path is empty, ends with a separator or is a drive alone.
pub proof fn law_join_puts_the_name_behind(platform: Platform, base: Seq<char>, name: Seq<char>)
    requires
        is_single_component(platform, name),
        !is_verbatim(platform, base),
    ensures
        joined_path(platform, base, name) == (if base.len() == 0 || separates(platform, base.last())
            || is_bare_drive(platform, base) {
            base + name
        } else if platform is Windows {
            base + seq!['\\'] + name
        } else {
            base + seq!['/'] + name
        }),
{
    assert(prefix_end(platform, name) == 0) by {
        assert(!separates(platform, name[0]));
    }
    assert(!has_root(platform, name));
}

/// The parent of a path without prefix is written without a separator behind its last component,
/// unless it is the root.
pub proof fn law_parent_ends_with_its_last_component(platform: Platform, t: Seq<char>)
    requires
        prefix_end(platform, t) == 0,
    ensures
        parent_of(platform, t) matches Some(dir) ==> dir.len() > 1 ==> !separates(
            platform,
            dir.last(),
        ),
{
    lemma_places(platform, t);
    lemma_prefix_end(platform, t);
    let places = spans(platform, t);
    if let Some(dir) = parent_of(platform, t) {
        if dir.len() > 1 {
            let k = places.len() - 2;
            let end = places[k].1;
            assert(drive_dot_end(platform, t) == 0);
            assert(dir.last() == t[end - 1]);
            if k < head_spans(platform, t).len() {
                assert(places[k] == head_spans(platform, t)[k]);
            }
            assert(!separates(platform, t[end - 1]));
        }
    }
}

/// A separator and a dot at the end of a text add no component to its body.
proof fn lemma_body_dot(platform: Platform, t: Seq<char>, c: char, i: int)
    requires
        0 <= i <= t.len(),
        separates(platform, c),
    ensures
        body_spans(platform, false, t.push(c).push('.'), i) == body_spans(platform, false, t, i),
    decreases t.len() - i,
{
    let longer = t.push(c).push('.');
    if i == t.len() {
        assert(longer[i] == c && longer[i + 1] == '.');
        lemma_run_is(platform, false, longer, i + 1, i + 2);
        assert(body_spans(platform, false, longer, i + 2) =~= Seq::empty());
        assert(body_spans(platform, false, longer, i + 1) =~= Seq::empty());
    } else {
        assert(longer[i] == t[i]);
        if separates(platform, t[i]) {
            lemma_body_dot(platform, t, c, i + 1);
        } else {
            let end = run_end(platform, false, t, i);
            lemma_run_end(platform, false, t, i);
            assert forall|j: int| i <= j < end implies !divides(
                platform,
                false,
                #[trigger] longer[j],
            ) by {
                assert(longer[j] == t[j]);
            }
            assert(divides(platform, false, longer[end]));
            lemma_run_is(platform, false, longer, i, end);
            lemma_body_dot(platform, t, c, end);
        }
    }
}

/// A dot put behind a path that is not verbatim adds no component and leaves the file name; two dots
/// add a component, which is no file name.
#[verifier::rlimit(60)]
#[verifier::spinoff_prover]
pub proof fn law_dots_behind_a_path(platform: Platform, t: Seq<char>)
    requires
        takes_names(platform, t),
        !is_verbatim(platform, t),
        t.len() > 1 || (t.len() == 1 && !separates(platform, t[0])),
        !is_bare_drive(platform, t),
    ensures
        ({
            let dot = t + main_separator(platform) + seq!['.'];
            let dots = t + main_separator(platform) + seq!['.', '.'];
            &&& components(platform, dot) == components(platform, t)
            &&& file_name_of(platform, dot) == file_name_of(platform, t)
            &&& components(platform, dots) == components(platform, t).push(seq!['.', '.'])
            &&& file_name_of(platform, dots) is None
        }),
{
    let c = main_separator(platform)[0];
    let dot = t + main_separator(platform) + seq!['.'];
    let dots = t + main_separator(platform) + seq!['.', '.'];
    assert(dot =~= t.push(c).push('.'));
    assert(dots =~= t.push(c) + seq!['.', '.']);
    let none = Seq::<(int, int)>::empty();
    let n = t.len() as int;
    let more = seq![(n + 1, n + 3)];
    lemma_places(platform, t);
    lemma_prefix_end(platform, t);
    let start = body_start(platform, t) + (if implies_root(platform, t) {
        1int
    } else {
        0int
    });
    if implies_root(platform, t) {
        assert(start == n + 1);
        assert(body(platform, t) =~= Seq::empty());
        lemma_run_is(platform, false, dot, n + 1, n + 2);
        assert(body_spans(platform, false, dot, n + 2) =~= Seq::empty());
        assert(body_spans(platform, false, dot, start) =~= Seq::empty());
        assert(body_spans(platform, false, t.push(c), start) =~= Seq::empty());
    } else {
        lemma_body_dot(platform, t, c, start);
        lemma_body_push(platform, false, t, c, start);
    }
    lemma_body_append(platform, false, t.push(c), seq!['.', '.'], start);
    assert(body(platform, t) + none =~= body(platform, t));
    assert(body_spans(platform, false, dots, start) =~= body(platform, t) + more);
    lemma_continued(platform, t, dot, none);
    lemma_continued(platform, t, dots, more);
    assert(components(platform, t) + texts_at(dot, none) =~= components(platform, t));
    assert(texts_at(dots, more) =~= seq![seq!['.', '.']]) by {
        assert(dots.subrange(n + 1, n + 3) =~= seq!['.', '.']);
    }
    assert(components(platform, t) + seq![seq!['.', '.']] =~= components(platform, t).push(
        seq!['.', '.'],
    ));
}

/// A path lies within another exactly when it has at least as many components and the first of them
/// are those of the other, each the same text.
pub proof fn law_within_is_by_components(platform: Platform, t: Seq<char>, base: Seq<char>)
    ensures
        is_within(platform, t, base) <==> {
            let outer = components(platform, base);
            let inner = components(platform, t);
            &&& outer.len() <= inner.len()
            &&& forall|i: int| 0 <= i < outer.len() ==> #[trigger] inner[i] == outer[i]
        },
{
    let outer = components(platform, base);
    let inner = components(platform, t);
    if outer.len() <= inner.len() && forall|i: int|
        0 <= i < outer.len() ==> #[trigger] inner[i] == outer[i] {
        assert(inner.subrange(0, outer.len() as int) =~= outer);
    }
    if is_within(platform, t, base) {
        assert forall|i: int| 0 <= i < outer.len() implies #[trigger] inner[i] == outer[i] by {
            assert(inner.subrange(0, outer.len() as int)[i] == inner[i]);
        }
    }
}

} // verus!
