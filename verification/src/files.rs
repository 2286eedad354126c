//! What renaming does to the files of a disk.
//!
//! Files are known by the components of their paths; a file lies below a path whose components its
//! own begin with.

use vstd::prelude::*;

verus! {

/// Nothing is at or below a path.
pub open spec fn is_free<F>(files: Map<Seq<Seq<char>>, F>, path: Seq<Seq<char>>) -> bool {
    forall|p: Seq<Seq<char>>| #[trigger] files.contains_key(p) ==> !path.is_prefix_of(p)
}

/// The names in a directory: those that something is at or below.
pub open spec fn names_in<F>(files: Map<Seq<Seq<char>>, F>, dir: Seq<Seq<char>>) -> Set<Seq<char>> {
    Set::new(|name: Seq<char>| !is_free(files, dir.push(name)))
}

/// What renaming does to files, known by the components of their paths: whatever is at or below one
/// path is then at or below the other.
pub open spec fn files_renamed<F>(
    files: Map<Seq<Seq<char>>, F>,
    from: Seq<Seq<char>>,
    to: Seq<Seq<char>>,
) -> Map<Seq<Seq<char>>, F> {
    Map::new(
        |p: Seq<Seq<char>>|
            if to.is_prefix_of(p) {
                files.contains_key(from + p.skip(to.len() as int))
            } else {
                files.contains_key(p) && !from.is_prefix_of(p)
            },
        |p: Seq<Seq<char>>|
            if to.is_prefix_of(p) {
                files[from + p.skip(to.len() as int)]
            } else {
                files[p]
            },
    )
}

/// Renaming into a free place and back leaves the files as they were, contents and subtrees
/// included.
pub proof fn law_renaming_back_restores<F>(
    files: Map<Seq<Seq<char>>, F>,
    from: Seq<Seq<char>>,
    to: Seq<Seq<char>>,
)
    requires
        from.len() == to.len(),
        is_free(files, to),
    ensures
        files_renamed(files_renamed(files, from, to), to, from) == files,
{
    let there = files_renamed(files, from, to);
    let back = files_renamed(there, to, from);
    let n = from.len() as int;
    assert forall|p: Seq<Seq<char>>| #[trigger] back.contains_key(p) == files.contains_key(p) by {
        if from.is_prefix_of(p) {
            let q = to + p.skip(n);
            assert(q.subrange(0, n) =~= to);
            assert(q.skip(n) =~= p.skip(n));
            assert(from + q.skip(n) =~= p);
        }
    }
    assert forall|p: Seq<Seq<char>>| #[trigger] back.contains_key(p) implies back[p] == files[p] by {
        if from.is_prefix_of(p) {
            let q = to + p.skip(n);
            assert(q.subrange(0, n) =~= to);
            assert(q.skip(n) =~= p.skip(n));
            assert(from + q.skip(n) =~= p);
        }
    }
    assert(back =~= files);
}

/// Where a file is after renaming: one at or below the old path is at or below the new one, any
/// other is where it was.
pub open spec fn place_after(
    p: Seq<Seq<char>>,
    from: Seq<Seq<char>>,
    to: Seq<Seq<char>>,
) -> Seq<Seq<char>> {
    if from.is_prefix_of(p) {
        to + p.skip(from.len() as int)
    } else {
        p
    }
}

/// A file that is at `q` after renaming was there before, at its old place.
pub open spec fn came_from<F>(
    before: Map<Seq<Seq<char>>, F>,
    from: Seq<Seq<char>>,
    to: Seq<Seq<char>>,
    q: Seq<Seq<char>>,
) -> bool {
    exists|p: Seq<Seq<char>>| #[trigger]
        before.contains_key(p) && place_after(p, from, to) == q
}

/// Every file is kept with its contents at its new place, no file has come from nowhere, and no two
/// have come to the same place.
pub open spec fn keeps_every_file<F>(
    before: Map<Seq<Seq<char>>, F>,
    after: Map<Seq<Seq<char>>, F>,
    from: Seq<Seq<char>>,
    to: Seq<Seq<char>>,
) -> bool {
    &&& forall|p: Seq<Seq<char>>| #[trigger]
        before.contains_key(p) ==> after.contains_key(place_after(p, from, to)) && after[place_after(
            p,
            from,
            to,
        )] == before[p]
    &&& forall|q: Seq<Seq<char>>| #[trigger]
        after.contains_key(q) ==> came_from(before, from, to, q)
    &&& forall|p: Seq<Seq<char>>, q: Seq<Seq<char>>| #[trigger]
        before.contains_key(p) && #[trigger] before.contains_key(q) && place_after(p, from, to)
            == place_after(q, from, to) ==> p == q
}

/// A file that is kept is found at its place.
proof fn lemma_file_is_kept<F>(
    files: Map<Seq<Seq<char>>, F>,
    from: Seq<Seq<char>>,
    to: Seq<Seq<char>>,
    p: Seq<Seq<char>>,
)
    requires
        is_free(files, to),
        files.contains_key(p),
    ensures
        files_renamed(files, from, to).contains_key(place_after(p, from, to)),
        files_renamed(files, from, to)[place_after(p, from, to)] == files[p],
{
    if from.is_prefix_of(p) {
        let q = to + p.skip(from.len() as int);
        assert(q.subrange(0, to.len() as int) =~= to);
        assert(q.skip(to.len() as int) =~= p.skip(from.len() as int));
        assert(from + q.skip(to.len() as int) =~= p);
    }
}

/// A file that is found was there before.
proof fn lemma_file_was_there<F>(
    files: Map<Seq<Seq<char>>, F>,
    from: Seq<Seq<char>>,
    to: Seq<Seq<char>>,
    q: Seq<Seq<char>>,
) -> (p: Seq<Seq<char>>)
    requires
        files_renamed(files, from, to).contains_key(q),
    ensures
        files.contains_key(p),
        place_after(p, from, to) == q,
{
    if to.is_prefix_of(q) {
        let p = from + q.skip(to.len() as int);
        assert(p.subrange(0, from.len() as int) =~= from);
        assert(p.skip(from.len() as int) =~= q.skip(to.len() as int));
        assert(to + p.skip(from.len() as int) =~= q);
        p
    } else {
        q
    }
}

/// Different files stay apart.
proof fn lemma_files_stay_apart<F>(
    files: Map<Seq<Seq<char>>, F>,
    from: Seq<Seq<char>>,
    to: Seq<Seq<char>>,
    p: Seq<Seq<char>>,
    q: Seq<Seq<char>>,
)
    requires
        is_free(files, to),
        files.contains_key(p),
        files.contains_key(q),
        place_after(p, from, to) == place_after(q, from, to),
    ensures
        p == q,
{
    let n = from.len() as int;
    let m = to.len() as int;
    let at = place_after(p, from, to);
    if from.is_prefix_of(p) {
        assert(at.subrange(0, m) =~= to);
        assert(at.skip(m) =~= p.skip(n));
        assert(p =~= from + p.skip(n));
    }
    if from.is_prefix_of(q) {
        assert(at.subrange(0, m) =~= to);
        assert(at.skip(m) =~= q.skip(n));
        assert(q =~= from + q.skip(n));
    }
}

/// Renaming into a free place keeps every file and replaces none.
pub proof fn law_renaming_keeps_every_file<F>(
    files: Map<Seq<Seq<char>>, F>,
    from: Seq<Seq<char>>,
    to: Seq<Seq<char>>,
)
    requires
        is_free(files, to),
    ensures
        keeps_every_file(files, files_renamed(files, from, to), from, to),
{
    let after = files_renamed(files, from, to);
    assert forall|p: Seq<Seq<char>>| #[trigger] files.contains_key(p) implies after.contains_key(
        place_after(p, from, to),
    ) && after[place_after(p, from, to)] == files[p] by {
        lemma_file_is_kept(files, from, to, p);
    }
    assert forall|q: Seq<Seq<char>>| #[trigger] after.contains_key(q) implies came_from(
        files,
        from,
        to,
        q,
    ) by {
        let p = lemma_file_was_there(files, from, to, q);
        assert(files.contains_key(p) && place_after(p, from, to) == q);
    }
    assert forall|p: Seq<Seq<char>>, q: Seq<Seq<char>>| #[trigger]
        files.contains_key(p) && #[trigger] files.contains_key(q) && place_after(p, from, to)
            == place_after(q, from, to) implies p == q by {
        lemma_files_stay_apart(files, from, to, p, q);
    }
}

} // verus!
