//! Text as sequences of characters: trimming, comparing, replacing, searching and joining.

use vstd::prelude::*;

verus! {

/// `String::push` appends one character at the end of the string and changes nothing else.
pub assume_specification[ String::push ](s: &mut String, c: char)
    ensures
        final(s)@ == old(s)@.push(c),
;

/// The characters with the Unicode property `White_Space`.
pub open spec fn is_white_space(c: char) -> bool {
    ||| '\u{9}' <= c <= '\u{d}'
    ||| c == '\u{20}'
    ||| c == '\u{85}'
    ||| c == '\u{a0}'
    ||| c == '\u{1680}'
    ||| '\u{2000}' <= c <= '\u{200a}'
    ||| c == '\u{2028}'
    ||| c == '\u{2029}'
    ||| c == '\u{202f}'
    ||| c == '\u{205f}'
    ||| c == '\u{3000}'
}

/// Whether a character has the Unicode property `White_Space`.
pub fn white_space(c: char) -> (r: bool)
    ensures
        r == is_white_space(c),
{
    ('\u{9}' <= c && c <= '\u{d}') || c == '\u{20}' || c == '\u{85}' || c == '\u{a0}' || c
        == '\u{1680}' || ('\u{2000}' <= c && c <= '\u{200a}') || c == '\u{2028}' || c == '\u{2029}'
        || c == '\u{202f}' || c == '\u{205f}' || c == '\u{3000}'
}

/// The characters of a string, one by one.
pub fn to_chars(s: &str) -> (v: Vec<char>)
    ensures
        v@ == s@,
{
    let mut v: Vec<char> = Vec::new();
    for c in it: s.chars()
        invariant
            v@ == s@.take(it.index() as int),
            it.seq() == s@,
    {
        v.push(c);
    }
    v
}

/// The characters from `start` up to `end`.
pub fn slice(chars: &Vec<char>, start: usize, end: usize) -> (r: Vec<char>)
    requires
        start <= end <= chars@.len(),
    ensures
        r@ == chars@.subrange(start as int, end as int),
{
    let mut r: Vec<char> = Vec::new();
    let mut i: usize = start;
    while i < end
        invariant
            start <= i <= end <= chars@.len(),
            r@ == chars@.subrange(start as int, i as int),
        decreases end - i,
    {
        r.push(chars[i]);
        i = i + 1;
    }
    r
}

/// The string made of the characters from `start` up to `end`.
pub fn substring(chars: &Vec<char>, start: usize, end: usize) -> (s: String)
    requires
        start <= end <= chars@.len(),
    ensures
        s@ == chars@.subrange(start as int, end as int),
{
    let mut s = String::new();
    let mut i: usize = start;
    while i < end
        invariant
            start <= i <= end <= chars@.len(),
            s@ == chars@.subrange(start as int, i as int),
        decreases end - i,
    {
        s.push(chars[i]);
        i = i + 1;
    }
    s
}

/// Whether two character sequences are the same text.
pub fn same_chars(a: &Vec<char>, b: &Vec<char>) -> (r: bool)
    ensures
        r == (a@ == b@),
{
    if a.len() != b.len() {
        return false;
    }
    let mut i: usize = 0;
    while i < a.len()
        invariant
            i <= a@.len() == b@.len(),
            a@.take(i as int) == b@.take(i as int),
        decreases a@.len() - i,
    {
        if a[i] != b[i] {
            return false;
        }
        i = i + 1;
        assert(a@.take(i as int) =~= a@.take(i - 1).push(a@[i - 1]));
        assert(b@.take(i as int) =~= b@.take(i - 1).push(b@[i - 1]));
    }
    assert(a@.take(i as int) =~= a@);
    assert(b@.take(i as int) =~= b@);
    true
}

/// Whether a character sequence spells the given literal.
pub fn spells(chars: &Vec<char>, literal: &str) -> (r: bool)
    ensures
        r == (chars@ == literal@),
{
    same_chars(chars, &to_chars(literal))
}

/// Whether two strings are the same text.
pub fn same_text(a: &str, b: &str) -> (r: bool)
    ensures
        r == (a@ == b@),
{
    same_chars(&to_chars(a), &to_chars(b))
}

/// Whether a character sequence begins with the given literal.
pub fn begins_with(chars: &Vec<char>, literal: &str) -> (r: bool)
    ensures
        r == literal@.is_prefix_of(chars@),
{
    let beginning = to_chars(literal);
    if beginning.len() > chars.len() {
        return false;
    }
    let mut i: usize = 0;
    while i < beginning.len()
        invariant
            i <= beginning@.len() <= chars@.len(),
            beginning@ == literal@,
            forall|k: int| 0 <= k < i ==> beginning@[k] == chars@[k],
        decreases beginning@.len() - i,
    {
        if beginning[i] != chars[i] {
            return false;
        }
        i = i + 1;
    }
    assert(chars@.subrange(0, literal@.len() as int) =~= literal@);
    true
}

/// `first` followed by `second`.
pub fn concat2(first: &str, second: &str) -> (s: String)
    ensures
        s@ == first@ + second@,
{
    let mut s = first.to_owned();
    s.append(second);
    s
}

/// Three pieces, one after the other.
pub fn concat3(first: &str, second: &str, third: &str) -> (s: String)
    ensures
        s@ == first@ + second@ + third@,
{
    let mut s = concat2(first, second);
    s.append(third);
    s
}

// ---------------------------------------------------------------------------------------------
// Trimming
// ---------------------------------------------------------------------------------------------
/// The text without its leading white space.
pub open spec fn without_leading_space(s: Seq<char>) -> Seq<char>
    decreases s.len(),
{
    if s.len() > 0 && is_white_space(s[0]) {
        without_leading_space(s.subrange(1, s.len() as int))
    } else {
        s
    }
}

/// The text without its trailing white space.
pub open spec fn without_trailing_space(s: Seq<char>) -> Seq<char>
    decreases s.len(),
{
    if s.len() > 0 && is_white_space(s[s.len() - 1]) {
        without_trailing_space(s.subrange(0, s.len() - 1))
    } else {
        s
    }
}

/// The text without white space at either end.
pub open spec fn trimmed(s: Seq<char>) -> Seq<char> {
    without_trailing_space(without_leading_space(s))
}

/// The text holds nothing but white space.
pub open spec fn is_blank(s: Seq<char>) -> bool {
    forall|i: int| 0 <= i < s.len() ==> is_white_space(#[trigger] s[i])
}

/// Trimming gives a piece of the text: it begins and ends with something other than white space,
/// and only white space is cut off.
pub proof fn law_trim_cuts_only_space(s: Seq<char>)
    ensures
        exists|start: int, end: int| #[trigger]
            trims_to(s, start, end) && trimmed(s) == s.subrange(start, end),
{
    lemma_leading(s);
    let lead = without_leading_space(s);
    let start = s.len() - lead.len();
    lemma_trailing(lead);
    let end = start + trimmed(s).len();
    assert(trimmed(s) =~= s.subrange(start, end));
    assert(trims_to(s, start, end)) by {
        assert forall|i: int| end <= i < s.len() implies is_white_space(#[trigger] s[i]) by {
            assert(s[i] == lead[i - start]);
        }
    }
}

/// The cut from `start` to `end` loses only white space and ends on other characters.
pub open spec fn trims_to(s: Seq<char>, start: int, end: int) -> bool {
    &&& 0 <= start <= end <= s.len()
    &&& forall|i: int| 0 <= i < start ==> is_white_space(#[trigger] s[i])
    &&& forall|i: int| end <= i < s.len() ==> is_white_space(#[trigger] s[i])
    &&& start < end ==> !is_white_space(s[start]) && !is_white_space(s[end - 1])
}

proof fn lemma_leading(s: Seq<char>)
    ensures
        ({
            let r = without_leading_space(s);
            let k = s.len() - r.len();
            &&& 0 <= k <= s.len()
            &&& r == s.subrange(k, s.len() as int)
            &&& forall|i: int| 0 <= i < k ==> is_white_space(#[trigger] s[i])
            &&& r.len() > 0 ==> !is_white_space(r[0])
        }),
    decreases s.len(),
{
    if s.len() > 0 && is_white_space(s[0]) {
        let t = s.subrange(1, s.len() as int);
        lemma_leading(t);
        let r = without_leading_space(s);
        let k = s.len() - r.len();
        assert(r =~= s.subrange(k, s.len() as int));
        assert forall|i: int| 0 <= i < k implies is_white_space(#[trigger] s[i]) by {
            if i > 0 {
                assert(t[i - 1] == s[i]);
            }
        }
    } else {
        assert(s =~= s.subrange(0, s.len() as int));
    }
}

proof fn lemma_trailing(s: Seq<char>)
    ensures
        ({
            let r = without_trailing_space(s);
            &&& r.len() <= s.len()
            &&& r == s.subrange(0, r.len() as int)
            &&& forall|i: int| r.len() <= i < s.len() ==> is_white_space(#[trigger] s[i])
            &&& r.len() > 0 ==> !is_white_space(r[r.len() - 1])
        }),
    decreases s.len(),
{
    if s.len() > 0 && is_white_space(s[s.len() - 1]) {
        let t = s.subrange(0, s.len() - 1);
        lemma_trailing(t);
        let r = without_trailing_space(s);
        assert(r =~= s.subrange(0, r.len() as int));
        assert forall|i: int| r.len() <= i < s.len() implies is_white_space(#[trigger] s[i]) by {
            if i < s.len() - 1 {
                assert(t[i] == s[i]);
            }
        }
    } else {
        assert(s =~= s.subrange(0, s.len() as int));
    }
}

/// A text trims to nothing exactly when it is blank.
pub proof fn law_blank_trims_to_nothing(s: Seq<char>)
    ensures
        is_blank(s) <==> trimmed(s).len() == 0,
{
    law_trim_cuts_only_space(s);
    let (start, end) = choose|start: int, end: int| #[trigger]
        trims_to(s, start, end) && trimmed(s) == s.subrange(start, end);
    if trimmed(s).len() == 0 {
        assert forall|i: int| 0 <= i < s.len() implies is_white_space(#[trigger] s[i]) by {
            if i >= start {
                assert(end <= i);
            }
        }
    }
}

/// Trimming twice is trimming once.
pub proof fn law_trim_is_idempotent(s: Seq<char>)
    ensures
        trimmed(trimmed(s)) == trimmed(s),
{
    law_trim_cuts_only_space(s);
    let t = trimmed(s);
    let (start, end) = choose|start: int, end: int| #[trigger]
        trims_to(s, start, end) && t == s.subrange(start, end);
    if t.len() > 0 {
        assert(t[0] == s[start]);
        assert(t[t.len() - 1] == s[end - 1]);
        assert(without_leading_space(t) == t);
    }
}

/// The text without white space at either end.
pub fn trim(s: &str) -> (r: String)
    ensures
        r@ == trimmed(s@),
{
    let chars = to_chars(s);
    let mut start: usize = 0;
    assert(chars@.subrange(0, chars@.len() as int) =~= chars@);
    while start < chars.len() && white_space(chars[start])
        invariant
            start <= chars@.len(),
            without_leading_space(chars@.subrange(start as int, chars@.len() as int))
                == without_leading_space(chars@),
        decreases chars@.len() - start,
    {
        let ghost rest = chars@.subrange(start as int, chars@.len() as int);
        assert(rest.subrange(1, rest.len() as int) =~= chars@.subrange(
            start + 1,
            chars@.len() as int,
        ));
        start = start + 1;
    }
    let ghost lead = chars@.subrange(start as int, chars@.len() as int);
    assert(without_leading_space(chars@) == lead);
    let mut end: usize = chars.len();
    while end > start && white_space(chars[end - 1])
        invariant
            start <= end <= chars@.len(),
            without_trailing_space(chars@.subrange(start as int, end as int))
                == without_trailing_space(lead),
        decreases end - start,
    {
        let ghost piece = chars@.subrange(start as int, end as int);
        assert(piece.subrange(0, piece.len() - 1) =~= chars@.subrange(start as int, end - 1));
        end = end - 1;
    }
    substring(&chars, start, end)
}

// ---------------------------------------------------------------------------------------------
// ASCII case, replacement and search
// ---------------------------------------------------------------------------------------------
/// An ASCII capital letter becomes small; every other character stays.
pub open spec fn ascii_lower_char(c: char) -> char {
    if 'A' <= c <= 'Z' {
        (c as u32 + 32) as char
    } else {
        c
    }
}

/// The text with its ASCII capital letters made small.
pub open spec fn ascii_lower(s: Seq<char>) -> Seq<char> {
    s.map_values(|c: char| ascii_lower_char(c))
}

/// One character with ASCII capitals made small.
fn lower_char(c: char) -> (r: char)
    ensures
        r == ascii_lower_char(c),
{
    if 'A' <= c && c <= 'Z' {
        ((c as u8) + 32) as char
    } else {
        c
    }
}

/// The text with its ASCII capital letters made small.
pub fn to_ascii_lower(s: &str) -> (r: String)
    ensures
        r@ == ascii_lower(s@),
{
    let chars = to_chars(s);
    let mut r = String::new();
    let mut i: usize = 0;
    while i < chars.len()
        invariant
            i <= chars@.len(),
            chars@ == s@,
            r@ == ascii_lower(s@.take(i as int)),
        decreases chars@.len() - i,
    {
        r.push(lower_char(chars[i]));
        i = i + 1;
        assert(r@ =~= ascii_lower(s@.take(i as int)));
    }
    assert(s@.take(i as int) =~= s@);
    r
}

/// The text with every `from` replaced by the piece `to`.
pub open spec fn replaced(s: Seq<char>, from: char, to: Seq<char>) -> Seq<char>
    decreases s.len(),
{
    if s.len() == 0 {
        Seq::empty()
    } else {
        replaced(s.drop_last(), from, to) + (if s.last() == from {
            to
        } else {
            seq![s.last()]
        })
    }
}

/// The text with every `from` replaced by the piece `to`.
pub fn replace_char(s: &str, from: char, to: &str) -> (r: String)
    ensures
        r@ == replaced(s@, from, to@),
{
    let chars = to_chars(s);
    let mut r = String::new();
    let mut i: usize = 0;
    while i < chars.len()
        invariant
            i <= chars@.len(),
            chars@ == s@,
            r@ == replaced(s@.take(i as int), from, to@),
        decreases chars@.len() - i,
    {
        if chars[i] == from {
            r.append(to);
        } else {
            r.push(chars[i]);
        }
        i = i + 1;
        assert(s@.take(i as int).drop_last() =~= s@.take(i - 1));
        assert(r@ =~= replaced(s@.take(i as int), from, to@));
    }
    assert(s@.take(i as int) =~= s@);
    r
}

/// Replacing goes piece by piece.
pub proof fn lemma_replaced_concat(a: Seq<char>, b: Seq<char>, from: char, to: Seq<char>)
    ensures
        replaced(a + b, from, to) == replaced(a, from, to) + replaced(b, from, to),
    decreases b.len(),
{
    if b.len() == 0 {
        assert(a + b =~= a);
        assert(replaced(a, from, to) + replaced(b, from, to) =~= replaced(a, from, to));
    } else {
        lemma_replaced_concat(a, b.drop_last(), from, to);
        assert((a + b).drop_last() =~= a + b.drop_last());
        assert((a + b).last() == b.last());
        assert(replaced(a + b, from, to) =~= replaced(a, from, to) + replaced(b, from, to));
    }
}

/// `i` is the first position of `c` in `s`.
pub open spec fn is_first_position(s: Seq<char>, c: char, i: int) -> bool {
    &&& 0 <= i < s.len()
    &&& s[i] == c
    &&& forall|j: int| 0 <= j < i ==> s[j] != c
}

/// `i` is the last position of `c` in `s`.
pub open spec fn is_last_position(s: Seq<char>, c: char, i: int) -> bool {
    &&& 0 <= i < s.len()
    &&& s[i] == c
    &&& forall|j: int| i < j < s.len() ==> s[j] != c
}

/// Where `c` occurs first, if it occurs.
pub open spec fn first_at(s: Seq<char>, c: char) -> Option<int> {
    if s.contains(c) {
        Some(choose|i: int| is_first_position(s, c, i))
    } else {
        None
    }
}

/// Where `c` occurs last, if it occurs.
pub open spec fn last_at(s: Seq<char>, c: char) -> Option<int> {
    if s.contains(c) {
        Some(choose|i: int| is_last_position(s, c, i))
    } else {
        None
    }
}

/// A first position is the one that `first_at` names.
pub proof fn lemma_first_at(s: Seq<char>, c: char, i: int)
    requires
        is_first_position(s, c, i),
    ensures
        first_at(s, c) == Some(i),
{
    assert(s.contains(c));
    let k = choose|k: int| is_first_position(s, c, k);
    assert(k == i) by {
        if k < i {
            assert(s[k] != c);
        } else if i < k {
            assert(s[i] != c);
        }
    }
}

/// A last position is the one that `last_at` names.
pub proof fn lemma_last_at(s: Seq<char>, c: char, i: int)
    requires
        is_last_position(s, c, i),
    ensures
        last_at(s, c) == Some(i),
{
    assert(s.contains(c));
    let k = choose|k: int| is_last_position(s, c, k);
    assert(k == i) by {
        if k < i {
            assert(s[i] != c);
        } else if i < k {
            assert(s[k] != c);
        }
    }
}

/// Where `c` occurs first.
pub fn first_position(s: &Vec<char>, c: char) -> (r: Option<usize>)
    ensures
        match r {
            Some(i) => is_first_position(s@, c, i as int) && first_at(s@, c) == Some(i as int),
            None => first_at(s@, c) is None,
        },
{
    let mut i: usize = 0;
    while i < s.len()
        invariant
            i <= s@.len(),
            forall|j: int| 0 <= j < i ==> s@[j] != c,
        decreases s@.len() - i,
    {
        if s[i] == c {
            proof {
                lemma_first_at(s@, c, i as int);
            }
            return Some(i);
        }
        i = i + 1;
    }
    None
}

/// Where `c` occurs last.
pub fn last_position(s: &Vec<char>, c: char) -> (r: Option<usize>)
    ensures
        match r {
            Some(i) => is_last_position(s@, c, i as int) && last_at(s@, c) == Some(i as int),
            None => last_at(s@, c) is None,
        },
{
    let mut i: usize = s.len();
    while i > 0
        invariant
            i <= s@.len(),
            forall|j: int| i <= j < s@.len() ==> s@[j] != c,
        decreases i,
    {
        i = i - 1;
        if s[i] == c {
            proof {
                lemma_last_at(s@, c, i as int);
            }
            return Some(i);
        }
    }
    None
}

// ---------------------------------------------------------------------------------------------
// Joining
// ---------------------------------------------------------------------------------------------
/// The pieces one after the other, with `between` in every gap.
pub open spec fn joined(pieces: Seq<Seq<char>>, between: Seq<char>) -> Seq<char>
    decreases pieces.len(),
{
    if pieces.len() == 0 {
        Seq::empty()
    } else if pieces.len() == 1 {
        pieces[0]
    } else {
        joined(pieces.drop_last(), between) + between + pieces.last()
    }
}

/// The contents of a vector of strings.
pub open spec fn texts(v: Seq<String>) -> Seq<Seq<char>> {
    v.map_values(|s: String| s@)
}

/// The pieces one after the other, with `between` in every gap.
pub fn join_all(pieces: &Vec<String>, between: &str) -> (r: String)
    ensures
        r@ == joined(texts(pieces@), between@),
{
    let mut r = String::new();
    let mut i: usize = 0;
    while i < pieces.len()
        invariant
            i <= pieces@.len(),
            r@ == joined(texts(pieces@).take(i as int), between@),
        decreases pieces@.len() - i,
    {
        if i > 0 {
            r.append(between);
        }
        r.append(pieces[i].as_str());
        i = i + 1;
        assert(texts(pieces@).take(i as int).drop_last() =~= texts(pieces@).take(i - 1));
        assert(r@ =~= joined(texts(pieces@).take(i as int), between@));
    }
    assert(texts(pieces@).take(i as int) =~= texts(pieces@));
    r
}

/// Trimming is the cut that loses all white space at the ends and nothing else: a text trims to its
/// part from the first character that is no white space up to the last.
pub proof fn law_trim_is_the_cut(s: Seq<char>, start: int, end: int)
    requires
        0 <= start < end <= s.len(),
        forall|i: int| 0 <= i < start ==> is_white_space(#[trigger] s[i]),
        forall|i: int| end <= i < s.len() ==> is_white_space(#[trigger] s[i]),
        !is_white_space(s[start]),
        !is_white_space(s[end - 1]),
    ensures
        trimmed(s) == s.subrange(start, end),
{
    law_trim_cuts_only_space(s);
    let (a, b) = choose|a: int, b: int| #[trigger]
        trims_to(s, a, b) && trimmed(s) == s.subrange(a, b);
    if a < b {
        assert(a == start) by {
            if a < start {
                assert(is_white_space(s[a]));
            } else if start < a {
                assert(is_white_space(s[start]));
            }
        }
        assert(b == end) by {
            if b < end {
                assert(is_white_space(s[end - 1]));
            } else if end < b {
                assert(is_white_space(s[b - 1]));
            }
        }
    } else {
        if start < a {
            assert(is_white_space(s[start]));
        } else {
            assert(is_white_space(s[start]));
        }
    }
}

/// A text that neither begins nor ends with white space is trimmed to itself.
pub proof fn law_trimmed_text_stays(s: Seq<char>)
    requires
        s.len() > 0 ==> !is_white_space(s[0]) && !is_white_space(s[s.len() - 1]),
    ensures
        trimmed(s) == s,
{
    if s.len() > 0 {
        law_trim_is_the_cut(s, 0, s.len() as int);
        assert(s.subrange(0, s.len() as int) =~= s);
    } else {
        assert(is_blank(s));
        law_blank_trims_to_nothing(s);
        assert(trimmed(s) =~= s);
    }
}

/// Making letters small keeps the length, moves exactly the letters `A` to `Z` by the distance
/// between `A` and `a`, and leaves every other character.
pub proof fn law_ascii_lower_moves_capitals(s: Seq<char>, i: int)
    requires
        0 <= i < s.len(),
    ensures
        ascii_lower(s).len() == s.len(),
        65 <= s[i] as int <= 90 ==> ascii_lower(s)[i] as int == s[i] as int + 32,
        !(65 <= s[i] as int <= 90) ==> ascii_lower(s)[i] == s[i],
{
}

/// Replacing one character by another keeps the length and every other character.
pub proof fn law_replaced_one_for_one(s: Seq<char>, from: char, to: char)
    ensures
        replaced(s, from, seq![to]).len() == s.len(),
        forall|i: int|
            0 <= i < s.len() ==> #[trigger] replaced(s, from, seq![to])[i] == (if s[i] == from {
                to
            } else {
                s[i]
            }),
    decreases s.len(),
{
    if s.len() > 0 {
        law_replaced_one_for_one(s.drop_last(), from, to);
    }
}

/// Joining goes piece by piece: two lists are joined to their joined texts with one `between` in the
/// gap, a single piece is joined to itself, and no pieces to nothing.
pub proof fn law_joined_concat(a: Seq<Seq<char>>, b: Seq<Seq<char>>, between: Seq<char>)
    requires
        a.len() > 0,
        b.len() > 0,
    ensures
        joined(a + b, between) == joined(a, between) + between + joined(b, between),
        b.len() == 1 ==> joined(b, between) == b[0],
        joined(Seq::empty(), between) == Seq::<char>::empty(),
    decreases b.len(),
{
    let all = a + b;
    assert(all.drop_last() =~= a + b.drop_last());
    assert(all.last() == b.last());
    if b.len() == 1 {
        assert(all.drop_last() =~= a);
    } else {
        law_joined_concat(a, b.drop_last(), between);
    }
    assert(joined(all, between) =~= joined(a, between) + between + joined(b, between));
}

} // verus!
