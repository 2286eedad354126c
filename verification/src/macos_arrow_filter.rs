//! Keeping the private characters that AppKit uses for function keys out of text fields.
//!
//! On macOS an arrow key pressed at the edge of a text field can leave one of the characters
//! U+F700 to U+F74F in the field. Text that is made of nothing else is not inserted; a key press is
//! always forwarded, so that the caret moves, and is followed by a cleanup of the page.

use vstd::prelude::*;

use crate::numbers::{decimal, fixed_hex, hex_number, push_decimal, push_hex};
use crate::text::{begins_with, concat2, join_all, joined, spells, substring, texts, to_chars};

verus! {

// ---------------------------------------------------------------------------------------------
// Function-key text
// ---------------------------------------------------------------------------------------------
/// The code units that AppKit uses for function keys.
pub open spec fn is_function_key(unit: u16) -> bool {
    0xf700 <= unit <= 0xf74f
}

/// One of the units is a function-key unit.
pub open spec fn any_function_key(units: Seq<u16>) -> bool {
    exists|i: int| 0 <= i < units.len() && is_function_key(#[trigger] units[i])
}

/// Every unit is a function-key unit.
pub open spec fn all_function_keys(units: Seq<u16>) -> bool {
    forall|i: int| 0 <= i < units.len() ==> is_function_key(#[trigger] units[i])
}

/// The text holds a function-key unit. What is no text holds none.
pub open spec fn has_function_key(units: Option<Seq<u16>>) -> bool {
    match units {
        Some(units) => any_function_key(units),
        None => false,
    }
}

/// The text is made of function-key units and nothing else, at least one.
pub open spec fn is_pure_function_keys(units: Option<Seq<u16>>) -> bool {
    match units {
        Some(units) => units.len() > 0 && all_function_keys(units),
        None => false,
    }
}

/// The code units of a text object, if it is one.
pub open spec fn units_of(units: Option<Vec<u16>>) -> Option<Seq<u16>> {
    match units {
        Some(units) => Some(units@),
        None => None,
    }
}

/// Whether a text object holds a function-key unit, given its code units.
pub fn object_contains_function_key_text(units: &Option<Vec<u16>>) -> (r: bool)
    ensures
        r == has_function_key(units_of(*units)),
{
    match units {
        Some(list) => {
            let mut i: usize = 0;
            while i < list.len()
                invariant
                    i <= list@.len(),
                    units_of(*units) == Some(list@),
                    forall|k: int| 0 <= k < i ==> !is_function_key(#[trigger] list@[k]),
                decreases list@.len() - i,
            {
                let unit: u16 = list[i];
                if 0xf700 <= unit && unit <= 0xf74f {
                    assert(is_function_key(list@[i as int]));
                    return true;
                }
                i = i + 1;
            }
            false
        },
        None => false,
    }
}

/// Whether a text object is made of function-key units and nothing else, given its code units.
pub fn object_is_pure_function_key_text(units: &Option<Vec<u16>>) -> (r: bool)
    ensures
        r == is_pure_function_keys(units_of(*units)),
{
    match units {
        Some(list) => {
            let mut i: usize = 0;
            while i < list.len()
                invariant
                    i <= list@.len(),
                    units_of(*units) == Some(list@),
                    forall|k: int| 0 <= k < i ==> is_function_key(#[trigger] list@[k]),
                decreases list@.len() - i,
            {
                let unit: u16 = list[i];
                if !(0xf700 <= unit && unit <= 0xf74f) {
                    assert(!is_function_key(list@[i as int]));
                    return false;
                }
                i = i + 1;
            }
            list.len() > 0
        },
        None => false,
    }
}

// ---------------------------------------------------------------------------------------------
// Events
// ---------------------------------------------------------------------------------------------
/// What to do with a text that is about to be inserted.
#[derive(Clone, Copy, Debug, PartialEq, Eq, Structural)]
pub struct InsertPlan {
    /// Note in the log that function-key text came by.
    pub note: bool,
    /// Insert the text; else it is held back.
    pub forward: bool,
}

/// What to do with a text that is about to be inserted: text made of function-key units alone is
/// held back.
pub open spec fn insert_plan(units: Option<Seq<u16>>) -> InsertPlan {
    InsertPlan { note: has_function_key(units), forward: !is_pure_function_keys(units) }
}

/// Decides what to do with a text that is about to be inserted, given its code units.
pub fn insert_text_filter(units: &Option<Vec<u16>>) -> (plan: InsertPlan)
    ensures
        plan == insert_plan(units_of(*units)),
{
    InsertPlan {
        note: object_contains_function_key_text(units),
        forward: !object_is_pure_function_key_text(units),
    }
}

/// What is held back is text, is not empty and holds function-key units only; it is noted.
pub proof fn law_only_function_keys_are_held_back(units: Option<Seq<u16>>)
    requires
        !insert_plan(units).forward,
    ensures
        units is Some,
        units->0.len() > 0,
        all_function_keys(units->0),
        insert_plan(units).note,
{
    assert(is_function_key(units->0[0]));
}

/// Text with a unit of its own is inserted, whatever else it holds.
pub proof fn law_other_text_is_inserted(units: Seq<u16>, i: int)
    requires
        0 <= i < units.len(),
        !is_function_key(units[i]),
    ensures
        insert_plan(Some(units)).forward,
{
}

/// The key codes of the four arrow keys.
pub open spec fn is_arrow_key(keycode: u16) -> bool {
    123 <= keycode <= 126
}

/// What to do with a key press.
#[derive(Clone, Copy, Debug, PartialEq, Eq, Structural)]
pub struct KeyDownPlan {
    /// The key press carries function-key text.
    pub has_function_text: bool,
    /// Note the key press in the log.
    pub note: bool,
    /// Hand the key press on, so that the caret moves.
    pub forward: bool,
    /// Clean up the page afterwards.
    pub cleanup: bool,
}

/// What to do with a key press, given its code and its characters, with and without modifiers. It
/// is always handed on; the page is cleaned up after an arrow key and after function-key text.
pub open spec fn key_down_plan(
    keycode: u16,
    chars: Option<Seq<u16>>,
    chars_ignoring_modifiers: Option<Seq<u16>>,
) -> KeyDownPlan {
    let text = has_function_key(chars) || has_function_key(chars_ignoring_modifiers);
    let relevant = is_arrow_key(keycode) || text;
    KeyDownPlan { has_function_text: text, note: relevant, forward: true, cleanup: relevant }
}

/// Decides what to do with a key press, given its code and the code units of its characters, with
/// and without modifiers.
pub fn key_down_probe(
    keycode: u16,
    chars: &Option<Vec<u16>>,
    chars_ignoring_modifiers: &Option<Vec<u16>>,
) -> (plan: KeyDownPlan)
    ensures
        plan == key_down_plan(keycode, units_of(*chars), units_of(*chars_ignoring_modifiers)),
{
    let is_arrow = 123 <= keycode && keycode <= 126;
    let has_function_text = object_contains_function_key_text(chars)
        || object_contains_function_key_text(chars_ignoring_modifiers);
    let relevant = is_arrow || has_function_text;
    KeyDownPlan { has_function_text, note: relevant, forward: true, cleanup: relevant }
}

/// No key press is swallowed, and each that carries function-key text is followed by a cleanup.
pub proof fn law_key_presses_are_forwarded(
    keycode: u16,
    chars: Option<Seq<u16>>,
    chars_ignoring_modifiers: Option<Seq<u16>>,
)
    ensures
        key_down_plan(keycode, chars, chars_ignoring_modifiers).forward,
        has_function_key(chars) || has_function_key(chars_ignoring_modifiers) || is_arrow_key(
            keycode,
        ) <==> key_down_plan(keycode, chars, chars_ignoring_modifiers).cleanup,
{
}

// ---------------------------------------------------------------------------------------------
// Text objects
// ---------------------------------------------------------------------------------------------
/// What has been observed of an object that may be text.
#[derive(Clone, Copy, Debug, PartialEq, Eq)]
pub struct TextSeen {
    pub is_nil: bool,
    pub has_length: bool,
    pub has_character_at_index: bool,
    /// Whether the object can give a string, once that has been asked.
    pub has_string: Option<bool>,
    /// Whether that string is the object itself, once it has been fetched.
    pub string_is_self: Option<bool>,
}

/// How to come to the code units of an object.
#[derive(Clone, Copy, Debug, PartialEq, Eq, Structural)]
pub enum TextStep {
    /// The object is no text.
    NotText,
    /// Read its code units, one for each index below its length.
    ReadUnits,
    /// Ask whether the object can give a string.
    AskString,
    /// Fetch its string.
    FetchString,
    /// Go on with its string in the place of the object.
    FollowString,
}

/// How to come to the code units of an object: text has a length, and characters by index or a
/// string of its own.
pub open spec fn text_step(seen: TextSeen) -> TextStep {
    if seen.is_nil || !seen.has_length {
        TextStep::NotText
    } else if seen.has_character_at_index {
        TextStep::ReadUnits
    } else {
        match (seen.has_string, seen.string_is_self) {
            (None, _) => TextStep::AskString,
            (Some(false), _) => TextStep::NotText,
            (_, None) => TextStep::FetchString,
            (_, Some(true)) => TextStep::NotText,
            (_, Some(false)) => TextStep::FollowString,
        }
    }
}

/// Decides how to come to the code units of an object.
pub fn text_code_units(seen: &TextSeen) -> (step: TextStep)
    ensures
        step == text_step(*seen),
{
    if seen.is_nil || !seen.has_length {
        return TextStep::NotText;
    }
    if seen.has_character_at_index {
        return TextStep::ReadUnits;
    }
    match seen.has_string {
        None => TextStep::AskString,
        Some(has_string) => {
            if !has_string {
                return TextStep::NotText;
            }
            match seen.string_is_self {
                None => TextStep::FetchString,
                Some(is_self) => if is_self {
                    TextStep::NotText
                } else {
                    TextStep::FollowString
                },
            }
        },
    }
}

/// The class of an object.
#[derive(Debug)]
pub enum ObjectClass {
    /// There is no object.
    Nil,
    /// The object has no class that can be named.
    Unknown,
    Named(String),
}

/// The name that the class of an object is shown under.
pub open spec fn class_label(class: ObjectClass) -> Seq<char> {
    match class {
        ObjectClass::Nil => "nil"@,
        ObjectClass::Unknown => "unknown"@,
        ObjectClass::Named(name) => name@,
    }
}

/// The name that the class of an object is shown under.
pub fn object_class_name(class: &ObjectClass) -> (r: String)
    ensures
        r@ == class_label(*class),
{
    match class {
        ObjectClass::Nil => "nil".to_owned(),
        ObjectClass::Unknown => "unknown".to_owned(),
        ObjectClass::Named(name) => name.clone(),
    }
}

/// What is known of the first responder of a view.
#[derive(Debug)]
pub enum FirstResponder {
    /// There is no view.
    NoView,
    /// The view is in no window.
    NoWindow,
    /// The class of the first responder.
    Class(ObjectClass),
}

/// The name that the class of the first responder is shown under.
pub fn first_responder_class_name(responder: &FirstResponder) -> (r: String)
    ensures
        r@ == (match *responder {
            FirstResponder::NoView => "nil"@,
            FirstResponder::NoWindow => "nil-window"@,
            FirstResponder::Class(class) => class_label(class),
        }),
{
    match responder {
        FirstResponder::NoView => "nil".to_owned(),
        FirstResponder::NoWindow => "nil-window".to_owned(),
        FirstResponder::Class(class) => object_class_name(class),
    }
}

/// How many code units are written out.
pub const MAX_SHOWN_UNITS: usize = 24;

/// A code unit as `U+` and four hexadecimal digits.
pub open spec fn unit_text(unit: u16) -> Seq<char> {
    "U+"@ + fixed_hex(unit as nat, 4, true)
}

/// The first units, and the count of the others where there are more.
pub open spec fn unit_pieces(units: Seq<u16>) -> Seq<Seq<char>> {
    if units.len() > MAX_SHOWN_UNITS {
        units.take(MAX_SHOWN_UNITS as int).map_values(|u: u16| unit_text(u)).push(
            "...(+"@ + decimal((units.len() - MAX_SHOWN_UNITS) as nat) + ")"@,
        )
    } else {
        units.map_values(|u: u16| unit_text(u))
    }
}

/// The code units between brackets.
pub open spec fn units_text(units: Seq<u16>) -> Seq<char> {
    "["@ + joined(unit_pieces(units), " "@) + "]"@
}

/// The code units between brackets, at most so many, for the log.
pub fn format_units(units: &Vec<u16>) -> (r: String)
    ensures
        r@ == units_text(units@),
{
    let shown: usize = if units.len() > MAX_SHOWN_UNITS {
        MAX_SHOWN_UNITS
    } else {
        units.len()
    };
    let mut pieces: Vec<String> = Vec::new();
    let mut i: usize = 0;
    while i < shown
        invariant
            i <= shown <= units@.len(),
            texts(pieces@) == units@.take(i as int).map_values(|u: u16| unit_text(u)),
        decreases shown - i,
    {
        let ghost before = pieces@;
        let mut piece = "U+".to_owned();
        push_hex(&mut piece, units[i] as u64, 4, true);
        pieces.push(piece);
        i = i + 1;
        assert(texts(pieces@) =~= texts(before).push(piece@));
        assert(texts(pieces@) =~= units@.take(i as int).map_values(|u: u16| unit_text(u)));
    }
    if units.len() > MAX_SHOWN_UNITS {
        let ghost before = pieces@;
        let mut piece = "...(+".to_owned();
        push_decimal(&mut piece, (units.len() - MAX_SHOWN_UNITS) as u64);
        piece.append(")");
        pieces.push(piece);
        assert(texts(pieces@) =~= texts(before).push(piece@));
    } else {
        assert(units@.take(i as int) =~= units@);
    }
    assert(texts(pieces@) == unit_pieces(units@));
    let mut r = concat2("[", join_all(&pieces, " ").as_str());
    r.append("]");
    r
}

/// What is known of an object that is described in the log.
#[derive(Debug)]
pub enum TextObject {
    /// There is no object.
    Nil,
    /// The class of the object, and its code units where it is text.
    Object(ObjectClass, Option<Vec<u16>>),
}

/// The description of an object.
pub open spec fn object_text(object: TextObject) -> Seq<char> {
    match object {
        TextObject::Nil => "nil"@,
        TextObject::Object(class, Some(units)) => "class="@ + class_label(class) + " len="@
            + decimal(units@.len()) + " units="@ + units_text(units@),
        TextObject::Object(class, None) => "class="@ + class_label(class) + " non-text-like"@,
    }
}

/// Describes an object for the log.
pub fn describe_text_object(object: &TextObject) -> (r: String)
    ensures
        r@ == object_text(*object),
{
    match object {
        TextObject::Nil => "nil".to_owned(),
        TextObject::Object(class, units) => {
            let mut r = concat2("class=", object_class_name(class).as_str());
            match units {
                Some(units) => {
                    r.append(" len=");
                    push_decimal(&mut r, units.len() as u64);
                    r.append(" units=");
                    r.append(format_units(units).as_str());
                },
                None => {
                    r.append(" non-text-like");
                },
            }
            r
        },
    }
}

/// The names of a class and its ancestors, in order, for the log.
pub fn class_chain(names: &Vec<String>) -> (r: String)
    ensures
        r@ == joined(texts(names@), " -> "@),
{
    join_all(names, " -> ")
}

// ---------------------------------------------------------------------------------------------
// The class of the web view
// ---------------------------------------------------------------------------------------------
/// Two colons stand at position `i`.
pub open spec fn path_mark_at(name: Seq<char>, i: int) -> bool {
    0 <= i < name.len() - 1 && name[i] == ':' && name[i + 1] == ':'
}

/// `i` is where the last part of a class name begins: behind the last two colons, else at the start.
pub open spec fn is_tail_start(name: Seq<char>, i: int) -> bool {
    ||| {
        &&& path_mark_at(name, i - 2)
        &&& forall|j: int| i - 2 < j ==> !#[trigger] path_mark_at(name, j)
    }
    ||| {
        &&& i == 0
        &&& forall|j: int| !#[trigger] path_mark_at(name, j)
    }
}

/// The last part of a class name: what follows its last two colons.
pub open spec fn class_tail(name: Seq<char>) -> Seq<char> {
    name.subrange(choose|i: int| is_tail_start(name, i), name.len() as int)
}

/// The name of the web view class, alone or with a version behind it.
pub open spec fn is_webview_tail(tail: Seq<char>) -> bool {
    ||| tail == "WryWebView"@
    ||| {
        &&& "WryWebView"@.is_prefix_of(tail)
        &&& tail.len() > "WryWebView"@.len()
        &&& '0' <= tail["WryWebView"@.len() as int] <= '9'
    }
}

/// The name of a class is that of the web view class, with or without a path before it.
pub open spec fn is_webview_class(name: Seq<char>) -> bool {
    is_webview_tail(class_tail(name))
}

/// Where the last part of a class name begins.
fn tail_start(name: &Vec<char>) -> (i: usize)
    ensures
        i <= name@.len(),
        is_tail_start(name@, i as int),
        class_tail(name@) == name@.subrange(i as int, name@.len() as int),
{
    let mut i: usize = name.len();
    while i >= 2
        invariant
            i <= name@.len(),
            forall|j: int| i - 2 < j ==> !#[trigger] path_mark_at(name@, j),
        decreases i,
    {
        if name[i - 2] == ':' && name[i - 1] == ':' {
            assert(path_mark_at(name@, i - 2));
            proof {
                lemma_tail_start_is_unique(name@, i as int);
            }
            return i;
        }
        i = i - 1;
    }
    assert(forall|j: int| !#[trigger] path_mark_at(name@, j)) by {
        assert forall|j: int| !#[trigger] path_mark_at(name@, j) by {
            if path_mark_at(name@, j) {
                assert(i - 2 < j);
            }
        }
    }
    proof {
        lemma_tail_start_is_unique(name@, 0);
    }
    0
}

proof fn lemma_tail_start_is_unique(name: Seq<char>, i: int)
    requires
        is_tail_start(name, i),
    ensures
        class_tail(name) == name.subrange(i, name.len() as int),
{
    let k = choose|k: int| is_tail_start(name, k);
    assert(is_tail_start(name, k));
    assert(i == k) by {
        if path_mark_at(name, i - 2) && path_mark_at(name, k - 2) {
            if i < k {
                assert(!path_mark_at(name, k - 2));
            } else if k < i {
                assert(!path_mark_at(name, i - 2));
            }
        }
    }
}

/// Whether the name of a class is that of the web view class, alone, with a version behind it, or
/// with a path before it.
pub fn is_wry_webview_class_name(name: &str) -> (r: bool)
    ensures
        r == is_webview_class(name@),
{
    let chars = to_chars(name);
    let start: usize = tail_start(&chars);
    let len: usize = chars.len();
    let tail = to_chars(substring(&chars, start, len).as_str());
    if spells(&tail, "WryWebView") {
        return true;
    }
    proof {
        reveal_strlit("WryWebView");
    }
    if !begins_with(&tail, "WryWebView") {
        return false;
    }
    tail.len() > 10 && '0' <= tail[10] && tail[10] <= '9'
}

/// A class that key-value observing has put in front of another.
pub open spec fn is_observing_class(name: Seq<char>) -> bool {
    "..NSKVONotifying_"@.is_prefix_of(name)
}

/// Which class is the web view class.
#[derive(Clone, Copy, Debug, PartialEq, Eq, Structural)]
pub enum ClassChoice {
    /// The one that is registered under the plain name.
    Registered,
    /// The one at this place in the list of classes.
    Listed(usize),
    /// None.
    Missing,
}

/// The web view class that was found, and the names that came into question.
#[derive(Debug)]
pub struct FoundClass {
    pub choice: ClassChoice,
    pub matches: Vec<String>,
}

/// The name at place `i` is that of a web view class; `observing` tells of which kind.
pub open spec fn webview_at(names: Seq<Seq<char>>, i: int, observing: bool) -> bool {
    0 <= i < names.len() && is_webview_class(names[i]) && is_observing_class(names[i]) == observing
}

/// `i` is the last place of a web view class of a kind.
pub open spec fn last_webview_at(names: Seq<Seq<char>>, i: int, observing: bool) -> bool {
    &&& webview_at(names, i, observing)
    &&& forall|j: int| i < j ==> !#[trigger] webview_at(names, j, observing)
}

/// The names of web view classes, in order.
pub open spec fn webview_names(names: Seq<Seq<char>>) -> Seq<Seq<char>>
    decreases names.len(),
{
    if names.len() == 0 {
        Seq::empty()
    } else {
        let front = webview_names(names.drop_last());
        if is_webview_class(names.last()) {
            front.push(names.last())
        } else {
            front
        }
    }
}

/// Chooses the web view class: the one registered under the plain name where there is one, else the
/// last in the list that is not an observing class, else the last observing one.
pub fn find_wry_webview_class(registered: bool, names: &Vec<String>) -> (found: FoundClass)
    ensures
        registered ==> found.choice == ClassChoice::Registered && found.matches@.len() == 0,
        !registered ==> {
            &&& texts(found.matches@) == webview_names(texts(names@))
            &&& match found.choice {
                ClassChoice::Registered => false,
                ClassChoice::Listed(i) => {
                    ||| last_webview_at(texts(names@), i as int, false)
                    ||| {
                        &&& last_webview_at(texts(names@), i as int, true)
                        &&& forall|j: int| !#[trigger] webview_at(texts(names@), j, false)
                    }
                },
                ClassChoice::Missing => forall|j: int, observing: bool|
                    !#[trigger] webview_at(texts(names@), j, observing),
            }
        },
{
    let mut matches: Vec<String> = Vec::new();
    if registered {
        return FoundClass { choice: ClassChoice::Registered, matches };
    }
    let ghost all = texts(names@);
    let mut generated: Option<usize> = None;
    let mut observing: Option<usize> = None;
    let mut i: usize = 0;
    assert(texts(matches@) =~= webview_names(all.take(0)));
    while i < names.len()
        invariant
            i <= names@.len(),
            all == texts(names@),
            texts(matches@) == webview_names(all.take(i as int)),
            match generated {
                Some(k) => k < i && webview_at(all, k as int, false) && forall|j: int|
                    k < j < i ==> !#[trigger] webview_at(all, j, false),
                None => forall|j: int| j < i ==> !#[trigger] webview_at(all, j, false),
            },
            match observing {
                Some(k) => k < i && webview_at(all, k as int, true) && forall|j: int|
                    k < j < i ==> !#[trigger] webview_at(all, j, true),
                None => forall|j: int| j < i ==> !#[trigger] webview_at(all, j, true),
            },
        decreases names@.len() - i,
    {
        let ghost before = matches@;
        let name = names[i].as_str();
        assert(all.take(i + 1).drop_last() =~= all.take(i as int));
        assert(all.take(i + 1).last() == name@);
        if is_wry_webview_class_name(name) {
            if begins_with(&to_chars(name), "..NSKVONotifying_") {
                assert(webview_at(all, i as int, true));
                observing = Some(i);
            } else {
                assert(webview_at(all, i as int, false));
                generated = Some(i);
            }
            matches.push(names[i].clone());
            assert(texts(matches@) =~= texts(before).push(name@));
        }
        i = i + 1;
    }
    assert(all.take(i as int) =~= all);
    let choice = match generated {
        Some(k) => ClassChoice::Listed(k),
        None => match observing {
            Some(k) => ClassChoice::Listed(k),
            None => ClassChoice::Missing,
        },
    };
    proof {
        assert forall|j: int, kind: bool| i <= j implies !#[trigger] webview_at(all, j, kind) by {}
        match choice {
            ClassChoice::Missing => {
                assert forall|j: int, kind: bool| !#[trigger] webview_at(all, j, kind) by {
                    if j < i {
                        assert(!webview_at(all, j, true));
                        assert(!webview_at(all, j, false));
                    }
                }
            },
            _ => {},
        }
    }
    FoundClass { choice, matches }
}

// ---------------------------------------------------------------------------------------------
// Laws
// ---------------------------------------------------------------------------------------------
/// The function-key units are 63232 to 63311: a text is noted exactly when it holds one of them, and
/// is inserted exactly when it is empty or holds another unit. What is no text is inserted unnoted.
pub proof fn law_insertion_by_units(units: Seq<u16>)
    ensures
        insert_plan(Some(units)).note <==> exists|i: int|
            0 <= i < units.len() && 63232 <= #[trigger] units[i] <= 63311,
        insert_plan(Some(units)).forward <==> units.len() == 0 || exists|i: int|
            0 <= i < units.len() && !(63232 <= #[trigger] units[i] <= 63311),
        insert_plan(None) == (InsertPlan { note: false, forward: true }),
{
    if any_function_key(units) {
        let i = choose|i: int| 0 <= i < units.len() && is_function_key(#[trigger] units[i]);
        assert(63232 <= units[i] <= 63311);
    }
    if exists|i: int| 0 <= i < units.len() && 63232 <= #[trigger] units[i] <= 63311 {
        let i = choose|i: int| 0 <= i < units.len() && 63232 <= #[trigger] units[i] <= 63311;
        assert(is_function_key(units[i]));
    }
    if !all_function_keys(units) {
        let i = choose|i: int| 0 <= i < units.len() && !is_function_key(#[trigger] units[i]);
        assert(!(63232 <= units[i] <= 63311));
    }
    if exists|i: int| 0 <= i < units.len() && !(63232 <= #[trigger] units[i] <= 63311) {
        let i = choose|i: int| 0 <= i < units.len() && !(63232 <= #[trigger] units[i] <= 63311);
        assert(!is_function_key(units[i]));
    }
}

/// A key press is noted and followed by a cleanup exactly when its code is one of the four arrow keys,
/// 123 to 126, or its characters, with or without modifiers, are text that insertion would note.
pub proof fn law_key_press_by_code_and_units(
    keycode: u16,
    chars: Option<Seq<u16>>,
    chars_ignoring_modifiers: Option<Seq<u16>>,
)
    ensures
        ({
            let plan = key_down_plan(keycode, chars, chars_ignoring_modifiers);
            let text = insert_plan(chars).note || insert_plan(chars_ignoring_modifiers).note;
            let arrow = keycode == 123 || keycode == 124 || keycode == 125 || keycode == 126;
            &&& plan.has_function_text == text
            &&& plan.note == (arrow || text)
            &&& plan.cleanup == (arrow || text)
            &&& plan.forward
        }),
{
}

/// An object is text exactly when it is there, has a length, and has characters by index or leads to
/// another object that is its string; what is unknown is asked for before it is called no text.
pub proof fn law_text_objects(seen: TextSeen)
    ensures
        seen.is_nil || !seen.has_length ==> text_step(seen) is NotText,
        !seen.is_nil && seen.has_length && seen.has_character_at_index ==> text_step(
            seen,
        ) is ReadUnits,
        !seen.is_nil && seen.has_length && !seen.has_character_at_index ==> {
            &&& seen.has_string is None ==> text_step(seen) is AskString
            &&& seen.has_string == Some(false) ==> text_step(seen) is NotText
            &&& seen.has_string == Some(true) && seen.string_is_self is None ==> text_step(
                seen,
            ) is FetchString
            &&& seen.has_string == Some(true) && seen.string_is_self == Some(true) ==> text_step(
                seen,
            ) is NotText
            &&& seen.has_string == Some(true) && seen.string_is_self == Some(false) ==> text_step(
                seen,
            ) is FollowString
        },
{
}

/// A unit is written with four capital hexadecimal digits that denote it.
pub proof fn law_unit_text_denotes_the_unit(unit: u16)
    ensures
        unit_text(unit).len() == 6,
        unit_text(unit)[0] == 'U' && unit_text(unit)[1] == '+',
        hex_number(unit_text(unit).subrange(2, 6)) == unit,
        forall|i: int|
            2 <= i < 6 ==> ('0' <= #[trigger] unit_text(unit)[i] <= '9') || ('A' <= unit_text(
                unit,
            )[i] <= 'F'),
{
    reveal_strlit("U+");
    let n = unit as nat;
    reveal_with_fuel(fixed_hex, 5);
    reveal_with_fuel(hex_number, 5);
    let digits = fixed_hex(n, 4, true);
    assert(unit_text(unit).subrange(2, 6) =~= digits);
    let d3 = digits.drop_last();
    let d2 = d3.drop_last();
    let d1 = d2.drop_last();
    assert(d3 =~= fixed_hex(n / 16, 3, true));
    assert(d2 =~= fixed_hex(n / 16 / 16, 2, true));
    assert(d1 =~= fixed_hex(n / 16 / 16 / 16, 1, true));
    assert(d1.drop_last() =~= Seq::empty());
    assert(n / 16 / 16 / 16 < 16);
}

/// At most 24 units are written out, in order; of more, the count of the others follows, in decimal
/// digits.
pub proof fn law_units_are_written_in_order(units: Seq<u16>)
    ensures
        ({
            let pieces = unit_pieces(units);
            let shown: int = if units.len() > 24 {
                24
            } else {
                units.len() as int
            };
            &&& units_text(units) == seq!['['] + joined(pieces, seq![' ']) + seq![']']
            &&& pieces.len() == shown + (if units.len() > 24 {
                1int
            } else {
                0int
            })
            &&& forall|i: int| 0 <= i < shown ==> #[trigger] pieces[i] == unit_text(units[i])
            &&& units.len() > 24 ==> pieces[24] == "...(+"@ + decimal((units.len() - 24) as nat)
                + ")"@
        }),
{
    reveal_strlit("[");
    reveal_strlit("]");
    reveal_strlit(" ");
    assert("["@ =~= seq!['[']);
    assert("]"@ =~= seq![']']);
    assert(" "@ =~= seq![' ']);
}

/// What is described of an object: its class and, where it is text, the count of its units and the
/// units; what is not there is described as such.
pub proof fn law_descriptions(object: TextObject)
    ensures
        object is Nil ==> object_text(object) == "nil"@,
        object matches TextObject::Object(class, units) ==> {
            let label = match class {
                ObjectClass::Nil => "nil"@,
                ObjectClass::Unknown => "unknown"@,
                ObjectClass::Named(name) => name@,
            };
            match units {
                Some(units) => object_text(object) == "class="@ + label + " len="@ + decimal(
                    units@.len(),
                ) + " units="@ + units_text(units@),
                None => object_text(object) == "class="@ + label + " non-text-like"@,
            }
        },
{
}

/// A path before a class name makes no difference: what follows the last two colons decides.
pub proof fn law_path_before_a_class_name(path: Seq<char>, tail: Seq<char>)
    requires
        tail.len() > 0 ==> tail[0] != ':',
        forall|j: int| 0 < j < tail.len() && #[trigger] tail[j] == ':' ==> tail[j - 1] != ':',
    ensures
        class_tail(path + seq![':', ':'] + tail) == tail,
        class_tail(tail) == tail,
        is_webview_class(path + seq![':', ':'] + tail) == is_webview_class(tail),
{
    let name = path + seq![':', ':'] + tail;
    let i = path.len() as int + 2;
    assert(path_mark_at(name, i - 2));
    assert forall|j: int| i - 2 < j implies !#[trigger] path_mark_at(name, j) by {
        if path_mark_at(name, j) {
            assert(name[j + 1] == tail[j + 1 - i]);
            if j >= i {
                assert(name[j] == tail[j - i]);
            }
        }
    }
    assert(is_tail_start(name, i));
    lemma_tail_start_is_unique(name, i);
    assert(name.subrange(i, name.len() as int) =~= tail);
    assert forall|j: int| !#[trigger] path_mark_at(tail, j) by {
        if path_mark_at(tail, j) {
            assert(tail[j + 1] == ':');
        }
    }
    assert(is_tail_start(tail, 0));
    lemma_tail_start_is_unique(tail, 0);
    assert(tail.subrange(0, tail.len() as int) =~= tail);
}

/// The web view class is called `WryWebView`, alone or with a version behind it that begins with a
/// digit; no other name without a path is a name of it.
pub proof fn law_webview_class_names(version: Seq<char>, other: Seq<char>)
    requires
        forall|j: int|
            0 < j < version.len() && #[trigger] version[j] == ':' ==> version[j - 1] != ':',
        other.len() > 0 ==> other[0] != ':',
        forall|j: int| 0 < j < other.len() && #[trigger] other[j] == ':' ==> other[j - 1] != ':',
        !"WryWebView"@.is_prefix_of(other),
    ensures
        is_webview_class("WryWebView"@ + version) <==> version.len() == 0 || '0' <= version[0]
            <= '9',
        !is_webview_class(other),
{
    reveal_strlit("WryWebView");
    let base = "WryWebView"@;
    let name = base + version;
    assert forall|j: int| 0 < j < name.len() && #[trigger] name[j] == ':' implies name[j - 1]
        != ':' by {
        if j >= base.len() {
            assert(version[j - base.len()] == ':');
        } else {
            assert(base[j] == ':');
        }
        if j > base.len() {
            assert(name[j - 1] == version[j - 1 - base.len()]);
        } else if j == base.len() {
            assert(name[j - 1] == base[9]);
        }
    }
    law_path_before_a_class_name(Seq::empty(), name);
    law_path_before_a_class_name(Seq::empty(), other);
    assert(name.subrange(0, base.len() as int) =~= base);
    if version.len() == 0 {
        assert(name =~= base);
    } else {
        assert(name[base.len() as int] == version[0]);
    }
    assert(base.subrange(0, base.len() as int) =~= base);
}

/// The names that come into question are those of web view classes, all of them, in order.
pub proof fn law_webview_names_are_picked_out(names: Seq<Seq<char>>)
    ensures
        webview_names(names) == names.filter(|name: Seq<char>| is_webview_class(name)),
    decreases names.len(),
{
    reveal(Seq::filter);
    if names.len() > 0 {
        law_webview_names_are_picked_out(names.drop_last());
    }
    assert(webview_names(names) =~= names.filter(|name: Seq<char>| is_webview_class(name)));
}

/// An observing class is known by the beginning of its name.
pub proof fn law_observing_class_names(rest: Seq<char>, other: Seq<char>)
    requires
        !"..NSKVONotifying_"@.is_prefix_of(other),
    ensures
        is_observing_class("..NSKVONotifying_"@ + rest),
        !is_observing_class(other),
{
    let base = "..NSKVONotifying_"@;
    assert((base + rest).subrange(0, base.len() as int) =~= base);
}

} // verus!
