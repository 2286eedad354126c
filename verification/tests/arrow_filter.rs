//! Function-key text, its descriptions, and the choice of the web view class.

use workspace_files::macos_arrow_filter::{
    class_chain, describe_text_object, find_wry_webview_class, first_responder_class_name,
    format_units, insert_text_filter, is_wry_webview_class_name, key_down_probe, object_class_name,
    object_contains_function_key_text, object_is_pure_function_key_text, text_code_units,
    ClassChoice, FirstResponder, InsertPlan, KeyDownPlan, ObjectClass, TextObject, TextSeen,
    TextStep, MAX_SHOWN_UNITS,
};

fn strings(v: &[&str]) -> Vec<String> {
    v.iter().map(|s| s.to_string()).collect()
}

fn units(v: &[u16]) -> Option<Vec<u16>> {
    Some(v.to_vec())
}

#[test]
fn function_key_units_have_a_range() {
    for unit in 0..=u16::MAX {
        let inside = (0xf700..=0xf74f).contains(&unit);
        assert_eq!(object_contains_function_key_text(&units(&[0x61, unit])), inside);
        assert_eq!(object_is_pure_function_key_text(&units(&[unit])), inside);
    }
}

#[test]
fn only_pure_function_key_text_is_held_back() {
    let keep = |v: &[u16]| insert_text_filter(&units(v));
    assert_eq!(keep(&[]), InsertPlan { note: false, forward: true });
    assert_eq!(keep(&[0x61]), InsertPlan { note: false, forward: true });
    assert_eq!(keep(&[0xf702]), InsertPlan { note: true, forward: false });
    assert_eq!(keep(&[0xf702, 0xf703]), InsertPlan { note: true, forward: false });
    assert_eq!(keep(&[0xf702, 0x61]), InsertPlan { note: true, forward: true });
    assert_eq!(insert_text_filter(&None), InsertPlan { note: false, forward: true });
}

#[test]
fn key_presses_are_always_forwarded() {
    let plan = |text, relevant| KeyDownPlan {
        has_function_text: text,
        note: relevant,
        forward: true,
        cleanup: relevant,
    };
    for code in 0..=200u16 {
        let arrow = (123..=126).contains(&code);
        assert_eq!(key_down_probe(code, &units(&[0x61]), &None), plan(false, arrow));
        assert_eq!(key_down_probe(code, &units(&[0xf700]), &None), plan(true, true));
        assert_eq!(key_down_probe(code, &None, &units(&[0xf74f])), plan(true, true));
    }
}

#[test]
fn units_are_found_by_asking_the_object() {
    let mut seen = TextSeen {
        is_nil: false,
        has_length: true,
        has_character_at_index: true,
        has_string: None,
        string_is_self: None,
    };
    assert_eq!(text_code_units(&seen), TextStep::ReadUnits);
    seen.has_character_at_index = false;
    assert_eq!(text_code_units(&seen), TextStep::AskString);
    seen.has_string = Some(false);
    assert_eq!(text_code_units(&seen), TextStep::NotText);
    seen.has_string = Some(true);
    assert_eq!(text_code_units(&seen), TextStep::FetchString);
    seen.string_is_self = Some(true);
    assert_eq!(text_code_units(&seen), TextStep::NotText);
    seen.string_is_self = Some(false);
    assert_eq!(text_code_units(&seen), TextStep::FollowString);
    seen.has_length = false;
    assert_eq!(text_code_units(&seen), TextStep::NotText);
    seen.has_length = true;
    seen.is_nil = true;
    assert_eq!(text_code_units(&seen), TextStep::NotText);
}

#[test]
fn units_are_shown_up_to_a_limit() {
    assert_eq!(format_units(&vec![]), "[]");
    assert_eq!(format_units(&vec![0xf702]), "[U+F702]");
    assert_eq!(format_units(&vec![0x61, 0x0, 0xabc]), "[U+0061 U+0000 U+0ABC]");
    let full = vec![0x41u16; MAX_SHOWN_UNITS];
    assert_eq!(format_units(&full), format!("[{}]", vec!["U+0041"; 24].join(" ")));
    let more = vec![0x41u16; MAX_SHOWN_UNITS + 12];
    assert_eq!(format_units(&more), format!("[{} ...(+12)]", vec!["U+0041"; 24].join(" ")));
}

#[test]
fn objects_are_described() {
    assert_eq!(describe_text_object(&TextObject::Nil), "nil");
    let class = || ObjectClass::Named("NSString".to_string());
    assert_eq!(
        describe_text_object(&TextObject::Object(class(), units(&[0xf702, 0x61]))),
        "class=NSString len=2 units=[U+F702 U+0061]"
    );
    assert_eq!(
        describe_text_object(&TextObject::Object(ObjectClass::Unknown, None)),
        "class=unknown non-text-like"
    );
    assert_eq!(object_class_name(&ObjectClass::Nil), "nil");
    assert_eq!(object_class_name(&ObjectClass::Unknown), "unknown");
    assert_eq!(object_class_name(&class()), "NSString");
    assert_eq!(first_responder_class_name(&FirstResponder::NoView), "nil");
    assert_eq!(first_responder_class_name(&FirstResponder::NoWindow), "nil-window");
    assert_eq!(first_responder_class_name(&FirstResponder::Class(class())), "NSString");
    assert_eq!(class_chain(&strings(&["A", "B", "C"])), "A -> B -> C");
    assert_eq!(class_chain(&strings(&["A"])), "A");
}

#[test]
fn web_view_classes_are_told_by_name() {
    for name in [
        "WryWebView",
        "WryWebView0.54.4",
        "wry::wkwebview::class::wry_web_view::WryWebView0.54.4",
        "..NSKVONotifying_x::WryWebView",
        "a:::WryWebView1",
        "::WryWebView",
    ] {
        assert!(is_wry_webview_class_name(name), "{}", name);
    }
    for name in [
        "", "WryWebVie", "WryWebViewX", "WryWebView.5", "XWryWebView", "WryWebView::", "a::b",
        "WryWebView::Other", ":WryWebView", "WryWebView\u{661}", "wrywebview",
    ] {
        assert!(!is_wry_webview_class_name(name), "{}", name);
    }
}

#[test]
fn the_registered_class_wins() {
    let found = find_wry_webview_class(true, &strings(&["WryWebView1"]));
    assert_eq!(found.choice, ClassChoice::Registered);
    assert!(found.matches.is_empty());
}

#[test]
fn the_last_generated_class_is_preferred() {
    let names = strings(&[
        "NSView",
        "a::WryWebView0.1",
        "b::WryWebView0.2",
        "..NSKVONotifying_b::WryWebView0.2",
        "NSWindow",
    ]);
    let found = find_wry_webview_class(false, &names);
    assert_eq!(found.choice, ClassChoice::Listed(2));
    assert_eq!(
        found.matches,
        strings(&["a::WryWebView0.1", "b::WryWebView0.2", "..NSKVONotifying_b::WryWebView0.2"])
    );
}

#[test]
fn an_observing_class_is_better_than_none() {
    let names = strings(&["..NSKVONotifying_a::WryWebView1", "..NSKVONotifying_a::WryWebView2", "X"]);
    assert_eq!(find_wry_webview_class(false, &names).choice, ClassChoice::Listed(1));
    let none = find_wry_webview_class(false, &strings(&["X", "Y"]));
    assert_eq!(none.choice, ClassChoice::Missing);
    assert!(none.matches.is_empty());
}
