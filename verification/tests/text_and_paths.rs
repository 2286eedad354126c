//! Text, numbers and paths, held against the standard library.

use std::path::Path;

use workspace_files::numbers::{parse_hex, push_decimal, push_hex, to_hex16};
use workspace_files::paths::{
    extension, file_name, join, parent, same_path, strip_base, to_workspace_relative, within,
    Platform,
};
use workspace_files::text::{
    begins_with, concat2, concat3, first_position, join_all, last_position, replace_char, same_text,
    spells, substring, to_ascii_lower, to_chars, trim, white_space,
};

const UNIX: [Platform; 2] = [Platform::MacOs, Platform::OtherUnix];

const PATHS: [&str; 37] = [
    "", "/", "//", "///", ".", "..", "./", "../", "/.", "/..", "a", "a/", "a//", "/a", "/a/", "//a",
    "a/b", "a//b", "a/./b", "a/../b", "./a", "./a/.", "a/.", "a/..", "/a/b/c", "/a/b/../c", "a.txt",
    "a/b.tar.gz", ".hidden", "a/.hidden.rs", "a/b.", "a/...", "\u{fc}/\u{e4}.\u{f6}", "a\\b/c",
    "C:\\a", "C:", "C:/x",
];

fn text(p: Option<&Path>) -> Option<String> {
    p.map(|p| p.to_str().unwrap().to_string())
}

#[test]
fn paths_are_read_as_the_standard_library_reads_them() {
    for platform in UNIX {
        for p in PATHS {
            let std_path = Path::new(p);
            let name = std_path.file_name().map(|s| s.to_str().unwrap().to_string());
            assert_eq!(file_name(platform, p), name, "file name of {:?}", p);
            let ext = std_path.extension().map(|s| s.to_str().unwrap().to_string());
            assert_eq!(extension(platform, p), ext, "extension of {:?}", p);
            assert_eq!(
                parent(platform, p).map(|d| Path::new(&d).components().count()),
                std_path.parent().map(|d| d.components().count()),
                "parent of {:?}",
                p
            );
        }
    }
}

#[test]
fn parents_are_written_as_the_standard_library_writes_them() {
    for platform in UNIX {
        for p in PATHS {
            assert_eq!(parent(platform, p), text(Path::new(p).parent()), "parent of {:?}", p);
        }
    }
}

#[test]
fn pairs_of_paths_are_compared_as_the_standard_library_compares_them() {
    for platform in UNIX {
        for p in PATHS {
            for q in PATHS {
                let a = Path::new(p);
                let b = Path::new(q);
                assert_eq!(within(platform, p, q), a.starts_with(b), "{:?} in {:?}", p, q);
                assert_eq!(same_path(platform, p, q), a == b, "{:?} and {:?}", p, q);
                let rest = text(a.strip_prefix(b).ok());
                assert_eq!(strip_base(platform, p, q), rest, "{:?} below {:?}", p, q);
                let joined = a.join(b).to_str().unwrap().to_string();
                assert_eq!(join(platform, p, q), joined, "{:?} joined to {:?}", q, p);
            }
        }
    }
}

#[test]
fn backslashes_separate_on_windows() {
    let w = Platform::Windows;
    assert_eq!(file_name(w, "C:\\a\\b.txt"), Some("b.txt".to_string()));
    assert_eq!(file_name(w, "a/b\\c"), Some("c".to_string()));
    assert_eq!(extension(w, "C:\\a.b\\c"), None);
    assert_eq!(parent(w, "C:\\a\\b"), Some("C:\\a".to_string()));
    assert!(within(w, "C:/a/b", "C:\\a"));
    assert!(same_path(w, "a\\\\b\\", "a/b"));
    assert_eq!(join(w, "C:\\a", "b"), "C:\\a\\b");
    assert_eq!(join(w, "C:\\a\\", "b"), "C:\\a\\b");
    assert_eq!(join(w, "C:/a/", "b"), "C:/a/b");
    assert_eq!(strip_base(w, "C:\\a\\b\\c", "C:\\a"), Some("b\\c".to_string()));
    assert_eq!(to_workspace_relative(w, "C:\\a\\b\\c", "C:\\a"), Some("b/c".to_string()));
    assert_eq!(to_workspace_relative(w, "C:\\ab", "C:\\a"), None);
}

#[test]
fn drives_stand_before_the_root_on_windows() {
    let w = Platform::Windows;
    assert_eq!(file_name(w, "C:"), None);
    assert_eq!(file_name(w, "C:\\"), None);
    assert_eq!(file_name(w, "C:a.md"), some("a.md"));
    assert_eq!(extension(w, "C:a.md"), some("md"));
    assert_eq!(parent(w, "C:\\a"), some("C:\\"));
    assert_eq!(parent(w, "C:a"), some("C:"));
    assert_eq!(parent(w, "C:\\"), None);
    assert_eq!(parent(w, "C:"), None);
    assert!(within(w, "c:\\a", "C:\\"));
    assert!(same_path(w, "c:/a", "C:\\a\\"));
    assert!(!same_path(w, "C:a", "C:\\a"));
    assert!(!within(w, "\\a", "C:\\"));
    assert_eq!(strip_base(w, "C:\\a", "c:"), some("\\a"));
    assert_eq!(strip_base(w, "C:\\a\\b", "c:\\"), some("a\\b"));
    assert_eq!(join(w, "C:", "a"), "C:a");
    assert_eq!(join(w, "C:\\", "a"), "C:\\a");
    assert_eq!(join(w, "C:\\a", "D:\\b"), "D:\\b");
    assert_eq!(join(w, "C:\\a", "\\b"), "C:\\b");
    assert_eq!(to_workspace_relative(w, "C:\\x\\y", "C:\\"), some("x/y"));
}

fn some(s: &str) -> Option<String> {
    Some(s.to_string())
}

#[test]
fn shares_are_prefixes_on_windows() {
    let w = Platform::Windows;
    for share in ["\\\\server\\share", "\\\\server\\share\\", "//server/share", "\\/server\\share/"] {
        assert_eq!(file_name(w, share), None, "{}", share);
        assert_eq!(parent(w, share), None, "{}", share);
        assert!(same_path(w, share, "\\\\server\\share"), "{}", share);
    }
    assert_eq!(file_name(w, "\\\\server\\share\\foo.txt"), some("foo.txt"));
    assert_eq!(parent(w, "\\\\server\\share\\foo.txt"), some("\\\\server\\share\\"));
    assert_eq!(parent(w, "\\\\server\\share\\a\\b"), some("\\\\server\\share\\a"));
    assert_eq!(strip_base(w, "\\\\server\\share\\a\\b", "\\\\server\\share"), some("a\\b"));
    assert_eq!(join(w, "\\\\server\\share", "a"), "\\\\server\\share\\a");
    assert_eq!(join(w, "\\\\server\\share\\a", "\\b"), "\\\\server\\share\\b");
    assert!(!same_path(w, "\\\\server\\share", "\\\\SERVER\\share"));
    assert!(!within(w, "\\\\server\\share\\a", "\\\\server"));
    assert_eq!(file_name(w, "\\\\server"), some("server"));
    assert_eq!(parent(w, "\\\\server"), some("\\"));
    assert_eq!(file_name(w, "\\\\server\\\\x"), some("x"));
}

#[test]
fn devices_are_prefixes_on_windows() {
    let w = Platform::Windows;
    for device in ["\\\\.\\COM42", "//./COM42", "\\\\.\\", "\\\\.\\COM42\\"] {
        assert_eq!(file_name(w, device), None, "{}", device);
        assert_eq!(parent(w, device), None, "{}", device);
    }
    assert_eq!(file_name(w, "\\\\.\\foo\\bar/baz"), some("baz"));
    assert_eq!(parent(w, "\\\\.\\foo\\bar/baz"), some("\\\\.\\foo\\bar"));
    assert_eq!(parent(w, "\\\\.\\foo\\bar"), some("\\\\.\\foo\\"));
}

#[test]
fn verbatim_prefixes_are_read_with_backslashes() {
    let w = Platform::Windows;
    for bare in [
        "\\\\?\\C:", "\\\\?\\C:\\", "\\\\?\\bar", "\\\\?\\", "\\\\?\\UNC\\server\\share",
        "\\\\?\\UNC\\server", "\\\\?\\UNC\\", "\\\\?\\foo/bar", "\\\\?\\UNC\\server\\share\\",
    ] {
        assert_eq!(file_name(w, bare), None, "{}", bare);
        assert_eq!(parent(w, bare), None, "{}", bare);
    }
    assert_eq!(file_name(w, "\\\\?\\C:\\foo.txt"), some("foo.txt"));
    assert_eq!(parent(w, "\\\\?\\C:\\foo.txt"), some("\\\\?\\C:\\"));
    assert_eq!(file_name(w, "\\\\?\\C:/foo/bar"), some("foo/bar"));
    assert_eq!(file_name(w, "\\\\?\\a\\b\\"), some("b"));
    assert_eq!(file_name(w, "\\\\?\\UNC\\server\\share\\x"), some("x"));
    assert_eq!(file_name(w, "\\\\?\\C:\\a\\."), None);
    assert_eq!(parent(w, "\\\\?\\C:\\a\\."), some("\\\\?\\C:\\a"));
    assert!(same_path(w, "\\\\?\\c:\\a", "\\\\?\\C:\\a"));
    assert!(!same_path(w, "\\\\?\\C:\\a", "C:\\a"));
    assert!(!same_path(w, "\\\\?\\x\\a", "//?/x/a"));
    assert_eq!(to_workspace_relative(w, "\\\\?\\C:\\ws\\a\\b", "\\\\?\\C:\\ws"), some("a/b"));
    assert_eq!(strip_base(w, "\\\\?\\C:\\a", "\\\\?\\C:"), some("\\a"));
}

#[test]
fn joins_to_verbatim_paths_are_written_anew() {
    let w = Platform::Windows;
    assert_eq!(join(w, "\\\\?\\C:\\ws", "a"), "\\\\?\\C:\\ws\\a");
    assert_eq!(join(w, "\\\\?\\C:", "a"), "\\\\?\\C:\\a");
    assert_eq!(join(w, "\\\\?\\C:\\", "a"), "\\\\?\\C:\\a");
    assert_eq!(join(w, "\\\\?\\C:\\ws", "a/b"), "\\\\?\\C:\\ws\\a\\b");
    assert_eq!(join(w, "\\\\?\\C:\\ws\\x", "../a/./b"), "\\\\?\\C:\\ws\\a\\b");
    assert_eq!(join(w, "\\\\?\\C:\\", ".."), "\\\\?\\C:\\");
    assert_eq!(join(w, "\\\\?\\C:\\ws", "\\a"), "\\\\?\\C:\\a");
    assert_eq!(join(w, "\\\\?\\C:\\ws", "D:\\a"), "D:\\a");
    assert_eq!(join(w, "\\\\?\\C:\\ws", ""), "\\\\?\\C:\\ws\\");
    assert_eq!(join(w, "\\\\?\\UNC\\server\\share", "a"), "\\\\?\\UNC\\server\\share\\a");
}

#[test]
fn a_dot_behind_a_drive_is_no_component() {
    let w = Platform::Windows;
    assert!(same_path(w, "C:.\\a", "C:a"));
    assert_eq!(parent(w, "C:.\\a"), some("C:."));
    assert_eq!(file_name(w, "C:."), None);
    assert_eq!(strip_base(w, "C:.\\a", "C:"), some(".\\a"));
}

#[test]
fn relative_forms_compose() {
    for (platform, a) in [
        (Platform::OtherUnix, "/a"),
        (Platform::OtherUnix, "/a/"),
        (Platform::MacOs, "/"),
        (Platform::Windows, "C:\\a"),
        (Platform::Windows, "C:\\"),
        (Platform::Windows, "\\\\server\\share"),
        (Platform::Windows, "\\\\?\\C:\\a"),
    ] {
        let ab = join(platform, a, "b/b2");
        let p = join(platform, &ab, "c/c2.txt");
        assert_eq!(to_workspace_relative(platform, &p, &ab), some("c/c2.txt"), "{}", a);
        assert_eq!(to_workspace_relative(platform, &p, a), some("b/b2/c/c2.txt"), "{}", a);
    }
}

#[test]
fn relative_forms_replace_backslashes_everywhere() {
    for platform in UNIX {
        assert_eq!(to_workspace_relative(platform, "/ws/a\\b", "/ws"), Some("a/b".to_string()));
        assert_eq!(to_workspace_relative(platform, "/ws/", "/ws"), Some(String::new()));
        assert_eq!(to_workspace_relative(platform, "/w", "/ws"), None);
    }
}

#[test]
fn a_joined_item_is_found_again() {
    for platform in UNIX {
        for base in ["/ws", "/ws/", "/", "ws", ""] {
            let all = join(platform, base, "x.rs");
            assert!(within(platform, &all, base));
            assert_eq!(file_name(platform, &all), Some("x.rs".to_string()));
            assert_eq!(to_workspace_relative(platform, &all, base), Some("x.rs".to_string()));
            assert!(same_path(platform, &parent(platform, &all).unwrap(), base));
        }
    }
}

#[test]
fn white_space_is_that_of_unicode() {
    for n in 0..=0x10_ffffu32 {
        if let Some(c) = char::from_u32(n) {
            assert_eq!(white_space(c), c.is_whitespace(), "{:?}", c);
        }
    }
}

#[test]
fn trimming_cuts_white_space_at_the_ends() {
    for s in ["", " ", "a", " a", "a ", "  a b\t\n", "\u{3000}x\u{85}", "\u{200b}x", "\u{a0}\u{2003}"] {
        assert_eq!(trim(s), s.trim());
        assert_eq!(trim(&trim(s)), s.trim());
    }
}

#[test]
fn text_helpers_do_what_they_say() {
    let chars = to_chars("h\u{e9}llo");
    assert_eq!(chars, vec!['h', '\u{e9}', 'l', 'l', 'o']);
    assert_eq!(substring(&chars, 1, 4), "\u{e9}ll");
    assert_eq!(substring(&chars, 2, 2), "");
    assert!(spells(&chars, "h\u{e9}llo"));
    assert!(!spells(&chars, "h\u{e9}ll"));
    assert!(begins_with(&chars, "h\u{e9}"));
    assert!(begins_with(&chars, ""));
    assert!(!begins_with(&chars, "h\u{e9}llo!"));
    assert!(!begins_with(&chars, "x"));
    assert!(same_text("ab", "ab"));
    assert!(!same_text("ab", "ac"));
    assert_eq!(concat2("a", "b"), "ab");
    assert_eq!(concat3("a", "", "c"), "ac");
    assert_eq!(to_ascii_lower("AbZ\u{c4}9_"), "AbZ\u{c4}9_".to_ascii_lowercase());
    assert_eq!(replace_char("a'b''", '\'', "''"), "a''b''''");
    assert_eq!(replace_char("abc", 'x', "yy"), "abc");
    assert_eq!(first_position(&chars, 'l'), Some(2));
    assert_eq!(last_position(&chars, 'l'), Some(3));
    assert_eq!(first_position(&chars, 'x'), None);
    assert_eq!(last_position(&chars, 'x'), None);
    let pieces = vec!["a".to_string(), "".to_string(), "c".to_string()];
    assert_eq!(join_all(&pieces, ", "), "a, , c");
    assert_eq!(join_all(&vec![], ", "), "");
}

#[test]
fn numbers_are_written_as_the_standard_library_writes_them() {
    for n in [0u64, 1, 9, 10, 15, 16, 99, 100, 255, 4096, 9999, 65535, u64::MAX - 1, u64::MAX] {
        assert_eq!(to_hex16(n), format!("{:016x}", n));
        let mut s = "n=".to_string();
        push_decimal(&mut s, n);
        assert_eq!(s, format!("n={}", n));
        let mut s = String::new();
        push_hex(&mut s, n & 0xffff, 4, true);
        assert_eq!(s, format!("{:04X}", n & 0xffff));
        assert_eq!(parse_hex(&to_chars(&to_hex16(n))), Some(n));
    }
}

#[test]
fn hexadecimal_is_read_as_the_standard_library_reads_it() {
    let samples = [
        "", "+", "-", "0", "-0", "+0", "00", "f", "F", "g", "ff", "+ff", "++ff", "-1", " 1", "1 ",
        "ffffffffffffffff", "10000000000000000", "0ffffffffffffffff", "0x1", "\u{661}",
        "fffffffffffffffff", "000000000000000000000000000000000001",
    ];
    for s in samples {
        assert_eq!(parse_hex(&to_chars(s)), u64::from_str_radix(s, 16).ok(), "{:?}", s);
    }
}
