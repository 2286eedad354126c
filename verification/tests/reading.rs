//! Previews and downloads, played through against files in memory.

use base64::engine::general_purpose::STANDARD;
use base64::Engine;

use workspace_files::download::{
    cmd_workspace_download_file, download_result, sniff_mime, DownloadAsk, DownloadResult,
    DownloadSeen, FileStat, MAX_DOWNLOAD_BYTES,
};
use workspace_files::flow::Step;
use workspace_files::paths::Platform;
use workspace_files::read_preview::{
    cmd_workspace_read_preview, display_name, is_previewable, LinkKind, LinkTarget, PreviewAsk,
    PreviewResult, PreviewSeen, MAX_PREVIEW_BYTES,
};

const UNIX: Platform = Platform::OtherUnix;
const WINDOWS: Platform = Platform::Windows;

fn resolve(path: &str) -> Result<(), String> {
    if path.starts_with("..") {
        Err("Path escapes workspace".to_string())
    } else {
        Ok(())
    }
}

fn preview(path: &str, kind: LinkKind, target: LinkTarget, content: &str) -> Result<PreviewResult, String> {
    let mut seen = PreviewSeen::new();
    for _ in 0..10 {
        match cmd_workspace_read_preview(UNIX, "/ws", path, &seen) {
            Step::Done(result) => return result,
            Step::Ask(PreviewAsk::CheckRoot(w)) => {
                assert_eq!(w, "/ws");
                seen.root = Some(Ok(()));
            }
            Step::Ask(PreviewAsk::Resolve(p)) => {
                assert_eq!(p, path);
                seen.resolved = Some(resolve(&p));
            }
            Step::Ask(PreviewAsk::LinkKind) => seen.link_kind = Some(kind),
            Step::Ask(PreviewAsk::LinkTarget) => seen.link_target = Some(target),
            Step::Ask(PreviewAsk::Size) => seen.size = Some(Some(content.len() as u64)),
            Step::Ask(PreviewAsk::ReadText) => seen.content = Some(Ok(content.to_string())),
        }
    }
    panic!("the operation does not end");
}

fn preview_file(path: &str, content: &str) -> Result<PreviewResult, String> {
    preview(path, LinkKind::File, LinkTarget::Nothing, content)
}

fn download(path: &str, stat: FileStat, bytes: &[u8]) -> Result<DownloadResult, String> {
    let mut seen = DownloadSeen::new();
    for _ in 0..10 {
        match cmd_workspace_download_file(UNIX, "/ws", path, &seen) {
            Step::Done(result) => return result,
            Step::Ask(DownloadAsk::CheckRoot(w)) => {
                assert_eq!(w, "/ws");
                seen.root = Some(Ok(()));
            }
            Step::Ask(DownloadAsk::Resolve(p)) => {
                assert_eq!(p, path);
                seen.resolved = Some(resolve(&p));
            }
            Step::Ask(DownloadAsk::Stat) => seen.stat = Some(stat),
            Step::Ask(DownloadAsk::ReadBytes) => seen.bytes = Some(Ok(bytes.to_vec())),
        }
    }
    panic!("the operation does not end");
}

fn download_bytes(path: &str, bytes: &[u8]) -> DownloadResult {
    download(path, FileStat::File(bytes.len() as u64), bytes).unwrap()
}

#[test]
fn downloads_file_as_b64() {
    let res = download_bytes("pic.png", b"\x89PNG\r\n");
    assert_eq!(res.name, "pic.png");
    assert_eq!(res.mime_type, "image/png");
    assert!(!res.data.is_empty());
    let decoded = STANDARD.decode(&res.data).unwrap();
    assert_eq!(decoded, b"\x89PNG\r\n");
}

#[test]
fn download_rejects_oversize() {
    let res = download_bytes("blob.bin", &[0u8; 16]);
    assert_eq!(res.mime_type, "application/octet-stream");
    let res = download("blob.bin", FileStat::File(MAX_DOWNLOAD_BYTES + 1), &[]);
    assert_eq!(res.unwrap_err(), "File too large to preview (max 25 MB)");
    assert!(download("blob.bin", FileStat::File(MAX_DOWNLOAD_BYTES), &[]).is_ok());
}

#[test]
fn download_rejects_missing() {
    let res = download("nope.png", FileStat::Nothing, &[]);
    assert!(res.is_err());
    assert_eq!(res.unwrap_err(), "File not found");
}

#[test]
fn download_rejects_traversal() {
    let res = download("../etc/hosts", FileStat::File(1), b"x");
    assert!(res.is_err());
    assert_eq!(res.unwrap_err(), "Path escapes workspace");
}

#[test]
fn download_reports_every_other_error() {
    assert_eq!(download(" \t", FileStat::File(1), b"x").unwrap_err(), "Missing path");
    assert_eq!(download("dir", FileStat::SomethingElse, b"").unwrap_err(), "Not a regular file");
    let mut seen = DownloadSeen::new();
    seen.root = Some(Err("no workspace".to_string()));
    assert!(matches!(
        cmd_workspace_download_file(UNIX, "/ws", "a", &seen),
        Step::Done(Err(e)) if e == "no workspace"
    ));
    seen.root = Some(Ok(()));
    seen.resolved = Some(Ok(()));
    seen.stat = Some(FileStat::File(1));
    seen.bytes = Some(Err("gone".to_string()));
    assert!(matches!(
        cmd_workspace_download_file(UNIX, "/ws", "a", &seen),
        Step::Done(Err(e)) if e == "Read failed: gone"
    ));
}

#[test]
fn base64_has_the_standard_form() {
    assert_eq!(download_bytes("a", b"").data, "");
    assert_eq!(download_bytes("a", b"f").data, "Zg==");
    assert_eq!(download_bytes("a", b"fo").data, "Zm8=");
    assert_eq!(download_bytes("a", b"foo").data, "Zm9v");
    assert_eq!(download_bytes("a", b"foob").data, "Zm9vYg==");
    assert_eq!(download_bytes("a", &[0xfb, 0xef, 0xff]).data, "++//");
}

/// The encoding as it is stated: a character for every six bits begun, then padding.
fn stated_base64(bytes: &[u8]) -> String {
    let alphabet: Vec<char> =
        "ABCDEFGHIJKLMNOPQRSTUVWXYZabcdefghijklmnopqrstuvwxyz0123456789+/".chars().collect();
    let byte = |i: usize| -> usize {
        if i < bytes.len() {
            bytes[i] as usize
        } else {
            0
        }
    };
    let mut text = String::new();
    for i in 0..4 * ((bytes.len() + 2) / 3) {
        let first = 3 * (i / 4);
        let group = byte(first) * 65536 + byte(first + 1) * 256 + byte(first + 2);
        if 6 * i < 8 * bytes.len() {
            text.push(alphabet[(group >> (6 * (3 - i % 4))) & 63]);
        } else {
            text.push('=');
        }
    }
    text
}

#[test]
fn base64_is_what_is_stated() {
    let mut bytes: Vec<u8> = Vec::new();
    for i in 0..600usize {
        assert_eq!(download_bytes("a", &bytes).data, stated_base64(&bytes));
        bytes.push((i * 37 + i / 7) as u8);
    }
    let decoded = STANDARD.decode(&download_bytes("a", &bytes).data).unwrap();
    assert_eq!(decoded, bytes);
}

#[test]
fn media_types_go_by_the_extension() {
    let table = [
        ("png", "image/png"),
        ("jpg", "image/jpeg"),
        ("jpeg", "image/jpeg"),
        ("gif", "image/gif"),
        ("webp", "image/webp"),
        ("svg", "image/svg+xml"),
        ("bmp", "image/bmp"),
        ("ico", "image/x-icon"),
        ("tiff", "image/tiff"),
        ("tif", "image/tiff"),
        ("avif", "image/avif"),
        ("pdf", "application/pdf"),
        ("", "application/octet-stream"),
        ("PNG", "application/octet-stream"),
        ("zip", "application/octet-stream"),
    ];
    for (ext, mime) in table {
        assert_eq!(sniff_mime(ext), mime);
    }
    let r = download_result(UNIX, "img/Photo.JPG", &vec![1, 2, 3]);
    assert_eq!(r.name, "Photo.JPG");
    assert_eq!(r.mime_type, "image/jpeg");
    assert_eq!(r.data, "AQID");
    assert_eq!(download_result(WINDOWS, "img\\x.gif", &vec![]).name, "x.gif");
    assert_eq!(download_result(UNIX, "a/..", &vec![]).name, "a/..");
    assert_eq!(download_result(UNIX, ".png", &vec![]).mime_type, "application/octet-stream");
}

#[test]
fn reads_text_file() {
    let res = preview_file("hello.md", "hi there").unwrap();
    assert_eq!(res.content, "hi there");
    assert_eq!(res.name, "hello.md");
    assert_eq!(res.size, 8);
}

#[test]
fn read_preview_rejects_missing() {
    let res = preview("nope.md", LinkKind::Nothing, LinkTarget::Nothing, "");
    assert!(res.is_err());
    assert_eq!(res.unwrap_err(), "File not found");
}

#[test]
fn rejects_non_previewable() {
    let res = preview_file("blob.bin", "\x00\x01\x02");
    assert!(res.is_err());
    assert_eq!(res.unwrap_err(), "File type not supported");
}

#[test]
fn read_preview_rejects_oversize() {
    let big = "a".repeat((MAX_PREVIEW_BYTES + 1) as usize);
    let res = preview_file("big.md", &big);
    assert!(res.is_err());
    assert_eq!(res.unwrap_err(), "File too large to preview");
    assert!(preview_file("big.md", &big[1..]).is_ok());
}

#[test]
fn read_preview_rejects_traversal() {
    let res = preview_file("../etc/hosts", "x");
    assert!(res.is_err());
    assert_eq!(res.unwrap_err(), "Path escapes workspace");
}

#[test]
fn previews_follow_links_to_files_only() {
    let link = LinkKind::Link;
    assert_eq!(preview("l.md", link, LinkTarget::File, "x").unwrap().content, "x");
    assert_eq!(preview("l.md", link, LinkTarget::Nothing, "x").unwrap_err(), "Symlink target missing");
    assert_eq!(preview("l.md", link, LinkTarget::SomethingElse, "x").unwrap_err(), "Not a regular file");
    assert_eq!(
        preview("d.md", LinkKind::SomethingElse, LinkTarget::File, "x").unwrap_err(),
        "Not a regular file"
    );
}

#[test]
fn preview_reports_every_other_error() {
    assert_eq!(preview_file("  ", "x").unwrap_err(), "Missing path");
    let mut seen = PreviewSeen::new();
    seen.root = Some(Err("no workspace".to_string()));
    assert!(matches!(
        cmd_workspace_read_preview(UNIX, "/ws", "a.md", &seen),
        Step::Done(Err(e)) if e == "no workspace"
    ));
    seen.root = Some(Ok(()));
    seen.resolved = Some(Ok(()));
    seen.link_kind = Some(LinkKind::File);
    seen.size = Some(None);
    seen.content = Some(Err("not text".to_string()));
    assert!(matches!(
        cmd_workspace_read_preview(UNIX, "/ws", " a.md", &seen),
        Step::Done(Err(e)) if e == "Failed to read  a.md: not text"
    ));
    seen.content = Some(Ok("text".to_string()));
    match cmd_workspace_read_preview(UNIX, "/ws", "d/a.md", &seen) {
        Step::Done(Ok(r)) => {
            assert_eq!(r.size, 0);
            assert_eq!(r.name, "a.md");
            assert_eq!(r.content, "text");
        }
        _ => panic!("expected a preview"),
    }
}

#[test]
fn previewable_files_are_told_by_name() {
    let extensions = [
        "md", "mdx", "txt", "log", "rst", "tex", "ts", "tsx", "js", "jsx", "mjs", "cjs", "rs", "go",
        "py", "rb", "java", "kt", "swift", "c", "h", "cpp", "hpp", "cc", "cs", "sh", "zsh", "bash",
        "fish", "ps1", "bat", "cmd", "lua", "pl", "php", "scala", "groovy", "dart", "vue", "svelte",
        "astro", "json", "json5", "yaml", "yml", "toml", "ini", "env", "html", "htm", "xml", "svg",
        "css", "scss", "sass", "less", "csv", "tsv", "graphql", "gql", "sql", "conf", "cfg", "rc",
        "lock",
    ];
    for ext in extensions {
        assert!(is_previewable(UNIX, &format!("x.{}", ext)));
        assert!(is_previewable(UNIX, &format!("x.{}", ext.to_uppercase())));
        assert!(!is_previewable(UNIX, &format!(".{}", ext)));
        assert!(!is_previewable(UNIX, ext));
    }
    for name in ["README", "LICENSE", "CHANGELOG", "Makefile", "Dockerfile", "Procfile", ".gitignore"] {
        assert!(is_previewable(UNIX, name));
    }
    for name in ["readme", "x.bin", "x.png", "x.", ".env", "", "x.m d", "archive.tar.gz"] {
        assert!(!is_previewable(UNIX, name));
    }
    assert!(is_previewable(UNIX, "a.b.md"));
}

#[test]
fn files_are_shown_under_their_last_component() {
    assert_eq!(display_name(UNIX, "a/b/c.md"), "c.md");
    assert_eq!(display_name(UNIX, "a/b/"), "b");
    assert_eq!(display_name(UNIX, "a\\b"), "a\\b");
    assert_eq!(display_name(WINDOWS, "a\\b"), "b");
    assert_eq!(display_name(UNIX, ".."), "..");
    assert_eq!(display_name(UNIX, "/"), "/");
}
