//! Reading a file of a workspace as bytes, for the image preview.

use base64::engine::general_purpose::STANDARD;
use base64::Engine;
use vstd::prelude::*;

use crate::flow::{unknown, Step, StepView};
use crate::numbers::{decimal, push_decimal};
use crate::path_laws::{law_extension_follows_the_last_dot, law_join_has_file_name};
use crate::path_laws::{law_no_dot_no_extension, law_stem_and_extension, takes_names};
use crate::paths::{extension, extension_of, file_name_of, has_drive, joined_path, Platform};
use crate::paths::separates;
use crate::read_preview::{display_name, shown_name};
use crate::text::{ascii_lower, concat2, is_blank, law_blank_trims_to_nothing, spells};
use crate::text::{to_ascii_lower, to_chars, trim, trimmed};

verus! {

/// The size of the largest file that is sent.
pub const MAX_DOWNLOAD_BYTES: u64 = 25 * 1024 * 1024;

/// What the renderer is sent: the name, the type and the bytes in base64.
#[derive(Debug)]
pub struct DownloadResult {
    pub name: String,
    pub mime_type: String,
    pub data: String,
}

/// A [`DownloadResult`] with its texts as character sequences.
#[verifier::ext_equal]
pub struct DownloadView {
    pub name: Seq<char>,
    pub mime_type: Seq<char>,
    pub data: Seq<char>,
}

impl View for DownloadResult {
    type V = DownloadView;

    open spec fn view(&self) -> DownloadView {
        DownloadView { name: self.name@, mime_type: self.mime_type@, data: self.data@ }
    }
}

// ---------------------------------------------------------------------------------------------
// Base64
// ---------------------------------------------------------------------------------------------
/// The character of the standard alphabet for six bits.
pub open spec fn base64_char(six: int) -> char {
    if six < 26 {
        (65 + six) as char
    } else if six < 52 {
        (71 + six) as char
    } else if six < 62 {
        (six - 4) as char
    } else if six == 62 {
        '+'
    } else {
        '/'
    }
}

/// A byte, or zero behind the end.
pub open spec fn byte_or_zero(bytes: Seq<u8>, i: int) -> int {
    if 0 <= i < bytes.len() {
        bytes[i] as int
    } else {
        0
    }
}

/// Three bytes in a row as one number, the first in front.
pub open spec fn three_bytes(bytes: Seq<u8>, i: int) -> int {
    byte_or_zero(bytes, i) * 65536 + byte_or_zero(bytes, i + 1) * 256 + byte_or_zero(bytes, i + 2)
}

/// The six bits at position `i`, where every three bytes hold four positions.
pub open spec fn six_bits(bytes: Seq<u8>, i: int) -> int {
    let group = three_bytes(bytes, 3 * (i / 4));
    if i % 4 == 0 {
        group / 262144
    } else if i % 4 == 1 {
        group / 4096 % 64
    } else if i % 4 == 2 {
        group / 64 % 64
    } else {
        group % 64
    }
}

/// The bytes in base64 with the standard alphabet: a character for every six bits begun, and `=` up
/// to a multiple of four characters.
pub open spec fn base64_of(bytes: Seq<u8>) -> Seq<char> {
    Seq::new(
        (4 * ((bytes.len() + 2) / 3)) as nat,
        |i: int|
            if 6 * i < 8 * bytes.len() {
                base64_char(six_bits(bytes, i))
            } else {
                '='
            },
    )
}

/// Encodes bytes with `base64::Engine::encode` of the engine `STANDARD`: the standard alphabet of
/// RFC 4648, with padding. Bytes whose encoding is longer than a string can be are left
/// out, since the call panics there.
#[verifier::external_body]
fn encode_base64(bytes: &Vec<u8>) -> (text: String)
    requires
        base64_of(bytes@).len() <= isize::MAX,
    ensures
        text@ == base64_of(bytes@),
{
    STANDARD.encode(bytes)
}

proof fn lemma_six_bits(bytes: Seq<u8>, i: int)
    requires
        0 <= i,
    ensures
        0 <= six_bits(bytes, i) < 64,
        6 * i >= 8 * bytes.len() ==> six_bits(bytes, i) == 0,
{
}

proof fn lemma_base64_char(a: int, b: int)
    requires
        0 <= a < 64,
        0 <= b < 64,
    ensures
        base64_char(a) != '=',
        base64_char(a) == base64_char(b) ==> a == b,
{
    let x = base64_char(a) as int;
    let y = base64_char(b) as int;
    assert(x == (if a < 26 {
        65 + a
    } else if a < 52 {
        71 + a
    } else if a < 62 {
        a - 4
    } else if a == 62 {
        43
    } else {
        47
    }));
    assert(y == (if b < 26 {
        65 + b
    } else if b < 52 {
        71 + b
    } else if b < 62 {
        b - 4
    } else if b == 62 {
        43
    } else {
        47
    }));
}

proof fn lemma_same_six_bits(a: Seq<u8>, b: Seq<u8>, k: int)
    requires
        0 <= k,
        forall|i: int| 4 * k <= i < 4 * k + 4 ==> six_bits(a, i) == six_bits(b, i),
    ensures
        byte_or_zero(a, 3 * k) == byte_or_zero(b, 3 * k),
        byte_or_zero(a, 3 * k + 1) == byte_or_zero(b, 3 * k + 1),
        byte_or_zero(a, 3 * k + 2) == byte_or_zero(b, 3 * k + 2),
{
    assert(six_bits(a, 4 * k) == six_bits(b, 4 * k));
    assert(six_bits(a, 4 * k + 1) == six_bits(b, 4 * k + 1));
    assert(six_bits(a, 4 * k + 2) == six_bits(b, 4 * k + 2));
    assert(six_bits(a, 4 * k + 3) == six_bits(b, 4 * k + 3));
    let x = three_bytes(a, 3 * k);
    let y = three_bytes(b, 3 * k);
    assert(3 * ((4 * k) / 4) == 3 * k);
    assert(3 * ((4 * k + 1) / 4) == 3 * k);
    assert(3 * ((4 * k + 2) / 4) == 3 * k);
    assert(3 * ((4 * k + 3) / 4) == 3 * k);
    lemma_four_sixes(x);
    lemma_four_sixes(y);
    assert(x == y);
    lemma_three_bytes(
        byte_or_zero(a, 3 * k),
        byte_or_zero(a, 3 * k + 1),
        byte_or_zero(a, 3 * k + 2),
        byte_or_zero(b, 3 * k),
        byte_or_zero(b, 3 * k + 1),
        byte_or_zero(b, 3 * k + 2),
    );
}

/// A number is made of its six-bit parts.
proof fn lemma_four_sixes(x: int)
    requires
        0 <= x,
    ensures
        x == 262144 * (x / 262144) + 4096 * (x / 4096 % 64) + 64 * (x / 64 % 64) + x % 64,
{
    assert(x / 4096 == (x / 64) / 64);
    assert(x / 262144 == (x / 4096) / 64);
}

/// Bytes are determined by the number they make.
proof fn lemma_three_bytes(a: int, b: int, c: int, d: int, e: int, f: int)
    requires
        0 <= a < 256 && 0 <= b < 256 && 0 <= c < 256,
        0 <= d < 256 && 0 <= e < 256 && 0 <= f < 256,
        a * 65536 + b * 256 + c == d * 65536 + e * 256 + f,
    ensures
        a == d && b == e && c == f,
{
}

/// The encoded bytes determine the bytes: the renderer can rebuild the file from them.
pub proof fn law_base64_determines_the_bytes(a: Seq<u8>, b: Seq<u8>)
    requires
        base64_of(a) == base64_of(b),
    ensures
        a == b,
{
    let text = base64_of(a);
    let other = base64_of(b);
    assert forall|i: int| 0 <= i < text.len() implies six_bits(a, i) == six_bits(b, i) && (6 * i
        < 8 * a.len() <==> 6 * i < 8 * b.len()) by {
        lemma_six_bits(a, i);
        lemma_six_bits(b, i);
        lemma_base64_char(six_bits(a, i), six_bits(b, i));
        lemma_base64_char(six_bits(b, i), six_bits(a, i));
        assert(text[i] == other[i]);
    }
    assert(a.len() == b.len()) by {
        if a.len() < b.len() {
            let i = lemma_length(a, b);
            assert(six_bits(a, i) == six_bits(b, i));
        } else if b.len() < a.len() {
            let i = lemma_length(b, a);
            assert(six_bits(a, i) == six_bits(b, i));
        }
    }
    assert forall|j: int| 0 <= j < a.len() implies a[j] == b[j] by {
        let k = j / 3;
        assert(4 * k + 4 <= text.len());
        lemma_same_six_bits(a, b, k);
        assert(byte_or_zero(a, j) == byte_or_zero(b, j));
    }
    assert(a =~= b);
}

/// Two lengths with equally long encodings differ in where the padding begins.
proof fn lemma_length(a: Seq<u8>, b: Seq<u8>) -> (i: int)
    requires
        a.len() < b.len(),
        (a.len() + 2) / 3 == (b.len() + 2) / 3,
    ensures
        0 <= i < 4 * ((a.len() + 2) / 3),
        8 * a.len() <= 6 * i < 8 * b.len(),
{
    ((8 * a.len() + 5) / 6) as int
}

// ---------------------------------------------------------------------------------------------
// Types
// ---------------------------------------------------------------------------------------------
/// The media type for an extension in small letters.
pub open spec fn mime_of(ext: Seq<char>) -> Seq<char> {
    if ext == "png"@ {
        "image/png"@
    } else if ext == "jpg"@ || ext == "jpeg"@ {
        "image/jpeg"@
    } else if ext == "gif"@ {
        "image/gif"@
    } else if ext == "webp"@ {
        "image/webp"@
    } else if ext == "svg"@ {
        "image/svg+xml"@
    } else if ext == "bmp"@ {
        "image/bmp"@
    } else if ext == "ico"@ {
        "image/x-icon"@
    } else if ext == "tiff"@ || ext == "tif"@ {
        "image/tiff"@
    } else if ext == "avif"@ {
        "image/avif"@
    } else if ext == "pdf"@ {
        "application/pdf"@
    } else {
        "application/octet-stream"@
    }
}

/// The media type for an extension in small letters.
pub fn sniff_mime(ext: &str) -> (r: String)
    ensures
        r@ == mime_of(ext@),
{
    let chars = to_chars(ext);
    let mime: &str = if spells(&chars, "png") {
        "image/png"
    } else if spells(&chars, "jpg") || spells(&chars, "jpeg") {
        "image/jpeg"
    } else if spells(&chars, "gif") {
        "image/gif"
    } else if spells(&chars, "webp") {
        "image/webp"
    } else if spells(&chars, "svg") {
        "image/svg+xml"
    } else if spells(&chars, "bmp") {
        "image/bmp"
    } else if spells(&chars, "ico") {
        "image/x-icon"
    } else if spells(&chars, "tiff") || spells(&chars, "tif") {
        "image/tiff"
    } else if spells(&chars, "avif") {
        "image/avif"
    } else if spells(&chars, "pdf") {
        "application/pdf"
    } else {
        "application/octet-stream"
    };
    mime.to_owned()
}

/// The extension of a path in small letters, empty where there is none.
pub open spec fn lower_extension(platform: Platform, path: Seq<char>) -> Seq<char> {
    match extension_of(platform, path) {
        Some(ext) => ascii_lower(ext),
        None => Seq::empty(),
    }
}

/// The answer for a file whose bytes have been read.
pub open spec fn download_of(platform: Platform, path: Seq<char>, bytes: Seq<u8>) -> DownloadView {
    DownloadView {
        name: shown_name(platform, path),
        mime_type: mime_of(lower_extension(platform, path)),
        data: base64_of(bytes),
    }
}

/// The answer for a file whose bytes have been read.
pub fn download_result(platform: Platform, path: &str, bytes: &Vec<u8>) -> (r: DownloadResult)
    requires
        base64_of(bytes@).len() <= isize::MAX,
    ensures
        r@ == download_of(platform, path@, bytes@),
{
    let ext = match extension(platform, path) {
        Some(ext) => to_ascii_lower(ext.as_str()),
        None => String::new(),
    };
    DownloadResult {
        name: display_name(platform, path),
        mime_type: sniff_mime(ext.as_str()),
        data: encode_base64(bytes),
    }
}

// ---------------------------------------------------------------------------------------------
// Downloading
// ---------------------------------------------------------------------------------------------
/// What is at a path, with links followed.
#[derive(Clone, Copy, Debug, PartialEq, Eq, Structural)]
pub enum FileStat {
    Nothing,
    /// A regular file of this many bytes.
    File(u64),
    SomethingElse,
}

/// What a download needs to have done; `T` is the type of texts.
#[verifier::ext_equal]
pub enum DownloadAsk<T> {
    /// Check that this is a workspace.
    CheckRoot(T),
    /// Resolve this path inside the workspace.
    Resolve(T),
    /// Report what is at the path.
    Stat,
    /// Read the bytes of the file.
    ReadBytes,
}

impl View for DownloadAsk<String> {
    type V = DownloadAsk<Seq<char>>;

    open spec fn view(&self) -> DownloadAsk<Seq<char>> {
        match self {
            DownloadAsk::CheckRoot(t) => DownloadAsk::CheckRoot(t@),
            DownloadAsk::Resolve(t) => DownloadAsk::Resolve(t@),
            DownloadAsk::Stat => DownloadAsk::Stat,
            DownloadAsk::ReadBytes => DownloadAsk::ReadBytes,
        }
    }
}

/// What has been observed for a download. Errors are messages.
pub struct DownloadSeen {
    pub root: Option<Result<(), String>>,
    pub resolved: Option<Result<(), String>>,
    pub stat: Option<FileStat>,
    pub bytes: Option<Result<Vec<u8>, String>>,
}

impl DownloadSeen {
    /// Nothing has been observed yet.
    pub fn new() -> (seen: DownloadSeen)
        ensures
            seen == (DownloadSeen { root: None, resolved: None, stat: None, bytes: None }),
    {
        DownloadSeen { root: None, resolved: None, stat: None, bytes: None }
    }

    /// The bytes that were read, if any, have an encoding that a string can hold.
    pub open spec fn is_encodable(self) -> bool {
        self.bytes matches Some(Ok(bytes)) ==> base64_of(bytes@).len() <= isize::MAX
    }
}

/// The message for a file over the limit.
pub open spec fn too_large() -> Seq<char> {
    "File too large to preview (max "@ + decimal((MAX_DOWNLOAD_BYTES / 1024 / 1024) as nat)
        + " MB)"@
}

/// The step that follows from what has been observed: the path is checked, then what is there and
/// how large it is; only then is the file read.
pub open spec fn download_next(
    platform: Platform,
    workspace: Seq<char>,
    path: Seq<char>,
    seen: DownloadSeen,
) -> StepView<DownloadAsk<Seq<char>>, DownloadView> {
    if trimmed(path).len() == 0 {
        StepView::Done(Err("Missing path"@))
    } else {
        match (seen.root, seen.resolved, seen.stat, seen.bytes) {
            (None, _, _, _) => StepView::Ask(DownloadAsk::CheckRoot(workspace)),
            (Some(Err(e)), _, _, _) => StepView::Done(Err(e@)),
            (_, None, _, _) => StepView::Ask(DownloadAsk::Resolve(path)),
            (_, Some(Err(e)), _, _) => StepView::Done(Err(e@)),
            (_, _, None, _) => StepView::Ask(DownloadAsk::Stat),
            (_, _, Some(FileStat::Nothing), _) => StepView::Done(Err("File not found"@)),
            (_, _, Some(FileStat::SomethingElse), _) => StepView::Done(Err("Not a regular file"@)),
            (_, _, Some(FileStat::File(size)), bytes) => if size > MAX_DOWNLOAD_BYTES {
                StepView::Done(Err(too_large()))
            } else {
                match bytes {
                    None => StepView::Ask(DownloadAsk::ReadBytes),
                    Some(Err(e)) => StepView::Done(Err("Read failed: "@ + e@)),
                    Some(Ok(bytes)) => StepView::Done(Ok(download_of(platform, path, bytes@))),
                }
            },
        }
    }
}

/// Reads a file for the image preview: decides the next step from what has been observed.
pub fn cmd_workspace_download_file(
    platform: Platform,
    workspace: &str,
    path: &str,
    seen: &DownloadSeen,
) -> (step: Step<DownloadAsk<String>, DownloadResult>)
    requires
        seen.is_encodable(),
    ensures
        step@ == download_next(platform, workspace@, path@, *seen),
{
    if trim(path).as_str().is_empty() {
        return Step::Done(Err("Missing path".to_owned()));
    }
    match &seen.root {
        None => {
            return Step::Ask(DownloadAsk::CheckRoot(workspace.to_owned()));
        },
        Some(Err(e)) => {
            return Step::Done(Err(e.clone()));
        },
        Some(Ok(_)) => {},
    }
    match &seen.resolved {
        None => {
            return Step::Ask(DownloadAsk::Resolve(path.to_owned()));
        },
        Some(Err(e)) => {
            return Step::Done(Err(e.clone()));
        },
        Some(Ok(_)) => {},
    }
    let size: u64 = match seen.stat {
        None => {
            return Step::Ask(DownloadAsk::Stat);
        },
        Some(FileStat::Nothing) => {
            return Step::Done(Err("File not found".to_owned()));
        },
        Some(FileStat::SomethingElse) => {
            return Step::Done(Err("Not a regular file".to_owned()));
        },
        Some(FileStat::File(size)) => size,
    };
    if size > MAX_DOWNLOAD_BYTES {
        let mut message = "File too large to preview (max ".to_owned();
        push_decimal(&mut message, MAX_DOWNLOAD_BYTES / 1024 / 1024);
        message.append(" MB)");
        return Step::Done(Err(message));
    }
    match &seen.bytes {
        None => Step::Ask(DownloadAsk::ReadBytes),
        Some(Err(e)) => Step::Done(Err(concat2("Read failed: ", e.as_str()))),
        Some(Ok(bytes)) => Step::Done(Ok(download_result(platform, path, bytes))),
    }
}

/// A file is read only when it is a regular file within the limit.
pub proof fn law_only_small_files_are_read(
    platform: Platform,
    workspace: Seq<char>,
    path: Seq<char>,
    seen: DownloadSeen,
)
    requires
        download_next(platform, workspace, path, seen) == StepView::<
            DownloadAsk<Seq<char>>,
            DownloadView,
        >::Ask(DownloadAsk::ReadBytes),
    ensures
        seen.resolved matches Some(Ok(_)),
        seen.stat matches Some(FileStat::File(size)) && size <= MAX_DOWNLOAD_BYTES,
{
}

/// Two downloads that send the same data have read the same bytes.
pub proof fn law_download_determines_the_bytes(
    platform: Platform,
    path: Seq<char>,
    other_path: Seq<char>,
    a: Seq<u8>,
    b: Seq<u8>,
)
    requires
        download_of(platform, path, a).data == download_of(platform, other_path, b).data,
    ensures
        a == b,
{
    law_base64_determines_the_bytes(a, b);
}

/// A download asks only for what has not been observed.
pub proof fn law_download_asks_what_is_unknown(
    platform: Platform,
    workspace: Seq<char>,
    path: Seq<char>,
    seen: DownloadSeen,
)
    ensures
        download_next(platform, workspace, path, seen) matches StepView::Ask(ask) ==> match ask {
            DownloadAsk::CheckRoot(_) => seen.root is None,
            DownloadAsk::Resolve(_) => seen.resolved is None,
            DownloadAsk::Stat => seen.stat is None,
            DownloadAsk::ReadBytes => seen.bytes is None,
        },
{
}

/// How many questions of a download are still open.
pub open spec fn download_unknowns(seen: DownloadSeen) -> nat {
    unknown(seen.root) + unknown(seen.resolved) + unknown(seen.stat) + unknown(seen.bytes)
}

/// What was observed afterwards is what was observed before and an answer to the question.
pub open spec fn download_answered(ask: DownloadAsk<Seq<char>>, before: DownloadSeen, after: DownloadSeen) -> bool {
    match ask {
        DownloadAsk::CheckRoot(_) => after.root is Some && after == (DownloadSeen { root: after.root, ..before }),
        DownloadAsk::Resolve(_) => after.resolved is Some && after == (DownloadSeen { resolved: after.resolved, ..before }),
        DownloadAsk::Stat => after.stat is Some && after == (DownloadSeen { stat: after.stat, ..before }),
        DownloadAsk::ReadBytes => after.bytes is Some && after == (DownloadSeen { bytes: after.bytes, ..before }),
    }
}

/// A download ends: every answer leaves fewer questions open.
pub proof fn law_download_ends(
    platform: Platform,
    workspace: Seq<char>,
    path: Seq<char>,
    seen: DownloadSeen,
    ask: DownloadAsk<Seq<char>>,
    after: DownloadSeen,
)
    requires
        download_next(platform, workspace, path, seen) == StepView::<
            DownloadAsk<Seq<char>>,
            DownloadView,
        >::Ask(ask),
        download_answered(ask, seen, after),
    ensures
        download_unknowns(after) < download_unknowns(seen),
{
}

// ---------------------------------------------------------------------------------------------
// Laws on what is sent
// ---------------------------------------------------------------------------------------------
/// The media types of the known extensions; every other extension, and none, is sent as plain bytes.
pub proof fn law_media_types(ext: Seq<char>)
    ensures
        mime_of("png"@) == "image/png"@,
        mime_of("jpg"@) == "image/jpeg"@,
        mime_of("jpeg"@) == "image/jpeg"@,
        mime_of("gif"@) == "image/gif"@,
        mime_of("webp"@) == "image/webp"@,
        mime_of("svg"@) == "image/svg+xml"@,
        mime_of("bmp"@) == "image/bmp"@,
        mime_of("ico"@) == "image/x-icon"@,
        mime_of("tiff"@) == "image/tiff"@,
        mime_of("tif"@) == "image/tiff"@,
        mime_of("avif"@) == "image/avif"@,
        mime_of("pdf"@) == "application/pdf"@,
        !seq![
            "png"@,
            "jpg"@,
            "jpeg"@,
            "gif"@,
            "webp"@,
            "svg"@,
            "bmp"@,
            "ico"@,
            "tiff"@,
            "tif"@,
            "avif"@,
            "pdf"@,
        ].contains(ext) ==> mime_of(ext) == "application/octet-stream"@,
{
    let all = seq![
        "png"@,
        "jpg"@,
        "jpeg"@,
        "gif"@,
        "webp"@,
        "svg"@,
        "bmp"@,
        "ico"@,
        "tiff"@,
        "tif"@,
        "avif"@,
        "pdf"@,
    ];
    reveal_strlit("png");
    reveal_strlit("jpg");
    reveal_strlit("jpeg");
    reveal_strlit("gif");
    reveal_strlit("webp");
    reveal_strlit("svg");
    reveal_strlit("bmp");
    reveal_strlit("ico");
    reveal_strlit("tiff");
    reveal_strlit("tif");
    reveal_strlit("avif");
    reveal_strlit("pdf");
    assert("png"@[0] == 'p' && "png"@[1] == 'n');
    assert("jpg"@[0] == 'j' && "jpg"@[1] == 'p');
    assert("jpeg"@[0] == 'j' && "jpeg"@[1] == 'p');
    assert("gif"@[0] == 'g' && "gif"@[1] == 'i');
    assert("webp"@[0] == 'w' && "webp"@[1] == 'e');
    assert("svg"@[0] == 's' && "svg"@[1] == 'v');
    assert("bmp"@[0] == 'b' && "bmp"@[1] == 'm');
    assert("ico"@[0] == 'i' && "ico"@[1] == 'c');
    assert("tiff"@[0] == 't' && "tiff"@[1] == 'i');
    assert("tif"@[0] == 't' && "tif"@[1] == 'i');
    assert("avif"@[0] == 'a' && "avif"@[1] == 'v');
    assert("pdf"@[0] == 'p' && "pdf"@[1] == 'd');
    assert(all[0] == "png"@);
    assert(all[1] == "jpg"@);
    assert(all[2] == "jpeg"@);
    assert(all[3] == "gif"@);
    assert(all[4] == "webp"@);
    assert(all[5] == "svg"@);
    assert(all[6] == "bmp"@);
    assert(all[7] == "ico"@);
    assert(all[8] == "tiff"@);
    assert(all[9] == "tif"@);
    assert(all[10] == "avif"@);
    assert(all[11] == "pdf"@);
}

/// What is sent is named by the file name, and typed by what follows the last dot of it, however many
/// dots stand before that one and whatever the case of its letters.
pub proof fn law_last_dot_decides_the_media_type(
    platform: Platform,
    path: Seq<char>,
    bytes: Seq<u8>,
    stem: Seq<char>,
    ext: Seq<char>,
)
    requires
        file_name_of(platform, path) == Some(stem + seq!['.'] + ext),
        stem.len() > 0,
        !ext.contains('.'),
    ensures
        download_of(platform, path, bytes).mime_type == mime_of(ascii_lower(ext)),
        download_of(platform, path, bytes).name == stem + seq!['.'] + ext,
{
    law_extension_follows_the_last_dot(platform, path, stem, ext);
}

/// The same of a path that is a name alone, and of that name in a directory.
pub proof fn law_media_type_of_a_named_file(
    platform: Platform,
    dir: Seq<char>,
    bytes: Seq<u8>,
    stem: Seq<char>,
    ext: Seq<char>,
)
    requires
        takes_names(platform, dir),
        stem.len() > 0,
        forall|i: int| 0 <= i < stem.len() ==> !separates(platform, #[trigger] stem[i]),
        forall|i: int| 0 <= i < ext.len() ==> !separates(platform, #[trigger] ext[i]),
        !ext.contains('.'),
        !has_drive(platform, stem + seq!['.'] + ext),
        !(stem == seq!['.'] && ext.len() == 0),
    ensures
        ({
            let name = stem + seq!['.'] + ext;
            let path = joined_path(platform, dir, name);
            &&& download_of(platform, name, bytes).mime_type == mime_of(ascii_lower(ext))
            &&& download_of(platform, name, bytes).name == name
            &&& download_of(platform, path, bytes).mime_type == mime_of(ascii_lower(ext))
            &&& download_of(platform, path, bytes).name == name
        }),
{
    let name = stem + seq!['.'] + ext;
    law_stem_and_extension(platform, stem, ext);
    law_join_has_file_name(platform, dir, name);
    law_last_dot_decides_the_media_type(platform, name, bytes, stem, ext);
    law_last_dot_decides_the_media_type(
        platform,
        joined_path(platform, dir, name),
        bytes,
        stem,
        ext,
    );
}

/// A file whose name has no dot behind its first character is sent as plain bytes, and so is a path
/// without a file name, which is named by the whole path.
pub proof fn law_no_extension_is_plain_bytes(
    platform: Platform,
    path: Seq<char>,
    bytes: Seq<u8>,
)
    requires
        file_name_of(platform, path) matches Some(name) ==> forall|j: int|
            0 < j < name.len() ==> name[j] != '.',
    ensures
        download_of(platform, path, bytes).mime_type == "application/octet-stream"@,
        download_of(platform, path, bytes).name == (match file_name_of(platform, path) {
            Some(name) => name,
            None => path,
        }),
{
    law_no_dot_no_extension(platform, path);
    law_media_types(Seq::empty());
    let all = seq![
        "png"@,
        "jpg"@,
        "jpeg"@,
        "gif"@,
        "webp"@,
        "svg"@,
        "bmp"@,
        "ico"@,
        "tiff"@,
        "tif"@,
        "avif"@,
        "pdf"@,
    ];
    reveal_strlit("png");
    reveal_strlit("jpg");
    reveal_strlit("jpeg");
    reveal_strlit("gif");
    reveal_strlit("webp");
    reveal_strlit("svg");
    reveal_strlit("bmp");
    reveal_strlit("ico");
    reveal_strlit("tiff");
    reveal_strlit("tif");
    reveal_strlit("avif");
    reveal_strlit("pdf");
    if all.contains(Seq::<char>::empty()) {
        let i = choose|i: int| 0 <= i < all.len() && all[i] == Seq::<char>::empty();
        assert(all[i].len() > 0);
    }
}

/// The value of a character of the standard alphabet: `A` to `Z`, `a` to `z`, `0` to `9`, `+`, `/`.
pub open spec fn base64_value(c: char) -> int {
    if 65 <= c as int <= 90 {
        c as int - 65
    } else if 97 <= c as int <= 122 {
        c as int - 71
    } else if 48 <= c as int <= 57 {
        c as int + 4
    } else if c == '+' {
        62
    } else if c == '/' {
        63
    } else {
        0
    }
}

/// Decoding gives the bytes back: four characters hold three bytes, as one number with the first
/// character and the first byte in front, and the padding counts as zero.
pub proof fn law_base64_decodes(bytes: Seq<u8>, k: int)
    requires
        0 <= 3 * k < bytes.len(),
    ensures
        ({
            let text = base64_of(bytes);
            &&& text.len() == 4 * ((bytes.len() + 2) / 3)
            &&& 4 * k + 4 <= text.len()
            &&& base64_value(text[4 * k]) * 262144 + base64_value(text[4 * k + 1]) * 4096
                + base64_value(text[4 * k + 2]) * 64 + base64_value(text[4 * k + 3])
                == bytes[3 * k] * 65536 + (if 3 * k + 1 < bytes.len() {
                bytes[3 * k + 1] * 256
            } else {
                0
            }) + (if 3 * k + 2 < bytes.len() {
                bytes[3 * k + 2] as int
            } else {
                0
            })
            &&& (text[4 * k + 2] == '=') == (3 * k + 1 >= bytes.len())
            &&& (text[4 * k + 3] == '=') == (3 * k + 2 >= bytes.len())
        }),
{
    let text = base64_of(bytes);
    let x = three_bytes(bytes, 3 * k);
    assert forall|i: int| 4 * k <= i < 4 * k + 4 implies base64_value(#[trigger] text[i])
        == six_bits(bytes, i) && (text[i] == '=') == (6 * i >= 8 * bytes.len()) by {
        lemma_six_bits(bytes, i);
        lemma_base64_char(six_bits(bytes, i), 0);
        let six = six_bits(bytes, i);
        assert(base64_value(base64_char(six)) == six);
    }
    assert(base64_value(text[4 * k]) == six_bits(bytes, 4 * k));
    assert(base64_value(text[4 * k + 1]) == six_bits(bytes, 4 * k + 1));
    assert(base64_value(text[4 * k + 2]) == six_bits(bytes, 4 * k + 2));
    assert(base64_value(text[4 * k + 3]) == six_bits(bytes, 4 * k + 3));
    assert(3 * ((4 * k) / 4) == 3 * k);
    assert(3 * ((4 * k + 1) / 4) == 3 * k);
    assert(3 * ((4 * k + 2) / 4) == 3 * k);
    assert(3 * ((4 * k + 3) / 4) == 3 * k);
    lemma_four_sixes(x);
}

/// A regular file of the workspace is read and sent whole; it is refused only where it is larger than
/// 26214400 bytes or cannot be read.
pub proof fn law_regular_file_is_sent(
    platform: Platform,
    workspace: Seq<char>,
    path: Seq<char>,
    seen: DownloadSeen,
    size: u64,
)
    requires
        !is_blank(path),
        seen.root matches Some(Ok(_)),
        seen.resolved matches Some(Ok(_)),
        seen.stat == Some(FileStat::File(size)),
    ensures
        ({
            let next = download_next(platform, workspace, path, seen);
            &&& size > 26214400 ==> next == StepView::<DownloadAsk<Seq<char>>, DownloadView>::Done(
                Err("File too large to preview (max "@ + decimal(25) + " MB)"@),
            )
            &&& size <= 26214400 && seen.bytes is None ==> next == StepView::<
                DownloadAsk<Seq<char>>,
                DownloadView,
            >::Ask(DownloadAsk::ReadBytes)
            &&& size <= 26214400 ==> (seen.bytes matches Some(Err(e)) ==> next == StepView::<
                DownloadAsk<Seq<char>>,
                DownloadView,
            >::Done(Err("Read failed: "@ + e@)))
            &&& size <= 26214400 ==> (seen.bytes matches Some(Ok(bytes)) ==> next == StepView::<
                DownloadAsk<Seq<char>>,
                DownloadView,
            >::Done(Ok(download_of(platform, path, bytes@))))
        }),
{
    law_blank_trims_to_nothing(path);
}

/// Before a file is measured, the path, the workspace and what is at the path are checked, in this
/// order; each refusal is the answer. The path is resolved as it was given.
pub proof fn law_download_checks_in_order(
    platform: Platform,
    workspace: Seq<char>,
    path: Seq<char>,
    seen: DownloadSeen,
)
    ensures
        ({
            let next = download_next(platform, workspace, path, seen);
            let rooted = !is_blank(path) && (seen.root matches Some(Ok(_)));
            let resolved = rooted && (seen.resolved matches Some(Ok(_)));
            &&& is_blank(path) ==> next == StepView::<DownloadAsk<Seq<char>>, DownloadView>::Done(
                Err("Missing path"@),
            )
            &&& !is_blank(path) && seen.root is None ==> next == StepView::<
                DownloadAsk<Seq<char>>,
                DownloadView,
            >::Ask(DownloadAsk::CheckRoot(workspace))
            &&& !is_blank(path) ==> (seen.root matches Some(Err(e)) ==> next == StepView::<
                DownloadAsk<Seq<char>>,
                DownloadView,
            >::Done(Err(e@)))
            &&& rooted && seen.resolved is None ==> next == StepView::<
                DownloadAsk<Seq<char>>,
                DownloadView,
            >::Ask(DownloadAsk::Resolve(path))
            &&& rooted ==> (seen.resolved matches Some(Err(e)) ==> next == StepView::<
                DownloadAsk<Seq<char>>,
                DownloadView,
            >::Done(Err(e@)))
            &&& resolved && seen.stat is None ==> next == StepView::<
                DownloadAsk<Seq<char>>,
                DownloadView,
            >::Ask(DownloadAsk::Stat)
            &&& resolved && seen.stat == Some(FileStat::Nothing) ==> next == StepView::<
                DownloadAsk<Seq<char>>,
                DownloadView,
            >::Done(Err("File not found"@))
            &&& resolved && seen.stat == Some(FileStat::SomethingElse) ==> next == StepView::<
                DownloadAsk<Seq<char>>,
                DownloadView,
            >::Done(Err("Not a regular file"@))
        }),
{
    law_blank_trims_to_nothing(path);
}

/// The data that is sent is the whole file: as many groups of four characters as it has groups of
/// three bytes, begun or full, each of which decodes to its bytes.
pub proof fn law_download_sends_the_whole_file(
    platform: Platform,
    path: Seq<char>,
    bytes: Seq<u8>,
    k: int,
)
    requires
        0 <= 3 * k < bytes.len(),
    ensures
        ({
            let data = download_of(platform, path, bytes).data;
            &&& data.len() == 4 * ((bytes.len() + 2) / 3)
            &&& base64_value(data[4 * k]) * 262144 + base64_value(data[4 * k + 1]) * 4096
                + base64_value(data[4 * k + 2]) * 64 + base64_value(data[4 * k + 3])
                == bytes[3 * k] * 65536 + (if 3 * k + 1 < bytes.len() {
                bytes[3 * k + 1] * 256
            } else {
                0
            }) + (if 3 * k + 2 < bytes.len() {
                bytes[3 * k + 2] as int
            } else {
                0
            })
        }),
{
    law_base64_decodes(bytes, k);
}

} // verus!
