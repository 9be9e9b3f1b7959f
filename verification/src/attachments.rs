//! Composer attachments: the MIME type a file name implies, the size
//! label, accepting read files and pasted images under the per-message
//! caps (as base64 data URLs), the attachment download URL, and the
//! `@path` token a dropped file context inserts.

use vstd::prelude::*;

use base64::Engine;

use crate::text;

verus! {

#[verifier::external_type_specification]
#[verifier::external_body]
pub struct ExJsonError(serde_json::Error);

/// At most this many attachments per message.
pub const MAX_ATTACHMENTS: usize = 8;

/// At most this many bytes per attachment.
pub const MAX_ATTACHMENT_BYTES: usize = 10485760;

/// What `str::to_lowercase` returns for `s` (Unicode lower case).
pub uninterp spec fn unicode_lower(s: Seq<char>) -> Seq<char>;

/// Every character of `s` is ASCII.
pub open spec fn all_ascii(s: Seq<char>) -> bool {
    forall|i: int| 0 <= i < s.len() ==> s[i] <= '\u{7f}'
}

/// `s` lower-cased as `str::to_lowercase` does it: ASCII text by turning
/// `A`-`Z` into `a`-`z`, other text by the Unicode mapping.
pub open spec fn lowercase_of(s: Seq<char>) -> Seq<char> {
    if all_ascii(s) {
        text::lower(s)
    } else {
        unicode_lower(s)
    }
}

/// `str::to_lowercase`. Claimed: the result depends on the text alone, and
/// on ASCII text it is the text with `A`-`Z` turned into `a`-`z` and every
/// other character kept (std documents `to_lowercase` as lower-casing ASCII
/// characters as `to_ascii_lowercase` does, and `to_ascii_lowercase` as
/// mapping `A`-`Z` to `a`-`z` and nothing else).
#[verifier::external_body]
pub(crate) fn to_lowercase(s: &str) -> (r: String)
    ensures
        r@ == unicode_lower(s@),
        all_ascii(s@) ==> r@ == text::lower(s@),
{
    s.to_lowercase()
}

/// The standard base64 text (with padding) of `bytes`.
pub uninterp spec fn base64_standard(bytes: Seq<u8>) -> Seq<char>;

/// `base64::engine::general_purpose::STANDARD.encode`. Claimed: the text
/// depends on the bytes alone. The length bound keeps the output size
/// computation from overflowing.
#[verifier::external_body]
fn encode_standard(bytes: &[u8]) -> (r: String)
    requires
        bytes@.len() <= isize::MAX,
    ensures
        r@ == base64_standard(bytes@),
{
    base64::engine::general_purpose::STANDARD.encode(bytes)
}

/// A lowercase hexadecimal digit.
pub open spec fn hex_digit(n: int) -> char {
    if n < 10 {
        (('0' as int) + n) as char
    } else {
        (('a' as int) + n - 10) as char
    }
}

/// One character as a JSON string writes it: `"` and `\` escaped, the
/// control characters below U+0020 as `\b \t \n \f \r` or `\u00xx`,
/// everything else as it is.
pub open spec fn json_escape(c: char) -> Seq<char> {
    if c == '"' {
        seq!['\\', '"']
    } else if c == '\\' {
        seq!['\\', '\\']
    } else if c == '\x08' {
        seq!['\\', 'b']
    } else if c == '\t' {
        seq!['\\', 't']
    } else if c == '\n' {
        seq!['\\', 'n']
    } else if c == '\x0c' {
        seq!['\\', 'f']
    } else if c == '\r' {
        seq!['\\', 'r']
    } else if (c as int) < 0x20 {
        seq!['\\', 'u', '0', '0', hex_digit((c as int) / 16), hex_digit((c as int) % 16)]
    } else {
        seq![c]
    }
}

pub open spec fn json_escaped(s: Seq<char>) -> Seq<char>
    decreases s.len(),
{
    if s.len() == 0 {
        seq![]
    } else {
        json_escaped(s.drop_last()) + json_escape(s.last())
    }
}

/// What `serde_json::to_string` writes for a string: the escaped text
/// between double quotes.
pub open spec fn json_string(s: Seq<char>) -> Seq<char> {
    seq!['"'] + json_escaped(s) + seq!['"']
}

/// `serde_json::to_string` on a `str`. Claimed: it succeeds (a string
/// serializes without a map or a failing impl) and writes the string
/// between quotes with serde_json's escape table (`format_escaped_str`).
#[verifier::external_body]
fn json_quote(s: &str) -> (r: Result<String, serde_json::Error>)
    ensures
        match r {
            Ok(q) => q@ == json_string(s@),
            Err(_) => false,
        },
{
    serde_json::to_string(s)
}

/// What `std::path::Path::join` gives for `base` and `path` (as text).
pub uninterp spec fn joined_path(base: Seq<char>, path: Seq<char>) -> Seq<char>;

/// `std::path::Path::join`, read back with `to_string_lossy` (lossless for
/// text that came from strings). Claimed: the result depends on the two
/// texts alone.
#[verifier::external_body]
fn path_join(base: &str, path: &str) -> (r: String)
    ensures
        r@ == joined_path(base@, path@),
{
    std::path::Path::new(base).join(path).to_string_lossy().into_owned()
}

/// Index of the last `.` of `s`, if any.
pub open spec fn last_dot(s: Seq<char>, n: int) -> Option<int>
    decreases n,
{
    if n <= 0 || n > s.len() {
        None
    } else if s[n - 1] == '.' {
        Some(n - 1)
    } else {
        last_dot(s, n - 1)
    }
}

/// The MIME type for a lower-cased file extension.
pub open spec fn mime_for_extension(e: Seq<char>) -> Seq<char> {
    if e == "png"@ {
        "image/png"@
    } else if e == "jpg"@ || e == "jpeg"@ {
        "image/jpeg"@
    } else if e == "gif"@ {
        "image/gif"@
    } else if e == "webp"@ {
        "image/webp"@
    } else if e == "svg"@ {
        "image/svg+xml"@
    } else if e == "bmp"@ {
        "image/bmp"@
    } else if e == "c"@ || e == "h"@ {
        "text/x-c"@
    } else if e == "cjs"@ || e == "js"@ || e == "mjs"@ {
        "text/javascript"@
    } else if e == "cpp"@ || e == "hpp"@ {
        "text/x-c++"@
    } else if e == "cs"@ {
        "text/x-csharp"@
    } else if e == "css"@ {
        "text/css"@
    } else if e == "csv"@ {
        "text/csv"@
    } else if e == "go"@ {
        "text/x-go"@
    } else if e == "html"@ {
        "text/html"@
    } else if e == "java"@ {
        "text/x-java"@
    } else if e == "json"@ {
        "application/json"@
    } else if e == "jsx"@ {
        "text/jsx"@
    } else if e == "kt"@ {
        "text/x-kotlin"@
    } else if e == "log"@ || e == "txt"@ || e == "svelte"@ || e == "vue"@ {
        "text/plain"@
    } else if e == "md"@ || e == "markdown"@ {
        "text/markdown"@
    } else if e == "pdf"@ {
        "application/pdf"@
    } else if e == "php"@ {
        "text/x-php"@
    } else if e == "py"@ {
        "text/x-python"@
    } else if e == "rb"@ {
        "text/x-ruby"@
    } else if e == "rs"@ {
        "text/x-rust"@
    } else if e == "sh"@ {
        "text/x-shellscript"@
    } else if e == "sql"@ {
        "application/sql"@
    } else if e == "swift"@ {
        "text/x-swift"@
    } else if e == "toml"@ {
        "application/toml"@
    } else if e == "ts"@ || e == "tsx"@ {
        "application/typescript"@
    } else if e == "xml"@ {
        "application/xml"@
    } else if e == "yaml"@ || e == "yml"@ {
        "application/yaml"@
    } else {
        "application/octet-stream"@
    }
}

/// The MIME type a file name implies: by its extension (after the last
/// `.`, lower-cased); octet-stream without one.
pub open spec fn mime_for_name(name: Seq<char>) -> Seq<char> {
    match last_dot(name, name.len() as int) {
        Some(i) => mime_for_extension(lowercase_of(name.skip(i + 1))),
        None => "application/octet-stream"@,
    }
}

/// The MIME type of a lowercase file extension.
pub fn extension_mime_type(e: &str) -> (r: &'static str)
    ensures
        r@ == mime_for_extension(e@),
{
    if text::str_eq(e, "png") {
        "image/png"
    } else if text::str_eq(e, "jpg") || text::str_eq(e, "jpeg") {
        "image/jpeg"
    } else if text::str_eq(e, "gif") {
        "image/gif"
    } else if text::str_eq(e, "webp") {
        "image/webp"
    } else if text::str_eq(e, "svg") {
        "image/svg+xml"
    } else if text::str_eq(e, "bmp") {
        "image/bmp"
    } else if text::str_eq(e, "c") || text::str_eq(e, "h") {
        "text/x-c"
    } else if text::str_eq(e, "cjs") || text::str_eq(e, "js") || text::str_eq(e, "mjs") {
        "text/javascript"
    } else if text::str_eq(e, "cpp") || text::str_eq(e, "hpp") {
        "text/x-c++"
    } else if text::str_eq(e, "cs") {
        "text/x-csharp"
    } else if text::str_eq(e, "css") {
        "text/css"
    } else if text::str_eq(e, "csv") {
        "text/csv"
    } else if text::str_eq(e, "go") {
        "text/x-go"
    } else if text::str_eq(e, "html") {
        "text/html"
    } else if text::str_eq(e, "java") {
        "text/x-java"
    } else if text::str_eq(e, "json") {
        "application/json"
    } else if text::str_eq(e, "jsx") {
        "text/jsx"
    } else if text::str_eq(e, "kt") {
        "text/x-kotlin"
    } else if text::str_eq(e, "log") || text::str_eq(e, "txt") || text::str_eq(e, "svelte")
        || text::str_eq(e, "vue") {
        "text/plain"
    } else if text::str_eq(e, "md") || text::str_eq(e, "markdown") {
        "text/markdown"
    } else if text::str_eq(e, "pdf") {
        "application/pdf"
    } else if text::str_eq(e, "php") {
        "text/x-php"
    } else if text::str_eq(e, "py") {
        "text/x-python"
    } else if text::str_eq(e, "rb") {
        "text/x-ruby"
    } else if text::str_eq(e, "rs") {
        "text/x-rust"
    } else if text::str_eq(e, "sh") {
        "text/x-shellscript"
    } else if text::str_eq(e, "sql") {
        "application/sql"
    } else if text::str_eq(e, "swift") {
        "text/x-swift"
    } else if text::str_eq(e, "toml") {
        "application/toml"
    } else if text::str_eq(e, "ts") || text::str_eq(e, "tsx") {
        "application/typescript"
    } else if text::str_eq(e, "xml") {
        "application/xml"
    } else if text::str_eq(e, "yaml") || text::str_eq(e, "yml") {
        "application/yaml"
    } else {
        "application/octet-stream"
    }
}

/// The MIME type of an attachment, from its file name.
pub fn infer_attachment_mime_type(name: &str) -> (r: &'static str)
    ensures
        r@ == mime_for_name(name@),
{
    let v = text::chars_of(name);
    let mut i: usize = v.len();
    while i > 0 && v[i - 1] != '.'
        invariant
            i <= v@.len(),
            v@ == name@,
            last_dot(v@, v@.len() as int) == last_dot(v@, i as int),
        decreases i,
    {
        i -= 1;
    }
    if i == 0 {
        return "application/octet-stream";
    }
    let ext = text::string_of(&v, i, v.len());
    assert(v@.subrange(i as int, v@.len() as int) =~= v@.skip(i as int));
    let lower = to_lowercase(ext.as_str());
    extension_mime_type(lower.as_str())
}

/// The type names an image.
pub open spec fn is_image_mime(mime: Seq<char>) -> bool {
    mime.len() >= 6 && mime.take(6) == "image/"@
}

fn starts_with_image(mime: &str) -> (b: bool)
    ensures
        b == is_image_mime(mime@),
{
    let v = text::chars_of(mime);
    proof {
        reveal_strlit("image/");
    }
    if v.len() < 6 {
        return false;
    }
    let head = text::string_of(&v, 0, 6);
    assert(v@.subrange(0, 6) =~= v@.take(6));
    text::str_eq(head.as_str(), "image/")
}

/// The exact size label of an attachment below one MiB ("512 B",
/// "84 KB"); larger sizes are labelled in fractional megabytes.
pub fn attachment_size_label(bytes: u64) -> (r: Option<String>)
    ensures
        bytes < 1024 ==> (r matches Some(s) && s@ == text::decimal(bytes as nat) + " B"@),
        1024 <= bytes < 1048576 ==> (r matches Some(s) && s@ == text::decimal(
            (bytes / 1024) as nat,
        ) + " KB"@),
        bytes >= 1048576 ==> r is None,
{
    if bytes >= 1048576 {
        return None;
    }
    let (n, unit) = if bytes < 1024 {
        (bytes, " B")
    } else {
        (bytes / 1024, " KB")
    };
    let mut out: Vec<char> = Vec::new();
    text::push_decimal(&mut out, n);
    let mut s = text::string_from(&out);
    text::push_str(&mut s, unit);
    assert(out@ =~= text::decimal(n as nat));
    Some(s)
}

/// A staged attachment, inlined as a data URL.
pub struct PendingAttachment {
    pub name: String,
    pub mime_type: String,
    pub size_bytes: i64,
    pub data_url: String,
    pub is_image: bool,
}

/// `data:<mime>;base64,<bytes>`.
pub open spec fn data_url(mime: Seq<char>, bytes: Seq<u8>) -> Seq<char> {
    "data:"@ + mime + ";base64,"@ + base64_standard(bytes)
}

/// The attachment staged from a file or image.
pub open spec fn staged(
    a: PendingAttachment,
    name: Seq<char>,
    mime: Seq<char>,
    bytes: Seq<u8>,
    image: bool,
) -> bool {
    &&& a.name@ == name
    &&& a.mime_type@ == mime
    &&& a.size_bytes == bytes.len()
    &&& a.data_url@ == data_url(mime, bytes)
    &&& a.is_image == image
}

/// `data:<mime>;base64,<encoded>`.
pub open spec fn data_url_of(mime: Seq<char>, encoded: Seq<char>) -> Seq<char> {
    "data:"@ + mime + ";base64,"@ + encoded
}

/// The attachment for `size` bytes whose base64 text is `encoded`.
pub fn attachment_from_encoded(name: String, mime: &str, size: usize, encoded: &str, image: bool) -> (a:
    PendingAttachment)
    requires
        size <= i64::MAX,
    ensures
        a.name@ == name@,
        a.mime_type@ == mime@,
        a.size_bytes == size,
        a.data_url@ == data_url_of(mime@, encoded@),
        a.is_image == image,
{
    let mut url = String::from_str("data:");
    text::push_str(&mut url, mime);
    text::push_str(&mut url, ";base64,");
    text::push_str(&mut url, encoded);
    proof {
        reveal_strlit("data:");
    }
    PendingAttachment {
        name,
        mime_type: text::string_from(&text::chars_of(mime)),
        size_bytes: size as i64,
        data_url: url,
        is_image: image,
    }
}

fn make_attachment(name: String, mime: &str, bytes: &Vec<u8>, image: bool) -> (a: PendingAttachment)
    requires
        bytes@.len() <= MAX_ATTACHMENT_BYTES,
    ensures
        staged(a, name@, mime@, bytes@, image),
{
    let encoded = encode_standard(bytes.as_slice());
    attachment_from_encoded(name, mime, bytes.len(), encoded.as_str(), image)
}

/// The message for too many attachments.
pub open spec fn too_many_message() -> Seq<char> {
    "You can attach up to 8 files per message."@
}

/// The outcome of staging one read file.
pub open spec fn file_outcome(
    count: nat,
    name: Seq<char>,
    read: Result<Seq<u8>, Seq<char>>,
) -> Option<Seq<char>> {
    if count >= MAX_ATTACHMENTS {
        Some(too_many_message())
    } else {
        match read {
            Err(e) => Some("Could not read '"@ + name + "': "@ + e),
            Ok(b) => if b.len() > MAX_ATTACHMENT_BYTES {
                Some("'"@ + name + "' exceeds the 10MB attachment limit."@)
            } else {
                None
            },
        }
    }
}

pub open spec fn read_view(r: Result<Vec<u8>, String>) -> Result<Seq<u8>, Seq<char>> {
    match r {
        Ok(b) => Ok(b@),
        Err(e) => Err(e@),
    }
}

/// Attachment `a` was staged from read file `f`.
pub open spec fn staged_file(a: PendingAttachment, f: (String, Result<Vec<u8>, String>)) -> bool {
    match f.1 {
        Ok(b) => staged(a, f.0@, mime_for_name(f.0@), b@, is_image_mime(mime_for_name(f.0@))),
        Err(_) => false,
    }
}

/// Staging the first `n` of `files` onto a list of `count0` attachments:
/// the list's length after them, the positions of the files staged, the
/// last error message, and whether a full list stopped the batch.
pub open spec fn file_batch(
    count0: nat,
    files: Seq<(String, Result<Vec<u8>, String>)>,
    n: int,
) -> (nat, Seq<int>, Option<Seq<char>>, bool)
    decreases n,
{
    if n <= 0 {
        (count0, seq![], None, false)
    } else {
        let prev = file_batch(count0, files, n - 1);
        if prev.3 {
            prev
        } else {
            match file_outcome(prev.0, files[n - 1].0@, read_view(files[n - 1].1)) {
                Some(m) => (prev.0, prev.1, Some(m), prev.0 >= MAX_ATTACHMENTS),
                None => (prev.0 + 1, prev.1.push(n - 1), prev.2, false),
            }
        }
    }
}

proof fn lemma_file_batch_stays(
    count0: nat,
    files: Seq<(String, Result<Vec<u8>, String>)>,
    n: int,
    m: int,
)
    requires
        0 <= n <= m,
        file_batch(count0, files, n).3,
    ensures
        file_batch(count0, files, m) == file_batch(count0, files, n),
    decreases m - n,
{
    if m > n {
        lemma_file_batch_stays(count0, files, n, m - 1);
    }
}

pub open spec fn opt_view(e: Option<String>) -> Option<Seq<char>> {
    match e {
        Some(s) => Some(s@),
        None => None,
    }
}

/// The list holds as many attachments as a message may carry.
pub fn attachments_full(count: usize) -> (b: bool)
    ensures
        b == (count >= MAX_ATTACHMENTS),
{
    count >= MAX_ATTACHMENTS
}

/// The message for a full list.
pub fn too_many_error() -> (m: String)
    ensures
        m@ == too_many_message(),
{
    proof {
        reveal_strlit("You can attach up to 8 files per message.");
    }
    String::from_str("You can attach up to 8 files per message.")
}

/// Stage one read file onto a list with room: the file's error, or the
/// file appended.
pub fn stage_one_file(pending: &mut Vec<PendingAttachment>, name: String, read: Result<Vec<u8>, String>) -> (error: Option<
    String,
>)
    requires
        old(pending)@.len() < MAX_ATTACHMENTS,
    ensures
        match file_outcome(old(pending)@.len(), name@, read_view(read)) {
            Some(m) => final(pending)@ == old(pending)@ && opt_view(error) == Some(m),
            None => error is None && final(pending)@.len() == old(pending)@.len() + 1
                && final(pending)@.drop_last() == old(pending)@ && staged_file(
                final(pending)@.last(),
                (name, read),
            ),
        },
{
    let ghost f = (name, read);
    match read {
        Err(e) => {
            let mut m = String::from_str("Could not read '");
            text::push_str(&mut m, name.as_str());
            text::push_str(&mut m, "': ");
            text::push_str(&mut m, e.as_str());
            proof {
                reveal_strlit("Could not read '");
                reveal_strlit("': ");
            }
            Some(m)
        },
        Ok(bytes) => {
            if bytes.len() > MAX_ATTACHMENT_BYTES {
                let mut m = String::from_str("'");
                text::push_str(&mut m, name.as_str());
                text::push_str(&mut m, "' exceeds the 10MB attachment limit.");
                proof {
                    reveal_strlit("'");
                    reveal_strlit("' exceeds the 10MB attachment limit.");
                }
                Some(m)
            } else {
                let mime = infer_attachment_mime_type(name.as_str());
                let image = starts_with_image(mime);
                let ghost before = pending@;
                let a = make_attachment(name, mime, &bytes, image);
                pending.push(a);
                proof {
                    assert(pending@.drop_last() =~= before);
                }
                None
            }
        },
    }
}

/// Stage one pasted image onto a list with room: the size error, or the
/// image appended under its place in the list.
pub fn stage_one_image(pending: &mut Vec<PendingAttachment>, mime: String, ext: String, bytes: Vec<u8>) -> (error:
    Option<String>)
    requires
        old(pending)@.len() < MAX_ATTACHMENTS,
    ensures
        if bytes@.len() > MAX_ATTACHMENT_BYTES {
            final(pending)@ == old(pending)@ && opt_view(error) == Some(
                "Pasted image exceeds the 10MB attachment limit."@,
            )
        } else {
            error is None && final(pending)@.len() == old(pending)@.len() + 1
                && final(pending)@.drop_last() == old(pending)@ && staged_image(
                final(pending)@.last(),
                (mime, ext, bytes),
                old(pending)@.len() as int,
            )
        },
{
    if bytes.len() > MAX_ATTACHMENT_BYTES {
        return Some(String::from_str("Pasted image exceeds the 10MB attachment limit."));
    }
    let ghost img = (mime, ext, bytes);
    let mut digits: Vec<char> = Vec::new();
    text::push_decimal(&mut digits, (pending.len() + 1) as u64);
    let mut name = String::from_str("pasted-image-");
    text::push_str(&mut name, text::string_from(&digits).as_str());
    text::push_str(&mut name, ".");
    text::push_str(&mut name, ext.as_str());
    proof {
        reveal_strlit("pasted-image-");
        reveal_strlit(".");
    }
    let ghost before = pending@;
    let a = make_attachment(name, mime.as_str(), &bytes, true);
    pending.push(a);
    proof {
        assert(digits@ =~= text::decimal((before.len() + 1) as nat));
        assert(pending@.drop_last() =~= before);
    }
    None
}

/// Stage read files, in order (`files`: name and read result). A full
/// list stops the batch; a read failure or an oversized file is skipped
/// with an error. Returns the last error message.
pub fn stage_files(pending: &mut Vec<PendingAttachment>, files: Vec<(String, Result<Vec<u8>, String>)>) -> (error: Option<
    String,
>)
    ensures
        ({
            let b = file_batch(old(pending)@.len(), files@, files@.len() as int);
            &&& final(pending)@.len() == old(pending)@.len() + b.1.len()
            &&& final(pending)@.take(old(pending)@.len() as int) == old(pending)@
            &&& forall|k: int|
                #![trigger b.1[k]]
                0 <= k < b.1.len() ==> 0 <= b.1[k] && b.1[k] < files@.len() && staged_file(
                    final(pending)@[old(pending)@.len() + k],
                    files@[b.1[k]],
                )
            &&& opt_view(error) == b.2
        }),
        final(pending)@.len() <= MAX_ATTACHMENTS || final(pending)@.len() == old(pending)@.len(),
{
    let ghost start = pending@;
    let ghost all = files@;
    let mut error: Option<String> = None;
    let mut rest = files;
    let mut taken: usize = 0;
    let ghost mut picked: Seq<int> = seq![];
    let total = rest.len();
    while rest.len() > 0
        invariant_except_break
            !file_batch(start.len(), all, taken as int).3,
            rest@ == all.skip(taken as int),
        invariant
            all.len() == total,
            taken <= total,
            file_batch(start.len(), all, taken as int).0 == pending@.len(),
            pending@.len() == start.len() + file_batch(start.len(), all, taken as int).1.len(),
            pending@.len() <= MAX_ATTACHMENTS || pending@.len() == start.len(),
            pending@.take(start.len() as int) == start,
            picked == file_batch(start.len(), all, taken as int).1,
            forall|k: int|
                #![trigger picked[k]]
                0 <= k < picked.len() ==> 0 <= picked[k] && picked[k] < taken && staged_file(
                    pending@[start.len() + k],
                    all[picked[k]],
                ),
            opt_view(error) == file_batch(start.len(), all, taken as int).2,
        ensures
            file_batch(start.len(), all, taken as int).3 || taken == total,
            taken <= total,
        decreases rest@.len(),
    {
        let ghost prev = file_batch(start.len(), all, taken as int);
        if pending.len() >= MAX_ATTACHMENTS {
            error = Some(String::from_str("You can attach up to 8 files per message."));
            proof {
                reveal_strlit("You can attach up to 8 files per message.");
                assert(rest@.len() > 0);
                assert(file_batch(start.len(), all, taken + 1) == (prev.0, prev.1, Some(
                    too_many_message(),
                ), true));
            }
            taken += 1;
            break;
        }
        let (name, read) = rest.remove(0);
        let ghost f = (name, read);
        proof {
            assert(all[taken as int] == f);
        }
        let ghost before = pending@;
        let e = stage_one_file(pending, name, read);
        proof {
            if e is None {
                let j = taken as int;
                let old_picked = picked;
                picked = picked.push(j);
                assert(pending@.take(start.len() as int) =~= before.take(start.len() as int));
                assert forall|k: int|
                    #![trigger picked[k]]
                    0 <= k < picked.len() implies 0 <= picked[k] && picked[k] < taken + 1
                        && staged_file(pending@[start.len() + k], all[picked[k]]) by {
                    if k < old_picked.len() {
                        assert(picked[k] == old_picked[k]);
                        assert(pending@[start.len() + k] == before[start.len() + k]);
                    }
                }
            }
        }
        if e.is_some() {
            error = e;
        }
        taken += 1;
        assert(rest@ =~= all.skip(taken as int));
    }
    proof {
        if taken < total {
            lemma_file_batch_stays(start.len(), all, taken as int, total as int);
        }
    }
    error
}

/// Staging the first `n` pasted `images` onto a list of `count0`
/// attachments: as for files, without read failures.
pub open spec fn image_batch(count0: nat, images: Seq<(String, String, Vec<u8>)>, n: int) -> (
    nat,
    Seq<int>,
    Option<Seq<char>>,
    bool,
)
    decreases n,
{
    if n <= 0 {
        (count0, seq![], None, false)
    } else {
        let prev = image_batch(count0, images, n - 1);
        if prev.3 {
            prev
        } else if prev.0 >= MAX_ATTACHMENTS {
            (prev.0, prev.1, Some(too_many_message()), true)
        } else if images[n - 1].2@.len() > MAX_ATTACHMENT_BYTES {
            (prev.0, prev.1, Some("Pasted image exceeds the 10MB attachment limit."@), false)
        } else {
            (prev.0 + 1, prev.1.push(n - 1), prev.2, false)
        }
    }
}

proof fn lemma_image_batch_stays(
    count0: nat,
    images: Seq<(String, String, Vec<u8>)>,
    n: int,
    m: int,
)
    requires
        0 <= n <= m,
        image_batch(count0, images, n).3,
    ensures
        image_batch(count0, images, m) == image_batch(count0, images, n),
    decreases m - n,
{
    if m > n {
        lemma_image_batch_stays(count0, images, n, m - 1);
    }
}

/// Stage pasted images (`images`: MIME type, file extension, bytes), each
/// named `pasted-image-<n>.<ext>` after its place in the list. A full list
/// stops the batch; an oversized image is skipped with an error. Returns
/// the last error message.
pub fn stage_pasted_images(pending: &mut Vec<PendingAttachment>, images: Vec<(String, String, Vec<u8>)>) -> (error: Option<
    String,
>)
    ensures
        ({
            let b = image_batch(old(pending)@.len(), images@, images@.len() as int);
            &&& final(pending)@.len() == old(pending)@.len() + b.1.len()
            &&& final(pending)@.take(old(pending)@.len() as int) == old(pending)@
            &&& forall|k: int|
                #![trigger b.1[k]]
                0 <= k < b.1.len() ==> 0 <= b.1[k] && b.1[k] < images@.len() && staged_image(
                    final(pending)@[old(pending)@.len() + k],
                    images@[b.1[k]],
                    old(pending)@.len() + k,
                )
            &&& opt_view(error) == b.2
        }),
        final(pending)@.len() <= MAX_ATTACHMENTS || final(pending)@.len() == old(pending)@.len(),
{
    let ghost start = pending@;
    let ghost all = images@;
    let mut error: Option<String> = None;
    let mut rest = images;
    let mut taken: usize = 0;
    let ghost mut picked: Seq<int> = seq![];
    let total = rest.len();
    while rest.len() > 0
        invariant_except_break
            !image_batch(start.len(), all, taken as int).3,
            rest@ == all.skip(taken as int),
        invariant
            all.len() == total,
            taken <= total,
            image_batch(start.len(), all, taken as int).0 == pending@.len(),
            pending@.len() == start.len() + image_batch(start.len(), all, taken as int).1.len(),
            pending@.len() <= MAX_ATTACHMENTS || pending@.len() == start.len(),
            pending@.take(start.len() as int) == start,
            picked == image_batch(start.len(), all, taken as int).1,
            forall|k: int|
                #![trigger picked[k]]
                0 <= k < picked.len() ==> 0 <= picked[k] && picked[k] < taken && staged_image(
                    pending@[start.len() + k],
                    all[picked[k]],
                    start.len() + k,
                ),
            opt_view(error) == image_batch(start.len(), all, taken as int).2,
        ensures
            image_batch(start.len(), all, taken as int).3 || taken == total,
            taken <= total,
        decreases rest@.len(),
    {
        let ghost prev = image_batch(start.len(), all, taken as int);
        if pending.len() >= MAX_ATTACHMENTS {
            error = Some(String::from_str("You can attach up to 8 files per message."));
            proof {
                reveal_strlit("You can attach up to 8 files per message.");
                assert(rest@.len() > 0);
                assert(image_batch(start.len(), all, taken + 1) == (prev.0, prev.1, Some(
                    too_many_message(),
                ), true));
            }
            taken += 1;
            break;
        }
        let (mime, ext, bytes) = rest.remove(0);
        let ghost img = (mime, ext, bytes);
        proof {
            assert(all[taken as int] == img);
        }
        let ghost before = pending@;
        let e = stage_one_image(pending, mime, ext, bytes);
        proof {
            if e is None {
                let j = taken as int;
                let old_picked = picked;
                picked = picked.push(j);
                assert(pending@.take(start.len() as int) =~= before.take(start.len() as int));
                assert forall|k: int|
                    #![trigger picked[k]]
                    0 <= k < picked.len() implies 0 <= picked[k] && picked[k] < taken + 1
                        && staged_image(pending@[start.len() + k], all[picked[k]], start.len() + k) by {
                    if k < old_picked.len() {
                        assert(picked[k] == old_picked[k]);
                        assert(pending@[start.len() + k] == before[start.len() + k]);
                    }
                }
            }
        }
        if e.is_some() {
            error = e;
        }
        taken += 1;
        assert(rest@ =~= all.skip(taken as int));
    }
    proof {
        if taken < total {
            lemma_image_batch_stays(start.len(), all, taken as int, total as int);
        }
    }
    error
}

/// Attachment `a`, the `k`-th of the list, was staged from pasted image
/// `img` (MIME type, extension, bytes).
pub open spec fn staged_image(a: PendingAttachment, img: (String, String, Vec<u8>), k: int) -> bool {
    staged(
        a,
        "pasted-image-"@ + text::decimal((k + 1) as nat) + "."@ + img.1@,
        img.0@,
        img.2@,
        true,
    )
}

/// `base` without trailing `/`.
pub open spec fn trim_trailing_slashes(base: Seq<char>) -> Seq<char>
    decreases base.len(),
{
    if base.len() > 0 && base.last() == '/' {
        trim_trailing_slashes(base.drop_last())
    } else {
        base
    }
}

/// The download URL of an attachment: the server's relative URL under the
/// session's base URL, joined by exactly one `/`.
pub open spec fn attachment_url_spec(base: Seq<char>, relative: Seq<char>) -> Seq<char> {
    let b = trim_trailing_slashes(base);
    if relative.len() > 0 && relative[0] == '/' {
        b + relative
    } else {
        b + "/"@ + relative
    }
}

pub fn attachment_url(base: &str, relative: &str) -> (r: String)
    ensures
        r@ == attachment_url_spec(base@, relative@),
{
    let v = text::chars_of(base);
    let mut n = v.len();
    assert(v@.take(v@.len() as int) =~= v@);
    while n > 0 && v[n - 1] == '/'
        invariant
            n <= v@.len(),
            v@ == base@,
            trim_trailing_slashes(base@) == trim_trailing_slashes(v@.take(n as int)),
        decreases n,
    {
        assert(v@.take(n as int).drop_last() =~= v@.take(n - 1));
        n -= 1;
    }
    let mut s = text::string_of(&v, 0, n);
    assert(v@.subrange(0, n as int) =~= v@.take(n as int));
    assert(trim_trailing_slashes(v@.take(n as int)) == v@.take(n as int));
    let r = text::chars_of(relative);
    if r.len() > 0 && r[0] == '/' {
        text::push_str(&mut s, relative);
    } else {
        text::push_str(&mut s, "/");
        text::push_str(&mut s, relative);
        proof {
            reveal_strlit("/");
        }
    }
    s
}

/// A path is written as a JSON string in a file-context token when it
/// holds whitespace, a quote or a backslash.
pub open spec fn needs_json_quoting(path: Seq<char>) -> bool {
    exists|i: int| 0 <= i < path.len() && (text::is_ws(path[i]) || path[i] == '"' || path[i] == '\\')
}

/// The `@` token for a file context whose path was already quoted (when
/// quoting is needed) into `quoted`.
pub open spec fn file_token_spec(path: Seq<char>, quoted: Seq<char>) -> Seq<char> {
    if needs_json_quoting(path) {
        "@"@ + quoted
    } else {
        "@"@ + path
    }
}

fn path_needs_quoting(path: &str) -> (b: bool)
    ensures
        b == needs_json_quoting(path@),
{
    let v = text::chars_of(path);
    let mut i: usize = 0;
    let mut found = false;
    while i < v.len()
        invariant
            i <= v@.len(),
            v@ == path@,
            found == exists|j: int|
                0 <= j < i && (text::is_ws(v@[j]) || v@[j] == '"' || v@[j] == '\\'),
        decreases v@.len() - i,
    {
        let c = v[i];
        if text::char_is_whitespace(c) || c == '"' || c == '\\' {
            found = true;
        }
        i += 1;
    }
    found
}

/// The token given the path and its JSON rendering.
pub fn file_token_from(path: &str, quoted: &str) -> (r: String)
    ensures
        r@ == file_token_spec(path@, quoted@),
{
    let mut s = String::from_str("@");
    if path_needs_quoting(path) {
        text::push_str(&mut s, quoted);
    } else {
        text::push_str(&mut s, path);
    }
    s
}

/// The `@` token a dropped file context inserts: the path itself, or its
/// JSON string when it needs quoting.
pub fn file_context_token(path: &str) -> (r: String)
    ensures
        r@ == file_token_spec(path@, json_string(path@)),
{
    if path_needs_quoting(path) {
        match json_quote(path) {
            Ok(q) => file_token_from(path, q.as_str()),
            Err(_) => file_token_from(path, path),
        }
    } else {
        file_token_from(path, path)
    }
}

/// The path a file context names: as given when it lies under the current
/// search root, else joined onto its own working directory.
pub fn file_context_path(search_root: Option<&str>, cwd: &str, path: &str) -> (r: String)
    ensures
        r@ == if (search_root matches Some(root) && root@ == cwd@) {
            path@
        } else {
            joined_path(cwd@, path@)
        },
{
    let same = match search_root {
        Some(root) => text::str_eq(root, cwd),
        None => false,
    };
    if same {
        text::string_from(&text::chars_of(path))
    } else {
        path_join(cwd, path)
    }
}

/// The composer text after appending `token`: separated by one space
/// unless the text is empty or ends in whitespace, and followed by one.
pub open spec fn appended(value: Seq<char>, token: Seq<char>) -> Seq<char> {
    value + (if value.len() == 0 || text::is_ws(value.last()) {
        seq![]
    } else {
        seq![' ']
    }) + token + " "@
}

pub fn append_token(value: &str, token: &str) -> (r: String)
    ensures
        r@ == appended(value@, token@),
{
    let v = text::chars_of(value);
    let mut s = text::string_from(&v);
    if v.len() > 0 && !text::char_is_whitespace(v[v.len() - 1]) {
        text::push_str(&mut s, " ");
        proof {
            reveal_strlit(" ");
        }
    }
    text::push_str(&mut s, token);
    text::push_str(&mut s, " ");
    proof {
        reveal_strlit(" ");
    }
    s
}

/// The file extensions an attachment's type is known for, each with its
/// MIME type.
pub open spec fn known_mime_types() -> Seq<(Seq<char>, Seq<char>)> {
    seq![
        ("png"@, "image/png"@),
        ("jpg"@, "image/jpeg"@),
        ("jpeg"@, "image/jpeg"@),
        ("gif"@, "image/gif"@),
        ("webp"@, "image/webp"@),
        ("svg"@, "image/svg+xml"@),
        ("bmp"@, "image/bmp"@),
        ("c"@, "text/x-c"@),
        ("h"@, "text/x-c"@),
        ("cjs"@, "text/javascript"@),
        ("js"@, "text/javascript"@),
        ("mjs"@, "text/javascript"@),
        ("cpp"@, "text/x-c++"@),
        ("hpp"@, "text/x-c++"@),
        ("cs"@, "text/x-csharp"@),
        ("css"@, "text/css"@),
        ("csv"@, "text/csv"@),
        ("go"@, "text/x-go"@),
        ("html"@, "text/html"@),
        ("java"@, "text/x-java"@),
        ("json"@, "application/json"@),
        ("jsx"@, "text/jsx"@),
        ("kt"@, "text/x-kotlin"@),
        ("log"@, "text/plain"@),
        ("txt"@, "text/plain"@),
        ("svelte"@, "text/plain"@),
        ("vue"@, "text/plain"@),
        ("md"@, "text/markdown"@),
        ("markdown"@, "text/markdown"@),
        ("pdf"@, "application/pdf"@),
        ("php"@, "text/x-php"@),
        ("py"@, "text/x-python"@),
        ("rb"@, "text/x-ruby"@),
        ("rs"@, "text/x-rust"@),
        ("sh"@, "text/x-shellscript"@),
        ("sql"@, "application/sql"@),
        ("swift"@, "text/x-swift"@),
        ("toml"@, "application/toml"@),
        ("ts"@, "application/typescript"@),
        ("tsx"@, "application/typescript"@),
        ("xml"@, "application/xml"@),
        ("yaml"@, "application/yaml"@),
        ("yml"@, "application/yaml"@),
    ]
}

proof fn lemma_known_mime_entry(k: int)
    requires
        0 <= k < known_mime_types().len(),
    ensures
        mime_for_extension(known_mime_types()[k].0) == known_mime_types()[k].1,
        forall|j: int|
            0 <= j < known_mime_types()[k].0.len() ==> 'a' <= #[trigger] known_mime_types()[k].0[j]
                && known_mime_types()[k].0[j] <= 'z',
{
    reveal_strlit("png");
    reveal_strlit("jpg");
    reveal_strlit("jpeg");
    reveal_strlit("gif");
    reveal_strlit("webp");
    reveal_strlit("svg");
    reveal_strlit("bmp");
    reveal_strlit("c");
    reveal_strlit("h");
    reveal_strlit("cjs");
    reveal_strlit("js");
    reveal_strlit("mjs");
    reveal_strlit("cpp");
    reveal_strlit("hpp");
    reveal_strlit("cs");
    reveal_strlit("css");
    reveal_strlit("csv");
    reveal_strlit("go");
    reveal_strlit("html");
    reveal_strlit("java");
    reveal_strlit("json");
    reveal_strlit("jsx");
    reveal_strlit("kt");
    reveal_strlit("log");
    reveal_strlit("txt");
    reveal_strlit("svelte");
    reveal_strlit("vue");
    reveal_strlit("md");
    reveal_strlit("markdown");
    reveal_strlit("pdf");
    reveal_strlit("php");
    reveal_strlit("py");
    reveal_strlit("rb");
    reveal_strlit("rs");
    reveal_strlit("sh");
    reveal_strlit("sql");
    reveal_strlit("swift");
    reveal_strlit("toml");
    reveal_strlit("ts");
    reveal_strlit("tsx");
    reveal_strlit("xml");
    reveal_strlit("yaml");
    reveal_strlit("yml");
    assert("png"@.len() == 3 && "jpg"@.len() == 3 && "jpeg"@.len() == 4 && "gif"@.len() == 3
        && "webp"@.len() == 4 && "svg"@.len() == 3 && "bmp"@.len() == 3 && "c"@.len() == 1
        && "h"@.len() == 1 && "cjs"@.len() == 3 && "js"@.len() == 2 && "mjs"@.len() == 3
        && "cpp"@.len() == 3 && "hpp"@.len() == 3 && "cs"@.len() == 2 && "css"@.len() == 3
        && "csv"@.len() == 3 && "go"@.len() == 2 && "html"@.len() == 4 && "java"@.len() == 4
        && "json"@.len() == 4 && "jsx"@.len() == 3 && "kt"@.len() == 2 && "log"@.len() == 3
        && "txt"@.len() == 3 && "svelte"@.len() == 6 && "vue"@.len() == 3 && "md"@.len() == 2
        && "markdown"@.len() == 8 && "pdf"@.len() == 3 && "php"@.len() == 3 && "py"@.len() == 2
        && "rb"@.len() == 2 && "rs"@.len() == 2 && "sh"@.len() == 2 && "sql"@.len() == 3
        && "swift"@.len() == 5 && "toml"@.len() == 4 && "ts"@.len() == 2 && "tsx"@.len() == 3
        && "xml"@.len() == 3 && "yaml"@.len() == 4 && "yml"@.len() == 3);
    if k == 0 {
        assert("png"@ =~= seq!['p', 'n', 'g']);
    } else if k == 1 {
        assert("jpg"@ =~= seq!['j', 'p', 'g']);
    } else if k == 2 {
        assert("jpeg"@ =~= seq!['j', 'p', 'e', 'g']);
    } else if k == 3 {
        assert("gif"@ =~= seq!['g', 'i', 'f']);
    } else if k == 4 {
        assert("webp"@ =~= seq!['w', 'e', 'b', 'p']);
    } else if k == 5 {
        assert("svg"@ =~= seq!['s', 'v', 'g']);
    } else if k == 6 {
        assert("bmp"@ =~= seq!['b', 'm', 'p']);
    } else if k == 7 {
        assert("c"@ =~= seq!['c']);
    } else if k == 8 {
        assert("h"@ =~= seq!['h']);
    } else if k == 9 {
        assert("cjs"@ =~= seq!['c', 'j', 's']);
    } else if k == 10 {
        assert("js"@ =~= seq!['j', 's']);
    } else if k == 11 {
        assert("mjs"@ =~= seq!['m', 'j', 's']);
    } else if k == 12 {
        assert("cpp"@ =~= seq!['c', 'p', 'p']);
    } else if k == 13 {
        assert("hpp"@ =~= seq!['h', 'p', 'p']);
    } else if k == 14 {
        assert("cs"@ =~= seq!['c', 's']);
    } else if k == 15 {
        assert("css"@ =~= seq!['c', 's', 's']);
    } else if k == 16 {
        assert("csv"@ =~= seq!['c', 's', 'v']);
    } else if k == 17 {
        assert("go"@ =~= seq!['g', 'o']);
    } else if k == 18 {
        assert("html"@ =~= seq!['h', 't', 'm', 'l']);
    } else if k == 19 {
        assert("java"@ =~= seq!['j', 'a', 'v', 'a']);
    } else if k == 20 {
        assert("json"@ =~= seq!['j', 's', 'o', 'n']);
    } else if k == 21 {
        assert("jsx"@ =~= seq!['j', 's', 'x']);
    } else if k == 22 {
        assert("kt"@ =~= seq!['k', 't']);
    } else if k == 23 {
        assert("log"@ =~= seq!['l', 'o', 'g']);
    } else if k == 24 {
        assert("txt"@ =~= seq!['t', 'x', 't']);
    } else if k == 25 {
        assert("svelte"@ =~= seq!['s', 'v', 'e', 'l', 't', 'e']);
    } else if k == 26 {
        assert("vue"@ =~= seq!['v', 'u', 'e']);
    } else if k == 27 {
        assert("md"@ =~= seq!['m', 'd']);
    } else if k == 28 {
        assert("markdown"@ =~= seq!['m', 'a', 'r', 'k', 'd', 'o', 'w', 'n']);
    } else if k == 29 {
        assert("pdf"@ =~= seq!['p', 'd', 'f']);
    } else if k == 30 {
        assert("php"@ =~= seq!['p', 'h', 'p']);
    } else if k == 31 {
        assert("py"@ =~= seq!['p', 'y']);
    } else if k == 32 {
        assert("rb"@ =~= seq!['r', 'b']);
    } else if k == 33 {
        assert("rs"@ =~= seq!['r', 's']);
    } else if k == 34 {
        assert("sh"@ =~= seq!['s', 'h']);
    } else if k == 35 {
        assert("sql"@ =~= seq!['s', 'q', 'l']);
    } else if k == 36 {
        assert("swift"@ =~= seq!['s', 'w', 'i', 'f', 't']);
    } else if k == 37 {
        assert("toml"@ =~= seq!['t', 'o', 'm', 'l']);
    } else if k == 38 {
        assert("ts"@ =~= seq!['t', 's']);
    } else if k == 39 {
        assert("tsx"@ =~= seq!['t', 's', 'x']);
    } else if k == 40 {
        assert("xml"@ =~= seq!['x', 'm', 'l']);
    } else if k == 41 {
        assert("yaml"@ =~= seq!['y', 'a', 'm', 'l']);
    } else if k == 42 {
        assert("yml"@ =~= seq!['y', 'm', 'l']);
    }
}

proof fn lemma_last_dot_at(s: Seq<char>, d: int, n: int)
    requires
        0 <= d < n <= s.len(),
        s[d] == '.',
        forall|j: int| d < j < n ==> s[j] != '.',
    ensures
        last_dot(s, n) == Some(d),
    decreases n,
{
    if n - 1 > d {
        lemma_last_dot_at(s, d, n - 1);
    }
}

/// A file named `stem.ext`, for any stem and an extension that lower-cases
/// to one of the known extensions (so `photo.jpg` and `PHOTO.JPG` alike),
/// gets that extension's MIME type.
pub proof fn law_known_extension_mime(stem: Seq<char>, ext: Seq<char>, k: int)
    requires
        0 <= k < known_mime_types().len(),
        text::lower(ext) == known_mime_types()[k].0,
    ensures
        mime_for_name(stem + seq!['.'] + ext) == known_mime_types()[k].1,
{
    lemma_known_mime_entry(k);
    let e = known_mime_types()[k].0;
    let name = stem + seq!['.'] + ext;
    let d = stem.len() as int;
    assert forall|j: int| 0 <= j < ext.len() implies 'a' <= text::lower_char(#[trigger] ext[j])
        && text::lower_char(ext[j]) <= 'z' && ext[j] != '.' && ext[j] <= '\u{7f}' by {
        assert(text::lower(ext)[j] == text::lower_char(ext[j]));
        assert(e[j] == text::lower(ext)[j]);
    }
    assert forall|j: int| d < j < name.len() implies name[j] != '.' by {
        assert(name[j] == ext[j - d - 1]);
    }
    assert(name[d] == '.');
    lemma_last_dot_at(name, d, name.len() as int);
    assert(name.skip(d + 1) =~= ext);
    assert(all_ascii(ext));
}

/// Every common image extension (`png`, `jpg`, `jpeg`, `gif`, `webp`,
/// `svg`, `bmp`, in any letter case) names an `image/` type.
pub proof fn law_image_extensions_are_images(stem: Seq<char>, ext: Seq<char>)
    requires
        text::lower(ext) == "png"@ || text::lower(ext) == "jpg"@ || text::lower(ext) == "jpeg"@
            || text::lower(ext) == "gif"@ || text::lower(ext) == "webp"@ || text::lower(ext)
            == "svg"@ || text::lower(ext) == "bmp"@,
    ensures
        is_image_mime(mime_for_name(stem + seq!['.'] + ext)),
{
    let l = text::lower(ext);
    let k: int = if l == "png"@ {
        0
    } else if l == "jpg"@ {
        1
    } else if l == "jpeg"@ {
        2
    } else if l == "gif"@ {
        3
    } else if l == "webp"@ {
        4
    } else if l == "svg"@ {
        5
    } else {
        6
    };
    law_known_extension_mime(stem, ext, k);
    reveal_strlit("image/png");
    reveal_strlit("image/jpeg");
    reveal_strlit("image/gif");
    reveal_strlit("image/webp");
    reveal_strlit("image/svg+xml");
    reveal_strlit("image/bmp");
    reveal_strlit("image/");
    let m = known_mime_types()[k].1;
    assert(m.take(6) =~= "image/"@);
}

} // verus!
