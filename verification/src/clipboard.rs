//! Turning what the clipboard holds into history items: hashing, previews,
//! content classification, and the capture step with its duplicate check.
use vstd::prelude::*;
use vstd::utf8::{encode_utf8, is_char_boundary};
use crate::codec::{
    base64_encode, base64_decodes, base64_standard, base64_standard_decodes, sha256,
    sha256_digest,
};
use crate::database::{
    ClipboardItem, Database, DbModel, Timestamp, within_limit, opt_text,
    items_expiring,
};
use crate::platform::{new_uuid, now_utc, parse_rfc3339, rfc3339_instant, uuid_v4_text};
use crate::text::{
    all_white_space, lemma_trim_ignores_padding,
    chars_of, char_is_control, contains, contains_exec, decimal, decimal_chars, hex_lower,
    hex_lower_exec, is_control, starts_with, starts_with_exec, string_from_chars, to_lowercase,
    trim, trim_chars, unicode_lowercase,
};

verus! {

/// How many items the history keeps unpinned after each capture.
pub const HISTORY_LIMIT: u32 = 100;

/// How many characters of a text go into its preview.
pub const PREVIEW_CHARS: usize = 500;

// ---------------------------------------------------------------------------
// Specifications
// ---------------------------------------------------------------------------

/// The hash recorded for a text: lower-case hex of the SHA-256 of its UTF-8 bytes.
pub open spec fn text_hash(text: Seq<char>) -> Seq<char> {
    hex_lower(sha256(encode_utf8(text)))
}

/// The hash recorded for raw bytes: lower-case hex of their SHA-256.
pub open spec fn bytes_hash(bytes: Seq<u8>) -> Seq<char> {
    hex_lower(sha256(bytes))
}

/// A character that a preview keeps: anything but a control character, except
/// that line feeds and tabs stay.
pub open spec fn preview_keeps(c: char) -> bool {
    !is_control(c) || c == '\n' || c == '\t'
}

/// The characters of `s` that a preview keeps, in order.
pub open spec fn preview_chars(s: Seq<char>) -> Seq<char> {
    s.filter(|c: char| preview_keeps(c))
}

/// The preview of a text: its first 500 characters without the dropped control
/// characters, and "..." after them when the text is longer than 500 bytes.
pub open spec fn text_preview(text: Seq<char>) -> Seq<char> {
    let head = if text.len() <= 500 {
        text
    } else {
        text.take(500)
    };
    let kept = preview_chars(head);
    if encode_utf8(text).len() > 500 {
        kept + seq!['.', '.', '.']
    } else {
        kept
    }
}

/// The indicators whose presence marks a text as code.
pub open spec fn code_indicators() -> Seq<Seq<char>> {
    seq![
        "function "@,
        "const "@,
        "let "@,
        "var "@,
        "import "@,
        "export "@,
        "class "@,
        "def "@,
        "fn "@,
        "pub "@,
        "async "@,
        "await "@,
        "return "@,
        "if ("@,
        "for ("@,
        "while ("@,
        "=>"@,
        "->"@,
        "{}"@,
        "();"@,
    ]
}

/// How many of `inds`, lower-cased, occur in `lower`.
pub open spec fn indicator_hits(lower: Seq<char>, inds: Seq<Seq<char>>) -> nat
    decreases inds.len(),
{
    if inds.len() == 0 {
        0
    } else {
        indicator_hits(lower, inds.drop_last()) + if contains(
            lower,
            unicode_lowercase(inds.last()),
        ) {
            1nat
        } else {
            0nat
        }
    }
}

/// At least two code indicators occur in the lower-cased text.
pub open spec fn code_like(text: Seq<char>) -> bool {
    indicator_hits(unicode_lowercase(text), code_indicators()) >= 2
}

/// The text, trimmed, names a path: it starts with '/', or its second and
/// third bytes are ":\\".
pub open spec fn path_like(t: Seq<char>) -> bool {
    let b = encode_utf8(t);
    (t.len() > 0 && t[0] == '/') || (b.len() > 2 && b[1] == 0x3Au8 && b[2] == 0x5Cu8)
}

/// Classifying the text would slice its trimmed form between bytes 1 and 3
/// where one of them is not a character boundary, which panics.
pub open spec fn kind_check_panics(text: Seq<char>) -> bool {
    let t = trim(text);
    let b = encode_utf8(t);
    &&& !(t.len() > 0 && t[0] == '/')
    &&& b.len() > 2
    &&& !(is_char_boundary(b, 1) && is_char_boundary(b, 3))
}

/// The content type of a text: "file" or "files" for paths, "url", "code" or
/// "text".
pub open spec fn content_kind(text: Seq<char>) -> Seq<char> {
    let t = trim(text);
    if path_like(t) {
        if contains(t, seq!['\n']) {
            "files"@
        } else {
            "file"@
        }
    } else if starts_with(t, "http://"@) || starts_with(t, "https://"@) || starts_with(
        t,
        "ftp://"@,
    ) {
        "url"@
    } else if code_like(t) {
        "code"@
    } else {
        "text"@
    }
}

/// The preview of an image: "Image (WxH)".
pub open spec fn image_preview(width: u32, height: u32) -> Seq<char> {
    "Image ("@ + decimal(width as nat) + seq!['x'] + decimal(height as nat) + seq![')']
}

/// A freshly captured item with the given content, kind, preview and hash.
pub open spec fn fresh_item(
    item: ClipboardItem,
    content: Seq<char>,
    kind: Seq<char>,
    preview: Seq<char>,
    hash: Seq<char>,
) -> bool {
    &&& item.content@ == content
    &&& item.content_type@ == kind
    &&& item.preview@ == preview
    &&& item.hash@ == hash
    &&& !item.is_pinned
    &&& item.collection_id is None
    &&& item.expires_at is None
}

/// What the store becomes when `item` is captured: added, then the history cut
/// back to the limit, with the links of the items cut.
pub open spec fn after_capture(db: DbModel, item: ClipboardItem) -> DbModel {
    let added = db.with_item(item);
    added.keeping(within_limit(added.items, HISTORY_LIMIT as nat))
}

/// The outcome of capturing content with the given kind, preview and hash:
/// skipped when the hash is the last one seen; else the item is stored and the
/// hash remembered under a fresh identifier (the text of a version-4 UUID), or,
/// when that identifier is taken, nothing changes and the constraint failure is
/// returned.
pub open spec fn capture_outcome(
    r: Result<Option<ClipboardItem>, String>,
    db0: DbModel,
    db1: DbModel,
    seen0: Option<Seq<char>>,
    seen1: Option<Seq<char>>,
    content: Seq<char>,
    kind: Seq<char>,
    preview: Seq<char>,
    hash: Seq<char>,
) -> bool {
    if seen0 == Some(hash) {
        r == Ok::<Option<ClipboardItem>, String>(None) && db1 == db0 && seen1 == seen0
    } else {
        match r {
            Ok(Some(item)) => {
                &&& fresh_item(item, content, kind, preview, hash)
                &&& uuid_v4_text(item.id@)
                &&& db0.lookup(item.id@) is None
                &&& db1 == after_capture(db0, item)
                &&& seen1 == Some(hash)
            },
            Ok(None) => false,
            Err(e) => {
                &&& e@ == "UNIQUE constraint failed: clipboard_items.id"@
                &&& exists|id: Seq<char>| uuid_v4_text(id) && #[trigger] db0.lookup(id) is Some
                &&& db1 == db0
                &&& seen1 == seen0
            },
        }
    }
}

/// The outcome of capturing content under the given id and creation time,
/// when the hash is not the last one seen: the item is stored and the hash
/// remembered when the id is free; when it is taken nothing changes and the
/// constraint failure is returned.
pub open spec fn capture_with_outcome(
    r: Result<Option<ClipboardItem>, String>,
    db0: DbModel,
    db1: DbModel,
    seen0: Option<Seq<char>>,
    seen1: Option<Seq<char>>,
    id: Seq<char>,
    created_at: Timestamp,
    content: Seq<char>,
    kind: Seq<char>,
    preview: Seq<char>,
    hash: Seq<char>,
) -> bool {
    if db0.lookup(id) is None {
        match r {
            Ok(Some(item)) => {
                &&& item.id@ == id
                &&& item.created_at == created_at
                &&& fresh_item(item, content, kind, preview, hash)
                &&& db1 == after_capture(db0, item)
                &&& seen1 == Some(hash)
            },
            _ => false,
        }
    } else {
        &&& r matches Err(e) && e@ == "UNIQUE constraint failed: clipboard_items.id"@
        &&& db1 == db0
        &&& seen1 == seen0
    }
}

/// The image read from the clipboard: RGBA bytes and dimensions.
pub struct ClipboardImage {
    pub rgba: Vec<u8>,
    pub width: u32,
    pub height: u32,
}

/// There is text to capture.
pub open spec fn has_text(text: Option<String>) -> bool {
    text matches Some(t) && t@.len() > 0
}

/// There is an image to capture.
pub open spec fn has_image(image: Option<ClipboardImage>) -> bool {
    image matches Some(img) && img.rgba@.len() > 0
}

// ---------------------------------------------------------------------------
// The monitor
// ---------------------------------------------------------------------------

/// Remembers the hash of the last captured content.
pub struct ClipboardMonitor {
    last_hash: Option<String>,
}

impl View for ClipboardMonitor {
    type V = Option<Seq<char>>;

    closed spec fn view(&self) -> Option<Seq<char>> {
        opt_text(self.last_hash)
    }
}

impl Clone for ClipboardMonitor {
    /// A monitor that remembers the same hash.
    fn clone(&self) -> (m: Self)
        ensures
            m@ == self@,
    {
        let last_hash = match &self.last_hash {
            Some(h) => Some(h.clone()),
            None => None,
        };
        ClipboardMonitor { last_hash }
    }
}

impl ClipboardMonitor {
    /// A monitor that has seen nothing yet.
    pub fn new() -> (m: Self)
        ensures
            m@ is None,
    {
        ClipboardMonitor { last_hash: None }
    }

    /// Starts from the hash of the newest stored item.
    pub fn init_last_hash(&mut self, db: &Database)
        requires
            db@.wf(),
        ensures
            final(self)@ == db@.last_hash(),
    {
        match db.get_last_hash() {
            Ok(h) => {
                self.last_hash = h;
            },
            Err(_) => {},
        }
    }

    /// Whether the text's hash is the last one seen, so that capturing it would
    /// be skipped.
    pub fn has_seen_text(&self, text: &str) -> (r: bool)
        ensures
            r == (self@ == Some(text_hash(text@))),
    {
        let hash = compute_hash(text);
        self.is_last(&hash)
    }

    /// Whether `hash` is the last one seen.
    fn is_last(&self, hash: &String) -> (r: bool)
        ensures
            r == (self@ == Some(hash@)),
    {
        match &self.last_hash {
            Some(h) => *h == *hash,
            None => false,
        }
    }
}

// ---------------------------------------------------------------------------
// Hashing, previews and classification
// ---------------------------------------------------------------------------

/// The hash of a text.
pub fn compute_hash(content: &str) -> (r: String)
    ensures
        r@ == text_hash(content@),
{
    let digest = sha256_digest(content.as_bytes());
    hex_lower_exec(digest.as_slice())
}

/// The hash of raw bytes.
pub fn compute_hash_bytes(content: &[u8]) -> (r: String)
    ensures
        r@ == bytes_hash(content@),
{
    let digest = sha256_digest(content);
    hex_lower_exec(digest.as_slice())
}

/// The preview of a text.
pub fn create_text_preview(text: &str) -> (r: String)
    ensures
        r@ == text_preview(text@),
{
    let cs = chars_of(text);
    let n: usize = if cs.len() <= PREVIEW_CHARS {
        cs.len()
    } else {
        PREVIEW_CHARS
    };
    let ghost head = if cs@.len() <= 500 {
        cs@
    } else {
        cs@.take(500)
    };
    assert(head =~= cs@.take(n as int));
    let mut out: Vec<char> = Vec::new();
    let mut k: usize = 0;
    while k < n
        invariant
            n <= cs@.len(),
            k <= n,
            out@ == preview_chars(cs@.take(k as int)),
        decreases n - k,
    {
        proof {
            reveal(Seq::filter);
            assert(cs@.take(k + 1).drop_last() =~= cs@.take(k as int));
            assert(cs@.take(k + 1).last() == cs@[k as int]);
        }
        let c = cs[k];
        if !char_is_control(c) || c == '\n' || c == '\t' {
            out.push(c);
        }
        k = k + 1;
    }
    if text.as_bytes().len() > 500 {
        out.push('.');
        out.push('.');
        out.push('.');
        assert(out@ =~= preview_chars(head) + seq!['.', '.', '.']);
    }
    string_from_chars(out.as_slice())
}

/// At least two code indicators occur in the lower-cased text.
pub fn looks_like_code(text: &str) -> (r: bool)
    ensures
        r == code_like(text@),
{
    let indicators: Vec<&str> = vec![
        "function ",
        "const ",
        "let ",
        "var ",
        "import ",
        "export ",
        "class ",
        "def ",
        "fn ",
        "pub ",
        "async ",
        "await ",
        "return ",
        "if (",
        "for (",
        "while (",
        "=>",
        "->",
        "{}",
        "();",
    ];
    let ghost inds = code_indicators();
    assert(indicators@.len() == inds.len());
    assert forall|i: int| 0 <= i < inds.len() implies #[trigger] indicators@[i]@ == inds[i] by {}
    let text_lower = to_lowercase(text);
    let lower = chars_of(text_lower.as_str());
    let mut count: usize = 0;
    let mut i: usize = 0;
    while i < indicators.len()
        invariant
            indicators@.len() == inds.len(),
            forall|j: int| 0 <= j < inds.len() ==> #[trigger] indicators@[j]@ == inds[j],
            lower@ == unicode_lowercase(text@),
            i <= inds.len(),
            count <= i,
            count == indicator_hits(lower@, inds.take(i as int)),
        decreases indicators.len() - i,
    {
        assert(inds.take(i + 1).drop_last() =~= inds.take(i as int));
        let ind_lower = to_lowercase(indicators[i]);
        let ind = chars_of(ind_lower.as_str());
        if contains_exec(&lower, &ind) {
            count = count + 1;
        }
        i = i + 1;
    }
    assert(inds.take(i as int) =~= inds);
    count >= 2
}

/// Whether classifying the text would panic (see `kind_check_panics`).
pub fn content_type_check_panics(text: &str) -> (r: bool)
    ensures
        r == kind_check_panics(text@),
{
    let t = trim_chars(&chars_of(text));
    let ts = string_from_chars(t.as_slice());
    let s = ts.as_str();
    let bytes = s.as_bytes();
    let starts_slash = t.len() > 0 && t[0] == '/';
    !starts_slash && bytes.len() > 2 && !(s.is_char_boundary(1) && s.is_char_boundary(3))
}

/// The content type of a text.
pub fn detect_content_type(text: &str) -> (r: String)
    requires
        !kind_check_panics(text@),
    ensures
        r@ == content_kind(text@),
{
    let trimmed = trim_chars(&chars_of(text));
    let ts = string_from_chars(trimmed.as_slice());
    let bytes = ts.as_str().as_bytes();
    let starts_slash = trimmed.len() > 0 && trimmed[0] == '/';
    let drive = bytes.len() > 2 && bytes[1] == 0x3Au8 && bytes[2] == 0x5Cu8;
    if starts_slash || drive {
        let mut newline: Vec<char> = Vec::new();
        newline.push('\n');
        if contains_exec(&trimmed, &newline) {
            return "files".to_owned();
        }
        return "file".to_owned();
    }
    if starts_with_exec(&trimmed, &chars_of("http://")) || starts_with_exec(
        &trimmed,
        &chars_of("https://"),
    ) || starts_with_exec(&trimmed, &chars_of("ftp://")) {
        return "url".to_owned();
    }
    if looks_like_code(ts.as_str()) {
        return "code".to_owned();
    }
    "text".to_owned()
}

/// "Image (WxH)".
pub fn image_preview_text(width: u32, height: u32) -> (r: String)
    ensures
        r@ == image_preview(width, height),
{
    let mut out = chars_of("Image (");
    let w = decimal_chars(width);
    let h = decimal_chars(height);
    let ghost start = out@;
    for k in 0..w.len()
        invariant
            out@ == start + w@.take(k as int),
    {
        out.push(w[k]);
        assert(out@ =~= start + w@.take(k + 1));
    }
    assert(w@.take(w@.len() as int) =~= w@);
    out.push('x');
    let ghost mid = out@;
    for k in 0..h.len()
        invariant
            out@ == mid + h@.take(k as int),
    {
        out.push(h[k]);
        assert(out@ =~= mid + h@.take(k + 1));
    }
    assert(h@.take(h@.len() as int) =~= h@);
    out.push(')');
    assert(out@ =~= image_preview(width, height));
    string_from_chars(out.as_slice())
}

// ---------------------------------------------------------------------------
// Capture
// ---------------------------------------------------------------------------

/// Stores a new item under the given id and creation time, whose hash is not
/// the last one seen, and cuts the history back to its limit. Fails, changing
/// nothing, when the id is taken.
pub fn capture_item(
    monitor: &mut ClipboardMonitor,
    db: &mut Database,
    id: String,
    created_at: Timestamp,
    content: String,
    content_type: String,
    preview: String,
    hash: String,
) -> (r: Result<Option<ClipboardItem>, String>)
    requires
        old(db)@.wf(),
        old(monitor)@ != Some(hash@),
    ensures
        final(db)@.wf(),
        capture_with_outcome(
            r,
            old(db)@,
            final(db)@,
            old(monitor)@,
            final(monitor)@,
            id@,
            created_at,
            content@,
            content_type@,
            preview@,
            hash@,
        ),
{
    let item = ClipboardItem {
        id,
        content_type,
        content,
        preview,
        hash: hash.clone(),
        is_pinned: false,
        collection_id: None,
        created_at,
        expires_at: None,
    };
    match db.insert_item(&item) {
        Ok(()) => {},
        Err(e) => {
            return Err(e.message());
        },
    }
    match db.enforce_limit(HISTORY_LIMIT) {
        Ok(()) => {},
        Err(e) => {
            return Err(e.message());
        },
    }
    monitor.last_hash = Some(hash);
    Ok(Some(item))
}

/// Stores a new item under a fresh random id and the current time, unless its
/// hash is the last one seen.
fn store_capture(
    monitor: &mut ClipboardMonitor,
    db: &mut Database,
    content: String,
    content_type: String,
    preview: String,
    hash: String,
) -> (r: Result<Option<ClipboardItem>, String>)
    requires
        old(db)@.wf(),
        old(monitor)@ != Some(hash@),
    ensures
        final(db)@.wf(),
        capture_outcome(
            r,
            old(db)@,
            final(db)@,
            old(monitor)@,
            final(monitor)@,
            content@,
            content_type@,
            preview@,
            hash@,
        ),
{
    let id = new_uuid();
    let ghost idv = id@;
    let r = capture_item(monitor, db, id, now_utc(), content, content_type, preview, hash);
    assert(old(db)@.lookup(idv) is Some ==> exists|k: Seq<char>|
        uuid_v4_text(k) && #[trigger] old(db)@.lookup(k) is Some);
    r
}

/// One look at the clipboard: a non-empty text is captured; failing that, a
/// non-empty image. Content equal (by hash) to the last captured content is
/// skipped. A capture adds an item to the store and cuts the history back to
/// its limit.
pub fn check_clipboard(
    monitor: &mut ClipboardMonitor,
    db: &mut Database,
    text: Option<String>,
    image: Option<ClipboardImage>,
) -> (r: Result<Option<ClipboardItem>, String>)
    requires
        old(db)@.wf(),
        has_text(text) && old(monitor)@ != Some(text_hash(text->Some_0@)) ==> !kind_check_panics(
            text->Some_0@,
        ),
        image matches Some(img) ==> img.rgba@.len() <= usize::MAX / 2,
    ensures
        final(db)@.wf(),
        !has_text(text) && !has_image(image) ==> r == Ok::<Option<ClipboardItem>, String>(None)
            && final(db)@ == old(db)@ && final(monitor)@ == old(monitor)@,
        has_text(text) ==> capture_outcome(
            r,
            old(db)@,
            final(db)@,
            old(monitor)@,
            final(monitor)@,
            text->Some_0@,
            content_kind(text->Some_0@),
            text_preview(text->Some_0@),
            text_hash(text->Some_0@),
        ),
        !has_text(text) && has_image(image) ==> capture_outcome(
            r,
            old(db)@,
            final(db)@,
            old(monitor)@,
            final(monitor)@,
            base64_standard(image->Some_0.rgba@),
            "image"@,
            image_preview(image->Some_0.width, image->Some_0.height),
            bytes_hash(image->Some_0.rgba@),
        ),
        has_text(text) && old(monitor)@ != Some(text_hash(text->Some_0@)) && old(db)@.items.len()
            == 0 ==> r matches Ok(Some(_)),
        !has_text(text) && has_image(image) && old(monitor)@ != Some(
            bytes_hash(image->Some_0.rgba@),
        ) && old(db)@.items.len() == 0 ==> r matches Ok(Some(_)),
{
    match text {
        Some(t) => {
            if !t.as_str().is_empty() {
                let hash = compute_hash(t.as_str());
                if monitor.is_last(&hash) {
                    return Ok(None);
                }
                let preview = create_text_preview(t.as_str());
                let kind = detect_content_type(t.as_str());
                return store_capture(monitor, db, t, kind, preview, hash);
            }
        },
        None => {},
    }
    match image {
        Some(img) => {
            if img.rgba.len() > 0 {
                let hash = compute_hash_bytes(img.rgba.as_slice());
                if monitor.is_last(&hash) {
                    return Ok(None);
                }
                let content = base64_encode(img.rgba.as_slice());
                let preview = image_preview_text(img.width, img.height);
                return store_capture(monitor, db, content, "image".to_owned(), preview, hash);
            }
        },
        None => {},
    }
    Ok(None)
}

/// What pasting an item writes to the clipboard: the content, except for an
/// image, whose preview is written when its content decodes as base64 and
/// nothing otherwise.
pub open spec fn paste_text_of(item: ClipboardItem) -> Option<Seq<char>> {
    if item.content_type@ == "image"@ {
        if base64_standard_decodes(item.content@) {
            Some(item.preview@)
        } else {
            None
        }
    } else {
        Some(item.content@)
    }
}

/// The text that pasting the item writes to the clipboard, if any.
pub fn paste_text(item: &ClipboardItem) -> (r: Option<String>)
    ensures
        opt_text(r) == paste_text_of(*item),
{
    let image = "image".to_owned();
    if item.content_type == image {
        if base64_decodes(item.content.as_str()) {
            Some(item.preview.clone())
        } else {
            None
        }
    } else {
        Some(item.content.clone())
    }
}

/// The expiry a text sets: its RFC 3339 instant, or none when it does not parse.
pub open spec fn expiry_from(text: Option<Seq<char>>) -> Option<Timestamp> {
    match text {
        Some(s) => match rfc3339_instant(s) {
            Some((secs, nanos)) => Some(Timestamp { secs, nanos }),
            None => None,
        },
        None => None,
    }
}

/// Sets the expiry of an item from an RFC 3339 text; a text that does not
/// parse clears it.
pub fn set_expiration(db: &mut Database, item_id: &str, expires_at: Option<String>) -> (r: Result<
    (),
    String,
>)
    requires
        old(db)@.wf(),
    ensures
        r is Ok,
        final(db)@.wf(),
        final(db)@ == (DbModel {
            items: items_expiring(old(db)@.items, item_id@, expiry_from(opt_text(expires_at))),
            ..old(db)@
        }),
{
    let expires: Option<Timestamp> = match &expires_at {
        Some(s) => parse_rfc3339(s.as_str()),
        None => None,
    };
    match db.set_item_expiration(item_id, expires) {
        Ok(()) => Ok(()),
        Err(e) => Err(e.message()),
    }
}

/// Capturing the same content right after it was captured is skipped and
/// changes nothing. After the first capture the hash is the one remembered, so
/// the second `check_clipboard` call's requirement on the text (which applies
/// only to a hash not remembered) is met whatever the text is.
pub proof fn lemma_repeat_capture_skipped(
    r1: Result<Option<ClipboardItem>, String>,
    r2: Result<Option<ClipboardItem>, String>,
    db0: DbModel,
    db1: DbModel,
    db2: DbModel,
    seen0: Option<Seq<char>>,
    seen1: Option<Seq<char>>,
    seen2: Option<Seq<char>>,
    content: Seq<char>,
    kind: Seq<char>,
    preview: Seq<char>,
    hash: Seq<char>,
)
    requires
        capture_outcome(r1, db0, db1, seen0, seen1, content, kind, preview, hash),
        r1 is Ok,
    ensures
        seen1 == Some(hash),
        capture_outcome(r2, db1, db2, seen1, seen2, content, kind, preview, hash) ==> r2 == Ok::<
            Option<ClipboardItem>,
            String,
        >(None) && db2 == db1 && seen2 == seen1,
{
}

/// The same, for two `check_clipboard` calls on the same text.
pub proof fn lemma_repeat_text_skipped(
    r1: Result<Option<ClipboardItem>, String>,
    r2: Result<Option<ClipboardItem>, String>,
    db0: DbModel,
    db1: DbModel,
    db2: DbModel,
    seen0: Option<Seq<char>>,
    seen1: Option<Seq<char>>,
    seen2: Option<Seq<char>>,
    text: Seq<char>,
)
    requires
        text.len() > 0,
        capture_outcome(
            r1,
            db0,
            db1,
            seen0,
            seen1,
            text,
            content_kind(text),
            text_preview(text),
            text_hash(text),
        ),
        r1 is Ok,
        capture_outcome(
            r2,
            db1,
            db2,
            seen1,
            seen2,
            text,
            content_kind(text),
            text_preview(text),
            text_hash(text),
        ),
    ensures
        seen1 == Some(text_hash(text)),
        r2 == Ok::<Option<ClipboardItem>, String>(None),
        db2 == db1,
        seen2 == seen1,
{
}

/// A capture is skipped only for the content seen last. Content whose hash is
/// not the last one seen is never skipped, whatever the store holds (content
/// copied earlier, but not last, is stored again): it becomes a new unpinned
/// item with that content and hash under a fresh identifier that no stored
/// item had, or, only when a stored item already has the identifier drawn,
/// the capture fails and changes nothing. Into a store that holds no item
/// under such an identifier, the capture always succeeds.
pub proof fn lemma_capture_stores_unless_last(
    r: Result<Option<ClipboardItem>, String>,
    db0: DbModel,
    db1: DbModel,
    seen0: Option<Seq<char>>,
    seen1: Option<Seq<char>>,
    content: Seq<char>,
    kind: Seq<char>,
    preview: Seq<char>,
    hash: Seq<char>,
)
    requires
        capture_outcome(r, db0, db1, seen0, seen1, content, kind, preview, hash),
        seen0 != Some(hash),
    ensures
        r != Ok::<Option<ClipboardItem>, String>(None),
        r matches Ok(Some(item)) ==> {
            &&& item.content@ == content
            &&& item.hash@ == hash
            &&& !item.is_pinned
            &&& uuid_v4_text(item.id@)
            &&& db0.lookup(item.id@) is None
            &&& db1 == after_capture(db0, item)
            &&& seen1 == Some(hash)
        },
        r is Err ==> db1 == db0 && seen1 == seen0 && exists|id: Seq<char>|
            uuid_v4_text(id) && #[trigger] db0.lookup(id) is Some,
        (forall|id: Seq<char>| uuid_v4_text(id) ==> #[trigger] db0.lookup(id) is None) ==> (
        r matches Ok(Some(_))),
{
}

/// How a text is classified, by its trimmed form `t`: a path (`t` starts with
/// '/', or its second and third bytes are ":\\") is "files" when it holds a
/// newline and "file" otherwise; any other `t` that starts with "http://",
/// "https://" or "ftp://" is "url"; of the rest, one with at least two code
/// indicators is "code", and anything else is "text".
pub proof fn lemma_content_kind_cases(text: Seq<char>)
    ensures
        path_like(trim(text)) && contains(trim(text), seq!['\n']) ==> content_kind(text)
            == "files"@,
        path_like(trim(text)) && !contains(trim(text), seq!['\n']) ==> content_kind(text)
            == "file"@,
        !path_like(trim(text)) && starts_with(trim(text), "http://"@) ==> content_kind(text)
            == "url"@,
        !path_like(trim(text)) && starts_with(trim(text), "https://"@) ==> content_kind(text)
            == "url"@,
        !path_like(trim(text)) && starts_with(trim(text), "ftp://"@) ==> content_kind(text)
            == "url"@,
        !path_like(trim(text)) && !starts_with(trim(text), "http://"@) && !starts_with(
            trim(text),
            "https://"@,
        ) && !starts_with(trim(text), "ftp://"@) && code_like(trim(text)) ==> content_kind(text)
            == "code"@,
        !path_like(trim(text)) && !starts_with(trim(text), "http://"@) && !starts_with(
            trim(text),
            "https://"@,
        ) && !starts_with(trim(text), "ftp://"@) && !code_like(trim(text)) ==> content_kind(text)
            == "text"@,
{
}

/// A preview holds at most 503 characters: 500 of the text and "...".
pub proof fn lemma_preview_short(text: Seq<char>)
    ensures
        text_preview(text).len() <= 503,
{
    broadcast use Seq::lemma_filter_len;

}

/// White space around a text changes neither its content type nor whether
/// classifying it panics: only the trimmed text matters.
pub proof fn lemma_kind_ignores_padding(w1: Seq<char>, text: Seq<char>, w2: Seq<char>)
    requires
        all_white_space(w1),
        all_white_space(w2),
    ensures
        content_kind(w1 + text + w2) == content_kind(text),
        kind_check_panics(w1 + text + w2) == kind_check_panics(text),
{
    lemma_trim_ignores_padding(w1, text, w2);
}

} // verus!
