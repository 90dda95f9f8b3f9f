//! Clipboard data model.
//!
//! A clipboard item is a payload — an insertion-ordered mapping from MIME
//! type to bytes — together with an id, a timestamp, a one-line preview and
//! a content classification.  The preview and the classification are derived
//! from the payload by a fixed priority: an `image/png` entry wins, then a
//! plain-text entry, then a placeholder built from the first entry.  The
//! spec functions here define those derivations exactly; the executable
//! code is proved against them.

use vstd::prelude::*;

use crate::decimal::spec_decimal;
use crate::strutil::{seq_has_substring, seq_starts_with};

verus! {

// ---------------------------------------------------------------------------
// Content classification
// ---------------------------------------------------------------------------
/// The classification attached to every history entry.
#[derive(Debug, Copy, Clone, PartialEq, Eq, Structural)]
pub enum ClipboardContentType {
    Text,
    Url,
    Code,
    Password,
    File,
    Image,
    Other,
}

/// The punctuation characters that make a short, space-free string look like
/// a password.
pub open spec fn is_password_special(c: char) -> bool {
    c == '!' || c == '@' || c == '#' || c == '$' || c == '%' || c == '^' || c == '&' || c == '*'
        || c == '(' || c == ')' || c == '-' || c == '_' || c == '=' || c == '+' || c == '['
        || c == ']' || c == '{' || c == '}' || c == ';' || c == ':' || c == ',' || c == '.'
        || c == '<' || c == '>' || c == '?' || c == '/' || c == '\\' || c == '|' || c == '`'
        || c == '~'
}

/// Classification of a preview string, by priority: URL prefix, then code
/// keywords, then a path-like shape, then a password-like shape, else text.
/// The two length bounds are over the string's UTF-8 bytes.
pub open spec fn spec_classify(s: Seq<char>) -> ClipboardContentType {
    if seq_starts_with(s, "http://"@) || seq_starts_with(s, "https://"@) {
        ClipboardContentType::Url
    } else if seq_has_substring(s, "fn "@) || seq_has_substring(s, "impl "@) || seq_has_substring(
        s,
        "struct "@,
    ) {
        ClipboardContentType::Code
    } else if s.contains('/') && !s.contains(' ') && vstd::utf8::encode_utf8(s).len() < 256 {
        ClipboardContentType::File
    } else if s.len() > 0 && vstd::utf8::encode_utf8(s).len() < 50 && !s.contains(' ') && (exists|
        i: int,
    |
        0 <= i < s.len() && is_password_special(s[i])) {
        ClipboardContentType::Password
    } else {
        ClipboardContentType::Text
    }
}

/// Is `c` one of the password punctuation characters?
fn char_is_password_special(c: char) -> (r: bool)
    ensures
        r == is_password_special(c),
{
    c == '!' || c == '@' || c == '#' || c == '$' || c == '%' || c == '^' || c == '&' || c == '*'
        || c == '(' || c == ')' || c == '-' || c == '_' || c == '=' || c == '+' || c == '['
        || c == ']' || c == '{' || c == '}' || c == ';' || c == ':' || c == ',' || c == '.'
        || c == '<' || c == '>' || c == '?' || c == '/' || c == '\\' || c == '|' || c == '`'
        || c == '~'
}

/// Does `s` contain one of the password punctuation characters?
fn chars_any_password_special(s: &Vec<char>) -> (r: bool)
    ensures
        r == (exists|i: int| 0 <= i < s@.len() && is_password_special(s@[i])),
{
    for i in 0..s.len()
        invariant
            forall|j: int| 0 <= j < i ==> !is_password_special(s@[j]),
    {
        if char_is_password_special(s[i]) {
            return true;
        }
    }
    false
}

impl ClipboardContentType {
    /// Classify a preview string.
    pub fn type_from_preview(content: &str) -> (r: Self)
        ensures
            r == spec_classify(content@),
    {
        let cs = crate::strutil::str_to_chars(content);
        let http = crate::strutil::str_to_chars("http://");
        let https = crate::strutil::str_to_chars("https://");
        if crate::strutil::chars_starts_with(&cs, &http) || crate::strutil::chars_starts_with(
            &cs,
            &https,
        ) {
            return ClipboardContentType::Url;
        }
        let kw_fn = crate::strutil::str_to_chars("fn ");
        let kw_impl = crate::strutil::str_to_chars("impl ");
        let kw_struct = crate::strutil::str_to_chars("struct ");
        if crate::strutil::chars_contains_sub(&cs, &kw_fn) || crate::strutil::chars_contains_sub(
            &cs,
            &kw_impl,
        ) || crate::strutil::chars_contains_sub(&cs, &kw_struct) {
            return ClipboardContentType::Code;
        }
        let has_slash = crate::strutil::chars_contains_char(&cs, '/');
        let has_space = crate::strutil::chars_contains_char(&cs, ' ');
        let byte_len = content.as_bytes().len();
        proof {
            assert(byte_len == vstd::utf8::encode_utf8(content@).len());
        }
        if has_slash && !has_space && byte_len < 256 {
            return ClipboardContentType::File;
        }
        if cs.len() > 0 && byte_len < 50 && !has_space && chars_any_password_special(&cs) {
            return ClipboardContentType::Password;
        }
        ClipboardContentType::Text
    }

    /// The view of the label returned by `as_str`.
    pub open spec fn label(self) -> Seq<char> {
        match self {
            ClipboardContentType::Text => "Text"@,
            ClipboardContentType::Url => "Url"@,
            ClipboardContentType::Code => "Code"@,
            ClipboardContentType::Password => "Password"@,
            ClipboardContentType::File => "File"@,
            ClipboardContentType::Image => "Image"@,
            ClipboardContentType::Other => "Other"@,
        }
    }

    /// A capitalized label for the content type.
    pub fn as_str(self) -> (r: &'static str)
        ensures
            r@ == self.label(),
    {
        match self {
            ClipboardContentType::Text => "Text",
            ClipboardContentType::Url => "Url",
            ClipboardContentType::Code => "Code",
            ClipboardContentType::Password => "Password",
            ClipboardContentType::File => "File",
            ClipboardContentType::Image => "Image",
            ClipboardContentType::Other => "Other",
        }
    }

    /// The view of the symbol returned by `icon`.
    pub open spec fn icon_label(self) -> Seq<char> {
        match self {
            ClipboardContentType::Text => "📝"@,
            ClipboardContentType::Url => "🔗"@,
            ClipboardContentType::Code => "💻"@,
            ClipboardContentType::Password => "🔒"@,
            ClipboardContentType::File => "📁"@,
            ClipboardContentType::Image => "🖼️"@,
            ClipboardContentType::Other => "📄"@,
        }
    }

    /// A pictographic symbol for list rows.
    pub fn icon(self) -> (r: &'static str)
        ensures
            r@ == self.icon_label(),
    {
        match self {
            ClipboardContentType::Text => "📝",
            ClipboardContentType::Url => "🔗",
            ClipboardContentType::Code => "💻",
            ClipboardContentType::Password => "🔒",
            ClipboardContentType::File => "📁",
            ClipboardContentType::Image => "🖼️",
            ClipboardContentType::Other => "📄",
        }
    }
}

// ---------------------------------------------------------------------------
// Payload: insertion-ordered MIME type -> bytes mapping
// ---------------------------------------------------------------------------
/// One payload entry: the bytes stored under one MIME type.
#[derive(Debug)]
pub struct MimeEntry {
    pub mime_type: String,
    pub data: Vec<u8>,
}

impl View for MimeEntry {
    type V = (Seq<char>, Seq<u8>);

    open spec fn view(&self) -> (Seq<char>, Seq<u8>) {
        (self.mime_type@, self.data@)
    }
}

impl Clone for MimeEntry {
    /// A clone holds the same MIME type and the same bytes.
    fn clone(&self) -> (r: Self)
        ensures
            r@ == self@,
    {
        let data = crate::strutil::clone_bytes(&self.data);
        MimeEntry { mime_type: self.mime_type.clone(), data }
    }
}

/// The value stored under `key`, if any.  On a well-formed payload the
/// matching index is unique, so this is the ordinary mapping lookup.
pub open spec fn payload_lookup(p: Seq<(Seq<char>, Seq<u8>)>, key: Seq<char>) -> Option<Seq<u8>> {
    if exists|k: int| 0 <= k < p.len() && (#[trigger] p[k]).0 == key {
        let k = choose|k: int| 0 <= k < p.len() && (#[trigger] p[k]).0 == key;
        Some(p[k].1)
    } else {
        None
    }
}

/// `key` is present in the payload.
pub open spec fn payload_has_key(p: Seq<(Seq<char>, Seq<u8>)>, key: Seq<char>) -> bool {
    payload_lookup(p, key) is Some
}

/// No two entries share a MIME type.
pub open spec fn payload_keys_unique(p: Seq<(Seq<char>, Seq<u8>)>) -> bool {
    forall|i: int, j: int| 0 <= i < j < p.len() ==> (#[trigger] p[i]).0 != (#[trigger] p[j]).0
}

/// An insertion-ordered mapping from MIME type to payload bytes.
#[derive(Debug)]
pub struct MimeData {
    entries: Vec<MimeEntry>,
}

impl View for MimeData {
    type V = Seq<(Seq<char>, Seq<u8>)>;

    closed spec fn view(&self) -> Seq<(Seq<char>, Seq<u8>)> {
        self.entries@.map_values(|e: MimeEntry| e@)
    }
}

impl Clone for MimeData {
    /// A clone holds the same entries in the same order.
    fn clone(&self) -> (r: Self)
        ensures
            r@ == self@,
    {
        let n = self.entries.len();
        let mut entries: Vec<MimeEntry> = Vec::new();
        for i in 0..n
            invariant
                n == self.entries.len(),
                entries@.len() == i,
                forall|j: int| 0 <= j < i ==> (#[trigger] entries@[j])@ == self.entries@[j]@,
        {
            entries.push(self.entries[i].clone());
        }
        let r = MimeData { entries };
        proof {
            assert(r@ =~= self@);
        }
        r
    }
}

impl MimeData {
    /// Entries are keyed by distinct MIME types.
    pub open spec fn wf(&self) -> bool {
        payload_keys_unique(self@)
    }

    /// An empty payload.
    pub fn new() -> (r: Self)
        ensures
            r@ =~= Seq::<(Seq<char>, Seq<u8>)>::empty(),
            r.wf(),
    {
        let r = MimeData { entries: Vec::new() };
        proof {
            assert(r@ =~= Seq::<(Seq<char>, Seq<u8>)>::empty());
        }
        r
    }

    /// Number of entries.
    pub fn len(&self) -> (n: usize)
        ensures
            n == self@.len(),
    {
        self.entries.len()
    }

    /// Is the payload empty?
    pub fn is_empty(&self) -> (r: bool)
        ensures
            r == (self@.len() == 0),
    {
        self.entries.len() == 0
    }

    /// Store `data` under `mime`.  An existing entry keeps its position and
    /// gets the new bytes; a new MIME type is appended at the end.
    pub fn insert(&mut self, mime: String, data: Vec<u8>)
        requires
            old(self).wf(),
        ensures
            final(self).wf(),
            payload_has_key(old(self)@, mime@) ==> exists|k: int|
                0 <= k < old(self)@.len() && (#[trigger] old(self)@[k]).0 == mime@
                    && final(self)@ =~= old(self)@.update(k, (mime@, data@)),
            !payload_has_key(old(self)@, mime@) ==> final(self)@ =~= old(self)@.push(
                (mime@, data@),
            ),
    {
        let n = self.entries.len();
        for i in 0..n
            invariant
                n == self.entries.len(),
                self.wf(),
                self@ == old(self)@,
                forall|j: int| 0 <= j < i ==> (#[trigger] self@[j]).0 != mime@,
        {
            if crate::strutil::str_eq(self.entries[i].mime_type.as_str(), mime.as_str()) {
                let ghost pre = self@;
                proof {
                    assert(pre[i as int] == self.entries@[i as int]@);
                    assert(pre[i as int].0 == mime@);
                    assert(forall|j: int|
                        0 <= j < pre.len() && j != i ==> (#[trigger] pre[j]).0 != mime@);
                }
                let e = MimeEntry { mime_type: mime, data };
                self.entries.set(i, e);
                proof {
                    assert(self@ =~= pre.update(i as int, (mime@, data@)));
                    assert(payload_has_key(old(self)@, mime@));
                    assert(forall|a: int, b: int|
                        0 <= a < b < self@.len() ==> (#[trigger] self@[a]).0 != (
                        #[trigger] self@[b]).0);
                }
                return ;
            }
        }
        let e = MimeEntry { mime_type: mime, data };
        self.entries.push(e);
        proof {
            assert(self@ =~= old(self)@.push((mime@, data@)));
            assert(!payload_has_key(old(self)@, mime@));
        }
    }

    /// The bytes stored under `mime`, if any.
    pub fn get(&self, mime: &str) -> (r: Option<&Vec<u8>>)
        requires
            self.wf(),
        ensures
            (match r {
                Some(v) => payload_lookup(self@, mime@) == Some(v@),
                None => payload_lookup(self@, mime@) is None,
            }),
    {
        let n = self.entries.len();
        for i in 0..n
            invariant
                n == self.entries.len(),
                self.wf(),
                forall|j: int| 0 <= j < i ==> (#[trigger] self@[j]).0 != mime@,
        {
            if crate::strutil::str_eq(self.entries[i].mime_type.as_str(), mime) {
                proof {
                    assert(self@[i as int] == self.entries@[i as int]@);
                    assert(self@[i as int].0 == mime@);
                    assert(exists|k: int| 0 <= k < self@.len() && (#[trigger] self@[k]).0 == mime@);
                    let k = choose|k: int|
                        0 <= k < self@.len() && (#[trigger] self@[k]).0 == mime@;
                    if k != i as int {
                        assert((self@[k]).0 == (self@[i as int]).0);
                        assert(false);
                    }
                    assert(self@[i as int].1 == self.entries@[i as int].data@);
                }
                return Some(&self.entries[i].data);
            }
        }
        None
    }

    /// The first entry of a nonempty payload.
    pub fn first_entry(&self) -> (r: &MimeEntry)
        requires
            self@.len() > 0,
        ensures
            r@ == self@[0],
    {
        &self.entries[0]
    }

    /// The MIME types, in insertion order.
    pub fn mime_types(&self) -> (r: Vec<String>)
        ensures
            r@.len() == self@.len(),
            forall|i: int| 0 <= i < r@.len() ==> (#[trigger] r@[i])@ == self@[i].0,
    {
        let n = self.entries.len();
        let mut r: Vec<String> = Vec::new();
        for i in 0..n
            invariant
                n == self.entries.len(),
                r@.len() == i,
                forall|j: int| 0 <= j < i ==> (#[trigger] r@[j])@ == self@[j].0,
        {
            r.push(self.entries[i].mime_type.clone());
        }
        r
    }

}

// ---------------------------------------------------------------------------
// Items and previews
// ---------------------------------------------------------------------------
/// Mathematical model of a stored clipboard item.
pub struct ItemModel {
    pub item_id: u64,
    pub content_preview: Seq<char>,
    pub content_type: ClipboardContentType,
    pub timestamp: u64,
    pub mime_data: Seq<(Seq<char>, Seq<u8>)>,
}

/// Mathematical model of an item preview.
pub struct PreviewModel {
    pub item_id: u64,
    pub content_preview: Seq<char>,
    pub content_type: ClipboardContentType,
    pub timestamp: u64,
}

impl ItemModel {
    /// The projection sent to clients: everything but the payload.
    pub open spec fn preview(self) -> PreviewModel {
        PreviewModel {
            item_id: self.item_id,
            content_preview: self.content_preview,
            content_type: self.content_type,
            timestamp: self.timestamp,
        }
    }
}

/// A clipboard history entry.
#[derive(Debug)]
pub struct ClipboardItem {
    pub item_id: u64,
    pub content_preview: String,
    pub content_type: ClipboardContentType,
    pub timestamp: u64,
    pub mime_data: MimeData,
}

impl View for ClipboardItem {
    type V = ItemModel;

    open spec fn view(&self) -> ItemModel {
        ItemModel {
            item_id: self.item_id,
            content_preview: self.content_preview@,
            content_type: self.content_type,
            timestamp: self.timestamp,
            mime_data: self.mime_data@,
        }
    }
}

impl ClipboardItem {
    /// A stored item always carries at least one payload entry, with
    /// distinct MIME types.
    pub open spec fn wf(&self) -> bool {
        self.mime_data.wf() && self.mime_data@.len() > 0
    }
}

impl Clone for ClipboardItem {
    /// A clone holds the same id, preview, type, timestamp and payload.
    fn clone(&self) -> (r: Self)
        ensures
            r@ == self@,
            r.wf() == self.wf(),
    {
        ClipboardItem {
            item_id: self.item_id,
            content_preview: self.content_preview.clone(),
            content_type: self.content_type,
            timestamp: self.timestamp,
            mime_data: self.mime_data.clone(),
        }
    }
}

/// The payload-free projection of an item, as sent to clients.
#[derive(Debug, Clone, PartialEq)]
pub struct ClipboardItemPreview {
    pub item_id: u64,
    pub content_preview: String,
    pub content_type: ClipboardContentType,
    pub timestamp: u64,
}

impl View for ClipboardItemPreview {
    type V = PreviewModel;

    open spec fn view(&self) -> PreviewModel {
        PreviewModel {
            item_id: self.item_id,
            content_preview: self.content_preview@,
            content_type: self.content_type,
            timestamp: self.timestamp,
        }
    }
}

impl ClipboardItemPreview {
    /// Project an item to its preview.
    pub fn from(full: &ClipboardItem) -> (r: Self)
        ensures
            r@ == full@.preview(),
    {
        ClipboardItemPreview {
            item_id: full.item_id,
            content_preview: full.content_preview.clone(),
            content_type: full.content_type,
            timestamp: full.timestamp,
        }
    }
}

// ---------------------------------------------------------------------------
// Preview derivation from a payload
// ---------------------------------------------------------------------------
/// The placeholder preview for a payload entry that is not shown verbatim:
/// its MIME type and its byte count.
pub open spec fn spec_placeholder(mime: Seq<char>, len: nat) -> Seq<char> {
    seq!['<'] + mime + seq![' '] + spec_decimal(len) + " bytes>"@
}

/// The preview chosen for a nonempty payload, by priority: an `image/png`
/// entry yields a placeholder; a UTF-8 `text/plain;charset=utf-8` entry
/// yields its first 200 characters; other payloads yield a placeholder for
/// the first entry in insertion order.
pub open spec fn spec_item_preview(p: Seq<(Seq<char>, Seq<u8>)>) -> Seq<char>
    recommends
        p.len() > 0,
{
    if payload_lookup(p, "image/png"@) is Some {
        spec_placeholder("image/png"@, payload_lookup(p, "image/png"@)->0.len())
    } else if payload_lookup(p, "text/plain;charset=utf-8"@) is Some {
        let b = payload_lookup(p, "text/plain;charset=utf-8"@)->0;
        if vstd::utf8::valid_utf8(b) {
            let s = vstd::utf8::decode_utf8(b);
            if s.len() <= 200 {
                s
            } else {
                s.take(200)
            }
        } else {
            spec_placeholder("text/plain;charset=utf-8"@, b.len())
        }
    } else {
        spec_placeholder(p[0].0, p[0].1.len())
    }
}

/// The content type chosen for a nonempty payload: `Image` for `image/png`,
/// else the classification of the chosen preview.
pub open spec fn spec_item_type(p: Seq<(Seq<char>, Seq<u8>)>) -> ClipboardContentType
    recommends
        p.len() > 0,
{
    if payload_lookup(p, "image/png"@) is Some {
        ClipboardContentType::Image
    } else {
        spec_classify(spec_item_preview(p))
    }
}

// ---------------------------------------------------------------------------
// Wire messages
// ---------------------------------------------------------------------------
/// A request from a UI client to the daemon.
#[derive(Debug, Copy, Clone, PartialEq, Eq, Structural)]
pub enum FrontendMessage {
    /// Request clipboard history.
    GetHistory,
    /// Set clipboard content by id.
    SetClipboardById { id: u64 },
    /// Clear all clipboard history.
    ClearHistory,
}

/// A reply or push notification from the daemon to a UI client.
#[derive(Debug, Clone, PartialEq)]
pub enum BackendMessage {
    /// Response with clipboard history (previews only, no payloads).
    History { items: Vec<ClipboardItemPreview> },
    /// A new clipboard item was added (preview only).
    NewItem { item: ClipboardItemPreview },
    /// Clipboard content set successfully.
    ClipboardSet,
    /// History cleared.
    HistoryCleared,
    /// An error occurred.
    Error { message: String },
}

/// A request between the launcher and the overlay process.
#[derive(Debug, Copy, Clone, PartialEq, Eq, Structural)]
pub enum LauncherMessage {
    /// Show the overlay window.
    ShowOverlay,
    /// Hide the overlay window.
    HideOverlay,
}

} // verus!
