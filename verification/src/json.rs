//! The line-delimited JSON wire protocol.
//!
//! Requests and responses travel as one JSON value per line, in the compact
//! canonical form: object fields in declaration order, no whitespace,
//! strings escaped minimally (`\"`, `\\`, `\b`, `\t`, `\n`, `\f`, `\r`, and
//! `\u00XX` for the remaining control characters).  A unit enum variant is
//! a JSON string, a struct variant an object under the variant's name.
//!
//! The `enc_*` spec functions define the canonical text of every message.
//! The encoders produce exactly that text.  The parsers accept exactly that
//! text: they return a message if and only if the input is its canonical
//! encoding, so parsing inverts encoding, and a line that is no encoding is
//! rejected.

use vstd::prelude::*;

use vstd::string::StringExecFns;

use crate::data::{BackendMessage, ClipboardContentType, ClipboardItemPreview, FrontendMessage,
    LauncherMessage, PreviewModel};
use crate::decimal::{spec_decimal, spec_decimal_val, spec_digit_val, spec_is_digit};

verus! {

// ---------------------------------------------------------------------------
// String escaping
// ---------------------------------------------------------------------------
/// The control characters with a short escape of their own.
pub open spec fn is_short_escaped(c: char) -> bool {
    c == '\u{8}' || c == '\t' || c == '\n' || c == '\u{c}' || c == '\r'
}

/// The `\u00XX` escape of a control character without a short escape, or
/// the empty sequence for any other character.
pub open spec fn control_escape(c: char) -> Seq<char> {
    if c == '\u{0}' {
        seq!['\\', 'u', '0', '0', '0', '0']
    } else if c == '\u{1}' {
        seq!['\\', 'u', '0', '0', '0', '1']
    } else if c == '\u{2}' {
        seq!['\\', 'u', '0', '0', '0', '2']
    } else if c == '\u{3}' {
        seq!['\\', 'u', '0', '0', '0', '3']
    } else if c == '\u{4}' {
        seq!['\\', 'u', '0', '0', '0', '4']
    } else if c == '\u{5}' {
        seq!['\\', 'u', '0', '0', '0', '5']
    } else if c == '\u{6}' {
        seq!['\\', 'u', '0', '0', '0', '6']
    } else if c == '\u{7}' {
        seq!['\\', 'u', '0', '0', '0', '7']
    } else if c == '\u{b}' {
        seq!['\\', 'u', '0', '0', '0', 'b']
    } else if c == '\u{e}' {
        seq!['\\', 'u', '0', '0', '0', 'e']
    } else if c == '\u{f}' {
        seq!['\\', 'u', '0', '0', '0', 'f']
    } else if c == '\u{10}' {
        seq!['\\', 'u', '0', '0', '1', '0']
    } else if c == '\u{11}' {
        seq!['\\', 'u', '0', '0', '1', '1']
    } else if c == '\u{12}' {
        seq!['\\', 'u', '0', '0', '1', '2']
    } else if c == '\u{13}' {
        seq!['\\', 'u', '0', '0', '1', '3']
    } else if c == '\u{14}' {
        seq!['\\', 'u', '0', '0', '1', '4']
    } else if c == '\u{15}' {
        seq!['\\', 'u', '0', '0', '1', '5']
    } else if c == '\u{16}' {
        seq!['\\', 'u', '0', '0', '1', '6']
    } else if c == '\u{17}' {
        seq!['\\', 'u', '0', '0', '1', '7']
    } else if c == '\u{18}' {
        seq!['\\', 'u', '0', '0', '1', '8']
    } else if c == '\u{19}' {
        seq!['\\', 'u', '0', '0', '1', '9']
    } else if c == '\u{1a}' {
        seq!['\\', 'u', '0', '0', '1', 'a']
    } else if c == '\u{1b}' {
        seq!['\\', 'u', '0', '0', '1', 'b']
    } else if c == '\u{1c}' {
        seq!['\\', 'u', '0', '0', '1', 'c']
    } else if c == '\u{1d}' {
        seq!['\\', 'u', '0', '0', '1', 'd']
    } else if c == '\u{1e}' {
        seq!['\\', 'u', '0', '0', '1', 'e']
    } else if c == '\u{1f}' {
        seq!['\\', 'u', '0', '0', '1', 'f']
    } else {
        Seq::<char>::empty()
    }
}

/// `c` is a control character escaped as `\u00XX`.
pub open spec fn is_long_escaped(c: char) -> bool {
    control_escape(c).len() > 0
}

/// The canonical escape of one character.
pub open spec fn esc_char(c: char) -> Seq<char> {
    if c == '"' {
        seq!['\\', '"']
    } else if c == '\\' {
        seq!['\\', '\\']
    } else if c == '\u{8}' {
        seq!['\\', 'b']
    } else if c == '\t' {
        seq!['\\', 't']
    } else if c == '\n' {
        seq!['\\', 'n']
    } else if c == '\u{c}' {
        seq!['\\', 'f']
    } else if c == '\r' {
        seq!['\\', 'r']
    } else if is_long_escaped(c) {
        control_escape(c)
    } else {
        seq![c]
    }
}

/// The canonical escape of a string body, character by character.
pub open spec fn esc(s: Seq<char>) -> Seq<char>
    decreases s.len(),
{
    if s.len() == 0 {
        Seq::<char>::empty()
    } else {
        esc_char(s[0]) + esc(s.drop_first())
    }
}

/// A JSON string literal: the escaped body in double quotes.
pub open spec fn enc_string(s: Seq<char>) -> Seq<char> {
    seq!['"'] + esc(s) + seq!['"']
}

/// Escaping distributes over appending one character at the end.
pub proof fn lemma_esc_push(s: Seq<char>, c: char)
    ensures
        esc(s.push(c)) =~= esc(s) + esc_char(c),
    decreases s.len(),
{
    if s.len() == 0 {
        assert(s.push(c)[0] == c);
        assert(s.push(c).drop_first() =~= Seq::<char>::empty());
        assert(esc(Seq::<char>::empty()) =~= Seq::<char>::empty());
        assert(esc(s.push(c)) =~= esc_char(c) + esc(Seq::<char>::empty()));
        assert(esc(s.push(c)) =~= esc_char(c));
    } else {
        assert(s.push(c)[0] == s[0]);
        assert(s.push(c).drop_first() =~= s.drop_first().push(c));
        lemma_esc_push(s.drop_first(), c);
    }
}

/// Escaping a one-longer prefix appends one character's escape.
pub proof fn lemma_esc_take_step(s: Seq<char>, k: int)
    requires
        0 <= k < s.len(),
    ensures
        esc(s.take(k + 1)) =~= esc(s.take(k)) + esc_char(s[k]),
{
    assert(s.take(k + 1) =~= s.take(k).push(s[k]));
    lemma_esc_push(s.take(k), s[k]);
}

// ---------------------------------------------------------------------------
// Canonical encodings of the wire messages
// ---------------------------------------------------------------------------
/// The JSON text of a content type: its label as a JSON string.
pub open spec fn enc_content_type(t: ClipboardContentType) -> Seq<char> {
    seq!['"'] + t.label() + seq!['"']
}

/// The JSON text of an item preview.
pub open spec fn enc_preview(p: PreviewModel) -> Seq<char> {
    "{\"item_id\":"@ + spec_decimal(p.item_id as nat) + ",\"content_preview\":"@ + enc_string(
        p.content_preview,
    ) + ",\"content_type\":"@ + enc_content_type(p.content_type) + ",\"timestamp\":"@
        + spec_decimal(p.timestamp as nat) + seq!['}']
}

/// The JSON text of the items of a history response, comma separated.
pub open spec fn enc_previews(items: Seq<PreviewModel>) -> Seq<char>
    decreases items.len(),
{
    if items.len() == 0 {
        Seq::<char>::empty()
    } else if items.len() == 1 {
        enc_preview(items[0])
    } else {
        enc_preview(items[0]) + seq![','] + enc_previews(items.drop_first())
    }
}

/// The JSON text of a request.
pub open spec fn enc_frontend(m: FrontendMessage) -> Seq<char> {
    match m {
        FrontendMessage::GetHistory => "\"GetHistory\""@,
        FrontendMessage::SetClipboardById { id } => {
            "{\"SetClipboardById\":{\"id\":"@ + spec_decimal(id as nat) + "}}"@
        },
        FrontendMessage::ClearHistory => "\"ClearHistory\""@,
    }
}

/// The model of a response: its payload with strings and lists abstracted.
pub enum BackendMessageModel {
    History { items: Seq<PreviewModel> },
    NewItem { item: PreviewModel },
    ClipboardSet,
    HistoryCleared,
    Error { message: Seq<char> },
}

/// The models of a list of previews.
pub open spec fn previews_model(items: Seq<ClipboardItemPreview>) -> Seq<PreviewModel> {
    items.map_values(|p: ClipboardItemPreview| p@)
}

impl View for BackendMessage {
    type V = BackendMessageModel;

    open spec fn view(&self) -> BackendMessageModel {
        match self {
            BackendMessage::History { items } => {
                BackendMessageModel::History { items: previews_model(items@) }
            },
            BackendMessage::NewItem { item } => BackendMessageModel::NewItem { item: item@ },
            BackendMessage::ClipboardSet => BackendMessageModel::ClipboardSet,
            BackendMessage::HistoryCleared => BackendMessageModel::HistoryCleared,
            BackendMessage::Error { message } => BackendMessageModel::Error { message: message@ },
        }
    }
}

/// The JSON text of a response.
pub open spec fn enc_backend(m: BackendMessageModel) -> Seq<char> {
    match m {
        BackendMessageModel::History { items } => {
            "{\"History\":{\"items\":["@ + enc_previews(items) + "]}}"@
        },
        BackendMessageModel::NewItem { item } => {
            "{\"NewItem\":{\"item\":"@ + enc_preview(item) + "}}"@
        },
        BackendMessageModel::ClipboardSet => "\"ClipboardSet\""@,
        BackendMessageModel::HistoryCleared => "\"HistoryCleared\""@,
        BackendMessageModel::Error { message } => {
            "{\"Error\":{\"message\":"@ + enc_string(message) + "}}"@
        },
    }
}

/// The JSON text of a launcher request.
pub open spec fn enc_launcher(m: LauncherMessage) -> Seq<char> {
    match m {
        LauncherMessage::ShowOverlay => "\"ShowOverlay\""@,
        LauncherMessage::HideOverlay => "\"HideOverlay\""@,
    }
}

// ---------------------------------------------------------------------------
// Encoders
// ---------------------------------------------------------------------------
/// Append the escape of one character.
fn push_esc_char(out: &mut String, c: char)
    ensures
        final(out)@ == old(out)@ + esc_char(c),
{
    if c == '"' {
        out.push('\\');
        out.push('"');
    } else if c == '\\' {
        out.push('\\');
        out.push('\\');
    } else if c == '\u{8}' {
        out.push('\\');
        out.push('b');
    } else if c == '\t' {
        out.push('\\');
        out.push('t');
    } else if c == '\n' {
        out.push('\\');
        out.push('n');
    } else if c == '\u{c}' {
        out.push('\\');
        out.push('f');
    } else if c == '\r' {
        out.push('\\');
        out.push('r');
    } else {
        let (hi, lo) = long_escape_digits(c);
        if hi == ' ' {
            out.push(c);
            proof {
                assert(final(out)@ =~= old(out)@ + esc_char(c));
            }
        } else {
            out.push('\\');
            out.push('u');
            out.push('0');
            out.push('0');
            out.push(hi);
            out.push(lo);
            proof {
                assert(final(out)@ =~= old(out)@ + esc_char(c));
            }
        }
    }
    proof {
        assert(final(out)@ =~= old(out)@ + esc_char(c));
    }
}

/// The two hex digits of a long-escaped control character, or a space pair
/// for characters that need no long escape.
fn long_escape_digits(c: char) -> (r: (char, char))
    ensures
        is_long_escaped(c) ==> control_escape(c) =~= seq!['\\', 'u', '0', '0', r.0, r.1],
        !is_long_escaped(c) ==> r.0 == ' ',
{
    if c == '\u{0}' {
        ('0', '0')
    } else if c == '\u{1}' {
        ('0', '1')
    } else if c == '\u{2}' {
        ('0', '2')
    } else if c == '\u{3}' {
        ('0', '3')
    } else if c == '\u{4}' {
        ('0', '4')
    } else if c == '\u{5}' {
        ('0', '5')
    } else if c == '\u{6}' {
        ('0', '6')
    } else if c == '\u{7}' {
        ('0', '7')
    } else if c == '\u{b}' {
        ('0', 'b')
    } else if c == '\u{e}' {
        ('0', 'e')
    } else if c == '\u{f}' {
        ('0', 'f')
    } else if c == '\u{10}' {
        ('1', '0')
    } else if c == '\u{11}' {
        ('1', '1')
    } else if c == '\u{12}' {
        ('1', '2')
    } else if c == '\u{13}' {
        ('1', '3')
    } else if c == '\u{14}' {
        ('1', '4')
    } else if c == '\u{15}' {
        ('1', '5')
    } else if c == '\u{16}' {
        ('1', '6')
    } else if c == '\u{17}' {
        ('1', '7')
    } else if c == '\u{18}' {
        ('1', '8')
    } else if c == '\u{19}' {
        ('1', '9')
    } else if c == '\u{1a}' {
        ('1', 'a')
    } else if c == '\u{1b}' {
        ('1', 'b')
    } else if c == '\u{1c}' {
        ('1', 'c')
    } else if c == '\u{1d}' {
        ('1', 'd')
    } else if c == '\u{1e}' {
        ('1', 'e')
    } else if c == '\u{1f}' {
        ('1', 'f')
    } else {
        (' ', ' ')
    }
}

/// Append a JSON string literal for `s`.
fn push_json_string(out: &mut String, s: &str)
    ensures
        final(out)@ == old(out)@ + enc_string(s@),
{
    let cs = crate::strutil::str_to_chars(s);
    out.push('"');
    let n = cs.len();
    for i in 0..n
        invariant
            n == cs.len(),
            cs@ == s@,
            out@ =~= old(out)@ + seq!['"'] + esc(s@.take(i as int)),
    {
        proof {
            lemma_esc_take_step(s@, i as int);
        }
        push_esc_char(out, cs[i]);
    }
    out.push('"');
    proof {
        assert(s@.take(n as int) =~= s@);
        assert(final(out)@ =~= old(out)@ + enc_string(s@));
    }
}

/// Append the decimal numeral of `n`.
fn push_u64(out: &mut String, n: u64)
    ensures
        final(out)@ == old(out)@ + spec_decimal(n as nat),
{
    let num = crate::decimal::u64_to_string(n);
    out.append(num.as_str());
}

/// Append the JSON text of a content type.
fn push_content_type(out: &mut String, t: ClipboardContentType)
    ensures
        final(out)@ == old(out)@ + enc_content_type(t),
{
    out.push('"');
    out.append(t.as_str());
    out.push('"');
    proof {
        assert(final(out)@ =~= old(out)@ + enc_content_type(t));
    }
}

/// Append the JSON text of an item preview.
fn push_preview(out: &mut String, p: &ClipboardItemPreview)
    ensures
        final(out)@ == old(out)@ + enc_preview(p@),
{
    out.append("{\"item_id\":");
    push_u64(out, p.item_id);
    out.append(",\"content_preview\":");
    push_json_string(out, p.content_preview.as_str());
    out.append(",\"content_type\":");
    push_content_type(out, p.content_type);
    out.append(",\"timestamp\":");
    push_u64(out, p.timestamp);
    out.push('}');
    proof {
        assert(final(out)@ =~= old(out)@ + enc_preview(p@));
    }
}

/// Encode a request as its canonical JSON line (without the newline).
pub fn encode_frontend_message(m: &FrontendMessage) -> (r: String)
    ensures
        r@ == enc_frontend(*m),
{
    let mut out = String::new();
    match m {
        FrontendMessage::GetHistory => {
            out.append("\"GetHistory\"");
        },
        FrontendMessage::SetClipboardById { id } => {
            out.append("{\"SetClipboardById\":{\"id\":");
            push_u64(&mut out, *id);
            out.append("}}");
        },
        FrontendMessage::ClearHistory => {
            out.append("\"ClearHistory\"");
        },
    }
    proof {
        assert(out@ =~= enc_frontend(*m));
    }
    out
}

/// Encode a response as its canonical JSON line (without the newline).
pub fn encode_backend_message(m: &BackendMessage) -> (r: String)
    ensures
        r@ == enc_backend(m@),
{
    let mut out = String::new();
    match m {
        BackendMessage::History { items } => {
            out.append("{\"History\":{\"items\":[");
            let n = items.len();
            for i in 0..n
                invariant
                    n == items.len(),
                    out@ =~= "{\"History\":{\"items\":["@ + enc_previews_prefix(
                        items@.map_values(|p: ClipboardItemPreview| p@),
                        i as int,
                    ),
            {
                if i > 0 {
                    out.push(',');
                }
                push_preview(&mut out, &items[i]);
                proof {
                    lemma_enc_previews_prefix_step(
                        items@.map_values(|p: ClipboardItemPreview| p@),
                        i as int,
                    );
                }
            }
            out.append("]}}");
            proof {
                let ms = items@.map_values(|p: ClipboardItemPreview| p@);
                lemma_enc_previews_prefix_all(ms);
                assert(out@ =~= enc_backend(m@));
            }
        },
        BackendMessage::NewItem { item } => {
            out.append("{\"NewItem\":{\"item\":");
            push_preview(&mut out, item);
            out.append("}}");
            proof {
                assert(out@ =~= enc_backend(m@));
            }
        },
        BackendMessage::ClipboardSet => {
            out.append("\"ClipboardSet\"");
            proof {
                assert(out@ =~= enc_backend(m@));
            }
        },
        BackendMessage::HistoryCleared => {
            out.append("\"HistoryCleared\"");
            proof {
                assert(out@ =~= enc_backend(m@));
            }
        },
        BackendMessage::Error { message } => {
            out.append("{\"Error\":{\"message\":");
            push_json_string(&mut out, message.as_str());
            out.append("}}");
            proof {
                assert(out@ =~= enc_backend(m@));
            }
        },
    }
    out
}

/// Encode a launcher request as its canonical JSON line.
pub fn encode_launcher_message(m: &LauncherMessage) -> (r: String)
    ensures
        r@ == enc_launcher(*m),
{
    let mut out = String::new();
    match m {
        LauncherMessage::ShowOverlay => {
            out.append("\"ShowOverlay\"");
        },
        LauncherMessage::HideOverlay => {
            out.append("\"HideOverlay\"");
        },
    }
    proof {
        assert(out@ =~= enc_launcher(*m));
    }
    out
}

/// The encoding of the first `k` items of a history list, with the comma
/// that a further item would need after any item but the first.
pub open spec fn enc_previews_prefix(items: Seq<PreviewModel>, k: int) -> Seq<char>
    decreases k,
{
    if k <= 0 {
        Seq::<char>::empty()
    } else if k == 1 {
        enc_preview(items[0])
    } else {
        enc_previews_prefix(items, k - 1) + seq![','] + enc_preview(items[k - 1])
    }
}

/// One more item extends the prefix encoding by a comma (after the first)
/// and that item's text.
pub proof fn lemma_enc_previews_prefix_step(items: Seq<PreviewModel>, i: int)
    requires
        0 <= i,
    ensures
        i == 0 ==> enc_previews_prefix(items, 1) =~= enc_preview(items[0]),
        i > 0 ==> enc_previews_prefix(items, i + 1) =~= enc_previews_prefix(items, i) + seq![',']
            + enc_preview(items[i]),
{
}

/// The full prefix encoding is the list encoding.
pub proof fn lemma_enc_previews_prefix_all(items: Seq<PreviewModel>)
    ensures
        enc_previews_prefix(items, items.len() as int) =~= enc_previews(items),
    decreases items.len(),
{
    let n = items.len() as int;
    if n == 0 {
    } else if n == 1 {
    } else {
        lemma_enc_previews_prefix_all(items.drop_first());
        lemma_enc_previews_prefix_shift(items, n - 1);
        assert(enc_previews(items) =~= enc_preview(items[0]) + seq![','] + enc_previews(
            items.drop_first(),
        ));
    }
}

// ---------------------------------------------------------------------------
// Parsers
// ---------------------------------------------------------------------------
/// Consume the exact literal `lit` at position `i`: the position after it
/// when the input carries it there, and nothing otherwise.
fn expect_lit(v: &Vec<char>, i: usize, lit: &str) -> (r: Option<usize>)
    requires
        i <= v@.len(),
    ensures
        (match r {
            Some(j) => i + lit@.len() == j && j <= v@.len() && v@.subrange(i as int, j as int)
                == lit@,
            None => !(i + lit@.len() <= v@.len() && v@.subrange(i as int, i + lit@.len() as int)
                == lit@),
        }),
{
    let lv = crate::strutil::str_to_chars(lit);
    if v.len() - i < lv.len() {
        return None;
    }
    if crate::strutil::matches_at(v, &lv, i) {
        Some(i + lv.len())
    } else {
        None
    }
}

/// Parse a canonical decimal numeral at position `i`.  Returns the value
/// and the position after it exactly when one stands there; a numeral
/// followed by another digit, a leading zero, or a value beyond `u64` is
/// no parse.
fn parse_u64(v: &Vec<char>, i: usize) -> (r: Option<(u64, usize)>)
    requires
        i <= v@.len(),
    ensures
        (match r {
            Some(p) => i <= p.1 <= v@.len() && v@.subrange(i as int, p.1 as int) == spec_decimal(
                p.0 as nat,
            ),
            None => true,
        }),
        forall|n: u64, j: int|
            #![trigger v@.subrange(i as int, j), spec_decimal(n as nat)]
            j == i + spec_decimal(n as nat).len() && j <= v@.len() && v@.subrange(i as int, j)
                == spec_decimal(n as nat) && (j == v@.len() || !spec_is_digit(v@[j])) ==> (
            r matches Some(p) && p.0 == n && p.1 == j),
{
    let len = v.len();
    if i >= len {
        proof {
            lemma_no_decimal_here(v@, i as int);
        }
        return None;
    }
    if !crate::decimal::is_digit(v[i]) {
        proof {
            lemma_no_decimal_here(v@, i as int);
        }
        return None;
    }
    if v[i] == '0' {
        if i + 1 < len && crate::decimal::is_digit(v[i + 1]) {
            proof {
                assert forall|n: u64, j: int|
                    #![trigger v@.subrange(i as int, j), spec_decimal(n as nat)]
                    j == i + spec_decimal(n as nat).len() && j <= v@.len() && v@.subrange(
                        i as int,
                        j,
                    ) == spec_decimal(n as nat) && (j == v@.len() || !spec_is_digit(v@[j]))
                        implies false by {
                    crate::decimal::lemma_decimal_shape(n as nat);
                    assert(spec_decimal(n as nat)[0] == v@[i as int]);
                    assert(n == 0);
                    assert(j == i + 1);
                }
            }
            return None;
        }
        proof {
            assert(v@.subrange(i as int, i + 1) =~= seq!['0']);
            assert(spec_decimal(0) =~= seq!['0']);
            assert forall|n: u64, j: int|
                #![trigger v@.subrange(i as int, j), spec_decimal(n as nat)]
                j == i + spec_decimal(n as nat).len() && j <= v@.len() && v@.subrange(
                    i as int,
                    j,
                ) == spec_decimal(n as nat) && (j == v@.len() || !spec_is_digit(v@[j])) implies n
                == 0 && j == i + 1 by {
                crate::decimal::lemma_decimal_shape(n as nat);
                assert(spec_decimal(n as nat)[0] == v@[i as int]);
            }
        }
        return Some((0, i + 1));
    }
    let mut j: usize = i;
    let mut acc: u64 = 0;
    while j < len && crate::decimal::is_digit(v[j])
        invariant
            len == v@.len(),
            i <= j <= len,
            i < len,
            spec_is_digit(v@[i as int]),
            v@[i as int] != '0',
            forall|k: int| i <= k < j ==> spec_is_digit(#[trigger] v@[k]),
            acc == spec_decimal_val(v@.subrange(i as int, j as int)),
        decreases len - j,
    {
        let d = crate::decimal::digit_val(v[j]);
        let next = match acc.checked_mul(10) {
            Some(x) => {
                match x.checked_add(d) {
                    Some(y) => y,
                    None => {
                        proof {
                            lemma_numeral_overflow(v@, i as int, j as int, acc, d);
                        }
                        return None;
                    },
                }
            },
            None => {
                proof {
                    lemma_numeral_overflow(v@, i as int, j as int, acc, d);
                }
                return None;
            },
        };
        proof {
            let pre = v@.subrange(i as int, j as int);
            let post = v@.subrange(i as int, j + 1);
            assert(post.drop_last() =~= pre);
            assert(post.last() == v@[j as int]);
            assert(spec_decimal_val(post) == spec_decimal_val(pre) * 10 + spec_digit_val(
                v@[j as int],
            ));
        }
        acc = next;
        j = j + 1;
    }
    proof {
        let s = v@.subrange(i as int, j as int);
        assert(s.len() >= 1);
        assert(s[0] == v@[i as int]);
        crate::decimal::lemma_decimal_canon(s);
        assert(v@.subrange(i as int, j as int) == spec_decimal(acc as nat));
        assert forall|n: u64, jj: int|
            #![trigger v@.subrange(i as int, jj), spec_decimal(n as nat)]
            jj == i + spec_decimal(n as nat).len() && jj <= v@.len() && v@.subrange(
                i as int,
                jj,
            ) == spec_decimal(n as nat) && (jj == v@.len() || !spec_is_digit(v@[jj])) implies n
            == acc && jj == j by {
            crate::decimal::lemma_decimal_shape(n as nat);
            if jj < j {
                assert(spec_is_digit(v@[jj]));
                assert(false);
            }
            if jj > j {
                assert(spec_is_digit(spec_decimal(n as nat)[j - i]));
                assert(v@[j as int] == spec_decimal(n as nat)[j - i]);
                assert(j == v@.len() || !spec_is_digit(v@[j as int]));
                assert(false);
            }
            assert(jj == j);
            crate::decimal::lemma_decimal_val(n as nat);
        }
    }
    Some((acc, j))
}

/// No numeral stands at a position that is past the end or holds no digit.
proof fn lemma_no_decimal_here(v: Seq<char>, i: int)
    requires
        0 <= i,
        i >= v.len() || !spec_is_digit(v[i]),
    ensures
        forall|n: u64, j: int|
            #![trigger v.subrange(i, j), spec_decimal(n as nat)]
            j == i + spec_decimal(n as nat).len() && j <= v.len() && v.subrange(i, j)
                == spec_decimal(n as nat) ==> false,
{
    assert forall|n: u64, j: int|
        #![trigger v.subrange(i, j), spec_decimal(n as nat)]
        j == i + spec_decimal(n as nat).len() && j <= v.len() && v.subrange(i, j)
            == spec_decimal(n as nat) implies false by {
        crate::decimal::lemma_decimal_shape(n as nat);
        assert(spec_decimal(n as nat)[0] == v[i]);
        assert(spec_is_digit(v[i]));
    }
}

/// A digit whose addition overflows `u64` cannot lie inside the numeral of
/// any `u64`, so no parse exists at `i`.
proof fn lemma_numeral_overflow(v: Seq<char>, i: int, j: int, acc: u64, d: u64)
    requires
        0 <= i <= j < v.len(),
        forall|k: int| i <= k < j ==> spec_is_digit(#[trigger] v[k]),
        spec_is_digit(v[j]),
        acc == spec_decimal_val(v.subrange(i, j)),
        d == spec_digit_val(v[j]),
        acc * 10 + d > u64::MAX,
    ensures
        forall|n: u64, jj: int|
            #![trigger v.subrange(i, jj), spec_decimal(n as nat)]
            jj == i + spec_decimal(n as nat).len() && jj <= v.len() && v.subrange(i, jj)
                == spec_decimal(n as nat) && (jj == v.len() || !spec_is_digit(v[jj])) ==> false,
{
    assert forall|n: u64, jj: int|
        #![trigger v.subrange(i, jj), spec_decimal(n as nat)]
        jj == i + spec_decimal(n as nat).len() && jj <= v.len() && v.subrange(i, jj)
            == spec_decimal(n as nat) && (jj == v.len() || !spec_is_digit(v[jj])) implies false by {
        crate::decimal::lemma_decimal_shape(n as nat);
        // The digit run of the numeral ends at a non-digit; position j holds
        // a digit, so j lies strictly inside the numeral.
        if jj <= j {
            assert(spec_is_digit(v[jj]));
            assert(false);
        }
        assert(j + 1 <= jj);
        let s = spec_decimal(n as nat);
        assert(v.subrange(i, j + 1) =~= s.take(j + 1 - i));
        crate::decimal::lemma_decimal_val_take_le(s, j + 1 - i);
        crate::decimal::lemma_decimal_val(n as nat);
        let t = s.take(j + 1 - i);
        assert(t.drop_last() =~= s.take(j - i));
        assert(s.take(j - i) =~= v.subrange(i, j));
        assert(spec_decimal_val(t) == acc * 10 + d);
        assert(spec_decimal_val(t) <= n);
    }
}

/// A character that stands for itself in a JSON string body.
pub open spec fn is_plain_char(c: char) -> bool {
    !(c == '"' || c == '\\' || is_short_escaped(c) || is_long_escaped(c))
}

/// How the escape of a character begins determines the character: the
/// facts a parser needs to invert `esc_char`.
#[verifier::rlimit(60)]
proof fn lemma_esc_char_inv(c: char)
    ensures
        esc_char(c).len() >= 1,
        esc_char(c)[0] != '"',
        is_plain_char(c) ==> esc_char(c) =~= seq![c],
        !is_plain_char(c) ==> esc_char(c)[0] == '\\' && esc_char(c).len() >= 2,
        !is_plain_char(c) ==> (esc_char(c)[1] == '"' || esc_char(c)[1] == '\\' || esc_char(c)[1]
            == 'b' || esc_char(c)[1] == 't' || esc_char(c)[1] == 'n' || esc_char(c)[1] == 'f'
            || esc_char(c)[1] == 'r' || esc_char(c)[1] == 'u'),
        !is_plain_char(c) && esc_char(c)[1] == '"' ==> c == '"',
        !is_plain_char(c) && esc_char(c)[1] == '\\' ==> c == '\\',
        !is_plain_char(c) && esc_char(c)[1] == 'b' ==> c == '\u{8}',
        !is_plain_char(c) && esc_char(c)[1] == 't' ==> c == '\t',
        !is_plain_char(c) && esc_char(c)[1] == 'n' ==> c == '\n',
        !is_plain_char(c) && esc_char(c)[1] == 'f' ==> c == '\u{c}',
        !is_plain_char(c) && esc_char(c)[1] == 'r' ==> c == '\r',
        !is_plain_char(c) && esc_char(c)[1] == 'u' ==> is_long_escaped(c) && esc_char(c)
            == control_escape(c) && esc_char(c).len() == 6 && esc_char(c)[2] == '0' && esc_char(
            c,
        )[3] == '0',
{
}

/// Escaping distributes over concatenation.
pub proof fn lemma_esc_concat(a: Seq<char>, b: Seq<char>)
    ensures
        esc(a + b) =~= esc(a) + esc(b),
    decreases a.len(),
{
    if a.len() == 0 {
        assert(a + b =~= b);
        assert(esc(a) =~= Seq::<char>::empty());
    } else {
        assert((a + b)[0] == a[0]);
        assert((a + b).len() > 0);
        assert((a + b).drop_first() =~= a.drop_first() + b);
        lemma_esc_concat(a.drop_first(), b);
        assert(esc(a + b) =~= esc_char(a[0]) + esc((a + b).drop_first()));
        assert(esc(a) =~= esc_char(a[0]) + esc(a.drop_first()));
    }
}

/// `ss` is encoded as a JSON string exactly at positions `i..j` of `v`.
pub open spec fn str_enc_match(v: Seq<char>, i: int, j: int, ss: Seq<char>) -> bool {
    0 <= i && j == i + enc_string(ss).len() && j <= v.len() && v.subrange(i, j) == enc_string(ss)
}

/// Inside a matched JSON string, after the escapes of the first `k` body
/// characters, the input carries the escape of character `k`.
#[verifier::rlimit(100)]
proof fn lemma_str_match_next(v: Seq<char>, i: int, j: int, ss: Seq<char>, k: int)
    requires
        str_enc_match(v, i, j, ss),
        0 <= k < ss.len(),
    ensures
        ({
            let p = i + 1 + esc(ss.take(k)).len();
            &&& p + esc_char(ss[k]).len() <= j - 1
            &&& v.subrange(p, p + esc_char(ss[k]).len() as int) =~= esc_char(ss[k])
        }),
{
    let e = enc_string(ss);
    let body = esc(ss);
    assert(e =~= seq!['"'] + body + seq!['"']);
    assert(e.len() == body.len() + 2);
    assert(v.subrange(i, j) == e);
    assert forall|q: int| 0 <= q < body.len() implies v[i + 1 + q] == body[q] by {
        assert(v.subrange(i, j)[1 + q] == v[i + 1 + q]);
        assert(e[1 + q] == body[q]);
    }
    assert(ss =~= ss.take(k + 1) + ss.skip(k + 1));
    lemma_esc_concat(ss.take(k + 1), ss.skip(k + 1));
    lemma_esc_take_step(ss, k);
    let head = esc(ss.take(k));
    let mid = esc_char(ss[k]);
    let tail = esc(ss.skip(k + 1));
    assert(body =~= head + mid + tail);
    let p = i + 1 + head.len();
    let l = mid.len() as int;
    assert(p + l <= i + 1 + body.len());
    assert(j == i + 2 + body.len());
    assert forall|q: int| 0 <= q < l implies v.subrange(p, p + l)[q] == mid[q] by {
        assert(v.subrange(p, p + l)[q] == v[p + q]);
        assert(body[head.len() + q] == mid[q]);
        assert(v[i + 1 + (head.len() + q)] == body[head.len() + q]);
    }
}

/// A matched JSON string opens and closes with a quote around its escaped
/// body.
proof fn lemma_str_match_frame(v: Seq<char>, i: int, j: int, ss: Seq<char>)
    requires
        str_enc_match(v, i, j, ss),
    ensures
        v[i] == '"',
        j - 1 == i + 1 + esc(ss).len(),
        v[j - 1] == '"',
        i + 2 <= j,
{
    let e = enc_string(ss);
    let body = esc(ss);
    assert(e =~= seq!['"'] + body + seq!['"']);
    assert(e.len() == body.len() + 2);
    assert(e[0] == '"');
    assert(e[e.len() - 1] == '"');
    assert(v.subrange(i, j) == e);
    assert(v.subrange(i, j)[0] == v[i]);
    assert(v.subrange(i, j)[j - i - 1] == v[j - 1]);
}

/// The character a `\u00XX` escape denotes, for the pairs of hex digits
/// the canonical form uses.
fn long_unescape(h1: char, h2: char) -> (r: Option<char>)
    ensures
        (match r {
            Some(c) => is_long_escaped(c) && control_escape(c) =~= seq![
                '\\',
                'u',
                '0',
                '0',
                h1,
                h2,
            ],
            None => true,
        }),
        forall|c: char|
            is_long_escaped(c) && (#[trigger] control_escape(c))[4] == h1 && control_escape(c)[5]
                == h2 ==> r == Some(c),
{
    if h1 == '0' {
        if h2 == '0' {
            Some('\u{0}')
        } else if h2 == '1' {
            Some('\u{1}')
        } else if h2 == '2' {
            Some('\u{2}')
        } else if h2 == '3' {
            Some('\u{3}')
        } else if h2 == '4' {
            Some('\u{4}')
        } else if h2 == '5' {
            Some('\u{5}')
        } else if h2 == '6' {
            Some('\u{6}')
        } else if h2 == '7' {
            Some('\u{7}')
        } else if h2 == 'b' {
            Some('\u{b}')
        } else if h2 == 'e' {
            Some('\u{e}')
        } else if h2 == 'f' {
            Some('\u{f}')
        } else {
            None
        }
    } else if h1 == '1' {
        if h2 == '0' {
            Some('\u{10}')
        } else if h2 == '1' {
            Some('\u{11}')
        } else if h2 == '2' {
            Some('\u{12}')
        } else if h2 == '3' {
            Some('\u{13}')
        } else if h2 == '4' {
            Some('\u{14}')
        } else if h2 == '5' {
            Some('\u{15}')
        } else if h2 == '6' {
            Some('\u{16}')
        } else if h2 == '7' {
            Some('\u{17}')
        } else if h2 == '8' {
            Some('\u{18}')
        } else if h2 == '9' {
            Some('\u{19}')
        } else if h2 == 'a' {
            Some('\u{1a}')
        } else if h2 == 'b' {
            Some('\u{1b}')
        } else if h2 == 'c' {
            Some('\u{1c}')
        } else if h2 == 'd' {
            Some('\u{1d}')
        } else if h2 == 'e' {
            Some('\u{1e}')
        } else if h2 == 'f' {
            Some('\u{1f}')
        } else {
            None
        }
    } else {
        None
    }
}

/// Does `c` stand for itself in a JSON string body?
fn char_plain(c: char) -> (r: bool)
    ensures
        r == is_plain_char(c),
{
    if c == '"' || c == '\\' {
        return false;
    }
    if c == '\u{8}' || c == '\t' || c == '\n' || c == '\u{c}' || c == '\r' {
        return false;
    }
    let digits = long_escape_digits(c);
    proof {
        if is_long_escaped(c) {
            assert(control_escape(c)[4] == digits.0);
            assert(digits.0 == '0' || digits.0 == '1');
        }
    }
    digits.0 == ' '
}

/// Parse a canonical JSON string literal at position `i`: its body and the
/// position after the closing quote, exactly when one stands there.
#[verifier::rlimit(100)]
fn parse_json_string(v: &Vec<char>, i: usize) -> (r: Option<(String, usize)>)
    requires
        i <= v@.len(),
    ensures
        (match r {
            Some(p) => i < p.1 <= v@.len() && v@.subrange(i as int, p.1 as int) == enc_string(
                p.0@,
            ),
            None => true,
        }),
        forall|ss: Seq<char>, j: int|
            #[trigger] str_enc_match(v@, i as int, j, ss) ==> (r matches Some(p) && p.0@ == ss
                && p.1 == j),
{
    let len = v.len();
    if i >= len || v[i] != '"' {
        proof {
            assert forall|ss: Seq<char>, j: int|
                #[trigger] str_enc_match(v@, i as int, j, ss) implies false by {
                lemma_str_match_frame(v@, i as int, j, ss);
            }
        }
        return None;
    }
    let mut acc: Vec<char> = Vec::new();
    let mut pos: usize = i + 1;
    loop
        invariant
            len == v@.len(),
            i < len,
            v@[i as int] == '"',
            i + 1 <= pos <= len,
            v@.subrange(i as int + 1, pos as int) =~= esc(acc@),
            forall|ss: Seq<char>, j: int|
                #[trigger] str_enc_match(v@, i as int, j, ss) ==> acc@.len() <= ss.len() && acc@
                    == ss.take(acc@.len() as int),
        decreases len - pos,
    {
        if pos >= len {
            proof {
                assert forall|ss: Seq<char>, j: int|
                    #[trigger] str_enc_match(v@, i as int, j, ss) implies false by {
                    lemma_str_match_frame(v@, i as int, j, ss);
                    let k = acc@.len() as int;
                    if k == ss.len() {
                        assert(acc@ == ss);
                        assert(pos == j - 1);
                    } else {
                        lemma_str_match_next(v@, i as int, j, ss, k);
                        lemma_esc_char_inv(ss[k]);
                    }
                }
            }
            return None;
        }
        let c = v[pos];
        if c == '"' {
            let s = crate::strutil::chars_to_string(&acc);
            proof {
                assert(v@.subrange(i as int, pos + 1) =~= enc_string(acc@));
                assert forall|ss: Seq<char>, j: int|
                    #[trigger] str_enc_match(v@, i as int, j, ss) implies acc@ == ss && j == pos
                    + 1 by {
                    lemma_str_match_frame(v@, i as int, j, ss);
                    let k = acc@.len() as int;
                    if k < ss.len() {
                        lemma_str_match_next(v@, i as int, j, ss, k);
                        lemma_esc_char_inv(ss[k]);
                        assert(v@[pos as int] == esc_char(ss[k])[0]);
                        assert(false);
                    }
                    assert(acc@ == ss);
                    assert(j == i + 2 + esc(ss).len());
                }
            }
            return Some((s, pos + 1));
        }
        proof {
            assert forall|ss: Seq<char>, j: int|
                #[trigger] str_enc_match(v@, i as int, j, ss) implies acc@.len() < ss.len() && ({
                let k = acc@.len() as int;
                let p = pos as int;
                &&& p + esc_char(ss[k]).len() <= j - 1
                &&& v@.subrange(p, p + esc_char(ss[k]).len() as int) =~= esc_char(ss[k])
            }) by {
                lemma_str_match_frame(v@, i as int, j, ss);
                let k = acc@.len() as int;
                if k == ss.len() {
                    assert(acc@ == ss);
                    assert(pos == j - 1);
                    assert(v@[pos as int] == '"');
                    assert(false);
                }
                assert(acc@ == ss.take(k));
                assert(esc(acc@) == esc(ss.take(k)));
                lemma_str_match_next(v@, i as int, j, ss, k);
            }
        }
        if c == '\\' {
            if len - pos < 2 {
                proof {
                    assert forall|ss: Seq<char>, j: int|
                        #[trigger] str_enc_match(v@, i as int, j, ss) implies false by {
                        let k = acc@.len() as int;
                        lemma_esc_char_inv(ss[k]);
                        assert(esc_char(ss[k])[0] == v@[pos as int]);
                        assert(!is_plain_char(ss[k]));
                        assert(pos + 2 <= j - 1 <= len);
                    }
                }
                return None;
            }
            let e = v[pos + 1];
            proof {
                assert forall|ss: Seq<char>, j: int|
                    #[trigger] str_enc_match(v@, i as int, j, ss) implies ({
                    let k = acc@.len() as int;
                    !is_plain_char(ss[k]) && esc_char(ss[k])[1] == e
                }) by {
                    let k = acc@.len() as int;
                    lemma_esc_char_inv(ss[k]);
                    assert(esc_char(ss[k])[0] == v@[pos as int]);
                    assert(v@.subrange(pos as int, pos + esc_char(ss[k]).len() as int)[1] == v@[pos
                        + 1]);
                }
            }
            if e == '"' || e == '\\' {
                let ghost pre = acc@;
                acc.push(e);
                pos = pos + 2;
                proof {
                    lemma_esc_push(pre, e);
                    assert(esc_char(e) =~= seq!['\\', e]);
                    assert(v@.subrange(i as int + 1, pos as int) =~= esc(acc@));
                    assert forall|ss: Seq<char>, j: int|
                        #[trigger] str_enc_match(v@, i as int, j, ss) implies acc@.len()
                        <= ss.len() && acc@ == ss.take(acc@.len() as int) by {
                        let k = pre.len() as int;
                        lemma_esc_char_inv(ss[k]);
                        assert(ss[k] == e);
                        assert(acc@ =~= pre.push(e));
                        assert(acc@ =~= ss.take(k + 1));
                    }
                }
            } else if e == 'b' || e == 't' || e == 'n' || e == 'f' || e == 'r' {
                let decoded: char = if e == 'b' {
                    '\u{8}'
                } else if e == 't' {
                    '\t'
                } else if e == 'n' {
                    '\n'
                } else if e == 'f' {
                    '\u{c}'
                } else {
                    '\r'
                };
                let ghost pre = acc@;
                acc.push(decoded);
                pos = pos + 2;
                proof {
                    lemma_esc_push(pre, decoded);
                    assert(esc_char(decoded) =~= seq!['\\', e]);
                    assert(v@.subrange(i as int + 1, pos as int) =~= esc(acc@));
                    assert forall|ss: Seq<char>, j: int|
                        #[trigger] str_enc_match(v@, i as int, j, ss) implies acc@.len()
                        <= ss.len() && acc@ == ss.take(acc@.len() as int) by {
                        let k = pre.len() as int;
                        lemma_esc_char_inv(ss[k]);
                        assert(ss[k] == decoded);
                        assert(acc@ =~= pre.push(decoded));
                        assert(acc@ =~= ss.take(k + 1));
                    }
                }
            } else if e == 'u' {
                if len - pos < 6 {
                    proof {
                        assert forall|ss: Seq<char>, j: int|
                            #[trigger] str_enc_match(v@, i as int, j, ss) implies false by {
                            let k = acc@.len() as int;
                            lemma_esc_char_inv(ss[k]);
                            assert(pos + 6 <= j - 1 <= len);
                        }
                    }
                    return None;
                }
                let ok0 = v[pos + 2] == '0';
                let ok1 = v[pos + 3] == '0';
                if !(ok0 && ok1) {
                    proof {
                        assert forall|ss: Seq<char>, j: int|
                            #[trigger] str_enc_match(v@, i as int, j, ss) implies false by {
                            let k = acc@.len() as int;
                            lemma_esc_char_inv(ss[k]);
                            let seg = v@.subrange(pos as int, pos + esc_char(ss[k]).len() as int);
                            assert(seg[2] == v@[pos + 2] && seg[3] == v@[pos + 3]);
                        }
                    }
                    return None;
                }
                match long_unescape(v[pos + 4], v[pos + 5]) {
                    Some(decoded) => {
                        let ghost pre = acc@;
                        acc.push(decoded);
                        pos = pos + 6;
                        proof {
                            lemma_esc_push(pre, decoded);
                            assert(esc_char(decoded) =~= control_escape(decoded));
                            assert(esc_char(decoded) =~= seq![
                                '\\',
                                'u',
                                '0',
                                '0',
                                v@[pos - 2],
                                v@[pos - 1],
                            ]);
                            assert(v@.subrange(i as int + 1, pos as int) =~= esc(acc@));
                            assert forall|ss: Seq<char>, j: int|
                                #[trigger] str_enc_match(v@, i as int, j, ss) implies acc@.len()
                                <= ss.len() && acc@ == ss.take(acc@.len() as int) by {
                                let k = pre.len() as int;
                                lemma_esc_char_inv(ss[k]);
                                let seg = v@.subrange(
                                    pos - 6,
                                    pos - 6 + esc_char(ss[k]).len() as int,
                                );
                                assert(seg[4] == v@[pos - 2] && seg[5] == v@[pos - 1]);
                                assert(control_escape(ss[k])[4] == v@[pos - 2]
                                    && control_escape(ss[k])[5] == v@[pos - 1]);
                                assert(ss[k] == decoded);
                                assert(acc@ =~= pre.push(decoded));
                                assert(acc@ =~= ss.take(k + 1));
                            }
                        }
                    },
                    None => {
                        proof {
                            assert forall|ss: Seq<char>, j: int|
                                #[trigger] str_enc_match(v@, i as int, j, ss) implies false by {
                                let k = acc@.len() as int;
                                lemma_esc_char_inv(ss[k]);
                                let seg = v@.subrange(
                                    pos as int,
                                    pos + esc_char(ss[k]).len() as int,
                                );
                                assert(seg[4] == v@[pos + 4] && seg[5] == v@[pos + 5]);
                                assert(control_escape(ss[k])[4] == v@[pos + 4] && control_escape(
                                    ss[k],
                                )[5] == v@[pos + 5]);
                            }
                        }
                        return None;
                    },
                }
            } else {
                proof {
                    assert forall|ss: Seq<char>, j: int|
                        #[trigger] str_enc_match(v@, i as int, j, ss) implies false by {
                        let k = acc@.len() as int;
                        lemma_esc_char_inv(ss[k]);
                    }
                }
                return None;
            }
        } else {
            if !char_plain(c) {
                proof {
                    assert forall|ss: Seq<char>, j: int|
                        #[trigger] str_enc_match(v@, i as int, j, ss) implies false by {
                        let k = acc@.len() as int;
                        lemma_esc_char_inv(ss[k]);
                        assert(esc_char(ss[k])[0] == v@[pos as int]);
                        if is_plain_char(ss[k]) {
                            assert(ss[k] == c);
                        } else {
                            assert(v@[pos as int] == '\\');
                        }
                    }
                }
                return None;
            }
            let ghost pre = acc@;
            acc.push(c);
            pos = pos + 1;
            proof {
                lemma_esc_push(pre, c);
                assert(esc_char(c) =~= seq![c]);
                assert(v@.subrange(i as int + 1, pos as int) =~= esc(acc@));
                assert forall|ss: Seq<char>, j: int|
                    #[trigger] str_enc_match(v@, i as int, j, ss) implies acc@.len() <= ss.len()
                    && acc@ == ss.take(acc@.len() as int) by {
                    let k = pre.len() as int;
                    lemma_esc_char_inv(ss[k]);
                    assert(esc_char(ss[k])[0] == v@[pos - 1]);
                    if !is_plain_char(ss[k]) {
                        assert(v@[pos - 1] == '\\');
                        assert(false);
                    }
                    assert(ss[k] == c);
                    assert(acc@ =~= pre.push(c));
                    assert(acc@ =~= ss.take(k + 1));
                }
            }
        }
    }
}

/// A content type is encoded exactly at positions `i..j` of `v`.
pub open spec fn ct_match(v: Seq<char>, i: int, j: int, t: ClipboardContentType) -> bool {
    0 <= i && j == i + enc_content_type(t).len() && j <= v.len() && v.subrange(i, j)
        == enc_content_type(t)
}

/// The labels of two distinct content types differ in their first letter.
proof fn lemma_ct_first_letter(t: ClipboardContentType)
    ensures
        enc_content_type(t).len() >= 2,
        enc_content_type(t)[1] == t.label()[0],
        (t == ClipboardContentType::Text ==> t.label()[0] == 'T'),
        (t == ClipboardContentType::Url ==> t.label()[0] == 'U'),
        (t == ClipboardContentType::Code ==> t.label()[0] == 'C'),
        (t == ClipboardContentType::Password ==> t.label()[0] == 'P'),
        (t == ClipboardContentType::File ==> t.label()[0] == 'F'),
        (t == ClipboardContentType::Image ==> t.label()[0] == 'I'),
        (t == ClipboardContentType::Other ==> t.label()[0] == 'O'),
{
    reveal_strlit("Text");
    reveal_strlit("Url");
    reveal_strlit("Code");
    reveal_strlit("Password");
    reveal_strlit("File");
    reveal_strlit("Image");
    reveal_strlit("Other");
    match t {
        ClipboardContentType::Text => {},
        ClipboardContentType::Url => {},
        ClipboardContentType::Code => {},
        ClipboardContentType::Password => {},
        ClipboardContentType::File => {},
        ClipboardContentType::Image => {},
        ClipboardContentType::Other => {},
    }
}

/// The quoted label literal of each content type is its encoding.
proof fn lemma_ct_literals()
    ensures
        "\"Text\""@ == enc_content_type(ClipboardContentType::Text),
        "\"Url\""@ == enc_content_type(ClipboardContentType::Url),
        "\"Code\""@ == enc_content_type(ClipboardContentType::Code),
        "\"Password\""@ == enc_content_type(ClipboardContentType::Password),
        "\"File\""@ == enc_content_type(ClipboardContentType::File),
        "\"Image\""@ == enc_content_type(ClipboardContentType::Image),
        "\"Other\""@ == enc_content_type(ClipboardContentType::Other),
{
    reveal_strlit("Text");
    reveal_strlit("Url");
    reveal_strlit("Code");
    reveal_strlit("Password");
    reveal_strlit("File");
    reveal_strlit("Image");
    reveal_strlit("Other");
    reveal_strlit("\"Text\"");
    reveal_strlit("\"Url\"");
    reveal_strlit("\"Code\"");
    reveal_strlit("\"Password\"");
    reveal_strlit("\"File\"");
    reveal_strlit("\"Image\"");
    reveal_strlit("\"Other\"");
    assert("\"Text\""@ =~= enc_content_type(ClipboardContentType::Text));
    assert("\"Url\""@ =~= enc_content_type(ClipboardContentType::Url));
    assert("\"Code\""@ =~= enc_content_type(ClipboardContentType::Code));
    assert("\"Password\""@ =~= enc_content_type(ClipboardContentType::Password));
    assert("\"File\""@ =~= enc_content_type(ClipboardContentType::File));
    assert("\"Image\""@ =~= enc_content_type(ClipboardContentType::Image));
    assert("\"Other\""@ =~= enc_content_type(ClipboardContentType::Other));
}

/// Parse a content-type label at position `i`, exactly when one stands
/// there.
fn parse_content_type(v: &Vec<char>, i: usize) -> (r: Option<(ClipboardContentType, usize)>)
    requires
        i <= v@.len(),
    ensures
        (match r {
            Some(p) => i <= p.1 <= v@.len() && v@.subrange(i as int, p.1 as int)
                == enc_content_type(p.0),
            None => true,
        }),
        forall|t: ClipboardContentType, j: int|
            #[trigger] ct_match(v@, i as int, j, t) ==> (r matches Some(p) && p.0 == t && p.1
                == j),
{
    proof {
        lemma_ct_literals();
    }
    let variants: [ClipboardContentType; 7] = [
        ClipboardContentType::Text,
        ClipboardContentType::Url,
        ClipboardContentType::Code,
        ClipboardContentType::Password,
        ClipboardContentType::File,
        ClipboardContentType::Image,
        ClipboardContentType::Other,
    ];
    let r0 = expect_lit(v, i, "\"Text\"");
    let r1 = expect_lit(v, i, "\"Url\"");
    let r2 = expect_lit(v, i, "\"Code\"");
    let r3 = expect_lit(v, i, "\"Password\"");
    let r4 = expect_lit(v, i, "\"File\"");
    let r5 = expect_lit(v, i, "\"Image\"");
    let r6 = expect_lit(v, i, "\"Other\"");
    proof {
        assert forall|t: ClipboardContentType, j: int|
            #[trigger] ct_match(v@, i as int, j, t) implies (match t {
            ClipboardContentType::Text => r0 == Some((i + "\"Text\""@.len()) as usize),
            ClipboardContentType::Url => r1 == Some((i + "\"Url\""@.len()) as usize),
            ClipboardContentType::Code => r2 == Some((i + "\"Code\""@.len()) as usize),
            ClipboardContentType::Password => r3 == Some((i + "\"Password\""@.len()) as usize),
            ClipboardContentType::File => r4 == Some((i + "\"File\""@.len()) as usize),
            ClipboardContentType::Image => r5 == Some((i + "\"Image\""@.len()) as usize),
            ClipboardContentType::Other => r6 == Some((i + "\"Other\""@.len()) as usize),
        }) by {
            lemma_ct_first_letter(t);
        }
        assert forall|t1: ClipboardContentType, t2: ClipboardContentType, j1: int, j2: int|
            ct_match(v@, i as int, j1, t1) && ct_match(v@, i as int, j2, t2) implies t1 == t2 by {
            lemma_ct_first_letter(t1);
            lemma_ct_first_letter(t2);
            assert(v@.subrange(i as int, j1)[1] == v@[i + 1]);
            assert(v@.subrange(i as int, j2)[1] == v@[i + 1]);
            if t1 != t2 {
                assert(t1.label()[0] == t2.label()[0]);
                assert(false);
            }
        }
    }
    if let Some(j) = r0 {
        proof {
            assert(ct_match(v@, i as int, j as int, ClipboardContentType::Text));
        }
        return Some((variants[0], j));
    }
    if let Some(j) = r1 {
        proof {
            assert(ct_match(v@, i as int, j as int, ClipboardContentType::Url));
        }
        return Some((variants[1], j));
    }
    if let Some(j) = r2 {
        proof {
            assert(ct_match(v@, i as int, j as int, ClipboardContentType::Code));
        }
        return Some((variants[2], j));
    }
    if let Some(j) = r3 {
        proof {
            assert(ct_match(v@, i as int, j as int, ClipboardContentType::Password));
        }
        return Some((variants[3], j));
    }
    if let Some(j) = r4 {
        proof {
            assert(ct_match(v@, i as int, j as int, ClipboardContentType::File));
        }
        return Some((variants[4], j));
    }
    if let Some(j) = r5 {
        proof {
            assert(ct_match(v@, i as int, j as int, ClipboardContentType::Image));
        }
        return Some((variants[5], j));
    }
    if let Some(j) = r6 {
        proof {
            assert(ct_match(v@, i as int, j as int, ClipboardContentType::Other));
        }
        return Some((variants[6], j));
    }
    None
}

/// Adjacent subranges concatenate.
proof fn lemma_subrange_join(v: Seq<char>, a: int, b: int, c: int)
    requires
        0 <= a <= b <= c <= v.len(),
    ensures
        v.subrange(a, c) =~= v.subrange(a, b) + v.subrange(b, c),
{
}

/// A subrange equal to a concatenation splits at the seam.
proof fn lemma_subrange_split(v: Seq<char>, i: int, j: int, a: Seq<char>, b: Seq<char>)
    requires
        0 <= i <= j <= v.len(),
        v.subrange(i, j) == a + b,
    ensures
        j == i + a.len() + b.len(),
        v.subrange(i, i + a.len()) =~= a,
        v.subrange(i + a.len(), j) =~= b,
{
    assert(v.subrange(i, j).len() == a.len() + b.len());
    assert forall|q: int| 0 <= q < a.len() implies v.subrange(i, i + a.len() as int)[q]
        == a[q] by {
        assert(v.subrange(i, j)[q] == (a + b)[q]);
    }
    assert forall|q: int| 0 <= q < b.len() implies v.subrange(i + a.len(), j)[q] == b[q] by {
        assert(v.subrange(i + a.len() as int, j)[q] == v[i + a.len() + q]);
        assert(v.subrange(i, j)[a.len() + q] == v[i + a.len() + q]);
        assert(v.subrange(i, j)[a.len() + q] == (a + b)[a.len() + q]);
    }
}

/// An item preview is encoded exactly at positions `i..j` of `v`.
pub open spec fn preview_match(v: Seq<char>, i: int, j: int, pm: PreviewModel) -> bool {
    0 <= i && j == i + enc_preview(pm).len() && j <= v.len() && v.subrange(i, j) == enc_preview(pm)
}

/// Where each field of a matched preview encoding stands.
#[verifier::rlimit(100)]
proof fn lemma_preview_decompose(v: Seq<char>, i: int, j: int, pm: PreviewModel)
    requires
        preview_match(v, i, j, pm),
    ensures
        ({
            let o1 = i + "{\"item_id\":"@.len();
            let o2 = o1 + spec_decimal(pm.item_id as nat).len();
            let o3 = o2 + ",\"content_preview\":"@.len();
            let o4 = o3 + enc_string(pm.content_preview).len();
            let o5 = o4 + ",\"content_type\":"@.len();
            let o6 = o5 + enc_content_type(pm.content_type).len();
            let o7 = o6 + ",\"timestamp\":"@.len();
            let o8 = o7 + spec_decimal(pm.timestamp as nat).len();
            &&& j == o8 + 1
            &&& v.subrange(i, o1) == "{\"item_id\":"@
            &&& v.subrange(o1, o2) == spec_decimal(pm.item_id as nat)
            &&& o2 < v.len() && v[o2] == ','
            &&& v.subrange(o2, o3) == ",\"content_preview\":"@
            &&& str_enc_match(v, o3, o4, pm.content_preview)
            &&& v.subrange(o4, o5) == ",\"content_type\":"@
            &&& ct_match(v, o5, o6, pm.content_type)
            &&& v.subrange(o6, o7) == ",\"timestamp\":"@
            &&& v.subrange(o7, o8) == spec_decimal(pm.timestamp as nat)
            &&& o8 < v.len() && v[o8] == '}'
            &&& v.subrange(o8, j) == "}"@
        }),
{
    reveal_strlit("}");
    reveal_strlit(",\"content_preview\":");
    let l1 = "{\"item_id\":"@;
    let d1 = spec_decimal(pm.item_id as nat);
    let l2 = ",\"content_preview\":"@;
    let s = enc_string(pm.content_preview);
    let l3 = ",\"content_type\":"@;
    let c = enc_content_type(pm.content_type);
    let l4 = ",\"timestamp\":"@;
    let d2 = spec_decimal(pm.timestamp as nat);
    let x1 = l1 + d1;
    let x2 = x1 + l2;
    let x3 = x2 + s;
    let x4 = x3 + l3;
    let x5 = x4 + c;
    let x6 = x5 + l4;
    let x7 = x6 + d2;
    assert(enc_preview(pm) == x7 + seq!['}']);
    lemma_subrange_split(v, i, j, x7, seq!['}']);
    let o8 = i + x7.len();
    lemma_subrange_split(v, i, o8, x6, d2);
    let o7 = i + x6.len();
    lemma_subrange_split(v, i, o7, x5, l4);
    let o6 = i + x5.len();
    lemma_subrange_split(v, i, o6, x4, c);
    let o5 = i + x4.len();
    lemma_subrange_split(v, i, o5, x3, l3);
    let o4 = i + x3.len();
    lemma_subrange_split(v, i, o4, x2, s);
    let o3 = i + x2.len();
    lemma_subrange_split(v, i, o3, x1, l2);
    let o2 = i + x1.len();
    lemma_subrange_split(v, i, o2, l1, d1);
    assert(v.subrange(o8, j)[0] == v[o8]);
    assert(("}"@)[0] == '}');
    assert(v.subrange(o8, j) == "}"@);
    assert(v.subrange(o2, o3)[0] == v[o2]);
    assert(l2[0] == ',');
}

/// Parse an item preview at position `i`, exactly when one stands there.
#[verifier::rlimit(100)]
fn parse_preview(v: &Vec<char>, i: usize) -> (r: Option<(ClipboardItemPreview, usize)>)
    requires
        i <= v@.len(),
    ensures
        (match r {
            Some(p) => i <= p.1 <= v@.len() && v@.subrange(i as int, p.1 as int) == enc_preview(
                p.0@,
            ),
            None => true,
        }),
        forall|pm: PreviewModel, j: int|
            #[trigger] preview_match(v@, i as int, j, pm) ==> (r matches Some(p) && p.0@ == pm
                && p.1 == j),
{
    let s1 = match expect_lit(v, i, "{\"item_id\":") {
        Some(x) => x,
        None => {
            proof {
                assert forall|pm: PreviewModel, j: int|
                    #[trigger] preview_match(v@, i as int, j, pm) implies false by {
                    lemma_preview_decompose(v@, i as int, j, pm);
                }
            }
            return None;
        },
    };
    let parsed_id = parse_u64(v, s1);
    let (item_id, s2) = match parsed_id {
        Some(x) => x,
        None => {
            proof {
                assert forall|pm: PreviewModel, j: int|
                    #[trigger] preview_match(v@, i as int, j, pm) implies false by {
                    lemma_preview_decompose(v@, i as int, j, pm);
                }
            }
            return None;
        },
    };
    let s3 = match expect_lit(v, s2, ",\"content_preview\":") {
        Some(x) => x,
        None => {
            proof {
                assert forall|pm: PreviewModel, j: int|
                    #[trigger] preview_match(v@, i as int, j, pm) implies false by {
                    lemma_preview_decompose(v@, i as int, j, pm);
                }
            }
            return None;
        },
    };
    let parsed_s = parse_json_string(v, s3);
    let (content_preview, s4) = match parsed_s {
        Some(x) => x,
        None => {
            proof {
                assert forall|pm: PreviewModel, j: int|
                    #[trigger] preview_match(v@, i as int, j, pm) implies false by {
                    lemma_preview_decompose(v@, i as int, j, pm);
                }
            }
            return None;
        },
    };
    let s5 = match expect_lit(v, s4, ",\"content_type\":") {
        Some(x) => x,
        None => {
            proof {
                assert forall|pm: PreviewModel, j: int|
                    #[trigger] preview_match(v@, i as int, j, pm) implies false by {
                    lemma_preview_decompose(v@, i as int, j, pm);
                }
            }
            return None;
        },
    };
    let parsed_ct = parse_content_type(v, s5);
    let (content_type, s6) = match parsed_ct {
        Some(x) => x,
        None => {
            proof {
                assert forall|pm: PreviewModel, j: int|
                    #[trigger] preview_match(v@, i as int, j, pm) implies false by {
                    lemma_preview_decompose(v@, i as int, j, pm);
                }
            }
            return None;
        },
    };
    let s7 = match expect_lit(v, s6, ",\"timestamp\":") {
        Some(x) => x,
        None => {
            proof {
                assert forall|pm: PreviewModel, j: int|
                    #[trigger] preview_match(v@, i as int, j, pm) implies false by {
                    lemma_preview_decompose(v@, i as int, j, pm);
                }
            }
            return None;
        },
    };
    let parsed_ts = parse_u64(v, s7);
    let (timestamp, s8) = match parsed_ts {
        Some(x) => x,
        None => {
            proof {
                assert forall|pm: PreviewModel, j: int|
                    #[trigger] preview_match(v@, i as int, j, pm) implies false by {
                    lemma_preview_decompose(v@, i as int, j, pm);
                }
            }
            return None;
        },
    };
    let s9 = match expect_lit(v, s8, "}") {
        Some(x) => x,
        None => {
            proof {
                assert forall|pm: PreviewModel, j: int|
                    #[trigger] preview_match(v@, i as int, j, pm) implies false by {
                    lemma_preview_decompose(v@, i as int, j, pm);
                    reveal_strlit("}");
                    assert(v@.subrange(s8 as int, s8 + 1) =~= "}"@);
                }
            }
            return None;
        },
    };
    let p = ClipboardItemPreview { item_id, content_preview, content_type, timestamp };
    proof {
        lemma_subrange_join(v@, i as int, s1 as int, s2 as int);
        lemma_subrange_join(v@, i as int, s2 as int, s3 as int);
        lemma_subrange_join(v@, i as int, s3 as int, s4 as int);
        lemma_subrange_join(v@, i as int, s4 as int, s5 as int);
        lemma_subrange_join(v@, i as int, s5 as int, s6 as int);
        lemma_subrange_join(v@, i as int, s6 as int, s7 as int);
        lemma_subrange_join(v@, i as int, s7 as int, s8 as int);
        lemma_subrange_join(v@, i as int, s8 as int, s9 as int);
        reveal_strlit("}");
        assert(v@.subrange(s8 as int, s9 as int) =~= seq!['}']);
        assert(v@.subrange(i as int, s2 as int) == "{\"item_id\":"@ + spec_decimal(
            item_id as nat,
        ));
        assert(v@.subrange(i as int, s3 as int) == v@.subrange(i as int, s2 as int)
            + ",\"content_preview\":"@);
        assert(v@.subrange(i as int, s4 as int) == v@.subrange(i as int, s3 as int) + enc_string(
            content_preview@,
        ));
        assert(v@.subrange(i as int, s5 as int) == v@.subrange(i as int, s4 as int)
            + ",\"content_type\":"@);
        assert(v@.subrange(i as int, s6 as int) == v@.subrange(i as int, s5 as int)
            + enc_content_type(content_type));
        assert(v@.subrange(i as int, s7 as int) == v@.subrange(i as int, s6 as int)
            + ",\"timestamp\":"@);
        assert(v@.subrange(i as int, s8 as int) == v@.subrange(i as int, s7 as int) + spec_decimal(
            timestamp as nat,
        ));
        assert(v@.subrange(i as int, s9 as int) =~= enc_preview(p@));
        assert forall|pm: PreviewModel, j: int|
            #[trigger] preview_match(v@, i as int, j, pm) implies p@ == pm && s9 == j by {
            lemma_preview_decompose(v@, i as int, j, pm);
        }
    }
    Some((p, s9))
}

// ---------------------------------------------------------------------------
// Line safety
// ---------------------------------------------------------------------------
/// `s` can stand as one line of the newline-delimited protocol.
pub open spec fn line_safe(s: Seq<char>) -> bool {
    forall|i: int| 0 <= i < s.len() ==> s[i] != '\n'
}

/// The escape of a character never emits a raw newline: a newline in the
/// body becomes `\n`, two ordinary characters.
proof fn lemma_esc_char_line_safe(c: char)
    ensures
        line_safe(esc_char(c)),
{
}

/// An escaped string body is newline free.
proof fn lemma_esc_line_safe(s: Seq<char>)
    ensures
        line_safe(esc(s)),
    decreases s.len(),
{
    if s.len() > 0 {
        lemma_esc_char_line_safe(s[0]);
        lemma_esc_line_safe(s.drop_first());
        assert forall|i: int| 0 <= i < esc(s).len() implies esc(s)[i] != '\n' by {
            if i < esc_char(s[0]).len() {
                assert(esc(s)[i] == esc_char(s[0])[i]);
            } else {
                assert(esc(s)[i] == esc(s.drop_first())[i - esc_char(s[0]).len()]);
            }
        }
    }
}

/// A numeral is newline free.
proof fn lemma_decimal_line_safe(n: nat)
    ensures
        line_safe(spec_decimal(n)),
{
    crate::decimal::lemma_decimal_shape(n);
}

/// Concatenating newline-free text stays newline free.
proof fn lemma_line_safe_concat(a: Seq<char>, b: Seq<char>)
    requires
        line_safe(a),
        line_safe(b),
    ensures
        line_safe(a + b),
{
    assert forall|i: int| 0 <= i < (a + b).len() implies (a + b)[i] != '\n' by {
        if i < a.len() {
            assert((a + b)[i] == a[i]);
        } else {
            assert((a + b)[i] == b[i - a.len()]);
        }
    }
}

/// A JSON string literal is newline free.
proof fn lemma_enc_string_line_safe(s: Seq<char>)
    ensures
        line_safe(enc_string(s)),
{
    lemma_esc_line_safe(s);
    lemma_line_safe_concat(seq!['"'], esc(s));
    lemma_line_safe_concat(seq!['"'] + esc(s), seq!['"']);
}

/// An encoded preview is newline free.
proof fn lemma_enc_preview_line_safe(p: PreviewModel)
    ensures
        line_safe(enc_preview(p)),
{
    reveal_strlit("{\"item_id\":");
    reveal_strlit(",\"content_preview\":");
    reveal_strlit(",\"content_type\":");
    reveal_strlit(",\"timestamp\":");
    reveal_strlit("Text");
    reveal_strlit("Url");
    reveal_strlit("Code");
    reveal_strlit("Password");
    reveal_strlit("File");
    reveal_strlit("Image");
    reveal_strlit("Other");
    lemma_decimal_line_safe(p.item_id as nat);
    lemma_decimal_line_safe(p.timestamp as nat);
    lemma_enc_string_line_safe(p.content_preview);
    assert(line_safe("{\"item_id\":"@));
    assert(line_safe(",\"content_preview\":"@));
    assert(line_safe(",\"content_type\":"@));
    assert(line_safe(",\"timestamp\":"@));
    assert(line_safe(p.content_type.label())) by {
        match p.content_type {
            ClipboardContentType::Text => {},
            ClipboardContentType::Url => {},
            ClipboardContentType::Code => {},
            ClipboardContentType::Password => {},
            ClipboardContentType::File => {},
            ClipboardContentType::Image => {},
            ClipboardContentType::Other => {},
        }
    }
    lemma_line_safe_concat(seq!['"'], p.content_type.label());
    lemma_line_safe_concat(seq!['"'] + p.content_type.label(), seq!['"']);
    let x1 = "{\"item_id\":"@ + spec_decimal(p.item_id as nat);
    lemma_line_safe_concat("{\"item_id\":"@, spec_decimal(p.item_id as nat));
    let x2 = x1 + ",\"content_preview\":"@;
    lemma_line_safe_concat(x1, ",\"content_preview\":"@);
    let x3 = x2 + enc_string(p.content_preview);
    lemma_line_safe_concat(x2, enc_string(p.content_preview));
    let x4 = x3 + ",\"content_type\":"@;
    lemma_line_safe_concat(x3, ",\"content_type\":"@);
    let x5 = x4 + enc_content_type(p.content_type);
    lemma_line_safe_concat(x4, enc_content_type(p.content_type));
    let x6 = x5 + ",\"timestamp\":"@;
    lemma_line_safe_concat(x5, ",\"timestamp\":"@);
    let x7 = x6 + spec_decimal(p.timestamp as nat);
    lemma_line_safe_concat(x6, spec_decimal(p.timestamp as nat));
    lemma_line_safe_concat(x7, seq!['}']);
}

/// An encoded item list is newline free.
proof fn lemma_enc_previews_line_safe(items: Seq<PreviewModel>)
    ensures
        line_safe(enc_previews(items)),
    decreases items.len(),
{
    if items.len() == 1 {
        lemma_enc_preview_line_safe(items[0]);
    } else if items.len() > 1 {
        lemma_enc_preview_line_safe(items[0]);
        lemma_enc_previews_line_safe(items.drop_first());
        lemma_line_safe_concat(enc_preview(items[0]), seq![',']);
        lemma_line_safe_concat(
            enc_preview(items[0]) + seq![','],
            enc_previews(items.drop_first()),
        );
    }
}

/// One encoded response is exactly one line: it never contains the newline
/// that delimits messages on the wire.
pub proof fn lemma_backend_message_is_one_line(mm: BackendMessageModel)
    ensures
        line_safe(enc_backend(mm)),
{
    reveal_strlit("{\"History\":{\"items\":[");
    reveal_strlit("]}}");
    reveal_strlit("{\"NewItem\":{\"item\":");
    reveal_strlit("{\"Error\":{\"message\":");
    reveal_strlit("}}");
    reveal_strlit("\"ClipboardSet\"");
    reveal_strlit("\"HistoryCleared\"");
    match mm {
        BackendMessageModel::History { items } => {
            lemma_enc_previews_line_safe(items);
            lemma_line_safe_concat("{\"History\":{\"items\":["@, enc_previews(items));
            lemma_line_safe_concat("{\"History\":{\"items\":["@ + enc_previews(items), "]}}"@);
        },
        BackendMessageModel::NewItem { item } => {
            lemma_enc_preview_line_safe(item);
            lemma_line_safe_concat("{\"NewItem\":{\"item\":"@, enc_preview(item));
            lemma_line_safe_concat("{\"NewItem\":{\"item\":"@ + enc_preview(item), "}}"@);
        },
        BackendMessageModel::ClipboardSet => {},
        BackendMessageModel::HistoryCleared => {},
        BackendMessageModel::Error { message } => {
            lemma_enc_string_line_safe(message);
            lemma_line_safe_concat("{\"Error\":{\"message\":"@, enc_string(message));
            lemma_line_safe_concat("{\"Error\":{\"message\":"@ + enc_string(message), "}}"@);
        },
    }
}

/// One encoded request is exactly one line.
pub proof fn lemma_frontend_message_is_one_line(m: FrontendMessage)
    ensures
        line_safe(enc_frontend(m)),
{
    reveal_strlit("\"GetHistory\"");
    reveal_strlit("\"ClearHistory\"");
    reveal_strlit("{\"SetClipboardById\":{\"id\":");
    reveal_strlit("}}");
    match m {
        FrontendMessage::GetHistory => {},
        FrontendMessage::ClearHistory => {},
        FrontendMessage::SetClipboardById { id } => {
            lemma_decimal_line_safe(id as nat);
            lemma_line_safe_concat("{\"SetClipboardById\":{\"id\":"@, spec_decimal(id as nat));
            lemma_line_safe_concat(
                "{\"SetClipboardById\":{\"id\":"@ + spec_decimal(id as nat),
                "}}"@,
            );
        },
    }
}

// ---------------------------------------------------------------------------
// Top-level message parsers
// ---------------------------------------------------------------------------
/// First characters of each request encoding, which tell the variants
/// apart.
proof fn lemma_frontend_heads(m: FrontendMessage)
    ensures
        enc_frontend(m).len() >= 2,
        (m is GetHistory ==> enc_frontend(m)[0] == '"' && enc_frontend(m)[1] == 'G'
            && enc_frontend(m).len() == 12),
        (m is ClearHistory ==> enc_frontend(m)[0] == '"' && enc_frontend(m)[1] == 'C'
            && enc_frontend(m).len() == 14),
        (m is SetClipboardById ==> enc_frontend(m)[0] == '{'),
{
    reveal_strlit("\"GetHistory\"");
    reveal_strlit("\"ClearHistory\"");
    reveal_strlit("{\"SetClipboardById\":{\"id\":");
    match m {
        FrontendMessage::GetHistory => {},
        FrontendMessage::ClearHistory => {},
        FrontendMessage::SetClipboardById { id } => {
            assert(enc_frontend(m)[0] == ("{\"SetClipboardById\":{\"id\":"@)[0]);
        },
    }
}

/// Where the id of a publish request stands in its encoding.
proof fn lemma_scbi_decompose(v: Seq<char>, id: u64)
    requires
        v == "{\"SetClipboardById\":{\"id\":"@ + spec_decimal(id as nat) + "}}"@,
    ensures
        ({
            let o1 = "{\"SetClipboardById\":{\"id\":"@.len() as int;
            let o2 = o1 + spec_decimal(id as nat).len();
            &&& v.len() == o2 + 2
            &&& v.subrange(0, o1) == "{\"SetClipboardById\":{\"id\":"@
            &&& v.subrange(o1, o2) == spec_decimal(id as nat)
            &&& o2 < v.len() && v[o2] == '}'
            &&& v.subrange(o2, v.len() as int) == "}}"@
        }),
{
    reveal_strlit("}}");
    let a = "{\"SetClipboardById\":{\"id\":"@ + spec_decimal(id as nat);
    assert(v.subrange(0, v.len() as int) =~= v);
    lemma_subrange_split(v, 0, v.len() as int, a, "}}"@);
    lemma_subrange_split(
        v,
        0,
        a.len() as int,
        "{\"SetClipboardById\":{\"id\":"@,
        spec_decimal(id as nat),
    );
    assert(v.subrange(a.len() as int, v.len() as int)[0] == v[a.len() as int]);
    assert(("}}"@)[0] == '}');
}

/// Parse a request line.  Returns the request exactly when the line is its
/// canonical encoding.
#[verifier::rlimit(100)]
pub fn parse_frontend_message(s: &str) -> (r: Option<FrontendMessage>)
    ensures
        (match r {
            Some(m) => s@ == enc_frontend(m),
            None => true,
        }),
        forall|m: FrontendMessage| s@ == #[trigger] enc_frontend(m) ==> r == Some(m),
{
    let v = crate::strutil::str_to_chars(s);
    let len = v.len();
    let r_gh = expect_lit(&v, 0, "\"GetHistory\"");
    if let Some(j) = r_gh {
        if j == len {
            proof {
                assert(s@ =~= v@.subrange(0, j as int));
                assert(s@ == enc_frontend(FrontendMessage::GetHistory));
                assert forall|m: FrontendMessage| s@ == #[trigger] enc_frontend(m) implies m
                    == FrontendMessage::GetHistory by {
                    lemma_frontend_heads(m);
                    lemma_frontend_heads(FrontendMessage::GetHistory);
                    if m is SetClipboardById {
                        assert(s@[0] == '"');
                        assert(false);
                    }
                    if m is ClearHistory {
                        assert(s@.len() == 12);
                        assert(false);
                    }
                }
            }
            return Some(FrontendMessage::GetHistory);
        }
    }
    let r_ch = expect_lit(&v, 0, "\"ClearHistory\"");
    if let Some(j) = r_ch {
        if j == len {
            proof {
                assert(s@ =~= v@.subrange(0, j as int));
                assert(s@ == enc_frontend(FrontendMessage::ClearHistory));
                assert forall|m: FrontendMessage| s@ == #[trigger] enc_frontend(m) implies m
                    == FrontendMessage::ClearHistory by {
                    lemma_frontend_heads(m);
                    lemma_frontend_heads(FrontendMessage::ClearHistory);
                    if m is SetClipboardById {
                        assert(s@[0] == '"');
                        assert(false);
                    }
                    if m is GetHistory {
                        assert(s@.len() == 14);
                        assert(false);
                    }
                }
            }
            return Some(FrontendMessage::ClearHistory);
        }
    }
    let r_ob = expect_lit(&v, 0, "{\"SetClipboardById\":{\"id\":");
    if let Some(s1) = r_ob {
        if let Some((id, s2)) = parse_u64(&v, s1) {
            if let Some(s3) = expect_lit(&v, s2, "}}") {
                if s3 == len {
                    proof {
                        reveal_strlit("}}");
                        lemma_subrange_join(v@, 0, s1 as int, s2 as int);
                        lemma_subrange_join(v@, 0, s2 as int, s3 as int);
                        assert(s@ =~= v@.subrange(0, s3 as int));
                        assert(s@ == "{\"SetClipboardById\":{\"id\":"@ + spec_decimal(id as nat)
                            + "}}"@);
                        let me = FrontendMessage::SetClipboardById { id };
                        assert(s@ == enc_frontend(me));
                        assert forall|m: FrontendMessage| s@ == #[trigger] enc_frontend(m) implies m
                            == me by {
                            lemma_frontend_heads(m);
                            lemma_frontend_heads(me);
                            if m is GetHistory || m is ClearHistory {
                                assert(s@[0] == '{');
                                assert(false);
                            }
                            if let FrontendMessage::SetClipboardById { id: id2 } = m {
                                lemma_scbi_decompose(v@, id2);
                                let o1 = "{\"SetClipboardById\":{\"id\":"@.len() as int;
                                let o2 = o1 + spec_decimal(id2 as nat).len();
                                assert(v@.subrange(o1, o2) == spec_decimal(id2 as nat));
                                assert(id == id2 && s2 == o2);
                            }
                        }
                    }
                    return Some(FrontendMessage::SetClipboardById { id });
                }
            }
        }
    }
    proof {
        assert forall|m: FrontendMessage| s@ == #[trigger] enc_frontend(m) implies false by {
            lemma_frontend_heads(m);
            match m {
                FrontendMessage::GetHistory => {
                    reveal_strlit("\"GetHistory\"");
                    assert(v@.subrange(0, 12) =~= s@);
                },
                FrontendMessage::ClearHistory => {
                    reveal_strlit("\"ClearHistory\"");
                    assert(v@.subrange(0, 14) =~= s@);
                },
                FrontendMessage::SetClipboardById { id } => {
                    lemma_scbi_decompose(v@, id);
                    let o1 = "{\"SetClipboardById\":{\"id\":"@.len() as int;
                    let o2 = o1 + spec_decimal(id as nat).len();
                    assert(v@.subrange(0, o1) == "{\"SetClipboardById\":{\"id\":"@);
                    reveal_strlit("}}");
                    assert(v@.subrange(o2, o2 + 2) == "}}"@);
                },
            }
        }
    }
    None
}

/// Parse a launcher request line, exactly when it is one's canonical
/// encoding.
pub fn parse_launcher_message(s: &str) -> (r: Option<LauncherMessage>)
    ensures
        (match r {
            Some(m) => s@ == enc_launcher(m),
            None => true,
        }),
        forall|m: LauncherMessage| s@ == #[trigger] enc_launcher(m) ==> r == Some(m),
{
    let v = crate::strutil::str_to_chars(s);
    let len = v.len();
    proof {
        reveal_strlit("\"ShowOverlay\"");
        reveal_strlit("\"HideOverlay\"");
    }
    let r_s = expect_lit(&v, 0, "\"ShowOverlay\"");
    if let Some(j) = r_s {
        if j == len {
            proof {
                assert(s@ =~= v@.subrange(0, j as int));
                assert forall|m: LauncherMessage| s@ == #[trigger] enc_launcher(m) implies m
                    == LauncherMessage::ShowOverlay by {
                    if m is HideOverlay {
                        assert(s@[1] == 'S');
                        assert(s@[1] == 'H');
                    }
                }
            }
            return Some(LauncherMessage::ShowOverlay);
        }
    }
    let r_h = expect_lit(&v, 0, "\"HideOverlay\"");
    if let Some(j) = r_h {
        if j == len {
            proof {
                assert(s@ =~= v@.subrange(0, j as int));
                assert forall|m: LauncherMessage| s@ == #[trigger] enc_launcher(m) implies m
                    == LauncherMessage::HideOverlay by {
                    if m is ShowOverlay {
                        assert(s@[1] == 'H');
                        assert(s@[1] == 'S');
                    }
                }
            }
            return Some(LauncherMessage::HideOverlay);
        }
    }
    proof {
        assert forall|m: LauncherMessage| s@ == #[trigger] enc_launcher(m) implies false by {
            match m {
                LauncherMessage::ShowOverlay => {
                    assert(v@.subrange(0, 13) =~= s@);
                },
                LauncherMessage::HideOverlay => {
                    assert(v@.subrange(0, 13) =~= s@);
                },
            }
        }
    }
    None
}

/// First characters of each response encoding, which tell the variants
/// apart.
proof fn lemma_backend_heads(mm: BackendMessageModel)
    ensures
        enc_backend(mm).len() >= 3,
        (mm is ClipboardSet ==> enc_backend(mm)[0] == '"' && enc_backend(mm)[1] == 'C'
            && enc_backend(mm).len() == 14),
        (mm is HistoryCleared ==> enc_backend(mm)[0] == '"' && enc_backend(mm)[1] == 'H'
            && enc_backend(mm).len() == 16),
        (mm is History ==> enc_backend(mm)[0] == '{' && enc_backend(mm)[2] == 'H'),
        (mm is NewItem ==> enc_backend(mm)[0] == '{' && enc_backend(mm)[2] == 'N'),
        (mm is Error ==> enc_backend(mm)[0] == '{' && enc_backend(mm)[2] == 'E'),
{
    reveal_strlit("\"ClipboardSet\"");
    reveal_strlit("\"HistoryCleared\"");
    reveal_strlit("{\"History\":{\"items\":[");
    reveal_strlit("{\"NewItem\":{\"item\":");
    reveal_strlit("{\"Error\":{\"message\":");
    match mm {
        BackendMessageModel::History { items } => {
            assert(enc_backend(mm)[0] == ("{\"History\":{\"items\":["@)[0]);
            assert(enc_backend(mm)[2] == ("{\"History\":{\"items\":["@)[2]);
        },
        BackendMessageModel::NewItem { item } => {
            assert(enc_backend(mm)[0] == ("{\"NewItem\":{\"item\":"@)[0]);
            assert(enc_backend(mm)[2] == ("{\"NewItem\":{\"item\":"@)[2]);
        },
        BackendMessageModel::ClipboardSet => {},
        BackendMessageModel::HistoryCleared => {},
        BackendMessageModel::Error { message } => {
            assert(enc_backend(mm)[0] == ("{\"Error\":{\"message\":"@)[0]);
            assert(enc_backend(mm)[2] == ("{\"Error\":{\"message\":"@)[2]);
        },
    }
}

/// Where the preview of a new-item push stands in its encoding.
proof fn lemma_newitem_decompose(v: Seq<char>, pm: PreviewModel)
    requires
        v == "{\"NewItem\":{\"item\":"@ + enc_preview(pm) + "}}"@,
    ensures
        ({
            let o1 = "{\"NewItem\":{\"item\":"@.len() as int;
            let o2 = o1 + enc_preview(pm).len();
            &&& v.len() == o2 + 2
            &&& v.subrange(0, o1) == "{\"NewItem\":{\"item\":"@
            &&& preview_match(v, o1, o2, pm)
            &&& v.subrange(o2, v.len() as int) == "}}"@
        }),
{
    reveal_strlit("}}");
    let a = "{\"NewItem\":{\"item\":"@ + enc_preview(pm);
    assert(v.subrange(0, v.len() as int) =~= v);
    lemma_subrange_split(v, 0, v.len() as int, a, "}}"@);
    lemma_subrange_split(v, 0, a.len() as int, "{\"NewItem\":{\"item\":"@, enc_preview(pm));
}

/// Where the message of an error reply stands in its encoding.
proof fn lemma_error_decompose(v: Seq<char>, msg: Seq<char>)
    requires
        v == "{\"Error\":{\"message\":"@ + enc_string(msg) + "}}"@,
    ensures
        ({
            let o1 = "{\"Error\":{\"message\":"@.len() as int;
            let o2 = o1 + enc_string(msg).len();
            &&& v.len() == o2 + 2
            &&& v.subrange(0, o1) == "{\"Error\":{\"message\":"@
            &&& str_enc_match(v, o1, o2, msg)
            &&& v.subrange(o2, v.len() as int) == "}}"@
        }),
{
    reveal_strlit("}}");
    let a = "{\"Error\":{\"message\":"@ + enc_string(msg);
    assert(v.subrange(0, v.len() as int) =~= v);
    lemma_subrange_split(v, 0, v.len() as int, a, "}}"@);
    lemma_subrange_split(v, 0, a.len() as int, "{\"Error\":{\"message\":"@, enc_string(msg));
}

/// Where the item list of a history reply stands in its encoding.
proof fn lemma_history_decompose(v: Seq<char>, itm: Seq<PreviewModel>)
    requires
        v == "{\"History\":{\"items\":["@ + enc_previews(itm) + "]}}"@,
    ensures
        ({
            let b = "{\"History\":{\"items\":["@.len() as int;
            let e = b + enc_previews(itm).len();
            &&& v.len() == e + 3
            &&& v.subrange(0, b) == "{\"History\":{\"items\":["@
            &&& v.subrange(b, e) == enc_previews(itm)
            &&& v.subrange(e, v.len() as int) == "]}}"@
            &&& v[e] == ']'
            &&& (itm.len() > 0 ==> v[b] == '{')
            &&& (itm.len() == 0 ==> b == e)
        }),
{
    reveal_strlit("]}}");
    reveal_strlit("{\"item_id\":");
    let a = "{\"History\":{\"items\":["@ + enc_previews(itm);
    assert(v.subrange(0, v.len() as int) =~= v);
    lemma_subrange_split(v, 0, v.len() as int, a, "]}}"@);
    let b = "{\"History\":{\"items\":["@.len() as int;
    lemma_subrange_split(v, 0, a.len() as int, "{\"History\":{\"items\":["@, enc_previews(itm));
    let e = b + enc_previews(itm).len();
    assert(v.subrange(e, v.len() as int)[0] == v[e]);
    assert(("]}}"@)[0] == ']');
    if itm.len() > 0 {
        assert(enc_previews(itm)[0] == enc_preview(itm[0])[0]);
        assert(enc_preview(itm[0])[0] == ("{\"item_id\":"@)[0]);
        assert(v.subrange(b, e)[0] == v[b]);
    }
}

/// A prefix encoding reads only the entries before its bound.
proof fn lemma_prefix_depends(a: Seq<PreviewModel>, b: Seq<PreviewModel>, k: int)
    requires
        0 <= k <= a.len(),
        k <= b.len(),
        forall|q: int| 0 <= q < k ==> a[q] == b[q],
    ensures
        enc_previews_prefix(a, k) == enc_previews_prefix(b, k),
    decreases k,
{
    if k > 0 {
        lemma_prefix_depends(a, b, k - 1);
    }
}

/// The text consumed from the start of the item list up to (and including)
/// the separator before entry `cnt`.
pub open spec fn list_consumed(itm: Seq<PreviewModel>, cnt: int) -> int {
    enc_previews_prefix(itm, cnt).len() + if cnt == 0 {
        0int
    } else {
        1int
    }
}

/// Inside a matched item list, entry `cnt` is encoded after the consumed
/// text, followed by a comma or by the list's end.
proof fn lemma_previews_positions(v: Seq<char>, b: int, e: int, itm: Seq<PreviewModel>, cnt: int)
    requires
        0 <= b <= e <= v.len(),
        v.subrange(b, e) == enc_previews(itm),
        0 <= cnt < itm.len(),
    ensures
        ({
            let p = b + list_consumed(itm, cnt);
            let q = p + enc_preview(itm[cnt]).len();
            &&& b <= p && q <= e
            &&& preview_match(v, p, q, itm[cnt])
            &&& (cnt + 1 < itm.len() ==> q < e && v[q] == ',')
            &&& (cnt + 1 == itm.len() ==> q == e)
        }),
    decreases cnt,
{
    if cnt == 0 {
        if itm.len() == 1 {
            assert(v.subrange(b, e) == enc_preview(itm[0]));
            assert(preview_match(v, b, e, itm[0]));
        } else {
            assert(enc_previews(itm) == enc_preview(itm[0]) + seq![','] + enc_previews(
                itm.drop_first(),
            ));
            lemma_subrange_split(
                v,
                b,
                e,
                enc_preview(itm[0]) + seq![','],
                enc_previews(itm.drop_first()),
            );
            let q = b + enc_preview(itm[0]).len();
            lemma_subrange_split(v, b, q + 1, enc_preview(itm[0]), seq![',']);
            assert(v.subrange(q, q + 1)[0] == v[q]);
            assert(preview_match(v, b, q, itm[0]));
        }
    } else {
        assert(itm.len() >= 2);
        assert(enc_previews(itm) == enc_preview(itm[0]) + seq![','] + enc_previews(
            itm.drop_first(),
        ));
        lemma_subrange_split(
            v,
            b,
            e,
            enc_preview(itm[0]) + seq![','],
            enc_previews(itm.drop_first()),
        );
        let b2 = b + enc_preview(itm[0]).len() + 1;
        lemma_previews_positions(v, b2, e, itm.drop_first(), cnt - 1);
        assert(itm.drop_first()[cnt - 1] == itm[cnt]);
        assert(b2 + list_consumed(itm.drop_first(), cnt - 1) == b + list_consumed(itm, cnt)) by {
            if cnt == 1 {
                assert(enc_previews_prefix(itm, 1) == enc_preview(itm[0]));
                assert(enc_previews_prefix(itm.drop_first(), 0) == Seq::<char>::empty());
            } else {
                lemma_enc_previews_prefix_shift(itm, cnt - 1);
            }
        }
    }
}

/// Inside a matched history reply, the entry `cnt` of the list stands at
/// `pos`, followed by a comma or by the closing of the reply.
proof fn lemma_history_item_at(v: Seq<char>, itm: Seq<PreviewModel>, cnt: int, pos: int)
    requires
        v == "{\"History\":{\"items\":["@ + enc_previews(itm) + "]}}"@,
        0 <= cnt < itm.len(),
        pos == "{\"History\":{\"items\":["@.len() + list_consumed(itm, cnt),
    ensures
        ({
            let q = pos + enc_preview(itm[cnt]).len();
            &&& 0 <= pos && q <= v.len()
            &&& preview_match(v, pos, q, itm[cnt])
            &&& (cnt + 1 < itm.len() ==> q < v.len() && v[q] == ',')
            &&& (cnt + 1 == itm.len() ==> q + 3 == v.len() && v[q] == ']' && v.subrange(
                q,
                v.len() as int,
            ) == "]}}"@)
        }),
{
    lemma_history_decompose(v, itm);
    let b = "{\"History\":{\"items\":["@.len() as int;
    let e = b + enc_previews(itm).len();
    lemma_previews_positions(v, b, e, itm, cnt);
}

/// Parse a response line.  Returns the response exactly when the line is
/// its canonical encoding.
#[verifier::rlimit(100)]
pub fn parse_backend_message(s: &str) -> (r: Option<BackendMessage>)
    ensures
        (match r {
            Some(m) => s@ == enc_backend(m@),
            None => true,
        }),
        forall|mm: BackendMessageModel| s@ == #[trigger] enc_backend(mm) ==> (r matches Some(m)
            && m@ == mm),
{
    let v = crate::strutil::str_to_chars(s);
    let len = v.len();
    let r_cs = expect_lit(&v, 0, "\"ClipboardSet\"");
    if let Some(j) = r_cs {
        if j == len {
            proof {
                reveal_strlit("\"ClipboardSet\"");
                assert(s@ =~= v@.subrange(0, j as int));
                assert(s@ == enc_backend(BackendMessageModel::ClipboardSet));
                assert forall|mm: BackendMessageModel| s@ == #[trigger] enc_backend(mm) implies mm
                    == BackendMessageModel::ClipboardSet by {
                    lemma_backend_heads(mm);
                    lemma_backend_heads(BackendMessageModel::ClipboardSet);
                    if !(mm is ClipboardSet) {
                        if mm is HistoryCleared {
                            assert(s@.len() == 14);
                            assert(false);
                        } else {
                            assert(s@[0] == '"');
                            assert(false);
                        }
                    }
                }
            }
            return Some(BackendMessage::ClipboardSet);
        }
    }
    let r_hc = expect_lit(&v, 0, "\"HistoryCleared\"");
    if let Some(j) = r_hc {
        if j == len {
            proof {
                reveal_strlit("\"HistoryCleared\"");
                assert(s@ =~= v@.subrange(0, j as int));
                assert(s@ == enc_backend(BackendMessageModel::HistoryCleared));
                assert forall|mm: BackendMessageModel| s@ == #[trigger] enc_backend(mm) implies mm
                    == BackendMessageModel::HistoryCleared by {
                    lemma_backend_heads(mm);
                    lemma_backend_heads(BackendMessageModel::HistoryCleared);
                    if !(mm is HistoryCleared) {
                        if mm is ClipboardSet {
                            assert(s@.len() == 16);
                            assert(false);
                        } else {
                            assert(s@[0] == '"');
                            assert(false);
                        }
                    }
                }
            }
            return Some(BackendMessage::HistoryCleared);
        }
    }
    let r_ni = expect_lit(&v, 0, "{\"NewItem\":{\"item\":");
    if let Some(s1) = r_ni {
        proof {
            reveal_strlit("{\"NewItem\":{\"item\":");
            assert forall|mm: BackendMessageModel| s@ == #[trigger] enc_backend(mm) implies mm
                is NewItem by {
                lemma_backend_heads(mm);
                assert(v@.subrange(0, s1 as int)[0] == s@[0]);
                assert(v@.subrange(0, s1 as int)[2] == s@[2]);
                assert(s@[0] == '{' && s@[2] == 'N');
            }
        }
        let parsed = parse_preview(&v, s1);
        if let Some((item, s2)) = parsed {
            if let Some(s3) = expect_lit(&v, s2, "}}") {
                if s3 == len {
                    proof {
                        reveal_strlit("}}");
                        lemma_subrange_join(v@, 0, s1 as int, s2 as int);
                        lemma_subrange_join(v@, 0, s2 as int, s3 as int);
                        assert(s@ =~= v@.subrange(0, s3 as int));
                        let me = BackendMessageModel::NewItem { item: item@ };
                        assert(s@ == enc_backend(me));
                        assert forall|mm: BackendMessageModel| s@ == #[trigger] enc_backend(
                            mm,
                        ) implies mm == me by {
                            if let BackendMessageModel::NewItem { item: pm } = mm {
                                lemma_newitem_decompose(v@, pm);
                                let o1 = "{\"NewItem\":{\"item\":"@.len() as int;
                                assert(preview_match(v@, o1, o1 + enc_preview(pm).len(), pm));
                            }
                        }
                    }
                    return Some(BackendMessage::NewItem { item });
                }
            }
        }
        proof {
            assert forall|mm: BackendMessageModel| s@ == #[trigger] enc_backend(mm) implies
                false by {
                if let BackendMessageModel::NewItem { item: pm } = mm {
                    lemma_newitem_decompose(v@, pm);
                    let o1 = "{\"NewItem\":{\"item\":"@.len() as int;
                    let o2 = o1 + enc_preview(pm).len();
                    assert(preview_match(v@, o1, o2, pm));
                    reveal_strlit("}}");
                    assert(v@.subrange(o2, o2 + 2) == "}}"@);
                }
            }
        }
        return None;
    }
    let r_er = expect_lit(&v, 0, "{\"Error\":{\"message\":");
    if let Some(s1) = r_er {
        proof {
            reveal_strlit("{\"Error\":{\"message\":");
            assert forall|mm: BackendMessageModel| s@ == #[trigger] enc_backend(mm) implies mm
                is Error by {
                lemma_backend_heads(mm);
                assert(v@.subrange(0, s1 as int)[0] == s@[0]);
                assert(v@.subrange(0, s1 as int)[2] == s@[2]);
                assert(s@[0] == '{' && s@[2] == 'E');
            }
        }
        let parsed = parse_json_string(&v, s1);
        if let Some((message, s2)) = parsed {
            if let Some(s3) = expect_lit(&v, s2, "}}") {
                if s3 == len {
                    proof {
                        reveal_strlit("}}");
                        lemma_subrange_join(v@, 0, s1 as int, s2 as int);
                        lemma_subrange_join(v@, 0, s2 as int, s3 as int);
                        assert(s@ =~= v@.subrange(0, s3 as int));
                        let me = BackendMessageModel::Error { message: message@ };
                        assert(s@ == enc_backend(me));
                        assert forall|mm: BackendMessageModel| s@ == #[trigger] enc_backend(
                            mm,
                        ) implies mm == me by {
                            if let BackendMessageModel::Error { message: ms } = mm {
                                lemma_error_decompose(v@, ms);
                                let o1 = "{\"Error\":{\"message\":"@.len() as int;
                                assert(str_enc_match(v@, o1, o1 + enc_string(ms).len(), ms));
                            }
                        }
                    }
                    return Some(BackendMessage::Error { message });
                }
            }
        }
        proof {
            assert forall|mm: BackendMessageModel| s@ == #[trigger] enc_backend(mm) implies
                false by {
                if let BackendMessageModel::Error { message: ms } = mm {
                    lemma_error_decompose(v@, ms);
                    let o1 = "{\"Error\":{\"message\":"@.len() as int;
                    let o2 = o1 + enc_string(ms).len();
                    assert(str_enc_match(v@, o1, o2, ms));
                    reveal_strlit("}}");
                    assert(v@.subrange(o2, o2 + 2) == "}}"@);
                }
            }
        }
        return None;
    }
    let r_hi = expect_lit(&v, 0, "{\"History\":{\"items\":[");
    if let Some(s1) = r_hi {
        proof {
            reveal_strlit("{\"History\":{\"items\":[");
            assert forall|mm: BackendMessageModel| s@ == #[trigger] enc_backend(mm) implies mm
                is History by {
                lemma_backend_heads(mm);
                assert(v@.subrange(0, s1 as int)[0] == s@[0]);
                assert(v@.subrange(0, s1 as int)[2] == s@[2]);
                assert(s@[0] == '{' && s@[2] == 'H');
            }
        }
        if s1 < len && v[s1] == ']' {
            let r_end0 = expect_lit(&v, s1, "]}}");
            if let Some(j) = r_end0 {
                if j == len {
                    let items: Vec<ClipboardItemPreview> = Vec::new();
                    proof {
                        lemma_subrange_join(v@, 0, s1 as int, j as int);
                        assert(s@ =~= v@.subrange(0, j as int));
                        assert(previews_model(items@) =~= Seq::<PreviewModel>::empty());
                        assert(enc_previews(previews_model(items@)) =~= Seq::<char>::empty());
                        let me = BackendMessageModel::History { items: previews_model(items@) };
                        assert(s@ =~= enc_backend(me));
                        assert forall|mm: BackendMessageModel| s@ == #[trigger] enc_backend(
                            mm,
                        ) implies mm == me by {
                            if let BackendMessageModel::History { items: itm } = mm {
                                lemma_history_decompose(v@, itm);
                                if itm.len() > 0 {
                                    assert(v@[s1 as int] == '{');
                                    assert(false);
                                }
                                assert(itm =~= previews_model(items@));
                            }
                        }
                    }
                    return Some(BackendMessage::History { items });
                }
            }
            proof {
                assert forall|mm: BackendMessageModel| s@ == #[trigger] enc_backend(mm) implies
                    false by {
                    if let BackendMessageModel::History { items: itm } = mm {
                        lemma_history_decompose(v@, itm);
                        if itm.len() > 0 {
                            assert(v@[s1 as int] == '{');
                            assert(false);
                        }
                        reveal_strlit("]}}");
                        assert(v@.subrange(s1 as int, s1 + 3) == "]}}"@);
                        assert(v@.len() == s1 + 3);
                    }
                }
            }
            return None;
        }
        let mut items: Vec<ClipboardItemPreview> = Vec::new();
        let mut pos: usize = s1;
        proof {
            assert forall|itm: Seq<PreviewModel>|
                s@ == #[trigger] enc_backend(BackendMessageModel::History { items: itm }) implies 0
                < itm.len() && previews_model(items@) =~= itm.take(0) by {
                lemma_history_decompose(v@, itm);
                if itm.len() == 0 {
                    assert(v@[s1 as int] == ']');
                    assert(false);
                }
            }
        }
        loop
            invariant
                len == v@.len(),
                v@ == s@,
                s1 <= pos <= len,
                s1 == "{\"History\":{\"items\":["@.len(),
                v@.subrange(0, s1 as int) == "{\"History\":{\"items\":["@,
                items@.len() == 0 ==> pos == s1,
                items@.len() > 0 ==> v@.subrange(s1 as int, pos as int) =~= enc_previews_prefix(
                    previews_model(items@),
                    items@.len() as int,
                ) + seq![','],
                forall|itm: Seq<PreviewModel>|
                    s@ == #[trigger] enc_backend(BackendMessageModel::History { items: itm })
                        ==> items@.len() < itm.len() && previews_model(items@) == itm.take(
                        items@.len() as int,
                    ),
                forall|mm: BackendMessageModel| s@ == #[trigger] enc_backend(mm) ==> mm is History,
            decreases len - pos,
        {
            let ghost cnt = items@.len() as int;
            let ghost models_pre = previews_model(items@);
            proof {
                assert forall|itm: Seq<PreviewModel>|
                    s@ == #[trigger] enc_backend(BackendMessageModel::History { items: itm })
                        implies pos == s1 + list_consumed(itm, cnt) && preview_match(
                    v@,
                    pos as int,
                    pos + enc_preview(itm[cnt]).len(),
                    itm[cnt],
                ) by {
                    lemma_prefix_depends(models_pre, itm, cnt);
                    if cnt == 0 {
                        assert(list_consumed(itm, 0) == 0);
                    }
                    lemma_history_item_at(v@, itm, cnt, pos as int);
                }
            }
            let parsed = parse_preview(&v, pos);
            match parsed {
                None => {
                    proof {
                        assert forall|mm: BackendMessageModel| s@ == #[trigger] enc_backend(
                            mm,
                        ) implies false by {
                            if let BackendMessageModel::History { items: itm } = mm {
                                assert(s@ == enc_backend(
                                    BackendMessageModel::History { items: itm },
                                ));
                                assert(preview_match(
                                    v@,
                                    pos as int,
                                    pos + enc_preview(itm[cnt]).len(),
                                    itm[cnt],
                                ));
                            }
                        }
                    }
                    return None;
                },
                Some((p, q)) => {
                    let ghost pm = p@;
                    items.push(p);
                    proof {
                        assert(previews_model(items@) =~= models_pre.push(pm));
                        lemma_subrange_join(v@, s1 as int, pos as int, q as int);
                        lemma_prefix_depends(models_pre, previews_model(items@), cnt);
                        lemma_enc_previews_prefix_step(previews_model(items@), cnt);
                        assert(previews_model(items@)[cnt] == pm);
                        assert(v@.subrange(s1 as int, q as int) =~= enc_previews_prefix(
                            previews_model(items@),
                            cnt + 1,
                        ));
                        assert forall|itm: Seq<PreviewModel>|
                            s@ == #[trigger] enc_backend(
                                BackendMessageModel::History { items: itm },
                            ) implies pm == itm[cnt] && q == pos + enc_preview(itm[cnt]).len()
                            && previews_model(items@) == itm.take(cnt + 1) by {
                            assert(preview_match(
                                v@,
                                pos as int,
                                pos + enc_preview(itm[cnt]).len(),
                                itm[cnt],
                            ));
                            assert(previews_model(items@) =~= itm.take(cnt + 1));
                        }
                    }
                    let r_end = expect_lit(&v, q, "]}}");
                    if let Some(j2) = r_end {
                        if j2 == len {
                            proof {
                                let models_now = previews_model(items@);
                                lemma_enc_previews_prefix_all(models_now);
                                lemma_subrange_join(v@, s1 as int, q as int, j2 as int);
                                lemma_subrange_join(v@, 0, s1 as int, j2 as int);
                                reveal_strlit("]}}");
                                assert(s@ =~= v@.subrange(0, j2 as int));
                                let me = BackendMessageModel::History { items: models_now };
                                assert(s@ =~= enc_backend(me));
                                assert forall|mm: BackendMessageModel| s@
                                    == #[trigger] enc_backend(mm) implies mm == me by {
                                    if let BackendMessageModel::History { items: itm } = mm {
                                        assert(s@ == enc_backend(
                                            BackendMessageModel::History { items: itm },
                                        ));
                                        lemma_history_item_at(v@, itm, cnt, pos as int);
                                        if cnt + 1 < itm.len() {
                                            assert(v@[q as int] == ',');
                                            assert(v@.subrange(q as int, j2 as int)[0] == ']');
                                            assert(false);
                                        }
                                        assert(itm =~= models_now);
                                    }
                                }
                            }
                            return Some(BackendMessage::History { items });
                        }
                        proof {
                            assert forall|mm: BackendMessageModel| s@ == #[trigger] enc_backend(
                                mm,
                            ) implies false by {
                                if let BackendMessageModel::History { items: itm } = mm {
                                    assert(s@ == enc_backend(
                                        BackendMessageModel::History { items: itm },
                                    ));
                                    lemma_history_item_at(v@, itm, cnt, pos as int);
                                    reveal_strlit("]}}");
                                    if cnt + 1 < itm.len() {
                                        assert(v@[q as int] == ',');
                                        assert(v@.subrange(q as int, j2 as int)[0] == ']');
                                        assert(false);
                                    }
                                    assert(q + 3 == v@.len());
                                    assert(false);
                                }
                            }
                        }
                        return None;
                    }
                    let has_comma = q < len && v[q] == ',';
                    if !has_comma {
                        proof {
                            assert forall|mm: BackendMessageModel| s@ == #[trigger] enc_backend(
                                mm,
                            ) implies false by {
                                if let BackendMessageModel::History { items: itm } = mm {
                                    assert(s@ == enc_backend(
                                        BackendMessageModel::History { items: itm },
                                    ));
                                    lemma_history_item_at(v@, itm, cnt, pos as int);
                                    if cnt + 1 < itm.len() {
                                        assert(v@[q as int] == ',');
                                        assert(false);
                                    }
                                    reveal_strlit("]}}");
                                    assert(v@.subrange(q as int, q + 3) == "]}}"@);
                                    assert(false);
                                }
                            }
                        }
                        return None;
                    }
                    pos = q + 1;
                    proof {
                        let models_now = previews_model(items@);
                        assert(v@.subrange(q as int, pos as int) =~= seq![',']);
                        lemma_subrange_join(v@, s1 as int, q as int, pos as int);
                        assert(v@.subrange(s1 as int, pos as int) =~= enc_previews_prefix(
                            models_now,
                            cnt + 1,
                        ) + seq![',']);
                        assert forall|itm: Seq<PreviewModel>|
                            s@ == #[trigger] enc_backend(
                                BackendMessageModel::History { items: itm },
                            ) implies items@.len() < itm.len() && models_now == itm.take(
                            cnt + 1,
                        ) by {
                            lemma_history_item_at(v@, itm, cnt, (q - enc_preview(
                                itm[cnt],
                            ).len()) as int);
                            if cnt + 1 == itm.len() {
                                assert(v@[q as int] == ']');
                                assert(false);
                            }
                        }
                    }
                },
            }
        }
    }
    proof {
        assert forall|mm: BackendMessageModel| s@ == #[trigger] enc_backend(mm) implies false by {
            lemma_backend_heads(mm);
            match mm {
                BackendMessageModel::ClipboardSet => {
                    reveal_strlit("\"ClipboardSet\"");
                    assert(v@.subrange(0, 14) =~= s@);
                },
                BackendMessageModel::HistoryCleared => {
                    reveal_strlit("\"HistoryCleared\"");
                    assert(v@.subrange(0, 16) =~= s@);
                },
                BackendMessageModel::NewItem { item } => {
                    lemma_newitem_decompose(v@, item);
                    let o1 = "{\"NewItem\":{\"item\":"@.len() as int;
                    assert(v@.subrange(0, o1) == "{\"NewItem\":{\"item\":"@);
                },
                BackendMessageModel::Error { message } => {
                    lemma_error_decompose(v@, message);
                    let o1 = "{\"Error\":{\"message\":"@.len() as int;
                    assert(v@.subrange(0, o1) == "{\"Error\":{\"message\":"@);
                },
                BackendMessageModel::History { items } => {
                    lemma_history_decompose(v@, items);
                    let o1 = "{\"History\":{\"items\":["@.len() as int;
                    assert(v@.subrange(0, o1) == "{\"History\":{\"items\":["@);
                },
            }
        }
    }
    None
}

/// A prefix encoding of the tail relates to one of the whole list.
proof fn lemma_enc_previews_prefix_shift(items: Seq<PreviewModel>, k: int)
    requires
        items.len() >= 1,
        1 <= k <= items.len() - 1,
    ensures
        enc_previews_prefix(items, k + 1) =~= enc_preview(items[0]) + seq![',']
            + enc_previews_prefix(items.drop_first(), k),
    decreases k,
{
    if k == 1 {
        assert(items.drop_first()[0] == items[1]);
        assert(enc_previews_prefix(items, 1) =~= enc_preview(items[0]));
        assert(enc_previews_prefix(items.drop_first(), 1) =~= enc_preview(items.drop_first()[0]));
    } else {
        lemma_enc_previews_prefix_shift(items, k - 1);
        assert(items.drop_first()[k - 1] == items[k]);
        assert(enc_previews_prefix(items.drop_first(), k) =~= enc_previews_prefix(
            items.drop_first(),
            k - 1,
        ) + seq![','] + enc_preview(items.drop_first()[k - 1]));
    }
}

} // verus!
