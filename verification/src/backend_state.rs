//! The daemon's shared state: clipboard history and the selection slot.
//!
//! The history is a bounded, most-recent-first sequence of clipboard items.
//! Ids are assigned from a counter that only ever grows, so an id is never
//! reused, and the stored items carry strictly decreasing ids from front to
//! back.  Insertion derives the preview and the content type from the
//! payload, pushes the item at the front, and drops the oldest item beyond
//! one hundred entries.  Publishing a stored item as the compositor
//! selection is decided here; the caller performs the protocol calls the
//! returned [`PublishRequest`] describes.

use vstd::prelude::*;

use vstd::string::StringExecFns;

use crate::data::{
    ClipboardContentType, ClipboardItem, ClipboardItemPreview, ItemModel, MimeData,
    spec_item_preview, spec_item_type, spec_placeholder,
};
use crate::decimal::spec_decimal;
use crate::selection::{OfferTable, Ownership, PublishRequest};
use crate::strutil::utf8_to_string;
use crate::timefmt::now_unix_seconds;

verus! {

/// The models of a sequence of stored items.
pub open spec fn history_models(h: Seq<ClipboardItem>) -> Seq<ItemModel> {
    h.map_values(|it: ClipboardItem| it@)
}

/// The stored item with the given id, if any.  Under the state invariant
/// ids are unique, so this is the ordinary lookup.
pub open spec fn spec_find_item(h: Seq<ItemModel>, id: u64) -> Option<ItemModel> {
    if exists|k: int| 0 <= k < h.len() && (#[trigger] h[k]).item_id == id {
        let k = choose|k: int| 0 <= k < h.len() && (#[trigger] h[k]).item_id == id;
        Some(h[k])
    } else {
        None
    }
}

/// The item a nonempty payload becomes when inserted: the next free id, the
/// derived preview and content type, and the payload itself.
pub open spec fn spec_new_item(next_id: u64, p: Seq<(Seq<char>, Seq<u8>)>, ts: u64) -> ItemModel {
    ItemModel {
        item_id: next_id,
        content_preview: spec_item_preview(p),
        content_type: spec_item_type(p),
        timestamp: ts,
        mime_data: p,
    }
}

/// A new item enters at the front; beyond one hundred entries the oldest is
/// dropped.
pub open spec fn spec_insert_history(h: Seq<ItemModel>, it: ItemModel) -> Seq<ItemModel> {
    let grown = seq![it] + h;
    if grown.len() <= 100 {
        grown
    } else {
        grown.take(100)
    }
}

/// The error message for a publish request naming an unknown id.
pub open spec fn spec_not_found_message(id: u64) -> Seq<char> {
    "No clipboard item found with ID: "@ + spec_decimal(id as nat)
}

/// The error message for a publish request before the compositor objects
/// are bound.
pub open spec fn spec_not_ready_message() -> Seq<char> {
    "Wayland clipboard objects not available yet"@
}

/// Everything the daemon's two drivers (protocol dispatch and IPC requests)
/// share: the history store, the offer table and the selection slot.
pub struct BackendState {
    /// Clipboard history, most recent first, at most one hundred entries.
    pub history: Vec<ClipboardItem>,
    /// The id the next inserted item receives; never reused.
    pub id_for_next_entry: u64,
    /// MIME types announced per pending offer.
    pub mime_type_offers: OfferTable,
    /// The offer currently designated by the compositor, if any.
    pub current_data_offer: Option<u64>,
    /// The daemon's hold on the selection.
    pub ownership: Ownership,
    /// Whether the compositor connection and both required globals are
    /// bound, so publishing is possible.
    pub protocol_ready: bool,
    /// Observe external selections only; never take ownership of them.
    pub monitor_only: bool,
}

impl BackendState {
    /// State invariant: the history is bounded, its items are well formed,
    /// their ids are strictly decreasing from front to back and all below
    /// the id counter, and the offer table tracks each offer once.
    pub open spec fn wf(&self) -> bool {
        &&& self.history@.len() <= 100
        &&& forall|i: int| 0 <= i < self.history@.len() ==> (#[trigger] self.history@[i]).wf()
        &&& forall|i: int|
            0 <= i < self.history@.len() ==> (#[trigger] self.history@[i]).item_id
                < self.id_for_next_entry
        &&& forall|i: int, j: int|
            0 <= i < j < self.history@.len() ==> (#[trigger] self.history@[i]).item_id > (
            #[trigger] self.history@[j]).item_id
        &&& self.mime_type_offers.wf()
    }

    /// A fresh state: empty history, ids starting at one, no offers, no
    /// published source, publishing not yet possible.
    pub fn new() -> (s: Self)
        ensures
            s.wf(),
            s.history@ =~= Seq::<ClipboardItem>::empty(),
            s.id_for_next_entry == 1,
            s.mime_type_offers@ =~= Seq::<(u64, Seq<Seq<char>>)>::empty(),
            s.current_data_offer is None,
            s.ownership == Ownership::Unowned,
            !s.protocol_ready,
            !s.monitor_only,
    {
        BackendState {
            history: Vec::new(),
            id_for_next_entry: 1,
            mime_type_offers: OfferTable::new(),
            current_data_offer: None,
            ownership: Ownership::Unowned,
            protocol_ready: false,
            monitor_only: false,
        }
    }

    /// Store a payload as a new history item.  An empty payload is rejected
    /// and nothing changes.  Otherwise the item receives the next id and the
    /// preview and type derived from the payload; the caller is expected to
    /// forward the new item's preview to its clients.
    pub fn add_clipboard_item(&mut self, mime_content: MimeData) -> (r: Option<u64>)
        requires
            old(self).wf(),
            mime_content.wf(),
            old(self).id_for_next_entry < u64::MAX,
        ensures
            final(self).wf(),
            mime_content@.len() == 0 ==> r is None && *final(self) == *old(self),
            mime_content@.len() > 0 ==> ({
                &&& r == Some(old(self).id_for_next_entry)
                &&& final(self).id_for_next_entry == old(self).id_for_next_entry + 1
                &&& final(self).history@.len() > 0
                &&& history_models(final(self).history@) =~= spec_insert_history(
                    history_models(old(self).history@),
                    spec_new_item(
                        old(self).id_for_next_entry,
                        mime_content@,
                        final(self).history@[0].timestamp,
                    ),
                )
            }),
            final(self).mime_type_offers == old(self).mime_type_offers,
            final(self).current_data_offer == old(self).current_data_offer,
            final(self).ownership == old(self).ownership,
            final(self).protocol_ready == old(self).protocol_ready,
            final(self).monitor_only == old(self).monitor_only,
    {
        if mime_content.is_empty() {
            return None;
        }
        let content_preview: String;
        let content_type: ClipboardContentType;
        if let Some(png_bytes) = mime_content.get("image/png") {
            content_preview = placeholder_preview("image/png", png_bytes.len());
            content_type = ClipboardContentType::Image;
        } else if let Some(txt_bytes) = mime_content.get("text/plain;charset=utf-8") {
            match utf8_to_string(txt_bytes) {
                Some(text) => {
                    content_preview = take_chars(&text, 200);
                },
                None => {
                    content_preview = placeholder_preview(
                        "text/plain;charset=utf-8",
                        txt_bytes.len(),
                    );
                },
            }
            content_type = ClipboardContentType::type_from_preview(content_preview.as_str());
        } else {
            let first = mime_content.first_entry();
            let mime_name = first.mime_type.clone();
            let byte_len = first.data.len();
            content_preview = placeholder_preview(mime_name.as_str(), byte_len);
            content_type = ClipboardContentType::type_from_preview(content_preview.as_str());
        }
        proof {
            assert(content_preview@ == spec_item_preview(mime_content@));
            assert(content_type == spec_item_type(mime_content@));
        }
        let item = ClipboardItem {
            item_id: self.id_for_next_entry,
            content_preview,
            content_type,
            timestamp: now_unix_seconds(),
            mime_data: mime_content,
        };
        let new_id = self.id_for_next_entry;
        self.history.insert(0, item);
        if self.history.len() > 100 {
            self.history.truncate(100);
        }
        self.id_for_next_entry = self.id_for_next_entry + 1;
        proof {
            let pre = history_models(old(self).history@);
            let it = self.history@[0]@;
            assert(history_models(self.history@) =~= spec_insert_history(pre, it));
        }
        Some(new_id)
    }

    /// A snapshot of the history as previews, in current order.
    pub fn get_history(&self) -> (r: Vec<ClipboardItemPreview>)
        ensures
            r@.len() == self.history@.len(),
            forall|i: int|
                0 <= i < r@.len() ==> (#[trigger] r@[i])@ == self.history@[i]@.preview(),
    {
        let n = self.history.len();
        let mut r: Vec<ClipboardItemPreview> = Vec::new();
        for i in 0..n
            invariant
                n == self.history.len(),
                r@.len() == i,
                forall|j: int|
                    0 <= j < i ==> (#[trigger] r@[j])@ == self.history@[j]@.preview(),
        {
            r.push(ClipboardItemPreview::from(&self.history[i]));
        }
        r
    }

    /// The stored item with the given id, copied out.
    pub fn get_item_by_id(&self, id: u64) -> (r: Option<ClipboardItem>)
        requires
            self.wf(),
        ensures
            (match r {
                Some(item) => spec_find_item(history_models(self.history@), id) == Some(item@)
                    && item.wf(),
                None => spec_find_item(history_models(self.history@), id) is None,
            }),
    {
        let n = self.history.len();
        for i in 0..n
            invariant
                n == self.history.len(),
                self.wf(),
                forall|j: int| 0 <= j < i ==> (#[trigger] self.history@[j]).item_id != id,
        {
            if self.history[i].item_id == id {
                let item = self.history[i].clone();
                proof {
                    let h = history_models(self.history@);
                    assert(h[i as int].item_id == id);
                    assert(exists|k: int| 0 <= k < h.len() && (#[trigger] h[k]).item_id == id);
                    let k = choose|k: int| 0 <= k < h.len() && (#[trigger] h[k]).item_id == id;
                    if k != i as int {
                        assert(self.history@[k].item_id == self.history@[i as int].item_id);
                        assert(false);
                    }
                }
                return Some(item);
            }
        }
        proof {
            let h = history_models(self.history@);
            assert(forall|k: int| 0 <= k < h.len() ==> (#[trigger] h[k]).item_id != id);
        }
        None
    }

    /// Empty the history.  The id counter is deliberately not reset: ids
    /// stay unique for the daemon's lifetime.
    pub fn clear_history(&mut self)
        requires
            old(self).wf(),
        ensures
            final(self).wf(),
            final(self).history@ =~= Seq::<ClipboardItem>::empty(),
            final(self).id_for_next_entry == old(self).id_for_next_entry,
            final(self).mime_type_offers == old(self).mime_type_offers,
            final(self).current_data_offer == old(self).current_data_offer,
            final(self).ownership == old(self).ownership,
            final(self).protocol_ready == old(self).protocol_ready,
            final(self).monitor_only == old(self).monitor_only,
    {
        self.history.clear();
    }

    /// Decide a publish of the stored item `entry_id` under the fresh
    /// source handle `source`.  Fails with a "not found" message naming the
    /// id when no item has it, and with a "not ready" message while the
    /// compositor objects are unbound; in both cases nothing changes.  On
    /// success the slot enters `PublishPending` and the returned request
    /// tells the caller what to do; the history is never changed.
    pub fn set_clipboard_by_id(&mut self, entry_id: u64, source: u64) -> (r: Result<
        PublishRequest,
        String,
    >)
        requires
            old(self).wf(),
        ensures
            final(self).wf(),
            final(self).history@ == old(self).history@,
            final(self).id_for_next_entry == old(self).id_for_next_entry,
            final(self).mime_type_offers == old(self).mime_type_offers,
            final(self).current_data_offer == old(self).current_data_offer,
            final(self).protocol_ready == old(self).protocol_ready,
            final(self).monitor_only == old(self).monitor_only,
            r is Ok <==> spec_find_item(history_models(old(self).history@), entry_id) is Some
                && old(self).protocol_ready,
            (match r {
                Ok(req) => {
                    let item = spec_find_item(history_models(old(self).history@), entry_id)->0;
                    &&& final(self).ownership == (Ownership::PublishPending {
                        source,
                        item_id: entry_id,
                    })
                    &&& req.item_id == entry_id
                    &&& req.mime_types@.len() == item.mime_data.len()
                    &&& forall|i: int|
                        0 <= i < req.mime_types@.len() ==> (#[trigger] req.mime_types@[i])@
                            == item.mime_data[i].0
                    &&& req.destroy_source == old(self).ownership.current_source()
                },
                Err(msg) => {
                    &&& final(self).ownership == old(self).ownership
                    &&& (if spec_find_item(history_models(old(self).history@), entry_id) is None {
                        msg@ == spec_not_found_message(entry_id)
                    } else {
                        msg@ == spec_not_ready_message()
                    })
                },
            }),
    {
        let found = self.get_item_by_id(entry_id);
        let item = match found {
            Some(item) => item,
            None => {
                let mut msg = String::new();
                msg.append("No clipboard item found with ID: ");
                let num = crate::decimal::u64_to_string(entry_id);
                msg.append(num.as_str());
                proof {
                    assert(msg@ =~= spec_not_found_message(entry_id));
                }
                return Err(msg);
            },
        };
        if !self.protocol_ready {
            let mut msg = String::new();
            msg.append("Wayland clipboard objects not available yet");
            proof {
                assert(msg@ =~= spec_not_ready_message());
            }
            return Err(msg);
        }
        let destroy_source = match self.ownership {
            Ownership::Unowned => None,
            Ownership::PublishPending { source: prev, .. } => Some(prev),
            Ownership::Owned { source: prev, .. } => Some(prev),
        };
        let mime_types = item.mime_data.mime_types();
        self.ownership = Ownership::PublishPending { source, item_id: entry_id };
        Ok(PublishRequest { item_id: entry_id, mime_types, destroy_source })
    }
}

impl Default for BackendState {
    /// Same as [`BackendState::new`].
    fn default() -> (s: Self)
        ensures
            s.wf(),
            s.history@ =~= Seq::<ClipboardItem>::empty(),
            s.id_for_next_entry == 1,
            s.ownership == Ownership::Unowned,
            !s.protocol_ready,
            !s.monitor_only,
    {
        BackendState::new()
    }
}

// ---------------------------------------------------------------------------
// Preview construction
// ---------------------------------------------------------------------------
/// The placeholder preview for a payload entry shown by MIME type and size.
fn placeholder_preview(mime: &str, len: usize) -> (s: String)
    ensures
        s@ == spec_placeholder(mime@, len as nat),
{
    let mut s = String::new();
    s.push('<');
    s.append(mime);
    s.push(' ');
    let num = crate::decimal::u64_to_string(len as u64);
    s.append(num.as_str());
    s.append(" bytes>");
    proof {
        assert(s@ =~= spec_placeholder(mime@, len as nat));
    }
    s
}

/// The first `n` characters of `s`, or all of it when shorter.
fn take_chars(s: &str, n: usize) -> (r: String)
    ensures
        r@ == (if s@.len() <= n { s@ } else { s@.take(n as int) }),
{
    let mut cs = crate::strutil::str_to_chars(s);
    if cs.len() > n {
        cs.truncate(n);
    }
    crate::strutil::chars_to_string(&cs)
}

// ---------------------------------------------------------------------------
// Laws of the history store
// ---------------------------------------------------------------------------
/// Ids increase strictly across insertions: inserting two nonempty payloads
/// in a row yields ids `next` and `next + 1`, and every stored item carries
/// the preview and content type derived from its payload at its id.
pub proof fn lemma_insert_ids_strictly_increase(
    h: Seq<ItemModel>,
    next: u64,
    p1: Seq<(Seq<char>, Seq<u8>)>,
    ts1: u64,
    p2: Seq<(Seq<char>, Seq<u8>)>,
    ts2: u64,
)
    requires
        p1.len() > 0,
        p2.len() > 0,
        next < u64::MAX,
    ensures
        ({
            let it1 = spec_new_item(next, p1, ts1);
            let h1 = spec_insert_history(h, it1);
            let it2 = spec_new_item((next + 1) as u64, p2, ts2);
            &&& it2.item_id > it1.item_id
            &&& h1[0] == it1
            &&& spec_insert_history(h1, it2)[0] == it2
            &&& it1.content_preview == spec_item_preview(p1)
            &&& it1.content_type == spec_item_type(p1)
        }),
{
}

/// The history bound: an insertion into a history of at most one hundred
/// entries leaves at most one hundred, the new item stands at the front,
/// and exactly at the bound the oldest entry is dropped while the hundred
/// most recent remain in order.
pub proof fn lemma_history_bounded(h: Seq<ItemModel>, it: ItemModel)
    requires
        h.len() <= 100,
    ensures
        spec_insert_history(h, it).len() <= 100,
        spec_insert_history(h, it)[0] == it,
        h.len() < 100 ==> spec_insert_history(h, it) =~= seq![it] + h,
        h.len() == 100 ==> spec_insert_history(h, it) =~= (seq![it] + h).take(100),
        h.len() == 100 ==> forall|i: int|
            0 <= i < 99 ==> #[trigger] spec_insert_history(h, it)[i + 1] == h[i],
{
    let grown = seq![it] + h;
    if grown.len() <= 100 {
        assert(spec_insert_history(h, it) =~= grown);
    } else {
        assert(spec_insert_history(h, it) =~= grown.take(100));
    }
}

} // verus!
