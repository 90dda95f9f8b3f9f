//! Selection ownership and offer tracking.
//!
//! The compositor announces available clipboard content as *offers*: an
//! opaque id followed by the MIME types it can serve.  When a selection
//! resolves an offer the daemon reads its payload and, unless it is in
//! monitor-only mode, re-publishes the content under a *source* of its own,
//! so it outlives the application that copied it.  The daemon's hold on the
//! compositor-wide selection is one logical slot, modelled as a three-state
//! machine: `Unowned`, `PublishPending` (a publish was issued and the
//! compositor's echo of it is still outstanding) and `Owned` (the echo
//! arrived).  While the slot is out of `Unowned`, selection events are
//! suppressed rather than read: reading the daemon's own just-published
//! selection inside the dispatch cycle would deadlock the connection.
//!
//! The functions here make all the decisions; the caller owns the actual
//! protocol objects, performs the destroys, reads and writes these
//! decisions call for, and identifies protocol objects by the opaque `u64`
//! handles used throughout.

use vstd::prelude::*;

use crate::backend_state::{
    BackendState, history_models, spec_find_item, spec_insert_history, spec_new_item,
    spec_not_ready_message,
};
use crate::data::{MimeData, payload_lookup};
use crate::strutil::seq_starts_with;

verus! {

// ---------------------------------------------------------------------------
// Ownership: the one selection slot
// ---------------------------------------------------------------------------
/// The daemon's hold on the compositor-wide selection.
#[derive(Debug, Copy, Clone, PartialEq, Eq, Structural)]
pub enum Ownership {
    /// The daemon holds no published source; external selections are read.
    Unowned,
    /// A source was published; the compositor's echo is still outstanding.
    /// Selection events are suppressed until the slot is cancelled.
    PublishPending { source: u64, item_id: u64 },
    /// The compositor echoed the publish back; the daemon serves paste
    /// requests for `item_id` until another client takes the selection over.
    Owned { source: u64, item_id: u64 },
}

impl Ownership {
    /// The daemon currently holds the selection.
    pub open spec fn owns_selection(self) -> bool {
        !(self is Unowned)
    }

    /// The handle of the currently published source, if any.
    pub open spec fn current_source(self) -> Option<u64> {
        match self {
            Ownership::Unowned => None,
            Ownership::PublishPending { source, .. } => Some(source),
            Ownership::Owned { source, .. } => Some(source),
        }
    }

    /// The id of the history item the published source serves, if any.
    pub open spec fn current_item(self) -> Option<u64> {
        match self {
            Ownership::Unowned => None,
            Ownership::PublishPending { item_id, .. } => Some(item_id),
            Ownership::Owned { item_id, .. } => Some(item_id),
        }
    }

    /// Selection events are suppressed (not read) in this state.
    pub open spec fn suppressing(self) -> bool {
        self.owns_selection()
    }
}

/// Ownership invariant: a published source handle exists exactly while the
/// daemon holds the selection, and it always serves a definite item.  There
/// is no state in which the slot is both owned and cleared — the machine
/// makes such a combination unrepresentable.
pub proof fn lemma_ownership_source_iff(o: Ownership)
    ensures
        o.current_source() is Some <==> o.owns_selection(),
        o.current_item() is Some <==> o.owns_selection(),
        o.suppressing() <==> o.owns_selection(),
{
    match o {
        Ownership::Unowned => {},
        Ownership::PublishPending { .. } => {},
        Ownership::Owned { .. } => {},
    }
}

// ---------------------------------------------------------------------------
// Offer tracking table
// ---------------------------------------------------------------------------
/// The MIME-type list announced for `offer` so far, if the offer is known.
pub open spec fn table_lookup(t: Seq<(u64, Seq<Seq<char>>)>, offer: u64) -> Option<Seq<Seq<char>>> {
    if exists|k: int| 0 <= k < t.len() && (#[trigger] t[k]).0 == offer {
        let k = choose|k: int| 0 <= k < t.len() && (#[trigger] t[k]).0 == offer;
        Some(t[k].1)
    } else {
        None
    }
}

/// No two table entries track the same offer.
pub open spec fn table_keys_unique(t: Seq<(u64, Seq<Seq<char>>)>) -> bool {
    forall|i: int, j: int| 0 <= i < j < t.len() ==> (#[trigger] t[i]).0 != (#[trigger] t[j]).0
}

/// One tracked offer: its handle and the MIME types announced for it.
#[derive(Debug)]
pub struct OfferEntry {
    pub offer: u64,
    pub mime_types: Vec<String>,
}

impl View for OfferEntry {
    type V = (u64, Seq<Seq<char>>);

    open spec fn view(&self) -> (u64, Seq<Seq<char>>) {
        (self.offer, self.mime_types.deep_view())
    }
}

/// Transient table of offers announced by the compositor and not yet
/// resolved by a selection event.
#[derive(Debug)]
pub struct OfferTable {
    entries: Vec<OfferEntry>,
}

impl View for OfferTable {
    type V = Seq<(u64, Seq<Seq<char>>)>;

    closed spec fn view(&self) -> Seq<(u64, Seq<Seq<char>>)> {
        self.entries@.map_values(|e: OfferEntry| e@)
    }
}

impl OfferTable {
    /// Offers are tracked at most once.
    pub open spec fn wf(&self) -> bool {
        table_keys_unique(self@)
    }

    /// An empty table.
    pub fn new() -> (r: Self)
        ensures
            r@ =~= Seq::<(u64, Seq<Seq<char>>)>::empty(),
            r.wf(),
    {
        let r = OfferTable { entries: Vec::new() };
        proof {
            assert(r@ =~= Seq::<(u64, Seq<Seq<char>>)>::empty());
        }
        r
    }

    /// Start tracking `offer` with an empty MIME list.  An offer already
    /// tracked starts over empty.
    pub fn register_offer(&mut self, offer: u64)
        requires
            old(self).wf(),
        ensures
            final(self).wf(),
            table_lookup(final(self)@, offer) == Some(Seq::<Seq<char>>::empty()),
            forall|id: u64|
                id != offer ==> #[trigger] table_lookup(final(self)@, id) == table_lookup(
                    old(self)@,
                    id,
                ),
    {
        let n = self.entries.len();
        for i in 0..n
            invariant
                n == self.entries.len(),
                self.wf(),
                self@ == old(self)@,
                forall|j: int| 0 <= j < i ==> (#[trigger] self@[j]).0 != offer,
        {
            if self.entries[i].offer == offer {
                let ghost pre = self@;
                let e = OfferEntry { offer, mime_types: Vec::new() };
                self.entries.set(i, e);
                proof {
                    assert(self@ =~~= pre.update(i as int, (offer, Seq::<Seq<char>>::empty())));
                    lemma_table_update(pre, self@, i as int, offer, Seq::<Seq<char>>::empty());
                }
                return ;
            }
        }
        let ghost pre = self@;
        let e = OfferEntry { offer, mime_types: Vec::new() };
        self.entries.push(e);
        proof {
            assert(self@ =~~= pre.push((offer, Seq::<Seq<char>>::empty())));
            lemma_table_push(pre, self@, offer, Seq::<Seq<char>>::empty());
        }
    }

    /// Append `mime` to the list of a tracked offer; unknown offers are
    /// ignored.
    pub fn add_mime(&mut self, offer: u64, mime: String)
        requires
            old(self).wf(),
        ensures
            final(self).wf(),
            (match table_lookup(old(self)@, offer) {
                Some(l) => table_lookup(final(self)@, offer) == Some(l.push(mime@)),
                None => final(self)@ == old(self)@,
            }),
            forall|id: u64|
                id != offer ==> #[trigger] table_lookup(final(self)@, id) == table_lookup(
                    old(self)@,
                    id,
                ),
    {
        let n = self.entries.len();
        for i in 0..n
            invariant
                n == self.entries.len(),
                self.wf(),
                self@ == old(self)@,
                forall|j: int| 0 <= j < i ==> (#[trigger] self@[j]).0 != offer,
        {
            if self.entries[i].offer == offer {
                let ghost pre = self@;
                let ghost oldlist = pre[i as int].1;
                proof {
                    assert(pre[i as int] == self.entries@[i as int]@);
                    lemma_table_found(pre, i as int, offer);
                }
                let mut e = self.entries.remove(i);
                e.mime_types.push(mime);
                proof {
                    assert(e.mime_types@.len() >= 1);
                }
                self.entries.insert(i, e);
                proof {
                    assert(e@.1 =~= oldlist.push(mime@)) by {
                        assert(e.mime_types@.last()@ == mime@);
                        assert(e.mime_types.deep_view() =~= oldlist.push(mime@));
                    }
                    assert(self@ =~= pre.update(i as int, (offer, oldlist.push(mime@))));
                    lemma_table_update(pre, self@, i as int, offer, oldlist.push(mime@));
                }
                return ;
            }
        }
        proof {
            assert(table_lookup(self@, offer) is None);
        }
    }

    /// The MIME list of a tracked offer, copied out.
    pub fn get_mimes(&self, offer: u64) -> (r: Option<Vec<String>>)
        requires
            self.wf(),
        ensures
            (match r {
                Some(l) => table_lookup(self@, offer) == Some(l.deep_view()),
                None => table_lookup(self@, offer) is None,
            }),
    {
        let n = self.entries.len();
        for i in 0..n
            invariant
                n == self.entries.len(),
                self.wf(),
                forall|j: int| 0 <= j < i ==> (#[trigger] self@[j]).0 != offer,
        {
            if self.entries[i].offer == offer {
                proof {
                    assert(self@[i as int] == self.entries@[i as int]@);
                    lemma_table_found(self@, i as int, offer);
                }
                let src = &self.entries[i].mime_types;
                let mut l: Vec<String> = Vec::new();
                let m = src.len();
                for j in 0..m
                    invariant
                        m == src.len(),
                        l@.len() == j,
                        forall|k: int| 0 <= k < j ==> (#[trigger] l@[k])@ == src@[k]@,
                {
                    l.push(src[j].clone());
                }
                proof {
                    assert(l.deep_view() =~= src.deep_view());
                }
                return Some(l);
            }
        }
        None
    }

    /// Forget every tracked offer.
    pub fn clear(&mut self)
        ensures
            final(self)@ =~= Seq::<(u64, Seq<Seq<char>>)>::empty(),
            final(self).wf(),
    {
        self.entries.clear();
        proof {
            assert(self@ =~= Seq::<(u64, Seq<Seq<char>>)>::empty());
        }
    }
}

/// In a table with unique keys, a matching index is the witness the lookup
/// resolves to.
proof fn lemma_table_found(t: Seq<(u64, Seq<Seq<char>>)>, i: int, offer: u64)
    requires
        table_keys_unique(t),
        0 <= i < t.len(),
        t[i].0 == offer,
    ensures
        table_lookup(t, offer) == Some(t[i].1),
{
    assert(exists|k: int| 0 <= k < t.len() && (#[trigger] t[k]).0 == offer);
    let k = choose|k: int| 0 <= k < t.len() && (#[trigger] t[k]).0 == offer;
    if k != i {
        assert(t[k].0 == t[i].0);
        assert(false);
    }
}

/// Updating the entry that holds `offer` changes that lookup alone.
proof fn lemma_table_update(
    pre: Seq<(u64, Seq<Seq<char>>)>,
    post: Seq<(u64, Seq<Seq<char>>)>,
    i: int,
    offer: u64,
    l: Seq<Seq<char>>,
)
    requires
        table_keys_unique(pre),
        0 <= i < pre.len(),
        pre[i].0 == offer,
        post == pre.update(i, (offer, l)),
    ensures
        table_keys_unique(post),
        table_lookup(post, offer) == Some(l),
        forall|id: u64| id != offer ==> #[trigger] table_lookup(post, id) == table_lookup(pre, id),
{
    assert(forall|j: int| 0 <= j < post.len() && j != i ==> post[j] == pre[j]);
    assert(forall|a: int, b: int|
        0 <= a < b < post.len() ==> (#[trigger] post[a]).0 != (#[trigger] post[b]).0);
    lemma_table_found(post, i, offer);
    assert forall|id: u64| id != offer implies #[trigger] table_lookup(post, id) == table_lookup(
        pre,
        id,
    ) by {
        if exists|k: int| 0 <= k < pre.len() && (#[trigger] pre[k]).0 == id {
            let k = choose|k: int| 0 <= k < pre.len() && (#[trigger] pre[k]).0 == id;
            assert(k != i);
            assert(post[k].0 == id);
            lemma_table_found(post, k, id);
            lemma_table_found(pre, k, id);
        } else {
            assert(forall|k: int| 0 <= k < post.len() ==> (#[trigger] post[k]).0 == pre[k].0);
        }
    }
}

/// Appending an entry for a new offer adds that lookup alone.
proof fn lemma_table_push(
    pre: Seq<(u64, Seq<Seq<char>>)>,
    post: Seq<(u64, Seq<Seq<char>>)>,
    offer: u64,
    l: Seq<Seq<char>>,
)
    requires
        table_keys_unique(pre),
        forall|k: int| 0 <= k < pre.len() ==> (#[trigger] pre[k]).0 != offer,
        post == pre.push((offer, l)),
    ensures
        table_keys_unique(post),
        table_lookup(post, offer) == Some(l),
        forall|id: u64| id != offer ==> #[trigger] table_lookup(post, id) == table_lookup(pre, id),
{
    assert(forall|j: int| 0 <= j < pre.len() ==> post[j] == pre[j]);
    assert(post[pre.len() as int] == (offer, l));
    assert(forall|a: int, b: int|
        0 <= a < b < post.len() ==> (#[trigger] post[a]).0 != (#[trigger] post[b]).0);
    lemma_table_found(post, pre.len() as int, offer);
    assert forall|id: u64| id != offer implies #[trigger] table_lookup(post, id) == table_lookup(
        pre,
        id,
    ) by {
        if exists|k: int| 0 <= k < pre.len() && (#[trigger] pre[k]).0 == id {
            let k = choose|k: int| 0 <= k < pre.len() && (#[trigger] pre[k]).0 == id;
            assert(post[k].0 == id);
            lemma_table_found(post, k, id);
            lemma_table_found(pre, k, id);
        } else {
            assert(forall|k: int|
                0 <= k < post.len() && (#[trigger] post[k]).0 == id ==> k == pre.len());
        }
    }
}

// ---------------------------------------------------------------------------
// Commands handed back to the protocol driver
// ---------------------------------------------------------------------------
/// What the caller must do to publish a history item as the new selection:
/// destroy the previously held source (if any), create a source under the
/// given fresh handle, offer every listed MIME type on it, install it as the
/// selection and flush the connection.
#[derive(Debug, PartialEq)]
pub struct PublishRequest {
    /// The history item the new source serves.
    pub item_id: u64,
    /// The MIME types to offer, in the item's stored order.
    pub mime_types: Vec<String>,
    /// The handle of the source to destroy first, if one was held.
    pub destroy_source: Option<u64>,
}

/// What a selection event asks the caller to do.
#[derive(Debug, PartialEq)]
pub enum SelectionDecision {
    /// The selection was cleared; nothing to do.
    Cleared,
    /// The offer was never announced; nothing to do.
    Unknown,
    /// The daemon holds the selection, so this event is its own echo (or is
    /// suppressed with it): destroy the offer object unread.
    Suppressed,
    /// The offer is already the current one; nothing to do.
    AlreadyCurrent,
    /// Read the payload: fetch the bytes for each listed MIME type, then
    /// hand them to `finish_selection_read`, and destroy the offer object.
    Read { mime_types: Vec<String> },
}

/// What became of a payload read from an external selection.
#[derive(Debug, PartialEq)]
pub enum ReadOutcome {
    /// The payload was empty; nothing was stored.
    Ignored,
    /// Stored, and left unpublished: the daemon is in monitor-only mode or
    /// already holds the selection.
    Stored { item_id: u64 },
    /// Stored, and to be re-published under the daemon's own source.
    Published { item_id: u64, publish: PublishRequest },
    /// Stored, but the publish could not be issued.
    PublishFailed { item_id: u64, message: String },
}

// ---------------------------------------------------------------------------
// Event handlers
// ---------------------------------------------------------------------------
/// The history and the id counter are untouched.
pub open spec fn same_store(pre: BackendState, post: BackendState) -> bool {
    post.history@ == pre.history@ && post.id_for_next_entry == pre.id_for_next_entry
}

/// The readiness and monitor-only switches are untouched.
pub open spec fn same_modes(pre: BackendState, post: BackendState) -> bool {
    post.protocol_ready == pre.protocol_ready && post.monitor_only == pre.monitor_only
}

/// The bytes the daemon serves for a paste request under `mime`: those of
/// the published item, where it exists in the history and carries that MIME
/// type.
pub open spec fn spec_serve_bytes(s: BackendState, mime: Seq<char>) -> Option<Seq<u8>> {
    match s.ownership.current_item() {
        None => None,
        Some(id) => match spec_find_item(history_models(s.history@), id) {
            None => None,
            Some(item) => payload_lookup(item.mime_data, mime),
        },
    }
}

impl BackendState {
    /// The compositor announced a new offer: track it with an empty MIME
    /// list.
    pub fn handle_data_offer(&mut self, offer: u64)
        requires
            old(self).wf(),
        ensures
            final(self).wf(),
            same_store(*old(self), *final(self)),
            same_modes(*old(self), *final(self)),
            final(self).current_data_offer == old(self).current_data_offer,
            final(self).ownership == old(self).ownership,
            table_lookup(final(self).mime_type_offers@, offer) == Some(Seq::<Seq<char>>::empty()),
            forall|id: u64|
                id != offer ==> #[trigger] table_lookup(final(self).mime_type_offers@, id)
                    == table_lookup(old(self).mime_type_offers@, id),
    {
        self.mime_type_offers.register_offer(offer);
    }

    /// The compositor announced a MIME type for a tracked offer: record it,
    /// except for video types, which the history does not capture.
    pub fn handle_offer_mime(&mut self, offer: u64, mime: String)
        requires
            old(self).wf(),
        ensures
            final(self).wf(),
            same_store(*old(self), *final(self)),
            same_modes(*old(self), *final(self)),
            final(self).current_data_offer == old(self).current_data_offer,
            final(self).ownership == old(self).ownership,
            (match table_lookup(old(self).mime_type_offers@, offer) {
                Some(l) => {
                    if seq_starts_with(mime@, "video"@) {
                        final(self).mime_type_offers@ == old(self).mime_type_offers@
                    } else {
                        table_lookup(final(self).mime_type_offers@, offer) == Some(l.push(mime@))
                    }
                },
                None => final(self).mime_type_offers@ == old(self).mime_type_offers@,
            }),
            forall|id: u64|
                id != offer ==> #[trigger] table_lookup(final(self).mime_type_offers@, id)
                    == table_lookup(old(self).mime_type_offers@, id),
    {
        let cs = crate::strutil::str_to_chars(mime.as_str());
        let video = crate::strutil::str_to_chars("video");
        if !crate::strutil::chars_starts_with(&cs, &video) {
            self.mime_type_offers.add_mime(offer, mime);
        }
    }

    /// The compositor designated a selection.  `None` clears the current
    /// offer.  An unknown offer is ignored.  While the daemon holds the
    /// selection the event is its own echo and is suppressed, completing
    /// `PublishPending` into `Owned`.  An offer already current is ignored.
    /// Any other known offer is to be read: the caller fetches the returned
    /// MIME types and hands the payload to `finish_selection_read`; the
    /// offer table is cleared for the next round.
    pub fn handle_selection(&mut self, offer_id: Option<u64>) -> (d: SelectionDecision)
        requires
            old(self).wf(),
        ensures
            final(self).wf(),
            same_store(*old(self), *final(self)),
            same_modes(*old(self), *final(self)),
            (match offer_id {
                None => {
                    &&& d == SelectionDecision::Cleared
                    &&& final(self).current_data_offer is None
                    &&& final(self).ownership == old(self).ownership
                    &&& final(self).mime_type_offers@ == old(self).mime_type_offers@
                },
                Some(id) => {
                    match table_lookup(old(self).mime_type_offers@, id) {
                        None => d == SelectionDecision::Unknown && *final(self) == *old(self),
                        Some(mimes) => {
                            if old(self).ownership.suppressing() {
                                &&& d == SelectionDecision::Suppressed
                                &&& final(self).current_data_offer == Some(id)
                                &&& final(self).mime_type_offers@ == old(self).mime_type_offers@
                                &&& final(self).ownership == (match old(self).ownership {
                                    Ownership::PublishPending { source, item_id } => {
                                        Ownership::Owned { source, item_id }
                                    },
                                    o => o,
                                })
                            } else if old(self).current_data_offer == Some(id) {
                                &&& d == SelectionDecision::AlreadyCurrent
                                &&& *final(self) == *old(self)
                            } else {
                                &&& (d matches SelectionDecision::Read { mime_types }
                                    && mime_types.deep_view() == mimes)
                                &&& final(self).current_data_offer == Some(id)
                                &&& final(self).mime_type_offers@ =~= Seq::<(
                                    u64,
                                    Seq<Seq<char>>,
                                )>::empty()
                                &&& final(self).ownership == old(self).ownership
                            }
                        },
                    }
                },
            }),
    {
        match offer_id {
            None => {
                self.current_data_offer = None;
                SelectionDecision::Cleared
            },
            Some(id) => {
                match self.mime_type_offers.get_mimes(id) {
                    None => SelectionDecision::Unknown,
                    Some(mimes) => {
                        if !matches!(self.ownership, Ownership::Unowned) {
                            self.current_data_offer = Some(id);
                            let slot = self.ownership;
                            self.ownership = match slot {
                                Ownership::PublishPending { source, item_id } => {
                                    Ownership::Owned { source, item_id }
                                },
                                o => o,
                            };
                            SelectionDecision::Suppressed
                        } else {
                            let already_current = match self.current_data_offer {
                                Some(cur) => cur == id,
                                None => false,
                            };
                            if already_current {
                                SelectionDecision::AlreadyCurrent
                            } else {
                                self.current_data_offer = Some(id);
                                self.mime_type_offers.clear();
                                SelectionDecision::Read { mime_types: mimes }
                            }
                        }
                    },
                }
            },
        }
    }

    /// Store the payload read for a resolved offer, and decide whether to
    /// take the selection over.  An empty payload is ignored.  Otherwise
    /// the payload enters the history under the next id; the daemon then
    /// publishes it under the fresh handle `source` — unless it is in
    /// monitor-only mode or already holds the selection, or the compositor
    /// objects are not bound yet.
    pub fn finish_selection_read(&mut self, payload: MimeData, source: u64) -> (r: ReadOutcome)
        requires
            old(self).wf(),
            payload.wf(),
            old(self).id_for_next_entry < u64::MAX,
        ensures
            final(self).wf(),
            same_modes(*old(self), *final(self)),
            final(self).current_data_offer == old(self).current_data_offer,
            final(self).mime_type_offers == old(self).mime_type_offers,
            payload@.len() == 0 ==> r == ReadOutcome::Ignored && *final(self) == *old(self),
            payload@.len() > 0 ==> ({
                &&& final(self).history@.len() > 0
                &&& history_models(final(self).history@) =~= spec_insert_history(
                    history_models(old(self).history@),
                    spec_new_item(
                        old(self).id_for_next_entry,
                        payload@,
                        final(self).history@[0].timestamp,
                    ),
                )
                &&& final(self).id_for_next_entry == old(self).id_for_next_entry + 1
                &&& (match r {
                    ReadOutcome::Ignored => false,
                    ReadOutcome::Stored { item_id } => {
                        &&& item_id == old(self).id_for_next_entry
                        &&& old(self).monitor_only || old(self).ownership.suppressing()
                        &&& final(self).ownership == old(self).ownership
                    },
                    ReadOutcome::Published { item_id, publish } => {
                        &&& item_id == old(self).id_for_next_entry
                        &&& !old(self).monitor_only && !old(self).ownership.suppressing()
                        &&& old(self).protocol_ready
                        &&& final(self).ownership == (Ownership::PublishPending {
                            source,
                            item_id,
                        })
                        &&& publish.item_id == item_id
                        &&& publish.mime_types@.len() == payload@.len()
                        &&& (forall|i: int|
                            0 <= i < publish.mime_types@.len() ==> (
                            #[trigger] publish.mime_types@[i])@ == payload@[i].0)
                        &&& publish.destroy_source is None
                    },
                    ReadOutcome::PublishFailed { item_id, message } => {
                        &&& item_id == old(self).id_for_next_entry
                        &&& !old(self).monitor_only && !old(self).ownership.suppressing()
                        &&& !old(self).protocol_ready
                        &&& message@ == spec_not_ready_message()
                        &&& final(self).ownership == old(self).ownership
                    },
                })
            }),
    {
        if payload.is_empty() {
            return ReadOutcome::Ignored;
        }
        let added = self.add_clipboard_item(payload);
        match added {
            None => {
                proof {
                    assert(false);
                }
                ReadOutcome::Ignored
            },
            Some(item_id) => {
                let owns = !matches!(self.ownership, Ownership::Unowned);
                if self.monitor_only || owns {
                    return ReadOutcome::Stored { item_id };
                }
                proof {
                    let h = history_models(self.history@);
                    assert(h[0].item_id == item_id);
                    assert(exists|k: int| 0 <= k < h.len() && (#[trigger] h[k]).item_id == item_id);
                    let k = choose|k: int| 0 <= k < h.len() && (#[trigger] h[k]).item_id == item_id;
                    if k != 0 {
                        assert(self.history@[0].item_id > self.history@[k].item_id);
                        assert(false);
                    }
                    assert(spec_find_item(h, item_id) == Some(h[0]));
                }
                match self.set_clipboard_by_id(item_id, source) {
                    Ok(publish) => ReadOutcome::Published { item_id, publish },
                    Err(message) => ReadOutcome::PublishFailed { item_id, message },
                }
            },
        }
    }

    /// Serve a paste request addressed to the daemon's published source:
    /// the bytes the published item stores under `mime`, which the caller
    /// writes to the requester's descriptor.  Nothing is served while no
    /// source is published, when the published item has left the history,
    /// or when it lacks the MIME type.
    pub fn handle_source_send(&self, mime: &str) -> (r: Option<Vec<u8>>)
        requires
            self.wf(),
        ensures
            (match r {
                Some(bytes) => spec_serve_bytes(*self, mime@) == Some(bytes@),
                None => spec_serve_bytes(*self, mime@) is None,
            }),
    {
        let item_id = match self.ownership {
            Ownership::Unowned => {
                return None;
            },
            Ownership::PublishPending { item_id, .. } => item_id,
            Ownership::Owned { item_id, .. } => item_id,
        };
        match self.get_item_by_id(item_id) {
            None => None,
            Some(item) => {
                match item.mime_data.get(mime) {
                    None => None,
                    Some(bytes) => Some(crate::strutil::clone_bytes(bytes)),
                }
            },
        }
    }

    /// The compositor cancelled a source.  If it is the currently published
    /// one, another client took the selection over: the slot returns to
    /// `Unowned` and reads are re-enabled.  A stale or foreign handle
    /// changes nothing.  Either way the caller destroys the source object.
    pub fn handle_source_cancelled(&mut self, source: u64) -> (was_current: bool)
        requires
            old(self).wf(),
        ensures
            final(self).wf(),
            same_store(*old(self), *final(self)),
            same_modes(*old(self), *final(self)),
            final(self).current_data_offer == old(self).current_data_offer,
            final(self).mime_type_offers == old(self).mime_type_offers,
            was_current == (old(self).ownership.current_source() == Some(source)),
            was_current ==> final(self).ownership == Ownership::Unowned,
            !was_current ==> final(self).ownership == old(self).ownership,
    {
        let current = match self.ownership {
            Ownership::Unowned => None,
            Ownership::PublishPending { source: cur, .. } => Some(cur),
            Ownership::Owned { source: cur, .. } => Some(cur),
        };
        match current {
            Some(cur) => {
                if cur == source {
                    self.ownership = Ownership::Unowned;
                    true
                } else {
                    false
                }
            },
            None => false,
        }
    }
}

} // verus!
