//! Request dispatch for the IPC server.
//!
//! Each connection delivers newline-delimited requests; the caller parses a
//! line with [`crate::json::parse_frontend_message`], locks the shared
//! state, and lets [`handle_request`] compute the reply and its effect in
//! one step.  A history request never changes the state, so two clients
//! asking at once each get a complete, consistent snapshot — there is no
//! partially inserted item to observe.  The caller encodes the reply with
//! [`crate::json::encode_backend_message`], enqueues it on the
//! connection's channel, and performs the publish the reply may call for.

use vstd::prelude::*;

use crate::backend_state::{
    BackendState, history_models, spec_find_item, spec_not_found_message, spec_not_ready_message,
};
use crate::data::{BackendMessage, FrontendMessage};
use crate::selection::{Ownership, PublishRequest};

verus! {

/// Execute one client request against the shared state.  Returns the reply
/// to enqueue and, for a successful publish request, the protocol work the
/// caller must perform under the fresh source handle `source`.
pub fn handle_request(state: &mut BackendState, msg: FrontendMessage, source: u64) -> (r: (
    BackendMessage,
    Option<PublishRequest>,
))
    requires
        old(state).wf(),
    ensures
        final(state).wf(),
        (match msg {
            FrontendMessage::GetHistory => {
                &&& *final(state) == *old(state)
                &&& r.1 is None
                &&& (r.0 matches BackendMessage::History { items } && items@.len() == old(
                    state,
                ).history@.len() && (forall|i: int|
                    0 <= i < items@.len() ==> (#[trigger] items@[i])@ == old(
                        state,
                    ).history@[i]@.preview()))
            },
            FrontendMessage::SetClipboardById { id } => {
                let found = spec_find_item(history_models(old(state).history@), id);
                &&& final(state).history@ == old(state).history@
                &&& final(state).id_for_next_entry == old(state).id_for_next_entry
                &&& final(state).monitor_only == old(state).monitor_only
                &&& final(state).protocol_ready == old(state).protocol_ready
                &&& (if found is Some && old(state).protocol_ready {
                    &&& r.0 is ClipboardSet
                    &&& (r.1 matches Some(req) && req.item_id == id && req.destroy_source == old(
                        state,
                    ).ownership.current_source())
                    &&& final(state).ownership == (Ownership::PublishPending {
                        source,
                        item_id: id,
                    })
                } else {
                    &&& final(state).ownership == old(state).ownership
                    &&& r.1 is None
                    &&& (r.0 matches BackendMessage::Error { message } && message@ == (
                    if found is None {
                        spec_not_found_message(id)
                    } else {
                        spec_not_ready_message()
                    }))
                })
            },
            FrontendMessage::ClearHistory => {
                &&& final(state).history@ =~= Seq::<crate::data::ClipboardItem>::empty()
                &&& final(state).id_for_next_entry == old(state).id_for_next_entry
                &&& final(state).ownership == old(state).ownership
                &&& r.0 is HistoryCleared
                &&& r.1 is None
            },
        }),
{
    match msg {
        FrontendMessage::GetHistory => {
            let items = state.get_history();
            (BackendMessage::History { items }, None)
        },
        FrontendMessage::SetClipboardById { id } => {
            match state.set_clipboard_by_id(id, source) {
                Ok(req) => (BackendMessage::ClipboardSet, Some(req)),
                Err(message) => (BackendMessage::Error { message }, None),
            }
        },
        FrontendMessage::ClearHistory => {
            state.clear_history();
            (BackendMessage::HistoryCleared, None)
        },
    }
}

} // verus!
