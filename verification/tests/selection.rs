//! Selection state machine and request dispatch.

use cursor_clip::backend_state::BackendState;
use cursor_clip::data::{BackendMessage, FrontendMessage, MimeData};
use cursor_clip::ipc_server::handle_request;
use cursor_clip::selection::{Ownership, ReadOutcome, SelectionDecision};

fn text_payload(text: &str) -> MimeData {
    let mut payload = MimeData::new();
    payload.insert(
        String::from("text/plain;charset=utf-8"),
        text.as_bytes().to_vec(),
    );
    payload
}

#[test]
fn set_clipboard_unknown_id_reports_it_and_changes_nothing() {
    let mut st = BackendState::new();
    st.protocol_ready = true;
    st.add_clipboard_item(text_payload("x")).unwrap();
    let before_history = st.get_history();
    let r = st.set_clipboard_by_id(42, 700);
    let msg = r.unwrap_err();
    assert_eq!(msg, "No clipboard item found with ID: 42");
    assert!(msg.contains("42"));
    assert_eq!(st.ownership, Ownership::Unowned);
    assert_eq!(st.get_history(), before_history);
}

#[test]
fn set_clipboard_before_protocol_ready_fails() {
    let mut st = BackendState::new();
    let id = st.add_clipboard_item(text_payload("x")).unwrap();
    let r = st.set_clipboard_by_id(id, 700);
    assert_eq!(r.unwrap_err(), "Wayland clipboard objects not available yet");
    assert_eq!(st.ownership, Ownership::Unowned);
}

#[test]
fn publish_echo_cancel_cycle() {
    let mut st = BackendState::new();
    st.protocol_ready = true;
    let id = st.add_clipboard_item(text_payload("hello")).unwrap();
    // Publish: the slot leaves Unowned in the same step — never a state
    // where the daemon owns the selection without a source handle.
    let req = st.set_clipboard_by_id(id, 700).unwrap();
    assert_eq!(req.item_id, id);
    assert_eq!(req.destroy_source, None);
    assert_eq!(req.mime_types, vec![String::from("text/plain;charset=utf-8")]);
    assert_eq!(
        st.ownership,
        Ownership::PublishPending {
            source: 700,
            item_id: id
        }
    );
    // The compositor echoes the publish as an offer + selection: suppressed.
    st.handle_data_offer(55);
    st.handle_offer_mime(55, String::from("text/plain;charset=utf-8"));
    let d = st.handle_selection(Some(55));
    assert_eq!(d, SelectionDecision::Suppressed);
    assert_eq!(
        st.ownership,
        Ownership::Owned {
            source: 700,
            item_id: id
        }
    );
    // A foreign cancellation changes nothing.
    assert!(!st.handle_source_cancelled(999));
    assert_eq!(
        st.ownership,
        Ownership::Owned {
            source: 700,
            item_id: id
        }
    );
    // Cancelling the held source returns the slot to Unowned.
    assert!(st.handle_source_cancelled(700));
    assert_eq!(st.ownership, Ownership::Unowned);
}

#[test]
fn republish_destroys_previous_source() {
    let mut st = BackendState::new();
    st.protocol_ready = true;
    let id1 = st.add_clipboard_item(text_payload("one")).unwrap();
    let id2 = st.add_clipboard_item(text_payload("two")).unwrap();
    st.set_clipboard_by_id(id1, 700).unwrap();
    let req = st.set_clipboard_by_id(id2, 701).unwrap();
    assert_eq!(req.destroy_source, Some(700));
    assert_eq!(
        st.ownership,
        Ownership::PublishPending {
            source: 701,
            item_id: id2
        }
    );
}

#[test]
fn external_selection_is_read_and_republished() {
    let mut st = BackendState::new();
    st.protocol_ready = true;
    st.handle_data_offer(10);
    st.handle_offer_mime(10, String::from("text/plain;charset=utf-8"));
    st.handle_offer_mime(10, String::from("video/mp4"));
    st.handle_offer_mime(10, String::from("image/png"));
    let d = st.handle_selection(Some(10));
    match d {
        SelectionDecision::Read { mime_types } => {
            // The video type was filtered out at announcement time.
            assert_eq!(
                mime_types,
                vec![
                    String::from("text/plain;charset=utf-8"),
                    String::from("image/png")
                ]
            );
        }
        other => panic!("expected a read decision, got {:?}", other),
    }
    let mut payload = MimeData::new();
    payload.insert(String::from("image/png"), vec![1, 2, 3]);
    let outcome = st.finish_selection_read(payload, 700);
    match outcome {
        ReadOutcome::Published { item_id, publish } => {
            assert_eq!(item_id, 1);
            assert_eq!(publish.item_id, 1);
            assert_eq!(publish.mime_types, vec![String::from("image/png")]);
        }
        other => panic!("expected a publish, got {:?}", other),
    }
    assert_eq!(
        st.ownership,
        Ownership::PublishPending {
            source: 700,
            item_id: 1
        }
    );
}

#[test]
fn monitor_only_stores_without_publishing() {
    let mut st = BackendState::new();
    st.protocol_ready = true;
    st.monitor_only = true;
    st.handle_data_offer(10);
    st.handle_offer_mime(10, String::from("text/plain;charset=utf-8"));
    assert!(matches!(
        st.handle_selection(Some(10)),
        SelectionDecision::Read { .. }
    ));
    let outcome = st.finish_selection_read(text_payload("watched"), 700);
    assert_eq!(outcome, ReadOutcome::Stored { item_id: 1 });
    assert_eq!(st.ownership, Ownership::Unowned);
    assert_eq!(st.get_history().len(), 1);
}

#[test]
fn empty_read_is_ignored() {
    let mut st = BackendState::new();
    st.protocol_ready = true;
    let outcome = st.finish_selection_read(MimeData::new(), 700);
    assert_eq!(outcome, ReadOutcome::Ignored);
    assert_eq!(st.get_history().len(), 0);
}

#[test]
fn selection_events_edge_cases() {
    let mut st = BackendState::new();
    // An offer never announced is ignored.
    assert_eq!(st.handle_selection(Some(3)), SelectionDecision::Unknown);
    // A cleared selection drops the current offer.
    st.handle_data_offer(4);
    st.handle_offer_mime(4, String::from("text/plain;charset=utf-8"));
    assert!(matches!(
        st.handle_selection(Some(4)),
        SelectionDecision::Read { .. }
    ));
    assert_eq!(st.current_data_offer, Some(4));
    assert_eq!(st.handle_selection(None), SelectionDecision::Cleared);
    assert_eq!(st.current_data_offer, None);
    // The same offer designated twice is not read twice.
    st.handle_data_offer(5);
    st.handle_offer_mime(5, String::from("text/plain;charset=utf-8"));
    assert!(matches!(
        st.handle_selection(Some(5)),
        SelectionDecision::Read { .. }
    ));
    st.handle_data_offer(5);
    st.handle_offer_mime(5, String::from("text/plain;charset=utf-8"));
    assert_eq!(st.handle_selection(Some(5)), SelectionDecision::AlreadyCurrent);
}

#[test]
fn send_serves_stored_bytes_for_published_item() {
    let mut st = BackendState::new();
    st.protocol_ready = true;
    let mut payload = MimeData::new();
    payload.insert(String::from("text/plain;charset=utf-8"), b"served".to_vec());
    payload.insert(String::from("image/png"), vec![7, 7]);
    let id = st.add_clipboard_item(payload).unwrap();
    assert_eq!(st.handle_source_send("text/plain;charset=utf-8"), None);
    st.set_clipboard_by_id(id, 700).unwrap();
    assert_eq!(
        st.handle_source_send("text/plain;charset=utf-8"),
        Some(b"served".to_vec())
    );
    assert_eq!(st.handle_source_send("image/png"), Some(vec![7, 7]));
    assert_eq!(st.handle_source_send("text/html"), None);
    // When the item leaves the history, nothing is served.
    st.clear_history();
    assert_eq!(st.handle_source_send("image/png"), None);
}

#[test]
fn request_on_empty_history_yields_exact_error() {
    let mut st = BackendState::new();
    st.protocol_ready = true;
    let (reply, publish) = handle_request(
        &mut st,
        FrontendMessage::SetClipboardById { id: 7 },
        700,
    );
    assert!(publish.is_none());
    assert_eq!(
        reply,
        BackendMessage::Error {
            message: String::from("No clipboard item found with ID: 7")
        }
    );
}

#[test]
fn clear_request_empties_history_and_keeps_counter() {
    let mut st = BackendState::new();
    st.add_clipboard_item(text_payload("a")).unwrap();
    let (reply, _) = handle_request(&mut st, FrontendMessage::ClearHistory, 0);
    assert_eq!(reply, BackendMessage::HistoryCleared);
    let (reply2, _) = handle_request(&mut st, FrontendMessage::GetHistory, 0);
    assert_eq!(reply2, BackendMessage::History { items: vec![] });
    assert_eq!(st.add_clipboard_item(text_payload("b")).unwrap(), 2);
}

#[test]
fn two_history_requests_see_the_same_consistent_snapshot() {
    let mut st = BackendState::new();
    st.add_clipboard_item(text_payload("a")).unwrap();
    st.add_clipboard_item(text_payload("b")).unwrap();
    let (r1, _) = handle_request(&mut st, FrontendMessage::GetHistory, 0);
    let (r2, _) = handle_request(&mut st, FrontendMessage::GetHistory, 0);
    assert_eq!(r1, r2);
    match r1 {
        BackendMessage::History { items } => {
            assert_eq!(items.len(), 2);
            assert_eq!(items[0].content_preview, "b");
            assert_eq!(items[1].content_preview, "a");
        }
        other => panic!("expected a history reply, got {:?}", other),
    }
}

#[test]
fn successful_request_publishes() {
    let mut st = BackendState::new();
    st.protocol_ready = true;
    let id = st.add_clipboard_item(text_payload("x")).unwrap();
    let (reply, publish) =
        handle_request(&mut st, FrontendMessage::SetClipboardById { id }, 701);
    assert_eq!(reply, BackendMessage::ClipboardSet);
    let req = publish.unwrap();
    assert_eq!(req.item_id, id);
    assert_eq!(
        st.ownership,
        Ownership::PublishPending {
            source: 701,
            item_id: id
        }
    );
}
