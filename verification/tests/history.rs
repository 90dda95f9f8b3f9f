//! History store behaviour: id assignment, bounding, previews.

use cursor_clip::backend_state::BackendState;
use cursor_clip::data::{ClipboardContentType, MimeData};

fn text_payload(text: &str) -> MimeData {
    let mut payload = MimeData::new();
    payload.insert(
        String::from("text/plain;charset=utf-8"),
        text.as_bytes().to_vec(),
    );
    payload
}

#[test]
fn insert_assigns_strictly_increasing_ids() {
    let mut st = BackendState::new();
    let id1 = st.add_clipboard_item(text_payload("first")).unwrap();
    let id2 = st.add_clipboard_item(text_payload("second")).unwrap();
    let id3 = st.add_clipboard_item(text_payload("third")).unwrap();
    assert!(id1 < id2 && id2 < id3);
    assert_eq!(id1, 1);
    assert_eq!(id2, 2);
    assert_eq!(id3, 3);
}

#[test]
fn insert_derives_preview_and_type() {
    let mut st = BackendState::new();
    st.add_clipboard_item(text_payload("https://example.com")).unwrap();
    let history = st.get_history();
    assert_eq!(history[0].content_preview, "https://example.com");
    assert_eq!(history[0].content_type, ClipboardContentType::Url);
}

#[test]
fn insert_empty_payload_rejected() {
    let mut st = BackendState::new();
    let r = st.add_clipboard_item(MimeData::new());
    assert!(r.is_none());
    assert_eq!(st.get_history().len(), 0);
    let id = st.add_clipboard_item(text_payload("x")).unwrap();
    assert_eq!(id, 1);
}

#[test]
fn history_bounded_at_one_hundred() {
    let mut st = BackendState::new();
    for k in 0..101u64 {
        let text = format!("entry number {}", k);
        st.add_clipboard_item(text_payload(&text)).unwrap();
    }
    let history = st.get_history();
    assert_eq!(history.len(), 100);
    // The first insert received id 1; after 101 inserts it is gone.
    assert!(history.iter().all(|p| p.item_id != 1));
    // The most recent 100 remain in reverse insertion order: ids 101 .. 2.
    for (idx, p) in history.iter().enumerate() {
        assert_eq!(p.item_id, 101 - idx as u64);
    }
}

#[test]
fn image_beats_text_and_order_is_most_recent_first() {
    let mut st = BackendState::new();
    let id_a = st.add_clipboard_item(text_payload("hello")).unwrap();
    let mut payload_b = MimeData::new();
    payload_b.insert(String::from("image/png"), vec![1, 2, 3, 4]);
    payload_b.insert(
        String::from("text/plain;charset=utf-8"),
        b"fallback".to_vec(),
    );
    let id_b = st.add_clipboard_item(payload_b).unwrap();
    let history = st.get_history();
    assert_eq!(history.len(), 2);
    assert_eq!(history[0].item_id, id_b);
    assert_eq!(history[0].content_type, ClipboardContentType::Image);
    assert_eq!(history[0].content_preview, "<image/png 4 bytes>");
    assert_eq!(history[1].item_id, id_a);
    assert_eq!(history[1].content_type, ClipboardContentType::Text);
    assert_eq!(history[1].content_preview, "hello");
}

#[test]
fn fallback_placeholder_for_unknown_mime() {
    let mut st = BackendState::new();
    let mut payload = MimeData::new();
    payload.insert(String::from("application/x-thing"), vec![9; 17]);
    st.add_clipboard_item(payload).unwrap();
    let history = st.get_history();
    assert_eq!(history[0].content_preview, "<application/x-thing 17 bytes>");
}

#[test]
fn invalid_utf8_text_gets_placeholder() {
    let mut st = BackendState::new();
    let mut payload = MimeData::new();
    payload.insert(
        String::from("text/plain;charset=utf-8"),
        vec![0xff, 0xfe, 0x00],
    );
    st.add_clipboard_item(payload).unwrap();
    let history = st.get_history();
    assert_eq!(
        history[0].content_preview,
        "<text/plain;charset=utf-8 3 bytes>"
    );
}

#[test]
fn long_text_preview_truncated_to_two_hundred_chars() {
    let mut st = BackendState::new();
    let long = "a".repeat(450);
    st.add_clipboard_item(text_payload(&long)).unwrap();
    let history = st.get_history();
    assert_eq!(history[0].content_preview.chars().count(), 200);
}

#[test]
fn clear_history_keeps_id_counter() {
    let mut st = BackendState::new();
    st.add_clipboard_item(text_payload("one")).unwrap();
    st.add_clipboard_item(text_payload("two")).unwrap();
    st.clear_history();
    assert_eq!(st.get_history().len(), 0);
    let next = st.add_clipboard_item(text_payload("three")).unwrap();
    assert_eq!(next, 3);
}

#[test]
fn get_item_by_id_finds_stored_payload() {
    let mut st = BackendState::new();
    let id = st.add_clipboard_item(text_payload("needle")).unwrap();
    st.add_clipboard_item(text_payload("other")).unwrap();
    let item = st.get_item_by_id(id).unwrap();
    assert_eq!(item.item_id, id);
    assert_eq!(item.content_preview, "needle");
    assert_eq!(
        item.mime_data.get("text/plain;charset=utf-8").unwrap(),
        &b"needle".to_vec()
    );
    assert!(st.get_item_by_id(999).is_none());
}

#[test]
fn duplicate_mime_insert_replaces_in_place() {
    let mut payload = MimeData::new();
    payload.insert(String::from("text/plain;charset=utf-8"), b"old".to_vec());
    payload.insert(String::from("image/png"), vec![0]);
    payload.insert(String::from("text/plain;charset=utf-8"), b"new".to_vec());
    assert_eq!(payload.len(), 2);
    assert_eq!(
        payload.get("text/plain;charset=utf-8").unwrap(),
        &b"new".to_vec()
    );
    // Position kept: the text entry is still first.
    assert_eq!(payload.first_entry().mime_type, "text/plain;charset=utf-8");
}
