//! Wire-protocol round trips, exact encodings, and cross-checks against an
//! independent JSON implementation.

use cursor_clip::data::{
    BackendMessage, ClipboardContentType, ClipboardItemPreview, FrontendMessage, LauncherMessage,
};
use cursor_clip::json::{
    encode_backend_message, encode_frontend_message, encode_launcher_message,
    parse_backend_message, parse_frontend_message, parse_launcher_message,
};

fn preview(id: u64, text: &str, ty: ClipboardContentType, ts: u64) -> ClipboardItemPreview {
    ClipboardItemPreview {
        item_id: id,
        content_preview: String::from(text),
        content_type: ty,
        timestamp: ts,
    }
}

#[test]
fn frontend_exact_encodings() {
    assert_eq!(
        encode_frontend_message(&FrontendMessage::GetHistory),
        "\"GetHistory\""
    );
    assert_eq!(
        encode_frontend_message(&FrontendMessage::ClearHistory),
        "\"ClearHistory\""
    );
    assert_eq!(
        encode_frontend_message(&FrontendMessage::SetClipboardById { id: 7 }),
        "{\"SetClipboardById\":{\"id\":7}}"
    );
}

#[test]
fn frontend_round_trip_all_variants() {
    let messages = vec![
        FrontendMessage::GetHistory,
        FrontendMessage::SetClipboardById { id: 0 },
        FrontendMessage::SetClipboardById { id: u64::MAX },
        FrontendMessage::ClearHistory,
    ];
    for m in messages {
        let line = encode_frontend_message(&m);
        assert_eq!(parse_frontend_message(&line), Some(m));
    }
}

#[test]
fn backend_round_trip_all_variants() {
    let messages = vec![
        BackendMessage::History { items: vec![] },
        BackendMessage::History {
            items: vec![
                preview(1, "hello", ClipboardContentType::Text, 10),
                preview(2, "<image/png 4 bytes>", ClipboardContentType::Image, 11),
                preview(3, "line\nbreak \"quoted\" \\slash", ClipboardContentType::Text, 12),
            ],
        },
        BackendMessage::NewItem {
            item: preview(9, "https://example.com", ClipboardContentType::Url, 77),
        },
        BackendMessage::ClipboardSet,
        BackendMessage::HistoryCleared,
        BackendMessage::Error {
            message: String::from("No clipboard item found with ID: 7"),
        },
    ];
    for m in messages {
        let line = encode_backend_message(&m);
        let back = parse_backend_message(&line);
        assert_eq!(back, Some(m));
    }
}

#[test]
fn launcher_round_trip_all_variants() {
    for m in [LauncherMessage::ShowOverlay, LauncherMessage::HideOverlay] {
        let line = encode_launcher_message(&m);
        assert_eq!(parse_launcher_message(&line), Some(m));
    }
}

#[test]
fn backend_exact_encoding_of_history() {
    let m = BackendMessage::History {
        items: vec![preview(5, "hi", ClipboardContentType::Text, 42)],
    };
    assert_eq!(
        encode_backend_message(&m),
        "{\"History\":{\"items\":[{\"item_id\":5,\"content_preview\":\"hi\",\"content_type\":\"Text\",\"timestamp\":42}]}}"
    );
}

#[test]
fn string_escapes_round_trip() {
    let tricky = "quote:\" backslash:\\ newline:\n tab:\t cr:\r bell:\u{7} del-ish:\u{1f} ünïcode 🖼️";
    let m = BackendMessage::Error {
        message: String::from(tricky),
    };
    let line = encode_backend_message(&m);
    assert!(!line.contains('\n'));
    assert_eq!(parse_backend_message(&line), Some(m));
}

#[test]
fn malformed_lines_rejected() {
    assert_eq!(parse_frontend_message(""), None);
    assert_eq!(parse_frontend_message("GetHistory"), None);
    assert_eq!(parse_frontend_message("\"GetHistory\" "), None);
    assert_eq!(parse_frontend_message("{\"SetClipboardById\":{\"id\":01}}"), None);
    assert_eq!(parse_frontend_message("{\"SetClipboardById\":{\"id\":-3}}"), None);
    assert_eq!(
        parse_frontend_message("{\"SetClipboardById\":{\"id\":99999999999999999999999}}"),
        None
    );
    assert_eq!(parse_backend_message("{\"History\":{\"items\":[}}"), None);
    assert_eq!(parse_backend_message("\"ClipboardSet"), None);
    assert_eq!(parse_launcher_message("\"showoverlay\""), None);
}

#[test]
fn encoding_matches_independent_json_parser() {
    let m = BackendMessage::History {
        items: vec![
            preview(3, "he said \"hi\"\n", ClipboardContentType::Text, 99),
            preview(4, "/etc/hosts", ClipboardContentType::File, 100),
        ],
    };
    let line = encode_backend_message(&m);
    let value: serde_json::Value = serde_json::from_str(&line).unwrap();
    let items = value
        .get("History")
        .and_then(|h| h.get("items"))
        .and_then(|i| i.as_array())
        .unwrap();
    assert_eq!(items.len(), 2);
    assert_eq!(items[0].get("item_id").and_then(|v| v.as_u64()), Some(3));
    assert_eq!(
        items[0].get("content_preview").and_then(|v| v.as_str()),
        Some("he said \"hi\"\n")
    );
    assert_eq!(
        items[0].get("content_type").and_then(|v| v.as_str()),
        Some("Text")
    );
    assert_eq!(items[1].get("timestamp").and_then(|v| v.as_u64()), Some(100));
}

#[test]
fn independent_json_encoder_output_parses() {
    // Build the request with serde_json's API and check our parser reads it,
    // since serde_json's compact form is the canonical one.
    let mut id_obj = serde_json::Map::new();
    id_obj.insert(String::from("id"), serde_json::Value::from(23u64));
    let mut req = serde_json::Map::new();
    req.insert(
        String::from("SetClipboardById"),
        serde_json::Value::Object(id_obj),
    );
    let line = serde_json::to_string(&serde_json::Value::Object(req)).unwrap();
    assert_eq!(
        parse_frontend_message(&line),
        Some(FrontendMessage::SetClipboardById { id: 23 })
    );
    let control_string = serde_json::to_string(&serde_json::Value::from("a\u{1b}b\u{8}c")).unwrap();
    let error_line = format!("{{\"Error\":{{\"message\":{}}}}}", control_string);
    assert_eq!(
        parse_backend_message(&error_line),
        Some(BackendMessage::Error {
            message: String::from("a\u{1b}b\u{8}c")
        })
    );
}
