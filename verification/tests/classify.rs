//! Content classification and labels.

use cursor_clip::data::ClipboardContentType;

#[test]
fn classify_url() {
    assert_eq!(
        ClipboardContentType::type_from_preview("https://example.com"),
        ClipboardContentType::Url
    );
    assert_eq!(
        ClipboardContentType::type_from_preview("http://plain.example"),
        ClipboardContentType::Url
    );
}

#[test]
fn classify_code() {
    assert_eq!(
        ClipboardContentType::type_from_preview("impl Foo for Bar {}"),
        ClipboardContentType::Code
    );
    assert_eq!(
        ClipboardContentType::type_from_preview("fn main() {}"),
        ClipboardContentType::Code
    );
    assert_eq!(
        ClipboardContentType::type_from_preview("struct Point;"),
        ClipboardContentType::Code
    );
}

#[test]
fn classify_file() {
    assert_eq!(
        ClipboardContentType::type_from_preview("/etc/passwd"),
        ClipboardContentType::File
    );
}

#[test]
fn classify_password() {
    assert_eq!(
        ClipboardContentType::type_from_preview("Xk7!mP9q"),
        ClipboardContentType::Password
    );
}

#[test]
fn classify_text() {
    assert_eq!(
        ClipboardContentType::type_from_preview("just some words"),
        ClipboardContentType::Text
    );
    assert_eq!(
        ClipboardContentType::type_from_preview(""),
        ClipboardContentType::Text
    );
}

#[test]
fn classify_priority_and_edges() {
    // A URL also contains '/', but the URL rule wins.
    assert_eq!(
        ClipboardContentType::type_from_preview("https://a/b"),
        ClipboardContentType::Url
    );
    // A slash with a space is not a file path.
    assert_eq!(
        ClipboardContentType::type_from_preview("a / b"),
        ClipboardContentType::Text
    );
    // 49 characters with a special still count as a password...
    let pw = format!("{}!", "a".repeat(48));
    assert_eq!(
        ClipboardContentType::type_from_preview(&pw),
        ClipboardContentType::Password
    );
    // ...but 50 no longer do.
    let too_long = format!("{}!", "a".repeat(49));
    assert_eq!(
        ClipboardContentType::type_from_preview(&too_long),
        ClipboardContentType::Text
    );
    // The bound counts UTF-8 bytes, not characters: 31 characters but 61
    // bytes is already too long for a password.
    let wide = format!("{}!", "ä".repeat(30));
    assert_eq!(
        ClipboardContentType::type_from_preview(&wide),
        ClipboardContentType::Text
    );
}

#[test]
fn labels_and_icons() {
    assert_eq!(ClipboardContentType::Text.as_str(), "Text");
    assert_eq!(ClipboardContentType::Url.as_str(), "Url");
    assert_eq!(ClipboardContentType::Code.as_str(), "Code");
    assert_eq!(ClipboardContentType::Password.as_str(), "Password");
    assert_eq!(ClipboardContentType::File.as_str(), "File");
    assert_eq!(ClipboardContentType::Image.as_str(), "Image");
    assert_eq!(ClipboardContentType::Other.as_str(), "Other");
    assert_eq!(ClipboardContentType::Image.icon(), "🖼️");
    assert_eq!(ClipboardContentType::Text.icon(), "📝");
}
