use termite_core::clipboard::{clipboard_kind, clipboard_store_payload, clipboard_write, ClipboardKind};
use termite_core::terminal::ClipboardStore;

#[test]
fn clipboard_payload_decodes_to_text() {
    assert_eq!(
        clipboard_store_payload(b'c', b"aGVsbG8="),
        Some((ClipboardKind::Regular, b"hello".to_vec()))
    );
}

#[test]
fn selector_p_names_the_primary_selection() {
    assert_eq!(
        clipboard_store_payload(b'p', b"aGVsbG8="),
        Some((ClipboardKind::Primary, b"hello".to_vec()))
    );
    assert_eq!(clipboard_kind(b's'), ClipboardKind::Regular);
}

#[test]
fn clipboard_requests_without_text_are_dropped() {
    assert_eq!(clipboard_store_payload(b'c', b"!!!"), None);
    assert_eq!(clipboard_store_payload(b'c', b""), None);
    assert_eq!(clipboard_store_payload(b'c', b"/w=="), None);
}

#[test]
fn clipboard_write_reads_a_terminal_request() {
    let store = ClipboardStore {
        clipboard: b'c',
        base64: b"dGV4dA==".to_vec(),
    };
    assert_eq!(clipboard_write(&store), Some((ClipboardKind::Regular, b"text".to_vec())));
}
