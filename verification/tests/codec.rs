use ste_lib::codec::{
    completion_params, did_change_params, did_open_params, did_save_params, encode_notification,
    encode_request, initialize_params, text_document_params, Method,
};
use ste_lib::lsp::{initialize_request, initialized_notification, OutMessage};

#[test]
fn request_envelope_exact() {
    let text = encode_request(Method::Completion, "{\"a\":1}", 42);
    assert_eq!(
        text,
        "{\"jsonrpc\":\"2.0\",\"method\":\"textDocument/completion\",\"params\":{\"a\":1},\"id\":42}"
    );
}

#[test]
fn notification_envelope_omits_id() {
    let text = encode_notification(Method::DidClose, "{}");
    assert_eq!(
        text,
        "{\"jsonrpc\":\"2.0\",\"method\":\"textDocument/didClose\",\"params\":{}}"
    );
    assert!(!text.contains("\"id\""));
}

#[test]
fn did_open_escapes_text() {
    // The document text holds a quote and a newline; the codec must hand
    // back serde_json's escaped form, not the raw characters.
    let params = did_open_params("file:///a.rs", "rust", "a\"b\nc");
    assert_eq!(
        params,
        "{\"textDocument\":{\"uri\":\"file:///a.rs\",\"languageId\":\"rust\",\"version\":0,\"text\":\"a\\\"b\\nc\"}}"
    );
}

#[test]
fn did_change_exact() {
    let params = did_change_params("file:///a.rs", 7, "fn main() {}");
    assert_eq!(
        params,
        "{\"textDocument\":{\"uri\":\"file:///a.rs\",\"version\":7},\"contentChanges\":[{\"text\":\"fn main() {}\"}]}"
    );
}

#[test]
fn did_save_exact() {
    let params = did_save_params("file:///a.rs", "x");
    assert_eq!(
        params,
        "{\"textDocument\":{\"uri\":\"file:///a.rs\"},\"text\":\"x\"}"
    );
}

#[test]
fn completion_params_exact() {
    let params = completion_params("file:///a.rs", 0, 5);
    assert_eq!(
        params,
        "{\"textDocument\":{\"uri\":\"file:///a.rs\"},\"position\":{\"line\":0,\"character\":5},\"context\":{\"triggerKind\":1}}"
    );
}

#[test]
fn text_document_params_exact() {
    assert_eq!(
        text_document_params("file:///p"),
        "{\"textDocument\":{\"uri\":\"file:///p\"}}"
    );
}

#[test]
fn initialize_request_shape() {
    let params = initialize_params(1234, "file:///root");
    assert!(params.starts_with("{\"processId\":1234,\"rootUri\":\"file:///root\",\"capabilities\":"));
    assert!(params.contains("\"didSave\":true"));
    assert!(params.contains("\"additionalTextEdits\""));
    assert!(params.contains("\"relatedInformation\":true"));
    assert!(params.ends_with(",\"trace\":\"verbose\"}"));
    // The whole initialize message goes out under the reserved sentinel ID.
    let msg = initialize_request(1234, "file:///root");
    assert_eq!(msg.id, Some(0));
    let encoded = msg.encode();
    assert!(encoded.contains("\"method\":\"initialize\""));
    assert!(encoded.ends_with(",\"id\":0}"));
    // And it is valid JSON.
    let parsed: serde_json::Value = serde_json::from_str(&encoded).unwrap();
    assert_eq!(parsed["params"]["processId"], serde_json::Value::from(1234u64));
}

#[test]
fn initialized_notification_shape() {
    let msg = initialized_notification();
    assert_eq!(msg.encode(), "{\"jsonrpc\":\"2.0\",\"method\":\"initialized\",\"params\":{}}");
}

#[test]
fn to_wire_frames_the_envelope() {
    let msg = OutMessage {
        method: Method::DidClose,
        params: String::from("{}"),
        id: None,
    };
    let wire = msg.to_wire();
    let text = msg.encode();
    let mut expected = format!("Content-Length: {}\r\n\r\n", text.len()).into_bytes();
    expected.extend_from_slice(text.as_bytes());
    assert_eq!(wire, expected);
}

#[test]
fn large_ids_render_in_full() {
    let text = encode_request(Method::InlayHints, "{}", u64::MAX);
    assert!(text.ends_with(",\"id\":18446744073709551615}"));
}
