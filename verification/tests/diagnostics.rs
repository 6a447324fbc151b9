use ste_lib::buffer::Severity;
use ste_lib::codec::Method;
use ste_lib::decode::{handle_message, RoutedEvent};
use ste_lib::lsp::{LspOutput, LspSystem};
use ste_lib::lsp_ext::InlayKind;
use ste_lib::router::DocStore;

fn diag(message: &str, sev: u64) -> String {
    format!(
        "{{\"range\":{{\"start\":{{\"line\":0,\"character\":0}},\"end\":{{\"line\":0,\"character\":1}}}},\"severity\":{},\"message\":\"{}\"}}",
        sev, message
    )
}

fn diag_related(message: &str, target_uri: &str) -> String {
    format!(
        "{{\"range\":{{\"start\":{{\"line\":1,\"character\":0}},\"end\":{{\"line\":1,\"character\":2}}}},\"message\":\"{}\",\"relatedInformation\":[{{\"location\":{{\"uri\":\"{}\",\"range\":{{\"start\":{{\"line\":0,\"character\":0}},\"end\":{{\"line\":0,\"character\":0}}}}}},\"message\":\"here\"}}]}}",
        message, target_uri
    )
}

fn publish(uri: &str, diags: &[String]) -> String {
    format!(
        "{{\"jsonrpc\":\"2.0\",\"method\":\"textDocument/publishDiagnostics\",\"params\":{{\"uri\":\"{}\",\"diagnostics\":[{}]}}}}",
        uri,
        diags.join(",")
    )
}

#[test]
fn diagnostics_replace_wholesale() {
    let mut sys = LspSystem::new();
    let mut store = DocStore::new();
    let uri = String::from("file:///a.rs");
    store.open_doc(uri.clone());

    let batch1 = publish("file:///a.rs", &[diag("one", 1), diag("two", 2)]);
    let events = handle_message(&mut sys, &mut store, &batch1);
    assert_eq!(events.len(), 1);
    assert!(matches!(
        &events[0],
        RoutedEvent::Output { output: LspOutput::Diagnostics, .. }
    ));
    let got = store.diagnostics_of(&uri).unwrap();
    assert_eq!(got.len(), 2);
    assert_eq!(got[0].message, "one");
    assert_eq!(got[0].severity, Severity::Error);
    assert_eq!(got[1].message, "two");
    assert_eq!(got[1].severity, Severity::Warning);

    // The next batch replaces, never merges.
    let batch2 = publish("file:///a.rs", &[diag("three", 4)]);
    handle_message(&mut sys, &mut store, &batch2);
    let got = store.diagnostics_of(&uri).unwrap();
    assert_eq!(got.len(), 1);
    assert_eq!(got[0].message, "three");
    assert_eq!(got[0].severity, Severity::Hint);
}

#[test]
fn missing_severity_counts_as_error() {
    let mut sys = LspSystem::new();
    let mut store = DocStore::new();
    let uri = String::from("file:///a.rs");
    store.open_doc(uri.clone());
    let d = "{\"range\":{\"start\":{\"line\":0,\"character\":0},\"end\":{\"line\":0,\"character\":0}},\"message\":\"m\"}";
    let batch = publish("file:///a.rs", &[d.to_string()]);
    handle_message(&mut sys, &mut store, &batch);
    let got = store.diagnostics_of(&uri).unwrap();
    assert_eq!(got[0].severity, Severity::Error);
}

#[test]
fn related_location_routes_to_other_document() {
    // The batch arrives for document A, but one diagnostic points at B via
    // related information: it lands on B, and A — which had diagnostics and
    // gets none effectively addressed to it — keeps them untouched.
    let mut sys = LspSystem::new();
    let mut store = DocStore::new();
    let a = String::from("file:///a.rs");
    let b = String::from("file:///b.rs");
    store.open_doc(a.clone());
    store.open_doc(b.clone());

    let seed = publish("file:///a.rs", &[diag("old-on-a", 1)]);
    handle_message(&mut sys, &mut store, &seed);
    assert_eq!(store.diagnostics_of(&a).unwrap().len(), 1);

    let batch = publish("file:///a.rs", &[diag_related("belongs-to-b", "file:///b.rs")]);
    handle_message(&mut sys, &mut store, &batch);

    let on_b = store.diagnostics_of(&b).unwrap();
    assert_eq!(on_b.len(), 1);
    assert_eq!(on_b[0].message, "belongs-to-b");

    let on_a = store.diagnostics_of(&a).unwrap();
    assert_eq!(on_a.len(), 1);
    assert_eq!(on_a[0].message, "old-on-a");
}

#[test]
fn multi_document_batch_clears_each_once() {
    let mut sys = LspSystem::new();
    let mut store = DocStore::new();
    let a = String::from("file:///a.rs");
    let b = String::from("file:///b.rs");
    store.open_doc(a.clone());
    store.open_doc(b.clone());
    let seed = publish("file:///b.rs", &[diag("stale-b", 1)]);
    handle_message(&mut sys, &mut store, &seed);

    // One batch, nominally for A, carrying two for A and two for B: each
    // document ends with exactly the batch's diagnostics for it.
    let batch = publish(
        "file:///a.rs",
        &[
            diag("a1", 1),
            diag_related("b1", "file:///b.rs"),
            diag("a2", 2),
            diag_related("b2", "file:///b.rs"),
        ],
    );
    handle_message(&mut sys, &mut store, &batch);
    let on_a = store.diagnostics_of(&a).unwrap();
    assert_eq!(on_a.len(), 2);
    assert_eq!(on_a[0].message, "a1");
    assert_eq!(on_a[1].message, "a2");
    let on_b = store.diagnostics_of(&b).unwrap();
    assert_eq!(on_b.len(), 2);
    assert_eq!(on_b[0].message, "b1");
    assert_eq!(on_b[1].message, "b2");
}

#[test]
fn unknown_document_diagnostics_are_dropped() {
    let mut sys = LspSystem::new();
    let mut store = DocStore::new();
    store.open_doc(String::from("file:///a.rs"));
    let batch = publish("file:///other.rs", &[diag("nowhere", 1)]);
    let events = handle_message(&mut sys, &mut store, &batch);
    assert_eq!(events.len(), 1);
    assert!(store
        .diagnostics_of(&String::from("file:///a.rs"))
        .unwrap()
        .is_empty());
}

#[test]
fn inlay_hints_are_anchored_and_replaced() {
    let mut sys = LspSystem::new();
    let mut store = DocStore::new();
    let uri = String::from("file:///a.rs");
    store.open_doc(uri.clone());

    let id = sys.new_request(Method::InlayHints, uri.clone());
    let response = format!(
        "{{\"jsonrpc\":\"2.0\",\"id\":{},\"result\":[{{\"range\":{{\"start\":{{\"line\":2,\"character\":4}},\"end\":{{\"line\":2,\"character\":9}}}},\"kind\":\"TypeHint\",\"label\":\": u32\"}},{{\"range\":{{\"start\":{{\"line\":3,\"character\":1}},\"end\":{{\"line\":3,\"character\":2}}}},\"kind\":\"ParameterHint\",\"label\":\"x\"}}]}}",
        id
    );
    let events = handle_message(&mut sys, &mut store, &response);
    assert_eq!(events.len(), 1);
    assert!(matches!(
        &events[0],
        RoutedEvent::Output { output: LspOutput::InlayHints, .. }
    ));
    let hints = store.inlay_hints_of(&uri).unwrap();
    assert_eq!(hints.len(), 2);
    // A type hint anchors at the end of its range, a parameter hint at the
    // start.
    assert_eq!(hints[0].hint.kind, InlayKind::TypeHint);
    assert_eq!(hints[0].anchor.line, 2);
    assert_eq!(hints[0].anchor.character, 9);
    assert_eq!(hints[1].hint.kind, InlayKind::ParameterHint);
    assert_eq!(hints[1].anchor.line, 3);
    assert_eq!(hints[1].anchor.character, 1);

    // A later result replaces the hints wholesale.
    let id = sys.new_request(Method::InlayHints, uri.clone());
    let response = format!("{{\"jsonrpc\":\"2.0\",\"id\":{},\"result\":[]}}", id);
    handle_message(&mut sys, &mut store, &response);
    assert!(store.inlay_hints_of(&uri).unwrap().is_empty());
}
