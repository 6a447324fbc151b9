use ste_lib::codec::Method;
use ste_lib::decode::{handle_message, RoutedEvent};
use ste_lib::lsp::{
    CompletionData, LspClient, LspInput, LspLang, LspOutput, LspSystem,
};
use ste_lib::router::DocStore;

fn open_intent(id: u32, uri: &str, text: &str) -> LspInput {
    LspInput::OpenFile {
        buffer_id: id,
        uri: String::from(uri),
        content: String::from(text),
    }
}

#[test]
fn request_ids_distinct_and_increasing() {
    let mut sys = LspSystem::new();
    let mut ids = Vec::new();
    let mut i = 0;
    while i < 16 {
        ids.push(sys.new_request(Method::Completion, String::from("file:///x")));
        i += 1;
    }
    for a in 0..ids.len() {
        for b in (a + 1)..ids.len() {
            assert_ne!(ids[a], ids[b]);
            assert!(ids[a] < ids[b]);
        }
    }
    // The sentinel never collides with an issued ID.
    assert!(!ids.contains(&0));
}

#[test]
fn get_request_removes_once() {
    let mut sys = LspSystem::new();
    let id = sys.new_request(Method::InlayHints, String::from("file:///x"));
    let first = sys.get_request(id);
    assert!(first.is_some());
    assert_eq!(first.unwrap().method, Method::InlayHints);
    assert!(sys.get_request(id).is_none());
    assert!(sys.get_request(999).is_none());
}

#[test]
fn open_sends_did_open_at_version_zero() {
    let mut sys = LspSystem::new();
    let mut client = LspClient::new(LspLang::Json);
    let out = client.process_input(&mut sys, open_intent(1, "file:///d.json", "{}"));
    assert_eq!(out.len(), 1);
    assert_eq!(out[0].method, Method::DidOpen);
    assert!(out[0].id.is_none());
    assert!(out[0].params.contains("\"version\":0"));
}

#[test]
fn open_for_rust_also_requests_inlay_hints() {
    let mut sys = LspSystem::new();
    let mut client = LspClient::new(LspLang::Rust);
    let out = client.process_input(&mut sys, open_intent(1, "file:///d.rs", "fn f() {}"));
    assert_eq!(out.len(), 2);
    assert_eq!(out[0].method, Method::DidOpen);
    assert_eq!(out[1].method, Method::InlayHints);
    assert!(out[1].id.is_some());
}

#[test]
fn version_counts_flushes_not_edits() {
    // Version monotonicity: three edits move the version not at all; each
    // completion or save flush moves it by one.
    let mut sys = LspSystem::new();
    let mut client = LspClient::new(LspLang::Json);
    client.process_input(&mut sys, open_intent(1, "file:///d.json", "{}"));
    for text in ["a", "ab", "abc"] {
        let out = client.process_input(
            &mut sys,
            LspInput::Edit { buffer_id: 1, text: String::from(text) },
        );
        assert!(out.is_empty());
    }
    let out = client.process_input(
        &mut sys,
        LspInput::RequestCompletion { buffer_id: 1, row: 0, col: 3 },
    );
    assert_eq!(out.len(), 2);
    assert_eq!(out[0].method, Method::DidChange);
    assert!(out[0].params.contains("\"version\":1"));
    assert!(out[0].params.contains("\"text\":\"abc\""));
    let out = client.process_input(
        &mut sys,
        LspInput::SavedFile { uri: String::from("file:///d.json"), content: String::from("abc") },
    );
    assert_eq!(out.len(), 2);
    assert_eq!(out[0].method, Method::DidChange);
    assert!(out[0].params.contains("\"version\":2"));
    assert_eq!(out[1].method, Method::DidSave);
}

#[test]
fn resolve_forwards_item_unchanged() {
    let mut sys = LspSystem::new();
    let mut client = LspClient::new(LspLang::Rust);
    let raw = "{\"label\":\"foo\",\"data\":{\"x\":3}}";
    let out = client.process_input(
        &mut sys,
        LspInput::RequestCompletionResolve { buffer_id: 1, item: String::from(raw) },
    );
    assert_eq!(out.len(), 1);
    assert_eq!(out[0].method, Method::ResolveCompletionItem);
    assert_eq!(out[0].params, raw);
}

#[test]
fn close_sends_did_close_and_drops_state() {
    let mut sys = LspSystem::new();
    let mut client = LspClient::new(LspLang::Json);
    client.process_input(&mut sys, open_intent(1, "file:///d.json", "{}"));
    let out = client.process_input(
        &mut sys,
        LspInput::CloseFile { uri: String::from("file:///d.json") },
    );
    assert_eq!(out.len(), 1);
    assert_eq!(out[0].method, Method::DidClose);
    assert_eq!(client.doc_version(1), None);
}

#[test]
fn unsupported_language_gets_no_hints() {
    let mut sys = LspSystem::new();
    let mut client = LspClient::new(LspLang::PlainText);
    let out = client.process_input(
        &mut sys,
        LspInput::InlayHints { uri: String::from("file:///d.txt") },
    );
    assert!(out.is_empty());
}

#[test]
fn end_to_end_completion_scenario() {
    // Open at version 0, edit (cached only), request completion at (0, 5):
    // the dispatcher sends exactly one didChange (version 1) and one
    // completion request; the router, on the matching response, emits
    // exactly one completion list for the document.
    let mut sys = LspSystem::new();
    let mut store = DocStore::new();
    let mut client = LspClient::new(LspLang::Json);
    store.open_doc(String::from("file:///d.json"));

    let out = client.process_input(&mut sys, open_intent(7, "file:///d.json", ""));
    assert_eq!(out.len(), 1);
    assert_eq!(out[0].method, Method::DidOpen);
    assert_eq!(client.doc_version(7), Some(0));

    let out = client.process_input(
        &mut sys,
        LspInput::Edit { buffer_id: 7, text: String::from("hello") },
    );
    assert!(out.is_empty());
    assert_eq!(client.doc_version(7), Some(0));

    let out = client.process_input(
        &mut sys,
        LspInput::RequestCompletion { buffer_id: 7, row: 0, col: 5 },
    );
    assert_eq!(out.len(), 2);
    assert_eq!(out[0].method, Method::DidChange);
    assert!(out[0].params.contains("\"version\":1"));
    assert_eq!(out[1].method, Method::Completion);
    assert!(out[1].params.contains("\"line\":0"));
    assert!(out[1].params.contains("\"character\":5"));
    let id = out[1].id.unwrap();

    let response = format!(
        "{{\"jsonrpc\":\"2.0\",\"id\":{},\"result\":[{{\"label\":\"hello_world\",\"insertText\":\"hello_world\"}}]}}",
        id
    );
    let events = handle_message(&mut sys, &mut store, &response);
    assert_eq!(events.len(), 1);
    match &events[0] {
        RoutedEvent::Output { uri, output } => {
            assert_eq!(uri, "file:///d.json");
            match output {
                LspOutput::Completion(list) => {
                    assert_eq!(list.len(), 1);
                    assert_eq!(list[0].label, "hello_world");
                    match &list[0].data {
                        CompletionData::Simple(text) => assert_eq!(text, "hello_world"),
                        _ => panic!("expected a simple insertion"),
                    }
                }
                _ => panic!("expected a completion list"),
            }
        }
        _ => panic!("expected a routed output"),
    }
    // The registry entry was consumed: replaying the response is dropped.
    let events = handle_message(&mut sys, &mut store, &response);
    assert!(events.is_empty());
}

#[test]
fn init_response_signals_the_gate() {
    let mut sys = LspSystem::new();
    let mut store = DocStore::new();
    let events = handle_message(
        &mut sys,
        &mut store,
        "{\"jsonrpc\":\"2.0\",\"id\":0,\"result\":{\"capabilities\":{}}}",
    );
    assert_eq!(events.len(), 1);
    assert!(matches!(events[0], RoutedEvent::InitAck));
}

#[test]
fn unmatched_response_is_dropped() {
    let mut sys = LspSystem::new();
    let mut store = DocStore::new();
    let events = handle_message(
        &mut sys,
        &mut store,
        "{\"jsonrpc\":\"2.0\",\"id\":55,\"result\":[]}",
    );
    assert!(events.is_empty());
}

#[test]
fn garbage_and_unknown_notifications_are_absorbed() {
    let mut sys = LspSystem::new();
    let mut store = DocStore::new();
    assert!(handle_message(&mut sys, &mut store, "not json at all").is_empty());
    assert!(handle_message(
        &mut sys,
        &mut store,
        "{\"jsonrpc\":\"2.0\",\"method\":\"window/logMessage\",\"params\":{}}"
    )
    .is_empty());
}

#[test]
fn both_completion_shapes_normalize_identically() {
    // A bare-array response and an {isIncomplete, items} response with the
    // same items yield the same internal completion list.
    let items = "[{\"label\":\"a\",\"insertText\":\"a\"},{\"label\":\"b\",\"textEdit\":{\"range\":{\"start\":{\"line\":0,\"character\":0},\"end\":{\"line\":0,\"character\":1}},\"newText\":\"b\"}}]";
    let mut lists = Vec::new();
    for result in [
        items.to_string(),
        format!("{{\"isIncomplete\":false,\"items\":{}}}", items),
    ] {
        let mut sys = LspSystem::new();
        let mut store = DocStore::new();
        let id = sys.new_request(Method::Completion, String::from("file:///d.rs"));
        let response = format!("{{\"jsonrpc\":\"2.0\",\"id\":{},\"result\":{}}}", id, result);
        let events = handle_message(&mut sys, &mut store, &response);
        assert_eq!(events.len(), 1);
        match events.into_iter().next().unwrap() {
            RoutedEvent::Output { output: LspOutput::Completion(list), .. } => lists.push(list),
            _ => panic!("expected a completion list"),
        }
    }
    let a = &lists[0];
    let b = &lists[1];
    assert_eq!(a.len(), b.len());
    for (x, y) in a.iter().zip(b.iter()) {
        assert_eq!(x.label, y.label);
        match (&x.data, &y.data) {
            (CompletionData::Simple(s1), CompletionData::Simple(s2)) => assert_eq!(s1, s2),
            (CompletionData::Edits(e1), CompletionData::Edits(e2)) => {
                assert_eq!(e1.len(), e2.len());
                for (u, w) in e1.iter().zip(e2.iter()) {
                    assert_eq!(u.new_text, w.new_text);
                    assert_eq!(u.range, w.range);
                }
            }
            _ => panic!("shapes disagree"),
        }
    }
}

#[test]
fn items_without_insertion_or_edit_are_dropped() {
    let mut sys = LspSystem::new();
    let mut store = DocStore::new();
    let id = sys.new_request(Method::Completion, String::from("file:///d.rs"));
    let response = format!(
        "{{\"jsonrpc\":\"2.0\",\"id\":{},\"result\":[{{\"label\":\"bare\"}},{{\"label\":\"ok\",\"insertText\":\"ok\"}}]}}",
        id
    );
    let events = handle_message(&mut sys, &mut store, &response);
    match &events[0] {
        RoutedEvent::Output { output: LspOutput::Completion(list), .. } => {
            assert_eq!(list.len(), 1);
            assert_eq!(list[0].label, "ok");
        }
        _ => panic!("expected a completion list"),
    }
}

#[test]
fn client_registry_get() {
    let mut sys = LspSystem::new();
    let root = String::from("file:///workspace");
    // No command configured: unavailable, nothing registered.
    assert_eq!(
        sys.get(&root, LspLang::PlainText, false),
        ste_lib::lsp::ClientAccess::Unavailable
    );
    assert_eq!(sys.client_count(), 0);
    // First use of a configured language registers a slot.
    assert_eq!(
        sys.get(&root, LspLang::Rust, true),
        ste_lib::lsp::ClientAccess::Started(0)
    );
    // The same pair afterwards finds the existing slot.
    assert_eq!(
        sys.get(&root, LspLang::Rust, true),
        ste_lib::lsp::ClientAccess::Existing(0)
    );
    // Another language under the same root is a separate client.
    assert_eq!(
        sys.get(&root, LspLang::Python, true),
        ste_lib::lsp::ClientAccess::Started(1)
    );
    // Another root is a separate client too.
    let other = String::from("file:///elsewhere");
    assert_eq!(
        sys.get(&other, LspLang::Rust, true),
        ste_lib::lsp::ClientAccess::Started(2)
    );
    assert_eq!(sys.client_count(), 3);
}

#[test]
fn spawn_failure_leaves_no_client_registered() {
    let mut sys = LspSystem::new();
    let root = String::from("file:///workspace");
    assert_eq!(
        sys.get(&root, LspLang::Rust, true),
        ste_lib::lsp::ClientAccess::Started(0)
    );
    // The caller could not start the process: it evicts the slot, and the
    // next request for the pair starts over.
    sys.remove_client(&root, LspLang::Rust);
    assert_eq!(sys.client_count(), 0);
    assert_eq!(
        sys.get(&root, LspLang::Rust, true),
        ste_lib::lsp::ClientAccess::Started(0)
    );
    // Evicting an unknown pair changes nothing.
    sys.remove_client(&String::from("file:///other"), LspLang::Json);
    assert_eq!(sys.client_count(), 1);
}
