//! RPC codec: the JSON-RPC 2.0 envelope and the parameter objects of every
//! method this client speaks.  Requests carry a numeric `id`; notifications
//! omit the field.  Each builder's contract gives the produced text
//! character for character, with `json_string_encoding` standing for the
//! escaped string literals.

use crate::json::{json_quote, json_string_encoding};
use vstd::prelude::*;
use vstd::string::StringExecFns;

verus! {

/// The methods this client sends.
#[derive(Clone, Copy, Debug, PartialEq, Eq, Structural)]
pub enum Method {
    Initialize,
    Initialized,
    DidOpen,
    DidChange,
    DidSave,
    DidClose,
    Completion,
    ResolveCompletionItem,
    InlayHints,
}

impl Method {
    /// The method name on the wire.
    pub open spec fn spec_name(self) -> Seq<char> {
        match self {
            Method::Initialize => "initialize"@,
            Method::Initialized => "initialized"@,
            Method::DidOpen => "textDocument/didOpen"@,
            Method::DidChange => "textDocument/didChange"@,
            Method::DidSave => "textDocument/didSave"@,
            Method::DidClose => "textDocument/didClose"@,
            Method::Completion => "textDocument/completion"@,
            Method::ResolveCompletionItem => "completionItem/resolve"@,
            Method::InlayHints => "rust-analyzer/inlayHints"@,
        }
    }

    pub fn name(self) -> (r: &'static str)
        ensures
            r@ == self.spec_name(),
    {
        match self {
            Method::Initialize => "initialize",
            Method::Initialized => "initialized",
            Method::DidOpen => "textDocument/didOpen",
            Method::DidChange => "textDocument/didChange",
            Method::DidSave => "textDocument/didSave",
            Method::DidClose => "textDocument/didClose",
            Method::Completion => "textDocument/completion",
            Method::ResolveCompletionItem => "completionItem/resolve",
            Method::InlayHints => "rust-analyzer/inlayHints",
        }
    }
}

// ---------------------------------------------------------------------------
// Decimal rendering into text.
// ---------------------------------------------------------------------------

pub open spec fn digit_char(d: nat) -> char {
    if d == 0 {
        '0'
    } else if d == 1 {
        '1'
    } else if d == 2 {
        '2'
    } else if d == 3 {
        '3'
    } else if d == 4 {
        '4'
    } else if d == 5 {
        '5'
    } else if d == 6 {
        '6'
    } else if d == 7 {
        '7'
    } else if d == 8 {
        '8'
    } else {
        '9'
    }
}

/// The decimal rendering of `n`, most significant digit first.
pub open spec fn dec_chars(n: nat) -> Seq<char>
    decreases n,
{
    if n < 10 {
        seq![digit_char(n)]
    } else {
        dec_chars(n / 10).push(digit_char(n % 10))
    }
}

fn digit_str(d: u64) -> (r: &'static str)
    requires
        d < 10,
    ensures
        r@ == seq![digit_char(d as nat)],
{
    proof {
        reveal_strlit("0");
        reveal_strlit("1");
        reveal_strlit("2");
        reveal_strlit("3");
        reveal_strlit("4");
        reveal_strlit("5");
        reveal_strlit("6");
        reveal_strlit("7");
        reveal_strlit("8");
        reveal_strlit("9");
    }
    match d {
        0 => "0",
        1 => "1",
        2 => "2",
        3 => "3",
        4 => "4",
        5 => "5",
        6 => "6",
        7 => "7",
        8 => "8",
        _ => "9",
    }
}

/// Appends the decimal rendering of `n` to `out`.
pub fn push_dec_chars(out: &mut String, n: u64)
    ensures
        final(out)@ == old(out)@ + dec_chars(n as nat),
    decreases n,
{
    if n < 10 {
        out.append(digit_str(n));
        assert(out@ =~= old(out)@ + dec_chars(n as nat));
    } else {
        push_dec_chars(out, n / 10);
        out.append(digit_str(n % 10));
        assert(out@ =~= old(out)@ + dec_chars(n as nat));
    }
}

// ---------------------------------------------------------------------------
// The JSON-RPC envelope.
// ---------------------------------------------------------------------------

/// A request: `{"jsonrpc":"2.0","method":"<m>","params":<p>,"id":<id>}`.
pub open spec fn spec_request(method: Seq<char>, params: Seq<char>, id: nat) -> Seq<char> {
    "{\"jsonrpc\":\"2.0\",\"method\":\""@ + method + "\",\"params\":"@ + params + ",\"id\":"@
        + dec_chars(id) + "}"@
}

/// A notification: the same envelope without the `id` field.
pub open spec fn spec_notification(method: Seq<char>, params: Seq<char>) -> Seq<char> {
    "{\"jsonrpc\":\"2.0\",\"method\":\""@ + method + "\",\"params\":"@ + params + "}"@
}

pub fn encode_request(method: Method, params: &str, id: u64) -> (r: String)
    ensures
        r@ == spec_request(method.spec_name(), params@, id as nat),
{
    let mut out = String::from_str("{\"jsonrpc\":\"2.0\",\"method\":\"");
    out.append(method.name());
    out.append("\",\"params\":");
    out.append(params);
    out.append(",\"id\":");
    push_dec_chars(&mut out, id);
    out.append("}");
    assert(out@ =~= spec_request(method.spec_name(), params@, id as nat));
    out
}

pub fn encode_notification(method: Method, params: &str) -> (r: String)
    ensures
        r@ == spec_notification(method.spec_name(), params@),
{
    let mut out = String::from_str("{\"jsonrpc\":\"2.0\",\"method\":\"");
    out.append(method.name());
    out.append("\",\"params\":");
    out.append(params);
    out.append("}");
    assert(out@ =~= spec_notification(method.spec_name(), params@));
    out
}

// ---------------------------------------------------------------------------
// Parameter objects, one builder per method.
// ---------------------------------------------------------------------------

pub open spec fn spec_did_open_params(uri: Seq<char>, language_id: Seq<char>, text: Seq<char>)
    -> Seq<char> {
    "{\"textDocument\":{\"uri\":"@ + json_string_encoding(uri) + ",\"languageId\":"@
        + json_string_encoding(language_id) + ",\"version\":0,\"text\":"@
        + json_string_encoding(text) + "}}"@
}

/// `didOpen` carries the full text and version 0.
pub fn did_open_params(uri: &str, language_id: &str, text: &str) -> (r: String)
    ensures
        r@ == spec_did_open_params(uri@, language_id@, text@),
{
    let mut out = String::from_str("{\"textDocument\":{\"uri\":");
    out.append(json_quote(uri).as_str());
    out.append(",\"languageId\":");
    out.append(json_quote(language_id).as_str());
    out.append(",\"version\":0,\"text\":");
    out.append(json_quote(text).as_str());
    out.append("}}");
    assert(out@ =~= spec_did_open_params(uri@, language_id@, text@));
    out
}

pub open spec fn spec_did_change_params(uri: Seq<char>, version: nat, text: Seq<char>)
    -> Seq<char> {
    "{\"textDocument\":{\"uri\":"@ + json_string_encoding(uri) + ",\"version\":"@ + dec_chars(
        version,
    ) + "},\"contentChanges\":[{\"text\":"@ + json_string_encoding(text) + "}]}"@
}

/// `didChange` always replaces the whole document.
pub fn did_change_params(uri: &str, version: u64, text: &str) -> (r: String)
    ensures
        r@ == spec_did_change_params(uri@, version as nat, text@),
{
    let mut out = String::from_str("{\"textDocument\":{\"uri\":");
    out.append(json_quote(uri).as_str());
    out.append(",\"version\":");
    push_dec_chars(&mut out, version);
    out.append("},\"contentChanges\":[{\"text\":");
    out.append(json_quote(text).as_str());
    out.append("}]}");
    assert(out@ =~= spec_did_change_params(uri@, version as nat, text@));
    out
}

pub open spec fn spec_did_save_params(uri: Seq<char>, text: Seq<char>) -> Seq<char> {
    "{\"textDocument\":{\"uri\":"@ + json_string_encoding(uri) + "},\"text\":"@
        + json_string_encoding(text) + "}"@
}

pub fn did_save_params(uri: &str, text: &str) -> (r: String)
    ensures
        r@ == spec_did_save_params(uri@, text@),
{
    let mut out = String::from_str("{\"textDocument\":{\"uri\":");
    out.append(json_quote(uri).as_str());
    out.append("},\"text\":");
    out.append(json_quote(text).as_str());
    out.append("}");
    assert(out@ =~= spec_did_save_params(uri@, text@));
    out
}

pub open spec fn spec_text_document_params(uri: Seq<char>) -> Seq<char> {
    "{\"textDocument\":{\"uri\":"@ + json_string_encoding(uri) + "}}"@
}

/// The parameter object of `didClose` and of the inlay-hints request: just
/// the document.
pub fn text_document_params(uri: &str) -> (r: String)
    ensures
        r@ == spec_text_document_params(uri@),
{
    let mut out = String::from_str("{\"textDocument\":{\"uri\":");
    out.append(json_quote(uri).as_str());
    out.append("}}");
    assert(out@ =~= spec_text_document_params(uri@));
    out
}

pub open spec fn spec_completion_params(uri: Seq<char>, row: nat, col: nat) -> Seq<char> {
    "{\"textDocument\":{\"uri\":"@ + json_string_encoding(uri) + "},\"position\":{\"line\":"@
        + dec_chars(row) + ",\"character\":"@ + dec_chars(col)
        + "},\"context\":{\"triggerKind\":1}}"@
}

/// A completion request at (row, col), always explicitly invoked.
pub fn completion_params(uri: &str, row: u32, col: u32) -> (r: String)
    ensures
        r@ == spec_completion_params(uri@, row as nat, col as nat),
{
    let mut out = String::from_str("{\"textDocument\":{\"uri\":");
    out.append(json_quote(uri).as_str());
    out.append("},\"position\":{\"line\":");
    push_dec_chars(&mut out, row as u64);
    out.append(",\"character\":");
    push_dec_chars(&mut out, col as u64);
    out.append("},\"context\":{\"triggerKind\":1}}");
    assert(out@ =~= spec_completion_params(uri@, row as nat, col as nat));
    out
}

/// The capability set this client announces: completion items with resolve
/// support for additional edits, publish-diagnostics with tag support, and
/// synchronization with save notifications.
pub open spec fn spec_capabilities() -> Seq<char> {
    "{\"textDocument\":{\"synchronization\":{\"dynamicRegistration\":false,\"willSave\":false,\"willSaveWaitUntil\":false,\"didSave\":true},\"completion\":{\"dynamicRegistration\":false,\"completionItem\":{\"snippetSupport\":false,\"resolveSupport\":{\"properties\":[\"additionalTextEdits\"]}},\"contextSupport\":false},\"publishDiagnostics\":{\"relatedInformation\":true,\"tagSupport\":{\"valueSet\":[2,1]},\"versionSupport\":true,\"codeDescriptionSupport\":true,\"dataSupport\":true}}}"@
}

pub open spec fn spec_initialize_params(process_id: nat, root_uri: Seq<char>) -> Seq<char> {
    "{\"processId\":"@ + dec_chars(process_id) + ",\"rootUri\":"@ + json_string_encoding(root_uri)
        + ",\"capabilities\":"@ + spec_capabilities() + ",\"trace\":\"verbose\"}"@
}

/// The `initialize` request: process id, workspace root, capabilities.
pub fn initialize_params(process_id: u64, root_uri: &str) -> (r: String)
    ensures
        r@ == spec_initialize_params(process_id as nat, root_uri@),
{
    let mut out = String::from_str("{\"processId\":");
    push_dec_chars(&mut out, process_id);
    out.append(",\"rootUri\":");
    out.append(json_quote(root_uri).as_str());
    out.append(",\"capabilities\":");
    out.append(
        "{\"textDocument\":{\"synchronization\":{\"dynamicRegistration\":false,\"willSave\":false,\"willSaveWaitUntil\":false,\"didSave\":true},\"completion\":{\"dynamicRegistration\":false,\"completionItem\":{\"snippetSupport\":false,\"resolveSupport\":{\"properties\":[\"additionalTextEdits\"]}},\"contextSupport\":false},\"publishDiagnostics\":{\"relatedInformation\":true,\"tagSupport\":{\"valueSet\":[2,1]},\"versionSupport\":true,\"codeDescriptionSupport\":true,\"dataSupport\":true}}}",
    );
    out.append(",\"trace\":\"verbose\"}");
    assert(out@ =~= spec_initialize_params(process_id as nat, root_uri@));
    out
}

pub open spec fn spec_empty_object() -> Seq<char> {
    "{}"@
}

/// The `initialized` notification carries an empty object.
pub fn empty_object_params() -> (r: String)
    ensures
        r@ == spec_empty_object(),
{
    String::from_str("{}")
}

} // verus!
