//! The language-server client core: correlation-ID registry, per-document
//! synchronisation state, and the outbound dispatcher that turns editor
//! intents into wire messages.

use crate::codec::{
    completion_params, did_change_params, did_open_params, did_save_params, empty_object_params,
    encode_notification, encode_request, initialize_params, spec_completion_params,
    spec_did_change_params, spec_did_open_params, spec_did_save_params, spec_empty_object,
    spec_initialize_params, spec_notification, spec_request, spec_text_document_params,
    text_document_params, Method,
};
use crate::framing::{encode_frame, frame_spec};
use std::collections::HashMap;
use vstd::prelude::*;
use vstd::pervasive::VecAdditionalExecFns;
use vstd::string::StringExecFns;
use vstd::utf8::encode_utf8;

verus! {

broadcast use vstd::std_specs::hash::group_hash_axioms;

/// Identifies which language server a document belongs to.
#[derive(Clone, Copy, Debug, PartialEq, Eq, Structural)]
pub enum LspLang {
    Rust,
    Json,
    Python,
    PlainText,
}

impl LspLang {
    /// Only Rust servers are asked for inlay hints.
    pub open spec fn spec_supports_inlay_hints(self) -> bool {
        self == LspLang::Rust
    }

    #[verifier::when_used_as_spec(spec_supports_inlay_hints)]
    pub fn supports_inlay_hints(self) -> (r: bool)
        ensures
            r == self.spec_supports_inlay_hints(),
    {
        match self {
            LspLang::Rust => true,
            _ => false,
        }
    }

    /// The `languageId` sent in `didOpen`.
    pub open spec fn spec_language_id(self) -> Seq<char> {
        match self {
            LspLang::Rust => "rust"@,
            LspLang::Json => "json"@,
            LspLang::Python => "python"@,
            LspLang::PlainText => "plaintext"@,
        }
    }

    pub fn language_id(self) -> (r: &'static str)
        ensures
            r@ == self.spec_language_id(),
    {
        match self {
            LspLang::Rust => "rust",
            LspLang::Json => "json",
            LspLang::Python => "python",
            LspLang::PlainText => "plaintext",
        }
    }
}

/// The correlation ID reserved for the `initialize` request.  `new_request`
/// starts above it and counts upward, so the sentinel is distinct from
/// every ID the registry ever hands out.
pub const INIT_REQUEST_ID: u64 = 0;

/// What was asked, and for which document, under a correlation ID.
pub struct SentRequest {
    pub method: Method,
    pub uri: String,
}

/// One wire message, ready to be enveloped and framed.
pub struct OutMessage {
    pub method: Method,
    pub params: String,
    /// A request carries an ID; a notification has none.
    pub id: Option<u64>,
}

/// The ghost shape of a wire message.
pub struct MsgSpec {
    pub method: Method,
    pub params: Seq<char>,
    pub id: Option<nat>,
}

impl View for OutMessage {
    type V = MsgSpec;

    open spec fn view(&self) -> MsgSpec {
        MsgSpec {
            method: self.method,
            params: self.params@,
            id: match self.id {
                Some(n) => Some(n as nat),
                None => None,
            },
        }
    }
}

/// The JSON-RPC text of a message: a request when it has an ID, else a
/// notification.
pub open spec fn spec_message_text(m: MsgSpec) -> Seq<char> {
    match m.id {
        Some(id) => spec_request(m.method.spec_name(), m.params, id),
        None => spec_notification(m.method.spec_name(), m.params),
    }
}

pub open spec fn msgs_view(s: Seq<OutMessage>) -> Seq<MsgSpec> {
    s.map_values(|m: OutMessage| m@)
}

impl OutMessage {
    /// The JSON-RPC envelope around this message.
    pub fn encode(&self) -> (r: String)
        ensures
            r@ == spec_message_text(self@),
    {
        match &self.id {
            Some(id) => encode_request(self.method, self.params.as_str(), *id),
            None => encode_notification(self.method, self.params.as_str()),
        }
    }

    /// The bytes that go on the stream: the envelope, framed.
    pub fn to_wire(&self) -> (r: Vec<u8>)
        ensures
            r@ == frame_spec(encode_utf8(spec_message_text(self@))),
    {
        let text = self.encode();
        encode_frame(text.as_str().as_bytes())
    }
}

/// The `initialize` request sent right after the subprocess is spawned,
/// under the reserved sentinel ID.
pub fn initialize_request(process_id: u64, root_uri: &str) -> (r: OutMessage)
    ensures
        r@.method == Method::Initialize,
        r@.params == spec_initialize_params(process_id as nat, root_uri@),
        r@.id == Some(INIT_REQUEST_ID as nat),
{
    OutMessage {
        method: Method::Initialize,
        params: initialize_params(process_id, root_uri),
        id: Some(INIT_REQUEST_ID),
    }
}

/// The `initialized` notification sent once the matching response arrived.
pub fn initialized_notification() -> (r: OutMessage)
    ensures
        r@.method == Method::Initialized,
        r@.params == spec_empty_object(),
        r@.id is None,
{
    OutMessage { method: Method::Initialized, params: empty_object_params(), id: None }
}

// ---------------------------------------------------------------------------
// The request registry.
// ---------------------------------------------------------------------------

/// Correlation-ID allocator and registry of in-flight requests, shared by
/// every client of one registry, so IDs are globally unique.
pub struct LspSystem {
    counter: u64,
    requests: HashMap<u64, SentRequest>,
    /// The registered clients, one per (workspace root, language).
    clients: Vec<ClientKey>,
    /// Every ID ever handed out, in order.
    issued: Ghost<Seq<u64>>,
}

impl LspSystem {
    pub closed spec fn spec_counter(self) -> u64 {
        self.counter
    }

    pub closed spec fn spec_requests(self) -> Map<u64, SentRequest> {
        self.requests@
    }

    pub closed spec fn spec_issued(self) -> Seq<u64> {
        self.issued@
    }

    pub closed spec fn spec_clients(self) -> Seq<ClientKey> {
        self.clients@
    }

    /// IDs are issued strictly increasingly, from above the sentinel, and
    /// the registry holds only issued IDs.
    pub closed spec fn wf(self) -> bool {
        &&& self.counter >= 1
        &&& forall|k: int|
            0 <= k < self.issued@.len() ==> INIT_REQUEST_ID < #[trigger] self.issued@[k]
                < self.counter
        &&& forall|k1: int, k2: int|
            0 <= k1 < k2 < self.issued@.len() ==> #[trigger] self.issued@[k1]
                < #[trigger] self.issued@[k2]
        &&& forall|id: u64| #[trigger]
            self.requests@.contains_key(id) ==> self.issued@.contains(id)
    }

    pub fn new() -> (r: LspSystem)
        ensures
            r.wf(),
            r.spec_counter() == 1,
            r.spec_issued() == Seq::<u64>::empty(),
            r.spec_requests() == Map::<u64, SentRequest>::empty(),
            r.spec_clients() == Seq::<ClientKey>::empty(),
    {
        let r = LspSystem {
            counter: 1,
            requests: HashMap::new(),
            clients: Vec::new(),
            issued: Ghost(Seq::empty()),
        };
        proof {
            assert(r.requests@ =~= Map::<u64, SentRequest>::empty());
        }
        r
    }

    /// Allocates the next correlation ID and records what was asked.
    pub fn new_request(&mut self, method: Method, uri: String) -> (id: u64)
        requires
            old(self).wf(),
            old(self).spec_counter() < u64::MAX,
        ensures
            final(self).wf(),
            id == old(self).spec_counter(),
            id != INIT_REQUEST_ID,
            final(self).spec_counter() == old(self).spec_counter() + 1,
            final(self).spec_issued() == old(self).spec_issued().push(id),
            final(self).spec_clients() == old(self).spec_clients(),
            final(self).spec_requests() == old(self).spec_requests().insert(
                id,
                SentRequest { method, uri },
            ),
    {
        let id = self.counter;
        self.counter = self.counter + 1;
        self.requests.insert(id, SentRequest { method, uri });
        proof {
            self.issued@ = self.issued@.push(id);
            assert forall|k: int| 0 <= k < self.issued@.len() implies INIT_REQUEST_ID
                < #[trigger] self.issued@[k] < self.counter by {
                if k < self.issued@.len() - 1 {
                    assert(self.issued@[k] == old(self).spec_issued()[k]);
                }
            }
            assert forall|rid: u64| #[trigger]
                self.requests@.contains_key(rid) implies self.issued@.contains(rid) by {
                if rid == id {
                    assert(self.issued@[self.issued@.len() - 1] == id);
                } else {
                    assert(old(self).spec_requests().contains_key(rid));
                    let k = choose|k: int|
                        0 <= k < old(self).spec_issued().len() && old(self).spec_issued()[k]
                            == rid;
                    assert(self.issued@[k] == rid);
                }
            }
        }
        id
    }

    /// Takes the record of a request out of the registry, if the ID is
    /// known; an unknown ID yields `None` and changes nothing.
    pub fn get_request(&mut self, id: u64) -> (r: Option<SentRequest>)
        requires
            old(self).wf(),
        ensures
            final(self).wf(),
            final(self).spec_counter() == old(self).spec_counter(),
            final(self).spec_issued() == old(self).spec_issued(),
            final(self).spec_clients() == old(self).spec_clients(),
            final(self).spec_requests() == old(self).spec_requests().remove(id),
            !old(self).spec_requests().contains_key(id) ==> final(self).spec_requests() == old(
                self,
            ).spec_requests(),
            match r {
                Some(req) => old(self).spec_requests().contains_key(id) && req == old(
                    self,
                ).spec_requests()[id],
                None => !old(self).spec_requests().contains_key(id),
            },
    {
        let r = self.requests.remove(&id);
        proof {
            if !old(self).spec_requests().contains_key(id) {
                assert(self.requests@ =~= old(self).spec_requests().remove(id));
            }
        }
        r
    }

    /// How many IDs have been issued.
    pub open spec fn spec_issued_count(self) -> nat {
        self.spec_issued().len()
    }
}

/// ID uniqueness: of the IDs a registry has handed out, any two issued at
/// different times are distinct, and the later one is strictly greater.
pub proof fn lemma_issued_ids_strictly_increase(sys: LspSystem, k1: int, k2: int)
    requires
        sys.wf(),
        0 <= k1 < k2 < sys.spec_issued().len(),
    ensures
        sys.spec_issued()[k1] < sys.spec_issued()[k2],
        sys.spec_issued()[k1] != sys.spec_issued()[k2],
{
}


// ---------------------------------------------------------------------------
// Editor intents and per-document synchronisation state.
// ---------------------------------------------------------------------------

/// One thing the editor wants the protocol layer to do.  Consumed exactly
/// once by the dispatcher.
pub enum LspInput {
    /// Update the cached text of a document; nothing goes on the wire.
    Edit { buffer_id: u32, text: String },
    RequestCompletion { buffer_id: u32, row: u32, col: u32 },
    /// `item` is the server's own completion-item JSON, forwarded unchanged.
    RequestCompletionResolve { buffer_id: u32, item: String },
    OpenFile { buffer_id: u32, uri: String, content: String },
    CloseFile { uri: String },
    SavedFile { uri: String, content: String },
    InlayHints { uri: String },
}

/// Synchronisation state of one open document: the version counter equals
/// the number of `didChange` notifications sent so far, starting at 0 when
/// the document was opened.
pub struct DocSync {
    pub buffer_id: u32,
    pub uri: String,
    pub version: u64,
    pub text: String,
}

/// The first document with this buffer ID.
pub open spec fn spec_find_doc(docs: Seq<DocSync>, buffer_id: u32) -> Option<int>
    decreases docs.len(),
{
    if docs.len() == 0 {
        None
    } else if docs[0].buffer_id == buffer_id {
        Some(0)
    } else {
        match spec_find_doc(docs.drop_first(), buffer_id) {
            Some(i) => Some(i + 1),
            None => None,
        }
    }
}

/// The first document with this URI.
pub open spec fn spec_find_doc_by_uri(docs: Seq<DocSync>, uri: Seq<char>) -> Option<int>
    decreases docs.len(),
{
    if docs.len() == 0 {
        None
    } else if docs[0].uri@ == uri {
        Some(0)
    } else {
        match spec_find_doc_by_uri(docs.drop_first(), uri) {
            Some(i) => Some(i + 1),
            None => None,
        }
    }
}

pub proof fn lemma_find_doc_props(docs: Seq<DocSync>, buffer_id: u32)
    ensures
        match spec_find_doc(docs, buffer_id) {
            Some(i) => 0 <= i < docs.len() && docs[i].buffer_id == buffer_id && forall|j: int|
                0 <= j < i ==> (#[trigger] docs[j]).buffer_id != buffer_id,
            None => forall|j: int| 0 <= j < docs.len() ==> (#[trigger] docs[j]).buffer_id
                != buffer_id,
        },
    decreases docs.len(),
{
    if docs.len() == 0 {
    } else if docs[0].buffer_id == buffer_id {
    } else {
        lemma_find_doc_props(docs.drop_first(), buffer_id);
        let t = docs.drop_first();
        match spec_find_doc(t, buffer_id) {
            Some(i) => {
                assert(docs[i + 1] == t[i]);
                assert forall|j: int| 0 <= j < i + 1 implies (#[trigger] docs[j]).buffer_id
                    != buffer_id by {
                    if j >= 1 {
                        assert(docs[j] == t[j - 1]);
                        assert(t[j - 1].buffer_id != buffer_id);
                    }
                }
            },
            None => {
                assert forall|j: int| 0 <= j < docs.len() implies (#[trigger] docs[j]).buffer_id
                    != buffer_id by {
                    if j >= 1 {
                        assert(docs[j] == t[j - 1]);
                        assert(t[j - 1].buffer_id != buffer_id);
                    }
                }
            },
        }
    }
}

pub proof fn lemma_find_doc_by_uri_props(docs: Seq<DocSync>, uri: Seq<char>)
    ensures
        match spec_find_doc_by_uri(docs, uri) {
            Some(i) => 0 <= i < docs.len() && docs[i].uri@ == uri && forall|j: int|
                0 <= j < i ==> (#[trigger] docs[j]).uri@ != uri,
            None => forall|j: int| 0 <= j < docs.len() ==> (#[trigger] docs[j]).uri@ != uri,
        },
    decreases docs.len(),
{
    if docs.len() == 0 {
    } else if docs[0].uri@ == uri {
    } else {
        lemma_find_doc_by_uri_props(docs.drop_first(), uri);
        let t = docs.drop_first();
        match spec_find_doc_by_uri(t, uri) {
            Some(i) => {
                assert(docs[i + 1] == t[i]);
                assert forall|j: int| 0 <= j < i + 1 implies (#[trigger] docs[j]).uri@
                    != uri by {
                    if j >= 1 {
                        assert(docs[j] == t[j - 1]);
                        assert(t[j - 1].uri@ != uri);
                    }
                }
            },
            None => {
                assert forall|j: int| 0 <= j < docs.len() implies (#[trigger] docs[j]).uri@
                    != uri by {
                    if j >= 1 {
                        assert(docs[j] == t[j - 1]);
                        assert(t[j - 1].uri@ != uri);
                    }
                }
            },
        }
    }
}

/// `d`, with its cached text replaced.
pub open spec fn spec_doc_with_text(d: DocSync, text: String) -> DocSync {
    DocSync { buffer_id: d.buffer_id, uri: d.uri, version: d.version, text }
}

/// `d`, after one more `didChange` was sent.
pub open spec fn spec_doc_flushed(d: DocSync) -> DocSync {
    DocSync { buffer_id: d.buffer_id, uri: d.uri, version: (d.version + 1) as u64, text: d.text }
}

/// Whether an intent can allocate a correlation ID: completion and resolve
/// requests always do; open, save and standalone hint intents only where
/// the language supports inlay hints; edits and closes never do.
pub open spec fn spec_allocates_id(lang: LspLang, input: LspInput) -> bool {
    match input {
        LspInput::Edit { .. } => false,
        LspInput::CloseFile { .. } => false,
        LspInput::RequestCompletion { .. } => true,
        LspInput::RequestCompletionResolve { .. } => true,
        LspInput::OpenFile { .. } => lang.spec_supports_inlay_hints(),
        LspInput::SavedFile { .. } => lang.spec_supports_inlay_hints(),
        LspInput::InlayHints { .. } => lang.spec_supports_inlay_hints(),
    }
}

// ---------------------------------------------------------------------------
// The outbound dispatcher.
// ---------------------------------------------------------------------------

/// The dispatcher state of one language-server client: which documents are
/// synchronised, at which version, with which cached text.
pub struct LspClient {
    pub lang: LspLang,
    pub docs: Vec<DocSync>,
}

impl LspClient {
    /// Buffer IDs and URIs each name at most one document.
    pub open spec fn wf(self) -> bool {
        &&& forall|i: int, j: int|
            0 <= i < j < self.docs@.len() ==> (#[trigger] self.docs@[i]).buffer_id != (
            #[trigger] self.docs@[j]).buffer_id
        &&& forall|i: int, j: int|
            0 <= i < j < self.docs@.len() ==> (#[trigger] self.docs@[i]).uri@ != (
            #[trigger] self.docs@[j]).uri@
    }

    pub fn new(lang: LspLang) -> (r: LspClient)
        ensures
            r.wf(),
            r.lang == lang,
            r.docs@ == Seq::<DocSync>::empty(),
    {
        LspClient { lang, docs: Vec::new() }
    }

    /// The index of the document with this buffer ID.
    fn find_doc(&self, buffer_id: u32) -> (r: Option<usize>)
        ensures
            match r {
                Some(i) => spec_find_doc(self.docs@, buffer_id) == Some(i as int),
                None => spec_find_doc(self.docs@, buffer_id) is None,
            },
    {
        proof {
            lemma_find_doc_props(self.docs@, buffer_id);
        }
        let mut i: usize = 0;
        while i < self.docs.len()
            invariant
                i <= self.docs@.len(),
                forall|j: int| 0 <= j < i ==> (#[trigger] self.docs@[j]).buffer_id != buffer_id,
            decreases self.docs@.len() - i,
        {
            if self.docs[i].buffer_id == buffer_id {
                proof {
                    lemma_find_doc_props(self.docs@, buffer_id);
                    match spec_find_doc(self.docs@, buffer_id) {
                        Some(k) => {
                            if k != i {
                                assert(self.docs@[if k < i { k } else { i as int }].buffer_id
                                    != buffer_id);
                            }
                        },
                        None => {
                            assert(self.docs@[i as int].buffer_id != buffer_id);
                        },
                    }
                }
                return Some(i);
            }
            i = i + 1;
        }
        proof {
            lemma_find_doc_props(self.docs@, buffer_id);
            if spec_find_doc(self.docs@, buffer_id) is Some {
                let k = spec_find_doc(self.docs@, buffer_id)->Some_0;
                assert(self.docs@[k].buffer_id != buffer_id);
            }
        }
        None
    }

    /// The index of the document with this URI.
    fn find_doc_by_uri(&self, uri: &String) -> (r: Option<usize>)
        ensures
            match r {
                Some(i) => spec_find_doc_by_uri(self.docs@, uri@) == Some(i as int),
                None => spec_find_doc_by_uri(self.docs@, uri@) is None,
            },
    {
        let mut i: usize = 0;
        while i < self.docs.len()
            invariant
                i <= self.docs@.len(),
                forall|j: int| 0 <= j < i ==> (#[trigger] self.docs@[j]).uri@ != uri@,
            decreases self.docs@.len() - i,
        {
            if self.docs[i].uri == *uri {
                proof {
                    lemma_find_doc_by_uri_props(self.docs@, uri@);
                    match spec_find_doc_by_uri(self.docs@, uri@) {
                        Some(k) => {
                            if k != i {
                                assert(self.docs@[if k < i { k } else { i as int }].uri@ != uri@);
                            }
                        },
                        None => {
                            assert(self.docs@[i as int].uri@ != uri@);
                        },
                    }
                }
                return Some(i);
            }
            i = i + 1;
        }
        proof {
            lemma_find_doc_by_uri_props(self.docs@, uri@);
            if spec_find_doc_by_uri(self.docs@, uri@) is Some {
                let k = spec_find_doc_by_uri(self.docs@, uri@)->Some_0;
                assert(self.docs@[k].uri@ != uri@);
            }
        }
        None
    }

    /// The version of the document with this buffer ID, if it is open.
    /// Lets a caller check there is headroom before a flush.
    pub fn doc_version(&self, buffer_id: u32) -> (r: Option<u64>)
        ensures
            match spec_find_doc(self.docs@, buffer_id) {
                Some(i) => r == Some(self.docs@[i].version),
                None => r is None,
            },
    {
        proof {
            lemma_find_doc_props(self.docs@, buffer_id);
        }
        match self.find_doc(buffer_id) {
            Some(i) => Some(self.docs[i].version),
            None => None,
        }
    }

    /// The version of the document with this URI, if it is open.
    pub fn doc_version_by_uri(&self, uri: &String) -> (r: Option<u64>)
        ensures
            match spec_find_doc_by_uri(self.docs@, uri@) {
                Some(i) => r == Some(self.docs@[i].version),
                None => r is None,
            },
    {
        proof {
            lemma_find_doc_by_uri_props(self.docs@, uri@);
        }
        match self.find_doc_by_uri(uri) {
            Some(i) => Some(self.docs[i].version),
            None => None,
        }
    }
}


impl LspClient {
    /// One step of the outbound dispatcher, per intent:
    /// - `OpenFile`: register the document at version 0 and send `didOpen`,
    ///   plus an inlay-hints request where the language supports them; an
    ///   already-open buffer ID or URI is left untouched and nothing is sent.
    /// - `Edit`: replace the cached text; nothing goes on the wire and the
    ///   version does not move.
    /// - `RequestCompletion`: flush one `didChange` carrying the cached text
    ///   under version + 1, then send the completion request, recorded in the
    ///   registry under the document's URI.
    /// - `RequestCompletionResolve`: forward the item payload unchanged.
    /// - `SavedFile`: flush a `didChange`, send `didSave` with the saved
    ///   content, and re-request inlay hints where supported.
    /// - `CloseFile`: send `didClose` and drop the document's state.
    /// - `InlayHints`: send the hints request where the language supports it.
    pub fn process_input(&mut self, sys: &mut LspSystem, input: LspInput) -> (out: Vec<
        OutMessage,
    >)
        requires
            old(self).wf(),
            old(sys).wf(),
            spec_allocates_id(old(self).lang, input) ==> old(sys).spec_counter() < u64::MAX,
            input matches LspInput::RequestCompletion { buffer_id, .. } ==> (match spec_find_doc(
                old(self).docs@,
                buffer_id,
            ) {
                Some(i) => old(self).docs@[i].version < u64::MAX,
                None => true,
            }),
            input matches LspInput::SavedFile { uri, .. } ==> (match spec_find_doc_by_uri(
                old(self).docs@,
                uri@,
            ) {
                Some(i) => old(self).docs@[i].version < u64::MAX,
                None => true,
            }),
        ensures
            final(self).wf(),
            final(sys).wf(),
            final(self).lang == old(self).lang,
            input matches LspInput::Edit { buffer_id, text } ==> {
                &&& out@.len() == 0
                &&& final(self).docs@ == (match spec_find_doc(old(self).docs@, buffer_id) {
                    Some(i) => old(self).docs@.update(
                        i,
                        spec_doc_with_text(old(self).docs@[i], text),
                    ),
                    None => old(self).docs@,
                })
                &&& *final(sys) == *old(sys)
            },
            input matches LspInput::RequestCompletion { buffer_id, row, col } ==> (
            match spec_find_doc(old(self).docs@, buffer_id) {
                Some(i) => {
                    let d = old(self).docs@[i];
                    &&& final(self).docs@ == old(self).docs@.update(i, spec_doc_flushed(d))
                    &&& msgs_view(out@) =~= seq![
                        MsgSpec {
                            method: Method::DidChange,
                            params: spec_did_change_params(
                                d.uri@,
                                (d.version + 1) as nat,
                                d.text@,
                            ),
                            id: None,
                        },
                        MsgSpec {
                            method: Method::Completion,
                            params: spec_completion_params(d.uri@, row as nat, col as nat),
                            id: Some(old(sys).spec_counter() as nat),
                        },
                    ]
                    &&& final(sys).spec_counter() == old(sys).spec_counter() + 1
                    &&& final(sys).spec_requests() == old(sys).spec_requests().insert(
                        old(sys).spec_counter(),
                        SentRequest { method: Method::Completion, uri: d.uri },
                    )
                },
                None => out@.len() == 0 && final(self).docs@ == old(self).docs@ && *final(sys)
                    == *old(sys),
            }),
            input matches LspInput::RequestCompletionResolve { item, .. } ==> {
                let cid = old(sys).spec_counter();
                &&& final(self).docs@ == old(self).docs@
                &&& msgs_view(out@) =~= seq![
                    MsgSpec {
                        method: Method::ResolveCompletionItem,
                        params: item@,
                        id: Some(cid as nat),
                    },
                ]
                &&& final(sys).spec_counter() == cid + 1
                &&& final(sys).spec_requests().contains_key(cid)
                &&& final(sys).spec_requests()[cid].method == Method::ResolveCompletionItem
                &&& final(sys).spec_requests()[cid].uri@ == "none://none"@
                &&& final(sys).spec_requests() == old(sys).spec_requests().insert(
                    cid,
                    final(sys).spec_requests()[cid],
                )
            },
            input matches LspInput::OpenFile { buffer_id, uri, content } ==> {
                if spec_find_doc(old(self).docs@, buffer_id) is Some || spec_find_doc_by_uri(
                    old(self).docs@,
                    uri@,
                ) is Some {
                    &&& out@.len() == 0
                    &&& final(self).docs@ == old(self).docs@
                    &&& *final(sys) == *old(sys)
                } else {
                    &&& final(self).docs@ == old(self).docs@.push(
                        DocSync { buffer_id, uri, version: 0, text: content },
                    )
                    &&& if old(self).lang.spec_supports_inlay_hints() {
                        &&& msgs_view(out@) =~= seq![
                            MsgSpec {
                                method: Method::DidOpen,
                                params: spec_did_open_params(
                                    uri@,
                                    old(self).lang.spec_language_id(),
                                    content@,
                                ),
                                id: None,
                            },
                            MsgSpec {
                                method: Method::InlayHints,
                                params: spec_text_document_params(uri@),
                                id: Some(old(sys).spec_counter() as nat),
                            },
                        ]
                        &&& final(sys).spec_counter() == old(sys).spec_counter() + 1
                        &&& final(sys).spec_requests() == old(sys).spec_requests().insert(
                            old(sys).spec_counter(),
                            SentRequest { method: Method::InlayHints, uri },
                        )
                    } else {
                        &&& msgs_view(out@) =~= seq![
                            MsgSpec {
                                method: Method::DidOpen,
                                params: spec_did_open_params(
                                    uri@,
                                    old(self).lang.spec_language_id(),
                                    content@,
                                ),
                                id: None,
                            },
                        ]
                        &&& *final(sys) == *old(sys)
                    }
                }
            },
            input matches LspInput::CloseFile { uri } ==> {
                &&& final(self).docs@ == (match spec_find_doc_by_uri(old(self).docs@, uri@) {
                    Some(i) => old(self).docs@.remove(i),
                    None => old(self).docs@,
                })
                &&& msgs_view(out@) =~= seq![
                    MsgSpec {
                        method: Method::DidClose,
                        params: spec_text_document_params(uri@),
                        id: None,
                    },
                ]
                &&& *final(sys) == *old(sys)
            },
            input matches LspInput::SavedFile { uri, content } ==> (match spec_find_doc_by_uri(
                old(self).docs@,
                uri@,
            ) {
                Some(i) => {
                    let d = old(self).docs@[i];
                    &&& final(self).docs@ == old(self).docs@.update(i, spec_doc_flushed(d))
                    &&& if old(self).lang.spec_supports_inlay_hints() {
                        &&& msgs_view(out@) =~= seq![
                            MsgSpec {
                                method: Method::DidChange,
                                params: spec_did_change_params(
                                    d.uri@,
                                    (d.version + 1) as nat,
                                    d.text@,
                                ),
                                id: None,
                            },
                            MsgSpec {
                                method: Method::DidSave,
                                params: spec_did_save_params(uri@, content@),
                                id: None,
                            },
                            MsgSpec {
                                method: Method::InlayHints,
                                params: spec_text_document_params(uri@),
                                id: Some(old(sys).spec_counter() as nat),
                            },
                        ]
                        &&& final(sys).spec_counter() == old(sys).spec_counter() + 1
                        &&& final(sys).spec_requests() == old(sys).spec_requests().insert(
                            old(sys).spec_counter(),
                            SentRequest { method: Method::InlayHints, uri },
                        )
                    } else {
                        &&& msgs_view(out@) =~= seq![
                            MsgSpec {
                                method: Method::DidChange,
                                params: spec_did_change_params(
                                    d.uri@,
                                    (d.version + 1) as nat,
                                    d.text@,
                                ),
                                id: None,
                            },
                            MsgSpec {
                                method: Method::DidSave,
                                params: spec_did_save_params(uri@, content@),
                                id: None,
                            },
                        ]
                        &&& *final(sys) == *old(sys)
                    }
                },
                None => out@.len() == 0 && final(self).docs@ == old(self).docs@ && *final(sys)
                    == *old(sys),
            }),
            input matches LspInput::InlayHints { uri } ==> {
                &&& final(self).docs@ == old(self).docs@
                &&& if old(self).lang.spec_supports_inlay_hints() {
                    &&& msgs_view(out@) =~= seq![
                        MsgSpec {
                            method: Method::InlayHints,
                            params: spec_text_document_params(uri@),
                            id: Some(old(sys).spec_counter() as nat),
                        },
                    ]
                    &&& final(sys).spec_counter() == old(sys).spec_counter() + 1
                    &&& final(sys).spec_requests() == old(sys).spec_requests().insert(
                        old(sys).spec_counter(),
                        SentRequest { method: Method::InlayHints, uri },
                    )
                } else {
                    &&& out@.len() == 0
                    &&& *final(sys) == *old(sys)
                }
            },
    {
        let mut out: Vec<OutMessage> = Vec::new();
        match input {
            LspInput::Edit { buffer_id, text } => {
                match self.find_doc(buffer_id) {
                    Some(i) => {
                        proof {
                            lemma_find_doc_props(self.docs@, buffer_id);
                        }
                        let uri = self.docs[i].uri.clone();
                        let version = self.docs[i].version;
                        self.docs.set(i, DocSync { buffer_id, uri, version, text });
                        proof {
                            let od = old(self).docs@;
                            assert(self.docs@ =~= od.update(
                                spec_find_doc(od, buffer_id)->Some_0,
                                spec_doc_with_text(
                                    od[spec_find_doc(od, buffer_id)->Some_0],
                                    text,
                                ),
                            ));
                        }
                    },
                    None => {
                    },
                }
                proof {
                    lemma_wf_after_update(old(self).docs@, self.docs@);
                }
                out
            },
            LspInput::RequestCompletion { buffer_id, row, col } => {
                match self.find_doc(buffer_id) {
                    Some(i) => {
                        proof {
                            lemma_find_doc_props(self.docs@, buffer_id);
                        }
                        let uri = self.docs[i].uri.clone();
                        let version = self.docs[i].version;
                        let text = self.docs[i].text.clone();
                        self.docs.set(
                            i,
                            DocSync {
                                buffer_id,
                                uri: uri.clone(),
                                version: version + 1,
                                text: text.clone(),
                            },
                        );
                        out.push(
                            OutMessage {
                                method: Method::DidChange,
                                params: did_change_params(uri.as_str(), version + 1, text.as_str()),
                                id: None,
                            },
                        );
                        let id = sys.new_request(Method::Completion, uri.clone());
                        out.push(
                            OutMessage {
                                method: Method::Completion,
                                params: completion_params(uri.as_str(), row, col),
                                id: Some(id),
                            },
                        );
                        proof {
                            let od = old(self).docs@;
                            let k = spec_find_doc(od, buffer_id)->Some_0;
                            assert(self.docs@ =~= od.update(k, spec_doc_flushed(od[k])));
                            assert(msgs_view(out@) =~= seq![out@[0]@, out@[1]@]);
                            lemma_wf_after_update(od, self.docs@);
                        }
                    },
                    None => {
                    },
                }
                out
            },
            LspInput::RequestCompletionResolve { buffer_id: _, item } => {
                let id = sys.new_request(
                    Method::ResolveCompletionItem,
                    String::from_str("none://none"),
                );
                out.push(
                    OutMessage { method: Method::ResolveCompletionItem, params: item, id: Some(id) },
                );
                proof {
                    assert(msgs_view(out@) =~= seq![out@[0]@]);
                }
                out
            },
            LspInput::OpenFile { buffer_id, uri, content } => {
                let by_id = self.find_doc(buffer_id);
                let by_uri = self.find_doc_by_uri(&uri);
                if by_id.is_none() && by_uri.is_none() {
                    out.push(
                        OutMessage {
                            method: Method::DidOpen,
                            params: did_open_params(
                                uri.as_str(),
                                self.lang.language_id(),
                                content.as_str(),
                            ),
                            id: None,
                        },
                    );
                    if self.lang.supports_inlay_hints() {
                        let id = sys.new_request(Method::InlayHints, uri.clone());
                        out.push(
                            OutMessage {
                                method: Method::InlayHints,
                                params: text_document_params(uri.as_str()),
                                id: Some(id),
                            },
                        );
                        proof {
                            assert(msgs_view(out@) =~= seq![out@[0]@, out@[1]@]);
                        }
                    } else {
                        proof {
                            assert(msgs_view(out@) =~= seq![out@[0]@]);
                        }
                    }
                    self.docs.push(DocSync { buffer_id, uri, version: 0, text: content });
                    proof {
                        lemma_find_doc_props(old(self).docs@, buffer_id);
                        lemma_find_doc_by_uri_props(old(self).docs@, uri@);
                        lemma_wf_after_push(old(self).docs@, self.docs@);
                    }
                }
                out
            },
            LspInput::CloseFile { uri } => {
                match self.find_doc_by_uri(&uri) {
                    Some(i) => {
                        proof {
                            lemma_find_doc_by_uri_props(self.docs@, uri@);
                        }
                        self.docs.remove(i);
                        proof {
                            lemma_wf_after_remove(
                                old(self).docs@,
                                self.docs@,
                                spec_find_doc_by_uri(old(self).docs@, uri@)->Some_0,
                            );
                        }
                    },
                    None => {
                    },
                }
                out.push(
                    OutMessage {
                        method: Method::DidClose,
                        params: text_document_params(uri.as_str()),
                        id: None,
                    },
                );
                proof {
                    assert(msgs_view(out@) =~= seq![out@[0]@]);
                }
                out
            },
            LspInput::SavedFile { uri, content } => {
                match self.find_doc_by_uri(&uri) {
                    Some(i) => {
                        proof {
                            lemma_find_doc_by_uri_props(self.docs@, uri@);
                        }
                        let doc_uri = self.docs[i].uri.clone();
                        let buffer_id = self.docs[i].buffer_id;
                        let version = self.docs[i].version;
                        let text = self.docs[i].text.clone();
                        self.docs.set(
                            i,
                            DocSync {
                                buffer_id,
                                uri: doc_uri.clone(),
                                version: version + 1,
                                text: text.clone(),
                            },
                        );
                        out.push(
                            OutMessage {
                                method: Method::DidChange,
                                params: did_change_params(
                                    doc_uri.as_str(),
                                    version + 1,
                                    text.as_str(),
                                ),
                                id: None,
                            },
                        );
                        out.push(
                            OutMessage {
                                method: Method::DidSave,
                                params: did_save_params(uri.as_str(), content.as_str()),
                                id: None,
                            },
                        );
                        if self.lang.supports_inlay_hints() {
                            let id = sys.new_request(Method::InlayHints, uri.clone());
                            out.push(
                                OutMessage {
                                    method: Method::InlayHints,
                                    params: text_document_params(uri.as_str()),
                                    id: Some(id),
                                },
                            );
                            proof {
                                assert(msgs_view(out@) =~= seq![out@[0]@, out@[1]@, out@[2]@]);
                            }
                        } else {
                            proof {
                                assert(msgs_view(out@) =~= seq![out@[0]@, out@[1]@]);
                            }
                        }
                        proof {
                            let od = old(self).docs@;
                            let k = spec_find_doc_by_uri(od, uri@)->Some_0;
                            assert(self.docs@ =~= od.update(k, spec_doc_flushed(od[k])));
                            lemma_wf_after_update(od, self.docs@);
                        }
                    },
                    None => {
                    },
                }
                out
            },
            LspInput::InlayHints { uri } => {
                if self.lang.supports_inlay_hints() {
                    let id = sys.new_request(Method::InlayHints, uri.clone());
                    out.push(
                        OutMessage {
                            method: Method::InlayHints,
                            params: text_document_params(uri.as_str()),
                            id: Some(id),
                        },
                    );
                    proof {
                        assert(msgs_view(out@) =~= seq![out@[0]@]);
                    }
                }
                out
            },
        }
    }
}

/// Distinctness of buffer IDs and URIs survives an update that keeps the
/// updated entry's ID and URI.
proof fn lemma_wf_after_update(od: Seq<DocSync>, nd: Seq<DocSync>)
    requires
        nd.len() == od.len(),
        forall|i: int|
            0 <= i < od.len() ==> (#[trigger] nd[i]).buffer_id == od[i].buffer_id && nd[i].uri@
                == od[i].uri@,
        forall|i: int, j: int|
            0 <= i < j < od.len() ==> (#[trigger] od[i]).buffer_id != (
            #[trigger] od[j]).buffer_id,
        forall|i: int, j: int|
            0 <= i < j < od.len() ==> (#[trigger] od[i]).uri@ != (#[trigger] od[j]).uri@,
    ensures
        forall|i: int, j: int|
            0 <= i < j < nd.len() ==> (#[trigger] nd[i]).buffer_id != (
            #[trigger] nd[j]).buffer_id,
        forall|i: int, j: int|
            0 <= i < j < nd.len() ==> (#[trigger] nd[i]).uri@ != (#[trigger] nd[j]).uri@,
{
}

/// Distinctness survives adding a document whose ID and URI are fresh.
proof fn lemma_wf_after_push(od: Seq<DocSync>, nd: Seq<DocSync>)
    requires
        nd.len() == od.len() + 1,
        forall|i: int| 0 <= i < od.len() ==> #[trigger] nd[i] == od[i],
        forall|i: int|
            0 <= i < od.len() ==> (#[trigger] od[i]).buffer_id != nd[od.len() as int].buffer_id,
        forall|i: int|
            0 <= i < od.len() ==> (#[trigger] od[i]).uri@ != nd[od.len() as int].uri@,
        forall|i: int, j: int|
            0 <= i < j < od.len() ==> (#[trigger] od[i]).buffer_id != (
            #[trigger] od[j]).buffer_id,
        forall|i: int, j: int|
            0 <= i < j < od.len() ==> (#[trigger] od[i]).uri@ != (#[trigger] od[j]).uri@,
    ensures
        forall|i: int, j: int|
            0 <= i < j < nd.len() ==> (#[trigger] nd[i]).buffer_id != (
            #[trigger] nd[j]).buffer_id,
        forall|i: int, j: int|
            0 <= i < j < nd.len() ==> (#[trigger] nd[i]).uri@ != (#[trigger] nd[j]).uri@,
{
    assert forall|i: int, j: int|
        0 <= i < j < nd.len() implies (#[trigger] nd[i]).buffer_id != (
    #[trigger] nd[j]).buffer_id by {
        if j < od.len() {
            assert(nd[i] == od[i] && nd[j] == od[j]);
        } else {
            assert(nd[i] == od[i]);
        }
    }
    assert forall|i: int, j: int|
        0 <= i < j < nd.len() implies (#[trigger] nd[i]).uri@ != (#[trigger] nd[j]).uri@ by {
        if j < od.len() {
            assert(nd[i] == od[i] && nd[j] == od[j]);
        } else {
            assert(nd[i] == od[i]);
        }
    }
}

/// Distinctness survives removing a document.
proof fn lemma_wf_after_remove(od: Seq<DocSync>, nd: Seq<DocSync>, k: int)
    requires
        0 <= k < od.len(),
        nd == od.remove(k),
        forall|i: int, j: int|
            0 <= i < j < od.len() ==> (#[trigger] od[i]).buffer_id != (
            #[trigger] od[j]).buffer_id,
        forall|i: int, j: int|
            0 <= i < j < od.len() ==> (#[trigger] od[i]).uri@ != (#[trigger] od[j]).uri@,
    ensures
        forall|i: int, j: int|
            0 <= i < j < nd.len() ==> (#[trigger] nd[i]).buffer_id != (
            #[trigger] nd[j]).buffer_id,
        forall|i: int, j: int|
            0 <= i < j < nd.len() ==> (#[trigger] nd[i]).uri@ != (#[trigger] nd[j]).uri@,
{
    assert forall|i: int, j: int|
        0 <= i < j < nd.len() implies (#[trigger] nd[i]).buffer_id != (
    #[trigger] nd[j]).buffer_id by {
        let i0 = if i < k { i } else { i + 1 };
        let j0 = if j < k { j } else { j + 1 };
        assert(nd[i] == od[i0] && nd[j] == od[j0]);
    }
    assert forall|i: int, j: int|
        0 <= i < j < nd.len() implies (#[trigger] nd[i]).uri@ != (#[trigger] nd[j]).uri@ by {
        let i0 = if i < k { i } else { i + 1 };
        let j0 = if j < k { j } else { j + 1 };
        assert(nd[i] == od[i0] && nd[j] == od[j0]);
    }
}


/// The document state after a sequence of intents when each is an edit:
/// exactly the per-step state change `process_input` promises for
/// `LspInput::Edit`, folded over the sequence.
pub open spec fn spec_docs_after_edits(docs: Seq<DocSync>, edits: Seq<LspInput>) -> Seq<DocSync>
    decreases edits.len(),
{
    if edits.len() == 0 {
        docs
    } else {
        let rest = spec_docs_after_edits(docs, edits.drop_last());
        match edits.last() {
            LspInput::Edit { buffer_id, text } => match spec_find_doc(rest, buffer_id) {
                Some(i) => rest.update(i, spec_doc_with_text(rest[i], text)),
                None => rest,
            },
            _ => rest,
        }
    }
}

/// Version monotonicity: however many edit intents a document receives,
/// its version counter does not move — only `didChange` flushes (sent for
/// completion and save requests, whose contracts send version + 1 and bump
/// the counter) advance it.  So the version a flush sends equals the count
/// of flushes issued so far for the document, not the count of edits.
pub proof fn lemma_edits_leave_versions(docs: Seq<DocSync>, edits: Seq<LspInput>, k: int)
    requires
        0 <= k < docs.len(),
    ensures
        spec_docs_after_edits(docs, edits).len() == docs.len(),
        spec_docs_after_edits(docs, edits)[k].version == docs[k].version,
        spec_docs_after_edits(docs, edits)[k].buffer_id == docs[k].buffer_id,
        spec_docs_after_edits(docs, edits)[k].uri == docs[k].uri,
    decreases edits.len(),
{
    if edits.len() > 0 {
        lemma_edits_leave_versions(docs, edits.drop_last(), k);
        let rest = spec_docs_after_edits(docs, edits.drop_last());
        match edits.last() {
            LspInput::Edit { buffer_id, text } => {
                match spec_find_doc(rest, buffer_id) {
                    Some(i) => {
                        lemma_find_doc_props(rest, buffer_id);
                    },
                    None => {},
                }
            },
            _ => {},
        }
    }
}


// ---------------------------------------------------------------------------
// Completion items, as decoded from the server.
// ---------------------------------------------------------------------------

/// A position in a document, in line and character (as on the wire).
#[derive(Clone, Copy, Debug, PartialEq, Eq, Structural)]
pub struct Position {
    pub line: u32,
    pub character: u32,
}

/// A half-open range of positions.
#[derive(Clone, Copy, Debug, PartialEq, Eq, Structural)]
pub struct TextRange {
    pub start: Position,
    pub end: Position,
}

/// A replacement: the text at `range` becomes `new_text`.
pub struct TextEdit {
    pub range: TextRange,
    pub new_text: String,
}

/// The ghost shape of a text edit.
pub struct EditSpec {
    pub range: TextRange,
    pub new_text: Seq<char>,
}

impl View for TextEdit {
    type V = EditSpec;

    open spec fn view(&self) -> EditSpec {
        EditSpec { range: self.range, new_text: self.new_text@ }
    }
}

/// A completion item as the server sent it, reduced to the fields the
/// client reads.  `raw` is the server's own JSON for the item, kept so a
/// resolve request can forward the payload unchanged.
pub struct CompletionItem {
    pub label: String,
    pub insert_text: Option<String>,
    pub text_edit: Option<TextEdit>,
    pub additional_text_edits: Vec<TextEdit>,
    pub raw: String,
}

/// The ghost shape of a completion item, without the raw payload text
/// (which depends on the server's bytes, not on the document model alone).
pub struct ItemSpec {
    pub label: Seq<char>,
    pub insert_text: Option<Seq<char>>,
    pub text_edit: Option<EditSpec>,
    pub additional_text_edits: Seq<EditSpec>,
}

impl CompletionItem {
    /// The item's shape, raw text aside.
    pub open spec fn spec_core(self) -> ItemSpec {
        ItemSpec {
            label: self.label@,
            insert_text: match self.insert_text {
                Some(t) => Some(t@),
                None => None,
            },
            text_edit: match self.text_edit {
                Some(e) => Some(e@),
                None => None,
            },
            additional_text_edits: self.additional_text_edits@.map_values(|e: TextEdit| e@),
        }
    }
}

/// What accepting a completion does: insert a literal string, or apply one
/// or more text edits; the edits variant subsumes the simple one.
pub enum CompletionData {
    Simple(String),
    Edits(Vec<TextEdit>),
}

/// A completion as handed to the editor.
pub struct LspCompletion {
    /// The server's own JSON for the item, for `completionItem/resolve`.
    pub original_item: String,
    pub label: String,
    pub data: CompletionData,
}

/// The ghost shape of what accepting a completion does.
pub enum DataSpec {
    Simple(Seq<char>),
    Edits(Seq<EditSpec>),
}

/// The ghost shape of a completion as handed to the editor.
pub struct CompletionSpec {
    pub original_item: Seq<char>,
    pub label: Seq<char>,
    pub data: DataSpec,
}

impl View for LspCompletion {
    type V = CompletionSpec;

    open spec fn view(&self) -> CompletionSpec {
        CompletionSpec {
            original_item: self.original_item@,
            label: self.label@,
            data: match self.data {
                CompletionData::Simple(t) => DataSpec::Simple(t@),
                CompletionData::Edits(es) => DataSpec::Edits(
                    es@.map_values(|e: TextEdit| e@),
                ),
            },
        }
    }
}

/// What the inbound router hands to the editor.
pub enum LspOutput {
    Completion(Vec<LspCompletion>),
    CompletionResolve(LspCompletion),
    InlayHints,
    Diagnostics,
}

/// The edits of an item that carries a text edit: the main edit first, the
/// additional ones after it, in server order.
pub open spec fn spec_edits_of(c: CompletionItem) -> Seq<TextEdit> {
    seq![c.text_edit->Some_0] + c.additional_text_edits@
}

/// An item converts when it carries an insertion string or a text edit.
pub open spec fn spec_converts(c: CompletionItem) -> bool {
    c.insert_text is Some || c.text_edit is Some
}

/// `r` is the internal completion for item `c`: same label, the raw payload
/// kept, an insertion string taken as-is, and edits in server order.
pub open spec fn completion_converts_to(c: CompletionItem, r: LspCompletion) -> bool {
    &&& r.original_item == c.raw
    &&& r.label == c.label
    &&& if c.insert_text is Some {
        r.data == CompletionData::Simple(c.insert_text->Some_0)
    } else {
        &&& c.text_edit is Some
        &&& r.data matches CompletionData::Edits(es) && es@ == spec_edits_of(c)
    }
}

/// `out` is the conversion of `items`: each convertible item in order, the
/// rest dropped.
pub open spec fn converts_all(items: Seq<CompletionItem>, out: Seq<LspCompletion>) -> bool
    decreases items.len(),
{
    if items.len() == 0 {
        out.len() == 0
    } else if spec_converts(items.last()) {
        &&& out.len() >= 1
        &&& completion_converts_to(items.last(), out.last())
        &&& converts_all(items.drop_last(), out.drop_last())
    } else {
        converts_all(items.drop_last(), out)
    }
}

fn copy_text_edit(e: &TextEdit) -> (r: TextEdit)
    ensures
        r == *e,
{
    TextEdit { range: e.range, new_text: e.new_text.clone() }
}

/// Converts one server item; items with neither an insertion string nor a
/// text edit are not usable and yield `None`.
pub fn convert_completion(c: CompletionItem) -> (r: Option<LspCompletion>)
    ensures
        match r {
            Some(lc) => spec_converts(c) && completion_converts_to(c, lc),
            None => !spec_converts(c),
        },
{
    let CompletionItem { label, insert_text, text_edit, additional_text_edits, raw } = c;
    match insert_text {
        Some(text) => Some(
            LspCompletion { original_item: raw, label, data: CompletionData::Simple(text) },
        ),
        None => match text_edit {
            Some(edit) => {
                let mut edits: Vec<TextEdit> = Vec::new();
                edits.push(edit);
                let mut i: usize = 0;
                while i < additional_text_edits.len()
                    invariant
                        i <= additional_text_edits@.len(),
                        edits@ == seq![c.text_edit->Some_0] + additional_text_edits@.take(
                            i as int,
                        ),
                        c.text_edit is Some,
                    decreases additional_text_edits@.len() - i,
                {
                    edits.push(copy_text_edit(&additional_text_edits[i]));
                    assert(edits@ =~= seq![c.text_edit->Some_0] + additional_text_edits@.take(
                        i + 1,
                    ));
                    i = i + 1;
                }
                proof {
                    assert(additional_text_edits@.take(additional_text_edits@.len() as int)
                        =~= additional_text_edits@);
                }
                Some(
                    LspCompletion {
                        original_item: raw,
                        label,
                        data: CompletionData::Edits(edits),
                    },
                )
            },
            None => None,
        },
    }
}

/// Converts a batch of server items, keeping server order.
pub fn convert_completions(input: Vec<CompletionItem>) -> (r: Vec<LspCompletion>)
    ensures
        converts_all(input@, r@),
{
    let ghost items = input@;
    let mut out: Vec<LspCompletion> = Vec::new();
    let mut input = input;
    let mut i: usize = 0;
    let n = input.len();
    while i < n
        invariant
            i <= n,
            n == items.len(),
            input@ =~= items,
            converts_all(items.take(i as int), out@),
        decreases n - i,
    {
        let ghost out_before = out@;
        let item = copy_completion_item(&input[i]);
        let ghost gitem = item;
        let converted = convert_completion(item);
        match converted {
            Some(lc) => {
                proof {
                    lemma_convert_respects_similar(gitem, items[i as int], lc);
                }
                out.push(lc);
                proof {
                    assert(items.take(i + 1).drop_last() =~= items.take(i as int));
                    assert(items.take(i + 1).last() == items[i as int]);
                    assert(out@.drop_last() =~= out_before);
                }
            },
            None => {
                proof {
                    assert(items.take(i + 1).drop_last() =~= items.take(i as int));
                    assert(items.take(i + 1).last() == items[i as int]);
                    assert(!spec_converts(items[i as int]));
                }
            },
        }
        i = i + 1;
    }
    proof {
        assert(items.take(n as int) =~= items);
    }
    out
}

/// The same item, field for field (the edit vector compared by contents).
pub open spec fn item_similar(a: CompletionItem, b: CompletionItem) -> bool {
    &&& a.label == b.label
    &&& a.insert_text == b.insert_text
    &&& a.text_edit == b.text_edit
    &&& a.additional_text_edits@ == b.additional_text_edits@
    &&& a.raw == b.raw
}

/// Conversion reads only the fields `item_similar` compares.
pub proof fn lemma_convert_respects_similar(a: CompletionItem, b: CompletionItem, r: LspCompletion)
    requires
        item_similar(a, b),
        completion_converts_to(a, r),
    ensures
        completion_converts_to(b, r),
{
    assert(spec_edits_of(a) =~= spec_edits_of(b));
}

fn copy_completion_item(c: &CompletionItem) -> (r: CompletionItem)
    ensures
        item_similar(r, *c),
{
    let insert_text = match &c.insert_text {
        Some(t) => Some(t.clone()),
        None => None,
    };
    let text_edit = match &c.text_edit {
        Some(e) => Some(copy_text_edit(e)),
        None => None,
    };
    let mut additional: Vec<TextEdit> = Vec::new();
    let mut i: usize = 0;
    while i < c.additional_text_edits.len()
        invariant
            i <= c.additional_text_edits@.len(),
            additional@ == c.additional_text_edits@.take(i as int),
        decreases c.additional_text_edits@.len() - i,
    {
        additional.push(copy_text_edit(&c.additional_text_edits[i]));
        assert(additional@ =~= c.additional_text_edits@.take(i + 1));
        i = i + 1;
    }
    proof {
        assert(c.additional_text_edits@.take(c.additional_text_edits@.len() as int)
            =~= c.additional_text_edits@);
    }
    CompletionItem {
        label: c.label.clone(),
        insert_text,
        text_edit,
        additional_text_edits: additional,
        raw: c.raw.clone(),
    }
}

// ---------------------------------------------------------------------------
// Completion responses, in both wire shapes.
// ---------------------------------------------------------------------------

/// A completion response: servers send either a bare array of items or a
/// list object with an `isIncomplete` flag.
pub enum CompletionResponse {
    Array(Vec<CompletionItem>),
    List { is_incomplete: bool, items: Vec<CompletionItem> },
}

/// The items, whichever shape carried them.
pub open spec fn spec_items_of(resp: CompletionResponse) -> Seq<CompletionItem> {
    match resp {
        CompletionResponse::Array(items) => items@,
        CompletionResponse::List { is_incomplete, items } => items@,
    }
}

/// Normalizes either response shape into the internal completion list.
pub fn normalize_completions(resp: CompletionResponse) -> (r: Vec<LspCompletion>)
    ensures
        converts_all(spec_items_of(resp), r@),
{
    match resp {
        CompletionResponse::Array(items) => convert_completions(items),
        CompletionResponse::List { is_incomplete: _, items } => convert_completions(items),
    }
}

/// Two completion payloads that are the same observable completion: the
/// same raw item, the same label, and the same data (edit lists compared
/// element for element).
pub open spec fn completions_similar(a: LspCompletion, b: LspCompletion) -> bool {
    &&& a.original_item == b.original_item
    &&& a.label == b.label
    &&& match (a.data, b.data) {
        (CompletionData::Simple(x), CompletionData::Simple(y)) => x == y,
        (CompletionData::Edits(x), CompletionData::Edits(y)) => x@ == y@,
        _ => false,
    }
}

/// Conversion is a function of the items: two lists that both convert the
/// same items agree completion for completion.
pub proof fn lemma_converts_all_deterministic(
    items: Seq<CompletionItem>,
    o1: Seq<LspCompletion>,
    o2: Seq<LspCompletion>,
)
    requires
        converts_all(items, o1),
        converts_all(items, o2),
    ensures
        o1.len() == o2.len(),
        forall|k: int| 0 <= k < o1.len() ==> completions_similar(#[trigger] o1[k], o2[k]),
    decreases items.len(),
{
    if items.len() == 0 {
    } else if spec_converts(items.last()) {
        lemma_converts_all_deterministic(items.drop_last(), o1.drop_last(), o2.drop_last());
        assert(completions_similar(o1.last(), o2.last()));
        assert forall|k: int| 0 <= k < o1.len() implies completions_similar(
            #[trigger] o1[k],
            o2[k],
        ) by {
            if k < o1.len() - 1 {
                assert(o1[k] == o1.drop_last()[k]);
                assert(o2[k] == o2.drop_last()[k]);
            }
        }
    } else {
        lemma_converts_all_deterministic(items.drop_last(), o1, o2);
    }
}

/// Completion normalization: a bare-array response and an
/// `{isIncomplete, items}` response carrying the same items produce the
/// same internal completion list.
pub proof fn lemma_completion_normalization(
    items: Vec<CompletionItem>,
    flag: bool,
    o1: Seq<LspCompletion>,
    o2: Seq<LspCompletion>,
)
    requires
        converts_all(spec_items_of(CompletionResponse::Array(items)), o1),
        converts_all(
            spec_items_of(CompletionResponse::List { is_incomplete: flag, items }),
            o2,
        ),
    ensures
        o1.len() == o2.len(),
        forall|k: int| 0 <= k < o1.len() ==> completions_similar(#[trigger] o1[k], o2[k]),
{
    lemma_converts_all_deterministic(items@, o1, o2);
}

// ---------------------------------------------------------------------------
// The client registry.
// ---------------------------------------------------------------------------

/// The key of one running client: clients are never shared across roots or
/// languages.
pub struct ClientKey {
    pub root_uri: String,
    pub lang: LspLang,
}

/// What `get` decided for a (root, language) pair.
#[derive(Clone, Copy, Debug, PartialEq, Eq, Structural)]
pub enum ClientAccess {
    /// A client for the pair already runs, at this slot.
    Existing(usize),
    /// None ran; a slot was registered and the caller must spawn the
    /// process for it.
    Started(usize),
    /// The language has no launch command: not an error, just no features.
    Unavailable,
}

/// The first client slot for the pair.
pub open spec fn spec_find_client(keys: Seq<ClientKey>, root: Seq<char>, lang: LspLang) -> Option<
    int,
>
    decreases keys.len(),
{
    if keys.len() == 0 {
        None
    } else if keys[0].root_uri@ == root && keys[0].lang == lang {
        Some(0)
    } else {
        match spec_find_client(keys.drop_first(), root, lang) {
            Some(i) => Some(i + 1),
            None => None,
        }
    }
}

proof fn lemma_find_client_props(keys: Seq<ClientKey>, root: Seq<char>, lang: LspLang)
    ensures
        match spec_find_client(keys, root, lang) {
            Some(i) => 0 <= i < keys.len() && keys[i].root_uri@ == root && keys[i].lang == lang
                && forall|j: int|
                0 <= j < i ==> !((#[trigger] keys[j]).root_uri@ == root && keys[j].lang == lang),
            None => forall|j: int|
                0 <= j < keys.len() ==> !((#[trigger] keys[j]).root_uri@ == root && keys[j].lang
                    == lang),
        },
    decreases keys.len(),
{
    if keys.len() == 0 {
    } else if keys[0].root_uri@ == root && keys[0].lang == lang {
    } else {
        lemma_find_client_props(keys.drop_first(), root, lang);
        let t = keys.drop_first();
        match spec_find_client(t, root, lang) {
            Some(i) => {
                assert(keys[i + 1] == t[i]);
                assert forall|j: int| 0 <= j < i + 1 implies !((#[trigger] keys[j]).root_uri@
                    == root && keys[j].lang == lang) by {
                    if j >= 1 {
                        assert(keys[j] == t[j - 1]);
                    }
                }
            },
            None => {
                assert forall|j: int| 0 <= j < keys.len() implies !((#[trigger] keys[j]).root_uri@
                    == root && keys[j].lang == lang) by {
                    if j >= 1 {
                        assert(keys[j] == t[j - 1]);
                    }
                }
            },
        }
    }
}

impl LspSystem {
    /// The current value of the ID counter, so a caller can check headroom.
    pub fn counter_value(&self) -> (r: u64)
        ensures
            r == self.spec_counter(),
    {
        self.counter
    }

    /// How many client slots are registered.
    pub fn client_count(&self) -> (r: usize)
        ensures
            r == self.spec_clients().len(),
    {
        self.clients.len()
    }

    /// The client registry's lookup: the existing slot for the pair if one
    /// is registered; otherwise, if the language has a launch command, a
    /// freshly registered slot the caller must start a process for; and
    /// `Unavailable` — no error — for a language with no command.  Should
    /// the spawn then fail, the caller evicts the slot with
    /// `remove_client`, so that no client stays registered under the key.
    pub fn get(&mut self, root_uri: &String, lang: LspLang, has_command: bool) -> (r:
        ClientAccess)
        requires
            old(self).wf(),
        ensures
            final(self).wf(),
            final(self).spec_counter() == old(self).spec_counter(),
            final(self).spec_issued() == old(self).spec_issued(),
            final(self).spec_requests() == old(self).spec_requests(),
            match spec_find_client(old(self).spec_clients(), root_uri@, lang) {
                Some(i) => r == ClientAccess::Existing(i as usize) && final(self).spec_clients()
                    == old(self).spec_clients(),
                None => if has_command {
                    &&& r == ClientAccess::Started(old(self).spec_clients().len() as usize)
                    &&& final(self).spec_clients().len() == old(self).spec_clients().len() + 1
                    &&& final(self).spec_clients().last().root_uri@ == root_uri@
                    &&& final(self).spec_clients().last().lang == lang
                    &&& forall|j: int|
                        0 <= j < old(self).spec_clients().len() ==> final(self).spec_clients()[j]
                            == old(self).spec_clients()[j]
                } else {
                    r == ClientAccess::Unavailable && final(self).spec_clients() == old(
                        self,
                    ).spec_clients()
                },
            },
    {
        proof {
            lemma_find_client_props(self.clients@, root_uri@, lang);
        }
        let mut i: usize = 0;
        while i < self.clients.len()
            invariant
                old(self).wf(),
                i <= self.clients@.len(),
                forall|j: int|
                    0 <= j < i ==> !((#[trigger] self.clients@[j]).root_uri@ == root_uri@
                        && self.clients@[j].lang == lang),
                *self == *old(self),
            decreases self.clients@.len() - i,
        {
            if self.clients[i].root_uri == *root_uri && self.clients[i].lang == lang {
                proof {
                    lemma_find_client_props(self.clients@, root_uri@, lang);
                    match spec_find_client(self.clients@, root_uri@, lang) {
                        Some(k) => {
                            if k < i {
                                assert(!(self.clients@[k].root_uri@ == root_uri@
                                    && self.clients@[k].lang == lang));
                            }
                            if k > i {
                                assert(!(self.clients@[i as int].root_uri@ == root_uri@
                                    && self.clients@[i as int].lang == lang));
                            }
                        },
                        None => {
                            assert(!(self.clients@[i as int].root_uri@ == root_uri@
                                && self.clients@[i as int].lang == lang));
                        },
                    }
                }
                return ClientAccess::Existing(i);
            }
            i = i + 1;
        }
        proof {
            lemma_find_client_props(self.clients@, root_uri@, lang);
            if spec_find_client(self.clients@, root_uri@, lang) is Some {
                let k = spec_find_client(self.clients@, root_uri@, lang)->Some_0;
                assert(!(self.clients@[k].root_uri@ == root_uri@ && self.clients@[k].lang
                    == lang));
            }
        }
        if has_command {
            let slot = self.clients.len();
            self.clients.push(ClientKey { root_uri: root_uri.clone(), lang });
            ClientAccess::Started(slot)
        } else {
            ClientAccess::Unavailable
        }
    }
}


impl LspSystem {
    /// Evicts the client slot for a pair, if one is registered.  After a
    /// failed spawn this is how the caller keeps the failure from leaving a
    /// client registered; and an evicted key re-requested later is the one
    /// way a fresh client ever comes up for the pair again.
    pub fn remove_client(&mut self, root_uri: &String, lang: LspLang)
        requires
            old(self).wf(),
        ensures
            final(self).wf(),
            final(self).spec_counter() == old(self).spec_counter(),
            final(self).spec_issued() == old(self).spec_issued(),
            final(self).spec_requests() == old(self).spec_requests(),
            final(self).spec_clients() == (match spec_find_client(
                old(self).spec_clients(),
                root_uri@,
                lang,
            ) {
                Some(i) => old(self).spec_clients().remove(i),
                None => old(self).spec_clients(),
            }),
    {
        proof {
            lemma_find_client_props(self.clients@, root_uri@, lang);
        }
        let mut i: usize = 0;
        while i < self.clients.len()
            invariant
                old(self).wf(),
                i <= self.clients@.len(),
                forall|j: int|
                    0 <= j < i ==> !((#[trigger] self.clients@[j]).root_uri@ == root_uri@
                        && self.clients@[j].lang == lang),
                *self == *old(self),
            decreases self.clients@.len() - i,
        {
            if self.clients[i].root_uri == *root_uri && self.clients[i].lang == lang {
                proof {
                    lemma_find_client_props(self.clients@, root_uri@, lang);
                    match spec_find_client(self.clients@, root_uri@, lang) {
                        Some(k) => {
                            if k < i {
                                assert(!(self.clients@[k].root_uri@ == root_uri@
                                    && self.clients@[k].lang == lang));
                            }
                            if k > i {
                                assert(!(self.clients@[i as int].root_uri@ == root_uri@
                                    && self.clients@[i as int].lang == lang));
                            }
                        },
                        None => {
                            assert(!(self.clients@[i as int].root_uri@ == root_uri@
                                && self.clients@[i as int].lang == lang));
                        },
                    }
                }
                self.clients.remove(i);
                return ;
            }
            i = i + 1;
        }
        proof {
            lemma_find_client_props(self.clients@, root_uri@, lang);
            if spec_find_client(self.clients@, root_uri@, lang) is Some {
                let k = spec_find_client(self.clients@, root_uri@, lang)->Some_0;
                assert(self.clients@[k].root_uri@ != root_uri@ || self.clients@[k].lang != lang);
            }
        }
    }
}


// ---------------------------------------------------------------------------
// Conversion at the ghost level, for contracts that speak of the parsed
// document's model rather than of decoded values.
// ---------------------------------------------------------------------------

/// Whether an item, by its shape, is usable.
pub open spec fn spec_converts_core(c: ItemSpec) -> bool {
    c.insert_text is Some || c.text_edit is Some
}

/// `r` is the completion for the item shape `c`: same label, an insertion
/// string taken as-is, edits in server order.  (The raw payload text is not
/// part of the shape and is tied down one level below, at the decoder.)
pub open spec fn core_converts_to(c: ItemSpec, r: CompletionSpec) -> bool {
    &&& r.label == c.label
    &&& if c.insert_text is Some {
        r.data == DataSpec::Simple(c.insert_text->Some_0)
    } else {
        &&& c.text_edit is Some
        &&& r.data == DataSpec::Edits(seq![c.text_edit->Some_0] + c.additional_text_edits)
    }
}

/// `out` is the conversion of the item shapes `items`, in order, usable
/// items kept and the rest dropped.
pub open spec fn converts_all_core(items: Seq<ItemSpec>, out: Seq<CompletionSpec>) -> bool
    decreases items.len(),
{
    if items.len() == 0 {
        out.len() == 0
    } else if spec_converts_core(items.last()) {
        &&& out.len() >= 1
        &&& core_converts_to(items.last(), out.last())
        &&& converts_all_core(items.drop_last(), out.drop_last())
    } else {
        converts_all_core(items.drop_last(), out)
    }
}

/// Conversion of one item at the value level implies it at the ghost level.
pub proof fn lemma_convert_core_bridge(c: CompletionItem, r: LspCompletion)
    requires
        completion_converts_to(c, r),
    ensures
        core_converts_to(c.spec_core(), r@),
{
    if c.insert_text is Some {
    } else {
        let es = r.data->Edits_0;
        assert(es@ == spec_edits_of(c));
        assert(es@.map_values(|e: TextEdit| e@) =~= seq![c.spec_core().text_edit->Some_0]
            + c.spec_core().additional_text_edits) by {
            assert forall|i: int| 0 <= i < es@.len() implies es@.map_values(|e: TextEdit| e@)[i]
                == (seq![c.spec_core().text_edit->Some_0]
                + c.spec_core().additional_text_edits)[i] by {
                if i == 0 {
                    assert(es@[0] == c.text_edit->Some_0);
                } else {
                    assert(es@[i] == c.additional_text_edits@[i - 1]);
                    assert(c.spec_core().additional_text_edits[i - 1]
                        == c.additional_text_edits@[i - 1]@);
                }
            }
        }
    }
}

/// Conversion of a batch at the value level implies it at the ghost level.
pub proof fn lemma_converts_all_core_bridge(items: Seq<CompletionItem>, out: Seq<LspCompletion>)
    requires
        converts_all(items, out),
    ensures
        converts_all_core(
            items.map_values(|c: CompletionItem| c.spec_core()),
            out.map_values(|r: LspCompletion| r@),
        ),
    decreases items.len(),
{
    let ic = items.map_values(|c: CompletionItem| c.spec_core());
    let oc = out.map_values(|r: LspCompletion| r@);
    if items.len() == 0 {
    } else {
        assert(ic.last() == items.last().spec_core());
        assert(ic.drop_last() =~= items.drop_last().map_values(
            |c: CompletionItem| c.spec_core(),
        ));
        if spec_converts(items.last()) {
            lemma_converts_all_core_bridge(items.drop_last(), out.drop_last());
            lemma_convert_core_bridge(items.last(), out.last());
            assert(oc.drop_last() =~= out.drop_last().map_values(|r: LspCompletion| r@));
            assert(oc.last() == out.last()@);
            assert(spec_converts_core(ic.last()));
        } else {
            lemma_converts_all_core_bridge(items.drop_last(), out);
            assert(!spec_converts_core(ic.last()));
        }
    }
}

} // verus!
