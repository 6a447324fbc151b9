//! Inbound router: the store of per-document results, the diagnostic
//! replacement rules, and the wholesale replacement of inlay hints.
//! Decoding of raw JSON and the response dispatch live in `decode`.

use crate::buffer::{Diagnostic, Severity};
use crate::buffer::DiagnosticSpec;
use crate::lsp_ext::{HintSpec, InlayHint};
use vstd::pervasive::VecAdditionalExecFns;
use vstd::prelude::*;

verus! {

/// A diagnostic as the wire carries it: `related` holds the URIs of its
/// related-information locations, in order.
pub struct RawDiagnostic {
    pub range: crate::lsp::TextRange,
    pub severity: Option<Severity>,
    pub message: String,
    pub related: Vec<String>,
}

/// The ghost shape of a wire diagnostic.
pub struct DiagSpec {
    pub range: crate::lsp::TextRange,
    pub severity: Option<Severity>,
    pub message: Seq<char>,
    pub related: Seq<Seq<char>>,
}

impl View for RawDiagnostic {
    type V = DiagSpec;

    open spec fn view(&self) -> DiagSpec {
        DiagSpec {
            range: self.range,
            severity: self.severity,
            message: self.message@,
            related: self.related@.map_values(|u: String| u@),
        }
    }
}

/// The document a diagnostic belongs to: the first related-information
/// location always wins over the notification's own URI.
pub open spec fn spec_effective_uri(d: RawDiagnostic, default_uri: Seq<char>) -> Seq<char> {
    if d.related@.len() > 0 {
        d.related@[0]@
    } else {
        default_uri
    }
}

/// The diagnostic as attached to a document; one without a severity counts
/// as an error.
pub open spec fn spec_diag_of(d: RawDiagnostic) -> Diagnostic {
    Diagnostic {
        range: d.range,
        severity: match d.severity {
            Some(s) => s,
            None => Severity::Error,
        },
        message: d.message,
    }
}

/// The diagnostics a batch assigns to one document: those whose effective
/// URI is the document's, in batch order.
pub open spec fn spec_batch_for(
    batch: Seq<RawDiagnostic>,
    default_uri: Seq<char>,
    uri: Seq<char>,
) -> Seq<Diagnostic>
    decreases batch.len(),
{
    if batch.len() == 0 {
        Seq::empty()
    } else {
        let rest = spec_batch_for(batch.drop_last(), default_uri, uri);
        if spec_effective_uri(batch.last(), default_uri) == uri {
            rest.push(spec_diag_of(batch.last()))
        } else {
            rest
        }
    }
}

/// An inlay hint together with the character position it hangs off.
pub struct AnchoredHint {
    pub anchor: crate::lsp::Position,
    pub hint: InlayHint,
}

/// The hints of a batch, each with its anchor.
pub open spec fn spec_anchored(hints: Seq<InlayHint>) -> Seq<AnchoredHint> {
    hints.map_values(|h: InlayHint| AnchoredHint { anchor: h.spec_anchor(), hint: h })
}

/// The per-document results the router writes: diagnostics and inlay hints.
pub struct DocRecord {
    pub uri: String,
    pub diagnostics: Vec<Diagnostic>,
    pub inlay_hints: Vec<AnchoredHint>,
}

/// The table of open documents' results, one entry per URI.
pub struct DocStore {
    pub docs: Vec<DocRecord>,
}

/// The first record with this URI.
pub open spec fn spec_find_record(docs: Seq<DocRecord>, uri: Seq<char>) -> Option<int>
    decreases docs.len(),
{
    if docs.len() == 0 {
        None
    } else if docs[0].uri@ == uri {
        Some(0)
    } else {
        match spec_find_record(docs.drop_first(), uri) {
            Some(i) => Some(i + 1),
            None => None,
        }
    }
}

pub proof fn lemma_find_record_props(docs: Seq<DocRecord>, uri: Seq<char>)
    ensures
        match spec_find_record(docs, uri) {
            Some(i) => 0 <= i < docs.len() && docs[i].uri@ == uri && forall|j: int|
                0 <= j < i ==> (#[trigger] docs[j]).uri@ != uri,
            None => forall|j: int| 0 <= j < docs.len() ==> (#[trigger] docs[j]).uri@ != uri,
        },
    decreases docs.len(),
{
    if docs.len() == 0 {
    } else if docs[0].uri@ == uri {
    } else {
        lemma_find_record_props(docs.drop_first(), uri);
        let t = docs.drop_first();
        match spec_find_record(t, uri) {
            Some(i) => {
                assert(docs[i + 1] == t[i]);
                assert forall|j: int| 0 <= j < i + 1 implies (#[trigger] docs[j]).uri@ != uri by {
                    if j >= 1 {
                        assert(docs[j] == t[j - 1]);
                        assert(t[j - 1].uri@ != uri);
                    }
                }
            },
            None => {
                assert forall|j: int| 0 <= j < docs.len() implies (#[trigger] docs[j]).uri@
                    != uri by {
                    if j >= 1 {
                        assert(docs[j] == t[j - 1]);
                        assert(t[j - 1].uri@ != uri);
                    }
                }
            },
        }
    }
}

impl DocStore {
    /// URIs each name at most one record.
    pub open spec fn wf(self) -> bool {
        forall|i: int, j: int|
            0 <= i < j < self.docs@.len() ==> (#[trigger] self.docs@[i]).uri@ != (
            #[trigger] self.docs@[j]).uri@
    }

    pub fn new() -> (r: DocStore)
        ensures
            r.wf(),
            r.docs@ == Seq::<DocRecord>::empty(),
    {
        DocStore { docs: Vec::new() }
    }

    fn find_record(&self, uri: &String) -> (r: Option<usize>)
        ensures
            match r {
                Some(i) => spec_find_record(self.docs@, uri@) == Some(i as int),
                None => spec_find_record(self.docs@, uri@) is None,
            },
    {
        let mut i: usize = 0;
        while i < self.docs.len()
            invariant
                i <= self.docs@.len(),
                forall|j: int| 0 <= j < i ==> (#[trigger] self.docs@[j]).uri@ != uri@,
            decreases self.docs@.len() - i,
        {
            if self.docs[i].uri == *uri {
                proof {
                    lemma_find_record_props(self.docs@, uri@);
                    match spec_find_record(self.docs@, uri@) {
                        Some(k) => {
                            if k != i {
                                assert(self.docs@[if k < i {
                                    k
                                } else {
                                    i as int
                                }].uri@ != uri@);
                            }
                        },
                        None => {
                            assert(self.docs@[i as int].uri@ != uri@);
                        },
                    }
                }
                return Some(i);
            }
            i = i + 1;
        }
        proof {
            lemma_find_record_props(self.docs@, uri@);
            if spec_find_record(self.docs@, uri@) is Some {
                let k = spec_find_record(self.docs@, uri@)->Some_0;
                assert(self.docs@[k].uri@ != uri@);
            }
        }
        None
    }

    /// Registers a document; a URI already present is left as it is.
    pub fn open_doc(&mut self, uri: String)
        requires
            old(self).wf(),
        ensures
            final(self).wf(),
            match spec_find_record(old(self).docs@, uri@) {
                Some(_) => final(self).docs@ == old(self).docs@,
                None => {
                    &&& final(self).docs@.len() == old(self).docs@.len() + 1
                    &&& forall|j: int|
                        0 <= j < old(self).docs@.len() ==> final(self).docs@[j]
                            == old(self).docs@[j]
                    &&& final(self).docs@.last().uri == uri
                    &&& final(self).docs@.last().diagnostics@.len() == 0
                    &&& final(self).docs@.last().inlay_hints@.len() == 0
                },
            },
    {
        match self.find_record(&uri) {
            Some(_) => {},
            None => {
                proof {
                    lemma_find_record_props(self.docs@, uri@);
                }
                self.docs.push(
                    DocRecord { uri, diagnostics: Vec::new(), inlay_hints: Vec::new() },
                );
                proof {
                    let od = old(self).docs@;
                    let nd = self.docs@;
                    assert forall|i: int, j: int|
                        0 <= i < j < nd.len() implies (#[trigger] nd[i]).uri@ != (
                    #[trigger] nd[j]).uri@ by {
                        if j < od.len() {
                            assert(nd[i] == od[i] && nd[j] == od[j]);
                        } else {
                            assert(nd[i] == od[i]);
                            assert(od[i].uri@ != uri@);
                        }
                    }
                }
            },
        }
    }

    /// The diagnostics currently attached to a document.
    pub fn diagnostics_of(&self, uri: &String) -> (r: Option<&Vec<Diagnostic>>)
        ensures
            match spec_find_record(self.docs@, uri@) {
                Some(i) => r matches Some(v) && v@ == self.docs@[i].diagnostics@,
                None => r is None,
            },
    {
        proof {
            lemma_find_record_props(self.docs@, uri@);
        }
        match self.find_record(uri) {
            Some(i) => Some(&self.docs[i].diagnostics),
            None => None,
        }
    }

    /// The inlay hints currently attached to a document.
    pub fn inlay_hints_of(&self, uri: &String) -> (r: Option<&Vec<AnchoredHint>>)
        ensures
            match spec_find_record(self.docs@, uri@) {
                Some(i) => r matches Some(v) && v@ == self.docs@[i].inlay_hints@,
                None => r is None,
            },
    {
        proof {
            lemma_find_record_props(self.docs@, uri@);
        }
        match self.find_record(uri) {
            Some(i) => Some(&self.docs[i].inlay_hints),
            None => None,
        }
    }

    /// Replaces a document's inlay hints wholesale, each anchored by its
    /// kind's rule; hints for a document that is not open are dropped.
    pub fn set_inlay_hints(&mut self, uri: &String, hints: Vec<InlayHint>)
        requires
            old(self).wf(),
        ensures
            final(self).wf(),
            final(self).docs@.len() == old(self).docs@.len(),
            match spec_find_record(old(self).docs@, uri@) {
                Some(i) => {
                    &&& final(self).docs@[i].uri == old(self).docs@[i].uri
                    &&& final(self).docs@[i].diagnostics@ == old(self).docs@[i].diagnostics@
                    &&& final(self).docs@[i].inlay_hints@ == spec_anchored(hints@)
                    &&& forall|j: int|
                        0 <= j < old(self).docs@.len() && j != i ==> final(self).docs@[j] == old(
                        self,
                    ).docs@[j]
                },
                None => final(self).docs@ == old(self).docs@,
            },
            spec_hints_applied(
                old(self).docs@,
                final(self).docs@,
                uri@,
                hints@.map_values(|h: InlayHint| h@),
            ),
    {
        proof {
            lemma_find_record_props(self.docs@, uri@);
        }
        match self.find_record(uri) {
            Some(i) => {
                let mut anchored: Vec<AnchoredHint> = Vec::new();
                let mut hints = hints;
                let ghost all = hints@;
                let n = hints.len();
                // Walk from the back, popping, then reverse by insertion order.
                let mut k: usize = 0;
                while k < n
                    invariant
                        k <= n,
                        n == all.len(),
                        hints@ =~= all.skip(k as int),
                        anchored@ =~= spec_anchored(all.take(k as int)),
                    decreases n - k,
                {
                    let h = hints.remove(0);
                    proof {
                        assert(h == all[k as int]);
                        assert(hints@ =~= all.skip(k + 1));
                    }
                    let a = h.anchor();
                    anchored.push(AnchoredHint { anchor: a, hint: h });
                    proof {
                        assert(anchored@ =~= spec_anchored(all.take(k + 1)));
                    }
                    k = k + 1;
                }
                proof {
                    assert(all.take(n as int) =~= all);
                }
                let mut rec = DocRecord {
                    uri: String::new(),
                    diagnostics: Vec::new(),
                    inlay_hints: Vec::new(),
                };
                self.docs.set_and_swap(i, &mut rec);
                let DocRecord { uri: rec_uri, diagnostics, inlay_hints: _ } = rec;
                let mut rec = DocRecord { uri: rec_uri, diagnostics, inlay_hints: anchored };
                self.docs.set_and_swap(i, &mut rec);
                proof {
                    let od = old(self).docs@;
                    let nd = self.docs@;
                    assert(nd =~= od.update(
                        spec_find_record(od, uri@)->Some_0,
                        nd[spec_find_record(od, uri@)->Some_0],
                    ));
                    assert forall|x: int, y: int|
                        0 <= x < y < nd.len() implies (#[trigger] nd[x]).uri@ != (
                    #[trigger] nd[y]).uri@ by {
                        assert(nd[x].uri@ == od[x].uri@ && nd[y].uri@ == od[y].uri@);
                    }
                    let hv = all.map_values(|h: InlayHint| h@);
                    let rec_i = spec_find_record(od, uri@)->Some_0;
                    assert forall|k: int| 0 <= k < hv.len() implies (
                    #[trigger] nd[rec_i].inlay_hints@[k]).hint@ == hv[k]
                        && nd[rec_i].inlay_hints@[k].anchor == hv[k].spec_anchor() by {
                        assert(nd[rec_i].inlay_hints@[k] == spec_anchored(all)[k]);
                        assert(spec_anchored(all)[k].hint == all[k]);
                        assert(all[k].spec_anchor() == all[k]@.spec_anchor());
                    }
                }
            },
            None => {},
        }
    }
}


impl DocStore {
    /// Routes one `publishDiagnostics` batch.  Each diagnostic lands on the
    /// document its effective URI names — the first related-information
    /// location wins over the notification's own `default_uri`.  A
    /// document's previous diagnostics are replaced, not merged: they are
    /// cleared exactly once per batch, lazily, the moment the batch's first
    /// diagnostic for that document is seen.  A document the batch never
    /// names keeps its diagnostics, and inlay hints are untouched.
    /// Diagnostics for URIs with no record are dropped.
    pub fn process_diagnostics(&mut self, default_uri: &String, batch: Vec<RawDiagnostic>)
        requires
            old(self).wf(),
        ensures
            final(self).wf(),
            final(self).docs@.len() == old(self).docs@.len(),
            forall|k: int|
                0 <= k < old(self).docs@.len() ==> {
                    let b = spec_batch_for(batch@, default_uri@, old(self).docs@[k].uri@);
                    &&& (#[trigger] final(self).docs@[k]).uri == old(self).docs@[k].uri
                    &&& final(self).docs@[k].inlay_hints@ == old(self).docs@[k].inlay_hints@
                    &&& final(self).docs@[k].diagnostics@ == if b.len() > 0 {
                        b
                    } else {
                        old(self).docs@[k].diagnostics@
                    }
                },
            spec_diagnostics_applied(
                old(self).docs@,
                final(self).docs@,
                default_uri@,
                batch@.map_values(|d: RawDiagnostic| d@),
            ),
    {
        let ghost od = self.docs@;
        let ghost all = batch@;
        let mut cleared: Vec<bool> = Vec::new();
        let mut i: usize = 0;
        while i < self.docs.len()
            invariant
                self.docs@ == od,
                i <= od.len(),
                cleared@.len() == i,
                forall|k: int| 0 <= k < i ==> !(#[trigger] cleared@[k]),
            decreases self.docs@.len() - i,
        {
            cleared.push(false);
            i = i + 1;
        }
        let mut batch = batch;
        let n = batch.len();
        let mut t: usize = 0;
        while t < n
            invariant
                n == all.len(),
                t <= n,
                batch@ =~= all.skip(t as int),
                self.docs@.len() == od.len(),
                cleared@.len() == od.len(),
                forall|k: int|
                    0 <= k < od.len() ==> {
                        let b = spec_batch_for(all.take(t as int), default_uri@, od[k].uri@);
                        &&& (#[trigger] self.docs@[k]).uri == od[k].uri
                        &&& self.docs@[k].inlay_hints@ == od[k].inlay_hints@
                        &&& cleared@[k] == (b.len() > 0)
                        &&& self.docs@[k].diagnostics@ == if b.len() > 0 {
                            b
                        } else {
                            od[k].diagnostics@
                        }
                    },
                forall|x: int, y: int|
                    0 <= x < y < od.len() ==> (#[trigger] od[x]).uri@ != (#[trigger] od[y]).uri@,
            decreases n - t,
        {
            let ghost docs0 = self.docs@;
            let ghost cleared0 = cleared@;
            let d = batch.remove(0);
            proof {
                assert(d == all[t as int]);
                assert(batch@ =~= all.skip(t + 1));
                assert(all.take(t + 1).drop_last() =~= all.take(t as int));
                assert(all.take(t + 1).last() == all[t as int]);
            }
            let eff: String = if d.related.len() > 0 {
                d.related[0].clone()
            } else {
                default_uri.clone()
            };
            proof {
                assert(eff@ == spec_effective_uri(all[t as int], default_uri@));
            }
            match self.find_record(&eff) {
                Some(rec_i) => {
                    proof {
                        lemma_find_record_props(self.docs@, eff@);
                        assert(docs0[rec_i as int].uri@ == eff@);
                        assert(od[rec_i as int].uri@ == eff@);
                    }
                    let was_cleared = cleared[rec_i];
                    let mut rec = DocRecord {
                        uri: String::new(),
                        diagnostics: Vec::new(),
                        inlay_hints: Vec::new(),
                    };
                    self.docs.set_and_swap(rec_i, &mut rec);
                    let DocRecord { uri: rec_uri, diagnostics: old_diags, inlay_hints } = rec;
                    proof {
                        assert(rec_uri == docs0[rec_i as int].uri);
                        assert(old_diags@ == docs0[rec_i as int].diagnostics@);
                        assert(inlay_hints@ == docs0[rec_i as int].inlay_hints@);
                    }
                    let mut diags = if was_cleared {
                        old_diags
                    } else {
                        Vec::new()
                    };
                    let severity = match d.severity {
                        Some(s) => s,
                        None => Severity::Error,
                    };
                    diags.push(Diagnostic { range: d.range, severity, message: d.message });
                    let mut rec2 = DocRecord { uri: rec_uri, diagnostics: diags, inlay_hints };
                    self.docs.set_and_swap(rec_i, &mut rec2);
                    cleared.set(rec_i, true);
                    proof {
                        let ki = rec_i as int;
                        assert(self.docs@.len() == docs0.len());
                        assert(forall|k: int|
                            0 <= k < docs0.len() && k != ki ==> #[trigger] self.docs@[k]
                                == docs0[k]);
                        assert(cleared@ =~= cleared0.update(ki, true));
                        let bt = spec_batch_for(all.take(t as int), default_uri@, od[ki].uri@);
                        let b1 = spec_batch_for(all.take(t + 1), default_uri@, od[ki].uri@);
                        assert(spec_effective_uri(all[t as int], default_uri@) == od[ki].uri@);
                        assert(b1 == bt.push(spec_diag_of(all[t as int])));
                        assert(docs0[ki].uri == od[ki].uri);
                        assert(self.docs@[ki].uri == od[ki].uri);
                        assert(self.docs@[ki].inlay_hints@ == od[ki].inlay_hints@);
                        assert(self.docs@[ki].diagnostics@ =~= b1) by {
                            assert(cleared0[ki] == (bt.len() > 0));
                            assert(docs0[ki].diagnostics@ == if bt.len() > 0 {
                                bt
                            } else {
                                od[ki].diagnostics@
                            });
                            if was_cleared {
                                assert(bt.len() > 0);
                                assert(old_diags@ == bt);
                            } else {
                                assert(bt.len() == 0);
                                assert(bt =~= Seq::<Diagnostic>::empty());
                            }
                        }
                        assert forall|k: int| 0 <= k < od.len() implies {
                            let b = spec_batch_for(all.take(t + 1), default_uri@, od[k].uri@);
                            &&& (#[trigger] self.docs@[k]).uri == od[k].uri
                            &&& self.docs@[k].inlay_hints@ == od[k].inlay_hints@
                            &&& cleared@[k] == (b.len() > 0)
                            &&& self.docs@[k].diagnostics@ == if b.len() > 0 {
                                b
                            } else {
                                od[k].diagnostics@
                            }
                        } by {
                            let bk = spec_batch_for(all.take(t as int), default_uri@, od[k].uri@);
                            let b = spec_batch_for(all.take(t + 1), default_uri@, od[k].uri@);
                            if k == ki {
                                assert(b.len() > 0);
                            } else {
                                assert(self.docs@[k] == docs0[k]);
                                assert(docs0[k].uri == od[k].uri);
                                assert(docs0[k].inlay_hints@ == od[k].inlay_hints@);
                                assert(cleared0[k] == (bk.len() > 0));
                                assert(docs0[k].diagnostics@ == if bk.len() > 0 {
                                    bk
                                } else {
                                    od[k].diagnostics@
                                });
                                assert(od[k].uri@ != eff@);
                                assert(spec_effective_uri(all[t as int], default_uri@)
                                    != od[k].uri@);
                                assert(b == bk);
                                assert(cleared@[k] == cleared0[k]);
                            }
                        }
                    }
                },
                None => {
                    proof {
                        lemma_find_record_props(self.docs@, eff@);
                        assert forall|k: int| 0 <= k < od.len() implies {
                            let b = spec_batch_for(all.take(t + 1), default_uri@, od[k].uri@);
                            &&& (#[trigger] self.docs@[k]).uri == od[k].uri
                            &&& self.docs@[k].inlay_hints@ == od[k].inlay_hints@
                            &&& cleared@[k] == (b.len() > 0)
                            &&& self.docs@[k].diagnostics@ == if b.len() > 0 {
                                b
                            } else {
                                od[k].diagnostics@
                            }
                        } by {
                            assert(self.docs@[k].uri@ != eff@);
                            assert(od[k].uri@ != eff@);
                            assert(spec_effective_uri(all[t as int], default_uri@) != od[k].uri@);
                            assert(spec_batch_for(all.take(t + 1), default_uri@, od[k].uri@)
                                =~= spec_batch_for(all.take(t as int), default_uri@, od[k].uri@));
                        }
                    }
                },
            }
            proof {
                assert(batch@ =~= all.skip(t + 1));
                assert(self.docs@.len() == od.len());
                assert(cleared@.len() == od.len());
                assert forall|k: int|
                    0 <= k < od.len() implies {
                        let b = spec_batch_for(all.take(t + 1), default_uri@, od[k].uri@);
                        &&& (#[trigger] self.docs@[k]).uri == od[k].uri
                        &&& self.docs@[k].inlay_hints@ == od[k].inlay_hints@
                        &&& cleared@[k] == (b.len() > 0)
                        &&& self.docs@[k].diagnostics@ == if b.len() > 0 {
                            b
                        } else {
                            od[k].diagnostics@
                        }
                    } by {
                    assert(0 <= k < od.len());
                }
            }
            t = t + 1;
        }
        proof {
            assert(all.take(n as int) =~= all);
            let bv = all.map_values(|d: RawDiagnostic| d@);
            assert forall|k: int| 0 <= k < od.len() implies {
                let b = spec_batch_for_v(bv, default_uri@, od[k].uri@);
                &&& (#[trigger] self.docs@[k]).uri == od[k].uri
                &&& self.docs@[k].inlay_hints@ == od[k].inlay_hints@
                &&& self.docs@[k].diagnostics@.map_values(|x: Diagnostic| x@) == if b.len() > 0 {
                    b
                } else {
                    od[k].diagnostics@.map_values(|x: Diagnostic| x@)
                }
            } by {
                lemma_batch_for_view(all, default_uri@, od[k].uri@);
                let be = spec_batch_for(all, default_uri@, od[k].uri@);
                assert(self.docs@[k].diagnostics@ == if be.len() > 0 {
                    be
                } else {
                    od[k].diagnostics@
                });
            }
        }
    }
}

/// Diagnostic routing, first half: a diagnostic that carries related
/// information belongs to the document its first related location names,
/// not to the notification's own document.
pub proof fn lemma_related_location_wins(d: RawDiagnostic, default_uri: Seq<char>)
    requires
        d.related@.len() > 0,
    ensures
        spec_effective_uri(d, default_uri) == d.related@[0]@,
{
}

/// Diagnostic routing, second half: a batch none of whose diagnostics
/// effectively names a document assigns that document nothing, so (by
/// `process_diagnostics`' contract) its existing diagnostics stay.
pub proof fn lemma_untouched_document(
    batch: Seq<RawDiagnostic>,
    default_uri: Seq<char>,
    uri: Seq<char>,
)
    requires
        forall|j: int|
            0 <= j < batch.len() ==> spec_effective_uri(#[trigger] batch[j], default_uri) != uri,
    ensures
        spec_batch_for(batch, default_uri, uri) == Seq::<Diagnostic>::empty(),
    decreases batch.len(),
{
    if batch.len() > 0 {
        assert forall|j: int|
            0 <= j < batch.drop_last().len() implies spec_effective_uri(
            #[trigger] batch.drop_last()[j],
            default_uri,
        ) != uri by {
            assert(batch.drop_last()[j] == batch[j]);
        }
        lemma_untouched_document(batch.drop_last(), default_uri, uri);
        assert(spec_effective_uri(batch.last(), default_uri) != uri);
    }
}


// ---------------------------------------------------------------------------
// The store's transitions at the ghost level, for the router's contract.
// ---------------------------------------------------------------------------

/// The attached form of a wire diagnostic, at the ghost level.
pub open spec fn spec_diag_of_v(d: DiagSpec) -> DiagnosticSpec {
    DiagnosticSpec {
        range: d.range,
        severity: match d.severity {
            Some(s) => s,
            None => Severity::Error,
        },
        message: d.message,
    }
}

/// The effective URI, at the ghost level: the first related location wins.
pub open spec fn spec_effective_uri_v(d: DiagSpec, default_uri: Seq<char>) -> Seq<char> {
    if d.related.len() > 0 {
        d.related[0]
    } else {
        default_uri
    }
}

/// What a batch assigns to one document, at the ghost level.
pub open spec fn spec_batch_for_v(
    batch: Seq<DiagSpec>,
    default_uri: Seq<char>,
    uri: Seq<char>,
) -> Seq<DiagnosticSpec>
    decreases batch.len(),
{
    if batch.len() == 0 {
        Seq::empty()
    } else {
        let rest = spec_batch_for_v(batch.drop_last(), default_uri, uri);
        if spec_effective_uri_v(batch.last(), default_uri) == uri {
            rest.push(spec_diag_of_v(batch.last()))
        } else {
            rest
        }
    }
}

/// The two levels agree: what a batch of values assigns is, viewed, what
/// the batch of their shapes assigns.
pub proof fn lemma_batch_for_view(batch: Seq<RawDiagnostic>, default_uri: Seq<char>, uri: Seq<char>)
    ensures
        spec_batch_for(batch, default_uri, uri).map_values(|x: Diagnostic| x@)
            == spec_batch_for_v(
            batch.map_values(|d: RawDiagnostic| d@),
            default_uri,
            uri,
        ),
    decreases batch.len(),
{
    let bv = batch.map_values(|d: RawDiagnostic| d@);
    if batch.len() == 0 {
        assert(spec_batch_for(batch, default_uri, uri).map_values(|x: Diagnostic| x@)
            =~= Seq::<DiagnosticSpec>::empty());
    } else {
        lemma_batch_for_view(batch.drop_last(), default_uri, uri);
        assert(bv.drop_last() =~= batch.drop_last().map_values(|d: RawDiagnostic| d@));
        assert(bv.last() == batch.last()@);
        assert(batch.last()@.related.len() == batch.last().related@.len());
        if batch.last().related@.len() > 0 {
            assert(batch.last()@.related[0] == batch.last().related@[0]@);
        }
        assert(spec_effective_uri(batch.last(), default_uri) == spec_effective_uri_v(
            bv.last(),
            default_uri,
        ));
        assert(spec_diag_of(batch.last())@ == spec_diag_of_v(bv.last()));
        if spec_effective_uri(batch.last(), default_uri) == uri {
            assert(spec_batch_for(batch, default_uri, uri).map_values(|x: Diagnostic| x@)
                =~= spec_batch_for(batch.drop_last(), default_uri, uri).map_values(
                |x: Diagnostic| x@,
            ).push(spec_diag_of(batch.last())@));
        }
    }
}

/// `new_docs` is `old_docs` with one `publishDiagnostics` batch applied:
/// each document holds exactly the batch's diagnostics for it, in order, or
/// keeps its own when the batch names it nowhere; URIs and inlay hints are
/// untouched everywhere.
pub open spec fn spec_diagnostics_applied(
    old_docs: Seq<DocRecord>,
    new_docs: Seq<DocRecord>,
    default_uri: Seq<char>,
    batch: Seq<DiagSpec>,
) -> bool {
    &&& new_docs.len() == old_docs.len()
    &&& forall|k: int|
        0 <= k < old_docs.len() ==> {
            let b = spec_batch_for_v(batch, default_uri, old_docs[k].uri@);
            &&& (#[trigger] new_docs[k]).uri == old_docs[k].uri
            &&& new_docs[k].inlay_hints@ == old_docs[k].inlay_hints@
            &&& new_docs[k].diagnostics@.map_values(|x: Diagnostic| x@) == if b.len() > 0 {
                b
            } else {
                old_docs[k].diagnostics@.map_values(|x: Diagnostic| x@)
            }
        }
}

/// `new_docs` is `old_docs` with one document's inlay hints replaced by
/// `hints`, each anchored by its kind's rule; everything else untouched,
/// and nothing at all when no record has the URI.
pub open spec fn spec_hints_applied(
    old_docs: Seq<DocRecord>,
    new_docs: Seq<DocRecord>,
    uri: Seq<char>,
    hints: Seq<HintSpec>,
) -> bool {
    &&& new_docs.len() == old_docs.len()
    &&& match spec_find_record(old_docs, uri) {
        Some(i) => {
            &&& new_docs[i].uri == old_docs[i].uri
            &&& new_docs[i].diagnostics@ == old_docs[i].diagnostics@
            &&& new_docs[i].inlay_hints@.len() == hints.len()
            &&& forall|k: int|
                0 <= k < hints.len() ==> (#[trigger] new_docs[i].inlay_hints@[k]).hint@
                    == hints[k] && new_docs[i].inlay_hints@[k].anchor == hints[k].spec_anchor()
            &&& forall|j: int|
                0 <= j < old_docs.len() && j != i ==> #[trigger] new_docs[j] == old_docs[j]
        },
        None => new_docs == old_docs,
    }
}

} // verus!
