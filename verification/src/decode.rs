//! Decoding inbound JSON into plain protocol values, and the router that
//! classifies each message — a response matched through the registry, a
//! known notification, or something to drop — as the error taxonomy asks:
//! protocol-shape failures and unmatched responses are absorbed, never fatal.
//! Every decoder's contract pins its result against `JsonModel`, the ghost
//! model of the parsed document, so the router's contract can state the
//! whole dispatch.

use crate::json::{
    json_as_array, json_as_bool, json_as_str, json_as_u64, json_get, json_parse,
    json_text_of, json_value_to_text, spec_parse_json, value_model, JsonModel,
};
use crate::buffer::Severity;
use crate::codec::Method;
use crate::lsp::{
    convert_completion, converts_all_core, core_converts_to, lemma_converts_all_core_bridge,
    normalize_completions, spec_converts_core, CompletionItem, CompletionResponse, EditSpec,
    ItemSpec, LspCompletion, LspOutput, LspSystem, Position, TextEdit, TextRange,
    INIT_REQUEST_ID,
};
use crate::lsp_ext::{HintSpec, InlayHint, InlayKind};
use crate::router::{
    spec_diagnostics_applied, spec_hints_applied, DiagSpec, DocStore, RawDiagnostic,
};
use serde_json::Value;
use vstd::prelude::*;
use vstd::string::StringExecFns;

verus! {

/// Equality of two strings, by their characters.
pub fn str_eq(a: &str, b: &str) -> (r: bool)
    ensures
        r == (a@ == b@),
{
    let sa = String::from_str(a);
    let sb = String::from_str(b);
    sa == sb
}

// ---------------------------------------------------------------------------
// What each decoder yields, over the model of the parsed document.
// ---------------------------------------------------------------------------

/// The named field of a JSON object; `None` on other values.
pub open spec fn spec_field(m: JsonModel, key: Seq<char>) -> Option<JsonModel> {
    match m {
        JsonModel::Obj(f) => if f.contains_key(key) {
            Some(f[key])
        } else {
            None
        },
        _ => None,
    }
}

/// A field that is a non-negative 64-bit integer.
pub open spec fn spec_u64_field(m: JsonModel, key: Seq<char>) -> Option<u64> {
    match spec_field(m, key) {
        Some(JsonModel::Num(u)) => u,
        _ => None,
    }
}

/// A field that is a string.
pub open spec fn spec_str_field(m: JsonModel, key: Seq<char>) -> Option<Seq<char>> {
    match spec_field(m, key) {
        Some(JsonModel::Str(s)) => Some(s),
        _ => None,
    }
}

/// A `{line, character}` object with both coordinates in `u32`.
pub open spec fn spec_position_model(m: JsonModel) -> Option<Position> {
    match (spec_u64_field(m, "line"@), spec_u64_field(m, "character"@)) {
        (Some(l), Some(c)) => if l <= u32::MAX && c <= u32::MAX {
            Some(Position { line: l as u32, character: c as u32 })
        } else {
            None
        },
        _ => None,
    }
}

/// A `{start, end}` range object.
pub open spec fn spec_range_model(m: JsonModel) -> Option<TextRange> {
    match spec_field(m, "start"@) {
        Some(s) => match spec_position_model(s) {
            Some(start) => match spec_field(m, "end"@) {
                Some(e) => match spec_position_model(e) {
                    Some(end) => Some(TextRange { start, end }),
                    None => None,
                },
                None => None,
            },
            None => None,
        },
        None => None,
    }
}

/// A `{range, newText}` edit.
pub open spec fn spec_edit_model(m: JsonModel) -> Option<EditSpec> {
    match spec_field(m, "range"@) {
        Some(r) => match spec_range_model(r) {
            Some(range) => match spec_str_field(m, "newText"@) {
                Some(t) => Some(EditSpec { range, new_text: t }),
                None => None,
            },
            None => None,
        },
        None => None,
    }
}

/// A list of edits; one bad element spoils the list.
pub open spec fn spec_edits_model(ms: Seq<JsonModel>) -> Option<Seq<EditSpec>>
    decreases ms.len(),
{
    if ms.len() == 0 {
        Some(Seq::empty())
    } else {
        match spec_edits_model(ms.drop_last()) {
            Some(rest) => match spec_edit_model(ms.last()) {
                Some(e) => Some(rest.push(e)),
                None => None,
            },
            None => None,
        }
    }
}

/// A completion item: `label` required; an insertion string or text edit
/// taken when present and well-formed; a present but malformed
/// `additionalTextEdits` spoils the item.
pub open spec fn spec_item_model(m: JsonModel) -> Option<ItemSpec> {
    match spec_str_field(m, "label"@) {
        None => None,
        Some(label) => {
            let insert_text = spec_str_field(m, "insertText"@);
            let text_edit = match spec_field(m, "textEdit"@) {
                Some(t) => spec_edit_model(t),
                None => None,
            };
            match spec_field(m, "additionalTextEdits"@) {
                None => Some(
                    ItemSpec {
                        label,
                        insert_text,
                        text_edit,
                        additional_text_edits: Seq::empty(),
                    },
                ),
                Some(a) => match a {
                    JsonModel::Arr(elems) => match spec_edits_model(elems) {
                        Some(es) => Some(
                            ItemSpec { label, insert_text, text_edit, additional_text_edits: es },
                        ),
                        None => None,
                    },
                    _ => None,
                },
            }
        },
    }
}

/// A list of completion items; one bad element spoils the list.
pub open spec fn spec_items_model(ms: Seq<JsonModel>) -> Option<Seq<ItemSpec>>
    decreases ms.len(),
{
    if ms.len() == 0 {
        Some(Seq::empty())
    } else {
        match spec_items_model(ms.drop_last()) {
            Some(rest) => match spec_item_model(ms.last()) {
                Some(it) => Some(rest.push(it)),
                None => None,
            },
            None => None,
        }
    }
}

/// The ghost shape of a completion response: a bare array of items, or a
/// list with its `isIncomplete` flag.
pub enum RespSpec {
    Arr(Seq<ItemSpec>),
    List(bool, Seq<ItemSpec>),
}

/// A completion response, in either wire shape.
pub open spec fn spec_response_model(m: JsonModel) -> Option<RespSpec> {
    match m {
        JsonModel::Arr(elems) => match spec_items_model(elems) {
            Some(its) => Some(RespSpec::Arr(its)),
            None => None,
        },
        _ => match spec_field(m, "isIncomplete"@) {
            Some(JsonModel::Bool(b)) => match spec_field(m, "items"@) {
                Some(JsonModel::Arr(elems)) => match spec_items_model(elems) {
                    Some(its) => Some(RespSpec::List(b, its)),
                    None => None,
                },
                _ => None,
            },
            _ => None,
        },
    }
}

/// The items of a response, whichever shape carried them.
pub open spec fn spec_resp_items(r: RespSpec) -> Seq<ItemSpec> {
    match r {
        RespSpec::Arr(its) => its,
        RespSpec::List(b, its) => its,
    }
}

/// One inlay hint: range, a kind named by its variant name, and a label.
pub open spec fn spec_hint_model(m: JsonModel) -> Option<HintSpec> {
    match spec_field(m, "range"@) {
        Some(r) => match spec_range_model(r) {
            Some(range) => match spec_str_field(m, "kind"@) {
                Some(k) => {
                    let kind = if k == "TypeHint"@ {
                        Some(InlayKind::TypeHint)
                    } else if k == "ParameterHint"@ {
                        Some(InlayKind::ParameterHint)
                    } else if k == "ChainingHint"@ {
                        Some(InlayKind::ChainingHint)
                    } else {
                        None
                    };
                    match kind {
                        Some(kind) => match spec_str_field(m, "label"@) {
                            Some(label) => Some(HintSpec { range, kind, label }),
                            None => None,
                        },
                        None => None,
                    }
                },
                None => None,
            },
            None => None,
        },
        None => None,
    }
}

/// A list of hints; one bad element spoils the list.
pub open spec fn spec_hint_seq_model(ms: Seq<JsonModel>) -> Option<Seq<HintSpec>>
    decreases ms.len(),
{
    if ms.len() == 0 {
        Some(Seq::empty())
    } else {
        match spec_hint_seq_model(ms.drop_last()) {
            Some(rest) => match spec_hint_model(ms.last()) {
                Some(h) => Some(rest.push(h)),
                None => None,
            },
            None => None,
        }
    }
}

/// The inlay-hints result: an array of hints.
pub open spec fn spec_hints_model(m: JsonModel) -> Option<Seq<HintSpec>> {
    match m {
        JsonModel::Arr(elems) => spec_hint_seq_model(elems),
        _ => None,
    }
}

/// The URIs of a diagnostic's related-information locations, in order; one
/// bad element spoils the list.
pub open spec fn spec_related_model(ms: Seq<JsonModel>) -> Option<Seq<Seq<char>>>
    decreases ms.len(),
{
    if ms.len() == 0 {
        Some(Seq::empty())
    } else {
        match spec_related_model(ms.drop_last()) {
            Some(rest) => match spec_field(ms.last(), "location"@) {
                Some(l) => match spec_str_field(l, "uri"@) {
                    Some(u) => Some(rest.push(u)),
                    None => None,
                },
                None => None,
            },
            None => None,
        }
    }
}

/// One wire diagnostic: range and message required; a severity code other
/// than 1 to 4, a non-numeric one, or none at all carries `None`.
pub open spec fn spec_diag_model(m: JsonModel) -> Option<DiagSpec> {
    match spec_field(m, "range"@) {
        Some(r) => match spec_range_model(r) {
            Some(range) => {
                let severity = match spec_field(m, "severity"@) {
                    Some(JsonModel::Num(Some(code))) => Severity::spec_of_code(code),
                    _ => None,
                };
                match spec_str_field(m, "message"@) {
                    Some(message) => match spec_field(m, "relatedInformation"@) {
                        None => Some(
                            DiagSpec { range, severity, message, related: Seq::empty() },
                        ),
                        Some(a) => match a {
                            JsonModel::Arr(elems) => match spec_related_model(elems) {
                                Some(related) => Some(
                                    DiagSpec { range, severity, message, related },
                                ),
                                None => None,
                            },
                            _ => None,
                        },
                    },
                    None => None,
                }
            },
            None => None,
        },
        None => None,
    }
}

/// A list of diagnostics; one bad element spoils the batch.
pub open spec fn spec_diag_seq_model(ms: Seq<JsonModel>) -> Option<Seq<DiagSpec>>
    decreases ms.len(),
{
    if ms.len() == 0 {
        Some(Seq::empty())
    } else {
        match spec_diag_seq_model(ms.drop_last()) {
            Some(rest) => match spec_diag_model(ms.last()) {
                Some(d) => Some(rest.push(d)),
                None => None,
            },
            None => None,
        }
    }
}

/// The parameters of `publishDiagnostics`: the document's URI and the whole
/// replacement batch.
pub open spec fn spec_publish_model(m: JsonModel) -> Option<(Seq<char>, Seq<DiagSpec>)> {
    match spec_str_field(m, "uri"@) {
        Some(uri) => match spec_field(m, "diagnostics"@) {
            Some(a) => match a {
                JsonModel::Arr(elems) => match spec_diag_seq_model(elems) {
                    Some(ds) => Some((uri, ds)),
                    None => None,
                },
                _ => None,
            },
            None => None,
        },
        None => None,
    }
}

// ---------------------------------------------------------------------------
// The decoders, each exact against its model function.
// ---------------------------------------------------------------------------

fn decode_position(v: &Value) -> (r: Option<Position>)
    ensures
        r == spec_position_model(value_model(*v)),
{
    let line = match json_get(v, "line") {
        Some(x) => match json_as_u64(x) {
            Some(n) => n,
            None => {
                return None;
            },
        },
        None => {
            return None;
        },
    };
    let character = match json_get(v, "character") {
        Some(x) => match json_as_u64(x) {
            Some(n) => n,
            None => {
                return None;
            },
        },
        None => {
            return None;
        },
    };
    if line > u32::MAX as u64 || character > u32::MAX as u64 {
        return None;
    }
    Some(Position { line: line as u32, character: character as u32 })
}

fn decode_range(v: &Value) -> (r: Option<TextRange>)
    ensures
        r == spec_range_model(value_model(*v)),
{
    let start = match json_get(v, "start") {
        Some(x) => match decode_position(x) {
            Some(p) => p,
            None => {
                return None;
            },
        },
        None => {
            return None;
        },
    };
    let end = match json_get(v, "end") {
        Some(x) => match decode_position(x) {
            Some(p) => p,
            None => {
                return None;
            },
        },
        None => {
            return None;
        },
    };
    Some(TextRange { start, end })
}

fn decode_text_edit(v: &Value) -> (r: Option<TextEdit>)
    ensures
        match r {
            Some(e) => spec_edit_model(value_model(*v)) == Some(e@),
            None => spec_edit_model(value_model(*v)) is None,
        },
{
    let range = match json_get(v, "range") {
        Some(x) => match decode_range(x) {
            Some(r) => r,
            None => {
                return None;
            },
        },
        None => {
            return None;
        },
    };
    let new_text = match json_get(v, "newText") {
        Some(x) => match json_as_str(x) {
            Some(s) => s.to_owned(),
            None => {
                return None;
            },
        },
        None => {
            return None;
        },
    };
    Some(TextEdit { range, new_text })
}

/// If one element of a list has no edit model, the whole list has none.
proof fn lemma_edits_model_fails(ms: Seq<JsonModel>, i: int)
    requires
        0 <= i < ms.len(),
        spec_edit_model(ms[i]) is None,
    ensures
        spec_edits_model(ms) is None,
    decreases ms.len(),
{
    if ms.len() > 0 {
        if i == ms.len() - 1 {
        } else {
            assert(ms.drop_last()[i] == ms[i]);
            lemma_edits_model_fails(ms.drop_last(), i);
        }
    }
}

fn decode_edit_list(arr: &Vec<Value>, ghost_elems: Ghost<Seq<JsonModel>>) -> (r: Option<
    Vec<TextEdit>,
>)
    requires
        ghost_elems@.len() == arr@.len(),
        forall|i: int|
            0 <= i < arr@.len() ==> value_model(#[trigger] arr@[i]) == ghost_elems@[i],
    ensures
        match r {
            Some(es) => spec_edits_model(ghost_elems@) == Some(
                es@.map_values(|e: TextEdit| e@),
            ),
            None => spec_edits_model(ghost_elems@) is None,
        },
{
    let ghost elems = ghost_elems@;
    let mut out: Vec<TextEdit> = Vec::new();
    let mut i: usize = 0;
    while i < arr.len()
        invariant
            elems == ghost_elems@,
            i <= arr@.len(),
            elems.len() == arr@.len(),
            forall|j: int| 0 <= j < arr@.len() ==> value_model(#[trigger] arr@[j]) == elems[j],
            spec_edits_model(elems.take(i as int)) == Some(
                out@.map_values(|e: TextEdit| e@),
            ),
        decreases arr@.len() - i,
    {
        let ghost out_before = out@;
        match decode_text_edit(&arr[i]) {
            Some(e) => {
                out.push(e);
                proof {
                    assert(elems.take(i + 1).drop_last() =~= elems.take(i as int));
                    assert(elems.take(i + 1).last() == elems[i as int]);
                    assert(out@.map_values(|e: TextEdit| e@) =~= out_before.map_values(
                        |e: TextEdit| e@,
                    ).push(out@.last()@));
                }
            },
            None => {
                proof {
                    lemma_edits_model_fails(elems, i as int);
                }
                return None;
            },
        }
        i = i + 1;
    }
    proof {
        assert(elems.take(elems.len() as int) =~= elems);
    }
    Some(out)
}

/// One completion item; the item's own JSON is kept verbatim in `raw` for
/// the resolve round trip.
fn decode_completion_item(v: &Value) -> (r: Option<CompletionItem>)
    ensures
        match r {
            Some(item) => spec_item_model(value_model(*v)) == Some(item.spec_core())
                && item.raw@ == json_text_of(*v),
            None => spec_item_model(value_model(*v)) is None,
        },
{
    let label = match json_get(v, "label") {
        Some(x) => match json_as_str(x) {
            Some(s) => s.to_owned(),
            None => {
                return None;
            },
        },
        None => {
            return None;
        },
    };
    let insert_text = match json_get(v, "insertText") {
        Some(x) => match json_as_str(x) {
            Some(s) => Some(s.to_owned()),
            None => None,
        },
        None => None,
    };
    let text_edit = match json_get(v, "textEdit") {
        Some(x) => decode_text_edit(x),
        None => None,
    };
    let additional_text_edits: Vec<TextEdit> = match json_get(v, "additionalTextEdits") {
        Some(x) => match json_as_array(x) {
            Some(arr) => {
                let ghost elems = (match value_model(*x) {
                    JsonModel::Arr(e) => e,
                    _ => Seq::empty(),
                });
                match decode_edit_list(arr, Ghost(elems)) {
                    Some(es) => es,
                    None => {
                        return None;
                    },
                }
            },
            None => {
                return None;
            },
        },
        None => Vec::new(),
    };
    let raw = json_value_to_text(v);
    let item = CompletionItem { label, insert_text, text_edit, additional_text_edits, raw };
    proof {
        assert(item.spec_core().additional_text_edits
            =~= item.additional_text_edits@.map_values(|e: TextEdit| e@));
        match spec_item_model(value_model(*v)) {
            Some(s) => {
                assert(s.additional_text_edits =~= item.spec_core().additional_text_edits);
            },
            None => {},
        }
    }
    Some(item)
}

/// If one element of a list has no item model, the whole list has none.
proof fn lemma_items_model_fails(ms: Seq<JsonModel>, i: int)
    requires
        0 <= i < ms.len(),
        spec_item_model(ms[i]) is None,
    ensures
        spec_items_model(ms) is None,
    decreases ms.len(),
{
    if ms.len() > 0 {
        if i == ms.len() - 1 {
        } else {
            assert(ms.drop_last()[i] == ms[i]);
            lemma_items_model_fails(ms.drop_last(), i);
        }
    }
}

/// An array of completion items; one bad item drops the whole batch.  Each
/// decoded item keeps the verbatim JSON of its own array element.
fn decode_completion_items(arr: &Vec<Value>, ghost_elems: Ghost<Seq<JsonModel>>) -> (r: Option<
    Vec<CompletionItem>,
>)
    requires
        ghost_elems@.len() == arr@.len(),
        forall|i: int|
            0 <= i < arr@.len() ==> value_model(#[trigger] arr@[i]) == ghost_elems@[i],
    ensures
        match r {
            Some(items) => spec_items_model(ghost_elems@) == Some(
                items@.map_values(|it: CompletionItem| it.spec_core()),
            ) && items@.len() == arr@.len() && forall|i: int|
                0 <= i < arr@.len() ==> (#[trigger] items@[i]).raw@ == json_text_of(arr@[i]),
            None => spec_items_model(ghost_elems@) is None,
        },
{
    let ghost elems = ghost_elems@;
    let mut items: Vec<CompletionItem> = Vec::new();
    let mut i: usize = 0;
    while i < arr.len()
        invariant
            elems == ghost_elems@,
            i <= arr@.len(),
            elems.len() == arr@.len(),
            forall|j: int| 0 <= j < arr@.len() ==> value_model(#[trigger] arr@[j]) == elems[j],
            items@.len() == i,
            spec_items_model(elems.take(i as int)) == Some(
                items@.map_values(|it: CompletionItem| it.spec_core()),
            ),
            forall|j: int|
                0 <= j < i ==> (#[trigger] items@[j]).raw@ == json_text_of(arr@[j]),
        decreases arr@.len() - i,
    {
        let ghost items_before = items@;
        match decode_completion_item(&arr[i]) {
            Some(item) => {
                items.push(item);
                proof {
                    assert(elems.take(i + 1).drop_last() =~= elems.take(i as int));
                    assert(elems.take(i + 1).last() == elems[i as int]);
                    assert(items@.map_values(|it: CompletionItem| it.spec_core())
                        =~= items_before.map_values(|it: CompletionItem| it.spec_core()).push(
                        items@.last().spec_core(),
                    ));
                }
            },
            None => {
                proof {
                    lemma_items_model_fails(elems, i as int);
                }
                return None;
            },
        }
        i = i + 1;
    }
    proof {
        assert(elems.take(elems.len() as int) =~= elems);
    }
    Some(items)
}

/// A completion response, in either wire shape: a bare array, or an object
/// with `isIncomplete` and `items`.
fn decode_completion_response(v: &Value) -> (r: Option<CompletionResponse>)
    ensures
        match r {
            Some(resp) => spec_response_model(value_model(*v)) is Some && (match (
                resp,
                spec_response_model(value_model(*v))->Some_0,
            ) {
                (CompletionResponse::Array(items), RespSpec::Arr(its)) => items@.map_values(
                    |it: CompletionItem| it.spec_core(),
                ) == its,
                (
                    CompletionResponse::List { is_incomplete, items },
                    RespSpec::List(b, its),
                ) => is_incomplete == b && items@.map_values(|it: CompletionItem| it.spec_core())
                    == its,
                _ => false,
            }),
            None => spec_response_model(value_model(*v)) is None,
        },
{
    match json_as_array(v) {
        Some(arr) => {
            let ghost elems = (match value_model(*v) {
                JsonModel::Arr(e) => e,
                _ => Seq::empty(),
            });
            match decode_completion_items(arr, Ghost(elems)) {
                Some(items) => Some(CompletionResponse::Array(items)),
                None => None,
            }
        },
        None => {
            let is_incomplete = match json_get(v, "isIncomplete") {
                Some(x) => match json_as_bool(x) {
                    Some(b) => b,
                    None => {
                        return None;
                    },
                },
                None => {
                    return None;
                },
            };
            match json_get(v, "items") {
                Some(x) => match json_as_array(x) {
                    Some(arr) => {
                        let ghost elems = (match value_model(*x) {
                            JsonModel::Arr(e) => e,
                            _ => Seq::empty(),
                        });
                        match decode_completion_items(arr, Ghost(elems)) {
                            Some(items) => Some(
                                CompletionResponse::List { is_incomplete, items },
                            ),
                            None => None,
                        }
                    },
                    None => None,
                },
                None => None,
            }
        },
    }
}

fn decode_inlay_hint(v: &Value) -> (r: Option<InlayHint>)
    ensures
        match r {
            Some(h) => spec_hint_model(value_model(*v)) == Some(h@),
            None => spec_hint_model(value_model(*v)) is None,
        },
{
    let range = match json_get(v, "range") {
        Some(x) => match decode_range(x) {
            Some(r) => r,
            None => {
                return None;
            },
        },
        None => {
            return None;
        },
    };
    let kind = match json_get(v, "kind") {
        Some(x) => match json_as_str(x) {
            Some(s) => {
                if str_eq(s, "TypeHint") {
                    InlayKind::TypeHint
                } else if str_eq(s, "ParameterHint") {
                    InlayKind::ParameterHint
                } else if str_eq(s, "ChainingHint") {
                    InlayKind::ChainingHint
                } else {
                    return None;
                }
            },
            None => {
                return None;
            },
        },
        None => {
            return None;
        },
    };
    let label = match json_get(v, "label") {
        Some(x) => match json_as_str(x) {
            Some(s) => s.to_owned(),
            None => {
                return None;
            },
        },
        None => {
            return None;
        },
    };
    Some(InlayHint { range, kind, label })
}

/// If one element of a list has no hint model, the whole list has none.
proof fn lemma_hints_model_fails(ms: Seq<JsonModel>, i: int)
    requires
        0 <= i < ms.len(),
        spec_hint_model(ms[i]) is None,
    ensures
        spec_hint_seq_model(ms) is None,
    decreases ms.len(),
{
    if ms.len() > 0 {
        if i == ms.len() - 1 {
        } else {
            assert(ms.drop_last()[i] == ms[i]);
            lemma_hints_model_fails(ms.drop_last(), i);
        }
    }
}

/// A list of hints, one array element each.
fn decode_hint_list(arr: &Vec<Value>, ghost_elems: Ghost<Seq<JsonModel>>) -> (r: Option<
    Vec<InlayHint>,
>)
    requires
        ghost_elems@.len() == arr@.len(),
        forall|i: int|
            0 <= i < arr@.len() ==> value_model(#[trigger] arr@[i]) == ghost_elems@[i],
    ensures
        match r {
            Some(hints) => spec_hint_seq_model(ghost_elems@) == Some(
                hints@.map_values(|h: InlayHint| h@),
            ),
            None => spec_hint_seq_model(ghost_elems@) is None,
        },
{
    let ghost elems = ghost_elems@;
    let mut hints: Vec<InlayHint> = Vec::new();
    let mut i: usize = 0;
    while i < arr.len()
        invariant
            elems == ghost_elems@,
            i <= arr@.len(),
            elems.len() == arr@.len(),
            forall|j: int| 0 <= j < arr@.len() ==> value_model(#[trigger] arr@[j]) == elems[j],
            spec_hint_seq_model(elems.take(i as int)) == Some(
                hints@.map_values(|h: InlayHint| h@),
            ),
        decreases arr@.len() - i,
    {
        let ghost hints_before = hints@;
        match decode_inlay_hint(&arr[i]) {
            Some(h) => {
                hints.push(h);
                proof {
                    assert(elems.take(i + 1).drop_last() =~= elems.take(i as int));
                    assert(elems.take(i + 1).last() == elems[i as int]);
                    assert(hints@.map_values(|h: InlayHint| h@) =~= hints_before.map_values(
                        |h: InlayHint| h@,
                    ).push(hints@.last()@));
                }
            },
            None => {
                proof {
                    lemma_hints_model_fails(elems, i as int);
                }
                return None;
            },
        }
        i = i + 1;
    }
    proof {
        assert(elems.take(elems.len() as int) =~= elems);
    }
    Some(hints)
}

/// The inlay-hints result: an array of hints.
fn decode_inlay_hints(v: &Value) -> (r: Option<Vec<InlayHint>>)
    ensures
        match r {
            Some(hints) => spec_hints_model(value_model(*v)) == Some(
                hints@.map_values(|h: InlayHint| h@),
            ),
            None => spec_hints_model(value_model(*v)) is None,
        },
{
    let arr = match json_as_array(v) {
        Some(a) => a,
        None => {
            return None;
        },
    };
    let ghost elems = (match value_model(*v) {
        JsonModel::Arr(e) => e,
        _ => Seq::empty(),
    });
    decode_hint_list(arr, Ghost(elems))
}

/// If one element of a list has no related-location model, the whole list
/// has none.
proof fn lemma_related_model_fails(ms: Seq<JsonModel>, i: int)
    requires
        0 <= i < ms.len(),
        (match spec_field(ms[i], "location"@) {
            Some(l) => spec_str_field(l, "uri"@) is None,
            None => true,
        }),
    ensures
        spec_related_model(ms) is None,
    decreases ms.len(),
{
    if ms.len() > 0 {
        if i == ms.len() - 1 {
        } else {
            assert(ms.drop_last()[i] == ms[i]);
            lemma_related_model_fails(ms.drop_last(), i);
        }
    }
}

/// The related-information URIs, one array element each.
fn decode_related_list(arr: &Vec<Value>, ghost_elems: Ghost<Seq<JsonModel>>) -> (r: Option<
    Vec<String>,
>)
    requires
        ghost_elems@.len() == arr@.len(),
        forall|i: int|
            0 <= i < arr@.len() ==> value_model(#[trigger] arr@[i]) == ghost_elems@[i],
    ensures
        match r {
            Some(us) => spec_related_model(ghost_elems@) == Some(
                us@.map_values(|u: String| u@),
            ),
            None => spec_related_model(ghost_elems@) is None,
        },
{
    let ghost elems = ghost_elems@;
    let mut related: Vec<String> = Vec::new();
    let mut i: usize = 0;
    while i < arr.len()
        invariant
            elems == ghost_elems@,
            i <= arr@.len(),
            elems.len() == arr@.len(),
            forall|j: int| 0 <= j < arr@.len() ==> value_model(#[trigger] arr@[j]) == elems[j],
            spec_related_model(elems.take(i as int)) == Some(
                related@.map_values(|u: String| u@),
            ),
        decreases arr@.len() - i,
    {
        let ghost related_before = related@;
        let loc = match json_get(&arr[i], "location") {
            Some(l) => l,
            None => {
                proof {
                    lemma_related_model_fails(elems, i as int);
                }
                return None;
            },
        };
        match json_get(loc, "uri") {
            Some(u) => match json_as_str(u) {
                Some(t) => {
                    related.push(t.to_owned());
                    proof {
                        assert(elems.take(i + 1).drop_last() =~= elems.take(i as int));
                        assert(elems.take(i + 1).last() == elems[i as int]);
                        assert(related@.map_values(|u: String| u@) =~= related_before.map_values(
                            |u: String| u@,
                        ).push(related@.last()@));
                    }
                },
                None => {
                    proof {
                        lemma_related_model_fails(elems, i as int);
                    }
                    return None;
                },
            },
            None => {
                proof {
                    lemma_related_model_fails(elems, i as int);
                }
                return None;
            },
        }
        i = i + 1;
    }
    proof {
        assert(elems.take(elems.len() as int) =~= elems);
    }
    Some(related)
}

/// One wire diagnostic.
fn decode_diagnostic(v: &Value) -> (r: Option<RawDiagnostic>)
    ensures
        match r {
            Some(d) => spec_diag_model(value_model(*v)) == Some(d@),
            None => spec_diag_model(value_model(*v)) is None,
        },
{
    let range = match json_get(v, "range") {
        Some(x) => match decode_range(x) {
            Some(r) => r,
            None => {
                return None;
            },
        },
        None => {
            return None;
        },
    };
    let severity = match json_get(v, "severity") {
        Some(x) => match json_as_u64(x) {
            Some(code) => Severity::of_code(code),
            None => None,
        },
        None => None,
    };
    let message = match json_get(v, "message") {
        Some(x) => match json_as_str(x) {
            Some(s) => s.to_owned(),
            None => {
                return None;
            },
        },
        None => {
            return None;
        },
    };
    let related: Vec<String> = match json_get(v, "relatedInformation") {
        Some(x) => match json_as_array(x) {
            Some(arr) => {
                let ghost elems = (match value_model(*x) {
                    JsonModel::Arr(e) => e,
                    _ => Seq::empty(),
                });
                match decode_related_list(arr, Ghost(elems)) {
                    Some(us) => us,
                    None => {
                        return None;
                    },
                }
            },
            None => {
                return None;
            },
        },
        None => Vec::new(),
    };
    let d = RawDiagnostic { range, severity, message, related };
    proof {
        assert(d@.related =~= d.related@.map_values(|u: String| u@));
        match spec_diag_model(value_model(*v)) {
            Some(sd) => {
                assert(sd.related =~= d@.related);
            },
            None => {},
        }
    }
    Some(d)
}

/// If one element of a list has no diagnostic model, the batch has none.
proof fn lemma_diags_model_fails(ms: Seq<JsonModel>, i: int)
    requires
        0 <= i < ms.len(),
        spec_diag_model(ms[i]) is None,
    ensures
        spec_diag_seq_model(ms) is None,
    decreases ms.len(),
{
    if ms.len() > 0 {
        if i == ms.len() - 1 {
        } else {
            assert(ms.drop_last()[i] == ms[i]);
            lemma_diags_model_fails(ms.drop_last(), i);
        }
    }
}

/// A batch of diagnostics, one array element each.
fn decode_diag_list(arr: &Vec<Value>, ghost_elems: Ghost<Seq<JsonModel>>) -> (r: Option<
    Vec<RawDiagnostic>,
>)
    requires
        ghost_elems@.len() == arr@.len(),
        forall|i: int|
            0 <= i < arr@.len() ==> value_model(#[trigger] arr@[i]) == ghost_elems@[i],
    ensures
        match r {
            Some(batch) => spec_diag_seq_model(ghost_elems@) == Some(
                batch@.map_values(|d: RawDiagnostic| d@),
            ),
            None => spec_diag_seq_model(ghost_elems@) is None,
        },
{
    let ghost elems = ghost_elems@;
    let mut batch: Vec<RawDiagnostic> = Vec::new();
    let mut i: usize = 0;
    while i < arr.len()
        invariant
            elems == ghost_elems@,
            i <= arr@.len(),
            elems.len() == arr@.len(),
            forall|j: int| 0 <= j < arr@.len() ==> value_model(#[trigger] arr@[j]) == elems[j],
            spec_diag_seq_model(elems.take(i as int)) == Some(
                batch@.map_values(|d: RawDiagnostic| d@),
            ),
        decreases arr@.len() - i,
    {
        let ghost batch_before = batch@;
        match decode_diagnostic(&arr[i]) {
            Some(d) => {
                batch.push(d);
                proof {
                    assert(elems.take(i + 1).drop_last() =~= elems.take(i as int));
                    assert(elems.take(i + 1).last() == elems[i as int]);
                    assert(batch@.map_values(|d: RawDiagnostic| d@) =~= batch_before.map_values(
                        |d: RawDiagnostic| d@,
                    ).push(batch@.last()@));
                }
            },
            None => {
                proof {
                    lemma_diags_model_fails(elems, i as int);
                }
                return None;
            },
        }
        i = i + 1;
    }
    proof {
        assert(elems.take(elems.len() as int) =~= elems);
    }
    Some(batch)
}

/// The parameters of `textDocument/publishDiagnostics`.
fn decode_publish_params(v: &Value) -> (r: Option<(String, Vec<RawDiagnostic>)>)
    ensures
        match r {
            Some((uri, batch)) => spec_publish_model(value_model(*v)) == Some(
                (uri@, batch@.map_values(|d: RawDiagnostic| d@)),
            ),
            None => spec_publish_model(value_model(*v)) is None,
        },
{
    let uri = match json_get(v, "uri") {
        Some(x) => match json_as_str(x) {
            Some(s) => s.to_owned(),
            None => {
                return None;
            },
        },
        None => {
            return None;
        },
    };
    let batch = match json_get(v, "diagnostics") {
        Some(x) => match json_as_array(x) {
            Some(arr) => {
                let ghost elems = (match value_model(*x) {
                    JsonModel::Arr(e) => e,
                    _ => Seq::empty(),
                });
                match decode_diag_list(arr, Ghost(elems)) {
                    Some(b) => b,
                    None => {
                        return None;
                    },
                }
            },
            None => {
                return None;
            },
        },
        None => {
            return None;
        },
    };
    Some((uri, batch))
}


// ---------------------------------------------------------------------------
// The router.
// ---------------------------------------------------------------------------

/// What the router hands back for one inbound payload.
pub enum RoutedEvent {
    /// The response to the `initialize` request arrived.
    InitAck,
    /// A result for the document at `uri`.
    Output { uri: String, output: LspOutput },
}

/// A message with a numeric `id` and a `result` is a successful response.
pub open spec fn spec_is_success_response(m: JsonModel) -> bool {
    spec_u64_field(m, "id"@) is Some && spec_field(m, "result"@) is Some
}

/// Routes one framed payload; the contract walks the parsed document's
/// model through the same dispatch the body performs.
/// - Text that is not JSON: no event, nothing changes.
/// - A successful response under the sentinel ID: exactly the initialize
///   gate event, nothing changes.
/// - A successful response under a registered ID: the entry leaves the
///   registry, and the recorded method decides — a completion response
///   yields exactly one completion-list output for the recorded document,
///   the list converted from the response's items; a resolve response
///   yields exactly one resolved completion; an inlay-hints response
///   replaces that document's hints and announces it; a result that does
///   not decode, or an unexpected recorded method, is dropped with the
///   store untouched.
/// - A successful response under an unknown ID is dropped silently:
///   no event, registry and store untouched.
/// - A `publishDiagnostics` notification with well-formed parameters
///   applies the diagnostic-routing rules to the store and yields exactly
///   one diagnostics event; any other method, malformed parameters, or a
///   response shape with no usable `id`/`result` is absorbed with no event
///   and no change.
/// The router never issues IDs, never touches the client table, never
/// opens or closes a document, and never changes a document's URI.
pub fn handle_message(sys: &mut LspSystem, store: &mut DocStore, payload: &str) -> (events: Vec<
    RoutedEvent,
>)
    requires
        old(sys).wf(),
        old(store).wf(),
    ensures
        final(sys).wf(),
        final(store).wf(),
        final(sys).spec_counter() == old(sys).spec_counter(),
        final(sys).spec_issued() == old(sys).spec_issued(),
        final(sys).spec_clients() == old(sys).spec_clients(),
        final(store).docs@.len() == old(store).docs@.len(),
        forall|k: int|
            0 <= k < old(store).docs@.len() ==> (#[trigger] final(store).docs@[k]).uri == old(
                store,
            ).docs@[k].uri,
        ({
            let pm = spec_parse_json(payload@);
            match pm {
                None => events@.len() == 0 && *final(sys) == *old(sys) && *final(store) == *old(
                    store,
                ),
                Some(m) => {
                    if spec_is_success_response(m) {
                        let id = spec_u64_field(m, "id"@)->Some_0;
                        let res = spec_field(m, "result"@)->Some_0;
                        if id == INIT_REQUEST_ID {
                            &&& events@.len() == 1
                            &&& events@[0] is InitAck
                            &&& *final(sys) == *old(sys)
                            &&& *final(store) == *old(store)
                        } else if old(sys).spec_requests().contains_key(id) {
                            let req = old(sys).spec_requests()[id];
                            &&& final(sys).spec_requests() == old(sys).spec_requests().remove(
                                id,
                            )
                            &&& match req.method {
                                Method::Completion => match spec_response_model(res) {
                                    Some(resp) => {
                                        &&& events@.len() == 1
                                        &&& events@[0] matches RoutedEvent::Output {
                                            uri,
                                            output,
                                        } && uri == req.uri && (output matches
                                        LspOutput::Completion(list) && converts_all_core(
                                            spec_resp_items(resp),
                                            list@.map_values(|c: LspCompletion| c@),
                                        ))
                                        &&& *final(store) == *old(store)
                                    },
                                    None => events@.len() == 0 && *final(store) == *old(store),
                                },
                                Method::ResolveCompletionItem => match spec_item_model(res) {
                                    Some(core) => if spec_converts_core(core) {
                                        &&& events@.len() == 1
                                        &&& events@[0] matches RoutedEvent::Output {
                                            uri,
                                            output,
                                        } && uri == req.uri && (output matches
                                        LspOutput::CompletionResolve(lc) && core_converts_to(
                                            core,
                                            lc@,
                                        ))
                                        &&& *final(store) == *old(store)
                                    } else {
                                        events@.len() == 0 && *final(store) == *old(store)
                                    },
                                    None => events@.len() == 0 && *final(store) == *old(store),
                                },
                                Method::InlayHints => match spec_hints_model(res) {
                                    Some(hs) => {
                                        &&& spec_hints_applied(
                                            old(store).docs@,
                                            final(store).docs@,
                                            req.uri@,
                                            hs,
                                        )
                                        &&& events@.len() == 1
                                        &&& events@[0] matches RoutedEvent::Output {
                                            uri,
                                            output,
                                        } && uri == req.uri && output is InlayHints
                                    },
                                    None => events@.len() == 0 && *final(store) == *old(store),
                                },
                                _ => events@.len() == 0 && *final(store) == *old(store),
                            }
                        } else {
                            &&& events@.len() == 0
                            &&& final(sys).spec_requests() == old(sys).spec_requests()
                            &&& *final(store) == *old(store)
                        }
                    } else {
                        &&& *final(sys) == *old(sys)
                        &&& match spec_str_field(m, "method"@) {
                            Some(name) => if name == "textDocument/publishDiagnostics"@ {
                                match spec_field(m, "params"@) {
                                    Some(p) => match spec_publish_model(p) {
                                        Some((uri, ds)) => {
                                            &&& spec_diagnostics_applied(
                                                old(store).docs@,
                                                final(store).docs@,
                                                uri,
                                                ds,
                                            )
                                            &&& events@.len() == 1
                                            &&& events@[0] matches RoutedEvent::Output {
                                                uri: u,
                                                output,
                                            } && u@ == uri && output is Diagnostics
                                        },
                                        None => events@.len() == 0 && *final(store) == *old(
                                            store,
                                        ),
                                    },
                                    None => events@.len() == 0 && *final(store) == *old(store),
                                }
                            } else {
                                events@.len() == 0 && *final(store) == *old(store)
                            },
                            None => events@.len() == 0 && *final(store) == *old(store),
                        }
                    }
                },
            }
        }),
{
    let mut events: Vec<RoutedEvent> = Vec::new();
    let v = match json_parse(payload) {
        Some(v) => v,
        None => {
            return events;
        },
    };
    let ghost m = value_model(v);
    match json_get(&v, "id") {
        Some(idv) => {
            match json_as_u64(idv) {
                Some(id) => {
                    match json_get(&v, "result") {
                        Some(result) => {
                            // A successful response.
                            proof {
                                assert(spec_u64_field(m, "id"@) == Some(id));
                                assert(spec_field(m, "result"@) == Some(value_model(*result)));
                            }
                            if id == INIT_REQUEST_ID {
                                events.push(RoutedEvent::InitAck);
                                return events;
                            }
                            match sys.get_request(id) {
                                Some(req) => {
                                    match req.method {
                                        Method::Completion => {
                                            match decode_completion_response(result) {
                                                Some(resp) => {
                                                    let ghost gresp = resp;
                                                    let ghost items_seq =
                                                        crate::lsp::spec_items_of(gresp);
                                                    let list = normalize_completions(resp);
                                                    proof {
                                                        lemma_converts_all_core_bridge(
                                                            items_seq,
                                                            list@,
                                                        );
                                                        let respm = spec_response_model(
                                                            value_model(*result),
                                                        )->Some_0;
                                                        assert(items_seq.map_values(
                                                            |it: CompletionItem| it.spec_core(),
                                                        ) == spec_resp_items(respm));
                                                    }
                                                    events.push(
                                                        RoutedEvent::Output {
                                                            uri: req.uri,
                                                            output: LspOutput::Completion(list),
                                                        },
                                                    );
                                                },
                                                None => {},
                                            }
                                        },
                                        Method::ResolveCompletionItem => {
                                            match decode_completion_item(result) {
                                                Some(item) => {
                                                    let ghost gitem = item;
                                                    match convert_completion(item) {
                                                        Some(lc) => {
                                                            proof {
                                                                crate::lsp::lemma_convert_core_bridge(
                                                                    gitem,
                                                                    lc,
                                                                );
                                                            }
                                                            events.push(
                                                                RoutedEvent::Output {
                                                                    uri: req.uri,
                                                                    output:
                                                                        LspOutput::CompletionResolve(
                                                                        lc,
                                                                    ),
                                                                },
                                                            );
                                                        },
                                                        None => {},
                                                    }
                                                },
                                                None => {},
                                            }
                                        },
                                        Method::InlayHints => {
                                            match decode_inlay_hints(result) {
                                                Some(hints) => {
                                                    store.set_inlay_hints(&req.uri, hints);
                                                    events.push(
                                                        RoutedEvent::Output {
                                                            uri: req.uri,
                                                            output: LspOutput::InlayHints,
                                                        },
                                                    );
                                                },
                                                None => {},
                                            }
                                        },
                                        _ => {},
                                    }
                                },
                                None => {
                                    proof {
                                        assert(old(sys).spec_requests().remove(id) =~= old(
                                            sys,
                                        ).spec_requests());
                                    }
                                },
                            }
                            proof {
                                lemma_store_uris(old(store).docs@, store.docs@);
                            }
                            return events;
                        },
                        None => {},
                    }
                },
                None => {},
            }
        },
        None => {},
    }
    proof {
        assert(!spec_is_success_response(m));
    }
    match json_get(&v, "method") {
        Some(mv) => {
            match json_as_str(mv) {
                Some(name) => {
                    if str_eq(name, "textDocument/publishDiagnostics") {
                        match json_get(&v, "params") {
                            Some(params) => {
                                match decode_publish_params(params) {
                                    Some((uri, batch)) => {
                                        store.process_diagnostics(&uri, batch);
                                        events.push(
                                            RoutedEvent::Output {
                                                uri,
                                                output: LspOutput::Diagnostics,
                                            },
                                        );
                                    },
                                    None => {},
                                }
                            },
                            None => {},
                        }
                    }
                },
                None => {},
            }
        },
        None => {},
    }
    proof {
        lemma_store_uris(old(store).docs@, store.docs@);
    }
    events
}

/// Every branch of the router leaves each document's URI where it was;
/// this restates that as the frame clause needs it.
proof fn lemma_store_uris(od: Seq<crate::router::DocRecord>, nd: Seq<crate::router::DocRecord>)
    requires
        od.len() == nd.len(),
        forall|k: int| 0 <= k < od.len() ==> (#[trigger] nd[k]).uri == od[k].uri || nd[k]
            == od[k],
    ensures
        forall|k: int| 0 <= k < od.len() ==> (#[trigger] nd[k]).uri == od[k].uri,
{
}

} // verus!
