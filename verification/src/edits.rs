//! Applying a resolved completion's text edits.  Edits arrive as character
//! ranges against one snapshot of the document; they are applied one at a
//! time in descending start order, which is proved never to shift the range
//! of an edit that is still waiting.

use vstd::multiset::Multiset;
use vstd::prelude::*;
use vstd::string::{StrSliceExecFns, StringExecFns};

verus! {

/// One edit against a text snapshot: the characters of `[start, end)` are
/// replaced by `text`.
pub struct OffsetEdit {
    pub start: usize,
    pub end: usize,
    pub text: String,
}

/// Where an edit's removal begins, clamped to the text.
pub open spec fn spec_clamp_start(t: Seq<char>, e: OffsetEdit) -> int {
    if e.start <= t.len() {
        e.start as int
    } else {
        t.len() as int
    }
}

/// Where an edit's removal ends: at least its start, clamped to the text.
pub open spec fn spec_clamp_end(t: Seq<char>, e: OffsetEdit) -> int {
    let hi = if e.end >= e.start {
        e.end
    } else {
        e.start
    };
    if hi <= t.len() {
        hi as int
    } else {
        t.len() as int
    }
}

/// One edit applied: the clamped range is replaced by the edit's text.
pub open spec fn spec_apply_edit(t: Seq<char>, e: OffsetEdit) -> Seq<char> {
    t.take(spec_clamp_start(t, e)) + e.text@ + t.skip(spec_clamp_end(t, e))
}

/// Edits applied one at a time, first element first.
pub open spec fn spec_apply_edits(t: Seq<char>, es: Seq<OffsetEdit>) -> Seq<char>
    decreases es.len(),
{
    if es.len() == 0 {
        t
    } else {
        spec_apply_edits(spec_apply_edit(t, es[0]), es.drop_first())
    }
}

pub proof fn lemma_apply_edits_snoc(t: Seq<char>, es: Seq<OffsetEdit>, e: OffsetEdit)
    ensures
        spec_apply_edits(t, es.push(e)) == spec_apply_edit(spec_apply_edits(t, es), e),
    decreases es.len(),
{
    if es.len() == 0 {
        assert(es.push(e)[0] == e);
        assert(es.push(e).drop_first() =~= Seq::<OffsetEdit>::empty());
        assert(spec_apply_edits(spec_apply_edit(t, e), Seq::<OffsetEdit>::empty())
            == spec_apply_edit(t, e));
        assert(spec_apply_edits(t, es) == t);
    } else {
        assert(es.push(e)[0] == es[0]);
        assert(es.push(e).drop_first() =~= es.drop_first().push(e));
        lemma_apply_edits_snoc(spec_apply_edit(t, es[0]), es.drop_first(), e);
    }
}

/// Applies one edit to a text snapshot.
pub fn apply_edit(text: &String, e: &OffsetEdit) -> (r: String)
    ensures
        r@ == spec_apply_edit(text@, *e),
{
    let s = text.as_str();
    let n = s.unicode_len();
    let cs = if e.start <= n {
        e.start
    } else {
        n
    };
    let hi = if e.end >= e.start {
        e.end
    } else {
        e.start
    };
    let ce = if hi <= n {
        hi
    } else {
        n
    };
    let mut out = String::from_str(s.substring_char(0, cs));
    out.append(e.text.as_str());
    out.append(s.substring_char(ce, n));
    proof {
        assert(text@.subrange(0, cs as int) =~= text@.take(spec_clamp_start(text@, *e)));
        assert(text@.subrange(ce as int, text@.len() as int) =~= text@.skip(
            spec_clamp_end(text@, *e),
        ));
    }
    out
}

// ---------------------------------------------------------------------------
// Sorting the edits by descending start offset.
// ---------------------------------------------------------------------------

/// Starts never increase along the sequence.
pub open spec fn sorted_desc(es: Seq<OffsetEdit>) -> bool {
    forall|i: int, j: int| 0 <= i < j < es.len() ==> (#[trigger] es[i]).start >= (
    #[trigger] es[j]).start
}

/// The first index of the greatest start.
pub open spec fn spec_max_start_index(es: Seq<OffsetEdit>) -> int
    recommends
        es.len() > 0,
    decreases es.len(),
{
    if es.len() <= 1 {
        0
    } else {
        let m = spec_max_start_index(es.drop_first()) + 1;
        if es[0].start >= es[m].start {
            0
        } else {
            m
        }
    }
}

pub proof fn lemma_max_start_index_props(es: Seq<OffsetEdit>)
    requires
        es.len() > 0,
    ensures
        0 <= spec_max_start_index(es) < es.len(),
        forall|i: int|
            0 <= i < es.len() ==> es[spec_max_start_index(es)].start >= (#[trigger] es[i]).start,
        forall|i: int|
            0 <= i < spec_max_start_index(es) ==> (#[trigger] es[i]).start
                < es[spec_max_start_index(es)].start,
    decreases es.len(),
{
    if es.len() > 1 {
        lemma_max_start_index_props(es.drop_first());
        let t = es.drop_first();
        let mt = spec_max_start_index(t);
        assert(forall|i: int| 0 <= i < t.len() ==> #[trigger] t[i] == es[i + 1]);
        assert(es[mt + 1] == t[mt]);
        assert forall|i: int| 0 <= i < es.len() implies es[spec_max_start_index(es)].start >= (
        #[trigger] es[i]).start by {
            if i >= 1 {
                assert(es[i] == t[i - 1]);
                assert(t[mt].start >= t[i - 1].start);
            }
        }
        assert forall|i: int| 0 <= i < spec_max_start_index(es) implies (#[trigger] es[i]).start
            < es[spec_max_start_index(es)].start by {
            if i >= 1 {
                assert(es[i] == t[i - 1]);
                assert(t[i - 1].start < t[mt].start);
            }
        }
    }
}

/// The edits in descending start order: repeatedly the first edit with the
/// greatest start, so edits with equal starts keep their server order.
pub open spec fn spec_sort_desc(es: Seq<OffsetEdit>) -> Seq<OffsetEdit>
    decreases es.len(),
    via spec_sort_desc_dec
{
    if es.len() == 0 {
        es
    } else {
        let m = spec_max_start_index(es);
        seq![es[m]] + spec_sort_desc(es.remove(m))
    }
}

#[via_fn]
proof fn spec_sort_desc_dec(es: Seq<OffsetEdit>) {
    if es.len() > 0 {
        lemma_max_start_index_props(es);
    }
}

pub proof fn lemma_sort_desc_props(es: Seq<OffsetEdit>)
    ensures
        spec_sort_desc(es).len() == es.len(),
        sorted_desc(spec_sort_desc(es)),
        spec_sort_desc(es).to_multiset() == es.to_multiset(),
    decreases es.len(),
{
    broadcast use vstd::seq_lib::group_to_multiset_ensures;
    broadcast use vstd::multiset::group_multiset_axioms;

    if es.len() > 0 {
        lemma_max_start_index_props(es);
        let m = spec_max_start_index(es);
        let x = es[m];
        let rest = es.remove(m);
        lemma_sort_desc_props(rest);
        let sorted = spec_sort_desc(es);
        assert(sorted == seq![x] + spec_sort_desc(rest));
        assert(sorted.len() == es.len());

        // The multiset: both sides are `rest` with the maximum put back.
        assert(sorted[0] == x);
        assert(sorted.contains(x));
        assert(sorted.remove(0) =~= spec_sort_desc(rest));
        assert(sorted.remove(0).to_multiset() == sorted.to_multiset().remove(sorted[0]));
        assert(spec_sort_desc(rest).to_multiset() == sorted.to_multiset().remove(x));
        assert(sorted.to_multiset().count(x) > 0);
        assert(sorted.to_multiset() =~= sorted.to_multiset().remove(x).insert(x));
        assert(es.contains(x)) by {
            assert(es[m] == x);
        }
        assert(rest.to_multiset() == es.to_multiset().remove(x));
        assert(es.to_multiset().count(x) > 0);
        assert(es.to_multiset() =~= es.to_multiset().remove(x).insert(x));
        assert(sorted.to_multiset() =~= es.to_multiset());

        // Sortedness: the head bounds everything that came out of `rest`.
        assert forall|i: int, j: int|
            0 <= i < j < sorted.len() implies (#[trigger] sorted[i]).start >= (
        #[trigger] sorted[j]).start by {
            if i == 0 {
                let y = sorted[j];
                assert(y == spec_sort_desc(rest)[j - 1]);
                assert(spec_sort_desc(rest).contains(y));
                assert(spec_sort_desc(rest).to_multiset().count(y) > 0);
                assert(rest.to_multiset().count(y) > 0);
                assert(rest.contains(y));
                let yi = choose|yi: int| 0 <= yi < rest.len() && rest[yi] == y;
                if yi < m {
                    assert(rest[yi] == es[yi]);
                } else {
                    assert(rest[yi] == es[yi + 1]);
                }
            } else {
                assert(sorted[i] == spec_sort_desc(rest)[i - 1]);
                assert(sorted[j] == spec_sort_desc(rest)[j - 1]);
            }
        }
    }
}

/// The index of the first edit with the greatest start.
fn max_start_index(es: &Vec<OffsetEdit>) -> (r: usize)
    requires
        es@.len() > 0,
    ensures
        r as int == spec_max_start_index(es@),
{
    proof {
        lemma_max_start_index_props(es@);
    }
    let mut best: usize = 0;
    let mut i: usize = 1;
    while i < es.len()
        invariant
            0 <= best < i <= es@.len(),
            forall|j: int| 0 <= j < i ==> es@[best as int].start >= (#[trigger] es@[j]).start,
            forall|j: int| 0 <= j < best ==> (#[trigger] es@[j]).start < es@[best as int].start,
        decreases es@.len() - i,
    {
        if es[i].start > es[best].start {
            best = i;
        }
        i = i + 1;
    }
    proof {
        let m = spec_max_start_index(es@);
        if m < best {
            assert(es@[m].start < es@[best as int].start);
            assert(es@[m].start >= es@[best as int].start);
        }
        if m > best {
            assert(es@[best as int].start < es@[m].start);
            assert(es@[best as int].start >= es@[m].start);
        }
    }
    best
}

/// Sorts edits by descending start, edits with equal starts keeping their
/// order of arrival.
pub fn sort_edits_desc(edits: Vec<OffsetEdit>) -> (r: Vec<OffsetEdit>)
    ensures
        r@ == spec_sort_desc(edits@),
{
    let ghost orig = edits@;
    let mut rest = edits;
    let mut out: Vec<OffsetEdit> = Vec::new();
    while rest.len() > 0
        invariant
            out@ + spec_sort_desc(rest@) =~= spec_sort_desc(orig),
        decreases rest@.len(),
    {
        let ghost before = rest@;
        let m = max_start_index(&rest);
        proof {
            lemma_max_start_index_props(before);
        }
        let e = rest.remove(m);
        proof {
            assert(e == before[spec_max_start_index(before)]);
            assert(spec_sort_desc(before) == seq![e] + spec_sort_desc(rest@));
        }
        out.push(e);
        proof {
            assert(out@ + spec_sort_desc(rest@) =~= spec_sort_desc(orig));
        }
    }
    proof {
        assert(out@ =~= spec_sort_desc(orig));
    }
    out
}

fn copy_offset_edit(e: &OffsetEdit) -> (r: OffsetEdit)
    ensures
        r == *e,
{
    OffsetEdit { start: e.start, end: e.end, text: e.text.clone() }
}

/// Applies a resolved completion's edits: sorted by descending start, then
/// applied one at a time, each against the text the previous edits left.
pub fn apply_completion_edits(text: &String, edits: Vec<OffsetEdit>) -> (r: String)
    ensures
        r@ == spec_apply_edits(text@, spec_sort_desc(edits@)),
{
    let sorted = sort_edits_desc(edits);
    let ghost ses = sorted@;
    let mut current = text.clone();
    let mut i: usize = 0;
    while i < sorted.len()
        invariant
            i <= ses.len(),
            sorted@ == ses,
            current@ == spec_apply_edits(text@, ses.take(i as int)),
        decreases ses.len() - i,
    {
        let e = copy_offset_edit(&sorted[i]);
        current = apply_edit(&current, &e);
        proof {
            assert(ses.take(i + 1) =~= ses.take(i as int).push(ses[i as int]));
            lemma_apply_edits_snoc(text@, ses.take(i as int), ses[i as int]);
        }
        i = i + 1;
    }
    proof {
        assert(ses.take(ses.len() as int) =~= ses);
    }
    current
}

// ---------------------------------------------------------------------------
// Law: descending application never shifts a waiting edit's range.
// ---------------------------------------------------------------------------

/// Applying edits whose starts all lie at or beyond `k` keeps the first `k`
/// characters of the text — both their values and their positions.
pub proof fn lemma_edits_beyond_k_preserve_prefix(t: Seq<char>, es: Seq<OffsetEdit>, k: int)
    requires
        0 <= k <= t.len(),
        forall|i: int| 0 <= i < es.len() ==> k <= (#[trigger] es[i]).start,
    ensures
        spec_apply_edits(t, es).len() >= k,
        spec_apply_edits(t, es).take(k) == t.take(k),
    decreases es.len(),
{
    if es.len() > 0 {
        let e = es[0];
        let t1 = spec_apply_edit(t, e);
        let cs = spec_clamp_start(t, e);
        assert(k <= cs);
        assert(t1.len() >= cs >= k);
        assert(t1.take(k) =~= t.take(k));
        assert(forall|i: int|
            0 <= i < es.drop_first().len() ==> k <= (#[trigger] es.drop_first()[i]).start);
        lemma_edits_beyond_k_preserve_prefix(t1, es.drop_first(), k);
        assert(spec_apply_edits(t1, es.drop_first()).take(k) == t1.take(k));
    } else {
        assert(spec_apply_edits(t, es).take(k) =~= t.take(k));
    }
}

/// Completion-resolve edit application: with the edits in descending start
/// order, applying them one at a time never shifts an edit still waiting —
/// when edit `j`'s turn comes, the text below its start offset is exactly
/// the original text, so offsets computed against the original snapshot are
/// still the right offsets.  Applying the edits with offsets recomputed
/// after every step therefore changes nothing.
pub proof fn lemma_desc_application_never_shifts(t: Seq<char>, es: Seq<OffsetEdit>, j: int)
    requires
        sorted_desc(es),
        0 <= j < es.len(),
        es[j].start <= t.len(),
    ensures
        spec_apply_edits(t, es.take(j)).len() >= es[j].start,
        spec_apply_edits(t, es.take(j)).take(es[j].start as int) == t.take(es[j].start as int),
{
    assert(forall|i: int|
        0 <= i < es.take(j).len() ==> es[j].start <= (#[trigger] es.take(j)[i]).start);
    lemma_edits_beyond_k_preserve_prefix(t, es.take(j), es[j].start as int);
}

} // verus!
