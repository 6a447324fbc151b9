use ste_lib::edits::{apply_completion_edits, apply_edit, sort_edits_desc, OffsetEdit};

fn edit(start: usize, end: usize, text: &str) -> OffsetEdit {
    OffsetEdit { start, end, text: String::from(text) }
}

#[test]
fn single_edit_replaces_range() {
    let out = apply_edit(&String::from("hello world"), &edit(6, 11, "verus"));
    assert_eq!(out, "hello verus");
}

#[test]
fn edit_out_of_range_is_clamped() {
    let out = apply_edit(&String::from("abc"), &edit(10, 20, "!"));
    assert_eq!(out, "abc!");
}

#[test]
fn inverted_range_inserts_at_start() {
    let out = apply_edit(&String::from("abcd"), &edit(2, 1, "X"));
    assert_eq!(out, "abXcd");
}

#[test]
fn sort_is_descending_and_stable_on_ties() {
    let sorted = sort_edits_desc(vec![
        edit(1, 2, "a"),
        edit(5, 6, "b"),
        edit(5, 6, "c"),
        edit(3, 4, "d"),
    ]);
    let starts: Vec<usize> = sorted.iter().map(|e| e.start).collect();
    assert_eq!(starts, vec![5, 5, 3, 1]);
    // Equal starts keep their order of arrival.
    assert_eq!(sorted[0].text, "b");
    assert_eq!(sorted[1].text, "c");
}

#[test]
fn edits_apply_back_to_front() {
    // Two disjoint edits, handed over front-to-back: applying in descending
    // start order leaves the earlier edit's offsets valid.
    let text = String::from("0123456789");
    let out = apply_completion_edits(&text, vec![edit(2, 4, "AB"), edit(6, 8, "CD")]);
    assert_eq!(out, "01AB45CD89");
}

#[test]
fn edits_match_stepwise_reapplication() {
    // The library's one-shot application equals applying the edits one at a
    // time, re-deriving each edit's range against the current text — which
    // in descending order is the unchanged original range.
    let text = String::from("fn main() {}");
    let edits = vec![edit(3, 7, "start"), edit(11, 11, " body "), edit(0, 2, "FN")];
    let one_shot = apply_completion_edits(&text, edits);

    // By hand, in descending start order: 11, then 3, then 0.
    let step1 = apply_edit(&text, &edit(11, 11, " body "));
    let step2 = apply_edit(&step1, &edit(3, 7, "start"));
    let step3 = apply_edit(&step2, &edit(0, 2, "FN"));
    assert_eq!(one_shot, step3);
    assert_eq!(one_shot, "FN start() { body }");
}

#[test]
fn overlapping_and_nested_edits() {
    // Overlapping and nested ranges still apply deterministically in
    // descending start order, with clamping against the shrinking text.
    let text = String::from("abcdefgh");
    let out = apply_completion_edits(
        &text,
        vec![edit(1, 6, "X"), edit(3, 5, "Y"), edit(2, 8, "Z")],
    );
    // Descending: (3,5)->"Y" gives abcYfgh; (2,8)->"Z" gives abZ; (1,6)->"X"
    // clamps to (1,3) and gives aX.
    assert_eq!(out, "aX");
}

#[test]
fn empty_edit_list_keeps_text() {
    let text = String::from("unchanged");
    assert_eq!(apply_completion_edits(&text, Vec::new()), "unchanged");
}

#[test]
fn non_ascii_text_counts_characters() {
    let text = String::from("héllo");
    let out = apply_edit(&text, &edit(1, 2, "e"));
    assert_eq!(out, "hello");
}
