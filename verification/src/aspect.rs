//! The display form of an aspect ratio: a table of known decimal ratios and
//! their conventional labels.

use crate::text::str_eq;
use vstd::prelude::*;

verus! {

/// The known ratios: the raw text as the probe reports it, and its label.
pub const RATIO_TABLE: [(&'static str, &'static str); 19] = [
    ("1.778", "16:9"),
    ("1.333", "4:3"),
    ("2.35", "2.35:1"),
    ("2.40", "2.40:1"),
    ("2.000", "18:9"),
    ("1.250", "5:4"),
    ("2.333", "21:9"),
    ("1.500", "3:2"),
    ("1.600", "16:10"),
    ("8:5", "16:10"),
    ("1.850", "37:20"),
    ("1.900", "19:10"),
    ("2.550", "17:10"),
    ("2.760", "32:11"),
    ("2.800", "7:2"),
    ("2.840", "71:25"),
    ("1.667", "5:3"),
    ("5:3", "5:3"),
    ("0.562", "9:16"),
];

/// The rows of the table as pairs of character sequences.
pub open spec fn ratio_table() -> Seq<(Seq<char>, Seq<char>)> {
    Seq::new(19, |i: int| (RATIO_TABLE[i].0@, RATIO_TABLE[i].1@))
}

/// The label of the first row at or after `from` whose raw text is `raw`.
pub open spec fn label_from(raw: Seq<char>, from: int) -> Option<Seq<char>>
    decreases ratio_table().len() - from,
{
    if from < 0 || from >= ratio_table().len() {
        None
    } else if ratio_table()[from].0 == raw {
        Some(ratio_table()[from].1)
    } else {
        label_from(raw, from + 1)
    }
}

/// Whether some row of the table has `raw` as its raw text.
pub open spec fn is_listed(raw: Seq<char>) -> bool {
    exists|i: int| 0 <= i < ratio_table().len() && #[trigger] ratio_table()[i].0 == raw
}

/// The display form of a raw ratio: its label where the table lists it, the
/// raw text itself where it does not.
pub open spec fn canonical_ratio(raw: Seq<char>) -> Seq<char> {
    match label_from(raw, 0) {
        Some(label) => label,
        None => raw,
    }
}

/// Makes the characters of every text in the table known to the prover.
proof fn reveal_ratio_texts()
    ensures
        ratio_table().len() == 19,
        ratio_table() =~~= seq![
            (seq!['1', '.', '7', '7', '8'], seq!['1', '6', ':', '9']),
            (seq!['1', '.', '3', '3', '3'], seq!['4', ':', '3']),
            (seq!['2', '.', '3', '5'], seq!['2', '.', '3', '5', ':', '1']),
            (seq!['2', '.', '4', '0'], seq!['2', '.', '4', '0', ':', '1']),
            (seq!['2', '.', '0', '0', '0'], seq!['1', '8', ':', '9']),
            (seq!['1', '.', '2', '5', '0'], seq!['5', ':', '4']),
            (seq!['2', '.', '3', '3', '3'], seq!['2', '1', ':', '9']),
            (seq!['1', '.', '5', '0', '0'], seq!['3', ':', '2']),
            (seq!['1', '.', '6', '0', '0'], seq!['1', '6', ':', '1', '0']),
            (seq!['8', ':', '5'], seq!['1', '6', ':', '1', '0']),
            (seq!['1', '.', '8', '5', '0'], seq!['3', '7', ':', '2', '0']),
            (seq!['1', '.', '9', '0', '0'], seq!['1', '9', ':', '1', '0']),
            (seq!['2', '.', '5', '5', '0'], seq!['1', '7', ':', '1', '0']),
            (seq!['2', '.', '7', '6', '0'], seq!['3', '2', ':', '1', '1']),
            (seq!['2', '.', '8', '0', '0'], seq!['7', ':', '2']),
            (seq!['2', '.', '8', '4', '0'], seq!['7', '1', ':', '2', '5']),
            (seq!['1', '.', '6', '6', '7'], seq!['5', ':', '3']),
            (seq!['5', ':', '3'], seq!['5', ':', '3']),
            (seq!['0', '.', '5', '6', '2'], seq!['9', ':', '1', '6']),
        ],
{
    reveal_strlit("1.778");
    reveal_strlit("16:9");
    reveal_strlit("1.333");
    reveal_strlit("4:3");
    reveal_strlit("2.35");
    reveal_strlit("2.35:1");
    reveal_strlit("2.40");
    reveal_strlit("2.40:1");
    reveal_strlit("2.000");
    reveal_strlit("18:9");
    reveal_strlit("1.250");
    reveal_strlit("5:4");
    reveal_strlit("2.333");
    reveal_strlit("21:9");
    reveal_strlit("1.500");
    reveal_strlit("3:2");
    reveal_strlit("1.600");
    reveal_strlit("16:10");
    reveal_strlit("8:5");
    reveal_strlit("1.850");
    reveal_strlit("37:20");
    reveal_strlit("1.900");
    reveal_strlit("19:10");
    reveal_strlit("2.550");
    reveal_strlit("17:10");
    reveal_strlit("2.760");
    reveal_strlit("32:11");
    reveal_strlit("2.800");
    reveal_strlit("7:2");
    reveal_strlit("2.840");
    reveal_strlit("71:25");
    reveal_strlit("1.667");
    reveal_strlit("5:3");
    reveal_strlit("0.562");
    reveal_strlit("9:16");
}

/// No two rows of the table list the same raw text.
proof fn lemma_raw_texts_distinct()
    ensures
        forall|i: int, j: int|
            0 <= i < j < ratio_table().len() ==> #[trigger] ratio_table()[i].0
                != #[trigger] ratio_table()[j].0,
{
    reveal_ratio_texts();
    assert forall|i: int, j: int| 0 <= i < j < ratio_table().len() implies #[trigger] ratio_table()[i].0
        != #[trigger] ratio_table()[j].0 by {
        let a = ratio_table()[i].0;
        let b = ratio_table()[j].0;
        if a.len() == b.len() {
            assert(a[0] != b[0] || a[2] != b[2] || a[3] != b[3] || a[a.len() - 1] != b[b.len() - 1]);
        }
    }
}

/// A search that finds a label found it in a row at or after its start, and
/// no row between the start and that row lists the raw text.
proof fn lemma_label_found(raw: Seq<char>, from: int) -> (row: int)
    requires
        0 <= from,
        label_from(raw, from) is Some,
    ensures
        from <= row < ratio_table().len(),
        ratio_table()[row].0 == raw,
        label_from(raw, from) == Some(ratio_table()[row].1),
        forall|k: int| from <= k < row ==> #[trigger] ratio_table()[k].0 != raw,
    decreases ratio_table().len() - from,
{
    if ratio_table()[from].0 == raw {
        from
    } else {
        lemma_label_found(raw, from + 1)
    }
}

/// A search that finds nothing passed only rows that do not list the raw text.
proof fn lemma_label_missing(raw: Seq<char>, from: int)
    requires
        0 <= from,
    ensures
        label_from(raw, from) is None <==> forall|k: int|
            from <= k < ratio_table().len() ==> #[trigger] ratio_table()[k].0 != raw,
    decreases ratio_table().len() - from,
{
    if from < ratio_table().len() {
        lemma_label_missing(raw, from + 1);
        if ratio_table()[from].0 != raw {
            assert forall|k: int| from <= k < ratio_table().len() && (forall|m: int|
                from + 1 <= m < ratio_table().len() ==> #[trigger] ratio_table()[m].0
                    != raw) implies #[trigger] ratio_table()[k].0 != raw by {
                if k != from {
                    assert(from + 1 <= k);
                }
            }
        }
    }
}

/// The raw text of every row is mapped to the label of that row.
pub proof fn listed_ratio_gets_its_label(row: int)
    requires
        0 <= row < ratio_table().len(),
    ensures
        canonical_ratio(ratio_table()[row].0) == ratio_table()[row].1,
{
    let raw = ratio_table()[row].0;
    lemma_label_missing(raw, 0);
    let found = lemma_label_found(raw, 0);
    lemma_raw_texts_distinct();
    if found < row {
        assert(ratio_table()[found].0 != ratio_table()[row].0);
    } else if row < found {
        assert(ratio_table()[row].0 != ratio_table()[found].0);
    }
}

/// A raw text that no row lists is returned unchanged.
pub proof fn unlisted_ratio_is_kept(raw: Seq<char>)
    requires
        !is_listed(raw),
    ensures
        canonical_ratio(raw) == raw,
{
    lemma_label_missing(raw, 0);
}

/// What the table says of one raw text: the label of each row that lists
/// it, and the text itself where no row does.
proof fn lemma_table_decides(raw: Seq<char>)
    ensures
        forall|row: int|
            0 <= row < ratio_table().len() && (#[trigger] ratio_table()[row]).0 == raw
                ==> canonical_ratio(raw) == ratio_table()[row].1,
        !is_listed(raw) ==> canonical_ratio(raw) == raw,
{
    assert forall|row: int|
        0 <= row < ratio_table().len() && (#[trigger] ratio_table()[row]).0
            == raw implies canonical_ratio(raw) == ratio_table()[row].1 by {
        listed_ratio_gets_its_label(row);
    }
    if !is_listed(raw) {
        unlisted_ratio_is_kept(raw);
    }
}

/// Maps a raw aspect ratio to its conventional label; a ratio that the table
/// does not list is returned as it came.
pub fn convert_display_aspect_ratio(raw_ratio: &str) -> (label: String)
    ensures
        label@ == canonical_ratio(raw_ratio@),
        forall|row: int|
            0 <= row < ratio_table().len() && (#[trigger] ratio_table()[row]).0 == raw_ratio@
                ==> label@ == ratio_table()[row].1,
        !is_listed(raw_ratio@) ==> label@ == raw_ratio@,
{
    proof {
        lemma_table_decides(raw_ratio@);
    }
    let mut i: usize = 0;
    while i < 19
        invariant
            0 <= i <= 19,
            label_from(raw_ratio@, 0) == label_from(raw_ratio@, i as int),
            forall|row: int|
                0 <= row < ratio_table().len() && (#[trigger] ratio_table()[row]).0 == raw_ratio@
                    ==> canonical_ratio(raw_ratio@) == ratio_table()[row].1,
            !is_listed(raw_ratio@) ==> canonical_ratio(raw_ratio@) == raw_ratio@,
        decreases 19 - i,
    {
        if str_eq(raw_ratio, RATIO_TABLE[i].0) {
            return RATIO_TABLE[i].1.to_owned();
        }
        i = i + 1;
    }
    raw_ratio.to_owned()
}

/// Every label is left alone by the table: where a row lists a label as raw
/// text, that row maps it to itself.
proof fn lemma_labels_are_fixed(row: int)
    requires
        0 <= row < ratio_table().len(),
    ensures
        canonical_ratio(ratio_table()[row].1) == ratio_table()[row].1,
{
    let label = ratio_table()[row].1;
    lemma_label_missing(label, 0);
    if label_from(label, 0) is Some {
        let found = lemma_label_found(label, 0);
        reveal_ratio_texts();
        let raw = ratio_table()[found].0;
        assert(raw == label);
        // Only the row of `5:3` lists a label as its raw text.
        if found != 17 {
            assert(raw.len() != label.len() || raw[1] != label[1]);
        }
    }
}

/// Converting a ratio that has already been converted changes nothing.
pub proof fn canonical_ratio_is_idempotent(raw: Seq<char>)
    ensures
        canonical_ratio(canonical_ratio(raw)) == canonical_ratio(raw),
{
    if label_from(raw, 0) is Some {
        let row = lemma_label_found(raw, 0);
        lemma_labels_are_fixed(row);
    }
}

} // verus!
