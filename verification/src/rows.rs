//! Lists of rows and of names: dropping repeats and putting in order.

use crate::models::{ResultRow, RowView};
use crate::text::{is_text_le, lemma_filter_push, same_text, text_le};
use vstd::prelude::*;
use vstd::string::*;

verus! {

/// What two rows agree in when they tell of the same thing: the certificate,
/// its page, and the algorithm with its certificate.
pub open spec fn row_key(row: RowView) -> (Seq<char>, Seq<char>, Seq<char>, Seq<char>) {
    (row.module_certificate, row.certificate_url, row.cavp_certificate, row.cavp_algorithm)
}

/// Some row has this key.
pub open spec fn has_key(
    rows: Seq<RowView>,
    key: (Seq<char>, Seq<char>, Seq<char>, Seq<char>),
) -> bool {
    exists|i: int| 0 <= i < rows.len() && row_key(#[trigger] rows[i]) == key
}

/// The rows whose key no earlier row has, in their order.
pub open spec fn deduped(rows: Seq<RowView>) -> Seq<RowView>
    decreases rows.len(),
{
    if rows.len() == 0 {
        seq![]
    } else if has_key(rows.drop_last(), row_key(rows.last())) {
        deduped(rows.drop_last())
    } else {
        deduped(rows.drop_last()).push(rows.last())
    }
}

/// A row put into rows that are in descending order of certificates, behind
/// those with the same certificate.
pub open spec fn placed(sorted: Seq<RowView>, row: RowView) -> Seq<RowView>
    decreases sorted.len(),
{
    if sorted.len() == 0 || text_le(row.module_certificate, sorted.last().module_certificate) {
        sorted.push(row)
    } else {
        placed(sorted.drop_last(), row).push(sorted.last())
    }
}

/// The rows in descending order of certificates, those with the same
/// certificate in the order that they came in.
pub open spec fn descending(rows: Seq<RowView>) -> Seq<RowView>
    decreases rows.len(),
{
    if rows.len() == 0 {
        seq![]
    } else {
        placed(descending(rows.drop_last()), rows.last())
    }
}

/// A text put into texts that are in ascending order.
pub open spec fn placed_text(sorted: Seq<Seq<char>>, text: Seq<char>) -> Seq<Seq<char>>
    decreases sorted.len(),
{
    if sorted.len() == 0 || text_le(sorted.last(), text) {
        sorted.push(text)
    } else {
        placed_text(sorted.drop_last(), text).push(sorted.last())
    }
}

/// The texts in ascending order.
pub open spec fn ascending(texts: Seq<Seq<char>>) -> Seq<Seq<char>>
    decreases texts.len(),
{
    if texts.len() == 0 {
        seq![]
    } else {
        placed_text(ascending(texts.drop_last()), texts.last())
    }
}

/// The keys of the rows are those of the rows without repeats.
proof fn lemma_deduped_keys(
    rows: Seq<RowView>,
    key: (Seq<char>, Seq<char>, Seq<char>, Seq<char>),
)
    ensures
        has_key(deduped(rows), key) == has_key(rows, key),
    decreases rows.len(),
{
    if rows.len() > 0 {
        let head = rows.drop_last();
        let last = rows.last();
        lemma_deduped_keys(head, key);
        lemma_deduped_keys(head, row_key(last));
        assert(rows =~= head.push(last));
        lemma_key_push(head, last, key);
        lemma_key_push(deduped(head), last, key);
    }
}

/// Pushing a row adds its key and no other.
proof fn lemma_key_push(
    rows: Seq<RowView>,
    row: RowView,
    key: (Seq<char>, Seq<char>, Seq<char>, Seq<char>),
)
    ensures
        has_key(rows.push(row), key) == (has_key(rows, key) || row_key(row) == key),
{
    let longer = rows.push(row);
    if has_key(rows, key) {
        let i = choose|i: int| 0 <= i < rows.len() && row_key(#[trigger] rows[i]) == key;
        assert(longer[i] == rows[i]);
    }
    if row_key(row) == key {
        assert(longer[rows.len() as int] == row);
    }
    if has_key(longer, key) {
        let i = choose|i: int| 0 <= i < longer.len() && row_key(#[trigger] longer[i]) == key;
        if i < rows.len() {
            assert(rows[i] == longer[i]);
        }
    }
}

/// Whether a row of the list agrees with `row` in the key.
fn holds_key(rows: &Vec<ResultRow>, row: &ResultRow) -> (r: bool)
    ensures
        r == has_key(rows.deep_view(), row_key(row.deep_view())),
{
    let ghost all = rows.deep_view();
    let ghost key = row_key(row.deep_view());
    let mut i: usize = 0;
    while i < rows.len()
        invariant
            i <= rows@.len(),
            all == rows.deep_view(),
            key == row_key(row.deep_view()),
            forall|k: int| 0 <= k < i ==> row_key(#[trigger] all[k]) != key,
        decreases rows@.len() - i,
    {
        let other = &rows[i];
        if same_text(other.module_certificate.as_str(), row.module_certificate.as_str())
            && same_text(other.certificate_url.as_str(), row.certificate_url.as_str())
            && same_text(other.cavp_certificate.as_str(), row.cavp_certificate.as_str())
            && same_text(other.cavp_algorithm.as_str(), row.cavp_algorithm.as_str()) {
            assert(row_key(all[i as int]) == key);
            return true;
        }
        i += 1;
    }
    false
}

/// The rows whose key no earlier row has, in their order.
pub fn dedupe_rows(rows: Vec<ResultRow>) -> (r: Vec<ResultRow>)
    ensures
        r.deep_view() == deduped(rows.deep_view()),
{
    let ghost all = rows.deep_view();
    let mut r: Vec<ResultRow> = Vec::new();
    assert(r.deep_view() =~= deduped(all.take(0)));
    for row in it: rows
        invariant
            it.seq() == rows@,
            all == rows.deep_view(),
            r.deep_view() == deduped(all.take(it.index() as int)),
    {
        let ghost head = all.take(it.index() as int);
        let ghost known = r.deep_view();
        proof {
            assert(all.take(it.index() + 1).drop_last() =~= head);
            assert(all[it.index() as int] == row.deep_view());
            lemma_deduped_keys(head, row_key(row.deep_view()));
        }
        if !holds_key(&r, &row) {
            r.push(row);
            assert(r.deep_view() =~= known.push(row.deep_view()));
        }
    }
    assert(all.take(all.len() as int) =~= all);
    r
}

/// Where `placed` puts a row.
proof fn lemma_placed(sorted: Seq<RowView>, row: RowView, p: int)
    requires
        0 <= p <= sorted.len(),
        p > 0 ==> text_le(row.module_certificate, sorted[p - 1].module_certificate),
        forall|k: int|
            p <= k < sorted.len() ==> !text_le(
                row.module_certificate,
                (#[trigger] sorted[k]).module_certificate,
            ),
    ensures
        placed(sorted, row) == sorted.insert(p, row),
    decreases sorted.len(),
{
    if p == sorted.len() {
        assert(placed(sorted, row) =~= sorted.insert(p, row));
    } else {
        let head = sorted.drop_last();
        assert(sorted[sorted.len() - 1] == sorted.last());
        lemma_placed(head, row, p);
        assert(placed(sorted, row) =~= sorted.insert(p, row));
    }
}

/// The rows in descending order of certificates.
pub fn sort_rows_descending(rows: Vec<ResultRow>) -> (r: Vec<ResultRow>)
    ensures
        r.deep_view() == descending(rows.deep_view()),
{
    let ghost all = rows.deep_view();
    let mut r: Vec<ResultRow> = Vec::new();
    assert(r.deep_view() =~= descending(all.take(0)));
    for row in it: rows
        invariant
            it.seq() == rows@,
            all == rows.deep_view(),
            r.deep_view() == descending(all.take(it.index() as int)),
    {
        let ghost known = r.deep_view();
        let ghost view = row.deep_view();
        let mut p: usize = r.len();
        while p > 0 && !is_text_le(
            row.module_certificate.as_str(),
            r[p - 1].module_certificate.as_str(),
        )
            invariant
                p <= r@.len(),
                known == r.deep_view(),
                view == row.deep_view(),
                forall|k: int|
                    p <= k < known.len() ==> !text_le(
                        view.module_certificate,
                        (#[trigger] known[k]).module_certificate,
                    ),
            decreases p,
        {
            p -= 1;
        }
        proof {
            assert(all.take(it.index() + 1).drop_last() =~= all.take(it.index() as int));
            assert(all[it.index() as int] == view);
            lemma_placed(known, view, p as int);
        }
        r.insert(p, row);
        assert(r.deep_view() =~= known.insert(p as int, view));
    }
    assert(all.take(all.len() as int) =~= all);
    r
}

/// Where `placed_text` puts a text.
proof fn lemma_placed_text(sorted: Seq<Seq<char>>, text: Seq<char>, p: int)
    requires
        0 <= p <= sorted.len(),
        p > 0 ==> text_le(sorted[p - 1], text),
        forall|k: int| p <= k < sorted.len() ==> !text_le(#[trigger] sorted[k], text),
    ensures
        placed_text(sorted, text) == sorted.insert(p, text),
    decreases sorted.len(),
{
    if p == sorted.len() {
        assert(placed_text(sorted, text) =~= sorted.insert(p, text));
    } else {
        assert(sorted[sorted.len() - 1] == sorted.last());
        lemma_placed_text(sorted.drop_last(), text, p);
        assert(placed_text(sorted, text) =~= sorted.insert(p, text));
    }
}

/// The texts in ascending order.
pub fn sort_texts(texts: Vec<String>) -> (r: Vec<String>)
    ensures
        r.deep_view() == ascending(texts.deep_view()),
{
    let ghost all = texts.deep_view();
    let mut r: Vec<String> = Vec::new();
    assert(r.deep_view() =~= ascending(all.take(0)));
    for text in it: texts
        invariant
            it.seq() == texts@,
            all == texts.deep_view(),
            r.deep_view() == ascending(all.take(it.index() as int)),
    {
        let ghost known = r.deep_view();
        let mut p: usize = r.len();
        while p > 0 && !is_text_le(r[p - 1].as_str(), text.as_str())
            invariant
                p <= r@.len(),
                known == r.deep_view(),
                forall|k: int|
                    p <= k < known.len() ==> !text_le(#[trigger] known[k], text@),
            decreases p,
        {
            p -= 1;
        }
        proof {
            assert(all.take(it.index() + 1).drop_last() =~= all.take(it.index() as int));
            assert(all[it.index() as int] == text@);
            lemma_placed_text(known, text@, p as int);
        }
        r.insert(p, text);
        assert(r.deep_view() =~= known.insert(p as int, text@));
    }
    assert(all.take(all.len() as int) =~= all);
    r
}

/// No two rows of a list without repeats have the same key.
pub proof fn law_deduped_keys_differ(rows: Seq<RowView>, i: int, j: int)
    requires
        0 <= i < j < deduped(rows).len(),
    ensures
        row_key(deduped(rows)[i]) != row_key(deduped(rows)[j]),
    decreases rows.len(),
{
    let head = rows.drop_last();
    if j < deduped(head).len() {
        law_deduped_keys_differ(head, i, j);
    } else {
        lemma_deduped_keys(head, row_key(rows.last()));
        if row_key(deduped(rows)[i]) == row_key(rows.last()) {
            assert(deduped(head)[i] == deduped(rows)[i]);
            assert(has_key(deduped(head), row_key(rows.last())));
        }
    }
}

/// Dropping repeats loses no key and adds none.
pub proof fn law_deduped_keeps_keys(
    rows: Seq<RowView>,
    key: (Seq<char>, Seq<char>, Seq<char>, Seq<char>),
)
    ensures
        has_key(deduped(rows), key) == has_key(rows, key),
{
    lemma_deduped_keys(rows, key);
}

/// Rows whose keys all differ stay as they are.
pub proof fn law_deduped_leaves_distinct(rows: Seq<RowView>)
    requires
        forall|i: int, j: int|
            0 <= i < j < rows.len() ==> row_key(#[trigger] rows[i]) != row_key(#[trigger] rows[j]),
    ensures
        deduped(rows) == rows,
    decreases rows.len(),
{
    if rows.len() > 0 {
        let head = rows.drop_last();
        assert forall|i: int, j: int| 0 <= i < j < head.len() implies row_key(
            #[trigger] head[i],
        ) != row_key(#[trigger] head[j]) by {
            assert(head[i] == rows[i] && head[j] == rows[j]);
        }
        law_deduped_leaves_distinct(head);
        if has_key(head, row_key(rows.last())) {
            let i = choose|i: int|
                0 <= i < head.len() && row_key(#[trigger] head[i]) == row_key(rows.last());
            assert(head[i] == rows[i] && rows.last() == rows[rows.len() - 1]);
        }
        assert(deduped(rows) =~= rows);
    }
}

/// Dropping repeats twice is dropping them once.
pub proof fn law_deduped_idempotent(rows: Seq<RowView>)
    ensures
        deduped(deduped(rows)) == deduped(rows),
{
    let once = deduped(rows);
    assert forall|i: int, j: int| 0 <= i < j < once.len() implies row_key(#[trigger] once[i])
        != row_key(#[trigger] once[j]) by {
        law_deduped_keys_differ(rows, i, j);
    }
    law_deduped_leaves_distinct(once);
}

/// Of the rows with one key the first is kept: a row is in the list without
/// repeats if no earlier row has its key.
pub proof fn law_deduped_keeps_first(rows: Seq<RowView>, i: int)
    requires
        0 <= i < rows.len(),
        !has_key(rows.take(i), row_key(rows[i])),
    ensures
        deduped(rows).contains(rows[i]),
    decreases rows.len(),
{
    let head = rows.drop_last();
    if i == rows.len() - 1 {
        assert(rows.take(i) =~= head);
        assert(deduped(rows)[deduped(head).len() as int] == rows[i]);
    } else {
        assert(head.take(i) =~= rows.take(i));
        assert(head[i] == rows[i]);
        law_deduped_keeps_first(head, i);
        let k = choose|k: int| 0 <= k < deduped(head).len() && deduped(head)[k] == rows[i];
        assert(deduped(rows)[k] == rows[i]);
    }
}

/// Dropping repeats keeps the order: the kept rows stand in the list at
/// growing places.
pub proof fn law_deduped_in_order(rows: Seq<RowView>) -> (places: Seq<int>)
    ensures
        places.len() == deduped(rows).len(),
        forall|i: int|
            0 <= i < places.len() ==> 0 <= #[trigger] places[i] < rows.len() && rows[places[i]]
                == deduped(rows)[i],
        forall|i: int, j: int| 0 <= i < j < places.len() ==> places[i] < places[j],
    decreases rows.len(),
{
    if rows.len() == 0 {
        seq![]
    } else {
        let head = rows.drop_last();
        let before = law_deduped_in_order(head);
        if has_key(head, row_key(rows.last())) {
            before
        } else {
            before.push(rows.len() - 1)
        }
    }
}

/// Texts are compared with themselves.
pub proof fn law_text_le_reflexive(a: Seq<char>)
    ensures
        text_le(a, a),
    decreases a.len(),
{
    if a.len() > 0 {
        law_text_le_reflexive(a.drop_first());
    }
}

/// Of two texts one comes first.
pub proof fn law_text_le_total(a: Seq<char>, b: Seq<char>)
    ensures
        text_le(a, b) || text_le(b, a),
    decreases a.len(),
{
    if a.len() > 0 && b.len() > 0 && a[0] == b[0] {
        law_text_le_total(a.drop_first(), b.drop_first());
    }
}

/// The order of texts carries over a third.
pub proof fn law_text_le_transitive(a: Seq<char>, b: Seq<char>, c: Seq<char>)
    requires
        text_le(a, b),
        text_le(b, c),
    ensures
        text_le(a, c),
    decreases a.len(),
{
    if a.len() > 0 && a[0] == b[0] && b[0] == c[0] {
        law_text_le_transitive(a.drop_first(), b.drop_first(), c.drop_first());
    }
}

/// Two texts of which each comes before the other are the same.
pub proof fn law_text_le_antisymmetric(a: Seq<char>, b: Seq<char>)
    requires
        text_le(a, b),
        text_le(b, a),
    ensures
        a == b,
    decreases a.len(),
{
    if a.len() > 0 {
        law_text_le_antisymmetric(a.drop_first(), b.drop_first());
        assert(a =~= seq![a[0]] + a.drop_first());
        assert(b =~= seq![b[0]] + b.drop_first());
    } else {
        assert(a =~= b);
    }
}

/// The certificates of a list stand in descending order.
pub open spec fn is_descending(rows: Seq<RowView>) -> bool {
    forall|i: int, j: int|
        0 <= i <= j < rows.len() ==> text_le(
            (#[trigger] rows[j]).module_certificate,
            (#[trigger] rows[i]).module_certificate,
        )
}

/// Placing a row keeps the order and adds that row and nothing else.
proof fn lemma_placed_in_order(sorted: Seq<RowView>, row: RowView)
    requires
        is_descending(sorted),
    ensures
        is_descending(placed(sorted, row)),
        placed(sorted, row).to_multiset() == sorted.to_multiset().insert(row),
        forall|k: int|
            0 <= k < placed(sorted, row).len() ==> (#[trigger] placed(sorted, row)[k]) == row
                || sorted.contains(placed(sorted, row)[k]),
    decreases sorted.len(),
{
    broadcast use vstd::seq_lib::group_to_multiset_ensures;

    law_text_le_reflexive(row.module_certificate);
    let result = placed(sorted, row);
    if sorted.len() == 0 || text_le(row.module_certificate, sorted.last().module_certificate) {
        assert forall|i: int, j: int| 0 <= i <= j < result.len() implies text_le(
            (#[trigger] result[j]).module_certificate,
            (#[trigger] result[i]).module_certificate,
        ) by {
            if j == sorted.len() && i < j {
                assert(sorted[sorted.len() - 1] == sorted.last());
                law_text_le_transitive(
                    row.module_certificate,
                    sorted.last().module_certificate,
                    sorted[i].module_certificate,
                );
            }
        }
        assert forall|k: int| 0 <= k < result.len() implies (#[trigger] result[k]) == row
            || sorted.contains(result[k]) by {
            if k < sorted.len() {
                assert(sorted[k] == result[k]);
            }
        }
    } else {
        let head = sorted.drop_last();
        let last = sorted.last();
        law_text_le_total(row.module_certificate, last.module_certificate);
        law_text_le_reflexive(last.module_certificate);
        assert(is_descending(head)) by {
            assert forall|i: int, j: int| 0 <= i <= j < head.len() implies text_le(
                (#[trigger] head[j]).module_certificate,
                (#[trigger] head[i]).module_certificate,
            ) by {
                assert(head[i] == sorted[i] && head[j] == sorted[j]);
            }
        }
        lemma_placed_in_order(head, row);
        let shorter = placed(head, row);
        assert(sorted =~= head.push(last));
        assert forall|k: int| 0 <= k < shorter.len() implies text_le(
            last.module_certificate,
            (#[trigger] shorter[k]).module_certificate,
        ) by {
            if shorter[k] != row {
                let m = choose|m: int| 0 <= m < head.len() && head[m] == shorter[k];
                assert(sorted[m] == shorter[k]);
                assert(sorted[sorted.len() - 1] == last);
            }
        }
        assert forall|i: int, j: int| 0 <= i <= j < result.len() implies text_le(
            (#[trigger] result[j]).module_certificate,
            (#[trigger] result[i]).module_certificate,
        ) by {
            if j < shorter.len() {
                assert(result[i] == shorter[i] && result[j] == shorter[j]);
            } else if i < shorter.len() {
                assert(result[i] == shorter[i]);
            }
        }
        assert forall|k: int| 0 <= k < result.len() implies (#[trigger] result[k]) == row
            || sorted.contains(result[k]) by {
            if k < shorter.len() {
                assert(result[k] == shorter[k]);
                if shorter[k] != row {
                    let m = choose|m: int| 0 <= m < head.len() && head[m] == shorter[k];
                    assert(sorted[m] == shorter[k]);
                }
            } else {
                assert(sorted[sorted.len() - 1] == last);
            }
        }
        assert(result.to_multiset() =~= sorted.to_multiset().insert(row));
    }
}

/// Putting rows in order gives them in descending order of certificates, each
/// as often as before.
pub proof fn law_descending_sorts(rows: Seq<RowView>)
    ensures
        is_descending(descending(rows)),
        descending(rows).to_multiset() == rows.to_multiset(),
    decreases rows.len(),
{
    broadcast use vstd::seq_lib::group_to_multiset_ensures;

    if rows.len() > 0 {
        law_descending_sorts(rows.drop_last());
        lemma_placed_in_order(descending(rows.drop_last()), rows.last());
        assert(rows =~= rows.drop_last().push(rows.last()));
    } else {
        assert(rows =~= seq![]);
    }
}

/// The rows with one certificate.
pub open spec fn with_certificate(rows: Seq<RowView>, certificate: Seq<char>) -> Seq<RowView> {
    rows.filter(|row: RowView| row.module_certificate == certificate)
}

/// Placing a row puts it behind those with the same certificate.
proof fn lemma_placed_stable(sorted: Seq<RowView>, row: RowView, certificate: Seq<char>)
    requires
        is_descending(sorted),
    ensures
        with_certificate(placed(sorted, row), certificate) == with_certificate(
            sorted.push(row),
            certificate,
        ),
    decreases sorted.len(),
{
    let keep = |row: RowView| row.module_certificate == certificate;
    if !(sorted.len() == 0 || text_le(row.module_certificate, sorted.last().module_certificate)) {
        let head = sorted.drop_last();
        let last = sorted.last();
        assert forall|i: int, j: int| 0 <= i <= j < head.len() implies text_le(
            (#[trigger] head[j]).module_certificate,
            (#[trigger] head[i]).module_certificate,
        ) by {
            assert(head[i] == sorted[i] && head[j] == sorted[j]);
        }
        lemma_placed_stable(head, row, certificate);
        assert(sorted =~= head.push(last));
        lemma_filter_push(placed(head, row), last, keep);
        lemma_filter_push(head, row, keep);
        lemma_filter_push(head, last, keep);
        lemma_filter_push(sorted, row, keep);
        law_text_le_reflexive(row.module_certificate);
    }
}

/// Putting rows in order leaves those with the same certificate in the order
/// that they came in.
pub proof fn law_descending_stable(rows: Seq<RowView>, certificate: Seq<char>)
    ensures
        with_certificate(descending(rows), certificate) == with_certificate(rows, certificate),
    decreases rows.len(),
{
    if rows.len() > 0 {
        let keep = |row: RowView| row.module_certificate == certificate;
        let head = rows.drop_last();
        law_descending_stable(head, certificate);
        law_descending_sorts(head);
        lemma_placed_stable(descending(head), rows.last(), certificate);
        assert(rows =~= head.push(rows.last()));
        lemma_filter_push(descending(head), rows.last(), keep);
        lemma_filter_push(head, rows.last(), keep);
    }
}

/// A list of texts stands in ascending order.
pub open spec fn is_ascending(texts: Seq<Seq<char>>) -> bool {
    forall|i: int, j: int|
        0 <= i <= j < texts.len() ==> text_le(#[trigger] texts[i], #[trigger] texts[j])
}

/// Placing a text keeps the order and adds that text and nothing else.
proof fn lemma_placed_text_in_order(sorted: Seq<Seq<char>>, text: Seq<char>)
    requires
        is_ascending(sorted),
    ensures
        is_ascending(placed_text(sorted, text)),
        placed_text(sorted, text).to_multiset() == sorted.to_multiset().insert(text),
        forall|k: int|
            0 <= k < placed_text(sorted, text).len() ==> (#[trigger] placed_text(sorted, text)[k])
                == text || sorted.contains(placed_text(sorted, text)[k]),
    decreases sorted.len(),
{
    broadcast use vstd::seq_lib::group_to_multiset_ensures;

    law_text_le_reflexive(text);
    let result = placed_text(sorted, text);
    if sorted.len() == 0 || text_le(sorted.last(), text) {
        assert forall|i: int, j: int| 0 <= i <= j < result.len() implies text_le(
            #[trigger] result[i],
            #[trigger] result[j],
        ) by {
            if j == sorted.len() && i < j {
                assert(sorted[sorted.len() - 1] == sorted.last());
                law_text_le_transitive(sorted[i], sorted.last(), text);
            }
        }
        assert forall|k: int| 0 <= k < result.len() implies (#[trigger] result[k]) == text
            || sorted.contains(result[k]) by {
            if k < sorted.len() {
                assert(sorted[k] == result[k]);
            }
        }
    } else {
        let head = sorted.drop_last();
        let last = sorted.last();
        law_text_le_total(text, last);
        law_text_le_reflexive(last);
        assert forall|i: int, j: int| 0 <= i <= j < head.len() implies text_le(
            #[trigger] head[i],
            #[trigger] head[j],
        ) by {
            assert(head[i] == sorted[i] && head[j] == sorted[j]);
        }
        lemma_placed_text_in_order(head, text);
        let shorter = placed_text(head, text);
        assert(sorted =~= head.push(last));
        assert forall|k: int| 0 <= k < shorter.len() implies text_le(
            #[trigger] shorter[k],
            last,
        ) by {
            if shorter[k] != text {
                let m = choose|m: int| 0 <= m < head.len() && head[m] == shorter[k];
                assert(sorted[m] == shorter[k]);
                assert(sorted[sorted.len() - 1] == last);
            }
        }
        assert forall|i: int, j: int| 0 <= i <= j < result.len() implies text_le(
            #[trigger] result[i],
            #[trigger] result[j],
        ) by {
            if j < shorter.len() {
                assert(result[i] == shorter[i] && result[j] == shorter[j]);
            } else if i < shorter.len() {
                assert(result[i] == shorter[i]);
            }
        }
        assert forall|k: int| 0 <= k < result.len() implies (#[trigger] result[k]) == text
            || sorted.contains(result[k]) by {
            if k < shorter.len() {
                assert(result[k] == shorter[k]);
                if shorter[k] != text {
                    let m = choose|m: int| 0 <= m < head.len() && head[m] == shorter[k];
                    assert(sorted[m] == shorter[k]);
                }
            } else {
                assert(sorted[sorted.len() - 1] == last);
            }
        }
        assert(result.to_multiset() =~= sorted.to_multiset().insert(text));
    }
}

/// Putting texts in order gives them in ascending order, each as often as
/// before.
pub proof fn law_ascending_sorts(texts: Seq<Seq<char>>)
    ensures
        is_ascending(ascending(texts)),
        ascending(texts).to_multiset() == texts.to_multiset(),
    decreases texts.len(),
{
    broadcast use vstd::seq_lib::group_to_multiset_ensures;

    if texts.len() > 0 {
        law_ascending_sorts(texts.drop_last());
        lemma_placed_text_in_order(ascending(texts.drop_last()), texts.last());
        assert(texts =~= texts.drop_last().push(texts.last()));
    } else {
        assert(texts =~= seq![]);
    }
}

/// Two rows are the same entry: they have the same certificate, the same
/// address, and the same algorithm with the same certificate of it.
pub open spec fn same_entry(a: RowView, b: RowView) -> bool {
    &&& a.module_certificate == b.module_certificate
    &&& a.certificate_url == b.certificate_url
    &&& a.cavp_certificate == b.cavp_certificate
    &&& a.cavp_algorithm == b.cavp_algorithm
}

/// One more row stays if and only if it is not the same entry as one before,
/// and the rows before it stay as they are.
pub proof fn law_one_more_row(rows: Seq<RowView>, row: RowView)
    ensures
        deduped(rows.push(row)) == if exists|i: int|
            0 <= i < rows.len() && same_entry(#[trigger] rows[i], row) {
            deduped(rows)
        } else {
            deduped(rows).push(row)
        },
        deduped(Seq::<RowView>::empty()) == Seq::<RowView>::empty(),
{
    assert(rows.push(row).drop_last() =~= rows);
    if has_key(rows, row_key(row)) {
        let i = choose|i: int|
            0 <= i < rows.len() && row_key(#[trigger] rows[i]) == row_key(row);
        assert(same_entry(rows[i], row));
    }
    if exists|i: int| 0 <= i < rows.len() && same_entry(#[trigger] rows[i], row) {
        let i = choose|i: int| 0 <= i < rows.len() && same_entry(#[trigger] rows[i], row);
        assert(row_key(rows[i]) == row_key(row));
    }
}

/// Texts are ordered by the first character in which they differ, and a text
/// comes before what it begins.
pub proof fn law_order_of_texts(
    common: Seq<char>,
    a: char,
    b: char,
    rest: Seq<char>,
    other: Seq<char>,
)
    ensures
        text_le(common, common + other),
        other.len() > 0 ==> !text_le(common + other, common),
        a < b ==> text_le(common.push(a) + rest, common.push(b) + other) && !text_le(
            common.push(b) + other,
            common.push(a) + rest,
        ),
    decreases common.len(),
{
    if common.len() == 0 {
        assert(common + other =~= other);
    } else {
        let shorter = common.drop_first();
        law_order_of_texts(shorter, a, b, rest, other);
        assert((common + other).drop_first() =~= shorter + other);
        assert((common.push(a) + rest).drop_first() =~= shorter.push(a) + rest);
        assert((common.push(b) + other).drop_first() =~= shorter.push(b) + other);
    }
}

} // verus!
