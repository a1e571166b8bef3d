//! Laws of the search for validated modules.

use crate::listing::{resolved, results_page, term_field};
use crate::models::{ErrorView, OutcomeView, OutputKind, RowView, collected};
use crate::rows::{
    deduped, has_key, law_deduped_idempotent, law_deduped_keeps_keys, law_one_more_row, row_key,
    same_entry,
};
use crate::search::{
    ScanView, candidate_place, candidates_for, distinct, falls_back, form_result, form_search,
    is_candidate, last_place_of, meant_by, merged, offline_result, outcome_for, outcomes,
    queries_of, rows_for, scan_fits, status_message, statuses, unsupported,
};
use crate::text::decimal;
use crate::text_laws::law_one_more_part;
use vstd::prelude::*;

verus! {

/// The status that was asked for is searched first, and no status twice.
pub proof fn law_statuses(status: Seq<char>, include_revoked: bool)
    ensures
        statuses(status, include_revoked).len() > 0,
        statuses(status, include_revoked)[0] == status,
        include_revoked ==> statuses(status, include_revoked).contains("Revoked"@),
        statuses(status, include_revoked).no_duplicates(),
{
    let all = statuses(status, include_revoked);
    if include_revoked {
        assert(all[all.len() - 1] == "Revoked"@);
    }
}

/// What the form answers to a term has no repeats.
pub proof fn law_form_result_has_no_repeats(
    value: Seq<char>,
    statuses: Seq<Seq<char>>,
    pages: Seq<(Seq<RowView>, Seq<char>)>,
)
    ensures
        deduped(form_result(value, statuses, pages).1) == form_result(value, statuses, pages).1,
{
    law_deduped_idempotent(
        pages.map_values(|page: (Seq<RowView>, Seq<char>)| page.0).flatten(),
    );
}

/// The scan of the modules with a status has rows and a message for each
/// candidate.
pub proof fn law_scans_fit(
    status: Seq<char>,
    candidates: nat,
    scanned: Seq<Seq<Seq<RowView>>>,
)
    ensures
        scan_fits(merged(status, candidates, scanned), candidates),
        scan_fits(unsupported(candidates), candidates),
{
}

/// No term occurs twice among the distinct ones, and they are the terms.
pub proof fn law_distinct(terms: Seq<Seq<char>>)
    ensures
        distinct(terms).no_duplicates(),
        forall|term: Seq<char>| #[trigger] distinct(terms).contains(term) == terms.contains(term),
    decreases terms.len(),
{
    if terms.len() > 0 {
        let head = terms.drop_last();
        let last = terms.last();
        law_distinct(head);
        let shorter = distinct(head);
        assert(terms =~= head.push(last));
        assert forall|term: Seq<char>| #[trigger] distinct(terms).contains(term)
            == terms.contains(term) by {
            assert(shorter.contains(term) == head.contains(term));
            lemma_contains_push(head, last, term);
            lemma_contains_push(shorter, last, term);
        }
        assert(shorter.contains(last) == head.contains(last));
        if !head.contains(last) {
            assert forall|i: int, j: int|
                0 <= i < shorter.push(last).len() && 0 <= j < shorter.push(last).len() && i
                    != j implies shorter.push(last)[i] != shorter.push(last)[j] by {
                if i == shorter.len() {
                    assert(shorter.contains(shorter[j]));
                } else if j == shorter.len() {
                    assert(shorter.contains(shorter[i]));
                }
            }
        }
    }
}

/// What a sequence holds that one more item was pushed on.
proof fn lemma_contains_push<T>(s: Seq<T>, item: T, x: T)
    ensures
        s.push(item).contains(x) == (s.contains(x) || item == x),
{
    if s.contains(x) {
        let k = choose|k: int| 0 <= k < s.len() && s[k] == x;
        assert(s.push(item)[k] == x);
    }
    assert(s.push(item)[s.len() as int] == item);
    if s.push(item).contains(x) && item != x {
        let k = choose|k: int| 0 <= k < s.push(item).len() && s.push(item)[k] == x;
        assert(s[k] == x);
    }
}

/// Terms that do not repeat stay as they are.
pub proof fn law_distinct_leaves_different(terms: Seq<Seq<char>>)
    requires
        terms.no_duplicates(),
    ensures
        distinct(terms) == terms,
    decreases terms.len(),
{
    if terms.len() > 0 {
        let head = terms.drop_last();
        assert(head.no_duplicates()) by {
            assert forall|i: int, j: int|
                0 <= i < head.len() && 0 <= j < head.len() && i != j implies head[i] != head[j] by {
                assert(head[i] == terms[i] && head[j] == terms[j]);
            }
        }
        law_distinct_leaves_different(head);
        if head.contains(terms.last()) {
            let k = choose|k: int| 0 <= k < head.len() && head[k] == terms.last();
            assert(terms[k] == terms[terms.len() - 1]);
        }
        assert(distinct(terms) =~= terms);
    } else {
        assert(distinct(terms) =~= terms);
    }
}

/// The distinct terms come in the order in which they first occur.
pub proof fn law_distinct_in_order(terms: Seq<Seq<char>>) -> (places: Seq<int>)
    ensures
        places.len() == distinct(terms).len(),
        forall|i: int|
            0 <= i < places.len() ==> 0 <= #[trigger] places[i] < terms.len() && terms[places[i]]
                == distinct(terms)[i] && !terms.take(places[i]).contains(terms[places[i]]),
        forall|i: int, j: int| 0 <= i < j < places.len() ==> places[i] < places[j],
    decreases terms.len(),
{
    if terms.len() == 0 {
        seq![]
    } else {
        let head = terms.drop_last();
        let before = law_distinct_in_order(head);
        let places = if head.contains(terms.last()) {
            before
        } else {
            before.push(terms.len() - 1)
        };
        assert forall|i: int| 0 <= i < places.len() implies 0 <= #[trigger] places[i]
            < terms.len() && terms[places[i]] == distinct(terms)[i] && !terms.take(
            places[i],
        ).contains(terms[places[i]]) by {
            if i < before.len() {
                assert(places[i] == before[i]);
                assert(head.take(before[i]) =~= terms.take(before[i]));
                assert(head[before[i]] == terms[before[i]]);
            } else {
                assert(terms.take(terms.len() - 1) =~= head);
            }
        }
        places
    }
}

/// There is one outcome for each distinct term, in the order of the terms.
pub proof fn law_one_outcome_per_term(
    terms: Seq<Seq<char>>,
    live: Seq<(Seq<char>, Seq<RowView>, Seq<char>)>,
    candidates: Seq<(Seq<char>, Seq<Seq<char>>)>,
    scans: Seq<ScanView>,
)
    ensures
        outcomes(terms, live, candidates, scans).map_values(|outcome: OutcomeView| outcome.query)
            == distinct(terms),
{
    let queries = outcomes(terms, live, candidates, scans).map_values(
        |outcome: OutcomeView| outcome.query,
    );
    assert(queries =~= distinct(terms));
}

/// Without a scan of policies no term is looked for in them.
pub proof fn law_no_scan_no_candidates(
    terms: Seq<Seq<char>>,
    live: Seq<(Seq<char>, Seq<RowView>, Seq<char>)>,
    algorithms: Seq<Seq<char>>,
    offline: bool,
)
    ensures
        candidates_for(terms, live, algorithms, false, offline).len() == 0,
    decreases terms.len(),
{
    if terms.len() > 0 {
        law_no_scan_no_candidates(terms.drop_last(), live.drop_last(), algorithms, offline);
    }
}

/// A term is looked for in policies only where the form found nothing for it,
/// and with the algorithms that it means.
pub proof fn law_candidates_fall_back(
    terms: Seq<Seq<char>>,
    live: Seq<(Seq<char>, Seq<RowView>, Seq<char>)>,
    algorithms: Seq<Seq<char>>,
    policy_scan: bool,
    offline: bool,
    k: int,
) -> (i: int)
    requires
        live.len() == terms.len(),
        0 <= k < candidates_for(terms, live, algorithms, policy_scan, offline).len(),
    ensures
        0 <= i < terms.len(),
        candidates_for(terms, live, algorithms, policy_scan, offline)[k] == (
            terms[i],
            meant_by(terms[i], algorithms, offline),
        ),
        falls_back(terms[i], live[i].1, algorithms, offline),
    decreases terms.len(),
{
    let earlier = candidates_for(
        terms.drop_last(),
        live.drop_last(),
        algorithms,
        policy_scan,
        offline,
    );
    if k < earlier.len() {
        law_candidates_fall_back(
            terms.drop_last(),
            live.drop_last(),
            algorithms,
            policy_scan,
            offline,
            k,
        )
    } else {
        terms.len() - 1
    }
}

/// Each term that is to be looked for in policies is a candidate.
pub proof fn law_fallbacks_are_candidates(
    terms: Seq<Seq<char>>,
    live: Seq<(Seq<char>, Seq<RowView>, Seq<char>)>,
    algorithms: Seq<Seq<char>>,
    offline: bool,
    i: int,
)
    requires
        live.len() == terms.len(),
        0 <= i < terms.len(),
        falls_back(terms[i], live[i].1, algorithms, offline),
    ensures
        is_candidate(candidates_for(terms, live, algorithms, true, offline), terms[i]),
    decreases terms.len(),
{
    let (head, answers) = (terms.drop_last(), live.drop_last());
    let earlier = candidates_for(head, answers, algorithms, true, offline);
    let all = candidates_for(terms, live, algorithms, true, offline);
    if i < head.len() {
        assert(head[i] == terms[i] && answers[i] == live[i]);
        law_fallbacks_are_candidates(head, answers, algorithms, offline, i);
        let k = choose|k: int| 0 <= k < earlier.len() && (#[trigger] earlier[k]).0 == terms[i];
        assert(all[k].0 == terms[i]);
    } else if !is_candidate(earlier, terms[i]) {
        assert(all[earlier.len() as int].0 == terms[i]);
    }
}

/// No term is a candidate twice.
pub proof fn law_candidates_differ(
    terms: Seq<Seq<char>>,
    live: Seq<(Seq<char>, Seq<RowView>, Seq<char>)>,
    algorithms: Seq<Seq<char>>,
    policy_scan: bool,
    offline: bool,
    j: int,
    k: int,
)
    requires
        0 <= j < k < candidates_for(terms, live, algorithms, policy_scan, offline).len(),
    ensures
        candidates_for(terms, live, algorithms, policy_scan, offline)[j].0 != candidates_for(
            terms,
            live,
            algorithms,
            policy_scan,
            offline,
        )[k].0,
    decreases terms.len(),
{
    let (head, answers) = (terms.drop_last(), live.drop_last());
    let earlier = candidates_for(head, answers, algorithms, policy_scan, offline);
    if k < earlier.len() {
        law_candidates_differ(head, answers, algorithms, policy_scan, offline, j, k);
    } else {
        assert(earlier[j].0 != terms.last());
    }
}

/// Without a connection each term is looked for in policies, by itself.
pub proof fn law_offline_terms_are_candidates(
    terms: Seq<Seq<char>>,
    algorithms: Seq<Seq<char>>,
)
    ensures
        candidates_for(
            terms,
            terms.map_values(|term: Seq<char>| offline_result(term)),
            algorithms,
            true,
            true,
        ) == distinct(terms).map_values(
            |term: Seq<char>| (term, Seq::<Seq<char>>::empty()),
        ),
    decreases terms.len(),
{
    let each = |term: Seq<char>| offline_result(term);
    let alone = |term: Seq<char>| (term, Seq::<Seq<char>>::empty());
    let live = terms.map_values(each);
    if terms.len() > 0 {
        let head = terms.drop_last();
        let last = terms.last();
        assert(live.drop_last() =~= head.map_values(each));
        law_offline_terms_are_candidates(head, algorithms);
        law_distinct(head);
        let earlier = candidates_for(head, live.drop_last(), algorithms, true, true);
        assert(earlier == distinct(head).map_values(alone));
        assert(is_candidate(earlier, last) == head.contains(last)) by {
            assert(distinct(head).contains(last) == head.contains(last));
            if is_candidate(earlier, last) {
                let k = choose|k: int| 0 <= k < earlier.len() && (#[trigger] earlier[k]).0 == last;
                assert(distinct(head)[k] == last);
            }
            if distinct(head).contains(last) {
                let k = choose|k: int| 0 <= k < distinct(head).len() && distinct(head)[k] == last;
                assert(earlier[k].0 == last);
            }
        }
        assert(falls_back(last, live.last().1, algorithms, true));
        assert(meant_by(last, algorithms, true) =~= Seq::<Seq<char>>::empty());
        assert(candidates_for(terms, live, algorithms, true, true) =~= distinct(
            terms,
        ).map_values(alone));
    } else {
        assert(candidates_for(terms, live, algorithms, true, true) =~= distinct(
            terms,
        ).map_values(alone));
    }
}

/// A candidate has a place.
proof fn lemma_place_is_candidate(
    candidates: Seq<(Seq<char>, Seq<Seq<char>>)>,
    term: Seq<char>,
)
    ensures
        candidate_place(candidates, term) matches Some(k) ==> 0 <= k < candidates.len()
            && candidates[k].0 == term,
        candidate_place(candidates, term) is Some <==> is_candidate(candidates, term),
    decreases candidates.len(),
{
    if candidates.len() > 0 {
        let head = candidates.drop_last();
        lemma_place_is_candidate(head, term);
        if is_candidate(head, term) {
            let k = choose|k: int| 0 <= k < head.len() && (#[trigger] head[k]).0 == term;
            assert(candidates[k].0 == term);
        }
        if is_candidate(candidates, term) && !is_candidate(head, term) {
            let k = choose|k: int|
                0 <= k < candidates.len() && (#[trigger] candidates[k]).0 == term;
            if k < head.len() {
                assert(head[k].0 == term);
            }
        }
        if candidates.last().0 == term {
            assert(candidates[candidates.len() - 1].0 == term);
        }
    }
}

/// The last place of a term that is there is a place of it.
proof fn lemma_last_place_of_is_place(terms: Seq<Seq<char>>, term: Seq<char>)
    requires
        terms.contains(term),
    ensures
        0 <= last_place_of(terms, term) < terms.len(),
        terms[last_place_of(terms, term)] == term,
    decreases terms.len(),
{
    let k = choose|k: int| 0 <= k < terms.len() && terms[k] == term;
    if terms.len() > 1 && terms.last() != term {
        let head = terms.drop_last();
        assert(head[k] == term);
        lemma_last_place_of_is_place(head, term);
    }
}

/// Where the form found rows for a term, and answered the same each time that
/// it was asked for it, those are what is found: policies are not looked into.
pub proof fn law_live_rows_stand(
    terms: Seq<Seq<char>>,
    live: Seq<(Seq<char>, Seq<RowView>, Seq<char>)>,
    algorithms: Seq<Seq<char>>,
    policy_scan: bool,
    offline: bool,
    scans: Seq<ScanView>,
    i: int,
)
    requires
        live.len() == terms.len(),
        0 <= i < terms.len(),
        forall|j: int|
            0 <= j < terms.len() && #[trigger] terms[j] == terms[i] ==> live[j] == live[i],
        live[i].1.len() > 0,
    ensures
        ({
            let candidates = candidates_for(terms, live, algorithms, policy_scan, offline);
            let outcome = outcome_for(terms, live, candidates, scans, terms[i]);
            &&& outcome.canonical_query == live[i].0
            &&& outcome.rows == live[i].1
            &&& outcome.results_message == live[i].2
        }),
{
    let candidates = candidates_for(terms, live, algorithms, policy_scan, offline);
    lemma_place_is_candidate(candidates, terms[i]);
    if is_candidate(candidates, terms[i]) {
        let k = choose|k: int| 0 <= k < candidates.len() && (#[trigger] candidates[k]).0
            == terms[i];
        let m = law_candidates_fall_back(terms, live, algorithms, policy_scan, offline, k);
        assert(terms[m] == terms[i]);
    }
    assert(terms.contains(terms[i]));
    lemma_last_place_of_is_place(terms, terms[i]);
    assert(terms[last_place_of(terms, terms[i])] == terms[i]);
}

/// What is found for a term has no repeats, where what the form answers has
/// none.
pub proof fn law_outcomes_have_no_repeats(
    terms: Seq<Seq<char>>,
    live: Seq<(Seq<char>, Seq<RowView>, Seq<char>)>,
    candidates: Seq<(Seq<char>, Seq<Seq<char>>)>,
    scans: Seq<ScanView>,
    term: Seq<char>,
)
    requires
        live.len() == terms.len(),
        terms.contains(term),
        forall|i: int| 0 <= i < live.len() ==> deduped((#[trigger] live[i]).1) == live[i].1,
    ensures
        deduped(outcome_for(terms, live, candidates, scans, term).rows) == outcome_for(
            terms,
            live,
            candidates,
            scans,
            term,
        ).rows,
{
    lemma_last_place_of_is_place(terms, term);
    match candidate_place(candidates, term) {
        Some(k) => {
            law_deduped_idempotent(scans.map_values(|scan: ScanView| scan.rows[k]).flatten());
        },
        None => {
            assert(deduped(live[last_place_of(terms, term)].1)
                == live[last_place_of(terms, term)].1);
        },
    }
}

/// Where policies cannot be turned into text, a candidate has no rows, and
/// its message says so for the status.
pub proof fn law_unsupported_scan_finds_nothing(
    terms: Seq<Seq<char>>,
    live: Seq<(Seq<char>, Seq<RowView>, Seq<char>)>,
    candidates: Seq<(Seq<char>, Seq<Seq<char>>)>,
    term: Seq<char>,
)
    requires
        is_candidate(candidates, term),
    ensures
        ({
            let outcome = outcome_for(
                terms,
                live,
                candidates,
                seq![unsupported(candidates.len())],
                term,
            );
            &&& outcome.rows.len() == 0
            &&& outcome.results_message
                == "pdftotext is not installed, so security-policy scanning is unavailable."@
        }),
{
    lemma_place_is_candidate(candidates, term);
    let k = candidate_place(candidates, term)->Some_0;
    let scans = seq![unsupported(candidates.len())];
    let lists = scans.map_values(|scan: ScanView| scan.rows[k]);
    let texts = scans.map_values(|scan: ScanView| scan.messages[k]);
    assert(lists =~= seq![Seq::<RowView>::empty()]);
    assert(lists =~= Seq::<Seq<RowView>>::empty().push(Seq::<RowView>::empty()));
    Seq::<Seq<RowView>>::empty().lemma_flatten_push(Seq::<RowView>::empty());
    assert(lists.flatten() =~= Seq::<RowView>::empty());
    assert(texts.len() == 1);
}

/// What the form is asked: an advanced search for modules with the status and
/// the field of the term, status by status.
pub proof fn law_queries_of_the_form(
    term: Seq<char>,
    options: Map<Seq<char>, Seq<char>>,
    statuses: Seq<Seq<char>>,
    i: int,
)
    requires
        queries_of(term, options, statuses) is Ok,
        0 <= i < statuses.len(),
    ensures
        queries_of(term, options, statuses) matches Ok(queries) && queries.len() == statuses.len()
            && queries[i].len() == 3 && queries[i][0] == ("SearchMode"@, "Advanced"@)
            && queries[i][1] == ("CertificateStatus"@, statuses[i]) && (term_field(term, options)
            matches Ok(field) && queries[i][2] == field),
{
}

/// A term without a field has no queries, and no answer.
pub proof fn law_refused_terms_are_not_asked(
    term: Seq<char>,
    options: Map<Seq<char>, Seq<char>>,
    statuses: Seq<Seq<char>>,
    pages: Seq<Seq<char>>,
)
    ensures
        term_field(term, options) matches Err(error) ==> queries_of(term, options, statuses)
            == Err::<Seq<Seq<(Seq<char>, Seq<char>)>>, ErrorView>(error) && form_search(
            term,
            options,
            statuses,
            pages,
        ) == Err::<(Seq<char>, Seq<RowView>, Seq<char>), ErrorView>(error),
        term_field(term, options) is Ok ==> queries_of(term, options, statuses) is Ok,
{
}

/// One more page of an answer adds its rows that are not there yet, and its
/// message, or a sentence in place of an empty one.
pub proof fn law_one_more_page(
    value: Seq<char>,
    statuses: Seq<Seq<char>>,
    pages: Seq<(Seq<RowView>, Seq<char>)>,
    rows: Seq<RowView>,
    message: Seq<char>,
    status: Seq<char>,
    row: RowView,
)
    requires
        statuses.len() == pages.len(),
    ensures
        ({
            let before = form_result(value, statuses, pages);
            let after = form_result(value, statuses.push(status), pages.push((rows, message)));
            let said = if message.len() > 0 {
                message
            } else {
                "No response message returned for "@ + status + "."@
            };
            &&& after.0 == value
            &&& after.2 == if pages.len() > 0 {
                before.2 + " | "@ + said
            } else {
                said
            }
            &&& has_entry(after.1, row) == (has_entry(before.1, row) || has_entry(rows, row))
            &&& follow(before.1, after.1, rows)
        }),
{
    let first = |page: (Seq<RowView>, Seq<char>)| page.0;
    let more = pages.push((rows, message));
    let longer = statuses.push(status);
    let texts = Seq::new(pages.len(), |i: int| status_message(statuses[i], pages[i].1));
    let all = Seq::new(more.len(), |i: int| status_message(longer[i], more[i].1));
    assert(more.map_values(first) =~= pages.map_values(first).push(rows));
    pages.map_values(first).lemma_flatten_push(rows);
    assert(all =~= texts.push(status_message(status, message)));
    law_one_more_part(texts, status_message(status, message), " | "@);
    let flat = pages.map_values(first).flatten();
    assert(form_result(value, statuses, pages).1 == deduped(flat));
    assert(form_result(value, longer, more).1 == deduped(flat + rows));
    lemma_entries_kept(flat + rows, row);
    lemma_entries_kept(flat, row);
    lemma_entries_of_both(flat, rows, row);
    lemma_rows_follow(flat, rows);
}

/// Some rows have an entry: one of them is the same entry as a row.
pub open spec fn has_entry(rows: Seq<RowView>, row: RowView) -> bool {
    exists|i: int| 0 <= i < rows.len() && same_entry(#[trigger] rows[i], row)
}

/// Some rows follow others: those stay, in their places, and each behind them
/// is one of the rows that came.
pub open spec fn follow(before: Seq<RowView>, after: Seq<RowView>, rows: Seq<RowView>) -> bool {
    &&& before.len() <= after.len()
    &&& forall|i: int| 0 <= i < before.len() ==> #[trigger] after[i] == before[i]
    &&& forall|i: int| before.len() <= i < after.len() ==> rows.contains(#[trigger] after[i])
}

/// Rows that come behind others follow them.
proof fn lemma_rows_follow(a: Seq<RowView>, b: Seq<RowView>)
    ensures
        follow(deduped(a), deduped(a + b), b),
    decreases b.len(),
{
    if b.len() == 0 {
        assert(a + b =~= a);
    } else {
        let head = b.drop_last();
        lemma_rows_follow(a, head);
        assert(a + b =~= (a + head).push(b.last()));
        law_one_more_row(a + head, b.last());
        let (before, shorter, after) = (deduped(a), deduped(a + head), deduped(a + b));
        assert forall|i: int| before.len() <= i < after.len() implies b.contains(
            #[trigger] after[i],
        ) by {
            if i < shorter.len() {
                assert(after[i] == shorter[i]);
                let k = choose|k: int| 0 <= k < head.len() && head[k] == shorter[i];
                assert(b[k] == after[i]);
            } else {
                assert(b[b.len() - 1] == after[i]);
            }
        }
        assert forall|i: int| 0 <= i < before.len() implies #[trigger] after[i] == before[i] by {
            assert(shorter[i] == before[i]);
        }
    }
}

/// Dropping repeats loses no entry and adds none.
proof fn lemma_entries_kept(rows: Seq<RowView>, row: RowView)
    ensures
        has_entry(deduped(rows), row) == has_entry(rows, row),
{
    law_deduped_keeps_keys(rows, row_key(row));
    lemma_entry_is_key(rows, row);
    lemma_entry_is_key(deduped(rows), row);
}

/// An entry is a key.
proof fn lemma_entry_is_key(rows: Seq<RowView>, row: RowView)
    ensures
        has_entry(rows, row) == has_key(rows, row_key(row)),
{
    if has_entry(rows, row) {
        let i = choose|i: int| 0 <= i < rows.len() && same_entry(#[trigger] rows[i], row);
        assert(row_key(rows[i]) == row_key(row));
    }
    if has_key(rows, row_key(row)) {
        let i = choose|i: int|
            0 <= i < rows.len() && row_key(#[trigger] rows[i]) == row_key(row);
        assert(same_entry(rows[i], row));
    }
}

/// The entries of rows one after another.
proof fn lemma_entries_of_both(a: Seq<RowView>, b: Seq<RowView>, row: RowView)
    ensures
        has_entry(a + b, row) == (has_entry(a, row) || has_entry(b, row)),
{
    if has_entry(a, row) {
        let i = choose|i: int| 0 <= i < a.len() && same_entry(#[trigger] a[i], row);
        assert(same_entry((a + b)[i], row));
    }
    if has_entry(b, row) {
        let i = choose|i: int| 0 <= i < b.len() && same_entry(#[trigger] b[i], row);
        assert(same_entry((a + b)[a.len() + i], row));
    }
    if has_entry(a + b, row) {
        let i = choose|i: int| 0 <= i < (a + b).len() && same_entry(#[trigger] (a + b)[i], row);
        if i < a.len() {
            assert(same_entry(a[i], row));
        } else {
            assert(same_entry(b[i - a.len()], row));
        }
    }
}

/// A term is looked for in policies where the form found nothing for it, and a
/// listed algorithm is meant by it or the list is out of reach; and only there.
pub proof fn law_when_policies_are_scanned(
    terms: Seq<Seq<char>>,
    live: Seq<(Seq<char>, Seq<RowView>, Seq<char>)>,
    algorithms: Seq<Seq<char>>,
    policy_scan: bool,
    offline: bool,
    term: Seq<char>,
)
    requires
        live.len() == terms.len(),
    ensures
        is_candidate(candidates_for(terms, live, algorithms, policy_scan, offline), term)
            <==> policy_scan && (offline || resolved(term, algorithms).len() > 0) && exists|i: int|
            0 <= i < terms.len() && #[trigger] terms[i] == term && live[i].1.len() == 0,
        forall|k: int|
            0 <= k < candidates_for(terms, live, algorithms, policy_scan, offline).len() ==> (
            #[trigger] candidates_for(terms, live, algorithms, policy_scan, offline)[k]).1
                == if offline {
                Seq::<Seq<char>>::empty()
            } else {
                resolved(
                    candidates_for(terms, live, algorithms, policy_scan, offline)[k].0,
                    algorithms,
                )
            },
{
    let candidates = candidates_for(terms, live, algorithms, policy_scan, offline);
    assert forall|k: int| 0 <= k < candidates.len() implies (#[trigger] candidates[k]).1
        == if offline {
        Seq::<Seq<char>>::empty()
    } else {
        resolved(candidates[k].0, algorithms)
    } by {
        let i = law_candidates_fall_back(terms, live, algorithms, policy_scan, offline, k);
    }
    if is_candidate(candidates, term) {
        let k = choose|k: int| 0 <= k < candidates.len() && (#[trigger] candidates[k]).0 == term;
        let i = law_candidates_fall_back(terms, live, algorithms, policy_scan, offline, k);
        assert(terms[i] == term && live[i].1.len() == 0);
        if !policy_scan {
            law_no_scan_no_candidates(terms, live, algorithms, offline);
        }
    }
    if policy_scan && (offline || resolved(term, algorithms).len() > 0) && exists|i: int|
        0 <= i < terms.len() && #[trigger] terms[i] == term && live[i].1.len() == 0 {
        let i = choose|i: int|
            0 <= i < terms.len() && #[trigger] terms[i] == term && live[i].1.len() == 0;
        law_fallbacks_are_candidates(terms, live, algorithms, offline, i);
    }
}

/// The scan of one more module adds, for each candidate, the rows of that
/// module that are not there yet, and counts the module and the rows.
pub proof fn law_one_more_module(
    status: Seq<char>,
    candidates: nat,
    scanned: Seq<Seq<Seq<RowView>>>,
    lists: Seq<Seq<RowView>>,
    k: int,
    row: RowView,
)
    requires
        0 <= k < candidates,
    ensures
        ({
            let before = merged(status, candidates, scanned);
            let after = merged(status, candidates, scanned.push(lists));
            &&& has_entry(after.rows[k], row) == (has_entry(before.rows[k], row) || has_entry(
                lists[k],
                row,
            ))
            &&& follow(before.rows[k], after.rows[k], lists[k])
            &&& deduped(after.rows[k]) == after.rows[k]
            &&& after.messages[k] == status
                + ": CMVP search page returned no matches; scanned "@ + decimal(scanned.len() + 1)
                + " module policies once, matched "@ + decimal(after.rows[k].len())
                + " certified operation entries"@
        }),
{
    let pick = |lists: Seq<Seq<RowView>>| lists[k];
    let flat = scanned.map_values(pick).flatten();
    assert(scanned.push(lists).map_values(pick) =~= scanned.map_values(pick).push(lists[k]));
    scanned.map_values(pick).lemma_flatten_push(lists[k]);
    law_deduped_idempotent(rows_for(scanned.push(lists), k));
    assert(merged(status, candidates, scanned).rows[k] == deduped(flat));
    assert(merged(status, candidates, scanned.push(lists)).rows[k] == deduped(flat + lists[k]));
    lemma_entries_kept(flat + lists[k], row);
    lemma_entries_kept(flat, row);
    lemma_entries_of_both(flat, lists[k], row);
    lemma_rows_follow(flat, lists[k]);
}

/// What is found for a candidate: the entries that the scans have for it, and
/// their messages in order; and what the form was asked for stays.
pub proof fn law_candidates_get_the_scans(
    terms: Seq<Seq<char>>,
    live: Seq<(Seq<char>, Seq<RowView>, Seq<char>)>,
    candidates: Seq<(Seq<char>, Seq<Seq<char>>)>,
    scans: Seq<ScanView>,
    scan: ScanView,
    term: Seq<char>,
    k: int,
    row: RowView,
)
    requires
        0 <= k < candidates.len(),
        candidates[k].0 == term,
        forall|j: int|
            0 <= j < candidates.len() && j != k ==> (#[trigger] candidates[j]).0 != term,
    ensures
        ({
            let before = outcome_for(terms, live, candidates, scans, term);
            let after = outcome_for(terms, live, candidates, scans.push(scan), term);
            &&& after.results_message == if scans.len() > 0 {
                before.results_message + " | "@ + scan.messages[k]
            } else {
                scan.messages[k]
            }
            &&& has_entry(after.rows, row) == (has_entry(before.rows, row) || has_entry(
                scan.rows[k],
                row,
            ))
            &&& follow(before.rows, after.rows, scan.rows[k])
            &&& after.query == term
            &&& after.canonical_query == before.canonical_query
        }),
{
    lemma_place_is_candidate(candidates, term);
    assert(is_candidate(candidates, term));
    let place = candidate_place(candidates, term)->Some_0;
    assert(candidates[place].0 == term);
    let rows = |scan: ScanView| scan.rows[k];
    let texts = |scan: ScanView| scan.messages[k];
    assert(scans.push(scan).map_values(rows) =~= scans.map_values(rows).push(scan.rows[k]));
    assert(scans.push(scan).map_values(texts) =~= scans.map_values(texts).push(
        scan.messages[k],
    ));
    scans.map_values(rows).lemma_flatten_push(scan.rows[k]);
    law_one_more_part(scans.map_values(texts), scan.messages[k], " | "@);
    let flat = scans.map_values(rows).flatten();
    assert(outcome_for(terms, live, candidates, scans, term).rows == deduped(flat));
    assert(outcome_for(terms, live, candidates, scans.push(scan), term).rows == deduped(
        flat + scan.rows[k],
    ));
    lemma_entries_kept(flat + scan.rows[k], row);
    lemma_entries_kept(flat, row);
    lemma_entries_of_both(flat, scan.rows[k], row);
    lemma_rows_follow(flat, scan.rows[k]);
}

/// What is found for a term that is no candidate is what the form answered the
/// last time that it was asked for it.
pub proof fn law_others_get_the_last_answer(
    terms: Seq<Seq<char>>,
    live: Seq<(Seq<char>, Seq<RowView>, Seq<char>)>,
    candidates: Seq<(Seq<char>, Seq<Seq<char>>)>,
    scans: Seq<ScanView>,
    i: int,
)
    requires
        live.len() == terms.len(),
        0 <= i < terms.len(),
        forall|j: int| i < j < terms.len() ==> #[trigger] terms[j] != terms[i],
        !is_candidate(candidates, terms[i]),
    ensures
        ({
            let outcome = outcome_for(terms, live, candidates, scans, terms[i]);
            &&& outcome.query == terms[i]
            &&& outcome.canonical_query == live[i].0
            &&& outcome.rows == live[i].1
            &&& outcome.results_message == live[i].2
            &&& outcome.kind == OutputKind::Cmvp
        }),
{
    lemma_place_is_candidate(candidates, terms[i]);
    lemma_last_is_last(terms, i);
}

/// The last place of a term.
proof fn lemma_last_is_last(terms: Seq<Seq<char>>, i: int)
    requires
        0 <= i < terms.len(),
        forall|j: int| i < j < terms.len() ==> #[trigger] terms[j] != terms[i],
    ensures
        last_place_of(terms, terms[i]) == i,
    decreases terms.len(),
{
    if i < terms.len() - 1 {
        let head = terms.drop_last();
        assert(terms.last() == terms[terms.len() - 1]);
        assert(head[i] == terms[i]);
        assert forall|j: int| i < j < head.len() implies #[trigger] head[j] != head[i] by {
            assert(head[j] == terms[j]);
        }
        lemma_last_is_last(head, i);
    }
}

/// Without a connection a term stands for itself, with no rows and a sentence
/// that says so.
pub proof fn law_offline_answers(term: Seq<char>)
    ensures
        offline_result(term).0 == term,
        offline_result(term).1.len() == 0,
        offline_result(term).2
            == "Offline mode: skipping live CMVP search and using cached data only."@,
{
}

/// The statuses that are searched: the one that was asked for, and the revoked
/// modules where those are wanted too.
pub proof fn law_searched_statuses(status: Seq<char>, include_revoked: bool, other: Seq<char>)
    ensures
        statuses(status, include_revoked).contains(other) <==> other == status || (include_revoked
            && other == "Revoked"@),
{
    let all = statuses(status, include_revoked);
    assert(all[0] == status);
    if all.len() > 1 {
        assert(all[1] == "Revoked"@);
    }
}

/// Results that are all there are handed on in order.
proof fn lemma_all_collected<T>(items: Seq<Result<T, ErrorView>>)
    requires
        forall|i: int| 0 <= i < items.len() ==> (#[trigger] items[i]) is Ok,
    ensures
        collected(items) == Ok::<Seq<T>, ErrorView>(
            Seq::new(items.len(), |i: int| items[i]->Ok_0),
        ),
    decreases items.len(),
{
    let values = Seq::new(items.len(), |i: int| items[i]->Ok_0);
    if items.len() > 0 {
        let head = items.drop_last();
        assert forall|i: int| 0 <= i < head.len() implies (#[trigger] head[i]) is Ok by {
            assert(head[i] == items[i]);
        }
        lemma_all_collected(head);
        assert(items.last() == items[items.len() - 1]);
        assert(values =~= Seq::new(head.len(), |i: int| head[i]->Ok_0).push(items.last()->Ok_0));
    } else {
        assert(values =~= seq![]);
    }
}

/// An answer is made of all its pages in order, and of the value that the form
/// was asked for.
pub proof fn law_answers_are_read_page_by_page(
    term: Seq<char>,
    options: Map<Seq<char>, Seq<char>>,
    statuses: Seq<Seq<char>>,
    pages: Seq<Seq<char>>,
    read: Seq<(Seq<RowView>, Seq<char>)>,
    field: (Seq<char>, Seq<char>),
)
    requires
        term_field(term, options) == Ok::<(Seq<char>, Seq<char>), ErrorView>(field),
        read.len() == pages.len(),
        forall|i: int|
            0 <= i < pages.len() ==> results_page(#[trigger] pages[i]) == Ok::<
                (Seq<RowView>, Seq<char>),
                ErrorView,
            >(read[i]),
    ensures
        form_search(term, options, statuses, pages) == Ok::<
            (Seq<char>, Seq<RowView>, Seq<char>),
            ErrorView,
        >(form_result(field.1, statuses, read)),
{
    let items = pages.map_values(|html: Seq<char>| results_page(html));
    assert forall|i: int| 0 <= i < items.len() implies (#[trigger] items[i]) is Ok by {
        assert(items[i] == results_page(pages[i]));
    }
    lemma_all_collected(items);
    assert(Seq::new(items.len(), |i: int| items[i]->Ok_0) =~= read) by {
        assert forall|i: int| 0 <= i < items.len() implies items[i]->Ok_0 == read[i] by {
            assert(items[i] == results_page(pages[i]));
        }
    }
}

/// A candidate comes behind those of the terms before it.
pub proof fn law_one_more_candidate(
    terms: Seq<Seq<char>>,
    live: Seq<(Seq<char>, Seq<RowView>, Seq<char>)>,
    algorithms: Seq<Seq<char>>,
    policy_scan: bool,
    offline: bool,
    term: Seq<char>,
    answer: (Seq<char>, Seq<RowView>, Seq<char>),
)
    requires
        live.len() == terms.len(),
    ensures
        ({
            let before = candidates_for(terms, live, algorithms, policy_scan, offline);
            let after = candidates_for(
                terms.push(term),
                live.push(answer),
                algorithms,
                policy_scan,
                offline,
            );
            after == before || (after.len() == before.len() + 1 && after.drop_last() == before
                && after.last().0 == term)
        }),
{
    assert(terms.push(term).drop_last() =~= terms);
    assert(live.push(answer).drop_last() =~= live);
    let before = candidates_for(terms, live, algorithms, policy_scan, offline);
    let after = candidates_for(
        terms.push(term),
        live.push(answer),
        algorithms,
        policy_scan,
        offline,
    );
    if after != before {
        assert(after.drop_last() =~= before);
    }
}

/// Where policies cannot be turned into text, each candidate is told so.
pub proof fn law_unsupported_scans_say_so(candidates: nat, k: int)
    requires
        0 <= k < candidates,
    ensures
        unsupported(candidates).rows[k].len() == 0,
        unsupported(candidates).messages[k]
            == "pdftotext is not installed, so security-policy scanning is unavailable."@,
{
}

/// An outcome names the term that was searched for and what the form was last
/// asked for it, whether the term was looked for in policies or not.
pub proof fn law_outcomes_name_the_search(
    terms: Seq<Seq<char>>,
    live: Seq<(Seq<char>, Seq<RowView>, Seq<char>)>,
    candidates: Seq<(Seq<char>, Seq<Seq<char>>)>,
    scans: Seq<ScanView>,
    i: int,
)
    requires
        live.len() == terms.len(),
        0 <= i < terms.len(),
        forall|j: int| i < j < terms.len() ==> #[trigger] terms[j] != terms[i],
    ensures
        ({
            let outcome = outcome_for(terms, live, candidates, scans, terms[i]);
            &&& outcome.query == terms[i]
            &&& outcome.canonical_query == live[i].0
            &&& outcome.kind == OutputKind::Cmvp
        }),
{
    lemma_last_is_last(terms, i);
}

/// Without pages an answer has no rows and no message, and so has a candidate
/// without scans; a scan without modules finds nothing.
pub proof fn law_nothing_from_nothing(
    value: Seq<char>,
    terms: Seq<Seq<char>>,
    live: Seq<(Seq<char>, Seq<RowView>, Seq<char>)>,
    candidates: Seq<(Seq<char>, Seq<Seq<char>>)>,
    status: Seq<char>,
    k: int,
)
    requires
        0 <= k < candidates.len(),
    ensures
        form_result(value, seq![], seq![]) == (value, Seq::<RowView>::empty(), Seq::<char>::empty()),
        outcome_for(terms, live, candidates, seq![], candidates[k].0).rows.len() == 0,
        outcome_for(terms, live, candidates, seq![], candidates[k].0).results_message.len() == 0,
        merged(status, candidates.len(), seq![]).rows.len() == candidates.len(),
        merged(status, candidates.len(), seq![]).rows[k].len() == 0,
{
    lemma_place_is_candidate(candidates, candidates[k].0);
    assert(is_candidate(candidates, candidates[k].0));
}

} // verus!
