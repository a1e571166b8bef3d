//! The search for validated modules: what the search form is asked, which
//! terms are looked for in security policies, and what is found for each.

use crate::html::page_fits;
use crate::listing::{
    AlgorithmOptions, normalize_cmvp_algorithm, parse_results_page, resolve_cavp_algorithms,
    resolved, results_page, term_field,
};
use crate::models::{
    ErrorView, OutcomeView, OutputKind, ResultRow, RowView, SearchError, SearchOutcome, collected,
    copy_rows, lemma_collected_error, result_view,
};
use crate::policy::{empty_lists, no_rows};
use crate::rows::{dedupe_rows, deduped};
use crate::text::{decimal, decimal_text, join, join_texts, same_text};
use vstd::prelude::*;
use vstd::string::*;

verus! {

/// The statuses of the modules that are searched.
pub open spec fn statuses(status: Seq<char>, include_revoked: bool) -> Seq<Seq<char>> {
    if include_revoked && status != "Revoked"@ {
        seq![status, "Revoked"@]
    } else {
        seq![status]
    }
}

/// The statuses of the modules that are searched.
pub fn search_statuses(status: &str, include_revoked: bool) -> (r: Vec<String>)
    ensures
        r.deep_view() == statuses(status@, include_revoked),
{
    let mut r: Vec<String> = Vec::new();
    r.push(status.to_owned());
    if include_revoked && !same_text(status, "Revoked") {
        r.push("Revoked".to_owned());
    }
    assert(r.deep_view() =~= statuses(status@, include_revoked));
    r
}

/// What the search form is asked for a field of modules with a status.
pub open spec fn form_query(status: Seq<char>, field: (Seq<char>, Seq<char>)) -> Seq<
    (Seq<char>, Seq<char>),
> {
    seq![("SearchMode"@, "Advanced"@), ("CertificateStatus"@, status), field]
}

/// What `form_queries` hands back.
pub open spec fn queries_of(
    term: Seq<char>,
    options: Map<Seq<char>, Seq<char>>,
    statuses: Seq<Seq<char>>,
) -> Result<Seq<Seq<(Seq<char>, Seq<char>)>>, ErrorView> {
    match term_field(term, options) {
        Ok(field) => Ok(statuses.map_values(|status: Seq<char>| form_query(status, field))),
        Err(error) => Err(error),
    }
}

/// What the search form is asked for a term, status by status.
pub fn form_queries(term: &str, options: &AlgorithmOptions, statuses: &Vec<String>) -> (r: Result<
    Vec<Vec<(String, String)>>,
    SearchError,
>)
    ensures
        result_view(r) == queries_of(term@, options.deep_view(), statuses.deep_view()),
{
    let (name, value) = match normalize_cmvp_algorithm(term, options) {
        Ok(field) => field,
        Err(error) => {
            return Err(error);
        },
    };
    let ghost field = (name@, value@);
    let ghost all = statuses.deep_view().map_values(
        |status: Seq<char>| form_query(status, field),
    );
    let mut queries: Vec<Vec<(String, String)>> = Vec::new();
    let mut i: usize = 0;
    assert(queries.deep_view() =~= all.take(0));
    while i < statuses.len()
        invariant
            i <= statuses@.len(),
            field == (name@, value@),
            all == statuses.deep_view().map_values(|status: Seq<char>| form_query(status, field)),
            queries.deep_view() == all.take(i as int),
        decreases statuses@.len() - i,
    {
        let ghost known = queries.deep_view();
        let mut query: Vec<(String, String)> = Vec::new();
        query.push(("SearchMode".to_owned(), "Advanced".to_owned()));
        query.push(("CertificateStatus".to_owned(), statuses[i].clone()));
        query.push((name.clone(), value.clone()));
        assert(all[i as int] == form_query(statuses@[i as int]@, field));
        assert(query.deep_view() =~= all[i as int]);
        queries.push(query);
        assert(queries.deep_view() =~= known.push(all[i as int]));
        assert(queries.deep_view() =~= all.take(i + 1));
        i += 1;
    }
    assert(all.take(all.len() as int) =~= all);
    Ok(queries)
}

/// What is passed on of the message of a result page.
pub open spec fn status_message(status: Seq<char>, message: Seq<char>) -> Seq<char> {
    if message.len() > 0 {
        message
    } else {
        "No response message returned for "@ + status + "."@
    }
}

/// What is found on result pages, status by status: what the form was asked
/// for, the rows without repeats, and the messages.
pub open spec fn form_result(
    value: Seq<char>,
    statuses: Seq<Seq<char>>,
    pages: Seq<(Seq<RowView>, Seq<char>)>,
) -> (Seq<char>, Seq<RowView>, Seq<char>) {
    (
        value,
        deduped(pages.map_values(|page: (Seq<RowView>, Seq<char>)| page.0).flatten()),
        join(
            Seq::new(pages.len(), |i: int| status_message(statuses[i], pages[i].1)),
            " | "@,
        ),
    )
}

/// What is found on result pages, status by status.
pub fn combine_pages(
    value: String,
    statuses: &Vec<String>,
    pages: Vec<(Vec<ResultRow>, String)>,
) -> (r: (String, Vec<ResultRow>, String))
    requires
        pages@.len() == statuses@.len(),
    ensures
        r.deep_view() == form_result(value@, statuses.deep_view(), pages.deep_view()),
{
    let ghost views = pages.deep_view();
    let ghost lists = views.map_values(|page: (Seq<RowView>, Seq<char>)| page.0);
    let ghost texts = Seq::new(
        views.len(),
        |i: int| status_message(statuses.deep_view()[i], views[i].1),
    );
    let mut rows: Vec<ResultRow> = Vec::new();
    let mut messages: Vec<String> = Vec::new();
    let total: usize = statuses.len();
    let mut i: usize = 0;
    assert(rows.deep_view() =~= lists.take(0).flatten());
    assert(messages.deep_view() =~= texts.take(0));
    for page in it: pages
        invariant
            it.seq() == pages@,
            i == it.index(),
            pages@.len() == statuses@.len() == total,
            views == pages.deep_view(),
            lists == views.map_values(|page: (Seq<RowView>, Seq<char>)| page.0),
            texts == Seq::new(
                views.len(),
                |i: int| status_message(statuses.deep_view()[i], views[i].1),
            ),
            rows.deep_view() == lists.take(i as int).flatten(),
            messages.deep_view() == texts.take(i as int),
    {
        let ghost known = rows.deep_view();
        let ghost said = messages.deep_view();
        let (mut page_rows, message) = page;
        let ghost added = page_rows.deep_view();
        assert(views[i as int] == (added, message@));
        rows.append(&mut page_rows);
        proof {
            assert(lists.take(i + 1) =~= lists.take(i as int).push(added));
            lists.take(i as int).lemma_flatten_push(added);
            assert(rows.deep_view() =~= known + added);
        }
        let text = if message.as_str().is_empty() {
            "No response message returned for ".to_owned().concat(statuses[i].as_str()).concat(".")
        } else {
            message
        };
        assert(texts[i as int] == text@);
        messages.push(text);
        assert(messages.deep_view() =~= said.push(text@));
        assert(messages.deep_view() =~= texts.take(i + 1));
        i += 1;
    }
    assert(lists.take(lists.len() as int) =~= lists);
    assert(texts.take(texts.len() as int) =~= texts);
    (value, dedupe_rows(rows), join_texts(&messages, " | "))
}

/// What `search_cmvp_form` hands back.
pub open spec fn form_search(
    term: Seq<char>,
    options: Map<Seq<char>, Seq<char>>,
    statuses: Seq<Seq<char>>,
    pages: Seq<Seq<char>>,
) -> Result<(Seq<char>, Seq<RowView>, Seq<char>), ErrorView> {
    match term_field(term, options) {
        Ok(field) => match collected(pages.map_values(|html: Seq<char>| results_page(html))) {
            Ok(read) => Ok(form_result(field.1, statuses, read)),
            Err(error) => Err(error),
        },
        Err(error) => Err(error),
    }
}

/// What the search form answers to a term: the pages are those that it gave
/// to the queries for the term, one for each status.
pub fn search_cmvp_form(
    term: &str,
    options: &AlgorithmOptions,
    statuses: &Vec<String>,
    pages: &Vec<String>,
) -> (r: Result<(String, Vec<ResultRow>, String), SearchError>)
    requires
        pages@.len() == statuses@.len(),
        forall|i: int| 0 <= i < pages@.len() ==> page_fits((#[trigger] pages@[i])@),
    ensures
        result_view(r) == form_search(
            term@,
            options.deep_view(),
            statuses.deep_view(),
            pages.deep_view(),
        ),
{
    let value = match normalize_cmvp_algorithm(term, options) {
        Ok((_, value)) => value,
        Err(error) => {
            return Err(error);
        },
    };
    let ghost items = pages.deep_view().map_values(|html: Seq<char>| results_page(html));
    let mut read: Vec<(Vec<ResultRow>, String)> = Vec::new();
    let mut i: usize = 0;
    assert(read.deep_view() =~= seq![]);
    while i < pages.len()
        invariant
            i <= pages@.len(),
            forall|k: int| 0 <= k < pages@.len() ==> page_fits((#[trigger] pages@[k])@),
            read@.len() == i,
            term_field(term@, options.deep_view()) matches Ok(field) && field.1 == value@,
            items == pages.deep_view().map_values(|html: Seq<char>| results_page(html)),
            collected(items.take(i as int)) == Ok::<Seq<(Seq<RowView>, Seq<char>)>, ErrorView>(
                read.deep_view(),
            ),
        decreases pages@.len() - i,
    {
        let ghost known = read.deep_view();
        assert(items.take(i + 1).drop_last() =~= items.take(i as int));
        assert(items.take(i + 1).last() == results_page(pages@[i as int]@));
        match parse_results_page(pages[i].as_str()) {
            Ok(page) => {
                read.push(page);
                assert(read.deep_view() =~= known.push(page.deep_view()));
            },
            Err(error) => {
                proof {
                    lemma_collected_error(items, i + 1);
                }
                return Err(error);
            },
        }
        i += 1;
    }
    assert(items.take(items.len() as int) =~= items);
    Ok(combine_pages(value, statuses, read))
}

/// What stands in for the answer of the search form without a connection.
pub open spec fn offline_result(term: Seq<char>) -> (Seq<char>, Seq<RowView>, Seq<char>) {
    (
        term,
        seq![],
        "Offline mode: skipping live CMVP search and using cached data only."@,
    )
}

/// What stands in for the answer of the search form without a connection.
pub fn offline_search(term: &str) -> (r: (String, Vec<ResultRow>, String))
    ensures
        r.deep_view() == offline_result(term@),
{
    let rows: Vec<ResultRow> = Vec::new();
    assert(rows.deep_view() =~= seq![]);
    (
        term.to_owned(),
        rows,
        "Offline mode: skipping live CMVP search and using cached data only.".to_owned(),
    )
}

/// One of the candidates is this term.
pub open spec fn is_candidate(
    candidates: Seq<(Seq<char>, Seq<Seq<char>>)>,
    term: Seq<char>,
) -> bool {
    exists|k: int| 0 <= k < candidates.len() && (#[trigger] candidates[k]).0 == term
}

/// The algorithms that a term stands for in policies: those of the list, or
/// none that are known without a connection.
pub open spec fn meant_by(term: Seq<char>, algorithms: Seq<Seq<char>>, offline: bool) -> Seq<
    Seq<char>,
> {
    if offline {
        seq![]
    } else {
        resolved(term, algorithms)
    }
}

/// A term is looked for in policies: the form found nothing for it, and it
/// stands for algorithms or the list of them is out of reach.
pub open spec fn falls_back(
    term: Seq<char>,
    found: Seq<RowView>,
    algorithms: Seq<Seq<char>>,
    offline: bool,
) -> bool {
    found.len() == 0 && (offline || meant_by(term, algorithms, offline).len() > 0)
}

/// The terms that are looked for in policies, each once, with the algorithms
/// that it stands for.
pub open spec fn candidates_for(
    terms: Seq<Seq<char>>,
    live: Seq<(Seq<char>, Seq<RowView>, Seq<char>)>,
    algorithms: Seq<Seq<char>>,
    policy_scan: bool,
    offline: bool,
) -> Seq<(Seq<char>, Seq<Seq<char>>)>
    decreases terms.len(),
{
    if terms.len() == 0 {
        seq![]
    } else {
        let earlier = candidates_for(
            terms.drop_last(),
            live.drop_last(),
            algorithms,
            policy_scan,
            offline,
        );
        let term = terms.last();
        if policy_scan && falls_back(term, live.last().1, algorithms, offline) && !is_candidate(
            earlier,
            term,
        ) {
            earlier.push((term, meant_by(term, algorithms, offline)))
        } else {
            earlier
        }
    }
}

/// The place of a term among the candidates.
fn find_candidate(candidates: &Vec<(String, Vec<String>)>, term: &str) -> (r: Option<usize>)
    ensures
        r matches Some(k) ==> k < candidates@.len() && candidates.deep_view()[k as int].0 == term@
            && forall|j: int| 0 <= j < k ==> (#[trigger] candidates.deep_view()[j]).0 != term@,
        r is None ==> !is_candidate(candidates.deep_view(), term@),
{
    let ghost views = candidates.deep_view();
    let mut k: usize = 0;
    while k < candidates.len()
        invariant
            k <= candidates@.len(),
            views == candidates.deep_view(),
            forall|j: int| 0 <= j < k ==> (#[trigger] views[j]).0 != term@,
        decreases candidates@.len() - k,
    {
        assert(views[k as int].0 == candidates@[k as int].0@);
        if same_text(candidates[k].0.as_str(), term) {
            return Some(k);
        }
        k += 1;
    }
    None
}

/// The terms that are looked for in policies, each once, with the algorithms
/// that it stands for.
pub fn fallback_candidates(
    terms: &Vec<String>,
    live: &Vec<(String, Vec<ResultRow>, String)>,
    cavp_algorithms: &Vec<String>,
    policy_scan: bool,
    offline: bool,
) -> (r: Vec<(String, Vec<String>)>)
    requires
        live@.len() == terms@.len(),
    ensures
        r.deep_view() == candidates_for(
            terms.deep_view(),
            live.deep_view(),
            cavp_algorithms.deep_view(),
            policy_scan,
            offline,
        ),
{
    let ghost all = terms.deep_view();
    let ghost found = live.deep_view();
    let ghost algorithms = cavp_algorithms.deep_view();
    let mut r: Vec<(String, Vec<String>)> = Vec::new();
    let mut i: usize = 0;
    assert(r.deep_view() =~= candidates_for(
        all.take(0),
        found.take(0),
        algorithms,
        policy_scan,
        offline,
    ));
    while i < terms.len()
        invariant
            i <= terms@.len() == live@.len(),
            all == terms.deep_view(),
            found == live.deep_view(),
            algorithms == cavp_algorithms.deep_view(),
            r.deep_view() == candidates_for(
                all.take(i as int),
                found.take(i as int),
                algorithms,
                policy_scan,
                offline,
            ),
        decreases terms@.len() - i,
    {
        let ghost known = r.deep_view();
        let term = terms[i].as_str();
        proof {
            assert(all.take(i + 1).drop_last() =~= all.take(i as int));
            assert(found.take(i + 1).drop_last() =~= found.take(i as int));
            assert(all.take(i + 1).last() == term@);
            assert(found.take(i + 1).last() == live@[i as int].deep_view());
            assert(live@[i as int].1.deep_view().len() == live@[i as int].1@.len());
        }
        if policy_scan && live[i].1.len() == 0 {
            let meant: Vec<String> = if offline {
                let none: Vec<String> = Vec::new();
                assert(none.deep_view() =~= seq![]);
                none
            } else {
                resolve_cavp_algorithms(term, cavp_algorithms)
            };
            assert(meant.deep_view() == meant_by(term@, algorithms, offline));
            assert(meant.deep_view().len() == meant@.len());
            if offline || meant.len() > 0 {
                match find_candidate(&r, term) {
                    Some(_) => {},
                    None => {
                        let ghost added = (term@, meant.deep_view());
                        r.push((term.to_owned(), meant));
                        assert(r.deep_view() =~= known.push(added));
                    },
                }
            }
        }
        i += 1;
    }
    assert(all.take(all.len() as int) =~= all);
    assert(found.take(found.len() as int) =~= found);
    r
}

/// What the policies of the modules with a status have for the candidates.
#[derive(Debug)]
pub struct PolicyScan {
    /// The rows of each candidate.
    pub rows: Vec<Vec<ResultRow>>,
    /// What there is to say of each candidate.
    pub messages: Vec<String>,
}

/// What a scan holds.
#[verifier::ext_equal]
pub struct ScanView {
    pub rows: Seq<Seq<RowView>>,
    pub messages: Seq<Seq<char>>,
}

impl DeepView for PolicyScan {
    type V = ScanView;

    open spec fn deep_view(&self) -> ScanView {
        ScanView { rows: self.rows.deep_view(), messages: self.messages.deep_view() }
    }
}

/// A scan has rows and a message for each of some candidates.
pub open spec fn scan_fits(scan: ScanView, candidates: nat) -> bool {
    scan.rows.len() == candidates && scan.messages.len() == candidates
}

/// The rows that the modules have for one candidate, module by module.
pub open spec fn rows_for(scanned: Seq<Seq<Seq<RowView>>>, k: int) -> Seq<RowView> {
    scanned.map_values(|lists: Seq<Seq<RowView>>| lists[k]).flatten()
}

/// What there is to say of a candidate.
pub open spec fn scan_message(status: Seq<char>, scanned: nat, matched: nat) -> Seq<char> {
    status + ": CMVP search page returned no matches; scanned "@ + decimal(scanned)
        + " module policies once, matched "@ + decimal(matched) + " certified operation entries"@
}

/// The scan of the modules with a status, from what each module has for each
/// of some candidates.
pub open spec fn merged(
    status: Seq<char>,
    candidates: nat,
    scanned: Seq<Seq<Seq<RowView>>>,
) -> ScanView {
    ScanView {
        rows: Seq::new(candidates, |k: int| deduped(rows_for(scanned, k))),
        messages: Seq::new(
            candidates,
            |k: int| scan_message(status, scanned.len(), deduped(rows_for(scanned, k)).len()),
        ),
    }
}

/// Puts a copy of some rows behind others.
fn append_copy(rows: &mut Vec<ResultRow>, more: &Vec<ResultRow>)
    ensures
        final(rows).deep_view() == old(rows).deep_view() + more.deep_view(),
{
    let ghost known = rows.deep_view();
    let mut copy = copy_rows(more);
    let ghost added = copy.deep_view();
    rows.append(&mut copy);
    assert(rows.deep_view() =~= known + added);
}

/// The rows that the modules have for one candidate, module by module.
fn gather(scanned: &Vec<Vec<Vec<ResultRow>>>, k: usize) -> (r: Vec<ResultRow>)
    requires
        forall|i: int| 0 <= i < scanned@.len() ==> k < (#[trigger] scanned@[i])@.len(),
    ensures
        r.deep_view() == rows_for(scanned.deep_view(), k as int),
{
    let ghost lists = scanned.deep_view().map_values(|lists: Seq<Seq<RowView>>| lists[k as int]);
    let mut r: Vec<ResultRow> = Vec::new();
    let mut i: usize = 0;
    assert(r.deep_view() =~= lists.take(0).flatten());
    while i < scanned.len()
        invariant
            i <= scanned@.len(),
            forall|i: int| 0 <= i < scanned@.len() ==> k < (#[trigger] scanned@[i])@.len(),
            lists == scanned.deep_view().map_values(
                |lists: Seq<Seq<RowView>>| lists[k as int],
            ),
            r.deep_view() == lists.take(i as int).flatten(),
        decreases scanned@.len() - i,
    {
        proof {
            assert(scanned.deep_view()[i as int] == scanned@[i as int].deep_view());
            assert(lists[i as int] == scanned@[i as int]@[k as int].deep_view());
            assert(lists.take(i + 1) =~= lists.take(i as int).push(lists[i as int]));
            lists.take(i as int).lemma_flatten_push(lists[i as int]);
        }
        append_copy(&mut r, &scanned[i][k]);
        i += 1;
    }
    assert(lists.take(lists.len() as int) =~= lists);
    r
}

/// The scan of the modules with a status, from what each module has for each
/// of some candidates.
pub fn scan_security_policies(
    status: &str,
    candidates: usize,
    scanned: &Vec<Vec<Vec<ResultRow>>>,
) -> (r: PolicyScan)
    requires
        forall|i: int| 0 <= i < scanned@.len() ==> (#[trigger] scanned@[i])@.len() == candidates,
    ensures
        r.deep_view() == merged(status@, candidates as nat, scanned.deep_view()),
{
    let ghost whole = merged(status@, candidates as nat, scanned.deep_view());
    let mut rows: Vec<Vec<ResultRow>> = Vec::new();
    let mut messages: Vec<String> = Vec::new();
    let mut k: usize = 0;
    assert(scanned.deep_view().len() == scanned@.len());
    assert(rows.deep_view() =~= whole.rows.take(0));
    assert(messages.deep_view() =~= whole.messages.take(0));
    while k < candidates
        invariant
            k <= candidates,
            forall|i: int|
                0 <= i < scanned@.len() ==> (#[trigger] scanned@[i])@.len() == candidates,
            whole == merged(status@, candidates as nat, scanned.deep_view()),
            scanned.deep_view().len() == scanned@.len(),
            rows.deep_view() == whole.rows.take(k as int),
            messages.deep_view() == whole.messages.take(k as int),
        decreases candidates - k,
    {
        let ghost known = rows.deep_view();
        let ghost said = messages.deep_view();
        let list = dedupe_rows(gather(scanned, k));
        assert(list.deep_view().len() == list@.len());
        let message = status.to_owned().concat(
            ": CMVP search page returned no matches; scanned ",
        ).concat(decimal_text(scanned.len()).as_str()).concat(
            " module policies once, matched ",
        ).concat(decimal_text(list.len()).as_str()).concat(" certified operation entries");
        proof {
            assert(whole.rows[k as int] == list.deep_view());
            assert(whole.messages[k as int] == message@);
        }
        rows.push(list);
        messages.push(message);
        assert(rows.deep_view() =~= known.push(whole.rows[k as int]));
        assert(rows.deep_view() =~= whole.rows.take(k + 1));
        assert(messages.deep_view() =~= said.push(whole.messages[k as int]));
        assert(messages.deep_view() =~= whole.messages.take(k + 1));
        k += 1;
    }
    assert(whole.rows.take(candidates as int) =~= whole.rows);
    assert(whole.messages.take(candidates as int) =~= whole.messages);
    PolicyScan { rows, messages }
}

/// The scan where policies cannot be turned into text.
pub open spec fn unsupported(candidates: nat) -> ScanView {
    ScanView {
        rows: no_rows(candidates),
        messages: Seq::new(
            candidates,
            |k: int| "pdftotext is not installed, so security-policy scanning is unavailable."@,
        ),
    }
}

/// The scan where policies cannot be turned into text.
pub fn unsupported_scan(candidates: usize) -> (r: PolicyScan)
    ensures
        r.deep_view() == unsupported(candidates as nat),
{
    let ghost whole = unsupported(candidates as nat).messages;
    let mut messages: Vec<String> = Vec::new();
    let mut k: usize = 0;
    assert(messages.deep_view() =~= whole.take(0));
    while k < candidates
        invariant
            k <= candidates,
            whole == unsupported(candidates as nat).messages,
            messages.deep_view() == whole.take(k as int),
        decreases candidates - k,
    {
        let ghost said = messages.deep_view();
        messages.push(
            "pdftotext is not installed, so security-policy scanning is unavailable.".to_owned(),
        );
        assert(messages.deep_view() =~= said.push(whole[k as int]));
        assert(messages.deep_view() =~= whole.take(k + 1));
        k += 1;
    }
    assert(whole.take(candidates as int) =~= whole);
    PolicyScan { rows: empty_lists(candidates), messages }
}

/// The terms, each where it first occurs.
pub open spec fn distinct(terms: Seq<Seq<char>>) -> Seq<Seq<char>>
    decreases terms.len(),
{
    if terms.len() == 0 {
        seq![]
    } else if terms.drop_last().contains(terms.last()) {
        distinct(terms.drop_last())
    } else {
        distinct(terms.drop_last()).push(terms.last())
    }
}

/// The last place of a term among terms that hold it.
pub open spec fn last_place_of(terms: Seq<Seq<char>>, term: Seq<char>) -> int
    decreases terms.len(),
{
    if terms.len() <= 1 || terms.last() == term {
        terms.len() - 1
    } else {
        last_place_of(terms.drop_last(), term)
    }
}

/// The place of a term among the candidates, where it is one.
pub open spec fn candidate_place(
    candidates: Seq<(Seq<char>, Seq<Seq<char>>)>,
    term: Seq<char>,
) -> Option<int>
    decreases candidates.len(),
{
    if candidates.len() == 0 {
        None
    } else {
        match candidate_place(candidates.drop_last(), term) {
            Some(k) => Some(k),
            None => if candidates.last().0 == term {
                Some(candidates.len() - 1)
            } else {
                None
            },
        }
    }
}

/// What is found for a term: what the scans of the policies have, status by
/// status, for a candidate, and what the form last answered for another.
pub open spec fn outcome_for(
    terms: Seq<Seq<char>>,
    live: Seq<(Seq<char>, Seq<RowView>, Seq<char>)>,
    candidates: Seq<(Seq<char>, Seq<Seq<char>>)>,
    scans: Seq<ScanView>,
    term: Seq<char>,
) -> OutcomeView {
    let answer = live[last_place_of(terms, term)];
    match candidate_place(candidates, term) {
        Some(k) => OutcomeView {
            query: term,
            canonical_query: answer.0,
            results_message: join(scans.map_values(|scan: ScanView| scan.messages[k]), " | "@),
            rows: deduped(scans.map_values(|scan: ScanView| scan.rows[k]).flatten()),
            kind: OutputKind::Cmvp,
        },
        None => OutcomeView {
            query: term,
            canonical_query: answer.0,
            results_message: answer.2,
            rows: answer.1,
            kind: OutputKind::Cmvp,
        },
    }
}

/// What is found for each term.
pub open spec fn outcomes(
    terms: Seq<Seq<char>>,
    live: Seq<(Seq<char>, Seq<RowView>, Seq<char>)>,
    candidates: Seq<(Seq<char>, Seq<Seq<char>>)>,
    scans: Seq<ScanView>,
) -> Seq<OutcomeView> {
    distinct(terms).map_values(
        |term: Seq<char>| outcome_for(terms, live, candidates, scans, term),
    )
}

/// Where a candidate stands.
proof fn lemma_candidate_place(
    candidates: Seq<(Seq<char>, Seq<Seq<char>>)>,
    term: Seq<char>,
    k: int,
)
    requires
        0 <= k < candidates.len(),
        candidates[k].0 == term,
        forall|j: int| 0 <= j < k ==> (#[trigger] candidates[j]).0 != term,
    ensures
        candidate_place(candidates, term) == Some(k),
    decreases candidates.len(),
{
    let head = candidates.drop_last();
    if k < head.len() {
        assert forall|j: int| 0 <= j < k implies (#[trigger] head[j]).0 != term by {
            assert(head[j] == candidates[j]);
        }
        lemma_candidate_place(head, term, k);
    } else {
        assert forall|j: int| 0 <= j < head.len() implies (#[trigger] head[j]).0 != term by {
            assert(head[j] == candidates[j]);
        }
        lemma_no_candidate(head, term);
    }
}

/// A term that is no candidate has no place.
proof fn lemma_no_candidate(candidates: Seq<(Seq<char>, Seq<Seq<char>>)>, term: Seq<char>)
    requires
        forall|j: int| 0 <= j < candidates.len() ==> (#[trigger] candidates[j]).0 != term,
    ensures
        candidate_place(candidates, term) is None,
    decreases candidates.len(),
{
    if candidates.len() > 0 {
        let head = candidates.drop_last();
        assert forall|j: int| 0 <= j < head.len() implies (#[trigger] head[j]).0 != term by {
            assert(head[j] == candidates[j]);
        }
        lemma_no_candidate(head, term);
    }
}

/// The last place of a term that is there.
proof fn lemma_last_place_of(terms: Seq<Seq<char>>, term: Seq<char>, k: int)
    requires
        0 <= k < terms.len(),
        terms[k] == term,
        forall|j: int| k < j < terms.len() ==> #[trigger] terms[j] != term,
    ensures
        last_place_of(terms, term) == k,
    decreases terms.len(),
{
    if k < terms.len() - 1 {
        let head = terms.drop_last();
        assert forall|j: int| k < j < head.len() implies #[trigger] head[j] != term by {
            assert(head[j] == terms[j]);
        }
        lemma_last_place_of(head, term, k);
    }
}

/// The last place of the term at `i`.
fn find_last(terms: &Vec<String>, i: usize) -> (r: usize)
    requires
        i < terms@.len(),
    ensures
        r < terms@.len(),
        r == last_place_of(terms.deep_view(), terms@[i as int]@),
{
    let ghost all = terms.deep_view();
    let total: usize = terms.len();
    let mut k: usize = total - 1;
    while !same_text(terms[k].as_str(), terms[i].as_str())
        invariant
            total == terms@.len(),
            all == terms.deep_view(),
            i <= k < total,
            forall|j: int| k < j < total ==> #[trigger] all[j] != terms@[i as int]@,
        decreases k,
    {
        assert(all[k as int] == terms@[k as int]@);
        k -= 1;
    }
    proof {
        assert(all[k as int] == terms@[k as int]@);
        lemma_last_place_of(all, terms@[i as int]@, k as int);
    }
    k
}

/// Whether the term at `i` occurs before.
fn occurs_before(terms: &Vec<String>, i: usize) -> (r: bool)
    requires
        i < terms@.len(),
    ensures
        r == terms.deep_view().take(i as int).contains(terms@[i as int]@),
{
    let ghost head = terms.deep_view().take(i as int);
    let mut k: usize = 0;
    while k < i
        invariant
            k <= i < terms@.len(),
            head == terms.deep_view().take(i as int),
            forall|j: int| 0 <= j < k ==> #[trigger] head[j] != terms@[i as int]@,
        decreases i - k,
    {
        assert(head[k as int] == terms@[k as int]@);
        if same_text(terms[k].as_str(), terms[i].as_str()) {
            return true;
        }
        k += 1;
    }
    false
}

/// What is found for the term at `i`.
fn find_outcome(
    terms: &Vec<String>,
    live: &Vec<(String, Vec<ResultRow>, String)>,
    candidates: &Vec<(String, Vec<String>)>,
    scans: &Vec<PolicyScan>,
    i: usize,
) -> (r: SearchOutcome)
    requires
        i < terms@.len() == live@.len(),
        forall|j: int|
            0 <= j < scans@.len() ==> scan_fits(
                (#[trigger] scans@[j]).deep_view(),
                candidates@.len(),
            ),
    ensures
        r.deep_view() == outcome_for(
            terms.deep_view(),
            live.deep_view(),
            candidates.deep_view(),
            scans.deep_view(),
            terms@[i as int]@,
        ),
{
    let term = terms[i].as_str();
    let place: usize = find_last(terms, i);
    let answer = &live[place];
    assert(live.deep_view()[place as int] == answer.deep_view());
    match find_candidate(candidates, term) {
        Some(k) => {
            proof {
                lemma_candidate_place(candidates.deep_view(), term@, k as int);
            }
            let ghost views = scans.deep_view();
            let ghost lists = views.map_values(|scan: ScanView| scan.rows[k as int]);
            let ghost texts = views.map_values(|scan: ScanView| scan.messages[k as int]);
            let mut rows: Vec<ResultRow> = Vec::new();
            let mut messages: Vec<String> = Vec::new();
            let mut j: usize = 0;
            assert(rows.deep_view() =~= lists.take(0).flatten());
            assert(messages.deep_view() =~= texts.take(0));
            while j < scans.len()
                invariant
                    j <= scans@.len(),
                    k < candidates@.len(),
                    forall|j: int|
                        0 <= j < scans@.len() ==> scan_fits(
                            (#[trigger] scans@[j]).deep_view(),
                            candidates@.len(),
                        ),
                    views == scans.deep_view(),
                    lists == views.map_values(|scan: ScanView| scan.rows[k as int]),
                    texts == views.map_values(|scan: ScanView| scan.messages[k as int]),
                    rows.deep_view() == lists.take(j as int).flatten(),
                    messages.deep_view() == texts.take(j as int),
                decreases scans@.len() - j,
            {
                let ghost said = messages.deep_view();
                let scan = &scans[j];
                proof {
                    assert(scan_fits(scans@[j as int].deep_view(), candidates@.len()));
                    assert(views[j as int] == scan.deep_view());
                    assert(lists[j as int] == scan.rows@[k as int].deep_view());
                    assert(texts[j as int] == scan.messages@[k as int]@);
                    assert(lists.take(j + 1) =~= lists.take(j as int).push(lists[j as int]));
                    lists.take(j as int).lemma_flatten_push(lists[j as int]);
                }
                append_copy(&mut rows, &scan.rows[k]);
                messages.push(scan.messages[k].clone());
                assert(messages.deep_view() =~= said.push(texts[j as int]));
                assert(messages.deep_view() =~= texts.take(j + 1));
                j += 1;
            }
            assert(lists.take(lists.len() as int) =~= lists);
            assert(texts.take(texts.len() as int) =~= texts);
            SearchOutcome {
                query: term.to_owned(),
                canonical_query: answer.0.clone(),
                results_message: join_texts(&messages, " | "),
                rows: dedupe_rows(rows),
                kind: OutputKind::Cmvp,
            }
        },
        None => {
            proof {
                lemma_no_candidate(candidates.deep_view(), term@);
            }
            SearchOutcome {
                query: term.to_owned(),
                canonical_query: answer.0.clone(),
                results_message: answer.2.clone(),
                rows: copy_rows(&answer.1),
                kind: OutputKind::Cmvp,
            }
        },
    }
}

/// What is found for each term, from what the form answered to it and from
/// what the policies have for the candidates, status by status.
pub fn search_products_for_terms(
    terms: &Vec<String>,
    live: &Vec<(String, Vec<ResultRow>, String)>,
    candidates: &Vec<(String, Vec<String>)>,
    scans: &Vec<PolicyScan>,
) -> (r: Vec<SearchOutcome>)
    requires
        live@.len() == terms@.len(),
        forall|j: int|
            0 <= j < scans@.len() ==> scan_fits(
                (#[trigger] scans@[j]).deep_view(),
                candidates@.len(),
            ),
    ensures
        r.deep_view() == outcomes(
            terms.deep_view(),
            live.deep_view(),
            candidates.deep_view(),
            scans.deep_view(),
        ),
{
    let ghost all = terms.deep_view();
    let ghost each = |term: Seq<char>|
        outcome_for(all, live.deep_view(), candidates.deep_view(), scans.deep_view(), term);
    let mut r: Vec<SearchOutcome> = Vec::new();
    let mut i: usize = 0;
    assert(r.deep_view() =~= distinct(all.take(0)).map_values(each));
    while i < terms.len()
        invariant
            i <= terms@.len() == live@.len(),
            forall|j: int|
                0 <= j < scans@.len() ==> scan_fits(
                    (#[trigger] scans@[j]).deep_view(),
                    candidates@.len(),
                ),
            all == terms.deep_view(),
            each == (|term: Seq<char>|
                outcome_for(
                    all,
                    live.deep_view(),
                    candidates.deep_view(),
                    scans.deep_view(),
                    term,
                )),
            r.deep_view() == distinct(all.take(i as int)).map_values(each),
        decreases terms@.len() - i,
    {
        let ghost known = r.deep_view();
        proof {
            assert(all.take(i + 1).drop_last() =~= all.take(i as int));
            assert(all.take(i + 1).last() == terms@[i as int]@);
        }
        if !occurs_before(terms, i) {
            let outcome = find_outcome(terms, live, candidates, scans, i);
            r.push(outcome);
            assert(r.deep_view() =~= known.push(outcome.deep_view()));
            assert(r.deep_view() =~= distinct(all.take(i + 1)).map_values(each));
        }
        i += 1;
    }
    assert(all.take(all.len() as int) =~= all);
    assert(distinct(all).map_values(each) =~= outcomes(
        all,
        live.deep_view(),
        candidates.deep_view(),
        scans.deep_view(),
    ));
    r
}

} // verus!
