//! Laws of the listings: addresses, filters, the algorithms that a term means
//! and the rows of a table.

use crate::certificates::{
    certificate_in, detail, entropy_catalog, entropy_certificate_page, entropy_certificate_row,
    module_catalog, module_certificate_page, module_certificate_row, titled,
};
use crate::html::{
    ElementView, element_text, first_filled, first_text, selection, selection_of_pairs,
    selection_within, selector_parses, selectors_checked,
};
use crate::listing::{
    BASE_URL, CellView, absolute, checked_algorithms, checked_catalog, checked_options,
    entropy_row, entropy_rows, esv_results_page, exactly, filled_texts, loosely, module_row,
    module_rows, offered, page_algorithms, page_message, page_options, present, resolved,
    results_page, status_listing, status_page, term_field,
};
use crate::models::{
    ErrorView, IidClaim, IidClaimFilter, RowView, claim_word, collected, error_cause,
    error_sentence, filter_of, filter_word, keeps, lemma_collected_items,
};
use crate::policy_laws::lemma_collected_from;
use crate::rows::{
    ascending, descending, is_ascending, is_descending, law_ascending_sorts, law_descending_sorts,
};
use crate::text::{
    collapsed, lemma_filter_push, lowercased, normalized, occurs_in, same_ignoring_case,
    stands_at, trimmed, without_leading,
};
use crate::text_laws::{law_normalized_ignores_case, law_trimmed_idempotent};
use vstd::prelude::*;
use vstd::string::*;

verus! {

/// The filter for any claim keeps each claim; another filter keeps one claim
/// alone, that with its own word.
pub proof fn law_filters(filter: IidClaimFilter, claim: IidClaim)
    ensures
        keeps(IidClaimFilter::Any, claim),
        keeps(filter_of(claim), claim),
        filter != IidClaimFilter::Any ==> (keeps(filter, claim) <==> filter == filter_of(claim)),
        filter_word(filter_of(claim)) == claim_word(claim),
{
}

/// An address that was made absolute is absolute.
pub proof fn law_absolute_idempotent(href: Seq<char>)
    ensures
        absolute(absolute(href)) == absolute(href),
{
    reveal_strlit("https://");
    reveal_strlit("https://csrc.nist.gov");
    let whole = BASE_URL@ + href;
    assert("https://"@ =~= whole.take("https://"@.len() as int));
    assert("https://"@.is_prefix_of(whole));
}

/// White space around a term does not change what the form is asked.
pub proof fn law_terms_are_trimmed(term: Seq<char>, options: Map<Seq<char>, Seq<char>>)
    ensures
        term_field(trimmed(term), options) == term_field(term, options),
{
    law_trimmed_idempotent(term);
}

/// A term is refused if and only if it is white space alone.
pub proof fn law_empty_terms_are_refused(term: Seq<char>, options: Map<Seq<char>, Seq<char>>)
    ensures
        term_field(term, options) is Err <==> trimmed(term).len() == 0,
        term_field(term, options) is Err ==> term_field(term, options) == Err::<
            (Seq<char>, Seq<char>),
            ErrorView,
        >(ErrorView::EmptyAlgorithm),
{
}

/// An option with a value goes by its value and by its text.
pub proof fn law_options_go_by_value_and_text(elements: Seq<ElementView>, i: int)
    requires
        0 <= i < elements.len(),
        elements[i].1 matches Some(value) && trimmed(value).len() > 0,
    ensures
        elements[i].1 matches Some(value) && {
            &&& offered(elements).dom().contains(lowercased(trimmed(value)))
            &&& element_text(elements[i]).len() > 0 ==> offered(elements).dom().contains(
                lowercased(element_text(elements[i])),
            )
        },
    decreases elements.len(),
{
    let head = elements.drop_last();
    if i < head.len() {
        assert(head[i] == elements[i]);
        law_options_go_by_value_and_text(head, i);
    }
}

/// The algorithms that a term means are in the list.
pub proof fn law_resolved_are_listed(term: Seq<char>, algorithms: Seq<Seq<char>>, i: int)
    requires
        0 <= i < resolved(term, algorithms).len(),
    ensures
        algorithms.contains(resolved(term, algorithms)[i]),
        exactly(term)(resolved(term, algorithms)[i]) || loosely(term)(
            resolved(term, algorithms)[i],
        ),
{
    broadcast use {vstd::seq_lib::group_filter_ensures, vstd::seq_lib::group_to_multiset_ensures};

    let found = resolved(term, algorithms)[i];
    let exact = algorithms.filter(exactly(term));
    if exact.len() > 0 {
        assert(exact.contains(found));
        algorithms.lemma_filter_contains_rev(exactly(term), found);
        assert(exactly(term)(exact[i]));
    } else {
        let loose = algorithms.filter(loosely(term));
        law_ascending_sorts(loose);
        assert(ascending(loose).contains(found));
        assert(ascending(loose).to_multiset().count(found) > 0);
        assert(loose.to_multiset().count(found) > 0);
        assert(loose.contains(found));
        algorithms.lemma_filter_contains_rev(loosely(term), found);
        let k = choose|k: int| 0 <= k < loose.len() && loose[k] == found;
        assert(loosely(term)(loose[k]));
    }
}

/// Where a listed algorithm has the name of the term, the term means the
/// algorithms with that name alone, in the order of the list.
pub proof fn law_exact_names_win(term: Seq<char>, algorithms: Seq<Seq<char>>, i: int)
    requires
        0 <= i < algorithms.len(),
        same_ignoring_case(algorithms[i], term),
    ensures
        resolved(term, algorithms) == algorithms.filter(exactly(term)),
        resolved(term, algorithms).contains(algorithms[i]),
{
    broadcast use vstd::seq_lib::group_filter_ensures;

    assert(exactly(term)(algorithms[i]));
    assert(algorithms.filter(exactly(term)).contains(algorithms[i]));
}

/// Where no listed algorithm has the name of the term, those that it means
/// stand in ascending order.
pub proof fn law_loose_names_ascend(term: Seq<char>, algorithms: Seq<Seq<char>>)
    requires
        forall|i: int|
            0 <= i < algorithms.len() ==> !same_ignoring_case(#[trigger] algorithms[i], term),
    ensures
        is_ascending(resolved(term, algorithms)),
        resolved(term, algorithms).to_multiset() == algorithms.filter(
            loosely(term),
        ).to_multiset(),
{
    broadcast use vstd::seq_lib::group_filter_ensures;

    let exact = algorithms.filter(exactly(term));
    if exact.len() > 0 {
        assert(exact.contains(exact[0]));
        algorithms.lemma_filter_contains_rev(exactly(term), exact[0]);
        assert(exactly(term)(exact[0]));
        let k = choose|k: int| 0 <= k < algorithms.len() && algorithms[k] == exact[0];
        assert(same_ignoring_case(algorithms[k], term));
    }
    law_ascending_sorts(algorithms.filter(loosely(term)));
}

/// The case of its ASCII letters does not change what a term means.
pub proof fn law_resolving_ignores_case(
    term: Seq<char>,
    other: Seq<char>,
    algorithms: Seq<Seq<char>>,
)
    requires
        same_ignoring_case(term, other),
    ensures
        resolved(term, algorithms) == resolved(other, algorithms),
{
    law_normalized_ignores_case(term, other);
    assert(exactly(term) =~= exactly(other));
    assert(loosely(term) =~= loosely(other));
}

/// A value that is there is one of the values.
pub proof fn lemma_in_present<T>(items: Seq<Option<T>>, k: int) -> (place: int)
    requires
        0 <= k < present(items).len(),
    ensures
        0 <= place < items.len(),
        items[place] == Some(present(items)[k]),
    decreases items.len(),
{
    let head = items.drop_last();
    if k < present(head).len() {
        lemma_in_present(head, k)
    } else {
        items.len() - 1
    }
}

/// A row of a listing page has a certificate and nothing of a policy.
pub open spec fn is_listed(row: RowView) -> bool {
    &&& row.module_certificate.len() > 0
    &&& row.policy_url.len() == 0
    &&& row.cavp_certificate.len() == 0
    &&& row.cavp_algorithm.len() == 0
    &&& row.operation.len() == 0
    &&& row.properties.len() == 0
    &&& !row.cavp_listed
    &&& row.iid_claim == IidClaim::Unknown
}

/// The rows of a page of modules have a certificate and nothing of a policy.
pub proof fn law_module_rows(table: Seq<Seq<CellView>>, i: int)
    requires
        0 <= i < module_rows(table).len(),
    ensures
        is_listed(module_rows(table)[i]),
{
    let items = table.map_values(|cells: Seq<CellView>| module_row(cells));
    let k = lemma_in_present(items, i);
    assert(items[k] == module_row(table[k]));
}

/// The rows of a page of entropy sources have a certificate, no policy and no
/// known claim.
pub proof fn law_entropy_rows(table: Seq<Seq<CellView>>, i: int)
    requires
        0 <= i < entropy_rows(table).len(),
    ensures
        is_listed(entropy_rows(table)[i]),
{
    let items = table.map_values(|cells: Seq<CellView>| entropy_row(cells));
    let k = lemma_in_present(items, i);
    assert(items[k] == entropy_row(table[k]));
}

/// There is a row for each cached certificate page of a module, and the rows
/// stand in descending order of certificates.
pub proof fn law_module_catalog(pages: Seq<(Seq<char>, Seq<char>)>)
    ensures
        module_catalog(pages) matches Ok(rows) ==> is_descending(rows) && rows.len()
            == pages.len(),
{
    broadcast use vstd::seq_lib::group_to_multiset_ensures;

    let items = pages.map_values(
        |page: (Seq<char>, Seq<char>)| module_certificate_page(page.1, page.0),
    );
    lemma_collected_items(items);
    if collected(items) is Ok {
        let rows = collected(items)->Ok_0;
        law_descending_sorts(rows);
        assert(rows.to_multiset().len() == rows.len());
        assert(descending(rows).to_multiset().len() == descending(rows).len());
    }
}

/// There is a row for each cached certificate page of an entropy source, and
/// the rows stand in descending order of certificates.
pub proof fn law_entropy_catalog(pages: Seq<(Seq<char>, Seq<char>)>)
    ensures
        entropy_catalog(pages) matches Ok(rows) ==> is_descending(rows) && rows.len()
            == pages.len(),
{
    broadcast use vstd::seq_lib::group_to_multiset_ensures;

    let items = pages.map_values(
        |page: (Seq<char>, Seq<char>)| entropy_certificate_page(page.1, page.0),
    );
    lemma_collected_items(items);
    if collected(items) is Ok {
        let rows = collected(items)->Ok_0;
        law_descending_sorts(rows);
        assert(rows.to_multiset().len() == rows.len());
        assert(descending(rows).to_multiset().len() == descending(rows).len());
    }
}

/// A text holds another: it is the other with something before and after it.
pub open spec fn holds(text: Seq<char>, part: Seq<char>) -> bool {
    exists|before: Seq<char>, after: Seq<char>| #[trigger] (before + part + after) == text
}

/// A text holds what stands somewhere in it, and nothing else.
proof fn lemma_holds(text: Seq<char>, part: Seq<char>)
    ensures
        holds(text, part) == occurs_in(part, text),
{
    if occurs_in(part, text) {
        let i = choose|i: int| stands_at(part, text, i);
        let (before, after) = (text.take(i), text.skip(i + part.len()));
        assert(text.subrange(i, i + part.len()) == part);
        assert(before + part + after =~= text);
    }
    if holds(text, part) {
        let (before, after) = choose|before: Seq<char>, after: Seq<char>|
            #[trigger] (before + part + after) == text;
        let n = before.len() as int;
        assert((before + part + after).subrange(n, n + part.len()) =~= part);
        assert(stands_at(part, text, n));
    }
}

/// How often a text is among those that are kept.
proof fn lemma_filter_count<A>(s: Seq<A>, keep: spec_fn(A) -> bool, a: A)
    ensures
        s.filter(keep).to_multiset().count(a) == if keep(a) {
            s.to_multiset().count(a)
        } else {
            0
        },
    decreases s.len(),
{
    broadcast use vstd::seq_lib::group_to_multiset_ensures;

    if s.len() == 0 {
        reveal(Seq::filter);
    } else {
        let head = s.drop_last();
        let last = s.last();
        lemma_filter_count(head, keep, a);
        assert(s =~= head.push(last));
        lemma_filter_push(head, last, keep);
    }
}

/// Where no listed algorithm has the name of the term, the term means each
/// listed algorithm whose letters and digits hold those of the term, wherever
/// they stand, as often as it is listed, and no other. A term without letters
/// and digits means none.
pub proof fn law_loose_names_are_complete(
    term: Seq<char>,
    algorithms: Seq<Seq<char>>,
    algorithm: Seq<char>,
)
    requires
        forall|i: int|
            0 <= i < algorithms.len() ==> !same_ignoring_case(#[trigger] algorithms[i], term),
    ensures
        resolved(term, algorithms).to_multiset().count(algorithm) == if normalized(term).len() > 0
            && holds(normalized(algorithm), normalized(term)) {
            algorithms.to_multiset().count(algorithm)
        } else {
            0
        },
        normalized(term).len() > 0 && holds(normalized(algorithm), normalized(term))
            && algorithms.contains(algorithm) ==> resolved(term, algorithms).contains(algorithm),
{
    broadcast use vstd::seq_lib::group_to_multiset_ensures;

    law_loose_names_ascend(term, algorithms);
    lemma_holds(normalized(algorithm), normalized(term));
    lemma_filter_count(algorithms, loosely(term), algorithm);
    let found = resolved(term, algorithms);
    if algorithms.contains(algorithm) {
        assert(algorithms.to_multiset().count(algorithm) > 0);
    }
    if found.to_multiset().count(algorithm) > 0 {
        assert(found.contains(algorithm));
    }
}

/// Where a listed algorithm has the name of the term, the term means those
/// with that name, but for the case of ASCII letters, as often as each is
/// listed, and no other.
pub proof fn law_exact_names_are_complete(
    term: Seq<char>,
    algorithms: Seq<Seq<char>>,
    algorithm: Seq<char>,
    i: int,
)
    requires
        0 <= i < algorithms.len(),
        same_ignoring_case(algorithms[i], term),
    ensures
        resolved(term, algorithms).to_multiset().count(algorithm) == if same_ignoring_case(
            algorithm,
            term,
        ) {
            algorithms.to_multiset().count(algorithm)
        } else {
            0
        },
{
    law_exact_names_win(term, algorithms, i);
    lemma_filter_count(algorithms, exactly(term), algorithm);
}

/// The address of a link: itself with a scheme, and on the site without one.
pub proof fn law_absolute_addresses(href: Seq<char>)
    ensures
        absolute("http://"@ + href) == "http://"@ + href,
        absolute("https://"@ + href) == "https://"@ + href,
        absolute("/"@ + href) == "https://csrc.nist.gov/"@ + href,
{
    reveal_strlit("http://");
    reveal_strlit("https://");
    reveal_strlit("/");
    reveal_strlit("https://csrc.nist.gov");
    reveal_strlit("https://csrc.nist.gov/");
    let plain = "http://"@ + href;
    let secure = "https://"@ + href;
    assert("http://"@ =~= plain.take(7));
    assert("https://"@ =~= secure.take(8));
    let path = "/"@ + href;
    assert(path[0] == '/');
    if "http://"@.is_prefix_of(path) {
        assert("http://"@[0] == path.take(7)[0]);
    }
    if "https://"@.is_prefix_of(path) {
        assert("https://"@[0] == path.take(8)[0]);
    }
    assert("https://csrc.nist.gov"@ + path =~= "https://csrc.nist.gov/"@ + href);
}

/// What the form is asked for a term: its own value for an algorithm that it
/// knows by the term in lower case, and the term as it stands for another.
pub proof fn law_fields_of_the_form(term: Seq<char>, options: Map<Seq<char>, Seq<char>>)
    requires
        trimmed(term).len() > 0,
    ensures
        term_field(term, options) == Ok::<(Seq<char>, Seq<char>), ErrorView>(
            if options.dom().contains(lowercased(trimmed(term))) {
                ("Algorithm"@, options[lowercased(trimmed(term))])
            } else {
                ("OtherAlgorithms"@, trimmed(term))
            },
        ),
{
}

/// One more option of the form goes by its trimmed value and by its text, in
/// lower case; without a value it changes nothing, and other names keep what
/// they stand for.
pub proof fn law_one_more_option(
    elements: Seq<ElementView>,
    texts: Seq<Seq<char>>,
    value: Option<Seq<char>>,
    name: Seq<char>,
)
    ensures
        ({
            let before = offered(elements);
            let after = offered(elements.push((texts, value)));
            let kept = match value {
                Some(value) => trimmed(value),
                None => Seq::<char>::empty(),
            };
            let text = collapsed(texts.flatten());
            if kept.len() > 0 && (name == lowercased(kept) || (text.len() > 0 && name
                == lowercased(text))) {
                after.dom().contains(name) && after[name] == kept
            } else {
                after.dom().contains(name) == before.dom().contains(name) && (
                before.dom().contains(name) ==> after[name] == before[name])
            }
        }),
{
    assert(elements.push((texts, value)).drop_last() =~= elements);
}

/// Where the modules of a status are listed, and what that page is asked.
pub proof fn law_status_listings(status: Seq<char>)
    ensures
        status == "Active"@ ==> status_listing(status).0
            == "https://csrc.nist.gov/projects/cryptographic-module-validation-program/validated-modules/search/all"@
            && status_listing(status).1.len() == 0,
        status != "Active"@ ==> status_listing(status).0
            == "https://csrc.nist.gov/projects/cryptographic-module-validation-program/validated-modules/search"@
            && status_listing(status).1.len() == 2 && status_listing(status).1[0] == (
            "SearchMode"@,
            "Advanced"@,
        ) && status_listing(status).1[1].0 == "CertificateStatus"@ && status_listing(
            status,
        ).1[1].1 == if status == "Historical"@ {
            "Historical"@
        } else {
            "Revoked"@
        },
{
}

/// The words of a cell.
pub open spec fn cell_words(cell: CellView) -> Seq<char> {
    collapsed(cell.0.0.flatten())
}

/// The words of the first link of a cell.
pub open spec fn link_words(cell: CellView) -> Seq<char> {
    if cell.1.len() > 0 {
        collapsed(cell.1[0].0.flatten())
    } else {
        Seq::<char>::empty()
    }
}

/// The address of the first link of a cell.
pub open spec fn link_target(cell: CellView) -> Seq<char> {
    if cell.1.len() > 0 && cell.1[0].1 is Some {
        absolute(cell.1[0].1->Some_0)
    } else {
        Seq::<char>::empty()
    }
}

/// A table row of modules with five cells or more, and a text in the first
/// link of the first, is a row: the certificate with its address, the vendor,
/// the name, the type and the date. Another is none.
pub proof fn law_cells_of_modules(cells: Seq<CellView>)
    ensures
        module_row(cells) is Some <==> cells.len() >= 5 && link_words(cells[0]).len() > 0,
        module_row(cells) matches Some(row) ==> {
            &&& row.module_certificate == link_words(cells[0])
            &&& row.certificate_url == link_target(cells[0])
            &&& row.vendor == cell_words(cells[1])
            &&& row.module_name == cell_words(cells[2])
            &&& row.module_type == cell_words(cells[3])
            &&& row.validation_date == cell_words(cells[4])
        },
{
}

/// A table row of entropy sources with four cells or more, and a text in the
/// first link of the third, is a row: the vendor, the name, the certificate
/// with its address, and the date. Another is none.
pub proof fn law_cells_of_sources(cells: Seq<CellView>)
    ensures
        entropy_row(cells) is Some <==> cells.len() >= 4 && link_words(cells[2]).len() > 0,
        entropy_row(cells) matches Some(row) ==> {
            &&& row.module_certificate == link_words(cells[2])
            &&& row.certificate_url == link_target(cells[2])
            &&& row.vendor == cell_words(cells[0])
            &&& row.module_name == cell_words(cells[1])
            &&& row.validation_date == cell_words(cells[3])
            &&& row.module_type.len() == 0
        },
{
}

/// One more row of a table adds what it tells of at the end.
pub proof fn law_one_more_table_row(table: Seq<Seq<CellView>>, cells: Seq<CellView>)
    ensures
        module_rows(table.push(cells)) == match module_row(cells) {
            Some(row) => module_rows(table).push(row),
            None => module_rows(table),
        },
        entropy_rows(table.push(cells)) == match entropy_row(cells) {
            Some(row) => entropy_rows(table).push(row),
            None => entropy_rows(table),
        },
{
    let modules = |cells: Seq<CellView>| module_row(cells);
    let sources = |cells: Seq<CellView>| entropy_row(cells);
    assert(table.push(cells).map_values(modules).drop_last() =~= table.map_values(modules));
    assert(table.push(cells).map_values(sources).drop_last() =~= table.map_values(sources));
}

/// A page says its message where it has one, though it be empty, and its error
/// otherwise.
pub proof fn law_messages_come_before_errors(
    messages: Seq<ElementView>,
    errors: Seq<ElementView>,
)
    ensures
        page_message(messages, errors) == if messages.len() > 0 {
            collapsed(messages[0].0.flatten())
        } else if errors.len() > 0 {
            collapsed(errors[0].0.flatten())
        } else {
            Seq::<char>::empty()
        },
{
}

/// A listing without rows is refused, but for that of revoked modules; another
/// is left as it is.
pub proof fn law_listings_are_checked(status: Seq<char>, rows: Seq<RowView>)
    ensures
        checked_catalog(status, rows) == if rows.len() > 0 || status == "Revoked"@ {
            Ok::<Seq<RowView>, ErrorView>(rows)
        } else {
            Err(ErrorView::EmptyListing(status))
        },
{
}

/// The texts of the active algorithms, their words parted by one space, stand
/// in order, without empty ones; there must be one.
pub proof fn law_one_more_algorithm(elements: Seq<ElementView>, element: ElementView)
    ensures
        ({
            let text = collapsed(element.0.flatten());
            filled_texts(elements.push(element)) == if text.len() > 0 {
                filled_texts(elements).push(text)
            } else {
                filled_texts(elements)
            }
        }),
        checked_algorithms(elements) is Ok <==> filled_texts(elements).len() > 0,
        checked_algorithms(elements) matches Ok(texts) ==> texts == filled_texts(elements),
{
    let words = |element: ElementView| element_text(element);
    let filled = |text: Seq<char>| text.len() > 0;
    assert(elements.push(element).map_values(words) =~= elements.map_values(words).push(
        element_text(element),
    ));
    lemma_filter_push(elements.map_values(words), element_text(element), filled);
}

/// The certificate of a page is what follows the prefix in the first heading
/// that begins with it, trimmed, and the fallback where none does.
pub proof fn law_certificates_of_headings(
    headings: Seq<ElementView>,
    prefix: Seq<char>,
    fallback: Seq<char>,
    i: int,
    rest: Seq<char>,
)
    requires
        0 <= i <= headings.len(),
        forall|k: int|
            0 <= k < i ==> !prefix.is_prefix_of(collapsed((#[trigger] headings[k]).0.flatten())),
        i < headings.len() ==> collapsed(headings[i].0.flatten()) == prefix + rest,
    ensures
        certificate_in(headings, prefix, fallback) == if i < headings.len() {
            trimmed(rest)
        } else {
            fallback
        },
    decreases i,
{
    if i < headings.len() && i == 0 {
        assert((prefix + rest).skip(prefix.len() as int) =~= rest);
        assert((prefix + rest).take(prefix.len() as int) =~= prefix);
    } else if headings.len() > 0 {
        let others = headings.drop_first();
        assert(!prefix.is_prefix_of(collapsed(headings[0].0.flatten())));
        assert forall|k: int| 0 <= k < i - 1 implies !prefix.is_prefix_of(
            collapsed((#[trigger] others[k]).0.flatten()),
        ) by {
            assert(others[k] == headings[k + 1]);
        }
        law_certificates_of_headings(others, prefix, fallback, i - 1, rest);
    }
}

/// Of the panels with a title the last one counts.
pub proof fn law_the_last_panel_counts(
    titles: Seq<Seq<ElementView>>,
    title: Seq<char>,
    i: int,
)
    requires
        -1 <= i < titles.len(),
        i >= 0 ==> first_text(titles[i]) == title,
        forall|k: int| i < k < titles.len() ==> first_text(#[trigger] titles[k]) != title,
    ensures
        titled(titles, title) == if i >= 0 {
            Some(i)
        } else {
            None::<int>
        },
    decreases titles.len(),
{
    if titles.len() > 0 && i < titles.len() - 1 {
        let head = titles.drop_last();
        assert(titles.last() == titles[titles.len() - 1]);
        assert forall|k: int| i < k < head.len() implies first_text(#[trigger] head[k]) != title by {
            assert(head[k] == titles[k]);
        }
        law_the_last_panel_counts(head, title, i);
    }
}

/// Of the details with a label and a value the last one counts.
pub proof fn law_one_more_detail(
    details: Seq<Seq<ElementView>>,
    columns: Seq<ElementView>,
    label: Seq<char>,
)
    ensures
        detail(details.push(columns), label) == if columns.len() >= 2 && collapsed(
            columns[0].0.flatten(),
        ) == label {
            collapsed(columns[1].0.flatten())
        } else {
            detail(details, label)
        },
        detail(Seq::<Seq<ElementView>>::empty(), label) == Seq::<char>::empty(),
{
    assert(details.push(columns).drop_last() =~= details);
}

/// The first text with something but white space in it, trimmed.
pub proof fn law_first_filled_text(texts: Seq<Seq<char>>, i: int)
    requires
        0 <= i <= texts.len(),
        forall|k: int| 0 <= k < i ==> trimmed(#[trigger] texts[k]).len() == 0,
        i < texts.len() ==> trimmed(texts[i]).len() > 0,
    ensures
        first_filled(texts) == if i < texts.len() {
            trimmed(texts[i])
        } else {
            Seq::<char>::empty()
        },
    decreases i,
{
    if texts.len() > 0 && i > 0 {
        let others = texts.drop_first();
        assert(trimmed(texts[0]).len() == 0);
        assert forall|k: int| 0 <= k < i - 1 implies trimmed(#[trigger] others[k]).len() == 0 by {
            assert(others[k] == texts[k + 1]);
        }
        law_first_filled_text(others, i - 1);
    }
}

/// The row of a certificate page of a module, from its headings, its panels
/// and its details.
pub proof fn law_module_certificates(
    headings: Seq<ElementView>,
    names: Seq<ElementView>,
    dates: Seq<ElementView>,
    titles: Seq<Seq<ElementView>>,
    bodies: Seq<Seq<CellView>>,
    details: Seq<Seq<ElementView>>,
    fallback: Seq<char>,
)
    ensures
        ({
            let row = module_certificate_row(
                headings,
                names,
                dates,
                titles,
                bodies,
                details,
                fallback,
            );
            &&& row.module_certificate == certificate_in(headings, "Certificate #"@, fallback)
            &&& row.certificate_url
                == "https://csrc.nist.gov"@ + "/projects/cryptographic-module-validation-program/certificate/"@
                + row.module_certificate
            &&& row.module_name == (if names.len() > 0 {
                collapsed(names[0].0.flatten())
            } else {
                Seq::<char>::empty()
            })
            &&& row.validation_date == (if dates.len() > 0 {
                collapsed(dates[0].0.flatten())
            } else {
                Seq::<char>::empty()
            })
            &&& row.module_type == detail(details, "Module Type"@)
            &&& row.vendor == vendor_of(titles, bodies)
            &&& row.policy_url == related_link(titles, bodies)
            &&& row.cavp_algorithm.len() == 0
            &&& row.cavp_certificate.len() == 0
            &&& !row.cavp_listed
        }),
{
}

/// The first text in the first body of the last panel titled "Vendor".
pub open spec fn vendor_of(titles: Seq<Seq<ElementView>>, bodies: Seq<Seq<CellView>>) -> Seq<
    char,
> {
    match titled(titles, "Vendor"@) {
        Some(i) => if bodies[i].len() > 0 {
            first_filled(bodies[i][0].0.0)
        } else {
            Seq::<char>::empty()
        },
        None => Seq::<char>::empty(),
    }
}

/// The first link in the first body of the last panel titled "Related Files".
pub open spec fn related_link(
    titles: Seq<Seq<ElementView>>,
    bodies: Seq<Seq<CellView>>,
) -> Seq<char> {
    match titled(titles, "Related Files"@) {
        Some(i) => if bodies[i].len() > 0 {
            link_target(bodies[i][0])
        } else {
            Seq::<char>::empty()
        },
        None => Seq::<char>::empty(),
    }
}

/// The row of a certificate page of an entropy source, from its headings, its
/// panels and its details. Its address has the number without the letter E
/// before it.
pub proof fn law_entropy_certificates(
    headings: Seq<ElementView>,
    dates: Seq<ElementView>,
    titles: Seq<Seq<ElementView>>,
    bodies: Seq<Seq<CellView>>,
    details: Seq<Seq<ElementView>>,
    fallback: Seq<char>,
)
    ensures
        ({
            let row = entropy_certificate_row(headings, dates, titles, bodies, details, fallback);
            &&& row.module_certificate == certificate_in(
                headings,
                "Entropy Certificate #"@,
                fallback,
            )
            &&& row.validation_date == (if dates.len() > 0 {
                collapsed(dates[0].0.flatten())
            } else {
                Seq::<char>::empty()
            })
            &&& row.vendor == vendor_of(titles, bodies)
            &&& row.entropy_document_url == related_link(titles, bodies)
            &&& row.module_name == detail(details, "Implementation Name"@)
            &&& row.esv_standard == detail(details, "Standard"@)
            &&& row.esv_description == detail(details, "Description"@)
            &&& row.esv_noise_source == detail(details, "Noise Source Classification"@)
            &&& row.esv_reuse_status == detail(details, "Reuse Status"@)
            &&& row.iid_claim == IidClaim::Unknown
        }),
{
}

/// The address of an entropy certificate ends with what follows the letters E
/// that its number begins with.
pub proof fn law_entropy_addresses(
    headings: Seq<ElementView>,
    dates: Seq<ElementView>,
    titles: Seq<Seq<ElementView>>,
    bodies: Seq<Seq<CellView>>,
    details: Seq<Seq<ElementView>>,
    fallback: Seq<char>,
    n: int,
)
    requires
        ({
            let number = certificate_in(headings, "Entropy Certificate #"@, fallback);
            &&& 0 <= n <= number.len()
            &&& forall|k: int| 0 <= k < n ==> #[trigger] number[k] == 'E'
            &&& n < number.len() ==> number[n] != 'E'
        }),
    ensures
        entropy_certificate_row(
            headings,
            dates,
            titles,
            bodies,
            details,
            fallback,
        ).certificate_url
            == "https://csrc.nist.gov"@ + "/projects/cryptographic-module-validation-program/entropy-validations/certificate/"@
            + certificate_in(headings, "Entropy Certificate #"@, fallback).skip(n),
{
    reveal_strlit("E");
    let number = certificate_in(headings, "Entropy Certificate #"@, fallback);
    assert("E"@.contains('E')) by {
        assert("E"@[0] == 'E');
    }
    law_leading_characters(number, "E"@, n);
}

/// A text without the leading characters of a set begins at the first that is
/// not in the set.
pub proof fn law_leading_characters(s: Seq<char>, set: Seq<char>, n: int)
    requires
        0 <= n <= s.len(),
        forall|k: int| 0 <= k < n ==> set.contains(#[trigger] s[k]),
        n < s.len() ==> !set.contains(s[n]),
    ensures
        without_leading(s, set) == s.skip(n),
    decreases n,
{
    if n > 0 {
        let rest = s.drop_first();
        assert(set.contains(s[0]));
        assert forall|k: int| 0 <= k < n - 1 implies set.contains(#[trigger] rest[k]) by {
            assert(rest[k] == s[k + 1]);
        }
        law_leading_characters(rest, set, n - 1);
        assert(rest.skip(n - 1) =~= s.skip(n));
    } else {
        assert(s.skip(0) =~= s);
    }
}

/// Where on the pages of the site what is read of them stands.
pub proof fn law_places_on_listing_pages(html: Seq<char>)
    ensures
        page_options(html) is Ok ==> page_options(html) == checked_options(
            selection(html, "#Algorithm option"@, "value"@),
        ),
        page_algorithms(html) is Ok ==> page_algorithms(html) == checked_algorithms(
            selection(html, "#search-algorithm optgroup[label=\"Active\"] option"@, ""@),
        ),
        results_page(html) matches Ok(page) ==> {
            &&& page.0 == module_rows(
                selection_of_pairs(
                    html,
                    "#searchResultsTable tbody tr"@,
                    "td"@,
                    "a"@,
                    "href"@,
                ),
            )
            &&& page.1 == page_message(
                selection(html, "p#resultsMessage"@, "href"@),
                selection(html, "p#errorMessage"@, "href"@),
            )
        },
        esv_results_page(html) matches Ok(rows) ==> rows == entropy_rows(
            selection_of_pairs(html, "#searchResultsTable tbody tr"@, "td"@, "a"@, "href"@),
        ),
{
}

/// Where on a certificate page what is read of it stands.
pub proof fn law_places_on_certificate_pages(html: Seq<char>, fallback: Seq<char>)
    ensures
        module_certificate_page(html, fallback) matches Ok(row) ==> row == module_certificate_row(
            selection(html, "h3"@, "href"@),
            selection(html, "#module-name"@, "href"@),
            selection(html, "#validation-history-table tbody tr td.text-nowrap"@, "href"@),
            selection_within(html, "div.panel.panel-default"@, "h4.panel-title"@, "href"@),
            selection_of_pairs(
                html,
                "div.panel.panel-default"@,
                "div.panel-body"@,
                "a"@,
                "href"@,
            ),
            selection_within(html, "div.row.padrow"@, "div.col-md-3, div.col-md-9"@, "href"@),
            fallback,
        ),
        entropy_certificate_page(html, fallback) matches Ok(row) ==> row
            == entropy_certificate_row(
            selection(html, "h3"@, "href"@),
            selection(html, "#validation-history-table tbody tr td.text-nowrap"@, "href"@),
            selection_within(html, "div.panel.panel-default"@, "h4.panel-title"@, "href"@),
            selection_of_pairs(
                html,
                "div.panel.panel-default"@,
                "div.panel-body"@,
                "a"@,
                "href"@,
            ),
            selection_within(html, "div.row.padrow"@, "div.col-md-3, div.col-md-9"@, "href"@),
            fallback,
        ),
{
}

/// The rows of a listing page are those of its table, and a page without rows
/// is refused, but for that of revoked modules.
pub proof fn law_status_pages(status: Seq<char>, html: Seq<char>)
    ensures
        status_page(status, html) == match results_page(html) {
            Ok(page) => if page.0.len() > 0 || status == "Revoked"@ {
                Ok::<Seq<RowView>, ErrorView>(page.0)
            } else {
                Err(ErrorView::EmptyListing(status))
            },
            Err(error) => Err(error),
        },
{
}

/// A page is read wherever the selectors parse, whatever it holds; an empty
/// list of algorithms alone is refused.
pub proof fn law_listing_pages_are_read(html: Seq<char>)
    requires
        selector_parses("#Algorithm option"@),
        selector_parses("#search-algorithm optgroup[label=\"Active\"] option"@),
        selector_parses("p#resultsMessage"@),
        selector_parses("p#errorMessage"@),
        selector_parses("#searchResultsTable tbody tr"@),
        selector_parses("td"@),
        selector_parses("a"@),
    ensures
        results_page(html) is Ok,
        esv_results_page(html) is Ok,
        page_options(html) == checked_options(selection(html, "#Algorithm option"@, "value"@)),
        page_algorithms(html) == checked_algorithms(
            selection(html, "#search-algorithm optgroup[label=\"Active\"] option"@, ""@),
        ),
{
    reveal_with_fuel(selectors_checked, 7);
}

/// A certificate page is read wherever the selectors parse, whatever it holds.
pub proof fn law_certificate_pages_are_read(html: Seq<char>, fallback: Seq<char>)
    requires
        selector_parses("h3"@),
        selector_parses("#module-name"@),
        selector_parses("div.panel.panel-default"@),
        selector_parses("h4.panel-title"@),
        selector_parses("div.panel-body"@),
        selector_parses("a"@),
        selector_parses("div.row.padrow"@),
        selector_parses("div.col-md-3, div.col-md-9"@),
        selector_parses("#validation-history-table tbody tr td.text-nowrap"@),
    ensures
        module_certificate_page(html, fallback) is Ok,
        entropy_certificate_page(html, fallback) is Ok,
{
    reveal_with_fuel(selectors_checked, 11);
}

/// The list of algorithms of the form is refused if and only if it has none
/// with a value.
pub proof fn law_options_are_checked(elements: Seq<ElementView>)
    ensures
        checked_options(elements) is Ok ==> checked_options(elements) == Ok::<
            Map<Seq<char>, Seq<char>>,
            ErrorView,
        >(offered(elements)),
        (exists|i: int|
            0 <= i < elements.len() && ((#[trigger] elements[i]).1 matches Some(value) && trimmed(
                value,
            ).len() > 0)) ==> checked_options(elements) is Ok,
{
    if exists|i: int|
        0 <= i < elements.len() && ((#[trigger] elements[i]).1 matches Some(value) && trimmed(
            value,
        ).len() > 0) {
        let i = choose|i: int|
            0 <= i < elements.len() && ((#[trigger] elements[i]).1 matches Some(value) && trimmed(
                value,
            ).len() > 0);
        law_options_go_by_value_and_text(elements, i);
        let name = lowercased(trimmed(elements[i].1->Some_0));
        assert(offered(elements).dom().contains(name));
        assert(!Map::<Seq<char>, Seq<char>>::empty().dom().contains(name));
    }
}

/// The words for the claims and for the filters; a filter keeps a claim if and
/// only if it has the word of the claim, or the word for any.
pub proof fn law_words_for_claims(claim: IidClaim, filter: IidClaimFilter)
    ensures
        claim == IidClaim::Iid ==> claim_word(claim) == "iid"@,
        claim == IidClaim::NonIid ==> claim_word(claim) == "non-iid"@,
        claim == IidClaim::Unknown ==> claim_word(claim) == "unknown"@,
        filter == IidClaimFilter::Any ==> filter_word(filter) == "any"@,
        filter == IidClaimFilter::Iid ==> filter_word(filter) == "iid"@,
        filter == IidClaimFilter::NonIid ==> filter_word(filter) == "non-iid"@,
        filter == IidClaimFilter::Unknown ==> filter_word(filter) == "unknown"@,
        keeps(filter, claim) <==> filter_word(filter) == "any"@ || filter_word(filter)
            == claim_word(claim),
{
    reveal_strlit("any");
    reveal_strlit("iid");
    reveal_strlit("non-iid");
    reveal_strlit("unknown");
    assert("any"@[0] == 'a' && "iid"@[0] == 'i' && "non-iid"@[0] == 'n' && "unknown"@[0] == 'u');
}

/// The sentences that tell of errors, and what lies behind them.
pub proof fn law_error_sentences(text: Seq<char>)
    ensures
        error_sentence(ErrorView::InvalidSelector(text)) == "invalid selector: "@ + text,
        error_sentence(ErrorView::InvalidTerm(text)) == "failed to compile term regex"@,
        error_cause(ErrorView::InvalidTerm(text)) == Some(text),
        error_sentence(ErrorView::InvalidPattern(text)) == text,
        error_cause(ErrorView::InvalidPattern(text)) is None,
        error_cause(ErrorView::InvalidSelector(text)) is None,
        error_sentence(ErrorView::EmptyAlgorithm) == "algorithm names must not be empty"@,
        error_sentence(ErrorView::NoAlgorithmOptions) == "could not parse the CMVP algorithm list"@,
        error_sentence(ErrorView::NoActiveAlgorithms)
            == "could not parse the CAVP active algorithm list"@,
        error_sentence(ErrorView::EmptyListing(text)) == "could not parse any certificates from the "@
            + text + " listing page"@,
        error_sentence(ErrorView::EmptyEsvListing)
            == "could not parse any certificates from the ESV listing page"@,
{
}

/// The rows of cached certificate pages are those that the pages give, each
/// with the number of its file to fall back on, where each page can be read.
pub proof fn law_cached_pages_have_rows(pages: Seq<(Seq<char>, Seq<char>)>, i: int)
    requires
        0 <= i < pages.len(),
    ensures
        module_catalog(pages) matches Ok(rows) ==> (module_certificate_page(
            pages[i].1,
            pages[i].0,
        ) matches Ok(row) && rows.contains(row)),
        entropy_catalog(pages) matches Ok(rows) ==> (entropy_certificate_page(
            pages[i].1,
            pages[i].0,
        ) matches Ok(row) && rows.contains(row)),
{
    broadcast use vstd::seq_lib::group_to_multiset_ensures;

    let modules = pages.map_values(
        |page: (Seq<char>, Seq<char>)| module_certificate_page(page.1, page.0),
    );
    let sources = pages.map_values(
        |page: (Seq<char>, Seq<char>)| entropy_certificate_page(page.1, page.0),
    );
    lemma_collected_items(modules);
    lemma_collected_items(sources);
    assert(modules[i] == module_certificate_page(pages[i].1, pages[i].0));
    assert(sources[i] == entropy_certificate_page(pages[i].1, pages[i].0));
    if collected(modules) is Ok {
        let rows = collected(modules)->Ok_0;
        law_descending_sorts(rows);
        assert(rows.contains(rows[i]));
        assert(rows.to_multiset().count(rows[i]) > 0);
        assert(descending(rows).to_multiset().count(rows[i]) > 0);
    }
    if collected(sources) is Ok {
        let rows = collected(sources)->Ok_0;
        law_descending_sorts(rows);
        assert(rows.contains(rows[i]));
        assert(rows.to_multiset().count(rows[i]) > 0);
        assert(descending(rows).to_multiset().count(rows[i]) > 0);
    }
}

/// Cached certificate pages that can all be read have rows.
pub proof fn law_readable_pages_make_catalogs(pages: Seq<(Seq<char>, Seq<char>)>)
    ensures
        (forall|i: int|
            0 <= i < pages.len() ==> module_certificate_page(
                (#[trigger] pages[i]).1,
                pages[i].0,
            ) is Ok) ==> module_catalog(pages) is Ok,
        (forall|i: int|
            0 <= i < pages.len() ==> entropy_certificate_page(
                (#[trigger] pages[i]).1,
                pages[i].0,
            ) is Ok) ==> entropy_catalog(pages) is Ok,
{
    let modules = pages.map_values(
        |page: (Seq<char>, Seq<char>)| module_certificate_page(page.1, page.0),
    );
    let sources = pages.map_values(
        |page: (Seq<char>, Seq<char>)| entropy_certificate_page(page.1, page.0),
    );
    if collected(modules) is Err {
        let i = lemma_collected_from(modules);
        assert(modules[i] == module_certificate_page(pages[i].1, pages[i].0));
    }
    if collected(sources) is Err {
        let i = lemma_collected_from(sources);
        assert(sources[i] == entropy_certificate_page(pages[i].1, pages[i].0));
    }
}

} // verus!
