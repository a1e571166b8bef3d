//! Laws of the search for entropy sources.

use crate::certificates::entropy_certificate_page;
use crate::esv::{
    NARRATIVE_PATTERN, STRUCTURED_PATTERN, certificate_of, claim_kept, claim_unknown,
    document_claim, document_of, enriched, esv_catalog, esv_outcome, filled, is_document,
};
use crate::models::{ErrorView, IidClaim, IidClaimFilter, OutputKind, RowView, keeps};
use crate::patterns::{first_group, regex_compiles};
use crate::policy_laws::lemma_filter_twice;
use crate::rows::{
    deduped, descending, has_key, is_descending, law_deduped_idempotent, law_deduped_in_order,
    law_deduped_keeps_first, law_deduped_keeps_keys, law_descending_sorts, law_descending_stable,
    row_key, same_entry, with_certificate,
};
use crate::text::{
    ascii_lower, ascii_lowered, byte_slice, decimal, lemma_filter_push, pages_as_lines, text_le,
    trimmed,
};
use vstd::prelude::*;
use vstd::string::*;

verus! {

/// What an entropy search finds stands in descending order of certificates,
/// and is what the filter keeps of the classified rows, each as often.
pub proof fn law_esv_outcome(rows: Seq<RowView>, filter: IidClaimFilter)
    ensures
        is_descending(esv_outcome(rows, filter).rows),
        esv_outcome(rows, filter).rows.to_multiset() == rows.filter(
            claim_kept(filter),
        ).to_multiset(),
{
    law_descending_sorts(rows.filter(claim_kept(filter)));
}

/// Each row that an entropy search finds has a claim that the filter keeps.
pub proof fn law_esv_outcome_is_filtered(rows: Seq<RowView>, filter: IidClaimFilter, i: int)
    requires
        0 <= i < esv_outcome(rows, filter).rows.len(),
    ensures
        keeps(filter, esv_outcome(rows, filter).rows[i].iid_claim),
        rows.contains(esv_outcome(rows, filter).rows[i]),
{
    broadcast use {vstd::seq_lib::group_filter_ensures, vstd::seq_lib::group_to_multiset_ensures};

    let kept = rows.filter(claim_kept(filter));
    let found = descending(kept)[i];
    law_descending_sorts(kept);
    assert(descending(kept).contains(found));
    assert(descending(kept).to_multiset().count(found) > 0);
    assert(kept.to_multiset().count(found) > 0);
    assert(kept.contains(found));
    let k = choose|k: int| 0 <= k < kept.len() && kept[k] == found;
    assert(claim_kept(filter)(kept[k]));
    rows.lemma_filter_contains_rev(claim_kept(filter), found);
}

/// How many rows a filter keeps.
pub open spec fn count_kept(rows: Seq<RowView>, filter: IidClaimFilter) -> nat {
    rows.filter(claim_kept(filter)).len()
}

/// The filters for one claim part the rows: together they keep as many as the
/// filter for any claim, which keeps them all.
pub proof fn law_filters_part_the_rows(rows: Seq<RowView>)
    ensures
        count_kept(rows, IidClaimFilter::Any) == rows.len(),
        count_kept(rows, IidClaimFilter::Iid) + count_kept(rows, IidClaimFilter::NonIid)
            + count_kept(rows, IidClaimFilter::Unknown) == rows.len(),
        count_kept(rows, IidClaimFilter::Unknown) == rows.filter(claim_unknown()).len(),
    decreases rows.len(),
{
    if rows.len() > 0 {
        let head = rows.drop_last();
        let last = rows.last();
        law_filters_part_the_rows(head);
        assert(rows =~= head.push(last));
        lemma_filter_push(head, last, claim_kept(IidClaimFilter::Any));
        lemma_filter_push(head, last, claim_kept(IidClaimFilter::Iid));
        lemma_filter_push(head, last, claim_kept(IidClaimFilter::NonIid));
        lemma_filter_push(head, last, claim_kept(IidClaimFilter::Unknown));
        lemma_filter_push(head, last, claim_unknown());
    } else {
        reveal(Seq::filter);
    }
}

/// The filters for one claim part the rows: what they keep, taken together, is
/// what the filter for any claim keeps, each row as often.
pub proof fn law_filters_part_each_row(rows: Seq<RowView>)
    ensures
        rows.filter(claim_kept(IidClaimFilter::Any)).to_multiset() == rows.filter(
            claim_kept(IidClaimFilter::Iid),
        ).to_multiset().add(
            rows.filter(claim_kept(IidClaimFilter::NonIid)).to_multiset(),
        ).add(rows.filter(claim_kept(IidClaimFilter::Unknown)).to_multiset()),
        rows.filter(claim_kept(IidClaimFilter::Any)) == rows,
    decreases rows.len(),
{
    broadcast use vstd::seq_lib::group_to_multiset_ensures;

    let any = rows.filter(claim_kept(IidClaimFilter::Any)).to_multiset();
    let iid = rows.filter(claim_kept(IidClaimFilter::Iid)).to_multiset();
    let non_iid = rows.filter(claim_kept(IidClaimFilter::NonIid)).to_multiset();
    let unknown = rows.filter(claim_kept(IidClaimFilter::Unknown)).to_multiset();
    if rows.len() > 0 {
        let head = rows.drop_last();
        let last = rows.last();
        law_filters_part_each_row(head);
        assert(rows =~= head.push(last));
        lemma_filter_push(head, last, claim_kept(IidClaimFilter::Any));
        lemma_filter_push(head, last, claim_kept(IidClaimFilter::Iid));
        lemma_filter_push(head, last, claim_kept(IidClaimFilter::NonIid));
        lemma_filter_push(head, last, claim_kept(IidClaimFilter::Unknown));
        assert(any =~= iid.add(non_iid).add(unknown));
    } else {
        reveal(Seq::filter);
        assert(rows.filter(claim_kept(IidClaimFilter::Any)) =~= rows);
        assert(any =~= iid.add(non_iid).add(unknown));
    }
}

/// A document in which neither pattern finds a track makes no known claim.
pub proof fn law_no_track_no_claim(pdf_text: Seq<char>)
    requires
        regex_compiles(STRUCTURED_PATTERN@),
        regex_compiles(NARRATIVE_PATTERN@),
        first_group(STRUCTURED_PATTERN@, pages_as_lines(pdf_text), 1) is None,
        first_group(NARRATIVE_PATTERN@, pages_as_lines(pdf_text), 1) is None,
    ensures
        document_claim(pdf_text) == Ok::<IidClaim, ErrorView>(IidClaim::Unknown),
{
}

/// A document with its form feeds made line feeds makes the same claim.
pub proof fn law_form_feeds_do_not_change_the_claim(pdf_text: Seq<char>)
    ensures
        document_claim(pages_as_lines(pdf_text)) == document_claim(pdf_text),
{
    assert(pages_as_lines(pages_as_lines(pdf_text)) =~= pages_as_lines(pdf_text));
}

/// The list of entropy sources stands in descending order of certificates,
/// and has each listed certificate once.
pub proof fn law_esv_catalog(rows: Seq<RowView>)
    ensures
        rows.len() > 0 <==> esv_catalog(rows) is Ok,
        esv_catalog(rows) matches Ok(catalog) ==> is_descending(catalog) && deduped(catalog)
            == catalog,
{
    let sorted = descending(rows);
    let places = law_deduped_in_order(sorted);
    law_descending_sorts(rows);
    let catalog = deduped(sorted);
    assert forall|i: int, j: int| 0 <= i <= j < catalog.len() implies text_le(
        (#[trigger] catalog[j]).module_certificate,
        (#[trigger] catalog[i]).module_certificate,
    ) by {
        assert(sorted[places[i]] == catalog[i] && sorted[places[j]] == catalog[j]);
        assert(places[i] <= places[j]);
    }
    law_deduped_idempotent(sorted);
}

/// The list of entropy sources loses no key of a listed row.
pub proof fn law_esv_catalog_keeps_keys(
    rows: Seq<RowView>,
    key: (Seq<char>, Seq<char>, Seq<char>, Seq<char>),
)
    requires
        rows.len() > 0,
    ensures
        esv_catalog(rows) matches Ok(catalog) && has_key(catalog, key) == has_key(rows, key),
{
    broadcast use vstd::seq_lib::group_to_multiset_ensures;

    let sorted = descending(rows);
    law_descending_sorts(rows);
    law_deduped_keeps_keys(sorted, key);
    if has_key(rows, key) {
        let i = choose|i: int| 0 <= i < rows.len() && row_key(#[trigger] rows[i]) == key;
        assert(rows.contains(rows[i]));
        assert(rows.to_multiset().count(rows[i]) > 0);
        assert(sorted.to_multiset().count(rows[i]) > 0);
        assert(sorted.contains(rows[i]));
        let k = choose|k: int| 0 <= k < sorted.len() && sorted[k] == rows[i];
        assert(row_key(sorted[k]) == key);
    }
    if has_key(sorted, key) {
        let i = choose|i: int| 0 <= i < sorted.len() && row_key(#[trigger] sorted[i]) == key;
        assert(sorted.contains(sorted[i]));
        assert(sorted.to_multiset().count(sorted[i]) > 0);
        assert(rows.to_multiset().count(sorted[i]) > 0);
        assert(rows.contains(sorted[i]));
        let k = choose|k: int| 0 <= k < rows.len() && rows[k] == sorted[i];
        assert(row_key(rows[k]) == key);
    }
}

/// A certificate whose page names no document, or whose document is out of
/// reach, has no known claim.
pub proof fn law_no_document_no_claim(
    html: Seq<char>,
    listed: RowView,
    pdf_text: Option<Seq<char>>,
)
    ensures
        certificate_of(Some(html), listed) matches Ok(row) ==> (pdf_text is None || !is_document(
            row.entropy_document_url,
        ) ==> (enriched(row, pdf_text) matches Ok(result) && result == row && result.iid_claim
            == IidClaim::Unknown)),
{
}

/// A certificate whose page is out of reach is told of by its row in the list.
pub proof fn law_missing_pages_leave_the_row(listed: RowView)
    ensures
        certificate_of(None, listed) matches Ok(row) && row == listed,
{
}

/// The claim of a document changes nothing but the claim of the row.
pub proof fn law_document_changes_claim_alone(row: RowView, text: Seq<char>)
    ensures
        enriched(row, Some(text)) matches Ok(result) ==> result == (RowView {
            iid_claim: result.iid_claim,
            ..row
        }),
{
}

/// A name or a date that a page leaves out is that of the list, and so is the
/// vendor; where the list has them, they are filled.
pub proof fn law_listed_values_fill_gaps(page: RowView, listed: RowView)
    requires
        listed.module_name.len() > 0,
        listed.validation_date.len() > 0,
    ensures
        filled(page, listed).module_name.len() > 0,
        filled(page, listed).validation_date.len() > 0,
        page.vendor.len() == 0 ==> filled(page, listed).vendor == listed.vendor,
{
}

/// The place of the track in a document: where the pattern of the table finds
/// it, or else where the pattern of the sentence does.
pub open spec fn track_place(pdf_text: Seq<char>) -> Option<Option<(usize, usize)>> {
    let text = pages_as_lines(pdf_text);
    let table = first_group(
        r"(?is)\bEntropy\s+Estimation\s+Track\b.{0,120}?\b(Non[-\s]?IID|IID)\b"@,
        text,
        1,
    );
    if table is Some {
        table
    } else {
        first_group(
            r"(?is)\bThe\s+(Non[-\s]?IID|IID)\s+entropy\s+estimation\s+track\s+is\s+chosen\b"@,
            text,
            1,
        )
    }
}

/// The name of the track decides the claim, and nothing else in the document:
/// a name that begins with the letters of "non" claims the one, and any other
/// the other.
pub proof fn law_the_track_decides(pdf_text: Seq<char>, span: (usize, usize))
    requires
        document_claim(pdf_text) is Ok,
        track_place(pdf_text) == Some(Some(span)),
    ensures
        ({
            let name = ascii_lowered(
                byte_slice(pages_as_lines(pdf_text), span.0 as int, span.1 as int),
            );
            document_claim(pdf_text) == Ok::<IidClaim, ErrorView>(
                if name.len() >= 3 && name[0] == 'n' && name[1] == 'o' && name[2] == 'n' {
                    IidClaim::NonIid
                } else {
                    IidClaim::Iid
                },
            )
        }),
{
    reveal_strlit("non");
    let name = ascii_lowered(
        byte_slice(pages_as_lines(pdf_text), span.0 as int, span.1 as int),
    );
    if name.len() >= 3 && name[0] == 'n' && name[1] == 'o' && name[2] == 'n' {
        assert("non"@ =~= name.subrange(0, 3));
    }
    if "non"@.is_prefix_of(name) {
        let head = name.subrange(0, 3);
        assert(head[0] == 'n' && head[1] == 'o' && head[2] == 'n');
    }
}

/// A document without a track makes no known claim.
pub proof fn law_no_track_is_unknown(pdf_text: Seq<char>)
    requires
        document_claim(pdf_text) is Ok,
        track_place(pdf_text) is None,
    ensures
        document_claim(pdf_text) == Ok::<IidClaim, ErrorView>(IidClaim::Unknown),
{
}

/// Documents that name the same track make the same claim, whatever else they
/// hold.
pub proof fn law_same_track_same_claim(
    one: Seq<char>,
    other: Seq<char>,
    here: (usize, usize),
    there: (usize, usize),
)
    requires
        document_claim(one) is Ok,
        document_claim(other) is Ok,
        track_place(one) == Some(Some(here)),
        track_place(other) == Some(Some(there)),
        ascii_lowered(byte_slice(pages_as_lines(one), here.0 as int, here.1 as int))
            == ascii_lowered(byte_slice(pages_as_lines(other), there.0 as int, there.1 as int)),
    ensures
        document_claim(one) == document_claim(other),
{
    law_the_track_decides(one, here);
    law_the_track_decides(other, there);
}

/// A certificate is read for a claim if and only if its address ends with
/// ".pdf", in capitals or not.
pub proof fn law_documents_end_in_pdf(row: RowView)
    ensures
        ({
            let url = row.entropy_document_url;
            let n = url.len() as int;
            document_of(row) == if n >= 4 && url[n - 4] == '.' && (url[n - 3] == 'p' || url[n - 3]
                == 'P') && (url[n - 2] == 'd' || url[n - 2] == 'D') && (url[n - 1] == 'f' || url[n
                - 1] == 'F') {
                Some(url)
            } else {
                None
            }
        }),
{
    reveal_strlit(".pdf");
    let url = row.entropy_document_url;
    let lowered = ascii_lowered(url);
    let n = url.len() as int;
    if n >= 4 {
        let tail = lowered.subrange(n - 4, n);
        assert(tail.len() == 4);
        assert(tail[0] == ascii_lower(url[n - 4]));
        assert(tail[1] == ascii_lower(url[n - 3]));
        assert(tail[2] == ascii_lower(url[n - 2]));
        assert(tail[3] == ascii_lower(url[n - 1]));
        if tail[0] == '.' && tail[1] == 'p' && tail[2] == 'd' && tail[3] == 'f' {
            assert(tail =~= ".pdf"@);
        }
    }
}

/// What a page tells stands, but for white space around the vendor; what it
/// leaves out is taken from the list.
pub proof fn law_pages_come_before_the_list(page: RowView, listed: RowView)
    ensures
        ({
            let row = filled(page, listed);
            &&& row.vendor == if page.vendor.len() > 0 {
                trimmed(page.vendor)
            } else {
                listed.vendor
            }
            &&& row.module_name == if page.module_name.len() > 0 {
                page.module_name
            } else {
                listed.module_name
            }
            &&& row.validation_date == if page.validation_date.len() > 0 {
                page.validation_date
            } else {
                listed.validation_date
            }
            &&& row.module_certificate == page.module_certificate
            &&& row.certificate_url == page.certificate_url
            &&& row.esv_standard == page.esv_standard
            &&& row.esv_description == page.esv_description
            &&& row.esv_noise_source == page.esv_noise_source
            &&& row.esv_reuse_status == page.esv_reuse_status
            &&& row.entropy_document_url == page.entropy_document_url
            &&& row.iid_claim == page.iid_claim
            &&& row.module_type == page.module_type
            &&& row.policy_url == page.policy_url
            &&& row.cavp_certificate == page.cavp_certificate
            &&& row.cavp_algorithm == page.cavp_algorithm
            &&& row.operation == page.operation
            &&& row.properties == page.properties
            &&& row.cavp_listed == page.cavp_listed
        }),
{
}

/// What an entropy search says of its result counts the rows that it looked
/// through, those that it found and those without a known claim.
pub proof fn law_esv_message_counts(rows: Seq<RowView>, filter: IidClaimFilter)
    ensures
        ({
            let outcome = esv_outcome(rows, filter);
            outcome.results_message == "Scanned "@ + decimal(rows.len())
                + " ESV certificates; matched "@ + decimal(outcome.rows.len())
                + " with IID filter '"@ + outcome.canonical_query + "' ("@ + decimal(
                rows.filter(|row: RowView| row.iid_claim == IidClaim::Unknown).len(),
            ) + " unknown)."@
        }),
{
    broadcast use vstd::seq_lib::group_to_multiset_ensures;

    let kept = rows.filter(claim_kept(filter));
    law_descending_sorts(kept);
    assert(kept.to_multiset().len() == kept.len());
    assert(descending(kept).to_multiset().len() == descending(kept).len());
    assert(claim_unknown() =~= (|row: RowView| row.iid_claim == IidClaim::Unknown));
}

/// How often a row is among those that are kept.
proof fn lemma_kept_count(rows: Seq<RowView>, filter: IidClaimFilter, row: RowView)
    ensures
        rows.filter(claim_kept(filter)).to_multiset().count(row) == if keeps(
            filter,
            row.iid_claim,
        ) {
            rows.to_multiset().count(row)
        } else {
            0
        },
    decreases rows.len(),
{
    broadcast use vstd::seq_lib::group_to_multiset_ensures;

    if rows.len() == 0 {
        reveal(Seq::filter);
    } else {
        let head = rows.drop_last();
        lemma_kept_count(head, filter, row);
        assert(rows =~= head.push(rows.last()));
        lemma_filter_push(head, rows.last(), claim_kept(filter));
    }
}

/// An entropy search finds each row whose claim the filter keeps, as often as
/// it was looked through, and no other; it names the filter by its word.
pub proof fn law_entropy_search_finds(rows: Seq<RowView>, filter: IidClaimFilter, row: RowView)
    ensures
        esv_outcome(rows, filter).rows.to_multiset().count(row) == if filter == IidClaimFilter::Any
            || (filter == IidClaimFilter::Iid && row.iid_claim == IidClaim::Iid) || (filter
            == IidClaimFilter::NonIid && row.iid_claim == IidClaim::NonIid) || (filter
            == IidClaimFilter::Unknown && row.iid_claim == IidClaim::Unknown) {
            rows.to_multiset().count(row)
        } else {
            0
        },
        esv_outcome(rows, filter).query == "esv"@,
        esv_outcome(rows, filter).kind == OutputKind::Esv,
        filter == IidClaimFilter::Any ==> esv_outcome(rows, filter).canonical_query == "any"@,
        filter == IidClaimFilter::Iid ==> esv_outcome(rows, filter).canonical_query == "iid"@,
        filter == IidClaimFilter::NonIid ==> esv_outcome(rows, filter).canonical_query
            == "non-iid"@,
        filter == IidClaimFilter::Unknown ==> esv_outcome(rows, filter).canonical_query
            == "unknown"@,
{
    lemma_kept_count(rows, filter, row);
    law_descending_sorts(rows.filter(claim_kept(filter)));
}

/// What an entropy search finds of one certificate stands in the order in
/// which it was looked through.
pub proof fn law_entropy_search_is_stable(
    rows: Seq<RowView>,
    filter: IidClaimFilter,
    certificate: Seq<char>,
)
    ensures
        with_certificate(esv_outcome(rows, filter).rows, certificate) == with_certificate(
            rows.filter(|row: RowView| keeps(filter, row.iid_claim)),
            certificate,
        ),
{
    assert(claim_kept(filter) =~= (|row: RowView| keeps(filter, row.iid_claim)));
    law_descending_stable(rows.filter(claim_kept(filter)), certificate);
}

/// The claim of a row with a document is that which the document makes; the
/// row of another stays as it is.
pub proof fn law_documents_make_claims(row: RowView, text: Seq<char>)
    ensures
        document_of(row) is Some ==> (match document_claim(text) {
            Ok(claim) => enriched(row, Some(text)) matches Ok(result) && result.iid_claim == claim,
            Err(error) => enriched(row, Some(text)) == Err::<RowView, ErrorView>(error),
        }),
        document_of(row) is None ==> enriched(row, Some(text)) == Ok::<RowView, ErrorView>(row),
        enriched(row, None) == Ok::<RowView, ErrorView>(row),
        document_of(row) matches Some(url) ==> url == row.entropy_document_url,
{
}

/// A certificate page is read with the number of its row in the list to fall
/// back on, and what it leaves out is taken from that row.
pub proof fn law_entropy_pages_are_read(html: Seq<char>, listed: RowView)
    ensures
        match entropy_certificate_page(html, listed.module_certificate) {
            Ok(page) => certificate_of(Some(html), listed) == Ok::<RowView, ErrorView>(
                filled(page, listed),
            ),
            Err(error) => certificate_of(Some(html), listed) == Err::<RowView, ErrorView>(error),
        },
{
}

/// The first element that is kept is the first that is to be kept.
proof fn lemma_first_kept<A>(s: Seq<A>, keep: spec_fn(A) -> bool, k: int)
    requires
        0 <= k < s.len(),
        keep(s[k]),
        forall|j: int| 0 <= j < k ==> !keep(#[trigger] s[j]),
    ensures
        s.filter(keep).len() > 0,
        s.filter(keep)[0] == s[k],
    decreases s.len(),
{
    let head = s.drop_last();
    assert(s =~= head.push(s.last()));
    lemma_filter_push(head, s.last(), keep);
    if k < head.len() {
        assert(head[k] == s[k]);
        assert forall|j: int| 0 <= j < k implies !keep(#[trigger] head[j]) by {
            assert(head[j] == s[j]);
        }
        lemma_first_kept(head, keep, k);
    } else {
        assert forall|j: int| 0 <= j < head.len() implies !keep(#[trigger] head[j]) by {
            assert(head[j] == s[j]);
        }
        lemma_none_kept(head, keep);
    }
}

/// Where none is to be kept, none is kept.
proof fn lemma_none_kept<A>(s: Seq<A>, keep: spec_fn(A) -> bool)
    requires
        forall|j: int| 0 <= j < s.len() ==> !keep(#[trigger] s[j]),
    ensures
        s.filter(keep).len() == 0,
    decreases s.len(),
{
    if s.len() == 0 {
        reveal(Seq::filter);
    } else {
        let head = s.drop_last();
        assert(s =~= head.push(s.last()));
        assert(s.last() == s[s.len() - 1]);
        lemma_filter_push(head, s.last(), keep);
        assert forall|j: int| 0 <= j < head.len() implies !keep(#[trigger] head[j]) by {
            assert(head[j] == s[j]);
        }
        lemma_none_kept(head, keep);
    }
}

/// The first place of an element that is to be kept, among some that have one.
proof fn lemma_first_place<A>(s: Seq<A>, keep: spec_fn(A) -> bool) -> (k: int)
    requires
        s.filter(keep).len() > 0,
    ensures
        0 <= k < s.len(),
        keep(s[k]),
        forall|j: int| 0 <= j < k ==> !keep(#[trigger] s[j]),
    decreases s.len(),
{
    if s.len() == 0 {
        reveal(Seq::filter);
        0
    } else {
        let head = s.drop_last();
        assert(s =~= head.push(s.last()));
        lemma_filter_push(head, s.last(), keep);
        if head.filter(keep).len() > 0 {
            let k = lemma_first_place(head, keep);
            assert(head[k] == s[k]);
            assert forall|j: int| 0 <= j < k implies !keep(#[trigger] s[j]) by {
                assert(head[j] == s[j]);
            }
            k
        } else {
            assert forall|j: int| 0 <= j < head.len() implies !keep(#[trigger] s[j]) by {
                assert(head[j] == s[j]);
                if keep(head[j]) {
                    broadcast use vstd::seq_lib::group_filter_ensures;

                    assert(head.filter(keep).contains(head[j]));
                }
            }
            s.len() - 1
        }
    }
}

/// The rows of one entry keep their order when rows are put in order.
proof fn lemma_entry_is_stable(rows: Seq<RowView>, row: RowView)
    ensures
        descending(rows).filter(|other: RowView| same_entry(other, row)) == rows.filter(
            |other: RowView| same_entry(other, row),
        ),
{
    let number = |other: RowView| other.module_certificate == row.module_certificate;
    let entry = |other: RowView| same_entry(other, row);
    law_descending_stable(rows, row.module_certificate);
    lemma_filter_twice(descending(rows), number, entry, entry);
    lemma_filter_twice(rows, number, entry, entry);
}

/// The list of entropy sources has each listed row whose entry was not listed
/// before it.
pub proof fn law_esv_catalog_keeps_first(rows: Seq<RowView>, i: int)
    requires
        0 <= i < rows.len(),
        forall|j: int| 0 <= j < i ==> !same_entry(#[trigger] rows[j], rows[i]),
    ensures
        esv_catalog(rows) matches Ok(catalog) && catalog.contains(rows[i]),
{
    let row = rows[i];
    let sorted = descending(rows);
    let entry = |other: RowView| same_entry(other, row);
    lemma_entry_is_stable(rows, row);
    lemma_first_kept(rows, entry, i);
    let k = lemma_first_place(sorted, entry);
    lemma_first_kept(sorted, entry, k);
    assert(sorted[k] == row);
    if has_key(sorted.take(k), row_key(row)) {
        let j = choose|j: int|
            0 <= j < sorted.take(k).len() && row_key(#[trigger] sorted.take(k)[j]) == row_key(row);
        assert(sorted.take(k)[j] == sorted[j]);
        assert(same_entry(sorted[j], row));
        assert(entry(sorted[j]));
    }
    law_deduped_keeps_first(sorted, k);
}

/// The list of entropy sources has listed rows alone.
pub proof fn law_esv_catalog_is_listed(rows: Seq<RowView>, i: int)
    requires
        esv_catalog(rows) matches Ok(catalog) && 0 <= i < catalog.len(),
    ensures
        rows.contains(esv_catalog(rows)->Ok_0[i]),
{
    broadcast use vstd::seq_lib::group_to_multiset_ensures;

    let sorted = descending(rows);
    let places = law_deduped_in_order(sorted);
    law_descending_sorts(rows);
    assert(sorted[places[i]] == deduped(sorted)[i]);
    assert(sorted.to_multiset().count(sorted[places[i]]) > 0);
}

} // verus!
