//! Entropy sources: the list of certificates, what a certificate page adds to
//! it, and the claim that a public use document makes.

use crate::certificates::{entropy_certificate_page, parse_esv_certificate_html};
use crate::html::page_fits;
use crate::models::{
    ErrorView, IidClaim, IidClaimFilter, OutcomeView, OutputKind, ResultRow, RowView, SearchError,
    SearchOutcome, filter_word, keeps, result_view,
};
use crate::patterns::{compile, compiled, find_group, first_group};
use crate::policy::{read_at, text_at};
use crate::rows::{dedupe_rows, deduped, descending, sort_rows_descending};
use crate::text::{
    ascii_lowered, ascii_raised, decimal, decimal_text, ends_with, lemma_filter_push, occurs_in,
    pages_as_lines, replace_form_feeds, span_in, stands_at, starts_with, to_ascii_lowercase, trim,
    trimmed,
};
use crate::text_laws::law_slices_ignore_case;
use vstd::prelude::*;
use vstd::string::*;

verus! {

/// The pattern of the track in a table of a public use document.
pub const STRUCTURED_PATTERN: &'static str = r"(?is)\bEntropy\s+Estimation\s+Track\b.{0,120}?\b(Non[-\s]?IID|IID)\b";

/// The pattern of the track in a sentence of a public use document.
pub const NARRATIVE_PATTERN: &'static str = r"(?is)\bThe\s+(Non[-\s]?IID|IID)\s+entropy\s+estimation\s+track\s+is\s+chosen\b";

/// The claim that the name of a track makes, where a pattern found one.
pub open spec fn track_claim(
    text: Seq<char>,
    place: Option<Option<(usize, usize)>>,
) -> Option<IidClaim> {
    match place {
        Some(track) => Some(
            if "non"@.is_prefix_of(ascii_lowered(text_at(text, track))) {
                IidClaim::NonIid
            } else {
                IidClaim::Iid
            },
        ),
        None => None,
    }
}

/// The claim that the name of a track makes, where a pattern found one.
pub fn read_track(text: &str, place: Option<Option<(usize, usize)>>) -> (r: Option<IidClaim>)
    requires
        place matches Some(Some(span)) ==> span_in(text@, span),
    ensures
        r == track_claim(text@, place),
{
    match place {
        Some(track) => {
            let name = to_ascii_lowercase(read_at(text, track).as_str());
            if starts_with(name.as_str(), "non") {
                Some(IidClaim::NonIid)
            } else {
                Some(IidClaim::Iid)
            }
        },
        None => None,
    }
}

/// What `classify_iid_claim` hands back: the claim of the table, or else that
/// of the sentence.
pub open spec fn document_claim(pdf_text: Seq<char>) -> Result<IidClaim, ErrorView> {
    let text = pages_as_lines(pdf_text);
    match compiled(STRUCTURED_PATTERN@) {
        Err(error) => Err(error),
        Ok(_) => match track_claim(text, first_group(STRUCTURED_PATTERN@, text, 1)) {
            Some(claim) => Ok(claim),
            None => match compiled(NARRATIVE_PATTERN@) {
                Err(error) => Err(error),
                Ok(_) => match track_claim(text, first_group(NARRATIVE_PATTERN@, text, 1)) {
                    Some(claim) => Ok(claim),
                    None => Ok(IidClaim::Unknown),
                },
            },
        },
    }
}

/// The letters IID are not in a document with its form feeds made line feeds
/// where they are not in the document.
proof fn lemma_no_letters(pdf_text: Seq<char>)
    requires
        !occurs_in("iid"@, ascii_lowered(pdf_text)),
    ensures
        !occurs_in("iid"@, ascii_lowered(pages_as_lines(pdf_text))),
{
    reveal_strlit("iid");
    let lowered = ascii_lowered(pdf_text);
    let paged = ascii_lowered(pages_as_lines(pdf_text));
    if occurs_in("iid"@, paged) {
        let i = choose|i: int| stands_at("iid"@, paged, i);
        assert forall|k: int| 0 <= k < 3 implies lowered[i + k] == "iid"@[k] by {
            assert(paged.subrange(i, i + 3)[k] == "iid"@[k]);
            assert(paged[i + k] == "iid"@[k]);
        }
        assert(lowered.subrange(i, i + 3) =~= "iid"@);
        assert(stands_at("iid"@, lowered, i));
    }
}

/// The claim of the name of a track does not depend on the case of letters.
proof fn lemma_track_ignores_case(text: Seq<char>, place: Option<Option<(usize, usize)>>)
    requires
        place matches Some(Some(span)) ==> span_in(text, span),
    ensures
        track_claim(ascii_raised(text), place) == track_claim(text, place),
{
    match place {
        Some(Some(span)) => {
            law_slices_ignore_case(text, span);
        },
        _ => {},
    }
}

/// The claim that a public use document makes. Each document makes one: what
/// it claims depends neither on the case of ASCII letters nor on form feeds in
/// place of line feeds, and it is not known where the document does not hold
/// the letters IID.
pub fn classify_iid_claim(pdf_text: &str) -> (r: Result<IidClaim, SearchError>)
    ensures
        result_view(r) == document_claim(pdf_text@),
        r is Ok,
        result_view(r) == document_claim(ascii_raised(pdf_text@)),
        result_view(r) == document_claim(pages_as_lines(pdf_text@)),
        !occurs_in("iid"@, ascii_lowered(pdf_text@)) ==> result_view(r) == Ok::<
            IidClaim,
            ErrorView,
        >(IidClaim::Unknown),
{
    let text = replace_form_feeds(pdf_text);
    proof {
        assert(pages_as_lines(text@) =~= text@);
        assert(pages_as_lines(ascii_raised(pdf_text@)) =~= ascii_raised(text@));
        if !occurs_in("iid"@, ascii_lowered(pdf_text@)) {
            lemma_no_letters(pdf_text@);
        }
    }
    match compile(STRUCTURED_PATTERN) {
        Err(error) => {
            return Err(error);
        },
        Ok(_) => {},
    }
    let structured = find_group(STRUCTURED_PATTERN, text.as_str(), 1);
    proof {
        lemma_track_ignores_case(text@, structured);
    }
    match read_track(text.as_str(), structured) {
        Some(claim) => Ok(claim),
        None => match compile(NARRATIVE_PATTERN) {
            Err(error) => Err(error),
            Ok(_) => {
                let narrative = find_group(NARRATIVE_PATTERN, text.as_str(), 1);
                proof {
                    lemma_track_ignores_case(text@, narrative);
                }
                match read_track(text.as_str(), narrative) {
                    Some(claim) => Ok(claim),
                    None => Ok(IidClaim::Unknown),
                }
            },
        },
    }
}

/// The row of a certificate page, with what the page leaves out taken from
/// the row of the list.
pub open spec fn filled(page: RowView, listed: RowView) -> RowView {
    RowView {
        vendor: if page.vendor.len() > 0 {
            trimmed(page.vendor)
        } else {
            listed.vendor
        },
        module_name: if page.module_name.len() > 0 {
            page.module_name
        } else {
            listed.module_name
        },
        validation_date: if page.validation_date.len() > 0 {
            page.validation_date
        } else {
            listed.validation_date
        },
        ..page
    }
}

/// The row of a certificate page, with what the page leaves out taken from
/// the row of the list.
pub fn fill_from_list(page: ResultRow, listed: &ResultRow) -> (r: ResultRow)
    ensures
        r.deep_view() == filled(page.deep_view(), listed.deep_view()),
{
    let mut row = page;
    if row.vendor.as_str().is_empty() {
        row.vendor = listed.vendor.clone();
    } else {
        row.vendor = trim(row.vendor.as_str());
    }
    if row.module_name.as_str().is_empty() {
        row.module_name = listed.module_name.clone();
    }
    if row.validation_date.as_str().is_empty() {
        row.validation_date = listed.validation_date.clone();
    }
    row
}

/// What `read_esv_certificate` hands back. Without a page, the row of the list
/// stays as it is.
pub open spec fn certificate_of(html: Option<Seq<char>>, listed: RowView) -> Result<
    RowView,
    ErrorView,
> {
    match html {
        Some(html) => match entropy_certificate_page(html, listed.module_certificate) {
            Ok(page) => Ok(filled(page, listed)),
            Err(error) => Err(error),
        },
        None => Ok(listed),
    }
}

/// The row of a listed certificate and its page, where there is one.
pub fn read_esv_certificate(html_text: Option<String>, listed: &ResultRow) -> (r: Result<
    ResultRow,
    SearchError,
>)
    requires
        html_text matches Some(html) ==> page_fits(html@),
    ensures
        result_view(r) == certificate_of(html_text.deep_view(), listed.deep_view()),
{
    match html_text {
        Some(html) => match parse_esv_certificate_html(
            html.as_str(),
            listed.module_certificate.as_str(),
        ) {
            Ok(page) => Ok(fill_from_list(page, listed)),
            Err(error) => Err(error),
        },
        None => Ok(listed.clone()),
    }
}

/// The address of a document that can be read for a claim.
pub open spec fn is_document(url: Seq<char>) -> bool {
    ".pdf"@.is_suffix_of(ascii_lowered(url))
}

/// Whether an address is that of a document that can be read for a claim.
fn names_document(url: &str) -> (r: bool)
    ensures
        r == is_document(url@),
{
    ends_with(to_ascii_lowercase(url).as_str(), ".pdf")
}

/// The address of the document that the row of a certificate is read for a
/// claim in, where it has one.
pub open spec fn document_of(row: RowView) -> Option<Seq<char>> {
    if is_document(row.entropy_document_url) {
        Some(row.entropy_document_url)
    } else {
        None
    }
}

/// The address of the document that the row of a certificate is read for a
/// claim in, where it has one.
pub fn entropy_document(row: &ResultRow) -> (r: Option<String>)
    ensures
        r.deep_view() == document_of(row.deep_view()),
{
    if names_document(row.entropy_document_url.as_str()) {
        Some(row.entropy_document_url.clone())
    } else {
        None
    }
}

/// What `enrich_esv_certificate` hands back. The row of a certificate without
/// a document, or with one that is out of reach, stays as it is.
pub open spec fn enriched(row: RowView, pdf_text: Option<Seq<char>>) -> Result<
    RowView,
    ErrorView,
> {
    match pdf_text {
        Some(text) => if is_document(row.entropy_document_url) {
            match document_claim(text) {
                Ok(iid_claim) => Ok(RowView { iid_claim, ..row }),
                Err(error) => Err(error),
            }
        } else {
            Ok(row)
        },
        None => Ok(row),
    }
}

/// The row of a certificate with the claim of its document: the text of the
/// document, where it can be had.
pub fn enrich_esv_certificate(row: ResultRow, pdf_text: Option<String>) -> (r: Result<
    ResultRow,
    SearchError,
>)
    ensures
        result_view(r) == enriched(row.deep_view(), pdf_text.deep_view()),
        r is Ok,
{
    let mut row = row;
    match pdf_text {
        Some(text) => if names_document(row.entropy_document_url.as_str()) {
            match classify_iid_claim(text.as_str()) {
                Ok(claim) => {
                    row.iid_claim = claim;
                    Ok(row)
                },
                Err(error) => Err(error),
            }
        } else {
            Ok(row)
        },
        None => Ok(row),
    }
}

/// The list of entropy sources while its pages are read, one after another.
#[derive(Debug)]
pub struct EsvListing {
    /// The number of the page to read next.
    pub page: usize,
    /// The rows of the pages before it.
    pub rows: Vec<ResultRow>,
}

impl EsvListing {
    /// The list before its first page.
    pub fn new() -> (r: Self)
        ensures
            r.page == 1,
            r.rows.deep_view() == Seq::<RowView>::empty(),
    {
        let r = EsvListing { page: 1, rows: Vec::new() };
        assert(r.rows.deep_view() =~= Seq::<RowView>::empty());
        r
    }

    /// What to ask for to get the next page.
    pub fn query(&self) -> (r: Vec<(String, String)>)
        ensures
            r.deep_view() == seq![("page"@, decimal(self.page as nat))],
    {
        let mut r: Vec<(String, String)> = Vec::new();
        r.push(("page".to_owned(), decimal_text(self.page)));
        assert(r.deep_view() =~= seq![("page"@, decimal(self.page as nat))]);
        r
    }

    /// Takes in the rows of the next page. An empty page ends the list: there
    /// is another page after a page with rows.
    pub fn take_page(&mut self, page_rows: Vec<ResultRow>) -> (more: bool)
        requires
            old(self).page < usize::MAX,
        ensures
            more == (page_rows@.len() > 0),
            final(self).page == old(self).page + if more { 1int } else { 0 },
            final(self).rows.deep_view() == old(self).rows.deep_view() + page_rows.deep_view(),
    {
        let ghost known = self.rows.deep_view();
        let ghost added = page_rows.deep_view();
        let more = page_rows.len() > 0;
        let mut page_rows = page_rows;
        self.rows.append(&mut page_rows);
        assert(self.rows.deep_view() =~= known + added);
        if more {
            self.page = self.page + 1;
        }
        more
    }

    /// The rows in the order in which they are looked through.
    pub fn into_catalog(self) -> (r: Result<Vec<ResultRow>, SearchError>)
        ensures
            result_view(r) == esv_catalog(self.rows.deep_view()),
    {
        assert(self.rows.deep_view().len() == self.rows@.len());
        if self.rows.len() == 0 {
            Err(SearchError::EmptyEsvListing)
        } else {
            Ok(dedupe_rows(sort_rows_descending(self.rows)))
        }
    }
}

/// The rows of a list in the order in which they are looked through: by
/// descending certificates, and without repeats.
pub open spec fn esv_catalog(rows: Seq<RowView>) -> Result<Seq<RowView>, ErrorView> {
    if rows.len() == 0 {
        Err(ErrorView::EmptyEsvListing)
    } else {
        Ok(deduped(descending(rows)))
    }
}

/// The row has a claim that a filter keeps.
pub open spec fn claim_kept(filter: IidClaimFilter) -> spec_fn(RowView) -> bool {
    |row: RowView| keeps(filter, row.iid_claim)
}

/// The row has no known claim.
pub open spec fn claim_unknown() -> spec_fn(RowView) -> bool {
    |row: RowView| row.iid_claim == IidClaim::Unknown
}

/// What an entropy search has to say of its result.
pub open spec fn esv_message(
    scanned: nat,
    matched: nat,
    filter: IidClaimFilter,
    unknown: nat,
) -> Seq<char> {
    "Scanned "@ + decimal(scanned) + " ESV certificates; matched "@ + decimal(matched)
        + " with IID filter '"@ + filter_word(filter) + "' ("@ + decimal(unknown) + " unknown)."@
}

/// What an entropy search finds among classified rows.
pub open spec fn esv_outcome(rows: Seq<RowView>, filter: IidClaimFilter) -> OutcomeView {
    let kept = rows.filter(claim_kept(filter));
    OutcomeView {
        query: "esv"@,
        canonical_query: filter_word(filter),
        results_message: esv_message(
            rows.len(),
            kept.len(),
            filter,
            rows.filter(claim_unknown()).len(),
        ),
        rows: descending(kept),
        kind: OutputKind::Esv,
    }
}

/// What an entropy search finds among classified rows.
pub fn esv_search(classified_rows: Vec<ResultRow>, filter: IidClaimFilter) -> (r: SearchOutcome)
    ensures
        r.deep_view() == esv_outcome(classified_rows.deep_view(), filter),
{
    let scanned: usize = classified_rows.len();
    let ghost all = classified_rows.deep_view();
    let mut kept: Vec<ResultRow> = Vec::new();
    let mut unknown: usize = 0;
    assert(kept.deep_view() =~= all.take(0).filter(claim_kept(filter))) by {
        reveal(Seq::filter);
    }
    assert(all.take(0).filter(claim_unknown()).len() == 0) by {
        reveal(Seq::filter);
    }
    for row in it: classified_rows
        invariant
            it.seq() == classified_rows@,
            all == classified_rows.deep_view(),
            scanned == all.len(),
            unknown <= it.index(),
            unknown == all.take(it.index() as int).filter(claim_unknown()).len(),
            kept.deep_view() == all.take(it.index() as int).filter(claim_kept(filter)),
    {
        let ghost known = kept.deep_view();
        let ghost head = all.take(it.index() as int);
        let ghost view = row.deep_view();
        proof {
            assert(all[it.index() as int] == view);
            assert(all.take(it.index() + 1) =~= head.push(view));
            lemma_filter_push(head, view, claim_kept(filter));
            lemma_filter_push(head, view, claim_unknown());
        }
        if row.iid_claim == IidClaim::Unknown {
            unknown += 1;
        }
        if row.iid_claim.matches_filter(filter) {
            kept.push(row);
            assert(kept.deep_view() =~= known.push(view));
        }
    }
    assert(all.take(all.len() as int) =~= all);
    assert(kept.deep_view().len() == kept@.len());
    let results_message = "Scanned ".to_owned().concat(decimal_text(scanned).as_str()).concat(
        " ESV certificates; matched ",
    ).concat(decimal_text(kept.len()).as_str()).concat(" with IID filter '").concat(
        filter.as_str(),
    ).concat("' (").concat(decimal_text(unknown).as_str()).concat(" unknown).");
    SearchOutcome {
        query: "esv".to_owned(),
        canonical_query: filter.as_str().to_owned(),
        results_message,
        rows: sort_rows_descending(kept),
        kind: OutputKind::Esv,
    }
}

} // verus!
