//! The pages of single certificates.

use crate::html::{
    Element, ElementView, check_selectors, element_text, first_filled, first_non_empty_text,
    first_text, page_fits, select, select_pairs, select_within, selection, selection_of_pairs,
    selection_within, selectors_checked, text_of, text_of_first,
};
use crate::listing::{BASE_URL, CellView, first_link, link_address};
use crate::models::{
    ErrorView, ResultRow, RowView, SearchError, collected, empty_row, lemma_collected_error,
    result_view,
};
use crate::rows::{descending, sort_rows_descending};
use crate::text::{
    after_prefix, same_text, strip_prefix, trim, trim_start_set, trimmed, without_leading,
};
use vstd::prelude::*;
use vstd::string::*;

verus! {

/// What follows `prefix` in the first heading that begins with it, trimmed;
/// `fallback` where none does.
pub open spec fn certificate_in(
    headings: Seq<ElementView>,
    prefix: Seq<char>,
    fallback: Seq<char>,
) -> Seq<char>
    decreases headings.len(),
{
    if headings.len() == 0 {
        fallback
    } else {
        match after_prefix(element_text(headings[0]), prefix) {
            Some(rest) => trimmed(rest),
            None => certificate_in(headings.drop_first(), prefix, fallback),
        }
    }
}

/// What follows `prefix` in the first heading that begins with it.
pub fn find_certificate(headings: &Vec<Element>, prefix: &str, fallback: &str) -> (r: String)
    ensures
        r@ == certificate_in(headings.deep_view(), prefix@, fallback@),
{
    let ghost all = headings.deep_view();
    let mut i: usize = 0;
    assert(all.skip(0) =~= all);
    while i < headings.len()
        invariant
            i <= headings@.len(),
            all == headings.deep_view(),
            certificate_in(all.skip(i as int), prefix@, fallback@) == certificate_in(
                all,
                prefix@,
                fallback@,
            ),
        decreases headings@.len() - i,
    {
        assert(all.skip(i as int)[0] == headings@[i as int].deep_view());
        match strip_prefix(text_of(&headings[i]).as_str(), prefix) {
            Some(rest) => {
                return trim(rest.as_str());
            },
            None => {},
        }
        assert(all.skip(i as int).drop_first() =~= all.skip(i + 1));
        i += 1;
    }
    fallback.to_owned()
}

/// The last panel with a title, by its place.
pub open spec fn titled(titles: Seq<Seq<ElementView>>, title: Seq<char>) -> Option<int>
    decreases titles.len(),
{
    if titles.len() == 0 {
        None
    } else if first_text(titles.last()) == title {
        Some(titles.len() - 1)
    } else {
        titled(titles.drop_last(), title)
    }
}

/// The last panel with a title, by its place.
fn find_titled(titles: &Vec<Vec<Element>>, title: &str) -> (r: Option<usize>)
    ensures
        r matches Some(i) ==> titled(titles.deep_view(), title@) == Some(i as int) && i
            < titles@.len(),
        r is None ==> titled(titles.deep_view(), title@) is None,
{
    let ghost all = titles.deep_view();
    let mut i: usize = titles.len();
    assert(all.take(i as int) =~= all);
    while i > 0
        invariant
            i <= titles@.len(),
            all == titles.deep_view(),
            titled(all.take(i as int), title@) == titled(all, title@),
        decreases i,
    {
        i -= 1;
        assert(all.take(i + 1).last() == titles@[i as int].deep_view());
        assert(all.take(i + 1).drop_last() =~= all.take(i as int));
        if same_text(text_of_first(&titles[i]).as_str(), title) {
            return Some(i);
        }
    }
    None
}

/// The first text of the body of the last panel titled "Vendor". Of each panel
/// there are the elements of its title, and its bodies with their links.
pub open spec fn panel_vendor(
    titles: Seq<Seq<ElementView>>,
    bodies: Seq<Seq<CellView>>,
) -> Seq<char> {
    match titled(titles, "Vendor"@) {
        Some(i) if bodies[i].len() > 0 => first_filled(bodies[i][0].0.0),
        _ => seq![],
    }
}

/// The address of the first link in the body of the last panel titled
/// "Related Files".
pub open spec fn panel_link(
    titles: Seq<Seq<ElementView>>,
    bodies: Seq<Seq<CellView>>,
) -> Seq<char> {
    match titled(titles, "Related Files"@) {
        Some(i) if bodies[i].len() > 0 => link_address(bodies[i][0].1),
        _ => seq![],
    }
}

/// The first text of the panel of the vendor.
pub fn read_vendor(titles: &Vec<Vec<Element>>, bodies: &Vec<Vec<(Element, Vec<Element>)>>) -> (r:
    String)
    requires
        titles@.len() == bodies@.len(),
    ensures
        r@ == panel_vendor(titles.deep_view(), bodies.deep_view()),
{
    match find_titled(titles, "Vendor") {
        Some(i) => {
            let body = &bodies[i];
            assert(bodies.deep_view()[i as int] == body.deep_view());
            if body.len() > 0 {
                assert(body.deep_view()[0] == body@[0].deep_view());
                first_non_empty_text(&body[0].0)
            } else {
                String::new()
            }
        },
        None => String::new(),
    }
}

/// The first link of the panel of related files.
pub fn read_related_link(
    titles: &Vec<Vec<Element>>,
    bodies: &Vec<Vec<(Element, Vec<Element>)>>,
) -> (r: String)
    requires
        titles@.len() == bodies@.len(),
    ensures
        r@ == panel_link(titles.deep_view(), bodies.deep_view()),
{
    match find_titled(titles, "Related Files") {
        Some(i) => {
            let body = &bodies[i];
            assert(bodies.deep_view()[i as int] == body.deep_view());
            if body.len() > 0 {
                assert(body.deep_view()[0] == body@[0].deep_view());
                first_link(&body[0].1)
            } else {
                String::new()
            }
        },
        None => String::new(),
    }
}

/// The value of the last detail with a label. A detail needs two columns: its
/// label and its value.
pub open spec fn detail(details: Seq<Seq<ElementView>>, label: Seq<char>) -> Seq<char>
    decreases details.len(),
{
    if details.len() == 0 {
        seq![]
    } else if details.last().len() >= 2 && element_text(details.last()[0]) == label {
        element_text(details.last()[1])
    } else {
        detail(details.drop_last(), label)
    }
}

/// The value of the last detail with a label.
pub fn read_detail(details: &Vec<Vec<Element>>, label: &str) -> (r: String)
    ensures
        r@ == detail(details.deep_view(), label@),
{
    let ghost all = details.deep_view();
    let mut i: usize = details.len();
    assert(all.take(i as int) =~= all);
    while i > 0
        invariant
            i <= details@.len(),
            all == details.deep_view(),
            detail(all.take(i as int), label@) == detail(all, label@),
        decreases i,
    {
        i -= 1;
        let columns = &details[i];
        assert(all.take(i + 1).last() == columns.deep_view());
        assert(all.take(i + 1).drop_last() =~= all.take(i as int));
        if columns.len() >= 2 {
            assert(columns.deep_view()[0] == columns@[0].deep_view());
            assert(columns.deep_view()[1] == columns@[1].deep_view());
            if same_text(text_of(&columns[0]).as_str(), label) {
                return text_of(&columns[1]);
            }
        }
    }
    String::new()
}

/// The row that a certificate page of a module tells of, from its headings,
/// the elements of the module's name, the dates of its history, its panels and
/// its details.
pub open spec fn module_certificate_row(
    headings: Seq<ElementView>,
    names: Seq<ElementView>,
    dates: Seq<ElementView>,
    titles: Seq<Seq<ElementView>>,
    bodies: Seq<Seq<CellView>>,
    details: Seq<Seq<ElementView>>,
    fallback: Seq<char>,
) -> RowView {
    let certificate = certificate_in(headings, "Certificate #"@, fallback);
    RowView {
        module_certificate: certificate,
        vendor: panel_vendor(titles, bodies),
        module_name: first_text(names),
        module_type: detail(details, "Module Type"@),
        validation_date: first_text(dates),
        certificate_url: BASE_URL@
            + "/projects/cryptographic-module-validation-program/certificate/"@ + certificate,
        policy_url: panel_link(titles, bodies),
        ..empty_row()
    }
}

/// The row that a certificate page of a module tells of.
pub fn read_module_certificate(
    headings: &Vec<Element>,
    names: &Vec<Element>,
    dates: &Vec<Element>,
    titles: &Vec<Vec<Element>>,
    bodies: &Vec<Vec<(Element, Vec<Element>)>>,
    details: &Vec<Vec<Element>>,
    fallback: &str,
) -> (r: ResultRow)
    requires
        titles@.len() == bodies@.len(),
    ensures
        r.deep_view() == module_certificate_row(
            headings.deep_view(),
            names.deep_view(),
            dates.deep_view(),
            titles.deep_view(),
            bodies.deep_view(),
            details.deep_view(),
            fallback@,
        ),
{
    let certificate = find_certificate(headings, "Certificate #", fallback);
    let mut row = ResultRow::default();
    row.certificate_url = BASE_URL.to_owned().concat(
        "/projects/cryptographic-module-validation-program/certificate/",
    ).concat(certificate.as_str());
    row.module_certificate = certificate;
    row.vendor = read_vendor(titles, bodies);
    row.module_name = text_of_first(names);
    row.module_type = read_detail(details, "Module Type");
    row.validation_date = text_of_first(dates);
    row.policy_url = read_related_link(titles, bodies);
    row
}

/// The row that a certificate page of an entropy source tells of.
pub open spec fn entropy_certificate_row(
    headings: Seq<ElementView>,
    dates: Seq<ElementView>,
    titles: Seq<Seq<ElementView>>,
    bodies: Seq<Seq<CellView>>,
    details: Seq<Seq<ElementView>>,
    fallback: Seq<char>,
) -> RowView {
    let certificate = certificate_in(headings, "Entropy Certificate #"@, fallback);
    RowView {
        module_certificate: certificate,
        vendor: panel_vendor(titles, bodies),
        module_name: detail(details, "Implementation Name"@),
        validation_date: first_text(dates),
        certificate_url: BASE_URL@
            + "/projects/cryptographic-module-validation-program/entropy-validations/certificate/"@
            + without_leading(certificate, "E"@),
        esv_standard: detail(details, "Standard"@),
        esv_description: detail(details, "Description"@),
        esv_noise_source: detail(details, "Noise Source Classification"@),
        esv_reuse_status: detail(details, "Reuse Status"@),
        entropy_document_url: panel_link(titles, bodies),
        ..empty_row()
    }
}

/// The row that a certificate page of an entropy source tells of.
pub fn read_entropy_certificate(
    headings: &Vec<Element>,
    dates: &Vec<Element>,
    titles: &Vec<Vec<Element>>,
    bodies: &Vec<Vec<(Element, Vec<Element>)>>,
    details: &Vec<Vec<Element>>,
    fallback: &str,
) -> (r: ResultRow)
    requires
        titles@.len() == bodies@.len(),
    ensures
        r.deep_view() == entropy_certificate_row(
            headings.deep_view(),
            dates.deep_view(),
            titles.deep_view(),
            bodies.deep_view(),
            details.deep_view(),
            fallback@,
        ),
{
    let certificate = find_certificate(headings, "Entropy Certificate #", fallback);
    let number = trim_start_set(certificate.as_str(), "E");
    let mut row = ResultRow::default();
    row.certificate_url = BASE_URL.to_owned().concat(
        "/projects/cryptographic-module-validation-program/entropy-validations/certificate/",
    ).concat(number.as_str());
    row.module_certificate = certificate;
    row.vendor = read_vendor(titles, bodies);
    row.module_name = read_detail(details, "Implementation Name");
    row.validation_date = text_of_first(dates);
    row.esv_standard = read_detail(details, "Standard");
    row.esv_description = read_detail(details, "Description");
    row.esv_noise_source = read_detail(details, "Noise Source Classification");
    row.esv_reuse_status = read_detail(details, "Reuse Status");
    row.entropy_document_url = read_related_link(titles, bodies);
    row
}

/// The selector of the headings, one of which gives the certificate.
pub const HEADING_SELECTOR: &'static str = "h3";

/// The selector of the name of a module.
pub const NAME_SELECTOR: &'static str = "#module-name";

/// The selector of the panels of a certificate page.
pub const PANEL_SELECTOR: &'static str = "div.panel.panel-default";

/// The selector of the title of a panel.
pub const TITLE_SELECTOR: &'static str = "h4.panel-title";

/// The selector of the body of a panel.
pub const BODY_SELECTOR: &'static str = "div.panel-body";

/// The selector of the links.
pub const LINK_SELECTOR: &'static str = "a";

/// The selector of the details of a certificate.
pub const DETAIL_SELECTOR: &'static str = "div.row.padrow";

/// The selector of the label and the value of a detail.
pub const COLUMN_SELECTOR: &'static str = "div.col-md-3, div.col-md-9";

/// The selector of the dates of validation.
pub const DATE_SELECTOR: &'static str = "#validation-history-table tbody tr td.text-nowrap";

/// What `parse_cached_certificate_html` hands back.
pub open spec fn module_certificate_page(html: Seq<char>, fallback: Seq<char>) -> Result<
    RowView,
    ErrorView,
> {
    match selectors_checked(
        seq![
            HEADING_SELECTOR@,
            NAME_SELECTOR@,
            PANEL_SELECTOR@,
            TITLE_SELECTOR@,
            BODY_SELECTOR@,
            LINK_SELECTOR@,
            DETAIL_SELECTOR@,
            COLUMN_SELECTOR@,
            DATE_SELECTOR@,
        ],
    ) {
        Ok(_) => Ok(
            module_certificate_row(
                selection(html, HEADING_SELECTOR@, "href"@),
                selection(html, NAME_SELECTOR@, "href"@),
                selection(html, DATE_SELECTOR@, "href"@),
                selection_within(html, PANEL_SELECTOR@, TITLE_SELECTOR@, "href"@),
                selection_of_pairs(
                    html,
                    PANEL_SELECTOR@,
                    BODY_SELECTOR@,
                    LINK_SELECTOR@,
                    "href"@,
                ),
                selection_within(html, DETAIL_SELECTOR@, COLUMN_SELECTOR@, "href"@),
                fallback,
            ),
        ),
        Err(error) => Err(error),
    }
}

/// The row that the text of a certificate page of a module tells of. Without a
/// heading that gives the number, the certificate is `fallback`.
pub fn parse_cached_certificate_html(html_text: &str, fallback: &str) -> (r: Result<
    ResultRow,
    SearchError,
>)
    requires
        page_fits(html_text@),
    ensures
        result_view(r) == module_certificate_page(html_text@, fallback@),
{
    let selectors = vec![
        HEADING_SELECTOR,
        NAME_SELECTOR,
        PANEL_SELECTOR,
        TITLE_SELECTOR,
        BODY_SELECTOR,
        LINK_SELECTOR,
        DETAIL_SELECTOR,
        COLUMN_SELECTOR,
        DATE_SELECTOR,
    ];
    assert(selectors.deep_view() =~= seq![
        HEADING_SELECTOR@,
        NAME_SELECTOR@,
        PANEL_SELECTOR@,
        TITLE_SELECTOR@,
        BODY_SELECTOR@,
        LINK_SELECTOR@,
        DETAIL_SELECTOR@,
        COLUMN_SELECTOR@,
        DATE_SELECTOR@,
    ]);
    match check_selectors(&selectors) {
        Err(error) => Err(error),
        Ok(_) => {
            assert(selectors@[0]@ == HEADING_SELECTOR@ && selectors@[1]@ == NAME_SELECTOR@
                && selectors@[2]@ == PANEL_SELECTOR@ && selectors@[3]@ == TITLE_SELECTOR@
                && selectors@[4]@ == BODY_SELECTOR@ && selectors@[5]@ == LINK_SELECTOR@
                && selectors@[6]@ == DETAIL_SELECTOR@ && selectors@[7]@ == COLUMN_SELECTOR@
                && selectors@[8]@ == DATE_SELECTOR@);
            let headings = select(html_text, HEADING_SELECTOR, "href");
            let names = select(html_text, NAME_SELECTOR, "href");
            let dates = select(html_text, DATE_SELECTOR, "href");
            let titles = select_within(html_text, PANEL_SELECTOR, TITLE_SELECTOR, "href");
            let bodies = select_pairs(
                html_text,
                PANEL_SELECTOR,
                BODY_SELECTOR,
                LINK_SELECTOR,
                "href",
            );
            let details = select_within(html_text, DETAIL_SELECTOR, COLUMN_SELECTOR, "href");
            Ok(
                read_module_certificate(
                    &headings,
                    &names,
                    &dates,
                    &titles,
                    &bodies,
                    &details,
                    fallback,
                ),
            )
        },
    }
}

/// What `parse_esv_certificate_html` hands back.
pub open spec fn entropy_certificate_page(html: Seq<char>, fallback: Seq<char>) -> Result<
    RowView,
    ErrorView,
> {
    match selectors_checked(
        seq![
            HEADING_SELECTOR@,
            PANEL_SELECTOR@,
            TITLE_SELECTOR@,
            BODY_SELECTOR@,
            LINK_SELECTOR@,
            DETAIL_SELECTOR@,
            COLUMN_SELECTOR@,
            DATE_SELECTOR@,
        ],
    ) {
        Ok(_) => Ok(
            entropy_certificate_row(
                selection(html, HEADING_SELECTOR@, "href"@),
                selection(html, DATE_SELECTOR@, "href"@),
                selection_within(html, PANEL_SELECTOR@, TITLE_SELECTOR@, "href"@),
                selection_of_pairs(
                    html,
                    PANEL_SELECTOR@,
                    BODY_SELECTOR@,
                    LINK_SELECTOR@,
                    "href"@,
                ),
                selection_within(html, DETAIL_SELECTOR@, COLUMN_SELECTOR@, "href"@),
                fallback,
            ),
        ),
        Err(error) => Err(error),
    }
}

/// The row that the text of a certificate page of an entropy source tells of.
/// Without a heading that gives the number, the certificate is
/// `fallback_certificate`.
pub fn parse_esv_certificate_html(html_text: &str, fallback_certificate: &str) -> (r: Result<
    ResultRow,
    SearchError,
>)
    requires
        page_fits(html_text@),
    ensures
        result_view(r) == entropy_certificate_page(html_text@, fallback_certificate@),
{
    let selectors = vec![
        HEADING_SELECTOR,
        PANEL_SELECTOR,
        TITLE_SELECTOR,
        BODY_SELECTOR,
        LINK_SELECTOR,
        DETAIL_SELECTOR,
        COLUMN_SELECTOR,
        DATE_SELECTOR,
    ];
    assert(selectors.deep_view() =~= seq![
        HEADING_SELECTOR@,
        PANEL_SELECTOR@,
        TITLE_SELECTOR@,
        BODY_SELECTOR@,
        LINK_SELECTOR@,
        DETAIL_SELECTOR@,
        COLUMN_SELECTOR@,
        DATE_SELECTOR@,
    ]);
    match check_selectors(&selectors) {
        Err(error) => Err(error),
        Ok(_) => {
            assert(selectors@[0]@ == HEADING_SELECTOR@ && selectors@[1]@ == PANEL_SELECTOR@
                && selectors@[2]@ == TITLE_SELECTOR@ && selectors@[3]@ == BODY_SELECTOR@
                && selectors@[4]@ == LINK_SELECTOR@ && selectors@[5]@ == DETAIL_SELECTOR@
                && selectors@[6]@ == COLUMN_SELECTOR@ && selectors@[7]@ == DATE_SELECTOR@);
            let headings = select(html_text, HEADING_SELECTOR, "href");
            let dates = select(html_text, DATE_SELECTOR, "href");
            let titles = select_within(html_text, PANEL_SELECTOR, TITLE_SELECTOR, "href");
            let bodies = select_pairs(
                html_text,
                PANEL_SELECTOR,
                BODY_SELECTOR,
                LINK_SELECTOR,
                "href",
            );
            let details = select_within(html_text, DETAIL_SELECTOR, COLUMN_SELECTOR, "href");
            Ok(
                read_entropy_certificate(
                    &headings,
                    &dates,
                    &titles,
                    &bodies,
                    &details,
                    fallback_certificate,
                ),
            )
        },
    }
}

/// The rows that cached certificate pages of modules tell of, each page with
/// the certificate that it is cached under, in descending order of
/// certificates.
pub open spec fn module_catalog(pages: Seq<(Seq<char>, Seq<char>)>) -> Result<
    Seq<RowView>,
    ErrorView,
> {
    match collected(
        pages.map_values(
            |page: (Seq<char>, Seq<char>)| module_certificate_page(page.1, page.0),
        ),
    ) {
        Ok(rows) => Ok(descending(rows)),
        Err(error) => Err(error),
    }
}

/// The rows that cached certificate pages of modules tell of.
pub fn read_module_catalog(pages: &Vec<(String, String)>) -> (r: Result<
    Vec<ResultRow>,
    SearchError,
>)
    requires
        forall|i: int| 0 <= i < pages@.len() ==> page_fits((#[trigger] pages@[i]).1@),
    ensures
        result_view(r) == module_catalog(pages.deep_view()),
{
    let ghost items = pages.deep_view().map_values(
        |page: (Seq<char>, Seq<char>)| module_certificate_page(page.1, page.0),
    );
    let mut rows: Vec<ResultRow> = Vec::new();
    let mut i: usize = 0;
    assert(rows.deep_view() =~= seq![]);
    while i < pages.len()
        invariant
            i <= pages@.len(),
            forall|k: int| 0 <= k < pages@.len() ==> page_fits((#[trigger] pages@[k]).1@),
            items == pages.deep_view().map_values(
                |page: (Seq<char>, Seq<char>)| module_certificate_page(page.1, page.0),
            ),
            collected(items.take(i as int)) == Ok::<Seq<RowView>, ErrorView>(rows.deep_view()),
        decreases pages@.len() - i,
    {
        let ghost known = rows.deep_view();
        let page = &pages[i];
        assert(items.take(i + 1).drop_last() =~= items.take(i as int));
        assert(items.take(i + 1).last() == module_certificate_page(page.1@, page.0@));
        match parse_cached_certificate_html(page.1.as_str(), page.0.as_str()) {
            Ok(row) => {
                rows.push(row);
                assert(rows.deep_view() =~= known.push(row.deep_view()));
            },
            Err(error) => {
                proof {
                    lemma_collected_error(items, i + 1);
                }
                return Err(error);
            },
        }
        i += 1;
    }
    assert(items.take(items.len() as int) =~= items);
    Ok(sort_rows_descending(rows))
}

/// The rows that cached certificate pages of entropy sources tell of, each
/// page with the certificate that it is cached under, in descending order of
/// certificates.
pub open spec fn entropy_catalog(pages: Seq<(Seq<char>, Seq<char>)>) -> Result<
    Seq<RowView>,
    ErrorView,
> {
    match collected(
        pages.map_values(
            |page: (Seq<char>, Seq<char>)| entropy_certificate_page(page.1, page.0),
        ),
    ) {
        Ok(rows) => Ok(descending(rows)),
        Err(error) => Err(error),
    }
}

/// The rows that cached certificate pages of entropy sources tell of.
pub fn read_entropy_catalog(pages: &Vec<(String, String)>) -> (r: Result<
    Vec<ResultRow>,
    SearchError,
>)
    requires
        forall|i: int| 0 <= i < pages@.len() ==> page_fits((#[trigger] pages@[i]).1@),
    ensures
        result_view(r) == entropy_catalog(pages.deep_view()),
{
    let ghost items = pages.deep_view().map_values(
        |page: (Seq<char>, Seq<char>)| entropy_certificate_page(page.1, page.0),
    );
    let mut rows: Vec<ResultRow> = Vec::new();
    let mut i: usize = 0;
    assert(rows.deep_view() =~= seq![]);
    while i < pages.len()
        invariant
            i <= pages@.len(),
            forall|k: int| 0 <= k < pages@.len() ==> page_fits((#[trigger] pages@[k]).1@),
            items == pages.deep_view().map_values(
                |page: (Seq<char>, Seq<char>)| entropy_certificate_page(page.1, page.0),
            ),
            collected(items.take(i as int)) == Ok::<Seq<RowView>, ErrorView>(rows.deep_view()),
        decreases pages@.len() - i,
    {
        let ghost known = rows.deep_view();
        let page = &pages[i];
        assert(items.take(i + 1).drop_last() =~= items.take(i as int));
        assert(items.take(i + 1).last() == entropy_certificate_page(page.1@, page.0@));
        match parse_esv_certificate_html(page.1.as_str(), page.0.as_str()) {
            Ok(row) => {
                rows.push(row);
                assert(rows.deep_view() =~= known.push(row.deep_view()));
            },
            Err(error) => {
                proof {
                    lemma_collected_error(items, i + 1);
                }
                return Err(error);
            },
        }
        i += 1;
    }
    assert(items.take(items.len() as int) =~= items);
    Ok(sort_rows_descending(rows))
}

} // verus!
