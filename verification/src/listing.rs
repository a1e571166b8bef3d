//! The search pages: what they offer, what they are asked, and the rows of
//! certificates that they answer with.

use crate::html::{
    Element, ElementView, check_selectors, element_text, first_text, page_fits, select,
    select_pairs, selection, selection_of_pairs, selectors_checked, text_of, text_of_first,
};
use crate::models::{ErrorView, ResultRow, RowView, SearchError, empty_row, result_view};
use crate::rows::{ascending, sort_texts};
use crate::text::{
    contains_text, eq_ignore_ascii_case, lemma_filter_push, lowercased, normalize_for_match,
    normalized, occurs_in, same_ignoring_case, same_text, starts_with, to_lowercase, trim, trimmed,
};
use vstd::prelude::*;
use vstd::string::*;

verus! {

/// The site that all pages are on.
pub const BASE_URL: &'static str = "https://csrc.nist.gov";

/// The form that searches validated modules.
pub const CMVP_SEARCH_URL: &'static str = "https://csrc.nist.gov/projects/cryptographic-module-validation-program/validated-modules/search";

/// The list of all active modules.
pub const CMVP_SEARCH_ALL_URL: &'static str = "https://csrc.nist.gov/projects/cryptographic-module-validation-program/validated-modules/search/all";

/// The form that searches validated algorithms.
pub const CAVP_SEARCH_URL: &'static str = "https://csrc.nist.gov/projects/cryptographic-algorithm-validation-program/validation-search";

/// The list of validated entropy sources.
pub const ESV_SEARCH_URL: &'static str = "https://csrc.nist.gov/projects/cryptographic-module-validation-program/entropy-validations/search";

/// The address that a link leads to: itself where it names a scheme, and
/// otherwise a path on the site.
pub open spec fn absolute(href: Seq<char>) -> Seq<char> {
    if "http://"@.is_prefix_of(href) || "https://"@.is_prefix_of(href) {
        href
    } else {
        BASE_URL@ + href
    }
}

/// The address that a link leads to.
pub fn absolute_url(href: &str) -> (r: String)
    ensures
        r@ == absolute(href@),
{
    if starts_with(href, "http://") || starts_with(href, "https://") {
        href.to_owned()
    } else {
        BASE_URL.to_owned().concat(href)
    }
}

/// The algorithms that the search form offers: the names by which one asks for
/// an algorithm, each with the value that the form knows it by.
#[derive(Debug)]
pub struct AlgorithmOptions {
    entries: Vec<(String, String)>,
}

/// The map that later entries of a list overwrite earlier ones in.
pub open spec fn map_of(entries: Seq<(Seq<char>, Seq<char>)>) -> Map<Seq<char>, Seq<char>>
    decreases entries.len(),
{
    if entries.len() == 0 {
        Map::empty()
    } else {
        map_of(entries.drop_last()).insert(entries.last().0, entries.last().1)
    }
}

impl DeepView for AlgorithmOptions {
    type V = Map<Seq<char>, Seq<char>>;

    closed spec fn deep_view(&self) -> Map<Seq<char>, Seq<char>> {
        map_of(self.entries.deep_view())
    }
}

impl AlgorithmOptions {
    /// No options.
    pub fn new() -> (r: Self)
        ensures
            r.deep_view() == Map::<Seq<char>, Seq<char>>::empty(),
    {
        let r = AlgorithmOptions { entries: Vec::new() };
        assert(r.entries.deep_view() =~= seq![]);
        r
    }

    /// Makes `name` stand for `value`.
    pub fn insert(&mut self, name: String, value: String)
        ensures
            final(self).deep_view() == old(self).deep_view().insert(name@, value@),
    {
        let ghost before = self.entries.deep_view();
        self.entries.push((name, value));
        proof {
            let after = self.entries.deep_view();
            assert(after =~= before.push((name@, value@)));
            assert(after.drop_last() =~= before);
        }
    }

    /// Whether there is no option.
    pub fn is_empty(&self) -> (r: bool)
        ensures
            r == (self.deep_view() == Map::<Seq<char>, Seq<char>>::empty()),
    {
        proof {
            let entries = self.entries.deep_view();
            if entries.len() > 0 {
                assert(map_of(entries).dom().contains(entries.last().0));
            }
        }
        self.entries.len() == 0
    }

    /// The value that `name` stands for.
    pub fn get(&self, name: &str) -> (r: Option<String>)
        ensures
            r.deep_view() == self.deep_view().get(name@),
    {
        let ghost entries = self.entries.deep_view();
        let mut i: usize = self.entries.len();
        assert(entries.take(i as int) =~= entries);
        while i > 0
            invariant
                i <= self.entries@.len(),
                entries == self.entries.deep_view(),
                map_of(entries.take(i as int)).get(name@) == map_of(entries).get(name@),
            decreases i,
        {
            i -= 1;
            assert(entries.take(i + 1).drop_last() =~= entries.take(i as int));
            assert(entries[i as int] == (self.entries@[i as int].0@, self.entries@[i as int].1@));
            if same_text(self.entries[i].0.as_str(), name) {
                return Some(self.entries[i].1.clone());
            }
        }
        None
    }
}

/// The options that the elements of the form's list offer. Each goes by its
/// value and by its text, in lower case.
pub open spec fn offered(elements: Seq<ElementView>) -> Map<Seq<char>, Seq<char>>
    decreases elements.len(),
{
    if elements.len() == 0 {
        Map::empty()
    } else {
        let before = offered(elements.drop_last());
        let value = match elements.last().1 {
            Some(value) => trimmed(value),
            None => seq![],
        };
        let text = element_text(elements.last());
        if value.len() == 0 {
            before
        } else if text.len() == 0 {
            before.insert(lowercased(value), value)
        } else {
            before.insert(lowercased(value), value).insert(lowercased(text), value)
        }
    }
}

/// What `algorithm_options` hands back.
pub open spec fn checked_options(elements: Seq<ElementView>) -> Result<
    Map<Seq<char>, Seq<char>>,
    ErrorView,
> {
    if offered(elements) == Map::<Seq<char>, Seq<char>>::empty() {
        Err(ErrorView::NoAlgorithmOptions)
    } else {
        Ok(offered(elements))
    }
}

/// The options that the elements of the form's list offer; there must be one.
pub fn algorithm_options(elements: &Vec<Element>) -> (r: Result<AlgorithmOptions, SearchError>)
    ensures
        result_view(r) == checked_options(elements.deep_view()),
{
    let ghost all = elements.deep_view();
    let mut options = AlgorithmOptions::new();
    let mut i: usize = 0;
    while i < elements.len()
        invariant
            i <= elements@.len(),
            all == elements.deep_view(),
            options.deep_view() == offered(all.take(i as int)),
        decreases elements@.len() - i,
    {
        assert(all.take(i + 1).drop_last() =~= all.take(i as int));
        assert(all[i as int] == elements@[i as int].deep_view());
        let value = match &elements[i].attribute {
            Some(value) => trim(value.as_str()),
            None => String::new(),
        };
        let text = text_of(&elements[i]);
        if !value.as_str().is_empty() {
            options.insert(to_lowercase(value.as_str()), value.clone());
            if !text.as_str().is_empty() {
                options.insert(to_lowercase(text.as_str()), value);
            }
        }
        i += 1;
    }
    assert(all.take(all.len() as int) =~= all);
    if options.is_empty() {
        Err(SearchError::NoAlgorithmOptions)
    } else {
        Ok(options)
    }
}

/// The selector of the algorithms that the search form offers.
pub const OPTION_SELECTOR: &'static str = "#Algorithm option";

/// What `parse_algorithm_options` hands back.
pub open spec fn page_options(html: Seq<char>) -> Result<Map<Seq<char>, Seq<char>>, ErrorView> {
    match selectors_checked(seq![OPTION_SELECTOR@]) {
        Ok(_) => checked_options(selection(html, OPTION_SELECTOR@, "value"@)),
        Err(error) => Err(error),
    }
}

/// The options that the page of the search form offers.
pub fn parse_algorithm_options(html_text: &str) -> (r: Result<AlgorithmOptions, SearchError>)
    requires
        page_fits(html_text@),
    ensures
        result_view(r) == page_options(html_text@),
{
    let selectors = vec![OPTION_SELECTOR];
    assert(selectors.deep_view() =~= seq![OPTION_SELECTOR@]);
    match check_selectors(&selectors) {
        Err(error) => Err(error),
        Ok(_) => {
            assert(selectors@[0]@ == OPTION_SELECTOR@);
            algorithm_options(&select(html_text, OPTION_SELECTOR, "value"))
        },
    }
}

/// The texts of the elements that have one.
pub open spec fn filled_texts(elements: Seq<ElementView>) -> Seq<Seq<char>> {
    elements.map_values(|element: ElementView| element_text(element)).filter(
        |text: Seq<char>| text.len() > 0,
    )
}

/// What `active_algorithms` hands back.
pub open spec fn checked_algorithms(elements: Seq<ElementView>) -> Result<
    Seq<Seq<char>>,
    ErrorView,
> {
    if filled_texts(elements).len() == 0 {
        Err(ErrorView::NoActiveAlgorithms)
    } else {
        Ok(filled_texts(elements))
    }
}

/// The algorithms that the elements of the list name; there must be one.
pub fn active_algorithms(elements: &Vec<Element>) -> (r: Result<Vec<String>, SearchError>)
    ensures
        result_view(r) == checked_algorithms(elements.deep_view()),
{
    let ghost texts = elements.deep_view().map_values(
        |element: ElementView| element_text(element),
    );
    let ghost keep = |text: Seq<char>| text.len() > 0;
    let mut algorithms: Vec<String> = Vec::new();
    let mut i: usize = 0;
    assert(algorithms.deep_view() =~= texts.take(0).filter(keep)) by {
        reveal(Seq::filter);
    }
    while i < elements.len()
        invariant
            i <= elements@.len(),
            texts == elements.deep_view().map_values(
                |element: ElementView| element_text(element),
            ),
            keep == (|text: Seq<char>| text.len() > 0),
            algorithms.deep_view() == texts.take(i as int).filter(keep),
        decreases elements@.len() - i,
    {
        let ghost known = algorithms.deep_view();
        let text = text_of(&elements[i]);
        proof {
            assert(texts[i as int] == text@);
            assert(texts.take(i + 1) =~= texts.take(i as int).push(text@));
            lemma_filter_push(texts.take(i as int), text@, keep);
        }
        if !text.as_str().is_empty() {
            algorithms.push(text);
            assert(algorithms.deep_view() =~= known.push(text@));
        }
        i += 1;
    }
    assert(texts.take(texts.len() as int) =~= texts);
    assert(algorithms.deep_view().len() == algorithms@.len());
    if algorithms.len() == 0 {
        Err(SearchError::NoActiveAlgorithms)
    } else {
        Ok(algorithms)
    }
}

/// The selector of the algorithms that can be validated now.
pub const ACTIVE_SELECTOR: &'static str = "#search-algorithm optgroup[label=\"Active\"] option";

/// What `parse_active_algorithms` hands back.
pub open spec fn page_algorithms(html: Seq<char>) -> Result<Seq<Seq<char>>, ErrorView> {
    match selectors_checked(seq![ACTIVE_SELECTOR@]) {
        Ok(_) => checked_algorithms(selection(html, ACTIVE_SELECTOR@, ""@)),
        Err(error) => Err(error),
    }
}

/// The algorithms that the page of the algorithm search lists as active.
pub fn parse_active_algorithms(html_text: &str) -> (r: Result<Vec<String>, SearchError>)
    requires
        page_fits(html_text@),
    ensures
        result_view(r) == page_algorithms(html_text@),
{
    let selectors = vec![ACTIVE_SELECTOR];
    assert(selectors.deep_view() =~= seq![ACTIVE_SELECTOR@]);
    match check_selectors(&selectors) {
        Err(error) => Err(error),
        Ok(_) => {
            assert(selectors@[0]@ == ACTIVE_SELECTOR@);
            active_algorithms(&select(html_text, ACTIVE_SELECTOR, ""))
        },
    }
}

/// An algorithm is one that a term means by its exact name.
pub open spec fn exactly(term: Seq<char>) -> spec_fn(Seq<char>) -> bool {
    |algorithm: Seq<char>| same_ignoring_case(algorithm, term)
}

/// An algorithm is one whose name holds a term, letters and digits alone.
pub open spec fn loosely(term: Seq<char>) -> spec_fn(Seq<char>) -> bool {
    |algorithm: Seq<char>|
        normalized(term).len() > 0 && occurs_in(normalized(term), normalized(algorithm))
}

/// The algorithms that a term means: those with its exact name, or else, in
/// ascending order, those whose names hold it.
pub open spec fn resolved(term: Seq<char>, algorithms: Seq<Seq<char>>) -> Seq<Seq<char>> {
    if algorithms.filter(exactly(term)).len() > 0 {
        algorithms.filter(exactly(term))
    } else {
        ascending(algorithms.filter(loosely(term)))
    }
}

/// The algorithms that a term means.
pub fn resolve_cavp_algorithms(term: &str, cavp_algorithms: &Vec<String>) -> (r: Vec<String>)
    ensures
        r.deep_view() == resolved(term@, cavp_algorithms.deep_view()),
{
    let ghost all = cavp_algorithms.deep_view();
    let ghost exact_keep = exactly(term@);
    let ghost loose_keep = loosely(term@);
    let normalized_term = normalize_for_match(term);
    let mut exact: Vec<String> = Vec::new();
    let mut loose: Vec<String> = Vec::new();
    let mut i: usize = 0;
    assert(exact.deep_view() =~= all.take(0).filter(exact_keep) && loose.deep_view() =~= all.take(
        0,
    ).filter(loose_keep)) by {
        reveal(Seq::filter);
    }
    while i < cavp_algorithms.len()
        invariant
            i <= cavp_algorithms@.len(),
            all == cavp_algorithms.deep_view(),
            exact_keep == exactly(term@),
            loose_keep == loosely(term@),
            normalized_term@ == normalized(term@),
            exact.deep_view() == all.take(i as int).filter(exact_keep),
            loose.deep_view() == all.take(i as int).filter(loose_keep),
        decreases cavp_algorithms@.len() - i,
    {
        let ghost known_exact = exact.deep_view();
        let ghost known_loose = loose.deep_view();
        let algorithm = &cavp_algorithms[i];
        proof {
            assert(all.take(i + 1) =~= all.take(i as int).push(algorithm@));
            lemma_filter_push(all.take(i as int), algorithm@, exact_keep);
            lemma_filter_push(all.take(i as int), algorithm@, loose_keep);
        }
        if eq_ignore_ascii_case(algorithm.as_str(), term) {
            exact.push(algorithm.clone());
            assert(exact.deep_view() =~= known_exact.push(algorithm@));
        }
        if !normalized_term.as_str().is_empty() && contains_text(
            normalize_for_match(algorithm.as_str()).as_str(),
            normalized_term.as_str(),
        ) {
            loose.push(algorithm.clone());
            assert(loose.deep_view() =~= known_loose.push(algorithm@));
        }
        i += 1;
    }
    assert(all.take(all.len() as int) =~= all);
    assert(exact.deep_view().len() == exact@.len());
    if exact.len() > 0 {
        exact
    } else {
        sort_texts(loose)
    }
}

/// The field of the search form for an algorithm and what to write in it. The
/// form knows it by `key`, or else it is searched for as it stands.
pub open spec fn form_field(
    name: Seq<char>,
    key: Seq<char>,
    options: Map<Seq<char>, Seq<char>>,
) -> (Seq<char>, Seq<char>) {
    match options.get(key) {
        Some(canonical) => ("Algorithm"@, canonical),
        None => ("OtherAlgorithms"@, name),
    }
}

/// The field of the search form for an algorithm and what to write in it.
pub fn search_field(name: &str, key: &str, options: &AlgorithmOptions) -> (r: (String, String))
    ensures
        r.deep_view() == form_field(name@, key@, options.deep_view()),
{
    match options.get(key) {
        Some(canonical) => ("Algorithm".to_owned(), canonical),
        None => ("OtherAlgorithms".to_owned(), name.to_owned()),
    }
}

/// What `normalize_cmvp_algorithm` hands back.
pub open spec fn term_field(term: Seq<char>, options: Map<Seq<char>, Seq<char>>) -> Result<
    (Seq<char>, Seq<char>),
    ErrorView,
> {
    if trimmed(term).len() == 0 {
        Err(ErrorView::EmptyAlgorithm)
    } else {
        Ok(form_field(trimmed(term), lowercased(trimmed(term)), options))
    }
}

/// The field of the search form for a term and what to write in it.
pub fn normalize_cmvp_algorithm(term: &str, options: &AlgorithmOptions) -> (r: Result<
    (String, String),
    SearchError,
>)
    ensures
        result_view(r) == term_field(term@, options.deep_view()),
{
    let name = trim(term);
    if name.as_str().is_empty() {
        return Err(SearchError::EmptyAlgorithm);
    }
    let key = to_lowercase(name.as_str());
    Ok(search_field(name.as_str(), key.as_str(), options))
}

/// The address of the first of the links, or nothing.
pub open spec fn link_address(links: Seq<ElementView>) -> Seq<char> {
    if links.len() > 0 {
        match links[0].1 {
            Some(href) => absolute(href),
            None => seq![],
        }
    } else {
        seq![]
    }
}

/// The address of the first of the links, or nothing.
pub fn first_link(links: &Vec<Element>) -> (r: String)
    ensures
        r@ == link_address(links.deep_view()),
{
    if links.len() > 0 {
        assert(links.deep_view()[0] == links@[0].deep_view());
        match &links[0].attribute {
            Some(href) => absolute_url(href.as_str()),
            None => String::new(),
        }
    } else {
        String::new()
    }
}

/// A cell of a table: the element, and the links in it.
pub type CellView = (ElementView, Seq<ElementView>);

/// The row that the cells of a table row of modules tell of. It needs five
/// cells, and a link with a text in the first.
pub open spec fn module_row(cells: Seq<CellView>) -> Option<RowView> {
    if cells.len() < 5 || first_text(cells[0].1).len() == 0 {
        None
    } else {
        Some(
            RowView {
                module_certificate: first_text(cells[0].1),
                vendor: element_text(cells[1].0),
                module_name: element_text(cells[2].0),
                module_type: element_text(cells[3].0),
                validation_date: element_text(cells[4].0),
                certificate_url: link_address(cells[0].1),
                ..empty_row()
            },
        )
    }
}

/// The row that the cells of a table row of entropy sources tell of. It needs
/// four cells, and a link with a text in the third.
pub open spec fn entropy_row(cells: Seq<CellView>) -> Option<RowView> {
    if cells.len() < 4 || first_text(cells[2].1).len() == 0 {
        None
    } else {
        Some(
            RowView {
                module_certificate: first_text(cells[2].1),
                vendor: element_text(cells[0].0),
                module_name: element_text(cells[1].0),
                validation_date: element_text(cells[3].0),
                certificate_url: link_address(cells[2].1),
                ..empty_row()
            },
        )
    }
}

/// The values that are there, in order.
pub open spec fn present<T>(items: Seq<Option<T>>) -> Seq<T>
    decreases items.len(),
{
    if items.len() == 0 {
        seq![]
    } else {
        match items.last() {
            Some(value) => present(items.drop_last()).push(value),
            None => present(items.drop_last()),
        }
    }
}

/// The rows that the table of a page of modules tells of.
pub open spec fn module_rows(table: Seq<Seq<CellView>>) -> Seq<RowView> {
    present(table.map_values(|cells: Seq<CellView>| module_row(cells)))
}

/// The rows that the table of a page of entropy sources tells of.
pub open spec fn entropy_rows(table: Seq<Seq<CellView>>) -> Seq<RowView> {
    present(table.map_values(|cells: Seq<CellView>| entropy_row(cells)))
}

/// The row that the cells of a table row of modules tell of.
fn read_module_row(cells: &Vec<(Element, Vec<Element>)>) -> (r: Option<ResultRow>)
    ensures
        r.deep_view() == module_row(cells.deep_view()),
{
    if cells.len() < 5 {
        return None;
    }
    let ghost views = cells.deep_view();
    assert(forall|k: int| 0 <= k < 5 ==> #[trigger] views[k] == cells@[k].deep_view());
    let module_certificate = text_of_first(&cells[0].1);
    if module_certificate.as_str().is_empty() {
        return None;
    }
    let mut row = ResultRow::default();
    row.module_certificate = module_certificate;
    row.vendor = text_of(&cells[1].0);
    row.module_name = text_of(&cells[2].0);
    row.module_type = text_of(&cells[3].0);
    row.validation_date = text_of(&cells[4].0);
    row.certificate_url = first_link(&cells[0].1);
    Some(row)
}

/// The row that the cells of a table row of entropy sources tell of.
fn read_entropy_row(cells: &Vec<(Element, Vec<Element>)>) -> (r: Option<ResultRow>)
    ensures
        r.deep_view() == entropy_row(cells.deep_view()),
{
    if cells.len() < 4 {
        return None;
    }
    let ghost views = cells.deep_view();
    assert(forall|k: int| 0 <= k < 4 ==> #[trigger] views[k] == cells@[k].deep_view());
    let module_certificate = text_of_first(&cells[2].1);
    if module_certificate.as_str().is_empty() {
        return None;
    }
    let mut row = ResultRow::default();
    row.module_certificate = module_certificate;
    row.vendor = text_of(&cells[0].0);
    row.module_name = text_of(&cells[1].0);
    row.validation_date = text_of(&cells[3].0);
    row.certificate_url = first_link(&cells[2].1);
    Some(row)
}

/// The rows that the table of a page of modules tells of.
pub fn read_module_rows(table: &Vec<Vec<(Element, Vec<Element>)>>) -> (r: Vec<ResultRow>)
    ensures
        r.deep_view() == module_rows(table.deep_view()),
{
    let ghost items = table.deep_view().map_values(|cells: Seq<CellView>| module_row(cells));
    let mut rows: Vec<ResultRow> = Vec::new();
    let mut i: usize = 0;
    assert(rows.deep_view() =~= present(items.take(0)));
    while i < table.len()
        invariant
            i <= table@.len(),
            items == table.deep_view().map_values(|cells: Seq<CellView>| module_row(cells)),
            rows.deep_view() == present(items.take(i as int)),
        decreases table@.len() - i,
    {
        let ghost known = rows.deep_view();
        assert(items.take(i + 1).drop_last() =~= items.take(i as int));
        assert(items[i as int] == module_row(table@[i as int].deep_view()));
        match read_module_row(&table[i]) {
            Some(row) => {
                rows.push(row);
                assert(rows.deep_view() =~= known.push(row.deep_view()));
            },
            None => {},
        }
        i += 1;
    }
    assert(items.take(items.len() as int) =~= items);
    rows
}

/// The rows that the table of a page of entropy sources tells of.
pub fn read_entropy_rows(table: &Vec<Vec<(Element, Vec<Element>)>>) -> (r: Vec<ResultRow>)
    ensures
        r.deep_view() == entropy_rows(table.deep_view()),
{
    let ghost items = table.deep_view().map_values(|cells: Seq<CellView>| entropy_row(cells));
    let mut rows: Vec<ResultRow> = Vec::new();
    let mut i: usize = 0;
    assert(rows.deep_view() =~= present(items.take(0)));
    while i < table.len()
        invariant
            i <= table@.len(),
            items == table.deep_view().map_values(|cells: Seq<CellView>| entropy_row(cells)),
            rows.deep_view() == present(items.take(i as int)),
        decreases table@.len() - i,
    {
        let ghost known = rows.deep_view();
        assert(items.take(i + 1).drop_last() =~= items.take(i as int));
        assert(items[i as int] == entropy_row(table@[i as int].deep_view()));
        match read_entropy_row(&table[i]) {
            Some(row) => {
                rows.push(row);
                assert(rows.deep_view() =~= known.push(row.deep_view()));
            },
            None => {},
        }
        i += 1;
    }
    assert(items.take(items.len() as int) =~= items);
    rows
}

/// What a page says of its result: its message, or else its error.
pub open spec fn page_message(
    messages: Seq<ElementView>,
    errors: Seq<ElementView>,
) -> Seq<char> {
    if messages.len() > 0 {
        first_text(messages)
    } else {
        first_text(errors)
    }
}

/// What a page says of its result.
pub fn read_message(messages: &Vec<Element>, errors: &Vec<Element>) -> (r: String)
    ensures
        r@ == page_message(messages.deep_view(), errors.deep_view()),
{
    if messages.len() > 0 {
        text_of_first(messages)
    } else {
        text_of_first(errors)
    }
}

/// The selector of the message of a result page.
pub const MESSAGE_SELECTOR: &'static str = "p#resultsMessage";

/// The selector of the error of a result page.
pub const ERROR_SELECTOR: &'static str = "p#errorMessage";

/// The selector of the rows of the table of a result page.
pub const ROW_SELECTOR: &'static str = "#searchResultsTable tbody tr";

/// What `parse_results_page` hands back: the rows of the page and what it says
/// of them.
pub open spec fn results_page(html: Seq<char>) -> Result<(Seq<RowView>, Seq<char>), ErrorView> {
    match selectors_checked(
        seq![MESSAGE_SELECTOR@, ERROR_SELECTOR@, ROW_SELECTOR@, "td"@, "a"@],
    ) {
        Ok(_) => Ok(
            (
                module_rows(selection_of_pairs(html, ROW_SELECTOR@, "td"@, "a"@, "href"@)),
                page_message(
                    selection(html, MESSAGE_SELECTOR@, "href"@),
                    selection(html, ERROR_SELECTOR@, "href"@),
                ),
            ),
        ),
        Err(error) => Err(error),
    }
}

/// The rows of a page of modules and what it says of them.
pub fn parse_results_page(html_text: &str) -> (r: Result<(Vec<ResultRow>, String), SearchError>)
    requires
        page_fits(html_text@),
    ensures
        result_view(r) == results_page(html_text@),
{
    let selectors = vec![MESSAGE_SELECTOR, ERROR_SELECTOR, ROW_SELECTOR, "td", "a"];
    assert(selectors.deep_view() =~= seq![
        MESSAGE_SELECTOR@,
        ERROR_SELECTOR@,
        ROW_SELECTOR@,
        "td"@,
        "a"@,
    ]);
    match check_selectors(&selectors) {
        Err(error) => Err(error),
        Ok(_) => {
            assert(selectors@[0]@ == MESSAGE_SELECTOR@ && selectors@[1]@ == ERROR_SELECTOR@
                && selectors@[2]@ == ROW_SELECTOR@ && selectors@[3]@ == "td"@ && selectors@[4]@
                == "a"@);
            let table = select_pairs(html_text, ROW_SELECTOR, "td", "a", "href");
            let messages = select(html_text, MESSAGE_SELECTOR, "href");
            let errors = select(html_text, ERROR_SELECTOR, "href");
            Ok((read_module_rows(&table), read_message(&messages, &errors)))
        },
    }
}

/// What `parse_esv_results_page` hands back.
pub open spec fn esv_results_page(html: Seq<char>) -> Result<Seq<RowView>, ErrorView> {
    match selectors_checked(seq![ROW_SELECTOR@, "td"@, "a"@]) {
        Ok(_) => Ok(entropy_rows(selection_of_pairs(html, ROW_SELECTOR@, "td"@, "a"@, "href"@))),
        Err(error) => Err(error),
    }
}

/// The rows of a page of entropy sources.
pub fn parse_esv_results_page(html_text: &str) -> (r: Result<Vec<ResultRow>, SearchError>)
    requires
        page_fits(html_text@),
    ensures
        result_view(r) == esv_results_page(html_text@),
{
    let selectors = vec![ROW_SELECTOR, "td", "a"];
    assert(selectors.deep_view() =~= seq![ROW_SELECTOR@, "td"@, "a"@]);
    match check_selectors(&selectors) {
        Err(error) => Err(error),
        Ok(_) => {
            assert(selectors@[0]@ == ROW_SELECTOR@ && selectors@[1]@ == "td"@ && selectors@[2]@
                == "a"@);
            Ok(read_entropy_rows(&select_pairs(html_text, ROW_SELECTOR, "td", "a", "href")))
        },
    }
}

/// The page that lists the modules of a status, and what it is asked.
pub open spec fn status_listing(status: Seq<char>) -> (Seq<char>, Seq<(Seq<char>, Seq<char>)>) {
    if status == "Active"@ {
        (CMVP_SEARCH_ALL_URL@, seq![])
    } else {
        (
            CMVP_SEARCH_URL@,
            seq![
                ("SearchMode"@, "Advanced"@),
                (
                    "CertificateStatus"@,
                    if status == "Historical"@ {
                        "Historical"@
                    } else {
                        "Revoked"@
                    },
                ),
            ],
        )
    }
}

/// The page that lists the modules of a status, and what it is asked.
pub fn status_listing_url(status: &str) -> (r: (
    &'static str,
    Vec<(&'static str, &'static str)>,
))
    ensures
        r.deep_view() == status_listing(status@),
{
    if same_text(status, "Active") {
        let query: Vec<(&'static str, &'static str)> = Vec::new();
        assert(query.deep_view() =~= seq![]);
        (CMVP_SEARCH_ALL_URL, query)
    } else {
        let value = if same_text(status, "Historical") {
            "Historical"
        } else {
            "Revoked"
        };
        let query = vec![("SearchMode", "Advanced"), ("CertificateStatus", value)];
        assert(query.deep_view() =~= seq![
            ("SearchMode"@, "Advanced"@),
            ("CertificateStatus"@, value@),
        ]);
        (CMVP_SEARCH_URL, query)
    }
}

/// What `status_catalog` hands back: the rows of a listing, of which there
/// must be one unless it lists revoked modules.
pub open spec fn checked_catalog(status: Seq<char>, rows: Seq<RowView>) -> Result<
    Seq<RowView>,
    ErrorView,
> {
    if rows.len() == 0 && status != "Revoked"@ {
        Err(ErrorView::EmptyListing(status))
    } else {
        Ok(rows)
    }
}

/// The rows of a listing, of which there must be one unless it lists revoked
/// modules.
pub fn status_catalog(status: &str, rows: Vec<ResultRow>) -> (r: Result<
    Vec<ResultRow>,
    SearchError,
>)
    ensures
        result_view(r) == checked_catalog(status@, rows.deep_view()),
{
    if rows.len() == 0 && !same_text(status, "Revoked") {
        Err(SearchError::EmptyListing(status.to_owned()))
    } else {
        Ok(rows)
    }
}

/// What `parse_status_catalog` hands back.
pub open spec fn status_page(status: Seq<char>, html: Seq<char>) -> Result<
    Seq<RowView>,
    ErrorView,
> {
    match results_page(html) {
        Ok(page) => checked_catalog(status, page.0),
        Err(error) => Err(error),
    }
}

/// The modules that the listing page of a status shows.
pub fn parse_status_catalog(status: &str, html_text: &str) -> (r: Result<
    Vec<ResultRow>,
    SearchError,
>)
    requires
        page_fits(html_text@),
    ensures
        result_view(r) == status_page(status@, html_text@),
{
    match parse_results_page(html_text) {
        Ok((rows, _)) => status_catalog(status, rows),
        Err(error) => Err(error),
    }
}

} // verus!
