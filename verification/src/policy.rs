//! Security policies: where they are, and which algorithms they list.

use crate::listing::{absolute, absolute_url, present};
use crate::models::{
    ErrorView, ResultRow, RowView, SearchError, collected, empty_row, lemma_collected_error,
    result_view,
};
use crate::patterns::{
    all_groups, all_matches, begins_with, compile, compile_term_pattern, compiled, compiled_term, escape,
    find_all, find_first, find_group, find_groups, first_group, first_match, first_replaced,
    is_match, leads, regex_compiles, regex_escaped, replace_first, term_pattern,
};
use crate::text::{
    after_prefix, ascii_lowered, at_most, boundary, byte_len, byte_slice, bytes_len, collapse, collapsed,
    eq_ignore_ascii_case, first_chars, join, join_texts, lemma_filter_push, lines, pages_as_lines,
    replace_form_feeds, same_ignoring_case, same_text, slice_bytes, span_in, split_lines,
    strip_prefix, trim, trim_end, trim_start_set, trimmed, trimmed_end, without_leading,
};
use vstd::prelude::*;
use vstd::string::*;
use vstd::utf8::*;

verus! {

/// The pattern of a link to a security policy.
pub const POLICY_LINK_PATTERN: &'static str = r#"(?i)href="(?P<href>/CSRC/media/projects/cryptographic-module-validation-program/documents/security-policies/[^"]+\.pdf)""#;

/// The address at the place in a page where a pattern found a link.
pub open spec fn address_at(html: Seq<char>, place: Option<Option<(usize, usize)>>) -> Option<
    Seq<char>,
> {
    match place {
        Some(Some(span)) => Some(absolute(byte_slice(html, span.0 as int, span.1 as int))),
        _ => None,
    }
}

/// The address at the place in a page where a pattern found a link.
pub fn link_at(html: &str, place: Option<Option<(usize, usize)>>) -> (r: Option<String>)
    requires
        place matches Some(Some(span)) ==> span_in(html@, span),
    ensures
        r.deep_view() == address_at(html@, place),
{
    match place {
        Some(Some((from, to))) => Some(absolute_url(slice_bytes(html, from, to).as_str())),
        _ => None,
    }
}

/// What `find_policy_url` hands back.
pub open spec fn policy_link(html: Seq<char>) -> Result<Option<Seq<char>>, ErrorView> {
    match compiled(POLICY_LINK_PATTERN@) {
        Ok(_) => Ok(address_at(html, first_group(POLICY_LINK_PATTERN@, html, 1))),
        Err(error) => Err(error),
    }
}

/// The address of the security policy that a certificate page links to.
pub fn find_policy_url(certificate_html: &str) -> (r: Result<Option<String>, SearchError>)
    ensures
        result_view(r) == policy_link(certificate_html@),
{
    match compile(POLICY_LINK_PATTERN) {
        Err(error) => Err(error),
        Ok(_) => Ok(
            link_at(certificate_html, find_group(POLICY_LINK_PATTERN, certificate_html, 1)),
        ),
    }
}

/// The policy that a page links to, or else the one that the row knows.
pub open spec fn chosen_policy(found: Option<Seq<char>>, row: RowView) -> Option<Seq<char>> {
    if found is Some {
        found
    } else if row.policy_url.len() > 0 {
        Some(row.policy_url)
    } else {
        None
    }
}

/// The policy that a page links to, or else the one that the row knows.
pub fn choose_policy(found: Option<String>, base_row: &ResultRow) -> (r: Option<String>)
    ensures
        r.deep_view() == chosen_policy(found.deep_view(), base_row.deep_view()),
{
    match found {
        Some(url) => Some(url),
        None => if base_row.policy_url.as_str().is_empty() {
            None
        } else {
            Some(base_row.policy_url.clone())
        },
    }
}

/// What `resolve_policy_url` hands back.
pub open spec fn resolved_policy(html: Seq<char>, row: RowView) -> Result<
    Option<Seq<char>>,
    ErrorView,
> {
    match policy_link(html) {
        Ok(found) => Ok(chosen_policy(found, row)),
        Err(error) => Err(error),
    }
}

/// The address of the security policy of a row with this certificate page.
pub fn resolve_policy_url(certificate_html: &str, base_row: &ResultRow) -> (r: Result<
    Option<String>,
    SearchError,
>)
    ensures
        result_view(r) == resolved_policy(certificate_html@, base_row.deep_view()),
{
    match find_policy_url(certificate_html) {
        Ok(found) => Ok(choose_policy(found, base_row)),
        Err(error) => Err(error),
    }
}

/// What `policy_address` hands back. Without a page, the policy is the one
/// that the row knows.
pub open spec fn page_policy(page: Option<Seq<char>>, row: RowView) -> Result<
    Option<Seq<char>>,
    ErrorView,
> {
    match page {
        Some(html) => resolved_policy(html, row),
        None => Ok(chosen_policy(None, row)),
    }
}

/// The address of the security policy of a row, whose certificate page may be
/// out of reach.
pub fn policy_address(page: Option<String>, base_row: &ResultRow) -> (r: Result<
    Option<String>,
    SearchError,
>)
    ensures
        result_view(r) == page_policy(page.deep_view(), base_row.deep_view()),
{
    match page {
        Some(html) => resolve_policy_url(html.as_str(), base_row),
        None => Ok(choose_policy(None, base_row)),
    }
}

/// The pattern of the heading of the section on algorithms.
pub const START_PATTERN: &'static str = r"(?m)^2\.5 Algorithms\b";

/// The pattern of the heading after the section on algorithms.
pub const END_PATTERN: &'static str = r"(?m)^2\.6\b";

/// The pattern of a line that numbers a page.
pub const PAGE_PATTERN: &'static str = r"^Page \d+ of \d+$";

/// The text from the last of the places on.
pub open spec fn from_last(text: Seq<char>, starts: Seq<(usize, usize)>) -> Option<Seq<char>> {
    if starts.len() == 0 {
        None
    } else {
        Some(byte_slice(text, starts.last().0 as int, byte_len(text) as int))
    }
}

/// The text up to a place, or the whole text without one.
pub open spec fn up_to(text: Seq<char>, end: Option<(usize, usize)>) -> Seq<char> {
    match end {
        Some(span) => byte_slice(text, 0, span.0 as int),
        None => text,
    }
}

/// The end of a text is a boundary.
proof fn lemma_ends_are_boundaries(text: Seq<char>)
    ensures
        boundary(text, 0),
        boundary(text, byte_len(text) as int),
{
    encode_utf8_valid_utf8(text);
    is_char_boundary_start_end_of_seq(encode_utf8(text));
}

/// The text from the last of the places on.
pub fn cut_from_last(text: &str, starts: &Vec<(usize, usize)>) -> (r: Option<String>)
    requires
        forall|i: int| 0 <= i < starts@.len() ==> span_in(text@, #[trigger] starts@[i]),
    ensures
        r.deep_view() == from_last(text@, starts@),
{
    if starts.len() == 0 {
        return None;
    }
    let start = starts[starts.len() - 1];
    proof {
        lemma_ends_are_boundaries(text@);
    }
    Some(slice_bytes(text, start.0, bytes_len(text)))
}

/// The text up to a place, or the whole text without one.
pub fn cut_up_to(text: &str, end: Option<(usize, usize)>) -> (r: String)
    requires
        end matches Some(span) ==> span_in(text@, span),
    ensures
        r@ == up_to(text@, end),
{
    proof {
        lemma_ends_are_boundaries(text@);
    }
    match end {
        Some((from, _)) => slice_bytes(text, 0, from),
        None => text.to_owned(),
    }
}

/// A line that heads a column of the table of algorithms.
pub open spec fn heads_column(line: Seq<char>) -> bool {
    line == "Algorithm"@ || line == "CAVP"@ || line == "Cert"@ || line == "Properties"@ || line
        == "Reference"@
}

/// The lines of a section, their words parted by one space, without empty
/// ones and column heads.
pub open spec fn entries(section: Seq<char>) -> Seq<Seq<char>> {
    lines(section).map_values(|line: Seq<char>| collapsed(line)).filter(
        |line: Seq<char>| line.len() > 0 && !heads_column(line),
    )
}

/// The lines of a section, their words parted by one space, without empty
/// ones and column heads.
pub fn section_entries(section: &str) -> (r: Vec<String>)
    ensures
        r.deep_view() == entries(section@),
{
    let raw = split_lines(section);
    let ghost all = lines(section@).map_values(|line: Seq<char>| collapsed(line));
    let ghost keep = |line: Seq<char>| line.len() > 0 && !heads_column(line);
    let mut r: Vec<String> = Vec::new();
    let mut i: usize = 0;
    assert(r.deep_view() =~= all.take(0).filter(keep)) by {
        reveal(Seq::filter);
    }
    while i < raw.len()
        invariant
            i <= raw@.len(),
            raw.deep_view() == lines(section@),
            all == lines(section@).map_values(|line: Seq<char>| collapsed(line)),
            keep == (|line: Seq<char>| line.len() > 0 && !heads_column(line)),
            r.deep_view() == all.take(i as int).filter(keep),
        decreases raw@.len() - i,
    {
        let ghost known = r.deep_view();
        let line = collapse(raw[i].as_str());
        proof {
            assert(raw.deep_view()[i as int] == raw@[i as int]@);
            assert(all[i as int] == line@);
            assert(all.take(i + 1) =~= all.take(i as int).push(line@));
            lemma_filter_push(all.take(i as int), line@, keep);
        }
        if !line.as_str().is_empty() && !same_text(line.as_str(), "Algorithm") && !same_text(
            line.as_str(),
            "CAVP",
        ) && !same_text(line.as_str(), "Cert") && !same_text(line.as_str(), "Properties")
            && !same_text(line.as_str(), "Reference") {
            r.push(line);
            assert(r.deep_view() =~= known.push(line@));
        }
        i += 1;
    }
    assert(raw.deep_view().len() == raw@.len());
    assert(all.take(all.len() as int) =~= all);
    r
}

/// A line does not number a page.
pub open spec fn is_content() -> spec_fn(Seq<char>) -> bool {
    |line: Seq<char>| first_match(PAGE_PATTERN@, line) is None
}

/// What `extract_section_25` hands back: the lines of the last section 2.5 on
/// algorithms, up to section 2.6, without page numbers; the whole text where
/// there is no such section.
pub open spec fn section_25(pdf_text: Seq<char>) -> Result<Seq<char>, ErrorView> {
    let text = pages_as_lines(pdf_text);
    match (compiled(START_PATTERN@), compiled(END_PATTERN@), compiled(PAGE_PATTERN@)) {
        (Err(error), _, _) => Err(error),
        (_, Err(error), _) => Err(error),
        (_, _, page) => match from_last(text, all_matches(START_PATTERN@, text)) {
            None => Ok(text),
            Some(rest) => match page {
                Err(error) => Err(error),
                Ok(_) => {
                    let section = up_to(rest, first_match(END_PATTERN@, rest));
                    Ok(join(entries(section).filter(is_content()), seq!['\n']))
                },
            },
        },
    }
}

/// The lines that do not number a page.
fn drop_page_numbers(lines: Vec<String>) -> (r: Vec<String>)
    requires
        regex_compiles(PAGE_PATTERN@),
    ensures
        r.deep_view() == lines.deep_view().filter(is_content()),
{
    let ghost all = lines.deep_view();
    let mut r: Vec<String> = Vec::new();
    assert(r.deep_view() =~= all.take(0).filter(is_content())) by {
        reveal(Seq::filter);
    }
    for line in it: lines
        invariant
            it.seq() == lines@,
            all == lines.deep_view(),
            regex_compiles(PAGE_PATTERN@),
            r.deep_view() == all.take(it.index() as int).filter(is_content()),
    {
        let ghost known = r.deep_view();
        let ghost head = all.take(it.index() as int);
        proof {
            assert(all[it.index() as int] == line@);
            assert(all.take(it.index() + 1) =~= head.push(line@));
            lemma_filter_push(head, line@, is_content());
        }
        if !is_match(PAGE_PATTERN, line.as_str()) {
            r.push(line);
            assert(r.deep_view() =~= known.push(line@));
        }
    }
    assert(all.take(all.len() as int) =~= all);
    r
}

/// The section of a policy that lists its algorithms.
pub fn extract_section_25(pdf_text: &str) -> (r: Result<String, SearchError>)
    ensures
        result_view(r) == section_25(pdf_text@),
{
    let text = replace_form_feeds(pdf_text);
    match compile(START_PATTERN) {
        Err(error) => {
            return Err(error);
        },
        Ok(_) => {},
    }
    match compile(END_PATTERN) {
        Err(error) => {
            return Err(error);
        },
        Ok(_) => {},
    }
    let starts = find_all(START_PATTERN, text.as_str());
    match cut_from_last(text.as_str(), &starts) {
        None => Ok(text),
        Some(rest) => match compile(PAGE_PATTERN) {
            Err(error) => Err(error),
            Ok(_) => {
                let section = cut_up_to(rest.as_str(), find_first(END_PATTERN, rest.as_str()));
                let kept = drop_page_numbers(section_entries(section.as_str()));
                proof {
                    reveal_strlit("\n");
                    assert("\n"@ =~= seq!['\n']);
                }
                Ok(join_texts(&kept, "\n"))
            },
        },
    }
}

/// How much of an excerpt a row quotes.
pub const SUMMARY_CHARS: usize = 220;

/// The text without `prefix` at its beginning, trimmed then.
pub open spec fn without_prefix(s: Seq<char>, prefix: Seq<char>) -> Seq<char> {
    match after_prefix(s, prefix) {
        Some(rest) => trimmed(rest),
        None => s,
    }
}

/// What an excerpt says after the algorithm and its certificate: without
/// leading punctuation, and cut to a fixed length.
pub open spec fn summary(
    snippet: Seq<char>,
    algorithm: Seq<char>,
    certificate: Seq<char>,
) -> Seq<char> {
    let rest = without_prefix(collapsed(snippet), algorithm);
    let rest = if certificate.len() > 0 {
        without_prefix(rest, certificate)
    } else {
        rest
    };
    trimmed_end(at_most(without_leading(rest, " -:;,."@), SUMMARY_CHARS as nat))
}

/// The text without `prefix` at its beginning, trimmed then.
fn drop_prefix(s: String, prefix: &str) -> (r: String)
    ensures
        r@ == without_prefix(s@, prefix@),
{
    match strip_prefix(s.as_str(), prefix) {
        Some(rest) => trim(rest.as_str()),
        None => s,
    }
}

/// What an excerpt says after the algorithm and its certificate.
pub fn summarize_properties(snippet: &str, algorithm: &str, cavp_cert: &str) -> (r: String)
    ensures
        r@ == summary(snippet@, algorithm@, cavp_cert@),
{
    let mut condensed = drop_prefix(collapse(snippet), algorithm);
    if !cavp_cert.is_empty() {
        condensed = drop_prefix(condensed, cavp_cert);
    }
    let body = trim_start_set(condensed.as_str(), " -:;,.");
    trim_end(first_chars(body.as_str(), SUMMARY_CHARS).as_str())
}

/// The pattern of a term at the beginning of a text, with the space and the
/// hyphens after it.
pub open spec fn prefix_pattern(term: Seq<char>) -> Seq<char> {
    r"(?i)^"@ + regex_escaped(term) + r"[\s-]*"@
}

/// What is left of an algorithm without the term, or the algorithm where
/// nothing is.
pub open spec fn remaining_operation(rest: Seq<char>, algorithm: Seq<char>) -> Seq<char> {
    if trimmed(rest).len() == 0 {
        algorithm
    } else {
        trimmed(rest)
    }
}

/// What is left of an algorithm without the term, or the algorithm where
/// nothing is.
pub fn operation_or_algorithm(rest: &str, algorithm: &str) -> (r: String)
    ensures
        r@ == remaining_operation(rest@, algorithm@),
{
    let operation = trim(rest);
    if operation.as_str().is_empty() {
        algorithm.to_owned()
    } else {
        operation
    }
}

/// What `derive_operation` hands back: the algorithm without the term that was
/// searched for.
pub open spec fn operation(term: Seq<char>, algorithm: Seq<char>) -> Result<Seq<char>, ErrorView> {
    if same_ignoring_case(algorithm, term) {
        Ok(algorithm)
    } else {
        match compiled(prefix_pattern(term)) {
            Err(error) => Err(error),
            Ok(_) => Ok(
                remaining_operation(
                    first_replaced(prefix_pattern(term), algorithm, seq![]),
                    algorithm,
                ),
            ),
        }
    }
}

/// The algorithm without the term that was searched for. Where the algorithm
/// begins with the term, the term and the white space and hyphens after it are
/// taken away and nothing else; where it does not, it is left whole.
pub fn derive_operation(query_term: &str, cavp_algorithm: &str) -> (r: Result<String, SearchError>)
    ensures
        result_view(r) == operation(query_term@, cavp_algorithm@),
        same_ignoring_case(cavp_algorithm@, query_term@) ==> result_view(r) == Ok::<
            Seq<char>,
            ErrorView,
        >(cavp_algorithm@),
        forall|n: int|
            r is Ok && !same_ignoring_case(cavp_algorithm@, query_term@) && #[trigger] leads(
                query_term@,
                cavp_algorithm@,
                n,
            ) ==> result_view(r) == Ok::<Seq<char>, ErrorView>(
                if trimmed(cavp_algorithm@.skip(n)).len() > 0 {
                    trimmed(cavp_algorithm@.skip(n))
                } else {
                    cavp_algorithm@
                },
            ),
        r is Ok && is_ascii_chars(query_term@) && is_ascii_chars(cavp_algorithm@)
            && !begins_with(query_term@, cavp_algorithm@) ==> result_view(r) == Ok::<
            Seq<char>,
            ErrorView,
        >(
            if trimmed(cavp_algorithm@).len() > 0 {
                trimmed(cavp_algorithm@)
            } else {
                cavp_algorithm@
            },
        ),
{
    if eq_ignore_ascii_case(cavp_algorithm, query_term) {
        proof {
            assert(ascii_lowered(cavp_algorithm@).len() == ascii_lowered(query_term@).len());
            assert(cavp_algorithm@.take(query_term@.len() as int) =~= cavp_algorithm@);
        }
        return Ok(cavp_algorithm.to_owned());
    }
    let pattern = r"(?i)^".to_owned().concat(escape(query_term).as_str()).concat(r"[\s-]*");
    match compile(pattern.as_str()) {
        Err(error) => Err(error),
        Ok(_) => {
            proof {
                reveal_strlit("");
                assert(""@ =~= seq![]);
            }
            let rest = replace_first(pattern.as_str(), cavp_algorithm, "");
            proof {
                assert forall|n: int| #[trigger] leads(
                    query_term@,
                    cavp_algorithm@,
                    n,
                ) implies rest@ == cavp_algorithm@.skip(n) by {
                    assert(pattern@ == r"(?i)^"@ + regex_escaped(query_term@) + r"[\s-]*"@);
                    assert(Seq::<char>::empty() + cavp_algorithm@.skip(n)
                        =~= cavp_algorithm@.skip(n));
                }
            }
            Ok(operation_or_algorithm(rest.as_str(), cavp_algorithm))
        },
    }
}

/// The pattern of an algorithm's certificate.
pub const CERTIFICATE_PATTERN: &'static str = r"\bA\d{3,6}\b";

/// How many bytes of a section an excerpt takes in at most.
pub const WINDOW_BYTES: usize = 500;

/// How many lines of a section an excerpt takes in at most.
pub const WINDOW_LINES: usize = 10;

/// A place where a policy speaks of an algorithm.
#[derive(Debug)]
pub struct Hit {
    /// The algorithm, as the policy or the list of algorithms writes it.
    pub algorithm: String,
    /// The first certificate after it, where there is one.
    pub certificate: String,
    /// The algorithm without the term that was searched for.
    pub operation: String,
    /// The excerpt that begins with it.
    pub snippet: String,
    /// Whether the row of it is marked as listed.
    pub listed: bool,
}

/// What a hit holds.
#[verifier::ext_equal]
pub struct HitView {
    pub algorithm: Seq<char>,
    pub certificate: Seq<char>,
    pub operation: Seq<char>,
    pub snippet: Seq<char>,
    pub listed: bool,
}

impl DeepView for Hit {
    type V = HitView;

    open spec fn deep_view(&self) -> HitView {
        HitView {
            algorithm: self.algorithm@,
            certificate: self.certificate@,
            operation: self.operation@,
            snippet: self.snippet@,
            listed: self.listed,
        }
    }
}

/// The row of a hit in the policy of a module.
pub open spec fn hit_row(base: RowView, hit: HitView) -> RowView {
    RowView {
        module_certificate: base.module_certificate,
        vendor: base.vendor,
        module_name: base.module_name,
        module_type: base.module_type,
        validation_date: base.validation_date,
        certificate_url: base.certificate_url,
        policy_url: base.policy_url,
        cavp_certificate: hit.certificate,
        cavp_algorithm: hit.algorithm,
        operation: hit.operation,
        properties: summary(hit.snippet, hit.algorithm, hit.certificate),
        cavp_listed: hit.listed,
        ..empty_row()
    }
}

/// One of the hits has this algorithm and this certificate.
pub open spec fn has_hit(
    hits: Seq<HitView>,
    algorithm: Seq<char>,
    certificate: Seq<char>,
) -> bool {
    exists|i: int|
        0 <= i < hits.len() && (#[trigger] hits[i]).algorithm == algorithm && hits[i].certificate
            == certificate
}

/// The rows of the hits in the policy of a module: of hits with the same
/// algorithm and certificate, the first alone.
pub open spec fn hit_rows(base: RowView, hits: Seq<HitView>) -> Seq<RowView>
    decreases hits.len(),
{
    if hits.len() == 0 {
        seq![]
    } else {
        let earlier = hits.drop_last();
        if has_hit(earlier, hits.last().algorithm, hits.last().certificate) {
            hit_rows(base, earlier)
        } else {
            hit_rows(base, earlier).push(hit_row(base, hits.last()))
        }
    }
}

/// The row of a hit in the policy of a module.
fn read_hit(base_row: &ResultRow, hit: &Hit) -> (r: ResultRow)
    ensures
        r.deep_view() == hit_row(base_row.deep_view(), hit.deep_view()),
{
    let mut row = ResultRow::default();
    row.module_certificate = base_row.module_certificate.clone();
    row.vendor = base_row.vendor.clone();
    row.module_name = base_row.module_name.clone();
    row.module_type = base_row.module_type.clone();
    row.validation_date = base_row.validation_date.clone();
    row.certificate_url = base_row.certificate_url.clone();
    row.policy_url = base_row.policy_url.clone();
    row.cavp_certificate = hit.certificate.clone();
    row.cavp_algorithm = hit.algorithm.clone();
    row.operation = hit.operation.clone();
    row.properties = summarize_properties(
        hit.snippet.as_str(),
        hit.algorithm.as_str(),
        hit.certificate.as_str(),
    );
    row.cavp_listed = hit.listed;
    row
}

/// Whether one of the first `n` hits has this algorithm and this certificate.
fn is_hit(hits: &Vec<Hit>, n: usize, algorithm: &str, certificate: &str) -> (r: bool)
    requires
        n <= hits@.len(),
    ensures
        r == has_hit(hits.deep_view().take(n as int), algorithm@, certificate@),
{
    let ghost views = hits.deep_view().take(n as int);
    let mut i: usize = 0;
    while i < n
        invariant
            i <= n <= hits@.len(),
            views == hits.deep_view().take(n as int),
            forall|k: int|
                0 <= k < i ==> (#[trigger] views[k]).algorithm != algorithm@
                    || views[k].certificate != certificate@,
        decreases n - i,
    {
        assert(views[i as int] == hits@[i as int].deep_view());
        if same_text(hits[i].algorithm.as_str(), algorithm) && same_text(
            hits[i].certificate.as_str(),
            certificate,
        ) {
            return true;
        }
        i += 1;
    }
    false
}

/// The rows of the hits in the policy of a module: of hits with the same
/// algorithm and certificate, the first alone.
pub fn rows_of_hits(base_row: &ResultRow, hits: &Vec<Hit>) -> (r: Vec<ResultRow>)
    ensures
        r.deep_view() == hit_rows(base_row.deep_view(), hits.deep_view()),
{
    let ghost all = hits.deep_view();
    let ghost base = base_row.deep_view();
    let mut r: Vec<ResultRow> = Vec::new();
    let mut i: usize = 0;
    assert(r.deep_view() =~= hit_rows(base, all.take(0)));
    while i < hits.len()
        invariant
            i <= hits@.len(),
            all == hits.deep_view(),
            base == base_row.deep_view(),
            r.deep_view() == hit_rows(base, all.take(i as int)),
        decreases hits@.len() - i,
    {
        let ghost known = r.deep_view();
        assert(all.take(i + 1).drop_last() =~= all.take(i as int));
        assert(all.take(i + 1).last() == hits@[i as int].deep_view());
        if !is_hit(hits, i, hits[i].algorithm.as_str(), hits[i].certificate.as_str()) {
            let row = read_hit(base_row, &hits[i]);
            r.push(row);
            assert(r.deep_view() =~= known.push(row.deep_view()));
        }
        i += 1;
    }
    assert(all.take(all.len() as int) =~= all);
    r
}

/// The text at a place, or nothing without one.
pub open spec fn text_at(text: Seq<char>, place: Option<(usize, usize)>) -> Seq<char> {
    match place {
        Some(span) => byte_slice(text, span.0 as int, span.1 as int),
        None => seq![],
    }
}

/// The text at a place, or nothing without one.
pub fn read_at(text: &str, place: Option<(usize, usize)>) -> (r: String)
    requires
        place matches Some(span) ==> span_in(text@, span),
    ensures
        r@ == text_at(text@, place),
{
    match place {
        Some((from, to)) => slice_bytes(text, from, to),
        None => String::new(),
    }
}

/// The hit of an algorithm with an excerpt.
pub open spec fn hit_with(
    term: Seq<char>,
    algorithm: Seq<char>,
    snippet: Seq<char>,
    listed: bool,
) -> Result<HitView, ErrorView> {
    match operation(term, algorithm) {
        Ok(operation) => Ok(
            HitView {
                algorithm,
                certificate: text_at(snippet, first_match(CERTIFICATE_PATTERN@, snippet)),
                operation,
                snippet,
                listed,
            },
        ),
        Err(error) => Err(error),
    }
}

/// The hit of an algorithm with an excerpt.
fn read_hit_with(term: &str, algorithm: &str, snippet: String, listed: bool) -> (r: Result<
    Hit,
    SearchError,
>)
    requires
        regex_compiles(CERTIFICATE_PATTERN@),
    ensures
        result_view(r) == hit_with(term@, algorithm@, snippet@, listed),
{
    match derive_operation(term, algorithm) {
        Ok(operation) => {
            let place = find_first(CERTIFICATE_PATTERN, snippet.as_str());
            let certificate = read_at(snippet.as_str(), place);
            Ok(Hit { algorithm: algorithm.to_owned(), certificate, operation, snippet, listed })
        },
        Err(error) => Err(error),
    }
}

/// Where the excerpt ends that begins at a byte of a text.
pub open spec fn window_end(text: Seq<char>, start: int) -> int {
    if start + WINDOW_BYTES <= byte_len(text) {
        start + WINDOW_BYTES
    } else {
        byte_len(text) as int
    }
}

/// The excerpt that begins at a byte of a text, where it does not end inside
/// a character.
pub open spec fn window(text: Seq<char>, start: int) -> Result<Seq<char>, ErrorView> {
    if boundary(text, window_end(text, start)) {
        Ok(byte_slice(text, start, window_end(text, start)))
    } else {
        Err(ErrorView::SplitCharacter)
    }
}

/// The excerpt that begins at a byte of a text, where it does not end inside
/// a character.
pub fn cut_window(text: &str, start: usize) -> (r: Result<String, SearchError>)
    requires
        boundary(text@, start as int),
    ensures
        result_view(r) == window(text@, start as int),
{
    let total: usize = bytes_len(text);
    let end: usize = if total - start < WINDOW_BYTES {
        total
    } else {
        start + WINDOW_BYTES
    };
    if text.is_char_boundary(end) {
        Ok(slice_bytes(text, start, end))
    } else {
        Err(SearchError::SplitCharacter)
    }
}

/// The hit of an algorithm at a place of a section.
pub open spec fn hit_at(
    section: Seq<char>,
    term: Seq<char>,
    algorithm: Seq<char>,
    span: (usize, usize),
) -> Result<HitView, ErrorView> {
    match window(section, span.0 as int) {
        Ok(snippet) => hit_with(term, algorithm, snippet, true),
        Err(error) => Err(error),
    }
}

/// The hits of an algorithm at places of a section.
pub open spec fn hits_at(
    section: Seq<char>,
    term: Seq<char>,
    algorithm: Seq<char>,
    spans: Seq<(usize, usize)>,
) -> Result<Seq<HitView>, ErrorView> {
    collected(spans.map_values(|span: (usize, usize)| hit_at(section, term, algorithm, span)))
}

/// The hits of an algorithm in a section.
pub open spec fn algorithm_hits(
    section: Seq<char>,
    term: Seq<char>,
    algorithm: Seq<char>,
) -> Result<Seq<HitView>, ErrorView> {
    match compiled_term(algorithm) {
        Ok(pattern) => hits_at(
            section,
            term,
            algorithm,
            present(all_groups(pattern, section, 2)),
        ),
        Err(error) => Err(error),
    }
}

/// The places that are there.
fn present_spans(places: &Vec<Option<(usize, usize)>>) -> (r: Vec<(usize, usize)>)
    ensures
        r@ == present(places@),
        forall|i: int|
            0 <= i < r@.len() ==> exists|k: int|
                0 <= k < places@.len() && #[trigger] places@[k] == Some(#[trigger] r@[i]),
{
    let mut r: Vec<(usize, usize)> = Vec::new();
    let mut i: usize = 0;
    assert(r@ =~= present(places@.take(0)));
    while i < places.len()
        invariant
            i <= places@.len(),
            r@ == present(places@.take(i as int)),
            forall|j: int|
                0 <= j < r@.len() ==> exists|k: int|
                    0 <= k < places@.len() && #[trigger] places@[k] == Some(#[trigger] r@[j]),
        decreases places@.len() - i,
    {
        assert(places@.take(i + 1).drop_last() =~= places@.take(i as int));
        assert(places@.take(i + 1).last() == places@[i as int]);
        match places[i] {
            Some(span) => {
                r.push(span);
            },
            None => {},
        }
        i += 1;
    }
    assert(places@.take(places@.len() as int) =~= places@);
    r
}

/// The hits of an algorithm at places of a section.
fn read_hits_at(section: &str, term: &str, algorithm: &str, spans: &Vec<(usize, usize)>) -> (r:
    Result<Vec<Hit>, SearchError>)
    requires
        regex_compiles(CERTIFICATE_PATTERN@),
        forall|i: int| 0 <= i < spans@.len() ==> span_in(section@, #[trigger] spans@[i]),
    ensures
        result_view(r) == hits_at(section@, term@, algorithm@, spans@),
{
    let ghost items = spans@.map_values(
        |span: (usize, usize)| hit_at(section@, term@, algorithm@, span),
    );
    let mut hits: Vec<Hit> = Vec::new();
    let mut i: usize = 0;
    assert(hits.deep_view() =~= seq![]);
    while i < spans.len()
        invariant
            i <= spans@.len(),
            regex_compiles(CERTIFICATE_PATTERN@),
            forall|k: int| 0 <= k < spans@.len() ==> span_in(section@, #[trigger] spans@[k]),
            items == spans@.map_values(
                |span: (usize, usize)| hit_at(section@, term@, algorithm@, span),
            ),
            collected(items.take(i as int)) == Ok::<Seq<HitView>, ErrorView>(hits.deep_view()),
        decreases spans@.len() - i,
    {
        let ghost known = hits.deep_view();
        assert(items.take(i + 1).drop_last() =~= items.take(i as int));
        assert(items.take(i + 1).last() == hit_at(section@, term@, algorithm@, spans@[i as int]));
        let found = match cut_window(section, spans[i].0) {
            Ok(snippet) => read_hit_with(term, algorithm, snippet, true),
            Err(error) => Err(error),
        };
        match found {
            Ok(hit) => {
                hits.push(hit);
                assert(hits.deep_view() =~= known.push(hit.deep_view()));
            },
            Err(error) => {
                proof {
                    lemma_collected_error(items, i + 1);
                }
                return Err(error);
            },
        }
        i += 1;
    }
    assert(items.take(items.len() as int) =~= items);
    Ok(hits)
}

/// The hits of an algorithm in a section.
fn read_algorithm_hits(section: &str, term: &str, algorithm: &str) -> (r: Result<
    Vec<Hit>,
    SearchError,
>)
    requires
        regex_compiles(CERTIFICATE_PATTERN@),
    ensures
        result_view(r) == algorithm_hits(section@, term@, algorithm@),
{
    match compile_term_pattern(algorithm) {
        Ok(pattern) => {
            let spans = present_spans(&find_groups(pattern.as_str(), section, 2));
            read_hits_at(section, term, algorithm, &spans)
        },
        Err(error) => Err(error),
    }
}

/// The hits of algorithms in a section, algorithm by algorithm.
pub open spec fn section_hits(
    section: Seq<char>,
    term: Seq<char>,
    algorithms: Seq<Seq<char>>,
) -> Result<Seq<HitView>, ErrorView> {
    match collected(
        algorithms.map_values(|algorithm: Seq<char>| algorithm_hits(section, term, algorithm)),
    ) {
        Ok(lists) => Ok(lists.flatten()),
        Err(error) => Err(error),
    }
}

/// What `parse_section_matches` hands back.
pub open spec fn section_matches(
    base: RowView,
    section: Seq<char>,
    term: Seq<char>,
    algorithms: Seq<Seq<char>>,
) -> Result<Seq<RowView>, ErrorView> {
    match compiled(CERTIFICATE_PATTERN@) {
        Ok(_) => match section_hits(section, term, algorithms) {
            Ok(hits) => Ok(hit_rows(base, hits)),
            Err(error) => Err(error),
        },
        Err(error) => Err(error),
    }
}

/// The hits of algorithms in a section, algorithm by algorithm.
fn read_section_hits(section: &str, term: &str, algorithms: &Vec<String>) -> (r: Result<
    Vec<Hit>,
    SearchError,
>)
    requires
        regex_compiles(CERTIFICATE_PATTERN@),
    ensures
        result_view(r) == section_hits(section@, term@, algorithms.deep_view()),
{
    let ghost items = algorithms.deep_view().map_values(
        |algorithm: Seq<char>| algorithm_hits(section@, term@, algorithm),
    );
    let ghost mut lists: Seq<Seq<HitView>> = seq![];
    let mut hits: Vec<Hit> = Vec::new();
    let mut i: usize = 0;
    assert(hits.deep_view() =~= lists.flatten());
    while i < algorithms.len()
        invariant
            i <= algorithms@.len(),
            regex_compiles(CERTIFICATE_PATTERN@),
            items == algorithms.deep_view().map_values(
                |algorithm: Seq<char>| algorithm_hits(section@, term@, algorithm),
            ),
            collected(items.take(i as int)) == Ok::<Seq<Seq<HitView>>, ErrorView>(lists),
            hits.deep_view() == lists.flatten(),
        decreases algorithms@.len() - i,
    {
        let ghost known = hits.deep_view();
        assert(items.take(i + 1).drop_last() =~= items.take(i as int));
        assert(items.take(i + 1).last() == algorithm_hits(
            section@,
            term@,
            algorithms@[i as int]@,
        ));
        match read_algorithm_hits(section, term, algorithms[i].as_str()) {
            Ok(mut found) => {
                let ghost list = found.deep_view();
                hits.append(&mut found);
                proof {
                    lists.lemma_flatten_push(list);
                    assert(hits.deep_view() =~= known + list);
                    lists = lists.push(list);
                }
            },
            Err(error) => {
                proof {
                    lemma_collected_error(items, i + 1);
                }
                return Err(error);
            },
        }
        i += 1;
    }
    assert(items.take(items.len() as int) =~= items);
    Ok(hits)
}

/// The rows of the algorithms that a section of a policy lists. No excerpt may
/// end inside a character.
pub fn parse_section_matches(
    base_row: &ResultRow,
    section_text: &str,
    query_term: &str,
    candidate_algorithms: &Vec<String>,
) -> (r: Result<Vec<ResultRow>, SearchError>)
    requires
        section_matches(
            base_row.deep_view(),
            section_text@,
            query_term@,
            candidate_algorithms.deep_view(),
        ) != Err::<Seq<RowView>, ErrorView>(ErrorView::SplitCharacter),
    ensures
        result_view(r) == section_matches(
            base_row.deep_view(),
            section_text@,
            query_term@,
            candidate_algorithms.deep_view(),
        ),
{
    match compile(CERTIFICATE_PATTERN) {
        Ok(_) => match read_section_hits(section_text, query_term, candidate_algorithms) {
            Ok(hits) => Ok(rows_of_hits(base_row, &hits)),
            Err(error) => Err(error),
        },
        Err(error) => Err(error),
    }
}

/// The rows of the algorithms that a section of a policy lists. The hits are
/// looked for first: an excerpt that would end inside a character is an error.
pub fn scan_section(
    base_row: &ResultRow,
    section_text: &str,
    query_term: &str,
    candidate_algorithms: &Vec<String>,
) -> (r: Result<Vec<ResultRow>, SearchError>)
    ensures
        result_view(r) == section_matches(
            base_row.deep_view(),
            section_text@,
            query_term@,
            candidate_algorithms.deep_view(),
        ),
{
    match compile(CERTIFICATE_PATTERN) {
        Ok(_) => match read_section_hits(section_text, query_term, candidate_algorithms) {
            Ok(_) => parse_section_matches(
                base_row,
                section_text,
                query_term,
                candidate_algorithms,
            ),
            Err(error) => Err(error),
        },
        Err(error) => Err(error),
    }
}

/// The lines from line `i` on that an excerpt takes in.
pub open spec fn line_window(lines: Seq<Seq<char>>, i: int) -> Seq<Seq<char>> {
    lines.subrange(
        i,
        if i + WINDOW_LINES <= lines.len() {
            i + WINDOW_LINES
        } else {
            lines.len() as int
        },
    )
}

/// The hit in line `i` of a section, where the line holds the term.
pub open spec fn line_hit(lines: Seq<Seq<char>>, term: Seq<char>, i: int) -> Option<
    Result<HitView, ErrorView>,
> {
    if first_match(term_pattern(term), lines[i]) is None {
        None
    } else {
        Some(
            hit_with(
                term,
                trimmed(lines[i]),
                join(line_window(lines, i), seq![' ']),
                trimmed(lines[i]).len() > 0,
            ),
        )
    }
}

/// The hits in the lines of a section.
pub open spec fn line_hits(lines: Seq<Seq<char>>, term: Seq<char>) -> Result<
    Seq<HitView>,
    ErrorView,
> {
    collected(present(Seq::new(lines.len(), |i: int| line_hit(lines, term, i))))
}

/// What `parse_section_matches_offline` hands back.
pub open spec fn section_matches_offline(
    base: RowView,
    section: Seq<char>,
    term: Seq<char>,
) -> Result<Seq<RowView>, ErrorView> {
    match (compiled_term(term), compiled(CERTIFICATE_PATTERN@)) {
        (Err(error), _) => Err(error),
        (_, Err(error)) => Err(error),
        _ => match line_hits(lines(section), term) {
            Ok(hits) => Ok(hit_rows(base, hits)),
            Err(error) => Err(error),
        },
    }
}

/// The excerpt that begins with line `i`: some lines, parted by spaces.
pub fn join_lines(lines: &Vec<String>, i: usize) -> (r: String)
    requires
        i < lines@.len(),
    ensures
        r@ == join(line_window(lines.deep_view(), i as int), seq![' ']),
{
    let total: usize = lines.len();
    let end: usize = if total - i < WINDOW_LINES {
        total
    } else {
        i + WINDOW_LINES
    };
    let ghost all = lines.deep_view();
    let mut parts: Vec<String> = Vec::new();
    let mut k: usize = i;
    assert(parts.deep_view() =~= all.subrange(i as int, i as int));
    while k < end
        invariant
            i <= k <= end <= lines@.len(),
            all == lines.deep_view(),
            parts.deep_view() == all.subrange(i as int, k as int),
        decreases end - k,
    {
        let ghost known = parts.deep_view();
        parts.push(lines[k].clone());
        assert(parts.deep_view() =~= known.push(lines@[k as int]@));
        assert(all.subrange(i as int, k + 1) =~= known.push(all[k as int]));
        k += 1;
    }
    proof {
        reveal_strlit(" ");
        assert(" "@ =~= seq![' ']);
    }
    join_texts(&parts, " ")
}

/// The values that are there among the first ones begin those of them all.
proof fn lemma_present_error<T>(items: Seq<Option<Result<T, ErrorView>>>, n: int)
    requires
        0 <= n <= items.len(),
        collected(present(items.take(n))) is Err,
    ensures
        collected(present(items)) == collected(present(items.take(n))),
    decreases items.len() - n,
{
    if n < items.len() {
        let next = items.take(n + 1);
        assert(next.drop_last() =~= items.take(n));
        match items[n] {
            Some(item) => {
                let known = present(items.take(n));
                assert(present(next) == known.push(item));
                assert(known.push(item).take(known.len() as int) =~= known);
                lemma_collected_error(known.push(item), known.len() as int);
            },
            None => {},
        }
        lemma_present_error(items, n + 1);
    } else {
        assert(items.take(n) =~= items);
    }
}

/// The hits in the lines of a section.
fn read_line_hits(lines: &Vec<String>, term: &str, pattern: &str) -> (r: Result<
    Vec<Hit>,
    SearchError,
>)
    requires
        regex_compiles(CERTIFICATE_PATTERN@),
        pattern@ == term_pattern(term@),
        regex_compiles(pattern@),
    ensures
        result_view(r) == line_hits(lines.deep_view(), term@),
{
    let ghost all = lines.deep_view();
    let ghost items = Seq::new(all.len(), |i: int| line_hit(all, term@, i));
    let mut hits: Vec<Hit> = Vec::new();
    let mut i: usize = 0;
    assert(hits.deep_view() =~= seq![]);
    assert(present(items.take(0)) =~= seq![]);
    while i < lines.len()
        invariant
            i <= lines@.len(),
            regex_compiles(CERTIFICATE_PATTERN@),
            pattern@ == term_pattern(term@),
            regex_compiles(pattern@),
            all == lines.deep_view(),
            items == Seq::new(all.len(), |k: int| line_hit(all, term@, k)),
            collected(present(items.take(i as int))) == Ok::<Seq<HitView>, ErrorView>(
                hits.deep_view(),
            ),
        decreases lines@.len() - i,
    {
        let ghost known = hits.deep_view();
        let ghost before = present(items.take(i as int));
        assert(items.take(i + 1).drop_last() =~= items.take(i as int));
        assert(items.take(i + 1).last() == line_hit(all, term@, i as int));
        assert(all[i as int] == lines@[i as int]@);
        if is_match(pattern, lines[i].as_str()) {
            let algorithm = trim(lines[i].as_str());
            let snippet = join_lines(lines, i);
            let listed = !algorithm.as_str().is_empty();
            let ghost item = hit_with(term@, algorithm@, snippet@, listed);
            assert(present(items.take(i + 1)) == before.push(item));
            assert(before.push(item).drop_last() =~= before);
            match read_hit_with(term, algorithm.as_str(), snippet, listed) {
                Ok(hit) => {
                    hits.push(hit);
                    assert(hits.deep_view() =~= known.push(hit.deep_view()));
                },
                Err(error) => {
                    proof {
                        lemma_present_error(items, i + 1);
                    }
                    return Err(error);
                },
            }
        }
        i += 1;
    }
    assert(items.take(items.len() as int) =~= items);
    Ok(hits)
}

/// The rows of the lines of a section of a policy that hold a term.
pub fn parse_section_matches_offline(
    base_row: &ResultRow,
    section_text: &str,
    query_term: &str,
) -> (r: Result<Vec<ResultRow>, SearchError>)
    ensures
        result_view(r) == section_matches_offline(
            base_row.deep_view(),
            section_text@,
            query_term@,
        ),
{
    let pattern = match compile_term_pattern(query_term) {
        Err(error) => {
            return Err(error);
        },
        Ok(pattern) => pattern,
    };
    match compile(CERTIFICATE_PATTERN) {
        Err(error) => {
            return Err(error);
        },
        Ok(_) => {},
    }
    let lines = split_lines(section_text);
    match read_line_hits(&lines, query_term, pattern.as_str()) {
        Ok(hits) => Ok(rows_of_hits(base_row, &hits)),
        Err(error) => Err(error),
    }
}

/// The rows of a term in a section: of the algorithms that it stands for, or
/// of the lines that hold it where none are known.
pub open spec fn term_matches(
    base: RowView,
    section: Seq<char>,
    candidate: (Seq<char>, Seq<Seq<char>>),
) -> Result<Seq<RowView>, ErrorView> {
    if candidate.1.len() == 0 {
        section_matches_offline(base, section, candidate.0)
    } else {
        section_matches(base, section, candidate.0, candidate.1)
    }
}

/// The rows of each term in a section.
pub open spec fn candidate_matches(
    base: RowView,
    section: Seq<char>,
    candidates: Seq<(Seq<char>, Seq<Seq<char>>)>,
) -> Result<Seq<Seq<RowView>>, ErrorView> {
    collected(
        candidates.map_values(
            |candidate: (Seq<char>, Seq<Seq<char>>)| term_matches(base, section, candidate),
        ),
    )
}

/// What `scan_policy_text` hands back.
pub open spec fn policy_matches(
    base: RowView,
    policy_url: Seq<char>,
    policy_text: Seq<char>,
    candidates: Seq<(Seq<char>, Seq<Seq<char>>)>,
) -> Result<Seq<Seq<RowView>>, ErrorView> {
    match section_25(policy_text) {
        Ok(section) => candidate_matches((RowView { policy_url, ..base }), section, candidates),
        Err(error) => Err(error),
    }
}

/// The rows of each term in a section.
pub fn match_candidates(
    base_row: &ResultRow,
    section_text: &str,
    candidates: &Vec<(String, Vec<String>)>,
) -> (r: Result<Vec<Vec<ResultRow>>, SearchError>)
    ensures
        result_view(r) == candidate_matches(
            base_row.deep_view(),
            section_text@,
            candidates.deep_view(),
        ),
{
    let ghost base = base_row.deep_view();
    let ghost items = candidates.deep_view().map_values(
        |candidate: (Seq<char>, Seq<Seq<char>>)| term_matches(base, section_text@, candidate),
    );
    let mut results: Vec<Vec<ResultRow>> = Vec::new();
    let mut i: usize = 0;
    assert(results.deep_view() =~= seq![]);
    while i < candidates.len()
        invariant
            i <= candidates@.len(),
            base == base_row.deep_view(),
            items == candidates.deep_view().map_values(
                |candidate: (Seq<char>, Seq<Seq<char>>)|
                    term_matches(base, section_text@, candidate),
            ),
            collected(items.take(i as int)) == Ok::<Seq<Seq<RowView>>, ErrorView>(
                results.deep_view(),
            ),
        decreases candidates@.len() - i,
    {
        let ghost known = results.deep_view();
        let candidate = &candidates[i];
        assert(items.take(i + 1).drop_last() =~= items.take(i as int));
        assert(items.take(i + 1).last() == term_matches(
            base,
            section_text@,
            candidate.deep_view(),
        ));
        assert(candidate.1.deep_view().len() == candidate.1@.len());
        let found = if candidate.1.len() == 0 {
            parse_section_matches_offline(base_row, section_text, candidate.0.as_str())
        } else {
            scan_section(base_row, section_text, candidate.0.as_str(), &candidate.1)
        };
        match found {
            Ok(rows) => {
                results.push(rows);
                assert(results.deep_view() =~= known.push(rows.deep_view()));
            },
            Err(error) => {
                proof {
                    lemma_collected_error(items, i + 1);
                }
                return Err(error);
            },
        }
        i += 1;
    }
    assert(items.take(items.len() as int) =~= items);
    Ok(results)
}

/// The rows of each term in the text of a module's security policy.
pub fn scan_policy_text(
    base_row: &ResultRow,
    policy_url: String,
    policy_text: &str,
    candidates: &Vec<(String, Vec<String>)>,
) -> (r: Result<Vec<Vec<ResultRow>>, SearchError>)
    ensures
        result_view(r) == policy_matches(
            base_row.deep_view(),
            policy_url@,
            policy_text@,
            candidates.deep_view(),
        ),
{
    match extract_section_25(policy_text) {
        Ok(section) => {
            let mut row = base_row.clone();
            row.policy_url = policy_url;
            match_candidates(&row, section.as_str(), candidates)
        },
        Err(error) => Err(error),
    }
}

/// A list of no rows for each term.
pub open spec fn no_rows(terms: nat) -> Seq<Seq<RowView>> {
    Seq::new(terms, |i: int| Seq::<RowView>::empty())
}

/// A list of no rows for each term.
pub fn empty_lists(terms: usize) -> (r: Vec<Vec<ResultRow>>)
    ensures
        r.deep_view() == no_rows(terms as nat),
{
    let mut r: Vec<Vec<ResultRow>> = Vec::new();
    let mut i: usize = 0;
    assert(r.deep_view() =~= no_rows(0));
    while i < terms
        invariant
            i <= terms,
            r.deep_view() == no_rows(i as nat),
        decreases terms - i,
    {
        let ghost known = r.deep_view();
        let list: Vec<ResultRow> = Vec::new();
        assert(list.deep_view() =~= Seq::<RowView>::empty());
        r.push(list);
        assert(r.deep_view() =~= known.push(Seq::<RowView>::empty()));
        assert(r.deep_view() =~= no_rows((i + 1) as nat));
        i += 1;
    }
    r
}

/// What `scan_policy_for_algorithms` hands back: no rows for a module without
/// a policy, or with one whose text is out of reach.
pub open spec fn module_matches(
    base: RowView,
    policy_url: Option<Seq<char>>,
    policy_text: Option<Seq<char>>,
    candidates: Seq<(Seq<char>, Seq<Seq<char>>)>,
) -> Result<Seq<Seq<RowView>>, ErrorView> {
    match (policy_url, policy_text) {
        (Some(url), Some(text)) => policy_matches(base, url, text, candidates),
        _ => Ok(no_rows(candidates.len())),
    }
}

/// The rows of each term in the policy of a module: its address, where it has
/// a policy, and its text, where that can be had.
pub fn scan_policy_for_algorithms(
    base_row: &ResultRow,
    policy_url: Option<String>,
    policy_text: Option<String>,
    candidates: &Vec<(String, Vec<String>)>,
) -> (r: Result<Vec<Vec<ResultRow>>, SearchError>)
    ensures
        result_view(r) == module_matches(
            base_row.deep_view(),
            policy_url.deep_view(),
            policy_text.deep_view(),
            candidates.deep_view(),
        ),
{
    match (policy_url, policy_text) {
        (Some(url), Some(text)) => scan_policy_text(base_row, url, text.as_str(), candidates),
        _ => Ok(empty_lists(candidates.len())),
    }
}

} // verus!
