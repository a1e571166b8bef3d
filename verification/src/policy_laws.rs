//! Laws of the scan of a security policy.

use crate::listing::{absolute, present};
use crate::listing_laws::{law_leading_characters, lemma_in_present};
use crate::models::{ErrorView, RowView, collected, lemma_collected_items};
use crate::patterns::{
    all_groups, all_matches, first_group, first_match, first_replaced, regex_compiles, regex_escaped,
    term_pattern,
};
use crate::policy::{
    END_PATTERN, PAGE_PATTERN, START_PATTERN, SUMMARY_CHARS, HitView, algorithm_hits,
    candidate_matches, entries, from_last, has_hit, heads_column, hit_at, hit_row, hit_rows,
    is_content, line_hit, line_hits, module_matches, operation, page_policy, policy_link,
    policy_matches, section_25, section_hits, section_matches, section_matches_offline, summary, term_matches, up_to,
    window_end, without_prefix,
};
use crate::rows::{deduped, law_deduped_leaves_distinct, row_key};
use crate::text::{
    at_most, boundary, byte_len, byte_slice, collapsed, join, lemma_filter_push, lines,
    pages_as_lines, same_ignoring_case, trimmed, trimmed_end, white_space,
    without_leading,
};
use crate::text_laws::{
    is_line, law_collapsed_characters, law_collapsed_idempotent, law_lines_of_joined,
    law_trimmed_no_longer, law_trimming_takes_white_space, lemma_slice_of_chars,
};
use vstd::prelude::*;
use vstd::string::*;
use vstd::utf8::*;

verus! {

/// What a row quotes of a policy has a bounded length.
pub proof fn law_summary_is_short(
    snippet: Seq<char>,
    algorithm: Seq<char>,
    certificate: Seq<char>,
)
    ensures
        summary(snippet, algorithm, certificate).len() <= SUMMARY_CHARS,
{
    let rest = without_prefix(collapsed(snippet), algorithm);
    let rest = if certificate.len() > 0 {
        without_prefix(rest, certificate)
    } else {
        rest
    };
    law_trimmed_no_longer(at_most(without_leading(rest, " -:;,."@), SUMMARY_CHARS as nat));
}

/// An algorithm that is the term itself is its own operation.
pub proof fn law_operation_of_term(term: Seq<char>)
    ensures
        operation(term, term) == Ok::<Seq<char>, ErrorView>(term),
{
}

/// An algorithm with a name has an operation with a name.
pub proof fn law_operation_is_filled(term: Seq<char>, algorithm: Seq<char>)
    requires
        algorithm.len() > 0,
    ensures
        operation(term, algorithm) matches Ok(operation) ==> operation.len() > 0,
{
}

/// The algorithm and the certificate of a row.
pub open spec fn listing_key(row: RowView) -> (Seq<char>, Seq<char>) {
    (row.cavp_algorithm, row.cavp_certificate)
}

/// Each row of the hits is the row of one of them.
pub proof fn law_hit_rows_are_of_hits(base: RowView, hits: Seq<HitView>, i: int) -> (k: int)
    requires
        0 <= i < hit_rows(base, hits).len(),
    ensures
        0 <= k < hits.len(),
        hit_rows(base, hits)[i] == hit_row(base, hits[k]),
    decreases hits.len(),
{
    let earlier = hits.drop_last();
    if i < hit_rows(base, earlier).len() {
        law_hit_rows_are_of_hits(base, earlier, i)
    } else {
        hits.len() - 1
    }
}

/// Each hit has a row with its algorithm and its certificate.
pub proof fn law_hit_rows_cover_hits(base: RowView, hits: Seq<HitView>, k: int) -> (i: int)
    requires
        0 <= k < hits.len(),
    ensures
        0 <= i < hit_rows(base, hits).len(),
        listing_key(hit_rows(base, hits)[i]) == (hits[k].algorithm, hits[k].certificate),
    decreases hits.len(),
{
    let earlier = hits.drop_last();
    if k < earlier.len() {
        law_hit_rows_cover_hits(base, earlier, k)
    } else if has_hit(earlier, hits.last().algorithm, hits.last().certificate) {
        let m = choose|m: int|
            0 <= m < earlier.len() && (#[trigger] earlier[m]).algorithm == hits.last().algorithm
                && earlier[m].certificate == hits.last().certificate;
        law_hit_rows_cover_hits(base, earlier, m)
    } else {
        hit_rows(base, earlier).len() as int
    }
}

/// No two rows of a policy have the same algorithm and the same certificate.
pub proof fn law_hit_rows_differ(base: RowView, hits: Seq<HitView>, i: int, j: int)
    requires
        0 <= i < j < hit_rows(base, hits).len(),
    ensures
        listing_key(hit_rows(base, hits)[i]) != listing_key(hit_rows(base, hits)[j]),
    decreases hits.len(),
{
    let earlier = hits.drop_last();
    if j < hit_rows(base, earlier).len() {
        law_hit_rows_differ(base, earlier, i, j);
    } else {
        let k = law_hit_rows_are_of_hits(base, earlier, i);
        assert(hit_rows(base, hits)[i] == hit_rows(base, earlier)[i]);
        assert(earlier[k].algorithm != hits.last().algorithm || earlier[k].certificate
            != hits.last().certificate);
    }
}

/// The rows of a policy have no repeats.
pub proof fn law_hit_rows_have_no_repeats(base: RowView, hits: Seq<HitView>)
    ensures
        deduped(hit_rows(base, hits)) == hit_rows(base, hits),
{
    let rows = hit_rows(base, hits);
    assert forall|i: int, j: int| 0 <= i < j < rows.len() implies row_key(#[trigger] rows[i])
        != row_key(#[trigger] rows[j]) by {
        law_hit_rows_differ(base, hits, i, j);
    }
    law_deduped_leaves_distinct(rows);
}

/// The row tells of the module of another row.
pub open spec fn of_module(row: RowView, base: RowView) -> bool {
    &&& row.module_certificate == base.module_certificate
    &&& row.vendor == base.vendor
    &&& row.module_name == base.module_name
    &&& row.module_type == base.module_type
    &&& row.validation_date == base.validation_date
    &&& row.certificate_url == base.certificate_url
    &&& row.policy_url == base.policy_url
}

/// An item of lists put one after another is in one of the lists.
proof fn lemma_in_flattened<T>(lists: Seq<Seq<T>>, k: int) -> (place: (int, int))
    requires
        0 <= k < lists.flatten().len(),
    ensures
        0 <= place.0 < lists.len(),
        0 <= place.1 < lists[place.0].len(),
        lists[place.0][place.1] == lists.flatten()[k],
    decreases lists.len(),
{
    if lists.len() == 0 {
        (0, 0)
    } else {
        let head = lists.drop_last();
        assert(lists =~= head.push(lists.last()));
        head.lemma_flatten_push(lists.last());
        if k < head.flatten().len() {
            lemma_in_flattened(head, k)
        } else {
            (head.len() as int, k - head.flatten().len())
        }
    }
}

/// Each row that a policy gives for algorithms tells of the module, has one
/// of the algorithms, and is marked as listed.
pub proof fn law_section_matches(
    base: RowView,
    section: Seq<char>,
    term: Seq<char>,
    algorithms: Seq<Seq<char>>,
    i: int,
)
    requires
        section_matches(base, section, term, algorithms) matches Ok(rows) && 0 <= i < rows.len(),
    ensures
        section_matches(base, section, term, algorithms) matches Ok(rows) && {
            &&& of_module(rows[i], base)
            &&& algorithms.contains(rows[i].cavp_algorithm)
            &&& rows[i].cavp_listed
            &&& rows[i].properties.len() <= SUMMARY_CHARS
            &&& operation(term, rows[i].cavp_algorithm) == Ok::<Seq<char>, ErrorView>(
                rows[i].operation,
            )
        },
{
    let hits = section_hits(section, term, algorithms)->Ok_0;
    let items = algorithms.map_values(
        |algorithm: Seq<char>| algorithm_hits(section, term, algorithm),
    );
    let lists = collected(items)->Ok_0;
    lemma_collected_items(items);
    let k = law_hit_rows_are_of_hits(base, hits, i);
    let place = lemma_in_flattened(lists, k);
    let algorithm = algorithms[place.0];
    assert(items[place.0] == algorithm_hits(section, term, algorithm));
    let spans = present(all_groups(term_pattern(algorithm), section, 2));
    let found = spans.map_values(
        |span: (usize, usize)| hit_at(section, term, algorithm, span),
    );
    lemma_collected_items(found);
    assert(found[place.1] == hit_at(section, term, algorithm, spans[place.1]));
    assert(hits[k].algorithm == algorithm && hits[k].listed);
    law_summary_is_short(hits[k].snippet, hits[k].algorithm, hits[k].certificate);
}

/// A policy gives no two rows for an algorithm with the same certificate.
pub proof fn law_section_matches_differ(
    base: RowView,
    section: Seq<char>,
    term: Seq<char>,
    algorithms: Seq<Seq<char>>,
    i: int,
    j: int,
)
    requires
        section_matches(base, section, term, algorithms) matches Ok(rows) && 0 <= i < j
            < rows.len(),
    ensures
        section_matches(base, section, term, algorithms) matches Ok(rows) && listing_key(rows[i])
            != listing_key(rows[j]),
{
    law_hit_rows_differ(base, section_hits(section, term, algorithms)->Ok_0, i, j);
}

/// Each row that a policy gives for a term alone tells of the module, and its
/// algorithm is a line that holds the term.
pub proof fn law_section_matches_offline(
    base: RowView,
    section: Seq<char>,
    term: Seq<char>,
    i: int,
) -> (line: int)
    requires
        section_matches_offline(base, section, term) matches Ok(rows) && 0 <= i < rows.len(),
    ensures
        section_matches_offline(base, section, term) matches Ok(rows) && {
            &&& of_module(rows[i], base)
            &&& 0 <= line < lines(section).len()
            &&& first_match(term_pattern(term), lines(section)[line]) is Some
            &&& rows[i].cavp_algorithm == trimmed(lines(section)[line])
            &&& rows[i].cavp_listed == (rows[i].cavp_algorithm.len() > 0)
            &&& rows[i].properties.len() <= SUMMARY_CHARS
            &&& operation(term, rows[i].cavp_algorithm) == Ok::<Seq<char>, ErrorView>(
                rows[i].operation,
            )
        },
{
    let all = lines(section);
    let items = Seq::new(all.len(), |k: int| line_hit(all, term, k));
    let hits = line_hits(all, term)->Ok_0;
    lemma_collected_items(present(items));
    let k = law_hit_rows_are_of_hits(base, hits, i);
    let place = lemma_in_present(items, k);
    assert(items[place] == line_hit(all, term, place));
    assert(present(items)[k] == Ok::<HitView, ErrorView>(hits[k]));
    law_summary_is_short(hits[k].snippet, hits[k].algorithm, hits[k].certificate);
    place
}

/// A policy gives no two rows for a line with the same certificate.
pub proof fn law_section_matches_offline_differ(
    base: RowView,
    section: Seq<char>,
    term: Seq<char>,
    i: int,
    j: int,
)
    requires
        section_matches_offline(base, section, term) matches Ok(rows) && 0 <= i < j < rows.len(),
    ensures
        section_matches_offline(base, section, term) matches Ok(rows) && listing_key(rows[i])
            != listing_key(rows[j]),
{
    law_hit_rows_differ(base, line_hits(lines(section), term)->Ok_0, i, j);
}

/// A policy is scanned for each term by itself: the rows of a term do not
/// depend on the others.
pub proof fn law_policy_matches_by_term(
    base: RowView,
    policy_url: Seq<char>,
    policy_text: Seq<char>,
    candidates: Seq<(Seq<char>, Seq<Seq<char>>)>,
    i: int,
)
    requires
        policy_matches(base, policy_url, policy_text, candidates) is Ok,
        0 <= i < candidates.len(),
    ensures
        policy_matches(base, policy_url, policy_text, candidates) matches Ok(results)
            && results.len() == candidates.len() && policy_matches(
            base,
            policy_url,
            policy_text,
            seq![candidates[i]],
        ) == Ok::<Seq<Seq<RowView>>, ErrorView>(seq![results[i]]),
{
    let row = RowView { policy_url, ..base };
    let section = section_25(policy_text)->Ok_0;
    let each = |candidate: (Seq<char>, Seq<Seq<char>>)| term_matches(row, section, candidate);
    let items = candidates.map_values(each);
    let results = collected(items)->Ok_0;
    lemma_collected_items(items);
    assert(items[i] == Ok::<Seq<RowView>, ErrorView>(results[i]));
    let one = seq![candidates[i]].map_values(each);
    assert(one =~= seq![items[i]]);
    assert(one.drop_last() =~= seq![]);
    assert(collected(one.drop_last()) == Ok::<Seq<Seq<RowView>>, ErrorView>(seq![]));
    assert(collected(one) == Ok::<Seq<Seq<RowView>>, ErrorView>(seq![].push(results[i])));
    assert(seq![].push(results[i]) =~= seq![results[i]]);
    assert(candidate_matches(row, section, candidates) == collected(items));
    assert(candidate_matches(row, section, seq![candidates[i]]) == collected(one));
}

/// The scan of a module has a list of rows for each term.
pub proof fn law_module_matches_fit(
    base: RowView,
    policy_url: Option<Seq<char>>,
    policy_text: Option<Seq<char>>,
    candidates: Seq<(Seq<char>, Seq<Seq<char>>)>,
)
    ensures
        module_matches(base, policy_url, policy_text, candidates) matches Ok(lists)
            ==> lists.len() == candidates.len(),
{
    match (policy_url, policy_text) {
        (Some(policy_url), Some(text)) => {
            let row = RowView { policy_url, ..base };
            if section_25(text) is Ok {
                let section = section_25(text)->Ok_0;
                lemma_collected_items(
                    candidates.map_values(
                        |candidate: (Seq<char>, Seq<Seq<char>>)|
                            term_matches(row, section, candidate),
                    ),
                );
            }
        },
        _ => {},
    }
}

/// A policy with its form feeds made line feeds has the same section.
pub proof fn law_form_feeds_do_not_change_the_section(pdf_text: Seq<char>)
    ensures
        section_25(pages_as_lines(pdf_text)) == section_25(pdf_text),
{
    assert(pages_as_lines(pages_as_lines(pdf_text)) =~= pages_as_lines(pdf_text));
}

/// An error of results is the error of one of them.
pub proof fn lemma_collected_from<T>(items: Seq<Result<T, ErrorView>>) -> (i: int)
    requires
        collected(items) is Err,
    ensures
        0 <= i < items.len(),
        items[i] == Err::<T, ErrorView>(collected(items)->Err_0),
    decreases items.len(),
{
    if collected(items.drop_last()) is Err {
        lemma_collected_from(items.drop_last())
    } else {
        items.len() - 1
    }
}

/// Each byte offset of an ASCII text is a boundary.
proof fn lemma_ascii_boundaries(text: Seq<char>, i: int)
    requires
        is_ascii_chars(text),
        0 <= i <= byte_len(text),
    ensures
        boundary(text, i),
{
    let bytes = encode_utf8(text);
    encode_utf8_valid_utf8(text);
    is_char_boundary_start_end_of_seq(bytes);
    if i < bytes.len() {
        is_ascii_chars_encode_utf8(text);
        let b = bytes[i];
        assert(b < 128);
        assert(!is_continuation_byte(b)) by (bit_vector)
            requires
                b < 128,
        ;
        is_char_boundary_iff_not_is_continuation_byte(bytes, i);
    }
}

/// In an ASCII section no excerpt ends inside a character, whatever the
/// patterns find.
pub proof fn law_ascii_sections_are_not_split(
    base: RowView,
    section: Seq<char>,
    term: Seq<char>,
    algorithms: Seq<Seq<char>>,
)
    requires
        is_ascii_chars(section),
    ensures
        section_matches(base, section, term, algorithms) != Err::<Seq<RowView>, ErrorView>(
            ErrorView::SplitCharacter,
        ),
{
    let items = algorithms.map_values(
        |algorithm: Seq<char>| algorithm_hits(section, term, algorithm),
    );
    if collected(items) is Err {
        let i = lemma_collected_from(items);
        let algorithm = algorithms[i];
        assert(items[i] == algorithm_hits(section, term, algorithm));
        let spans = present(all_groups(term_pattern(algorithm), section, 2));
        let found = spans.map_values(
            |span: (usize, usize)| hit_at(section, term, algorithm, span),
        );
        if collected(found) is Err {
            let k = lemma_collected_from(found);
            assert(found[k] == hit_at(section, term, algorithm, spans[k]));
            lemma_ascii_boundaries(section, window_end(section, spans[k].0 as int));
        }
    }
}

/// An entry of a section is a line.
proof fn lemma_entry_is_line(line: Seq<char>)
    requires
        collapsed(line).len() > 0,
    ensures
        is_line(collapsed(line)),
{
    let entry = collapsed(line);
    if entry.contains('\n') {
        let k = choose|k: int| 0 <= k < entry.len() && entry[k] == '\n';
        law_collapsed_characters(line, k);
    }
    law_collapsed_characters(line, entry.len() - 1);
}

/// Where a policy has the section on algorithms, the lines that are left of
/// it have their words parted by one space, and none is empty, heads a column
/// or numbers a page.
pub proof fn law_section_25_lines(pdf_text: Seq<char>, i: int)
    requires
        all_matches(START_PATTERN@, pages_as_lines(pdf_text)).len() > 0,
        section_25(pdf_text) matches Ok(section) && 0 <= i < lines(section).len(),
    ensures
        section_25(pdf_text) matches Ok(section) && {
            let line = lines(section)[i];
            &&& line.len() > 0
            &&& collapsed(line) == line
            &&& !heads_column(line)
            &&& first_match(PAGE_PATTERN@, line) is None
        },
{
    broadcast use vstd::seq_lib::group_filter_ensures;

    let text = pages_as_lines(pdf_text);
    let rest = from_last(text, all_matches(START_PATTERN@, text))->Some_0;
    let section = up_to(rest, first_match(END_PATTERN@, rest));
    let raw = lines(section).map_values(|line: Seq<char>| collapsed(line));
    let filled = |line: Seq<char>| line.len() > 0 && !heads_column(line);
    let kept = entries(section).filter(is_content());
    assert forall|k: int| 0 <= k < kept.len() implies is_line(#[trigger] kept[k]) && collapsed(
        kept[k],
    ) == kept[k] && !heads_column(kept[k]) && first_match(PAGE_PATTERN@, kept[k]) is None by {
        assert(is_content()(kept[k]));
        assert(kept.contains(kept[k]));
        entries(section).lemma_filter_contains_rev(is_content(), kept[k]);
        let m = choose|m: int| 0 <= m < entries(section).len() && entries(section)[m] == kept[k];
        assert(filled(raw.filter(filled)[m]));
        assert(raw.filter(filled).contains(kept[k]));
        raw.lemma_filter_contains_rev(filled, kept[k]);
        let n = choose|n: int| 0 <= n < raw.len() && raw[n] == kept[k];
        assert(raw[n] == collapsed(lines(section)[n]));
        lemma_entry_is_line(lines(section)[n]);
        law_collapsed_idempotent(lines(section)[n]);
    }
    law_lines_of_joined(kept);
    assert(is_line(kept[i]));
}

/// A place that is there is one of the values that are there.
proof fn lemma_present_has<T>(items: Seq<Option<T>>, place: int) -> (k: int)
    requires
        0 <= place < items.len(),
        items[place] is Some,
    ensures
        0 <= k < present(items).len(),
        items[place] == Some(present(items)[k]),
    decreases items.len(),
{
    let head = items.drop_last();
    if place < head.len() {
        lemma_present_has(head, place)
    } else {
        present(head).len() as int
    }
}

/// An item of one of some lists is in the lists put one after another.
proof fn lemma_flattened_has<T>(lists: Seq<Seq<T>>, i: int, j: int) -> (k: int)
    requires
        0 <= i < lists.len(),
        0 <= j < lists[i].len(),
    ensures
        0 <= k < lists.flatten().len(),
        lists.flatten()[k] == lists[i][j],
    decreases lists.len(),
{
    let head = lists.drop_last();
    assert(lists =~= head.push(lists.last()));
    head.lemma_flatten_push(lists.last());
    if i < head.len() {
        assert(head[i] == lists[i]);
        lemma_flattened_has(head, i, j)
    } else {
        head.flatten().len() + j
    }
}

/// A certificate is the one that an excerpt gives: the text of the first match
/// of the pattern of certificates in the excerpt, and nothing where there is
/// no match.
pub open spec fn is_first_certificate(certificate: Seq<char>, excerpt: Seq<char>) -> bool {
    match first_match(r"\bA\d{3,6}\b"@, excerpt) {
        Some(found) => certificate == byte_slice(excerpt, found.0 as int, found.1 as int),
        None => certificate == Seq::<char>::empty(),
    }
}

/// An excerpt is the one that begins at a byte of a section: it ends 500 bytes
/// further on, or with the section.
pub open spec fn is_excerpt(excerpt: Seq<char>, section: Seq<char>, start: int) -> bool {
    excerpt == byte_slice(
        section,
        start,
        if start + 500 <= byte_len(section) {
            start + 500
        } else {
            byte_len(section) as int
        },
    )
}

/// The places where a section holds an algorithm: alone, in capitals or not.
pub open spec fn places_of(algorithm: Seq<char>, section: Seq<char>) -> Seq<
    Option<(usize, usize)>,
> {
    all_groups(
        r"(?i)(^|[^A-Za-z0-9])("@ + regex_escaped(algorithm) + r")([^A-Za-z0-9]|$)"@,
        section,
        2,
    )
}

/// The certificate of a row is the first one in the excerpt that begins where
/// the section holds the algorithm of the row, and the properties are those of
/// that excerpt.
pub proof fn law_section_certificates(
    base: RowView,
    section: Seq<char>,
    term: Seq<char>,
    algorithms: Seq<Seq<char>>,
    i: int,
) -> (found: ((usize, usize), Seq<char>))
    requires
        section_matches(base, section, term, algorithms) matches Ok(rows) && 0 <= i < rows.len(),
    ensures
        section_matches(base, section, term, algorithms) matches Ok(rows) && {
            &&& places_of(rows[i].cavp_algorithm, section).contains(Some(found.0))
            &&& is_excerpt(found.1, section, found.0.0 as int)
            &&& is_first_certificate(rows[i].cavp_certificate, found.1)
            &&& rows[i].properties == summary(
                found.1,
                rows[i].cavp_algorithm,
                rows[i].cavp_certificate,
            )
            &&& operation(term, rows[i].cavp_algorithm) == Ok::<Seq<char>, ErrorView>(
                rows[i].operation,
            )
        },
{
    let hits = section_hits(section, term, algorithms)->Ok_0;
    let items = algorithms.map_values(
        |algorithm: Seq<char>| algorithm_hits(section, term, algorithm),
    );
    let lists = collected(items)->Ok_0;
    lemma_collected_items(items);
    let k = law_hit_rows_are_of_hits(base, hits, i);
    let place = lemma_in_flattened(lists, k);
    let algorithm = algorithms[place.0];
    assert(items[place.0] == algorithm_hits(section, term, algorithm));
    let groups = all_groups(term_pattern(algorithm), section, 2);
    let spans = present(groups);
    let found = spans.map_values(
        |span: (usize, usize)| hit_at(section, term, algorithm, span),
    );
    lemma_collected_items(found);
    assert(found[place.1] == hit_at(section, term, algorithm, spans[place.1]));
    let m = lemma_in_present(groups, place.1);
    assert(groups[m] == Some(spans[place.1]));
    assert(places_of(algorithm, section) == groups);
    (spans[place.1], hits[k].snippet)
}

/// Each place where a section holds one of the algorithms has a row, with the
/// first certificate in the excerpt that begins there.
pub proof fn law_section_places_have_rows(
    base: RowView,
    section: Seq<char>,
    term: Seq<char>,
    algorithms: Seq<Seq<char>>,
    a: int,
    p: int,
) -> (found: (int, Seq<char>))
    requires
        section_matches(base, section, term, algorithms) is Ok,
        0 <= a < algorithms.len(),
        0 <= p < places_of(algorithms[a], section).len(),
        places_of(algorithms[a], section)[p] is Some,
    ensures
        section_matches(base, section, term, algorithms) matches Ok(rows) && {
            &&& 0 <= found.0 < rows.len()
            &&& rows[found.0].cavp_algorithm == algorithms[a]
            &&& (places_of(algorithms[a], section)[p] matches Some(span) && is_excerpt(
                found.1,
                section,
                span.0 as int,
            ))
            &&& is_first_certificate(rows[found.0].cavp_certificate, found.1)
        },
{
    let hits = section_hits(section, term, algorithms)->Ok_0;
    let items = algorithms.map_values(
        |algorithm: Seq<char>| algorithm_hits(section, term, algorithm),
    );
    let lists = collected(items)->Ok_0;
    lemma_collected_items(items);
    let algorithm = algorithms[a];
    assert(items[a] == algorithm_hits(section, term, algorithm));
    let groups = all_groups(term_pattern(algorithm), section, 2);
    assert(places_of(algorithm, section) == groups);
    let spans = present(groups);
    let found = spans.map_values(
        |span: (usize, usize)| hit_at(section, term, algorithm, span),
    );
    lemma_collected_items(found);
    let m = lemma_present_has(groups, p);
    assert(found[m] == hit_at(section, term, algorithm, spans[m]));
    let k = lemma_flattened_has(lists, a, m);
    let i = law_hit_rows_cover_hits(base, hits, k);
    (i, hits[k].snippet)
}

/// The excerpt of a line: ten lines from it on, or as many as there are, with
/// spaces between them.
pub open spec fn is_line_excerpt(
    excerpt: Seq<char>,
    section: Seq<char>,
    line: int,
) -> bool {
    let all = lines(section);
    excerpt == join(
        all.subrange(
            line,
            if line + 10 <= all.len() {
                line + 10
            } else {
                all.len() as int
            },
        ),
        seq![' '],
    )
}

/// The term pattern of a text finds something in a line.
pub open spec fn holds_term(line: Seq<char>, term: Seq<char>) -> bool {
    first_match(
        r"(?i)(^|[^A-Za-z0-9])("@ + regex_escaped(term) + r")([^A-Za-z0-9]|$)"@,
        line,
    ) is Some
}

/// The certificate of a row for a term alone is the first one in the excerpt
/// of a line that holds the term and is the algorithm of the row.
pub proof fn law_offline_certificates(
    base: RowView,
    section: Seq<char>,
    term: Seq<char>,
    i: int,
) -> (found: (int, Seq<char>))
    requires
        section_matches_offline(base, section, term) matches Ok(rows) && 0 <= i < rows.len(),
    ensures
        section_matches_offline(base, section, term) matches Ok(rows) && {
            &&& 0 <= found.0 < lines(section).len()
            &&& holds_term(lines(section)[found.0], term)
            &&& rows[i].cavp_algorithm == trimmed(lines(section)[found.0])
            &&& is_line_excerpt(found.1, section, found.0)
            &&& is_first_certificate(rows[i].cavp_certificate, found.1)
            &&& rows[i].properties == summary(
                found.1,
                rows[i].cavp_algorithm,
                rows[i].cavp_certificate,
            )
            &&& operation(term, rows[i].cavp_algorithm) == Ok::<Seq<char>, ErrorView>(
                rows[i].operation,
            )
        },
{
    let all = lines(section);
    let items = Seq::new(all.len(), |k: int| line_hit(all, term, k));
    let hits = line_hits(all, term)->Ok_0;
    lemma_collected_items(present(items));
    let k = law_hit_rows_are_of_hits(base, hits, i);
    let place = lemma_in_present(items, k);
    assert(items[place] == line_hit(all, term, place));
    assert(present(items)[k] == Ok::<HitView, ErrorView>(hits[k]));
    (place, hits[k].snippet)
}

/// Each line that holds the term has a row, with the first certificate in the
/// excerpt of the line.
pub proof fn law_offline_lines_have_rows(
    base: RowView,
    section: Seq<char>,
    term: Seq<char>,
    line: int,
) -> (found: (int, Seq<char>))
    requires
        section_matches_offline(base, section, term) is Ok,
        0 <= line < lines(section).len(),
        holds_term(lines(section)[line], term),
    ensures
        section_matches_offline(base, section, term) matches Ok(rows) && {
            &&& 0 <= found.0 < rows.len()
            &&& rows[found.0].cavp_algorithm == trimmed(lines(section)[line])
            &&& is_line_excerpt(found.1, section, line)
            &&& is_first_certificate(rows[found.0].cavp_certificate, found.1)
        },
{
    let all = lines(section);
    let items = Seq::new(all.len(), |k: int| line_hit(all, term, k));
    let hits = line_hits(all, term)->Ok_0;
    lemma_collected_items(present(items));
    assert(items[line] == line_hit(all, term, line));
    let k = lemma_present_has(items, line);
    assert(present(items)[k] == Ok::<HitView, ErrorView>(hits[k]));
    let i = law_hit_rows_cover_hits(base, hits, k);
    (i, hits[k].snippet)
}

/// The rows of hits stand in the order of the hits, and each is that of the
/// first hit with its algorithm and its certificate.
pub proof fn law_hit_rows_in_order(base: RowView, hits: Seq<HitView>) -> (places: Seq<int>)
    ensures
        places.len() == hit_rows(base, hits).len(),
        forall|i: int|
            0 <= i < places.len() ==> 0 <= #[trigger] places[i] < hits.len() && hit_rows(
                base,
                hits,
            )[i] == hit_row(base, hits[places[i]]),
        forall|i: int, j: int| 0 <= i < j < places.len() ==> places[i] < places[j],
        forall|i: int, m: int|
            0 <= i < places.len() && 0 <= m < places[i] ==> (#[trigger] hits[m]).algorithm
                != hits[#[trigger] places[i]].algorithm || hits[m].certificate
                != hits[places[i]].certificate,
    decreases hits.len(),
{
    if hits.len() == 0 {
        seq![]
    } else {
        let head = hits.drop_last();
        let last = hits.last();
        let before = law_hit_rows_in_order(base, head);
        let places = if has_hit(head, last.algorithm, last.certificate) {
            before
        } else {
            before.push(hits.len() - 1)
        };
        assert forall|i: int, m: int|
            0 <= i < places.len() && 0 <= m < places[i] implies (#[trigger] hits[m]).algorithm
            != hits[#[trigger] places[i]].algorithm || hits[m].certificate
            != hits[places[i]].certificate by {
            if i < before.len() {
                assert(places[i] == before[i]);
                assert(head[m] == hits[m] && head[before[i]] == hits[before[i]]);
            } else {
                assert(head[m] == hits[m]);
            }
        }
        places
    }
}

/// What a policy leaves of section 2.5: its lines are those between the last
/// heading of the section and the first heading of section 2.6 after it, with
/// their words parted by one space, and without empty lines, column heads and
/// page numbers.
pub proof fn law_section_25_is_cut_out(pdf_text: Seq<char>)
    requires
        section_25(pdf_text) is Ok,
    ensures
        ({
            let text = pages_as_lines(pdf_text);
            let starts = all_matches(r"(?m)^2\.5 Algorithms\b"@, text);
            let rest = byte_slice(text, starts.last().0 as int, byte_len(text) as int);
            let section = match first_match(r"(?m)^2\.6\b"@, rest) {
                Some(end) => byte_slice(rest, 0, end.0 as int),
                None => rest,
            };
            section_25(pdf_text) matches Ok(left) && if starts.len() == 0 {
                left == text
            } else {
                left == join(lines(left), seq!['\n']) && lines(left) == lines(section).map_values(
                    |line: Seq<char>| collapsed(line),
                ).filter(
                    |line: Seq<char>|
                        line.len() > 0 && line != "Algorithm"@ && line != "CAVP"@ && line
                            != "Cert"@ && line != "Properties"@ && line != "Reference"@
                            && first_match(r"^Page \d+ of \d+$"@, line) is None,
                )
            }
        }),
{
    broadcast use vstd::seq_lib::group_filter_ensures;

    let text = pages_as_lines(pdf_text);
    let starts = all_matches(r"(?m)^2\.5 Algorithms\b"@, text);
    if starts.len() > 0 {
        let rest = byte_slice(text, starts.last().0 as int, byte_len(text) as int);
        let section = match first_match(r"(?m)^2\.6\b"@, rest) {
            Some(end) => byte_slice(rest, 0, end.0 as int),
            None => rest,
        };
        let raw = lines(section).map_values(|line: Seq<char>| collapsed(line));
        let filled = |line: Seq<char>| line.len() > 0 && !heads_column(line);
        let kept = entries(section).filter(is_content());
        let both = |line: Seq<char>|
            line.len() > 0 && line != "Algorithm"@ && line != "CAVP"@ && line != "Cert"@ && line
                != "Properties"@ && line != "Reference"@ && first_match(
                r"^Page \d+ of \d+$"@,
                line,
            ) is None;
        lemma_filter_twice(raw, filled, is_content(), both);
        assert forall|k: int| 0 <= k < kept.len() implies is_line(#[trigger] kept[k]) by {
            assert(kept.contains(kept[k]));
            entries(section).lemma_filter_contains_rev(is_content(), kept[k]);
            let m = choose|m: int|
                0 <= m < entries(section).len() && entries(section)[m] == kept[k];
            assert(filled(raw.filter(filled)[m]));
            assert(raw.filter(filled).contains(kept[k]));
            raw.lemma_filter_contains_rev(filled, kept[k]);
            let n = choose|n: int| 0 <= n < raw.len() && raw[n] == kept[k];
            assert(raw[n] == collapsed(lines(section)[n]));
            lemma_entry_is_line(lines(section)[n]);
        }
        law_lines_of_joined(kept);
    }
}

/// Filtering twice is filtering by both.
pub proof fn lemma_filter_twice<A>(
    s: Seq<A>,
    first: spec_fn(A) -> bool,
    second: spec_fn(A) -> bool,
    both: spec_fn(A) -> bool,
)
    requires
        forall|a: A| #[trigger] both(a) <==> first(a) && second(a),
    ensures
        s.filter(first).filter(second) == s.filter(both),
    decreases s.len(),
{
    if s.len() == 0 {
        reveal(Seq::filter);
        assert(s.filter(first).filter(second) =~= s.filter(both));
    } else {
        let head = s.drop_last();
        let last = s.last();
        lemma_filter_twice(head, first, second, both);
        assert(s =~= head.push(last));
        lemma_filter_push(head, last, first);
        lemma_filter_push(head.filter(first), last, second);
        lemma_filter_push(head, last, both);
        assert(both(last) <==> first(last) && second(last));
    }
}

/// The operation of an algorithm that begins with a term is what follows the
/// term and the white space and hyphens after it, trimmed: nothing of that is
/// lost. It is the algorithm where nothing is left.
pub proof fn law_operation_follows_the_term(
    term: Seq<char>,
    lead: Seq<char>,
    separators: Seq<char>,
    rest: Seq<char>,
    end: usize,
)
    requires
        !same_ignoring_case(lead + separators + rest, term),
        end == byte_len(lead + separators),
        regex_compiles(r"(?i)^"@ + regex_escaped(term) + r"[\s-]*"@),
        first_match(
            r"(?i)^"@ + regex_escaped(term) + r"[\s-]*"@,
            lead + separators + rest,
        ) == Some((0usize, end)),
    ensures
        operation(term, lead + separators + rest) == Ok::<Seq<char>, ErrorView>(
            if trimmed(rest).len() > 0 {
                trimmed(rest)
            } else {
                lead + separators + rest
            },
        ),
{
    let head = lead + separators;
    let algorithm = head + rest;
    let pattern = r"(?i)^"@ + regex_escaped(term) + r"[\s-]*"@;
    let n = head.len() as int;
    let m = algorithm.len() as int;
    assert(algorithm.take(n) =~= head);
    assert(algorithm.take(m) =~= algorithm);
    assert(algorithm.take(0) =~= seq![]);
    assert(byte_len(algorithm.take(0)) == 0);
    lemma_slice_of_chars(algorithm, 0, 0);
    lemma_slice_of_chars(algorithm, n, m);
    assert(algorithm.subrange(0, 0) =~= seq![]);
    assert(algorithm.subrange(n, m) =~= rest);
    assert(first_replaced(pattern, algorithm, seq![]) =~= rest);
}

/// The operation of an algorithm in which the term does not lead is the
/// algorithm, trimmed.
pub proof fn law_operation_without_the_term(term: Seq<char>, algorithm: Seq<char>)
    requires
        !same_ignoring_case(algorithm, term),
        regex_compiles(r"(?i)^"@ + regex_escaped(term) + r"[\s-]*"@),
        first_match(r"(?i)^"@ + regex_escaped(term) + r"[\s-]*"@, algorithm) is None,
        trimmed(algorithm).len() > 0,
    ensures
        operation(term, algorithm) == Ok::<Seq<char>, ErrorView>(trimmed(algorithm)),
{
}

/// An algorithm that is the term, but for the case of ASCII letters, is its
/// own operation.
pub proof fn law_operation_of_the_same_name(term: Seq<char>, algorithm: Seq<char>)
    requires
        same_ignoring_case(algorithm, term),
    ensures
        operation(term, algorithm) == Ok::<Seq<char>, ErrorView>(algorithm),
{
}

/// The policy that a page links to: the path that the pattern of such links
/// finds first, as an address, and none without such a link.
pub proof fn law_policy_links(html: Seq<char>)
    ensures
        ({
            let place = first_group(
                r#"(?i)href="(?P<href>/CSRC/media/projects/cryptographic-module-validation-program/documents/security-policies/[^"]+\.pdf)""#@,
                html,
                1,
            );
            policy_link(html) is Ok ==> policy_link(html) == Ok::<Option<Seq<char>>, ErrorView>(
                match place {
                    Some(Some(span)) => Some(
                        absolute(byte_slice(html, span.0 as int, span.1 as int)),
                    ),
                    _ => None,
                },
            )
        }),
{
}

/// The policy that a page links to comes before the one that the row knows,
/// and an empty one is none.
pub proof fn law_policies_of_rows(page: Option<Seq<char>>, row: RowView)
    ensures
        page matches Some(html) ==> (policy_link(html) matches Ok(Some(url)) ==> page_policy(
            page,
            row,
        ) == Ok::<Option<Seq<char>>, ErrorView>(Some(url))),
        page is None || policy_link(page->Some_0) == Ok::<Option<Seq<char>>, ErrorView>(None)
            ==> page_policy(page, row) == Ok::<Option<Seq<char>>, ErrorView>(
            if row.policy_url.len() > 0 {
                Some(row.policy_url)
            } else {
                None
            },
        ),
{
}

/// What a row quotes after an algorithm and its certificate is what follows
/// them, up to 220 characters, without white space at its end.
pub proof fn law_summary_follows_the_certificate(
    snippet: Seq<char>,
    algorithm: Seq<char>,
    certificate: Seq<char>,
    marks: Seq<char>,
    body: Seq<char>,
)
    requires
        collapsed(snippet) == algorithm + seq![' '] + certificate + seq![' '] + marks + body,
        certificate.len() > 0,
        !white_space(certificate[0]),
        forall|k: int| 0 <= k < marks.len() ==> is_mark(#[trigger] marks[k]),
        marks.len() > 0 ==> !white_space(marks[0]),
        body.len() > 0,
        !is_mark(body[0]),
        !white_space(body[0]),
        !white_space(body.last()),
    ensures
        summary(snippet, algorithm, certificate) == trimmed_end(
            if body.len() <= 220 {
                body
            } else {
                body.take(220)
            },
        ),
{
    let space = seq![' '];
    let whole = collapsed(snippet);
    let tail = marks + body;
    let after = certificate + space + tail;
    assert(whole =~= algorithm + (space + after));
    assert(whole.take(algorithm.len() as int) =~= algorithm);
    assert(algorithm.is_prefix_of(whole));
    assert(whole.skip(algorithm.len() as int) =~= space + after);
    assert(after.last() == body.last());
    assert(after[0] == certificate[0]);
    law_trimming_takes_white_space(space, after, seq![]);
    assert(space + after + Seq::<char>::empty() =~= space + after);
    assert(after.take(certificate.len() as int) =~= certificate);
    assert(certificate.is_prefix_of(after));
    assert(after.skip(certificate.len() as int) =~= space + tail);
    assert(tail.last() == body.last());
    assert(tail[0] == if marks.len() > 0 { marks[0] } else { body[0] });
    law_trimming_takes_white_space(space, tail, seq![]);
    assert(space + tail + Seq::<char>::empty() =~= space + tail);
    lemma_marks();
    assert forall|k: int| 0 <= k < marks.len() implies " -:;,."@.contains(
        #[trigger] tail[k],
    ) by {
        assert(tail[k] == marks[k]);
    }
    assert(tail[marks.len() as int] == body[0]);
    law_leading_characters(tail, " -:;,."@, marks.len() as int);
    assert(tail.skip(marks.len() as int) =~= body);
}

/// What is passed over before what a row quotes: spaces and marks.
pub open spec fn is_mark(c: char) -> bool {
    c == ' ' || c == '-' || c == ':' || c == ';' || c == ',' || c == '.'
}

/// The characters that are passed over.
proof fn lemma_marks()
    ensures
        forall|c: char| #[trigger] " -:;,."@.contains(c) <==> is_mark(c),
{
    reveal_strlit(" -:;,.");
    let set = " -:;,."@;
    assert(set[0] == ' ' && set[1] == '-' && set[2] == ':' && set[3] == ';' && set[4] == ','
        && set[5] == '.');
}

/// What a row quotes without a certificate is what follows the algorithm.
pub proof fn law_summary_follows_the_algorithm(
    snippet: Seq<char>,
    algorithm: Seq<char>,
    marks: Seq<char>,
    body: Seq<char>,
)
    requires
        collapsed(snippet) == algorithm + seq![' '] + marks + body,
        forall|k: int| 0 <= k < marks.len() ==> is_mark(#[trigger] marks[k]),
        marks.len() > 0 ==> !white_space(marks[0]),
        body.len() > 0,
        !is_mark(body[0]),
        !white_space(body[0]),
        !white_space(body.last()),
    ensures
        summary(snippet, algorithm, Seq::<char>::empty()) == trimmed_end(
            if body.len() <= 220 {
                body
            } else {
                body.take(220)
            },
        ),
{
    let space = seq![' '];
    let whole = collapsed(snippet);
    let tail = marks + body;
    assert(whole =~= algorithm + (space + tail));
    assert(whole.take(algorithm.len() as int) =~= algorithm);
    assert(algorithm.is_prefix_of(whole));
    assert(whole.skip(algorithm.len() as int) =~= space + tail);
    assert(tail.last() == body.last());
    assert(tail[0] == if marks.len() > 0 { marks[0] } else { body[0] });
    law_trimming_takes_white_space(space, tail, seq![]);
    assert(space + tail + Seq::<char>::empty() =~= space + tail);
    lemma_marks();
    assert forall|k: int| 0 <= k < marks.len() implies " -:;,."@.contains(
        #[trigger] tail[k],
    ) by {
        assert(tail[k] == marks[k]);
    }
    assert(tail[marks.len() as int] == body[0]);
    law_leading_characters(tail, " -:;,."@, marks.len() as int);
    assert(tail.skip(marks.len() as int) =~= body);
}

/// Neither the algorithm nor the certificate is taken away where the excerpt
/// does not begin with it.
pub proof fn law_summary_of_other_excerpts(
    snippet: Seq<char>,
    algorithm: Seq<char>,
    certificate: Seq<char>,
    n: int,
)
    requires
        ({
            let whole = collapsed(snippet);
            &&& !algorithm.is_prefix_of(whole)
            &&& certificate.len() > 0 ==> !certificate.is_prefix_of(whole)
            &&& 0 <= n <= whole.len()
            &&& forall|k: int| 0 <= k < n ==> is_mark(#[trigger] whole[k])
            &&& n < whole.len() ==> !is_mark(whole[n])
        }),
    ensures
        ({
            let rest = collapsed(snippet).skip(n);
            summary(snippet, algorithm, certificate) == trimmed_end(
                if rest.len() <= 220 {
                    rest
                } else {
                    rest.take(220)
                },
            )
        }),
{
    let whole = collapsed(snippet);
    lemma_marks();
    assert forall|k: int| 0 <= k < n implies " -:;,."@.contains(#[trigger] whole[k]) by {
        assert(is_mark(whole[k]));
    }
    law_leading_characters(whole, " -:;,."@, n);
}

/// Rows of a policy leave what tells of entropy sources empty.
pub proof fn law_hit_rows_tell_of_modules(base: RowView, hit: HitView)
    ensures
        ({
            let row = hit_row(base, hit);
            &&& of_module(row, base)
            &&& row.cavp_algorithm == hit.algorithm
            &&& row.cavp_certificate == hit.certificate
            &&& row.operation == hit.operation
            &&& row.cavp_listed == hit.listed
            &&& row.esv_standard.len() == 0
            &&& row.esv_description.len() == 0
            &&& row.esv_noise_source.len() == 0
            &&& row.esv_reuse_status.len() == 0
            &&& row.entropy_document_url.len() == 0
        }),
{
}

/// A term is looked for with the algorithms that it stands for, and by itself
/// where none are known, in the rows of a module with the policy's address.
pub proof fn law_terms_of_a_policy(
    base: RowView,
    policy_url: Seq<char>,
    policy_text: Seq<char>,
    term: Seq<char>,
    algorithms: Seq<Seq<char>>,
    section: Seq<char>,
)
    requires
        section_25(policy_text) == Ok::<Seq<char>, ErrorView>(section),
    ensures
        policy_matches(base, policy_url, policy_text, seq![(term, algorithms)]) == match (
        if algorithms.len() == 0 {
            section_matches_offline((RowView { policy_url, ..base }), section, term)
        } else {
            section_matches((RowView { policy_url, ..base }), section, term, algorithms)
        }) {
            Ok(rows) => Ok::<Seq<Seq<RowView>>, ErrorView>(seq![rows]),
            Err(error) => Err(error),
        },
{
    let row = RowView { policy_url, ..base };
    let each = |candidate: (Seq<char>, Seq<Seq<char>>)| term_matches(row, section, candidate);
    let items = seq![(term, algorithms)].map_values(each);
    assert(items.drop_last() =~= seq![]);
    assert(items.last() == term_matches(row, section, (term, algorithms)));
    assert(collected(items.drop_last()) == Ok::<Seq<Seq<RowView>>, ErrorView>(seq![]));
    match items.last() {
        Ok(rows) => {
            assert(Seq::<Seq<RowView>>::empty().push(rows) =~= seq![rows]);
        },
        Err(_) => {},
    }
}

/// A section is cut out wherever the patterns compile, whatever the policy
/// holds.
pub proof fn law_sections_are_cut_out(pdf_text: Seq<char>)
    requires
        regex_compiles(r"(?m)^2\.5 Algorithms\b"@),
        regex_compiles(r"(?m)^2\.6\b"@),
        regex_compiles(r"^Page \d+ of \d+$"@),
    ensures
        section_25(pdf_text) is Ok,
{
}

/// A section is scanned for algorithms wherever the patterns compile and no
/// excerpt ends inside a character.
pub proof fn law_sections_are_scanned(
    base: RowView,
    section: Seq<char>,
    term: Seq<char>,
    algorithms: Seq<Seq<char>>,
)
    requires
        regex_compiles(r"\bA\d{3,6}\b"@),
        regex_compiles(r"(?i)^"@ + regex_escaped(term) + r"[\s-]*"@),
        forall|a: int|
            0 <= a < algorithms.len() ==> regex_compiles(
                r"(?i)(^|[^A-Za-z0-9])("@ + regex_escaped(#[trigger] algorithms[a])
                    + r")([^A-Za-z0-9]|$)"@,
            ),
        forall|start: int|
            0 <= start && start + 500 <= byte_len(section) ==> #[trigger] boundary(
                section,
                start + 500,
            ),
    ensures
        section_matches(base, section, term, algorithms) is Ok,
{
    let items = algorithms.map_values(
        |algorithm: Seq<char>| algorithm_hits(section, term, algorithm),
    );
    if collected(items) is Err {
        let i = lemma_collected_from(items);
        let algorithm = algorithms[i];
        assert(items[i] == algorithm_hits(section, term, algorithm));
        assert(regex_compiles(term_pattern(algorithm)));
        let spans = present(all_groups(term_pattern(algorithm), section, 2));
        let found = spans.map_values(
            |span: (usize, usize)| hit_at(section, term, algorithm, span),
        );
        assert(collected(found) is Err);
        let k = lemma_collected_from(found);
        let start = spans[k].0 as int;
        assert(found[k] == hit_at(section, term, algorithm, spans[k]));
        encode_utf8_valid_utf8(section);
        is_char_boundary_start_end_of_seq(encode_utf8(section));
        if start + 500 <= byte_len(section) {
            assert(boundary(section, start + 500));
        }
        assert(boundary(section, window_end(section, start)));
    }
}

/// A section is scanned for a term alone wherever the patterns compile.
pub proof fn law_sections_are_scanned_offline(
    base: RowView,
    section: Seq<char>,
    term: Seq<char>,
)
    requires
        regex_compiles(r"\bA\d{3,6}\b"@),
        regex_compiles(r"(?i)^"@ + regex_escaped(term) + r"[\s-]*"@),
        regex_compiles(
            r"(?i)(^|[^A-Za-z0-9])("@ + regex_escaped(term) + r")([^A-Za-z0-9]|$)"@,
        ),
    ensures
        section_matches_offline(base, section, term) is Ok,
{
    let all = lines(section);
    let items = Seq::new(all.len(), |k: int| line_hit(all, term, k));
    if collected(present(items)) is Err {
        let k = lemma_collected_from(present(items));
        let place = lemma_in_present(items, k);
        assert(items[place] == line_hit(all, term, place));
    }
}

/// A module without a policy, or with one whose text is out of reach, has no
/// rows; the rows of another come from the section of its policy, with the
/// address of the policy, term by term: by the algorithms of the term, or by
/// the lines that hold it where it has none.
pub proof fn law_modules_are_scanned(
    base: RowView,
    url: Seq<char>,
    text: Seq<char>,
    candidates: Seq<(Seq<char>, Seq<Seq<char>>)>,
    policy_url: Option<Seq<char>>,
    policy_text: Option<Seq<char>>,
    k: int,
)
    requires
        0 <= k < candidates.len(),
    ensures
        policy_url is None || policy_text is None ==> (module_matches(
            base,
            policy_url,
            policy_text,
            candidates,
        ) matches Ok(lists) && lists.len() == candidates.len() && lists[k].len() == 0),
        ({
            let row = RowView { policy_url: url, ..base };
            module_matches(base, Some(url), Some(text), candidates) matches Ok(lists) ==> (
            section_25(text) matches Ok(section) && Ok::<Seq<RowView>, ErrorView>(lists[k])
                == if candidates[k].1.len() == 0 {
                section_matches_offline(row, section, candidates[k].0)
            } else {
                section_matches(row, section, candidates[k].0, candidates[k].1)
            })
        }),
{
    let row = RowView { policy_url: url, ..base };
    if module_matches(base, Some(url), Some(text), candidates) is Ok {
        let section = section_25(text)->Ok_0;
        let items = candidates.map_values(
            |candidate: (Seq<char>, Seq<Seq<char>>)| term_matches(row, section, candidate),
        );
        lemma_collected_items(items);
        assert(items[k] == term_matches(row, section, candidates[k]));
    }
}

/// The places of the values that are there: they grow, and none is left out.
proof fn lemma_present_places<T>(items: Seq<Option<T>>) -> (places: Seq<int>)
    ensures
        places.len() == present(items).len(),
        forall|k: int|
            0 <= k < places.len() ==> 0 <= #[trigger] places[k] < items.len() && items[places[k]]
                == Some(present(items)[k]),
        forall|i: int, j: int| 0 <= i < j < places.len() ==> places[i] < places[j],
        forall|m: int|
            0 <= m < items.len() && (#[trigger] items[m]) is Some ==> places.contains(m),
    decreases items.len(),
{
    if items.len() == 0 {
        seq![]
    } else {
        let head = items.drop_last();
        let before = lemma_present_places(head);
        let places = if items.last() is Some {
            before.push(items.len() - 1)
        } else {
            before
        };
        assert forall|k: int| 0 <= k < places.len() implies 0 <= #[trigger] places[k] < items.len()
            && items[places[k]] == Some(present(items)[k]) by {
            if k < before.len() {
                assert(places[k] == before[k]);
                assert(head[before[k]] == items[before[k]]);
            }
        }
        assert forall|m: int| 0 <= m < items.len() && (#[trigger] items[m]) is Some implies
            places.contains(m) by {
            if m < head.len() {
                assert(head[m] == items[m]);
                assert(before.contains(m));
                let k = choose|k: int| 0 <= k < before.len() && before[k] == m;
                assert(places[k] == m);
            } else {
                assert(places[before.len() as int] == m);
            }
        }
        places
    }
}

/// The rows of one algorithm stand in the order in which the section holds it,
/// and each is that of the first place whose excerpt has its certificate
/// first.
pub proof fn law_places_of_an_algorithm_in_order(
    base: RowView,
    section: Seq<char>,
    term: Seq<char>,
    algorithm: Seq<char>,
) -> (places: Seq<int>)
    requires
        section_matches(base, section, term, seq![algorithm]) is Ok,
    ensures
        section_matches(base, section, term, seq![algorithm]) matches Ok(rows) && {
            &&& places.len() == rows.len()
            &&& forall|i: int|
                0 <= i < places.len() ==> 0 <= #[trigger] places[i] < places_of(
                    algorithm,
                    section,
                ).len() && (places_of(algorithm, section)[places[i]] matches Some(span)
                    && certificate_after(rows[i].cavp_certificate, section, span.0 as int))
            &&& forall|i: int, j: int| 0 <= i < j < places.len() ==> places[i] < places[j]
            &&& forall|i: int, m: int|
                0 <= i < places.len() && 0 <= m < #[trigger] places[i] ==> ((
                #[trigger] places_of(algorithm, section)[m]) matches Some(span)
                    ==> !certificate_after(rows[i].cavp_certificate, section, span.0 as int))
        },
{
    let items = seq![algorithm].map_values(
        |algorithm: Seq<char>| algorithm_hits(section, term, algorithm),
    );
    let lists = collected(items)->Ok_0;
    lemma_collected_items(items);
    assert(items[0] == algorithm_hits(section, term, algorithm));
    let list = lists[0];
    assert(lists =~= Seq::<Seq<HitView>>::empty().push(list));
    Seq::<Seq<HitView>>::empty().lemma_flatten_push(list);
    assert(Seq::<Seq<HitView>>::empty().flatten() =~= seq![]);
    assert(lists.flatten() =~= list);
    let groups = all_groups(term_pattern(algorithm), section, 2);
    assert(places_of(algorithm, section) == groups);
    let spans = present(groups);
    let found = spans.map_values(
        |span: (usize, usize)| hit_at(section, term, algorithm, span),
    );
    lemma_collected_items(found);
    assert forall|k: int| 0 <= k < list.len() implies (#[trigger] list[k]).algorithm == algorithm
        && certificate_after(list[k].certificate, section, spans[k].0 as int) by {
        assert(found[k] == hit_at(section, term, algorithm, spans[k]));
        assert(is_excerpt(list[k].snippet, section, spans[k].0 as int));
    }
    let there = lemma_present_places(groups);
    let kept = law_hit_rows_in_order(base, list);
    let rows = hit_rows(base, list);
    let places = Seq::new(kept.len(), |i: int| there[kept[i]]);
    assert forall|i: int, m: int|
        0 <= i < places.len() && 0 <= m < #[trigger] places[i] implies ((#[trigger] groups[m])
        matches Some(span) ==> !certificate_after(
        rows[i].cavp_certificate,
        section,
        span.0 as int,
    )) by {
        if groups[m] is Some {
            assert(there.contains(m));
            let k = choose|k: int| 0 <= k < there.len() && there[k] == m;
            assert(places[i] == there[kept[i]]);
            assert(k < kept[i]);
            assert(groups[there[k]] == Some(spans[k]));
            assert(list[k].certificate != list[kept[i]].certificate);
            lemma_one_certificate_after(
                list[k].certificate,
                rows[i].cavp_certificate,
                section,
                spans[k].0 as int,
            );
        }
    }
    assert forall|i: int| 0 <= i < places.len() implies 0 <= #[trigger] places[i] < groups.len()
        && (groups[places[i]] matches Some(span) && certificate_after(
        rows[i].cavp_certificate,
        section,
        span.0 as int,
    )) by {
        assert(places[i] == there[kept[i]]);
        assert(groups[there[kept[i]]] == Some(spans[kept[i]]));
        assert(certificate_after(list[kept[i]].certificate, section, spans[kept[i]].0 as int));
    }
    places
}

/// A certificate is the first one in the excerpt that begins at a byte of a
/// section.
pub open spec fn certificate_after(
    certificate: Seq<char>,
    section: Seq<char>,
    start: int,
) -> bool {
    exists|excerpt: Seq<char>| #[trigger]
        is_excerpt(excerpt, section, start) && is_first_certificate(certificate, excerpt)
}

/// An excerpt has one certificate.
proof fn lemma_one_certificate_after(
    a: Seq<char>,
    b: Seq<char>,
    section: Seq<char>,
    start: int,
)
    requires
        certificate_after(a, section, start),
    ensures
        certificate_after(b, section, start) ==> a == b,
{
}

/// The rows of hits are those of the first ones, and those of the others that
/// have another algorithm.
proof fn lemma_rows_of_others(base: RowView, first: Seq<HitView>, others: Seq<HitView>)
    requires
        forall|i: int, j: int|
            0 <= i < first.len() && 0 <= j < others.len() ==> (#[trigger] first[i]).algorithm != (
            #[trigger] others[j]).algorithm,
    ensures
        hit_rows(base, first + others) == hit_rows(base, first) + hit_rows(base, others),
    decreases others.len(),
{
    if others.len() == 0 {
        assert(first + others =~= first);
        assert(hit_rows(base, first) + hit_rows(base, others) =~= hit_rows(base, first));
    } else {
        let head = others.drop_last();
        let last = others.last();
        assert(last == others[others.len() - 1]);
        assert forall|i: int, j: int|
            0 <= i < first.len() && 0 <= j < head.len() implies (#[trigger] first[i]).algorithm != (
        #[trigger] head[j]).algorithm by {
            assert(head[j] == others[j]);
        }
        lemma_rows_of_others(base, first, head);
        assert((first + others).drop_last() =~= first + head);
        let earlier = first + head;
        if has_hit(head, last.algorithm, last.certificate) {
            let k = choose|k: int|
                0 <= k < head.len() && (#[trigger] head[k]).algorithm == last.algorithm
                    && head[k].certificate == last.certificate;
            assert(earlier[first.len() + k] == head[k]);
            assert(has_hit(earlier, last.algorithm, last.certificate));
        } else if has_hit(earlier, last.algorithm, last.certificate) {
            let k = choose|k: int|
                0 <= k < earlier.len() && (#[trigger] earlier[k]).algorithm == last.algorithm
                    && earlier[k].certificate == last.certificate;
            if k < first.len() {
                assert(earlier[k] == first[k]);
            } else {
                assert(earlier[k] == head[k - first.len()]);
            }
        }
        assert(hit_rows(base, first + others) =~= hit_rows(base, first) + hit_rows(base, others));
    }
}

/// Hits that were there before add no row.
proof fn lemma_rows_of_repeats(base: RowView, first: Seq<HitView>, others: Seq<HitView>)
    requires
        forall|j: int| 0 <= j < others.len() ==> first.contains(#[trigger] others[j]),
    ensures
        hit_rows(base, first + others) == hit_rows(base, first),
    decreases others.len(),
{
    if others.len() == 0 {
        assert(first + others =~= first);
    } else {
        let head = others.drop_last();
        assert forall|j: int| 0 <= j < head.len() implies first.contains(#[trigger] head[j]) by {
            assert(head[j] == others[j]);
        }
        lemma_rows_of_repeats(base, first, head);
        assert((first + others).drop_last() =~= first + head);
        assert(first.contains(others[others.len() - 1]));
        let k = choose|k: int| 0 <= k < first.len() && first[k] == others.last();
        assert((first + head)[k] == others.last());
    }
}

/// One more algorithm adds its rows behind those of the others, and one that is
/// there already adds none.
pub proof fn law_one_more_algorithm_of_a_term(
    base: RowView,
    section: Seq<char>,
    term: Seq<char>,
    algorithms: Seq<Seq<char>>,
    algorithm: Seq<char>,
)
    requires
        section_matches(base, section, term, algorithms.push(algorithm)) is Ok,
    ensures
        section_matches(base, section, term, seq![]) == Ok::<Seq<RowView>, ErrorView>(seq![]),
        section_matches(base, section, term, algorithms) is Ok,
        section_matches(base, section, term, seq![algorithm]) is Ok,
        section_matches(base, section, term, algorithms.push(algorithm)) == Ok::<
            Seq<RowView>,
            ErrorView,
        >(
            if algorithms.contains(algorithm) {
                section_matches(base, section, term, algorithms)->Ok_0
            } else {
                section_matches(base, section, term, algorithms)->Ok_0 + section_matches(
                    base,
                    section,
                    term,
                    seq![algorithm],
                )->Ok_0
            },
        ),
{
    let each = |algorithm: Seq<char>| algorithm_hits(section, term, algorithm);
    let none = Seq::<Seq<char>>::empty().map_values(each);
    assert(none =~= seq![]);
    assert(Seq::<Seq<HitView>>::empty().flatten() =~= seq![]);
    let items = algorithms.map_values(each);
    let more = algorithms.push(algorithm).map_values(each);
    let alone = seq![algorithm].map_values(each);
    assert(more =~= items.push(each(algorithm)));
    assert(more.drop_last() =~= items);
    assert(alone =~= none.push(each(algorithm)));
    assert(alone.drop_last() =~= none);
    lemma_collected_items(items);
    lemma_collected_items(more);
    let lists = collected(items)->Ok_0;
    let list = collected(more)->Ok_0.last();
    assert(more.last() == each(algorithm));
    assert(collected(more)->Ok_0 =~= lists.push(list));
    lists.lemma_flatten_push(list);
    assert(collected(alone)->Ok_0 =~= Seq::<Seq<HitView>>::empty().push(list));
    Seq::<Seq<HitView>>::empty().lemma_flatten_push(list);
    assert(Seq::<HitView>::empty() + list =~= list);
    let hits = lists.flatten();
    if algorithms.contains(algorithm) {
        let a = choose|a: int| 0 <= a < algorithms.len() && algorithms[a] == algorithm;
        assert(items[a] == each(algorithm));
        assert forall|j: int| 0 <= j < list.len() implies hits.contains(#[trigger] list[j]) by {
            let k = lemma_flattened_has(lists, a, j);
        }
        lemma_rows_of_repeats(base, hits, list);
    } else {
        assert forall|i: int, j: int|
            0 <= i < hits.len() && 0 <= j < list.len() implies (#[trigger] hits[i]).algorithm != (
        #[trigger] list[j]).algorithm by {
            let place = lemma_in_flattened(lists, i);
            let other = algorithms[place.0];
            assert(items[place.0] == each(other));
            assert(algorithms.contains(other));
            lemma_hit_of_an_algorithm(section, term, other, lists[place.0], place.1);
            lemma_hit_of_an_algorithm(section, term, algorithm, list, j);
        }
        lemma_rows_of_others(base, hits, list);
    }
}

/// A hit of an algorithm has its name.
proof fn lemma_hit_of_an_algorithm(
    section: Seq<char>,
    term: Seq<char>,
    algorithm: Seq<char>,
    hits: Seq<HitView>,
    k: int,
)
    requires
        algorithm_hits(section, term, algorithm) == Ok::<Seq<HitView>, ErrorView>(hits),
        0 <= k < hits.len(),
    ensures
        hits[k].algorithm == algorithm,
{
    let spans = present(all_groups(term_pattern(algorithm), section, 2));
    let found = spans.map_values(
        |span: (usize, usize)| hit_at(section, term, algorithm, span),
    );
    lemma_collected_items(found);
    assert(found[k] == hit_at(section, term, algorithm, spans[k]));
}

/// The rows for a term alone stand in the order of the lines that hold it, and
/// each is that of the first line with its algorithm and its certificate.
pub proof fn law_offline_lines_in_order(
    base: RowView,
    section: Seq<char>,
    term: Seq<char>,
) -> (places: Seq<int>)
    requires
        section_matches_offline(base, section, term) is Ok,
    ensures
        section_matches_offline(base, section, term) matches Ok(rows) && {
            &&& places.len() == rows.len()
            &&& forall|i: int|
                0 <= i < places.len() ==> 0 <= #[trigger] places[i] < lines(section).len()
                    && tells_of_line(rows[i], section, term, places[i])
            &&& forall|i: int, j: int| 0 <= i < j < places.len() ==> places[i] < places[j]
            &&& forall|i: int, m: int|
                0 <= i < places.len() && 0 <= m < #[trigger] places[i] ==> !#[trigger] tells_of_line(
                    rows[i],
                    section,
                    term,
                    m,
                )
        },
{
    let all = lines(section);
    let items = Seq::new(all.len(), |k: int| line_hit(all, term, k));
    let hits = line_hits(all, term)->Ok_0;
    lemma_collected_items(present(items));
    let there = lemma_present_places(items);
    let kept = law_hit_rows_in_order(base, hits);
    let rows = hit_rows(base, hits);
    let places = Seq::new(kept.len(), |i: int| there[kept[i]]);
    assert forall|i: int| 0 <= i < places.len() implies 0 <= #[trigger] places[i] < all.len()
        && tells_of_line(rows[i], section, term, places[i]) by {
        let k = kept[i];
        assert(places[i] == there[k]);
        assert(items[there[k]] == line_hit(all, term, there[k]));
        assert(present(items)[k] == Ok::<HitView, ErrorView>(hits[k]));
        assert(is_line_excerpt(hits[k].snippet, section, there[k]));
    }
    assert forall|i: int, m: int|
        0 <= i < places.len() && 0 <= m < #[trigger] places[i] implies !#[trigger] tells_of_line(
        rows[i],
        section,
        term,
        m,
    ) by {
        if tells_of_line(rows[i], section, term, m) {
            assert(items[m] == line_hit(all, term, m));
            assert(there.contains(m));
            let k = choose|k: int| 0 <= k < there.len() && there[k] == m;
            assert(places[i] == there[kept[i]]);
            assert(k < kept[i]);
            assert(present(items)[k] == Ok::<HitView, ErrorView>(hits[k]));
            assert(is_line_excerpt(hits[k].snippet, section, m));
            assert(hits[k].algorithm != hits[kept[i]].algorithm || hits[k].certificate
                != hits[kept[i]].certificate);
        }
    }
    places
}

/// A row is one that a line gives: the line holds the term and is the
/// algorithm of the row, and its excerpt has the certificate of the row first.
pub open spec fn tells_of_line(
    row: RowView,
    section: Seq<char>,
    term: Seq<char>,
    line: int,
) -> bool {
    &&& holds_term(lines(section)[line], term)
    &&& row.cavp_algorithm == trimmed(lines(section)[line])
    &&& exists|excerpt: Seq<char>| #[trigger]
        is_line_excerpt(excerpt, section, line) && is_first_certificate(
            row.cavp_certificate,
            excerpt,
        )
}

/// Of the errors of results the first is handed on, and none where there is
/// none.
pub proof fn law_the_first_error_counts<T>(items: Seq<Result<T, ErrorView>>, i: int)
    requires
        0 <= i <= items.len(),
        forall|k: int| 0 <= k < i ==> (#[trigger] items[k]) is Ok,
        i < items.len() ==> items[i] is Err,
    ensures
        i < items.len() ==> collected(items) == Err::<Seq<T>, ErrorView>(items[i]->Err_0),
        i == items.len() ==> collected(items) is Ok,
    decreases items.len(),
{
    if items.len() > 0 {
        let head = items.drop_last();
        assert(items.last() == items[items.len() - 1]);
        assert forall|k: int| 0 <= k < i && k < head.len() implies (#[trigger] head[k]) is Ok by {
            assert(head[k] == items[k]);
        }
        if i < head.len() {
            assert(head[i] == items[i]);
            law_the_first_error_counts(head, i);
        } else {
            law_the_first_error_counts(head, head.len() as int);
        }
    }
}

} // verus!
