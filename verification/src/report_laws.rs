//! Laws of the reports.

use crate::models::{IidClaim, OutcomeView, OutputKind, RowView};
use crate::report::{
    column_width, column_widths, csv_field, csv_fields, csv_header, csv_record, csv_records,
    formatted, is_detailed, is_special, json_entry, outcome_records, padded, rendered, ruled,
    table_cells, table_lines, table_note, table_of,
};
use crate::text::{byte_len, decimal, join, repeated};
use crate::text_laws::{law_characters_are_bytes, law_one_more_part, lemma_join_first};
use vstd::prelude::*;
use vstd::string::*;

verus! {

/// A column is as wide as each of its cells.
pub proof fn law_columns_hold_their_cells(table: Seq<Seq<Seq<char>>>, i: int, column: int)
    requires
        0 <= i < table.len(),
    ensures
        table[i][column].len() <= byte_len(table[i][column]) <= column_width(table, column),
    decreases table.len(),
{
    law_characters_are_bytes(table[i][column]);
    if i < table.len() - 1 {
        law_columns_hold_their_cells(table.drop_last(), i, column);
    }
}

/// The width of a line: that of its columns with three characters between
/// neighbours.
pub open spec fn line_width(widths: Seq<nat>) -> nat
    decreases widths.len(),
{
    if widths.len() == 0 {
        0
    } else if widths.len() == 1 {
        widths[0]
    } else {
        line_width(widths.drop_last()) + 3 + widths.last()
    }
}

/// The width of parts of known widths.
proof fn lemma_joined_width(parts: Seq<Seq<char>>, widths: Seq<nat>, sep: Seq<char>)
    requires
        parts.len() == widths.len(),
        forall|i: int| 0 <= i < parts.len() ==> (#[trigger] parts[i]).len() == widths[i],
        sep.len() == 3,
    ensures
        join(parts, sep).len() == line_width(widths),
    decreases parts.len(),
{
    if parts.len() > 1 {
        let (head, rest) = (parts.drop_last(), widths.drop_last());
        assert forall|i: int| 0 <= i < head.len() implies (#[trigger] head[i]).len() == rest[i] by {
            assert(head[i] == parts[i] && rest[i] == widths[i]);
        }
        lemma_joined_width(head, rest, sep);
        assert(parts.last() == parts[parts.len() - 1]);
    }
}

/// The rows of a table have a cell for each column.
pub open spec fn is_rectangular(table: Seq<Seq<Seq<char>>>) -> bool {
    table.len() > 0 && forall|i: int|
        0 <= i < table.len() ==> (#[trigger] table[i]).len() == table[0].len()
}

/// A row of a table is as wide as its columns.
proof fn lemma_row_width(table: Seq<Seq<Seq<char>>>, i: int)
    requires
        is_rectangular(table),
        0 <= i < table.len(),
    ensures
        formatted(table[i], column_widths(table, table[0].len())).len() == line_width(
            column_widths(table, table[0].len()),
        ),
{
    reveal_strlit(" | ");
    let widths = column_widths(table, table[0].len());
    let row = table[i];
    let cells = Seq::new(row.len(), |k: int| padded(row[k], widths[k]));
    assert forall|k: int| 0 <= k < cells.len() implies (#[trigger] cells[k]).len() == widths[k] by {
        law_columns_hold_their_cells(table, i, k);
    }
    lemma_joined_width(cells, widths, " | "@);
}

/// The lines of a table all have the same width.
pub proof fn law_table_lines_align(table: Seq<Seq<Seq<char>>>, i: int)
    requires
        is_rectangular(table),
        0 <= i < table_lines(table).len(),
    ensures
        table_lines(table)[i].len() == line_width(column_widths(table, table[0].len())),
{
    let widths = column_widths(table, table[0].len());
    if i == 0 {
        lemma_row_width(table, 0);
    } else if i == 1 {
        reveal_strlit("-+-");
        let dashes = widths.map_values(|width: nat| repeated('-', width));
        assert forall|k: int| 0 <= k < dashes.len() implies (#[trigger] dashes[k]).len()
            == widths[k] by {
            assert(dashes[k] == repeated('-', widths[k]));
        }
        lemma_joined_width(dashes, widths, "-+-"@);
    } else {
        lemma_row_width(table, i - 1);
        assert(table.drop_first()[i - 2] == table[i - 1]);
    }
}

/// The table of an outcome has a cell for each column in each row, and a row
/// for each row of the outcome.
pub proof fn law_tables_are_rectangular(kind: OutputKind, rows: Seq<RowView>)
    ensures
        is_rectangular(table_of(kind, rows)),
        table_of(kind, rows).len() == rows.len() + 1,
{
    let table = table_of(kind, rows);
    assert forall|i: int| 0 <= i < table.len() implies (#[trigger] table[i]).len()
        == table[0].len() by {
        if i > 0 {
            assert(table[i] == table_cells(kind, is_detailed(rows), rows[i - 1]));
        }
    }
}

/// An outcome is told of in a fixed number of lines and one for each row, and
/// the last line is empty.
pub proof fn law_rendered_lines(outcome: OutcomeView)
    ensures
        outcome.rows.len() == 0 ==> rendered(outcome).len() == 4,
        outcome.rows.len() > 0 ==> rendered(outcome).len() == 6 + table_note(outcome).len()
            + outcome.rows.len(),
        rendered(outcome).last() == Seq::<char>::empty(),
        rendered(outcome)[0] == "# "@ + outcome.query,
        rendered(outcome)[1] == outcome.results_message,
        rendered(outcome)[2] == "Results: "@ + decimal(outcome.rows.len()),
{
    law_tables_are_rectangular(outcome.kind, outcome.rows);
}

/// Each record has a field for each name.
pub proof fn law_records_have_each_field(
    kind: OutputKind,
    query: Seq<char>,
    canonical_query: Seq<char>,
    row: RowView,
)
    ensures
        csv_fields(kind, query, canonical_query, row).len() == csv_header().len(),
{
}

/// How many rows outcomes have.
pub open spec fn count_rows(outcomes: Seq<OutcomeView>) -> nat
    decreases outcomes.len(),
{
    if outcomes.len() == 0 {
        0
    } else {
        count_rows(outcomes.drop_last()) + outcomes.last().rows.len()
    }
}

/// There is a record for each row, below the one with the names.
pub proof fn law_one_record_per_row(outcomes: Seq<OutcomeView>)
    ensures
        csv_records(outcomes).len() == 1 + count_rows(outcomes),
        csv_records(outcomes)[0] == csv_record(csv_header()),
    decreases outcomes.len(),
{
    let each = |outcome: OutcomeView| outcome_records(outcome);
    let lists = outcomes.map_values(each);
    if outcomes.len() > 0 {
        let head = outcomes.drop_last();
        law_one_record_per_row(head);
        assert(lists =~= head.map_values(each).push(outcome_records(outcomes.last())));
        head.map_values(each).lemma_flatten_push(outcome_records(outcomes.last()));
    } else {
        assert(lists.flatten().len() == 0);
    }
}

/// A field of a record without its quotes, and with doubled quotes made one.
pub open spec fn csv_value(field: Seq<char>) -> Seq<char> {
    if field.len() >= 2 && field[0] == '"' {
        undoubled(field.subrange(1, field.len() - 1))
    } else {
        field
    }
}

/// A text with each pair of quotes made one.
pub open spec fn undoubled(s: Seq<char>) -> Seq<char>
    decreases s.len(),
{
    if s.len() == 0 {
        seq![]
    } else if s.len() >= 2 && s[0] == '"' && s[1] == '"' {
        seq!['"'] + undoubled(s.skip(2))
    } else {
        seq![s[0]] + undoubled(s.skip(1))
    }
}

/// A character with a quote doubled.
pub open spec fn doubled() -> spec_fn(char) -> Seq<char> {
    |c: char|
        if c == '"' {
            seq!['"', '"']
        } else {
            seq![c]
        }
}

/// Doubled quotes are made one again.
proof fn lemma_undoubled(s: Seq<char>)
    ensures
        undoubled(s.map_values(doubled()).flatten()) == s,
    decreases s.len(),
{
    let parts = s.map_values(doubled());
    if s.len() == 0 {
        assert(parts.flatten() =~= seq![]);
        assert(undoubled(parts.flatten()) =~= s);
    } else {
        let rest = s.drop_first();
        assert(parts.drop_first() =~= rest.map_values(doubled()));
        lemma_undoubled(rest);
        let tail = rest.map_values(doubled()).flatten();
        let whole = parts.flatten();
        assert(whole == parts[0] + tail);
        if s[0] == '"' {
            assert(whole.skip(2) =~= tail);
        } else {
            assert(whole.skip(1) =~= tail);
        }
        assert(undoubled(whole) =~= seq![s[0]] + rest);
        assert(seq![s[0]] + rest =~= s);
    }
}

/// The value of a field can be read back from the record.
pub proof fn law_fields_read_back(field: Seq<char>)
    ensures
        csv_value(csv_field(field)) == field,
{
    let written = csv_field(field);
    if exists|i: int| 0 <= i < field.len() && is_special(#[trigger] field[i]) {
        let inner = field.map_values(doubled()).flatten();
        assert(field.map_values(doubled()) =~= field.map_values(
            |c: char|
                if c == '"' {
                    seq!['"', '"']
                } else {
                    seq![c]
                },
        ));
        assert(written == seq!['"'] + inner + seq!['"']);
        assert(written.subrange(1, written.len() - 1) =~= inner);
        lemma_undoubled(field);
    } else if field.len() > 0 {
        assert(!is_special(field[0]));
    }
}

/// Reads comma-separated values from where the records before, the fields of
/// this record and a part of the next field are read, inside quotes or not.
/// Outside quotes a comma ends a field and a line feed a record; inside, two
/// quotes stand for one.
pub open spec fn csv_scan(
    s: Seq<char>,
    records: Seq<Seq<Seq<char>>>,
    fields: Seq<Seq<char>>,
    field: Seq<char>,
    quoted: bool,
) -> Seq<Seq<Seq<char>>>
    decreases s.len(),
{
    if s.len() == 0 {
        records
    } else if quoted {
        if s[0] != '"' {
            csv_scan(s.skip(1), records, fields, field.push(s[0]), true)
        } else if s.len() > 1 && s[1] == '"' {
            csv_scan(s.skip(2), records, fields, field.push('"'), true)
        } else {
            csv_scan(s.skip(1), records, fields, field, false)
        }
    } else if s[0] == '"' {
        csv_scan(s.skip(1), records, fields, field, true)
    } else if s[0] == ',' {
        csv_scan(s.skip(1), records, fields.push(field), seq![], false)
    } else if s[0] == '\n' {
        csv_scan(s.skip(1), records.push(fields.push(field)), seq![], seq![], false)
    } else {
        csv_scan(s.skip(1), records, fields, field.push(s[0]), false)
    }
}

/// The records that a document of comma-separated values holds.
pub open spec fn csv_read(s: Seq<char>) -> Seq<Seq<Seq<char>>> {
    csv_scan(s, seq![], seq![], seq![], false)
}

/// The inside of a quoted field is read up to the quote that ends it.
proof fn lemma_scan_quoted(
    value: Seq<char>,
    rest: Seq<char>,
    records: Seq<Seq<Seq<char>>>,
    fields: Seq<Seq<char>>,
    field: Seq<char>,
)
    requires
        rest.len() > 0,
        rest[0] != '"',
    ensures
        csv_scan(
            value.map_values(doubled()).flatten() + seq!['"'] + rest,
            records,
            fields,
            field,
            true,
        ) == csv_scan(rest, records, fields, field + value, false),
    decreases value.len(),
{
    let parts = value.map_values(doubled());
    let s = parts.flatten() + seq!['"'] + rest;
    if value.len() == 0 {
        assert(parts.flatten() =~= seq![]);
        assert(s =~= seq!['"'] + rest);
        assert(s.skip(1) =~= rest);
        assert(field + value =~= field);
    } else {
        let others = value.drop_first();
        let tail = others.map_values(doubled()).flatten() + seq!['"'] + rest;
        assert(parts.drop_first() =~= others.map_values(doubled()));
        assert(parts.flatten() == parts[0] + others.map_values(doubled()).flatten());
        assert(s =~= parts[0] + tail);
        lemma_scan_quoted(others, rest, records, fields, field.push(value[0]));
        assert(field.push(value[0]) + others =~= field + value);
        if value[0] == '"' {
            assert(parts[0] =~= seq!['"', '"']);
            assert(s.skip(2) =~= tail);
        } else {
            assert(parts[0] =~= seq![value[0]]);
            assert(s.skip(1) =~= tail);
        }
    }
}

/// A field that needs no quotes is read as it stands.
proof fn lemma_scan_plain(
    value: Seq<char>,
    rest: Seq<char>,
    records: Seq<Seq<Seq<char>>>,
    fields: Seq<Seq<char>>,
    field: Seq<char>,
)
    requires
        forall|i: int| 0 <= i < value.len() ==> !is_special(#[trigger] value[i]),
    ensures
        csv_scan(value + rest, records, fields, field, false) == csv_scan(
            rest,
            records,
            fields,
            field + value,
            false,
        ),
    decreases value.len(),
{
    if value.len() == 0 {
        assert(value + rest =~= rest);
        assert(field + value =~= field);
    } else {
        let others = value.drop_first();
        assert(!is_special(value[0]));
        assert forall|i: int| 0 <= i < others.len() implies !is_special(#[trigger] others[i]) by {
            assert(others[i] == value[i + 1]);
        }
        lemma_scan_plain(others, rest, records, fields, field.push(value[0]));
        assert((value + rest).skip(1) =~= others + rest);
        assert(field.push(value[0]) + others =~= field + value);
    }
}

/// A field is read as its value.
proof fn lemma_scan_field(
    value: Seq<char>,
    rest: Seq<char>,
    records: Seq<Seq<Seq<char>>>,
    fields: Seq<Seq<char>>,
)
    requires
        rest.len() > 0,
        rest[0] != '"',
    ensures
        csv_scan(csv_field(value) + rest, records, fields, seq![], false) == csv_scan(
            rest,
            records,
            fields,
            value,
            false,
        ),
{
    assert(Seq::<char>::empty() + value =~= value);
    if exists|i: int| 0 <= i < value.len() && is_special(#[trigger] value[i]) {
        let inner = value.map_values(doubled()).flatten();
        assert(value.map_values(doubled()) =~= value.map_values(
            |c: char|
                if c == '"' {
                    seq!['"', '"']
                } else {
                    seq![c]
                },
        ));
        let s = csv_field(value) + rest;
        assert(s.skip(1) =~= inner + seq!['"'] + rest);
        lemma_scan_quoted(value, rest, records, fields, seq![]);
    } else {
        lemma_scan_plain(value, rest, records, fields, seq![]);
    }
}

/// A record is read as its fields.
proof fn lemma_scan_record(
    values: Seq<Seq<char>>,
    rest: Seq<char>,
    records: Seq<Seq<Seq<char>>>,
    fields: Seq<Seq<char>>,
)
    requires
        values.len() > 0,
    ensures
        csv_scan(csv_record(values) + rest, records, fields, seq![], false) == csv_scan(
            rest,
            records.push(fields + values),
            seq![],
            seq![],
            false,
        ),
    decreases values.len(),
{
    reveal_strlit(",");
    reveal_strlit("\n");
    let parts = values.map_values(|field: Seq<char>| csv_field(field));
    let s = csv_record(values) + rest;
    if values.len() == 1 {
        let after = "\n"@ + rest;
        assert(s =~= csv_field(values[0]) + after);
        lemma_scan_field(values[0], after, records, fields);
        assert(after.skip(1) =~= rest);
        assert(fields.push(values[0]) =~= fields + values);
    } else {
        let others = values.drop_first();
        let after = ","@ + (csv_record(others) + rest);
        lemma_join_first(parts, ","@);
        assert(parts.drop_first() =~= others.map_values(|field: Seq<char>| csv_field(field)));
        assert(s =~= csv_field(values[0]) + after);
        lemma_scan_field(values[0], after, records, fields);
        assert(after.skip(1) =~= csv_record(others) + rest);
        lemma_scan_record(others, rest, records, fields.push(values[0]));
        assert(fields.push(values[0]) + others =~= fields + values);
    }
}

/// The fields of a record can be read back from it.
pub proof fn law_records_read_back(fields: Seq<Seq<char>>)
    requires
        fields.len() > 0,
    ensures
        csv_read(csv_record(fields)) == seq![fields],
{
    assert(csv_record(fields) + Seq::<char>::empty() =~= csv_record(fields));
    lemma_scan_record(fields, seq![], seq![], seq![]);
    assert(Seq::<Seq<char>>::empty() + fields =~= fields);
    assert(Seq::<Seq<Seq<char>>>::empty().push(fields) =~= seq![fields]);
}

/// Records one after another are read as their fields.
proof fn lemma_scan_records(lists: Seq<Seq<Seq<char>>>, records: Seq<Seq<Seq<char>>>)
    requires
        forall|i: int| 0 <= i < lists.len() ==> (#[trigger] lists[i]).len() > 0,
    ensures
        csv_scan(
            lists.map_values(|fields: Seq<Seq<char>>| csv_record(fields)).flatten(),
            records,
            seq![],
            seq![],
            false,
        ) == records + lists,
    decreases lists.len(),
{
    let written = lists.map_values(|fields: Seq<Seq<char>>| csv_record(fields));
    if lists.len() == 0 {
        assert(written.flatten() =~= seq![]);
        assert(records + lists =~= records);
    } else {
        let others = lists.drop_first();
        assert forall|i: int| 0 <= i < others.len() implies (#[trigger] others[i]).len() > 0 by {
            assert(others[i] == lists[i + 1]);
        }
        let rest = others.map_values(|fields: Seq<Seq<char>>| csv_record(fields));
        assert(written.drop_first() =~= rest);
        assert(lists[0].len() > 0);
        assert(written.flatten() == csv_record(lists[0]) + rest.flatten());
        lemma_scan_record(lists[0], rest.flatten(), records, seq![]);
        assert(Seq::<Seq<char>>::empty() + lists[0] =~= lists[0]);
        lemma_scan_records(others, records.push(lists[0]));
        assert(records.push(lists[0]) + others =~= records + lists);
    }
}

/// The fields of the records of an outcome.
pub open spec fn outcome_fields(outcome: OutcomeView) -> Seq<Seq<Seq<char>>> {
    outcome.rows.map_values(
        |row: RowView| csv_fields(outcome.kind, outcome.query, outcome.canonical_query, row),
    )
}

/// The fields of the records of outcomes, below the names of the fields.
pub open spec fn document_fields(outcomes: Seq<OutcomeView>) -> Seq<Seq<Seq<char>>> {
    seq![csv_header()] + outcomes.map_values(
        |outcome: OutcomeView| outcome_fields(outcome),
    ).flatten()
}

/// The records of outcomes are those of their fields.
proof fn lemma_records_of_fields(outcomes: Seq<OutcomeView>)
    ensures
        csv_records(outcomes) == document_fields(outcomes).map_values(
            |fields: Seq<Seq<char>>| csv_record(fields),
        ),
        forall|i: int|
            0 <= i < document_fields(outcomes).len() ==> (#[trigger] document_fields(
                outcomes,
            )[i]).len() > 0,
    decreases outcomes.len(),
{
    let each = |outcome: OutcomeView| outcome_records(outcome);
    let read = |outcome: OutcomeView| outcome_fields(outcome);
    let write = |fields: Seq<Seq<char>>| csv_record(fields);
    let all = document_fields(outcomes);
    if outcomes.len() > 0 {
        let head = outcomes.drop_last();
        let last = outcomes.last();
        lemma_records_of_fields(head);
        assert(outcomes.map_values(each) =~= head.map_values(each).push(outcome_records(last)));
        assert(outcomes.map_values(read) =~= head.map_values(read).push(outcome_fields(last)));
        head.map_values(each).lemma_flatten_push(outcome_records(last));
        head.map_values(read).lemma_flatten_push(outcome_fields(last));
        assert(csv_records(outcomes) =~= csv_records(head) + outcome_records(last));
        assert(all =~= document_fields(head) + outcome_fields(last));
        assert(outcome_records(last) =~= outcome_fields(last).map_values(write));
        assert(csv_records(outcomes) =~= all.map_values(write));
        assert forall|i: int| 0 <= i < all.len() implies (#[trigger] all[i]).len() > 0 by {
            let n = document_fields(head).len();
            if i < n {
                assert(all[i] == document_fields(head)[i]);
            } else {
                assert(all[i] == outcome_fields(last)[i - n]);
            }
        }
    } else {
        assert(outcomes.map_values(each).flatten() =~= seq![]);
        assert(outcomes.map_values(read).flatten() =~= seq![]);
        assert(csv_records(outcomes) =~= all.map_values(write));
    }
}

/// The names of the fields and the values of each row can be read back from
/// the document of comma-separated values.
pub proof fn law_documents_read_back(outcomes: Seq<OutcomeView>)
    ensures
        csv_read(csv_records(outcomes).flatten()) == document_fields(outcomes),
{
    lemma_records_of_fields(outcomes);
    lemma_scan_records(document_fields(outcomes), seq![]);
    assert(Seq::<Seq<Seq<char>>>::empty() + document_fields(outcomes) =~= document_fields(
        outcomes,
    ));
}

/// Each field of the record of a row stands at the place of its name, and the
/// names are these.
pub proof fn law_named_fields(
    kind: OutputKind,
    query: Seq<char>,
    canonical_query: Seq<char>,
    row: RowView,
)
    ensures
        ({
            let names = csv_header();
            let values = csv_fields(kind, query, canonical_query, row);
            &&& names.len() == 21 && values.len() == 21
            &&& names[0] == "kind"@
            &&& kind == OutputKind::Cmvp ==> values[0] == "cmvp"@
            &&& kind == OutputKind::Esv ==> values[0] == "esv"@
            &&& names[1] == "query"@ && values[1] == query
            &&& names[2] == "canonical_query"@ && values[2] == canonical_query
            &&& names[3] == "module_certificate"@ && values[3] == row.module_certificate
            &&& names[4] == "vendor"@ && values[4] == row.vendor
            &&& names[5] == "module_name"@ && values[5] == row.module_name
            &&& names[6] == "module_type"@ && values[6] == row.module_type
            &&& names[7] == "validation_date"@ && values[7] == row.validation_date
            &&& names[8] == "certificate_url"@ && values[8] == row.certificate_url
            &&& names[9] == "policy_url"@ && values[9] == row.policy_url
            &&& names[10] == "cavp_certificate"@ && values[10] == row.cavp_certificate
            &&& names[11] == "cavp_algorithm"@ && values[11] == row.cavp_algorithm
            &&& names[12] == "operation"@ && values[12] == row.operation
            &&& names[13] == "properties"@ && values[13] == row.properties
            &&& names[14] == "cavp_listed"@
            &&& row.cavp_listed ==> values[14] == "true"@
            &&& !row.cavp_listed ==> values[14] == "false"@
            &&& names[15] == "esv_standard"@ && values[15] == row.esv_standard
            &&& names[16] == "esv_description"@ && values[16] == row.esv_description
            &&& names[17] == "esv_noise_source"@ && values[17] == row.esv_noise_source
            &&& names[18] == "esv_reuse_status"@ && values[18] == row.esv_reuse_status
            &&& names[19] == "entropy_document_url"@ && values[19] == row.entropy_document_url
            &&& names[20] == "iid_claim"@
            &&& row.iid_claim == IidClaim::Iid ==> values[20] == "iid"@
            &&& row.iid_claim == IidClaim::NonIid ==> values[20] == "non-iid"@
            &&& row.iid_claim == IidClaim::Unknown ==> values[20] == "unknown"@
        }),
{
}

/// The table of modules where a row names an algorithm: each cell stands below
/// the head of its column.
pub proof fn law_table_of_operations(rows: Seq<RowView>, i: int)
    requires
        0 <= i < rows.len(),
        exists|k: int| 0 <= k < rows.len() && (#[trigger] rows[k]).cavp_algorithm.len() > 0,
    ensures
        ({
            let heads = table_of(OutputKind::Cmvp, rows)[0];
            let cells = table_of(OutputKind::Cmvp, rows)[i + 1];
            &&& heads.len() == 6 && cells.len() == 6
            &&& heads[0] == "Module Cert"@ && cells[0] == rows[i].module_certificate
            &&& heads[1] == "Vendor"@ && cells[1] == rows[i].vendor
            &&& heads[2] == "Module Name"@ && cells[2] == rows[i].module_name
            &&& heads[3] == "CAVP Cert"@ && cells[3] == rows[i].cavp_certificate
            &&& heads[4] == "CAVP Algorithm"@ && cells[4] == rows[i].cavp_algorithm
            &&& heads[5] == "Operation"@ && cells[5] == rows[i].operation
        }),
{
}

/// The table of modules where no row names an algorithm: each cell stands
/// below the head of its column.
pub proof fn law_table_of_modules(rows: Seq<RowView>, i: int)
    requires
        0 <= i < rows.len(),
        forall|k: int| 0 <= k < rows.len() ==> (#[trigger] rows[k]).cavp_algorithm.len() == 0,
    ensures
        ({
            let heads = table_of(OutputKind::Cmvp, rows)[0];
            let cells = table_of(OutputKind::Cmvp, rows)[i + 1];
            &&& heads.len() == 5 && cells.len() == 5
            &&& heads[0] == "Certificate"@ && cells[0] == rows[i].module_certificate
            &&& heads[1] == "Vendor"@ && cells[1] == rows[i].vendor
            &&& heads[2] == "Module Name"@ && cells[2] == rows[i].module_name
            &&& heads[3] == "Type"@ && cells[3] == rows[i].module_type
            &&& heads[4] == "Validated"@ && cells[4] == rows[i].validation_date
        }),
{
}

/// The table of entropy sources: each cell stands below the head of its
/// column.
pub proof fn law_table_of_sources(rows: Seq<RowView>, i: int)
    requires
        0 <= i < rows.len(),
    ensures
        ({
            let heads = table_of(OutputKind::Esv, rows)[0];
            let cells = table_of(OutputKind::Esv, rows)[i + 1];
            &&& heads.len() == 6 && cells.len() == 6
            &&& heads[0] == "Certificate"@ && cells[0] == rows[i].module_certificate
            &&& heads[1] == "Vendor"@ && cells[1] == rows[i].vendor
            &&& heads[2] == "Implementation"@ && cells[2] == rows[i].module_name
            &&& heads[3] == "IID Claim"@
            &&& rows[i].iid_claim == IidClaim::Iid ==> cells[3] == "iid"@
            &&& rows[i].iid_claim == IidClaim::NonIid ==> cells[3] == "non-iid"@
            &&& rows[i].iid_claim == IidClaim::Unknown ==> cells[3] == "unknown"@
            &&& heads[4] == "Noise Source"@ && cells[4] == rows[i].esv_noise_source
            &&& heads[5] == "Validated"@ && cells[5] == rows[i].validation_date
        }),
{
}

/// A column is no wider than its longest cell: one of them fills it.
pub proof fn law_a_cell_fills_its_column(table: Seq<Seq<Seq<char>>>, column: int)
    requires
        table.len() > 0,
    ensures
        exists|i: int|
            0 <= i < table.len() && byte_len((#[trigger] table[i])[column]) == column_width(
                table,
                column,
            ),
    decreases table.len(),
{
    let head = table.drop_last();
    assert(table.last() == table[table.len() - 1]);
    assert(head.len() == 0 ==> column_width(head, column) == 0);
    if head.len() > 0 && byte_len(table.last()[column]) <= column_width(head, column) {
        law_a_cell_fills_its_column(head, column);
        let i = choose|i: int|
            0 <= i < head.len() && byte_len((#[trigger] head[i])[column]) == column_width(
                head,
                column,
            );
        assert(table[i] == head[i]);
    }
}

/// One more cell on a line stands behind the others and a bar, with spaces
/// behind it up to the width of its column.
pub proof fn law_one_more_cell(
    row: Seq<Seq<char>>,
    widths: Seq<nat>,
    cell: Seq<char>,
    spaces: Seq<char>,
)
    requires
        row.len() == widths.len(),
        forall|i: int| 0 <= i < spaces.len() ==> #[trigger] spaces[i] == ' ',
    ensures
        formatted(row.push(cell), widths.push(cell.len() + spaces.len())) == if row.len() > 0 {
            formatted(row, widths) + " | "@ + (cell + spaces)
        } else {
            cell + spaces
        },
        ruled(widths.push(cell.len() + spaces.len())).len() == if widths.len() > 0 {
            ruled(widths).len() + 3 + cell.len() + spaces.len()
        } else {
            cell.len() + spaces.len()
        },
        formatted(seq![cell], seq![0nat]) == cell,
{
    reveal_strlit("-+-");
    let width = cell.len() + spaces.len();
    let (more, wider) = (row.push(cell), widths.push(width));
    let parts = Seq::new(row.len(), |i: int| padded(row[i], widths[i]));
    let all = Seq::new(more.len(), |i: int| padded(more[i], wider[i]));
    assert(padded(cell, width) =~= cell + spaces);
    assert(all =~= parts.push(cell + spaces));
    law_one_more_part(parts, cell + spaces, " | "@);
    let dashes = widths.map_values(|width: nat| repeated('-', width));
    assert(wider.map_values(|width: nat| repeated('-', width)) =~= dashes.push(
        repeated('-', width),
    ));
    law_one_more_part(dashes, repeated('-', width), "-+-"@);
    let alone = Seq::new(1, |i: int| padded(seq![cell][i], seq![0nat][i]));
    assert(padded(cell, 0) =~= cell);
    assert(alone =~= seq![cell]);
    assert(Seq::<Seq<char>>::empty().push(cell) =~= seq![cell]);
    law_one_more_part(Seq::<Seq<char>>::empty(), cell, " | "@);
}

/// The line below the heads of the columns has a dash for each place of a
/// column, and a cross between neighbours.
pub proof fn law_one_more_rule(widths: Seq<nat>, dashes: Seq<char>)
    requires
        forall|i: int| 0 <= i < dashes.len() ==> #[trigger] dashes[i] == '-',
    ensures
        ruled(widths.push(dashes.len())) == if widths.len() > 0 {
            ruled(widths) + "-+-"@ + dashes
        } else {
            dashes
        },
{
    let parts = widths.map_values(|width: nat| repeated('-', width));
    assert(repeated('-', dashes.len()) =~= dashes);
    assert(widths.push(dashes.len()).map_values(|width: nat| repeated('-', width))
        =~= parts.push(dashes));
    law_one_more_part(parts, dashes, "-+-"@);
}

/// The lines of a table: the heads of its columns, the line below them, and
/// the rows in order.
pub proof fn law_lines_of_tables(table: Seq<Seq<Seq<char>>>, i: int)
    requires
        0 <= i < table.len(),
    ensures
        ({
            let widths = Seq::new(table[0].len(), |column: int| column_width(table, column));
            let lines = table_lines(table);
            &&& lines.len() == table.len() + 1
            &&& lines[1] == ruled(widths)
            &&& lines[if i == 0 {
                0
            } else {
                i + 1
            }] == formatted(table[i], widths)
        }),
{
    let widths = Seq::new(table[0].len(), |column: int| column_width(table, column));
    assert(widths =~= column_widths(table, table[0].len()));
    if i > 0 {
        assert(table.drop_first()[i - 1] == table[i]);
    }
}

/// What is told of an outcome with rows: the table of its rows, below a line
/// with the claim that was looked for, for entropy sources, or with the value
/// that the form was asked for where that is not the term, for modules.
pub proof fn law_rendered_tables(outcome: OutcomeView, i: int)
    requires
        outcome.rows.len() > 0,
        0 <= i < table_lines(table_of(outcome.kind, outcome.rows)).len(),
    ensures
        ({
            let lines = rendered(outcome);
            let table = table_lines(table_of(outcome.kind, outcome.rows));
            if outcome.kind == OutputKind::Esv {
                lines[3] == "IID filter: "@ + outcome.canonical_query && lines[4 + i] == table[i]
            } else if outcome.canonical_query != outcome.query {
                lines[3] == "Matched CMVP field value: "@ + outcome.canonical_query && lines[4 + i]
                    == table[i]
            } else {
                lines[3 + i] == table[i]
            }
        }),
{
}

/// One more outcome adds a record for each of its rows, in order, with the
/// kind of the outcome and what was searched for.
pub proof fn law_one_more_outcome(outcomes: Seq<OutcomeView>, outcome: OutcomeView, i: int)
    requires
        0 <= i < outcome.rows.len(),
    ensures
        ({
            let before = csv_records(outcomes);
            let after = csv_records(outcomes.push(outcome));
            &&& after.len() == before.len() + outcome.rows.len()
            &&& after.take(before.len() as int) == before
            &&& after[before.len() + i] == csv_record(
                csv_fields(
                    outcome.kind,
                    outcome.query,
                    outcome.canonical_query,
                    outcome.rows[i],
                ),
            )
        }),
{
    let each = |outcome: OutcomeView| outcome_records(outcome);
    assert(outcomes.push(outcome).map_values(each) =~= outcomes.map_values(each).push(
        outcome_records(outcome),
    ));
    outcomes.map_values(each).lemma_flatten_push(outcome_records(outcome));
    assert(csv_records(outcomes.push(outcome)) =~= csv_records(outcomes) + outcome_records(
        outcome,
    ));
}

/// An entry of a JSON document has what was searched for, what the form was
/// asked for, the message and the rows of its outcome.
pub proof fn law_json_entries(outcome: OutcomeView)
    ensures
        json_entry(outcome).query == outcome.query,
        json_entry(outcome).canonical_query == outcome.canonical_query,
        json_entry(outcome).results_message == outcome.results_message,
        json_entry(outcome).results == outcome.rows,
{
}

} // verus!
