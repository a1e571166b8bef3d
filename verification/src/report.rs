//! What a search tells its user: tables, comma-separated values, and the
//! values of a JSON document.

use crate::models::{
    OutcomeView, OutputKind, ResultRow, RowView, SearchOutcome, claim_word, copy_rows,
};
use crate::text::{
    byte_len, bytes_len, chars_of, concat_texts, decimal, decimal_text, join, join_texts,
    repeat_char, repeated, same_text,
};
use vstd::prelude::*;
use vstd::string::*;

verus! {

/// A row comes from a policy: it names an algorithm.
pub open spec fn is_detailed(rows: Seq<RowView>) -> bool {
    exists|i: int| 0 <= i < rows.len() && (#[trigger] rows[i]).cavp_algorithm.len() > 0
}

/// The heads of the columns of a table.
pub open spec fn table_header(kind: OutputKind, detailed: bool) -> Seq<Seq<char>> {
    match kind {
        OutputKind::Cmvp => if detailed {
            seq![
                "Module Cert"@,
                "Vendor"@,
                "Module Name"@,
                "CAVP Cert"@,
                "CAVP Algorithm"@,
                "Operation"@,
            ]
        } else {
            seq!["Certificate"@, "Vendor"@, "Module Name"@, "Type"@, "Validated"@]
        },
        OutputKind::Esv => seq![
            "Certificate"@,
            "Vendor"@,
            "Implementation"@,
            "IID Claim"@,
            "Noise Source"@,
            "Validated"@,
        ],
    }
}

/// What a row has in the columns of a table.
pub open spec fn table_cells(kind: OutputKind, detailed: bool, row: RowView) -> Seq<Seq<char>> {
    match kind {
        OutputKind::Cmvp => if detailed {
            seq![
                row.module_certificate,
                row.vendor,
                row.module_name,
                row.cavp_certificate,
                row.cavp_algorithm,
                row.operation,
            ]
        } else {
            seq![
                row.module_certificate,
                row.vendor,
                row.module_name,
                row.module_type,
                row.validation_date,
            ]
        },
        OutputKind::Esv => seq![
            row.module_certificate,
            row.vendor,
            row.module_name,
            claim_word(row.iid_claim),
            row.esv_noise_source,
            row.validation_date,
        ],
    }
}

/// The cells of a table: the heads of its columns, and those of each row.
pub open spec fn table_of(kind: OutputKind, rows: Seq<RowView>) -> Seq<Seq<Seq<char>>> {
    let detailed = is_detailed(rows);
    seq![table_header(kind, detailed)] + rows.map_values(
        |row: RowView| table_cells(kind, detailed, row),
    )
}

/// The width of a column: the bytes of its longest cell.
pub open spec fn column_width(table: Seq<Seq<Seq<char>>>, column: int) -> nat
    decreases table.len(),
{
    if table.len() == 0 {
        0
    } else {
        let before = column_width(table.drop_last(), column);
        let here = byte_len(table.last()[column]);
        if before < here {
            here
        } else {
            before
        }
    }
}

/// The widths of the columns of a table.
pub open spec fn column_widths(table: Seq<Seq<Seq<char>>>, columns: nat) -> Seq<nat> {
    Seq::new(columns, |column: int| column_width(table, column))
}

/// A text with spaces behind it that fill a width of characters.
pub open spec fn padded(value: Seq<char>, width: nat) -> Seq<char> {
    value + repeated(
        ' ',
        if value.len() < width {
            (width - value.len()) as nat
        } else {
            0
        },
    )
}

/// A line of a table.
pub open spec fn formatted(row: Seq<Seq<char>>, widths: Seq<nat>) -> Seq<char> {
    join(Seq::new(row.len(), |i: int| padded(row[i], widths[i])), " | "@)
}

/// The line below the heads of the columns.
pub open spec fn ruled(widths: Seq<nat>) -> Seq<char> {
    join(widths.map_values(|width: nat| repeated('-', width)), "-+-"@)
}

/// The lines of a table.
pub open spec fn table_lines(table: Seq<Seq<Seq<char>>>) -> Seq<Seq<char>> {
    let widths = column_widths(table, table[0].len());
    seq![formatted(table[0], widths), ruled(widths)] + table.drop_first().map_values(
        |row: Seq<Seq<char>>| formatted(row, widths),
    )
}

/// What stands between the number of rows and the table.
pub open spec fn table_note(outcome: OutcomeView) -> Seq<Seq<char>> {
    match outcome.kind {
        OutputKind::Cmvp => if outcome.canonical_query != outcome.query {
            seq!["Matched CMVP field value: "@ + outcome.canonical_query]
        } else {
            seq![]
        },
        OutputKind::Esv => seq!["IID filter: "@ + outcome.canonical_query],
    }
}

/// The lines that tell of an outcome.
pub open spec fn rendered(outcome: OutcomeView) -> Seq<Seq<char>> {
    let head = seq![
        "# "@ + outcome.query,
        outcome.results_message,
        "Results: "@ + decimal(outcome.rows.len()),
    ];
    if outcome.rows.len() == 0 {
        head.push(seq![])
    } else {
        (head + table_note(outcome) + table_lines(table_of(outcome.kind, outcome.rows))).push(
            seq![],
        )
    }
}

/// Whether a row names an algorithm.
fn has_details(rows: &Vec<ResultRow>) -> (r: bool)
    ensures
        r == is_detailed(rows.deep_view()),
{
    let ghost views = rows.deep_view();
    let mut i: usize = 0;
    while i < rows.len()
        invariant
            i <= rows@.len(),
            views == rows.deep_view(),
            forall|k: int| 0 <= k < i ==> (#[trigger] views[k]).cavp_algorithm.len() == 0,
        decreases rows@.len() - i,
    {
        assert(views[i as int] == rows@[i as int].deep_view());
        if !rows[i].cavp_algorithm.as_str().is_empty() {
            return true;
        }
        i += 1;
    }
    false
}

/// The texts as strings of their own.
fn owned(texts: Vec<&str>) -> (r: Vec<String>)
    ensures
        r.deep_view() == texts.deep_view(),
{
    let ghost all = texts.deep_view();
    let mut r: Vec<String> = Vec::new();
    let mut i: usize = 0;
    assert(r.deep_view() =~= all.take(0));
    while i < texts.len()
        invariant
            i <= texts@.len(),
            all == texts.deep_view(),
            r.deep_view() == all.take(i as int),
        decreases texts@.len() - i,
    {
        let ghost known = r.deep_view();
        r.push(texts[i].to_owned());
        assert(r.deep_view() =~= known.push(texts@[i as int]@));
        assert(r.deep_view() =~= all.take(i + 1));
        i += 1;
    }
    assert(all.take(all.len() as int) =~= all);
    r
}

/// The heads of the columns of a table.
fn write_header(kind: OutputKind, detailed: bool) -> (r: Vec<String>)
    ensures
        r.deep_view() == table_header(kind, detailed),
{
    let heads = match kind {
        OutputKind::Cmvp => if detailed {
            vec![
                "Module Cert",
                "Vendor",
                "Module Name",
                "CAVP Cert",
                "CAVP Algorithm",
                "Operation",
            ]
        } else {
            vec!["Certificate", "Vendor", "Module Name", "Type", "Validated"]
        },
        OutputKind::Esv => vec![
            "Certificate",
            "Vendor",
            "Implementation",
            "IID Claim",
            "Noise Source",
            "Validated",
        ],
    };
    assert(heads.deep_view() =~= table_header(kind, detailed));
    owned(heads)
}

/// What a row has in the columns of a table.
fn write_cells(kind: OutputKind, detailed: bool, row: &ResultRow) -> (r: Vec<String>)
    ensures
        r.deep_view() == table_cells(kind, detailed, row.deep_view()),
{
    let cells = match kind {
        OutputKind::Cmvp => if detailed {
            vec![
                row.module_certificate.as_str(),
                row.vendor.as_str(),
                row.module_name.as_str(),
                row.cavp_certificate.as_str(),
                row.cavp_algorithm.as_str(),
                row.operation.as_str(),
            ]
        } else {
            vec![
                row.module_certificate.as_str(),
                row.vendor.as_str(),
                row.module_name.as_str(),
                row.module_type.as_str(),
                row.validation_date.as_str(),
            ]
        },
        OutputKind::Esv => vec![
            row.module_certificate.as_str(),
            row.vendor.as_str(),
            row.module_name.as_str(),
            row.iid_claim.as_str(),
            row.esv_noise_source.as_str(),
            row.validation_date.as_str(),
        ],
    };
    assert(cells.deep_view() =~= table_cells(kind, detailed, row.deep_view()));
    owned(cells)
}

/// The cells of a table.
fn write_table(kind: OutputKind, rows: &Vec<ResultRow>) -> (r: Vec<Vec<String>>)
    ensures
        r.deep_view() == table_of(kind, rows.deep_view()),
{
    let detailed = has_details(rows);
    let ghost header = table_header(kind, detailed);
    let ghost cells = rows.deep_view().map_values(
        |row: RowView| table_cells(kind, detailed, row),
    );
    let mut r: Vec<Vec<String>> = Vec::new();
    r.push(write_header(kind, detailed));
    let mut i: usize = 0;
    assert(r.deep_view() =~= seq![header] + cells.take(0));
    while i < rows.len()
        invariant
            i <= rows@.len(),
            cells == rows.deep_view().map_values(|row: RowView| table_cells(kind, detailed, row)),
            r.deep_view() == seq![header] + cells.take(i as int),
        decreases rows@.len() - i,
    {
        let ghost known = r.deep_view();
        r.push(write_cells(kind, detailed, &rows[i]));
        assert(cells[i as int] == table_cells(kind, detailed, rows@[i as int].deep_view()));
        assert(r.deep_view() =~= known.push(cells[i as int]));
        assert(r.deep_view() =~= seq![header] + cells.take(i + 1));
        i += 1;
    }
    assert(cells.take(cells.len() as int) =~= cells);
    r
}

/// The width of a column.
fn measure_column(table: &Vec<Vec<String>>, column: usize) -> (r: usize)
    requires
        forall|i: int| 0 <= i < table@.len() ==> column < (#[trigger] table@[i])@.len(),
    ensures
        r == column_width(table.deep_view(), column as int),
{
    let ghost all = table.deep_view();
    let mut width: usize = 0;
    let mut i: usize = 0;
    while i < table.len()
        invariant
            i <= table@.len(),
            forall|i: int| 0 <= i < table@.len() ==> column < (#[trigger] table@[i])@.len(),
            all == table.deep_view(),
            width == column_width(all.take(i as int), column as int),
        decreases table@.len() - i,
    {
        assert(all.take(i + 1).drop_last() =~= all.take(i as int));
        assert(all.take(i + 1).last() == table@[i as int].deep_view());
        assert(table@[i as int].deep_view()[column as int] == table@[i as int]@[column as int]@);
        let here: usize = bytes_len(table[i][column].as_str());
        if width < here {
            width = here;
        }
        i += 1;
    }
    assert(all.take(all.len() as int) =~= all);
    width
}

/// Widths as numbers.
pub open spec fn as_numbers(widths: Seq<usize>) -> Seq<nat> {
    widths.map_values(|width: usize| width as nat)
}

/// The widths of the columns of a table.
fn measure(table: &Vec<Vec<String>>, columns: usize) -> (r: Vec<usize>)
    requires
        forall|i: int| 0 <= i < table@.len() ==> (#[trigger] table@[i])@.len() == columns,
    ensures
        as_numbers(r@) == column_widths(table.deep_view(), columns as nat),
        r@.len() == columns,
{
    let mut r: Vec<usize> = Vec::new();
    let mut column: usize = 0;
    while column < columns
        invariant
            column <= columns,
            r@.len() == column,
            forall|i: int| 0 <= i < table@.len() ==> (#[trigger] table@[i])@.len() == columns,
            forall|k: int|
                0 <= k < column ==> #[trigger] r@[k] == column_width(table.deep_view(), k),
        decreases columns - column,
    {
        r.push(measure_column(table, column));
        column += 1;
    }
    assert(as_numbers(r@) =~= column_widths(table.deep_view(), columns as nat));
    r
}

/// A line of a table: each cell with spaces behind it that fill its column.
pub fn format_row(row: &Vec<String>, widths: &Vec<usize>) -> (r: String)
    requires
        row@.len() <= widths@.len(),
    ensures
        r@ == formatted(row.deep_view(), as_numbers(widths@)),
{
    let ghost numbers = as_numbers(widths@);
    let ghost all = Seq::new(row@.len(), |i: int| padded(row.deep_view()[i], numbers[i]));
    let mut cells: Vec<String> = Vec::new();
    let mut i: usize = 0;
    assert(cells.deep_view() =~= all.take(0));
    while i < row.len()
        invariant
            i <= row@.len() <= widths@.len(),
            numbers == as_numbers(widths@),
            all == Seq::new(row@.len(), |i: int| padded(row.deep_view()[i], numbers[i])),
            cells.deep_view() == all.take(i as int),
        decreases row@.len() - i,
    {
        let ghost known = cells.deep_view();
        let value = row[i].as_str();
        let count: usize = chars_of(value).len();
        let fill: usize = if count < widths[i] {
            widths[i] - count
        } else {
            0
        };
        let cell = value.to_owned().concat(repeat_char(' ', fill).as_str());
        assert(row.deep_view()[i as int] == value@);
        assert(all[i as int] == cell@);
        cells.push(cell);
        assert(cells.deep_view() =~= known.push(all[i as int]));
        assert(cells.deep_view() =~= all.take(i + 1));
        i += 1;
    }
    assert(all.take(all.len() as int) =~= all);
    assert(row.deep_view().len() == row@.len());
    join_texts(&cells, " | ")
}

/// The line below the heads of the columns.
fn rule(widths: &Vec<usize>) -> (r: String)
    ensures
        r@ == ruled(as_numbers(widths@)),
{
    let ghost all = as_numbers(widths@).map_values(|width: nat| repeated('-', width));
    let mut dashes: Vec<String> = Vec::new();
    let mut i: usize = 0;
    assert(dashes.deep_view() =~= all.take(0));
    while i < widths.len()
        invariant
            i <= widths@.len(),
            all == as_numbers(widths@).map_values(|width: nat| repeated('-', width)),
            dashes.deep_view() == all.take(i as int),
        decreases widths@.len() - i,
    {
        let ghost known = dashes.deep_view();
        dashes.push(repeat_char('-', widths[i]));
        assert(dashes.deep_view() =~= known.push(all[i as int]));
        assert(dashes.deep_view() =~= all.take(i + 1));
        i += 1;
    }
    assert(all.take(all.len() as int) =~= all);
    join_texts(&dashes, "-+-")
}

/// Each line of a table has a cell for each column.
proof fn lemma_table_columns(kind: OutputKind, rows: Seq<RowView>, i: int)
    requires
        0 <= i < table_of(kind, rows).len(),
    ensures
        table_of(kind, rows)[i].len() == table_header(kind, is_detailed(rows)).len(),
        table_of(kind, rows)[i].len() > 0,
        table_of(kind, rows)[0] == table_header(kind, is_detailed(rows)),
{
    if i > 0 {
        assert(table_of(kind, rows)[i] == table_cells(kind, is_detailed(rows), rows[i - 1]));
    }
}

/// The lines that tell of an outcome.
pub fn render_table(outcome: &SearchOutcome) -> (r: Vec<String>)
    ensures
        r.deep_view() == rendered(outcome.deep_view()),
{
    let ghost view = outcome.deep_view();
    let ghost head = seq![
        "# "@ + view.query,
        view.results_message,
        "Results: "@ + decimal(view.rows.len()),
    ];
    assert(view.rows.len() == outcome.rows@.len());
    let mut lines: Vec<String> = Vec::new();
    lines.push("# ".to_owned().concat(outcome.query.as_str()));
    lines.push(outcome.results_message.clone());
    lines.push("Results: ".to_owned().concat(decimal_text(outcome.rows.len()).as_str()));
    assert(lines.deep_view() =~= head);
    if outcome.rows.len() == 0 {
        lines.push(String::new());
        assert(lines.deep_view() =~= head.push(seq![]));
        return lines;
    }
    match outcome.kind {
        OutputKind::Cmvp => {
            if !same_text(outcome.canonical_query.as_str(), outcome.query.as_str()) {
                lines.push(
                    "Matched CMVP field value: ".to_owned().concat(
                        outcome.canonical_query.as_str(),
                    ),
                );
            }
        },
        OutputKind::Esv => {
            lines.push("IID filter: ".to_owned().concat(outcome.canonical_query.as_str()));
        },
    }
    let ghost noted = head + table_note(view);
    assert(lines.deep_view() =~= noted);
    let table = write_table(outcome.kind, &outcome.rows);
    let ghost cells = table.deep_view();
    proof {
        assert(cells.len() == table@.len());
        assert forall|i: int| 0 <= i < table@.len() implies (#[trigger] table@[i])@.len()
            == table@[0]@.len() by {
            lemma_table_columns(view.kind, view.rows, i);
            lemma_table_columns(view.kind, view.rows, 0);
            assert(cells[i].len() == table@[i]@.len());
            assert(cells[0].len() == table@[0]@.len());
        }
    }
    let widths = measure(&table, table[0].len());
    let ghost numbers = as_numbers(widths@);
    let ghost body = cells.drop_first().map_values(
        |row: Seq<Seq<char>>| formatted(row, numbers),
    );
    lines.push(format_row(&table[0], &widths));
    lines.push(rule(&widths));
    let ghost top = noted + seq![formatted(cells[0], numbers), ruled(numbers)];
    assert(lines.deep_view() =~= top);
    assert(lines.deep_view() =~= top + body.take(0));
    let mut i: usize = 1;
    while i < table.len()
        invariant
            1 <= i <= table@.len(),
            widths@.len() == table@[0]@.len(),
            forall|i: int|
                0 <= i < table@.len() ==> (#[trigger] table@[i])@.len() == table@[0]@.len(),
            cells == table.deep_view(),
            numbers == as_numbers(widths@),
            body == cells.drop_first().map_values(
                |row: Seq<Seq<char>>| formatted(row, numbers),
            ),
            lines.deep_view() == top + body.take(i - 1),
        decreases table@.len() - i,
    {
        let ghost known = lines.deep_view();
        assert(body[i - 1] == formatted(table@[i as int].deep_view(), numbers));
        lines.push(format_row(&table[i], &widths));
        assert(lines.deep_view() =~= known.push(body[i - 1]));
        assert(lines.deep_view() =~= top + body.take(i as int));
        i += 1;
    }
    assert(body.take(body.len() as int) =~= body);
    let ghost known = lines.deep_view();
    lines.push(String::new());
    assert(lines.deep_view() =~= known.push(seq![]));
    assert(top + body =~= noted + table_lines(cells));
    lines
}

/// A character that has a field put in quotes.
pub open spec fn is_special(c: char) -> bool {
    c == ',' || c == '"' || c == '\r' || c == '\n'
}

/// A field of a record: in quotes, and with its quotes doubled, where it holds
/// a comma, a quote or an end of line.
pub open spec fn csv_field(field: Seq<char>) -> Seq<char> {
    if exists|i: int| 0 <= i < field.len() && is_special(#[trigger] field[i]) {
        seq!['"'] + field.map_values(
            |c: char|
                if c == '"' {
                    seq!['"', '"']
                } else {
                    seq![c]
                },
        ).flatten() + seq!['"']
    } else {
        field
    }
}

/// A record: its fields parted by commas, and a line feed.
pub open spec fn csv_record(fields: Seq<Seq<char>>) -> Seq<char> {
    join(fields.map_values(|field: Seq<char>| csv_field(field)), ","@) + "\n"@
}

/// `csv::Writer::write_record` on a new writer with the default settings: the
/// record that it writes. A field is quoted only where it holds a comma, a
/// quote, a carriage return or a line feed, and quotes in it are doubled.
#[verifier::external_body]
fn write_record(fields: &Vec<String>) -> (r: String)
    requires
        fields@.len() >= 2,
    ensures
        r@ == csv_record(fields.deep_view()),
{
    let mut writer = csv::Writer::from_writer(Vec::new());
    writer.write_record(fields).unwrap();
    String::from_utf8(writer.into_inner().unwrap()).unwrap()
}

/// The names of the fields of a record.
pub open spec fn csv_header() -> Seq<Seq<char>> {
    seq![
        "kind"@,
        "query"@,
        "canonical_query"@,
        "module_certificate"@,
        "vendor"@,
        "module_name"@,
        "module_type"@,
        "validation_date"@,
        "certificate_url"@,
        "policy_url"@,
        "cavp_certificate"@,
        "cavp_algorithm"@,
        "operation"@,
        "properties"@,
        "cavp_listed"@,
        "esv_standard"@,
        "esv_description"@,
        "esv_noise_source"@,
        "esv_reuse_status"@,
        "entropy_document_url"@,
        "iid_claim"@,
    ]
}

/// The word for what a search looked through.
pub open spec fn kind_word(kind: OutputKind) -> Seq<char> {
    match kind {
        OutputKind::Cmvp => "cmvp"@,
        OutputKind::Esv => "esv"@,
    }
}

/// The fields of the record of a row.
pub open spec fn csv_fields(
    kind: OutputKind,
    query: Seq<char>,
    canonical_query: Seq<char>,
    row: RowView,
) -> Seq<Seq<char>> {
    seq![
        kind_word(kind),
        query,
        canonical_query,
        row.module_certificate,
        row.vendor,
        row.module_name,
        row.module_type,
        row.validation_date,
        row.certificate_url,
        row.policy_url,
        row.cavp_certificate,
        row.cavp_algorithm,
        row.operation,
        row.properties,
        if row.cavp_listed {
            "true"@
        } else {
            "false"@
        },
        row.esv_standard,
        row.esv_description,
        row.esv_noise_source,
        row.esv_reuse_status,
        row.entropy_document_url,
        claim_word(row.iid_claim),
    ]
}

/// The records of an outcome.
pub open spec fn outcome_records(outcome: OutcomeView) -> Seq<Seq<char>> {
    outcome.rows.map_values(
        |row: RowView|
            csv_record(csv_fields(outcome.kind, outcome.query, outcome.canonical_query, row)),
    )
}

/// The records of outcomes, below one with the names of the fields.
pub open spec fn csv_records(outcomes: Seq<OutcomeView>) -> Seq<Seq<char>> {
    seq![csv_record(csv_header())] + outcomes.map_values(
        |outcome: OutcomeView| outcome_records(outcome),
    ).flatten()
}

/// The record with the names of the fields.
fn write_csv_header() -> (r: String)
    ensures
        r@ == csv_record(csv_header()),
{
    let names = vec![
        "kind",
        "query",
        "canonical_query",
        "module_certificate",
        "vendor",
        "module_name",
        "module_type",
        "validation_date",
        "certificate_url",
        "policy_url",
        "cavp_certificate",
        "cavp_algorithm",
        "operation",
        "properties",
        "cavp_listed",
        "esv_standard",
        "esv_description",
        "esv_noise_source",
        "esv_reuse_status",
        "entropy_document_url",
        "iid_claim",
    ];
    assert(names.deep_view() =~= csv_header());
    let fields = owned(names);
    assert(fields.deep_view().len() == fields@.len());
    write_record(&fields)
}

/// The record of a row.
fn write_csv_row(outcome: &SearchOutcome, row: &ResultRow) -> (r: String)
    ensures
        r@ == csv_record(
            csv_fields(
                outcome.kind,
                outcome.query@,
                outcome.canonical_query@,
                row.deep_view(),
            ),
        ),
{
    let values = vec![
        match outcome.kind {
            OutputKind::Cmvp => "cmvp",
            OutputKind::Esv => "esv",
        },
        outcome.query.as_str(),
        outcome.canonical_query.as_str(),
        row.module_certificate.as_str(),
        row.vendor.as_str(),
        row.module_name.as_str(),
        row.module_type.as_str(),
        row.validation_date.as_str(),
        row.certificate_url.as_str(),
        row.policy_url.as_str(),
        row.cavp_certificate.as_str(),
        row.cavp_algorithm.as_str(),
        row.operation.as_str(),
        row.properties.as_str(),
        if row.cavp_listed {
            "true"
        } else {
            "false"
        },
        row.esv_standard.as_str(),
        row.esv_description.as_str(),
        row.esv_noise_source.as_str(),
        row.esv_reuse_status.as_str(),
        row.entropy_document_url.as_str(),
        row.iid_claim.as_str(),
    ];
    assert(values.deep_view() =~= csv_fields(
        outcome.kind,
        outcome.query@,
        outcome.canonical_query@,
        row.deep_view(),
    ));
    let fields = owned(values);
    assert(fields.deep_view().len() == fields@.len());
    write_record(&fields)
}

/// The records of outcomes, below one with the names of the fields.
fn write_csv_records(outcomes: &Vec<SearchOutcome>) -> (r: Vec<String>)
    ensures
        r.deep_view() == csv_records(outcomes.deep_view()),
{
    let ghost header = csv_record(csv_header());
    let ghost lists = outcomes.deep_view().map_values(
        |outcome: OutcomeView| outcome_records(outcome),
    );
    let mut r: Vec<String> = Vec::new();
    r.push(write_csv_header());
    let mut i: usize = 0;
    assert(r.deep_view() =~= seq![header] + lists.take(0).flatten());
    while i < outcomes.len()
        invariant
            i <= outcomes@.len(),
            lists == outcomes.deep_view().map_values(
                |outcome: OutcomeView| outcome_records(outcome),
            ),
            r.deep_view() == seq![header] + lists.take(i as int).flatten(),
        decreases outcomes@.len() - i,
    {
        let outcome = &outcomes[i];
        let ghost before = r.deep_view();
        let ghost records = outcome_records(outcome.deep_view());
        proof {
            assert(lists[i as int] == records);
            assert(lists.take(i + 1) =~= lists.take(i as int).push(records));
            lists.take(i as int).lemma_flatten_push(records);
        }
        let mut k: usize = 0;
        assert(r.deep_view() =~= before + records.take(0));
        while k < outcome.rows.len()
            invariant
                k <= outcome.rows@.len(),
                records == outcome_records(outcome.deep_view()),
                r.deep_view() == before + records.take(k as int),
            decreases outcome.rows@.len() - k,
        {
            let ghost known = r.deep_view();
            let record = write_csv_row(outcome, &outcome.rows[k]);
            assert(outcome.deep_view().rows[k as int] == outcome.rows@[k as int].deep_view());
            assert(records[k as int] == record@);
            r.push(record);
            assert(r.deep_view() =~= known.push(record@));
            assert(r.deep_view() =~= before + records.take(k + 1));
            k += 1;
        }
        assert(records.take(records.len() as int) =~= records);
        assert(r.deep_view() =~= seq![header] + (lists.take(i as int).flatten() + records));
        i += 1;
    }
    assert(lists.take(lists.len() as int) =~= lists);
    r
}

/// The document of comma-separated values that holds outcomes.
pub fn write_csv(outcomes: &Vec<SearchOutcome>) -> (r: String)
    ensures
        r@ == csv_records(outcomes.deep_view()).flatten(),
{
    concat_texts(&write_csv_records(outcomes))
}

/// What a JSON document has of an outcome.
#[derive(Debug)]
pub struct JsonOutput {
    /// What was searched for.
    pub query: String,
    /// What the search form was asked for.
    pub canonical_query: String,
    /// What the search has to say of its result.
    pub results_message: String,
    /// The rows that were found.
    pub results: Vec<ResultRow>,
}

/// What an entry of a JSON document holds.
#[verifier::ext_equal]
pub struct JsonView {
    pub query: Seq<char>,
    pub canonical_query: Seq<char>,
    pub results_message: Seq<char>,
    pub results: Seq<RowView>,
}

impl DeepView for JsonOutput {
    type V = JsonView;

    open spec fn deep_view(&self) -> JsonView {
        JsonView {
            query: self.query@,
            canonical_query: self.canonical_query@,
            results_message: self.results_message@,
            results: self.results.deep_view(),
        }
    }
}

/// What a JSON document has of an outcome.
pub open spec fn json_entry(outcome: OutcomeView) -> JsonView {
    JsonView {
        query: outcome.query,
        canonical_query: outcome.canonical_query,
        results_message: outcome.results_message,
        results: outcome.rows,
    }
}

/// What a JSON document has of outcomes.
pub fn json_payload(outcomes: &Vec<SearchOutcome>) -> (r: Vec<JsonOutput>)
    ensures
        r.deep_view() == outcomes.deep_view().map_values(
            |outcome: OutcomeView| json_entry(outcome),
        ),
{
    let ghost all = outcomes.deep_view().map_values(|outcome: OutcomeView| json_entry(outcome));
    let mut r: Vec<JsonOutput> = Vec::new();
    let mut i: usize = 0;
    assert(r.deep_view() =~= all.take(0));
    while i < outcomes.len()
        invariant
            i <= outcomes@.len(),
            all == outcomes.deep_view().map_values(
                |outcome: OutcomeView| json_entry(outcome),
            ),
            r.deep_view() == all.take(i as int),
        decreases outcomes@.len() - i,
    {
        let ghost known = r.deep_view();
        let outcome = &outcomes[i];
        let entry = JsonOutput {
            query: outcome.query.clone(),
            canonical_query: outcome.canonical_query.clone(),
            results_message: outcome.results_message.clone(),
            results: copy_rows(&outcome.rows),
        };
        assert(all[i as int] == entry.deep_view());
        r.push(entry);
        assert(r.deep_view() =~= known.push(all[i as int]));
        assert(r.deep_view() =~= all.take(i + 1));
        i += 1;
    }
    assert(all.take(all.len() as int) =~= all);
    r
}

} // verus!
