use cmvp_checker::fetch::{
    cached_document_paths, certificate_of_file, document_text, last_part, next_step,
    page_file_name, plan_page, plan_text, DocumentKind, PagePlan, Reply, RetryStep, TextPlan,
};
use cmvp_checker::models::{IidClaim, OutputKind, ResultRow, SearchOutcome};
use cmvp_checker::report::{format_row, json_payload, render_table, write_csv};
use std::path::Path;

fn owned(texts: &[&str]) -> Vec<String> {
    texts.iter().map(|text| text.to_string()).collect()
}

fn row(certificate: &str, vendor: &str, name: &str) -> ResultRow {
    let mut row = ResultRow::default();
    row.module_certificate = certificate.to_string();
    row.vendor = vendor.to_string();
    row.module_name = name.to_string();
    row
}

fn outcome(query: &str, canonical: &str, rows: Vec<ResultRow>, kind: OutputKind) -> SearchOutcome {
    SearchOutcome {
        query: query.to_string(),
        canonical_query: canonical.to_string(),
        results_message: "message".to_string(),
        rows,
        kind,
    }
}

#[test]
fn an_empty_outcome_has_no_table() {
    let lines = render_table(&outcome("LMS", "other", vec![], OutputKind::Cmvp));
    assert_eq!(lines, owned(&["# LMS", "message", "Results: 0", ""]));
}

#[test]
fn modules_of_the_form_are_tabled() {
    let mut listed = row("5247", "Geomys LLC", "Go");
    listed.module_type = "Software".to_string();
    listed.validation_date = "5/1/2026".to_string();
    let lines = render_table(&outcome("aes", "AES", vec![listed], OutputKind::Cmvp));
    assert_eq!(
        lines,
        owned(&[
            "# aes",
            "message",
            "Results: 1",
            "Matched CMVP field value: AES",
            "Certificate | Vendor     | Module Name | Type     | Validated",
            "------------+------------+-------------+----------+----------",
            "5247        | Geomys LLC | Go          | Software | 5/1/2026 ",
            "",
        ])
    );
}

#[test]
fn algorithms_of_policies_are_tabled() {
    let mut listed = row("5247", "Geomys LLC", "Go Cryptographic Module");
    listed.cavp_certificate = "A6650".to_string();
    listed.cavp_algorithm = "ML-KEM EncapDecap".to_string();
    listed.operation = "EncapDecap".to_string();
    let mut second = listed.clone();
    second.cavp_algorithm = "ML-KEM KeyGen".to_string();
    second.operation = "KeyGen".to_string();
    let lines = render_table(&outcome("LMS", "LMS", vec![listed, second], OutputKind::Cmvp));
    assert_eq!(lines.len(), 8);
    assert_eq!(
        lines[3],
        "Module Cert | Vendor     | Module Name             | CAVP Cert | CAVP Algorithm    | Operation "
    );
    assert_eq!(
        lines[5],
        "5247        | Geomys LLC | Go Cryptographic Module | A6650     | ML-KEM EncapDecap | EncapDecap"
    );
    assert_eq!(
        lines[6],
        "5247        | Geomys LLC | Go Cryptographic Module | A6650     | ML-KEM KeyGen     | KeyGen    "
    );
}

#[test]
fn table_lines_have_one_width() {
    let mut source = row("E1", "\u{c9}lan", "Jitter");
    source.iid_claim = IidClaim::NonIid;
    source.esv_noise_source = "Non-Physical".to_string();
    let lines = render_table(&outcome("esv", "any", vec![source, row("E22", "V", "")], OutputKind::Esv));
    assert_eq!(lines[3], "IID filter: any");
    assert!(lines[4].starts_with("Certificate | Vendor | Implementation | IID Claim | Noise Source | Validated"));
    assert!(lines[6].contains("| non-iid   | Non-Physical |"));
    assert!(lines[7].contains("| unknown   |              |"));
    let widths: Vec<usize> = lines[4..8].iter().map(|line| line.chars().count()).collect();
    assert_eq!(widths, vec![widths[0]; 4]);
}

#[test]
fn cells_are_padded_by_characters() {
    assert_eq!(format_row(&owned(&["\u{e9}", "abc"]), &vec![3, 2]), "\u{e9}   | abc");
}

#[test]
fn records_are_quoted_where_needed() {
    let mut listed = row("5247", "Geomys, LLC", "Go \"Module\"");
    listed.properties = "two\nlines".to_string();
    listed.cavp_listed = true;
    listed.iid_claim = IidClaim::Iid;
    let plain = row("E1", "V", "N");
    let document = write_csv(&vec![
        outcome("q", "c", vec![listed], OutputKind::Cmvp),
        outcome("esv", "any", vec![plain], OutputKind::Esv),
    ]);
    assert_eq!(
        document,
        "kind,query,canonical_query,module_certificate,vendor,module_name,module_type,validation_date,certificate_url,policy_url,cavp_certificate,cavp_algorithm,operation,properties,cavp_listed,esv_standard,esv_description,esv_noise_source,esv_reuse_status,entropy_document_url,iid_claim\n\
cmvp,q,c,5247,\"Geomys, LLC\",\"Go \"\"Module\"\"\",,,,,,,,\"two\nlines\",true,,,,,,iid\n\
esv,esv,any,E1,V,N,,,,,,,,,false,,,,,,unknown\n"
    );
}

#[test]
fn records_read_back() {
    let mut listed = row("1\r2", "a,\"b\"", "\"");
    listed.operation = "\u{e9}".repeat(5000);
    let document = write_csv(&vec![outcome("q", "c", vec![listed.clone()], OutputKind::Cmvp)]);
    let mut reader = csv::Reader::from_reader(document.as_bytes());
    let records: Vec<csv::StringRecord> = reader.records().map(|record| record.unwrap()).collect();
    assert_eq!(records.len(), 1);
    assert_eq!(records[0].len(), 21);
    assert_eq!(&records[0][3], listed.module_certificate.as_str());
    assert_eq!(&records[0][4], listed.vendor.as_str());
    assert_eq!(&records[0][5], listed.module_name.as_str());
    assert_eq!(&records[0][12], listed.operation.as_str());
}

#[test]
fn a_json_document_has_each_outcome() {
    let payload = json_payload(&vec![outcome("q", "c", vec![row("1", "V", "N")], OutputKind::Cmvp)]);
    assert_eq!(payload.len(), 1);
    assert_eq!(payload[0].query, "q");
    assert_eq!(payload[0].canonical_query, "c");
    assert_eq!(payload[0].results_message, "message");
    assert_eq!(payload[0].results[0].vendor, "V");
}

#[test]
fn requests_are_repeated_a_few_times() {
    assert_eq!(next_step(0, Reply::Status(200)), RetryStep::Accept);
    assert_eq!(next_step(9, Reply::Status(299)), RetryStep::Accept);
    assert_eq!(next_step(0, Reply::Status(404)), RetryStep::Fail);
    assert_eq!(next_step(0, Reply::Status(300)), RetryStep::Fail);
    for status in [408, 429, 500, 502, 503, 504] {
        assert_eq!(next_step(0, Reply::Status(status)), RetryStep::Wait(1500));
        assert_eq!(next_step(1, Reply::Status(status)), RetryStep::Wait(3000));
        assert_eq!(next_step(2, Reply::Unreachable), RetryStep::Wait(4500));
        assert_eq!(next_step(3, Reply::Status(status)), RetryStep::Fail);
    }
    assert_eq!(next_step(3, Reply::Unreachable), RetryStep::Fail);
    assert_eq!(next_step(u32::MAX, Reply::Unreachable), RetryStep::Fail);
}

#[test]
fn cached_files_are_used() {
    assert_eq!(plan_page(true, false, false), PagePlan::ReadCached);
    assert_eq!(plan_page(true, true, false), PagePlan::Fetch);
    assert_eq!(plan_page(false, false, false), PagePlan::Fetch);
    assert_eq!(plan_text(true, false, false, false), TextPlan::ReadText);
    assert_eq!(plan_text(false, true, false, false), TextPlan::Convert);
    assert_eq!(plan_text(true, true, true, false), TextPlan::FetchAndConvert);
    assert_eq!(plan_text(false, false, false, false), TextPlan::FetchAndConvert);
}

#[test]
fn without_a_connection_nothing_is_fetched() {
    assert_eq!(plan_page(true, true, true), PagePlan::ReadCached);
    assert_eq!(plan_page(false, false, true), PagePlan::Missing);
    assert_eq!(plan_text(true, false, true, true), TextPlan::ReadText);
    assert_eq!(plan_text(false, true, false, true), TextPlan::Convert);
    assert_eq!(plan_text(false, false, false, true), TextPlan::Missing);
}

#[test]
fn the_name_of_a_document_is_the_last_part_of_its_address() {
    for url in ["", "/", ".", "..", "a/..", "https://x.y/a/b.pdf", "a/./", "a//", "./a", "x/...", "..a/", "a?b=/c"] {
        let expected = Path::new(url).file_name().unwrap_or_default().to_string_lossy().into_owned();
        assert_eq!(last_part(url), expected, "{}", url);
    }
}

#[test]
fn documents_and_their_texts_have_places_in_the_cache() {
    let kinds = [
        (DocumentKind::SecurityPolicy, "security-policies"),
        (DocumentKind::EntropyDocument, "entropy-documents"),
    ];
    for (kind, directory) in kinds {
        for url in ["https://x.y/140sp5247.pdf", "a/.pdf", "a/b", "a/b.", "a/b.c.d", "", "a/.."] {
            let name = Path::new(url).file_name().unwrap_or_default();
            let document = Path::new("cache").join(directory).join(name);
            let (found, text) = cached_document_paths(kind, url);
            assert_eq!(Path::new("cache").join(found), document, "{}", url);
            assert_eq!(Path::new("cache").join(text), document.with_extension("txt"), "{}", url);
        }
    }
}

#[test]
fn the_name_of_a_cached_page_leads_back_to_its_certificate() {
    assert_eq!(page_file_name("5247"), "5247.html");
    for certificate in ["5247", "E12", "a.b", ".x"] {
        assert_eq!(certificate_of_file(&page_file_name(certificate)), Some(certificate.to_string()));
    }
    assert_eq!(certificate_of_file(".html"), None);
    assert_eq!(certificate_of_file("5247.htm"), None);
    assert_eq!(certificate_of_file("html"), None);
}

#[test]
fn bytes_that_are_not_text_are_marked() {
    assert_eq!(document_text("caf\u{e9}".as_bytes()), "caf\u{e9}");
    assert_eq!(document_text(&[b'a', 0xff, b'b']), "a\u{fffd}b");
}
