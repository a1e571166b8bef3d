use cmvp_checker::models::{ResultRow, SearchError};
use cmvp_checker::policy::{
    choose_policy, cut_from_last, cut_up_to, cut_window, derive_operation, extract_section_25,
    find_policy_url, join_lines, link_at, match_candidates, operation_or_algorithm,
    parse_section_matches, parse_section_matches_offline, policy_address, read_at, resolve_policy_url, rows_of_hits,
    scan_policy_for_algorithms, scan_policy_text, scan_section, section_entries,
    summarize_properties, Hit,
};

fn owned(texts: &[&str]) -> Vec<String> {
    texts.iter().map(|text| text.to_string()).collect()
}

fn base() -> ResultRow {
    let mut row = ResultRow::default();
    row.module_certificate = "5247".to_string();
    row.vendor = "Geomys LLC".to_string();
    row.module_name = "Go Cryptographic Module".to_string();
    row.module_type = "Software".to_string();
    row.validation_date = "5/1/2026".to_string();
    row.certificate_url = "https://c".to_string();
    row.policy_url = "https://p".to_string();
    row.esv_standard = "not copied".to_string();
    row
}

const LINK: &str = r#"<a HREF="/CSRC/media/projects/cryptographic-module-validation-program/documents/security-policies/140sp5247.pdf">x</a>"#;

#[test]
fn a_page_links_to_its_policy() {
    assert_eq!(
        find_policy_url(LINK).unwrap().unwrap(),
        "https://csrc.nist.gov/CSRC/media/projects/cryptographic-module-validation-program/documents/security-policies/140sp5247.pdf"
    );
    assert_eq!(find_policy_url("<a href=\"/other.pdf\">").unwrap(), None);
    assert_eq!(link_at("a/b c", Some(Some((1, 3)))), Some("https://csrc.nist.gov/b".to_string()));
    assert_eq!(link_at("a", Some(None)), None);
    assert_eq!(link_at("a", None), None);
}

#[test]
fn the_policy_of_the_page_comes_before_that_of_the_row() {
    assert!(resolve_policy_url(LINK, &base()).unwrap().unwrap().ends_with("140sp5247.pdf"));
    assert_eq!(resolve_policy_url("", &base()).unwrap(), Some("https://p".to_string()));
    assert_eq!(resolve_policy_url("", &ResultRow::default()).unwrap(), None);
    assert!(policy_address(Some(LINK.to_string()), &base()).unwrap().unwrap().ends_with("140sp5247.pdf"));
    assert_eq!(policy_address(None, &base()).unwrap(), Some("https://p".to_string()));
    assert_eq!(policy_address(None, &ResultRow::default()).unwrap(), None);
    assert_eq!(choose_policy(Some("x".to_string()), &base()), Some("x".to_string()));
}

const POLICY: &str = "2.5 Algorithms ........ 7\n2.6 Others 9\n\u{c}2.5 Algorithms\nAlgorithm\nCAVP\nCert\n\n ML-KEM   EncapDecap \nA6650\nPage 7 of 50\nFIPS 203\n\u{c}ML-KEM KeyGen\nA6650\nFIPS 203\n2.6 Others\nML-KEM KeyVer\n";

#[test]
fn the_section_is_the_last_one_with_its_heading() {
    assert_eq!(
        extract_section_25(POLICY).unwrap(),
        "2.5 Algorithms\nML-KEM EncapDecap\nA6650\nFIPS 203\nML-KEM KeyGen\nA6650\nFIPS 203"
    );
    assert_eq!(
        extract_section_25(&POLICY.replace('\u{c}', "\n")).unwrap(),
        extract_section_25(POLICY).unwrap()
    );
    assert_eq!(extract_section_25("no\u{c}section\n").unwrap(), "no\nsection\n");
    assert_eq!(extract_section_25("2.5 Algorithms\n AES  \nReference").unwrap(), "2.5 Algorithms\nAES");
}

#[test]
fn a_section_is_cut_out_of_its_text() {
    assert_eq!(cut_from_last("abcdef", &vec![(0, 1), (3, 4)]), Some("def".to_string()));
    assert_eq!(cut_from_last("abc", &vec![]), None);
    assert_eq!(cut_up_to("abcdef", Some((2, 3))), "ab");
    assert_eq!(cut_up_to("abc", None), "abc");
    assert_eq!(
        section_entries(" a  b\n\nCert\nProperties\nCert x\n"),
        owned(&["a b", "Cert x"])
    );
}

#[test]
fn properties_are_what_follows_the_algorithm_and_its_certificate() {
    assert_eq!(
        summarize_properties("ML-KEM KeyGen\n A6650 - Parameter  sets", "ML-KEM KeyGen", "A6650"),
        "Parameter sets"
    );
    assert_eq!(summarize_properties("x A1 y", "z", ""), "x A1 y");
    assert_eq!(summarize_properties(" . ; ,", "", ""), "");
    let long = "w ".repeat(300);
    assert_eq!(summarize_properties(&long, "", "").len(), 219);
    assert_eq!(summarize_properties(&"\u{e9}".repeat(300), "", "").chars().count(), 220);
}

#[test]
fn an_operation_is_an_algorithm_without_the_term() {
    assert_eq!(derive_operation("ML-KEM", "ML-KEM EncapDecap").unwrap(), "EncapDecap");
    assert_eq!(derive_operation("ml-kem", "ML-KEM - KeyGen").unwrap(), "KeyGen");
    assert_eq!(derive_operation("lms", "LMS").unwrap(), "LMS");
    assert_eq!(derive_operation("LMS", "LMS -").unwrap(), "LMS -");
    assert_eq!(derive_operation("KEM", "ML-KEM KeyGen").unwrap(), "ML-KEM KeyGen");
    assert_eq!(derive_operation("A+(", "a+( x").unwrap(), "x");
    assert_eq!(operation_or_algorithm("  ", "A"), "A");
    assert_eq!(operation_or_algorithm(" b ", "A"), "b");
}

#[test]
fn algorithms_of_a_section_become_rows() {
    let section = extract_section_25(POLICY).unwrap();
    let algorithms = owned(&["ML-KEM EncapDecap", "ML-KEM KeyGen", "LMS"]);
    let rows = parse_section_matches(&base(), &section, "ML-KEM", &algorithms).unwrap();
    let told: Vec<String> = rows
        .iter()
        .map(|row| {
            format!(
                "{} | {} | {} | {} | {} | {}",
                row.module_certificate,
                row.vendor,
                row.module_name,
                row.cavp_certificate,
                row.cavp_algorithm,
                row.operation
            )
        })
        .collect();
    assert_eq!(
        told,
        owned(&[
            "5247 | Geomys LLC | Go Cryptographic Module | A6650 | ML-KEM EncapDecap | EncapDecap",
            "5247 | Geomys LLC | Go Cryptographic Module | A6650 | ML-KEM KeyGen | KeyGen",
        ])
    );
    assert_eq!(rows[1].properties, "FIPS 203");
    assert!(rows[0].cavp_listed);
    assert_eq!(rows[0].policy_url, "https://p");
    assert_eq!(rows[0].validation_date, "5/1/2026");
    assert_eq!(rows[0].esv_standard, "");
}

#[test]
fn a_term_is_found_only_where_nothing_touches_it() {
    let rows = scan_section(&base(), "SHA-256x SHA-2567 xSHA-256", "SHA", &owned(&["SHA-256"]));
    assert_eq!(rows.unwrap().len(), 0);
    let rows = scan_section(&base(), "(sha-256) A123 then A1234567", "SHA", &owned(&["SHA-256"]));
    let rows = rows.unwrap();
    assert_eq!(rows.len(), 1);
    assert_eq!(rows[0].cavp_certificate, "A123");
    assert_eq!(rows[0].cavp_algorithm, "SHA-256");
    assert_eq!(rows[0].properties, "sha-256) A123 then A1234567");
}

#[test]
fn an_algorithm_with_one_certificate_gives_one_row() {
    let section = format!("LMS A111 x\nLMS A111 y\n{}\nLMS A222", "-".repeat(600));
    let rows = scan_section(&base(), &section, "LMS", &owned(&["LMS", "LMS"])).unwrap();
    let certificates: Vec<&str> = rows.iter().map(|row| row.cavp_certificate.as_str()).collect();
    assert_eq!(certificates, vec!["A111", "A222"]);
}

#[test]
fn an_excerpt_must_not_end_inside_a_character() {
    let split = format!("LMS{}\u{e9}{}", " ".repeat(496), " ".repeat(10));
    let error = scan_section(&base(), &split, "LMS", &owned(&["LMS"])).unwrap_err();
    assert!(matches!(&error, SearchError::SplitCharacter));
    assert_eq!(error.message(), "a policy excerpt ends inside a character");
    let whole = format!("LMS{}\u{e9}{}", " ".repeat(495), " ".repeat(10));
    assert_eq!(scan_section(&base(), &whole, "LMS", &owned(&["LMS"])).unwrap()[0].properties, "\u{e9}");
    assert_eq!(cut_window(&whole, 0).unwrap().len(), 500);
    assert_eq!(cut_window("abc", 1).unwrap(), "bc");
    assert!(cut_window(&split, 0).is_err());
}

#[test]
fn lines_with_a_term_become_rows() {
    let section = " ML-KEM KeyGen \nA6650\nother\nML-KEMX\nml-kem\n";
    let rows = parse_section_matches_offline(&base(), section, "ML-KEM").unwrap();
    assert_eq!(rows.len(), 2);
    assert_eq!(rows[0].cavp_algorithm, "ML-KEM KeyGen");
    assert_eq!(rows[0].cavp_certificate, "A6650");
    assert_eq!(rows[0].operation, "KeyGen");
    assert_eq!(rows[0].properties, "other ML-KEMX ml-kem");
    assert!(rows[0].cavp_listed);
    assert_eq!(rows[1].cavp_algorithm, "ml-kem");
    assert_eq!(rows[1].cavp_certificate, "");
    assert_eq!(rows[1].operation, "ml-kem");
    assert_eq!(rows[1].properties, "");
}

#[test]
fn an_excerpt_of_lines_is_short() {
    let lines: Vec<String> = (0..12).map(|i| i.to_string()).collect();
    assert_eq!(join_lines(&lines, 1), "1 2 3 4 5 6 7 8 9 10");
    assert_eq!(join_lines(&lines, 10), "10 11");
}

#[test]
fn hits_with_the_same_algorithm_and_certificate_give_one_row() {
    let hit = |algorithm: &str, certificate: &str, snippet: &str| Hit {
        algorithm: algorithm.to_string(),
        certificate: certificate.to_string(),
        operation: "op".to_string(),
        snippet: snippet.to_string(),
        listed: true,
    };
    let hits = vec![hit("A", "1", "A 1 first"), hit("A", "2", "x"), hit("A", "1", "second")];
    let rows = rows_of_hits(&base(), &hits);
    assert_eq!(rows.len(), 2);
    assert_eq!(rows[0].properties, "first");
    assert_eq!(rows[1].cavp_certificate, "2");
    assert_eq!(read_at("abc", Some((1, 2))), "b");
    assert_eq!(read_at("abc", None), "");
}

#[test]
fn a_policy_is_scanned_for_each_term_by_itself() {
    let candidates = vec![
        ("ML-KEM".to_string(), owned(&["ML-KEM KeyGen"])),
        ("EncapDecap".to_string(), owned(&[])),
        ("LMS".to_string(), owned(&["LMS"])),
    ];
    let url = "https://new".to_string();
    let lists = scan_policy_text(&base(), url.clone(), POLICY, &candidates).unwrap();
    assert_eq!(lists.len(), 3);
    assert_eq!(lists[0].len(), 1);
    assert_eq!(lists[0][0].policy_url, "https://new");
    assert_eq!(lists[1][0].cavp_algorithm, "ML-KEM EncapDecap");
    assert_eq!(lists[2].len(), 0);
    let text = || Some(POLICY.to_string());
    let same = scan_policy_for_algorithms(&base(), Some(url.clone()), text(), &candidates).unwrap();
    assert_eq!(same[1][0].operation, lists[1][0].operation);
    for (url, text) in [(None, text()), (Some(url), None), (None, None)] {
        let none = scan_policy_for_algorithms(&base(), url, text, &candidates).unwrap();
        assert_eq!(none.iter().map(Vec::len).collect::<Vec<_>>(), vec![0, 0, 0]);
    }
    assert_eq!(match_candidates(&base(), "LMS", &candidates).unwrap()[2].len(), 1);
}
