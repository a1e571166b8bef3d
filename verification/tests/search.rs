use cmvp_checker::esv::{
    classify_iid_claim, enrich_esv_certificate, entropy_document, esv_search, fill_from_list,
    read_esv_certificate, read_track, EsvListing,
};
use cmvp_checker::listing::AlgorithmOptions;
use cmvp_checker::models::{IidClaim, IidClaimFilter, OutputKind, ResultRow, SearchError};
use cmvp_checker::search::{
    combine_pages, fallback_candidates, form_queries, offline_search, scan_security_policies,
    search_cmvp_form, search_products_for_terms, search_statuses, unsupported_scan, PolicyScan,
};

fn owned(texts: &[&str]) -> Vec<String> {
    texts.iter().map(|text| text.to_string()).collect()
}

fn row(certificate: &str, algorithm: &str) -> ResultRow {
    let mut row = ResultRow::default();
    row.module_certificate = certificate.to_string();
    row.cavp_algorithm = algorithm.to_string();
    row
}

fn claimed(certificate: &str, claim: IidClaim) -> ResultRow {
    let mut row = row(certificate, "");
    row.iid_claim = claim;
    row
}

fn live(value: &str, rows: Vec<ResultRow>, message: &str) -> (String, Vec<ResultRow>, String) {
    (value.to_string(), rows, message.to_string())
}

fn certificates(rows: &[ResultRow]) -> Vec<&str> {
    rows.iter().map(|row| row.module_certificate.as_str()).collect()
}

#[test]
fn revoked_modules_are_searched_once() {
    assert_eq!(search_statuses("Active", false), owned(&["Active"]));
    assert_eq!(search_statuses("Active", true), owned(&["Active", "Revoked"]));
    assert_eq!(search_statuses("Revoked", true), owned(&["Revoked"]));
}

#[test]
fn the_form_is_asked_status_by_status() {
    let mut options = AlgorithmOptions::new();
    options.insert("aes".to_string(), "AES".to_string());
    let pair = |name: &str, value: &str| (name.to_string(), value.to_string());
    let queries = form_queries(" aes", &options, &owned(&["Active", "Revoked"])).unwrap();
    assert_eq!(
        queries,
        vec![
            vec![pair("SearchMode", "Advanced"), pair("CertificateStatus", "Active"), pair("Algorithm", "AES")],
            vec![pair("SearchMode", "Advanced"), pair("CertificateStatus", "Revoked"), pair("Algorithm", "AES")],
        ]
    );
    let queries = form_queries("LMS", &options, &owned(&["Active"])).unwrap();
    assert_eq!(queries[0][2], pair("OtherAlgorithms", "LMS"));
    assert!(matches!(form_queries(" ", &options, &owned(&["Active"])), Err(SearchError::EmptyAlgorithm)));
}

const PAGE: &str = r#"<p id="resultsMessage">One module</p><table id="searchResultsTable"><tbody>
<tr><td><a href="/1">1</a></td><td>V</td><td>N</td><td>T</td><td>D</td></tr></tbody></table>"#;

#[test]
fn the_answers_of_the_form_are_put_together() {
    let options = AlgorithmOptions::new();
    let statuses = owned(&["Active", "Revoked"]);
    let pages = owned(&[PAGE, PAGE]);
    let (value, rows, message) = search_cmvp_form(" LMS ", &options, &statuses, &pages).unwrap();
    assert_eq!(value, "LMS");
    assert_eq!(certificates(&rows), vec!["1"]);
    assert_eq!(message, "One module | One module");
    let pages = owned(&["", PAGE]);
    let (_, _, message) = search_cmvp_form("LMS", &options, &statuses, &pages).unwrap();
    assert_eq!(message, "No response message returned for Active. | One module");
    let found = combine_pages("x".to_string(), &owned(&["Active"]), vec![(vec![row("2", ""), row("2", "")], "m".to_string())]);
    assert_eq!((found.0.as_str(), found.1.len(), found.2.as_str()), ("x", 1, "m"));
}

#[test]
fn terms_without_live_rows_are_looked_for_in_policies() {
    let terms = owned(&["LMS", "AES", "ML-KEM", "LMS", "XYZ"]);
    let answers = vec![
        live("LMS", vec![], ""),
        live("AES", vec![row("1", "")], ""),
        live("ML-KEM", vec![], ""),
        live("LMS", vec![], ""),
        live("XYZ", vec![], ""),
    ];
    let algorithms = owned(&["ML-KEM KeyGen", "LMS", "AES"]);
    let candidates = fallback_candidates(&terms, &answers, &algorithms, true, false);
    assert_eq!(
        candidates,
        vec![
            ("LMS".to_string(), owned(&["LMS"])),
            ("ML-KEM".to_string(), owned(&["ML-KEM KeyGen"])),
        ]
    );
    assert!(fallback_candidates(&terms, &answers, &algorithms, false, false).is_empty());
}

#[test]
fn without_a_connection_each_term_is_a_candidate() {
    let terms = owned(&["LMS", "ML-KEM", "LMS"]);
    let answers: Vec<_> = terms.iter().map(|term| offline_search(term)).collect();
    assert_eq!(answers[1].0, "ML-KEM");
    assert_eq!(
        answers[1].2,
        "Offline mode: skipping live CMVP search and using cached data only."
    );
    let candidates = fallback_candidates(&terms, &answers, &vec![], true, true);
    assert_eq!(candidates, vec![("LMS".to_string(), vec![]), ("ML-KEM".to_string(), vec![])]);
    let outcomes = search_products_for_terms(&terms, &answers, &vec![], &vec![]);
    assert_eq!(outcomes.len(), 2);
    assert_eq!(outcomes[0].results_message, answers[0].2);
    assert_eq!(outcomes[0].rows.len(), 0);
}

#[test]
fn the_policies_of_a_status_are_put_together() {
    let scanned = vec![
        vec![vec![row("1", "A")], vec![]],
        vec![vec![row("1", "A"), row("2", "B")], vec![]],
    ];
    let scan = scan_security_policies("Active", 2, &scanned);
    assert_eq!(certificates(&scan.rows[0]), vec!["1", "2"]);
    assert_eq!(scan.rows[1].len(), 0);
    assert_eq!(
        scan.messages,
        owned(&[
            "Active: CMVP search page returned no matches; scanned 2 module policies once, matched 2 certified operation entries",
            "Active: CMVP search page returned no matches; scanned 2 module policies once, matched 0 certified operation entries",
        ])
    );
    let scan = unsupported_scan(2);
    assert_eq!((scan.rows.len(), scan.rows[0].len()), (2, 0));
    assert_eq!(
        scan.messages[1],
        "pdftotext is not installed, so security-policy scanning is unavailable."
    );
}

#[test]
fn each_distinct_term_has_one_outcome() {
    let terms = owned(&["AES", "LMS", "AES"]);
    let answers = vec![
        live("AES", vec![row("1", "")], "first"),
        live("LMS", vec![], "none"),
        live("AES*", vec![row("2", "")], "last"),
    ];
    let candidates = vec![("LMS".to_string(), owned(&["LMS"]))];
    let scans = vec![
        PolicyScan { rows: vec![vec![row("3", "LMS")]], messages: owned(&["a"]) },
        PolicyScan { rows: vec![vec![row("3", "LMS"), row("4", "LMS")]], messages: owned(&["b"]) },
    ];
    let outcomes = search_products_for_terms(&terms, &answers, &candidates, &scans);
    assert_eq!(outcomes.len(), 2);
    assert_eq!(outcomes[0].query, "AES");
    assert_eq!(outcomes[0].canonical_query, "AES*");
    assert_eq!(outcomes[0].results_message, "last");
    assert_eq!(certificates(&outcomes[0].rows), vec!["2"]);
    assert_eq!(outcomes[1].query, "LMS");
    assert_eq!(outcomes[1].canonical_query, "LMS");
    assert_eq!(outcomes[1].results_message, "a | b");
    assert_eq!(certificates(&outcomes[1].rows), vec!["3", "4"]);
    assert_eq!(outcomes[1].kind, OutputKind::Cmvp);
}

#[test]
fn a_document_claims_a_track() {
    let claim = |text: &str| classify_iid_claim(text).unwrap();
    assert_eq!(claim("Entropy Estimation\u{c}Track: Non-IID"), IidClaim::NonIid);
    assert_eq!(claim("entropy estimation track  iid"), IidClaim::Iid);
    assert_eq!(claim("The nonIID entropy estimation track is chosen"), IidClaim::NonIid);
    assert_eq!(claim("The IID entropy\nestimation track is chosen."), IidClaim::Iid);
    assert_eq!(claim("Entropy Estimation Track"), IidClaim::Unknown);
    assert_eq!(claim(&format!("Entropy Estimation Track {} IID", "x".repeat(200))), IidClaim::Unknown);
    assert_eq!(
        claim("The IID entropy estimation track is chosen. Entropy Estimation Track: Non IID"),
        IidClaim::NonIid
    );
    let paged = "The IID entropy\u{c}estimation track is\u{c}chosen";
    assert_eq!(claim(paged), claim(&paged.replace('\u{c}', "\n")));
    assert_eq!(claim(paged), IidClaim::Iid);
    for text in ["Entropy Estimation Track: Non-IID", paged, "entropy estimation trac\u{212a} \u{e9} iid", "no claim"] {
        assert_eq!(claim(&text.to_ascii_uppercase()), claim(text), "{}", text);
        assert_eq!(claim(&text.to_ascii_lowercase()), claim(text), "{}", text);
    }
    assert_eq!(claim("Entropy Estimation Track \u{131}\u{130}D"), IidClaim::Unknown);
    assert_eq!(read_track("a NON IID", Some(Some((2, 9)))), Some(IidClaim::NonIid));
    assert_eq!(read_track("a", Some(None)), Some(IidClaim::Iid));
    assert_eq!(read_track("a", None), None);
}

#[test]
fn a_certificate_page_is_filled_from_the_list() {
    let mut listed = row("E1", "");
    listed.vendor = "Listed".to_string();
    listed.module_name = "Name".to_string();
    listed.validation_date = "Date".to_string();
    let filled = read_esv_certificate(Some("<p></p>".to_string()), &listed).unwrap();
    assert_eq!(filled.module_certificate, "E1");
    assert_eq!(filled.vendor, "Listed");
    assert_eq!(filled.module_name, "Name");
    assert_eq!(filled.validation_date, "Date");
    listed.esv_standard = "Standard".to_string();
    let kept = read_esv_certificate(None, &listed).unwrap();
    assert_eq!((kept.vendor.as_str(), kept.esv_standard.as_str()), ("Listed", "Standard"));
    let mut page = row("E1", "");
    page.vendor = " Own ".to_string();
    page.module_name = "Other".to_string();
    let filled = fill_from_list(page, &listed);
    assert_eq!((filled.vendor.as_str(), filled.module_name.as_str()), ("Own", "Other"));
}

#[test]
fn a_document_gives_the_claim_of_its_certificate() {
    let mut certificate = row("E1", "");
    assert_eq!(entropy_document(&certificate), None);
    let text = Some("Entropy Estimation Track IID".to_string());
    let same = enrich_esv_certificate(certificate.clone(), text).unwrap();
    assert_eq!(same.iid_claim, IidClaim::Unknown);
    certificate.entropy_document_url = "https://x/E1.PDF".to_string();
    assert_eq!(entropy_document(&certificate), Some("https://x/E1.PDF".to_string()));
    let text = Some("Entropy Estimation Track IID".to_string());
    let enriched = enrich_esv_certificate(certificate.clone(), text).unwrap();
    assert_eq!(enriched.iid_claim, IidClaim::Iid);
    assert_eq!(enriched.module_certificate, "E1");
    assert_eq!(enrich_esv_certificate(certificate, None).unwrap().iid_claim, IidClaim::Unknown);
}

#[test]
fn listing_pages_are_read_until_one_is_empty() {
    let mut listing = EsvListing::new();
    assert_eq!(listing.query(), vec![("page".to_string(), "1".to_string())]);
    assert!(listing.take_page(vec![row("E1", ""), row("E3", "")]));
    assert_eq!(listing.query(), vec![("page".to_string(), "2".to_string())]);
    assert!(listing.take_page(vec![row("E3", ""), row("E2", "")]));
    assert!(!listing.take_page(vec![]));
    assert_eq!(listing.page, 3);
    assert_eq!(certificates(&listing.into_catalog().unwrap()), vec!["E3", "E2", "E1"]);
    let error = EsvListing::new().into_catalog().unwrap_err();
    assert!(matches!(&error, SearchError::EmptyEsvListing));
    assert_eq!(error.message(), "could not parse any certificates from the ESV listing page");
}

#[test]
fn an_entropy_search_filters_and_sorts() {
    let rows = || {
        vec![
            claimed("E1", IidClaim::Iid),
            claimed("E3", IidClaim::Unknown),
            claimed("E2", IidClaim::Iid),
            claimed("E4", IidClaim::NonIid),
        ]
    };
    let outcome = esv_search(rows(), IidClaimFilter::Iid);
    assert_eq!(outcome.query, "esv");
    assert_eq!(outcome.canonical_query, "iid");
    assert_eq!(certificates(&outcome.rows), vec!["E2", "E1"]);
    assert_eq!(
        outcome.results_message,
        "Scanned 4 ESV certificates; matched 2 with IID filter 'iid' (1 unknown)."
    );
    assert_eq!(outcome.kind, OutputKind::Esv);
    assert_eq!(certificates(&esv_search(rows(), IidClaimFilter::Any).rows), vec!["E4", "E3", "E2", "E1"]);
    assert_eq!(certificates(&esv_search(rows(), IidClaimFilter::NonIid).rows), vec!["E4"]);
    assert_eq!(certificates(&esv_search(rows(), IidClaimFilter::Unknown).rows), vec!["E3"]);
}
