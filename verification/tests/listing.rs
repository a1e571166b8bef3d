use cmvp_checker::certificates::{
    parse_cached_certificate_html, parse_esv_certificate_html, read_entropy_catalog,
    read_module_catalog,
};
use cmvp_checker::html::{
    check_selectors, first_non_empty_text, page_is_readable, text_of, text_of_first,
    weighs_at_most, Element,
};
use cmvp_checker::listing::{
    absolute_url, active_algorithms, algorithm_options, normalize_cmvp_algorithm,
    parse_active_algorithms, parse_algorithm_options, parse_esv_results_page, parse_results_page,
    parse_status_catalog, resolve_cavp_algorithms, status_listing_url, AlgorithmOptions,
};
use cmvp_checker::models::{IidClaim, IidClaimFilter, ResultRow, SearchError};
use cmvp_checker::patterns::{compile, compile_term_pattern, write_term_pattern};
use cmvp_checker::policy::{derive_operation, parse_section_matches_offline, scan_section};
use cmvp_checker::rows::{dedupe_rows, sort_rows_descending, sort_texts};

fn owned(texts: &[&str]) -> Vec<String> {
    texts.iter().map(|text| text.to_string()).collect()
}

fn element(texts: &[&str]) -> Element {
    Element { texts: owned(texts), attribute: None }
}

fn row(certificate: &str, url: &str, vendor: &str) -> ResultRow {
    let mut row = ResultRow::default();
    row.module_certificate = certificate.to_string();
    row.certificate_url = url.to_string();
    row.vendor = vendor.to_string();
    row
}

fn vendors(rows: &[ResultRow]) -> Vec<&str> {
    rows.iter().map(|row| row.vendor.as_str()).collect()
}

#[test]
fn each_claim_is_kept_by_its_own_filter_and_by_any() {
    let claims = [IidClaim::Iid, IidClaim::NonIid, IidClaim::Unknown];
    let filters = [IidClaimFilter::Iid, IidClaimFilter::NonIid, IidClaimFilter::Unknown];
    for (i, claim) in claims.iter().enumerate() {
        assert!(claim.matches_filter(IidClaimFilter::Any));
        for (k, filter) in filters.iter().enumerate() {
            assert_eq!(claim.matches_filter(*filter), i == k);
        }
        assert_eq!(claim.as_str(), filters[i].as_str());
    }
    assert_eq!(IidClaim::default(), IidClaim::Unknown);
    assert_eq!(IidClaimFilter::Any.as_str(), "any");
    assert_eq!(IidClaim::NonIid.as_str(), "non-iid");
}

#[test]
fn links_are_made_absolute_once() {
    assert_eq!(absolute_url("/projects/a"), "https://csrc.nist.gov/projects/a");
    assert_eq!(absolute_url("http://a.b/c"), "http://a.b/c");
    assert_eq!(absolute_url("https://a.b/c"), "https://a.b/c");
    assert_eq!(absolute_url(&absolute_url("x")), "https://csrc.nist.govx");
}

#[test]
fn texts_of_elements_are_collapsed() {
    assert_eq!(text_of(&element(&[" Go ", "\n", "Module "])), "Go Module");
    assert_eq!(text_of_first(&vec![element(&["a"]), element(&["b"])]), "a");
    assert_eq!(text_of_first(&vec![]), "");
    assert_eq!(first_non_empty_text(&element(&["  ", " Geomys  LLC ", "x"])), "Geomys  LLC");
    assert_eq!(first_non_empty_text(&element(&[" "])), "");
}

#[test]
fn selectors_and_patterns_are_checked() {
    assert!(check_selectors(&vec!["td", "a"]).is_ok());
    match check_selectors(&vec!["td", "a[", "]"]) {
        Err(SearchError::InvalidSelector(selector)) => assert_eq!(selector, "a["),
        _ => panic!("accepted"),
    }
    assert!(compile(r"\d+").is_ok());
    assert_eq!(
        write_term_pattern("A-1 (x)#~&|%"),
        r"(?i)(^|[^A-Za-z0-9])(A\-1 \(x\)\#\~\&\|%)([^A-Za-z0-9]|$)"
    );
    assert_eq!(
        write_term_pattern(r"\.+*?[]{}^$"),
        r"(?i)(^|[^A-Za-z0-9])(\\\.\+\*\?\[\]\{\}\^\$)([^A-Za-z0-9]|$)"
    );
    assert_eq!(compile_term_pattern("LMS").unwrap(), write_term_pattern("LMS"));
    let error = compile("(").unwrap_err();
    assert!(matches!(&error, SearchError::InvalidPattern(_)));
    assert!(error.message().contains("regex parse error"));
    assert_eq!(error.cause(), None);
}

#[test]
fn a_term_that_is_too_long_has_no_pattern() {
    let term = "\u{e9}".repeat(200_000);
    let error = compile_term_pattern(&term).unwrap_err();
    assert!(matches!(&error, SearchError::InvalidTerm(_)));
    assert_eq!(error.message(), "failed to compile term regex");
    assert!(error.cause().unwrap().contains("size limit"));
    let row = ResultRow::default();
    let error = parse_section_matches_offline(&row, "", &term).unwrap_err();
    assert!(matches!(error, SearchError::InvalidTerm(_)));
    let error = scan_section(&row, "", "x", &vec![term.clone()]).unwrap_err();
    assert!(matches!(error, SearchError::InvalidTerm(_)));
    let error = derive_operation(&term, "x").unwrap_err();
    assert!(matches!(&error, SearchError::InvalidPattern(_)));
    assert!(error.message().contains("size limit"));
}

#[test]
fn a_page_is_weighed_by_what_it_can_become() {
    assert!(weighs_at_most("", 0));
    assert!(weighs_at_most("abc", 3));
    assert!(!weighs_at_most("abc", 2));
    assert!(weighs_at_most("\u{20ac}", 3));
    assert!(!weighs_at_most("\u{20ac}", 2));
    assert!(weighs_at_most("\0", 3));
    assert!(!weighs_at_most("\0", 2));
    assert!(weighs_at_most("&nLt;", "\u{226a}\u{20d2}".len()));
    assert!(!weighs_at_most("&nLt;", "\u{226a}\u{20d2}".len() - 1));
    assert!(page_is_readable(RESULTS));
}

#[test]
fn what_grows_in_a_page_is_read() {
    let page = "<p id=resultsMessage>&nLt;&nGt;</p>";
    let message = parse_results_page(page).unwrap().1;
    assert_eq!(message, "\u{226a}\u{20d2}\u{226b}\u{20d2}");
    assert!(weighs_at_most(page, page.len() + 2));
    let page = "<select id=Algorithm><option value='\0'>x</option></select>";
    let options = parse_algorithm_options(page).unwrap();
    assert_eq!(options.get("x"), Some("\u{fffd}".to_string()));
}

const FORM: &str = r#"<select id="Algorithm">
  <option value="">--</option>
  <option value=" AES-GCM ">AES  GCM mode</option>
  <option value="SHA3"></option>
</select>"#;

#[test]
fn the_form_offers_algorithms_by_value_and_by_text() {
    let options = parse_algorithm_options(FORM).unwrap();
    assert_eq!(options.get("aes-gcm"), Some("AES-GCM".to_string()));
    assert_eq!(options.get("aes gcm mode"), Some("AES-GCM".to_string()));
    assert_eq!(options.get("sha3"), Some("SHA3".to_string()));
    assert_eq!(options.get(""), None);
    assert_eq!(options.get("AES-GCM"), None);
    let error = parse_algorithm_options("<p>no form</p>").unwrap_err();
    assert!(matches!(&error, SearchError::NoAlgorithmOptions));
    assert_eq!(error.message(), "could not parse the CMVP algorithm list");
    assert!(algorithm_options(&vec![]).is_err());
}

#[test]
fn later_options_replace_earlier_ones() {
    let mut options = AlgorithmOptions::new();
    assert!(options.is_empty());
    options.insert("a".to_string(), "1".to_string());
    options.insert("a".to_string(), "2".to_string());
    assert_eq!(options.get("a"), Some("2".to_string()));
    assert!(!options.is_empty());
}

#[test]
fn terms_are_looked_up_in_lower_case() {
    let options = parse_algorithm_options(FORM).unwrap();
    let field = |name: &str, value: &str| (name.to_string(), value.to_string());
    assert_eq!(normalize_cmvp_algorithm(" Aes-Gcm ", &options).unwrap(), field("Algorithm", "AES-GCM"));
    assert_eq!(normalize_cmvp_algorithm("AES GCM MODE", &options).unwrap(), field("Algorithm", "AES-GCM"));
    assert_eq!(normalize_cmvp_algorithm(" ML-KEM", &options).unwrap(), field("OtherAlgorithms", "ML-KEM"));
    let error = normalize_cmvp_algorithm(" \t", &options).unwrap_err();
    assert!(matches!(&error, SearchError::EmptyAlgorithm));
    assert_eq!(error.message(), "algorithm names must not be empty");
}

#[test]
fn letters_outside_ascii_are_lowered_too() {
    let page = "<select id=\"Algorithm\"><option value=\"\u{c4}X\">y</option></select>";
    let options = parse_algorithm_options(page).unwrap();
    assert_eq!(options.get("\u{e4}x"), Some("\u{c4}X".to_string()));
}

#[test]
fn active_algorithms_are_those_of_the_active_group() {
    let page = r#"<select id="search-algorithm">
      <optgroup label="Active"><option> ML-KEM  KeyGen </option><option> </option><option>LMS</option></optgroup>
      <optgroup label="Historical"><option>DES</option></optgroup></select>"#;
    assert_eq!(parse_active_algorithms(page).unwrap(), owned(&["ML-KEM KeyGen", "LMS"]));
    let error = parse_active_algorithms("<p></p>").unwrap_err();
    assert!(matches!(&error, SearchError::NoActiveAlgorithms));
    assert_eq!(error.message(), "could not parse the CAVP active algorithm list");
    assert!(active_algorithms(&vec![element(&[" "])]).is_err());
}

#[test]
fn a_term_means_exact_names_or_else_names_that_hold_it() {
    let algorithms = owned(&["ML-KEM KeyGen", "ML-KEM EncapDecap", "LMS KeyGen", "lms", "LMS"]);
    assert_eq!(resolve_cavp_algorithms("LMS", &algorithms), owned(&["lms", "LMS"]));
    assert_eq!(
        resolve_cavp_algorithms("ml kem", &algorithms),
        owned(&["ML-KEM EncapDecap", "ML-KEM KeyGen"])
    );
    assert_eq!(
        resolve_cavp_algorithms("ML-KEM", &algorithms),
        resolve_cavp_algorithms("ml-kem", &algorithms)
    );
    assert_eq!(resolve_cavp_algorithms("--", &algorithms), owned(&[]));
    assert_eq!(resolve_cavp_algorithms("SLH", &algorithms), owned(&[]));
}

const RESULTS: &str = r##"<p id="resultsMessage">2  modules </p><p id="errorMessage">bad</p>
<table id="searchResultsTable"><tbody>
<tr><td><a href="/cert/5247">5247</a></td><td>Geomys LLC</td><td>Go
 Module</td><td>Software</td><td>05/01/2026</td></tr>
<tr><td><a href="/cert/1">1</a></td><td>too</td><td>few</td></tr>
<tr><td>no link</td><td>a</td><td>b</td><td>c</td><td>d</td></tr>
<tr><td><a href="https://x.y/2">2</a></td><td>V</td><td>N</td><td>Hardware</td><td>D</td></tr>
</tbody></table>"##;

#[test]
fn a_result_page_gives_its_rows_and_its_message() {
    let (rows, message) = parse_results_page(RESULTS).unwrap();
    assert_eq!(message, "2 modules");
    assert_eq!(rows.len(), 2);
    assert_eq!(rows[0].module_certificate, "5247");
    assert_eq!(rows[0].vendor, "Geomys LLC");
    assert_eq!(rows[0].module_name, "Go Module");
    assert_eq!(rows[0].module_type, "Software");
    assert_eq!(rows[0].validation_date, "05/01/2026");
    assert_eq!(rows[0].certificate_url, "https://csrc.nist.gov/cert/5247");
    assert_eq!(rows[0].policy_url, "");
    assert_eq!(rows[0].iid_claim, IidClaim::Unknown);
    assert_eq!(rows[1].certificate_url, "https://x.y/2");
    let (rows, message) = parse_results_page("<p id=errorMessage> none </p>").unwrap();
    assert_eq!((rows.len(), message.as_str()), (0, "none"));
    assert_eq!(parse_results_page("").unwrap().1, "");
}

#[test]
fn an_entropy_page_gives_its_rows() {
    let page = r##"<table id="searchResultsTable"><tbody>
<tr><td>Vendor</td><td>Impl</td><td><a href="/e/1">E1</a></td><td>1/1/2026</td></tr>
<tr><td>Vendor</td><td>Impl</td><td><a href="/e/1"> </a></td><td>1/1/2026</td></tr>
</tbody></table>"##;
    let rows = parse_esv_results_page(page).unwrap();
    assert_eq!(rows.len(), 1);
    assert_eq!(rows[0].module_certificate, "E1");
    assert_eq!(rows[0].vendor, "Vendor");
    assert_eq!(rows[0].module_name, "Impl");
    assert_eq!(rows[0].validation_date, "1/1/2026");
    assert_eq!(rows[0].certificate_url, "https://csrc.nist.gov/e/1");
    assert_eq!(rows[0].module_type, "");
}

#[test]
fn a_status_has_its_listing_page() {
    let (url, query) = status_listing_url("Active");
    assert!(url.ends_with("/validated-modules/search/all"));
    assert!(query.is_empty());
    let (url, query) = status_listing_url("Historical");
    assert!(url.ends_with("/validated-modules/search"));
    assert_eq!(query, vec![("SearchMode", "Advanced"), ("CertificateStatus", "Historical")]);
    assert_eq!(status_listing_url("Revoked").1[1].1, "Revoked");
}

#[test]
fn only_the_revoked_listing_may_be_empty() {
    assert_eq!(parse_status_catalog("Active", RESULTS).unwrap().len(), 2);
    assert_eq!(parse_status_catalog("Revoked", "").unwrap().len(), 0);
    let error = parse_status_catalog("Historical", "").unwrap_err();
    assert!(matches!(&error, SearchError::EmptyListing(status) if status == "Historical"));
    assert_eq!(
        error.message(),
        "could not parse any certificates from the Historical listing page"
    );
}

const CERTIFICATE: &str = r##"<h3>Details</h3><h3> Certificate  #5247 </h3><p id="module-name">Go  Module</p>
<div class="panel panel-default"><h4 class="panel-title">Vendor</h4>
 <div class="panel-body"> <a href="http://g.example">Geomys LLC</a><span>Rome</span></div></div>
<div class="panel panel-default"><h4 class="panel-title">Related Files</h4>
 <div class="panel-body"><a href="/CSRC/p.pdf">Security Policy</a></div></div>
<div class="row padrow"><div class="col-md-3">Module Type</div><div class="col-md-9">Software</div></div>
<div class="row padrow"><div class="col-md-3">Alone</div></div>
<table id="validation-history-table"><tbody><tr><td class="text-nowrap">5/1/2026</td></tr></tbody></table>"##;

#[test]
fn a_certificate_page_gives_a_row() {
    let row = parse_cached_certificate_html(CERTIFICATE, "fallback").unwrap();
    assert_eq!(row.module_certificate, "5247");
    assert_eq!(row.vendor, "Geomys LLC");
    assert_eq!(row.module_name, "Go Module");
    assert_eq!(row.module_type, "Software");
    assert_eq!(row.validation_date, "5/1/2026");
    assert_eq!(row.policy_url, "https://csrc.nist.gov/CSRC/p.pdf");
    assert_eq!(
        row.certificate_url,
        "https://csrc.nist.gov/projects/cryptographic-module-validation-program/certificate/5247"
    );
    let row = parse_cached_certificate_html("<p></p>", "4000").unwrap();
    assert_eq!(row.module_certificate, "4000");
    assert_eq!(row.vendor, "");
    assert!(row.certificate_url.ends_with("/certificate/4000"));
}

#[test]
fn an_entropy_certificate_page_gives_a_row() {
    let page = r##"<h3>Entropy Certificate #E12</h3>
<div class="panel panel-default"><h4 class="panel-title">Vendor</h4><div class="panel-body">Acme</div></div>
<div class="panel panel-default"><h4 class="panel-title">Related Files</h4>
 <div class="panel-body"><a href="/docs/E12.PDF">Public Use Document</a></div></div>
<div class="row padrow"><div class="col-md-3">Implementation Name</div><div class="col-md-9">Jitter</div></div>
<div class="row padrow"><div class="col-md-3">Standard</div><div class="col-md-9">SP 800-90B</div></div>
<div class="row padrow"><div class="col-md-3">Description</div><div class="col-md-9">A  source</div></div>
<div class="row padrow"><div class="col-md-3">Noise Source Classification</div><div class="col-md-9">Non-Physical</div></div>
<div class="row padrow"><div class="col-md-3">Reuse Status</div><div class="col-md-9">Open</div></div>
<table id="validation-history-table"><tbody><tr><td class="text-nowrap">1/2/2026</td></tr></tbody></table>"##;
    let row = parse_esv_certificate_html(page, "E1").unwrap();
    assert_eq!(row.module_certificate, "E12");
    assert_eq!(row.vendor, "Acme");
    assert_eq!(row.module_name, "Jitter");
    assert_eq!(row.esv_standard, "SP 800-90B");
    assert_eq!(row.esv_description, "A source");
    assert_eq!(row.esv_noise_source, "Non-Physical");
    assert_eq!(row.esv_reuse_status, "Open");
    assert_eq!(row.validation_date, "1/2/2026");
    assert_eq!(row.entropy_document_url, "https://csrc.nist.gov/docs/E12.PDF");
    assert_eq!(
        row.certificate_url,
        "https://csrc.nist.gov/projects/cryptographic-module-validation-program/entropy-validations/certificate/12"
    );
    assert_eq!(parse_esv_certificate_html("", "E7").unwrap().module_certificate, "E7");
}

#[test]
fn cached_pages_make_a_descending_list() {
    let page = |certificate: &str, html: &str| (certificate.to_string(), html.to_string());
    let pages = vec![page("100", ""), page("x", CERTIFICATE), page("99", "")];
    let rows = read_module_catalog(&pages).unwrap();
    let certificates: Vec<&str> = rows.iter().map(|row| row.module_certificate.as_str()).collect();
    assert_eq!(certificates, vec!["99", "5247", "100"]);
    let rows = read_entropy_catalog(&vec![page("E1", ""), page("E2", "")]).unwrap();
    let certificates: Vec<&str> = rows.iter().map(|row| row.module_certificate.as_str()).collect();
    assert_eq!(certificates, vec!["E2", "E1"]);
}

#[test]
fn repeats_are_dropped_and_the_first_row_stays() {
    let rows = vec![row("1", "u", "a"), row("2", "u", "b"), row("1", "u", "c"), row("1", "v", "d")];
    let once = dedupe_rows(rows);
    assert_eq!(vendors(&once), vec!["a", "b", "d"]);
    let twice = dedupe_rows(once);
    assert_eq!(vendors(&twice), vec!["a", "b", "d"]);
}

#[test]
fn rows_are_sorted_by_descending_text_and_stay_in_order() {
    let rows = vec![row("9", "u", "a"), row("10", "u", "b"), row("9", "u", "c"), row("E1", "u", "d")];
    assert_eq!(vendors(&sort_rows_descending(rows)), vec!["d", "a", "c", "b"]);
    assert_eq!(sort_texts(owned(&["b", "", "ab", "b"])), owned(&["", "ab", "b", "b"]));
}
