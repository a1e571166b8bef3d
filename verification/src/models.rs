//! The values that the library works on, and what each of them holds.

use vstd::prelude::*;
use vstd::string::*;

verus! {

/// Which claims an entropy search keeps.
#[derive(Copy, Clone, Debug, PartialEq, Eq, Structural)]
pub enum IidClaimFilter {
    Any,
    Iid,
    NonIid,
    Unknown,
}

/// Whether the samples of an entropy source are claimed to be independent and
/// identically distributed.
#[derive(Copy, Clone, Debug, PartialEq, Eq, Structural)]
pub enum IidClaim {
    Iid,
    NonIid,
    Unknown,
}

/// The word for a filter.
pub open spec fn filter_word(filter: IidClaimFilter) -> Seq<char> {
    match filter {
        IidClaimFilter::Any => "any"@,
        IidClaimFilter::Iid => "iid"@,
        IidClaimFilter::NonIid => "non-iid"@,
        IidClaimFilter::Unknown => "unknown"@,
    }
}

/// The word for a claim.
pub open spec fn claim_word(claim: IidClaim) -> Seq<char> {
    match claim {
        IidClaim::Iid => "iid"@,
        IidClaim::NonIid => "non-iid"@,
        IidClaim::Unknown => "unknown"@,
    }
}

/// The filter that keeps one claim and no other.
pub open spec fn filter_of(claim: IidClaim) -> IidClaimFilter {
    match claim {
        IidClaim::Iid => IidClaimFilter::Iid,
        IidClaim::NonIid => IidClaimFilter::NonIid,
        IidClaim::Unknown => IidClaimFilter::Unknown,
    }
}

/// A filter keeps a claim.
pub open spec fn keeps(filter: IidClaimFilter, claim: IidClaim) -> bool {
    filter == IidClaimFilter::Any || filter == filter_of(claim)
}

impl IidClaimFilter {
    /// The word for this filter.
    pub fn as_str(self) -> (r: &'static str)
        ensures
            r@ == filter_word(self),
    {
        match self {
            IidClaimFilter::Any => "any",
            IidClaimFilter::Iid => "iid",
            IidClaimFilter::NonIid => "non-iid",
            IidClaimFilter::Unknown => "unknown",
        }
    }
}

impl IidClaim {
    /// The word for this claim.
    pub fn as_str(self) -> (r: &'static str)
        ensures
            r@ == claim_word(self),
    {
        match self {
            IidClaim::Iid => "iid",
            IidClaim::NonIid => "non-iid",
            IidClaim::Unknown => "unknown",
        }
    }

    /// Whether a filter keeps this claim.
    pub fn matches_filter(self, filter: IidClaimFilter) -> (r: bool)
        ensures
            r == keeps(filter, self),
    {
        match (filter, self) {
            (IidClaimFilter::Any, _) => true,
            (IidClaimFilter::Iid, IidClaim::Iid) => true,
            (IidClaimFilter::NonIid, IidClaim::NonIid) => true,
            (IidClaimFilter::Unknown, IidClaim::Unknown) => true,
            _ => false,
        }
    }
}

impl Default for IidClaim {
    fn default() -> (r: Self)
        ensures
            r == IidClaim::Unknown,
    {
        IidClaim::Unknown
    }
}

impl DeepView for IidClaim {
    type V = IidClaim;

    open spec fn deep_view(&self) -> IidClaim {
        *self
    }
}

/// What a search looked through: validated modules or entropy sources.
#[derive(Copy, Clone, Debug, PartialEq, Eq, Structural)]
pub enum OutputKind {
    Cmvp,
    Esv,
}

/// One line of a result.
#[derive(Debug)]
pub struct ResultRow {
    /// The number of the module's or the entropy source's certificate.
    pub module_certificate: String,
    /// Who made it.
    pub vendor: String,
    /// The name of the module or of the implementation.
    pub module_name: String,
    /// Software, hardware, firmware or hybrid.
    pub module_type: String,
    /// The day of validation, as the page writes it.
    pub validation_date: String,
    /// Where the certificate page is.
    pub certificate_url: String,
    /// Where the security policy is.
    pub policy_url: String,
    /// The certificate of the algorithm, as the policy gives it.
    pub cavp_certificate: String,
    /// The algorithm, as the policy lists it.
    pub cavp_algorithm: String,
    /// The algorithm without the term that was searched for.
    pub operation: String,
    /// What the policy says after the algorithm.
    pub properties: String,
    /// The row came from the policy's list of algorithms.
    pub cavp_listed: bool,
    /// The standard of an entropy source.
    pub esv_standard: String,
    /// The description of an entropy source.
    pub esv_description: String,
    /// Physical or non-physical.
    pub esv_noise_source: String,
    /// Whether the certificate is open to reuse.
    pub esv_reuse_status: String,
    /// Where the public use document is.
    pub entropy_document_url: String,
    /// The claim that the document makes.
    pub iid_claim: IidClaim,
}

/// What a row holds.
#[verifier::ext_equal]
pub struct RowView {
    pub module_certificate: Seq<char>,
    pub vendor: Seq<char>,
    pub module_name: Seq<char>,
    pub module_type: Seq<char>,
    pub validation_date: Seq<char>,
    pub certificate_url: Seq<char>,
    pub policy_url: Seq<char>,
    pub cavp_certificate: Seq<char>,
    pub cavp_algorithm: Seq<char>,
    pub operation: Seq<char>,
    pub properties: Seq<char>,
    pub cavp_listed: bool,
    pub esv_standard: Seq<char>,
    pub esv_description: Seq<char>,
    pub esv_noise_source: Seq<char>,
    pub esv_reuse_status: Seq<char>,
    pub entropy_document_url: Seq<char>,
    pub iid_claim: IidClaim,
}

impl DeepView for ResultRow {
    type V = RowView;

    open spec fn deep_view(&self) -> RowView {
        RowView {
            module_certificate: self.module_certificate@,
            vendor: self.vendor@,
            module_name: self.module_name@,
            module_type: self.module_type@,
            validation_date: self.validation_date@,
            certificate_url: self.certificate_url@,
            policy_url: self.policy_url@,
            cavp_certificate: self.cavp_certificate@,
            cavp_algorithm: self.cavp_algorithm@,
            operation: self.operation@,
            properties: self.properties@,
            cavp_listed: self.cavp_listed,
            esv_standard: self.esv_standard@,
            esv_description: self.esv_description@,
            esv_noise_source: self.esv_noise_source@,
            esv_reuse_status: self.esv_reuse_status@,
            entropy_document_url: self.entropy_document_url@,
            iid_claim: self.iid_claim,
        }
    }
}

/// The row with nothing filled in.
pub open spec fn empty_row() -> RowView {
    RowView {
        module_certificate: seq![],
        vendor: seq![],
        module_name: seq![],
        module_type: seq![],
        validation_date: seq![],
        certificate_url: seq![],
        policy_url: seq![],
        cavp_certificate: seq![],
        cavp_algorithm: seq![],
        operation: seq![],
        properties: seq![],
        cavp_listed: false,
        esv_standard: seq![],
        esv_description: seq![],
        esv_noise_source: seq![],
        esv_reuse_status: seq![],
        entropy_document_url: seq![],
        iid_claim: IidClaim::Unknown,
    }
}

impl Default for ResultRow {
    fn default() -> (r: Self)
        ensures
            r.deep_view() == empty_row(),
    {
        ResultRow {
            module_certificate: String::new(),
            vendor: String::new(),
            module_name: String::new(),
            module_type: String::new(),
            validation_date: String::new(),
            certificate_url: String::new(),
            policy_url: String::new(),
            cavp_certificate: String::new(),
            cavp_algorithm: String::new(),
            operation: String::new(),
            properties: String::new(),
            cavp_listed: false,
            esv_standard: String::new(),
            esv_description: String::new(),
            esv_noise_source: String::new(),
            esv_reuse_status: String::new(),
            entropy_document_url: String::new(),
            iid_claim: IidClaim::Unknown,
        }
    }
}

impl Clone for ResultRow {
    fn clone(&self) -> (r: Self)
        ensures
            r.deep_view() == self.deep_view(),
    {
        ResultRow {
            module_certificate: self.module_certificate.clone(),
            vendor: self.vendor.clone(),
            module_name: self.module_name.clone(),
            module_type: self.module_type.clone(),
            validation_date: self.validation_date.clone(),
            certificate_url: self.certificate_url.clone(),
            policy_url: self.policy_url.clone(),
            cavp_certificate: self.cavp_certificate.clone(),
            cavp_algorithm: self.cavp_algorithm.clone(),
            operation: self.operation.clone(),
            properties: self.properties.clone(),
            cavp_listed: self.cavp_listed,
            esv_standard: self.esv_standard.clone(),
            esv_description: self.esv_description.clone(),
            esv_noise_source: self.esv_noise_source.clone(),
            esv_reuse_status: self.esv_reuse_status.clone(),
            entropy_document_url: self.entropy_document_url.clone(),
            iid_claim: self.iid_claim,
        }
    }
}

/// A copy of a list of rows.
pub fn copy_rows(rows: &Vec<ResultRow>) -> (r: Vec<ResultRow>)
    ensures
        r.deep_view() == rows.deep_view(),
{
    let mut r: Vec<ResultRow> = Vec::new();
    let mut i: usize = 0;
    while i < rows.len()
        invariant
            i <= rows@.len(),
            r@.len() == i,
            forall|k: int| 0 <= k < i ==> #[trigger] r@[k].deep_view() == rows@[k].deep_view(),
        decreases rows@.len() - i,
    {
        r.push(rows[i].clone());
        i += 1;
    }
    assert(r.deep_view() =~= rows.deep_view());
    r
}

/// What one query found.
#[derive(Debug)]
pub struct SearchOutcome {
    /// What was searched for.
    pub query: String,
    /// What the search form was asked for.
    pub canonical_query: String,
    /// What the search has to say of its result.
    pub results_message: String,
    /// The rows that were found.
    pub rows: Vec<ResultRow>,
    /// What was looked through.
    pub kind: OutputKind,
}

/// What an outcome holds.
#[verifier::ext_equal]
pub struct OutcomeView {
    pub query: Seq<char>,
    pub canonical_query: Seq<char>,
    pub results_message: Seq<char>,
    pub rows: Seq<RowView>,
    pub kind: OutputKind,
}

impl DeepView for SearchOutcome {
    type V = OutcomeView;

    open spec fn deep_view(&self) -> OutcomeView {
        OutcomeView {
            query: self.query@,
            canonical_query: self.canonical_query@,
            results_message: self.results_message@,
            rows: self.rows.deep_view(),
            kind: self.kind,
        }
    }
}

/// What keeps a page, a policy or a search from being read.
#[derive(Debug)]
pub enum SearchError {
    /// A CSS selector that does not parse.
    InvalidSelector(String),
    /// The pattern of a term does not compile: what is wrong with it.
    InvalidTerm(String),
    /// Another pattern does not compile: what is wrong with it.
    InvalidPattern(String),
    /// A search term of white space alone.
    EmptyAlgorithm,
    /// The search form offers no algorithms.
    NoAlgorithmOptions,
    /// The algorithm list offers no active algorithms.
    NoActiveAlgorithms,
    /// The listing page of a status shows no certificates.
    EmptyListing(String),
    /// No listing page of entropy sources shows a certificate.
    EmptyEsvListing,
    /// The text after a hit would be cut inside a character.
    SplitCharacter,
}

/// What an error holds.
#[verifier::ext_equal]
pub enum ErrorView {
    InvalidSelector(Seq<char>),
    InvalidTerm(Seq<char>),
    InvalidPattern(Seq<char>),
    EmptyAlgorithm,
    NoAlgorithmOptions,
    NoActiveAlgorithms,
    EmptyListing(Seq<char>),
    EmptyEsvListing,
    SplitCharacter,
}

impl DeepView for SearchError {
    type V = ErrorView;

    open spec fn deep_view(&self) -> ErrorView {
        match self {
            SearchError::InvalidSelector(selector) => ErrorView::InvalidSelector(selector@),
            SearchError::InvalidTerm(cause) => ErrorView::InvalidTerm(cause@),
            SearchError::InvalidPattern(cause) => ErrorView::InvalidPattern(cause@),
            SearchError::EmptyAlgorithm => ErrorView::EmptyAlgorithm,
            SearchError::NoAlgorithmOptions => ErrorView::NoAlgorithmOptions,
            SearchError::NoActiveAlgorithms => ErrorView::NoActiveAlgorithms,
            SearchError::EmptyListing(status) => ErrorView::EmptyListing(status@),
            SearchError::EmptyEsvListing => ErrorView::EmptyEsvListing,
            SearchError::SplitCharacter => ErrorView::SplitCharacter,
        }
    }
}

/// What a fallible function hands back.
pub open spec fn result_view<T: DeepView>(r: Result<T, SearchError>) -> Result<T::V, ErrorView> {
    match r {
        Ok(value) => Ok(value.deep_view()),
        Err(error) => Err(error.deep_view()),
    }
}

/// The results, or the first error among them.
pub open spec fn collected<T>(items: Seq<Result<T, ErrorView>>) -> Result<Seq<T>, ErrorView>
    decreases items.len(),
{
    if items.len() == 0 {
        Ok(seq![])
    } else {
        match collected(items.drop_last()) {
            Ok(values) => match items.last() {
                Ok(value) => Ok(values.push(value)),
                Err(error) => Err(error),
            },
            Err(error) => Err(error),
        }
    }
}

/// An error among the first results is the error of them all.
pub proof fn lemma_collected_error<T>(items: Seq<Result<T, ErrorView>>, n: int)
    requires
        0 <= n <= items.len(),
        collected(items.take(n)) is Err,
    ensures
        collected(items) == collected(items.take(n)),
    decreases items.len() - n,
{
    if n < items.len() {
        assert(items.take(n + 1).drop_last() =~= items.take(n));
        lemma_collected_error(items, n + 1);
    } else {
        assert(items.take(n) =~= items);
    }
}

/// Results without an error are the results one by one.
pub proof fn lemma_collected_items<T>(items: Seq<Result<T, ErrorView>>)
    ensures
        collected(items) matches Ok(values) ==> values.len() == items.len() && forall|i: int|
            0 <= i < items.len() ==> #[trigger] items[i] == Ok::<T, ErrorView>(values[i]),
    decreases items.len(),
{
    if items.len() > 0 {
        let head = items.drop_last();
        lemma_collected_items(head);
        if collected(items) is Ok {
            let values = collected(items)->Ok_0;
            assert forall|i: int| 0 <= i < items.len() implies #[trigger] items[i] == Ok::<
                T,
                ErrorView,
            >(values[i]) by {
                if i < head.len() {
                    assert(head[i] == items[i]);
                }
            }
        }
    }
}

/// The sentence that tells a reader of an error.
pub open spec fn error_sentence(error: ErrorView) -> Seq<char> {
    match error {
        ErrorView::InvalidSelector(selector) => "invalid selector: "@ + selector,
        ErrorView::InvalidTerm(_) => "failed to compile term regex"@,
        ErrorView::InvalidPattern(cause) => cause,
        ErrorView::EmptyAlgorithm => "algorithm names must not be empty"@,
        ErrorView::NoAlgorithmOptions => "could not parse the CMVP algorithm list"@,
        ErrorView::NoActiveAlgorithms => "could not parse the CAVP active algorithm list"@,
        ErrorView::EmptyListing(status) => "could not parse any certificates from the "@ + status
            + " listing page"@,
        ErrorView::EmptyEsvListing => "could not parse any certificates from the ESV listing page"@,
        ErrorView::SplitCharacter => "a policy excerpt ends inside a character"@,
    }
}

/// What lies behind an error that does not tell it in its sentence.
pub open spec fn error_cause(error: ErrorView) -> Option<Seq<char>> {
    match error {
        ErrorView::InvalidTerm(cause) => Some(cause),
        _ => None,
    }
}

impl SearchError {
    /// What lies behind this error where its sentence does not tell it.
    pub fn cause(&self) -> (r: Option<String>)
        ensures
            r.deep_view() == error_cause(self.deep_view()),
    {
        match self {
            SearchError::InvalidTerm(cause) => Some(cause.clone()),
            _ => None,
        }
    }

    /// The sentence that tells a reader of this error.
    pub fn message(&self) -> (r: String)
        ensures
            r@ == error_sentence(self.deep_view()),
    {
        match self {
            SearchError::InvalidSelector(selector) => "invalid selector: ".to_owned().concat(
                selector.as_str(),
            ),
            SearchError::InvalidTerm(_) => "failed to compile term regex".to_owned(),
            SearchError::InvalidPattern(cause) => cause.clone(),
            SearchError::EmptyAlgorithm => "algorithm names must not be empty".to_owned(),
            SearchError::NoAlgorithmOptions => "could not parse the CMVP algorithm list".to_owned(),
            SearchError::NoActiveAlgorithms => "could not parse the CAVP active algorithm list".to_owned(),
            SearchError::EmptyListing(
                status,
            ) => "could not parse any certificates from the ".to_owned().concat(
                status.as_str(),
            ).concat(" listing page"),
            SearchError::EmptyEsvListing => "could not parse any certificates from the ESV listing page".to_owned(),
            SearchError::SplitCharacter => "a policy excerpt ends inside a character".to_owned(),
        }
    }
}

} // verus!
