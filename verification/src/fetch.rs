//! Getting documents: when a request is repeated, when a cached file is used,
//! and how cached files are named.

use crate::text::{chars_of, same_text, text_from};
use vstd::prelude::*;
use vstd::string::*;
use vstd::utf8::*;

verus! {

/// What `String::from_utf8_lossy` makes of bytes.
pub uninterp spec fn lossy_text(bytes: Seq<u8>) -> Seq<char>;

/// `String::from_utf8_lossy`: the text that bytes stand for in UTF-8, with
/// marks in place of what is not UTF-8. Bytes that are UTF-8 throughout are
/// decoded as they are.
#[verifier::external_body]
fn from_utf8_lossy(bytes: &[u8]) -> (r: String)
    ensures
        r@ == lossy_text(bytes@),
        valid_utf8(bytes@) ==> r@ == decode_utf8(bytes@),
{
    String::from_utf8_lossy(bytes).into_owned()
}

/// The text of a document that was received as bytes.
pub fn document_text(bytes: &[u8]) -> (r: String)
    ensures
        r@ == lossy_text(bytes@),
        valid_utf8(bytes@) ==> r@ == decode_utf8(bytes@),
{
    from_utf8_lossy(bytes)
}

/// How often a request is made at most.
pub const MAX_ATTEMPTS: u32 = 4;

/// How much longer the wait grows with each attempt, in milliseconds.
pub const WAIT_STEP_MS: u64 = 1500;

/// What came of a request.
#[derive(Copy, Clone, Debug, PartialEq, Eq, Structural)]
pub enum Reply {
    /// A response with this status.
    Status(u16),
    /// No response.
    Unreachable,
}

/// What is done after a request.
#[derive(Copy, Clone, Debug, PartialEq, Eq, Structural)]
pub enum RetryStep {
    /// The body of the response is taken.
    Accept,
    /// The request is repeated after this many milliseconds.
    Wait(u64),
    /// The request has failed.
    Fail,
}

/// A status that tells of success.
pub open spec fn is_success(status: u16) -> bool {
    200 <= status <= 299
}

/// A reply after which another attempt may succeed: no response, or a status
/// that tells of a timeout, of too many requests or of trouble at the server.
pub open spec fn is_transient(reply: Reply) -> bool {
    match reply {
        Reply::Status(status) => status == 408 || status == 429 || status == 500 || status == 502
            || status == 503 || status == 504,
        Reply::Unreachable => true,
    }
}

/// What is done after the request with the number `attempt`, counted from zero.
pub open spec fn step_after(attempt: nat, reply: Reply) -> RetryStep {
    if reply matches Reply::Status(status) && is_success(status) {
        RetryStep::Accept
    } else if is_transient(reply) && attempt + 1 < MAX_ATTEMPTS {
        RetryStep::Wait((WAIT_STEP_MS * (attempt + 1)) as u64)
    } else {
        RetryStep::Fail
    }
}

/// What is done after the request with the number `attempt`, counted from zero.
pub fn next_step(attempt: u32, reply: Reply) -> (r: RetryStep)
    ensures
        r == step_after(attempt as nat, reply),
{
    let transient = match reply {
        Reply::Status(status) => {
            if 200 <= status && status <= 299 {
                return RetryStep::Accept;
            }
            status == 408 || status == 429 || status == 500 || status == 502 || status == 503
                || status == 504
        },
        Reply::Unreachable => true,
    };
    if transient && attempt < MAX_ATTEMPTS - 1 {
        RetryStep::Wait(WAIT_STEP_MS * (attempt as u64 + 1))
    } else {
        RetryStep::Fail
    }
}

/// How many requests are made where these replies come, from the request with
/// the number `attempt` on.
pub open spec fn requests_made(replies: Seq<Reply>, attempt: nat) -> nat
    decreases replies.len(),
{
    if replies.len() == 0 {
        0
    } else if step_after(attempt, replies[0]) is Wait {
        1 + requests_made(replies.drop_first(), attempt + 1)
    } else {
        1
    }
}

/// How long is waited between the requests, from the one with the number
/// `attempt` on.
pub open spec fn time_waited(replies: Seq<Reply>, attempt: nat) -> nat
    decreases replies.len(),
{
    if replies.len() == 0 {
        0
    } else {
        match step_after(attempt, replies[0]) {
            RetryStep::Wait(time) => time as nat + time_waited(
                replies.drop_first(),
                attempt + 1,
            ),
            _ => 0,
        }
    }
}

/// A document is asked for a bounded number of times.
pub proof fn law_requests_are_bounded(replies: Seq<Reply>)
    ensures
        requests_made(replies, 0) <= MAX_ATTEMPTS,
{
    reveal_with_fuel(requests_made, 5);
}

/// The waits between the requests add up to a bounded time.
pub proof fn law_waits_are_bounded(replies: Seq<Reply>)
    ensures
        time_waited(replies, 0) <= WAIT_STEP_MS * 6,
{
    reveal_with_fuel(time_waited, 5);
}

/// A response that tells of success is taken, whenever it comes.
pub proof fn law_success_is_accepted(attempt: nat, status: u16)
    requires
        is_success(status),
    ensures
        step_after(attempt, Reply::Status(status)) == RetryStep::Accept,
{
}

/// A status that tells neither of success nor of passing trouble ends the
/// attempts.
pub proof fn law_refusal_is_final(attempt: nat, status: u16)
    requires
        !is_success(status),
        !is_transient(Reply::Status(status)),
    ensures
        step_after(attempt, Reply::Status(status)) == RetryStep::Fail,
{
}

/// How a page is got.
#[derive(Copy, Clone, Debug, PartialEq, Eq, Structural)]
pub enum PagePlan {
    /// The cached page is read.
    ReadCached,
    /// The page is fetched and cached.
    Fetch,
    /// The page is out of reach.
    Missing,
}

/// How a page is got: from the cache where it is there, unless a fresh one is
/// wanted. Without a connection nothing is fetched.
pub open spec fn page_plan(exists: bool, fresh: bool, offline: bool) -> PagePlan {
    if exists && (offline || !fresh) {
        PagePlan::ReadCached
    } else if offline {
        PagePlan::Missing
    } else {
        PagePlan::Fetch
    }
}

/// How a page is got.
pub fn plan_page(exists: bool, fresh: bool, offline: bool) -> (r: PagePlan)
    ensures
        r == page_plan(exists, fresh, offline),
{
    if exists && (offline || !fresh) {
        PagePlan::ReadCached
    } else if offline {
        PagePlan::Missing
    } else {
        PagePlan::Fetch
    }
}

/// How the text of a document is got.
#[derive(Copy, Clone, Debug, PartialEq, Eq, Structural)]
pub enum TextPlan {
    /// The cached text is read.
    ReadText,
    /// The cached document is converted to text.
    Convert,
    /// The document is fetched, cached and converted to text.
    FetchAndConvert,
    /// The document is out of reach.
    Missing,
}

/// How the text of a document is got, by what is cached of it: the text, or
/// else the document, unless a fresh one is wanted. Without a connection
/// nothing is fetched.
pub open spec fn text_plan(
    text_exists: bool,
    document_exists: bool,
    fresh: bool,
    offline: bool,
) -> TextPlan {
    if text_exists && (offline || !fresh) {
        TextPlan::ReadText
    } else if document_exists && (offline || !fresh) {
        TextPlan::Convert
    } else if offline {
        TextPlan::Missing
    } else {
        TextPlan::FetchAndConvert
    }
}

/// How the text of a document is got, by what is cached of it.
pub fn plan_text(text_exists: bool, document_exists: bool, fresh: bool, offline: bool) -> (r:
    TextPlan)
    ensures
        r == text_plan(text_exists, document_exists, fresh, offline),
{
    if text_exists && (offline || !fresh) {
        TextPlan::ReadText
    } else if document_exists && (offline || !fresh) {
        TextPlan::Convert
    } else if offline {
        TextPlan::Missing
    } else {
        TextPlan::FetchAndConvert
    }
}

/// Without a connection nothing is fetched, and what is cached is used.
pub proof fn law_offline_fetches_nothing(
    page_exists: bool,
    text_exists: bool,
    document_exists: bool,
    fresh: bool,
)
    ensures
        page_plan(page_exists, fresh, true) != PagePlan::Fetch,
        page_plan(page_exists, fresh, true) == PagePlan::ReadCached <==> page_exists,
        text_plan(text_exists, document_exists, fresh, true) != TextPlan::FetchAndConvert,
        text_plan(text_exists, document_exists, fresh, true) != TextPlan::Missing <==> (
        text_exists || document_exists),
{
}

/// With a connection a page or a document is fetched if and only if a fresh
/// one is wanted or nothing of it is cached.
pub proof fn law_fetched_when_fresh_or_missing(
    page_exists: bool,
    text_exists: bool,
    document_exists: bool,
    fresh: bool,
)
    ensures
        page_plan(page_exists, fresh, false) == PagePlan::Fetch <==> fresh || !page_exists,
        text_plan(text_exists, document_exists, fresh, false) == TextPlan::FetchAndConvert <==> (
        fresh || (!text_exists && !document_exists)),
{
}

/// The name of the cached page of a certificate.
pub open spec fn page_name(certificate: Seq<char>) -> Seq<char> {
    certificate + ".html"@
}

/// The name of the cached page of a certificate.
pub fn page_file_name(certificate: &str) -> (r: String)
    ensures
        r@ == page_name(certificate@),
{
    certificate.to_owned().concat(".html")
}

/// The last place of a character in a text, or one before its beginning.
pub open spec fn last_place(s: Seq<char>, c: char) -> int
    decreases s.len(),
{
    if s.len() == 0 {
        -1
    } else if s.last() == c {
        s.len() - 1
    } else {
        last_place(s.drop_last(), c)
    }
}

/// A stretch at the end of a text without the character leaves its last place.
proof fn lemma_last_place(s: Seq<char>, c: char, n: int)
    requires
        0 <= n <= s.len(),
        forall|k: int| n <= k < s.len() ==> s[k] != c,
    ensures
        last_place(s, c) == last_place(s.take(n), c),
    decreases s.len() - n,
{
    if n < s.len() {
        assert(s.take(n + 1).drop_last() =~= s.take(n));
        assert(s.take(n + 1).last() == s[n]);
        lemma_last_place(s, c, n + 1);
    } else {
        assert(s.take(n) =~= s);
    }
}

/// The place after the last one of a character among the first `end`, or zero.
fn after_last(chars: &Vec<char>, end: usize, c: char) -> (r: usize)
    requires
        end <= chars@.len(),
    ensures
        r <= end,
        r == last_place(chars@.take(end as int), c) + 1,
{
    let ghost head = chars@.take(end as int);
    let mut i: usize = end;
    while i > 0
        invariant
            i <= end <= chars@.len(),
            head == chars@.take(end as int),
            forall|k: int| i <= k < end ==> head[k] != c,
        decreases i,
    {
        if chars[i - 1] == c {
            proof {
                lemma_last_place(head, c, i as int);
                assert(head.take(i as int).last() == c);
            }
            return i;
        }
        i -= 1;
    }
    proof {
        lemma_last_place(head, c, 0);
    }
    0
}

/// A file name without its extension. A dot that begins the name begins no
/// extension.
pub open spec fn stem(name: Seq<char>) -> Seq<char> {
    if last_place(name, '.') <= 0 {
        name
    } else {
        name.take(last_place(name, '.'))
    }
}

/// The extension of a file name. A dot that begins the name begins no
/// extension.
pub open spec fn extension(name: Seq<char>) -> Option<Seq<char>> {
    if last_place(name, '.') <= 0 {
        None
    } else {
        Some(name.skip(last_place(name, '.') + 1))
    }
}

/// A file name without its extension, and the extension.
fn split_extension(name: &str) -> (r: (String, Option<String>))
    ensures
        r.0@ == stem(name@),
        r.1.deep_view() == extension(name@),
{
    let chars = chars_of(name);
    let total: usize = chars.len();
    assert(name@.take(total as int) =~= name@);
    let after: usize = after_last(&chars, total, '.');
    if after <= 1 {
        return (name.to_owned(), None);
    }
    assert(name@.take(after - 1) =~= name@.subrange(0, after - 1));
    assert(name@.skip(after as int) =~= name@.subrange(after as int, total as int));
    (text_from(&chars, 0, after - 1), Some(text_from(&chars, after, total)))
}

/// The certificate whose cached page a file holds, by the name of the file:
/// nothing for a file that is no page.
pub open spec fn cached_certificate(file_name: Seq<char>) -> Option<Seq<char>> {
    if extension(file_name) == Some("html"@) {
        Some(stem(file_name))
    } else {
        None
    }
}

/// The certificate whose cached page a file holds, by the name of the file.
pub fn certificate_of_file(file_name: &str) -> (r: Option<String>)
    ensures
        r.deep_view() == cached_certificate(file_name@),
{
    match split_extension(file_name) {
        (certificate, Some(extension)) => if same_text(extension.as_str(), "html") {
            Some(certificate)
        } else {
            None
        },
        _ => None,
    }
}

/// The last part of a path between slashes. Empty parts and parts that name
/// the same directory are passed over; a part that names the directory above
/// has no name.
pub open spec fn file_name(path: Seq<char>) -> Seq<char>
    decreases path.len(),
{
    let slash = last_place(path, '/');
    let part = path.skip(slash + 1);
    if part.len() == 0 || part == seq!['.'] {
        if 0 <= slash < path.len() {
            file_name(path.take(slash))
        } else {
            seq![]
        }
    } else if part == seq!['.', '.'] {
        seq![]
    } else {
        part
    }
}

/// The last part of a path between slashes.
pub fn last_part(path: &str) -> (r: String)
    ensures
        r@ == file_name(path@),
{
    let chars = chars_of(path);
    let mut end: usize = chars.len();
    assert(path@.take(end as int) =~= path@);
    loop
        invariant
            end <= chars@.len(),
            chars@ == path@,
            file_name(path@.take(end as int)) == file_name(path@),
        decreases end,
    {
        let ghost head = path@.take(end as int);
        let after: usize = after_last(&chars, end, '/');
        let part = text_from(&chars, after, end);
        proof {
            assert(head.skip(after as int) =~= part@);
            reveal_strlit(".");
            reveal_strlit("..");
            assert("."@ =~= seq!['.']);
            assert(".."@ =~= seq!['.', '.']);
        }
        if part.as_str().is_empty() || same_text(part.as_str(), ".") {
            if after == 0 {
                return String::new();
            }
            assert(head.take(after - 1) =~= path@.take(after - 1));
            end = after - 1;
        } else if same_text(part.as_str(), "..") {
            return String::new();
        } else {
            return part;
        }
    }
}

/// What a cached document is.
#[derive(Copy, Clone, Debug, PartialEq, Eq, Structural)]
pub enum DocumentKind {
    /// The security policy of a module.
    SecurityPolicy,
    /// The public use document of an entropy source.
    EntropyDocument,
}

/// The directory of the cache for documents of a kind.
pub open spec fn directory_of(kind: DocumentKind) -> Seq<char> {
    match kind {
        DocumentKind::SecurityPolicy => "security-policies"@,
        DocumentKind::EntropyDocument => "entropy-documents"@,
    }
}

impl DocumentKind {
    /// The directory of the cache for documents of this kind.
    pub fn directory(self) -> (r: &'static str)
        ensures
            r@ == directory_of(self),
    {
        match self {
            DocumentKind::SecurityPolicy => "security-policies",
            DocumentKind::EntropyDocument => "entropy-documents",
        }
    }
}

/// Where in the cache the document with an address and its text are: in the
/// directory for its kind, under the last part of the address. The text has
/// an extension of its own. An address that names no file leads to the
/// directory, and its text stands beside that.
pub open spec fn document_paths(kind: DocumentKind, url: Seq<char>) -> (Seq<char>, Seq<char>) {
    let name = file_name(url);
    (
        directory_of(kind) + "/"@ + name,
        if name.len() == 0 {
            directory_of(kind) + ".txt"@
        } else {
            directory_of(kind) + "/"@ + stem(name) + ".txt"@
        },
    )
}

/// Where in the cache the document with an address and its text are.
pub fn cached_document_paths(kind: DocumentKind, document_url: &str) -> (r: (String, String))
    ensures
        (r.0@, r.1@) == document_paths(kind, document_url@),
{
    let name = last_part(document_url);
    let inside = kind.directory().to_owned().concat("/");
    let document = inside.clone().concat(name.as_str());
    let text = if name.as_str().is_empty() {
        kind.directory().to_owned().concat(".txt")
    } else {
        inside.concat(split_extension(name.as_str()).0.as_str()).concat(".txt")
    };
    (document, text)
}

/// The name of a cached page leads back to its certificate.
pub proof fn law_page_names_round_trip(certificate: Seq<char>)
    requires
        certificate.len() > 0,
    ensures
        cached_certificate(page_name(certificate)) == Some(certificate),
{
    reveal_strlit(".html");
    reveal_strlit("html");
    let name = page_name(certificate);
    let n = certificate.len() as int;
    assert(forall|k: int| n + 1 <= k < name.len() ==> name[k] != '.');
    lemma_last_place(name, '.', n + 1);
    assert(name.take(n + 1).last() == '.');
    assert(name.take(n) =~= certificate);
    assert(name.skip(n + 1) =~= "html"@);
}

/// The last place is a place of the character, and it is the last one.
proof fn lemma_last_place_is_last(s: Seq<char>, c: char)
    ensures
        -1 <= last_place(s, c) < s.len(),
        last_place(s, c) >= 0 ==> s[last_place(s, c)] == c,
        forall|k: int| last_place(s, c) < k < s.len() ==> s[k] != c,
    decreases s.len(),
{
    if s.len() > 0 && s.last() != c {
        lemma_last_place_is_last(s.drop_last(), c);
        assert forall|k: int| last_place(s, c) < k < s.len() implies s[k] != c by {
            if k < s.len() - 1 {
                assert(s[k] == s.drop_last()[k]);
            }
        }
    }
}

/// The name that a path gives holds no slash: a cached document does not
/// leave its directory.
pub proof fn law_file_names_stay_below(path: Seq<char>)
    ensures
        !file_name(path).contains('/'),
        file_name(path) != seq!['.'],
        file_name(path) != seq!['.', '.'],
    decreases path.len(),
{
    let slash = last_place(path, '/');
    let part = path.skip(slash + 1);
    lemma_last_place_is_last(path, '/');
    if part.len() == 0 || part == seq!['.'] {
        if slash >= 0 {
            law_file_names_stay_below(path.take(slash));
        }
    } else if part != seq!['.', '.'] {
        assert forall|k: int| 0 <= k < part.len() implies part[k] != '/' by {
            assert(part[k] == path[slash + 1 + k]);
        }
    }
    assert(seq!['.'].len() == 1 && seq!['.', '.'].len() == 2);
}

/// A response with a status from 200 to 299 is taken. After none, or after one
/// with the status 408, 429, 500, 502, 503 or 504, the request is repeated, up
/// to the fourth; the first wait is one and a half seconds, and each later one
/// is longer by as much. Any other status ends the attempts.
pub proof fn law_steps(attempt: nat, status: u16)
    ensures
        step_after(attempt, Reply::Status(status)) == RetryStep::Accept <==> 200 <= status < 300,
        step_after(attempt, Reply::Unreachable) != RetryStep::Accept,
        ({
            let passing = status == 408 || status == 429 || status == 500 || status == 502
                || status == 503 || status == 504;
            step_after(attempt, Reply::Status(status)) is Wait <==> passing && attempt < 3
        }),
        step_after(attempt, Reply::Unreachable) is Wait <==> attempt < 3,
        step_after(0, Reply::Unreachable) == RetryStep::Wait(1500),
        step_after(1, Reply::Unreachable) == RetryStep::Wait(3000),
        step_after(2, Reply::Unreachable) == RetryStep::Wait(4500),
        step_after(attempt, Reply::Status(status)) is Wait ==> step_after(
            attempt,
            Reply::Status(status),
        ) == step_after(attempt, Reply::Unreachable),
{
}

/// Where no response comes, the request is made four times, with nine seconds
/// of waiting between; and never more often or with more waiting.
pub proof fn law_requests_and_waits(replies: Seq<Reply>)
    ensures
        requests_made(replies, 0) <= 4,
        time_waited(replies, 0) <= 9000,
        replies.len() >= 4 && replies[0] is Unreachable && replies[1] is Unreachable
            && replies[2] is Unreachable && replies[3] is Unreachable ==> requests_made(replies, 0)
            == 4 && time_waited(replies, 0) == 9000,
{
    reveal_with_fuel(requests_made, 6);
    reveal_with_fuel(time_waited, 6);
}

/// The text of a document is read where it is cached and converted from the
/// cached document where that alone is; a page is read where it is cached.
pub proof fn law_cached_text_comes_first(document_exists: bool, fresh: bool, offline: bool)
    requires
        offline || !fresh,
    ensures
        page_plan(true, fresh, offline) == PagePlan::ReadCached,
        page_plan(false, fresh, true) == PagePlan::Missing,
        text_plan(true, document_exists, fresh, offline) == TextPlan::ReadText,
        text_plan(false, true, fresh, offline) == TextPlan::Convert,
        text_plan(false, false, fresh, true) == TextPlan::Missing,
{
}

/// The name of a file is what follows the last slash of its path. A slash at
/// the end of a path, alone or with a dot behind it, does not change the name.
pub proof fn law_name_follows_the_last_slash(directory: Seq<char>, name: Seq<char>)
    requires
        !name.contains('/'),
        name.len() > 0,
        name != seq!['.'],
        name != seq!['.', '.'],
    ensures
        file_name(directory + seq!['/'] + name) == name,
        file_name(name) == name,
        file_name(directory + seq!['/']) == file_name(directory),
        file_name(directory + seq!['/', '.']) == file_name(directory),
{
    let path = directory + seq!['/'] + name;
    let n = directory.len() as int;
    assert forall|k: int| n + 1 <= k < path.len() implies path[k] != '/' by {
        assert(path[k] == name[k - n - 1]);
        assert(name.contains(name[k - n - 1]));
    }
    lemma_last_place(path, '/', n + 1);
    assert(path.take(n + 1).last() == '/');
    assert(path.skip(n + 1) =~= name);
    assert forall|k: int| 0 <= k < name.len() implies name[k] != '/' by {
        assert(name.contains(name[k]));
    }
    lemma_last_place(name, '/', 0);
    assert(name.skip(0) =~= name);
    let open = directory + seq!['/'];
    assert(open.last() == '/');
    assert(last_place(open, '/') == n);
    assert(open.skip(n + 1).len() == 0);
    assert(open.take(n) =~= directory);
    let dotted = directory + seq!['/', '.'];
    assert(dotted.take(n + 1).last() == '/');
    lemma_last_place(dotted, '/', n + 1);
    assert(dotted.skip(n + 1) =~= seq!['.']);
    assert(dotted.take(n) =~= directory);
}

/// The extension of a file name is what follows its last dot, and the rest of
/// the name is what stands before that dot. A name without a dot, or with a
/// dot at its beginning alone, has no extension.
pub proof fn law_extension_follows_the_last_dot(base: Seq<char>, ext: Seq<char>)
    requires
        !ext.contains('.'),
    ensures
        base.len() > 0 ==> stem(base + seq!['.'] + ext) == base,
        base.len() > 0 ==> extension(base + seq!['.'] + ext) == Some(ext),
        stem(ext) == ext,
        extension(ext) is None,
        stem(seq!['.'] + ext) == seq!['.'] + ext,
        extension(seq!['.'] + ext) is None,
{
    let name = base + seq!['.'] + ext;
    let n = base.len() as int;
    assert forall|k: int| 0 <= k < ext.len() implies ext[k] != '.' by {
        assert(ext.contains(ext[k]));
    }
    assert forall|k: int| n + 1 <= k < name.len() implies name[k] != '.' by {
        assert(name[k] == ext[k - n - 1]);
    }
    lemma_last_place(name, '.', n + 1);
    assert(name.take(n + 1).last() == '.');
    assert(name.take(n) =~= base);
    assert(name.skip(n + 1) =~= ext);
    lemma_last_place(ext, '.', 0);
    let hidden = seq!['.'] + ext;
    assert forall|k: int| 1 <= k < hidden.len() implies hidden[k] != '.' by {
        assert(hidden[k] == ext[k - 1]);
    }
    lemma_last_place(hidden, '.', 1);
    assert(hidden.take(1).last() == '.');
}

/// A document is cached in the directory of its kind, under the name that its
/// address ends in, and its text beside it, under that name with another
/// extension.
pub proof fn law_cached_documents(prefix: Seq<char>, base: Seq<char>, ext: Seq<char>)
    requires
        base.len() > 0,
        !base.contains('/'),
        !ext.contains('/'),
        !ext.contains('.'),
        ext.len() > 0,
    ensures
        ({
            let url = prefix + seq!['/'] + (base + seq!['.'] + ext);
            &&& document_paths(DocumentKind::SecurityPolicy, url) == (
                "security-policies/"@ + (base + seq!['.'] + ext),
                "security-policies/"@ + base + ".txt"@,
            )
            &&& document_paths(DocumentKind::EntropyDocument, url) == (
                "entropy-documents/"@ + (base + seq!['.'] + ext),
                "entropy-documents/"@ + base + ".txt"@,
            )
        }),
{
    let name = base + seq!['.'] + ext;
    assert(!name.contains('/')) by {
        if name.contains('/') {
            let k = choose|k: int| 0 <= k < name.len() && name[k] == '/';
            if k < base.len() {
                assert(base.contains(base[k]));
            } else if k > base.len() {
                assert(ext.contains(ext[k - base.len() - 1]));
            }
        }
    }
    assert(name.len() >= 3);
    assert(seq!['.'].len() == 1 && seq!['.', '.'].len() == 2);
    law_name_follows_the_last_slash(prefix, name);
    law_extension_follows_the_last_dot(base, ext);
    reveal_strlit("security-policies");
    reveal_strlit("security-policies/");
    reveal_strlit("entropy-documents");
    reveal_strlit("entropy-documents/");
    reveal_strlit("/");
    assert("security-policies/"@ =~= "security-policies"@ + "/"@);
    assert("entropy-documents/"@ =~= "entropy-documents"@ + "/"@);
}

/// A cached file is the page of a certificate if and only if its extension is
/// that of pages, and the certificate is the rest of its name.
pub proof fn law_cached_pages(base: Seq<char>, ext: Seq<char>)
    requires
        base.len() > 0,
        !ext.contains('.'),
    ensures
        cached_certificate(base + seq!['.'] + ext) == if ext == "html"@ {
            Some(base)
        } else {
            None
        },
        cached_certificate(ext) is None,
        page_name(base) == base + seq!['.'] + "html"@,
{
    law_extension_follows_the_last_dot(base, ext);
    reveal_strlit(".html");
    reveal_strlit("html");
    assert(base + ".html"@ =~= base + seq!['.'] + "html"@);
}

} // verus!
