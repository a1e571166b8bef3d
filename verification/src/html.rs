//! HTML pages, read with the `scraper` crate.
//!
//! Of an element the library reads its pieces of text and one attribute. What
//! a selector finds in a page is a function of the two texts; the functions
//! without a body name it, and each selection below says that its result is
//! what the name stands for.

use crate::models::{ErrorView, SearchError, result_view};
use crate::text::{collapse, collapsed, concat_texts, trim, trimmed};
use scraper::{ElementRef, Html, Selector};
use vstd::prelude::*;
use vstd::string::*;
use vstd::utf8::*;

verus! {

/// An element of a page: the texts in it, in order, and the value of the
/// attribute that was asked for.
#[derive(Debug)]
pub struct Element {
    pub texts: Vec<String>,
    pub attribute: Option<String>,
}

/// What an element holds: its texts and its attribute.
pub type ElementView = (Seq<Seq<char>>, Option<Seq<char>>);

impl DeepView for Element {
    type V = ElementView;

    open spec fn deep_view(&self) -> ElementView {
        (self.texts.deep_view(), self.attribute.deep_view())
    }
}

/// Whether `scraper::Selector::parse` accepts a selector.
pub uninterp spec fn selector_parses(selector: Seq<char>) -> bool;

/// The elements that `scraper::Html::select` finds in the page of a text, with
/// the attribute of each.
pub uninterp spec fn selection(
    html: Seq<char>,
    selector: Seq<char>,
    attribute: Seq<char>,
) -> Seq<ElementView>;

/// For each element that `scraper::Html::select` finds by `outer`, the
/// elements that `scraper::ElementRef::select` finds in it by `inner`.
pub uninterp spec fn selection_within(
    html: Seq<char>,
    outer: Seq<char>,
    inner: Seq<char>,
    attribute: Seq<char>,
) -> Seq<Seq<ElementView>>;

/// For each element that `scraper::Html::select` finds by `outer`, the
/// elements that `scraper::ElementRef::select` finds in it by `middle`, each
/// with those that it finds in that one by `inner`.
pub uninterp spec fn selection_of_pairs(
    html: Seq<char>,
    outer: Seq<char>,
    middle: Seq<char>,
    inner: Seq<char>,
    attribute: Seq<char>,
) -> Seq<Seq<(ElementView, Seq<ElementView>)>>;

/// How many bytes a buffer of the parser can grow to.
pub const BUFFER_BYTES: usize = 0x8000_0000;

/// How many bytes a byte of a page becomes at most when the page is read. A
/// NUL becomes the replacement character, of three bytes. What a character
/// reference stands for has no more bytes than the reference, but for two that
/// become one byte longer: that byte is counted with the ampersand.
pub open spec fn byte_weight(byte: u8) -> nat {
    if byte == 0 {
        3
    } else if byte == 38 {
        2
    } else {
        1
    }
}

/// How many bytes the bytes of a page become at most when the page is read.
pub open spec fn weight(bytes: Seq<u8>) -> nat
    decreases bytes.len(),
{
    if bytes.len() == 0 {
        0
    } else {
        weight(bytes.drop_last()) + byte_weight(bytes.last())
    }
}

/// A page of which no part can outgrow a buffer of the parser.
pub open spec fn page_fits(html: Seq<char>) -> bool {
    weight(encode_utf8(html)) <= BUFFER_BYTES
}

/// More bytes weigh more.
proof fn lemma_weight_grows(bytes: Seq<u8>, n: int)
    requires
        0 <= n <= bytes.len(),
    ensures
        weight(bytes.take(n)) <= weight(bytes),
    decreases bytes.len() - n,
{
    if n < bytes.len() {
        assert(bytes.take(n + 1).drop_last() =~= bytes.take(n));
        lemma_weight_grows(bytes, n + 1);
    } else {
        assert(bytes.take(n) =~= bytes);
    }
}

/// Whether the bytes of a page become at most `limit` when the page is read.
pub fn weighs_at_most(html: &str, limit: usize) -> (r: bool)
    ensures
        r == (weight(encode_utf8(html@)) <= limit),
{
    let bytes = html.as_bytes();
    let total: usize = bytes.len();
    let mut room: usize = limit;
    let mut i: usize = 0;
    while i < total
        invariant
            i <= total == bytes@.len(),
            bytes@ == encode_utf8(html@),
            room <= limit,
            weight(bytes@.take(i as int)) == limit - room,
        decreases total - i,
    {
        let step: usize = if bytes[i] == 0 {
            3
        } else if bytes[i] == 38 {
            2
        } else {
            1
        };
        proof {
            assert(bytes@.take(i + 1).drop_last() =~= bytes@.take(i as int));
            lemma_weight_grows(bytes@, i + 1);
        }
        if room < step {
            return false;
        }
        room -= step;
        i += 1;
    }
    assert(bytes@.take(total as int) =~= bytes@);
    true
}

/// Whether no part of a page can outgrow a buffer of the parser.
pub fn page_is_readable(html: &str) -> (r: bool)
    ensures
        r == page_fits(html@),
{
    weighs_at_most(html, BUFFER_BYTES)
}

/// `scraper::Selector::parse`: whether it accepts the selector.
#[verifier::external_body]
fn parses(selector: &str) -> (r: bool)
    ensures
        r == selector_parses(selector@),
{
    Selector::parse(selector).is_ok()
}

/// `scraper::Html::select` on the document that `scraper::Html::parse_document`
/// makes of a page that fits its buffers: the elements that a selector finds.
#[verifier::external_body]
pub(crate) fn select(html: &str, selector: &str, attribute: &str) -> (r: Vec<Element>)
    requires
        page_fits(html@),
        selector_parses(selector@),
    ensures
        r.deep_view() == selection(html@, selector@, attribute@),
{
    Html::parse_document(html).select(&Selector::parse(selector).unwrap()).map(
        |e| Element {
            texts: e.text().map(str::to_string).collect(),
            attribute: e.value().attr(attribute).map(str::to_string),
        },
    ).collect()
}

/// `scraper::ElementRef::select` on each element that a selector finds in a
/// page that fits the buffers of the parser: the elements in it that another
/// selector finds. There is one list for each element that the first one finds.
#[verifier::external_body]
pub(crate) fn select_within(html: &str, outer: &str, inner: &str, attribute: &str) -> (r: Vec<
    Vec<Element>,
>)
    requires
        page_fits(html@),
        selector_parses(outer@),
        selector_parses(inner@),
    ensures
        r.deep_view() == selection_within(html@, outer@, inner@, attribute@),
        r@.len() == selection(html@, outer@, attribute@).len(),
{
    let inner = Selector::parse(inner).unwrap();
    let read = |e: ElementRef| Element {
        texts: e.text().map(str::to_string).collect(),
        attribute: e.value().attr(attribute).map(str::to_string),
    };
    Html::parse_document(html).select(&Selector::parse(outer).unwrap()).map(
        |e| e.select(&inner).map(read).collect(),
    ).collect()
}

/// `scraper::ElementRef::select` on each element that a selector finds in a
/// page that fits the buffers of the parser, and again on what that finds.
/// There is one list for each element that the first selector finds.
#[verifier::external_body]
pub(crate) fn select_pairs(
    html: &str,
    outer: &str,
    middle: &str,
    inner: &str,
    attribute: &str,
) -> (r: Vec<Vec<(Element, Vec<Element>)>>)
    requires
        page_fits(html@),
        selector_parses(outer@),
        selector_parses(middle@),
        selector_parses(inner@),
    ensures
        r.deep_view() == selection_of_pairs(html@, outer@, middle@, inner@, attribute@),
        r@.len() == selection(html@, outer@, attribute@).len(),
{
    let (middle, inner) = (Selector::parse(middle).unwrap(), Selector::parse(inner).unwrap());
    let read = |e: ElementRef| Element {
        texts: e.text().map(str::to_string).collect(),
        attribute: e.value().attr(attribute).map(str::to_string),
    };
    Html::parse_document(html).select(&Selector::parse(outer).unwrap()).map(
        |e| e.select(&middle).map(|m| (read(m), m.select(&inner).map(read).collect())).collect(),
    ).collect()
}

/// What `check_selectors` hands back.
pub open spec fn selectors_checked(selectors: Seq<Seq<char>>) -> Result<(), ErrorView>
    decreases selectors.len(),
{
    if selectors.len() == 0 {
        Ok(())
    } else if !selector_parses(selectors[0]) {
        Err(ErrorView::InvalidSelector(selectors[0]))
    } else {
        selectors_checked(selectors.drop_first())
    }
}

/// Nothing for selectors that all parse, and otherwise the error for the
/// first that does not.
pub fn check_selectors(selectors: &Vec<&str>) -> (r: Result<(), SearchError>)
    ensures
        result_view(r) == selectors_checked(selectors.deep_view()),
        r is Ok ==> forall|i: int|
            0 <= i < selectors@.len() ==> selector_parses(#[trigger] selectors@[i]@),
{
    let ghost all = selectors.deep_view();
    let mut i: usize = 0;
    assert(all.skip(0) =~= all);
    while i < selectors.len()
        invariant
            i <= selectors@.len(),
            all == selectors.deep_view(),
            selectors_checked(all.skip(i as int)) == selectors_checked(all),
            forall|k: int| 0 <= k < i ==> selector_parses(#[trigger] selectors@[k]@),
        decreases selectors@.len() - i,
    {
        assert(all.skip(i as int)[0] == selectors@[i as int]@);
        if !parses(selectors[i]) {
            return Err(SearchError::InvalidSelector(selectors[i].to_owned()));
        }
        assert(all.skip(i as int).drop_first() =~= all.skip(i + 1));
        i += 1;
    }
    Ok(())
}

/// The text of an element, its words parted by one space.
pub open spec fn element_text(element: ElementView) -> Seq<char> {
    collapsed(element.0.flatten())
}

/// The text of the first element, or nothing.
pub open spec fn first_text(elements: Seq<ElementView>) -> Seq<char> {
    if elements.len() > 0 {
        element_text(elements[0])
    } else {
        seq![]
    }
}

/// The first of the texts that holds more than white space, trimmed, or
/// nothing.
pub open spec fn first_filled(texts: Seq<Seq<char>>) -> Seq<char>
    decreases texts.len(),
{
    if texts.len() == 0 {
        seq![]
    } else if trimmed(texts[0]).len() > 0 {
        trimmed(texts[0])
    } else {
        first_filled(texts.drop_first())
    }
}

/// The text of an element, its words parted by one space.
pub fn text_of(element: &Element) -> (r: String)
    ensures
        r@ == element_text(element.deep_view()),
{
    collapse(concat_texts(&element.texts).as_str())
}

/// The text of the first element, or nothing.
pub fn text_of_first(elements: &Vec<Element>) -> (r: String)
    ensures
        r@ == first_text(elements.deep_view()),
{
    if elements.len() > 0 {
        assert(elements.deep_view()[0] == elements@[0].deep_view());
        text_of(&elements[0])
    } else {
        String::new()
    }
}

/// The first text in an element that holds more than white space, trimmed, or
/// nothing.
pub fn first_non_empty_text(element: &Element) -> (r: String)
    ensures
        r@ == first_filled(element.deep_view().0),
{
    let ghost all = element.texts.deep_view();
    let mut i: usize = 0;
    assert(all.skip(0) =~= all);
    while i < element.texts.len()
        invariant
            i <= element.texts@.len(),
            all == element.texts.deep_view(),
            first_filled(all.skip(i as int)) == first_filled(all),
        decreases element.texts@.len() - i,
    {
        let text = trim(element.texts[i].as_str());
        assert(all.skip(i as int)[0] == element.texts@[i as int]@);
        if !text.as_str().is_empty() {
            return text;
        }
        assert(all.skip(i as int).drop_first() =~= all.skip(i + 1));
        i += 1;
    }
    String::new()
}

/// One more byte weighs one, a NUL three and an ampersand two; and a page can
/// be read up to a weight of two to the power of thirty-one.
pub proof fn law_weights(bytes: Seq<u8>, byte: u8, html: Seq<char>)
    ensures
        weight(Seq::<u8>::empty()) == 0,
        weight(bytes.push(byte)) - weight(bytes) == if byte == 0 {
            3
        } else if byte as char == '&' {
            2
        } else {
            1int
        },
        page_fits(html) <==> weight(encode_utf8(html)) <= 2147483648,
{
    assert(bytes.push(byte).drop_last() =~= bytes);
}

} // verus!
