//! Plain text: white space, words, lines, case, order and numerals.
//!
//! A text is modelled as its sequence of characters. Offsets that a regular
//! expression reports count UTF-8 bytes; `byte_slice` ties them to characters.

use vstd::prelude::*;
use vstd::string::*;
use vstd::utf8::*;

verus! {

/// `String::push` appends one character.
pub assume_specification[ String::push ](s: &mut String, c: char)
    ensures
        final(s)@ == old(s)@.push(c),
;

/// What `str::to_lowercase` makes of a text.
pub uninterp spec fn lowercased(text: Seq<char>) -> Seq<char>;

/// `str::to_lowercase`: the text in lower case, by the rules of Unicode. Of
/// an ASCII text it changes the capitals and nothing else.
#[verifier::external_body]
pub(crate) fn to_lowercase(text: &str) -> (r: String)
    ensures
        r@ == lowercased(text@),
        is_ascii_chars(text@) ==> r@ == ascii_lowered(text@),
{
    text.to_lowercase()
}

/// The characters with the Unicode property White_Space.
pub open spec fn white_space(c: char) -> bool {
    ||| '\u{9}' <= c <= '\u{d}'
    ||| c == '\u{20}'
    ||| c == '\u{85}'
    ||| c == '\u{a0}'
    ||| c == '\u{1680}'
    ||| '\u{2000}' <= c <= '\u{200a}'
    ||| c == '\u{2028}'
    ||| c == '\u{2029}'
    ||| c == '\u{202f}'
    ||| c == '\u{205f}'
    ||| c == '\u{3000}'
}

/// The ASCII letters and digits.
pub open spec fn ascii_alphanumeric(c: char) -> bool {
    'a' <= c <= 'z' || 'A' <= c <= 'Z' || '0' <= c <= '9'
}

/// The lower-case form of an ASCII capital; any other character as it is.
pub open spec fn ascii_lower(c: char) -> char {
    if 'A' <= c <= 'Z' {
        (c as u32 + 32) as char
    } else {
        c
    }
}

/// The text with each ASCII capital in lower case.
pub open spec fn ascii_lowered(s: Seq<char>) -> Seq<char> {
    s.map_values(|c: char| ascii_lower(c))
}

/// The capital of an ASCII small letter; any other character as it is.
pub open spec fn ascii_upper(c: char) -> char {
    if 'a' <= c <= 'z' {
        (c as u32 - 32) as char
    } else {
        c
    }
}

/// The text with each ASCII small letter made a capital.
pub open spec fn ascii_raised(s: Seq<char>) -> Seq<char> {
    s.map_values(|c: char| ascii_upper(c))
}

/// Two texts that differ in nothing but the case of ASCII letters.
pub open spec fn same_ignoring_case(a: Seq<char>, b: Seq<char>) -> bool {
    ascii_lowered(a) == ascii_lowered(b)
}

/// The ASCII letters and digits of a text, in lower case.
pub open spec fn normalized(s: Seq<char>) -> Seq<char> {
    ascii_lowered(s.filter(|c: char| ascii_alphanumeric(c)))
}

/// The longest stretches of a text without white space, in order.
pub open spec fn words(s: Seq<char>) -> Seq<Seq<char>>
    decreases s.len(),
{
    if s.len() == 0 {
        seq![]
    } else {
        let before = s.drop_last();
        let c = s.last();
        if white_space(c) {
            words(before)
        } else if before.len() > 0 && !white_space(before.last()) {
            words(before).drop_last().push(words(before).last().push(c))
        } else {
            words(before).push(seq![c])
        }
    }
}

/// The parts one after another with `sep` between neighbours.
pub open spec fn join(parts: Seq<Seq<char>>, sep: Seq<char>) -> Seq<char>
    decreases parts.len(),
{
    if parts.len() == 0 {
        seq![]
    } else if parts.len() == 1 {
        parts[0]
    } else {
        join(parts.drop_last(), sep) + sep + parts.last()
    }
}

/// The words of a text with one space between neighbours.
pub open spec fn collapsed(s: Seq<char>) -> Seq<char> {
    join(words(s), seq![' '])
}

/// The text without the white space that it begins with.
pub open spec fn trimmed_start(s: Seq<char>) -> Seq<char>
    decreases s.len(),
{
    if s.len() > 0 && white_space(s[0]) {
        trimmed_start(s.drop_first())
    } else {
        s
    }
}

/// The text without the white space that it ends with.
pub open spec fn trimmed_end(s: Seq<char>) -> Seq<char>
    decreases s.len(),
{
    if s.len() > 0 && white_space(s.last()) {
        trimmed_end(s.drop_last())
    } else {
        s
    }
}

/// The text without white space at either end.
pub open spec fn trimmed(s: Seq<char>) -> Seq<char> {
    trimmed_end(trimmed_start(s))
}

/// The text without the characters of `set` that it begins with.
pub open spec fn without_leading(s: Seq<char>, set: Seq<char>) -> Seq<char>
    decreases s.len(),
{
    if s.len() > 0 && set.contains(s[0]) {
        without_leading(s.drop_first(), set)
    } else {
        s
    }
}

/// The first `n` characters, or the whole text where it is shorter.
pub open spec fn at_most(s: Seq<char>, n: nat) -> Seq<char> {
    if s.len() <= n {
        s
    } else {
        s.take(n as int)
    }
}

/// `needle` stands in `s` at offset `i`.
pub open spec fn stands_at(needle: Seq<char>, s: Seq<char>, i: int) -> bool {
    0 <= i && i + needle.len() <= s.len() && s.subrange(i, i + needle.len()) == needle
}

/// `needle` stands somewhere in `s`.
pub open spec fn occurs_in(needle: Seq<char>, s: Seq<char>) -> bool {
    exists|i: int| stands_at(needle, s, i)
}

/// What follows `prefix` in a text that begins with it.
pub open spec fn after_prefix(s: Seq<char>, prefix: Seq<char>) -> Option<Seq<char>> {
    if prefix.is_prefix_of(s) {
        Some(s.skip(prefix.len() as int))
    } else {
        None
    }
}

/// The text with each form feed made a line feed.
pub open spec fn pages_as_lines(s: Seq<char>) -> Seq<char> {
    s.map_values(|c: char| if c == '\u{c}' { '\n' } else { c })
}

/// The offset of the first line feed, or the length where there is none.
pub open spec fn line_feed(s: Seq<char>) -> nat
    decreases s.len(),
{
    if s.len() == 0 || s[0] == '\n' {
        0
    } else {
        1 + line_feed(s.drop_first())
    }
}

/// A line that a line feed ended, without the carriage return before it.
pub open spec fn without_carriage_return(line: Seq<char>) -> Seq<char> {
    if line.len() > 0 && line.last() == '\r' {
        line.drop_last()
    } else {
        line
    }
}

/// The lines of a text. A line ends with a line feed, with a carriage return
/// and a line feed, or with the text; an empty last line does not count.
pub open spec fn lines(s: Seq<char>) -> Seq<Seq<char>>
    decreases s.len(),
{
    if s.len() == 0 {
        seq![]
    } else if line_feed(s) < s.len() {
        seq![without_carriage_return(s.take(line_feed(s) as int))] + lines(
            s.skip(line_feed(s) as int + 1),
        )
    } else {
        seq![s]
    }
}

/// The decimal digit `d`.
pub open spec fn digit(d: nat) -> char {
    (d + 48) as char
}

/// The decimal numeral of `n`, without leading zeros.
pub open spec fn decimal(n: nat) -> Seq<char>
    decreases n,
{
    if n < 10 {
        seq![digit(n)]
    } else {
        decimal(n / 10).push(digit(n % 10))
    }
}

/// `n` copies of `c`.
pub open spec fn repeated(c: char, n: nat) -> Seq<char> {
    Seq::new(n, |i: int| c)
}

/// The order of texts: by the first character in which they differ, and a
/// proper prefix before what it begins.
pub open spec fn text_le(a: Seq<char>, b: Seq<char>) -> bool
    decreases a.len(),
{
    if a.len() == 0 {
        true
    } else if b.len() == 0 {
        false
    } else if a[0] == b[0] {
        text_le(a.drop_first(), b.drop_first())
    } else {
        a[0] < b[0]
    }
}

/// The number of bytes of a text in UTF-8.
pub open spec fn byte_len(s: Seq<char>) -> nat {
    encode_utf8(s).len()
}

/// The byte offset `i` of a text lies between two of its characters, or at
/// an end.
pub open spec fn boundary(s: Seq<char>, i: int) -> bool {
    0 <= i <= byte_len(s) && is_char_boundary(encode_utf8(s), i)
}

/// The characters of a text between two byte offsets.
pub open spec fn byte_slice(s: Seq<char>, from: int, to: int) -> Seq<char> {
    decode_utf8(encode_utf8(s).subrange(from, to))
}

/// A byte range whose ends lie on boundaries of a text.
pub open spec fn span_in(s: Seq<char>, span: (usize, usize)) -> bool {
    span.0 <= span.1 && boundary(s, span.0 as int) && boundary(s, span.1 as int)
}

/// Two texts are the same.
pub fn same_text(a: &str, b: &str) -> (r: bool)
    ensures
        r == (a@ == b@),
{
    let x = a.as_bytes();
    let y = b.as_bytes();
    if x.len() != y.len() {
        return false;
    }
    let mut i: usize = 0;
    while i < x.len()
        invariant
            x@.len() == y@.len(),
            x@ == encode_utf8(a@),
            y@ == encode_utf8(b@),
            i <= x@.len(),
            forall|j: int| 0 <= j < i ==> x@[j] == y@[j],
        decreases x@.len() - i,
    {
        if x[i] != y[i] {
            return false;
        }
        i += 1;
    }
    proof {
        assert(x@ =~= y@);
        encode_utf8_decode_utf8(a@);
        encode_utf8_decode_utf8(b@);
    }
    true
}

/// The characters of a text.
pub fn chars_of(s: &str) -> (r: Vec<char>)
    ensures
        r@ == s@,
{
    let mut r: Vec<char> = Vec::new();
    for c in it: s.chars()
        invariant
            r@ == s@.take(it.index() as int),
            it.seq() == s@,
    {
        r.push(c);
        assert(s@.take(it.index() + 1) =~= s@.take(it.index() as int).push(s@[it.index() as int]));
    }
    assert(s@.take(s@.len() as int) =~= s@);
    r
}

/// The text of the characters from `from` up to `to`.
pub fn text_from(chars: &Vec<char>, from: usize, to: usize) -> (r: String)
    requires
        from <= to <= chars@.len(),
    ensures
        r@ == chars@.subrange(from as int, to as int),
{
    let mut r = String::new();
    let mut i = from;
    assert(r@ =~= chars@.subrange(from as int, from as int));
    while i < to
        invariant
            from <= i <= to <= chars@.len(),
            r@ == chars@.subrange(from as int, i as int),
        decreases to - i,
    {
        r.push(chars[i]);
        assert(chars@.subrange(from as int, i + 1) =~= chars@.subrange(from as int, i as int).push(
            chars@[i as int],
        ));
        i += 1;
    }
    r
}

/// Whether a character is white space.
pub fn is_white_space(c: char) -> (r: bool)
    ensures
        r == white_space(c),
{
    ('\u{9}' <= c && c <= '\u{d}') || c == '\u{20}' || c == '\u{85}' || c == '\u{a0}' || c
        == '\u{1680}' || ('\u{2000}' <= c && c <= '\u{200a}') || c == '\u{2028}' || c == '\u{2029}'
        || c == '\u{202f}' || c == '\u{205f}' || c == '\u{3000}'
}

/// The lower-case form of an ASCII capital; any other character as it is.
pub fn to_ascii_lower(c: char) -> (r: char)
    ensures
        r == ascii_lower(c),
{
    if 'A' <= c && c <= 'Z' {
        (c as u8 + 32) as char
    } else {
        c
    }
}

/// The text with each ASCII capital in lower case.
pub fn to_ascii_lowercase(s: &str) -> (r: String)
    ensures
        r@ == ascii_lowered(s@),
{
    let mut r = String::new();
    assert(r@ =~= ascii_lowered(s@.take(0)));
    for c in it: s.chars()
        invariant
            r@ == ascii_lowered(s@.take(it.index() as int)),
            it.seq() == s@,
    {
        r.push(to_ascii_lower(c));
        assert(r@ =~= ascii_lowered(s@.take(it.index() + 1)));
    }
    assert(s@.take(s@.len() as int) =~= s@);
    r
}

/// Whether two texts differ in nothing but the case of ASCII letters.
pub fn eq_ignore_ascii_case(a: &str, b: &str) -> (r: bool)
    ensures
        r == same_ignoring_case(a@, b@),
{
    let x = to_ascii_lowercase(a);
    let y = to_ascii_lowercase(b);
    same_text(x.as_str(), y.as_str())
}

/// The ASCII letters and digits of a text, in lower case: what two names of
/// an algorithm are compared by.
pub fn normalize_for_match(value: &str) -> (r: String)
    ensures
        r@ == normalized(value@),
{
    let ghost keep = |c: char| ascii_alphanumeric(c);
    let mut r = String::new();
    assert(value@.take(0).filter(keep) =~= seq![]) by {
        reveal(Seq::filter);
    }
    assert(r@ =~= normalized(value@.take(0)));
    for c in it: value.chars()
        invariant
            r@ == normalized(value@.take(it.index() as int)),
            it.seq() == value@,
            keep == (|c: char| ascii_alphanumeric(c)),
    {
        let ghost head = value@.take(it.index() as int);
        assert(value@.take(it.index() + 1) =~= head.push(c));
        proof {
            lemma_filter_push(head, c, keep);
        }
        if ('a' <= c && c <= 'z') || ('A' <= c && c <= 'Z') || ('0' <= c && c <= '9') {
            r.push(to_ascii_lower(c));
            assert(r@ =~= normalized(value@.take(it.index() + 1)));
        }
    }
    assert(value@.take(value@.len() as int) =~= value@);
    r
}

/// Filtering a sequence that one more item was pushed on.
pub proof fn lemma_filter_push<A>(s: Seq<A>, a: A, keep: spec_fn(A) -> bool)
    ensures
        s.push(a).filter(keep) == if keep(a) {
            s.filter(keep).push(a)
        } else {
            s.filter(keep)
        },
{
    reveal(Seq::filter);
    assert(s.push(a).drop_last() =~= s);
}

/// A text that ends in other than white space has a word.
pub proof fn lemma_words_nonempty(s: Seq<char>)
    requires
        s.len() > 0,
        !white_space(s.last()),
    ensures
        words(s).len() > 0,
    decreases s.len(),
{
    if s.len() > 1 && !white_space(s.drop_last().last()) {
        lemma_words_nonempty(s.drop_last());
    }
}

/// The longest stretches of a text without white space, in order.
pub fn split_words(s: &str) -> (r: Vec<String>)
    ensures
        r.deep_view() == words(s@),
{
    let mut r: Vec<String> = Vec::new();
    let mut in_word = false;
    assert(r.deep_view() =~= words(s@.take(0)));
    for c in it: s.chars()
        invariant
            r.deep_view() == words(s@.take(it.index() as int)),
            it.seq() == s@,
            in_word == (it.index() > 0 && !white_space(s@[it.index() - 1])),
    {
        let ghost before = s@.take(it.index() as int);
        let ghost known = r.deep_view();
        assert(s@.take(it.index() + 1).drop_last() =~= before);
        if is_white_space(c) {
            in_word = false;
        } else if in_word {
            proof {
                lemma_words_nonempty(before);
                assert(r.deep_view().len() == r@.len());
            }
            match r.pop() {
                Some(mut word) => {
                    assert(word@ == known.last());
                    word.push(c);
                    r.push(word);
                },
                None => {},
            }
            assert(r.deep_view() =~= known.drop_last().push(known.last().push(c)));
        } else {
            let mut word = String::new();
            word.push(c);
            assert(word@ =~= seq![c]);
            r.push(word);
            assert(r.deep_view() =~= known.push(seq![c]));
            in_word = true;
        }
    }
    assert(s@.take(s@.len() as int) =~= s@);
    r
}

/// The parts one after another with `sep` between neighbours.
pub fn join_texts(parts: &Vec<String>, sep: &str) -> (r: String)
    ensures
        r@ == join(parts.deep_view(), sep@),
{
    let mut r = String::new();
    let mut i: usize = 0;
    let ghost all = parts.deep_view();
    while i < parts.len()
        invariant
            i <= parts@.len(),
            all == parts.deep_view(),
            r@ == join(all.take(i as int), sep@),
        decreases parts@.len() - i,
    {
        if i > 0 {
            r.append(sep);
        }
        r.append(parts[i].as_str());
        proof {
            assert(all.take(i + 1).drop_last() =~= all.take(i as int));
            if i == 0 {
                assert(r@ =~= all[0]);
            }
        }
        i += 1;
    }
    assert(all.take(all.len() as int) =~= all);
    r
}

/// The words of a text with one space between neighbours.
pub fn collapse(s: &str) -> (r: String)
    ensures
        r@ == collapsed(s@),
{
    proof {
        reveal_strlit(" ");
        assert(" "@ =~= seq![' ']);
    }
    join_texts(&split_words(s), " ")
}

/// All the parts one after another.
pub fn concat_texts(parts: &Vec<String>) -> (r: String)
    ensures
        r@ == parts.deep_view().flatten(),
{
    let mut r = String::new();
    let mut i: usize = 0;
    let ghost all = parts.deep_view();
    assert(all.take(0) =~= seq![]);
    while i < parts.len()
        invariant
            i <= parts@.len(),
            all == parts.deep_view(),
            r@ == all.take(i as int).flatten(),
        decreases parts@.len() - i,
    {
        r.append(parts[i].as_str());
        proof {
            assert(all.take(i + 1) =~= all.take(i as int).push(all[i as int]));
            all.take(i as int).lemma_flatten_push(all[i as int]);
        }
        i += 1;
    }
    assert(all.take(all.len() as int) =~= all);
    r
}

/// The text without white space at either end.
pub fn trim(s: &str) -> (r: String)
    ensures
        r@ == trimmed(s@),
{
    let chars = chars_of(s);
    let mut from: usize = 0;
    assert(s@.skip(0) =~= s@);
    while from < chars.len() && is_white_space(chars[from])
        invariant
            from <= chars@.len(),
            chars@ == s@,
            trimmed_start(s@.skip(from as int)) == trimmed_start(s@),
        decreases chars@.len() - from,
    {
        assert(s@.skip(from as int).drop_first() =~= s@.skip(from + 1));
        from += 1;
    }
    let ghost start = s@.skip(from as int);
    assert(trimmed_start(s@) == start);
    let mut to: usize = chars.len();
    assert(start.take(to - from) =~= start);
    while to > from && is_white_space(chars[to - 1])
        invariant
            from <= to <= chars@.len(),
            chars@ == s@,
            start == s@.skip(from as int),
            trimmed_end(start.take(to - from)) == trimmed_end(start),
        decreases to,
    {
        assert(start.take(to - from).drop_last() =~= start.take(to - from - 1));
        to -= 1;
    }
    assert(start.take(to - from) =~= s@.subrange(from as int, to as int));
    text_from(&chars, from, to)
}

/// The text without the white space that it ends with.
pub fn trim_end(s: &str) -> (r: String)
    ensures
        r@ == trimmed_end(s@),
{
    let chars = chars_of(s);
    let mut to: usize = chars.len();
    assert(s@.take(to as int) =~= s@);
    while to > 0 && is_white_space(chars[to - 1])
        invariant
            to <= chars@.len(),
            chars@ == s@,
            trimmed_end(s@.take(to as int)) == trimmed_end(s@),
        decreases to,
    {
        assert(s@.take(to as int).drop_last() =~= s@.take(to - 1));
        to -= 1;
    }
    assert(s@.take(to as int) =~= s@.subrange(0, to as int));
    text_from(&chars, 0, to)
}

/// The text without the characters of `set` that it begins with.
pub fn trim_start_set(s: &str, set: &str) -> (r: String)
    ensures
        r@ == without_leading(s@, set@),
{
    let chars = chars_of(s);
    let members = chars_of(set);
    let mut from: usize = 0;
    assert(s@.skip(0) =~= s@);
    while from < chars.len() && holds_char(&members, chars[from])
        invariant
            from <= chars@.len(),
            chars@ == s@,
            members@ == set@,
            without_leading(s@.skip(from as int), set@) == without_leading(s@, set@),
        decreases chars@.len() - from,
    {
        assert(s@.skip(from as int).drop_first() =~= s@.skip(from + 1));
        from += 1;
    }
    assert(s@.skip(from as int) =~= s@.subrange(from as int, s@.len() as int));
    text_from(&chars, from, chars.len())
}

/// Whether a character is among those given.
fn holds_char(chars: &Vec<char>, c: char) -> (r: bool)
    ensures
        r == chars@.contains(c),
{
    let mut i: usize = 0;
    while i < chars.len()
        invariant
            i <= chars@.len(),
            forall|j: int| 0 <= j < i ==> chars@[j] != c,
        decreases chars@.len() - i,
    {
        if chars[i] == c {
            return true;
        }
        i += 1;
    }
    false
}

/// The first `n` characters, or the whole text where it is shorter.
pub fn first_chars(s: &str, n: usize) -> (r: String)
    ensures
        r@ == at_most(s@, n as nat),
{
    let chars = chars_of(s);
    if chars.len() <= n {
        assert(s@ =~= s@.subrange(0, s@.len() as int));
        text_from(&chars, 0, chars.len())
    } else {
        assert(s@.take(n as int) =~= s@.subrange(0, n as int));
        text_from(&chars, 0, n)
    }
}

/// What follows `prefix` in a text that begins with it.
pub fn strip_prefix(s: &str, prefix: &str) -> (r: Option<String>)
    ensures
        r.deep_view() == after_prefix(s@, prefix@),
{
    let chars = chars_of(s);
    let head = chars_of(prefix);
    if head.len() > chars.len() {
        return None;
    }
    let mut i: usize = 0;
    while i < head.len()
        invariant
            i <= head@.len() <= chars@.len(),
            chars@ == s@,
            head@ == prefix@,
            forall|j: int| 0 <= j < i ==> s@[j] == prefix@[j],
        decreases head@.len() - i,
    {
        if chars[i] != head[i] {
            return None;
        }
        i += 1;
    }
    assert(prefix@ =~= s@.take(prefix@.len() as int));
    assert(prefix@.is_prefix_of(s@));
    assert(s@.skip(i as int) =~= s@.subrange(i as int, s@.len() as int));
    Some(text_from(&chars, i, chars.len()))
}

/// Whether a text begins with another.
pub fn starts_with(s: &str, prefix: &str) -> (r: bool)
    ensures
        r == prefix@.is_prefix_of(s@),
{
    strip_prefix(s, prefix).is_some()
}

/// Whether a text ends with another.
pub fn ends_with(s: &str, suffix: &str) -> (r: bool)
    ensures
        r == suffix@.is_suffix_of(s@),
{
    let chars = chars_of(s);
    let tail = chars_of(suffix);
    if tail.len() > chars.len() {
        return false;
    }
    let total: usize = chars.len();
    let offset: usize = total - tail.len();
    let mut i: usize = 0;
    while i < tail.len()
        invariant
            total == chars@.len(),
            i <= tail@.len() <= chars@.len(),
            offset == chars@.len() - tail@.len(),
            chars@ == s@,
            tail@ == suffix@,
            forall|j: int| 0 <= j < i ==> s@[offset + j] == #[trigger] suffix@[j],
        decreases tail@.len() - i,
    {
        if chars[offset + i] != tail[i] {
            assert(s@.subrange(offset as int, s@.len() as int)[i as int] != suffix@[i as int]);
            return false;
        }
        i += 1;
    }
    assert(suffix@ =~= s@.subrange(offset as int, s@.len() as int));
    true
}

/// Whether a text stands somewhere in another.
pub fn contains_text(s: &str, needle: &str) -> (r: bool)
    ensures
        r == occurs_in(needle@, s@),
{
    let chars = chars_of(s);
    let sought = chars_of(needle);
    if sought.len() > chars.len() {
        return false;
    }
    let total: usize = chars.len();
    let last: usize = total - sought.len();
    let mut i: usize = 0;
    while i <= last
        invariant
            total == chars@.len(),
            last == chars@.len() - sought@.len(),
            i <= last + 1,
            chars@ == s@,
            sought@ == needle@,
            forall|k: int| 0 <= k < i ==> !stands_at(needle@, s@, k),
        decreases last + 1 - i,
    {
        let mut j: usize = 0;
        while j < sought.len() && chars[i + j] == sought[j]
            invariant
                total == chars@.len(),
                i <= last,
                last == chars@.len() - sought@.len(),
                j <= sought@.len(),
                chars@ == s@,
                sought@ == needle@,
                forall|k: int| 0 <= k < j ==> s@[i + k] == #[trigger] needle@[k],
            decreases sought@.len() - j,
        {
            j += 1;
        }
        if j == sought.len() {
            assert(s@.subrange(i as int, i + needle@.len()) =~= needle@);
            assert(stands_at(needle@, s@, i as int));
            return true;
        }
        assert(!stands_at(needle@, s@, i as int)) by {
            if stands_at(needle@, s@, i as int) {
                assert(s@.subrange(i as int, i + needle@.len())[j as int] == s@[i + j]);
            }
        }
        i += 1;
    }
    false
}

/// The text with each form feed made a line feed.
pub fn replace_form_feeds(s: &str) -> (r: String)
    ensures
        r@ == pages_as_lines(s@),
{
    let mut r = String::new();
    assert(r@ =~= pages_as_lines(s@.take(0)));
    for c in it: s.chars()
        invariant
            r@ == pages_as_lines(s@.take(it.index() as int)),
            it.seq() == s@,
    {
        if c == '\u{c}' {
            r.push('\n');
        } else {
            r.push(c);
        }
        assert(r@ =~= pages_as_lines(s@.take(it.index() + 1)));
    }
    assert(s@.take(s@.len() as int) =~= s@);
    r
}

/// A stretch without line feeds that a line feed or the end follows.
pub proof fn lemma_line_feed(s: Seq<char>, n: int)
    requires
        0 <= n <= s.len(),
        forall|k: int| 0 <= k < n ==> s[k] != '\n',
        n < s.len() ==> s[n] == '\n',
    ensures
        line_feed(s) == n,
    decreases s.len(),
{
    if n > 0 {
        let rest = s.drop_first();
        assert forall|k: int| 0 <= k < n - 1 implies rest[k] != '\n' by {
            assert(rest[k] == s[k + 1]);
        }
        lemma_line_feed(rest, n - 1);
    }
}

/// The lines of a text.
pub fn split_lines(s: &str) -> (r: Vec<String>)
    ensures
        r.deep_view() == lines(s@),
{
    let chars = chars_of(s);
    let total: usize = chars.len();
    let mut r: Vec<String> = Vec::new();
    let mut from: usize = 0;
    let mut at: usize = 0;
    assert(s@.skip(0) =~= s@);
    assert(r.deep_view() + lines(s@.skip(0)) =~= lines(s@));
    while at < total
        invariant
            total == chars@.len(),
            chars@ == s@,
            from <= at <= total,
            forall|k: int| from <= k < at ==> s@[k] != '\n',
            r.deep_view() + lines(s@.skip(from as int)) == lines(s@),
        decreases total - at,
    {
        if chars[at] == '\n' {
            let ghost rest = s@.skip(from as int);
            let ghost known = r.deep_view();
            proof {
                assert forall|k: int| 0 <= k < at - from implies rest[k] != '\n' by {
                    assert(rest[k] == s@[from + k]);
                }
                lemma_line_feed(rest, at - from);
                assert(rest.skip(at - from + 1) =~= s@.skip(at + 1));
                assert(rest.take(at - from) =~= s@.subrange(from as int, at as int));
            }
            let to: usize = if at > from && chars[at - 1] == '\r' {
                at - 1
            } else {
                at
            };
            let line = text_from(&chars, from, to);
            assert(line@ =~= without_carriage_return(rest.take(at - from)));
            let ghost tail = lines(s@.skip(at + 1));
            assert(lines(rest) == seq![line@] + tail);
            r.push(line);
            assert(r.deep_view() + tail =~= known + (seq![line@] + tail));
            from = at + 1;
        }
        at += 1;
    }
    if from < total {
        let ghost rest = s@.skip(from as int);
        let ghost known = r.deep_view();
        proof {
            assert forall|k: int| 0 <= k < rest.len() implies rest[k] != '\n' by {
                assert(rest[k] == s@[from + k]);
            }
            lemma_line_feed(rest, rest.len() as int);
            assert(rest =~= s@.subrange(from as int, total as int));
        }
        r.push(text_from(&chars, from, total));
        assert(r.deep_view() =~= known + seq![rest]);
    } else {
        assert(r.deep_view() + lines(s@.skip(from as int)) =~= r.deep_view());
    }
    r
}

/// The decimal numeral of `n`.
pub fn decimal_text(n: usize) -> (r: String)
    ensures
        r@ == decimal(n as nat),
    decreases n,
{
    let mut r = if n < 10 {
        String::new()
    } else {
        decimal_text(n / 10)
    };
    r.push(((n % 10) as u8 + 48) as char);
    assert(r@ =~= decimal(n as nat));
    r
}

/// `n` copies of `c`.
pub fn repeat_char(c: char, n: usize) -> (r: String)
    ensures
        r@ == repeated(c, n as nat),
{
    let mut r = String::new();
    let mut i: usize = 0;
    assert(r@ =~= repeated(c, 0));
    while i < n
        invariant
            i <= n,
            r@ == repeated(c, i as nat),
        decreases n - i,
    {
        r.push(c);
        assert(r@ =~= repeated(c, (i + 1) as nat));
        i += 1;
    }
    r
}

/// Whether `a` comes before `b` or is the same text.
pub fn is_text_le(a: &str, b: &str) -> (r: bool)
    ensures
        r == text_le(a@, b@),
{
    let x = chars_of(a);
    let y = chars_of(b);
    let mut i: usize = 0;
    assert(a@.skip(0) =~= a@);
    assert(b@.skip(0) =~= b@);
    while i < x.len()
        invariant
            x@ == a@,
            y@ == b@,
            i <= x@.len(),
            i <= y@.len(),
            text_le(a@.skip(i as int), b@.skip(i as int)) == text_le(a@, b@),
        decreases x@.len() - i,
    {
        if i >= y.len() {
            return false;
        }
        if x[i] != y[i] {
            return x[i] < y[i];
        }
        assert(a@.skip(i as int).drop_first() =~= a@.skip(i + 1));
        assert(b@.skip(i as int).drop_first() =~= b@.skip(i + 1));
        i += 1;
    }
    true
}

/// A boundary of valid UTF-8 is one of each prefix that ends on a boundary.
proof fn lemma_boundary_in_prefix(bytes: Seq<u8>, i: int, end: int)
    requires
        valid_utf8(bytes),
        0 <= i <= end <= bytes.len(),
        is_char_boundary(bytes, i),
        is_char_boundary(bytes, end),
    ensures
        is_char_boundary(bytes.subrange(0, end), i),
{
    let head = bytes.subrange(0, end);
    valid_utf8_split(bytes, end);
    if i == end || i == 0 {
        is_char_boundary_start_end_of_seq(head);
    } else {
        is_char_boundary_iff_not_is_continuation_byte(bytes, i);
        is_char_boundary_iff_not_is_continuation_byte(head, i);
    }
}

/// The number of bytes of a text in UTF-8.
pub fn bytes_len(s: &str) -> (r: usize)
    ensures
        r == byte_len(s@),
{
    s.as_bytes().len()
}

/// The characters of a text between two byte offsets.
pub fn slice_bytes(s: &str, from: usize, to: usize) -> (r: String)
    requires
        span_in(s@, (from, to)),
    ensures
        r@ == byte_slice(s@, from as int, to as int),
{
    let ghost all = encode_utf8(s@);
    proof {
        encode_utf8_valid_utf8(s@);
        lemma_boundary_in_prefix(all, from as int, to as int);
        encode_utf8_decode_utf8(s@);
    }
    let head = s.split_at(to).0;
    assert(encode_utf8(head@) == all.subrange(0, to as int));
    let middle = head.split_at(from).1;
    proof {
        assert(encode_utf8(middle@) =~= all.subrange(from as int, to as int));
        encode_utf8_decode_utf8(middle@);
    }
    middle.to_owned()
}

} // verus!
