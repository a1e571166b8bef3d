//! Laws of plain text.

use crate::text::{
    after_prefix, ascii_alphanumeric, ascii_lower, ascii_lowered, ascii_raised, ascii_upper,
    at_most, boundary, byte_len, byte_slice, collapsed, decimal, digit, join, lemma_filter_push,
    lemma_line_feed, lemma_words_nonempty, lines, normalized, occurs_in, pages_as_lines, repeated,
    same_ignoring_case, span_in, stands_at, trimmed, trimmed_end, trimmed_start, white_space,
    words,
};
use vstd::prelude::*;
use vstd::utf8::*;

verus! {

/// A text with characters, none of them white space.
pub open spec fn is_word(s: Seq<char>) -> bool {
    s.len() > 0 && forall|i: int| 0 <= i < s.len() ==> !white_space(#[trigger] s[i])
}

/// Each word of a text has characters, none of them white space.
pub proof fn law_words_are_words(s: Seq<char>, i: int)
    requires
        0 <= i < words(s).len(),
    ensures
        is_word(words(s)[i]),
    decreases s.len(),
{
    let before = s.drop_last();
    let c = s.last();
    if white_space(c) {
        law_words_are_words(before, i);
    } else if before.len() > 0 && !white_space(before.last()) {
        lemma_words_nonempty(before);
        if i < words(before).len() - 1 {
            law_words_are_words(before, i);
        } else {
            law_words_are_words(before, words(before).len() - 1);
            let grown = words(before).last().push(c);
            assert(words(s)[i] == grown);
            assert forall|k: int| 0 <= k < grown.len() implies !white_space(#[trigger] grown[k]) by {
                if k < grown.len() - 1 {
                    assert(grown[k] == words(before).last()[k]);
                }
            }
        }
    } else if i < words(before).len() {
        law_words_are_words(before, i);
    }
}

/// A word after white space, or at the beginning, is one more word.
proof fn lemma_word_added(s: Seq<char>, word: Seq<char>)
    requires
        s.len() == 0 || white_space(s.last()),
        is_word(word),
    ensures
        words(s + word) == words(s).push(word),
    decreases word.len(),
{
    let whole = s + word;
    let c = word.last();
    assert(whole.last() == c);
    assert(!white_space(word[word.len() - 1]));
    assert(whole.drop_last() =~= s + word.drop_last());
    if word.len() == 1 {
        assert(whole.drop_last() =~= s);
        assert(word =~= seq![c]);
    } else {
        let shorter = word.drop_last();
        assert forall|i: int| 0 <= i < shorter.len() implies !white_space(#[trigger] shorter[i]) by {
            assert(shorter[i] == word[i]);
        }
        lemma_word_added(s, shorter);
        assert(whole.drop_last().last() == shorter[shorter.len() - 1]);
        assert(shorter.push(c) =~= word);
        assert(words(whole) =~= words(s).push(word));
    }
}

/// The words of words with one space between neighbours.
proof fn lemma_words_joined(parts: Seq<Seq<char>>)
    requires
        forall|i: int| 0 <= i < parts.len() ==> is_word(#[trigger] parts[i]),
    ensures
        words(join(parts, seq![' '])) == parts,
    decreases parts.len(),
{
    if parts.len() == 0 {
        assert(words(seq![]) =~= parts);
    } else if parts.len() == 1 {
        lemma_word_added(seq![], parts[0]);
        assert(Seq::<char>::empty() + parts[0] =~= parts[0]);
        assert(words(parts[0]) =~= parts);
    } else {
        let shorter = parts.drop_last();
        assert forall|i: int| 0 <= i < shorter.len() implies is_word(#[trigger] shorter[i]) by {
            assert(shorter[i] == parts[i]);
        }
        lemma_words_joined(shorter);
        let head = join(shorter, seq![' ']);
        let spaced = head + seq![' '];
        assert(spaced.drop_last() =~= head);
        assert(words(spaced) == shorter);
        assert(is_word(parts[parts.len() - 1]));
        lemma_word_added(spaced, parts.last());
        assert(shorter.push(parts.last()) =~= parts);
    }
}

/// Leaving one space between the words of a text leaves the words.
pub proof fn law_collapsed_keeps_words(s: Seq<char>)
    ensures
        words(collapsed(s)) == words(s),
{
    assert forall|i: int| 0 <= i < words(s).len() implies is_word(#[trigger] words(s)[i]) by {
        law_words_are_words(s, i);
    }
    lemma_words_joined(words(s));
}

/// Collapsing a text twice is collapsing it once.
pub proof fn law_collapsed_idempotent(s: Seq<char>)
    ensures
        collapsed(collapsed(s)) == collapsed(s),
{
    law_collapsed_keeps_words(s);
}

/// Words joined by spaces begin and end with characters of words.
proof fn lemma_joined_ends(parts: Seq<Seq<char>>)
    requires
        parts.len() > 0,
        forall|i: int| 0 <= i < parts.len() ==> is_word(#[trigger] parts[i]),
    ensures
        join(parts, seq![' ']).len() > 0,
        !white_space(join(parts, seq![' '])[0]),
        !white_space(join(parts, seq![' ']).last()),
    decreases parts.len(),
{
    assert(is_word(parts[0]) && is_word(parts[parts.len() - 1]));
    let last = parts.last();
    assert(!white_space(last[last.len() - 1]));
    assert(!white_space(parts[0][0]));
    if parts.len() > 1 {
        let shorter = parts.drop_last();
        assert forall|i: int| 0 <= i < shorter.len() implies is_word(#[trigger] shorter[i]) by {
            assert(shorter[i] == parts[i]);
        }
        lemma_joined_ends(shorter);
    }
}

/// Words joined by spaces hold no white space but spaces.
proof fn lemma_joined_characters(parts: Seq<Seq<char>>, k: int)
    requires
        forall|i: int| 0 <= i < parts.len() ==> is_word(#[trigger] parts[i]),
        0 <= k < join(parts, seq![' ']).len(),
    ensures
        white_space(join(parts, seq![' '])[k]) ==> join(parts, seq![' '])[k] == ' ',
    decreases parts.len(),
{
    assert(is_word(parts[parts.len() - 1]));
    if parts.len() > 1 {
        let shorter = parts.drop_last();
        assert forall|i: int| 0 <= i < shorter.len() implies is_word(#[trigger] shorter[i]) by {
            assert(shorter[i] == parts[i]);
        }
        let head = join(shorter, seq![' ']);
        if k < head.len() {
            lemma_joined_characters(shorter, k);
        } else if k > head.len() {
            assert(join(parts, seq![' '])[k] == parts.last()[k - head.len() - 1]);
        }
    }
}

/// A collapsed text holds no white space but spaces.
pub proof fn law_collapsed_characters(s: Seq<char>, k: int)
    requires
        0 <= k < collapsed(s).len(),
    ensures
        white_space(collapsed(s)[k]) ==> collapsed(s)[k] == ' ',
{
    assert forall|i: int| 0 <= i < words(s).len() implies is_word(#[trigger] words(s)[i]) by {
        law_words_are_words(s, i);
    }
    lemma_joined_characters(words(s), k);
}

/// A collapsed text has no white space at its ends.
pub proof fn law_collapsed_is_trimmed(s: Seq<char>)
    ensures
        trimmed(collapsed(s)) == collapsed(s),
{
    if words(s).len() > 0 {
        assert forall|i: int| 0 <= i < words(s).len() implies is_word(#[trigger] words(s)[i]) by {
            law_words_are_words(s, i);
        }
        lemma_joined_ends(words(s));
    }
}

/// A text without its leading white space does not begin with white space.
proof fn lemma_trimmed_start(s: Seq<char>)
    ensures
        trimmed_start(s).len() > 0 ==> !white_space(trimmed_start(s)[0]),
    decreases s.len(),
{
    if s.len() > 0 && white_space(s[0]) {
        lemma_trimmed_start(s.drop_first());
    }
}

/// A text without its trailing white space begins the text, and does not end
/// with white space.
proof fn lemma_trimmed_end(s: Seq<char>)
    ensures
        trimmed_end(s).len() <= s.len(),
        trimmed_end(s) == s.take(trimmed_end(s).len() as int),
        trimmed_end(s).len() > 0 ==> !white_space(trimmed_end(s).last()),
    decreases s.len(),
{
    if s.len() > 0 && white_space(s.last()) {
        lemma_trimmed_end(s.drop_last());
        let n = trimmed_end(s).len() as int;
        assert(s.drop_last().take(n) =~= s.take(n));
    } else {
        assert(s.take(s.len() as int) =~= s);
    }
}

/// A trimmed text has no white space at its ends.
pub proof fn law_trimmed_ends(s: Seq<char>)
    ensures
        trimmed(s).len() > 0 ==> !white_space(trimmed(s)[0]) && !white_space(trimmed(s).last()),
{
    lemma_trimmed_start(s);
    lemma_trimmed_end(trimmed_start(s));
}

/// Trimming a text twice is trimming it once.
pub proof fn law_trimmed_idempotent(s: Seq<char>)
    ensures
        trimmed(trimmed(s)) == trimmed(s),
{
    law_trimmed_ends(s);
}

/// Trimming does not lengthen a text.
pub proof fn law_trimmed_no_longer(s: Seq<char>)
    ensures
        trimmed_start(s).len() <= s.len(),
        trimmed_end(s).len() <= s.len(),
        trimmed(s).len() <= s.len(),
    decreases s.len(),
{
    lemma_trimmed_end(s);
    lemma_trimmed_end(trimmed_start(s));
    if s.len() > 0 && white_space(s[0]) {
        law_trimmed_no_longer(s.drop_first());
    }
}

/// Filtering items that are all kept.
proof fn lemma_filter_all<A>(s: Seq<A>, keep: spec_fn(A) -> bool)
    requires
        forall|i: int| 0 <= i < s.len() ==> keep(#[trigger] s[i]),
    ensures
        s.filter(keep) == s,
    decreases s.len(),
{
    reveal(Seq::filter);
    if s.len() > 0 {
        let head = s.drop_last();
        assert forall|i: int| 0 <= i < head.len() implies keep(#[trigger] head[i]) by {
            assert(head[i] == s[i]);
        }
        lemma_filter_all(head, keep);
        assert(keep(s[s.len() - 1]));
        assert(head.push(s.last()) =~= s);
    } else {
        assert(s.filter(keep) =~= s);
    }
}

/// The form in which texts are compared holds ASCII letters in lower case and
/// digits alone.
pub proof fn law_normalized_characters(s: Seq<char>, i: int)
    requires
        0 <= i < normalized(s).len(),
    ensures
        ascii_alphanumeric(normalized(s)[i]),
        ascii_lower(normalized(s)[i]) == normalized(s)[i],
{
    let keep = |c: char| ascii_alphanumeric(c);
    broadcast use vstd::seq_lib::group_filter_ensures;

    let c = s.filter(keep)[i];
    assert(keep(c));
}

/// Normalizing a text twice is normalizing it once.
pub proof fn law_normalized_idempotent(s: Seq<char>)
    ensures
        normalized(normalized(s)) == normalized(s),
{
    let once = normalized(s);
    let keep = |c: char| ascii_alphanumeric(c);
    assert forall|i: int| 0 <= i < once.len() implies keep(#[trigger] once[i]) && ascii_lower(
        once[i],
    ) == once[i] by {
        law_normalized_characters(s, i);
    }
    lemma_filter_all(once, keep);
    assert(ascii_lowered(once) =~= once);
}

/// Two texts that differ in nothing but the case of ASCII letters are
/// normalized to the same text.
pub proof fn law_normalized_ignores_case(a: Seq<char>, b: Seq<char>)
    requires
        same_ignoring_case(a, b),
    ensures
        normalized(a) == normalized(b),
    decreases a.len(),
{
    reveal(Seq::filter);
    assert(ascii_lowered(a).len() == a.len() && ascii_lowered(b).len() == b.len());
    if a.len() > 0 {
        let keep = |c: char| ascii_alphanumeric(c);
        let (head_a, head_b) = (a.drop_last(), b.drop_last());
        assert(ascii_lowered(a)[a.len() - 1] == ascii_lowered(b)[b.len() - 1]);
        assert(ascii_lower(a.last()) == ascii_lower(b.last()));
        assert forall|i: int| 0 <= i < head_a.len() implies ascii_lowered(head_a)[i]
            == ascii_lowered(head_b)[i] by {
            assert(ascii_lowered(a)[i] == ascii_lowered(b)[i]);
        }
        assert(ascii_lowered(head_a) =~= ascii_lowered(head_b));
        law_normalized_ignores_case(head_a, head_b);
        assert(keep(a.last()) == keep(b.last()));
        if keep(a.last()) {
            assert(normalized(a) =~= normalized(head_a).push(ascii_lower(a.last())));
            assert(normalized(b) =~= normalized(head_b).push(ascii_lower(b.last())));
        }
    } else {
        assert(a =~= b);
    }
}

/// The number that decimal digits stand for.
pub open spec fn numeral_value(s: Seq<char>) -> nat
    decreases s.len(),
{
    if s.len() == 0 {
        0
    } else {
        numeral_value(s.drop_last()) * 10 + (s.last() as nat - 48) as nat
    }
}

/// The decimal numeral of a number stands for it.
pub proof fn law_decimal_value(n: nat)
    ensures
        numeral_value(decimal(n)) == n,
    decreases n,
{
    reveal_with_fuel(numeral_value, 2);
    if n >= 10 {
        law_decimal_value(n / 10);
        assert(decimal(n).drop_last() =~= decimal(n / 10));
        assert(digit(n % 10) as nat == n % 10 + 48);
    } else {
        assert(decimal(n).drop_last() =~= seq![]);
        assert(digit(n) as nat == n + 48);
    }
}

/// A text that has characters but no line feeds, and does not end with a
/// carriage return.
pub open spec fn is_line(s: Seq<char>) -> bool {
    s.len() > 0 && !s.contains('\n') && s.last() != '\r'
}

/// Joining the first part with the others.
pub proof fn lemma_join_first(parts: Seq<Seq<char>>, sep: Seq<char>)
    requires
        parts.len() > 1,
    ensures
        join(parts, sep) == parts[0] + sep + join(parts.drop_first(), sep),
    decreases parts.len(),
{
    if parts.len() == 2 {
        assert(join(parts.drop_last(), sep) == parts[0]);
        assert(join(parts.drop_first(), sep) == parts[1]);
    } else {
        lemma_join_first(parts.drop_last(), sep);
        assert(parts.drop_first().drop_last() =~= parts.drop_last().drop_first());
        assert(join(parts, sep) =~= parts[0] + sep + join(parts.drop_first(), sep));
    }
}

/// Lines that are joined by line feeds are the lines of the whole.
pub proof fn law_lines_of_joined(parts: Seq<Seq<char>>)
    requires
        forall|i: int| 0 <= i < parts.len() ==> is_line(#[trigger] parts[i]),
    ensures
        lines(join(parts, seq!['\n'])) == parts,
    decreases parts.len(),
{
    let whole = join(parts, seq!['\n']);
    if parts.len() == 0 {
        assert(lines(whole) =~= parts);
    } else {
        let first = parts[0];
        assert(is_line(first));
        assert forall|k: int| 0 <= k < first.len() implies first[k] != '\n' by {
            assert(first.contains(first[k]));
        }
        if parts.len() == 1 {
            lemma_line_feed(whole, whole.len() as int);
            assert(lines(whole) == seq![first]);
            assert(seq![first] =~= parts);
        } else {
            let others = parts.drop_first();
            lemma_join_first(parts, seq!['\n']);
            let n = first.len() as int;
            assert forall|k: int| 0 <= k < n implies whole[k] != '\n' by {
                assert(whole[k] == first[k]);
            }
            assert(whole[n] == '\n');
            lemma_line_feed(whole, n);
            assert(whole.take(n) =~= first);
            assert(whole.skip(n + 1) =~= join(others, seq!['\n']));
            assert forall|i: int| 0 <= i < others.len() implies is_line(#[trigger] others[i]) by {
                assert(others[i] == parts[i + 1]);
            }
            law_lines_of_joined(others);
            assert(lines(whole) == seq![first] + others);
            assert(seq![first] + others =~= parts);
        }
    }
}

/// A text has no more characters than bytes.
pub proof fn law_characters_are_bytes(s: Seq<char>)
    ensures
        s.len() <= byte_len(s),
    decreases s.len(),
{
    if s.len() > 0 {
        law_characters_are_bytes(s.drop_first());
    }
}

/// The bytes of two texts one after another.
pub proof fn lemma_encoded_concat(a: Seq<char>, b: Seq<char>)
    ensures
        encode_utf8(a + b) == encode_utf8(a) + encode_utf8(b),
    decreases a.len(),
{
    if a.len() == 0 {
        assert(a + b =~= b);
        assert(encode_utf8(a) + encode_utf8(b) =~= encode_utf8(b));
    } else {
        let rest = a.drop_first();
        assert((a + b).drop_first() =~= rest + b);
        lemma_encoded_concat(rest, b);
        assert(encode_utf8(a + b) =~= encode_utf8(a) + encode_utf8(b));
    }
}

/// The characters between the byte offsets of two characters.
pub proof fn lemma_slice_of_chars(s: Seq<char>, from: int, to: int)
    requires
        0 <= from <= to <= s.len(),
    ensures
        byte_slice(s, byte_len(s.take(from)) as int, byte_len(s.take(to)) as int) == s.subrange(
            from,
            to,
        ),
{
    let (head, middle, tail) = (s.take(from), s.subrange(from, to), s.skip(to));
    assert(s.take(to) =~= head + middle);
    assert(s =~= s.take(to) + tail);
    lemma_encoded_concat(head, middle);
    lemma_encoded_concat(s.take(to), tail);
    assert(encode_utf8(s).subrange(
        byte_len(head) as int,
        byte_len(s.take(to)) as int,
    ) =~= encode_utf8(middle));
    encode_utf8_decode_utf8(middle);
}

/// A boundary is the byte offset of a character.
proof fn lemma_boundary_of_char(s: Seq<char>, i: int) -> (k: int)
    requires
        boundary(s, i),
    ensures
        0 <= k <= s.len(),
        byte_len(s.take(k)) == i,
{
    let bytes = encode_utf8(s);
    encode_utf8_valid_utf8(s);
    encode_utf8_decode_utf8(s);
    decode_utf8_split(bytes, i);
    valid_utf8_split(bytes, i);
    let head = decode_utf8(bytes.subrange(0, i));
    decode_utf8_encode_utf8(bytes.subrange(0, i));
    assert(s.take(head.len() as int) =~= head);
    head.len() as int
}

/// Making small letters capitals keeps the number of bytes.
proof fn lemma_raised_bytes(s: Seq<char>)
    ensures
        byte_len(ascii_raised(s)) == byte_len(s),
    decreases s.len(),
{
    if s.len() > 0 {
        lemma_raised_bytes(s.drop_first());
        assert(ascii_raised(s).drop_first() =~= ascii_raised(s.drop_first()));
        assert(ascii_raised(s)[0] == ascii_upper(s[0]));
    }
}

/// Whether letters are small or capitals does not change what stands between
/// two byte offsets of a text, read without regard to their case.
pub proof fn law_slices_ignore_case(s: Seq<char>, span: (usize, usize))
    requires
        span_in(s, span),
    ensures
        ascii_lowered(byte_slice(ascii_raised(s), span.0 as int, span.1 as int)) == ascii_lowered(
            byte_slice(s, span.0 as int, span.1 as int),
        ),
{
    let raised = ascii_raised(s);
    let from = lemma_boundary_of_char(s, span.0 as int);
    let to = lemma_boundary_of_char(s, span.1 as int);
    if from > to {
        let between = s.subrange(to, from);
        assert(s.take(from) =~= s.take(to) + between);
        lemma_encoded_concat(s.take(to), between);
        law_characters_are_bytes(between);
    }
    assert(raised.take(from) =~= ascii_raised(s.take(from)));
    assert(raised.take(to) =~= ascii_raised(s.take(to)));
    lemma_raised_bytes(s.take(from));
    lemma_raised_bytes(s.take(to));
    lemma_slice_of_chars(s, from, to);
    lemma_slice_of_chars(raised, from, to);
    assert(ascii_lowered(raised.subrange(from, to)) =~= ascii_lowered(s.subrange(from, to)));
}

/// The words before white space and those after it are the words of the whole.
pub proof fn law_words_of_parts(before: Seq<char>, c: char, after: Seq<char>)
    requires
        white_space(c),
    ensures
        words(before.push(c) + after) == words(before) + words(after),
    decreases after.len(),
{
    let head = before.push(c);
    let whole = head + after;
    if after.len() == 0 {
        assert(whole =~= head);
        assert(head.drop_last() =~= before);
        assert(words(before) + words(after) =~= words(before));
    } else {
        let shorter = after.drop_last();
        let last = after.last();
        law_words_of_parts(before, c, shorter);
        assert(whole.drop_last() =~= head + shorter);
        assert(whole.last() == last);
        if !white_space(last) {
            if shorter.len() > 0 {
                assert((head + shorter).last() == shorter.last());
                if !white_space(shorter.last()) {
                    lemma_words_nonempty(shorter);
                    assert(words(before) + words(after) =~= words(whole));
                } else {
                    assert(words(before) + words(after) =~= words(whole));
                }
            } else {
                assert(head + shorter =~= head);
                assert(words(shorter) =~= seq![]);
                assert(words(before) + words(after) =~= words(whole));
            }
        }
    }
}

/// A text that is a word is its own only word.
pub proof fn law_words_of_a_word(word: Seq<char>)
    requires
        is_word(word),
    ensures
        words(word) == seq![word],
{
    lemma_word_added(seq![], word);
    assert(Seq::<char>::empty() + word =~= word);
    assert(words(word) =~= seq![word]);
}

/// Trimming takes white space from both ends of a text and nothing else.
pub proof fn law_trimming_takes_white_space(before: Seq<char>, body: Seq<char>, after: Seq<char>)
    requires
        forall|k: int| 0 <= k < before.len() ==> white_space(#[trigger] before[k]),
        forall|k: int| 0 <= k < after.len() ==> white_space(#[trigger] after[k]),
        body.len() > 0 ==> !white_space(body[0]) && !white_space(body.last()),
    ensures
        trimmed(before + body + after) == body,
        trimmed_end(body + after) == body,
    decreases before.len(),
{
    lemma_trimmed_after(body, after);
    if before.len() > 0 {
        let rest = before.drop_first();
        assert(white_space(before[0]));
        assert forall|k: int| 0 <= k < rest.len() implies white_space(#[trigger] rest[k]) by {
            assert(rest[k] == before[k + 1]);
        }
        law_trimming_takes_white_space(rest, body, after);
        assert((before + body + after).drop_first() =~= rest + body + after);
    } else {
        assert(before + body + after =~= body + after);
        if body.len() == 0 {
            assert(body + after =~= after);
            lemma_all_white(after);
        }
    }
}

/// White space at the end of a text is taken away.
proof fn lemma_trimmed_after(body: Seq<char>, after: Seq<char>)
    requires
        forall|k: int| 0 <= k < after.len() ==> white_space(#[trigger] after[k]),
        body.len() > 0 ==> !white_space(body.last()),
    ensures
        trimmed_end(body + after) == body,
    decreases after.len(),
{
    if after.len() > 0 {
        let rest = after.drop_last();
        assert(white_space(after[after.len() - 1]));
        assert forall|k: int| 0 <= k < rest.len() implies white_space(#[trigger] rest[k]) by {
            assert(rest[k] == after[k]);
        }
        lemma_trimmed_after(body, rest);
        assert((body + after).drop_last() =~= body + rest);
    } else {
        assert(body + after =~= body);
    }
}

/// Nothing is left of white space.
proof fn lemma_all_white(s: Seq<char>)
    requires
        forall|k: int| 0 <= k < s.len() ==> white_space(#[trigger] s[k]),
    ensures
        trimmed_start(s) == Seq::<char>::empty(),
        trimmed(s) == Seq::<char>::empty(),
    decreases s.len(),
{
    if s.len() > 0 {
        let rest = s.drop_first();
        assert(white_space(s[0]));
        assert forall|k: int| 0 <= k < rest.len() implies white_space(#[trigger] rest[k]) by {
            assert(rest[k] == s[k + 1]);
        }
        lemma_all_white(rest);
    } else {
        assert(s =~= seq![]);
    }
}

/// A line ends with its line feed, and a carriage return before that is no
/// part of it.
pub proof fn law_lines_of_parts(line: Seq<char>, rest: Seq<char>)
    requires
        !line.contains('\n'),
    ensures
        lines(line + seq!['\n'] + rest) == seq![
            if line.len() > 0 && line.last() == '\r' {
                line.drop_last()
            } else {
                line
            },
        ] + lines(rest),
        line.len() > 0 ==> lines(line) == seq![line],
        lines(Seq::<char>::empty()) == Seq::<Seq<char>>::empty(),
{
    let whole = line + seq!['\n'] + rest;
    let n = line.len() as int;
    assert forall|k: int| 0 <= k < n implies line[k] != '\n' by {
        assert(line.contains(line[k]));
    }
    assert forall|k: int| 0 <= k < n implies whole[k] != '\n' by {
        assert(whole[k] == line[k]);
    }
    assert(whole[n] == '\n');
    lemma_line_feed(whole, n);
    assert(whole.take(n) =~= line);
    assert(whole.skip(n + 1) =~= rest);
    lemma_line_feed(line, n);
}

/// Normalizing a text takes its characters one by one: an ASCII letter in
/// lower case, a digit as it is, and no other.
pub proof fn law_normalized_one_by_one(s: Seq<char>, c: char)
    ensures
        normalized(s.push(c)) == if 'a' <= c <= 'z' || '0' <= c <= '9' {
            normalized(s).push(c)
        } else if 'A' <= c <= 'Z' {
            normalized(s).push((c as u32 + 32) as char)
        } else {
            normalized(s)
        },
        normalized(Seq::<char>::empty()) == Seq::<char>::empty(),
{
    let keep = |c: char| ascii_alphanumeric(c);
    lemma_filter_push(s, c, keep);
    if ascii_alphanumeric(c) {
        assert(normalized(s.push(c)) =~= normalized(s).push(ascii_lower(c)));
    }
    reveal(Seq::filter);
    assert(normalized(Seq::<char>::empty()) =~= seq![]);
}

/// Texts are the same without regard to case if they have the same characters,
/// but for ASCII capitals in place of small letters.
pub proof fn law_same_but_for_case(a: Seq<char>, b: Seq<char>)
    ensures
        same_ignoring_case(a, b) <==> a.len() == b.len() && forall|i: int|
            0 <= i < a.len() ==> #[trigger] a[i] == b[i] || ('A' <= a[i] <= 'Z' && b[i] as u32
                == a[i] as u32 + 32) || ('A' <= b[i] <= 'Z' && a[i] as u32 == b[i] as u32 + 32),
{
    let (low_a, low_b) = (ascii_lowered(a), ascii_lowered(b));
    if same_ignoring_case(a, b) {
        assert(low_a.len() == a.len() && low_b.len() == b.len());
        assert forall|i: int| 0 <= i < a.len() implies #[trigger] a[i] == b[i] || ('A' <= a[i]
            <= 'Z' && b[i] as u32 == a[i] as u32 + 32) || ('A' <= b[i] <= 'Z' && a[i] as u32
            == b[i] as u32 + 32) by {
            assert(low_a[i] == low_b[i]);
        }
    }
    if a.len() == b.len() && forall|i: int|
        0 <= i < a.len() ==> #[trigger] a[i] == b[i] || ('A' <= a[i] <= 'Z' && b[i] as u32
            == a[i] as u32 + 32) || ('A' <= b[i] <= 'Z' && a[i] as u32 == b[i] as u32 + 32) {
        assert forall|i: int| 0 <= i < a.len() implies low_a[i] == low_b[i] by {
            assert(a[i] == b[i] || ('A' <= a[i] <= 'Z' && b[i] as u32 == a[i] as u32 + 32) || (
            'A' <= b[i] <= 'Z' && a[i] as u32 == b[i] as u32 + 32));
        }
        assert(low_a =~= low_b);
    }
}

/// A form feed is made a line feed, and each other character is left.
pub proof fn law_form_feeds_one_by_one(s: Seq<char>, i: int)
    requires
        0 <= i < s.len(),
    ensures
        pages_as_lines(s).len() == s.len(),
        pages_as_lines(s)[i] == if s[i] == '\u{c}' {
            '\n'
        } else {
            s[i]
        },
{
}

/// Parts are joined one by one, with the separator between neighbours.
pub proof fn law_one_more_part(parts: Seq<Seq<char>>, part: Seq<char>, sep: Seq<char>)
    ensures
        join(parts.push(part), sep) == if parts.len() > 0 {
            join(parts, sep) + sep + part
        } else {
            part
        },
        join(Seq::<Seq<char>>::empty(), sep) == Seq::<char>::empty(),
{
    assert(parts.push(part).drop_last() =~= parts);
}

/// The collapsed text has its words with one space between neighbours.
pub proof fn law_collapsed_words(s: Seq<char>)
    ensures
        collapsed(s) == join(words(s), seq![' ']),
{
}

/// White space is the ASCII kinds, the next line, the spaces of each width and
/// the two separators, and no letter, digit or mark of ASCII is among it.
pub proof fn law_white_space_characters(c: char)
    ensures
        white_space(c) <==> (c == '\t' || c == '\n' || c == '\u{b}' || c == '\u{c}' || c == '\r'
            || c == ' ' || c == '\u{85}' || c == '\u{a0}' || c == '\u{1680}' || (0x2000 <= c as u32
            && c as u32 <= 0x200a) || c == '\u{2028}' || c == '\u{2029}' || c == '\u{202f}' || c
            == '\u{205f}' || c == '\u{3000}'),
        '!' <= c <= '~' ==> !white_space(c),
{
}

/// What follows a prefix is the rest of the text, a text is found in one that
/// has it between two others, and the first characters of a text are those
/// that it begins with.
pub proof fn law_parts_are_found(before: Seq<char>, part: Seq<char>, after: Seq<char>)
    ensures
        after_prefix(part + after, part) == Some(after),
        occurs_in(part, before + part + after),
        forall|s: Seq<char>| #[trigger]
            after_prefix(s, part) matches Some(rest) ==> part + rest == s,
        at_most(part + after, part.len()) == part,
        at_most(part, part.len() + after.len()) == part,
{
    assert(part.is_prefix_of(part + after));
    assert((part + after).skip(part.len() as int) =~= after);
    assert((before + part + after).subrange(
        before.len() as int,
        (before.len() + part.len()) as int,
    ) =~= part);
    assert(stands_at(part, before + part + after, before.len() as int));
    assert forall|s: Seq<char>| #[trigger] after_prefix(s, part) matches Some(rest) implies part
        + after_prefix(s, part)->Some_0 == s by {
        assert(part + s.skip(part.len() as int) =~= s);
    }
    assert((part + after).take(part.len() as int) =~= part);
    if after.len() == 0 {
        assert(part + after =~= part);
    }
}

/// A text that is found in another stands there between two others.
pub proof fn law_found_parts_stand(part: Seq<char>, s: Seq<char>)
    ensures
        occurs_in(part, s) ==> exists|before: Seq<char>, after: Seq<char>|
            s == #[trigger] (before + part + after),
{
    if occurs_in(part, s) {
        let i = choose|i: int| stands_at(part, s, i);
        assert(s =~= s.take(i) + part + s.skip(i + part.len()));
    }
}

/// The numeral of a number has digits alone, and begins with a zero for zero
/// alone.
pub proof fn law_decimal_digits(n: nat)
    ensures
        decimal(n).len() > 0,
        forall|i: int| 0 <= i < decimal(n).len() ==> '0' <= #[trigger] decimal(n)[i] <= '9',
        n > 0 ==> decimal(n)[0] != '0',
        n == 0 ==> decimal(n) == seq!['0'],
    decreases n,
{
    if n >= 10 {
        law_decimal_digits(n / 10);
        assert(digit(n % 10) as nat == n % 10 + 48);
    } else {
        assert(digit(n) as nat == n + 48);
    }
}

/// Repeating a character once more adds it once.
pub proof fn law_repeated_characters(c: char, n: nat)
    ensures
        repeated(c, n + 1) == repeated(c, n).push(c),
        repeated(c, 0) == Seq::<char>::empty(),
{
    assert(repeated(c, n + 1) =~= repeated(c, n).push(c));
    assert(repeated(c, 0) =~= Seq::<char>::empty());
}

} // verus!
