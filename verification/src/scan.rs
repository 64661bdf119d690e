//! Reading texts: white space and trimming, prefixes and suffixes, words, and
//! the pieces of a text between separators.

use crate::text::byte_offset;
use crate::text::lemma_byte_offset_ends;
use crate::text::lemma_byte_offset_step;
use crate::text::lemma_chars_at_most_bytes;
use crate::text::lemma_encode_split;
use crate::text::slice_between;
use crate::text::utf8_width;
use vstd::prelude::*;
use vstd::std_specs::iter::IteratorSpec;
use vstd::utf8::encode_utf8;

verus! {

/// Whether `c` is white space: a character with the Unicode property
/// White_Space.
pub open spec fn is_white_space(c: char) -> bool {
    let code = c as u32;
    ||| 0x09 <= code <= 0x0D
    ||| code == 0x20
    ||| code == 0x85
    ||| code == 0xA0
    ||| code == 0x1680
    ||| 0x2000 <= code <= 0x200A
    ||| code == 0x2028
    ||| code == 0x2029
    ||| code == 0x202F
    ||| code == 0x205F
    ||| code == 0x3000
}

/// A text without the white space at its start.
pub open spec fn trim_start_of(text: Seq<char>) -> Seq<char>
    decreases text.len(),
{
    if text.len() > 0 && is_white_space(text[0]) {
        trim_start_of(text.drop_first())
    } else {
        text
    }
}

/// A text without the white space at its end.
pub open spec fn trim_end_of(text: Seq<char>) -> Seq<char>
    decreases text.len(),
{
    if text.len() > 0 && is_white_space(text.last()) {
        trim_end_of(text.drop_last())
    } else {
        text
    }
}

/// A text without the white space at either end.
pub open spec fn trimmed(text: Seq<char>) -> Seq<char> {
    trim_end_of(trim_start_of(text))
}

/// The number of words in a text: of the places where a character that is not
/// white space stands first or follows white space.
pub open spec fn word_count(text: Seq<char>) -> nat
    decreases text.len(),
{
    if text.len() == 0 {
        0
    } else {
        let n = text.len() - 1;
        let starts_word = !is_white_space(text[n]) && (n == 0 || is_white_space(text[n - 1]));
        word_count(text.drop_last()) + if starts_word {
            1nat
        } else {
            0nat
        }
    }
}

/// The pieces of a text between the occurrences of a separator; there is
/// always at least one.
pub open spec fn pieces_between(text: Seq<char>, separator: char) -> Seq<Seq<char>>
    decreases text.len(),
{
    if text.len() == 0 {
        seq![Seq::<char>::empty()]
    } else {
        let before = pieces_between(text.drop_last(), separator);
        if text.last() == separator {
            before.push(Seq::<char>::empty())
        } else {
            before.drop_last().push(before.last().push(text.last()))
        }
    }
}

/// A text without the run of `c` at its end.
pub open spec fn without_trailing(text: Seq<char>, c: char) -> Seq<char>
    decreases text.len(),
{
    if text.len() > 0 && text.last() == c {
        without_trailing(text.drop_last(), c)
    } else {
        text
    }
}

/// The index of the first `c` in a text, or the length of the text where it
/// has none.
pub open spec fn first_index_of(text: Seq<char>, c: char) -> int
    decreases text.len(),
{
    if text.len() == 0 {
        0
    } else if text[0] == c {
        0
    } else {
        1 + first_index_of(text.drop_first(), c)
    }
}

/// The first index of a character is where it stands and nothing before is
/// it.
pub proof fn lemma_first_index_of(text: Seq<char>, c: char, at: int)
    requires
        0 <= at <= text.len(),
        forall|i: int| 0 <= i < at ==> text[i] != c,
        at < text.len() ==> text[at] == c,
    ensures
        first_index_of(text, c) == at,
    decreases at,
{
    if at > 0 {
        let rest = text.drop_first();
        assert forall|i: int| 0 <= i < at - 1 implies rest[i] != c by {
            assert(rest[i] == text[i + 1]);
        }
        lemma_first_index_of(rest, c, at - 1);
    }
}

/// Splitting always gives at least one piece.
pub proof fn lemma_pieces_nonempty(text: Seq<char>, separator: char)
    ensures
        pieces_between(text, separator).len() >= 1,
    decreases text.len(),
{
    if text.len() > 0 {
        lemma_pieces_nonempty(text.drop_last(), separator);
    }
}

/// Where the run of `c` at the end of a text starts, the text without it ends.
pub proof fn lemma_without_trailing_takes(text: Seq<char>, c: char, to: int)
    requires
        0 <= to <= text.len(),
        forall|i: int| to <= i < text.len() ==> text[i] == c,
        to > 0 ==> text[to - 1] != c,
    ensures
        without_trailing(text, c) == text.take(to),
    decreases text.len() - to,
{
    if to == text.len() {
        assert(text.take(to) =~= text);
    } else {
        let rest = text.drop_last();
        lemma_without_trailing_takes(rest, c, to);
        assert(rest.take(to) =~= text.take(to));
    }
}

/// Where the white space at the start of a text ends, the trimmed text starts.
pub proof fn lemma_trim_start_skips(text: Seq<char>, from: int)
    requires
        0 <= from <= text.len(),
        forall|i: int| 0 <= i < from ==> is_white_space(text[i]),
        from < text.len() ==> !is_white_space(text[from]),
    ensures
        trim_start_of(text) == text.skip(from),
    decreases from,
{
    if from == 0 {
        assert(text.skip(0) =~= text);
    } else {
        let rest = text.drop_first();
        assert forall|i: int| 0 <= i < from - 1 implies is_white_space(rest[i]) by {
            assert(rest[i] == text[i + 1]);
        }
        lemma_trim_start_skips(rest, from - 1);
        assert(rest.skip(from - 1) =~= text.skip(from));
    }
}

/// Where the white space at the end of a text starts, the trimmed text ends.
pub proof fn lemma_trim_end_takes(text: Seq<char>, to: int)
    requires
        0 <= to <= text.len(),
        forall|i: int| to <= i < text.len() ==> is_white_space(text[i]),
        to > 0 ==> !is_white_space(text[to - 1]),
    ensures
        trim_end_of(text) == text.take(to),
    decreases text.len() - to,
{
    if to == text.len() {
        assert(text.take(to) =~= text);
    } else {
        let rest = text.drop_last();
        lemma_trim_end_takes(rest, to);
        assert(rest.take(to) =~= text.take(to));
    }
}

/// Whether `c` is white space.
pub fn is_whitespace(c: char) -> (yes: bool)
    ensures
        yes == is_white_space(c),
{
    let code: u32 = c as u32;
    (0x09 <= code && code <= 0x0D) || code == 0x20 || code == 0x85 || code == 0xA0 || code
        == 0x1680 || (0x2000 <= code && code <= 0x200A) || code == 0x2028 || code == 0x2029 || code
        == 0x202F || code == 0x205F || code == 0x3000
}

/// The text without the white space at its start.
pub fn trim_start(text: &str) -> (rest: &str)
    ensures
        rest@ == trim_start_of(text@),
{
    let total = text.as_bytes().len();
    let ghost mut from: int = 0;
    let mut from_index: usize = 0;
    proof {
        lemma_byte_offset_ends(text@);
    }
    for ch in it: text.chars()
        invariant_except_break
            it.seq() == text@,
            from == it.index(),
        invariant
            total == encode_utf8(text@).len(),
            0 <= from <= text@.len(),
            from_index == byte_offset(text@, from),
            forall|i: int| 0 <= i < from ==> is_white_space(text@[i]),
        ensures
            from < text@.len() ==> !is_white_space(text@[from]),
    {
        if !is_whitespace(ch) {
            break;
        }
        proof {
            lemma_byte_offset_step(text@, from);
            lemma_encode_split(text@, from + 1);
            from = from + 1;
        }
        from_index = from_index + utf8_width(ch);
    }
    proof {
        lemma_trim_start_skips(text@, from);
    }
    slice_between(text, Ghost(from), from_index, Ghost(text@.len() as int), total)
}

/// The text without the white space at either end.
pub fn trim(text: &str) -> (inner: &str)
    ensures
        inner@ == trimmed(text@),
{
    let total = text.as_bytes().len();
    let ghost mut from: int = 0;
    let ghost mut to: int = 0;
    let mut from_index: usize = 0;
    let mut to_index: usize = 0;
    let mut index: usize = 0;
    let mut started = false;
    proof {
        lemma_byte_offset_ends(text@);
    }
    for ch in it: text.chars()
        invariant
            it.seq() == text@,
            total == encode_utf8(text@).len(),
            0 <= from <= to <= it.index() <= text@.len(),
            index == byte_offset(text@, it.index()),
            from_index == byte_offset(text@, from),
            to_index == byte_offset(text@, to),
            !started ==> from == 0 && to == 0,
            !started ==> forall|i: int| 0 <= i < it.index() ==> is_white_space(text@[i]),
            started ==> from < to,
            started ==> !is_white_space(text@[from]) && !is_white_space(text@[to - 1]),
            started ==> forall|i: int| 0 <= i < from ==> is_white_space(text@[i]),
            started ==> forall|i: int| to <= i < it.index() ==> is_white_space(text@[i]),
    {
        proof {
            lemma_byte_offset_step(text@, it.index());
            lemma_encode_split(text@, it.index() + 1);
        }
        let next_index = index + utf8_width(ch);
        if !is_whitespace(ch) {
            if !started {
                proof {
                    from = it.index();
                }
                from_index = index;
                started = true;
            }
            proof {
                to = it.index() + 1;
            }
            to_index = next_index;
        }
        index = next_index;
    }
    let inner = slice_between(text, Ghost(from), from_index, Ghost(to), to_index);
    proof {
        let whole = text@;
        if started {
            lemma_trim_start_skips(whole, from);
            let rest = whole.skip(from);
            assert forall|i: int| to - from <= i < rest.len() implies is_white_space(rest[i]) by {
                assert(rest[i] == whole[i + from]);
            }
            assert(rest[to - from - 1] == whole[to - 1]);
            lemma_trim_end_takes(rest, to - from);
            assert(rest.take(to - from) =~= whole.subrange(from, to));
        } else {
            lemma_trim_start_skips(whole, whole.len() as int);
            assert(whole.skip(whole.len() as int) =~= Seq::<char>::empty());
            assert(whole.subrange(0, 0) =~= Seq::<char>::empty());
        }
    }
    inner
}

/// Whether `text` starts with `prefix`.
pub fn starts_with(text: &str, prefix: &str) -> (yes: bool)
    ensures
        yes == prefix@.is_prefix_of(text@),
{
    let mut rest = text.chars();
    for want in it: prefix.chars()
        invariant
            it.seq() == prefix@,
            rest.obeys_prophetic_iter_laws(),
            it.index() <= text@.len(),
            rest.remaining() == text@.skip(it.index()),
            text@.take(it.index()) == prefix@.take(it.index()),
    {
        let ghost i = it.index();
        match rest.next() {
            Some(have) => {
                if have != want {
                    assert(text@[i] != prefix@[i]);
                    return false;
                }
                proof {
                    assert(text@.skip(i).drop_first() =~= text@.skip(i + 1));
                    assert(text@.take(i + 1) =~= text@.take(i).push(have));
                    assert(prefix@.take(i + 1) =~= prefix@.take(i).push(want));
                }
            },
            None => {
                return false;
            },
        }
    }
    proof {
        assert(prefix@.take(prefix@.len() as int) =~= prefix@);
        assert(text@.subrange(0, prefix@.len() as int) =~= text@.take(prefix@.len() as int));
    }
    true
}

/// Whether `text` ends with `suffix`.
pub fn ends_with(text: &str, suffix: &str) -> (yes: bool)
    ensures
        yes == suffix@.is_suffix_of(text@),
{
    let length = text.unicode_len();
    let wanted = suffix.unicode_len();
    if wanted > length {
        return false;
    }
    let skip = length - wanted;
    let mut rest = suffix.chars();
    let mut seen: usize = 0;
    for have in it: text.chars()
        invariant
            it.seq() == text@,
            length == text@.len(),
            wanted == suffix@.len(),
            skip == length - wanted,
            seen == it.index(),
            rest.obeys_prophetic_iter_laws(),
            seen <= skip ==> rest.remaining() == suffix@,
            seen > skip ==> rest.remaining() == suffix@.skip(seen - skip),
            seen > skip ==> text@.subrange(skip as int, seen as int) == suffix@.take(seen - skip),
    {
        if seen >= skip {
            let ghost k = seen - skip;
            proof {
                assert(suffix@.skip(0) =~= suffix@);
            }
            match rest.next() {
                Some(want) => {
                    if have != want {
                        assert(text@[skip + k] != suffix@[k]);
                        assert(text@.subrange(length - wanted, length as int)[k] == text@[skip + k]);
                        return false;
                    }
                    proof {
                        assert(suffix@.skip(k).drop_first() =~= suffix@.skip(k + 1));
                        assert(text@.subrange(skip as int, seen + 1) =~= text@.subrange(
                            skip as int,
                            seen as int,
                        ).push(have));
                        assert(suffix@.take(k + 1) =~= suffix@.take(k).push(want));
                        assert(text@.subrange(skip as int, skip as int) =~= suffix@.take(0));
                    }
                },
                None => {
                    assert(false);
                },
            }
        }
        seen = seen + 1;
    }
    proof {
        assert(suffix@.take(wanted as int) =~= suffix@);
        assert(text@.subrange(skip as int, skip as int) =~= Seq::<char>::empty());
    }
    true
}

/// Whether two texts are the same.
pub fn same_text(left: &str, right: &str) -> (same: bool)
    ensures
        same == (left@ == right@),
{
    let same = left.unicode_len() == right.unicode_len() && starts_with(left, right);
    proof {
        if same {
            assert(left@.subrange(0, right@.len() as int) =~= left@);
        }
    }
    same
}

/// The number of words in a text.
pub fn count_words(text: &str) -> (words: usize)
    ensures
        words == word_count(text@),
{
    let total = text.as_bytes().len();
    let mut words: usize = 0;
    let mut after_space = true;
    proof {
        lemma_chars_at_most_bytes(text@);
        assert(text@.take(0) =~= Seq::<char>::empty());
    }
    for ch in it: text.chars()
        invariant
            it.seq() == text@,
            text@.len() <= total,
            words <= it.index(),
            words == word_count(text@.take(it.index())),
            after_space == (it.index() == 0 || is_white_space(text@[it.index() - 1])),
    {
        proof {
            let i = it.index();
            assert(text@.take(i + 1).drop_last() =~= text@.take(i));
        }
        let space = is_whitespace(ch);
        if !space && after_space {
            words = words + 1;
        }
        after_space = space;
    }
    proof {
        assert(text@.take(text@.len() as int) =~= text@);
    }
    words
}

/// The text without the run of `c` at its end.
pub fn trim_end_matches(text: &str, c: char) -> (kept: &str)
    ensures
        kept@ == without_trailing(text@, c),
{
    let total = text.as_bytes().len();
    let ghost mut to: int = 0;
    let mut to_index: usize = 0;
    let mut index: usize = 0;
    proof {
        lemma_byte_offset_ends(text@);
    }
    for ch in it: text.chars()
        invariant
            it.seq() == text@,
            total == encode_utf8(text@).len(),
            0 <= to <= it.index() <= text@.len(),
            index == byte_offset(text@, it.index()),
            to_index == byte_offset(text@, to),
            to > 0 ==> text@[to - 1] != c,
            forall|i: int| to <= i < it.index() ==> text@[i] == c,
    {
        proof {
            lemma_byte_offset_step(text@, it.index());
            lemma_encode_split(text@, it.index() + 1);
        }
        index = index + utf8_width(ch);
        if ch != c {
            proof {
                to = it.index() + 1;
            }
            to_index = index;
        }
    }
    proof {
        lemma_without_trailing_takes(text@, c, to);
        assert(text@.take(to) =~= text@.subrange(0, to));
    }
    slice_between(text, Ghost(0), 0, Ghost(to), to_index)
}

/// The text before the first occurrence of a separator and the text behind
/// it, or nothing where the separator does not occur.
pub fn split_once<'a>(text: &'a str, separator: char) -> (parts: Option<(&'a str, &'a str)>)
    ensures
        match parts {
            Some((before, behind)) => {
                &&& first_index_of(text@, separator) < text@.len()
                &&& before@ == text@.take(first_index_of(text@, separator))
                &&& behind@ == text@.skip(first_index_of(text@, separator) + 1)
            },
            None => first_index_of(text@, separator) == text@.len(),
        },
{
    let total = text.as_bytes().len();
    let ghost mut at: int = 0;
    let mut index: usize = 0;
    let mut behind_index: usize = 0;
    let mut found = false;
    proof {
        lemma_byte_offset_ends(text@);
    }
    for ch in it: text.chars()
        invariant_except_break
            it.seq() == text@,
            at == it.index(),
            !found,
        invariant
            total == encode_utf8(text@).len(),
            0 <= at <= text@.len(),
            index == byte_offset(text@, at),
            forall|i: int| 0 <= i < at ==> text@[i] != separator,
        ensures
            found ==> at < text@.len() && text@[at] == separator && behind_index == byte_offset(
                text@,
                at + 1,
            ),
            !found ==> at == text@.len(),
    {
        proof {
            lemma_byte_offset_step(text@, at);
            lemma_encode_split(text@, at + 1);
        }
        if ch == separator {
            behind_index = index + utf8_width(ch);
            found = true;
            break;
        }
        index = index + utf8_width(ch);
        proof {
            at = at + 1;
        }
    }
    proof {
        lemma_first_index_of(text@, separator, at);
    }
    if found {
        let before = slice_between(text, Ghost(0), 0, Ghost(at), index);
        let behind = slice_between(
            text,
            Ghost(at + 1),
            behind_index,
            Ghost(text@.len() as int),
            total,
        );
        proof {
            assert(text@.subrange(0, at) =~= text@.take(at));
            assert(text@.subrange(at + 1, text@.len() as int) =~= text@.skip(at + 1));
        }
        Some((before, behind))
    } else {
        None
    }
}

/// The pieces of a text between the occurrences of a separator, in order.
pub fn split_on<'a>(text: &'a str, separator: char) -> (pieces: Vec<&'a str>)
    ensures
        pieces.deep_view() == pieces_between(text@, separator),
{
    let total = text.as_bytes().len();
    let mut pieces: Vec<&'a str> = Vec::new();
    let ghost whole = text@;
    let ghost mut start: int = 0;
    let mut start_index: usize = 0;
    let mut index: usize = 0;
    proof {
        lemma_byte_offset_ends(whole);
        assert(whole.take(0) =~= Seq::<char>::empty());
        assert(whole.subrange(0, 0) =~= Seq::<char>::empty());
        assert(pieces_between(whole.take(0), separator) =~= pieces.deep_view().push(
            whole.subrange(0, 0),
        ));
    }
    for ch in it: text.chars()
        invariant
            it.seq() == whole,
            whole == text@,
            total == encode_utf8(whole).len(),
            0 <= start <= it.index() <= whole.len(),
            start_index == byte_offset(whole, start),
            index == byte_offset(whole, it.index()),
            pieces_between(whole.take(it.index()), separator) == pieces.deep_view().push(
                whole.subrange(start, it.index()),
            ),
    {
        let ghost i = it.index();
        let ghost piece = whole.subrange(start, i);
        let ghost found = pieces.deep_view();
        proof {
            lemma_byte_offset_step(whole, i);
            lemma_encode_split(whole, i + 1);
            assert(whole.take(i + 1).drop_last() =~= whole.take(i));
            assert(whole.take(i + 1).last() == ch);
            assert(found.push(piece).drop_last() =~= found);
        }
        let next_index = index + utf8_width(ch);
        if ch == separator {
            let part = slice_between(text, Ghost(start), start_index, Ghost(i), index);
            pieces.push(part);
            proof {
                assert(pieces.deep_view() =~= found.push(piece));
                start = i + 1;
                assert(whole.subrange(start, i + 1) =~= Seq::<char>::empty());
            }
            start_index = next_index;
        } else {
            proof {
                assert(whole.subrange(start, i + 1) =~= piece.push(ch));
            }
        }
        index = next_index;
    }
    let ghost found = pieces.deep_view();
    let part = slice_between(text, Ghost(start), start_index, Ghost(whole.len() as int), index);
    pieces.push(part);
    proof {
        assert(whole.take(whole.len() as int) =~= whole);
        assert(pieces.deep_view() =~= found.push(whole.subrange(start, whole.len() as int)));
    }
    pieces
}

/// The first and the last character of a text, or nothing for an empty text.
pub fn first_and_last(text: &str) -> (ends: Option<(char, char)>)
    ensures
        match ends {
            Some((first, last)) => text@.len() > 0 && first == text@[0] && last == text@.last(),
            None => text@.len() == 0,
        },
{
    let mut ends: Option<(char, char)> = None;
    for ch in it: text.chars()
        invariant
            it.seq() == text@,
            match ends {
                Some((first, last)) => it.index() > 0 && first == text@[0] && last == text@[it.index()
                    - 1],
                None => it.index() == 0,
            },
    {
        ends = match ends {
            Some((first, _)) => Some((first, ch)),
            None => Some((ch, ch)),
        };
    }
    ends
}

} // verus!
