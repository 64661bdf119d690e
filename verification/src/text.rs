//! Character offsets and storage offsets.
//!
//! Lines are addressed by character (Unicode scalar value), but a `String`
//! stores UTF-8 and is spliced by byte offset. This module holds the conversion
//! between the two and the facts about the encoding that the buffer rests on.

use vstd::prelude::*;
use vstd::utf8::*;

verus! {

/// The number of bytes that the UTF-8 encoding of `c` takes.
pub open spec fn char_width(c: char) -> int {
    encode_scalar(c as u32).len() as int
}

/// The storage offset at which character `n` of `s` starts: the encoded length
/// of the first `n` characters. Meant for `0 <= n <= s.len()`.
pub open spec fn byte_offset(s: Seq<char>, n: int) -> int {
    encode_utf8(s.take(n)).len() as int
}

/// The storage offset that a column stands for: the start of that character, or
/// the end of the text for a column at or past its length.
pub open spec fn byte_index_of(s: Seq<char>, column: int) -> int {
    if column >= s.len() {
        encode_utf8(s).len() as int
    } else {
        byte_offset(s, column)
    }
}

/// Every character takes between one and four bytes, by its range.
pub proof fn lemma_char_width(c: char)
    ensures
        1 <= char_width(c) <= 4,
        char_width(c) == if (c as u32) < 0x80 {
            1int
        } else if (c as u32) < 0x800 {
            2int
        } else if (c as u32) < 0x10000 {
            3int
        } else {
            4int
        },
{
    char_is_scalar(c);
}

/// Encoding distributes over concatenation.
pub proof fn lemma_encode_concat(a: Seq<char>, b: Seq<char>)
    ensures
        encode_utf8(a + b) == encode_utf8(a) + encode_utf8(b),
    decreases a.len(),
{
    if a.len() == 0 {
        assert(a + b =~= b);
        assert(encode_utf8(a) + encode_utf8(b) =~= encode_utf8(b));
    } else {
        lemma_encode_concat(a.drop_first(), b);
        assert((a + b).drop_first() =~= a.drop_first() + b);
        assert(encode_utf8(a + b) =~= encode_utf8(a) + encode_utf8(b));
    }
}

/// The encoding of a single character is the encoding of its scalar value.
pub proof fn lemma_encode_single(c: char)
    ensures
        encode_utf8(seq![c]) == encode_scalar(c as u32),
{
    let s = seq![c];
    assert(s.drop_first() =~= Seq::<char>::empty());
    assert(encode_utf8(s.drop_first()) =~= Seq::<u8>::empty());
    assert(encode_utf8(s) =~= encode_scalar(c as u32));
}

/// Two texts with the same encoding are the same text.
pub proof fn lemma_encode_injective(a: Seq<char>, b: Seq<char>)
    requires
        encode_utf8(a) == encode_utf8(b),
    ensures
        a == b,
{
    encode_utf8_decode_utf8(a);
    encode_utf8_decode_utf8(b);
}

/// Offsets start at zero and end at the encoded length.
pub proof fn lemma_byte_offset_ends(s: Seq<char>)
    ensures
        byte_offset(s, 0) == 0,
        byte_offset(s, s.len() as int) == encode_utf8(s).len(),
{
    assert(s.take(0) =~= Seq::<char>::empty());
    assert(s.take(s.len() as int) =~= s);
}

/// An offset grows by the width of the character it passes.
pub proof fn lemma_byte_offset_step(s: Seq<char>, n: int)
    requires
        0 <= n < s.len(),
    ensures
        byte_offset(s, n + 1) == byte_offset(s, n) + char_width(s[n]),
{
    assert(s.take(n + 1) =~= s.take(n) + seq![s[n]]);
    lemma_encode_concat(s.take(n), seq![s[n]]);
    lemma_encode_single(s[n]);
}

/// Cutting the encoding at the offset of character `n` gives the encodings of
/// the first `n` characters and of the rest.
pub proof fn lemma_encode_split(s: Seq<char>, n: int)
    requires
        0 <= n <= s.len(),
    ensures
        0 <= byte_offset(s, n) <= encode_utf8(s).len(),
        encode_utf8(s).subrange(0, byte_offset(s, n)) == encode_utf8(s.take(n)),
        encode_utf8(s).subrange(byte_offset(s, n), encode_utf8(s).len() as int) == encode_utf8(
            s.skip(n),
        ),
{
    assert(s =~= s.take(n) + s.skip(n));
    lemma_encode_concat(s.take(n), s.skip(n));
    let head = encode_utf8(s.take(n));
    let tail = encode_utf8(s.skip(n));
    assert((head + tail).subrange(0, head.len() as int) =~= head);
    assert((head + tail).subrange(head.len() as int, (head + tail).len() as int) =~= tail);
}

/// The width of a character as the machine computes it.
pub fn utf8_width(c: char) -> (width: usize)
    ensures
        width == char_width(c),
{
    proof {
        lemma_char_width(c);
    }
    let code: u32 = c as u32;
    if code < 0x80 {
        1
    } else if code < 0x800 {
        2
    } else if code < 0x10000 {
        3
    } else {
        4
    }
}

/// A text has at most as many characters as its encoding has bytes.
pub proof fn lemma_chars_at_most_bytes(s: Seq<char>)
    ensures
        s.len() <= encode_utf8(s).len(),
    decreases s.len(),
{
    if s.len() > 0 {
        lemma_chars_at_most_bytes(s.drop_first());
        lemma_char_width(s[0]);
    }
}

/// The number of characters in a text.
pub fn char_count(input: &str) -> (count: usize)
    ensures
        count == input@.len(),
{
    input.unicode_len()
}

/// Converts a column into the storage offset at which that character starts;
/// a column at or past the end of the text gives the length of the text in
/// bytes.
pub fn char_to_byte_index(input: &str, column: usize) -> (index: usize)
    ensures
        index == byte_index_of(input@, column as int),
{
    let total = input.as_bytes().len();
    let mut index: usize = 0;
    let mut seen: usize = 0;
    proof {
        lemma_byte_offset_ends(input@);
    }
    for ch in it: input.chars()
        invariant_except_break
            it.seq() == input@,
            seen == it.index(),
        invariant
            total == encode_utf8(input@).len(),
            seen <= column,
            seen <= input@.len(),
            index == byte_offset(input@, seen as int),
        ensures
            seen == column || seen == input@.len(),
    {
        if seen == column {
            break;
        }
        proof {
            lemma_byte_offset_step(input@, seen as int);
            lemma_encode_split(input@, seen + 1);
        }
        index = index + utf8_width(ch);
        seen = seen + 1;
    }
    index
}

/// The offset of every character index within a text is a character boundary
/// of its encoding.
pub proof fn lemma_offset_is_boundary(s: Seq<char>, n: int)
    requires
        0 <= n <= s.len(),
    ensures
        is_char_boundary(encode_utf8(s), byte_offset(s, n)),
    decreases n,
{
    let bytes = encode_utf8(s);
    encode_utf8_valid_utf8(s);
    lemma_byte_offset_ends(s);
    if n > 0 {
        let rest = s.drop_first();
        encode_utf8_first_scalar(s);
        assert(pop_first_scalar(bytes) =~= encode_utf8(rest));
        lemma_offset_is_boundary(rest, n - 1);
        assert(s.take(n) =~= seq![s[0]] + rest.take(n - 1));
        lemma_encode_concat(seq![s[0]], rest.take(n - 1));
        lemma_encode_single(s[0]);
        lemma_char_width(s[0]);
        lemma_encode_split(s, n);
    }
}

/// The column that a storage offset falls on is the least column that starts
/// at or after it, or the length of the text where no character does.
pub open spec fn is_char_index_of(s: Seq<char>, byte_index: int, column: int) -> bool {
    &&& 0 <= column <= s.len()
    &&& forall|n: int| 0 <= n < column ==> byte_offset(s, n) < byte_index
    &&& column < s.len() ==> byte_offset(s, column) >= byte_index
}

/// Converts a storage offset back into a column: the number of characters that
/// start before it.
pub fn byte_to_char_index(input: &str, byte_index: usize) -> (column: usize)
    ensures
        is_char_index_of(input@, byte_index as int, column as int),
{
    let total = input.as_bytes().len();
    let mut index: usize = 0;
    let mut column: usize = 0;
    proof {
        lemma_byte_offset_ends(input@);
        lemma_chars_at_most_bytes(input@);
    }
    for ch in it: input.chars()
        invariant_except_break
            it.seq() == input@,
            column == it.index(),
        invariant
            total == encode_utf8(input@).len(),
            column <= input@.len() <= total,
            index == byte_offset(input@, column as int),
            forall|n: int| 0 <= n < column ==> byte_offset(input@, n) < byte_index,
        ensures
            column == input@.len() || index >= byte_index,
    {
        if index >= byte_index {
            break;
        }
        proof {
            lemma_byte_offset_step(input@, column as int);
            lemma_encode_split(input@, column + 1);
        }
        index = index + utf8_width(ch);
        column = column + 1;
    }
    column
}

/// How far a storage offset lies from a run of `len` bytes that starts at
/// `start`: zero within the run and at its ends. A run that would end past the
/// largest offset ends there.
pub open spec fn distance_from_run(target: int, start: int, len: int) -> int {
    let end = if start + len > usize::MAX {
        usize::MAX as int
    } else {
        start + len
    };
    if target < start {
        start - target
    } else if target > end {
        target - end
    } else {
        0
    }
}

/// How far a storage offset lies from a run of bytes.
pub fn byte_distance(target: usize, start: usize, len: usize) -> (distance: usize)
    ensures
        distance == distance_from_run(target as int, start as int, len as int),
{
    let end = start.saturating_add(len);
    if target < start {
        start - target
    } else if target > end {
        target - end
    } else {
        0
    }
}

/// The part of a text between two columns that are given with their storage
/// offsets.
pub(crate) fn slice_between<'a>(
    text: &'a str,
    Ghost(from): Ghost<int>,
    from_index: usize,
    Ghost(to): Ghost<int>,
    to_index: usize,
) -> (part: &'a str)
    requires
        0 <= from <= to <= text@.len(),
        from_index == byte_offset(text@, from),
        to_index == byte_offset(text@, to),
    ensures
        part@ == text@.subrange(from, to),
{
    proof {
        lemma_offset_is_boundary(text@, to);
        lemma_encode_split(text@, to);
    }
    let (head, _) = text.split_at(to_index);
    proof {
        lemma_encode_injective(head@, text@.take(to));
        assert(head@.take(from) =~= text@.take(from));
        lemma_offset_is_boundary(head@, from);
        lemma_encode_split(head@, from);
    }
    let (_, part) = head.split_at(from_index);
    proof {
        lemma_encode_injective(part@, head@.skip(from));
        assert(head@.skip(from) =~= text@.subrange(from, to));
    }
    part
}

/// The uppercase form of a text, as Unicode defines it and std computes it. A
/// character may become several, so this is a function of the whole text.
pub uninterp spec fn uppercase_of(text: Seq<char>) -> Seq<char>;

/// `str::to_uppercase`: the uppercase form of the text, as a new `String`.
#[verifier::external_body]
pub(crate) fn to_uppercase(text: &str) -> (upper: String)
    ensures
        upper@ == uppercase_of(text@),
{
    text.to_uppercase()
}

/// `String::insert`: puts the encoding of `ch` into the text at byte offset
/// `index`. Std panics unless `index` lies on a character boundary, which the
/// precondition asks for.
#[verifier::external_body]
pub(crate) fn string_insert(line: &mut String, index: usize, ch: char)
    requires
        is_char_boundary(encode_utf8(old(line)@), index as int),
    ensures
        encode_utf8(final(line)@) == encode_utf8(old(line)@).subrange(0, index as int)
            + encode_scalar(ch as u32) + encode_utf8(old(line)@).subrange(
            index as int,
            encode_utf8(old(line)@).len() as int,
        ),
{
    line.insert(index, ch)
}

/// `String::split_off`: keeps the bytes before `index` in the text and returns
/// the bytes from `index` on as a new text. Std panics unless `index` lies on a
/// character boundary, which the precondition asks for.
#[verifier::external_body]
pub(crate) fn string_split_off(line: &mut String, index: usize) -> (tail: String)
    requires
        is_char_boundary(encode_utf8(old(line)@), index as int),
    ensures
        encode_utf8(final(line)@) == encode_utf8(old(line)@).subrange(0, index as int),
        encode_utf8(tail@) == encode_utf8(old(line)@).subrange(
            index as int,
            encode_utf8(old(line)@).len() as int,
        ),
{
    line.split_off(index)
}

/// `String::replace_range`: replaces the bytes from `start` up to `end` by the
/// encoding of `with`. Std panics unless both offsets lie on character
/// boundaries and are in order, which the precondition asks for.
#[verifier::external_body]
pub(crate) fn string_replace_range(line: &mut String, start: usize, end: usize, with: &str)
    requires
        start <= end,
        is_char_boundary(encode_utf8(old(line)@), start as int),
        is_char_boundary(encode_utf8(old(line)@), end as int),
    ensures
        encode_utf8(final(line)@) == encode_utf8(old(line)@).subrange(0, start as int)
            + encode_utf8(with@) + encode_utf8(old(line)@).subrange(
            end as int,
            encode_utf8(old(line)@).len() as int,
        ),
{
    line.replace_range(start..end, with)
}

/// Inserts `ch` before the character at `column`.
pub(crate) fn insert_char_at(line: &mut String, column: usize, ch: char)
    requires
        column <= old(line)@.len(),
    ensures
        final(line)@ == old(line)@.insert(column as int, ch),
        final(line)@.len() <= usize::MAX,
{
    let index = char_to_byte_index(line.as_str(), column);
    proof {
        lemma_byte_offset_ends(line@);
        lemma_offset_is_boundary(line@, column as int);
        lemma_encode_split(line@, column as int);
    }
    string_insert(line, index, ch);
    let stored = line.as_str().as_bytes().len();
    proof {
        let before = old(line)@;
        let after = before.insert(column as int, ch);
        assert(after =~= before.take(column as int) + seq![ch] + before.skip(column as int));
        lemma_encode_concat(before.take(column as int), seq![ch]);
        lemma_encode_concat(before.take(column as int) + seq![ch], before.skip(column as int));
        lemma_encode_single(ch);
        lemma_encode_injective(line@, after);
        lemma_chars_at_most_bytes(line@);
    }
}

/// Cuts the text at `column`: the text keeps what stands before it, and what
/// stands from it on is returned.
pub(crate) fn split_off_at(line: &mut String, column: usize) -> (tail: String)
    requires
        column <= old(line)@.len(),
    ensures
        final(line)@ == old(line)@.take(column as int),
        tail@ == old(line)@.skip(column as int),
{
    let index = char_to_byte_index(line.as_str(), column);
    proof {
        lemma_byte_offset_ends(line@);
        lemma_offset_is_boundary(line@, column as int);
        lemma_encode_split(line@, column as int);
    }
    let tail = string_split_off(line, index);
    proof {
        lemma_encode_injective(line@, old(line)@.take(column as int));
        lemma_encode_injective(tail@, old(line)@.skip(column as int));
    }
    tail
}

/// Removes the character at `column`.
pub(crate) fn remove_char_at(line: &mut String, column: usize)
    requires
        column < old(line)@.len(),
    ensures
        final(line)@ == old(line)@.remove(column as int),
{
    let stored = line.as_str().as_bytes().len();
    proof {
        lemma_chars_at_most_bytes(line@);
    }
    let start = char_to_byte_index(line.as_str(), column);
    let end = char_to_byte_index(line.as_str(), column + 1);
    proof {
        let before = old(line)@;
        lemma_byte_offset_ends(before);
        lemma_byte_offset_step(before, column as int);
        lemma_char_width(before[column as int]);
        lemma_offset_is_boundary(before, column as int);
        lemma_offset_is_boundary(before, column + 1);
        lemma_encode_split(before, column as int);
        lemma_encode_split(before, column + 1);
    }
    string_replace_range(line, start, end, "");
    proof {
        let before = old(line)@;
        let after = before.remove(column as int);
        assert(after =~= before.take(column as int) + before.skip(column + 1));
        lemma_encode_concat(before.take(column as int), before.skip(column + 1));
        reveal_strlit("");
        assert(""@ =~= Seq::<char>::empty());
        assert(encode_utf8(""@) =~= Seq::<u8>::empty());
        assert(encode_utf8(line@) =~= encode_utf8(after));
        lemma_encode_injective(line@, after);
    }
}

} // verus!
