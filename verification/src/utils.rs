//! Cutting a text into chunks of words.

use vstd::prelude::*;
use crate::text::chars_of;
use vstd::string::*;

verus! {

/// What `char::is_whitespace` gives: whether the character has the Unicode
/// property White_Space.
pub uninterp spec fn is_white_space(c: char) -> bool;

/// Calls `char::is_whitespace`. The result is the named one.
#[verifier::external_body]
fn char_is_whitespace(c: char) -> (white: bool)
    ensures
        white == is_white_space(c),
{
    c.is_whitespace()
}

/// The number of bytes that a character takes in UTF-8.
pub open spec fn utf8_width(c: char) -> nat {
    if (c as u32) < 0x80 {
        1
    } else if (c as u32) < 0x800 {
        2
    } else if (c as u32) < 0x10000 {
        3
    } else {
        4
    }
}

/// The number of bytes that a character takes in UTF-8.
pub fn width_of(c: char) -> (width: usize)
    ensures
        width == utf8_width(c),
        1 <= width <= 4,
{
    let code = c as u32;
    if code < 0x80 {
        1
    } else if code < 0x800 {
        2
    } else if code < 0x10000 {
        3
    } else {
        4
    }
}


/// The words of the first part of a text: the words that have ended, and the
/// characters of a word that is still open at the end of the part.
pub open spec fn scanned(text: Seq<char>) -> (Seq<Seq<char>>, Seq<char>)
    decreases text.len(),
{
    if text.len() == 0 {
        (Seq::empty(), Seq::empty())
    } else {
        let (words, open) = scanned(text.drop_last());
        if is_white_space(text.last()) {
            if open.len() > 0 {
                (words.push(open), Seq::empty())
            } else {
                (words, open)
            }
        } else {
            (words, open.push(text.last()))
        }
    }
}

/// The words of a text: its longest runs of characters that are no white
/// space, in their order.
pub open spec fn words_of(text: Seq<char>) -> Seq<Seq<char>> {
    let (words, open) = scanned(text);
    if open.len() > 0 {
        words.push(open)
    } else {
        words
    }
}

/// The words of a text.
pub fn split_words(s: &str) -> (words: Vec<String>)
    ensures
        words.deep_view() == words_of(s@),
{
    let chars = chars_of(s);
    let length = chars.len();
    let mut words: Vec<String> = Vec::new();
    let mut start: usize = 0;
    let mut i: usize = 0;
    assert(words.deep_view() =~= Seq::<Seq<char>>::empty());
    assert(s@.subrange(0, 0) =~= Seq::<char>::empty());
    while i < length
        invariant
            start <= i <= length,
            length == s@.len(),
            chars@ == s@,
            scanned(s@.take(i as int)) == (words.deep_view(), s@.subrange(start as int, i as int)),
        decreases length - i,
    {
        let ghost part = s@.take(i as int + 1);
        assert(part.drop_last() =~= s@.take(i as int));
        assert(part.last() == s@[i as int]);
        if char_is_whitespace(chars[i]) {
            if start < i {
                let ghost before = words.deep_view();
                let word = s.substring_char(start, i);
                words.push(word.to_owned());
                assert(words.deep_view() =~= before.push(s@.subrange(start as int, i as int)));
            }
            start = i + 1;
            assert(s@.subrange(start as int, start as int) =~= Seq::<char>::empty());
        } else {
            assert(s@.subrange(start as int, i as int + 1) =~= s@.subrange(
                start as int,
                i as int,
            ).push(s@[i as int]));
        }
        i = i + 1;
    }
    assert(s@.take(length as int) =~= s@);
    if start < length {
        let ghost before = words.deep_view();
        let word = s.substring_char(start, length);
        words.push(word.to_owned());
        assert(words.deep_view() =~= before.push(s@.subrange(start as int, length as int)));
    }
    words
}

/// Chunks under construction: the chunks that are complete, the text of the
/// chunk that is being filled, and the length that counts against the limit.
pub struct Packing {
    pub chunks: Seq<Seq<char>>,
    pub open: Seq<char>,
    pub open_length: nat,
}

/// Words packed into chunks. Every word counts with its characters and one
/// more for the space that follows it. A word joins the open chunk, after a
/// space unless it is the first; the chunk is complete as soon as its count
/// exceeds `chunk_length`.
pub open spec fn packed(words: Seq<Seq<char>>, chunk_length: nat) -> Packing
    decreases words.len(),
{
    if words.len() == 0 {
        Packing { chunks: Seq::empty(), open: Seq::empty(), open_length: 0 }
    } else {
        let before = packed(words.drop_last(), chunk_length);
        let word = words.last();
        let length = before.open_length + word.len() + 1;
        let joined = if before.open_length == 0 {
            word
        } else {
            before.open + seq![' '] + word
        };
        if length > chunk_length {
            Packing { chunks: before.chunks.push(joined), open: Seq::empty(), open_length: 0 }
        } else {
            Packing { chunks: before.chunks, open: joined, open_length: length }
        }
    }
}

/// Cuts a text into chunks of whole words, each as short as it can be with a
/// count above `chunk_length`. The words of a chunk are joined by single
/// spaces. Words at the end that do not fill a chunk are left out.
pub fn split_string2(s: &str, chunk_length: usize) -> (chunks: Vec<String>)
    ensures
        chunks.deep_view() == packed(words_of(s@), chunk_length as nat).chunks,
{
    proof {
        reveal_strlit(" ");
    }
    let words = split_words(s);
    let ghost all = words.deep_view();
    let mut chunks: Vec<String> = Vec::new();
    let mut temp_string = String::new();
    let mut temp_length: usize = 0;
    let mut i: usize = 0;
    assert(chunks.deep_view() =~= Seq::<Seq<char>>::empty());
    while i < words.len()
        invariant
            i <= words.len(),
            all == words.deep_view(),
            " "@ == seq![' '],
            temp_length <= chunk_length,
            packed(all.take(i as int), chunk_length as nat) == (Packing {
                chunks: chunks.deep_view(),
                open: temp_string@,
                open_length: temp_length as nat,
            }),
        decreases words.len() - i,
    {
        let ghost part = all.take(i as int + 1);
        assert(part.drop_last() =~= all.take(i as int));
        assert(part.last() == words@[i as int]@);
        let word = words[i].as_str();
        let count = word.unicode_len();
        if temp_length > 0 {
            temp_string.append(" ");
        }
        temp_string.append(word);
        let length: u128 = temp_length as u128 + count as u128 + 1;
        if length > chunk_length as u128 {
            let ghost before = chunks.deep_view();
            let ghost joined = temp_string@;
            chunks.push(temp_string);
            assert(chunks.deep_view() =~= before.push(joined));
            temp_string = String::new();
            temp_length = 0;
        } else {
            temp_length = length as usize;
        }
        i = i + 1;
    }
    assert(all.take(i as int) =~= all);
    chunks
}

/// The number of bytes that a text takes in UTF-8.
pub open spec fn byte_length(text: Seq<char>) -> nat
    decreases text.len(),
{
    if text.len() == 0 {
        0
    } else {
        byte_length(text.drop_last()) + utf8_width(text.last())
    }
}

/// Cuts under way: the chunks that were cut off, where the open chunk
/// starts, and whether a cut fell on a white space of more than one byte, so
/// that the open chunk would start inside a character.
pub struct Cutting {
    pub chunks: Seq<Seq<char>>,
    pub start: int,
    pub broken: bool,
}

/// The cuts within the first `upto` characters: the text is cut at every
/// white space before which the open chunk has grown beyond `chunk_length`
/// bytes. The white space itself belongs to no chunk.
pub open spec fn cut(text: Seq<char>, chunk_length: nat, upto: int) -> Cutting
    decreases upto,
{
    if upto <= 0 {
        Cutting { chunks: Seq::empty(), start: 0, broken: false }
    } else {
        let before = cut(text, chunk_length, upto - 1);
        let c = text[upto - 1];
        if !before.broken && is_white_space(c) && byte_length(
            text.subrange(before.start, upto - 1),
        ) > chunk_length {
            Cutting {
                chunks: before.chunks.push(text.subrange(before.start, upto - 1)),
                start: upto,
                broken: utf8_width(c) > 1,
            }
        } else {
            before
        }
    }
}

/// The chunks of a text: those that were cut off and the rest of the text as
/// the last one. There are none where a cut fell on a white space of more
/// than one byte.
pub open spec fn chunks_of(text: Seq<char>, chunk_length: nat) -> Option<Seq<Seq<char>>> {
    let end = cut(text, chunk_length, text.len() as int);
    if end.broken {
        None
    } else {
        Some(end.chunks.push(text.subrange(end.start, text.len() as int)))
    }
}

/// Cuts a text at white space into chunks of more than `chunk_length` bytes
/// each, but for the last one, which holds what is left. The result is
/// `None` where a cut would fall on a white space that takes more than one
/// byte.
pub fn split_string(s: &str, chunk_length: usize) -> (chunks: Option<Vec<String>>)
    ensures
        chunks.deep_view() == chunks_of(s@, chunk_length as nat),
{
    let chars = chars_of(s);
    let length = chars.len();
    let mut chunks: Vec<String> = Vec::new();
    let mut start: usize = 0;
    let mut open_bytes: u128 = 0;
    let mut i: usize = 0;
    assert(chunks.deep_view() =~= Seq::<Seq<char>>::empty());
    assert(s@.subrange(0, 0) =~= Seq::<char>::empty());
    while i < length
        invariant
            start <= i <= length,
            length == s@.len(),
            chars@ == s@,
            open_bytes == byte_length(s@.subrange(start as int, i as int)),
            open_bytes <= 4 * (i - start),
            cut(s@, chunk_length as nat, i as int) == (Cutting {
                chunks: chunks.deep_view(),
                start: start as int,
                broken: false,
            }),
        decreases length - i,
    {
        let c = chars[i];
        let width = width_of(c);
        if open_bytes > chunk_length as u128 && char_is_whitespace(c) {
            let ghost before = chunks.deep_view();
            let chunk = s.substring_char(start, i);
            chunks.push(chunk.to_owned());
            assert(chunks.deep_view() =~= before.push(s@.subrange(start as int, i as int)));
            if width > 1 {
                proof {
                    lemma_broken_stays(s@, chunk_length as nat, i as int + 1, length as int);
                }
                return None;
            }
            start = i + 1;
            open_bytes = 0;
            assert(s@.subrange(start as int, start as int) =~= Seq::<char>::empty());
        } else {
            assert(s@.subrange(start as int, i as int + 1).drop_last() =~= s@.subrange(
                start as int,
                i as int,
            ));
            open_bytes = open_bytes + width as u128;
        }
        i = i + 1;
    }
    let ghost before = chunks.deep_view();
    let rest = s.substring_char(start, length);
    chunks.push(rest.to_owned());
    assert(chunks.deep_view() =~= before.push(s@.subrange(start as int, length as int)));
    Some(chunks)
}

/// Once a cut has fallen on a white space of more than one byte, no later
/// character mends it.
pub proof fn lemma_broken_stays(text: Seq<char>, chunk_length: nat, from: int, upto: int)
    requires
        0 <= from <= upto,
        cut(text, chunk_length, from).broken,
    ensures
        cut(text, chunk_length, upto).broken,
    decreases upto - from,
{
    if from < upto {
        lemma_broken_stays(text, chunk_length, from, upto - 1);
    }
}

/// Sample translations: the names, the descriptions and the long
/// descriptions of three products, each list under its key.
pub fn translation_data_provider() -> (data: Vec<(&'static str, Vec<&'static str>)>)
    ensures
        data@.len() == 3,
        data@[0].0@ == "names"@,
        data@[1].0@ == "descriptions"@,
        data@[2].0@ == "long_descriptions"@,
        data@[0].1.deep_view() == seq!["Produkt 1"@, "Produkt 2"@, "Produkt 3"@],
        data@[1].1.deep_view() == seq!["Description 1"@, "Description 2"@, "Description 3"@],
        data@[2].1.deep_view() == seq![
            "Long descriptions 1"@,
            "Long descriptions 2"@,
            "Long descriptions 3"@,
        ],
{
    let mut data: Vec<(&'static str, Vec<&'static str>)> = Vec::new();
    let mut names: Vec<&'static str> = Vec::new();
    names.push("Produkt 1");
    names.push("Produkt 2");
    names.push("Produkt 3");
    assert(names.deep_view() =~= seq!["Produkt 1"@, "Produkt 2"@, "Produkt 3"@]);
    data.push(("names", names));
    let mut description: Vec<&'static str> = Vec::new();
    description.push("Description 1");
    description.push("Description 2");
    description.push("Description 3");
    assert(description.deep_view() =~= seq![
        "Description 1"@,
        "Description 2"@,
        "Description 3"@,
    ]);
    data.push(("descriptions", description));
    let mut long_descriptions: Vec<&'static str> = Vec::new();
    long_descriptions.push("Long descriptions 1");
    long_descriptions.push("Long descriptions 2");
    long_descriptions.push("Long descriptions 3");
    assert(long_descriptions.deep_view() =~= seq![
        "Long descriptions 1"@,
        "Long descriptions 2"@,
        "Long descriptions 3"@,
    ]);
    data.push(("long_descriptions", long_descriptions));
    data
}

} // verus!
