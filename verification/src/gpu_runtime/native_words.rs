//! Words as the bytes that GPU buffers are filled with and read back as.
use vstd::prelude::*;

verus! {

/// The byte of a word at a place, counted from its low end.
pub open spec fn byte_of(word: u32, place: int) -> u8 {
    if place == 0 {
        (word % 0x100) as u8
    } else if place == 1 {
        (word / 0x100 % 0x100) as u8
    } else if place == 2 {
        (word / 0x1_0000 % 0x100) as u8
    } else {
        (word / 0x100_0000) as u8
    }
}

/// The bytes are those of the words, four for each, the high end of every word
/// first or the low end of every word first.
pub open spec fn laid_out(bytes: Seq<u8>, words: Seq<u32>, high_end_first: bool) -> bool {
    &&& bytes.len() == 4 * words.len()
    &&& forall|index: int|
        0 <= index < bytes.len() ==> #[trigger] bytes[index] == byte_of(
            words[index / 4],
            if high_end_first {
                3 - index % 4
            } else {
                index % 4
            },
        )
}

/// The bytes are those of the words, in one of the two orders that machines use.
pub open spec fn natively_laid_out(bytes: Seq<u8>, words: Seq<u32>) -> bool {
    laid_out(bytes, words, false) || laid_out(bytes, words, true)
}

/// No two lists of words have the same bytes in one order: the words can be read
/// back.
pub proof fn lemma_words_can_be_read_back(
    bytes: Seq<u8>,
    first: Seq<u32>,
    second: Seq<u32>,
    high_end_first: bool,
)
    requires
        laid_out(bytes, first, high_end_first),
        laid_out(bytes, second, high_end_first),
    ensures
        first == second,
{
    assert forall|index: int| 0 <= index < first.len() implies first[index] == second[index] by {
        let a = first[index];
        let b = second[index];
        assert forall|place: int| 0 <= place < 4 implies byte_of(a, place) == byte_of(b, place) by {
            let at = if high_end_first {
                4 * index + 3 - place
            } else {
                4 * index + place
            };
            assert(at / 4 == index);
            assert(bytes[at] == byte_of(a, place));
            assert(bytes[at] == byte_of(b, place));
        }
        assert(byte_of(a, 0) == byte_of(b, 0));
        assert(byte_of(a, 1) == byte_of(b, 1));
        assert(byte_of(a, 2) == byte_of(b, 2));
        assert(byte_of(a, 3) == byte_of(b, 3));
        lemma_bytes_make_word(a);
        lemma_bytes_make_word(b);
    }
    assert(first =~= second);
}

proof fn lemma_bytes_make_word(word: u32)
    ensures
        word == byte_of(word, 0) + 0x100 * byte_of(word, 1) + 0x1_0000 * byte_of(word, 2)
            + 0x100_0000 * byte_of(word, 3),
{
    assert(word / 0x100 / 0x100 == word / 0x1_0000);
    assert(word / 0x1_0000 / 0x100 == word / 0x100_0000);
}

/// The bytes of words as they lie in memory. `bytemuck::cast_slice` reads the
/// memory of the words as bytes, and `to_vec` copies it. The contract says that
/// each word gives four bytes, all of them in one of the two byte orders. Which
/// of the two it is depends on the machine and is left unsaid.
#[verifier::external_body]
pub(crate) fn native_bytes(words: &Vec<u32>) -> (bytes: Vec<u8>)
    ensures
        natively_laid_out(bytes@, words@),
{
    bytemuck::cast_slice::<u32, u8>(words.as_slice()).to_vec()
}

/// The byte of a word of 16 bits at a place, counted from its low end.
pub open spec fn byte_of_short(word: u16, place: int) -> u8 {
    if place == 0 {
        (word % 0x100) as u8
    } else {
        (word / 0x100) as u8
    }
}

/// The bytes are those of the words, two for each, the high end of every word
/// first or the low end of every word first.
pub open spec fn short_laid_out(bytes: Seq<u8>, words: Seq<u16>, high_end_first: bool) -> bool {
    &&& bytes.len() == 2 * words.len()
    &&& forall|index: int|
        0 <= index < bytes.len() ==> #[trigger] bytes[index] == byte_of_short(
            words[index / 2],
            if high_end_first {
                1 - index % 2
            } else {
                index % 2
            },
        )
}

/// The bytes are those of the words, in one of the two orders that machines use.
pub open spec fn short_natively_laid_out(bytes: Seq<u8>, words: Seq<u16>) -> bool {
    short_laid_out(bytes, words, false) || short_laid_out(bytes, words, true)
}

/// The bytes of words of 16 bits as they lie in memory, by `bytemuck::cast_slice`
/// as for words of 32 bits. The contract says that each word gives two bytes, all
/// of them in one of the two byte orders. Which of the two it is depends on the
/// machine and is left unsaid.
#[verifier::external_body]
pub(crate) fn native_short_bytes(words: &Vec<u16>) -> (bytes: Vec<u8>)
    ensures
        short_natively_laid_out(bytes@, words@),
{
    bytemuck::cast_slice::<u16, u8>(words.as_slice()).to_vec()
}

/// The byte of a word of 64 bits at a place, counted from its low end.
pub open spec fn byte_of_long(word: u64, place: int) -> u8 {
    (word as int / vstd::arithmetic::power::pow(0x100, place as nat) % 0x100) as u8
}

/// The bytes are those of the words, eight for each, the high end of every word
/// first or the low end of every word first.
pub open spec fn long_laid_out(bytes: Seq<u8>, words: Seq<u64>, high_end_first: bool) -> bool {
    &&& bytes.len() == 8 * words.len()
    &&& forall|index: int|
        0 <= index < bytes.len() ==> #[trigger] bytes[index] == byte_of_long(
            words[index / 8],
            if high_end_first {
                7 - index % 8
            } else {
                index % 8
            },
        )
}

/// The bytes are those of the words, in one of the two orders that machines use.
pub open spec fn long_natively_laid_out(bytes: Seq<u8>, words: Seq<u64>) -> bool {
    long_laid_out(bytes, words, false) || long_laid_out(bytes, words, true)
}

/// The words that bytes stand for in memory. `bytemuck::pod_collect_to_vec`
/// copies the bytes into the memory of as many words as hold them. The contract
/// says that eight bytes give one word, all of them in one of the two byte
/// orders. Which of the two it is depends on the machine and is left unsaid.
#[verifier::external_body]
pub(crate) fn native_long_words(bytes: &Vec<u8>) -> (words: Vec<u64>)
    requires
        bytes@.len() % 8 == 0,
    ensures
        long_natively_laid_out(bytes@, words@),
{
    bytemuck::pod_collect_to_vec::<u8, u64>(bytes.as_slice())
}

} // verus!
