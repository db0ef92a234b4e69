//! What the parts of messages say.
use vstd::prelude::*;

verus! {

/// The number that a text of decimal digits stands for.
pub open spec fn number_read(text: Seq<char>) -> int
    decreases text.len(),
{
    if text.len() == 0 {
        0
    } else {
        number_read(text.drop_last()) * 10 + (text.last() as int - '0' as int)
    }
}

/// Every character of the text is a decimal digit.
pub open spec fn all_digits(text: Seq<char>) -> bool {
    forall|i: int| 0 <= i < text.len() ==> '0' as int <= #[trigger] text[i] as int <= '9' as int
}

/// A number can be read back from its decimal notation, which consists of digits, and does
/// not start with a zero but for zero itself.
pub proof fn lemma_numbers_can_be_read_back(number: nat)
    ensures
        number_read(crate::text::decimal_text(number)) == number,
        all_digits(crate::text::decimal_text(number)),
        crate::text::decimal_text(number).len() > 0,
        number > 0 ==> crate::text::decimal_text(number)[0] != '0',
    decreases number,
{
    let text = crate::text::decimal_text(number);
    lemma_digit((number % 10) as int);
    if number < 10 {
        reveal_with_fuel(number_read, 2);
        assert(number % 10 == number);
        assert(text.drop_last() =~= Seq::<char>::empty());
    } else {
        let head = crate::text::decimal_text(number / 10);
        lemma_numbers_can_be_read_back(number / 10);
        assert(text.drop_last() =~= head);
        assert forall|i: int| 0 <= i < text.len() implies '0' as int <= #[trigger] text[i] as int
            <= '9' as int by {
            if i < head.len() {
                assert(text[i] == head[i]);
            }
        }
        assert(text[0] == head[0]);
    }
}

proof fn lemma_digit(digit: int)
    requires
        0 <= digit < 10,
    ensures
        crate::text::digit_text(digit).len() == 1,
        crate::text::digit_text(digit)[0] as int - '0' as int == digit,
{
    reveal_strlit("0");
    reveal_strlit("1");
    reveal_strlit("2");
    reveal_strlit("3");
    reveal_strlit("4");
    reveal_strlit("5");
    reveal_strlit("6");
    reveal_strlit("7");
    reveal_strlit("8");
    reveal_strlit("9");
}

/// Texts are joined from the first to the last, with the separator between two of them
/// and nowhere else.
pub proof fn lemma_texts_are_joined(parts: Seq<Seq<char>>, separator: Seq<char>)
    ensures
        parts.len() == 0 ==> crate::text::joined_text(parts, separator).len() == 0,
        parts.len() == 1 ==> crate::text::joined_text(parts, separator) == parts[0],
        parts.len() > 1 ==> crate::text::joined_text(parts, separator) == parts[0] + separator
            + crate::text::joined_text(parts.drop_first(), separator),
    decreases parts.len(),
{
    if parts.len() > 1 {
        let rest = parts.drop_first();
        let shorter = parts.drop_last();
        assert(shorter.drop_first() =~= rest.drop_last());
        assert(shorter[0] == parts[0]);
        assert(rest.last() == parts.last());
        lemma_texts_are_joined(shorter, separator);
        if parts.len() == 2 {
            assert(rest[0] == parts.last());
            assert(crate::text::joined_text(parts, separator) =~= parts[0] + separator
                + crate::text::joined_text(rest, separator));
        } else {
            assert(crate::text::joined_text(parts, separator) =~= parts[0] + separator
                + crate::text::joined_text(rest, separator));
        }
    }
}

} // verus!
