//! What splitting, trimming and writing of text comes to.

use vstd::prelude::*;

use crate::text::{
    decimal_text, is_space, is_word, lemma_line_len, lemma_word_len_is, line_len, lines, lowered,
    lowered_char, parse_hex_digit, push_decimal, space, text_end, text_start, trim, words,
};

verus! {

/// Blanks, tabs and ends of lines are space; letters, digits and signs are not.
pub proof fn law_blanks_are_space(c: char, yes: bool)
    requires
        call_ensures(space, (c,), yes),
    ensures
        c == ' ' || c == '\t' || c == '\n' || c == '\r' ==> yes,
        '!' <= c <= '~' ==> !yes,
{
}

/// A word that is followed by a space is split off; the words of the rest follow it.
pub proof fn law_words_end_at_spaces(word: Seq<char>, gap: char, rest: Seq<char>)
    requires
        word.len() > 0,
        forall|i: int| 0 <= i < word.len() ==> !is_space(#[trigger] word[i]),
        is_space(gap),
    ensures
        words(word + seq![gap] + rest) == seq![word] + words(rest),
        words(seq![gap] + rest) == words(rest),
        words(word) == seq![word],
{
    let text = word + seq![gap] + rest;
    let length = word.len() as int;
    assert forall|i: int| 0 <= i < length implies !is_space(#[trigger] text[i]) by {
        assert(text[i] == word[i]);
    }
    assert(text[length] == gap);
    lemma_word_len_is(text, word.len());
    assert(!is_space(text[0]));
    assert(text.subrange(0, length) =~= word);
    let behind = text.subrange(length, text.len() as int);
    assert(behind =~= seq![gap] + rest);
    assert(behind[0] == gap);
    assert(behind.subrange(1, behind.len() as int) =~= rest);
    assert(words(behind) == words(rest));
    lemma_word_len_is(word, word.len());
    assert(!is_space(word[0]));
    assert(word.subrange(0, length) =~= word);
    assert(word.subrange(length, length) =~= Seq::<char>::empty());
    assert(words(Seq::<char>::empty()) == Seq::<Seq<char>>::empty());
    assert(words(word) =~= seq![word]);
}

/// A line that is ended is split off, also an empty one; the lines of the rest follow
/// it. What is not ended is a line if it is something.
pub proof fn law_lines_end_at_their_marks(line: Seq<char>, rest: Seq<char>)
    requires
        forall|i: int| 0 <= i < line.len() ==> #[trigger] line[i] != '\n',
    ensures
        lines(line + seq!['\n'] + rest) == seq![line] + lines(rest),
        line.len() > 0 ==> lines(line) == seq![line],
        lines(Seq::<char>::empty()) == Seq::<Seq<char>>::empty(),
{
    let text = line + seq!['\n'] + rest;
    let length = line.len() as int;
    lemma_line_len(text);
    assert(text[length] == '\n');
    if line_len(text) < length {
        assert(text[line_len(text) as int] == line[line_len(text) as int]);
    }
    assert(line_len(text) == length);
    assert(text.subrange(0, length) =~= line);
    assert(text.subrange(length + 1, text.len() as int) =~= rest);
    lemma_line_len(line);
}

proof fn lemma_start(text: Seq<char>)
    ensures
        0 <= text_start(text) <= text.len(),
        forall|i: int| 0 <= i < text_start(text) ==> is_space(#[trigger] text[i]),
        text_start(text) < text.len() ==> !is_space(text[text_start(text)]),
    decreases text.len(),
{
    if text.len() > 0 && is_space(text[0]) {
        let rest = text.drop_first();
        lemma_start(rest);
        assert forall|i: int| 0 <= i < text_start(text) implies is_space(#[trigger] text[i]) by {
            if i > 0 {
                assert(text[i] == rest[i - 1]);
            }
        }
        if text_start(text) < text.len() {
            assert(text[text_start(text)] == rest[text_start(rest)]);
        }
    }
}

proof fn lemma_end(text: Seq<char>)
    ensures
        0 <= text_end(text) <= text.len(),
        forall|i: int| text_end(text) <= i < text.len() ==> is_space(#[trigger] text[i]),
        text_end(text) > 0 ==> !is_space(text[text_end(text) - 1]),
    decreases text.len(),
{
    if text.len() > 0 && is_space(text.last()) {
        let rest = text.drop_last();
        lemma_end(rest);
        assert forall|i: int| text_end(text) <= i < text.len() implies is_space(
            #[trigger] text[i],
        ) by {
            if i < text.len() - 1 {
                assert(text[i] == rest[i]);
            }
        }
    }
}

/// Trimming takes away the space on both sides and nothing else.
pub proof fn law_trimming_takes_away_space_alone(text: &str, piece: String)
    requires
        call_ensures(trim, (text,), piece),
    ensures
        exists|from: int, to: int|
            {
                &&& 0 <= from <= to <= text@.len()
                &&& piece@ == #[trigger] text@.subrange(from, to)
                &&& forall|i: int| 0 <= i < from ==> is_space(#[trigger] text@[i])
                &&& forall|i: int| to <= i < text@.len() ==> is_space(#[trigger] text@[i])
            },
        piece@.len() > 0 ==> !is_space(piece@[0]) && !is_space(piece@.last()),
{
    let from = text_start(text@);
    lemma_start(text@);
    let begun = text@.subrange(from, text@.len() as int);
    lemma_end(begun);
    let to = from + text_end(begun);
    assert(piece@ =~= text@.subrange(from, to));
    assert forall|i: int| to <= i < text@.len() implies is_space(#[trigger] text@[i]) by {
        assert(begun[i - from] == text@[i]);
    }
    if piece@.len() > 0 {
        assert(piece@[0] == text@[from]);
        assert(piece@.last() == begun[text_end(begun) - 1]);
    }
}

/// The number that decimal digits write.
pub open spec fn decimal_value(text: Seq<char>) -> int
    decreases text.len(),
{
    if text.len() == 0 {
        0
    } else {
        decimal_value(text.drop_last()) * 10 + (text.last() as int - '0' as int)
    }
}

proof fn lemma_decimal(number: nat)
    ensures
        decimal_value(decimal_text(number)) == number,
        decimal_text(number).len() > 0,
        number > 0 ==> decimal_text(number)[0] != '0',
        forall|i: int|
            0 <= i < decimal_text(number).len() ==> '0' <= #[trigger] decimal_text(number)[i]
                <= '9',
    decreases number,
{
    let text = decimal_text(number);
    if number >= 10 {
        lemma_decimal(number / 10);
        let high = decimal_text(number / 10);
        assert(text.drop_last() =~= high);
        assert(text[0] == high[0]);
        assert(text.last() as int == '0' as int + number % 10);
        assert forall|i: int| 0 <= i < text.len() implies '0' <= #[trigger] text[i] <= '9' by {
            if i < high.len() {
                assert(text[i] == high[i]);
            }
        }
    } else {
        assert(text.drop_last() =~= Seq::<char>::empty());
        assert(decimal_value(Seq::<char>::empty()) == 0);
        assert(text.last() as int == '0' as int + number);
    }
}

/// A number is written with digits that make it, the first of which is not nothing
/// unless the number is.
pub proof fn law_number_is_written_in_its_digits(text: &mut String, number: u64)
    requires
        call_ensures(push_decimal, (text, number), ()),
    ensures
        ({
            let start = old(text)@.len() as int;
            let digits = final(text)@.subrange(start, final(text)@.len() as int);
            &&& final(text)@.subrange(0, start) == old(text)@
            &&& digits.len() > 0
            &&& decimal_value(digits) == number
            &&& number > 0 ==> digits[0] != '0'
            &&& forall|i: int| 0 <= i < digits.len() ==> '0' <= #[trigger] digits[i] <= '9'
        }),
{
    let start = old(text)@.len() as int;
    let digits = final(text)@.subrange(start, final(text)@.len() as int);
    lemma_decimal(number as nat);
    assert(digits =~= decimal_text(number as nat));
    assert(final(text)@.subrange(0, start) =~= old(text)@);
}

/// Hexadecimal digits are worth what they are, in either case.
pub proof fn law_hexadecimal_digits_are_worth_their_place(
    c: char,
    digit: Option<u8>,
    low: char,
    same: Option<u8>,
)
    requires
        call_ensures(parse_hex_digit, (c,), digit),
        low == lowered_char(c),
        call_ensures(parse_hex_digit, (low,), same),
    ensures
        digit == same,
        '0' <= c <= '9' ==> digit is Some && digit->0 == c as int - '0' as int,
        'a' <= c <= 'f' ==> digit is Some && digit->0 == c as int - 'a' as int + 10,
        digit is Some ==> digit->0 < 16,
        low > 'f' || (low > '9' && low < 'a') || low < '0' ==> digit is None,
{
}

/// A text is a word, whatever its case, exactly if it has the letters of the word.
pub proof fn law_words_are_known_in_any_case(text: &str, word: &str, yes: bool)
    requires
        forall|i: int| 0 <= i < word@.len() ==> 'a' <= #[trigger] word@[i] <= 'z',
        call_ensures(is_word, (text, word), yes),
    ensures
        yes <==> text@.len() == word@.len() && forall|i: int|
            0 <= i < word@.len() ==> {
                let c = #[trigger] text@[i];
                c == word@[i] || c as int == word@[i] as int - 32
            },
{
    let low = lowered(text@);
    assert(low.len() == text@.len());
    assert forall|i: int| 0 <= i < low.len() implies #[trigger] low[i] == lowered_char(
        text@[i],
    ) by {
    }
    if yes {
        assert forall|i: int| 0 <= i < word@.len() implies {
            let c = #[trigger] text@[i];
            c == word@[i] || c as int == word@[i] as int - 32
        } by {
            assert(low[i] == word@[i]);
        }
    }
    if text@.len() == word@.len() && forall|i: int|
        0 <= i < word@.len() ==> {
            let c = #[trigger] text@[i];
            c == word@[i] || c as int == word@[i] as int - 32
        } {
        assert forall|i: int| 0 <= i < low.len() implies #[trigger] low[i] == word@[i] by {
            assert('a' <= word@[i] <= 'z');
            let c = text@[i];
            assert(low[i] == lowered_char(c));
        }
        assert(low =~= word@);
    }
}

} // verus!
