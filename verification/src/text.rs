//! Text: lines, words and numbers.

use vstd::prelude::*;
use vstd::string::*;

verus! {

/// Whether a character is white space.
pub open spec fn is_space(c: char) -> bool {
    ||| '\u{9}' <= c <= '\u{d}'
    ||| c == '\u{20}'
    ||| c == '\u{85}'
    ||| c == '\u{a0}'
    ||| c == '\u{1680}'
    ||| '\u{2000}' <= c <= '\u{200a}'
    ||| c == '\u{2028}'
    ||| c == '\u{2029}'
    ||| c == '\u{202f}'
    ||| c == '\u{205f}'
    ||| c == '\u{3000}'
}

/// Whether a character is white space.
pub fn space(c: char) -> (yes: bool)
    ensures
        yes == is_space(c),
{
    ('\u{9}' <= c && c <= '\u{d}') || c == '\u{20}' || c == '\u{85}' || c == '\u{a0}' || c
        == '\u{1680}' || ('\u{2000}' <= c && c <= '\u{200a}') || c == '\u{2028}' || c == '\u{2029}'
        || c == '\u{202f}' || c == '\u{205f}' || c == '\u{3000}'
}

/// The characters of a text.
pub fn chars_of(text: &str) -> (chars: Vec<char>)
    ensures
        chars@ == text@,
{
    let mut chars: Vec<char> = Vec::new();
    for c in iter: text.chars()
        invariant
            iter.seq() == text@,
            chars@ == text@.subrange(0, iter.index() as int),
    {
        chars.push(c);
        assert(chars@ =~= text@.subrange(0, iter.index() + 1));
    }
    assert(text@.subrange(0, text@.len() as int) =~= text@);
    chars
}

/// How many characters the text begins with that are not white space.
pub open spec fn word_len(text: Seq<char>) -> nat
    decreases text.len(),
{
    if text.len() == 0 || is_space(text[0]) {
        0
    } else {
        1 + word_len(text.subrange(1, text.len() as int))
    }
}

/// The words of a text.
pub open spec fn words(text: Seq<char>) -> Seq<Seq<char>>
    decreases text.len(),
{
    let length = text.len() as int;
    if text.len() == 0 {
        Seq::empty()
    } else if is_space(text[0]) {
        words(text.subrange(1, length))
    } else {
        let n = word_len(text) as int;
        if 0 < n <= length {
            seq![text.subrange(0, n)] + words(text.subrange(n, length))
        } else {
            Seq::empty()
        }
    }
}

/// The lines of a text, without the line feeds that end them.
pub open spec fn lines(text: Seq<char>) -> Seq<Seq<char>>
    decreases text.len(),
{
    let length = text.len() as int;
    if text.len() == 0 {
        Seq::empty()
    } else {
        let n = line_len(text) as int;
        if n < length {
            seq![text.subrange(0, n)] + lines(text.subrange(n + 1, length))
        } else {
            seq![text]
        }
    }
}

/// How many characters the text begins with before its first line ends.
pub open spec fn line_len(text: Seq<char>) -> nat
    decreases text.len(),
{
    if text.len() == 0 || text[0] == '\n' {
        0
    } else {
        1 + line_len(text.subrange(1, text.len() as int))
    }
}

/// A piece of a text, from `start` up to `end`.
#[derive(Debug, Clone, Copy, PartialEq, Eq, Structural)]
pub struct Piece {
    pub start: usize,
    pub end: usize,
}

/// The pieces of the text are these texts.
pub open spec fn pieces_are(text: Seq<char>, pieces: Seq<Piece>, texts: Seq<Seq<char>>) -> bool {
    &&& pieces.len() == texts.len()
    &&& forall|i: int|
        0 <= i < pieces.len() ==> {
            &&& (#[trigger] pieces[i]).start <= pieces[i].end <= text.len()
            &&& text.subrange(pieces[i].start as int, pieces[i].end as int) == texts[i]
        }
}

proof fn lemma_word_len(text: Seq<char>)
    ensures
        word_len(text) <= text.len(),
        forall|i: int| 0 <= i < word_len(text) ==> !is_space(#[trigger] text[i]),
        word_len(text) < text.len() ==> is_space(text[word_len(text) as int]),
    decreases text.len(),
{
    if text.len() > 0 && !is_space(text[0]) {
        let rest = text.subrange(1, text.len() as int);
        lemma_word_len(rest);
        assert forall|i: int| 0 <= i < word_len(text) implies !is_space(#[trigger] text[i]) by {
            if i > 0 {
                assert(text[i] == rest[i - 1]);
            }
        }
    }
}

/// A word ends where the first space follows.
pub proof fn lemma_word_len_is(text: Seq<char>, length: nat)
    requires
        length <= text.len(),
        forall|i: int| 0 <= i < length ==> !is_space(#[trigger] text[i]),
        length == text.len() || is_space(text[length as int]),
    ensures
        word_len(text) == length,
{
    lemma_word_len(text);
    if word_len(text) < length {
        assert(!is_space(text[word_len(text) as int]));
    } else if length < word_len(text) {
        assert(!is_space(text[length as int]));
    }
}

/// A line ends where its mark follows.
pub proof fn lemma_line_len(text: Seq<char>)
    ensures
        line_len(text) <= text.len(),
        forall|i: int| 0 <= i < line_len(text) ==> #[trigger] text[i] != '\n',
        line_len(text) < text.len() ==> text[line_len(text) as int] == '\n',
    decreases text.len(),
{
    if text.len() > 0 && text[0] != '\n' {
        let rest = text.subrange(1, text.len() as int);
        lemma_line_len(rest);
        assert forall|i: int| 0 <= i < line_len(text) implies #[trigger] text[i] != '\n' by {
            if i > 0 {
                assert(text[i] == rest[i - 1]);
            }
        }
    }
}

/// The words of a piece of a text.
pub fn words_in(text: &Vec<char>, piece: Piece) -> (pieces: Vec<Piece>)
    requires
        piece.start <= piece.end <= text@.len(),
    ensures
        pieces_are(
            text@,
            pieces@,
            words(text@.subrange(piece.start as int, piece.end as int)),
        ),
{
    let ghost end = piece.end as int;
    let ghost all = words(text@.subrange(piece.start as int, end));
    let mut pieces: Vec<Piece> = Vec::new();
    let mut at: usize = piece.start;
    assert(all =~= Seq::empty() + words(text@.subrange(at as int, end)));
    let ghost mut found: Seq<Seq<char>> = Seq::empty();
    while at < piece.end
        invariant
            piece.start <= at <= piece.end <= text@.len(),
            end == piece.end,
            pieces_are(text@, pieces@, found),
            all == found + words(text@.subrange(at as int, end)),
        decreases piece.end - at,
    {
        let ghost rest = text@.subrange(at as int, end);
        if space(text[at]) {
            at = at + 1;
            assert(rest.subrange(1, rest.len() as int) =~= text@.subrange(at as int, end));
        } else {
            let start: usize = at;
            while at < piece.end && !space(text[at])
                invariant
                    start <= at <= piece.end <= text@.len(),
                    forall|i: int| start <= i < at ==> !is_space(#[trigger] text@[i]),
                decreases piece.end - at,
            {
                at = at + 1;
            }
            proof {
                let n = (at - start) as nat;
                assert forall|i: int| 0 <= i < n implies !is_space(#[trigger] rest[i]) by {
                    assert(rest[i] == text@[start + i]);
                }
                if n < rest.len() {
                    assert(rest[n as int] == text@[at as int]);
                }
                lemma_word_len_is(rest, n);
                assert(n > 0) by {
                    if n == 0 {
                        assert(rest[0] == text@[start as int]);
                    }
                }
                assert(rest.subrange(n as int, rest.len() as int) =~= text@.subrange(
                    at as int,
                    end,
                ));
                let word = rest.subrange(0, n as int);
                assert(word =~= text@.subrange(start as int, at as int));
                assert(found + (seq![word] + words(text@.subrange(at as int, end))) =~= found.push(
                    word,
                ) + words(text@.subrange(at as int, end)));
                found = found.push(word);
            }
            pieces.push(Piece { start, end: at });
        }
    }
    proof {
        assert(text@.subrange(at as int, end) =~= Seq::empty());
        assert(all =~= found);
    }
    pieces
}

/// The lines of a text.
pub fn lines_in(text: &Vec<char>) -> (pieces: Vec<Piece>)
    ensures
        pieces_are(text@, pieces@, lines(text@)),
{
    let ghost end = text@.len() as int;
    let ghost all = lines(text@);
    let mut pieces: Vec<Piece> = Vec::new();
    let mut at: usize = 0;
    let ghost mut found: Seq<Seq<char>> = Seq::empty();
    assert(text@.subrange(0, end) =~= text@);
    assert(all =~= Seq::empty() + lines(text@.subrange(at as int, end)));
    while at < text.len()
        invariant
            at <= text@.len(),
            end == text@.len(),
            pieces_are(text@, pieces@, found),
            all == found + lines(text@.subrange(at as int, end)),
        decreases text@.len() - at,
    {
        let ghost rest = text@.subrange(at as int, end);
        let start: usize = at;
        while at < text.len() && text[at] != '\n'
            invariant
                start <= at <= text@.len(),
                forall|i: int| start <= i < at ==> #[trigger] text@[i] != '\n',
            decreases text@.len() - at,
        {
            at = at + 1;
        }
        pieces.push(Piece { start, end: at });
        proof {
            let n = (at - start) as nat;
            lemma_line_len(rest);
            assert(line_len(rest) == n) by {
                if line_len(rest) < n {
                    assert(rest[line_len(rest) as int] == text@[start + line_len(rest)]);
                } else if n < line_len(rest) {
                    assert(rest[n as int] == text@[at as int]);
                }
            }
            let line = rest.subrange(0, n as int);
            assert(line =~= text@.subrange(start as int, at as int));
            if at < text@.len() {
                assert(
                    rest.subrange(n as int + 1, rest.len() as int) =~= text@.subrange(at + 1, end)
                );
                assert(found + (seq![line] + lines(text@.subrange(at + 1, end))) =~= found.push(
                    line,
                ) + lines(text@.subrange(at + 1, end)));
            } else {
                assert(line =~= rest);
                assert(text@.subrange(end, end) =~= Seq::empty());
                assert(found + seq![line] =~= found.push(line) + lines(text@.subrange(end, end)));
            }
            found = found.push(line);
        }
        if at < text.len() {
            at = at + 1;
        }
    }
    proof {
        assert(text@.subrange(at as int, end) =~= Seq::empty());
        assert(all =~= found);
    }
    pieces
}

/// The number that a hexadecimal digit writes.
pub open spec fn hex_digit(c: char) -> Option<nat> {
    if '0' <= c <= '9' {
        Some((c as nat - '0' as nat) as nat)
    } else if 'a' <= c <= 'f' {
        Some((c as nat - 'a' as nat + 10) as nat)
    } else if 'A' <= c <= 'F' {
        Some((c as nat - 'A' as nat + 10) as nat)
    } else {
        None
    }
}

/// The number that hexadecimal digits write, if they are all digits.
pub open spec fn hex_digits(text: Seq<char>) -> Option<nat>
    decreases text.len(),
{
    if text.len() == 0 {
        Some(0)
    } else {
        match (hex_digits(text.drop_last()), hex_digit(text.last())) {
            (Some(high), Some(low)) => Some(high * 16 + low),
            _ => None,
        }
    }
}

/// The hexadecimal number that a text writes, after a plus sign or not, unless it
/// is not below the limit.
pub open spec fn hex_number(text: Seq<char>, limit: nat) -> Option<nat> {
    let digits = if text.len() > 0 && text[0] == '+' {
        text.subrange(1, text.len() as int)
    } else {
        text
    };
    if digits.len() == 0 {
        None
    } else {
        match hex_digits(digits) {
            Some(value) if value < limit => Some(value),
            _ => None,
        }
    }
}

/// The number that a hexadecimal digit writes.
pub fn parse_hex_digit(c: char) -> (digit: Option<u8>)
    ensures
        match digit {
            Some(value) => hex_digit(c) == Some(value as nat) && value < 16,
            None => hex_digit(c) is None,
        },
{
    if '0' <= c && c <= '9' {
        Some((c as u32 - '0' as u32) as u8)
    } else if 'a' <= c && c <= 'f' {
        Some((c as u32 - 'a' as u32 + 10) as u8)
    } else if 'A' <= c && c <= 'F' {
        Some((c as u32 - 'A' as u32 + 10) as u8)
    } else {
        None
    }
}

/// If some digits do not fit below the limit, or are none, more do not either.
proof fn lemma_hex_grows(text: Seq<char>, count: int, limit: nat)
    requires
        0 <= count <= text.len(),
        match hex_digits(text.subrange(0, count)) {
            Some(value) => value >= limit,
            None => true,
        },
    ensures
        match hex_digits(text) {
            Some(value) => value >= limit,
            None => true,
        },
    decreases text.len() - count,
{
    if count < text.len() {
        let next = text.subrange(0, count + 1);
        assert(next.drop_last() =~= text.subrange(0, count));
        lemma_hex_grows(text, count + 1, limit);
    } else {
        assert(text.subrange(0, count) =~= text);
    }
}

/// The hexadecimal number that a piece of a text writes, unless it is not below
/// the limit.
pub fn parse_hex(text: &Vec<char>, piece: Piece, limit: u64) -> (number: Option<u64>)
    requires
        piece.start <= piece.end <= text@.len(),
        limit <= 0x1_0000_0000,
    ensures
        match number {
            Some(value) => hex_number(
                text@.subrange(piece.start as int, piece.end as int),
                limit as nat,
            ) == Some(value as nat),
            None => hex_number(
                text@.subrange(piece.start as int, piece.end as int),
                limit as nat,
            ) is None,
        },
{
    let ghost whole = text@.subrange(piece.start as int, piece.end as int);
    let mut start: usize = piece.start;
    if start < piece.end && text[start] == '+' {
        start = start + 1;
    }
    let ghost digits = text@.subrange(start as int, piece.end as int);
    proof {
        if start > piece.start {
            assert(whole[0] == text@[piece.start as int]);
            assert(digits =~= whole.subrange(1, whole.len() as int));
        } else {
            assert(digits =~= whole);
            if whole.len() > 0 {
                assert(whole[0] == text@[piece.start as int]);
            }
        }
    }
    if start == piece.end {
        return None;
    }
    let mut value: u64 = 0;
    let mut at: usize = start;
    assert(digits.subrange(0, 0) =~= Seq::empty());
    while at < piece.end
        invariant
            piece.start <= start <= at <= piece.end <= text@.len(),
            start < piece.end,
            whole == text@.subrange(piece.start as int, piece.end as int),
            digits == text@.subrange(start as int, piece.end as int),
            digits == (if whole.len() > 0 && whole[0] == '+' {
                whole.subrange(1, whole.len() as int)
            } else {
                whole
            }),
            limit <= 0x1_0000_0000,
            value < limit || value == 0,
            hex_digits(digits.subrange(0, at - start)) == Some(value as nat),
        decreases piece.end - at,
    {
        let ghost done = at - start;
        let ghost next = digits.subrange(0, done + 1);
        proof {
            assert(next.drop_last() =~= digits.subrange(0, done));
            assert(next.last() == text@[at as int]);
        }
        match parse_hex_digit(text[at]) {
            None => {
                proof {
                    lemma_hex_grows(digits, done + 1, limit as nat);
                }
                return None;
            },
            Some(digit) => {
                value = value * 16 + digit as u64;
                if value >= limit {
                    proof {
                        lemma_hex_grows(digits, done + 1, limit as nat);
                    }
                    return None;
                }
            },
        }
        at = at + 1;
    }
    assert(digits.subrange(0, digits.len() as int) =~= digits);
    if value >= limit {
        return None;
    }
    Some(value)
}

/// The digit that writes a number below sixteen.
pub open spec fn digit_char(number: nat) -> char {
    if number < 10 {
        ('0' as nat + number) as char
    } else {
        ('a' as nat + number - 10) as char
    }
}

/// The text of the digit that writes a number below sixteen.
pub fn digit_text(number: u8) -> (text: &'static str)
    requires
        number < 16,
    ensures
        text@ == seq![digit_char(number as nat)],
{
    proof {
        reveal_strlit("0");
        reveal_strlit("1");
        reveal_strlit("2");
        reveal_strlit("3");
        reveal_strlit("4");
        reveal_strlit("5");
        reveal_strlit("6");
        reveal_strlit("7");
        reveal_strlit("8");
        reveal_strlit("9");
        reveal_strlit("a");
        reveal_strlit("b");
        reveal_strlit("c");
        reveal_strlit("d");
        reveal_strlit("e");
        reveal_strlit("f");
    }
    let text: &'static str = if number == 0 {
        "0"
    } else if number == 1 {
        "1"
    } else if number == 2 {
        "2"
    } else if number == 3 {
        "3"
    } else if number == 4 {
        "4"
    } else if number == 5 {
        "5"
    } else if number == 6 {
        "6"
    } else if number == 7 {
        "7"
    } else if number == 8 {
        "8"
    } else if number == 9 {
        "9"
    } else if number == 10 {
        "a"
    } else if number == 11 {
        "b"
    } else if number == 12 {
        "c"
    } else if number == 13 {
        "d"
    } else if number == 14 {
        "e"
    } else {
        "f"
    };
    assert(text@ =~= seq![digit_char(number as nat)]);
    text
}

/// A number in so many hexadecimal digits.
pub open spec fn hex_text(number: nat, count: nat) -> Seq<char>
    decreases count,
{
    if count == 0 {
        Seq::empty()
    } else {
        hex_text(number / 16, (count - 1) as nat).push(digit_char(number % 16))
    }
}

/// Appends a number in so many hexadecimal digits.
pub fn push_hex(text: &mut String, number: u128, count: usize)
    ensures
        final(text)@ == old(text)@ + hex_text(number as nat, count as nat),
    decreases count,
{
    if count > 0 {
        let ghost before = text@;
        push_hex(text, number / 16, count - 1);
        text.append(digit_text((number % 16) as u8));
        assert(text@ =~= before + hex_text(number as nat, count as nat));
    } else {
        assert(text@ =~= text@ + hex_text(number as nat, 0));
    }
}

/// A number in decimal digits.
pub open spec fn decimal_text(number: nat) -> Seq<char>
    decreases number,
{
    if number < 10 {
        seq![digit_char(number)]
    } else {
        decimal_text(number / 10).push(digit_char(number % 10))
    }
}

/// Appends a number in decimal digits.
pub fn push_decimal(text: &mut String, number: u64)
    ensures
        final(text)@ == old(text)@ + decimal_text(number as nat),
    decreases number,
{
    if number < 10 {
        text.append(digit_text(number as u8));
    } else {
        let ghost before = text@;
        push_decimal(text, number / 10);
        text.append(digit_text((number % 10) as u8));
        assert(text@ =~= before + decimal_text(number as nat));
    }
}

/// A character, in lower case if it is an ASCII letter.
pub open spec fn lowered_char(c: char) -> char {
    if 'A' <= c <= 'Z' {
        (c as nat + 32) as char
    } else {
        c
    }
}

/// A text with its ASCII letters in lower case.
pub open spec fn lowered(text: Seq<char>) -> Seq<char> {
    text.map_values(|c: char| lowered_char(c))
}

/// Whether a text is this word, whatever the case of its ASCII letters. The word
/// has none in upper case.
pub fn is_word(text: &str, word: &str) -> (yes: bool)
    ensures
        yes == (lowered(text@) == word@),
{
    let found: Vec<char> = chars_of(text);
    let expected: Vec<char> = chars_of(word);
    if found.len() != expected.len() {
        return false;
    }
    let mut index: usize = 0;
    while index < found.len()
        invariant
            index <= found@.len(),
            found@.len() == expected@.len(),
            found@ == text@,
            expected@ == word@,
            forall|i: int| 0 <= i < index ==> lowered(text@)[i] == #[trigger] word@[i],
        decreases found@.len() - index,
    {
        if lower(found[index]) != expected[index] {
            assert(lowered(text@)[index as int] != word@[index as int]);
            return false;
        }
        index = index + 1;
    }
    assert(lowered(text@) =~= word@);
    true
}

/// A character, in lower case if it is an ASCII letter.
fn lower(c: char) -> (low: char)
    ensures
        low == lowered_char(c),
{
    if 'A' <= c && c <= 'Z' {
        ((c as u32) as u8 + 32) as char
    } else {
        c
    }
}

/// Where a text begins after the white space before it.
pub open spec fn text_start(text: Seq<char>) -> int
    decreases text.len(),
{
    if text.len() > 0 && is_space(text[0]) {
        1 + text_start(text.drop_first())
    } else {
        0
    }
}

/// Where a text ends before the white space after it.
pub open spec fn text_end(text: Seq<char>) -> int
    decreases text.len(),
{
    if text.len() > 0 && is_space(text.last()) {
        text_end(text.drop_last())
    } else {
        text.len() as int
    }
}

/// A text without the white space around it.
pub open spec fn trimmed(text: Seq<char>) -> Seq<char> {
    let begun = text.subrange(text_start(text), text.len() as int);
    begun.subrange(0, text_end(begun))
}

proof fn lemma_text_start(text: Seq<char>, start: int)
    requires
        0 <= start <= text.len(),
        forall|i: int| 0 <= i < start ==> is_space(#[trigger] text[i]),
        start < text.len() ==> !is_space(text[start]),
    ensures
        text_start(text) == start,
    decreases text.len(),
{
    if start > 0 {
        let rest = text.drop_first();
        assert forall|i: int| 0 <= i < start - 1 implies is_space(#[trigger] rest[i]) by {
            assert(rest[i] == text[i + 1]);
        }
        assert(is_space(text[0]));
        lemma_text_start(rest, start - 1);
    }
}

proof fn lemma_text_end(text: Seq<char>, end: int)
    requires
        0 <= end <= text.len(),
        forall|i: int| end <= i < text.len() ==> is_space(#[trigger] text[i]),
        end > 0 ==> !is_space(text[end - 1]),
    ensures
        text_end(text) == end,
    decreases text.len(),
{
    if end < text.len() {
        let rest = text.drop_last();
        assert(is_space(text[text.len() - 1]));
        lemma_text_end(rest, end);
    }
}

/// A text without the white space around it.
pub fn trim(text: &str) -> (piece: String)
    ensures
        piece@ == trimmed(text@),
{
    let chars: Vec<char> = chars_of(text);
    let mut start: usize = 0;
    while start < chars.len() && space(chars[start])
        invariant
            start <= chars@.len(),
            forall|i: int| 0 <= i < start ==> is_space(#[trigger] chars@[i]),
        ensures
            start <= chars@.len(),
            forall|i: int| 0 <= i < start ==> is_space(#[trigger] chars@[i]),
            start < chars@.len() ==> !is_space(chars@[start as int]),
        decreases chars@.len() - start,
    {
        start = start + 1;
    }
    let mut end: usize = chars.len();
    while end > start && space(chars[end - 1])
        invariant
            start <= end <= chars@.len(),
            forall|i: int| end <= i < chars@.len() ==> is_space(#[trigger] chars@[i]),
        ensures
            start <= end <= chars@.len(),
            forall|i: int| end <= i < chars@.len() ==> is_space(#[trigger] chars@[i]),
            end > start ==> !is_space(chars@[end - 1]),
        decreases end,
    {
        end = end - 1;
    }
    proof {
        lemma_text_start(text@, start as int);
        let begun = text@.subrange(start as int, text@.len() as int);
        assert forall|i: int| end - start <= i < begun.len() implies is_space(
            #[trigger] begun[i],
        ) by {
            assert(begun[i] == text@[i + start]);
        }
        if end > start {
            assert(begun[end - start - 1] == text@[end - 1]);
        }
        lemma_text_end(begun, end - start);
        assert(begun.subrange(0, end - start) =~= text@.subrange(start as int, end as int));
    }
    text.substring_char(start, end).to_owned()
}

} // verus!
