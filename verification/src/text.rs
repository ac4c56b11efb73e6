//! Building blocks of the terminal boxes: decimal numbers, runs of one
//! character, and the number of bytes that a text takes when it is encoded,
//! which is the unit in which the boxes are measured.
use vstd::prelude::*;
use vstd::utf8::encode_utf8;
use vstd::utf8::is_ascii_chars;
use vstd::utf8::is_ascii_chars_encode_utf8;

verus! {

/// The number of bytes of the UTF-8 encoding of a text.
pub open spec fn byte_len(text: Seq<char>) -> nat {
    encode_utf8(text).len()
}

/// The number of bytes of the UTF-8 encoding of one character.
pub open spec fn char_width(c: char) -> nat {
    if c as u32 <= 0x7f {
        1
    } else if c as u32 <= 0x7ff {
        2
    } else if c as u32 <= 0xffff {
        3
    } else {
        4
    }
}

/// A run of `count` times the same character.
pub open spec fn repeated(c: char, count: nat) -> Seq<char> {
    Seq::new(count, |position: int| c)
}

/// The character of a decimal digit.
pub open spec fn digit_char(digit: nat) -> char {
    if digit == 0 {
        '0'
    } else if digit == 1 {
        '1'
    } else if digit == 2 {
        '2'
    } else if digit == 3 {
        '3'
    } else if digit == 4 {
        '4'
    } else if digit == 5 {
        '5'
    } else if digit == 6 {
        '6'
    } else if digit == 7 {
        '7'
    } else if digit == 8 {
        '8'
    } else {
        '9'
    }
}

/// A number in decimal digits, without leading zeros.
pub open spec fn decimal(number: nat) -> Seq<char>
    decreases number,
{
    if number < 10 {
        seq![digit_char(number)]
    } else {
        decimal(number / 10).push(digit_char(number % 10))
    }
}

/// The encoding of a text in two parts is the encoding of the first part,
/// followed by that of the second.
pub proof fn lemma_encode_concat(left: Seq<char>, right: Seq<char>)
    ensures
        encode_utf8(left + right) == encode_utf8(left) + encode_utf8(right),
    decreases left.len(),
{
    if left.len() == 0 {
        assert(left + right =~= right);
        assert(encode_utf8(left) =~= Seq::<u8>::empty());
        assert(encode_utf8(left) + encode_utf8(right) =~= encode_utf8(right));
    } else {
        assert((left + right).drop_first() =~= left.drop_first() + right);
        assert((left + right)[0] == left[0]);
        lemma_encode_concat(left.drop_first(), right);
        assert(encode_utf8(left + right) =~= encode_utf8(left) + encode_utf8(right));
    }
}

/// The bytes of a text in two parts are the bytes of both.
pub proof fn lemma_byte_len_concat(left: Seq<char>, right: Seq<char>)
    ensures
        byte_len(left + right) == byte_len(left) + byte_len(right),
{
    lemma_encode_concat(left, right);
}

/// One character takes as many bytes as its width says.
pub proof fn lemma_byte_len_char(c: char)
    ensures
        byte_len(seq![c]) == char_width(c),
{
    let text = seq![c];
    assert(text.drop_first() =~= Seq::<char>::empty());
    assert(encode_utf8(text.drop_first()) =~= Seq::<u8>::empty());
    assert(text[0] == c);
    assert(encode_utf8(text) =~= vstd::utf8::encode_scalar(c as u32) + Seq::<u8>::empty());
}

/// A text of ASCII characters takes one byte per character.
pub proof fn lemma_byte_len_ascii(text: Seq<char>)
    requires
        is_ascii_chars(text),
    ensures
        byte_len(text) == text.len(),
{
    is_ascii_chars_encode_utf8(text);
}

/// A run takes the bytes of its character, once for each repetition.
pub proof fn lemma_byte_len_repeated(c: char, count: nat)
    ensures
        byte_len(repeated(c, count)) == count * char_width(c),
    decreases count,
{
    if count == 0 {
        assert(repeated(c, count) =~= Seq::<char>::empty());
        assert(encode_utf8(repeated(c, count)) =~= Seq::<u8>::empty());
    } else {
        let shorter = repeated(c, (count - 1) as nat);
        assert(repeated(c, count) =~= shorter + seq![c]);
        lemma_byte_len_concat(shorter, seq![c]);
        lemma_byte_len_char(c);
        lemma_byte_len_repeated(c, (count - 1) as nat);
        assert(count * char_width(c) == (count - 1) * char_width(c) + char_width(c))
            by (nonlinear_arith);
    }
}

/// A decimal number is made of ASCII digits: at least one, and no more than
/// twenty for a number of sixty-four bits.
pub proof fn lemma_decimal_digits(number: nat)
    ensures
        is_ascii_chars(decimal(number)),
        1 <= decimal(number).len(),
        byte_len(decimal(number)) == decimal(number).len(),
        number <= u64::MAX ==> decimal(number).len() <= 20,
    decreases number,
{
    if number >= 10 {
        lemma_decimal_digits(number / 10);
        lemma_decimal_shorter(number / 10, number);
    }
    lemma_byte_len_ascii(decimal(number));
    if number <= u64::MAX {
        lemma_decimal_shorter(number, u64::MAX as nat);
        lemma_decimal_of_largest();
    }
}

/// The largest number of sixty-four bits has twenty digits.
proof fn lemma_decimal_of_largest()
    ensures
        decimal(u64::MAX as nat).len() == 20,
{
    reveal_with_fuel(decimal, 21);
}

/// A smaller number has no more digits.
pub proof fn lemma_decimal_shorter(smaller: nat, larger: nat)
    requires
        smaller <= larger,
    ensures
        decimal(smaller).len() <= decimal(larger).len(),
        1 <= decimal(smaller).len(),
    decreases larger,
{
    if larger >= 10 {
        if smaller >= 10 {
            lemma_decimal_shorter(smaller / 10, larger / 10);
        } else {
            lemma_decimal_shorter(larger / 10, larger / 10);
        }
    }
}

/// The number of bytes of a text.
pub fn byte_length(text: &String) -> (length: usize)
    requires
        byte_len(text@) <= usize::MAX,
    ensures
        length == byte_len(text@),
{
    text.as_str().len()
}

/// Appends `count` times the single character of `piece`.
pub fn push_repeated(text: &mut String, piece: &str, count: usize)
    requires
        piece@.len() == 1,
    ensures
        final(text)@ == old(text)@ + repeated(piece@[0], count as nat),
{
    let mut done: usize = 0;
    assert(text@ =~= old(text)@ + repeated(piece@[0], 0));
    while done < count
        invariant
            done <= count,
            piece@.len() == 1,
            text@ == old(text)@ + repeated(piece@[0], done as nat),
        decreases count - done,
    {
        text.append(piece);
        done += 1;
        assert(text@ =~= old(text)@ + repeated(piece@[0], done as nat));
    }
}

/// The text of one decimal digit.
fn digit_text(digit: u64) -> (text: &'static str)
    requires
        digit < 10,
    ensures
        text@ == seq![digit_char(digit as nat)],
{
    proof {
        reveal_strlit("0");
        reveal_strlit("1");
        reveal_strlit("2");
        reveal_strlit("3");
        reveal_strlit("4");
        reveal_strlit("5");
        reveal_strlit("6");
        reveal_strlit("7");
        reveal_strlit("8");
        reveal_strlit("9");
    }
    let text: &'static str = if digit == 0 {
        "0"
    } else if digit == 1 {
        "1"
    } else if digit == 2 {
        "2"
    } else if digit == 3 {
        "3"
    } else if digit == 4 {
        "4"
    } else if digit == 5 {
        "5"
    } else if digit == 6 {
        "6"
    } else if digit == 7 {
        "7"
    } else if digit == 8 {
        "8"
    } else {
        "9"
    };
    assert(text@ =~= seq![digit_char(digit as nat)]);
    text
}

/// Appends a number in decimal digits.
pub fn push_decimal(text: &mut String, number: u64)
    ensures
        final(text)@ == old(text)@ + decimal(number as nat),
    decreases number,
{
    if number >= 10 {
        push_decimal(text, number / 10);
    }
    text.append(digit_text(number % 10));
    assert(text@ =~= old(text)@ + decimal(number as nat));
}

} // verus!
