//! Small helpers on characters and text shared by the scanner and the
//! error record.

use vstd::prelude::*;

verus! {

/// Appending one character to a `String` extends its character sequence by
/// exactly that character, as the standard library documents for
/// `String::push`.
pub assume_specification[ std::string::String::push ](text: &mut std::string::String, ch: char)
    ensures
        final(text)@ == old(text)@.push(ch),
;

/// The characters of `source`, in order, as a random-access buffer.
pub(crate) fn to_chars(source: &str) -> (chars: Vec<char>)
    ensures
        chars@ == source@,
{
    let mut chars: Vec<char> = Vec::new();
    for ch in iter: source.chars()
        invariant
            chars@ == iter.seq().take(iter.index()),
    {
        chars.push(ch);
    }
    chars
}

/// The characters of `chars` from `from` up to, not including, `to`, as
/// an owned text.
pub(crate) fn text_of(chars: &[char], from: usize, to: usize) -> (text: String)
    requires
        from <= to <= chars@.len(),
    ensures
        text@ == chars@.subrange(from as int, to as int),
{
    let mut text = String::new();
    let mut at: usize = from;
    while at < to
        invariant
            from <= at <= to <= chars@.len(),
            text@ == chars@.subrange(from as int, at as int),
        decreases to - at,
    {
        text.push(chars[at]);
        at += 1;
        assert(chars@.subrange(from as int, at as int) == chars@.subrange(
            from as int,
            at - 1,
        ).push(chars@[at - 1]));
    }
    text
}

/// The character that writes the digit `digit`, for `digit < 10`.
pub open spec fn digit_char(digit: nat) -> char {
    (('0' as nat) + digit) as char
}

/// The decimal spelling of `n`, without leading zeros.
pub open spec fn decimal(n: nat) -> Seq<char>
    decreases n,
{
    if n < 10 {
        seq![digit_char(n)]
    } else {
        decimal(n / 10).push(digit_char(n % 10))
    }
}

/// Appends the decimal spelling of `n` to `text`.
pub(crate) fn push_decimal(text: &mut String, n: usize)
    ensures
        final(text)@ == old(text)@ + decimal(n as nat),
    decreases n,
{
    if n >= 10 {
        push_decimal(text, n / 10);
    }
    let digit = (n % 10) as u8;
    text.push(('0' as u8 + digit) as char);
    proof {
        assert(final(text)@ =~= old(text)@ + decimal(n as nat));
    }
}

} // verus!
