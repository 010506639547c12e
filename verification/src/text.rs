use vstd::prelude::*;

verus! {

/// The character of a decimal digit.
pub open spec fn digit_char(digit: int) -> char {
    if digit == 0 {
        '0'
    } else if digit == 1 {
        '1'
    } else if digit == 2 {
        '2'
    } else if digit == 3 {
        '3'
    } else if digit == 4 {
        '4'
    } else if digit == 5 {
        '5'
    } else if digit == 6 {
        '6'
    } else if digit == 7 {
        '7'
    } else if digit == 8 {
        '8'
    } else {
        '9'
    }
}

/// A number in decimal digits, without leading zeros.
pub open spec fn decimal(number: nat) -> Seq<char>
    decreases number,
{
    if number < 10 {
        seq![digit_char(number as int)]
    } else {
        decimal(number / 10).push(digit_char((number % 10) as int))
    }
}

/// The text with every occurrence of `from` replaced by `to`, the
/// occurrences taken from the left, none of them across another.
pub open spec fn replaced(text: Seq<char>, from: Seq<char>, to: Seq<char>) -> Seq<char>
    recommends
        from.len() > 0,
    decreases text.len(),
{
    if from.len() == 0 || text.len() < from.len() {
        text
    } else if text.take(from.len() as int) == from {
        to + replaced(text.skip(from.len() as int), from, to)
    } else {
        seq![text[0]] + replaced(text.skip(1), from, to)
    }
}

/// `str::replace`: the text with every occurrence of `from` replaced by `to`.
#[verifier::external_body]
pub(crate) fn replace(text: &str, from: &str, to: &str) -> (result: String)
    requires
        from@.len() > 0,
    ensures
        result@ == replaced(text@, from@, to@),
{
    text.replace(from, to)
}

/// `String::push_str`: the text with `more` behind it.
#[verifier::external_body]
pub(crate) fn append(text: &mut String, more: &str)
    ensures
        final(text)@ == old(text)@ + more@,
{
    text.push_str(more);
}

/// `ToString::to_string` of `u8`: the number in decimal digits.
#[verifier::external_body]
pub(crate) fn number_text(number: u8) -> (result: String)
    ensures
        result@ == decimal(number as nat),
{
    number.to_string()
}

/// A number in decimal digits.
pub fn index_text(number: usize) -> (result: String)
    ensures
        result@ == decimal(number as nat),
    decreases number,
{
    if number < 10 {
        number_text(number as u8)
    } else {
        let mut result = index_text(number / 10);
        append(&mut result, number_text((number % 10) as u8).as_str());
        assert(decimal((number % 10) as nat) =~= seq![digit_char((number % 10) as int)]);
        result
    }
}

/// The text of `first` with the text of `second` behind it.
pub fn joined(first: &str, second: &str) -> (result: String)
    ensures
        result@ == first@ + second@,
{
    let mut result = first.to_owned();
    append(&mut result, second);
    result
}

} // verus!
