//! One match record of a search: the zero-based index of a matching line and
//! a borrowed view of exactly that line's text, valid as long as the searched
//! content is alive. Records are never mutated; the text is never copied.

use vstd::prelude::*;

verus! {

/// A matched line: `number` is the zero-based index of the line within the
/// searched content, `content` borrows exactly that line's characters, with
/// no line terminator. Two records are equal iff both fields are.
#[derive(Debug, PartialEq, Eq)]
pub struct Line<'a> {
    pub number: usize,
    pub content: &'a str,
}

impl<'a> Line<'a> {
    /// Builds the record for line `number` with text `content`.
    pub fn new(number: usize, content: &'a str) -> (r: Line<'a>)
        ensures
            r.number == number,
            r.content == content,
    {
        Line { number, content }
    }

    /// The record's display form: `Line #<N>: <text>`, where `<N>` is the
    /// 1-based line number.
    pub fn display_string(&self) -> (r: String)
        ensures
            r@ == "Line #"@ + decimal_digits(self.number + 1) + ": "@ + self.content@,
    {
        let mut s = String::new();
        s.append("Line #");
        let num = u128_decimal(self.number as u128 + 1);
        s.append(num.as_str());
        s.append(": ");
        s.append(self.content);
        proof {
            reveal_strlit("");
            assert(s@ =~= "Line #"@ + decimal_digits(self.number + 1) + ": "@ + self.content@);
        }
        s
    }
}

/// The character for one decimal digit.
pub open spec fn digit_char(d: int) -> char
    recommends
        0 <= d < 10,
{
    (('0' as u32) + d) as char
}

/// The decimal representation of a non-negative integer, most significant
/// digit first, with no leading zeros (a single '0' for zero itself).
pub open spec fn decimal_digits(n: int) -> Seq<char>
    recommends
        n >= 0,
    decreases n,
{
    if n < 10 {
        seq![digit_char(n)]
    } else {
        decimal_digits(n / 10).push(digit_char(n % 10))
    }
}

/// One decimal digit as a borrowed string slice.
fn digit_str(d: u128) -> (r: &'static str)
    requires
        d < 10,
    ensures
        r@ == seq![digit_char(d as int)],
{
    let s = "0123456789";
    proof {
        reveal_strlit("0123456789");
    }
    let r = s.substring_char(d as usize, d as usize + 1);
    proof {
        assert(r@ =~= seq![digit_char(d as int)]);
    }
    r
}

/// The decimal representation of `n`, as `decimal_digits` describes.
fn u128_decimal(n: u128) -> (r: String)
    ensures
        r@ == decimal_digits(n as int),
    decreases n,
{
    if n < 10 {
        let d = digit_str(n);
        let r = String::new().concat(d);
        proof {
            reveal_strlit("");
            assert(r@ =~= decimal_digits(n as int));
        }
        r
    } else {
        let mut r = u128_decimal(n / 10);
        r.append(digit_str(n % 10));
        proof {
            assert(r@ =~= decimal_digits(n as int));
        }
        r
    }
}

} // verus!
