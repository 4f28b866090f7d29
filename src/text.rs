//! Building text: decimal numerals and appending to a string.
use vstd::prelude::*;
use vstd::string::StringExecFns;

verus! {

/// The character of the decimal digit `d`.
pub open spec fn digit(d: nat) -> char {
    seq!['0', '1', '2', '3', '4', '5', '6', '7', '8', '9'][d as int]
}

/// The decimal numeral of `n`, most significant digit first, with no sign,
/// padding or leading zero.
pub open spec fn decimal(n: nat) -> Seq<char>
    decreases n,
{
    if n < 10 {
        seq![digit(n)]
    } else {
        decimal(n / 10).push(digit(n % 10))
    }
}

/// Relies on `ToString` through `Display` for `usize`: it writes the plain
/// decimal numeral of the value.
#[verifier::external_body]
pub(crate) fn decimal_string(n: usize) -> (r: String)
    ensures
        r@ == decimal(n as nat),
{
    n.to_string()
}

/// `"{n}: {text}"`, the way a numbered line is shown.
pub open spec fn numbered_text(n: nat, text: Seq<char>) -> Seq<char> {
    decimal(n) + seq![':', ' '] + text
}

/// Writes `"{n}: {text}"`.
pub fn render_numbered(n: usize, text: &str) -> (r: String)
    ensures
        r@ == numbered_text(n as nat, text@),
{
    let mut s = decimal_string(n);
    let sep = ": ";
    proof {
        reveal_strlit(": ");
    }
    s.append(sep);
    s.append(text);
    assert(s@ =~= numbered_text(n as nat, text@));
    s
}

} // verus!
