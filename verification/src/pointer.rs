//! Reference tokens and the text of a JSON Pointer.

use vstd::prelude::*;
use crate::text::strings_view;
use crate::validator::Path;

verus! {

/// The decimal digit for a number below ten.
pub open spec fn digit(d: nat) -> char
    recommends
        d < 10,
{
    if d == 0 {
        '0'
    } else if d == 1 {
        '1'
    } else if d == 2 {
        '2'
    } else if d == 3 {
        '3'
    } else if d == 4 {
        '4'
    } else if d == 5 {
        '5'
    } else if d == 6 {
        '6'
    } else if d == 7 {
        '7'
    } else if d == 8 {
        '8'
    } else {
        '9'
    }
}

/// A number written in decimal, without sign or leading zeros.
pub open spec fn decimal(n: nat) -> Seq<char>
    decreases n,
{
    if n < 10 {
        seq![digit(n)]
    } else {
        decimal(n / 10).push(digit(n % 10))
    }
}

/// The reference token that names an array element: its index in decimal.
///
/// Believed, not proved: `usize::to_string` writes the number as `decimal`
/// says.
#[verifier::external_body]
pub(crate) fn index_token(index: usize) -> (token: String)
    ensures
        token@ == decimal(index as nat),
{
    index.to_string()
}

/// A reference token as it is written inside a pointer: `~` becomes `~0` and
/// `/` becomes `~1`.
pub open spec fn escaped(token: Seq<char>) -> Seq<char>
    decreases token.len(),
{
    if token.len() == 0 {
        seq![]
    } else {
        let head = token[0];
        let rest = escaped(token.drop_first());
        if head == '~' {
            seq!['~', '0'] + rest
        } else if head == '/' {
            seq!['~', '1'] + rest
        } else {
            seq![head] + rest
        }
    }
}

/// The text of the JSON Pointer with the given tokens: each token escaped
/// and preceded by `/`.
pub open spec fn pointer_text(path: Path) -> Seq<char>
    decreases path.len(),
{
    if path.len() == 0 {
        seq![]
    } else {
        pointer_text(path.drop_last()) + seq!['/'] + escaped(path.last())
    }
}

/// The text of the JSON Pointer with the given reference tokens, as
/// `json_pointer::JsonPointer` writes it.
///
/// Believed, not proved: its `Display` writes, for each token in turn, a
/// `/` and the token with `~` and `/` escaped.
#[verifier::external_body]
pub(crate) fn pointer_string(tokens: &Vec<String>) -> (text: String)
    ensures
        text@ == pointer_text(strings_view(tokens@)),
{
    json_pointer::JsonPointer::new(tokens.as_slice()).to_string()
}

} // verus!
