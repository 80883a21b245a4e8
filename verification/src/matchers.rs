//! Matchers that adapt matched values, such as turning matched bytes into
//! text.
use vstd::prelude::*;
use vstd::utf8::decode_utf8;
use vstd::utf8::valid_utf8;

use crate::{Error, InputIter, Result};

verus! {

/// Relies on String::from_utf8: it returns a string holding exactly the
/// given bytes, decoded, when they are valid UTF-8, and an error
/// otherwise.
#[verifier::external_body]
fn string_from_utf8(bytes: Vec<u8>) -> (r: Option<String>)
    ensures
        r is Some <==> valid_utf8(bytes@),
        r matches Some(s) ==> s@ == decode_utf8(bytes@),
{
    String::from_utf8(bytes).ok()
}

/// Turns a match of raw bytes into a match of the text they decode to: a
/// match whose bytes are valid UTF-8 becomes a match of the decoded
/// string, and one whose bytes are not becomes `Abort` with the given
/// message, positioned at the match's cursor. Every other outcome passes
/// through.
pub fn must_string<I>(matched: Result<I, Vec<u8>>, msg: String) -> (r: Result<I, String>)
    where I: InputIter,
    ensures
        matched matches Result::Complete(i2, bytes) ==> (valid_utf8(bytes@) ==> (r matches
            Result::Complete(i3, s) && i3 == i2 && s@ == decode_utf8(bytes@))),
        matched matches Result::Complete(i2, bytes) ==> (!valid_utf8(bytes@) ==> (r matches
            Result::Abort(e) && {
            &&& e.msg == msg
            &&& e.cause is None
            &&& e.context == i2
        })),
        matched matches Result::Incomplete(c) ==> r == Result::<I, String>::Incomplete(c),
        matched matches Result::Fail(e) ==> r == Result::<I, String>::Fail(e),
        matched matches Result::Abort(e) ==> r == Result::<I, String>::Abort(e),
{
    match matched {
        Result::Complete(i2, bytes) => {
            match string_from_utf8(bytes) {
                Some(s) => Result::Complete(i2, s),
                None => Result::Abort(Error::new(msg, Box::new(i2))),
            }
        },
        Result::Incomplete(ctx) => Result::Incomplete(ctx),
        Result::Fail(e) => Result::Fail(e),
        Result::Abort(e) => Result::Abort(e),
    }
}

} // verus!
