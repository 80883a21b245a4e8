//! Combinators that assemble matchers into larger rules, and the leaf
//! matchers for single bytes and the end of the input.
//!
//! The conversion operators (`not`, `must`, `trap`, `must_complete`,
//! `complete`, `optional`, `peek`, `discard`, `wrap_err`) are pure functions
//! from an entry cursor and an already computed outcome to a new outcome.
//! The iterating combinators (`either`, `repeat`, `until`, `consume_all`,
//! `separated`, `pair`, `triple`) take the sub-rules themselves, as function
//! values, and run them as many times as the input demands.
use vstd::prelude::*;
use vstd::string::StringExecFns;
use vstd::string::StringSliceAdditionalSpecFns;

use crate::{Error, InputIter, Offsetable, Result, Span, SpanRange};

verus! {

/// The outcome `must` maps an outcome to: `Fail` becomes `Abort`, every
/// other outcome is kept.
pub open spec fn must_spec<I: InputIter, O>(r: Result<I, O>) -> Result<I, O> {
    match r {
        Result::Fail(e) => Result::Abort(e),
        _ => r,
    }
}

/// The outcome `trap` maps an outcome to: `Abort` becomes `Fail`, every
/// other outcome is kept.
pub open spec fn trap_spec<I: InputIter, O>(r: Result<I, O>) -> Result<I, O> {
    match r {
        Result::Abort(e) => Result::Fail(e),
        _ => r,
    }
}

/// The outcome `optional` maps an outcome to: a match keeps its cursor and
/// wraps its value in `Some`, a recoverable mismatch becomes a match of
/// `None` at the entry cursor, and `Incomplete` and `Abort` are kept.
pub open spec fn optional_spec<I: InputIter, O>(entry: I, r: Result<I, O>) -> Result<
    I,
    Option<O>,
> {
    match r {
        Result::Complete(i, o) => Result::Complete(i, Some(o)),
        Result::Incomplete(c) => Result::Incomplete(c),
        Result::Fail(_) => Result::Complete(entry, None),
        Result::Abort(e) => Result::Abort(e),
    }
}

/// The outcome `peek` maps an outcome to: a match keeps its value but
/// rewinds to the entry cursor; every other outcome is kept.
pub open spec fn peek_spec<I: InputIter, O>(entry: I, r: Result<I, O>) -> Result<I, O> {
    match r {
        Result::Complete(_, o) => Result::Complete(entry, o),
        _ => r,
    }
}

/// The outcome `discard` maps an outcome to: a match keeps its cursor and
/// drops its value; every other outcome is kept.
pub open spec fn discard_spec<I: InputIter, O>(r: Result<I, O>) -> Result<I, ()> {
    match r {
        Result::Complete(i, _) => Result::Complete(i, ()),
        Result::Incomplete(c) => Result::Incomplete(c),
        Result::Fail(e) => Result::Fail(e),
        Result::Abort(e) => Result::Abort(e),
    }
}

/// Inverts an outcome, for negative lookahead: `Fail` becomes a match of
/// `()` at the entry cursor `i`, a match becomes `Fail` positioned at the
/// entry, and `Incomplete` and `Abort` pass through.
pub fn not<I, O>(i: I, result: Result<I, O>) -> (r: Result<I, ()>)
    where I: InputIter,
    ensures
        result is Complete ==> (r matches Result::Fail(e) && {
            &&& e.msg@ == "Matched on input when we shouldn't have."@
            &&& e.cause is None
            &&& e.context == i
        }),
        result matches Result::Abort(e) ==> r == Result::<I, ()>::Abort(e),
        result matches Result::Incomplete(c) ==> r == Result::<I, ()>::Incomplete(c),
        result is Fail ==> r == Result::<I, ()>::Complete(i, ()),
{
    match result {
        Result::Complete(_, _) => Result::Fail(
            Error::new(
                String::from_str("Matched on input when we shouldn't have."),
                Box::new(i),
            ),
        ),
        Result::Abort(e) => Result::Abort(e),
        Result::Incomplete(ctx) => Result::Incomplete(ctx),
        Result::Fail(_) => Result::Complete(i, ()),
    }
}

/// Escalates an outcome: `Fail` becomes `Abort` with the same error, so the
/// mismatch can no longer be caught by alternation, optionality or
/// repetition. Every other outcome is kept. Never returns `Fail`.
pub fn must<I, O>(result: Result<I, O>) -> (r: Result<I, O>)
    where I: InputIter,
    ensures
        r == must_spec(result),
        !(r is Fail),
{
    match result {
        Result::Complete(i, o) => Result::Complete(i, o),
        Result::Incomplete(ctx) => Result::Incomplete(ctx),
        Result::Fail(e) => Result::Abort(e),
        Result::Abort(e) => Result::Abort(e),
    }
}

/// De-escalates an outcome: `Abort` becomes `Fail` with the same error, so
/// backtracking can resume. Every other outcome is kept. The semantic
/// inverse of `must`. Never returns `Abort`.
pub fn trap<I, O>(result: Result<I, O>) -> (r: Result<I, O>)
    where I: InputIter,
    ensures
        r == trap_spec(result),
        !(r is Abort),
{
    match result {
        Result::Complete(i, o) => Result::Complete(i, o),
        Result::Incomplete(ctx) => Result::Incomplete(ctx),
        Result::Fail(e) => Result::Fail(e),
        Result::Abort(e) => Result::Fail(e),
    }
}

/// De-escalating an escalated outcome gives back exactly the outcome for a
/// match, a recoverable mismatch, or exhausted input; an `Abort` the
/// escalation produced from a `Fail` comes back as that `Fail`; only an
/// `Abort` already present before escalation is changed, to `Fail` with the
/// same error.
pub proof fn lemma_trap_must<I: InputIter, O>(r: Result<I, O>)
    ensures
        !(r is Abort) ==> trap_spec(must_spec(r)) == r,
        r matches Result::Abort(e) ==> trap_spec(must_spec(r)) == Result::<I, O>::Fail(e),
{
}

/// Turns `Fail` or `Incomplete` into `Abort`: a mismatch here is fatal, and
/// so is running out of input, which aborts with the given message
/// positioned at the point the input ended. Matches are kept. Never returns
/// `Fail` or `Incomplete`.
pub fn must_complete<I, O>(result: Result<I, O>, msg: String) -> (r: Result<I, O>)
    where I: InputIter,
    ensures
        result is Complete ==> r == result,
        result matches Result::Fail(e) ==> r == Result::<I, O>::Abort(e),
        result is Abort ==> r == result,
        result matches Result::Incomplete(c) ==> (r matches Result::Abort(e) && {
            &&& e.msg == msg
            &&& e.cause is None
            &&& e.context == c
        }),
        !(r is Fail),
        !(r is Incomplete),
{
    match result {
        Result::Complete(i, o) => Result::Complete(i, o),
        Result::Incomplete(ctx) => Result::Abort(Error::new(msg, Box::new(ctx))),
        Result::Fail(e) => Result::Abort(e),
        Result::Abort(e) => Result::Abort(e),
    }
}

/// Settles `Incomplete` into `Fail` with the given message, positioned at
/// the point the input ended: running out of input here is just an ordinary
/// recoverable mismatch. Every other outcome is kept. Never returns
/// `Incomplete`.
pub fn complete<I, O>(result: Result<I, O>, msg: String) -> (r: Result<I, O>)
    where I: InputIter,
    ensures
        result matches Result::Incomplete(c) ==> (r matches Result::Fail(e) && {
            &&& e.msg == msg
            &&& e.cause is None
            &&& e.context == c
        }),
        !(result is Incomplete) ==> r == result,
        !(r is Incomplete),
{
    match result {
        Result::Incomplete(ctx) => Result::Fail(Error::new(msg, Box::new(ctx))),
        Result::Complete(i, o) => Result::Complete(i, o),
        Result::Fail(e) => Result::Fail(e),
        Result::Abort(e) => Result::Abort(e),
    }
}

/// Makes an outcome optional: a match wraps its value in `Some`, a
/// recoverable mismatch becomes a match of `None` at the entry cursor
/// `iter`, and `Incomplete` and `Abort` pass through. Never returns `Fail`.
pub fn optional<I, O>(iter: I, result: Result<I, O>) -> (r: Result<I, Option<O>>)
    where I: InputIter,
    ensures
        r == optional_spec(iter, result),
        !(r is Fail),
{
    match result {
        Result::Complete(i, o) => Result::Complete(i, Some(o)),
        Result::Incomplete(ctx) => Result::Incomplete(ctx),
        Result::Fail(_) => Result::Complete(iter, None),
        Result::Abort(e) => Result::Abort(e),
    }
}

/// Lookahead: a match keeps its value but the returned cursor is the entry
/// cursor `i` itself, so a successful peek never consumes input. Every
/// other outcome passes through.
pub fn peek<I, O>(i: I, result: Result<I, O>) -> (r: Result<I, O>)
    where I: InputIter,
    ensures
        r == peek_spec(i, result),
        r matches Result::Complete(i2, _) ==> i2 == i,
{
    match result {
        Result::Complete(_, o) => Result::Complete(i, o),
        Result::Incomplete(ctx) => Result::Incomplete(ctx),
        Result::Fail(e) => Result::Fail(e),
        Result::Abort(e) => Result::Abort(e),
    }
}

/// Drops a match's value, keeping its cursor; every other outcome passes
/// through.
pub fn discard<I, O>(result: Result<I, O>) -> (r: Result<I, ()>)
    where I: InputIter,
    ensures
        r == discard_spec(result),
{
    match result {
        Result::Complete(i, _) => Result::Complete(i, ()),
        Result::Incomplete(ctx) => Result::Incomplete(ctx),
        Result::Fail(e) => Result::Fail(e),
        Result::Abort(e) => Result::Abort(e),
    }
}

/// Wraps the error of a `Fail` or `Abort` in a new error with `msg` on top,
/// the original error as the cause, and the entry cursor `i` as the
/// position, without changing the outcome kind. Matches and `Incomplete`
/// pass through.
pub fn wrap_err<I, O>(i: I, result: Result<I, O>, msg: String) -> (r: Result<I, O>)
    where I: InputIter,
    ensures
        result is Complete ==> r == result,
        result is Incomplete ==> r == result,
        result matches Result::Fail(e) ==> (r matches Result::Fail(e2) && {
            &&& e2.msg == msg
            &&& e2.cause == Some(Box::new(e))
            &&& e2.context == i
        }),
        result matches Result::Abort(e) ==> (r matches Result::Abort(e2) && {
            &&& e2.msg == msg
            &&& e2.cause == Some(Box::new(e))
            &&& e2.context == i
        }),
{
    match result {
        Result::Complete(c, o) => Result::Complete(c, o),
        Result::Incomplete(ctx) => Result::Incomplete(ctx),
        Result::Fail(e) => Result::Fail(Error::caused_by(msg, Box::new(e), Box::new(i))),
        Result::Abort(e) => Result::Abort(Error::caused_by(msg, Box::new(e), Box::new(i))),
    }
}

/// Matches without consuming anything and yields the cursor itself, so a
/// rule can read positional information such as the offset or the line.
pub fn input<I>(i: I) -> (r: Result<I, I>)
    where I: InputIter,
    ensures
        r == Result::<I, I>::Complete(i, i),
{
    Result::Complete(i, i)
}

/// Matches the end of the input: a match of `()` at the entry cursor when
/// no element is left, `Fail` positioned at the entry otherwise. Never
/// consumes.
pub fn eoi<I>(i: I) -> (r: Result<I, ()>)
    where I: InputIter,
    requires
        i.wf(),
    ensures
        i.spec_offset() >= i.src().len() ==> r == Result::<I, ()>::Complete(i, ()),
        i.spec_offset() < i.src().len() ==> (r matches Result::Fail(e) && {
            &&& e.msg@ == "Expected End Of Input"@
            &&& e.cause is None
            &&& e.context == i
        }),
{
    let mut probe = i;
    match probe.next() {
        Some(_) => Result::Fail(
            Error::new(String::from_str("Expected End Of Input"), Box::new(i)),
        ),
        None => Result::Complete(i, ()),
    }
}

/// Whether a byte, read as a code point, is white space.
pub open spec fn is_ws_byte(b: u8) -> bool {
    b == 9 || b == 10 || b == 11 || b == 12 || b == 13 || b == 32 || b == 0x85 || b == 0xa0
}

/// Whether a byte is an ASCII letter.
pub open spec fn is_alpha_byte(b: u8) -> bool {
    (0x41 <= b && b <= 0x5a) || (0x61 <= b && b <= 0x7a)
}

/// Whether a byte is an ASCII digit.
pub open spec fn is_digit_byte(b: u8) -> bool {
    0x30 <= b && b <= 0x39
}

/// Matches one white-space byte: a match carrying the byte when the next
/// element is white space, `Fail` positioned at the entry otherwise,
/// including at the end of the input.
pub fn ascii_ws<I>(i: I) -> (r: Result<I, u8>)
    where I: InputIter<Elem = u8>,
    requires
        i.wf(),
    ensures
        single_class_result(i, r, "Not whitespace"@, |b: u8| is_ws_byte(b)),
{
    let entry = i;
    let mut cur = i;
    match cur.next() {
        Some(b) => {
            if b == 9 || b == 10 || b == 11 || b == 12 || b == 13 || b == 32 || b == 0x85
                || b == 0xa0 {
                Result::Complete(cur, b)
            } else {
                Result::Fail(
                    Error::new(String::from_str("Not whitespace"), Box::new(entry)),
                )
            }
        },
        None => Result::Fail(
            Error::new(String::from_str("Unexpected End Of Input."), Box::new(entry)),
        ),
    }
}

/// What every single-element class matcher returns: one element is consumed
/// and yielded when it is there and satisfies the class, and everything
/// else is a recoverable mismatch positioned at the entry cursor `i`.
pub open spec fn single_class_result<I: InputIter<Elem = u8>>(
    i: I,
    r: Result<I, u8>,
    mismatch_msg: Seq<char>,
    class: spec_fn(u8) -> bool,
) -> bool {
    &&& i.spec_offset() < i.src().len() && class(i.src()[i.spec_offset() as int]) ==> {
        &&& r matches Result::Complete(i2, b)
        &&& b == i.src()[i.spec_offset() as int]
        &&& i2.wf()
        &&& i2.src() == i.src()
        &&& i2.spec_offset() == i.spec_offset() + 1
    }
    &&& i.spec_offset() < i.src().len() && !class(i.src()[i.spec_offset() as int])
        ==> (r matches Result::Fail(e) && {
        &&& e.msg@ == mismatch_msg
        &&& e.cause is None
        &&& e.context == i
    })
    &&& i.spec_offset() >= i.src().len() ==> (r matches Result::Fail(e) && {
        &&& e.msg@ == "Unexpected End Of Input."@
        &&& e.cause is None
        &&& e.context == i
    })
}

/// Matches one ASCII letter or digit: a match carrying the byte when the
/// next element is alphanumeric, `Fail` positioned at the entry otherwise,
/// including at the end of the input.
pub fn ascii_alphanumeric<I>(i: I) -> (r: Result<I, u8>)
    where I: InputIter<Elem = u8>,
    requires
        i.wf(),
    ensures
        single_class_result(
            i,
            r,
            "Not an alphanumeric character"@,
            |b: u8| is_alpha_byte(b) || is_digit_byte(b),
        ),
{
    let entry = i;
    let mut cur = i;
    match cur.next() {
        Some(b) => {
            if (0x41 <= b && b <= 0x5a) || (0x61 <= b && b <= 0x7a) || (0x30 <= b && b
                <= 0x39) {
                Result::Complete(cur, b)
            } else {
                Result::Fail(
                    Error::new(
                        String::from_str("Not an alphanumeric character"),
                        Box::new(entry),
                    ),
                )
            }
        },
        None => Result::Fail(
            Error::new(String::from_str("Unexpected End Of Input."), Box::new(entry)),
        ),
    }
}

/// Matches one ASCII digit: a match carrying the byte when the next element
/// is a digit, `Fail` positioned at the entry otherwise, including at the
/// end of the input.
pub fn ascii_digit<I>(i: I) -> (r: Result<I, u8>)
    where I: InputIter<Elem = u8>,
    requires
        i.wf(),
    ensures
        single_class_result(i, r, "Not an digit character"@, |b: u8| is_digit_byte(b)),
{
    let entry = i;
    let mut cur = i;
    match cur.next() {
        Some(b) => {
            if 0x30 <= b && b <= 0x39 {
                Result::Complete(cur, b)
            } else {
                Result::Fail(
                    Error::new(String::from_str("Not an digit character"), Box::new(entry)),
                )
            }
        },
        None => Result::Fail(
            Error::new(String::from_str("Unexpected End Of Input."), Box::new(entry)),
        ),
    }
}

/// Matches one ASCII letter: a match carrying the byte when the next
/// element is alphabetic, `Fail` positioned at the entry otherwise,
/// including at the end of the input.
pub fn ascii_alpha<I>(i: I) -> (r: Result<I, u8>)
    where I: InputIter<Elem = u8>,
    requires
        i.wf(),
    ensures
        single_class_result(i, r, "Not an alpha character"@, |b: u8| is_alpha_byte(b)),
{
    let entry = i;
    let mut cur = i;
    match cur.next() {
        Some(b) => {
            if (0x41 <= b && b <= 0x5a) || (0x61 <= b && b <= 0x7a) {
                Result::Complete(cur, b)
            } else {
                Result::Fail(
                    Error::new(String::from_str("Not an alpha character"), Box::new(entry)),
                )
            }
        },
        None => Result::Fail(
            Error::new(String::from_str("Unexpected End Of Input."), Box::new(entry)),
        ),
    }
}

/// Alternation over two rules: `fa` runs on the entry cursor; if it returns
/// `Fail`, `fb` runs on an unmodified copy of the same entry cursor, so no
/// partial consumption by `fa` can leak into `fb`. The first `Complete`,
/// `Incomplete` or `Abort` is the result; in particular an `Abort` from
/// `fa` is returned at once and `fb` is never tried after it.
pub fn either<I, O, FA, FB>(i: I, fa: FA, fb: FB) -> (r: Result<I, O>)
    where I: InputIter, FA: Fn(I) -> Result<I, O>, FB: Fn(I) -> Result<I, O>,
    requires
        call_requires(fa, (i,)),
        forall|e: Error<I>| call_ensures(fa, (i,), Result::Fail(e)) ==> call_requires(fb, (i,)),
    ensures
        (call_ensures(fa, (i,), r) && !(r is Fail)) || ((exists|e: Error<I>|
            call_ensures(fa, (i,), Result::Fail(e))) && call_ensures(fb, (i,), r)),
{
    let res_a = fa(i);
    match res_a {
        Result::Complete(c, o) => Result::Complete(c, o),
        Result::Incomplete(ctx) => Result::Incomplete(ctx),
        Result::Abort(e) => Result::Abort(e),
        Result::Fail(_) => fb(i),
    }
}

/// Sequencing of two rules along one advancing cursor: `fb` starts where
/// `fa` matched, and the values are paired. The first outcome that is not
/// a match becomes the whole sequence's outcome, unmodified.
pub fn pair<I, A, B, FA, FB>(i: I, fa: FA, fb: FB) -> (r: Result<I, (A, B)>)
    where I: InputIter, FA: Fn(I) -> Result<I, A>, FB: Fn(I) -> Result<I, B>,
    requires
        call_requires(fa, (i,)),
        forall|c: I, a: A| call_ensures(fa, (i,), Result::Complete(c, a))
            ==> call_requires(fb, (c,)),
    ensures
        r matches Result::Complete(i2, ab) ==> exists|mid: I|
            call_ensures(fa, (i,), Result::Complete(mid, ab.0)) && call_ensures(
                fb,
                (mid,),
                Result::Complete(i2, ab.1),
            ),
        r matches Result::Fail(e) ==> call_ensures(fa, (i,), Result::Fail(e)) || exists|
            mid: I,
            a: A,
        |
            call_ensures(fa, (i,), Result::Complete(mid, a)) && call_ensures(
                fb,
                (mid,),
                Result::Fail(e),
            ),
        r matches Result::Incomplete(c) ==> call_ensures(fa, (i,), Result::Incomplete(c))
            || exists|mid: I, a: A|
            call_ensures(fa, (i,), Result::Complete(mid, a)) && call_ensures(
                fb,
                (mid,),
                Result::Incomplete(c),
            ),
        r matches Result::Abort(e) ==> call_ensures(fa, (i,), Result::Abort(e)) || exists|
            mid: I,
            a: A,
        |
            call_ensures(fa, (i,), Result::Complete(mid, a)) && call_ensures(
                fb,
                (mid,),
                Result::Abort(e),
            ),
{
    let res_a = fa(i);
    match res_a {
        Result::Complete(mid, a) => {
            let res_b = fb(mid);
            match res_b {
                Result::Complete(end, b) => {
                    let out = Result::Complete(end, (a, b));
                    proof {
                        assert(out->Complete_1 == (a, b));
                        assert(call_ensures(
                            fa,
                            (i,),
                            Result::Complete(mid, out->Complete_1.0),
                        ));
                        assert(call_ensures(
                            fb,
                            (mid,),
                            Result::Complete(out->Complete_0, out->Complete_1.1),
                        ));
                    }
                    out
                },
                Result::Incomplete(c) => {
                    proof {
                        assert(call_ensures(fb, (mid,), Result::<I, B>::Incomplete(c)));
                    }
                    Result::Incomplete(c)
                },
                Result::Fail(e) => {
                    proof {
                        assert(call_ensures(fb, (mid,), Result::<I, B>::Fail(e)));
                    }
                    Result::Fail(e)
                },
                Result::Abort(e) => {
                    proof {
                        assert(call_ensures(fb, (mid,), Result::<I, B>::Abort(e)));
                    }
                    Result::Abort(e)
                },
            }
        },
        Result::Incomplete(c) => Result::Incomplete(c),
        Result::Fail(e) => Result::Fail(e),
        Result::Abort(e) => Result::Abort(e),
    }
}

/// Sequencing of three rules along one advancing cursor, with the values
/// gathered into a triple. The first outcome that is not a match becomes
/// the whole sequence's outcome, unmodified.
pub fn triple<I, A, B, C, FA, FB, FC>(i: I, fa: FA, fb: FB, fc: FC) -> (r: Result<
    I,
    (A, B, C),
>)
    where
        I: InputIter,
        FA: Fn(I) -> Result<I, A>,
        FB: Fn(I) -> Result<I, B>,
        FC: Fn(I) -> Result<I, C>,
    requires
        call_requires(fa, (i,)),
        forall|c: I, a: A| call_ensures(fa, (i,), Result::Complete(c, a))
            ==> call_requires(fb, (c,)),
        forall|c: I, a: A, c2: I, b: B|
            call_ensures(fa, (i,), Result::Complete(c, a)) && call_ensures(
                fb,
                (c,),
                Result::Complete(c2, b),
            ) ==> call_requires(fc, (c2,)),
    ensures
        r matches Result::Complete(i2, abc) ==> exists|m1: I, m2: I|
            call_ensures(fa, (i,), Result::Complete(m1, abc.0)) && call_ensures(
                fb,
                (m1,),
                Result::Complete(m2, abc.1),
            ) && call_ensures(fc, (m2,), Result::Complete(i2, abc.2)),
        !(r is Complete) ==> step_outcome_3(fa, fb, fc, i, r),
{
    let res_a = fa(i);
    match res_a {
        Result::Complete(m1, a) => {
            let res_b = fb(m1);
            match res_b {
                Result::Complete(m2, b) => {
                    let res_c = fc(m2);
                    match res_c {
                        Result::Complete(end, c) => {
                            let out = Result::Complete(end, (a, b, c));
                            proof {
                                assert(out->Complete_1 == (a, b, c));
                                assert(call_ensures(
                                    fa,
                                    (i,),
                                    Result::Complete(m1, out->Complete_1.0),
                                ));
                                assert(call_ensures(
                                    fb,
                                    (m1,),
                                    Result::Complete(m2, out->Complete_1.1),
                                ));
                                assert(call_ensures(
                                    fc,
                                    (m2,),
                                    Result::Complete(out->Complete_0, out->Complete_1.2),
                                ));
                            }
                            out
                        },
                        Result::Incomplete(ctx) => {
                            let out = Result::<I, (A, B, C)>::Incomplete(ctx);
                            proof {
                                assert(call_ensures(fa, (i,), Result::Complete(m1, a)));
                                assert(call_ensures(fb, (m1,), Result::Complete(m2, b)));
                                assert(call_ensures(fc, (m2,), Result::<I, C>::Incomplete(ctx)));
                                assert(same_non_match(Result::<I, C>::Incomplete(ctx), out));
                            }
                            out
                        },
                        Result::Fail(e) => {
                            let out = Result::<I, (A, B, C)>::Fail(e);
                            proof {
                                assert(call_ensures(fa, (i,), Result::Complete(m1, a)));
                                assert(call_ensures(fb, (m1,), Result::Complete(m2, b)));
                                assert(call_ensures(fc, (m2,), Result::<I, C>::Fail(out->Fail_0)));
                                assert(same_non_match(Result::<I, C>::Fail(out->Fail_0), out));
                            }
                            out
                        },
                        Result::Abort(e) => {
                            let out = Result::<I, (A, B, C)>::Abort(e);
                            proof {
                                assert(call_ensures(fa, (i,), Result::Complete(m1, a)));
                                assert(call_ensures(fb, (m1,), Result::Complete(m2, b)));
                                assert(call_ensures(fc, (m2,), Result::<I, C>::Abort(out->Abort_0)));
                                assert(same_non_match(Result::<I, C>::Abort(out->Abort_0), out));
                            }
                            out
                        },
                    }
                },
                Result::Incomplete(ctx) => {
                    let out = Result::<I, (A, B, C)>::Incomplete(ctx);
                    proof {
                        assert(call_ensures(fa, (i,), Result::Complete(m1, a)));
                        assert(call_ensures(fb, (m1,), Result::<I, B>::Incomplete(ctx)));
                        assert(same_non_match(Result::<I, B>::Incomplete(ctx), out));
                    }
                    out
                },
                Result::Fail(e) => {
                    let out = Result::<I, (A, B, C)>::Fail(e);
                    proof {
                        assert(call_ensures(fa, (i,), Result::Complete(m1, a)));
                        assert(call_ensures(fb, (m1,), Result::<I, B>::Fail(out->Fail_0)));
                        assert(same_non_match(Result::<I, B>::Fail(out->Fail_0), out));
                    }
                    out
                },
                Result::Abort(e) => {
                    let out = Result::<I, (A, B, C)>::Abort(e);
                    proof {
                        assert(call_ensures(fa, (i,), Result::Complete(m1, a)));
                        assert(call_ensures(fb, (m1,), Result::<I, B>::Abort(out->Abort_0)));
                        assert(same_non_match(Result::<I, B>::Abort(out->Abort_0), out));
                    }
                    out
                },
            }
        },
        Result::Incomplete(ctx) => {
            let out = Result::<I, (A, B, C)>::Incomplete(ctx);
            proof {
                assert(call_ensures(fa, (i,), Result::<I, A>::Incomplete(ctx)));
                assert(same_non_match(Result::<I, A>::Incomplete(ctx), out));
            }
            out
        },
        Result::Fail(e) => {
            let out = Result::<I, (A, B, C)>::Fail(e);
            proof {
                assert(call_ensures(fa, (i,), Result::<I, A>::Fail(out->Fail_0)));
                assert(same_non_match(Result::<I, A>::Fail(out->Fail_0), out));
            }
            out
        },
        Result::Abort(e) => {
            let out = Result::<I, (A, B, C)>::Abort(e);
            proof {
                assert(call_ensures(fa, (i,), Result::<I, A>::Abort(out->Abort_0)));
                assert(same_non_match(Result::<I, A>::Abort(out->Abort_0), out));
            }
            out
        },
    }
}

/// Whether a non-match outcome `r` of sequencing three rules from `i` is
/// exactly the outcome one of the steps produced, each later step started
/// where the earlier ones matched.
pub open spec fn step_outcome_3<I, A, B, C, FA, FB, FC>(
    fa: FA,
    fb: FB,
    fc: FC,
    i: I,
    r: Result<I, (A, B, C)>,
) -> bool
    where
        I: InputIter,
        FA: Fn(I) -> Result<I, A>,
        FB: Fn(I) -> Result<I, B>,
        FC: Fn(I) -> Result<I, C>,
{
    ||| exists|ra: Result<I, A>| call_ensures(fa, (i,), ra) && same_non_match(ra, r)
    ||| exists|m1: I, a: A, rb: Result<I, B>|
        call_ensures(fa, (i,), Result::Complete(m1, a)) && call_ensures(fb, (m1,), rb)
            && same_non_match(rb, r)
    ||| exists|m1: I, a: A, m2: I, b: B, rc: Result<I, C>|
        call_ensures(fa, (i,), Result::Complete(m1, a)) && call_ensures(
            fb,
            (m1,),
            Result::Complete(m2, b),
        ) && call_ensures(fc, (m2,), rc) && same_non_match(rc, r)
}

/// Whether two outcomes are the same non-match: the same `Incomplete`
/// cursor, the same `Fail` error, or the same `Abort` error.
pub open spec fn same_non_match<I: InputIter, O1, O2>(a: Result<I, O1>, b: Result<I, O2>) -> bool {
    match (a, b) {
        (Result::Incomplete(c1), Result::Incomplete(c2)) => c1 == c2,
        (Result::Fail(e1), Result::Fail(e2)) => e1 == e2,
        (Result::Abort(e1), Result::Abort(e2)) => e1 == e2,
        _ => false,
    }
}

/// Whether the byte sequence `tok` appears in `src` starting at position
/// `at`.
pub open spec fn token_at(src: Seq<u8>, at: int, tok: Seq<u8>) -> bool {
    &&& 0 <= at
    &&& at + tok.len() <= src.len()
    &&& src.subrange(at, at + tok.len()) == tok
}

/// The error a failed token match reports: the expected token, positioned
/// at the entry cursor.
fn token_mismatch<I>(i: I, t: &str) -> (e: Error<I>)
    where I: InputIter,
    ensures
        e.msg@ == "Expected "@ + t@ + " but didn't get it."@,
        e.cause is None,
        e.context == i,
{
    let mut msg = String::from_str("Expected ");
    msg.append(t);
    msg.append(" but didn't get it.");
    Error::new(msg, Box::new(i))
}

/// Matches the exact UTF-8 bytes of the token `t`: a match carrying `t`
/// with the cursor advanced past it when every byte agrees, and otherwise
/// `Fail` positioned at the entry cursor, so a failed token match never
/// appears to have consumed input. Running out of input mid-token is also
/// `Fail`, never `Incomplete`.
pub fn text_token<'t, I>(i: I, t: &'t str) -> (r: Result<I, &'t str>)
    where I: InputIter<Elem = u8>,
    requires
        i.wf(),
    ensures
        token_at(i.src(), i.spec_offset() as int, t.spec_bytes()) ==> (r matches
            Result::Complete(i2, s) && {
            &&& s == t
            &&& i2.wf()
            &&& i2.src() == i.src()
            &&& i2.spec_offset() == i.spec_offset() + t.spec_bytes().len()
        }),
        !token_at(i.src(), i.spec_offset() as int, t.spec_bytes()) ==> (r matches
            Result::Fail(e) && {
            &&& e.msg@ == "Expected "@ + t@ + " but didn't get it."@
            &&& e.cause is None
            &&& e.context == i
        }),
{
    let tb = t.as_bytes();
    proof {
        i.wf_bounds();
    }
    let mut cur = i;
    let mut j: usize = 0;
    while j < tb.len()
        invariant
            i.wf(),
            cur.wf(),
            tb@ == t.spec_bytes(),
            j <= tb.len(),
            cur.src() == i.src(),
            cur.spec_offset() == i.spec_offset() + j,
            i.spec_offset() + j <= i.src().len(),
            forall|k: int| 0 <= k < j ==> i.src()[i.spec_offset() + k] == tb@[k],
        decreases tb@.len() - j,
    {
        match cur.next() {
            Some(b) => {
                if b == tb[j] {
                    j = j + 1;
                } else {
                    proof {
                        if token_at(i.src(), i.spec_offset() as int, t.spec_bytes()) {
                            assert(i.src().subrange(
                                i.spec_offset() as int,
                                i.spec_offset() as int + tb@.len(),
                            )[j as int] == tb@[j as int]);
                        }
                    }
                    return Result::Fail(token_mismatch(i, t));
                }
            },
            None => {
                return Result::Fail(token_mismatch(i, t));
            },
        }
    }
    proof {
        assert(i.src().subrange(
            i.spec_offset() as int,
            i.spec_offset() as int + tb@.len(),
        ) =~= tb@);
    }
    Result::Complete(cur, t)
}

/// Whether `f` may be started from every well-formed cursor over `src` at
/// or past position `from`.
pub open spec fn callable_from<I, O, F>(f: F, src: Seq<I::Elem>, from: nat) -> bool
    where I: InputIter, F: Fn(I) -> Result<I, O>,
{
    forall|c: I|
        c.wf() && c.src() == src && c.spec_offset() >= from ==> #[trigger] call_requires(
            f,
            (c,),
        )
}

/// Whether every match `f` produces from a well-formed cursor over `src`
/// stays on `src`, is well formed, and never moves the cursor backward.
pub open spec fn advancing_on<I, O, F>(f: F, src: Seq<I::Elem>) -> bool
    where I: InputIter, F: Fn(I) -> Result<I, O>,
{
    forall|c: I, i2: I, o: O|
        c.wf() && c.src() == src && #[trigger] call_ensures(f, (c,), Result::Complete(i2, o))
            ==> i2.wf() && i2.src() == src && i2.spec_offset() >= c.spec_offset()
}

/// Whether every match `f` produces from a well-formed cursor over `src`
/// stays on `src`, is well formed, and consumes at least one element. A
/// rule repeated without consuming anything would never let repetition
/// stop, so repetition asks its rule for this.
pub open spec fn progressive_on<I, O, F>(f: F, src: Seq<I::Elem>) -> bool
    where I: InputIter, F: Fn(I) -> Result<I, O>,
{
    forall|c: I, i2: I, o: O|
        c.wf() && c.src() == src && #[trigger] call_ensures(f, (c,), Result::Complete(i2, o))
            ==> i2.wf() && i2.src() == src && i2.spec_offset() > c.spec_offset()
}

/// Whether `f`, started at `c`, can return a recoverable mismatch.
pub open spec fn can_fail_at<I, O, F>(f: F, c: I) -> bool
    where I: InputIter, F: Fn(I) -> Result<I, O>,
{
    exists|e: Error<I>| call_ensures(f, (c,), Result::Fail(e))
}

/// Whether `f`, started at `c`, can match.
pub open spec fn can_complete_at<I, O, F>(f: F, c: I) -> bool
    where I: InputIter, F: Fn(I) -> Result<I, O>,
{
    exists|i2: I, o: O| call_ensures(f, (c,), Result::Complete(i2, o))
}

/// Whether `f`, started at `c`, can return `Fail` or `Incomplete`: the two
/// outcomes that end a repetition cleanly.
pub open spec fn can_stall_at<I, O, F>(f: F, c: I) -> bool
    where I: InputIter, F: Fn(I) -> Result<I, O>,
{
    exists|out: Result<I, O>| call_ensures(f, (c,), out) && (out is Fail || out is Incomplete)
}

/// Whether `cs` is the thread of cursors of a run of consecutive matches
/// of `f`: each match starts at one cursor of `cs`, yields the next
/// cursor, and produces the corresponding value of `vals`.
pub open spec fn match_thread<I, O, F>(f: F, cs: Seq<I>, vals: Seq<O>) -> bool
    where I: InputIter, F: Fn(I) -> Result<I, O>,
{
    &&& cs.len() == vals.len() + 1
    &&& forall|k: int|
        0 <= k < vals.len() ==> #[trigger] call_ensures(
            f,
            (cs[k],),
            Result::Complete(cs[k + 1], vals[k]),
        )
}

/// Runs `f` repeatedly, gathering the matched values in order, and stops
/// cleanly at the first `Fail` or `Incomplete`, rewinding to the position
/// just before that attempt: zero matches is a match of the empty
/// sequence, never a failure. Only an `Abort` from `f` is passed on. Never
/// returns `Fail` or `Incomplete`, and the returned cursor never sits
/// before the entry cursor.
pub fn repeat<I, O, F>(i: I, f: F) -> (r: Result<I, Vec<O>>)
    where I: InputIter, F: Fn(I) -> Result<I, O>,
    requires
        i.wf(),
        callable_from(f, i.src(), i.spec_offset()),
        progressive_on(f, i.src()),
    ensures
        !(r is Fail),
        !(r is Incomplete),
        r matches Result::Complete(i2, vals) ==> {
            &&& i2.wf()
            &&& i2.src() == i.src()
            &&& i2.spec_offset() >= i.spec_offset()
            &&& exists|cs: Seq<I>|
                #[trigger] match_thread(f, cs, vals@) && cs.first() == i && cs.last() == i2
            &&& can_stall_at(f, i2)
        },
        r matches Result::Abort(e) ==> exists|cs: Seq<I>, vals: Seq<O>|
            #[trigger] match_thread(f, cs, vals) && cs.first() == i && call_ensures(
                f,
                (cs.last(),),
                Result::Abort(e),
            ),
{
    proof {
        i.wf_bounds();
    }
    let mut cur = i;
    let mut acc: Vec<O> = Vec::new();
    let ghost mut trace: Seq<I> = seq![i];
    loop
        invariant
            i.wf(),
            cur.wf(),
            cur.src() == i.src(),
            cur.spec_offset() >= i.spec_offset(),
            callable_from(f, i.src(), i.spec_offset()),
            progressive_on(f, i.src()),
            match_thread(f, trace, acc@),
            trace.first() == i,
            trace.last() == cur,
        decreases i.src().len() - cur.spec_offset(),
    {
        proof {
            cur.wf_bounds();
        }
        let res = f(cur);
        match res {
            Result::Complete(c2, o) => {
                let ghost prev_trace = trace;
                let ghost prev_vals = acc@;
                let ghost oo = o;
                acc.push(o);
                proof {
                    trace = trace.push(c2);
                    assert forall|k: int| 0 <= k < acc@.len() implies #[trigger] call_ensures(
                        f,
                        (trace[k],),
                        Result::Complete(trace[k + 1], acc@[k]),
                    ) by {
                        if k < prev_vals.len() {
                            assert(trace[k] == prev_trace[k]);
                            assert(trace[k + 1] == prev_trace[k + 1]);
                            assert(acc@[k] == prev_vals[k]);
                            assert(call_ensures(
                                f,
                                (prev_trace[k],),
                                Result::Complete(prev_trace[k + 1], prev_vals[k]),
                            ));
                        } else {
                            assert(trace[k] == prev_trace.last());
                            assert(trace[k + 1] == c2);
                            assert(acc@[k] == oo);
                            assert(call_ensures(f, (cur,), Result::Complete(c2, oo)));
                        }
                    }
                    assert(match_thread(f, trace, acc@));
                    c2.wf_bounds();
                }
                cur = c2;
            },
            Result::Abort(e) => {
                proof {
                    assert(call_ensures(f, (trace.last(),), Result::<I, O>::Abort(e)));
                }
                return Result::Abort(e);
            },
            Result::Incomplete(_) => {
                let out = Result::Complete(cur, acc);
                proof {
                    assert(call_ensures(f, (cur,), res));
                    assert(can_stall_at(f, out->Complete_0));
                    assert(match_thread(f, trace, out->Complete_1@));
                    assert(trace.first() == i && trace.last() == out->Complete_0);
                }
                return out;
            },
            Result::Fail(_) => {
                let out = Result::Complete(cur, acc);
                proof {
                    assert(call_ensures(f, (cur,), res));
                    assert(can_stall_at(f, out->Complete_0));
                    assert(match_thread(f, trace, out->Complete_1@));
                    assert(trace.first() == i && trace.last() == out->Complete_0);
                }
                return out;
            },
        }
    }
}

/// Whether `cs` is the thread of cursors a scan for a terminator visits:
/// each cursor is reached from the previous one by consuming one element,
/// and the terminator rule `f` can fail at every cursor but the last.
pub open spec fn scan_fail_thread<I, O, F>(f: F, cs: Seq<I>) -> bool
    where I: InputIter, F: Fn(I) -> Result<I, O>,
{
    &&& cs.len() >= 1
    &&& forall|k: int|
        0 <= k < cs.len() - 1 ==> {
            &&& (#[trigger] cs[k]).wf()
            &&& cs[k + 1].wf()
            &&& cs[k + 1].src() == cs[k].src()
            &&& cs[k + 1].spec_offset() == cs[k].spec_offset() + 1
            &&& can_fail_at(f, cs[k])
        }
}

/// Scans forward to the first position where the terminator rule `f`
/// matches, without consuming the terminator: a match carries the span of
/// everything stepped over and a cursor standing exactly at the
/// terminator. Exhausting the input first is `Incomplete`; an `Incomplete`
/// or `Abort` from `f` itself is passed on. Never returns `Fail`, and
/// never consumes the terminator.
pub fn until<I, O, S, F>(i: I, f: F) -> (r: Result<I, S>)
    where I: InputIter + Span<S>, F: Fn(I) -> Result<I, O>,
    requires
        i.wf(),
        callable_from(f, i.src(), i.spec_offset()),
        forall|c: I|
            c.wf() && c.src() == i.src() && c.spec_offset() >= i.spec_offset()
                && #[trigger] can_complete_at(f, c) ==> i.span_valid(
                i.spec_offset() as int,
                c.spec_offset() as int,
            ),
    ensures
        !(r is Fail),
        r matches Result::Complete(i2, sp) ==> {
            &&& i2.wf()
            &&& i2.src() == i.src()
            &&& i.spec_offset() <= i2.spec_offset() <= i.src().len()
            &&& exists|cs: Seq<I>|
                #[trigger] scan_fail_thread(f, cs) && cs.first() == i && cs.last() == i2
            &&& can_complete_at(f, i2)
            &&& <I as Span<S>>::span_data(sp) == i.src().subrange(
                i.spec_offset() as int,
                i2.spec_offset() as int,
            )
        },
        r matches Result::Incomplete(c) ==> (c.wf() && c.src() == i.src() && c.spec_offset()
            == i.src().len() && can_fail_at(f, c) && exists|cs: Seq<I>|
            #[trigger] scan_fail_thread(f, cs) && cs.first() == i && cs.last() == c) || (exists|
            cc: I,
        |
            cc.wf() && cc.src() == i.src() && cc.spec_offset() >= i.spec_offset()
                && #[trigger] call_ensures(f, (cc,), Result::<I, O>::Incomplete(c))),
        r matches Result::Abort(e) ==> exists|cc: I|
            cc.wf() && cc.src() == i.src() && cc.spec_offset() >= i.spec_offset()
                && #[trigger] call_ensures(f, (cc,), Result::<I, O>::Abort(e)),
{
    proof {
        i.wf_bounds();
    }
    let start = i.get_offset();
    let mut cur = i;
    let ghost mut trace: Seq<I> = seq![i];
    loop
        invariant
            i.wf(),
            cur.wf(),
            cur.src() == i.src(),
            cur.spec_offset() >= i.spec_offset(),
            start as nat == i.spec_offset(),
            callable_from(f, i.src(), i.spec_offset()),
            forall|c: I|
                c.wf() && c.src() == i.src() && c.spec_offset() >= i.spec_offset()
                    && #[trigger] can_complete_at(f, c) ==> i.span_valid(
                    i.spec_offset() as int,
                    c.spec_offset() as int,
                ),
            scan_fail_thread(f, trace),
            trace.first() == i,
            trace.last() == cur,
        decreases i.src().len() - cur.spec_offset(),
    {
        proof {
            cur.wf_bounds();
        }
        let res = f(cur);
        match res {
            Result::Complete(c2, o) => {
                let ghost oo = o;
                proof {
                    assert(call_ensures(f, (cur,), Result::Complete(c2, oo)));
                    assert(can_complete_at(f, cur));
                }
                let end = cur.get_offset();
                let sp = i.span(SpanRange::Range(start, end));
                return Result::Complete(cur, sp);
            },
            Result::Abort(e) => {
                proof {
                    assert(call_ensures(f, (cur,), Result::<I, O>::Abort(e)));
                }
                return Result::Abort(e);
            },
            Result::Incomplete(ctx) => {
                proof {
                    assert(call_ensures(f, (cur,), Result::<I, O>::Incomplete(ctx)));
                }
                return Result::Incomplete(ctx);
            },
            Result::Fail(e) => {
                proof {
                    assert(call_ensures(f, (cur,), Result::<I, O>::Fail(e)));
                    assert(can_fail_at(f, cur));
                }
                let ghost prev_trace = trace;
                let ghost prev = cur;
                match cur.next() {
                    Some(_) => {
                        proof {
                            trace = trace.push(cur);
                            assert forall|k: int| 0 <= k < trace.len() - 1 implies {
                                &&& (#[trigger] trace[k]).wf()
                                &&& trace[k + 1].wf()
                                &&& trace[k + 1].src() == trace[k].src()
                                &&& trace[k + 1].spec_offset() == trace[k].spec_offset() + 1
                                &&& can_fail_at(f, trace[k])
                            } by {
                                if k < prev_trace.len() - 1 {
                                    assert(trace[k] == prev_trace[k]);
                                    assert(trace[k + 1] == prev_trace[k + 1]);
                                } else {
                                    assert(trace[k] == prev);
                                    assert(trace[k + 1] == cur);
                                }
                            }
                            assert(scan_fail_thread(f, trace));
                        }
                    },
                    None => {
                        proof {
                            cur.wf_bounds();
                            assert(can_fail_at(f, cur));
                            assert(scan_fail_thread(f, trace) && trace.first() == i
                                && trace.last() == cur);
                        }
                        return Result::Incomplete(cur);
                    },
                }
            },
        }
    }
}

/// Whether `cs` is the thread of cursors a scan-while visits: each cursor
/// is reached from the previous one by consuming one element, and the rule
/// `f` can match at every cursor but the last.
pub open spec fn scan_match_thread<I, O, F>(f: F, cs: Seq<I>) -> bool
    where I: InputIter, F: Fn(I) -> Result<I, O>,
{
    &&& cs.len() >= 1
    &&& forall|k: int|
        0 <= k < cs.len() - 1 ==> {
            &&& (#[trigger] cs[k]).wf()
            &&& cs[k + 1].wf()
            &&& cs[k + 1].src() == cs[k].src()
            &&& cs[k + 1].spec_offset() == cs[k].spec_offset() + 1
            &&& can_complete_at(f, cs[k])
        }
}

/// Scans forward while the rule `f` keeps matching, consuming one element
/// per match, and stops at the first position where it fails: a match
/// carries the span consumed up to, excluding, that position, and a cursor
/// standing there. Exhausting the input first is `Incomplete`; an
/// `Incomplete` or `Abort` from `f` itself is passed on. Never returns
/// `Fail`.
pub fn consume_all<I, O, S, F>(i: I, f: F) -> (r: Result<I, S>)
    where I: InputIter + Span<S>, F: Fn(I) -> Result<I, O>,
    requires
        i.wf(),
        callable_from(f, i.src(), i.spec_offset()),
        forall|c: I|
            c.wf() && c.src() == i.src() && c.spec_offset() >= i.spec_offset()
                && #[trigger] can_fail_at(f, c) ==> i.span_valid(
                i.spec_offset() as int,
                c.spec_offset() as int,
            ),
    ensures
        !(r is Fail),
        r matches Result::Complete(i2, sp) ==> {
            &&& i2.wf()
            &&& i2.src() == i.src()
            &&& i.spec_offset() <= i2.spec_offset() <= i.src().len()
            &&& exists|cs: Seq<I>|
                #[trigger] scan_match_thread(f, cs) && cs.first() == i && cs.last() == i2
            &&& can_fail_at(f, i2)
            &&& <I as Span<S>>::span_data(sp) == i.src().subrange(
                i.spec_offset() as int,
                i2.spec_offset() as int,
            )
        },
        r matches Result::Incomplete(c) ==> (c.wf() && c.src() == i.src() && c.spec_offset()
            == i.src().len() && can_complete_at(f, c) && exists|cs: Seq<I>|
            #[trigger] scan_match_thread(f, cs) && cs.first() == i && cs.last() == c) || (exists|
            cc: I,
        |
            cc.wf() && cc.src() == i.src() && cc.spec_offset() >= i.spec_offset()
                && #[trigger] call_ensures(f, (cc,), Result::<I, O>::Incomplete(c))),
        r matches Result::Abort(e) ==> exists|cc: I|
            cc.wf() && cc.src() == i.src() && cc.spec_offset() >= i.spec_offset()
                && #[trigger] call_ensures(f, (cc,), Result::<I, O>::Abort(e)),
{
    proof {
        i.wf_bounds();
    }
    let start = i.get_offset();
    let mut cur = i;
    let ghost mut trace: Seq<I> = seq![i];
    loop
        invariant
            i.wf(),
            cur.wf(),
            cur.src() == i.src(),
            cur.spec_offset() >= i.spec_offset(),
            start as nat == i.spec_offset(),
            callable_from(f, i.src(), i.spec_offset()),
            forall|c: I|
                c.wf() && c.src() == i.src() && c.spec_offset() >= i.spec_offset()
                    && #[trigger] can_fail_at(f, c) ==> i.span_valid(
                    i.spec_offset() as int,
                    c.spec_offset() as int,
                ),
            scan_match_thread(f, trace),
            trace.first() == i,
            trace.last() == cur,
        decreases i.src().len() - cur.spec_offset(),
    {
        proof {
            cur.wf_bounds();
        }
        let res = f(cur);
        match res {
            Result::Fail(e) => {
                proof {
                    assert(call_ensures(f, (cur,), Result::<I, O>::Fail(e)));
                    assert(can_fail_at(f, cur));
                }
                let end = cur.get_offset();
                let sp = i.span(SpanRange::Range(start, end));
                return Result::Complete(cur, sp);
            },
            Result::Abort(e) => {
                proof {
                    assert(call_ensures(f, (cur,), Result::<I, O>::Abort(e)));
                }
                return Result::Abort(e);
            },
            Result::Incomplete(ctx) => {
                proof {
                    assert(call_ensures(f, (cur,), Result::<I, O>::Incomplete(ctx)));
                }
                return Result::Incomplete(ctx);
            },
            Result::Complete(c2, o) => {
                let ghost oo = o;
                proof {
                    assert(call_ensures(f, (cur,), Result::Complete(c2, oo)));
                    assert(can_complete_at(f, cur));
                }
                let ghost prev_trace = trace;
                let ghost prev = cur;
                match cur.next() {
                    Some(_) => {
                        proof {
                            trace = trace.push(cur);
                            assert forall|k: int| 0 <= k < trace.len() - 1 implies {
                                &&& (#[trigger] trace[k]).wf()
                                &&& trace[k + 1].wf()
                                &&& trace[k + 1].src() == trace[k].src()
                                &&& trace[k + 1].spec_offset() == trace[k].spec_offset() + 1
                                &&& can_complete_at(f, trace[k])
                            } by {
                                if k < prev_trace.len() - 1 {
                                    assert(trace[k] == prev_trace[k]);
                                    assert(trace[k + 1] == prev_trace[k + 1]);
                                } else {
                                    assert(trace[k] == prev);
                                    assert(trace[k + 1] == cur);
                                }
                            }
                            assert(scan_match_thread(f, trace));
                        }
                    },
                    None => {
                        proof {
                            cur.wf_bounds();
                            assert(can_complete_at(f, cur));
                            assert(scan_match_thread(f, trace) && trace.first() == i
                                && trace.last() == cur);
                        }
                        return Result::Incomplete(cur);
                    },
                }
            },
        }
    }
}

/// Whether the step a separated list repeats, a separator match followed
/// by an item match, strictly advances the cursor whenever both match.
pub open spec fn pair_progressive_on<I, OS, O, FS, FI>(fs: FS, fi: FI, src: Seq<I::Elem>) -> bool
    where I: InputIter, FS: Fn(I) -> Result<I, OS>, FI: Fn(I) -> Result<I, O>,
{
    forall|c: I, m: I, i2: I, so: OS, o: O|
        c.wf() && c.src() == src && #[trigger] call_ensures(fs, (c,), Result::Complete(m, so))
            && #[trigger] call_ensures(fi, (m,), Result::Complete(i2, o))
            ==> i2.spec_offset() > c.spec_offset()
}

/// Whether `vals` is a separated list the rules can produce from `entry`:
/// the item rule `fi` matches the first value there, and each later value
/// follows a separator match (`fs`, its value in `svals`) and an item
/// match, threading the cursor through `cs` (the cursor after each item)
/// and `mids` (the cursor after each separator).
pub open spec fn sep_list_thread<I, OS, O, FS, FI>(
    fs: FS,
    fi: FI,
    entry: I,
    cs: Seq<I>,
    mids: Seq<I>,
    svals: Seq<OS>,
    vals: Seq<O>,
) -> bool
    where I: InputIter, FS: Fn(I) -> Result<I, OS>, FI: Fn(I) -> Result<I, O>,
{
    &&& vals.len() >= 1
    &&& cs.len() == vals.len()
    &&& mids.len() == vals.len() - 1
    &&& svals.len() == vals.len() - 1
    &&& call_ensures(fi, (entry,), Result::Complete(cs[0], vals[0]))
    &&& forall|k: int|
        0 <= k < vals.len() - 1 ==> #[trigger] call_ensures(
            fs,
            (cs[k],),
            Result::Complete(mids[k], svals[k]),
        ) && call_ensures(fi, (mids[k],), Result::Complete(cs[k + 1], vals[k + 1]))
}

/// Whether the repeated step of a separated list can stop cleanly at `c`:
/// the separator rule can fail there or find the input exhausted, or it
/// can match and the item rule can then fail or find the input exhausted.
pub open spec fn sep_blocked<I, OS, O, FS, FI>(fs: FS, fi: FI, c: I) -> bool
    where I: InputIter, FS: Fn(I) -> Result<I, OS>, FI: Fn(I) -> Result<I, O>,
{
    ||| exists|out: Result<I, OS>| call_ensures(fs, (c,), out) && (out is Fail || out is Incomplete)
    ||| exists|mid: I, so: OS, out: Result<I, O>|
        call_ensures(fs, (c,), Result::Complete(mid, so)) && call_ensures(fi, (mid,), out) && (
        out is Fail || out is Incomplete)
}

/// Parses a list of at least one item matched by `fi`, the items separated
/// by matches of `fs`: the first item is required, so an empty list is
/// `Fail`, not a zero-length match. After the first item, separator-item
/// steps repeat until one of them fails or finds the input exhausted,
/// which stops the list cleanly with the step unconsumed, so a trailing
/// separator is tolerated and left for a later rule. An `Abort` from
/// either rule is passed on.
pub fn separated<I, OS, O, FS, FI>(i: I, fs: FS, fi: FI) -> (r: Result<I, Vec<O>>)
    where I: InputIter, FS: Fn(I) -> Result<I, OS>, FI: Fn(I) -> Result<I, O>,
    requires
        i.wf(),
        callable_from(fs, i.src(), i.spec_offset()),
        callable_from(fi, i.src(), i.spec_offset()),
        advancing_on(fs, i.src()),
        advancing_on(fi, i.src()),
        pair_progressive_on(fs, fi, i.src()),
    ensures
        r matches Result::Fail(e) ==> call_ensures(fi, (i,), Result::<I, O>::Fail(e)),
        r matches Result::Incomplete(c) ==> call_ensures(fi, (i,), Result::<I, O>::Incomplete(c)),
        r matches Result::Complete(i2, vals) ==> {
            &&& i2.wf()
            &&& i2.src() == i.src()
            &&& i2.spec_offset() >= i.spec_offset()
            &&& vals@.len() >= 1
            &&& exists|cs: Seq<I>, mids: Seq<I>, svals: Seq<OS>|
                #[trigger] sep_list_thread(fs, fi, i, cs, mids, svals, vals@) && cs.last() == i2
            &&& sep_blocked(fs, fi, i2)
        },
        r matches Result::Abort(e) ==> {
            ||| call_ensures(fi, (i,), Result::<I, O>::Abort(e))
            ||| exists|c: I|
                c.wf() && c.src() == i.src() && c.spec_offset() >= i.spec_offset()
                    && #[trigger] call_ensures(fs, (c,), Result::<I, OS>::Abort(e))
            ||| exists|c: I, m: I, so: OS|
                c.wf() && c.src() == i.src() && c.spec_offset() >= i.spec_offset()
                    && #[trigger] call_ensures(fs, (c,), Result::Complete(m, so))
                    && call_ensures(fi, (m,), Result::<I, O>::Abort(e))
        },
{
    proof {
        i.wf_bounds();
    }
    let head = fi(i);
    match head {
        Result::Incomplete(ctx) => {
            proof {
                assert(call_ensures(fi, (i,), Result::<I, O>::Incomplete(ctx)));
            }
            Result::Incomplete(ctx)
        },
        Result::Fail(e) => {
            proof {
                assert(call_ensures(fi, (i,), Result::<I, O>::Fail(e)));
            }
            Result::Fail(e)
        },
        Result::Abort(e) => {
            proof {
                assert(call_ensures(fi, (i,), Result::<I, O>::Abort(e)));
            }
            Result::Abort(e)
        },
        Result::Complete(c1, item) => {
            let ghost first_item = item;
            let mut list: Vec<O> = Vec::new();
            list.push(item);
            let mut cur = c1;
            let ghost mut cs_t: Seq<I> = seq![c1];
            let ghost mut mids_t: Seq<I> = Seq::empty();
            let ghost mut svals_t: Seq<OS> = Seq::empty();
            proof {
                assert(call_ensures(fi, (i,), Result::Complete(c1, first_item)));
                assert(sep_list_thread(fs, fi, i, cs_t, mids_t, svals_t, list@));
            }
            loop
                invariant
                    i.wf(),
                    cur.wf(),
                    cur.src() == i.src(),
                    cur.spec_offset() >= i.spec_offset(),
                    callable_from(fs, i.src(), i.spec_offset()),
                    callable_from(fi, i.src(), i.spec_offset()),
                    advancing_on(fs, i.src()),
                    advancing_on(fi, i.src()),
                    pair_progressive_on(fs, fi, i.src()),
                    sep_list_thread(fs, fi, i, cs_t, mids_t, svals_t, list@),
                    cs_t.last() == cur,
                    list@.len() >= 1,
                decreases i.src().len() - cur.spec_offset(),
            {
                proof {
                    cur.wf_bounds();
                }
                let rs = fs(cur);
                match rs {
                    Result::Complete(mid, sval) => {
                        let ghost ssval = sval;
                        proof {
                            assert(call_ensures(fs, (cur,), Result::Complete(mid, ssval)));
                        }
                        let ri = fi(mid);
                        match ri {
                            Result::Complete(c2, item2) => {
                                let ghost prev_cs = cs_t;
                                let ghost prev_mids = mids_t;
                                let ghost prev_svals = svals_t;
                                let ghost prev_vals = list@;
                                let ghost item2g = item2;
                                list.push(item2);
                                proof {
                                    assert(call_ensures(
                                        fi,
                                        (mid,),
                                        Result::Complete(c2, item2g),
                                    ));
                                    cs_t = cs_t.push(c2);
                                    mids_t = mids_t.push(mid);
                                    svals_t = svals_t.push(ssval);
                                    assert forall|k: int| 0 <= k < list@.len() - 1 implies
                                        #[trigger] call_ensures(
                                        fs,
                                        (cs_t[k],),
                                        Result::Complete(mids_t[k], svals_t[k]),
                                    ) && call_ensures(
                                        fi,
                                        (mids_t[k],),
                                        Result::Complete(cs_t[k + 1], list@[k + 1]),
                                    ) by {
                                        if k < prev_vals.len() - 1 {
                                            assert(cs_t[k] == prev_cs[k]);
                                            assert(cs_t[k + 1] == prev_cs[k + 1]);
                                            assert(mids_t[k] == prev_mids[k]);
                                            assert(svals_t[k] == prev_svals[k]);
                                            assert(list@[k + 1] == prev_vals[k + 1]);
                                        } else {
                                            assert(cs_t[k] == prev_cs.last());
                                            assert(cs_t[k + 1] == c2);
                                            assert(mids_t[k] == mid);
                                            assert(svals_t[k] == ssval);
                                            assert(list@[k + 1] == item2g);
                                        }
                                    }
                                    assert(list@[0] == prev_vals[0]);
                                    assert(sep_list_thread(
                                        fs,
                                        fi,
                                        i,
                                        cs_t,
                                        mids_t,
                                        svals_t,
                                        list@,
                                    ));
                                    c2.wf_bounds();
                                }
                                cur = c2;
                            },
                            Result::Abort(e) => {
                                proof {
                                    assert(call_ensures(fi, (mid,), Result::<I, O>::Abort(e)));
                                    assert(cur.wf() && cur.src() == i.src()
                                        && cur.spec_offset() >= i.spec_offset());
                                    assert(exists|m: I, so: OS|
                                        call_ensures(fs, (cur,), Result::Complete(m, so))
                                            && call_ensures(
                                            fi,
                                            (m,),
                                            Result::<I, O>::Abort(e),
                                        )) by {
                                        assert(call_ensures(
                                            fs,
                                            (cur,),
                                            Result::Complete(mid, ssval),
                                        ));
                                    }
                                }
                                return Result::Abort(e);
                            },
                            Result::Incomplete(_) => {
                                let out = Result::Complete(cur, list);
                                proof {
                                    assert(call_ensures(fi, (mid,), ri));
                                    assert(sep_blocked(fs, fi, out->Complete_0));
                                    assert(sep_list_thread(
                                        fs,
                                        fi,
                                        i,
                                        cs_t,
                                        mids_t,
                                        svals_t,
                                        out->Complete_1@,
                                    ));
                                    assert(cs_t.last() == out->Complete_0);
                                }
                                return out;
                            },
                            Result::Fail(_) => {
                                let out = Result::Complete(cur, list);
                                proof {
                                    assert(call_ensures(fi, (mid,), ri));
                                    assert(sep_blocked(fs, fi, out->Complete_0));
                                    assert(sep_list_thread(
                                        fs,
                                        fi,
                                        i,
                                        cs_t,
                                        mids_t,
                                        svals_t,
                                        out->Complete_1@,
                                    ));
                                    assert(cs_t.last() == out->Complete_0);
                                }
                                return out;
                            },
                        }
                    },
                    Result::Abort(e) => {
                        proof {
                            assert(call_ensures(fs, (cur,), Result::<I, OS>::Abort(e)));
                            assert(cur.wf() && cur.src() == i.src() && cur.spec_offset()
                                >= i.spec_offset());
                        }
                        return Result::Abort(e);
                    },
                    Result::Incomplete(_) => {
                        let out = Result::Complete(cur, list);
                        proof {
                            assert(call_ensures(fs, (cur,), rs));
                            assert(sep_blocked(fs, fi, out->Complete_0));
                            assert(sep_list_thread(
                                fs,
                                fi,
                                i,
                                cs_t,
                                mids_t,
                                svals_t,
                                out->Complete_1@,
                            ));
                            assert(cs_t.last() == out->Complete_0);
                        }
                        return out;
                    },
                    Result::Fail(_) => {
                        let out = Result::Complete(cur, list);
                        proof {
                            assert(call_ensures(fs, (cur,), rs));
                            assert(sep_blocked(fs, fi, out->Complete_0));
                            assert(sep_list_thread(
                                fs,
                                fi,
                                i,
                                cs_t,
                                mids_t,
                                svals_t,
                                out->Complete_1@,
                            ));
                            assert(cs_t.last() == out->Complete_0);
                        }
                        return out;
                    },
                }
            }
        },
    }
}

} // verus!
