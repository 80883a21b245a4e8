//! A combinator library for recursive-descent matching with fully abortable
//! parsing: every rule returns one of four outcomes, distinguishing a
//! recoverable mismatch (`Fail`) from a fatal one (`Abort`), so that a
//! grammar author controls exactly when backtracking stops.
//!
//! Rules run over cheaply copied cursors ([`InputIter`] implementations such
//! as [`iter::SliceIter`] and [`iter::StrIter`]); backtracking copies a
//! cursor instead of mutating shared state.
use vstd::prelude::*;
use vstd::string::StringExecFns;

pub mod combinators;
pub mod iter;
pub mod matchers;

pub use combinators::{
    ascii_alpha, ascii_alphanumeric, ascii_digit, ascii_ws, complete, consume_all, discard,
    either, eoi, input, must, must_complete, not, optional, pair, peek, repeat, separated,
    text_token, trap, triple, until, wrap_err,
};
pub use iter::SliceIter;
pub use iter::StrIter;
pub use matchers::must_string;

verus! {

/// A position expressed as a count of already consumed items.
pub trait Offsetable {
    /// The consumed count, as specifications see it.
    spec fn spec_offset(&self) -> nat;

    /// Returns the consumed count.
    fn get_offset(&self) -> (r: usize)
        ensures
            r as nat == self.spec_offset(),
    ;
}

impl Offsetable for usize {
    open spec fn spec_offset(&self) -> nat {
        *self as nat
    }

    fn get_offset(&self) -> (r: usize) {
        *self
    }
}

/// A copyable cursor over an immutable input sequence.
///
/// A cursor pairs the whole input (`src`) with the count of consumed
/// elements (`spec_offset`); copying one yields an independent checkpoint,
/// which is how every combinator backtracks.
pub trait InputIter: Offsetable + Sized + Copy {
    /// The element type the cursor yields.
    type Elem;

    /// The whole underlying input, as specifications see it.
    spec fn src(&self) -> Seq<Self::Elem>;

    /// Well-formed cursors sit at or before the end of their input.
    spec fn wf(&self) -> bool;

    /// A well-formed cursor's consumed count never passes the input's end.
    proof fn wf_bounds(&self)
        requires
            self.wf(),
        ensures
            self.spec_offset() <= self.src().len(),
    ;

    /// Consumes one element and advances, or reports the end of the input
    /// without moving.
    fn next(&mut self) -> (r: Option<Self::Elem>)
        requires
            old(self).wf(),
        ensures
            final(self).wf(),
            final(self).src() == old(self).src(),
            old(self).spec_offset() < old(self).src().len() ==> {
                &&& r == Some(old(self).src()[old(self).spec_offset() as int])
                &&& final(self).spec_offset() == old(self).spec_offset() + 1
            },
            old(self).spec_offset() >= old(self).src().len() ==> {
                &&& r is None
                &&& *final(self) == *old(self)
            },
    ;
}

/// A cursor that can move to an absolute position.
pub trait Seekable: InputIter {
    /// Moves to `to`, clamped to the input's end, and returns the new
    /// consumed count.
    fn seek(&mut self, to: usize) -> (r: usize)
        requires
            old(self).wf(),
        ensures
            final(self).wf(),
            final(self).src() == old(self).src(),
            final(self).spec_offset() == if to <= old(self).src().len() {
                to as nat
            } else {
                old(self).src().len()
            },
            r as nat == final(self).spec_offset(),
    ;
}

/// A cursor over text that reports the current line and column.
pub trait Positioned: InputIter {
    /// The current line, as specifications see it.
    spec fn spec_line(&self) -> nat;

    /// The current column, as specifications see it.
    spec fn spec_column(&self) -> nat;

    /// Returns the current line.
    fn line(&self) -> (r: usize)
        ensures
            r as nat == self.spec_line(),
    ;

    /// Returns the current column.
    fn column(&self) -> (r: usize)
        ensures
            r as nat == self.spec_column(),
    ;
}

/// The ways a sub-range of an input can be addressed for span extraction.
#[derive(Clone, Copy, Debug)]
pub enum SpanRange {
    /// Elements from the first position up to, excluding, the second.
    Range(usize, usize),
    /// Elements from the start of the input up to, excluding, the position.
    RangeTo(usize),
    /// Elements from the position to the end of the input.
    RangeFrom(usize),
    /// The whole input.
    RangeFull,
}

/// The half-open position interval a [`SpanRange`] stands for, in an input
/// of length `len`.
pub open spec fn span_bounds(idx: SpanRange, len: int) -> (int, int) {
    match idx {
        SpanRange::Range(a, b) => (a as int, b as int),
        SpanRange::RangeTo(b) => (0, b as int),
        SpanRange::RangeFrom(a) => (a as int, len),
        SpanRange::RangeFull => (0, len),
    }
}

/// A cursor that can materialize the sub-range of its input between two
/// positions.
pub trait Span<O>: InputIter {
    /// Whether a half-open position interval can be materialized from this
    /// input.
    spec fn span_valid(&self, start: int, end: int) -> bool;

    /// The elements a materialized span holds.
    spec fn span_data(o: O) -> Seq<Self::Elem>;

    /// Materializes the sub-range of the input that `idx` addresses.
    fn span(&self, idx: SpanRange) -> (r: O)
        requires
            self.wf(),
            self.span_valid(
                span_bounds(idx, self.src().len() as int).0,
                span_bounds(idx, self.src().len() as int).1,
            ),
        ensures
            Self::span_data(r) == self.src().subrange(
                span_bounds(idx, self.src().len() as int).0,
                span_bounds(idx, self.src().len() as int).1,
            ),
    ;
}

/// A cursor that can look at the next element without consuming it.
pub trait Peekable: InputIter {
    /// Returns the element `next` would yield, without advancing.
    fn peek_next(&self) -> (r: Option<Self::Elem>)
        requires
            self.wf(),
        ensures
            self.spec_offset() < self.src().len() ==> r == Some(
                self.src()[self.spec_offset() as int],
            ),
            self.spec_offset() >= self.src().len() ==> r is None,
    ;
}

/// The error carried by `Result::Fail` and `Result::Abort`: a message, an
/// optional cause, and the positional context the mismatch happened at.
///
/// Causes form an owned chain pointing strictly backward in construction
/// order, so a chain can never be cyclic.
#[derive(Debug)]
pub struct Error<C> {
    /// The message describing the mismatch.
    pub msg: String,
    /// The error this one was built from, if any.
    pub cause: Option<Box<Error<C>>>,
    /// Where the mismatch happened.
    pub context: Box<C>,
}

/// The message chain a rendered error shows: the error's own message,
/// followed by each cause's, backward along the chain.
pub open spec fn spec_render<C>(e: Error<C>) -> Seq<char>
    decreases e,
{
    match e.cause {
        Option::None => e.msg@,
        Option::Some(c) => e.msg@ + "\n\tCaused By:"@ + spec_render(*c),
    }
}

impl<C> Error<C> {
    /// Builds an error with a positional context and no cause.
    pub fn new(msg: String, ctx: Box<C>) -> (r: Self)
        ensures
            r.msg == msg,
            r.cause is None,
            r.context == ctx,
    {
        Error { msg, cause: None, context: ctx }
    }

    /// Builds an error with a positional context and a cause.
    pub fn caused_by(msg: String, cause: Box<Self>, ctx: Box<C>) -> (r: Self)
        ensures
            r.msg == msg,
            r.cause == Some(cause),
            r.context == ctx,
    {
        Error { msg, cause: Some(cause), context: ctx }
    }

    /// Returns the message.
    pub fn get_msg(&self) -> (r: &str)
        ensures
            r@ == self.msg@,
    {
        self.msg.as_str()
    }

    /// Returns `Some(cause)` if there is one, `None` otherwise.
    pub fn get_cause<'a>(&'a self) -> (r: Option<&'a Error<C>>)
        ensures
            r is Some <==> self.cause is Some,
            r matches Some(e) ==> self.cause matches Some(c) && *e == *c,
    {
        match &self.cause {
            Some(e) => Some(&**e),
            None => None,
        }
    }

    /// Returns the positional context.
    pub fn get_context(&self) -> (r: &C)
        ensures
            *r == *self.context,
    {
        &*self.context
    }

    /// Renders the message followed by each cause's message, backward along
    /// the chain.
    pub fn render(&self) -> (r: String)
        ensures
            r@ == spec_render(*self),
        decreases *self,
    {
        let mut out = String::new();
        out.append(self.msg.as_str());
        match &self.cause {
            Some(c) => {
                out.append("\n\tCaused By:");
                let rest = c.render();
                out.append(rest.as_str());
                out
            },
            None => out,
        }
    }
}

impl<C: Offsetable> Offsetable for Error<C> {
    /// An error's position is its context's.
    open spec fn spec_offset(&self) -> nat {
        self.context.spec_offset()
    }

    fn get_offset(&self) -> (r: usize) {
        self.context.get_offset()
    }
}

/// The result of a matching attempt: the four-state outcome algebra every
/// combinator consumes and produces.
///
/// Once a rule produces `Abort`, every enclosing combinator passes it on
/// unmodified; only an explicit de-escalation (`trap`) turns it back into
/// `Fail`.
#[derive(Debug)]
pub enum Result<I: InputIter, O> {
    /// A successful match: the cursor advanced past the consumed input, and
    /// the matched value.
    Complete(I, O),
    /// Input ran out before a match could be decided; carries the cursor at
    /// the point the input ended.
    Incomplete(I),
    /// A local, recoverable mismatch.
    Fail(Error<I>),
    /// A fatal mismatch no alternative can recover from.
    Abort(Error<I>),
}

impl<I: InputIter, O> Result<I, O> {
    /// Returns true if the result is `Complete`.
    pub fn is_complete(&self) -> (r: bool)
        ensures
            r == (self is Complete),
    {
        match self {
            Result::Complete(_, _) => true,
            _ => false,
        }
    }

    /// Returns true if the result is `Incomplete`.
    pub fn is_incomplete(&self) -> (r: bool)
        ensures
            r == (self is Incomplete),
    {
        match self {
            Result::Incomplete(_) => true,
            _ => false,
        }
    }

    /// Returns true if the result is `Fail`.
    pub fn is_fail(&self) -> (r: bool)
        ensures
            r == (self is Fail),
    {
        match self {
            Result::Fail(_) => true,
            _ => false,
        }
    }

    /// Returns true if the result is `Abort`.
    pub fn is_abort(&self) -> (r: bool)
        ensures
            r == (self is Abort),
    {
        match self {
            Result::Abort(_) => true,
            _ => false,
        }
    }
}

} // verus!
