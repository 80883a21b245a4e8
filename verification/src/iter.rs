//! Concrete cursors: one over an arbitrary element slice, and one over
//! UTF-8 text that additionally tracks lines and columns and can
//! materialize sub-ranges of the text.
use vstd::prelude::*;
use vstd::slice::slice_subrange;
use vstd::string::StringSliceAdditionalSpecFns;
use vstd::utf8::valid_utf8;

use crate::{InputIter, Offsetable, Peekable, Positioned, Seekable, Span, SpanRange};

verus! {

/// `n + 1`, staying put at the largest `usize` instead of wrapping.
pub open spec fn sat_inc(n: usize) -> usize {
    if n == usize::MAX {
        n
    } else {
        (n + 1) as usize
    }
}

/// A cursor over a borrowed slice: the slice itself is never copied, only
/// the cursor's position.
#[derive(Debug, Clone, Copy)]
pub struct SliceIter<'a, T> {
    /// The borrowed input.
    pub source: &'a [T],
    /// The count of consumed elements.
    pub offset: usize,
}

impl<'a, T: Copy> SliceIter<'a, T> {
    /// Builds a cursor positioned at the start of `source`.
    pub fn new(source: &'a [T]) -> (r: Self)
        ensures
            r.src() == source@,
            r.spec_offset() == 0,
            r.wf(),
    {
        SliceIter { source, offset: 0 }
    }
}

impl<'a, T> Offsetable for SliceIter<'a, T> {
    open spec fn spec_offset(&self) -> nat {
        self.offset as nat
    }

    fn get_offset(&self) -> (r: usize) {
        self.offset
    }
}

impl<'a, T: Copy> InputIter for SliceIter<'a, T> {
    type Elem = T;

    open spec fn src(&self) -> Seq<T> {
        self.source@
    }

    open spec fn wf(&self) -> bool {
        self.offset <= self.source@.len()
    }

    proof fn wf_bounds(&self) {
    }

    fn next(&mut self) -> (r: Option<T>) {
        if self.offset < self.source.len() {
            let x = self.source[self.offset];
            self.offset = self.offset + 1;
            Some(x)
        } else {
            None
        }
    }
}

impl<'a, T: Copy> Span<&'a [T]> for SliceIter<'a, T> {
    open spec fn span_valid(&self, start: int, end: int) -> bool {
        0 <= start <= end <= self.src().len()
    }

    open spec fn span_data(o: &'a [T]) -> Seq<T> {
        o@
    }

    fn span(&self, idx: SpanRange) -> (r: &'a [T]) {
        let len = self.source.len();
        let bounds: (usize, usize) = match idx {
            SpanRange::Range(a, b) => (a, b),
            SpanRange::RangeTo(b) => (0, b),
            SpanRange::RangeFrom(a) => (a, len),
            SpanRange::RangeFull => (0, len),
        };
        slice_subrange(self.source, bounds.0, bounds.1)
    }
}

impl<'a, T: Copy> Peekable for SliceIter<'a, T> {
    fn peek_next(&self) -> (r: Option<T>) {
        if self.offset < self.source.len() {
            Some(self.source[self.offset])
        } else {
            None
        }
    }
}

impl<'a> From<&'a str> for SliceIter<'a, u8> {
    /// Builds a cursor over the UTF-8 bytes of `source`.
    fn from(source: &'a str) -> (r: Self)
        ensures
            r.src() == source.spec_bytes(),
            r.spec_offset() == 0,
            r.wf(),
    {
        SliceIter::new(source.as_bytes())
    }
}

impl<'a> vstd::std_specs::convert::FromSpecImpl<&'a str> for SliceIter<'a, u8> {
    open spec fn obeys_from_spec() -> bool {
        false
    }

    open spec fn from_spec(v: &'a str) -> Self {
        vstd::pervasive::arbitrary()
    }
}

impl<'a, T: Copy> From<&'a [T]> for SliceIter<'a, T> {
    /// Builds a cursor positioned at the start of `source`.
    fn from(source: &'a [T]) -> (r: Self)
        ensures
            r.src() == source@,
            r.spec_offset() == 0,
            r.wf(),
    {
        SliceIter::new(source)
    }
}

impl<'a, T: Copy> vstd::std_specs::convert::FromSpecImpl<&'a [T]> for SliceIter<'a, T> {
    open spec fn obeys_from_spec() -> bool {
        false
    }

    open spec fn from_spec(v: &'a [T]) -> Self {
        vstd::pervasive::arbitrary()
    }
}

/// A cursor over UTF-8 text that walks the text byte by byte and tracks the
/// current line and column. The column resets to 1 and the line grows by
/// one whenever a line feed is consumed.
#[derive(Debug, Clone, Copy)]
pub struct StrIter<'a> {
    /// The borrowed text.
    pub source: &'a str,
    /// The count of consumed bytes.
    pub offset: usize,
    /// The current line, starting at 1.
    pub line: usize,
    /// The current column, starting at 1 and counting bytes.
    pub column: usize,
}

impl<'a> StrIter<'a> {
    /// Builds a cursor positioned at the start of `source`, on line 1,
    /// column 1.
    pub fn new(source: &'a str) -> (r: Self)
        ensures
            r.src() == source.spec_bytes(),
            r.spec_offset() == 0,
            r.spec_line() == 1,
            r.spec_column() == 1,
            r.wf(),
    {
        StrIter { source, offset: 0, line: 1, column: 1 }
    }
}

impl<'a> Offsetable for StrIter<'a> {
    open spec fn spec_offset(&self) -> nat {
        self.offset as nat
    }

    fn get_offset(&self) -> (r: usize) {
        self.offset
    }
}

impl<'a> InputIter for StrIter<'a> {
    type Elem = u8;

    open spec fn src(&self) -> Seq<u8> {
        self.source.spec_bytes()
    }

    open spec fn wf(&self) -> bool {
        self.offset <= self.source.spec_bytes().len()
    }

    proof fn wf_bounds(&self) {
    }

    fn next(&mut self) -> (r: Option<u8>)
        ensures
            old(self).spec_offset() < old(self).src().len() ==> {
                &&& old(self).src()[old(self).spec_offset() as int] == 10 ==> {
                    &&& final(self).spec_line() == sat_inc(old(self).line)
                    &&& final(self).spec_column() == 1
                }
                &&& old(self).src()[old(self).spec_offset() as int] != 10 ==> {
                    &&& final(self).spec_line() == old(self).spec_line()
                    &&& final(self).spec_column() == sat_inc(old(self).column)
                }
            },
    {
        let bytes = self.source.as_bytes();
        if self.offset < bytes.len() {
            let b = bytes[self.offset];
            self.offset = self.offset + 1;
            if b == 10 {
                if self.line < usize::MAX {
                    self.line = self.line + 1;
                }
                self.column = 1;
            } else {
                if self.column < usize::MAX {
                    self.column = self.column + 1;
                }
            }
            Some(b)
        } else {
            None
        }
    }
}

impl<'a> Positioned for StrIter<'a> {
    open spec fn spec_line(&self) -> nat {
        self.line as nat
    }

    open spec fn spec_column(&self) -> nat {
        self.column as nat
    }

    fn line(&self) -> (r: usize) {
        self.line
    }

    fn column(&self) -> (r: usize) {
        self.column
    }
}

impl<'a> Span<&'a str> for StrIter<'a> {
    /// A span of text can only be cut at character boundaries.
    open spec fn span_valid(&self, start: int, end: int) -> bool {
        &&& 0 <= start <= end <= self.src().len()
        &&& vstd::utf8::is_char_boundary(self.src(), start)
        &&& vstd::utf8::is_char_boundary(self.src(), end)
    }

    open spec fn span_data(o: &'a str) -> Seq<u8> {
        o.spec_bytes()
    }

    fn span(&self, idx: SpanRange) -> (r: &'a str) {
        broadcast use vstd::utf8::group_utf8_lib;

        let len = self.source.as_bytes().len();
        let bounds: (usize, usize) = match idx {
            SpanRange::Range(a, b) => (a, b),
            SpanRange::RangeTo(b) => (0, b),
            SpanRange::RangeFrom(a) => (a, len),
            SpanRange::RangeFull => (0, len),
        };
        let a = bounds.0;
        let b = bounds.1;
        let ghost bytes = self.source.spec_bytes();
        let pair = self.source.split_at(b);
        let pre = pair.0;
        proof {
            assert(valid_utf8(bytes));
            assert(pre.spec_bytes() =~= bytes.subrange(0, b as int));
            assert(valid_utf8(pre.spec_bytes()));
            if a < b {
                assert(!vstd::utf8::is_continuation_byte(bytes[a as int]));
                assert(pre.spec_bytes()[a as int] == bytes[a as int]);
                assert(vstd::utf8::is_char_boundary(pre.spec_bytes(), a as int));
            } else {
                assert(vstd::utf8::is_char_boundary(pre.spec_bytes(), a as int));
            }
        }
        let pair2 = pre.split_at(a);
        let mid = pair2.1;
        proof {
            assert(mid.spec_bytes() =~= bytes.subrange(a as int, b as int));
        }
        mid
    }
}

impl<'a> Seekable for StrIter<'a> {
    fn seek(&mut self, to: usize) -> (r: usize)
        ensures
            final(self).spec_line() == old(self).spec_line(),
            final(self).spec_column() == old(self).spec_column(),
    {
        let self_len = self.source.as_bytes().len();
        let offset = if self_len > to {
            to
        } else {
            self_len
        };
        self.offset = offset;
        self.offset
    }
}

impl<'a> Peekable for StrIter<'a> {
    fn peek_next(&self) -> (r: Option<u8>) {
        let bytes = self.source.as_bytes();
        if self.offset < bytes.len() {
            Some(bytes[self.offset])
        } else {
            None
        }
    }
}

impl<'a> From<&'a str> for StrIter<'a> {
    /// Builds a cursor positioned at the start of `source`, on line 1,
    /// column 1.
    fn from(source: &'a str) -> (r: Self)
        ensures
            r.src() == source.spec_bytes(),
            r.spec_offset() == 0,
            r.spec_line() == 1,
            r.spec_column() == 1,
            r.wf(),
    {
        Self::new(source)
    }
}

impl<'a> vstd::std_specs::convert::FromSpecImpl<&'a str> for StrIter<'a> {
    open spec fn obeys_from_spec() -> bool {
        false
    }

    open spec fn from_spec(v: &'a str) -> Self {
        vstd::pervasive::arbitrary()
    }
}

} // verus!
