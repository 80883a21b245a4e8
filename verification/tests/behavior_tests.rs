use abortable_parser::iter::{SliceIter, StrIter};
use abortable_parser::{
    ascii_ws, complete, either, eoi, must, must_string, optional, peek, repeat, separated,
    text_token, trap, until, Error, InputIter, Offsetable, Peekable, Positioned, Result,
    Seekable,
};

fn failing<I: InputIter>(i: I) -> Result<I, String> {
    Result::Fail(Error::new("nope".to_string(), Box::new(i)))
}

#[test]
fn test_optional_never_fails_on_mismatch() {
    let iter = SliceIter::new("xyz".as_bytes());
    let result = optional(iter, text_token(iter, "abc"));
    assert!(!result.is_fail());
    assert!(result.is_complete());
    if let Result::Complete(i, o) = result {
        assert_eq!(i.get_offset(), 0);
        assert!(o.is_none());
    }
}

#[test]
fn test_repeat_never_moves_backward() {
    let iter = StrIter::new("aaa");
    let result = repeat(iter, |i: StrIter| text_token(i, "a"));
    assert!(result.is_complete());
    if let Result::Complete(i, o) = result {
        assert_eq!(o.len(), 3);
        assert_eq!(i.get_offset(), 3);
    }
}

#[test]
fn test_peek_keeps_entry_cursor() {
    let mut iter = SliceIter::new("abcd".as_bytes());
    iter.next();
    let entry = iter.clone();
    let result = peek(iter, text_token(iter, "bc"));
    assert!(result.is_complete());
    if let Result::Complete(i, o) = result {
        assert_eq!(i.get_offset(), entry.get_offset());
        assert_eq!(o, "bc");
    }
}

fn consumes_then_fails<'a>(mut i: SliceIter<'a, u8>) -> Result<SliceIter<'a, u8>, &'a str> {
    i.next();
    i.next();
    Result::Fail(Error::new("late mismatch".to_string(), Box::new(i)))
}

#[test]
fn test_either_second_rule_starts_fresh() {
    let iter = SliceIter::new("foo".as_bytes());
    let result = either(iter, consumes_then_fails, |i: SliceIter<u8>| {
        text_token(i, "fo")
    });
    assert!(result.is_complete());
    if let Result::Complete(i, o) = result {
        assert_eq!(o, "fo");
        assert_eq!(i.get_offset(), 2);
    }
}

#[test]
fn test_must_turns_fail_into_abort_only() {
    let iter = SliceIter::new("foo".as_bytes());
    assert!(must(failing(iter)).is_abort());
    assert!(must(text_token(iter, "foo")).is_complete());
    assert!(!must(failing(iter)).is_fail());
}

#[test]
fn test_trap_undoes_escalation() {
    let iter = SliceIter::new("foo".as_bytes());
    let escalated = must(failing(iter));
    let back = trap(escalated);
    assert!(back.is_fail());
    if let Result::Fail(e) = back {
        assert_eq!(e.get_msg(), "nope");
    }
    let kept = trap(must(text_token(iter, "foo")));
    assert!(kept.is_complete());
}

#[test]
fn test_separated_single_letter_items() {
    let one = StrIter::new("a");
    let result = separated(one, |i: StrIter| text_token(i, ","), |i: StrIter| {
        text_token(i, "a")
    });
    assert!(result.is_complete());
    if let Result::Complete(_, list) = result {
        assert_eq!(list.len(), 1);
    }
    let three = StrIter::new("a,a,a");
    let result = separated(three, |i: StrIter| text_token(i, ","), |i: StrIter| {
        text_token(i, "a")
    });
    assert!(result.is_complete());
    if let Result::Complete(_, list) = result {
        assert_eq!(list.len(), 3);
    }
    let trailing = StrIter::new("a,a,a,");
    let result = separated(trailing, |i: StrIter| text_token(i, ","), |i: StrIter| {
        text_token(i, "a")
    });
    assert!(result.is_complete());
    if let Result::Complete(i, list) = result {
        assert_eq!(list.len(), 3);
        assert_eq!(i.get_offset(), 5);
    }
}

#[test]
fn test_until_stops_before_terminator() {
    let iter = StrIter::new("abc;");
    let result: Result<StrIter, &str> = until(iter, |i: StrIter| text_token(i, ";"));
    assert!(result.is_complete());
    if let Result::Complete(i, o) = result {
        assert_eq!(o, "abc");
        assert_eq!(i.get_offset(), 3);
        assert!(text_token(i, ";").is_complete());
    }
    let missing = StrIter::new("abc");
    let result: Result<StrIter, &str> = until(missing, |i: StrIter| text_token(i, ";"));
    assert!(result.is_incomplete());
}

#[test]
fn test_text_token_exact_consumption() {
    let iter = SliceIter::new("foobar".as_bytes());
    let result = text_token(iter, "foo");
    assert!(result.is_complete());
    if let Result::Complete(i, _) = result {
        assert_eq!(i.get_offset(), 3);
    }
    let result = text_token(iter, "qux");
    assert!(result.is_fail());
    if let Result::Fail(e) = result {
        assert_eq!(e.get_context().get_offset(), 0);
        assert_eq!(e.get_msg(), "Expected qux but didn't get it.");
    }
}

#[test]
fn test_text_token_empty_token() {
    let iter = SliceIter::new("foo".as_bytes());
    let result = text_token(iter, "");
    assert!(result.is_complete());
    if let Result::Complete(i, o) = result {
        assert_eq!(i.get_offset(), 0);
        assert_eq!(o, "");
    }
}

#[test]
fn test_complete_settles_incomplete() {
    let iter = SliceIter::new("fo".as_bytes());
    let attempt: Result<SliceIter<u8>, String> = Result::Incomplete(iter);
    let settled = complete(attempt, "ran out".to_string());
    assert!(settled.is_fail());
    if let Result::Fail(e) = settled {
        assert_eq!(e.get_msg(), "ran out");
    }
    let untouched = complete(text_token(iter, "fo"), "ran out".to_string());
    assert!(untouched.is_complete());
}

#[test]
fn test_must_string_decodes_bytes() {
    let iter = SliceIter::new("foo".as_bytes());
    let matched: Result<SliceIter<u8>, Vec<u8>> =
        Result::Complete(iter, vec![b'f', b'o', b'o']);
    let result = must_string(matched, "bad utf8".to_string());
    assert!(result.is_complete());
    if let Result::Complete(_, s) = result {
        assert_eq!(s, "foo");
    }
}

#[test]
fn test_must_string_aborts_on_invalid_utf8() {
    let iter = SliceIter::new("x".as_bytes());
    let matched: Result<SliceIter<u8>, Vec<u8>> = Result::Complete(iter, vec![0xff, 0xfe]);
    let result = must_string(matched, "bad utf8".to_string());
    assert!(result.is_abort());
    if let Result::Abort(e) = result {
        assert_eq!(e.get_msg(), "bad utf8");
    }
    let failed: Result<SliceIter<u8>, Vec<u8>> =
        Result::Fail(Error::new("upstream".to_string(), Box::new(iter)));
    let passed = must_string(failed, "bad utf8".to_string());
    assert!(passed.is_fail());
}

#[test]
fn test_error_render_chain() {
    let ctx: Box<usize> = Box::new(7);
    let inner = Error::new("inner problem".to_string(), ctx);
    assert_eq!(inner.get_offset(), 7);
    let outer = Error::caused_by("outer problem".to_string(), Box::new(inner), Box::new(3));
    assert_eq!(outer.get_msg(), "outer problem");
    assert_eq!(outer.get_context().get_offset(), 3);
    assert_eq!(
        outer.render(),
        "outer problem\n\tCaused By:inner problem"
    );
    assert_eq!(outer.get_cause().unwrap().render(), "inner problem");
}

#[test]
fn test_striter_seek_clamps() {
    let mut iter = StrIter::new("abcd");
    let landed = iter.seek(2);
    assert_eq!(landed, 2);
    assert_eq!(iter.get_offset(), 2);
    let landed = iter.seek(100);
    assert_eq!(landed, 4);
    assert_eq!(iter.get_offset(), 4);
}

#[test]
fn test_peek_next_does_not_consume() {
    let iter = SliceIter::new("foo".as_bytes());
    assert_eq!(iter.peek_next(), Some(b'f'));
    assert_eq!(iter.get_offset(), 0);
    let mut done = StrIter::new("a");
    done.next();
    assert_eq!(done.peek_next(), None);
}

#[test]
fn test_ascii_ws_fails_on_end_of_input() {
    let iter = StrIter::new("");
    let result = ascii_ws(iter);
    assert!(result.is_fail());
    if let Result::Fail(e) = result {
        assert_eq!(e.get_msg(), "Unexpected End Of Input.");
    }
}

#[test]
fn test_striter_counts_lines_and_columns() {
    let mut iter = StrIter::new("ab\ncd");
    iter.next();
    iter.next();
    assert_eq!(iter.line(), 1);
    assert_eq!(iter.column(), 3);
    iter.next();
    assert_eq!(iter.line(), 2);
    assert_eq!(iter.column(), 1);
    iter.next();
    assert_eq!(iter.line(), 2);
    assert_eq!(iter.column(), 2);
}

#[test]
fn test_url_grammar_extracts_all_parts() {
    let iter = StrIter::new("http://example.com/some/path ");
    let after_proto: Result<StrIter, &str> = until(iter, |i: StrIter| text_token(i, "://"));
    assert!(after_proto.is_complete());
    if let Result::Complete(i, protocol) = after_proto {
        assert_eq!(protocol, "http");
        let skipped = text_token(i, "://");
        assert!(skipped.is_complete());
        if let Result::Complete(i2, _) = skipped {
            let dom: Result<StrIter, &str> = until(i2, |c: StrIter| {
                either(c, |c2: StrIter| text_token(c2, "/"), |c2: StrIter| {
                    text_token(c2, " ")
                })
            });
            assert!(dom.is_complete());
            if let Result::Complete(i3, d) = dom {
                assert_eq!(d, "example.com");
                let p: Result<StrIter, &str> = until(i3, |c: StrIter| text_token(c, " "));
                assert!(p.is_complete());
                if let Result::Complete(i4, pp) = p {
                    assert_eq!(pp, "/some/path");
                    assert!(eoi(i4).is_fail());
                    assert!(ascii_ws(i4).is_complete());
                }
            }
        }
    }
}
