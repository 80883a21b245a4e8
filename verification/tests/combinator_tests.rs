use abortable_parser::iter::{SliceIter, StrIter};
use abortable_parser::{
    ascii_alpha, ascii_alphanumeric, ascii_digit, ascii_ws, consume_all, discard, either, eoi,
    input, must, must_complete, not, optional, pair, peek, repeat, separated, text_token, trap,
    triple, until, wrap_err, Error, InputIter, Offsetable, Positioned, Result,
};

fn will_fail<I: InputIter>(i: I) -> Result<I, String> {
    Result::Fail(Error::new("AAAAHHH!!!".to_string(), Box::new(i)))
}

fn parse_byte<I: InputIter<Elem = u8>>(mut i: I) -> Result<I, u8> {
    match i.next() {
        Some(b) => Result::Complete(i, b),
        None => Result::Incomplete(i),
    }
}

fn will_not_complete<I: InputIter<Elem = u8>>(i: I) -> Result<I, String> {
    Result::Incomplete(i)
}

fn parse_three<I: InputIter<Elem = u8>>(i: I) -> Result<I, String> {
    let mut cur = i.clone();
    let mut out = String::new();
    loop {
        let b = match cur.next() {
            None => break,
            Some(b) => b,
        };
        out.push(b as char);
        if out.len() == 3 {
            break;
        }
    }
    if out.len() != 3 {
        Result::Incomplete(cur)
    } else {
        Result::Complete(cur, out)
    }
}

#[test]
fn test_slice_iter() {
    let input_str = "foo";
    let mut iter = SliceIter::new(input_str.as_bytes());
    let cloned = iter.clone();
    assert_eq!(0, iter.get_offset());
    let mut out = Vec::new();
    loop {
        let b = match iter.next() {
            None => break,
            Some(b) => b,
        };
        out.push(b);
    }
    assert_eq!(3, out.len());
    assert_eq!('f' as u8, out[0]);
    assert_eq!('o' as u8, out[1]);
    assert_eq!('o' as u8, out[2]);
    assert_eq!(3, iter.get_offset());

    out = Vec::new();
    let mut again = cloned;
    loop {
        let b = match again.next() {
            None => break,
            Some(b) => b,
        };
        out.push(b);
    }
    assert_eq!(3, out.len());
    assert_eq!('f' as u8, out[0]);
    assert_eq!('o' as u8, out[1]);
    assert_eq!('o' as u8, out[2]);
}

#[test]
fn test_peek() {
    let input_str = "foo bar";
    let iter = SliceIter::new(input_str.as_bytes());
    let pristine = iter.clone();
    let result = peek(iter, text_token(iter, "foo"));
    assert!(result.is_complete());
    if let Result::Complete(i, o) = result {
        assert_eq!(pristine.get_offset(), i.get_offset());
        assert_eq!("foo", o);
    }
}

#[test]
fn test_not_success() {
    let input_str = "foo bar";
    let iter = SliceIter::new(input_str.as_bytes());
    let pristine = iter.clone();
    let result = not(iter, trap(will_fail(iter)));
    assert!(result.is_complete());
    if let Result::Complete(i, o) = result {
        assert_eq!(pristine.get_offset(), i.get_offset());
        assert_eq!((), o);
    }
}

#[test]
fn test_not_fail() {
    let input_str = "foo bar";
    let iter = SliceIter::new(input_str.as_bytes());
    let result = not(iter, trap(text_token(iter, "foo")));
    assert!(result.is_fail());
}

#[test]
fn test_text_token() {
    let input_str = "foo bar";
    let iter = SliceIter::new(input_str.as_bytes());
    let result = text_token(iter, "foo");
    assert!(result.is_complete());
    if let Result::Complete(i, o) = result {
        assert_eq!(i.get_offset(), 3);
        assert_eq!(o, "foo");
    }
}

#[test]
fn test_text_token_fails() {
    let input_str = "foo bar";
    let iter = SliceIter::new(input_str.as_bytes());
    let result = text_token(iter, "bar");
    assert!(result.is_fail());
}

#[test]
fn test_wrap_err_fail() {
    let input_str = "foo";
    let iter = SliceIter::new(input_str.as_bytes());
    let result = wrap_err(iter, will_fail(iter), "haha!".to_string());
    assert!(result.is_fail());
    if let Result::Fail(e) = result {
        assert!(e.get_cause().is_some());
        assert_eq!("AAAAHHH!!!", e.get_cause().unwrap().get_msg());
    }
}

#[test]
fn test_wrap_err_abort() {
    let input_str = "foo";
    let iter = SliceIter::new(input_str.as_bytes());
    let result = wrap_err(iter, must(will_fail(iter)), "haha!".to_string());
    assert!(result.is_abort());
    if let Result::Abort(e) = result {
        assert!(e.get_cause().is_some());
        assert_eq!("AAAAHHH!!!", e.get_cause().unwrap().get_msg());
    }
}

#[test]
fn test_must_fails() {
    let input_str = "foo";
    let iter = SliceIter::new(input_str.as_bytes());
    let result = must(will_fail(iter));
    assert!(result.is_abort());
}

#[test]
fn test_must_succeed() {
    let input_str = "foo";
    let iter = SliceIter::new(input_str.as_bytes());
    let result = must(parse_byte(iter));
    assert!(result.is_complete());
}

#[test]
fn test_trap_abort() {
    let input_str = "foo";
    let iter = SliceIter::new(input_str.as_bytes());
    let result = trap(must(will_fail(iter)));
    assert!(result.is_fail(), "{:?}", result);
}

#[test]
fn test_trap_incomplete() {
    let input_str = "foo";
    let iter = SliceIter::new(input_str.as_bytes());
    let result = trap(will_not_complete(iter));
    assert!(result.is_incomplete(), "{:?}", result);
}

#[test]
fn test_trap_fail() {
    let input_str = "foo";
    let iter = SliceIter::new(input_str.as_bytes());
    let result = trap(will_fail(iter));
    assert!(result.is_fail(), "{:?}", result);
}

#[test]
fn test_trap_complete() {
    let input_str = "foo";
    let iter = SliceIter::new(input_str.as_bytes());
    let result = trap(parse_byte(iter));
    assert!(result.is_complete(), "{:?}", result);
}

#[test]
fn test_must_complete() {
    let input_str = "foo";
    let iter = SliceIter::new(input_str.as_bytes());
    let iter_fail = iter.clone();
    let mut result = must_complete(will_not_complete(iter), "AHHH".to_string());
    assert!(result.is_abort());
    result = must_complete(will_fail(iter_fail), "AHHH".to_string());
    assert!(result.is_abort());
}

#[test]
fn test_do_each() {
    let input_str = "foo";
    let iter = SliceIter::new(input_str.as_bytes());
    let result = triple(iter, parse_byte, parse_byte, parse_byte);
    assert!(result.is_complete());
    if let Result::Complete(_, o) = result {
        assert_eq!('f' as u8, o.0);
        assert_eq!('o' as u8, o.2);
    } else {
        assert!(false, "did not get a tuple of 2 items");
    }
}

#[test]
fn test_do_each_input_and_token() {
    let input_str = "foo";
    let iter = SliceIter::new(input_str.as_bytes());
    let result = pair(iter, input, |i: SliceIter<u8>| text_token(i, "foo"));
    assert!(result.is_complete());
    if let Result::Complete(_, o) = result {
        assert_eq!("foo", o.1);
    } else {
        assert!(false, "did not get our token");
    }
}

#[test]
fn test_either_idents() {
    let input_str = "foo";
    let iter = SliceIter::new(input_str.as_bytes());
    let result = either(iter, will_fail, |i: SliceIter<u8>| {
        either(i, will_fail, parse_three)
    });
    assert!(result.is_complete());
    if let Result::Complete(_, o) = result {
        assert_eq!("foo".to_string(), o);
    } else {
        assert!(false, "Didn't not successfully match");
    }
}

#[test]
fn test_either_macros() {
    let input_str = "foo";
    let iter = SliceIter::new(input_str.as_bytes());
    let result = either(iter, will_fail, |i: SliceIter<u8>| {
        either(i, will_fail, parse_three)
    });
    assert!(result.is_complete());
    if let Result::Complete(_, o) = result {
        assert_eq!("foo".to_string(), o);
    } else {
        assert!(false, "Didn't successfully match");
    }
}

#[test]
fn test_either_fail() {
    let input_str = "foo";
    let iter = SliceIter::new(input_str.as_bytes());
    let result = either(iter, will_fail, will_fail);
    assert!(result.is_fail());
}

#[test]
fn test_either_abort() {
    let input_str = "foo";
    let iter = SliceIter::new(input_str.as_bytes());
    let result = either(
        iter,
        |i: SliceIter<u8>| must(will_fail(i)),
        |i: SliceIter<u8>| either(i, parse_three, will_fail),
    );
    assert!(result.is_abort());
}

#[test]
fn test_optional_some() {
    let input_str = "foo";
    let iter = SliceIter::new(input_str.as_bytes());
    let result = optional(iter, parse_byte(iter));
    assert!(result.is_complete());
    if let Result::Complete(_, o) = result {
        assert_eq!('f' as u8, o.unwrap());
    } else {
        assert!(false, "optional! did not complete");
    }
}

#[test]
fn test_optional_none() {
    let input_str = "foo";
    let iter = SliceIter::new(input_str.as_bytes());
    let result = optional(iter, will_fail(iter));
    assert!(result.is_complete());
    if let Result::Complete(_, o) = result {
        assert!(o.is_none(), "output was not none");
    } else {
        assert!(false, "optional! did not complete");
    }
}

#[test]
fn test_optional_abort() {
    let input_str = "foo";
    let iter = SliceIter::new(input_str.as_bytes());
    let result = optional(iter, must(will_fail(iter)));
    assert!(result.is_abort(), "optional did not abort");
}

#[test]
fn test_repeat() {
    let input_str = "foo";
    let iter = SliceIter::new(input_str.as_bytes());
    let result = repeat(iter, parse_byte);
    assert!(result.is_complete());
    if let Result::Complete(_, o) = result {
        assert_eq!(3, o.len());
        assert_eq!('f' as u8, o[0]);
        assert_eq!('o' as u8, o[1]);
        assert_eq!('o' as u8, o[2]);
    } else {
        assert!(false, "repeat did not parse succesfully");
    }
}

#[test]
fn test_repeat_fail() {
    let input_str = "foo";
    let iter = SliceIter::new(input_str.as_bytes());
    let result = repeat(iter, will_fail);
    assert!(result.is_complete());
    if let Result::Complete(_, o) = result {
        assert_eq!(0, o.len());
    } else {
        assert!(false, "repeat did not parse succesfully");
    }
}

#[test]
fn test_repeat_abort() {
    let input_str = "foo";
    let iter = SliceIter::new(input_str.as_bytes());
    let result = repeat(iter, |i: SliceIter<u8>| must(will_fail(i)));
    assert!(result.is_abort());
}

#[test]
fn test_until() {
    let input_str = "foo; ";
    let iter = StrIter::new(input_str);
    let result: Result<StrIter, &str> = until(iter, |i: StrIter| text_token(i, "; "));
    assert!(result.is_complete());
    if let Result::Complete(i, o) = result {
        assert_eq!(i.get_offset(), 3);
        assert_eq!(o.len(), 3);
        assert_eq!(o, "foo");
    }
}

#[test]
fn test_until_abort() {
    let input_str = "foo ";
    let iter = SliceIter::new(input_str.as_bytes());
    let result: Result<SliceIter<u8>, &[u8]> = until(iter, |i: SliceIter<u8>| {
        must(will_fail(i))
    });
    assert!(result.is_abort());
}

#[test]
fn test_until_incomplete() {
    let input_str = "foo;";
    let iter = SliceIter::new(input_str.as_bytes());
    let result: Result<SliceIter<u8>, &[u8]> = until(iter, |i: SliceIter<u8>| {
        text_token(i, "; ")
    });
    assert!(result.is_incomplete());
}

#[test]
fn test_discard_success() {
    let input_str = "foo";
    let iter = SliceIter::new(input_str.as_bytes());
    let result = discard(text_token(iter, "foo"));
    assert!(result.is_complete());
    if let Result::Complete(_, o) = result {
        assert_eq!(o, ());
    }
}

#[test]
fn test_discard_fail() {
    let input_str = "foo";
    let iter = SliceIter::new(input_str.as_bytes());
    let result = discard(will_fail(iter));
    assert!(result.is_fail());
}

#[test]
fn test_discard_abort() {
    let input_str = "foo";
    let iter = SliceIter::new(input_str.as_bytes());
    let result = discard(must(will_fail(iter)));
    assert!(result.is_abort());
}

#[test]
fn test_discard_incomplete() {
    let input_str = "foo";
    let iter = SliceIter::new(input_str.as_bytes());
    let result = discard(will_not_complete(iter));
    assert!(result.is_incomplete());
}

#[test]
fn test_eoi_success() {
    let input_str = "";
    let iter = StrIter::new(input_str);
    let result = eoi(iter);
    assert!(result.is_complete());
}

#[test]
fn test_eoi_fail() {
    let input_str = " ";
    let iter = StrIter::new(input_str);
    let result = eoi(iter);
    assert!(result.is_fail());
}

#[test]
fn test_ascii_ws_space() {
    let input_str = " ";
    let iter = StrIter::new(input_str);
    let result = ascii_ws(iter);
    assert!(result.is_complete());
}

#[test]
fn test_ascii_ws_tab() {
    let input_str = "\t";
    let iter = StrIter::new(input_str);
    let result = ascii_ws(iter);
    assert!(result.is_complete());
}

#[test]
fn test_ascii_ws_newline() {
    let input_str = "\n";
    let iter = StrIter::new(input_str);
    let result = ascii_ws(iter);
    assert!(result.is_complete());
}

#[test]
fn test_ascii_ws_carriage_return() {
    let input_str = "\r";
    let iter = StrIter::new(input_str);
    let result = ascii_ws(iter);
    assert!(result.is_complete());
}

#[test]
fn test_position_tracking_striter() {
    let input_str = "\n";
    let mut iter = StrIter::new(input_str);
    assert_eq!(iter.line(), 1);
    assert_eq!(iter.column(), 1);
    iter.next();
    assert_eq!(iter.line(), 2);
    assert_eq!(iter.column(), 1);
    let pos_result: Result<StrIter, StrIter> = input(iter);
    assert!(pos_result.is_complete());
    if let Result::Complete(_, i) = pos_result {
        assert_eq!(i.line(), 2);
        assert_eq!(i.column(), 1);
    }
}

#[test]
fn test_separated_good() {
    let input_str = "foo,foo,foo";
    let iter = StrIter::new(input_str);
    let result = separated(iter, |i: StrIter| text_token(i, ","), |i: StrIter| {
        text_token(i, "foo")
    });
    assert!(result.is_complete());
    if let Result::Complete(_, list) = result {
        assert_eq!(list.len(), 3);
        assert_eq!(list[0], "foo");
        assert_eq!(list[1], "foo");
        assert_eq!(list[2], "foo");
    }
}

#[test]
fn test_separated_single_item() {
    let input_str = "foo";
    let iter = StrIter::new(input_str);
    let result = separated(iter, |i: StrIter| text_token(i, ","), |i: StrIter| {
        text_token(i, "foo")
    });
    assert!(result.is_complete());
    if let Result::Complete(_, list) = result {
        assert_eq!(list.len(), 1);
        assert_eq!(list[0], "foo");
    }
}

#[test]
fn test_separated_empty_list() {
    let input_str = "";
    let iter = StrIter::new(input_str);
    let result = separated(iter, |i: StrIter| text_token(i, ","), |i: StrIter| {
        text_token(i, "foo")
    });
    assert!(result.is_fail());
}

#[test]
fn test_separated_bad() {
    let input_str = "bar foo,foo";
    let iter = StrIter::new(input_str);
    let result = separated(iter, |i: StrIter| text_token(i, ","), |i: StrIter| {
        text_token(i, "foo")
    });
    assert!(result.is_fail());
}

#[test]
fn test_separated_trailing_comma() {
    let input_str = "foo,foo,foo,";
    let iter = StrIter::new(input_str);
    let result = separated(iter, |i: StrIter| text_token(i, ","), |i: StrIter| {
        text_token(i, "foo")
    });
    assert!(result.is_complete());
    if let Result::Complete(i, list) = result {
        assert_eq!(list.len(), 3);
        assert_eq!(list[0], "foo");
        assert_eq!(list[1], "foo");
        assert_eq!(list[2], "foo");
        assert!(text_token(i, ",").is_complete());
    }
}

#[test]
fn test_ascii_alphanumeric() {
    let input_str = "a1";
    let iter = StrIter::new(input_str);
    let result = repeat(iter, ascii_alphanumeric);
    assert!(result.is_complete());
    if let Result::Complete(i, list) = result {
        assert_eq!(list.len(), 2);
        assert_eq!(list[0], b'a');
        assert_eq!(list[1], b'1');
        assert!(eoi(i).is_complete());
    }
}

#[test]
fn test_ascii_alphanumeric_fail() {
    let input_str = "-";
    let iter = StrIter::new(input_str);
    let result = ascii_alphanumeric(iter);
    assert!(result.is_fail());
}

#[test]
fn test_ascii_digit() {
    let input_str = "12";
    let iter = StrIter::new(input_str);
    let result = repeat(iter, ascii_digit);
    assert!(result.is_complete());
    if let Result::Complete(i, list) = result {
        assert_eq!(list.len(), 2);
        assert_eq!(list[0], b'1');
        assert_eq!(list[1], b'2');
        assert!(eoi(i).is_complete());
    }
}

#[test]
fn test_ascii_digit_fail() {
    let input_str = "-";
    let iter = StrIter::new(input_str);
    let result = ascii_digit(iter);
    assert!(result.is_fail());
}

#[test]
fn test_ascii_alpha() {
    let input_str = "ab";
    let iter = StrIter::new(input_str);
    let result = repeat(iter, ascii_alpha);
    assert!(result.is_complete());
    if let Result::Complete(i, list) = result {
        assert_eq!(list.len(), 2);
        assert_eq!(list[0], b'a');
        assert_eq!(list[1], b'b');
        assert!(eoi(i).is_complete());
    }
}

#[test]
fn test_ascii_alpha_fail() {
    let input_str = "1";
    let iter = StrIter::new(input_str);
    let result = ascii_alpha(iter);
    assert!(result.is_fail());
}

#[test]
fn test_consume_all() {
    let input_str = "foo;";
    let iter = StrIter::new(input_str);
    let result: Result<StrIter, &str> = consume_all(iter, ascii_alpha);
    assert!(result.is_complete());
    if let Result::Complete(i, o) = result {
        assert_eq!(i.get_offset(), 3);
        assert_eq!(o, "foo");
        assert!(text_token(i, ";").is_complete());
    }
}
