use less::ref_stream::RefStream;
use less::stream::{PeekAt, PeekTuple, Stream, CAPACITY};

fn stream(input: &str) -> Stream {
    Stream::new(input.chars().collect())
}

#[test]
fn consume_takes_the_input_in_order() {
    let mut s = stream("ab");
    assert_eq!(s.peek_at(-1), None);
    assert_eq!(s.consume(), Some('a'));
    assert_eq!(s.peek_at(-1), Some('a'));
    assert_eq!(s.consume(), Some('b'));
    assert_eq!(s.consume(), None);
    assert_eq!(s.consume(), None);
    assert_eq!(s.peek_at(-1), None);
}

#[test]
fn peeking_takes_nothing() {
    let mut s = stream("abcd");
    assert_eq!(s.peek_at(2), Some('c'));
    assert_eq!(s.peek_at(0), Some('a'));
    assert_eq!(s.peek_at(1), Some('b'));
    assert_eq!(s.consume(), Some('a'));
    assert_eq!(s.peek_at(0), Some('b'));
    assert_eq!(s.peek_at(3), None);
    assert_eq!(s.consume(), Some('b'));
    assert_eq!(s.consume(), Some('c'));
    assert_eq!(s.consume(), Some('d'));
    // Behind the end of the input, the look-ahead holds `None`.
    assert_eq!(s.consume(), None);
    assert_eq!(s.consume(), None);
}

#[test]
fn reconsume_puts_the_current_code_point_back() {
    let mut s = stream("abc");
    assert_eq!(s.consume(), Some('a'));
    s.reconsume_current();
    assert_eq!(s.peek_at(0), Some('a'));
    assert_eq!(s.peek_at(1), Some('b'));
    assert_eq!(s.consume(), Some('a'));
    assert_eq!(s.consume(), Some('b'));
    s.reconsume_current();
    s.reconsume_current();
    assert_eq!(s.consume(), Some('b'));
    assert_eq!(s.consume(), Some('b'));
    assert_eq!(s.consume(), Some('c'));
    assert_eq!(s.consume(), None);
}

#[test]
fn the_look_ahead_holds_eight() {
    assert_eq!(CAPACITY, 8);
    let mut s = stream("0123456789");
    assert_eq!(s.peek_at(7), Some('7'));
    for expected in "0123456789".chars() {
        assert_eq!(s.consume(), Some(expected));
    }
    assert_eq!(s.consume(), None);
}

#[test]
fn peeking_at_two_and_three() {
    let mut s = stream("abc");
    let pair: (Option<char>, Option<char>) = s.peek_tuple(0);
    assert_eq!(pair, (Some('a'), Some('b')));
    let triple: (Option<char>, Option<char>, Option<char>) = s.peek_tuple(-1);
    assert_eq!(triple, (None, Some('a'), Some('b')));
    assert_eq!(s.consume(), Some('a'));
    let triple: (Option<char>, Option<char>, Option<char>) = s.peek_tuple(0);
    assert_eq!(triple, (Some('b'), Some('c'), None));
    let pair: (Option<char>, Option<char>) = s.peek_tuple(-1);
    assert_eq!(pair, (Some('a'), Some('b')));
}

#[test]
fn a_cursor_over_tokens() {
    let tokens = [10, 20, 30, 40];
    let mut cursor = RefStream::new(&tokens);
    let start = cursor.checkpoint();
    assert_eq!(cursor.eof_offset(), 4);
    assert_eq!(cursor.next_token(), Some(&10));
    assert_eq!(cursor.offset_from(&start), 1);
    assert_eq!(cursor.offset_for(|t| *t == 30), Some(1));
    assert_eq!(cursor.offset_for(|t| *t == 10), None);
    assert_eq!(cursor.offset_at(3), Ok(3));
    assert_eq!(cursor.offset_at(5), Err(2));
    assert_eq!(cursor.next_slice(2), &[20, 30]);
    assert_eq!(cursor.clone().into_inner(), &[40]);
    assert_eq!(cursor.next_token(), Some(&40));
    assert_eq!(cursor.next_token(), None);
    assert_eq!(cursor.offset_at(0), Ok(0));
    assert_eq!(cursor.eof_offset(), 0);
    assert_eq!(cursor.offset_from(&start), 4);
    cursor.reset(&start);
    assert_eq!(cursor.into_inner(), &tokens);
    assert!(!RefStream::<u8>::is_partial_supported());
}
