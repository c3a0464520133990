use wood_parse::{Chunk, Malformation, ParseError, TextParser, TextParserTrait};

#[test]
fn get_gives_the_same_answer_every_time() {
    let mut parser = TextParser::new("a€b".as_bytes());
    assert_eq!(parser.get(0), Some(Ok('a')));
    assert_eq!(parser.get(0), Some(Ok('a')));
    assert_eq!(parser.get(1), Some(Ok('€')));
    assert_eq!(parser.get(2), Some(Ok('b')));
    assert_eq!(parser.get(2), Some(Ok('b')));
    assert_eq!(parser.get(3), None);
    assert_eq!(parser.get(1), Some(Ok('€')));
    assert_eq!(parser.get(0), Some(Ok('a')));
}

#[test]
fn get_far_ahead_first() {
    let mut parser = TextParser::new("abc".as_bytes());
    assert_eq!(parser.get(2), Some(Ok('c')));
    assert_eq!(parser.get(0), Some(Ok('a')));
    assert_eq!(parser.get(1), Some(Ok('b')));
}

#[test]
fn empty_input_is_at_its_end() {
    let mut parser = TextParser::new("".as_bytes());
    assert_eq!(parser.get(0), None);
    assert_eq!(parser.get(7), None);
    assert_eq!(parser.get(0), None);
}

#[test]
fn consume_then_get() {
    let mut parser = TextParser::new("abcdef".as_bytes());
    assert_eq!(parser.get(3), Some(Ok('d')));
    parser.consume(3);
    assert_eq!(parser.get(0), Some(Ok('d')));
    assert_eq!(parser.get(1), Some(Ok('e')));
    parser.consume(2);
    assert_eq!(parser.get(0), Some(Ok('f')));
    assert_eq!(parser.get(1), None);
}

#[test]
fn consume_nothing() {
    let mut parser = TextParser::new("ab".as_bytes());
    parser.consume(0);
    assert_eq!(parser.get(0), Some(Ok('a')));
}

#[test]
fn position_is_the_index_of_the_last_consumed_value() {
    let mut parser = TextParser::new("abc".as_bytes());
    assert_eq!(parser.get(1), Some(Ok('b')));
    parser.consume(1);
    assert_eq!(parser.position(), 0);
    parser.consume(1);
    assert_eq!(parser.position(), 1);
}

#[test]
fn values_stay_readable_after_the_end_was_seen() {
    let mut parser = TextParser::new("ab".as_bytes());
    assert_eq!(parser.get(4), None);
    assert_eq!(parser.get(0), Some(Ok('a')));
    assert_eq!(parser.get(1), Some(Ok('b')));
    assert_eq!(parser.get(2), None);
    parser.consume(2);
    assert_eq!(parser.get(0), None);
}

#[test]
fn consume_past_the_buffer_after_the_end_was_seen() {
    let mut parser = TextParser::new("ab".as_bytes());
    assert_eq!(parser.get(2), None);
    parser.consume(10);
    assert_eq!(parser.get(0), None);
    assert_eq!(parser.get(3), None);
    assert_eq!(parser.position(), 9);
}

#[test]
fn malformed_input_is_sticky() {
    let bytes: &[u8] = &[0x61, 0xC3, 0x28, 0x62];
    let mut parser = TextParser::new(bytes);
    let error = Some(Err(ParseError::Malformed(Malformation::InvalidContinuation)));
    assert_eq!(parser.get(0), Some(Ok('a')));
    assert_eq!(parser.get(1), error);
    assert_eq!(parser.get(1), error);
    assert_eq!(parser.get(2), error);
    assert_eq!(parser.get(0), Some(Ok('a')));
    parser.consume(1);
    assert_eq!(parser.get(0), error);
    parser.consume(5);
    assert_eq!(parser.get(0), error);
}

#[test]
fn source_failure_is_sticky() {
    let mut parser = TextParser::new(Chunk { bytes: "ab".as_bytes(), complete: false });
    assert_eq!(parser.get(0), Some(Ok('a')));
    assert_eq!(parser.get(2), Some(Err(ParseError::Source)));
    assert_eq!(parser.get(1), Some(Ok('b')));
    assert_eq!(parser.get(2), Some(Err(ParseError::Source)));
    assert_eq!(parser.get(9), Some(Err(ParseError::Source)));
}

#[test]
fn complete_chunk_ends() {
    let mut parser = TextParser::new(Chunk { bytes: "ab".as_bytes(), complete: true });
    assert_eq!(parser.get(1), Some(Ok('b')));
    assert_eq!(parser.get(2), None);
}
