use wood_parse::char_parsing::read_char;
use wood_parse::{Chunk, Malformation, ParseError, TextParser, TextParserTrait};

fn malformed(reason: Malformation) -> Option<Result<char, ParseError>> {
    Some(Err(ParseError::Malformed(reason)))
}

#[test]
fn decode_one_byte() {
    let mut bytes: &[u8] = &[0x41, 0x42];
    assert_eq!(read_char(&mut bytes), Some(Ok('A')));
    assert_eq!(bytes, &[0x42]);
    assert_eq!(read_char(&mut bytes), Some(Ok('B')));
    assert_eq!(read_char(&mut bytes), None);
    assert_eq!(read_char(&mut bytes), None);
}

#[test]
fn decode_highest_one_byte_value() {
    let mut bytes: &[u8] = &[0x7F];
    assert_eq!(read_char(&mut bytes), Some(Ok('\u{7F}')));
    assert!(bytes.is_empty());
}

#[test]
fn decode_two_bytes() {
    let mut bytes: &[u8] = &[0xC3, 0xA9, 0x21];
    assert_eq!(read_char(&mut bytes), Some(Ok('é')));
    assert_eq!(bytes, &[0x21]);
}

#[test]
fn decode_lowest_and_highest_two_byte_value() {
    let mut low: &[u8] = &[0xC2, 0x80];
    assert_eq!(read_char(&mut low), Some(Ok('\u{80}')));
    let mut high: &[u8] = &[0xDF, 0xBF];
    assert_eq!(read_char(&mut high), Some(Ok('\u{7FF}')));
}

#[test]
fn decode_euro_sign() {
    let mut bytes: &[u8] = &[0xE2, 0x82, 0xAC];
    assert_eq!(read_char(&mut bytes), Some(Ok('\u{20AC}')));
    assert!(bytes.is_empty());
    assert_eq!(read_char(&mut bytes), None);
}

#[test]
fn decode_lowest_and_highest_three_byte_value() {
    let mut low: &[u8] = &[0xE0, 0xA0, 0x80];
    assert_eq!(read_char(&mut low), Some(Ok('\u{800}')));
    let mut high: &[u8] = &[0xEF, 0xBF, 0xBF];
    assert_eq!(read_char(&mut high), Some(Ok('\u{FFFF}')));
}

#[test]
fn decode_around_the_surrogates() {
    let mut below: &[u8] = &[0xED, 0x9F, 0xBF];
    assert_eq!(read_char(&mut below), Some(Ok('\u{D7FF}')));
    let mut above: &[u8] = &[0xEE, 0x80, 0x80];
    assert_eq!(read_char(&mut above), Some(Ok('\u{E000}')));
}

#[test]
fn decode_four_bytes() {
    let mut bytes: &[u8] = &[0xF0, 0x9F, 0x98, 0x8A, 0x2E];
    assert_eq!(read_char(&mut bytes), Some(Ok('😊')));
    assert_eq!(bytes, &[0x2E]);
}

#[test]
fn decode_lowest_and_highest_four_byte_value() {
    let mut low: &[u8] = &[0xF0, 0x90, 0x80, 0x80];
    assert_eq!(read_char(&mut low), Some(Ok('\u{10000}')));
    let mut high: &[u8] = &[0xF4, 0x8F, 0xBF, 0xBF];
    assert_eq!(read_char(&mut high), Some(Ok('\u{10FFFF}')));
}

#[test]
fn invalid_continuation_takes_the_two_bytes_read() {
    let mut bytes: &[u8] = &[0xC3, 0x28, 0x41];
    assert_eq!(read_char(&mut bytes), malformed(Malformation::InvalidContinuation));
    assert_eq!(bytes, &[0x41]);
    assert_eq!(read_char(&mut bytes), Some(Ok('A')));
}

#[test]
fn invalid_continuation_in_the_third_and_fourth_byte() {
    let mut third: &[u8] = &[0xE2, 0x82, 0x41, 0x42];
    assert_eq!(read_char(&mut third), malformed(Malformation::InvalidContinuation));
    assert_eq!(third, &[0x42]);
    let mut fourth: &[u8] = &[0xF0, 0x9F, 0x98, 0xC0, 0x42];
    assert_eq!(read_char(&mut fourth), malformed(Malformation::InvalidContinuation));
    assert_eq!(fourth, &[0x42]);
}

#[test]
fn invalid_lead_takes_one_byte() {
    let mut continuation: &[u8] = &[0x80, 0x41];
    assert_eq!(read_char(&mut continuation), malformed(Malformation::InvalidLead));
    assert_eq!(continuation, &[0x41]);
    let mut last_continuation: &[u8] = &[0xBF, 0x41];
    assert_eq!(read_char(&mut last_continuation), malformed(Malformation::InvalidLead));
    assert_eq!(last_continuation, &[0x41]);
    let mut five_bytes: &[u8] = &[0xF8, 0x80, 0x80, 0x80, 0x80];
    assert_eq!(read_char(&mut five_bytes), malformed(Malformation::InvalidLead));
    assert_eq!(five_bytes.len(), 4);
    let mut all_ones: &[u8] = &[0xFF];
    assert_eq!(read_char(&mut all_ones), malformed(Malformation::InvalidLead));
}

#[test]
fn truncated_sequence() {
    let mut two: &[u8] = &[0xC3];
    assert_eq!(read_char(&mut two), malformed(Malformation::Truncated));
    assert!(two.is_empty());
    let mut three: &[u8] = &[0xE2, 0x82];
    assert_eq!(read_char(&mut three), malformed(Malformation::Truncated));
    assert!(three.is_empty());
    let mut four: &[u8] = &[0xF0, 0x9F, 0x98];
    assert_eq!(read_char(&mut four), malformed(Malformation::Truncated));
    assert!(four.is_empty());
}

#[test]
fn overlong_sequence() {
    let mut two: &[u8] = &[0xC0, 0x80, 0x41];
    assert_eq!(read_char(&mut two), malformed(Malformation::Overlong));
    assert_eq!(two, &[0x41]);
    let mut slash: &[u8] = &[0xC1, 0xBF];
    assert_eq!(read_char(&mut slash), malformed(Malformation::Overlong));
    let mut three: &[u8] = &[0xE0, 0x9F, 0xBF, 0x41];
    assert_eq!(read_char(&mut three), malformed(Malformation::Overlong));
    assert_eq!(three, &[0x41]);
    let mut four: &[u8] = &[0xF0, 0x8F, 0xBF, 0xBF, 0x41];
    assert_eq!(read_char(&mut four), malformed(Malformation::Overlong));
    assert_eq!(four, &[0x41]);
}

#[test]
fn surrogate_is_refused() {
    let mut first: &[u8] = &[0xED, 0xA0, 0x80, 0x41];
    assert_eq!(read_char(&mut first), malformed(Malformation::Surrogate));
    assert_eq!(first, &[0x41]);
    let mut last: &[u8] = &[0xED, 0xBF, 0xBF];
    assert_eq!(read_char(&mut last), malformed(Malformation::Surrogate));
}

#[test]
fn value_out_of_range_is_refused() {
    let mut first: &[u8] = &[0xF4, 0x90, 0x80, 0x80, 0x41];
    assert_eq!(read_char(&mut first), malformed(Malformation::OutOfRange));
    assert_eq!(first, &[0x41]);
    let mut last: &[u8] = &[0xF7, 0xBF, 0xBF, 0xBF];
    assert_eq!(read_char(&mut last), malformed(Malformation::OutOfRange));
}

#[test]
fn source_failure_is_told_from_the_end() {
    let mut whole = Chunk { bytes: &[0x41], complete: true };
    assert_eq!(read_char(&mut whole), Some(Ok('A')));
    assert_eq!(read_char(&mut whole), None);
    let mut part = Chunk { bytes: &[0x41], complete: false };
    assert_eq!(read_char(&mut part), Some(Ok('A')));
    assert_eq!(read_char(&mut part), Some(Err(ParseError::Source)));
    assert_eq!(read_char(&mut part), Some(Err(ParseError::Source)));
}

#[test]
fn source_failure_inside_a_sequence() {
    let mut part = Chunk { bytes: &[0xE2, 0x82], complete: false };
    assert_eq!(read_char(&mut part), Some(Err(ParseError::Source)));
    assert!(part.bytes.is_empty());
    let mut whole = Chunk { bytes: &[0xE2, 0x82], complete: true };
    assert_eq!(read_char(&mut whole), malformed(Malformation::Truncated));
}

#[test]
fn round_trip_of_every_kind_of_scalar_value() {
    // every 61st scalar value, and so values of each width
    let mut text = String::new();
    let mut code = 0u32;
    while code <= 0x10FFFF {
        if let Some(ch) = char::from_u32(code) {
            text.push(ch);
        }
        code += 61;
    }
    text.push('\u{10FFFF}');
    let mut parser = TextParser::new(text.as_bytes());
    let mut decoded = String::new();
    loop {
        match parser.get(0) {
            Some(Ok(ch)) => {
                decoded.push(ch);
                parser.consume(1);
            }
            Some(Err(err)) => panic!("{}", err.message()),
            None => break,
        }
    }
    assert_eq!(decoded, text);
}

#[test]
fn round_trip_of_mixed_text() {
    let text = "Balls😊äüÀ€\u{0}\u{7FF}\u{800}\u{FFFF}\u{10000}";
    let mut parser = TextParser::new(text.as_bytes());
    let expected: Vec<char> = text.chars().collect();
    for (i, ch) in expected.iter().enumerate() {
        assert_eq!(parser.get(i), Some(Ok(*ch)));
    }
    assert_eq!(parser.get(expected.len()), None);
}
