use wood_parse::{Malformation, ParseError, TextParserResult};

#[test]
fn result_of_a_value() {
    let result: TextParserResult = TextParserResult::Value('a');
    assert!(result.is_ok());
    assert!(!result.is_err());
    assert!(!result.is_end());
    assert_eq!(result.unwrap(), 'a');
}

#[test]
fn result_of_an_error() {
    let result: TextParserResult = TextParserResult::Failed(ParseError::Source);
    assert!(!result.is_ok());
    assert!(result.is_err());
    assert!(!result.is_end());
    assert_eq!(result.unwrap_err(), ParseError::Source);
}

#[test]
fn result_of_the_end() {
    let result: TextParserResult<u8> = TextParserResult::End;
    assert!(!result.is_ok());
    assert!(!result.is_err());
    assert!(result.is_end());
}

#[test]
fn result_from_a_plain_result() {
    let value: TextParserResult<u8> = TextParserResult::from(Ok(7));
    assert_eq!(value.unwrap(), 7);
    let error = ParseError::Malformed(Malformation::Truncated);
    let failed: TextParserResult<u8> = TextParserResult::from(Err(error));
    assert_eq!(failed.unwrap_err(), error);
}

#[test]
fn result_from_an_optional_result() {
    let value: TextParserResult<u8> = TextParserResult::from(Some(Ok(7)));
    assert_eq!(value.unwrap(), 7);
    let failed: TextParserResult<u8> = TextParserResult::from(Some(Err(ParseError::Source)));
    assert_eq!(failed.unwrap_err(), ParseError::Source);
    let end: TextParserResult<u8> = TextParserResult::from(None);
    assert!(end.is_end());
}

#[test]
fn error_messages() {
    assert_eq!(ParseError::Source.message(), "byte source failed");
    assert_eq!(
        ParseError::Malformed(Malformation::Overlong).message(),
        "invalid utf-8"
    );
    assert_eq!(
        ParseError::Malformed(Malformation::InvalidLead).message(),
        "invalid utf-8"
    );
}
