use wood_parse::{
    CharMatcher, Chunk, Malformation, ParseError, PeekerTrait, TextParser, TextParserTrait,
    TextParserUtils,
};

#[test]
fn char_matches_itself() {
    assert!('a'.match_char('a'));
    assert!(!'a'.match_char('b'));
    assert!('€'.match_char('€'));
}

#[test]
fn str_matches_its_characters() {
    assert!("abc".match_char('a'));
    assert!("abc".match_char('c'));
    assert!(!"abc".match_char('d'));
    assert!(!"".match_char('a'));
    assert!("x😊y".match_char('😊'));
}

#[test]
fn function_matches_where_it_returns_true() {
    let digit = |ch: char| ch.is_ascii_digit();
    assert!(digit.match_char('7'));
    assert!(!digit.match_char('x'));
}

#[test]
fn check_next_looks_and_leaves() {
    let mut parser = TextParser::new("ab".as_bytes());
    let mut peeker = parser.peeker();
    assert!(peeker.check_next('a'));
    assert!(!peeker.check_next('b'));
    assert!(peeker.check_next("xa"));
    assert!(peeker.check_next(|ch: char| ch.is_alphabetic()));
    assert_eq!(peeker.idx, 0);
    assert_eq!(peeker.next(), Some(Ok('a')));
    assert!(peeker.check_next('b'));
    assert_eq!(peeker.next(), Some(Ok('b')));
    assert!(!peeker.check_next('b'));
    assert_eq!(peeker.idx, 2);
}

#[test]
fn consume_if_takes_what_matches() {
    let mut parser = TextParser::new("ab".as_bytes());
    let mut peeker = parser.peeker();
    assert!(!peeker.consume_if('b'));
    assert_eq!(peeker.idx, 0);
    assert!(peeker.consume_if('a'));
    assert_eq!(peeker.idx, 1);
    assert!(peeker.consume_if("abc"));
    assert_eq!(peeker.idx, 2);
    assert!(!peeker.consume_if(|_: char| true));
    assert_eq!(peeker.idx, 2);
    peeker.apply();
    assert_eq!(parser.get(0), None);
}

#[test]
fn read_while_gives_the_run_and_leaves_the_rest() {
    let mut parser = TextParser::new("aaab".as_bytes());
    let mut peeker = parser.peeker();
    assert_eq!(peeker.read_while('a').unwrap(), "aaa");
    assert_eq!(peeker.idx, 3);
    assert_eq!(peeker.get(0), Some(Ok('b')));
    assert_eq!(peeker.read_while('a').unwrap(), "");
    assert_eq!(peeker.idx, 3);
    assert_eq!(peeker.read_while('b').unwrap(), "b");
    assert_eq!(peeker.idx, 4);
    assert_eq!(peeker.read_while('b').unwrap(), "");
    assert_eq!(peeker.idx, 4);
    assert_eq!(peeker.next(), None);
}

#[test]
fn read_while_with_a_function_and_wide_characters() {
    let mut parser = TextParser::new("äü😊 x".as_bytes());
    let mut peeker = parser.peeker();
    let word = peeker.read_while(|ch: char| !ch.is_whitespace()).unwrap();
    assert_eq!(word, "äü😊");
    assert_eq!(peeker.idx, 3);
    assert_eq!(peeker.next(), Some(Ok(' ')));
    peeker.apply();
    assert_eq!(parser.get(0), Some(Ok('x')));
}

#[test]
fn read_while_to_the_end_of_the_input() {
    let mut parser = TextParser::new("abc".as_bytes());
    let mut peeker = parser.peeker();
    assert_eq!(peeker.read_while("abc").unwrap(), "abc");
    assert_eq!(peeker.idx, 3);
    assert_eq!(peeker.next(), None);
}

#[test]
fn consume_while_counts_the_run() {
    let mut parser = TextParser::new("   x ".as_bytes());
    let mut peeker = parser.peeker();
    assert_eq!(peeker.consume_while(' ').unwrap(), 3);
    assert_eq!(peeker.idx, 3);
    assert_eq!(peeker.consume_while(' ').unwrap(), 0);
    assert_eq!(peeker.next(), Some(Ok('x')));
    assert_eq!(peeker.consume_while(|ch: char| ch.is_whitespace()).unwrap(), 1);
    assert_eq!(peeker.consume_while(' ').unwrap(), 0);
    assert_eq!(peeker.idx, 5);
}

#[test]
fn scan_that_meets_an_error_commits_nothing() {
    let bytes: &[u8] = &[0x61, 0x61, 0xC3, 0x28];
    let error = ParseError::Malformed(Malformation::InvalidContinuation);
    let mut parser = TextParser::new(bytes);
    let mut peeker = parser.peeker();
    assert_eq!(peeker.read_while('a'), Err(error));
    assert_eq!(peeker.idx, 0);
    assert_eq!(peeker.consume_while('a'), Err(error));
    assert_eq!(peeker.idx, 0);
    // the values before the error are still there, and so is the error
    assert_eq!(peeker.next(), Some(Ok('a')));
    assert_eq!(peeker.next(), Some(Ok('a')));
    assert_eq!(peeker.next(), Some(Err(error)));
}

#[test]
fn scan_that_stops_before_an_error_is_committed() {
    let bytes: &[u8] = &[0x61, 0x62, 0xFF];
    let mut parser = TextParser::new(bytes);
    let mut peeker = parser.peeker();
    assert_eq!(peeker.read_while('a').unwrap(), "a");
    assert_eq!(peeker.idx, 1);
    assert_eq!(peeker.next(), Some(Ok('b')));
    assert_eq!(
        peeker.read_while('a'),
        Err(ParseError::Malformed(Malformation::InvalidLead))
    );
}

#[test]
fn scan_that_runs_into_a_source_failure() {
    let mut parser = TextParser::new(Chunk { bytes: "aa".as_bytes(), complete: false });
    let mut peeker = parser.peeker();
    assert_eq!(peeker.consume_while('a'), Err(ParseError::Source));
    assert_eq!(peeker.idx, 0);
    assert!(!peeker.consume_if('b'));
    assert!(peeker.consume_if('a'));
    assert!(peeker.consume_if('a'));
    assert!(!peeker.check_next('a'));
    assert!(!peeker.consume_if('a'));
}

#[test]
fn skip_whitespace_between_letters() {
    let input = "a   b   c";
    let mut parser = TextParser::new(input.as_bytes());
    let mut peeker = parser.peeker();
    let mut parsed_string = String::new();
    let ended;
    loop {
        let _ = peeker.consume_while(|ch: char| ch.is_whitespace());
        match peeker.next() {
            Some(Ok(ch)) => parsed_string.push(ch),
            other => {
                ended = other;
                break;
            }
        }
    }
    assert_eq!(parsed_string, "abc");
    assert_eq!(ended, None);
}

#[test]
fn helpers_on_a_nested_view() {
    let mut parser = TextParser::new("ab  cd".as_bytes());
    let mut outer = parser.peeker();
    {
        let mut inner = outer.peeker();
        assert_eq!(inner.read_while("ab").unwrap(), "ab");
        assert_eq!(inner.consume_while(' ').unwrap(), 2);
        assert!(inner.check_next('c'));
        assert_eq!(inner.idx, 4);
        inner.apply();
    }
    assert_eq!(outer.idx, 4);
    assert!(outer.consume_if('c'));
    outer.apply();
    assert_eq!(parser.get(0), Some(Ok('d')));
    assert_eq!(parser.position(), 4);
}
