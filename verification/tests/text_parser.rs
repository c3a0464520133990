use wood_parse::{Peeker, PeekerTrait, TextParser, TextParserTrait};

#[test]
fn create_parser() {
    TextParser::new("Balls".as_bytes());
}

#[test]
fn get_from_parser() {
    let mut parser = TextParser::new("BallsðŸ˜ŠÃ¤Ã¼Ã€".as_bytes());
    let expected = vec!['B', 'a', 'l', 'l', 's', 'ð', 'Ÿ', '˜', 'Š'];
    for i in 0..=8 {
        assert_eq!(parser.get(i).unwrap().unwrap(), expected[i]);
    }
}

#[test]
fn read_parser() {
    let read_string = "BallsðŸ˜ŠÃ¤Ã¼Ã€";
    let mut parser = TextParser::new(read_string.as_bytes());
    let mut peeker: Peeker<_> = parser.peeker();

    let mut expected_chars = read_string.chars();
    loop {
        let result = peeker.next();

        match result {
            Some(Ok(ch)) => {
                let expected_char = expected_chars.next().expect("Expected fewer characters");

                assert_eq!(
                    ch,
                    expected_char,
                    "Expected char {ch}, got {expected_char} at {}",
                    peeker.position()
                );
            }
            Some(Err(err)) => {
                let err = err.message();
                panic!("Expected no error, got {err}");
            }
            None => break,
        }
    }

    assert!(expected_chars.next().is_none(), "Expected more chars");
}
