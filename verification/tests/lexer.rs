use wood_parse::{DefaultLexer, Lexer, LexerConsumer, LexerResult};

#[test]
fn create_lexer() {
    DefaultLexer::new("Balls".as_bytes());
}

#[test]
fn get_from_lexer() {
    let mut lexer = DefaultLexer::new("BallsðŸ˜ŠÃ¤Ã¼Ã€".as_bytes());

    assert_eq!(lexer.get(0).0.unwrap(), 'B');
    assert_eq!(lexer.get(1).0.unwrap(), 'a');
    assert_eq!(lexer.get(2).0.unwrap(), 'l');
    assert_eq!(lexer.get(3).0.unwrap(), 'l');
    assert_eq!(lexer.get(4).0.unwrap(), 's');
    assert_eq!(lexer.get(5).0.unwrap(), 'ð');
    assert_eq!(lexer.get(6).0.unwrap(), 'Ÿ');
    assert_eq!(lexer.get(7).0.unwrap(), '˜');
    assert_eq!(lexer.get(8).0.unwrap(), 'Š');
}

#[test]
fn read_lexer() {
    let read_string = "BallsðŸ˜ŠÃ¤Ã¼Ã€";
    let mut lexer = DefaultLexer::new(read_string.as_bytes());
    let mut consumer = lexer.consumer();

    let mut expected_chars = read_string.chars();

    let mut expected_pos = 0;
    loop {
        let (result, pos) = consumer.next();

        assert_eq!(pos, expected_pos, "Expected pos {expected_pos}, got {pos}");

        match result {
            LexerResult::Value(ch) => {
                let expected_char = expected_chars.next().expect("Expected fewer characters");

                assert_eq!(
                    ch, expected_char,
                    "Expected char {ch}, got {expected_char} at {pos}"
                );
            }
            LexerResult::Failed(err) => {
                let err = err.message();
                panic!("Expected no error, got {err}");
            }
            LexerResult::End => break,
        }

        expected_pos += 1;
    }

    assert!(expected_chars.next().is_none(), "Expected more chars");
}
