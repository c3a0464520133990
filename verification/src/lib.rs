pub mod char_parsing;
pub mod cursor;
pub mod laws;
pub mod lexer;
pub mod lexer_utils;
pub mod matcher;
pub mod source;
pub mod stream;
pub mod text_parser;
pub mod text_parser_utils;
pub mod util;

pub use lexer::{DefaultLexer, DefaultLexerConsumer, Lexer, LexerConsumer};
pub use lexer_utils::LexerUtils;
pub use matcher::CharMatcher;
pub use source::{ByteRead, ByteSource, Chunk};
pub use text_parser::{Peeker, PeekerTrait, TextParser, TextParserTrait};
pub use text_parser_utils::TextParserUtils;
pub use util::{LexerResult, Malformation, ParseError, TextParserResult};
