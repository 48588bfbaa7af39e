use synthlex::error::Error;
use synthlex::lexer::Lexer;
use synthlex::pos::{Pos, Range};
use synthlex::token::Token;

struct Source {
    log: Vec<String>,
    lex: Lexer,
    lines: Vec<String>,
    at: usize,
}

impl Source {
    fn new(s: &str) -> Source {
        Source {
            log: Vec::new(),
            lex: Lexer::new(false),
            lines: s.split_inclusive('\n').map(String::from).collect(),
            at: 0,
        }
    }

    fn pull(&mut self) -> Result<bool, Error> {
        let line = self.lines.get(self.at).cloned();
        self.at += 1;
        self.lex.feed(line, &mut self.log)
    }

    fn next(&mut self) -> Result<Option<(Range, Token)>, Error> {
        loop {
            if let Some(t) = self.lex.next() {
                return Ok(Some(t));
            }
            if !self.pull()? {
                return Ok(None);
            }
        }
    }

    fn ask(&mut self, f: impl Fn(&Token) -> bool) -> Result<bool, Error> {
        loop {
            if self.lex.has_token() {
                return Ok(self.lex.ask(&f).unwrap());
            }
            if !self.pull()? {
                return Ok(false);
            }
        }
    }

    fn all(&mut self) -> Result<Vec<Token>, Error> {
        let mut v = Vec::new();
        while let Some((_, t)) = self.next()? {
            v.push(t);
        }
        Ok(v)
    }
}

fn tokens(s: &str) -> Result<Vec<Token>, Error> {
    Source::new(s).all()
}

fn span(l0: usize, b0: usize, l1: usize, b1: usize) -> Range {
    Range::new(Pos::new(l0, b0), Pos::new(l1, b1))
}

fn string(s: &str) -> Token {
    Token::String(s.to_string())
}

#[test]
fn string_literal_plain() {
    assert_eq!(tokens("\"abc\"\n"), Ok(vec![string("abc")]));
}

#[test]
fn string_literal_escapes() {
    assert_eq!(tokens("\"a\\nb\"\n"), Ok(vec![string("a\nb")]));
    assert_eq!(tokens("\"a\\\"b\"\n"), Ok(vec![string("a\"b")]));
    assert_eq!(tokens("\"\\t\\r\\0\\\\\\q\"\n"), Ok(vec![string("\t\r\0\\q")]));
}

#[test]
fn string_literal_across_lines() {
    let mut s = Source::new("x \"ab\ncd\" y\n");
    assert_eq!(s.next(), Ok(Some((span(0, 0, 0, 1), Token::Identifier("x".to_string())))));
    assert_eq!(s.next(), Ok(Some((span(0, 2, 1, 3), string("ab\ncd")))));
    assert_eq!(s.next(), Ok(Some((span(1, 4, 1, 5), Token::Identifier("y".to_string())))));
    assert_eq!(s.next(), Ok(None));
}

#[test]
fn backslash_at_line_end() {
    assert_eq!(tokens("\"ab\\"), Err(Error::NoCharacterAfterBackSlash(Pos::new(0, 3))));
}

#[test]
fn unterminated_string_position() {
    assert_eq!(tokens("a \"bc\n"), Err(Error::UnterminatedStringLiteral(Pos::new(0, 2))));
}

#[test]
fn number_grammar() {
    let values = [("123\n", 123.0), ("123.4\n", 123.4), (".4\n", 0.4), ("123.4e3\n", 123400.0), ("2E-3\n", 0.002), ("5e+2\n", 500.0)];
    for (text, value) in values {
        match tokens(text) {
            Ok(v) => match &v[..] {
                [Token::Number(n)] => {
                    let x: f64 = n.parse().unwrap();
                    assert!((x - value).abs() < 0.05, "{} gave {}", text, x);
                }
                other => panic!("{} gave {:?}", text, other),
            },
            Err(e) => panic!("{} failed with {:?}", text, e),
        }
    }
    assert_eq!(tokens("123.4e3\n"), Ok(vec![Token::Number("123.4e3".to_string())]));
}

#[test]
fn incomplete_scientific_notation() {
    assert_eq!(tokens("1e\n"), Err(Error::IncompleteScientificNotation(span(0, 0, 0, 2))));
    assert_eq!(tokens("x 1e- \n"), Err(Error::IncompleteScientificNotation(span(0, 2, 0, 5))));
}

#[test]
fn single_and_double_ampersand() {
    assert_eq!(tokens("& "), Err(Error::SingleAmpersand(span(0, 0, 0, 1))));
    assert_eq!(tokens("&& "), Ok(vec![Token::DoubleAmpersand]));
}

#[test]
fn single_dot() {
    assert_eq!(tokens(". "), Err(Error::SingleDot(span(0, 0, 0, 1))));
}

#[test]
fn nested_block_comments() {
    assert_eq!(tokens("/* /* */ */ x\n"), Ok(vec![Token::Identifier("x".to_string())]));
    let mut s = Source::new("/* a /* b */ c */ y\n");
    assert_eq!(s.next(), Ok(Some((span(0, 18, 0, 19), Token::Identifier("y".to_string())))));
}

#[test]
fn unterminated_comment_is_outermost() {
    assert_eq!(tokens("a\n /* /*\n*/\n"), Err(Error::UnterminatedComment(Pos::new(1, 1))));
}

#[test]
fn line_comment_inside_block_comment() {
    assert_eq!(tokens("/* // */\nx */ y\n"), Ok(vec![Token::Identifier("y".to_string())]));
}

#[test]
fn line_comment() {
    let id = |s: &str| Token::Identifier(s.to_string());
    assert_eq!(tokens("a // b */\nc/ /d\n"), Ok(vec![id("a"), id("c"), Token::Slash, Token::Slash, id("d")]));
}

#[test]
fn ask_does_not_advance() {
    let mut s = Source::new("foo 1\n");
    assert_eq!(s.ask(|t| matches!(t, Token::Identifier(_))), Ok(true));
    assert_eq!(s.ask(|t| matches!(t, Token::Number(_))), Ok(false));
    assert_eq!(s.next(), Ok(Some((span(0, 0, 0, 3), Token::Identifier("foo".to_string())))));
    assert_eq!(s.ask(|t| matches!(t, Token::Number(_))), Ok(true));
}

#[test]
fn ask_at_end_of_input() {
    let mut s = Source::new("// nothing\n");
    assert_eq!(s.ask(|_| true), Ok(false));
    let lex = Lexer::new(true);
    assert!(lex.prompt());
    assert_eq!(lex.ask(|_| true), None);
}

#[test]
fn no_line_feed_at_eof() {
    assert_eq!(tokens("abc"), Err(Error::NoLineFeedAtEOF));
    assert_eq!(tokens("abc\n"), Ok(vec![Token::Identifier("abc".to_string())]));
    assert_eq!(tokens("x = 1"), Err(Error::NoLineFeedAtEOF));
    assert_eq!(tokens("x = 1\n"), Ok(vec![Token::Identifier("x".to_string()), Token::Equal, Token::Number("1".to_string())]));
}

#[test]
fn unexpected_character_keeps_earlier_tokens() {
    let mut s = Source::new("a # b\n");
    assert_eq!(s.next(), Err(Error::UnexpectedCharacter(Pos::new(0, 2))));
    assert_eq!(s.log, vec!["a # b\n".to_string()]);
    assert_eq!(s.lex.next(), Some((span(0, 0, 0, 1), Token::Identifier("a".to_string()))));
    assert_eq!(s.lex.next(), None);
}

#[test]
fn names_and_keywords() {
    let id = |s: &str| Token::Identifier(s.to_string());
    assert_eq!(
        tokens("while iffy a1$_b _x $p9 ()\n"),
        Ok(vec![Token::KeywordWhile, id("iffy"), id("a1$_b"), id("_x"), Token::Parameter("$p9".to_string()), Token::OpeningParenthesis, Token::ClosingParenthesis])
    );
    assert_eq!(tokens("if(\n"), Ok(vec![Token::KeywordIf, Token::OpeningParenthesis]));
}

#[test]
fn byte_offsets_follow_utf8() {
    let mut s = Source::new("\"é\" x\n");
    assert_eq!(s.next(), Ok(Some((span(0, 0, 0, 4), string("é")))));
    assert_eq!(s.next(), Ok(Some((span(0, 5, 0, 6), Token::Identifier("x".to_string())))));
}

#[test]
fn lines_are_logged_and_numbered() {
    let mut s = Source::new("a\n\nb\n");
    assert_eq!(s.next(), Ok(Some((span(0, 0, 0, 1), Token::Identifier("a".to_string())))));
    assert_eq!(s.next(), Ok(Some((span(2, 0, 2, 1), Token::Identifier("b".to_string())))));
    assert_eq!(s.next(), Ok(None));
    assert_eq!(s.log, vec!["a\n".to_string(), "\n".to_string(), "b\n".to_string()]);
}

#[test]
fn range_add_covers_both() {
    let a = span(0, 0, 0, 2);
    let b = span(0, 3, 1, 1);
    let c = a.add(b);
    assert_eq!(c, span(0, 0, 1, 1));
    assert_eq!(c.start, Pos::new(0, 0));
    assert_eq!(c.end.byte(), 1);
    assert_eq!(c.end.line(), 1);
}

#[test]
fn renderings() {
    assert_eq!(Pos::new(0, 4).display(), "1:5");
    assert_eq!(Pos::new(12, 0).debug(), "12:0");
    assert_eq!(span(0, 0, 1, 1).display(), "1:1-2:1");
    assert_eq!(span(0, 0, 1, 1).debug(), "[0:0, 1:1)");
    assert_eq!(span(9, 10, 99, 100).display(), "10:11-100:100");
}

#[test]
fn excerpts() {
    let log = vec!["let x = 1;\n".to_string(), "a é b\n".to_string(), "end\n".to_string()];
    assert_eq!(Pos::new(0, 4).print(&log), "let  !-> x = 1;\n");
    assert_eq!(span(0, 4, 0, 5).print(&log), "let  !-> x <-!  = 1;\n");
    assert_eq!(span(0, 8, 2, 1).print(&log), "let x =  !-> 1;\na é b\ne <-! nd\n");
    assert_eq!(span(1, 2, 1, 4).print(&log), "a  !-> é <-!  b\n");
    assert!(Pos::new(1, 4).is_within(&log));
    assert!(!Pos::new(1, 3).is_within(&log));
    assert!(Pos::new(2, 4).is_within(&log));
    assert!(!Pos::new(2, 5).is_within(&log));
    assert!(!Pos::new(3, 0).is_within(&log));
    assert!(!span(0, 5, 0, 4).is_within(&log));
}

#[test]
fn error_reports() {
    let log = vec!["a # b\n".to_string()];
    let e = Error::UnexpectedCharacter(Pos::new(0, 2));
    assert!(e.fits_log(&log));
    assert_eq!(e.message(), "unexpected character at 1:3");
    assert_eq!(e.report(&log), "error: unexpected character at 1:3\na  !-> # b\n");
    let d = Error::SingleDot(span(0, 2, 0, 3));
    assert_eq!(d.report(&log), "error: single dot at 1:3-1:3\na  !-> # <-!  b\n");
    assert_eq!(Error::NoLineFeedAtEOF.report(&log), "error: no line feed at end of file\n");
    assert_eq!(Error::UnterminatedComment(Pos::new(0, 0)).message(), "unterminated comment (started at 1:1)");
    assert_eq!(Error::ParseFloatFailure(span(0, 0, 0, 1)).message(), "failed to parse number at 1:1-1:1");
    assert!(!Error::UnterminatedStringLiteral(Pos::new(1, 0)).fits_log(&log));
}
