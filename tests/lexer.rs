use synthlex::error::Error;
use synthlex::lexer::Lexer;
use synthlex::pos::Range;
use synthlex::token::Token;

/// Feeds a lexer from a text, line by line, the way a driver does.
struct TestHelper {
    log: Vec<String>,
    lex: Lexer,
    lines: Vec<String>,
    at: usize,
}

impl TestHelper {
    fn new(s: &str) -> TestHelper {
        TestHelper {
            log: Vec::new(),
            lex: Lexer::new(false),
            lines: s.split_inclusive('\n').map(String::from).collect(),
            at: 0,
        }
    }

    fn read(&mut self) -> Option<String> {
        let line = self.lines.get(self.at).cloned();
        self.at += 1;
        line
    }

    fn next(&mut self) -> Result<Option<(Range, Token)>, Error> {
        loop {
            if let Some(t) = self.lex.next() {
                return Ok(Some(t));
            }
            let line = self.read();
            if !self.lex.feed(line, &mut self.log)? {
                return Ok(None);
            }
        }
    }
}

fn helper(s: &str) -> TestHelper {
    TestHelper::new(s)
}

fn nearly(actual: f64, expected: f64, err: f64) -> bool {
    (expected - err < actual) && (actual < expected + err)
}

fn number(t: &Token) -> f64 {
    match t {
        Token::Number(v) => v.parse::<f64>().unwrap(),
        _ => panic!("not a number: {:?}", t),
    }
}

#[test]
fn unterminated_comment() {
    let mut h = helper("/*");
    assert!(matches!(h.next(), Err(_)));
}

#[test]
fn unterminated_string_literal() {
    let mut h = helper("\"");
    assert!(matches!(h.next(), Err(_)));
}

#[test]
fn identifier() {
    let mut h = helper(r#"ident "#);
    assert!(matches!(h.next(), Ok(Some((_, Token::Identifier(v)))) if v == "ident"));
}

#[test]
fn parameter() {
    let mut h = helper(r#"$param "#);
    assert!(matches!(h.next(), Ok(Some((_, Token::Parameter(v)))) if v == "$param"));
}

#[test]
fn number_integer() {
    let mut h = helper(r#"123 "#);
    assert!(matches!(h.next(), Ok(Some((_, t))) if nearly(number(&t), 123.0, 0.05)));
}

#[test]
fn number_decimal() {
    let mut h = helper(r#"123.4 "#);
    assert!(matches!(h.next(), Ok(Some((_, t))) if nearly(number(&t), 123.4, 0.05)));
}

#[test]
fn number_decimal_from_dot() {
    let mut h = helper(r#".4 "#);
    assert!(matches!(h.next(), Ok(Some((_, t))) if nearly(number(&t), 0.4, 0.05)));
}

#[test]
fn number_scientific() {
    let mut h = helper(r#"123.4e3 "#);
    assert!(matches!(h.next(), Ok(Some((_, t))) if nearly(number(&t), 123.4e3, 0.05)));
}

#[test]
fn string() {
    let mut h = helper(r#""str" "#);
    assert!(matches!(h.next(), Ok(Some((_, Token::String(v)))) if v == "str"));
}

#[test]
fn keywords() {
    let keywords = [
        ("let ", Token::KeywordLet),
        ("break ", Token::KeywordBreak),
        ("continue ", Token::KeywordContinue),
        ("if ", Token::KeywordIf),
        ("else ", Token::KeywordElse),
        ("for ", Token::KeywordFor),
        ("return ", Token::KeywordReturn),
        ("def ", Token::KeywordDef),
    ];

    keywords.iter().for_each(|(op, tk)| {
        let mut h = helper(op);
        assert!(matches!(h.next(), Ok(Some((_, t))) if &t == tk));
    })
}

#[test]
fn operators() {
    let ops = [
        ("+ ", Token::Plus),
        ("- ", Token::Hyphen),
        ("-> ", Token::HyphenGreater),
        ("* ", Token::Asterisk),
        ("/ ", Token::Slash),
        ("% ", Token::Percent),
        ("^ ", Token::Circumflex),
        ("= ", Token::Equal),
        ("=> ", Token::EqualGreater),
        ("== ", Token::DoubleEqual),
        ("! ", Token::Exclamation),
        ("!= ", Token::ExclamationEqual),
        ("< ", Token::Less),
        ("<< ", Token::DoubleLess),
        ("> ", Token::Greater),
        (">> ", Token::DoubleGreater),
        ("&& ", Token::DoubleAmpersand),
        ("| ", Token::Bar),
        ("|| ", Token::DoubleBar),
        (": ", Token::Colon),
        ("; ", Token::Semicolon),
        (", ", Token::Comma),
        ("? ", Token::Question),
        ("( ", Token::OpeningParenthesis),
        (") ", Token::ClosingParenthesis),
        ("[ ", Token::OpeningBracket),
        ("] ", Token::ClosingBracket),
        ("{ ", Token::OpeningBrace),
        ("} ", Token::ClosingBrace),
    ];

    ops.iter().for_each(|(op, tk)| {
        let mut h = helper(op);
        assert!(matches!(h.next(), Ok(Some((_, t))) if &t == tk));
    })
}
