//! The line-at-a-time automaton: characters in, tokens out.
//!
//! The behaviour is stated by the spec function `scan`, which walks a line one
//! character at a time; `Scanner::run` computes exactly what it describes.
use vstd::prelude::*;
use crate::error::Error;
use crate::pos::{Pos, Range};
use crate::text::{byte_len, chars_of, char_indices, lemma_offset_increasing, lemma_offset_step, offset, push_char, text_between};
use crate::token::{Lexeme, Token};
use vstd::string::*;
use std::collections::VecDeque;

verus! {

/// What the token being read has been so far.
#[derive(Clone, Copy, PartialEq, Eq, Structural, Debug)]
pub enum State {
    /// A name; `if`, `let` and the other keywords are told apart when it ends.
    Identifier,
    Parameter,
    /// Digits.
    Integer,
    /// Digits with one decimal point, or a point then digits.
    Decimal,
    /// A number up to its `e` or `E`.
    ScientificIncomplete,
    /// A number up to the sign of its exponent.
    ScientificSign,
    /// A number with exponent digits.
    Scientific,
    /// A string literal whose closing quote was just read.
    Quoted,
    /// A lone `&`: only `&&` is a token.
    Ampersand,
    /// A lone `.`: only a decimal point is valid.
    Dot,
    Plus,
    Hyphen,
    HyphenGreater,
    Asterisk,
    Slash,
    Percent,
    Circumflex,
    Equal,
    EqualGreater,
    DoubleEqual,
    Exclamation,
    ExclamationEqual,
    Less,
    DoubleLess,
    Greater,
    DoubleGreater,
    DoubleAmpersand,
    Bar,
    DoubleBar,
    Colon,
    Semicolon,
    Comma,
    Question,
    OpeningParenthesis,
    ClosingParenthesis,
    OpeningBracket,
    ClosingBracket,
    OpeningBrace,
    ClosingBrace,
}

/// A token that has begun and not yet ended: where it starts, the index of
/// its first character in the line (for a string literal, which may have
/// begun on an earlier line, that of its closing quote), and what it is so far.
#[derive(Clone, Copy, PartialEq, Eq, Structural, Debug)]
pub struct Open {
    pub start: Pos,
    pub from: usize,
    pub state: State,
}

/// What survives from one line to the next: the opening places of the block
/// comments still open (innermost last), and the string literal still open,
/// with its place and its decoded text so far.
pub struct Carry {
    pub comment: Seq<Pos>,
    pub string: Option<(Pos, Seq<char>)>,
}

/// The automaton in the middle of a line: what is carried across lines, the
/// token being read, the text of the string literal just closed, and the
/// tokens produced so far.
pub struct Scan {
    pub carry: Carry,
    pub open: Option<Open>,
    pub lit: Seq<char>,
    pub out: Seq<(Range, Lexeme<Seq<char>>)>,
}

/// The automaton at the end of a line, or where it stopped on an error.
pub struct Scanned {
    pub carry: Carry,
    pub open: Option<Open>,
    pub lit: Seq<char>,
    pub out: Seq<(Range, Lexeme<Seq<char>>)>,
    pub result: Result<(), Error>,
}

pub open spec fn is_digit(c: char) -> bool {
    '0' <= c <= '9'
}

pub open spec fn is_ident_start(c: char) -> bool {
    ('a' <= c <= 'z') || ('A' <= c <= 'Z') || c == '_'
}

pub open spec fn is_ident_continue(c: char) -> bool {
    is_ident_start(c) || is_digit(c) || c == '$'
}

/// ASCII whitespace, as `char::is_ascii_whitespace` has it.
pub open spec fn is_space(c: char) -> bool {
    c == ' ' || c == '\t' || c == '\n' || c == '\x0C' || c == '\r'
}

/// The state a token starting with `c` begins in, for any `c` but `"` and
/// whitespace; `None` where no token starts with `c`.
pub open spec fn begin_state(c: char) -> Option<State> {
    if is_ident_start(c) {
        Some(State::Identifier)
    } else if c == '$' {
        Some(State::Parameter)
    } else if is_digit(c) {
        Some(State::Integer)
    } else {
        match c {
            '+' => Some(State::Plus),
            '-' => Some(State::Hyphen),
            '*' => Some(State::Asterisk),
            '/' => Some(State::Slash),
            '%' => Some(State::Percent),
            '^' => Some(State::Circumflex),
            '=' => Some(State::Equal),
            '!' => Some(State::Exclamation),
            '<' => Some(State::Less),
            '>' => Some(State::Greater),
            '&' => Some(State::Ampersand),
            '|' => Some(State::Bar),
            ':' => Some(State::Colon),
            ';' => Some(State::Semicolon),
            ',' => Some(State::Comma),
            '.' => Some(State::Dot),
            '?' => Some(State::Question),
            '(' => Some(State::OpeningParenthesis),
            ')' => Some(State::ClosingParenthesis),
            '[' => Some(State::OpeningBracket),
            ']' => Some(State::ClosingBracket),
            '{' => Some(State::OpeningBrace),
            '}' => Some(State::ClosingBrace),
            _ => None,
        }
    }
}

/// The transition table: the state after `c` where `c` extends the token,
/// `None` where it ends it.
pub open spec fn extend(s: State, c: char) -> Option<State> {
    match s {
        State::Identifier => if is_ident_continue(c) { Some(State::Identifier) } else { None },
        State::Parameter => if is_ident_continue(c) { Some(State::Parameter) } else { None },
        State::Integer => if is_digit(c) {
            Some(State::Integer)
        } else if c == '.' {
            Some(State::Decimal)
        } else if c == 'e' || c == 'E' {
            Some(State::ScientificIncomplete)
        } else {
            None
        },
        State::Decimal => if is_digit(c) {
            Some(State::Decimal)
        } else if c == 'e' || c == 'E' {
            Some(State::ScientificIncomplete)
        } else {
            None
        },
        State::Dot => if is_digit(c) { Some(State::Decimal) } else { None },
        State::ScientificIncomplete => if c == '+' || c == '-' {
            Some(State::ScientificSign)
        } else if is_digit(c) {
            Some(State::Scientific)
        } else {
            None
        },
        State::ScientificSign => if is_digit(c) { Some(State::Scientific) } else { None },
        State::Scientific => if is_digit(c) { Some(State::Scientific) } else { None },
        State::Equal => if c == '=' {
            Some(State::DoubleEqual)
        } else if c == '>' {
            Some(State::EqualGreater)
        } else {
            None
        },
        State::Hyphen => if c == '>' { Some(State::HyphenGreater) } else { None },
        State::Exclamation => if c == '=' { Some(State::ExclamationEqual) } else { None },
        State::Ampersand => if c == '&' { Some(State::DoubleAmpersand) } else { None },
        State::Bar => if c == '|' { Some(State::DoubleBar) } else { None },
        State::Less => if c == '<' { Some(State::DoubleLess) } else { None },
        State::Greater => if c == '>' { Some(State::DoubleGreater) } else { None },
        _ => None,
    }
}

/// The token that a name's text stands for: a keyword, or an identifier.
pub open spec fn word(t: Seq<char>) -> Lexeme<Seq<char>> {
    if t == "if"@ {
        Lexeme::KeywordIf
    } else if t == "else"@ {
        Lexeme::KeywordElse
    } else if t == "while"@ {
        Lexeme::KeywordWhile
    } else if t == "for"@ {
        Lexeme::KeywordFor
    } else if t == "let"@ {
        Lexeme::KeywordLet
    } else if t == "def"@ {
        Lexeme::KeywordDef
    } else if t == "break"@ {
        Lexeme::KeywordBreak
    } else if t == "continue"@ {
        Lexeme::KeywordContinue
    } else if t == "return"@ {
        Lexeme::KeywordReturn
    } else {
        Lexeme::Identifier(t)
    }
}

/// What a token ends as: `text` is its characters, `lit` the decoded text of
/// a string literal, `range` its place.
pub open spec fn finish(s: State, text: Seq<char>, lit: Seq<char>, range: Range) -> Result<
    Lexeme<Seq<char>>,
    Error,
> {
    match s {
        State::Identifier => Ok(word(text)),
        State::Parameter => Ok(Lexeme::Parameter(text)),
        State::Integer | State::Decimal | State::Scientific => Ok(Lexeme::Number(text)),
        State::ScientificIncomplete | State::ScientificSign => Err(
            Error::IncompleteScientificNotation(range),
        ),
        State::Quoted => Ok(Lexeme::String(lit)),
        State::Ampersand => Err(Error::SingleAmpersand(range)),
        State::Dot => Err(Error::SingleDot(range)),
        State::Plus => Ok(Lexeme::Plus),
        State::Hyphen => Ok(Lexeme::Hyphen),
        State::HyphenGreater => Ok(Lexeme::HyphenGreater),
        State::Asterisk => Ok(Lexeme::Asterisk),
        State::Slash => Ok(Lexeme::Slash),
        State::Percent => Ok(Lexeme::Percent),
        State::Circumflex => Ok(Lexeme::Circumflex),
        State::Equal => Ok(Lexeme::Equal),
        State::EqualGreater => Ok(Lexeme::EqualGreater),
        State::DoubleEqual => Ok(Lexeme::DoubleEqual),
        State::Exclamation => Ok(Lexeme::Exclamation),
        State::ExclamationEqual => Ok(Lexeme::ExclamationEqual),
        State::Less => Ok(Lexeme::Less),
        State::DoubleLess => Ok(Lexeme::DoubleLess),
        State::Greater => Ok(Lexeme::Greater),
        State::DoubleGreater => Ok(Lexeme::DoubleGreater),
        State::DoubleAmpersand => Ok(Lexeme::DoubleAmpersand),
        State::Bar => Ok(Lexeme::Bar),
        State::DoubleBar => Ok(Lexeme::DoubleBar),
        State::Colon => Ok(Lexeme::Colon),
        State::Semicolon => Ok(Lexeme::Semicolon),
        State::Comma => Ok(Lexeme::Comma),
        State::Question => Ok(Lexeme::Question),
        State::OpeningParenthesis => Ok(Lexeme::OpeningParenthesis),
        State::ClosingParenthesis => Ok(Lexeme::ClosingParenthesis),
        State::OpeningBracket => Ok(Lexeme::OpeningBracket),
        State::ClosingBracket => Ok(Lexeme::ClosingBracket),
        State::OpeningBrace => Ok(Lexeme::OpeningBrace),
        State::ClosingBrace => Ok(Lexeme::ClosingBrace),
    }
}

/// The character that `\` followed by `c` stands for in a string literal.
pub open spec fn escape(c: char) -> char {
    if c == 'n' {
        '\n'
    } else if c == 'r' {
        '\r'
    } else if c == 't' {
        '\t'
    } else if c == '0' {
        '\0'
    } else {
        c
    }
}

/// The place of the character at index `i` of line `ln`.
pub open spec fn pos_at(ln: usize, cs: Seq<char>, i: int) -> Pos {
    Pos { line: ln, byte: offset(cs, i) as usize }
}

pub open spec fn stop(st: Scan, result: Result<(), Error>) -> Scanned {
    Scanned { carry: st.carry, open: st.open, lit: st.lit, out: st.out, result }
}

/// Starts what `c`, at index `i` and place `p`, begins, no token being open.
pub open spec fn begin(st: Scan, c: char, p: Pos, i: int) -> Result<Scan, Error> {
    if c == '"' {
        Ok(
            Scan {
                carry: Carry { string: Some((p, Seq::<char>::empty())), ..st.carry },
                open: None,
                ..st
            },
        )
    } else if is_space(c) {
        Ok(Scan { open: None, ..st })
    } else {
        match begin_state(c) {
            Some(s) => Ok(Scan { open: Some(Open { start: p, from: i as usize, state: s }), ..st }),
            None => Err(Error::UnexpectedCharacter(p)),
        }
    }
}

/// One move of the automaton: on to index `j` in state `st`, or stopped.
pub enum Step {
    Next(int, Scan),
    Stop(Scanned),
}

/// The move the automaton makes at index `i` of line `ln`, whose characters
/// are `cs`; the next character is looked at, never past the line's end.
pub open spec fn step(ln: usize, cs: Seq<char>, i: int, st: Scan) -> Step {
    let c = cs[i];
    let p = pos_at(ln, cs, i);
    let nx: Option<char> = if i + 1 < cs.len() { Some(cs[i + 1]) } else { None };
    if st.carry.comment.len() > 0 {
        if c == '*' && nx == Some('/') {
            Step::Next(i + 2, Scan { carry: Carry { comment: st.carry.comment.drop_last(), ..st.carry }, ..st })
        } else if c == '/' && nx == Some('*') {
            Step::Next(i + 2, Scan { carry: Carry { comment: st.carry.comment.push(p), ..st.carry }, ..st })
        } else if c == '/' && nx == Some('/') {
            Step::Stop(stop(st, Ok(())))
        } else {
            Step::Next(i + 1, st)
        }
    } else if st.carry.string is Some {
        let (s, text) = st.carry.string->0;
        if c == '"' {
            Step::Next(
                i + 1,
                Scan {
                    carry: Carry { string: None, ..st.carry },
                    open: Some(Open { start: s, from: i as usize, state: State::Quoted }),
                    lit: text,
                    ..st
                },
            )
        } else if c == '\\' {
            match nx {
                None => Step::Stop(stop(st, Err(Error::NoCharacterAfterBackSlash(p)))),
                Some(e) => Step::Next(i + 2, Scan { carry: Carry { string: Some((s, text.push(escape(e)))), ..st.carry }, ..st }),
            }
        } else {
            Step::Next(i + 1, Scan { carry: Carry { string: Some((s, text.push(c))), ..st.carry }, ..st })
        }
    } else {
        match st.open {
            Some(o) => match extend(o.state, c) {
                Some(ns) => Step::Next(i + 1, Scan { open: Some(Open { state: ns, ..o }), ..st }),
                None => if o.state == State::Slash && c == '/' {
                    Step::Stop(stop(st, Ok(())))
                } else if o.state == State::Slash && c == '*' {
                    Step::Next(i + 1, Scan { carry: Carry { comment: st.carry.comment.push(o.start), ..st.carry }, open: None, ..st })
                } else {
                    let range = Range { start: o.start, end: p };
                    match finish(o.state, cs.subrange(o.from as int, i), st.lit, range) {
                        Err(e) => Step::Stop(stop(st, Err(e))),
                        Ok(t) => {
                            let st2 = Scan { out: st.out.push((range, t)), open: None, ..st };
                            match begin(st2, c, p, i) {
                                Err(e) => Step::Stop(stop(st2, Err(e))),
                                Ok(st3) => Step::Next(i + 1, st3),
                            }
                        },
                    }
                },
            },
            None => match begin(st, c, p, i) {
                Err(e) => Step::Stop(stop(st, Err(e))),
                Ok(st2) => Step::Next(i + 1, st2),
            },
        }
    }
}

/// The automaton on line `ln`, whose characters are `cs`, from index `i`.
pub open spec fn scan(ln: usize, cs: Seq<char>, i: int, st: Scan) -> Scanned
    decreases cs.len() - i,
{
    if i < 0 || i >= cs.len() {
        stop(st, if st.open is Some { Err(Error::NoLineFeedAtEOF) } else { Ok(()) })
    } else {
        match step(ln, cs, i, st) {
            Step::Next(j, st2) => if i < j {
                scan(ln, cs, j, st2)
            } else {
                stop(st2, Ok(()))
            },
            Step::Stop(r) => r,
        }
    }
}

/// The automaton over a whole line `cs`, numbered `ln`, from `carry`.
pub open spec fn scan_line(carry: Carry, ln: usize, cs: Seq<char>) -> Scanned {
    scan(ln, cs, 0, Scan { carry, open: None, lit: Seq::empty(), out: Seq::empty() })
}

} // verus!

verus! {

fn is_digit_char(c: char) -> (r: bool)
    ensures
        r == is_digit(c),
{
    '0' <= c && c <= '9'
}

fn is_ident_start_char(c: char) -> (r: bool)
    ensures
        r == is_ident_start(c),
{
    ('a' <= c && c <= 'z') || ('A' <= c && c <= 'Z') || c == '_'
}

fn is_ident_continue_char(c: char) -> (r: bool)
    ensures
        r == is_ident_continue(c),
{
    is_ident_start_char(c) || is_digit_char(c) || c == '$'
}

fn is_space_char(c: char) -> (r: bool)
    ensures
        r == is_space(c),
{
    c == ' ' || c == '\t' || c == '\n' || c == '\x0C' || c == '\r'
}

fn escape_char(c: char) -> (r: char)
    ensures
        r == escape(c),
{
    if c == 'n' {
        '\n'
    } else if c == 'r' {
        '\r'
    } else if c == 't' {
        '\t'
    } else if c == '0' {
        '\0'
    } else {
        c
    }
}

fn begin_state_of(c: char) -> (r: Option<State>)
    ensures
        r == begin_state(c),
{
    if is_ident_start_char(c) {
        Some(State::Identifier)
    } else if c == '$' {
        Some(State::Parameter)
    } else if is_digit_char(c) {
        Some(State::Integer)
    } else {
        match c {
            '+' => Some(State::Plus),
            '-' => Some(State::Hyphen),
            '*' => Some(State::Asterisk),
            '/' => Some(State::Slash),
            '%' => Some(State::Percent),
            '^' => Some(State::Circumflex),
            '=' => Some(State::Equal),
            '!' => Some(State::Exclamation),
            '<' => Some(State::Less),
            '>' => Some(State::Greater),
            '&' => Some(State::Ampersand),
            '|' => Some(State::Bar),
            ':' => Some(State::Colon),
            ';' => Some(State::Semicolon),
            ',' => Some(State::Comma),
            '.' => Some(State::Dot),
            '?' => Some(State::Question),
            '(' => Some(State::OpeningParenthesis),
            ')' => Some(State::ClosingParenthesis),
            '[' => Some(State::OpeningBracket),
            ']' => Some(State::ClosingBracket),
            '{' => Some(State::OpeningBrace),
            '}' => Some(State::ClosingBrace),
            _ => None,
        }
    }
}

fn extend_state(s: State, c: char) -> (r: Option<State>)
    ensures
        r == extend(s, c),
{
    match s {
        State::Identifier | State::Parameter => if is_ident_continue_char(c) { Some(s) } else { None },
        State::Integer => if is_digit_char(c) {
            Some(State::Integer)
        } else if c == '.' {
            Some(State::Decimal)
        } else if c == 'e' || c == 'E' {
            Some(State::ScientificIncomplete)
        } else {
            None
        },
        State::Decimal => if is_digit_char(c) {
            Some(State::Decimal)
        } else if c == 'e' || c == 'E' {
            Some(State::ScientificIncomplete)
        } else {
            None
        },
        State::Dot => if is_digit_char(c) { Some(State::Decimal) } else { None },
        State::ScientificIncomplete => if c == '+' || c == '-' {
            Some(State::ScientificSign)
        } else if is_digit_char(c) {
            Some(State::Scientific)
        } else {
            None
        },
        State::ScientificSign | State::Scientific => if is_digit_char(c) { Some(State::Scientific) } else { None },
        State::Equal => if c == '=' {
            Some(State::DoubleEqual)
        } else if c == '>' {
            Some(State::EqualGreater)
        } else {
            None
        },
        State::Hyphen => if c == '>' { Some(State::HyphenGreater) } else { None },
        State::Exclamation => if c == '=' { Some(State::ExclamationEqual) } else { None },
        State::Ampersand => if c == '&' { Some(State::DoubleAmpersand) } else { None },
        State::Bar => if c == '|' { Some(State::DoubleBar) } else { None },
        State::Less => if c == '<' { Some(State::DoubleLess) } else { None },
        State::Greater => if c == '>' { Some(State::DoubleGreater) } else { None },
        _ => None,
    }
}

fn text_is(t: &String, k: &str) -> (r: bool)
    ensures
        r == (t@ == k@),
{
    let key = String::from_str(k);
    *t == key
}

/// The keyword or identifier token that a name's text stands for.
fn word_token(t: String) -> (r: Token)
    ensures
        r@ == word(t@),
{
    if text_is(&t, "if") {
        Lexeme::KeywordIf
    }     else if text_is(&t, "else") {
        Lexeme::KeywordElse
    }     else if text_is(&t, "while") {
        Lexeme::KeywordWhile
    }     else if text_is(&t, "for") {
        Lexeme::KeywordFor
    }     else if text_is(&t, "let") {
        Lexeme::KeywordLet
    }     else if text_is(&t, "def") {
        Lexeme::KeywordDef
    }     else if text_is(&t, "break") {
        Lexeme::KeywordBreak
    }     else if text_is(&t, "continue") {
        Lexeme::KeywordContinue
    }     else if text_is(&t, "return") {
        Lexeme::KeywordReturn
    } else {
        Lexeme::Identifier(t)
    }
}

/// The token that the state `s` ends as, its characters being those at
/// indices `from..to` of `cs`.
fn finish_token(
    s: State,
    cs: &Vec<(usize, char)>,
    from: usize,
    to: usize,
    lit: &String,
    range: Range,
) -> (r: Result<Token, Error>)
    requires
        from <= to <= cs@.len(),
    ensures
        match r {
            Ok(t) => finish(s, chars_of(cs@).subrange(from as int, to as int), lit@, range) == Ok::<
                Lexeme<Seq<char>>,
                Error,
            >(t@),
            Err(e) => finish(s, chars_of(cs@).subrange(from as int, to as int), lit@, range)
                == Err::<Lexeme<Seq<char>>, Error>(e),
        },
{
    match s {
        State::Identifier => Ok(word_token(text_between(cs, from, to))),
        State::Parameter => Ok(Lexeme::Parameter(text_between(cs, from, to))),
        State::Integer | State::Decimal | State::Scientific => Ok(Lexeme::Number(text_between(cs, from, to))),
        State::ScientificIncomplete | State::ScientificSign => Err(Error::IncompleteScientificNotation(range)),
        State::Quoted => Ok(Lexeme::String(lit.clone())),
        State::Ampersand => Err(Error::SingleAmpersand(range)),
        State::Dot => Err(Error::SingleDot(range)),
        State::Plus => Ok(Lexeme::Plus),
        State::Hyphen => Ok(Lexeme::Hyphen),
        State::HyphenGreater => Ok(Lexeme::HyphenGreater),
        State::Asterisk => Ok(Lexeme::Asterisk),
        State::Slash => Ok(Lexeme::Slash),
        State::Percent => Ok(Lexeme::Percent),
        State::Circumflex => Ok(Lexeme::Circumflex),
        State::Equal => Ok(Lexeme::Equal),
        State::EqualGreater => Ok(Lexeme::EqualGreater),
        State::DoubleEqual => Ok(Lexeme::DoubleEqual),
        State::Exclamation => Ok(Lexeme::Exclamation),
        State::ExclamationEqual => Ok(Lexeme::ExclamationEqual),
        State::Less => Ok(Lexeme::Less),
        State::DoubleLess => Ok(Lexeme::DoubleLess),
        State::Greater => Ok(Lexeme::Greater),
        State::DoubleGreater => Ok(Lexeme::DoubleGreater),
        State::DoubleAmpersand => Ok(Lexeme::DoubleAmpersand),
        State::Bar => Ok(Lexeme::Bar),
        State::DoubleBar => Ok(Lexeme::DoubleBar),
        State::Colon => Ok(Lexeme::Colon),
        State::Semicolon => Ok(Lexeme::Semicolon),
        State::Comma => Ok(Lexeme::Comma),
        State::Question => Ok(Lexeme::Question),
        State::OpeningParenthesis => Ok(Lexeme::OpeningParenthesis),
        State::ClosingParenthesis => Ok(Lexeme::ClosingParenthesis),
        State::OpeningBracket => Ok(Lexeme::OpeningBracket),
        State::ClosingBracket => Ok(Lexeme::ClosingBracket),
        State::OpeningBrace => Ok(Lexeme::OpeningBrace),
        State::ClosingBrace => Ok(Lexeme::ClosingBrace),
    }
}

} // verus!

verus! {

/// The tokens of a queue, with their text as sequences.
pub open spec fn items(q: Seq<(Range, Token)>) -> Seq<(Range, Lexeme<Seq<char>>)> {
    q.map_values(|e: (Range, Token)| (e.0, e.1@))
}

/// The automaton's state between lines: open block comments and an open
/// string literal. It does no I/O and owns neither its input nor its output.
pub struct Scanner {
    comment: Vec<Pos>,
    string_start: Option<Pos>,
    string_text: String,
}

impl Scanner {
    pub closed spec fn carry(&self) -> Carry {
        Carry {
            comment: self.comment@,
            string: match self.string_start {
                Some(p) => Some((p, self.string_text@)),
                None => None,
            },
        }
    }

    pub fn new() -> (r: Scanner)
        ensures
            r.carry() == (Carry { comment: Seq::empty(), string: None }),
    {
        Scanner { comment: Vec::new(), string_start: None, string_text: String::new() }
    }

    /// Forgets any open comment or string literal.
    pub fn reset(&mut self)
        ensures
            final(self).carry() == (Carry { comment: Seq::empty(), string: None }),
    {
        self.comment = Vec::new();
        self.string_start = None;
        self.string_text = String::new();
    }

    /// Where the outermost open block comment began, if one is open.
    pub fn comment_start(&self) -> (r: Option<Pos>)
        ensures
            r == (if self.carry().comment.len() > 0 {
                Some(self.carry().comment[0])
            } else {
                None
            }),
    {
        if self.comment.len() > 0 {
            Some(self.comment[0])
        } else {
            None
        }
    }

    /// Where the open string literal began, if one is open.
    pub fn string_start(&self) -> (r: Option<Pos>)
        ensures
            r == (match self.carry().string {
                Some(s) => Some(s.0),
                None => None,
            }),
    {
        self.string_start
    }

    /// Starts what `c` begins at place `p`, index `i`, no token being open.
    fn begin(&mut self, c: char, p: Pos, i: usize, Ghost(st): Ghost<Scan>) -> (r: Result<
        Option<Open>,
        Error,
    >)
        requires
            st.carry == old(self).carry(),
        ensures
            match begin(st, c, p, i as int) {
                Ok(st2) => r == Ok::<Option<Open>, Error>(st2.open) && final(self).carry() == st2.carry,
                Err(e) => r == Err::<Option<Open>, Error>(e) && final(self).carry() == old(self).carry(),
            },
    {
        if c == '"' {
            self.string_start = Some(p);
            self.string_text = String::new();
            Ok(None)
        } else if is_space_char(c) {
            Ok(None)
        } else {
            match begin_state_of(c) {
                Some(s) => Ok(Some(Open { start: p, from: i, state: s })),
                None => Err(Error::UnexpectedCharacter(p)),
            }
        }
    }

    /// Reads line `ln`, whose text is `line`, and appends its tokens to
    /// `queue`; exactly what `scan_line` describes, also where it stops on an
    /// error.
    pub fn run(&mut self, ln: usize, line: &str, queue: &mut VecDeque<(Range, Token)>) -> (r:
        Result<(), Error>)
        ensures
            final(self).carry() == scan_line(old(self).carry(), ln, line@).carry,
            items(final(queue)@) == items(old(queue)@) + scan_line(old(self).carry(), ln, line@).out,
            r == scan_line(old(self).carry(), ln, line@).result,
    {
        let cs = char_indices(line);
        let n = cs.len();
        let ghost chars = line@;
        proof {
            assert(chars_of(cs@) =~= chars);
        }
        let mut i: usize = 0;
        let mut open: Option<Open> = None;
        let mut lit = String::new();
        let ghost out: Seq<(Range, Lexeme<Seq<char>>)> = Seq::empty();
        let ghost goal = scan_line(self.carry(), ln, chars);
        proof {
            assert(items(queue@) =~= items(old(queue)@) + out);
        }
        while i < n
            invariant
                n == cs@.len(),
                n == chars.len(),
                chars == line@,
                chars_of(cs@) == chars,
                forall|k: int| 0 <= k < n ==> #[trigger] cs@[k] == (offset(chars, k) as usize, chars[k]),
                i <= n,
                open matches Some(o) ==> o.from <= i,
                goal == scan_line(old(self).carry(), ln, line@),
                scan(ln, chars, i as int, Scan { carry: self.carry(), open, lit: lit@, out }) == goal,
                items(queue@) == items(old(queue)@) + out,
            decreases n - i,
        {
            let (b, c) = cs[i];
            let p = Pos { line: ln, byte: b };
            let has_next = i + 1 < n;
            let d = if has_next { cs[i + 1].1 } else { ' ' };
            let ghost st = Scan { carry: self.carry(), open, lit: lit@, out };
            if self.comment.len() > 0 {
                if c == '*' && has_next && d == '/' {
                    self.comment.pop();
                    i = i + 2;
                } else if c == '/' && has_next && d == '*' {
                    self.comment.push(p);
                    i = i + 2;
                } else if c == '/' && has_next && d == '/' {
                    return Ok(());
                } else {
                    i = i + 1;
                }
            } else if self.string_start.is_some() {
                let s = self.string_start.unwrap();
                if c == '"' {
                    self.string_start = None;
                    lit = self.string_text.clone();
                    self.string_text = String::new();
                    open = Some(Open { start: s, from: i, state: State::Quoted });
                    i = i + 1;
                } else if c == '\\' {
                    if !has_next {
                        return Err(Error::NoCharacterAfterBackSlash(p));
                    }
                    push_char(&mut self.string_text, escape_char(d));
                    i = i + 2;
                } else {
                    push_char(&mut self.string_text, c);
                    i = i + 1;
                }
            } else {
                match open {
                    Some(o) => {
                        match extend_state(o.state, c) {
                            Some(ns) => {
                                open = Some(Open { start: o.start, from: o.from, state: ns });
                                i = i + 1;
                            },
                            None => {
                                if o.state == State::Slash && c == '/' {
                                    return Ok(());
                                } else if o.state == State::Slash && c == '*' {
                                    self.comment.push(o.start);
                                    open = None;
                                    i = i + 1;
                                } else {
                                    let range = Range { start: o.start, end: p };
                                    match finish_token(o.state, &cs, o.from, i, &lit, range) {
                                        Err(e) => {
                                            return Err(e);
                                        },
                                        Ok(t) => {
                                            let ghost tv = t@;
                                            let ghost tt: Token = t;
                                            let ghost q0 = queue@;
                                            queue.push_back((range, t));
                                            proof {
                                                assert(queue@ == q0.push((range, tt)));
                                                assert(items(q0.push((range, tt))) =~= items(q0).push((range, tv)));
                                                assert(items(queue@) =~= items(old(queue)@) + out.push((range, tv)));
                                                out = out.push((range, tv));
                                            }
                                            let ghost st2 = Scan { carry: self.carry(), open: None, lit: lit@, out };
                                            match self.begin(c, p, i, Ghost(st2)) {
                                                Err(e) => {
                                                    return Err(e);
                                                },
                                                Ok(next) => {
                                                    open = next;
                                                    i = i + 1;
                                                },
                                            }
                                        },
                                    }
                                }
                            },
                        }
                    },
                    None => {
                        match self.begin(c, p, i, Ghost(st)) {
                            Err(e) => {
                                return Err(e);
                            },
                            Ok(next) => {
                                open = next;
                                i = i + 1;
                            },
                        }
                    },
                }
            }
        }
        if open.is_some() {
            Err(Error::NoLineFeedAtEOF)
        } else {
            Ok(())
        }
    }
}

} // verus!

verus! {

/// `b` begins with `a`.
pub open spec fn extends<T>(a: Seq<T>, b: Seq<T>) -> bool {
    a.len() <= b.len() && b.take(a.len() as int) == a
}

/// A move never takes back a token.
proof fn lemma_step_extends(ln: usize, cs: Seq<char>, i: int, st: Scan)
    requires
        0 <= i < cs.len(),
    ensures
        match step(ln, cs, i, st) {
            Step::Next(_, s2) => extends(st.out, s2.out),
            Step::Stop(r) => extends(st.out, r.out),
        },
{
    assert(st.out.take(st.out.len() as int) =~= st.out);
    assert forall|x: (Range, Lexeme<Seq<char>>)| #[trigger] st.out.push(x).take(st.out.len() as int) =~= st.out by {}
}

/// The tokens of a line come out in order: what was produced stays a prefix
/// of what is produced.
pub proof fn lemma_scan_extends(ln: usize, cs: Seq<char>, i: int, st: Scan)
    ensures
        extends(st.out, scan(ln, cs, i, st).out),
    decreases cs.len() - i,
{
    assert(st.out.take(st.out.len() as int) =~= st.out);
    if 0 <= i < cs.len() {
        lemma_step_extends(ln, cs, i, st);
        match step(ln, cs, i, st) {
            Step::Next(j, s2) => {
                if i < j {
                    lemma_scan_extends(ln, cs, j, s2);
                    let r = scan(ln, cs, j, s2).out;
                    assert(r.take(st.out.len() as int) =~= r.take(s2.out.len() as int).take(st.out.len() as int));
                }
            },
            Step::Stop(_) => {},
        }
    }
}

/// Whether `t` is one of the reserved words.
pub open spec fn is_keyword(t: Seq<char>) -> bool {
    t == "if"@ || t == "else"@ || t == "while"@ || t == "for"@ || t == "let"@ || t == "def"@
        || t == "break"@ || t == "continue"@ || t == "return"@
}

proof fn lemma_name_run(ln: usize, cs: Seq<char>, t: Seq<char>, j: int, st: Scan)
    requires
        cs.len() > t.len(),
        cs.take(t.len() as int) == t,
        1 <= j <= t.len(),
        forall|k: int| 1 <= k < t.len() ==> is_ident_continue(#[trigger] t[k]),
        !is_ident_continue(cs[t.len() as int]),
        st.carry.comment.len() == 0,
        st.carry.string is None,
        st.out.len() == 0,
        st.open == Some(Open { start: pos_at(ln, cs, 0), from: 0, state: State::Identifier }),
    ensures
        scan(ln, cs, j, st).out.len() > 0,
        scan(ln, cs, j, st).out[0] == (Range { start: pos_at(ln, cs, 0), end: pos_at(ln, cs, t.len() as int) }, word(t)),
    decreases t.len() - j,
{
    if j < t.len() {
        assert(cs[j] == t[j]);
        lemma_name_run(ln, cs, t, j + 1, st);
    } else {
        assert(cs.subrange(0, j) =~= t);
        let x = (Range { start: pos_at(ln, cs, 0), end: pos_at(ln, cs, j) }, word(t));
        match step(ln, cs, j, st) {
            Step::Next(k, s2) => {
                assert(s2.out == seq![x]);
                lemma_scan_extends(ln, cs, k, s2);
                let r = scan(ln, cs, k, s2).out;
                assert(r[0] == r.take(1)[0]);
            },
            Step::Stop(r) => {
                assert(r.out == seq![x]);
            },
        }
    }
}

/// A name followed by a character that cannot continue it is read as one
/// token spanning exactly the name: the keyword, where the name is a reserved
/// word, and otherwise an identifier holding exactly the name's text.
pub proof fn lemma_name_token(carry: Carry, ln: usize, t: Seq<char>, c: char, rest: Seq<char>)
    requires
        carry.comment.len() == 0,
        carry.string is None,
        t.len() > 0,
        is_ident_start(t[0]),
        forall|k: int| 1 <= k < t.len() ==> is_ident_continue(#[trigger] t[k]),
        !is_ident_continue(c),
    ensures
        ({
            let cs = t + seq![c] + rest;
            let s = scan_line(carry, ln, cs);
            s.out.len() > 0 && s.out[0] == (
            Range { start: pos_at(ln, cs, 0), end: pos_at(ln, cs, t.len() as int) },
            word(t),
            )
        }),
        is_keyword(t) ==> !(word(t) is Identifier),
        !is_keyword(t) ==> word(t) == Lexeme::Identifier(t),
{
    let cs = t + seq![c] + rest;
    assert(cs.take(t.len() as int) =~= t);
    assert(cs[0] == t[0]);
    assert(cs[t.len() as int] == c);
    let st0 = Scan { carry, open: None, lit: Seq::empty(), out: Seq::empty() };
    let st1 = Scan { open: Some(Open { start: pos_at(ln, cs, 0), from: 0, state: State::Identifier }), ..st0 };
    assert(step(ln, cs, 0, st0) == Step::Next(1, st1));
    lemma_name_run(ln, cs, t, 1, st1);
}

/// Every reserved word, followed by a character that cannot continue a name,
/// is read as its keyword token, never as an identifier.
pub proof fn lemma_keyword_token(carry: Carry, ln: usize, t: Seq<char>, c: char, rest: Seq<char>)
    requires
        carry.comment.len() == 0,
        carry.string is None,
        is_keyword(t),
        !is_ident_continue(c),
    ensures
        ({
            let cs = t + seq![c] + rest;
            let s = scan_line(carry, ln, cs);
            s.out.len() > 0 && s.out[0].1 == word(t) && !(s.out[0].1 is Identifier)
        }),
{
    reveal_strlit("if");
    reveal_strlit("else");
    reveal_strlit("while");
    reveal_strlit("for");
    reveal_strlit("let");
    reveal_strlit("def");
    reveal_strlit("break");
    reveal_strlit("continue");
    reveal_strlit("return");
    assert(t.len() > 0 && is_ident_start(t[0]));
    assert forall|k: int| 1 <= k < t.len() implies is_ident_continue(#[trigger] t[k]) by {}
    lemma_name_token(carry, ln, t, c, rest);
}

/// Whether `st` is a state the automaton can be in at index `i`: a token is
/// open only outside comments and string literals, and began at or before `i`.
pub open spec fn sound(st: Scan, i: int) -> bool {
    st.open matches Some(o) ==> (st.carry.comment.len() == 0 && st.carry.string is None && o.from <= i)
}

/// The token that the open token `o` of a line `cs` would end as at the line's end.
pub open spec fn ending(ln: usize, cs: Seq<char>, o: Open, lit: Seq<char>) -> Result<Lexeme<Seq<char>>, Error> {
    finish(o.state, cs.subrange(o.from as int, cs.len() as int), lit, Range { start: o.start, end: pos_at(ln, cs, cs.len() as int) })
}

proof fn lemma_line_feed_run(ln: usize, cs: Seq<char>, i: int, st: Scan)
    requires
        0 <= i <= cs.len(),
        sound(st, i),
        scan(ln, cs, i, st).result == Err::<(), Error>(Error::NoLineFeedAtEOF),
        scan(ln, cs, i, st).open matches Some(o) && ending(ln, cs, o, scan(ln, cs, i, st).lit) is Ok,
    ensures
        scan(ln, cs, i, st).carry.comment.len() == 0,
        scan(ln, cs, i, st).carry.string is None,
        ({
            let s = scan(ln, cs, i, st);
            let o = s.open->0;
            scan(ln, cs.push('\n'), i, st) == (Scanned {
                carry: s.carry,
                open: None,
                lit: s.lit,
                out: s.out.push((Range { start: o.start, end: pos_at(ln, cs, cs.len() as int) }, ending(ln, cs, o, s.lit)->Ok_0)),
                result: Ok(()),
            })
        }),
    decreases cs.len() - i,
{
    let cs2 = cs.push('\n');
    assert(cs2.take(i) =~= cs.take(i));
    assert(pos_at(ln, cs2, i) == pos_at(ln, cs, i));
    if let Some(o) = st.open {
        assert(cs2.subrange(o.from as int, i) =~= cs.subrange(o.from as int, i));
    }
    if i < cs.len() {
        assert(cs2[i] == cs[i]);
        if i + 1 < cs.len() {
            assert(cs2[i + 1] == cs[i + 1]);
        }
        match step(ln, cs, i, st) {
            Step::Next(j, s2) => {
                assert(step(ln, cs2, i, st) == step(ln, cs, i, st));
                lemma_line_feed_run(ln, cs, j, s2);
            },
            Step::Stop(_) => {},
        }
    } else {
        assert(cs.take(cs.len() as int) =~= cs);
        let o = st.open->0;
        assert(extend(o.state, '\n') is None);
        let range = Range { start: o.start, end: pos_at(ln, cs, i) };
        let t = ending(ln, cs, o, st.lit)->Ok_0;
        let st3 = Scan { out: st.out.push((range, t)), open: None, ..st };
        assert(cs2.subrange(o.from as int, i) =~= cs.subrange(o.from as int, cs.len() as int));
        assert(step(ln, cs2, i, st) == Step::Next(i + 1, st3));
        assert(scan(ln, cs2, i + 1, st3) == stop(st3, Ok(())));
    }
}

/// A line that ends inside a token fails for want of its line feed; the same
/// line with a line feed appended succeeds, with that token as its last, for
/// every token that may end there.
pub proof fn lemma_line_feed(carry: Carry, ln: usize, cs: Seq<char>)
    requires
        scan_line(carry, ln, cs).result == Err::<(), Error>(Error::NoLineFeedAtEOF),
        scan_line(carry, ln, cs).open matches Some(o) && ending(ln, cs, o, scan_line(carry, ln, cs).lit) is Ok,
    ensures
        ({
            let s = scan_line(carry, ln, cs);
            let o = s.open->0;
            let t = scan_line(carry, ln, cs.push('\n'));
            &&& t.result == Ok::<(), Error>(())
            &&& t.carry == s.carry
            &&& t.out == s.out.push((Range { start: o.start, end: pos_at(ln, cs, cs.len() as int) }, ending(ln, cs, o, s.lit)->Ok_0))
        }),
{
    lemma_line_feed_run(ln, cs, 0, Scan { carry, open: None, lit: Seq::empty(), out: Seq::empty() });
}

/// Every token range in `out` runs forward.
pub open spec fn forward(out: Seq<(Range, Lexeme<Seq<char>>)>) -> bool {
    forall|k: int| 0 <= k < out.len() ==> (#[trigger] out[k]).0.wf()
}

/// Places within a line grow with the index.
proof fn lemma_pos_order(ln: usize, cs: Seq<char>, i: int, j: int)
    requires
        0 <= i <= j <= cs.len(),
        byte_len(cs) <= usize::MAX,
    ensures
        pos_at(ln, cs, i).le(pos_at(ln, cs, j)),
{
    if i < j {
        lemma_offset_increasing(cs, i, j);
        lemma_offset_step(cs, j - 1);
    }
}

/// Whether `st`, at index `i`, has all its places at or before index `i`,
/// and only forward ranges among its tokens.
pub open spec fn placed(st: Scan, ln: usize, cs: Seq<char>, i: int) -> bool {
    &&& sound(st, i)
    &&& st.open matches Some(o) ==> o.start.le(pos_at(ln, cs, i))
    &&& st.carry.string matches Some(s) ==> s.0.le(pos_at(ln, cs, i))
    &&& forward(st.out)
}

proof fn lemma_forward_run(ln: usize, cs: Seq<char>, i: int, st: Scan)
    requires
        0 <= i <= cs.len(),
        byte_len(cs) <= usize::MAX,
        placed(st, ln, cs, i),
    ensures
        forward(scan(ln, cs, i, st).out),
    decreases cs.len() - i,
{
    if i < cs.len() {
        match step(ln, cs, i, st) {
            Step::Next(j, s2) => {
                lemma_pos_order(ln, cs, i, j);
                assert forall|x: (Range, Lexeme<Seq<char>>)| x.0.wf() implies forward(#[trigger] st.out.push(x)) by {
                    assert forall|k: int| 0 <= k < st.out.push(x).len() implies (#[trigger] st.out.push(x)[k]).0.wf() by {
                        if k < st.out.len() {
                            assert(st.out.push(x)[k] == st.out[k]);
                        }
                    }
                }
                assert(placed(s2, ln, cs, j));
                lemma_forward_run(ln, cs, j, s2);
            },
            Step::Stop(r) => {
                assert forall|x: (Range, Lexeme<Seq<char>>)| x.0.wf() implies forward(#[trigger] st.out.push(x)) by {
                    assert forall|k: int| 0 <= k < st.out.push(x).len() implies (#[trigger] st.out.push(x)[k]).0.wf() by {
                        if k < st.out.len() {
                            assert(st.out.push(x)[k] == st.out[k]);
                        }
                    }
                }
            },
        }
    }
}

/// Every token of a line spans a forward range, given a string literal
/// still open from before began on an earlier line.
pub proof fn lemma_ranges_forward(carry: Carry, ln: usize, cs: Seq<char>)
    requires
        byte_len(cs) <= usize::MAX,
        carry.string matches Some(s) ==> s.0.line < ln,
    ensures
        forward(scan_line(carry, ln, cs).out),
{
    lemma_forward_run(ln, cs, 0, Scan { carry, open: None, lit: Seq::empty(), out: Seq::empty() });
}

} // verus!
