//! The tokens of the language.
use vstd::prelude::*;

verus! {

/// A token, generic in how its text is held: `Token` holds `String`s, and its
/// view, `Lexeme<Seq<char>>`, the same characters as a sequence.
#[derive(Clone, PartialEq, Debug)]
pub enum Lexeme<S> {
    /// A name: a letter or `_`, then letters, digits, `_` and `$`.
    Identifier(S),
    /// A parameter name: `$`, then letters, digits, `_` and `$`.
    Parameter(S),
    /// A numeric literal, as written: `(Integer|Decimal)([eE][+-]?digit+)?`.
    Number(S),
    /// A string literal, with its escapes decoded and without its quotes.
    String(S),
    KeywordIf,
    KeywordElse,
    KeywordWhile,
    KeywordFor,
    KeywordLet,
    KeywordDef,
    KeywordBreak,
    KeywordContinue,
    KeywordReturn,
    Plus,
    Hyphen,
    HyphenGreater,
    Asterisk,
    Slash,
    Percent,
    Circumflex,
    Equal,
    EqualGreater,
    DoubleEqual,
    Exclamation,
    ExclamationEqual,
    Less,
    DoubleLess,
    Greater,
    DoubleGreater,
    DoubleAmpersand,
    Bar,
    DoubleBar,
    Colon,
    Semicolon,
    Comma,
    Question,
    OpeningParenthesis,
    ClosingParenthesis,
    OpeningBracket,
    ClosingBracket,
    OpeningBrace,
    ClosingBrace,
}

/// A token as the lexer hands it out.
pub type Token = Lexeme<String>;

impl View for Lexeme<String> {
    type V = Lexeme<Seq<char>>;

    open spec fn view(&self) -> Lexeme<Seq<char>> {
        match self {
            Lexeme::Identifier(s) => Lexeme::Identifier(s@),
            Lexeme::Parameter(s) => Lexeme::Parameter(s@),
            Lexeme::Number(s) => Lexeme::Number(s@),
            Lexeme::String(s) => Lexeme::String(s@),
            Lexeme::KeywordIf => Lexeme::KeywordIf,
            Lexeme::KeywordElse => Lexeme::KeywordElse,
            Lexeme::KeywordWhile => Lexeme::KeywordWhile,
            Lexeme::KeywordFor => Lexeme::KeywordFor,
            Lexeme::KeywordLet => Lexeme::KeywordLet,
            Lexeme::KeywordDef => Lexeme::KeywordDef,
            Lexeme::KeywordBreak => Lexeme::KeywordBreak,
            Lexeme::KeywordContinue => Lexeme::KeywordContinue,
            Lexeme::KeywordReturn => Lexeme::KeywordReturn,
            Lexeme::Plus => Lexeme::Plus,
            Lexeme::Hyphen => Lexeme::Hyphen,
            Lexeme::HyphenGreater => Lexeme::HyphenGreater,
            Lexeme::Asterisk => Lexeme::Asterisk,
            Lexeme::Slash => Lexeme::Slash,
            Lexeme::Percent => Lexeme::Percent,
            Lexeme::Circumflex => Lexeme::Circumflex,
            Lexeme::Equal => Lexeme::Equal,
            Lexeme::EqualGreater => Lexeme::EqualGreater,
            Lexeme::DoubleEqual => Lexeme::DoubleEqual,
            Lexeme::Exclamation => Lexeme::Exclamation,
            Lexeme::ExclamationEqual => Lexeme::ExclamationEqual,
            Lexeme::Less => Lexeme::Less,
            Lexeme::DoubleLess => Lexeme::DoubleLess,
            Lexeme::Greater => Lexeme::Greater,
            Lexeme::DoubleGreater => Lexeme::DoubleGreater,
            Lexeme::DoubleAmpersand => Lexeme::DoubleAmpersand,
            Lexeme::Bar => Lexeme::Bar,
            Lexeme::DoubleBar => Lexeme::DoubleBar,
            Lexeme::Colon => Lexeme::Colon,
            Lexeme::Semicolon => Lexeme::Semicolon,
            Lexeme::Comma => Lexeme::Comma,
            Lexeme::Question => Lexeme::Question,
            Lexeme::OpeningParenthesis => Lexeme::OpeningParenthesis,
            Lexeme::ClosingParenthesis => Lexeme::ClosingParenthesis,
            Lexeme::OpeningBracket => Lexeme::OpeningBracket,
            Lexeme::ClosingBracket => Lexeme::ClosingBracket,
            Lexeme::OpeningBrace => Lexeme::OpeningBrace,
            Lexeme::ClosingBrace => Lexeme::ClosingBrace,
        }
    }
}

} // verus!
