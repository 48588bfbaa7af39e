//! Lexical errors, each with the place in the source where it arose.
use vstd::prelude::*;
use crate::pos::{excerpt, human, human_range, range_excerpt, spans, texts, within, Pos, Range};
use crate::text::push_char;
use vstd::string::*;

verus! {

#[derive(Clone, Copy, PartialEq, Eq, Structural, Debug)]
pub enum Error {
    /// A character that starts no token and is not whitespace.
    UnexpectedCharacter(Pos),
    /// A `\` as the last character of a line inside a string literal.
    NoCharacterAfterBackSlash(Pos),
    /// The input ended inside a block comment opened at this place.
    UnterminatedComment(Pos),
    /// The input ended inside a string literal opened at this place.
    UnterminatedStringLiteral(Pos),
    /// The last line lacks its terminator and ends inside a token.
    NoLineFeedAtEOF,
    /// An exponent marker, perhaps with a sign, and no exponent digits.
    IncompleteScientificNotation(Range),
    /// A `&` not followed by a second `&`.
    SingleAmpersand(Range),
    /// A `.` neither after an integer nor before a digit.
    SingleDot(Range),
    /// Numeric text that the lexer accepted but that could not be read as a
    /// floating-point value where it was converted.
    ParseFloatFailure(Range),
}

impl Error {
    /// Whether every place the error names lies in `log`.
    pub open spec fn fits(self, log: Seq<Seq<char>>) -> bool {
        match self {
            Error::UnexpectedCharacter(p) | Error::NoCharacterAfterBackSlash(p)
            | Error::UnterminatedComment(p) | Error::UnterminatedStringLiteral(p) => within(p, log),
            Error::NoLineFeedAtEOF => true,
            Error::IncompleteScientificNotation(r) | Error::SingleAmpersand(r) | Error::SingleDot(r)
            | Error::ParseFloatFailure(r) => spans(r, log),
        }
    }

    /// The one-line description of the error and its place.
    pub open spec fn message_spec(self) -> Seq<char> {
        match self {
            Error::UnexpectedCharacter(p) => "unexpected character at "@ + human(p),
            Error::NoCharacterAfterBackSlash(p) => "no character after `\\` at "@ + human(p),
            Error::UnterminatedComment(p) => "unterminated comment (started at "@ + human(p) + ")"@,
            Error::UnterminatedStringLiteral(p) => "unterminated string literal (started at "@ + human(p) + ")"@,
            Error::IncompleteScientificNotation(r) => "incomplete scientific notation at "@ + human_range(r),
            Error::SingleAmpersand(r) => "single ampersand at "@ + human_range(r),
            Error::SingleDot(r) => "single dot at "@ + human_range(r),
            Error::ParseFloatFailure(r) => "failed to parse number at "@ + human_range(r),
            Error::NoLineFeedAtEOF => "no line feed at end of file"@,
        }
    }

    /// The source text the error points at, marked.
    pub open spec fn excerpt_spec(self, log: Seq<Seq<char>>) -> Seq<char> {
        match self {
            Error::UnexpectedCharacter(p) | Error::NoCharacterAfterBackSlash(p)
            | Error::UnterminatedComment(p) | Error::UnterminatedStringLiteral(p) => excerpt(p, log),
            Error::NoLineFeedAtEOF => Seq::empty(),
            Error::IncompleteScientificNotation(r) | Error::SingleAmpersand(r) | Error::SingleDot(r)
            | Error::ParseFloatFailure(r) => range_excerpt(r, log),
        }
    }

    /// Whether every place the error names lies in `log`, so that `report`
    /// can show it.
    pub fn fits_log(&self, log: &Vec<String>) -> (r: bool)
        ensures
            r == self.fits(texts(log@)),
    {
        match self {
            Error::UnexpectedCharacter(p) | Error::NoCharacterAfterBackSlash(p)
            | Error::UnterminatedComment(p) | Error::UnterminatedStringLiteral(p) => p.is_within(log),
            Error::NoLineFeedAtEOF => true,
            Error::IncompleteScientificNotation(r) | Error::SingleAmpersand(r) | Error::SingleDot(r)
            | Error::ParseFloatFailure(r) => r.is_within(log),
        }
    }

    /// The one-line description of the error and its place.
    pub fn message(&self) -> (r: String)
        ensures
            r@ == self.message_spec(),
    {
        let mut out = String::new();
        match self {
            Error::UnexpectedCharacter(p) => {
                out.append("unexpected character at ");
                out.append(p.display().as_str());
            },
            Error::NoCharacterAfterBackSlash(p) => {
                out.append("no character after `\\` at ");
                out.append(p.display().as_str());
            },
            Error::UnterminatedComment(p) => {
                out.append("unterminated comment (started at ");
                out.append(p.display().as_str());
                out.append(")");
            },
            Error::UnterminatedStringLiteral(p) => {
                out.append("unterminated string literal (started at ");
                out.append(p.display().as_str());
                out.append(")");
            },
            Error::IncompleteScientificNotation(r) => {
                out.append("incomplete scientific notation at ");
                out.append(r.display().as_str());
            },
            Error::SingleAmpersand(r) => {
                out.append("single ampersand at ");
                out.append(r.display().as_str());
            },
            Error::SingleDot(r) => {
                out.append("single dot at ");
                out.append(r.display().as_str());
            },
            Error::ParseFloatFailure(r) => {
                out.append("failed to parse number at ");
                out.append(r.display().as_str());
            },
            Error::NoLineFeedAtEOF => {
                out.append("no line feed at end of file");
            },
        }
        proof {
            assert(out@ =~= self.message_spec());
        }
        out
    }

    /// The full report: `error: `, the description, a line break, then the
    /// marked source text.
    pub fn report(&self, log: &Vec<String>) -> (r: String)
        requires
            self.fits(texts(log@)),
        ensures
            r@ == "error: "@ + self.message_spec() + seq!['\n'] + self.excerpt_spec(texts(log@)),
    {
        let mut r = String::new();
        r.append("error: ");
        r.append(self.message().as_str());
        push_char(&mut r, '\n');
        match self {
            Error::UnexpectedCharacter(p) | Error::NoCharacterAfterBackSlash(p)
            | Error::UnterminatedComment(p) | Error::UnterminatedStringLiteral(p) => {
                r.append(p.print(log).as_str());
            },
            Error::NoLineFeedAtEOF => {},
            Error::IncompleteScientificNotation(x) | Error::SingleAmpersand(x) | Error::SingleDot(x)
            | Error::ParseFloatFailure(x) => {
                r.append(x.print(log).as_str());
            },
        }
        proof {
            assert(r@ =~= "error: "@ + self.message_spec() + seq!['\n'] + self.excerpt_spec(texts(log@)));
        }
        r
    }
}

} // verus!
