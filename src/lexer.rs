//! The lexer as its callers see it: it takes source lines one at a time, keeps
//! the tokens they produce in a queue, and hands them out in order.
//!
//! Reading is the caller's part: a driver pulls a token with `next` or looks at
//! it with `ask`, and where none is queued it reads a line and hands it to
//! `feed` (`None` once the input is exhausted), then asks again.
use vstd::prelude::*;
use crate::automaton::{items, scan_line, Carry, Scanner};
use crate::error::Error;
use crate::pos::{Pos, Range};
use crate::token::{Lexeme, Token};
use std::collections::VecDeque;

verus! {

/// What a lexer holds: the automaton's state between lines, the queued tokens,
/// and whether an interactive prompt is wanted before each line is read.
pub struct LexerView {
    pub carry: Carry,
    pub queue: Seq<(Range, Lexeme<Seq<char>>)>,
    pub prompt: bool,
}

/// The lexer: the automaton, its queue of tokens not yet handed out, and the
/// prompt setting for the driver that reads its lines.
pub struct Lexer {
    prompt: bool,
    inner: Scanner,
    queue: VecDeque<(Range, Token)>,
}

/// The state a lexer starts in, and returns to at the end of the input.
pub open spec fn fresh() -> Carry {
    Carry { comment: Seq::empty(), string: None }
}

/// What `feed` yields at the end of the input: an error for a block comment
/// (at its outermost opening) or a string literal still open, else `false`.
pub open spec fn at_end(c: Carry) -> Result<bool, Error> {
    if c.comment.len() > 0 {
        Err(Error::UnterminatedComment(c.comment[0]))
    } else {
        match c.string {
            Some(s) => Err(Error::UnterminatedStringLiteral(s.0)),
            None => Ok(false),
        }
    }
}

/// What `feed` yields for a line: `true`, or the line's error.
pub open spec fn after_line(r: Result<(), Error>) -> Result<bool, Error> {
    match r {
        Ok(()) => Ok(true),
        Err(e) => Err(e),
    }
}

/// What `next` does: `r` is the first queued token, which leaves the queue,
/// or `None` with nothing changed where the queue is empty.
pub open spec fn took(before: LexerView, after: LexerView, r: Option<(Range, Token)>) -> bool {
    if before.queue.len() == 0 {
        r is None && after == before
    } else {
        r matches Some(x) && (x.0, x.1@) == before.queue[0] && after == (LexerView {
            queue: before.queue.drop_first(),
            ..before
        })
    }
}

impl View for Lexer {
    type V = LexerView;

    closed spec fn view(&self) -> LexerView {
        LexerView { carry: self.inner.carry(), queue: items(self.queue@), prompt: self.prompt }
    }
}

impl Lexer {
    /// The first queued token.
    pub closed spec fn front(&self) -> Token {
        self.queue@[0].1
    }

    pub fn new(prompt: bool) -> (r: Lexer)
        ensures
            r@ == (LexerView { carry: fresh(), queue: Seq::empty(), prompt }),
    {
        let r = Lexer { prompt, inner: Scanner::new(), queue: VecDeque::new() };
        proof {
            assert(items(r.queue@) =~= Seq::empty());
        }
        r
    }

    /// Whether an interactive prompt should be shown before each line is read.
    pub fn prompt(&self) -> (r: bool)
        ensures
            r == self@.prompt,
    {
        self.prompt
    }

    /// Whether a token is queued, so that `next` and `ask` need no more input.
    pub fn has_token(&self) -> (r: bool)
        ensures
            r == (self@.queue.len() > 0),
    {
        self.queue.len() > 0
    }

    /// Hands out the first queued token and removes it from the queue; `None`
    /// where the queue is empty and another line is needed.
    pub fn next(&mut self) -> (r: Option<(Range, Token)>)
        ensures
            took(old(self)@, final(self)@, r),
    {
        let r = self.queue.pop_front();
        proof {
            if old(self).queue@.len() > 0 {
                assert(items(self.queue@) =~= items(old(self).queue@).drop_first());
            }
        }
        r
    }

    /// Applies `fnc` to the first queued token and leaves it in the queue;
    /// `None`, with `fnc` not called, where the queue is empty.
    pub fn ask<F: FnOnce(&Token) -> bool>(&self, fnc: F) -> (r: Option<bool>)
        requires
            self@.queue.len() > 0 ==> fnc.requires((&self.front(),)),
        ensures
            self@.queue.len() == 0 ==> r is None,
            self@.queue.len() > 0 ==> (r matches Some(b) && self.front()@ == self@.queue[0].1
                && fnc.ensures((&self.front(),), b)),
    {
        if self.queue.len() > 0 {
            let t = &self.queue[0].1;
            let b = fnc(t);
            Some(b)
        } else {
            None
        }
    }

    /// Hands the lexer the next line read, `line` (with its terminator), or
    /// `None` once the input is exhausted. A line is appended to `log` in
    /// every case and numbered by its index there; its tokens join the queue,
    /// also those before an error in it.
    pub fn feed(&mut self, line: Option<String>, log: &mut Vec<String>) -> (r: Result<bool, Error>)
        ensures
            match line {
                Some(l) => {
                    let s = scan_line(old(self)@.carry, old(log)@.len() as usize, l@);
                    &&& final(log)@ == old(log)@.push(l)
                    &&& final(self)@ == (LexerView {
                        carry: s.carry,
                        queue: old(self)@.queue + s.out,
                        prompt: old(self)@.prompt,
                    })
                    &&& r == after_line(s.result)
                },
                None => {
                    &&& final(log)@ == old(log)@
                    &&& final(self)@ == (LexerView { carry: fresh(), ..old(self)@ })
                    &&& r == at_end(old(self)@.carry)
                },
            },
    {
        match line {
            Some(l) => {
                let result = self.inner.run(log.len(), l.as_str(), &mut self.queue);
                log.push(l);
                match result {
                    Ok(()) => Ok(true),
                    Err(e) => Err(e),
                }
            },
            None => {
                let comment = self.inner.comment_start();
                let string = self.inner.string_start();
                self.inner.reset();
                match comment {
                    Some(p) => Err(Error::UnterminatedComment(p)),
                    None => match string {
                        Some(p) => Err(Error::UnterminatedStringLiteral(p)),
                        None => Ok(false),
                    },
                }
            },
        }
    }
}

/// Looking ahead takes nothing: `ask` leaves the lexer as it is, so any
/// number of calls, with any predicates, all see the first queued token, and
/// `next` then hands out that same token.
pub proof fn lemma_ask_then_next(l: Lexer, after: Lexer, r: Option<(Range, Token)>)
    requires
        l@.queue.len() > 0,
        took(l@, after@, r),
    ensures
        r matches Some(x) && x.1@ == l.front()@,
{
    assert(l.front()@ == l@.queue[0].1);
}

} // verus!
