//! Points and half-open spans in the source text.
use vstd::prelude::*;
use vstd::string::*;
use crate::text::{after, before, between, boundary, decimal, index_of_byte, push_char, push_decimal};

verus! {

/// A point in the source: `line` and `byte` are both 0-indexed, `byte` being
/// the offset of a character's first byte within its line.
#[derive(Clone, Copy, PartialEq, Eq, Structural, PartialOrd, Ord, Debug)]
pub struct Pos {
    pub line: usize,
    pub byte: usize,
}

/// The half-open span `[start, end)` of a token or an expression, which may
/// cover several lines.
#[derive(Clone, Copy, PartialEq, Eq, Structural, Debug)]
pub struct Range {
    pub start: Pos,
    pub end: Pos,
}

impl Pos {
    /// Source order: by line, then by byte.
    pub open spec fn le(self, other: Pos) -> bool {
        self.line < other.line || (self.line == other.line && self.byte <= other.byte)
    }

    pub fn new(line: usize, byte: usize) -> (r: Pos)
        ensures
            r == (Pos { line, byte }),
    {
        Pos { line, byte }
    }

    pub fn line(&self) -> (r: usize)
        ensures
            r == self.line,
    {
        self.line
    }

    pub fn byte(&self) -> (r: usize)
        ensures
            r == self.byte,
    {
        self.byte
    }
}

impl Range {
    /// A range never runs backwards.
    pub open spec fn wf(self) -> bool {
        self.start.le(self.end)
    }

    /// The range from the start of `self` to the end of `other`, which
    /// follows it in the source.
    pub fn add(self, other: Range) -> (r: Range)
        requires
            self.wf(),
            other.wf(),
            self.end.le(other.start),
        ensures
            r == (Range { start: self.start, end: other.end }),
            r.wf(),
    {
        Range::new(self.start, other.end)
    }

    pub fn new(start: Pos, end: Pos) -> (r: Range)
        requires
            start.le(end),
        ensures
            r == (Range { start, end }),
            r.wf(),
    {
        Range { start, end }
    }
}

/// The source lines as character sequences.
pub open spec fn texts(log: Seq<String>) -> Seq<Seq<char>> {
    log.map_values(|l: String| l@)
}

/// The lines `ls`, one after the other.
pub open spec fn joined(ls: Seq<Seq<char>>) -> Seq<char>
    decreases ls.len(),
{
    if ls.len() == 0 {
        Seq::empty()
    } else {
        joined(ls.drop_last()) + ls.last()
    }
}

/// `line:byte`, both counted from 1, as people read places.
pub open spec fn human(p: Pos) -> Seq<char> {
    decimal(p.line as nat + 1) + seq![':'] + decimal(p.byte as nat + 1)
}

/// `line:byte-line:byte`, counted from 1, the end inclusive.
pub open spec fn human_range(r: Range) -> Seq<char> {
    human(r.start) + seq!['-'] + decimal(r.end.line as nat + 1) + seq![':'] + decimal(r.end.byte as nat)
}

/// `line:byte`, both counted from 0.
pub open spec fn debug(p: Pos) -> Seq<char> {
    decimal(p.line as nat) + seq![':'] + decimal(p.byte as nat)
}

/// Whether `p` is a place in the lines `log`: its line exists and its byte
/// offset starts a character of that line, or is its end.
pub open spec fn within(p: Pos, log: Seq<Seq<char>>) -> bool {
    p.line < log.len() && boundary(log[p.line as int], p.byte as int)
}

/// The line of `p`, marked at `p`.
pub open spec fn excerpt(p: Pos, log: Seq<Seq<char>>) -> Seq<char> {
    let l = log[p.line as int];
    before(l, p.byte as int) + " !-> "@ + after(l, p.byte as int)
}

/// Whether `r` is a span of the lines `log`, in source order.
pub open spec fn spans(r: Range, log: Seq<Seq<char>>) -> bool {
    &&& within(r.start, log)
    &&& within(r.end, log)
    &&& r.wf()
}

/// The lines of `r`, its start and its end marked; lines wholly inside it
/// are given as they are.
pub open spec fn range_excerpt(r: Range, log: Seq<Seq<char>>) -> Seq<char> {
    let s = log[r.start.line as int];
    let e = log[r.end.line as int];
    if r.start.line == r.end.line {
        before(s, r.start.byte as int) + " !-> "@ + between(s, r.start.byte as int, r.end.byte as int)
            + " <-! "@ + after(s, r.end.byte as int)
    } else {
        before(s, r.start.byte as int) + " !-> "@ + after(s, r.start.byte as int) + joined(
            log.subrange(r.start.line + 1, r.end.line as int),
        ) + before(e, r.end.byte as int) + " <-! "@ + after(e, r.end.byte as int)
    }
}

impl Pos {
    /// `line:byte`, counted from 1.
    pub fn display(&self) -> (r: String)
        ensures
            r@ == human(*self),
    {
        let mut r = String::new();
        push_decimal(&mut r, self.line as u128 + 1);
        push_char(&mut r, ':');
        push_decimal(&mut r, self.byte as u128 + 1);
        proof {
            assert(r@ =~= human(*self));
        }
        r
    }

    /// `line:byte`, counted from 0.
    pub fn debug(&self) -> (r: String)
        ensures
            r@ == debug(*self),
    {
        let mut r = String::new();
        push_decimal(&mut r, self.line as u128);
        push_char(&mut r, ':');
        push_decimal(&mut r, self.byte as u128);
        proof {
            assert(r@ =~= debug(*self));
        }
        r
    }

    /// Whether `self` is a place in `log`.
    pub fn is_within(&self, log: &Vec<String>) -> (r: bool)
        ensures
            r == within(*self, texts(log@)),
    {
        if self.line >= log.len() {
            return false;
        }
        let l = log[self.line].as_str();
        let cs = crate::text::char_indices(l);
        let mut k: usize = 0;
        while k < cs.len()
            invariant
                self.line < log@.len(),
                l@ == texts(log@)[self.line as int],
                cs@.len() == l@.len(),
                forall|j: int| 0 <= j < l@.len() ==> #[trigger] cs@[j] == (crate::text::offset(l@, j) as usize, l@[j]),
                forall|j: int| 0 <= j < l@.len() ==> crate::text::offset(l@, j) < crate::text::byte_len(l@),
                crate::text::byte_len(l@) <= usize::MAX,
                k <= cs@.len(),
                forall|j: int| 0 <= j < k ==> crate::text::offset(l@, j) != self.byte,
            decreases cs@.len() - k,
        {
            if cs[k].0 == self.byte {
                proof {
                    assert(0 <= k <= l@.len() && crate::text::offset(l@, k as int) == self.byte);
                }
                return true;
            }
            k = k + 1;
        }
        proof {
            assert(l@.take(l@.len() as int) =~= l@);
            crate::text::lemma_byte_len_is_utf8_len(l@);
        }
        let total = l.as_bytes().len();
        if total == self.byte {
            proof {
                assert(crate::text::offset(l@, l@.len() as int) == self.byte);
            }
            true
        } else {
            false
        }
    }

    /// The line of `self` from `log`, with ` !-> ` inserted at `self`.
    pub fn print(&self, log: &Vec<String>) -> (r: String)
        requires
            within(*self, texts(log@)),
        ensures
            r@ == excerpt(*self, texts(log@)),
    {
        let l = log[self.line].as_str();
        let k = index_of_byte(l, self.byte);
        let mut r = String::new();
        r.append(l.substring_char(0, k));
        r.append(" !-> ");
        r.append(l.substring_char(k, l.unicode_len()));
        proof {
            assert(r@ =~= excerpt(*self, texts(log@)));
        }
        r
    }
}

impl Range {
    /// `line:byte-line:byte`, counted from 1, the end inclusive.
    pub fn display(&self) -> (r: String)
        ensures
            r@ == human_range(*self),
    {
        let mut r = self.start.display();
        push_char(&mut r, '-');
        push_decimal(&mut r, self.end.line as u128 + 1);
        push_char(&mut r, ':');
        push_decimal(&mut r, self.end.byte as u128);
        proof {
            assert(r@ =~= human_range(*self));
        }
        r
    }

    /// `[start, end)`, counted from 0.
    pub fn debug(&self) -> (r: String)
        ensures
            r@ == seq!['['] + debug(self.start) + seq![',', ' '] + debug(self.end) + seq![')'],
    {
        let mut r = String::new();
        push_char(&mut r, '[');
        r.append(self.start.debug().as_str());
        push_char(&mut r, ',');
        push_char(&mut r, ' ');
        r.append(self.end.debug().as_str());
        push_char(&mut r, ')');
        proof {
            assert(r@ =~= seq!['['] + debug(self.start) + seq![',', ' '] + debug(self.end) + seq![')']);
        }
        r
    }

    /// Whether `self` is a span of `log`.
    pub fn is_within(&self, log: &Vec<String>) -> (r: bool)
        ensures
            r == spans(*self, texts(log@)),
    {
        self.start.is_within(log) && self.end.is_within(log) && (self.start.line < self.end.line || (
        self.start.line == self.end.line && self.start.byte <= self.end.byte))
    }

    /// The lines of `self` from `log`, with ` !-> ` at its start and ` <-! `
    /// at its end.
    pub fn print(&self, log: &Vec<String>) -> (r: String)
        requires
            spans(*self, texts(log@)),
        ensures
            r@ == range_excerpt(*self, texts(log@)),
    {
        let s = log[self.start.line].as_str();
        let e = log[self.end.line].as_str();
        let a = index_of_byte(s, self.start.byte);
        let b = index_of_byte(e, self.end.byte);
        let mut r = String::new();
        r.append(s.substring_char(0, a));
        r.append(" !-> ");
        if self.start.line == self.end.line {
            proof {
                if b < a {
                    crate::text::lemma_offset_increasing(s@, b as int, a as int);
                }
            }
            r.append(s.substring_char(a, b));
            r.append(" <-! ");
            r.append(s.substring_char(b, s.unicode_len()));
        } else {
            r.append(s.substring_char(a, s.unicode_len()));
            let ghost head = r@;
            let mut row: usize = self.start.line + 1;
            while row < self.end.line
                invariant
                    self.start.line < row <= self.end.line < log@.len(),
                    r@ == head + joined(texts(log@).subrange(self.start.line + 1, row as int)),
                decreases self.end.line - row,
            {
                r.append(log[row].as_str());
                proof {
                    let ls = texts(log@).subrange(self.start.line + 1, row + 1);
                    assert(ls.drop_last() =~= texts(log@).subrange(self.start.line + 1, row as int));
                }
                row = row + 1;
            }
            r.append(e.substring_char(0, b));
            r.append(" <-! ");
            r.append(e.substring_char(b, e.unicode_len()));
        }
        proof {
            assert(r@ =~= range_excerpt(*self, texts(log@)));
        }
        r
    }
}

} // verus!
