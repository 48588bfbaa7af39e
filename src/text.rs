//! Characters, their UTF-8 widths, and the small string operations the lexer
//! and the renderers build on.
use vstd::prelude::*;
use vstd::string::*;
use vstd::utf8::*;

verus! {


/// Number of bytes of `c` in UTF-8.
pub open spec fn width(c: char) -> nat {
    if c as u32 <= 0x7F {
        1
    } else if c as u32 <= 0x7FF {
        2
    } else if c as u32 <= 0xFFFF {
        3
    } else {
        4
    }
}

/// Number of bytes of `s` in UTF-8.
pub open spec fn byte_len(s: Seq<char>) -> nat
    decreases s.len(),
{
    if s.len() == 0 {
        0
    } else {
        width(s[0]) + byte_len(s.drop_first())
    }
}

/// Byte offset of the character at index `k` of `s`.
pub open spec fn offset(s: Seq<char>, k: int) -> nat {
    byte_len(s.take(k))
}

pub proof fn lemma_byte_len_concat(a: Seq<char>, b: Seq<char>)
    ensures
        byte_len(a + b) == byte_len(a) + byte_len(b),
    decreases a.len(),
{
    if a.len() == 0 {
        assert(a + b =~= b);
    } else {
        assert((a + b).drop_first() =~= a.drop_first() + b);
        lemma_byte_len_concat(a.drop_first(), b);
    }
}

/// Offsets grow by the width of each character passed.
pub proof fn lemma_offset_step(s: Seq<char>, k: int)
    requires
        0 <= k < s.len(),
    ensures
        offset(s, k + 1) == offset(s, k) + width(s[k]),
        offset(s, k + 1) <= byte_len(s),
{
    assert(s.take(k + 1) =~= s.take(k) + seq![s[k]]);
    lemma_byte_len_concat(s.take(k), seq![s[k]]);
    assert(seq![s[k]].drop_first() =~= Seq::<char>::empty());
    assert(byte_len(Seq::<char>::empty()) == 0);
    assert(byte_len(seq![s[k]]) == width(s[k]) + byte_len(seq![s[k]].drop_first()));
    assert(s =~= s.take(k + 1) + s.skip(k + 1));
    lemma_byte_len_concat(s.take(k + 1), s.skip(k + 1));
}

pub proof fn lemma_byte_len_is_utf8_len(s: Seq<char>)
    ensures
        byte_len(s) == encode_utf8(s).len(),
    decreases s.len(),
{
    if s.len() > 0 {
        char_is_scalar(s[0]);
        lemma_byte_len_is_utf8_len(s.drop_first());
    }
}

/// Width of `c` in UTF-8, as `char::len_utf8` gives it.
pub fn width_of(c: char) -> (r: usize)
    ensures
        r == width(c),
{
    let v = c as u32;
    if v <= 0x7F {
        1
    } else if v <= 0x7FF {
        2
    } else if v <= 0xFFFF {
        3
    } else {
        4
    }
}

/// The characters of `s`, each with its byte offset.
pub fn char_indices(s: &str) -> (r: Vec<(usize, char)>)
    ensures
        r@.len() == s@.len(),
        forall|k: int|
            0 <= k < s@.len() ==> #[trigger] r@[k] == (offset(s@, k) as usize, s@[k]),
        forall|k: int| 0 <= k < s@.len() ==> offset(s@, k) < byte_len(s@),
        byte_len(s@) <= usize::MAX,
{
    let total = s.as_bytes().len();
    proof {
        lemma_byte_len_is_utf8_len(s@);
    }
    let n = s.unicode_len();
    let mut r: Vec<(usize, char)> = Vec::new();
    let mut b: usize = 0;
    while r.len() < n
        invariant
            n == s@.len(),
            r@.len() <= s@.len(),
            b == offset(s@, r@.len() as int),
            total == byte_len(s@),
            forall|k: int|
                0 <= k < r@.len() ==> #[trigger] r@[k] == (offset(s@, k) as usize, s@[k]),
            forall|k: int| 0 <= k < r@.len() ==> offset(s@, k) < byte_len(s@),
        decreases s@.len() - r@.len(),
    {
        let c = s.get_char(r.len());
        proof {
            lemma_offset_step(s@, r@.len() as int);
        }
        r.push((b, c));
        b = b + width_of(c);
    }
    r
}

} // verus!

verus! {

/// The characters of a `char_indices` result.
pub open spec fn chars_of(v: Seq<(usize, char)>) -> Seq<char> {
    v.map_values(|e: (usize, char)| e.1)
}

/// Relies on `String::push`: appends `c` at the end of `s`.
#[verifier::external_body]
pub(crate) fn push_char(s: &mut String, c: char)
    ensures
        final(s)@ == old(s)@.push(c),
{
    s.push(c)
}

/// The characters at indices `from..to` of `v`, as a `String`.
pub fn text_between(v: &Vec<(usize, char)>, from: usize, to: usize) -> (r: String)
    requires
        from <= to <= v@.len(),
    ensures
        r@ == chars_of(v@).subrange(from as int, to as int),
{
    let mut r = String::new();
    let mut k: usize = from;
    while k < to
        invariant
            from <= k <= to <= v@.len(),
            r@ == chars_of(v@).subrange(from as int, k as int),
        decreases to - k,
    {
        push_char(&mut r, v[k].1);
        proof {
            assert(chars_of(v@).subrange(from as int, k + 1) =~= chars_of(v@).subrange(
                from as int,
                k as int,
            ).push(v@[k as int].1));
        }
        k = k + 1;
    }
    r
}

} // verus!

verus! {

/// Offsets strictly grow along a line: each character has at least one byte.
pub proof fn lemma_offset_increasing(s: Seq<char>, j: int, k: int)
    requires
        0 <= j < k <= s.len(),
    ensures
        offset(s, j) < offset(s, k),
    decreases k - j,
{
    lemma_offset_step(s, k - 1);
    if j < k - 1 {
        lemma_offset_increasing(s, j, k - 1);
    }
}

/// Whether byte offset `b` starts a character of `s`, or is its end.
pub open spec fn boundary(s: Seq<char>, b: int) -> bool {
    exists|k: int| 0 <= k <= s.len() && offset(s, k) == b
}

/// The index of the character that starts at byte offset `b` of `s`.
pub open spec fn index_at(s: Seq<char>, b: int) -> int {
    choose|k: int| 0 <= k <= s.len() && offset(s, k) == b
}

/// The text of `s` before byte offset `b`.
pub open spec fn before(s: Seq<char>, b: int) -> Seq<char> {
    s.take(index_at(s, b))
}

/// The text of `s` from byte offset `b` on.
pub open spec fn after(s: Seq<char>, b: int) -> Seq<char> {
    s.skip(index_at(s, b))
}

/// The text of `s` between byte offsets `a` and `b`.
pub open spec fn between(s: Seq<char>, a: int, b: int) -> Seq<char> {
    s.subrange(index_at(s, a), index_at(s, b))
}

/// Finds the character index at byte offset `b` of `s`.
pub fn index_of_byte(s: &str, b: usize) -> (k: usize)
    requires
        boundary(s@, b as int),
    ensures
        k == index_at(s@, b as int),
        0 <= k <= s@.len(),
{
    let cs = char_indices(s);
    let n = cs.len();
    let mut k: usize = 0;
    while k < n && cs[k].0 != b
        invariant
            n == s@.len(),
            n == cs@.len(),
            k <= n,
            forall|j: int| 0 <= j < k ==> offset(s@, j) != b,
            forall|j: int| 0 <= j < s@.len() ==> #[trigger] cs@[j] == (offset(s@, j) as usize, s@[j]),
            forall|j: int| 0 <= j < s@.len() ==> offset(s@, j) < byte_len(s@),
            byte_len(s@) <= usize::MAX,
        decreases n - k,
    {
        k = k + 1;
    }
    proof {
        let w = choose|j: int| 0 <= j <= s@.len() && offset(s@, j) == b;
        assert(offset(s@, k as int) == b) by {
            if k == n {
                assert(s@.take(n as int) =~= s@);
                assert(w == n);
            }
        }
        if w < k {
            lemma_offset_increasing(s@, w, k as int);
        } else if k < w {
            lemma_offset_increasing(s@, k as int, w);
        }
    }
    k
}

/// Decimal digits of `n`.
pub open spec fn decimal(n: nat) -> Seq<char>
    decreases n,
{
    if n < 10 {
        seq![digit(n)]
    } else {
        decimal(n / 10).push(digit(n % 10))
    }
}

pub open spec fn digit(d: nat) -> char {
    ((d + 48) as u8) as char
}

/// Appends the decimal digits of `n` to `out`.
pub fn push_decimal(out: &mut String, n: u128)
    ensures
        final(out)@ == old(out)@ + decimal(n as nat),
    decreases n,
{
    if n >= 10 {
        push_decimal(out, n / 10);
    }
    let d = (n % 10) as u8;
    push_char(out, (d + 48) as char);
    proof {
        assert(old(out)@ + decimal(n as nat) =~= final(out)@);
    }
}

} // verus!
