use vstd::prelude::*;

verus! {

pub const QUOTE: u8 = 0x22;
pub const BACKSLASH: u8 = 0x5c;
pub const NEWLINE: u8 = 0x0a;

/// Bytes skipped between tokens: space, CR, LF and DC3.
pub open spec fn is_blank(b: u8) -> bool {
    b == 0x20 || b == 0x13 || b == 0x0d || b == 0x0a
}

/// Bytes of a numeric literal: digits and the dot.
pub open spec fn is_numeral(b: u8) -> bool {
    (0x30 <= b && b <= 0x39) || b == 0x2e
}

/// The first position at or after `i` that holds `a` or `b`.
pub open spec fn first_of(p: Seq<u8>, i: nat, a: u8, b: u8) -> Option<nat>
    decreases p.len() - i,
{
    if i >= p.len() {
        None
    } else if p[i as int] == a || p[i as int] == b {
        Some(i)
    } else {
        first_of(p, i + 1, a, b)
    }
}

/// The end of the run of numeral bytes that starts at `i`.
pub open spec fn numeral_end(p: Seq<u8>, i: nat) -> nat
    decreases p.len() - i,
{
    if i >= p.len() || !is_numeral(p[i as int]) {
        i
    } else {
        numeral_end(p, i + 1)
    }
}

/// The contents of a quoted literal read from `i` on (the opening quote
/// already consumed), with the position just past the closing quote.
/// `escaped` tells whether the byte before `i` was an escaping backslash.
pub open spec fn quoted_from(p: Seq<u8>, i: nat, escaped: bool) -> Option<(Seq<u8>, nat)>
    decreases p.len() - i,
{
    if i >= p.len() {
        None
    } else {
        let b = p[i as int];
        if b == QUOTE && !escaped {
            Some((Seq::empty(), i + 1))
        } else {
            let starts_escape = b == BACKSLASH && !escaped;
            let emitted = if starts_escape { Seq::<u8>::empty() } else { seq![b] };
            match quoted_from(p, i + 1, starts_escape) {
                Some((rest, end)) => Some((emitted + rest, end)),
                None => None,
            }
        }
    }
}

/// The number of line feeds in `s`.
pub open spec fn newlines(s: Seq<u8>) -> nat
    decreases s.len(),
{
    if s.len() == 0 {
        0
    } else {
        newlines(s.drop_last()) + if s.last() == NEWLINE { 1nat } else { 0nat }
    }
}

/// Finds the first position at or after `i` holding `a` or `b`.
pub fn find_first(p: &[u8], i: usize, a: u8, b: u8) -> (r: Option<usize>)
    ensures
        r matches Some(k) ==> first_of(p@, i as nat, a, b) == Some(k as nat),
        r is None ==> first_of(p@, i as nat, a, b) is None,
{
    let mut k: usize = i;
    while k < p.len()
        invariant
            i <= k,
            first_of(p@, k as nat, a, b) == first_of(p@, i as nat, a, b),
        decreases p.len() - k,
    {
        if p[k] == a || p[k] == b {
            return Some(k);
        }
        k = k + 1;
    }
    None
}

/// Reads the numeral bytes from `on` on, with the position after them.
pub fn lex_numeral(p: &[u8], on: usize) -> (r: (Vec<u8>, usize))
    requires
        on <= p@.len(),
    ensures
        r.1 as nat == numeral_end(p@, on as nat),
        r.0@ == p@.subrange(on as int, r.1 as int),
{
    let mut out: Vec<u8> = Vec::new();
    let mut k: usize = on;
    while k < p.len() && ((0x30 <= p[k] && p[k] <= 0x39) || p[k] == 0x2e)
        invariant
            on <= k,
            k <= p.len(),
            numeral_end(p@, k as nat) == numeral_end(p@, on as nat),
            out@ == p@.subrange(on as int, k as int),
        decreases p.len() - k,
    {
        out.push(p[k]);
        k = k + 1;
    }
    (out, k)
}

/// Reads a quoted literal whose opening quote stands at `on`: its contents
/// with escapes resolved, and the position just past the closing quote.
/// `None` when the program ends inside it.
pub fn lex_quoted(p: &[u8], on: usize) -> (r: Option<(Vec<u8>, usize)>)
    requires
        on < p.len(),
    ensures
        r matches Some((c, e)) ==> quoted_from(p@, on as nat + 1, false) == Some((c@, e as nat)),
        r is None ==> quoted_from(p@, on as nat + 1, false) is None,
{
    let mut out: Vec<u8> = Vec::new();
    let mut k: usize = on + 1;
    let mut escaped = false;
    while k < p.len()
        invariant
            on < k,
            k <= p.len(),
            quoted_from(p@, on as nat + 1, false) == (match quoted_from(p@, k as nat, escaped) {
                Some((rest, end)) => Some((out@ + rest, end)),
                None => None,
            }),
        decreases p.len() - k,
    {
        let b = p[k];
        if b == QUOTE && !escaped {
            assert(out@ + Seq::<u8>::empty() =~= out@);
            return Some((out, k + 1));
        }
        let starts_escape = b == BACKSLASH && !escaped;
        proof {
            let emitted = if starts_escape { Seq::<u8>::empty() } else { seq![b] };
            match quoted_from(p@, k as nat + 1, starts_escape) {
                Some((rest, end)) => {
                    assert(out@ + (emitted + rest) =~= (out@ + emitted) + rest);
                },
                None => {},
            }
        }
        if !starts_escape {
            out.push(b);
        } else {
            assert(out@ + Seq::<u8>::empty() =~= out@);
        }
        escaped = starts_escape;
        k = k + 1;
    }
    None
}

/// The number of line feeds before position `on`.
pub fn count_lines(p: &[u8], on: usize) -> (r: usize)
    ensures
        r as nat == newlines(p@.subrange(0, if on <= p@.len() { on as int } else { p@.len() as int })),
{
    let end: usize = if on <= p.len() { on } else { p.len() };
    let mut n: usize = 0;
    let mut k: usize = 0;
    while k < end
        invariant
            k <= end,
            end <= p@.len(),
            n <= k,
            n as nat == newlines(p@.subrange(0, k as int)),
        decreases end - k,
    {
        proof {
            assert(p@.subrange(0, k as int + 1).drop_last() =~= p@.subrange(0, k as int));
        }
        if p[k] == NEWLINE {
            n = n + 1;
        }
        k = k + 1;
    }
    n
}

} // verus!
