use vstd::prelude::*;

use crate::bracket::{bracket_pair, pair_from};
use crate::frame::{entries, front, kills, loop_marker, steps, Effect, Frame, CLOSE, SEMICOLON};
use crate::machine::{advances, continues, lemma_settles_keeps_tables, settles, Action, Machine};
use crate::ops::Reply;
use crate::lexer::{quoted_from, BACKSLASH, QUOTE};
use crate::ops::{
    applies, gives, is_value_op, Outcome, CARET, EQUALS, ONE, PLUS, ZERO,
};
use vstd::utf8::valid_utf8;
use crate::value::{Entry, Val};

verus! {

/// Bytes that a quoted literal reads as themselves: no quote, no backslash.
pub open spec fn plain(s: Seq<u8>) -> bool {
    forall|k: int| 0 <= k < s.len() ==> s[k] != QUOTE && s[k] != BACKSLASH
}

/// A quoted run of plain bytes reads back as those bytes.
pub proof fn lemma_quoted_plain(p: Seq<u8>, i: nat, j: nat)
    requires
        i <= j < p.len(),
        p[j as int] == QUOTE,
        forall|m: int| i <= m < j ==> p[m] != QUOTE && p[m] != BACKSLASH,
    ensures
        quoted_from(p, i, false) == Some((p.subrange(i as int, j as int), j + 1)),
    decreases j - i,
{
    if i < j {
        lemma_quoted_plain(p, i + 1, j);
        assert(seq![p[i as int]] + p.subrange(i as int + 1, j as int) =~= p.subrange(i as int, j as int));
    } else {
        assert(p.subrange(i as int, j as int) =~= Seq::<u8>::empty());
    }
}

/// Evaluating `"s";`, for bytes `s` without quote or backslash, yields the
/// Gestalt `s`: the first step pushes it, the second returns it.
pub proof fn lemma_gestalt_round_trip(s: Seq<u8>, a: Frame, b: Frame, e1: Effect, c: Frame, e2: Effect)
    requires
        plain(s),
        a.program@ == seq![QUOTE] + s + seq![QUOTE, SEMICOLON],
        a.on == 0,
        a.stack@.len() == 0,
        steps(a, b, e1),
        steps(b, c, e2),
    ensures
        e1 is Continue,
        e2 matches Effect::Return(v) && v@ == Val::Gestalt(s),
{
    let p = a.program@;
    let n = s.len();
    assert(p[0] == QUOTE);
    assert(p.subrange(1, n as int + 1) =~= s);
    assert(p[n as int + 1] == QUOTE);
    assert(p[n as int + 2] == SEMICOLON);
    assert forall|m: int| 1 <= m < n + 1 implies p[m] != QUOTE && p[m] != BACKSLASH by {
        assert(p[m] == s[m - 1]);
    }
    lemma_quoted_plain(p, 1, (n + 1) as nat);
    assert(entries(a.stack@) =~= Seq::<Entry>::empty());
    assert(b.on == n + 2);
    assert(entries(b.stack@) =~= seq![Entry::Value(Val::Gestalt(s))]);
    assert(b.program@[b.on as int] == SEMICOLON);
}

/// `+` puts the left operand first: on Gestalts and on Sets the result is the
/// left one followed by the right one.
pub proof fn lemma_plus_keeps_order(l: Val, r: Val, out: Outcome)
    requires
        applies(PLUS, l, r, out),
    ensures
        match (l, r) {
            (Val::Gestalt(x), Val::Gestalt(y)) => valid_utf8(x) && valid_utf8(y) ==> gives(
                out,
                Val::Gestalt(x + y),
            ),
            (Val::List(x), Val::List(y)) => gives(out, Val::List(x + y)),
            _ => true,
        },
{
}

/// A Void operand makes the result Void, for every operator that combines
/// two values but `=`; the one shape that reads a Void is a Set `^` Void,
/// its length.
pub proof fn lemma_void_propagates(op: u8, l: Val, r: Val, out: Outcome)
    requires
        is_value_op(op),
        l is Void || r is Void,
        !(op == CARET && l is List && r is Void),
        applies(op, l, r, out),
    ensures
        gives(out, Val::Void),
{
}

/// `=` holds of two Voids and of nothing else with a Void.
pub proof fn lemma_void_equality(l: Val, r: Val, out: Outcome)
    requires
        l is Void || r is Void,
        applies(EQUALS, l, r, out),
    ensures
        gives(out, Val::Linear(if l is Void && r is Void { ONE } else { ZERO })),
{
}

/// Killing a loop leaves exactly the entries below the loop's own marker.
pub proof fn lemma_kill_leaves_outer_stack(a: Frame, b: Frame, id: usize, on: int, e: Effect)
    requires
        kills(a, b, id, on, e),
        e is Ask,
    ensures
        ({
            let s = entries(a.stack@);
            let j = loop_marker(s, id, s.len() - 1);
            &&& 0 <= j < s.len()
            &&& s[j] == Entry::Loop(id)
            &&& b.stack@.len() == j
            &&& entries(b.stack@) == s.subrange(0, j)
        }),
{
    let s = entries(a.stack@);
    lemma_loop_marker_found(s, id, s.len() - 1);
    assert(entries(b.stack@).len() == b.stack@.len());
}

/// A marker that `loop_marker` finds is the loop's own.
pub proof fn lemma_loop_marker_found(s: Seq<Entry>, id: usize, hi: int)
    requires
        hi <= s.len(),
    ensures
        loop_marker(s, id, hi) >= 0 ==> loop_marker(s, id, hi) < hi && s[loop_marker(s, id, hi)]
            == Entry::Loop(id),
        loop_marker(s, id, hi) >= -1,
    decreases hi,
{
    if hi > 0 && s[hi - 1] != Entry::Loop(id) {
        lemma_loop_marker_found(s, id, hi - 1);
    }
}

/// The matched position lies just past a `}`.
pub proof fn lemma_pair_ends_at_close(p: Seq<u8>, i: nat, depth: nat, quoted: bool, escaped: bool)
    requires
        depth > 0,
        pair_from(p, i, depth, quoted, escaped) is Some,
    ensures
        ({
            let k = pair_from(p, i, depth, quoted, escaped)->0;
            i < k <= p.len() && p[k - 1] == CLOSE
        }),
    decreases p.len() - i,
{
    let b = p[i as int];
    if b == 0x7b && !quoted {
        lemma_pair_ends_at_close(p, i + 1, depth + 1, quoted, false);
    } else if b == 0x7d && !quoted {
        if depth > 1 {
            lemma_pair_ends_at_close(p, i + 1, (depth - 1) as nat, quoted, false);
        }
    } else if b == 0x22 {
        lemma_pair_ends_at_close(p, i + 1, depth, if escaped { quoted } else { !quoted }, false);
    } else if b == 0x5c {
        lemma_pair_ends_at_close(p, i + 1, depth, quoted, !escaped);
    } else {
        lemma_pair_ends_at_close(p, i + 1, depth, quoted, false);
    }
}

/// Braces inside a quoted run are skipped: from a quote that opens at `i`
/// and closes at `j`, with no quote or backslash between, matching goes on
/// from `j + 1` as if the run were not there.
pub proof fn lemma_quoted_braces_ignored(p: Seq<u8>, i: nat, j: nat, depth: nat)
    requires
        i < j < p.len(),
        depth > 0,
        p[i as int] == QUOTE,
        p[j as int] == QUOTE,
        plain(p.subrange(i as int + 1, j as int)),
    ensures
        pair_from(p, i, depth, false, false) == pair_from(p, j + 1, depth, false, false),
{
    assert forall|m: int| i + 1 <= m < j implies p[m] != QUOTE && p[m] != BACKSLASH by {
        assert(p[m] == p.subrange(i as int + 1, j as int)[m - i - 1]);
    }
    lemma_inside_quotes(p, i + 1, j, depth);
}

proof fn lemma_inside_quotes(p: Seq<u8>, k: nat, j: nat, depth: nat)
    requires
        k <= j < p.len(),
        depth > 0,
        p[j as int] == QUOTE,
        forall|m: int| k <= m < j ==> p[m] != QUOTE && p[m] != BACKSLASH,
    ensures
        pair_from(p, k, depth, true, false) == pair_from(p, j + 1, depth, false, false),
    decreases j - k,
{
    if k < j {
        lemma_inside_quotes(p, k + 1, j, depth);
    }
}

/// In particular, the `{...}` region that starts at `start` is matched past
/// quoted braces.
pub proof fn lemma_region_skips_quotes(p: Seq<u8>, start: nat, i: nat, j: nat)
    requires
        start <= i < j < p.len(),
        p[i as int] == QUOTE,
        p[j as int] == QUOTE,
        plain(p.subrange(i as int + 1, j as int)),
        forall|m: int| start <= m < i ==> p[m] != 0x7b && p[m] != 0x7d && p[m] != QUOTE && p[m]
            != BACKSLASH,
    ensures
        bracket_pair(p, start) == pair_from(p, j + 1, 1, false, false),
    decreases i - start,
{
    if start < i {
        lemma_region_skips_quotes(p, start + 1, i, j);
        assert(pair_from(p, start, 1, false, false) == pair_from(p, start + 1, 1, false, false));
    } else {
        lemma_quoted_braces_ignored(p, i, j, 1);
    }
}

/// One move keeps the table of every frame below the running one.
pub proof fn lemma_move_keeps_caller_table(m0: Machine, m: Machine, act: Action, d: int)
    requires
        advances(m0, m, act),
        0 <= d < m0.frames@.len() - 1,
        d < m.frames@.len(),
    ensures
        m.frames@[d].map == m0.frames@[d].map,
{
    let rest = m0.frames@.drop_last();
    if m0.waiting is None {
        let (f, e) = choose|f: Frame, e: Effect|
            steps(m0.frames@.last(), f, e) && settles(rest, f, e, m, act);
        lemma_settles_keeps_tables(rest, f, e, m, act);
    } else {
        let (reply, f, e) = choose|reply: Reply, f: Frame, e: Effect|
            continues(m0.frames@.last(), m0.waiting->0, reply, f, e) && settles(rest, f, e, m, act);
        lemma_settles_keeps_tables(rest, f, e, m, act);
    }
    assert(rest[d] == m0.frames@[d]);
}

/// Names bound by a nested evaluation stay out of its caller's table: over
/// any run of moves during which the frame at depth `d` is not the running
/// one (a jump body or a macro runs above it), its table stays as it was,
/// up to and including the move that returns to it.
pub proof fn lemma_caller_table_kept(ms: Seq<Machine>, acts: Seq<Action>, d: int)
    requires
        ms.len() >= 1,
        acts.len() == ms.len() - 1,
        forall|i: int| 0 <= i < ms.len() - 1 ==> advances(ms[i], #[trigger] ms[i + 1], acts[i]),
        forall|i: int| 0 <= i < ms.len() - 1 ==> #[trigger] ms[i].frames@.len() > d + 1,
        0 <= d < ms.last().frames@.len(),
    ensures
        ms.last().frames@[d].map == ms[0].frames@[d].map,
    decreases ms.len(),
{
    let n = ms.len();
    if n > 1 {
        let prefix = ms.drop_last();
        assert forall|i: int| 0 <= i < prefix.len() - 1 implies advances(
            prefix[i],
            #[trigger] prefix[i + 1],
            acts.drop_last()[i],
        ) by {
            assert(advances(ms[i], ms[i + 1], acts[i]));
        }
        assert forall|i: int| 0 <= i < prefix.len() - 1 implies #[trigger] prefix[i].frames@.len()
            > d + 1 by {
            assert(ms[i].frames@.len() > d + 1);
        }
        assert(ms[n - 2].frames@.len() > d + 1);
        lemma_caller_table_kept(prefix, acts.drop_last(), d);
        let i = n - 2;
        assert(advances(ms[i], ms[i + 1], acts[i]));
        assert(ms[i + 1] == ms.last());
        lemma_move_keeps_caller_table(ms[i], ms[i + 1], acts[i], d);
    }
}

} // verus!
