use vstd::prelude::*;

use crate::text::check_utf8;
use vstd::utf8::valid_utf8;
use crate::value::{Fault, Val, Var};

verus! {

broadcast use vstd::std_specs::vec::axiom_vec_index_decreases;

pub const PLUS: u8 = 0x2b;
pub const MINUS: u8 = 0x2d;
pub const STAR: u8 = 0x2a;
pub const SLASH: u8 = 0x2f;
pub const CARET: u8 = 0x5e;
pub const AMPERSAND: u8 = 0x26;
pub const PIPE: u8 = 0x7c;
pub const EQUALS: u8 = 0x3d;
pub const GREATER: u8 = 0x3e;
pub const LESS: u8 = 0x3c;
pub const BACKTICK: u8 = 0x60;

/// The bit pattern of the float 1.0: "true".
pub const ONE: u64 = 0x3ff0000000000000;

/// The bit pattern of the float 0.0: "false".
pub const ZERO: u64 = 0;

/// A float operation done by the host on two bit patterns.
#[derive(Debug, Clone, Copy, PartialEq, Eq, Structural)]
pub enum NumOp {
    Add,
    Sub,
    Mul,
    Div,
    Pow,
    Rem,
}

/// How two floats compare; `Unordered` when one is NaN.
#[derive(Debug, Clone, Copy, PartialEq, Eq, Structural)]
pub enum Order {
    Less,
    Equal,
    Greater,
    Unordered,
}

/// Work the evaluator hands to its host.
#[derive(Debug)]
pub enum Request {
    /// Parse bytes as a float: answered by `Reply::Number`, `None` when malformed.
    Parse(Vec<u8>),
    /// Float arithmetic: answered by `Reply::Number`.
    Arith(NumOp, u64, u64),
    /// Float comparison: answered by `Reply::Order`.
    Compare(u64, u64),
    /// The textual form of a float: answered by `Reply::Text`.
    Format(u64),
    /// A float cast to `i64` and then to `usize`: answered by `Reply::Index`.
    Index(u64),
    /// A count as a float: answered by `Reply::Number`.
    Count(usize),
    /// A uniform random float in [0, 1): answered by `Reply::Number`.
    Random,
    /// Read the file at a path: answered by `Reply::File`.
    ReadFile(Vec<u8>),
    /// Overwrite the file at a path, creating it if absent: answered by
    /// `Reply::Written` with the former contents, `None` if it did not exist.
    WriteFile(Vec<u8>, Vec<u8>),
}

/// The host's answer to a `Request`.
#[derive(Debug)]
pub enum Reply {
    Number(Option<u64>),
    Order(Order),
    Text(Vec<u8>),
    Index(usize),
    File(Option<Vec<u8>>),
    Written(Result<Option<Vec<u8>>, Fault>),
}

/// What the evaluator does with the answer to its request.
#[derive(Debug)]
pub enum Pending {
    /// Push the number as a Linear.
    Push,
    /// Add the parsed number to the given one.
    AddParsed(u64),
    /// Append the text to the given Gestalt.
    Append(Vec<u8>),
    /// Push 1.0 when the comparison came out as given, else 0.0.
    Holds(Order),
    /// First operand's truth is known next; then test the second one.
    Truth(bool, u64),
    /// Combine (and when `true`, or when `false`) with the first truth.
    Decide(bool, bool),
    /// Compare the remaining pairs from the given index on.
    AllEqual(Vec<(u64, u64)>, usize),
    /// Remove the element at the index.
    Remove(Var),
    /// Drop the given number of elements at the back.
    Truncate(Var),
    /// Drop the given number of elements at the front.
    Skip(Var),
    /// Take the element at the index.
    Pick(Var),
    /// Continue at the index (loop recursion).
    Goto,
    /// Continue past the region of the loop body starting at the index.
    KillTo,
    /// Enter the conditional body at the given position when positive, else skip it.
    Branch(usize),
    /// Bind the name to the number.
    BindJump(Vec<u8>),
    /// Evaluate the program from the index with the given input.
    Call(Var),
    /// Push the contents read.
    FileRead,
    /// Push the former contents.
    FileWrite,
}

/// The result of applying a binary operator to its two operands.
#[derive(Debug)]
pub enum Outcome {
    Value(Var),
    Ask(Request, Pending),
    Fail(Fault),
}

/// The pairs of Linears that two values hold at the same places, when the two
/// have the same shape and equal Gestalts; `None` otherwise.
pub open spec fn pairs_of(a: Val, b: Val) -> Option<Seq<(u64, u64)>>
    decreases a, 0nat,
{
    match (a, b) {
        (Val::Void, Val::Void) => Some(Seq::empty()),
        (Val::Linear(x), Val::Linear(y)) => Some(seq![(x, y)]),
        (Val::Gestalt(x), Val::Gestalt(y)) => if x == y { Some(Seq::empty()) } else { None },
        (Val::List(xs), Val::List(ys)) => if xs.len() == ys.len() {
            list_pairs(xs, ys, xs.len())
        } else {
            None
        },
        _ => None,
    }
}

/// `pairs_of` over the first `n` elements of two lists.
pub open spec fn list_pairs(xs: Seq<Val>, ys: Seq<Val>, n: nat) -> Option<Seq<(u64, u64)>>
    decreases xs, n,
{
    if n == 0 || n > xs.len() || n > ys.len() {
        Some(Seq::empty())
    } else {
        match (list_pairs(xs, ys, (n - 1) as nat), pairs_of(xs[n - 1], ys[n - 1])) {
            (Some(p), Some(q)) => Some(p + q),
            _ => None,
        }
    }
}

/// Once a prefix of two lists differs in shape, every longer one does.
pub proof fn lemma_list_pairs_fail(xs: Seq<Val>, ys: Seq<Val>, n: nat, m: nat)
    requires
        0 < n <= m <= xs.len(),
        xs.len() == ys.len(),
        list_pairs(xs, ys, n) is None,
    ensures
        list_pairs(xs, ys, m) is None,
    decreases m,
{
    if m > n {
        lemma_list_pairs_fail(xs, ys, n, (m - 1) as nat);
    }
}

/// Appends to `out` the pairs of Linears of `a` and `b`; `false` when their
/// shapes differ.
pub fn collect_pairs(a: &Var, b: &Var, out: &mut Vec<(u64, u64)>) -> (r: bool)
    ensures
        r == pairs_of(a@, b@) is Some,
        r ==> final(out)@ == old(out)@ + pairs_of(a@, b@)->0,
    decreases a,
{
    match (a, b) {
        (Var::Void, Var::Void) => {
            assert(out@ + Seq::<(u64, u64)>::empty() =~= out@);
            true
        },
        (Var::Linear(x), Var::Linear(y)) => {
            out.push((*x, *y));
            true
        },
        (Var::Gestalt(x), Var::Gestalt(y)) => {
            if bytes_equal(x.as_slice(), y.as_slice()) {
                assert(out@ + Seq::<(u64, u64)>::empty() =~= out@);
                true
            } else {
                false
            }
        },
        (Var::List(xs), Var::List(ys)) => {
            if xs.len() != ys.len() {
                return false;
            }
            let ghost start = out@;
            let ghost mx = a@->List_0;
            let ghost my = b@->List_0;
            let mut i: usize = 0;
            while i < xs.len()
                invariant
                    i <= xs.len(),
                    xs.len() == ys.len(),
                    *a == Var::List(*xs),
                    *b == Var::List(*ys),
                    mx == a@->List_0,
                    my == b@->List_0,
                    list_pairs(mx, my, i as nat) is Some,
                    out@ == start + list_pairs(mx, my, i as nat)->0,
                decreases xs.len() - i,
            {
                proof {
                    assert(decreases_to!(*a => (*a)->List_0));
                    assert(decreases_to!(*xs => xs[i as int]));
                    assert(mx[i as int] == xs@[i as int]@);
                    assert(my[i as int] == ys@[i as int]@);
                }
                if !collect_pairs(&xs[i], &ys[i], out) {
                    proof {
                        lemma_list_pairs_fail(mx, my, (i + 1) as nat, mx.len());
                    }
                    return false;
                }
                proof {
                    let p = list_pairs(mx, my, i as nat)->0;
                    let q = pairs_of(mx[i as int], my[i as int])->0;
                    assert(list_pairs(mx, my, (i + 1) as nat) == Some(p + q));
                    assert(out@ =~= start + (p + q));
                }
                i = i + 1;
            }
            true
        },
        _ => false,
    }
}

/// Whether two byte strings are equal.
pub fn bytes_equal(a: &[u8], b: &[u8]) -> (r: bool)
    ensures
        r == (a@ == b@),
{
    if a.len() != b.len() {
        return false;
    }
    let mut i: usize = 0;
    while i < a.len()
        invariant
            i <= a.len(),
            a.len() == b.len(),
            forall|j: int| 0 <= j < i ==> a@[j] == b@[j],
        decreases a.len() - i,
    {
        if a[i] != b[i] {
            return false;
        }
        i = i + 1;
    }
    assert(a@ =~= b@);
    true
}

/// Operators that combine two values into one.
pub open spec fn is_value_op(op: u8) -> bool {
    op == PLUS || op == MINUS || op == STAR || op == SLASH || op == CARET || op == AMPERSAND
        || op == PIPE || op == GREATER || op == LESS || op == BACKTICK
}

/// The fault for operands of the wrong kinds.
pub open spec fn wrong_types(op: u8) -> Fault {
    if op == BACKTICK {
        Fault::InvalidOperatorTypes
    } else {
        Fault::InvalidOperandTypes
    }
}

/// The outcome is the value `v`.
pub open spec fn gives(out: Outcome, v: Val) -> bool {
    out matches Outcome::Value(w) && w@ == v
}

/// The outcome is the fault `f`.
pub open spec fn fails(out: Outcome, f: Fault) -> bool {
    out matches Outcome::Fail(g) && g == f
}

/// The outcome asks for float arithmetic and pushes its result.
pub open spec fn asks_arith(out: Outcome, op: NumOp, a: u64, b: u64) -> bool {
    out matches Outcome::Ask(Request::Arith(o, x, y), Pending::Push) && o == op && x == a && y == b
}

/// The operator asks for the index `b` and then cuts or picks from `l`.
pub open spec fn asks_index(out: Outcome, op: u8, l: Val, b: u64) -> bool {
    &&& op == MINUS || op == GREATER || op == LESS || op == BACKTICK
    &&& out matches Outcome::Ask(Request::Index(x), p) && x == b && match p {
        Pending::Remove(v) => op == MINUS && v@ == l,
        Pending::Truncate(v) => op == GREATER && v@ == l,
        Pending::Skip(v) => op == LESS && v@ == l,
        Pending::Pick(v) => op == BACKTICK && v@ == l,
        _ => false,
    }
}

/// An operator on two Linears.
pub open spec fn linear_rule(op: u8, a: u64, b: u64, out: Outcome) -> bool {
    if op == PLUS {
        asks_arith(out, NumOp::Add, a, b)
    } else if op == MINUS {
        asks_arith(out, NumOp::Sub, a, b)
    } else if op == STAR {
        asks_arith(out, NumOp::Mul, a, b)
    } else if op == SLASH {
        asks_arith(out, NumOp::Div, a, b)
    } else if op == CARET {
        asks_arith(out, NumOp::Pow, a, b)
    } else if op == BACKTICK {
        asks_arith(out, NumOp::Rem, a, b)
    } else if op == AMPERSAND || op == PIPE {
        out matches Outcome::Ask(Request::Compare(x, z), Pending::Truth(conj, y)) && x == a && z
            == ZERO && conj == (op == AMPERSAND) && y == b
    } else {
        out matches Outcome::Ask(Request::Compare(x, y), Pending::Holds(o)) && x == a && y == b
            && o == (if op == GREATER { Order::Greater } else { Order::Less })
    }
}

/// `=`: structural equality; Void equals only Void.
pub open spec fn equality(l: Val, r: Val, out: Outcome) -> bool {
    match (l, r) {
        (Val::Void, Val::Void) => gives(out, Val::Linear(ONE)),
        (Val::Void, _) => gives(out, Val::Linear(ZERO)),
        (_, Val::Void) => gives(out, Val::Linear(ZERO)),
        (Val::Linear(a), Val::Linear(b)) => out matches Outcome::Ask(
            Request::Compare(x, y),
            Pending::Holds(o),
        ) && x == a && y == b && o == Order::Equal,
        (Val::Gestalt(a), Val::Gestalt(b)) => gives(
            out,
            Val::Linear(if a == b { ONE } else { ZERO }),
        ),
        (Val::List(_), Val::List(_)) => match pairs_of(l, r) {
            None => gives(out, Val::Linear(ZERO)),
            Some(ps) => if ps.len() == 0 {
                gives(out, Val::Linear(ONE))
            } else {
                out matches Outcome::Ask(Request::Compare(x, y), Pending::AllEqual(v, k)) && v@
                    == ps && k == 1 && (x, y) == ps[0]
            },
        },
        _ => fails(out, Fault::InvalidOperandTypes),
    }
}

/// What applying the binary operator `op` to `l` and `r` comes to.
pub open spec fn applies(op: u8, l: Val, r: Val, out: Outcome) -> bool {
    if op == EQUALS {
        equality(l, r, out)
    } else if !is_value_op(op) {
        fails(out, Fault::InvalidOperator)
    } else if op == CARET && l is List && r is Void {
        out matches Outcome::Ask(Request::Count(n), Pending::Push) && n == l->List_0.len()
    } else if l is Void || r is Void {
        gives(out, Val::Void)
    } else {
        match (l, r) {
            (Val::Linear(a), Val::Linear(b)) => linear_rule(op, a, b, out),
            (Val::Linear(a), Val::Gestalt(b)) => if op != PLUS {
                fails(out, wrong_types(op))
            } else if !valid_utf8(b) {
                fails(out, Fault::InvalidGestaltBytes)
            } else {
                out matches Outcome::Ask(Request::Parse(t), Pending::AddParsed(x)) && t@ == b && x
                    == a
            },
            (Val::Gestalt(a), Val::Linear(b)) => if op == PLUS {
                if !valid_utf8(a) {
                    fails(out, Fault::InvalidGestaltBytes)
                } else {
                    out matches Outcome::Ask(Request::Format(x), Pending::Append(t)) && x == b
                        && t@ == a
                }
            } else if op == MINUS || op == GREATER || op == LESS || op == BACKTICK {
                asks_index(out, op, l, b)
            } else {
                fails(out, wrong_types(op))
            },
            (Val::Gestalt(a), Val::Gestalt(b)) => if op != PLUS {
                fails(out, wrong_types(op))
            } else if !valid_utf8(a) || !valid_utf8(b) {
                fails(out, Fault::InvalidGestaltBytes)
            } else {
                gives(out, Val::Gestalt(a + b))
            },
            (Val::List(a), Val::Linear(b)) => if op == PLUS {
                gives(out, Val::List(a.push(r)))
            } else if op == MINUS || op == GREATER || op == LESS || op == BACKTICK {
                asks_index(out, op, l, b)
            } else {
                fails(out, wrong_types(op))
            },
            (Val::List(a), Val::Gestalt(_)) => if op == PLUS {
                gives(out, Val::List(a.push(r)))
            } else {
                fails(out, wrong_types(op))
            },
            (Val::List(a), Val::List(b)) => if op == PLUS {
                gives(out, Val::List(a + b))
            } else {
                fails(out, wrong_types(op))
            },
            _ => fails(out, wrong_types(op)),
        }
    }
}

fn wrong_types_of(op: u8) -> (r: Fault)
    ensures
        r == wrong_types(op),
{
    if op == BACKTICK {
        Fault::InvalidOperatorTypes
    } else {
        Fault::InvalidOperandTypes
    }
}

fn concat_bytes(mut a: Vec<u8>, b: Vec<u8>) -> (r: Vec<u8>)
    ensures
        r@ == a@ + b@,
{
    let mut b = b;
    a.append(&mut b);
    a
}

/// `=` on two values.
pub fn equal_values(lhs: Var, rhs: Var) -> (r: Outcome)
    ensures
        equality(lhs@, rhs@, r),
{
    match (&lhs, &rhs) {
        (Var::Void, Var::Void) => Outcome::Value(Var::Linear(ONE)),
        (Var::Void, _) => Outcome::Value(Var::Linear(ZERO)),
        (_, Var::Void) => Outcome::Value(Var::Linear(ZERO)),
        (Var::Linear(a), Var::Linear(b)) => Outcome::Ask(
            Request::Compare(*a, *b),
            Pending::Holds(Order::Equal),
        ),
        (Var::Gestalt(a), Var::Gestalt(b)) => Outcome::Value(
            Var::Linear(
                if bytes_equal(a.as_slice(), b.as_slice()) {
                    ONE
                } else {
                    ZERO
                },
            ),
        ),
        (Var::List(_), Var::List(_)) => {
            let mut ps: Vec<(u64, u64)> = Vec::new();
            if !collect_pairs(&lhs, &rhs, &mut ps) {
                Outcome::Value(Var::Linear(ZERO))
            } else if ps.len() == 0 {
                Outcome::Value(Var::Linear(ONE))
            } else {
                assert(ps@ =~= pairs_of(lhs@, rhs@)->0);
                let first = ps[0];
                Outcome::Ask(Request::Compare(first.0, first.1), Pending::AllEqual(ps, 1))
            }
        },
        _ => Outcome::Fail(Fault::InvalidOperandTypes),
    }
}

fn on_linears(op: u8, a: u64, b: u64) -> (r: Outcome)
    requires
        is_value_op(op),
    ensures
        linear_rule(op, a, b, r),
{
    if op == PLUS {
        Outcome::Ask(Request::Arith(NumOp::Add, a, b), Pending::Push)
    } else if op == MINUS {
        Outcome::Ask(Request::Arith(NumOp::Sub, a, b), Pending::Push)
    } else if op == STAR {
        Outcome::Ask(Request::Arith(NumOp::Mul, a, b), Pending::Push)
    } else if op == SLASH {
        Outcome::Ask(Request::Arith(NumOp::Div, a, b), Pending::Push)
    } else if op == CARET {
        Outcome::Ask(Request::Arith(NumOp::Pow, a, b), Pending::Push)
    } else if op == BACKTICK {
        Outcome::Ask(Request::Arith(NumOp::Rem, a, b), Pending::Push)
    } else if op == AMPERSAND || op == PIPE {
        Outcome::Ask(Request::Compare(a, ZERO), Pending::Truth(op == AMPERSAND, b))
    } else if op == GREATER {
        Outcome::Ask(Request::Compare(a, b), Pending::Holds(Order::Greater))
    } else {
        Outcome::Ask(Request::Compare(a, b), Pending::Holds(Order::Less))
    }
}

/// Asks for the index that `op` cuts or picks `l` at.
fn by_index(op: u8, l: Var, b: u64) -> (r: Outcome)
    ensures
        (op == MINUS || op == GREATER || op == LESS || op == BACKTICK) ==> asks_index(
            r,
            op,
            l@,
            b,
        ),
        !(op == MINUS || op == GREATER || op == LESS || op == BACKTICK) ==> fails(
            r,
            wrong_types(op),
        ),
{
    if op == MINUS {
        Outcome::Ask(Request::Index(b), Pending::Remove(l))
    } else if op == GREATER {
        Outcome::Ask(Request::Index(b), Pending::Truncate(l))
    } else if op == LESS {
        Outcome::Ask(Request::Index(b), Pending::Skip(l))
    } else if op == BACKTICK {
        Outcome::Ask(Request::Index(b), Pending::Pick(l))
    } else {
        Outcome::Fail(wrong_types_of(op))
    }
}

/// Applies a binary operator to its left and right operands.
pub fn apply(op: u8, lhs: Var, rhs: Var) -> (r: Outcome)
    ensures
        applies(op, lhs@, rhs@, r),
{
    if op == EQUALS {
        return equal_values(lhs, rhs);
    }
    if !(op == PLUS || op == MINUS || op == STAR || op == SLASH || op == CARET || op == AMPERSAND
        || op == PIPE || op == GREATER || op == LESS || op == BACKTICK) {
        return Outcome::Fail(Fault::InvalidOperator);
    }
    let ghost l = lhs@;
    let ghost r = rhs@;
    match lhs {
        Var::Void => Outcome::Value(Var::Void),
        Var::Linear(a) => match rhs {
            Var::Void => Outcome::Value(Var::Void),
            Var::Linear(b) => on_linears(op, a, b),
            Var::Gestalt(b) => if op != PLUS {
                Outcome::Fail(wrong_types_of(op))
            } else if !check_utf8(b.as_slice()) {
                Outcome::Fail(Fault::InvalidGestaltBytes)
            } else {
                Outcome::Ask(Request::Parse(b), Pending::AddParsed(a))
            },
            Var::List(_) => Outcome::Fail(wrong_types_of(op)),
        },
        Var::Gestalt(a) => match rhs {
            Var::Void => Outcome::Value(Var::Void),
            Var::Linear(b) => if op == PLUS {
                if !check_utf8(a.as_slice()) {
                    Outcome::Fail(Fault::InvalidGestaltBytes)
                } else {
                    Outcome::Ask(Request::Format(b), Pending::Append(a))
                }
            } else {
                by_index(op, Var::Gestalt(a), b)
            },
            Var::Gestalt(b) => if op != PLUS {
                Outcome::Fail(wrong_types_of(op))
            } else if !check_utf8(a.as_slice()) || !check_utf8(b.as_slice()) {
                Outcome::Fail(Fault::InvalidGestaltBytes)
            } else {
                Outcome::Value(Var::Gestalt(concat_bytes(a, b)))
            },
            Var::List(_) => Outcome::Fail(wrong_types_of(op)),
        },
        Var::List(mut a) => match rhs {
            Var::Void => if op == CARET {
                Outcome::Ask(Request::Count(a.len()), Pending::Push)
            } else {
                Outcome::Value(Var::Void)
            },
            Var::Linear(b) => if op == PLUS {
                a.push(Var::Linear(b));
                let out = Var::List(a);
                proof {
                    assert(out@->List_0 =~= l->List_0.push(r));
                }
                Outcome::Value(out)
            } else {
                by_index(op, Var::List(a), b)
            },
            Var::Gestalt(b) => if op == PLUS {
                a.push(Var::Gestalt(b));
                let out = Var::List(a);
                proof {
                    assert(out@->List_0 =~= l->List_0.push(r));
                }
                Outcome::Value(out)
            } else {
                Outcome::Fail(wrong_types_of(op))
            },
            Var::List(mut b) => if op == PLUS {
                a.append(&mut b);
                let out = Var::List(a);
                proof {
                    assert(out@->List_0 =~= l->List_0 + r->List_0);
                }
                Outcome::Value(out)
            } else {
                Outcome::Fail(wrong_types_of(op))
            },
        },
    }
}

/// 1.0 for true, 0.0 for false.
pub open spec fn truth(b: bool) -> u64 {
    if b {
        ONE
    } else {
        ZERO
    }
}

/// What cutting or picking `v` at index `i` comes to.
pub open spec fn cut_rule(p: Pending, i: usize, out: Outcome) -> bool {
    match p {
        Pending::Remove(v) => match v@ {
            Val::Gestalt(g) => if i < g.len() {
                gives(out, Val::Gestalt(g.remove(i as int)))
            } else {
                fails(out, Fault::IndexOutOfRange(i))
            },
            Val::List(s) => if i < s.len() {
                gives(out, Val::List(s.remove(i as int)))
            } else {
                fails(out, Fault::IndexOutOfRange(i))
            },
            _ => fails(out, Fault::InvalidOperandTypes),
        },
        Pending::Truncate(v) => match v@ {
            Val::Gestalt(g) => if i <= g.len() {
                gives(out, Val::Gestalt(g.subrange(0, g.len() - i)))
            } else {
                fails(out, Fault::IndexOutOfRange(i))
            },
            Val::List(s) => if i <= s.len() {
                gives(out, Val::List(s.subrange(0, s.len() - i)))
            } else {
                fails(out, Fault::IndexOutOfRange(i))
            },
            _ => fails(out, Fault::InvalidOperandTypes),
        },
        Pending::Skip(v) => match v@ {
            Val::Gestalt(g) => if i <= g.len() {
                gives(out, Val::Gestalt(g.subrange(i as int, g.len() as int)))
            } else {
                fails(out, Fault::IndexOutOfRange(i))
            },
            Val::List(s) => if i <= s.len() {
                gives(out, Val::List(s.subrange(i as int, s.len() as int)))
            } else {
                fails(out, Fault::IndexOutOfRange(i))
            },
            _ => fails(out, Fault::InvalidOperandTypes),
        },
        Pending::Pick(v) => match v@ {
            Val::Gestalt(g) => if i < g.len() {
                gives(out, Val::Gestalt(seq![g[i as int]]))
            } else {
                fails(out, Fault::IndexOutOfRange(i))
            },
            Val::List(s) => if i < s.len() {
                gives(out, s[i as int])
            } else {
                fails(out, Fault::IndexOutOfRange(i))
            },
            _ => fails(out, Fault::InvalidOperandTypes),
        },
        _ => false,
    }
}

/// Continuations that end in a value, a further request or a fault.
pub open spec fn is_value_pending(p: Pending) -> bool {
    match p {
        Pending::Push | Pending::AddParsed(_) | Pending::Append(_) | Pending::Holds(_)
        | Pending::Truth(_, _) | Pending::Decide(_, _) | Pending::AllEqual(_, _)
        | Pending::Remove(_) | Pending::Truncate(_) | Pending::Skip(_) | Pending::Pick(_)
        | Pending::FileRead | Pending::FileWrite => true,
        _ => false,
    }
}

/// What the answer `reply` to a request made with continuation `p` comes to.
pub open spec fn resolves(p: Pending, reply: Reply, out: Outcome) -> bool {
    match (p, reply) {
        (Pending::Push, Reply::Number(n)) => match n {
            Some(x) => gives(out, Val::Linear(x)),
            None => fails(out, Fault::MalformedLinear),
        },
        (Pending::AddParsed(a), Reply::Number(n)) => match n {
            Some(x) => asks_arith(out, NumOp::Add, a, x),
            None => fails(out, Fault::NotANumber),
        },
        (Pending::Append(t), Reply::Text(x)) => gives(out, Val::Gestalt(t@ + x@)),
        (Pending::Holds(o), Reply::Order(x)) => gives(out, Val::Linear(truth(x == o))),
        (Pending::Truth(conj, b), Reply::Order(x)) => out matches Outcome::Ask(
            Request::Compare(y, z),
            Pending::Decide(c, t),
        ) && y == b && z == ZERO && c == conj && t == (x == Order::Greater),
        (Pending::Decide(conj, t1), Reply::Order(x)) => {
            let t2 = x == Order::Greater;
            gives(out, Val::Linear(truth(if conj { t1 && t2 } else { t1 || t2 })))
        },
        (Pending::AllEqual(ps, k), Reply::Order(x)) => if x != Order::Equal {
            gives(out, Val::Linear(ZERO))
        } else if k >= ps@.len() {
            gives(out, Val::Linear(ONE))
        } else {
            out matches Outcome::Ask(Request::Compare(y, z), Pending::AllEqual(qs, j)) && qs@
                == ps@ && j == k + 1 && (y, z) == ps@[k as int]
        },
        (Pending::Remove(_), Reply::Index(i)) => cut_rule(p, i, out),
        (Pending::Truncate(_), Reply::Index(i)) => cut_rule(p, i, out),
        (Pending::Skip(_), Reply::Index(i)) => cut_rule(p, i, out),
        (Pending::Pick(_), Reply::Index(i)) => cut_rule(p, i, out),
        (Pending::FileRead, Reply::File(f)) => match f {
            Some(c) => gives(out, Val::Gestalt(c@)),
            None => fails(out, Fault::FileOpen),
        },
        (Pending::FileWrite, Reply::Written(w)) => match w {
            Ok(Some(c)) => gives(out, Val::Gestalt(c@)),
            Ok(None) => gives(out, Val::Void),
            Err(f) => fails(out, f),
        },
        _ => fails(out, Fault::UnexpectedReply),
    }
}

fn cut(p: Pending, i: usize) -> (r: Outcome)
    requires
        p is Remove || p is Truncate || p is Skip || p is Pick,
    ensures
        cut_rule(p, i, r),
{
    let ghost p0 = p;
    match p {
        Pending::Remove(v) => match v {
            Var::Gestalt(mut g) => if i < g.len() {
                g.remove(i);
                Outcome::Value(Var::Gestalt(g))
            } else {
                Outcome::Fail(Fault::IndexOutOfRange(i))
            },
            Var::List(mut s) => if i < s.len() {
                s.remove(i);
                let out = Var::List(s);
                proof {
                    assert(out@->List_0 =~= p0->Remove_0@->List_0.remove(i as int));
                }
                Outcome::Value(out)
            } else {
                Outcome::Fail(Fault::IndexOutOfRange(i))
            },
            _ => Outcome::Fail(Fault::InvalidOperandTypes),
        },
        Pending::Truncate(v) => match v {
            Var::Gestalt(mut g) => if i <= g.len() {
                let n = g.len() - i;
                g.truncate(n);
                Outcome::Value(Var::Gestalt(g))
            } else {
                Outcome::Fail(Fault::IndexOutOfRange(i))
            },
            Var::List(mut s) => if i <= s.len() {
                let n = s.len() - i;
                s.truncate(n);
                let out = Var::List(s);
                proof {
                    let m = p0->Truncate_0@->List_0;
                    assert(out@->List_0 =~= m.subrange(0, m.len() - i));
                }
                Outcome::Value(out)
            } else {
                Outcome::Fail(Fault::IndexOutOfRange(i))
            },
            _ => Outcome::Fail(Fault::InvalidOperandTypes),
        },
        Pending::Skip(v) => match v {
            Var::Gestalt(mut g) => if i <= g.len() {
                let t = g.split_off(i);
                Outcome::Value(Var::Gestalt(t))
            } else {
                Outcome::Fail(Fault::IndexOutOfRange(i))
            },
            Var::List(mut s) => if i <= s.len() {
                let t = s.split_off(i);
                let out = Var::List(t);
                proof {
                    let m = p0->Skip_0@->List_0;
                    assert(out@->List_0 =~= m.subrange(i as int, m.len() as int));
                }
                Outcome::Value(out)
            } else {
                Outcome::Fail(Fault::IndexOutOfRange(i))
            },
            _ => Outcome::Fail(Fault::InvalidOperandTypes),
        },
        Pending::Pick(v) => match v {
            Var::Gestalt(g) => if i < g.len() {
                let mut one: Vec<u8> = Vec::new();
                one.push(g[i]);
                assert(one@ =~= seq![g@[i as int]]);
                Outcome::Value(Var::Gestalt(one))
            } else {
                Outcome::Fail(Fault::IndexOutOfRange(i))
            },
            Var::List(mut s) => if i < s.len() {
                let e = s.swap_remove(i);
                Outcome::Value(e)
            } else {
                Outcome::Fail(Fault::IndexOutOfRange(i))
            },
            _ => Outcome::Fail(Fault::InvalidOperandTypes),
        },
        _ => Outcome::Fail(Fault::InvalidOperandTypes),
    }
}

/// Carries on with the answer to a request whose continuation ends in a value.
pub fn resolve(p: Pending, reply: Reply) -> (r: Outcome)
    requires
        is_value_pending(p),
    ensures
        resolves(p, reply, r),
{
    match (p, reply) {
        (Pending::Push, Reply::Number(n)) => match n {
            Some(x) => Outcome::Value(Var::Linear(x)),
            None => Outcome::Fail(Fault::MalformedLinear),
        },
        (Pending::AddParsed(a), Reply::Number(n)) => match n {
            Some(x) => Outcome::Ask(Request::Arith(NumOp::Add, a, x), Pending::Push),
            None => Outcome::Fail(Fault::NotANumber),
        },
        (Pending::Append(t), Reply::Text(x)) => Outcome::Value(Var::Gestalt(concat_bytes(t, x))),
        (Pending::Holds(o), Reply::Order(x)) => Outcome::Value(
            Var::Linear(
                if x == o {
                    ONE
                } else {
                    ZERO
                },
            ),
        ),
        (Pending::Truth(conj, b), Reply::Order(x)) => Outcome::Ask(
            Request::Compare(b, ZERO),
            Pending::Decide(conj, x == Order::Greater),
        ),
        (Pending::Decide(conj, t1), Reply::Order(x)) => {
            let t2 = x == Order::Greater;
            let t = if conj {
                t1 && t2
            } else {
                t1 || t2
            };
            Outcome::Value(
                Var::Linear(
                    if t {
                        ONE
                    } else {
                        ZERO
                    },
                ),
            )
        },
        (Pending::AllEqual(ps, k), Reply::Order(x)) => if x != Order::Equal {
            Outcome::Value(Var::Linear(ZERO))
        } else if k >= ps.len() {
            Outcome::Value(Var::Linear(ONE))
        } else {
            let next = ps[k];
            Outcome::Ask(Request::Compare(next.0, next.1), Pending::AllEqual(ps, k + 1))
        },
        (Pending::Remove(v), Reply::Index(i)) => cut(Pending::Remove(v), i),
        (Pending::Truncate(v), Reply::Index(i)) => cut(Pending::Truncate(v), i),
        (Pending::Skip(v), Reply::Index(i)) => cut(Pending::Skip(v), i),
        (Pending::Pick(v), Reply::Index(i)) => cut(Pending::Pick(v), i),
        (Pending::FileRead, Reply::File(f)) => match f {
            Some(c) => Outcome::Value(Var::Gestalt(c)),
            None => Outcome::Fail(Fault::FileOpen),
        },
        (Pending::FileWrite, Reply::Written(w)) => match w {
            Ok(Some(c)) => Outcome::Value(Var::Gestalt(c)),
            Ok(None) => Outcome::Value(Var::Void),
            Err(f) => Outcome::Fail(f),
        },
        _ => Outcome::Fail(Fault::UnexpectedReply),
    }
}

} // verus!
