use vstd::prelude::*;

use crate::bracket::{bracket_pair, find_bracket_pair};
use crate::lexer::{
    find_first, first_of, is_blank, lex_numeral, lex_quoted, numeral_end, quoted_from, BACKSLASH,
    QUOTE,
};
use crate::ops::{
    applies, apply, is_value_op, Outcome, Pending, Request, AMPERSAND, BACKTICK, CARET, EQUALS,
    GREATER, LESS, MINUS, PIPE, PLUS, SLASH, STAR, ZERO,
};
use crate::table::{bind, get, lookup, unique_keys, Table};
use crate::text::check_utf8;
use vstd::utf8::valid_utf8;
use crate::value::{Abstract, Binding, Bound, Entry, Fault, Val, Var};

verus! {

pub const COMMA: u8 = 0x2c;
pub const SEMICOLON: u8 = 0x3b;
pub const OPEN: u8 = 0x7b;
pub const CLOSE: u8 = 0x7d;
pub const LIST_OPEN: u8 = 0x5b;
pub const LIST_CLOSE: u8 = 0x5d;
pub const NAME_OPEN: u8 = 0x28;
pub const NAME_CLOSE: u8 = 0x29;
pub const HASH: u8 = 0x23;
pub const TILDE: u8 = 0x7e;
pub const COLON: u8 = 0x3a;
pub const QUESTION: u8 = 0x3f;
pub const BANG: u8 = 0x21;
pub const AT: u8 = 0x40;
pub const UNDERSCORE: u8 = 0x5f;
pub const DOLLAR: u8 = 0x24;
pub const PERCENT: u8 = 0x25;

/// One evaluation: a program, its input, its position, its operand stack
/// (the last element is the front) and its variable table.
#[derive(Debug)]
pub struct Frame {
    pub program: Vec<u8>,
    pub on: usize,
    pub input: Var,
    pub stack: Vec<Abstract>,
    pub map: Table,
    pub next_kill: usize,
    /// The offset, in its caller, of the `}` that closes the `!` operator
    /// that started this evaluation.
    pub called_at: usize,
}

/// What one step of a frame leads to.
#[derive(Debug)]
pub enum Effect {
    /// Go on stepping.
    Continue,
    /// The host must answer the request before the frame goes on.
    Ask(Request, Pending),
    /// The evaluation failed.
    Fail(Fault),
    /// The evaluation ended with this value.
    Return(Var),
    /// Evaluate this program with this input, and push its value here.
    Spawn(Vec<u8>, Var),
}

/// The stack seen as mathematical entries, the front last.
pub open spec fn entries(s: Seq<Abstract>) -> Seq<Entry> {
    s.map_values(|a: Abstract| a@)
}

/// The entry at depth `d` (0 is the front).
pub open spec fn front(f: Frame, d: int) -> Entry {
    f.stack@[f.stack@.len() - 1 - d]@
}

/// The program, the input and the caller's position stay as they were.
pub open spec fn same_env(a: Frame, b: Frame) -> bool {
    &&& b.program == a.program
    &&& b.input == a.input
    &&& b.called_at == a.called_at
}

/// Only the position changed, to `on`.
pub open spec fn moved(a: Frame, b: Frame, on: int) -> bool {
    &&& same_env(a, b)
    &&& b.stack == a.stack
    &&& b.map == a.map
    &&& b.next_kill == a.next_kill
    &&& b.on == on
}

/// The stack became `s` and the position `on`; the table stayed.
pub open spec fn restacked(a: Frame, b: Frame, s: Seq<Entry>, on: int) -> bool {
    &&& same_env(a, b)
    &&& entries(b.stack@) == s
    &&& b.map == a.map
    &&& b.next_kill == a.next_kill
    &&& b.on == on
}

/// `v` was pushed and the position moved to `on`.
pub open spec fn pushed(a: Frame, b: Frame, v: Val, on: int) -> bool {
    restacked(a, b, entries(a.stack@).push(Entry::Value(v)), on)
}

/// The step failed with `f`, leaving the frame as it was.
pub open spec fn failed(a: Frame, b: Frame, e: Effect, f: Fault) -> bool {
    &&& e matches Effect::Fail(g) && g == f
    &&& b == a
}

/// The position of the last entry below `hi` that is not a value; -1 if none.
pub open spec fn last_non_value(s: Seq<Entry>, hi: int) -> int
    decreases hi,
{
    if hi <= 0 {
        -1
    } else if s[hi - 1] is Value {
        last_non_value(s, hi - 1)
    } else {
        hi - 1
    }
}

/// The position of the last `Loop(id)` marker below `hi`; -1 if none.
pub open spec fn loop_marker(s: Seq<Entry>, id: usize, hi: int) -> int
    decreases hi,
{
    if hi <= 0 {
        -1
    } else if s[hi - 1] == Entry::Loop(id) {
        hi - 1
    } else {
        loop_marker(s, id, hi - 1)
    }
}

/// The values of a run of value entries.
pub open spec fn values(s: Seq<Entry>) -> Seq<Val> {
    s.map_values(|x: Entry| x->Value_0)
}

/// The evaluation ends with the front value (Void if the front is no value).
pub open spec fn returned(a: Frame, b: Frame, e: Effect) -> bool {
    let s = entries(a.stack@);
    &&& e matches Effect::Return(v) && v@ == (if s.len() > 0 && s.last() is Value {
        s.last()->Value_0
    } else {
        Val::Void
    })
    &&& restacked(a, b, if s.len() > 0 { s.drop_last() } else { s }, a.on as int)
}

/// `]`: the values since the last pending `[` become one list.
pub open spec fn closes_list(a: Frame, b: Frame, e: Effect) -> bool {
    let s = entries(a.stack@);
    let j = last_non_value(s, s.len() as int);
    if j >= 0 && s[j] == Entry::Operator(LIST_OPEN) {
        &&& e is Continue
        &&& restacked(
            a,
            b,
            s.subrange(0, j).push(Entry::Value(Val::List(values(s.subrange(j + 1, s.len() as int))))),
            a.on + 1,
        )
    } else {
        failed(a, b, e, Fault::MissingSetOpen)
    }
}

/// The kill id that follows `k`.
pub open spec fn next_id(k: usize) -> usize {
    if k == usize::MAX {
        0
    } else {
        (k + 1) as usize
    }
}

/// `{`: a loop header matures, a conditional is tested, or nothing happens.
pub open spec fn opens(a: Frame, b: Frame, e: Effect) -> bool {
    let s = entries(a.stack@);
    let n = s.len() as int;
    if n >= 2 && front(a, 1) == Entry::Operator(TILDE) {
        match front(a, 0) {
            Entry::Value(Val::Gestalt(name)) => if !valid_utf8(name) {
                failed(a, b, e, Fault::InvalidGestaltBytes)
            } else {
                &&& same_env(a, b)
                &&& entries(b.stack@) == s.subrange(0, n - 2).push(Entry::Loop(a.next_kill))
                &&& b.next_kill == next_id(a.next_kill)
                &&& b.on == a.on + 1
                &&& forall|q: Seq<u8>|
                    #![auto]
                    lookup(b.map@, q) == if q == name {
                        Some(Bound::Kill(a.next_kill))
                    } else {
                        lookup(a.map@, q)
                    }
                &&& e matches Effect::Ask(Request::Count(x), Pending::Push) && x == a.on + 1
            },
            _ => failed(a, b, e, Fault::InvalidOperandTypes),
        }
    } else if n >= 2 && front(a, 1) == Entry::Operator(QUESTION) {
        match front(a, 0) {
            Entry::Value(Val::Linear(c)) => {
                &&& restacked(a, b, s.subrange(0, n - 2), a.on as int)
                &&& e matches Effect::Ask(Request::Compare(x, z), Pending::Branch(body)) && x == c
                    && z == ZERO && body == a.on + 1
            },
            _ => failed(a, b, e, Fault::InvalidConditionType),
        }
    } else {
        moved(a, b, a.on + 1) && e is Continue
    }
}

/// `#name{` or `~name{`: the operator and the name are pushed.
pub open spec fn heads(a: Frame, b: Frame, e: Effect) -> bool {
    let p = a.program@;
    match first_of(p, (a.on + 1) as nat, OPEN, BANG) {
        None => failed(a, b, e, Fault::UnexpectedEnd),
        Some(k) => if p[k as int] == BANG {
            failed(a, b, e, Fault::BangInName)
        } else {
            &&& e is Continue
            &&& restacked(
                a,
                b,
                entries(a.stack@).push(Entry::Operator(p[a.on as int])).push(
                    Entry::Value(Val::Gestalt(p.subrange(a.on + 1, k as int))),
                ),
                k as int,
            )
        },
    }
}

/// `:name{...}`: the body is skipped, and `name!` will be bound to its start.
pub open spec fn defines(a: Frame, b: Frame, e: Effect) -> bool {
    let p = a.program@;
    match first_of(p, (a.on + 1) as nat, OPEN, BANG) {
        None => failed(a, b, e, Fault::UnexpectedEnd),
        Some(k) => {
            let name = p.subrange(a.on + 1, k as int);
            if p[k as int] == BANG {
                failed(a, b, e, Fault::BangInName)
            } else if !valid_utf8(name) {
                failed(a, b, e, Fault::InvalidGestaltBytes)
            } else {
                match bracket_pair(p, k + 1) {
                    None => failed(a, b, e, Fault::UnexpectedEnd),
                    Some(end) => {
                        &&& moved(a, b, end as int)
                        &&& e matches Effect::Ask(Request::Count(x), Pending::BindJump(key)) && x == k
                            + 1 && key@ == name.push(BANG)
                    },
                }
            }
        },
    }
}

/// Leaving the loop `id`: the stack is cut back to below its marker.
pub open spec fn kills(a: Frame, b: Frame, id: usize, on: int, e: Effect) -> bool {
    let s = entries(a.stack@);
    let j = loop_marker(s, id, s.len() - 1);
    if j < 0 {
        failed(a, b, e, Fault::StackUnderrun(1))
    } else {
        match s[j + 1] {
            Entry::Value(Val::Linear(start)) => {
                &&& restacked(a, b, s.subrange(0, j), on)
                &&& e matches Effect::Ask(Request::Index(x), Pending::KillTo) && x == start
            },
            _ => failed(a, b, e, Fault::InvalidOperandTypes),
        }
    }
}

/// What `name` refers to: its own binding, else that of `name!`.
pub open spec fn resolve_name(m: Seq<(Vec<u8>, Binding)>, name: Seq<u8>) -> Option<Bound> {
    match lookup(m, name) {
        Some(x) => Some(x),
        None => lookup(m, name.push(BANG)),
    }
}

/// `(name)`: pushes the value, or leaves the loop whose kill handle it is.
pub open spec fn refers(a: Frame, b: Frame, e: Effect) -> bool {
    let p = a.program@;
    match first_of(p, (a.on + 1) as nat, NAME_CLOSE, NAME_CLOSE) {
        None => failed(a, b, e, Fault::UnexpectedEnd),
        Some(k) => {
            let name = p.subrange(a.on + 1, k as int);
            if !valid_utf8(name) {
                failed(a, b, e, Fault::InvalidGestaltBytes)
            } else {
                match resolve_name(a.map@, name) {
                    None => failed(a, b, e, Fault::VariableNotFound),
                    Some(Bound::Value(v)) => pushed(a, b, v, (k + 1) as int) && e is Continue,
                    Some(Bound::Kill(id)) => kills(a, b, id, (k + 1) as int, e),
                }
            }
        },
    }
}

/// The fault for a pending operator whose operands are not both values.
pub open spec fn operand_fault(op: u8) -> Fault {
    if op == BACKTICK {
        Fault::InvalidOperatorTypes
    } else if op == BANG || op == AT || op == EQUALS || is_value_op(op) {
        Fault::InvalidOperandTypes
    } else {
        Fault::InvalidOperator
    }
}

/// `}` under a pending operator: applies it to the two entries in front of it.
pub open spec fn operates(a: Frame, b: Frame, op: u8, e: Effect) -> bool {
    let s = entries(a.stack@);
    let n = s.len() as int;
    let base = s.subrange(0, n - 3);
    if op == QUESTION {
        moved(a, b, a.on + 1) && e is Continue
    } else if op == HASH {
        match front(a, 1) {
            Entry::Value(Val::Gestalt(name)) => if !valid_utf8(name) {
                failed(a, b, e, Fault::InvalidGestaltBytes)
            } else {
                let v = match front(a, 0) {
                    Entry::Value(v) => v,
                    _ => Val::Void,
                };
                &&& e is Continue
                &&& same_env(a, b)
                &&& entries(b.stack@) == base
                &&& b.next_kill == a.next_kill
                &&& b.on == a.on + 1
                &&& forall|q: Seq<u8>|
                    #![auto]
                    lookup(b.map@, q) == if q == name {
                        Some(Bound::Value(v))
                    } else {
                        lookup(a.map@, q)
                    }
            },
            _ => failed(a, b, e, Fault::InvalidOperandTypes),
        }
    } else if !(front(a, 0) is Value && front(a, 1) is Value) {
        failed(a, b, e, operand_fault(op))
    } else {
        let l = front(a, 1)->Value_0;
        let r = front(a, 0)->Value_0;
        if op == BANG {
            match l {
                Val::Linear(j) => {
                    &&& restacked(a, b, base, a.on + 1)
                    &&& e matches Effect::Ask(Request::Index(x), Pending::Call(v)) && x == j && v@
                        == r
                },
                Val::Gestalt(g) => {
                    &&& restacked(a, b, base, a.on + 1)
                    &&& e matches Effect::Spawn(prog, v) && prog@ == g && v@ == r
                },
                _ => failed(a, b, e, Fault::InvalidOperandTypes),
            }
        } else if op == AT {
            match (l, r) {
                (Val::Gestalt(path), Val::Void) => if !valid_utf8(path) {
                    failed(a, b, e, Fault::InvalidGestaltBytes)
                } else {
                    &&& restacked(a, b, base, a.on + 1)
                    &&& e matches Effect::Ask(Request::ReadFile(x), Pending::FileRead) && x@ == path
                },
                (Val::Gestalt(path), Val::Gestalt(d)) => if !valid_utf8(path) || !valid_utf8(d) {
                    failed(a, b, e, Fault::InvalidGestaltBytes)
                } else {
                    &&& restacked(a, b, base, a.on + 1)
                    &&& e matches Effect::Ask(Request::WriteFile(x, y), Pending::FileWrite) && x@
                        == path && y@ == d
                },
                _ => failed(a, b, e, Fault::InvalidOperandTypes),
            }
        } else {
            match e {
                Effect::Continue => {
                    &&& b.stack@.len() > 0
                    &&& b.stack@.last() is Var
                    &&& applies(op, l, r, Outcome::Value(b.stack@.last()->Var_0))
                    &&& restacked(a, b, base.push(b.stack@.last()@), a.on + 1)
                },
                Effect::Ask(q, p) => applies(op, l, r, Outcome::Ask(q, p)) && restacked(
                    a,
                    b,
                    base,
                    a.on + 1,
                ),
                Effect::Fail(f) => applies(op, l, r, Outcome::Fail(f)) && restacked(
                    a,
                    b,
                    base,
                    a.on as int,
                ),
                _ => false,
            }
        }
    }
}

/// `}`: recurses a loop, or applies the pending operator.
pub open spec fn closes(a: Frame, b: Frame, e: Effect) -> bool {
    let n = a.stack@.len();
    if n < 2 {
        failed(a, b, e, Fault::StackUnderrun(1))
    } else if front(a, 1) is Loop {
        match front(a, 0) {
            Entry::Value(Val::Linear(start)) => moved(a, b, a.on as int) && (e matches Effect::Ask(
                Request::Index(x),
                Pending::Goto,
            ) && x == start),
            _ => failed(a, b, e, Fault::InvalidOperandTypes),
        }
    } else if n < 3 {
        failed(a, b, e, Fault::StackUnderrun(2))
    } else {
        match front(a, 2) {
            Entry::Operator(op) => operates(a, b, op, e),
            _ => failed(a, b, e, Fault::InvalidValueInPlaceOfOperator),
        }
    }
}

/// One step of an evaluation, by the byte at its position.
pub open spec fn steps(a: Frame, b: Frame, e: Effect) -> bool {
    let p = a.program@;
    let on = a.on as int;
    if on >= p.len() {
        returned(a, b, e)
    } else {
        let c = p[on];
        if is_blank(c) || c == COMMA {
            moved(a, b, on + 1) && e is Continue
        } else if c == BACKSLASH {
            e is Continue && moved(
                a,
                b,
                match first_of(p, (on + 1) as nat, BACKSLASH, BACKSLASH) {
                    Some(k) => (k + 1) as int,
                    None => p.len() as int,
                },
            )
        } else if 0x30 <= c <= 0x39 {
            let end = numeral_end(p, on as nat);
            &&& moved(a, b, end as int)
            &&& e matches Effect::Ask(Request::Parse(d), Pending::Push) && d@ == p.subrange(
                on,
                end as int,
            )
        } else if c == QUOTE {
            match quoted_from(p, (on + 1) as nat, false) {
                Some((t, end)) => pushed(a, b, Val::Gestalt(t), end as int) && e is Continue,
                None => failed(a, b, e, Fault::UnexpectedEnd),
            }
        } else if c == LIST_CLOSE {
            closes_list(a, b, e)
        } else if c == UNDERSCORE {
            pushed(a, b, Val::Void, on + 1) && e is Continue
        } else if c == DOLLAR {
            pushed(a, b, a.input@, on + 1) && e is Continue
        } else if c == PERCENT {
            moved(a, b, on + 1) && (e matches Effect::Ask(Request::Random, Pending::Push))
        } else if c == OPEN {
            opens(a, b, e)
        } else if c == HASH || c == TILDE {
            heads(a, b, e)
        } else if c == COLON {
            defines(a, b, e)
        } else if c == NAME_OPEN {
            refers(a, b, e)
        } else if c == CLOSE {
            closes(a, b, e)
        } else if c == SEMICOLON {
            returned(a, b, e)
        } else {
            e is Continue && restacked(a, b, entries(a.stack@).push(Entry::Operator(c)), on + 1)
        }
    }
}

impl Frame {
    /// A fresh evaluation of `program` with `input`.
    pub fn new(program: Vec<u8>, input: Var, called_at: usize) -> (r: Frame)
        ensures
            r.program@ == program@,
            r.input@ == input@,
            r.on == 0,
            r.stack@.len() == 0,
            r.map@.len() == 0,
            r.next_kill == 0,
            r.called_at == called_at,
    {
        Frame {
            program,
            on: 0,
            input,
            stack: Vec::new(),
            map: Vec::new(),
            next_kill: 0,
            called_at,
        }
    }

    /// The program is short enough for every position past it to fit a
    /// `usize`, and each name stands in the table at most once.
    pub open spec fn wf(&self) -> bool {
        &&& self.program@.len() < usize::MAX
        &&& unique_keys(self.map@)
    }

    /// Pushes a value at the front of the stack.
    pub fn push(&mut self, v: Var)
        ensures
            final(self).stack@ == old(self).stack@.push(Abstract::Var(v)),
            entries(final(self).stack@) == entries(old(self).stack@).push(Entry::Value(v@)),
            final(self).program == old(self).program,
            final(self).on == old(self).on,
            final(self).input == old(self).input,
            final(self).map == old(self).map,
            final(self).next_kill == old(self).next_kill,
            final(self).called_at == old(self).called_at,
    {
        let ghost v0 = v@;
        self.stack.push(Abstract::Var(v));
        assert(entries(self.stack@) =~= entries(old(self).stack@).push(Entry::Value(v0)));
    }

    /// Takes the front of the stack when it is a value, else Void.
    pub fn pop_value(&mut self) -> (r: Var)
        ensures
            old(self).stack@.len() > 0 ==> final(self).stack@ == old(self).stack@.drop_last(),
            old(self).stack@.len() == 0 ==> final(self).stack@ == old(self).stack@,
            old(self).stack@.len() > 0 && old(self).stack@.last() is Var ==> r == old(
                self,
            ).stack@.last()->Var_0,
            !(old(self).stack@.len() > 0 && old(self).stack@.last() is Var) ==> r is Void,
            final(self).program == old(self).program,
            final(self).on == old(self).on,
            final(self).input == old(self).input,
            final(self).map == old(self).map,
            final(self).next_kill == old(self).next_kill,
            final(self).called_at == old(self).called_at,
            entries(final(self).stack@) == if old(self).stack@.len() > 0 {
                entries(old(self).stack@).drop_last()
            } else {
                entries(old(self).stack@)
            },
    {
        let r = match self.stack.pop() {
            Some(Abstract::Var(v)) => v,
            _ => Var::Void,
        };
        proof {
            if old(self).stack@.len() > 0 {
                assert(entries(self.stack@) =~= entries(old(self).stack@).drop_last());
            }
        }
        r
    }

    /// Drops the front `n` entries of the stack.
    fn drop_front(&mut self, n: usize)
        requires
            n <= old(self).stack@.len(),
        ensures
            final(self).stack@ == old(self).stack@.subrange(0, old(self).stack@.len() - n),
            final(self).program == old(self).program,
            final(self).on == old(self).on,
            final(self).input == old(self).input,
            final(self).map == old(self).map,
            final(self).next_kill == old(self).next_kill,
            final(self).called_at == old(self).called_at,
    {
        let mut k: usize = 0;
        while k < n
            invariant
                k <= n,
                n <= old(self).stack@.len(),
                self.stack@ == old(self).stack@.subrange(0, old(self).stack@.len() - k),
                self.program == old(self).program,
                self.on == old(self).on,
                self.input == old(self).input,
                self.map == old(self).map,
                self.next_kill == old(self).next_kill,
                self.called_at == old(self).called_at,
            decreases n - k,
        {
            self.stack.pop();
            k = k + 1;
        }
    }

    /// The name bytes between `from` and `to`.
    fn slice_of(&self, from: usize, to: usize) -> (r: Vec<u8>)
        requires
            from <= to <= self.program@.len(),
        ensures
            r@ == self.program@.subrange(from as int, to as int),
    {
        let mut out: Vec<u8> = Vec::new();
        let mut k: usize = from;
        while k < to
            invariant
                from <= k <= to,
                to <= self.program@.len(),
                out@ == self.program@.subrange(from as int, k as int),
            decreases to - k,
        {
            out.push(self.program[k]);
            k = k + 1;
        }
        out
    }

    /// Reads a header name from `on + 1` up to the next `{` or `!`; returns
    /// the name and the position of the `{`.
    fn header_name(&self) -> (r: Result<(Vec<u8>, usize), Fault>)
        requires
            self.on < self.program@.len(),
            self.wf(),
        ensures
            r matches Ok((name, k)) ==> self.on < k < self.program@.len() && self.program@[k as int]
                == OPEN && name@ == self.program@.subrange(self.on + 1, k as int),
            match first_of(self.program@, (self.on + 1) as nat, OPEN, BANG) {
                None => r matches Err(f) && f == Fault::UnexpectedEnd,
                Some(k) => if self.program@[k as int] == BANG {
                    r matches Err(f) && f == Fault::BangInName
                } else {
                    r matches Ok((name, j)) && j == k
                },
            },
    {
        match find_first(self.program.as_slice(), self.on + 1, OPEN, BANG) {
            None => Err(Fault::UnexpectedEnd),
            Some(k) => {
                proof {
                    lemma_first_of_found(self.program@, (self.on + 1) as nat, OPEN, BANG);
                }
                if self.program[k] == BANG {
                    Err(Fault::BangInName)
                } else {
                    Ok((self.slice_of(self.on + 1, k), k))
                }
            },
        }
    }

    /// `]`: gathers the values pushed since the last `[` into a list.
    fn close_list(&mut self) -> (e: Effect)
        requires
            old(self).on < old(self).program@.len(),
            old(self).wf(),
        ensures
            final(self).wf(),
            final(self).program == old(self).program,
            closes_list(*old(self), *final(self), e),
    {
        let ghost s = entries(self.stack@);
        let j = match last_non_value_of(&self.stack) {
            None => return Effect::Fail(Fault::MissingSetOpen),
            Some(j) => j,
        };
        assert(s[j as int] == self.stack@[j as int]@);
        match &self.stack[j] {
            Abstract::Operator(o) => {
                if *o != LIST_OPEN {
                    return Effect::Fail(Fault::MissingSetOpen);
                }
            },
            _ => return Effect::Fail(Fault::MissingSetOpen),
        }
        let mut items: Vec<Var> = Vec::new();
        while self.stack.len() > j + 1
            invariant
                s == entries(old(self).stack@),
                j < self.stack@.len() <= s.len(),
                j == last_non_value(s, s.len() as int),
                self.stack@ == old(self).stack@.subrange(0, self.stack@.len() as int),
                items@.len() + self.stack@.len() == s.len(),
                forall|i: int| 0 <= i < items@.len() ==> s[s.len() - 1 - i] == Entry::Value(#[trigger] items@[i]@),
                same_env(*old(self), *self),
                self.map == old(self).map,
                self.next_kill == old(self).next_kill,
                self.on == old(self).on,
            decreases self.stack@.len(),
        {
            let ghost l = self.stack@.len();
            proof {
                lemma_above_last_non_value(s, s.len() as int, l - 1);
                assert(s[l - 1] == self.stack@[l - 1]@);
            }
            match self.stack.pop() {
                Some(Abstract::Var(v)) => items.push(v),
                _ => return Effect::Fail(Fault::MissingSetOpen),
            }
        }
        self.stack.pop();
        let list = reversed(items);
        let ghost vals = values(s.subrange(j + 1, s.len() as int));
        let out = Var::List(list);
        proof {
            assert forall|i: int| 0 <= i < vals.len() implies out@->List_0[i] == vals[i] by {
                let m = items@.len();
                assert(list@[i] == items@[m - 1 - i]);
                assert(s[s.len() - 1 - (m - 1 - i)] == Entry::Value(items@[m - 1 - i]@));
            }
            assert(out@->List_0 =~= vals);
        }
        self.push(out);
        assert(entries(self.stack@) =~= s.subrange(0, j as int).push(Entry::Value(Val::List(vals))));
        self.on = self.on + 1;
        Effect::Continue
    }

    /// `{`: matures a loop header, gates a conditional, or just moves on.
    fn open_brace(&mut self) -> (e: Effect)
        requires
            old(self).on < old(self).program@.len(),
            old(self).wf(),
        ensures
            final(self).wf(),
            final(self).program == old(self).program,
            opens(*old(self), *final(self), e),
    {
        let ghost s = entries(self.stack@);
        let n = self.stack.len();
        if n >= 2 {
            assert(front(*self, 1) == self.stack@[n - 2]@);
            assert(front(*self, 0) == self.stack@[n - 1]@);
            if let Abstract::Operator(o) = &self.stack[n - 2] {
                let o = *o;
                if o == TILDE {
                    let name = match &self.stack[n - 1] {
                        Abstract::Var(Var::Gestalt(g)) => crate::value::copy_bytes(g.as_slice()),
                        _ => return Effect::Fail(Fault::InvalidOperandTypes),
                    };
                    if !check_utf8(name.as_slice()) {
                        return Effect::Fail(Fault::InvalidGestaltBytes);
                    }
                    self.drop_front(2);
                    let k = self.next_kill;
                    bind(&mut self.map, name, Binding::Kill(k));
                    self.stack.push(Abstract::Loop(k));
                    assert(entries(self.stack@) =~= s.subrange(0, n - 2).push(Entry::Loop(k)));
                    self.next_kill = if k == usize::MAX {
                        0
                    } else {
                        k + 1
                    };
                    self.on = self.on + 1;
                    return Effect::Ask(Request::Count(self.on), Pending::Push);
                } else if o == QUESTION {
                    let c = match &self.stack[n - 1] {
                        Abstract::Var(Var::Linear(c)) => *c,
                        _ => return Effect::Fail(Fault::InvalidConditionType),
                    };
                    self.drop_front(2);
                    assert(entries(self.stack@) =~= s.subrange(0, n - 2));
                    return Effect::Ask(Request::Compare(c, ZERO), Pending::Branch(self.on + 1));
                }
            }
        }
        self.on = self.on + 1;
        Effect::Continue
    }

    /// `(name)` bound to a kill handle: unwinds to the loop and leaves it,
    /// going on at `next`.
    fn kill(&mut self, k: usize, next: usize) -> (e: Effect)
        ensures
            kills(*old(self), *final(self), k, next as int, e),
    {
        let ghost s = entries(self.stack@);
        let j = match loop_marker_of(&self.stack, k) {
            None => return Effect::Fail(Fault::StackUnderrun(1)),
            Some(j) => j,
        };
        let n = self.stack.len();
        assert(j + 1 < n);
        assert(s[j + 1] == self.stack@[j + 1]@);
        let start = match &self.stack[j + 1] {
            Abstract::Var(Var::Linear(x)) => *x,
            _ => return Effect::Fail(Fault::InvalidOperandTypes),
        };
        self.drop_front(n - j);
        assert(entries(self.stack@) =~= s.subrange(0, j as int));
        self.on = next;
        Effect::Ask(Request::Index(start), Pending::KillTo)
    }

    /// `}`: recurses a loop or applies the pending operator.
    fn close_brace(&mut self) -> (e: Effect)
        requires
            old(self).on < old(self).program@.len(),
            old(self).wf(),
        ensures
            final(self).wf(),
            final(self).program == old(self).program,
            closes(*old(self), *final(self), e),
    {
        let ghost s = entries(self.stack@);
        let n = self.stack.len();
        if n < 2 {
            return Effect::Fail(Fault::StackUnderrun(1));
        }
        assert(front(*self, 0) == self.stack@[n - 1]@);
        assert(front(*self, 1) == self.stack@[n - 2]@);
        if let Abstract::Loop(_) = &self.stack[n - 2] {
            return match &self.stack[n - 1] {
                Abstract::Var(Var::Linear(x)) => Effect::Ask(Request::Index(*x), Pending::Goto),
                _ => Effect::Fail(Fault::InvalidOperandTypes),
            };
        }
        if n < 3 {
            return Effect::Fail(Fault::StackUnderrun(2));
        }
        assert(front(*self, 2) == self.stack@[n - 3]@);
        let op = match &self.stack[n - 3] {
            Abstract::Operator(o) => *o,
            _ => return Effect::Fail(Fault::InvalidValueInPlaceOfOperator),
        };
        if op == QUESTION {
            self.on = self.on + 1;
            return Effect::Continue;
        }
        if op == HASH {
            let name = match &self.stack[n - 2] {
                Abstract::Var(Var::Gestalt(g)) => crate::value::copy_bytes(g.as_slice()),
                _ => return Effect::Fail(Fault::InvalidOperandTypes),
            };
            if !check_utf8(name.as_slice()) {
                return Effect::Fail(Fault::InvalidGestaltBytes);
            }
            let ghost a = *self;
            assert(self.stack@.last() == self.stack@[n - 1]);
            let v = self.pop_value();
            assert(v@ == match front(a, 0) {
                Entry::Value(x) => x,
                _ => Val::Void,
            });
            self.drop_front(2);
            assert(entries(self.stack@) =~= s.subrange(0, n - 3));
            bind(&mut self.map, name, Binding::Value(v));
            self.on = self.on + 1;
            return Effect::Continue;
        }
        if !(matches!(self.stack[n - 1], Abstract::Var(_)) && matches!(self.stack[n - 2], Abstract::Var(_))) {
            return Effect::Fail(operand_fault_of(op));
        }
        if op == BANG {
            let target_ok = matches!(self.stack[n - 2], Abstract::Var(Var::Linear(_)) | Abstract::Var(Var::Gestalt(_)));
            if !target_ok {
                return Effect::Fail(Fault::InvalidOperandTypes);
            }
            assert(self.stack@.last() == self.stack@[n - 1]);
            let input = self.pop_value();
            assert(self.stack@.last() == self.stack@[n - 2]);
            let target = self.pop_value();
            self.drop_front(1);
            assert(entries(self.stack@) =~= s.subrange(0, n - 3));
            self.on = self.on + 1;
            return match target {
                Var::Linear(j) => Effect::Ask(Request::Index(j), Pending::Call(input)),
                Var::Gestalt(g) => Effect::Spawn(g, input),
                _ => Effect::Fail(Fault::InvalidOperandTypes),
            };
        }
        if op == AT {
            let shape = match (&self.stack[n - 2], &self.stack[n - 1]) {
                (Abstract::Var(Var::Gestalt(p)), Abstract::Var(Var::Void)) => {
                    if check_utf8(p.as_slice()) {
                        1u8
                    } else {
                        3u8
                    }
                },
                (Abstract::Var(Var::Gestalt(p)), Abstract::Var(Var::Gestalt(d))) => {
                    if check_utf8(p.as_slice()) && check_utf8(d.as_slice()) {
                        2u8
                    } else {
                        3u8
                    }
                },
                _ => 0u8,
            };
            if shape == 0 {
                return Effect::Fail(Fault::InvalidOperandTypes);
            } else if shape == 3 {
                return Effect::Fail(Fault::InvalidGestaltBytes);
            }
            assert(self.stack@.last() == self.stack@[n - 1]);
            let data = self.pop_value();
            assert(self.stack@.last() == self.stack@[n - 2]);
            let path = self.pop_value();
            self.drop_front(1);
            assert(entries(self.stack@) =~= s.subrange(0, n - 3));
            self.on = self.on + 1;
            return match (path, data) {
                (Var::Gestalt(p), Var::Gestalt(d)) => Effect::Ask(Request::WriteFile(p, d), Pending::FileWrite),
                (Var::Gestalt(p), _) => Effect::Ask(Request::ReadFile(p), Pending::FileRead),
                _ => Effect::Fail(Fault::InvalidOperandTypes),
            };
        }
        assert(self.stack@.last() == self.stack@[n - 1]);
        let rhs = self.pop_value();
        assert(self.stack@.last() == self.stack@[n - 2]);
        let lhs = self.pop_value();
        self.drop_front(1);
        assert(entries(self.stack@) =~= s.subrange(0, n - 3));
        match apply(op, lhs, rhs) {
            Outcome::Value(v) => {
                self.on = self.on + 1;
                self.push(v);
                assert(entries(self.stack@) =~= s.subrange(0, n - 3).push(self.stack@.last()@));
                Effect::Continue
            },
            Outcome::Ask(q, p) => {
                self.on = self.on + 1;
                Effect::Ask(q, p)
            },
            Outcome::Fail(f) => Effect::Fail(f),
        }
    }

    /// Carries out the byte at the current position.
    pub fn step(&mut self) -> (e: Effect)
        requires
            old(self).wf(),
        ensures
            final(self).wf(),
            steps(*old(self), *final(self), e),
    {
        let len = self.program.len();
        if self.on >= len {
            return Effect::Return(self.pop_value());
        }
        let b = self.program[self.on];
        if b == 0x20 || b == 0x13 || b == 0x0d || b == 0x0a || b == COMMA {
            self.on = self.on + 1;
            Effect::Continue
        } else if b == BACKSLASH {
            match find_first(self.program.as_slice(), self.on + 1, BACKSLASH, BACKSLASH) {
                Some(k) => {
                    proof {
                        lemma_first_of_found(self.program@, (self.on + 1) as nat, BACKSLASH, BACKSLASH);
                    }
                    self.on = k + 1;
                },
                None => self.on = len,
            }
            Effect::Continue
        } else if 0x30 <= b && b <= 0x39 {
            let (digits, end) = lex_numeral(self.program.as_slice(), self.on);
            self.on = end;
            Effect::Ask(Request::Parse(digits), Pending::Push)
        } else if b == QUOTE {
            match lex_quoted(self.program.as_slice(), self.on) {
                Some((text, end)) => {
                    self.push(Var::Gestalt(text));
                    self.on = end;
                    Effect::Continue
                },
                None => Effect::Fail(Fault::UnexpectedEnd),
            }
        } else if b == LIST_CLOSE {
            self.close_list()
        } else if b == UNDERSCORE {
            self.push(Var::Void);
            self.on = self.on + 1;
            Effect::Continue
        } else if b == DOLLAR {
            let v = self.input.copy();
            self.push(v);
            self.on = self.on + 1;
            Effect::Continue
        } else if b == PERCENT {
            self.on = self.on + 1;
            Effect::Ask(Request::Random, Pending::Push)
        } else if b == OPEN {
            self.open_brace()
        } else if b == HASH || b == TILDE {
            match self.header_name() {
                Err(f) => Effect::Fail(f),
                Ok((name, k)) => {
                    let ghost s0 = entries(self.stack@);
                    self.stack.push(Abstract::Operator(b));
                    assert(entries(self.stack@) =~= s0.push(Entry::Operator(b)));
                    self.push(Var::Gestalt(name));
                    self.on = k;
                    Effect::Continue
                },
            }
        } else if b == COLON {
            match self.header_name() {
                Err(f) => Effect::Fail(f),
                Ok((name, k)) => {
                    if !check_utf8(name.as_slice()) {
                        return Effect::Fail(Fault::InvalidGestaltBytes);
                    }
                    let mut key = name;
                    key.push(BANG);
                    match find_bracket_pair(self.program.as_slice(), k + 1) {
                        None => Effect::Fail(Fault::UnexpectedEnd),
                        Some(end) => {
                            self.on = end;
                            Effect::Ask(Request::Count(k + 1), Pending::BindJump(key))
                        },
                    }
                },
            }
        } else if b == NAME_OPEN {
            match find_first(self.program.as_slice(), self.on + 1, NAME_CLOSE, NAME_CLOSE) {
                None => Effect::Fail(Fault::UnexpectedEnd),
                Some(k) => {
                    proof {
                        lemma_first_of_found(self.program@, (self.on + 1) as nat, NAME_CLOSE, NAME_CLOSE);
                    }
                    let name = self.slice_of(self.on + 1, k);
                    if !check_utf8(name.as_slice()) {
                        return Effect::Fail(Fault::InvalidGestaltBytes);
                    }
                    let found = match get(&self.map, name.as_slice()) {
                        Some(v) => Some(v),
                        None => {
                            let mut jump = name;
                            jump.push(BANG);
                            get(&self.map, jump.as_slice())
                        },
                    };
                    match found {
                        None => Effect::Fail(Fault::VariableNotFound),
                        Some(Binding::Kill(id)) => self.kill(id, k + 1),
                        Some(Binding::Value(v)) => {
                            self.push(v);
                            self.on = k + 1;
                            Effect::Continue
                        },
                    }
                },
            }
        } else if b == CLOSE {
            self.close_brace()
        } else if b == SEMICOLON {
            Effect::Return(self.pop_value())
        } else {
            let ghost s0 = entries(self.stack@);
            self.stack.push(Abstract::Operator(b));
            assert(entries(self.stack@) =~= s0.push(Entry::Operator(b)));
            self.on = self.on + 1;
            Effect::Continue
        }
    }
}

/// A position that `first_of` finds lies in the program and holds one of the two bytes.
pub proof fn lemma_first_of_found(p: Seq<u8>, i: nat, a: u8, b: u8)
    ensures
        first_of_found(p, i, a, b),
    decreases p.len() - i,
{
    if i < p.len() && !(p[i as int] == a || p[i as int] == b) {
        lemma_first_of_found(p, i + 1, a, b);
    }
}

/// What `first_of` finds lies at or after `i` and holds `a` or `b`.
pub open spec fn first_of_found(p: Seq<u8>, i: nat, a: u8, b: u8) -> bool {
    crate::lexer::first_of(p, i, a, b) matches Some(k) ==> i <= k < p.len() && (p[k as int] == a
        || p[k as int] == b)
}

/// Entries above the last non-value entry are values.
pub proof fn lemma_above_last_non_value(s: Seq<Entry>, hi: int, i: int)
    requires
        hi <= s.len(),
        last_non_value(s, hi) < i < hi,
    ensures
        s[i] is Value,
    decreases hi,
{
    if hi > 0 && s[hi - 1] is Value && i < hi - 1 {
        lemma_above_last_non_value(s, hi - 1, i);
    }
}

/// The position of the last entry that is not a value.
fn last_non_value_of(st: &Vec<Abstract>) -> (r: Option<usize>)
    ensures
        r matches Some(j) ==> j < st@.len() && j == last_non_value(entries(st@), st@.len() as int),
        r is None ==> last_non_value(entries(st@), st@.len() as int) == -1,
{
    let ghost s = entries(st@);
    let mut k: usize = st.len();
    while k > 0 && matches!(st[k - 1], Abstract::Var(_))
        invariant
            s == entries(st@),
            k <= st@.len(),
            last_non_value(s, st@.len() as int) == last_non_value(s, k as int),
        decreases k,
    {
        assert(s[k - 1] == st@[k - 1]@);
        k = k - 1;
    }
    if k == 0 {
        None
    } else {
        assert(s[k - 1] == st@[k - 1]@);
        Some(k - 1)
    }
}

fn operand_fault_of(op: u8) -> (r: Fault)
    ensures
        r == operand_fault(op),
{
    if op == BACKTICK {
        Fault::InvalidOperatorTypes
    } else if op == BANG || op == AT || op == EQUALS || op == PLUS || op == MINUS || op == STAR
        || op == SLASH || op == CARET || op == AMPERSAND || op == PIPE || op == GREATER || op
        == LESS {
        Fault::InvalidOperandTypes
    } else {
        Fault::InvalidOperator
    }
}

/// The position of the marker of loop `k` that the front of the stack is
/// in: the last one below the front entry.
fn loop_marker_of(st: &Vec<Abstract>, k: usize) -> (r: Option<usize>)
    ensures
        r matches Some(j) ==> j + 1 < st@.len() && j == loop_marker(entries(st@), k, st@.len() - 1),
        r is None ==> loop_marker(entries(st@), k, st@.len() - 1) < 0,
{
    let ghost s = entries(st@);
    if st.len() < 2 {
        return None;
    }
    let mut h: usize = st.len() - 1;
    while h > 0
        invariant
            s == entries(st@),
            h < st@.len(),
            loop_marker(s, k, st@.len() - 1) == loop_marker(s, k, h as int),
        decreases h,
    {
        assert(s[h - 1] == st@[h - 1]@);
        if let Abstract::Loop(j) = &st[h - 1] {
            if *j == k {
                return Some(h - 1);
            }
        }
        h = h - 1;
    }
    None
}

/// The items in reverse order.
pub fn reversed(items: Vec<Var>) -> (r: Vec<Var>)
    ensures
        r@ == items@.reverse(),
{
    let mut items = items;
    let mut out: Vec<Var> = Vec::new();
    let ghost orig = items@;
    while items.len() > 0
        invariant
            orig == items@ + out@.reverse(),
        decreases items@.len(),
    {
        let ghost before = items@;
        let x = items.pop().unwrap();
        proof {
            assert(before == items@.push(x));
        }
        out.push(x);
        proof {
            assert(out@.reverse() =~= seq![x] + out@.drop_last().reverse());
        }
    }
    assert(out@.reverse().reverse() =~= out@);
    out
}

} // verus!
