use vstd::prelude::*;

use crate::bracket::{bracket_pair, find_bracket_pair};
use crate::frame::{entries, failed, moved, same_env, steps, Effect, Frame};
use crate::lexer::{count_lines, newlines};
use crate::ops::{is_value_pending, resolve, resolves, Order, Outcome, Pending, Reply, Request};
use crate::table::{bind, lookup, Table};
use crate::value::{Abstract, Binding, Bound, Entry, Fault, Val, Var};

verus! {

/// How the answer `reply` to a request with continuation `p` carries frame
/// `a` on to `b`.
pub open spec fn continues(a: Frame, p: Pending, reply: Reply, b: Frame, e: Effect) -> bool {
    let prog = a.program@;
    if is_value_pending(p) {
        match e {
            Effect::Continue => {
                &&& b.stack@.len() > 0
                &&& b.stack@.last() is Var
                &&& resolves(p, reply, Outcome::Value(b.stack@.last()->Var_0))
                &&& b.stack@ == a.stack@.push(b.stack@.last())
                &&& same_env(a, b)
                &&& b.map == a.map
                &&& b.next_kill == a.next_kill
                &&& b.on == a.on
            },
            Effect::Ask(q, p2) => resolves(p, reply, Outcome::Ask(q, p2)) && moved(a, b, a.on as int),
            Effect::Fail(f) => resolves(p, reply, Outcome::Fail(f)) && b == a,
            _ => false,
        }
    } else {
        match (p, reply) {
            (Pending::Goto, Reply::Index(i)) => moved(a, b, i as int) && e is Continue,
            (Pending::KillTo, Reply::Index(i)) => match bracket_pair(prog, i as nat) {
                Some(end) => moved(a, b, end as int) && e is Continue,
                None => failed(a, b, e, Fault::UnexpectedEnd),
            },
            (Pending::Branch(body), Reply::Order(o)) => if o == Order::Greater {
                moved(a, b, body as int) && e is Continue
            } else {
                match bracket_pair(prog, body as nat) {
                    Some(end) => moved(a, b, end as int) && e is Continue,
                    None => failed(a, b, e, Fault::UnexpectedEnd),
                }
            },
            (Pending::BindJump(name), Reply::Number(Some(n))) => {
                &&& e is Continue
                &&& same_env(a, b)
                &&& b.stack == a.stack
                &&& b.next_kill == a.next_kill
                &&& b.on == a.on
                &&& forall|q: Seq<u8>|
                    #![auto]
                    lookup(b.map@, q) == if q == name@ {
                        Some(Bound::Value(Val::Linear(n)))
                    } else {
                        lookup(a.map@, q)
                    }
            },
            (Pending::Call(input), Reply::Index(i)) => if i > prog.len() {
                failed(a, b, e, Fault::IndexOutOfRange(i))
            } else {
                &&& moved(a, b, a.on as int)
                &&& e matches Effect::Spawn(body, v) && body@ == prog.subrange(i as int, prog.len() as int)
                    && v == input
            },
            _ => failed(a, b, e, Fault::UnexpectedReply),
        }
    }
}

/// A fresh frame for `program` with `input`, started by the `!` operator
/// whose closing `}` stands at `at`.
pub open spec fn fresh(f: Frame, program: Seq<u8>, input: Val, at: usize) -> bool {
    &&& f.program@ == program
    &&& f.input@ == input
    &&& f.on == 0
    &&& f.stack@.len() == 0
    &&& f.map@.len() == 0
    &&& f.next_kill == 0
    &&& f.called_at == at
}

/// The offsets of the `}` closing each `!` operator that led into frame `f`,
/// called from the frames `rest`: innermost first, one for each frame but the
/// first.
pub open spec fn trail_of(f: Frame, rest: Seq<Frame>) -> Seq<usize> {
    Seq::new(
        rest.len(),
        |i: int|
            if i == 0 {
                f.called_at
            } else {
                rest[rest.len() - i].called_at
            },
    )
}

/// The report of frame `f`, called from the frames `rest`, failing with `x`.
pub open spec fn reports(r: Failure, f: Frame, rest: Seq<Frame>, x: Fault) -> bool {
    &&& r.fault == x
    &&& r.on == f.on
    &&& r.line == newlines(
        f.program@.subrange(0, if f.on <= f.program@.len() { f.on as int } else { f.program@.len() as int }),
    )
    &&& r.stack == f.stack
    &&& r.map == f.map
    &&& r.trail@ == trail_of(f, rest)
}

/// How the machine, whose frames below the running one are `rest` and whose
/// running frame became `f` with effect `e`, comes to be `m` with action `act`.
pub open spec fn settles(rest: Seq<Frame>, f: Frame, e: Effect, m: Machine, act: Action) -> bool {
    match e {
        Effect::Continue => m.frames@ == rest.push(f) && m.waiting is None && act is Continue,
        Effect::Ask(q, p) => m.frames@ == rest.push(f) && m.waiting == Some(p) && act == Action::Ask(
            q,
        ),
        Effect::Fail(x) => m.frames@.len() == 0 && (act matches Action::Done(Err(r)) && reports(
            r,
            f,
            rest,
            x,
        )),
        Effect::Return(v) => if rest.len() == 0 {
            m.frames@.len() == 0 && (act matches Action::Done(Ok(w)) && w == v)
        } else {
            let parent = rest.last();
            let np = m.frames@.last();
            &&& act is Continue
            &&& m.waiting is None
            &&& m.frames@.len() == rest.len()
            &&& m.frames@.drop_last() == rest.drop_last()
            &&& same_env(parent, np)
            &&& entries(np.stack@) == entries(parent.stack@).push(Entry::Value(v@))
            &&& np.map == parent.map
            &&& np.on == parent.on
            &&& np.next_kill == parent.next_kill
        },
        Effect::Spawn(prog, input) => if prog@.len() == usize::MAX {
            m.frames@.len() == 0 && (act matches Action::Done(Err(r)) && reports(
                r,
                f,
                rest,
                Fault::IndexOutOfRange(usize::MAX),
            ))
        } else {
            &&& act is Continue
            &&& m.waiting is None
            &&& m.frames@.len() == rest.len() + 2
            &&& m.frames@.drop_last() == rest.push(f)
            &&& fresh(m.frames@.last(), prog@, input@, if f.on > 0 { (f.on - 1) as usize } else { 0 })
        },
    }
}

/// Settling changes no table of the frames below the running one.
pub proof fn lemma_settles_keeps_tables(rest: Seq<Frame>, f: Frame, e: Effect, m: Machine, act: Action)
    requires
        settles(rest, f, e, m, act),
    ensures
        forall|i: int| 0 <= i < rest.len() && i < m.frames@.len() ==> #[trigger] m.frames@[i].map == rest[i].map,
{
    assert forall|i: int| 0 <= i < rest.len() && i < m.frames@.len() implies #[trigger] m.frames@[i].map == rest[i].map by {
        match e {
            Effect::Return(_) => {
                if i < rest.len() - 1 {
                    assert(m.frames@.drop_last()[i] == m.frames@[i]);
                    assert(rest.drop_last()[i] == rest[i]);
                }
            },
            Effect::Spawn(_, _) => {
                assert(m.frames@.drop_last()[i] == m.frames@[i]);
            },
            _ => {},
        }
    }
}

/// One move of the machine to `m` with action `act`: a step of its running
/// frame, or the carrying on with an answer to its request.
pub open spec fn advances(m0: Machine, m: Machine, act: Action) -> bool {
    ||| (m0.waiting is None && exists|f: Frame, e: Effect|
        steps(m0.frames@.last(), f, e) && settles(m0.frames@.drop_last(), f, e, m, act))
    ||| (m0.waiting is Some && exists|reply: Reply, f: Frame, e: Effect|
        continues(m0.frames@.last(), m0.waiting->0, reply, f, e) && settles(
            m0.frames@.drop_last(),
            f,
            e,
            m,
            act,
        ))
}

/// Frames below the running one keep their tables.
pub open spec fn tables_kept(m0: Machine, m: Machine) -> bool {
    forall|i: int|
        0 <= i < m0.frames@.len() - 1 && i < m.frames@.len() ==> #[trigger] m.frames@[i].map
            == m0.frames@[i].map
}

/// The report of a failed evaluation.
#[derive(Debug)]
pub struct Failure {
    pub fault: Fault,
    /// Byte offset of the failure in the program that failed.
    pub on: usize,
    /// Line feeds before that offset.
    pub line: usize,
    pub stack: Vec<Abstract>,
    pub map: Table,
    /// Offsets of the `}` closing each `!` operator that led into the failing
    /// program, innermost first.
    pub trail: Vec<usize>,
}

/// What the host is to do next.
#[derive(Debug)]
pub enum Action {
    /// Call `step` again.
    Continue,
    /// Do the work and hand the result to `answer`.
    Ask(Request),
    /// The evaluation is over.
    Done(Result<Var, Failure>),
}

/// A running evaluation: the evaluations started by `!` stack up as frames,
/// the last one running.
#[derive(Debug)]
pub struct Machine {
    pub frames: Vec<Frame>,
    pub waiting: Option<Pending>,
}

impl Machine {
    /// The machine can step: it has a frame and waits for no answer.
    pub open spec fn ready(&self) -> bool {
        &&& self.frames@.len() > 0
        &&& self.waiting is None
        &&& forall|i: int| 0 <= i < self.frames@.len() ==> #[trigger] self.frames@[i].wf()
    }

    /// The machine waits for the answer to a request.
    pub open spec fn asking(&self) -> bool {
        &&& self.frames@.len() > 0
        &&& self.waiting is Some
        &&& forall|i: int| 0 <= i < self.frames@.len() ==> #[trigger] self.frames@[i].wf()
    }

    /// Starts evaluating `program` with `input`.
    pub fn new(program: Vec<u8>, input: Var) -> (r: Machine)
        requires
            program@.len() < usize::MAX,
        ensures
            r.ready(),
            r.frames@.len() == 1,
            r.frames@[0].program@ == program@,
            r.frames@[0].input@ == input@,
            r.frames@[0].on == 0,
            r.frames@[0].stack@.len() == 0,
            r.frames@[0].map@.len() == 0,
    {
        let mut frames: Vec<Frame> = Vec::new();
        frames.push(Frame::new(program, input, 0));
        Machine { frames, waiting: None }
    }

    /// Ends the evaluation with a failure of the running frame.
    fn fail(&mut self, f: Frame, fault: Fault) -> (a: Action)
        ensures
            final(self).frames@.len() == 0,
            final(self).waiting is None,
            a matches Action::Done(Err(x)) && reports(x, f, old(self).frames@, fault),
    {
        let ghost rest = self.frames@;
        let line = count_lines(f.program.as_slice(), f.on);
        let mut trail: Vec<usize> = Vec::new();
        let mut called_at = f.called_at;
        while self.frames.len() > 0
            invariant
                rest == old(self).frames@,
                self.frames@ == rest.subrange(0, self.frames@.len() as int),
                trail@.len() + self.frames@.len() == rest.len(),
                called_at == (if self.frames@.len() == rest.len() {
                    f.called_at
                } else {
                    rest[self.frames@.len() as int].called_at
                }),
                forall|i: int| 0 <= i < trail@.len() ==> trail@[i] == #[trigger] trail_of(f, rest)[i],
            decreases self.frames@.len(),
        {
            trail.push(called_at);
            let parent = self.frames.pop().unwrap();
            called_at = parent.called_at;
        }
        assert(trail@ =~= trail_of(f, rest));
        self.waiting = None;
        Action::Done(Err(Failure { fault, on: f.on, line, stack: f.stack, map: f.map, trail }))
    }

    /// Acts on what a step of the running frame `f` led to.
    fn settle(&mut self, f: Frame, e: Effect) -> (a: Action)
        requires
            f.wf(),
            old(self).waiting is None,
            forall|i: int| 0 <= i < old(self).frames@.len() ==> #[trigger] old(self).frames@[i].wf(),
        ensures
            a is Continue ==> final(self).ready(),
            a is Ask ==> final(self).asking(),
            a is Done ==> final(self).frames@.len() == 0,
            settles(old(self).frames@, f, e, *final(self), a),
    {
        match e {
            Effect::Continue => {
                self.frames.push(f);
                Action::Continue
            },
            Effect::Ask(q, p) => {
                self.frames.push(f);
                self.waiting = Some(p);
                Action::Ask(q)
            },
            Effect::Fail(fault) => self.fail(f, fault),
            Effect::Return(v) => {
                match self.frames.pop() {
                    None => Action::Done(Ok(v)),
                    Some(mut parent) => {
                        proof {
                            assert(old(self).frames@[old(self).frames@.len() - 1] == parent);
                            assert(old(self).frames@[old(self).frames@.len() - 1].wf());
                        }
                        parent.push(v);
                        self.frames.push(parent);
                        assert(self.frames@.last().wf());
                        assert(self.frames@.drop_last() =~= old(self).frames@.drop_last());
                        Action::Continue
                    },
                }
            },
            Effect::Spawn(program, input) => {
                if program.len() == usize::MAX {
                    return self.fail(f, Fault::IndexOutOfRange(usize::MAX));
                }
                let at = if f.on > 0 { f.on - 1 } else { 0 };
                self.frames.push(f);
                let ghost with_f = self.frames@;
                let g = Frame::new(program, input, at);
                assert(g.wf());
                self.frames.push(g);
                assert(self.frames@.drop_last() =~= with_f);
                Action::Continue
            },
        }
    }

    /// Carries out one byte of the running frame.
    pub fn step(&mut self) -> (a: Action)
        requires
            old(self).ready(),
        ensures
            a is Continue ==> final(self).ready(),
            a is Ask ==> final(self).asking(),
            a is Done ==> final(self).frames@.len() == 0,
            exists|f: Frame, e: Effect|
                steps(old(self).frames@.last(), f, e) && settles(
                    old(self).frames@.drop_last(),
                    f,
                    e,
                    *final(self),
                    a,
                ),
            tables_kept(*old(self), *final(self)),
            advances(*old(self), *final(self), a),
    {
        let mut f = self.frames.pop().unwrap();
        proof {
            assert(old(self).frames@[old(self).frames@.len() - 1] == f);
        }
        let e = f.step();
        let ghost f1 = f;
        let ghost e1 = e;
        let a = self.settle(f, e);
        assert(steps(old(self).frames@.last(), f1, e1));
        proof {
            lemma_settles_keeps_tables(old(self).frames@.drop_last(), f1, e1, *self, a);
        }
        a
    }

    /// Hands the machine the host's answer to its request.
    pub fn answer(&mut self, reply: Reply) -> (a: Action)
        requires
            old(self).asking(),
        ensures
            a is Continue ==> final(self).ready(),
            a is Ask ==> final(self).asking(),
            a is Done ==> final(self).frames@.len() == 0,
            exists|f: Frame, e: Effect|
                continues(old(self).frames@.last(), old(self).waiting->0, reply, f, e) && settles(
                    old(self).frames@.drop_last(),
                    f,
                    e,
                    *final(self),
                    a,
                ),
            tables_kept(*old(self), *final(self)),
            advances(*old(self), *final(self), a),
    {
        let p = self.waiting.take().unwrap();
        let ghost p0 = p;
        assert(p0 == old(self).waiting->0);
        let mut f = self.frames.pop().unwrap();
        proof {
            assert(old(self).frames@[old(self).frames@.len() - 1] == f);
        }
        let ghost r0 = reply;
        let e = continue_with(&mut f, p, reply);
        let ghost f1 = f;
        let ghost e1 = e;
        let a = self.settle(f, e);
        assert(continues(old(self).frames@.last(), old(self).waiting->0, r0, f1, e1));
        proof {
            lemma_settles_keeps_tables(old(self).frames@.drop_last(), f1, e1, *self, a);
        }
        a
    }
}

/// Carries the frame on with the answer to its request.
pub fn continue_with(f: &mut Frame, p: Pending, reply: Reply) -> (e: Effect)
    requires
        old(f).wf(),
    ensures
        final(f).wf(),
        continues(*old(f), p, reply, *final(f), e),
{
    if is_value_pending_exec(&p) {
        return match resolve(p, reply) {
            Outcome::Value(v) => {
                f.push(v);
                Effect::Continue
            },
            Outcome::Ask(q, p2) => Effect::Ask(q, p2),
            Outcome::Fail(x) => Effect::Fail(x),
        };
    }
    match (p, reply) {
        (Pending::Goto, Reply::Index(i)) => {
            f.on = i;
            Effect::Continue
        },
        (Pending::KillTo, Reply::Index(i)) => match find_bracket_pair(f.program.as_slice(), i) {
            Some(end) => {
                f.on = end;
                Effect::Continue
            },
            None => Effect::Fail(Fault::UnexpectedEnd),
        },
        (Pending::Branch(body), Reply::Order(o)) => {
            if o == Order::Greater {
                f.on = body;
                Effect::Continue
            } else {
                match find_bracket_pair(f.program.as_slice(), body) {
                    Some(end) => {
                        f.on = end;
                        Effect::Continue
                    },
                    None => Effect::Fail(Fault::UnexpectedEnd),
                }
            }
        },
        (Pending::BindJump(name), Reply::Number(Some(n))) => {
            bind(&mut f.map, name, Binding::Value(Var::Linear(n)));
            Effect::Continue
        },
        (Pending::Call(input), Reply::Index(i)) => {
            if i > f.program.len() {
                Effect::Fail(Fault::IndexOutOfRange(i))
            } else {
                let mut body: Vec<u8> = Vec::new();
                let mut k: usize = i;
                while k < f.program.len()
                    invariant
                        i <= k <= f.program@.len(),
                        body@ == f.program@.subrange(i as int, k as int),
                    decreases f.program@.len() - k,
                {
                    body.push(f.program[k]);
                    k = k + 1;
                }
                Effect::Spawn(body, input)
            }
        },
        _ => Effect::Fail(Fault::UnexpectedReply),
    }
}

/// Whether the continuation ends in a value.
fn is_value_pending_exec(p: &Pending) -> (r: bool)
    ensures
        r == is_value_pending(*p),
{
    match p {
        Pending::Goto | Pending::KillTo | Pending::Branch(_) | Pending::BindJump(_) | Pending::Call(_) => false,
        _ => true,
    }
}

} // verus!
