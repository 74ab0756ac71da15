use vstd::prelude::*;

verus! {

broadcast use vstd::std_specs::vec::axiom_vec_index_decreases;

/// A runtime value. A `Linear` holds the IEEE-754 bit pattern of a 64-bit
/// float; all arithmetic on it is done by the host (see `machine`).
#[derive(Debug)]
pub enum Var {
    Void,
    Linear(u64),
    Gestalt(Vec<u8>),
    List(Vec<Var>),
}

/// The mathematical value of a `Var`.
pub enum Val {
    Void,
    Linear(u64),
    Gestalt(Seq<u8>),
    List(Seq<Val>),
}

impl Var {
    /// The mathematical value.
    pub open spec fn model(&self) -> Val
        decreases self,
    {
        match self {
            Var::Void => Val::Void,
            Var::Linear(n) => Val::Linear(*n),
            Var::Gestalt(g) => Val::Gestalt(g@),
            Var::List(s) => Val::List(
                Seq::new(s.len() as nat, |i: int| if 0 <= i < s.len() { s[i].model() } else { Val::Void }),
            ),
        }
    }
}

impl View for Var {
    type V = Val;

    open spec fn view(&self) -> Val {
        self.model()
    }
}

impl Var {
    /// A deep copy of the value.
    pub fn copy(&self) -> (r: Var)
        ensures
            r@ == self@,
        decreases self,
    {
        match self {
            Var::Void => Var::Void,
            Var::Linear(n) => Var::Linear(*n),
            Var::Gestalt(g) => Var::Gestalt(copy_bytes(g.as_slice())),
            Var::List(s) => {
                let mut out: Vec<Var> = Vec::new();
                let mut i: usize = 0;
                while i < s.len()
                    invariant
                        i <= s.len(),
                        *self == Var::List(*s),
                        out@.len() == i,
                        forall|j: int| 0 <= j < i ==> #[trigger] out@[j]@ == s@[j]@,
                    decreases s.len() - i,
                {
                    proof {
                        assert(decreases_to!(*s => s[i as int]));
                        assert(decreases_to!(*self => (*self)->List_0));
                        assert(decreases_to!(*self => s[i as int]));
                    }
                    out.push(s[i].copy());
                    i = i + 1;
                }
                let r = Var::List(out);
                proof {
                    if let Val::List(a) = r@ {
                        if let Val::List(b) = self@ {
                            assert forall|j: int| 0 <= j < a.len() implies a[j] == b[j] by {
                                assert(out@[j]@ == s@[j]@);
                            }
                            assert(a =~= b);
                        }
                    }
                }
                r
            },
        }
    }
}

/// Copies a byte string.
pub fn copy_bytes(b: &[u8]) -> (r: Vec<u8>)
    ensures
        r@ == b@,
{
    let mut out: Vec<u8> = Vec::new();
    let mut i: usize = 0;
    while i < b.len()
        invariant
            i <= b.len(),
            out@ == b@.subrange(0, i as int),
        decreases b.len() - i,
    {
        out.push(b[i]);
        i = i + 1;
    }
    assert(out@ =~= b@);
    out
}

/// An entry of the operand stack.
#[derive(Debug)]
pub enum Abstract {
    Var(Var),
    Operator(u8),
    Loop(usize),
}

/// The mathematical value of a stack entry.
pub enum Entry {
    Value(Val),
    Operator(u8),
    Loop(usize),
}

impl View for Abstract {
    type V = Entry;

    open spec fn view(&self) -> Entry {
        match self {
            Abstract::Var(v) => Entry::Value(v@),
            Abstract::Operator(o) => Entry::Operator(*o),
            Abstract::Loop(k) => Entry::Loop(*k),
        }
    }
}

/// What a name of the variable table is bound to: a value, or the kill
/// handle of a running loop.
#[derive(Debug)]
pub enum Binding {
    Value(Var),
    Kill(usize),
}

/// The mathematical value of a binding.
pub enum Bound {
    Value(Val),
    Kill(usize),
}

impl View for Binding {
    type V = Bound;

    open spec fn view(&self) -> Bound {
        match self {
            Binding::Value(v) => Bound::Value(v@),
            Binding::Kill(k) => Bound::Kill(*k),
        }
    }
}

impl Binding {
    /// A deep copy of the binding.
    pub fn copy(&self) -> (r: Binding)
        ensures
            r@ == self@,
    {
        match self {
            Binding::Value(v) => Binding::Value(v.copy()),
            Binding::Kill(k) => Binding::Kill(*k),
        }
    }
}

/// The operator byte of a pending-operator entry.
pub fn unpack_operator(packed: &Abstract) -> (r: Option<u8>)
    ensures
        r == (match packed@ {
            Entry::Operator(o) => Some(o),
            _ => None,
        }),
{
    match packed {
        Abstract::Operator(o) => Some(*o),
        _ => None,
    }
}

/// Why an evaluation stopped.
#[derive(Debug, Clone, Copy, PartialEq, Eq, Structural)]
pub enum Fault {
    MalformedLinear,
    InvalidGestaltBytes,
    BangInName,
    VariableNotFound,
    InvalidOperandTypes,
    InvalidOperatorTypes,
    InvalidOperator,
    InvalidValueInPlaceOfOperator,
    InvalidConditionType,
    NotANumber,
    FileOpen,
    FileCreate,
    FileRead,
    FileWrite,
    StackUnderrun(usize),
    MissingSetOpen,
    IndexOutOfRange(usize),
    UnexpectedEnd,
    UnexpectedReply,
}

} // verus!
