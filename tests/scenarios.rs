use qrt::machine::{Action, Failure, Machine};
use qrt::ops::{NumOp, Order, Reply, Request};
use qrt::value::{Fault, Var};

/// Answers a request; `draws` counts the random numbers handed out, so that
/// each draw differs from the one before.
fn host(q: Request, draws: &mut u64) -> Reply {
    match q {
        Request::Parse(b) => Reply::Number(
            String::from_utf8(b)
                .ok()
                .and_then(|s| s.parse::<f64>().ok())
                .map(f64::to_bits),
        ),
        Request::Arith(op, a, b) => {
            let (a, b) = (f64::from_bits(a), f64::from_bits(b));
            let r = match op {
                NumOp::Add => a + b,
                NumOp::Sub => a - b,
                NumOp::Mul => a * b,
                NumOp::Div => a / b,
                NumOp::Pow => a.powf(b),
                NumOp::Rem => a % b,
            };
            Reply::Number(Some(r.to_bits()))
        }
        Request::Compare(a, b) => Reply::Order(
            match f64::from_bits(a).partial_cmp(&f64::from_bits(b)) {
                Some(std::cmp::Ordering::Less) => Order::Less,
                Some(std::cmp::Ordering::Equal) => Order::Equal,
                Some(std::cmp::Ordering::Greater) => Order::Greater,
                None => Order::Unordered,
            },
        ),
        Request::Format(a) => Reply::Text(format!("{}", f64::from_bits(a)).into_bytes()),
        Request::Index(a) => Reply::Index(f64::from_bits(a) as i64 as usize),
        Request::Count(n) => Reply::Number(Some((n as f64).to_bits())),
        Request::Random => {
            *draws += 1;
            Reply::Number(Some((1.0 / (*draws as f64 + 1.0)).to_bits()))
        }
        Request::ReadFile(_) => Reply::File(None),
        Request::WriteFile(_, _) => Reply::Written(Err(Fault::FileCreate)),
    }
}

fn run(program: &[u8], input: Var) -> Result<Var, Failure> {
    let mut m = Machine::new(program.to_vec(), input);
    let mut draws: u64 = 0;
    let mut a = m.step();
    loop {
        a = match a {
            Action::Continue => m.step(),
            Action::Ask(q) => m.answer(host(q, &mut draws)),
            Action::Done(r) => return r,
        };
    }
}

fn lin(x: f64) -> Var {
    Var::Linear(x.to_bits())
}

fn ges(s: &str) -> Var {
    Var::Gestalt(s.as_bytes().to_vec())
}

fn check(program: &[u8], expected: Var) {
    match run(program, lin(42.0)) {
        Ok(v) => assert_eq!(format!("{:?}", v), format!("{:?}", expected)),
        Err(f) => panic!("failed: {:?}", f),
    }
}

fn fault_of(program: &[u8]) -> Fault {
    match run(program, lin(42.0)) {
        Ok(v) => panic!("no failure: {:?}", v),
        Err(f) => f.fault,
    }
}

#[test]
fn comments() {
    check(b"\\hello world\\2", lin(2.0));
}

#[test]
fn linear_literal() {
    check(b"3141.5926", lin(3141.5926));
}

#[test]
fn gestalt_literal() {
    check(b"\"hello world\"", ges("hello world"));
}

#[test]
fn set_literal() {
    check(
        b"[3141.5926, \"hello world\", [42, \"42\"]];",
        Var::List(vec![lin(3141.5926), ges("hello world"), Var::List(vec![lin(42.0), ges("42")])]),
    );
}

#[test]
fn void_literal() {
    check(b"_", Var::Void);
}

#[test]
fn input_literal() {
    check(b"$", lin(42.0));
}

#[test]
fn random_literal() {
    check(b"=%{%}", lin(0.0));
}

#[test]
fn linear_linear_addition() {
    check(b"+2{2};", lin(4.0));
}

#[test]
fn gestalt_to_linear_coercion() {
    check(b"+0{\"2\"}", lin(2.0));
}

#[test]
fn linear_to_gestalt_concatenation() {
    check(b"+\"\"{2}", ges("2"));
}

#[test]
fn gestalt_concatenation() {
    check(b"+\"2\"{\"2\"}", ges("22"));
}

#[test]
fn set_linear_appending() {
    check(b"+[3]{2}", Var::List(vec![lin(3.0), lin(2.0)]));
}

#[test]
fn set_gestalt_appending() {
    check(b"+[3]{\"2\"}", Var::List(vec![lin(3.0), ges("2")]));
}

#[test]
fn set_concatenation() {
    check(b"+[1,2]{[3,4]}", Var::List(vec![lin(1.0), lin(2.0), lin(3.0), lin(4.0)]));
}

#[test]
fn subtraction() {
    check(b"-3{2}", lin(1.0));
}

#[test]
fn gestalt_removal() {
    check(b"-\"123\"{2};", ges("12"));
}

#[test]
fn set_removal() {
    check(b"-[1,2,3]{2}", Var::List(vec![lin(1.0), lin(2.0)]));
}

#[test]
fn multiplication() {
    check(b"*3{2}", lin(6.0));
}

#[test]
fn division() {
    check(b"/3{2}", lin(1.5));
}

#[test]
fn exponentiation() {
    check(b"^3{2}", lin(9.0));
}

#[test]
fn set_length() {
    check(b"^[1,2,3]{_};", lin(3.0));
}

#[test]
fn and() {
    check(b"[&0.0{0.0}, &1.0{0.0}, &1.0{1.0}]", Var::List(vec![lin(0.0), lin(0.0), lin(1.0)]));
}

#[test]
fn or() {
    check(b"[|0.0{0.0}, |1.0{0.0}, |1.0{1.0}]", Var::List(vec![lin(0.0), lin(1.0), lin(1.0)]));
}

#[test]
fn void_equality() {
    check(b"=_{_};", lin(1.0));
    check(b"=_{1};", lin(0.0));
    check(b"[=_{_}, =1{_}]", Var::List(vec![lin(1.0), lin(0.0)]));
}

#[test]
fn linear_equality() {
    check(b"[=1{1}, =0{1}]", Var::List(vec![lin(1.0), lin(0.0)]));
}

#[test]
fn gestalt_equality() {
    check(b"[=\"a\"{\"a\"}, =\"a\"{\"b\"}]", Var::List(vec![lin(1.0), lin(0.0)]));
}

#[test]
fn set_equality() {
    check(
        b"[=[1,2,3]{[1,2,3]}, =[1,2,3]{[4,5,6]}, =[1,2,3]{[1,2]}]",
        Var::List(vec![lin(1.0), lin(0.0), lin(0.0)]),
    );
}

#[test]
fn greater_than() {
    check(b"[>1{0}, >0{1}]", Var::List(vec![lin(1.0), lin(0.0)]));
}

#[test]
fn gestalt_front_trim() {
    check(b">\"hello\"{1}", ges("hell"));
}

#[test]
fn set_front_trim() {
    check(b">[1,2,3]{1};", Var::List(vec![lin(1.0), lin(2.0)]));
}

#[test]
fn less_than() {
    check(b"[<1{0}, <0{1}]", Var::List(vec![lin(0.0), lin(1.0)]));
}

#[test]
fn gestalt_back_trim() {
    check(b"<\"hello\"{1}", ges("ello"));
}

#[test]
fn set_back_trim() {
    check(b"<[1,2,3]{1};", Var::List(vec![lin(2.0), lin(3.0)]));
}

#[test]
fn assignment_and_aliases() {
    check(b"#me{2}(me)", lin(2.0));
}

#[test]
fn evaluate_jump() {
    check(b":plusone{+${1};}!(plusone!){1};", lin(2.0));
}

#[test]
fn evaluate_macro() {
    check(b"!\"+${1}\"{1}", lin(2.0));
}

#[test]
fn evaluate_recursion() {
    check(
        b"
            :unit{
                ?=${0}{0;}
                +!0{-${1}}{1};
            }
            !(unit!){16};",
        lin(16.0),
    );
}

#[test]
fn looping() {
    check(b"#a{0} ~kill{ ?=(a){16}{(kill)} #a{+(a){1}} } (a);", lin(16.0));
}

#[test]
fn modulus() {
    check(b"`9{2};", lin(1.0));
}

#[test]
fn gestalt_access() {
    check(b"`\"hello\"{3}", ges("l"));
}

#[test]
fn set_access() {
    check(b"`[1,2,3]{1}", lin(2.0));
}

#[test]
fn gestalt_concatenation_keeps_order() {
    check(b"+\"hel\"{\"lo\"};", ges("hello"));
    check(b"+\"lo\"{\"hel\"};", ges("lohel"));
}

#[test]
fn void_propagates() {
    check(b"[+_{1}, -1{_}, *_{_}, /_{2}, &1{_}, |_{1}, >_{1}, <1{_}, `_{1}, ^2{_}]", Var::List(vec![
        Var::Void, Var::Void, Var::Void, Var::Void, Var::Void,
        Var::Void, Var::Void, Var::Void, Var::Void, Var::Void,
    ]));
}

#[test]
fn jump_bindings_stay_inside() {
    check(b":f{#inner{5} (inner);} !(f!){0};", lin(5.0));
    assert_eq!(fault_of(b":f{#inner{5} (inner);} !(f!){0} #x{(inner)}"), Fault::VariableNotFound);
}

#[test]
fn macro_bindings_stay_inside() {
    assert_eq!(fault_of(b"!\"#m{1} (m);\"{0} (m)"), Fault::VariableNotFound);
}

#[test]
fn quoted_braces_are_skipped() {
    check(b"?0{\"}{\"} 7;", lin(7.0));
}

#[test]
fn malformed_linear() {
    assert_eq!(fault_of(b"1.2.3"), Fault::MalformedLinear);
}

#[test]
fn bang_in_name() {
    assert_eq!(fault_of(b"#a!b{1}"), Fault::BangInName);
}

#[test]
fn invalid_operand_types() {
    assert_eq!(fault_of(b"*\"a\"{1}"), Fault::InvalidOperandTypes);
}

#[test]
fn invalid_operator_types() {
    assert_eq!(fault_of(b"`\"a\"{\"b\"}"), Fault::InvalidOperatorTypes);
}

#[test]
fn invalid_operator() {
    assert_eq!(fault_of(b"a1{2}"), Fault::InvalidOperator);
}

#[test]
fn invalid_value_in_place_of_operator() {
    assert_eq!(fault_of(b"1 2 3}"), Fault::InvalidValueInPlaceOfOperator);
}

#[test]
fn stack_underrun() {
    assert_eq!(fault_of(b"}"), Fault::StackUnderrun(1));
}

#[test]
fn missing_set_open() {
    assert_eq!(fault_of(b"1 2]"), Fault::MissingSetOpen);
}

#[test]
fn index_out_of_range() {
    assert_eq!(fault_of(b"`[1]{3}"), Fault::IndexOutOfRange(3));
}

#[test]
fn not_a_number() {
    assert_eq!(fault_of(b"+1{\"x\"}"), Fault::NotANumber);
}

#[test]
fn file_failure_is_reported() {
    assert_eq!(fault_of(b"@\"missing\"{_}"), Fault::FileOpen);
}

#[test]
fn error_reports_line() {
    let f = run(b"1\n2\n}", lin(0.0)).err().unwrap();
    assert_eq!(f.line, 2);
    assert_eq!(f.on, 4);
}

#[test]
fn trailing_comment_ends_program() {
    check(b"5 \\ never closed", lin(5.0));
}

#[test]
fn gestalt_round_trip() {
    check(b"\"plain text 123\";", ges("plain text 123"));
}

#[test]
fn set_concatenation_keeps_order() {
    check(b"+[2]{[1]};", Var::List(vec![lin(2.0), lin(1.0)]));
}

#[test]
fn nested_loops_kill_inner_only() {
    check(
        b"#i{0} #n{0} ~outer{ ?=(i){3}{(outer)} #i{+(i){1}} ~inner{ #n{+(n){1}} (inner) } } [(i), (n)];",
        Var::List(vec![lin(3.0), lin(3.0)]),
    );
}

#[test]
fn loop_leaves_stack_below() {
    check(b"[7 ~k{ (k) } 8];", Var::List(vec![lin(7.0), lin(8.0)]));
}

#[test]
fn invalid_gestalt_bytes() {
    assert_eq!(fault_of(b"+\"\xff\"{\"a\"}"), Fault::InvalidGestaltBytes);
    check(b"+\"\xc3\xa9\"{\"a\"};", Var::Gestalt(vec![0xc3, 0xa9, b'a']));
}

#[test]
fn invalid_condition_type() {
    assert_eq!(fault_of(b"?\"a\"{1}"), Fault::InvalidConditionType);
}

#[test]
fn unexpected_end() {
    assert_eq!(fault_of(b"\"abc"), Fault::UnexpectedEnd);
    assert_eq!(fault_of(b":f{1"), Fault::UnexpectedEnd);
}

#[test]
fn stack_underrun_below_operator() {
    assert_eq!(fault_of(b"1 2}"), Fault::StackUnderrun(2));
}

#[test]
fn unexpected_reply() {
    let mut m = Machine::new(b"1".to_vec(), Var::Void);
    match m.step() {
        Action::Ask(Request::Parse(d)) => assert_eq!(d, b"1".to_vec()),
        other => panic!("unexpected {:?}", other),
    }
    match m.answer(Reply::Text(Vec::new())) {
        Action::Done(Err(f)) => assert_eq!(f.fault, Fault::UnexpectedReply),
        other => panic!("unexpected {:?}", other),
    }
}

#[test]
fn conditional_false_skips_body() {
    check(b"?0{5} 6;", lin(6.0));
    check(b"?1{5;}", lin(5.0));
}

#[test]
fn alias_falls_back_to_jump() {
    check(b":f{$;} !(f){3};", lin(3.0));
}

#[test]
fn nested_error_keeps_trail() {
    let f = run(b"!\"}\"{1}", lin(0.0)).err().unwrap();
    assert_eq!(f.fault, Fault::StackUnderrun(1));
    assert_eq!(f.trail, vec![6]);
}

#[test]
fn linear_plus_and_times_commute() {
    check(b"+3.5{4};", lin(7.5));
    check(b"+4{3.5};", lin(7.5));
    check(b"*3.5{4};", lin(14.0));
    check(b"*4{3.5};", lin(14.0));
}

#[test]
fn gestalt_and_set_plus_keep_lhs_outer() {
    check(b"+\"ab\"{\"c\"};", ges("abc"));
    check(b"+\"c\"{\"ab\"};", ges("cab"));
    check(b"+[1]{[2]};", Var::List(vec![lin(1.0), lin(2.0)]));
    check(b"+[2]{[1]};", Var::List(vec![lin(2.0), lin(1.0)]));
}

#[test]
fn loop_kill_restores_outer_stack() {
    check(
        b"[7 #c{0} ~k{#c{+(c){1}} ?=(c){3}{(k)}} (c)];",
        Var::List(vec![lin(7.0), lin(3.0)]),
    );
}

#[test]
fn macro_binding_absent_from_caller_table() {
    let f = run(b"!\"#z{5}0;\"{_}(z);", lin(42.0)).err().unwrap();
    assert_eq!(f.fault, Fault::VariableNotFound);
    assert!(f.map.iter().all(|(name, _)| name != b"z"));
}

#[test]
fn failure_keeps_frame_state() {
    let f = run(b"1 (x)", lin(0.0)).err().unwrap();
    assert_eq!(f.fault, Fault::VariableNotFound);
    assert_eq!(f.on, 2);
    assert_eq!(f.stack.len(), 1);
    let g = run(b"\n*\"a\"{1}", lin(0.0)).err().unwrap();
    assert_eq!(g.fault, Fault::InvalidOperandTypes);
    assert_eq!(g.on, 7);
    assert_eq!(g.line, 1);
    assert!(g.trail.is_empty());
}
