use qrt::bracket::find_bracket_pair;
use qrt::lexer::{count_lines, find_first, lex_numeral, lex_quoted};
use qrt::ops::{apply, Order, Outcome, Pending, Request, EQUALS, ONE, PLUS, ZERO};
use qrt::table::{bind, get};
use qrt::value::{unpack_operator, Abstract, Binding, Var};

#[test]
fn bracket_pair_plain() {
    assert_eq!(find_bracket_pair(b"{ab}c", 1), Some(4));
    assert_eq!(find_bracket_pair(b"{a{b}c}d", 1), Some(7));
}

#[test]
fn bracket_pair_ignores_quoted_braces() {
    assert_eq!(find_bracket_pair(b"{\"}\"}x", 1), Some(5));
    assert_eq!(find_bracket_pair(b"{\"a\\\"}\"}x", 1), Some(8));
}

#[test]
fn bracket_pair_unclosed() {
    assert_eq!(find_bracket_pair(b"{ab", 1), None);
    assert_eq!(find_bracket_pair(b"{\"}", 1), None);
}

#[test]
fn operator_unpacking() {
    assert_eq!(unpack_operator(&Abstract::Operator(b'+')), Some(b'+'));
    assert_eq!(unpack_operator(&Abstract::Loop(3)), None);
    assert_eq!(unpack_operator(&Abstract::Var(Var::Void)), None);
}

#[test]
fn lexing_helpers() {
    assert_eq!(lex_numeral(b"12.5+", 0), (b"12.5".to_vec(), 4));
    assert_eq!(lex_quoted(b"\"a\\\"b\\\\c\"x", 0), Some((b"a\"b\\c".to_vec(), 9)));
    assert_eq!(lex_quoted(b"\"abc", 0), None);
    assert_eq!(find_first(b"ab!c{", 0, b'{', b'!'), Some(2));
    assert_eq!(count_lines(b"a\nb\nc", 4), 2);
    assert_eq!(count_lines(b"a\nb\nc", 99), 2);
}

#[test]
fn table_binding() {
    let mut m = Vec::new();
    bind(&mut m, b"a".to_vec(), Binding::Value(Var::Linear(1)));
    bind(&mut m, b"b".to_vec(), Binding::Kill(0));
    bind(&mut m, b"a".to_vec(), Binding::Value(Var::Linear(2)));
    assert_eq!(m.len(), 2);
    assert!(matches!(get(&m, b"a"), Some(Binding::Value(Var::Linear(2)))));
    assert!(matches!(get(&m, b"b"), Some(Binding::Kill(0))));
    assert!(get(&m, b"c").is_none());
}

#[test]
fn apply_concatenates_and_compares() {
    match apply(PLUS, Var::Gestalt(b"hel".to_vec()), Var::Gestalt(b"lo".to_vec())) {
        Outcome::Value(Var::Gestalt(g)) => assert_eq!(g, b"hello".to_vec()),
        other => panic!("unexpected {:?}", other),
    }
    match apply(EQUALS, Var::Void, Var::Void) {
        Outcome::Value(Var::Linear(x)) => assert_eq!(x, ONE),
        other => panic!("unexpected {:?}", other),
    }
    match apply(EQUALS, Var::Void, Var::Linear(ONE)) {
        Outcome::Value(Var::Linear(x)) => assert_eq!(x, ZERO),
        other => panic!("unexpected {:?}", other),
    }
    match apply(EQUALS, Var::Linear(ONE), Var::Linear(ZERO)) {
        Outcome::Ask(Request::Compare(a, b), Pending::Holds(Order::Equal)) => {
            assert_eq!((a, b), (ONE, ZERO))
        }
        other => panic!("unexpected {:?}", other),
    }
}
