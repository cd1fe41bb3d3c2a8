use mem3::instrument::analysis::{war_instrument, war_instrument_with, InstrumentError};
use mem3::instrument::places::{ask_stmts, lookup_parse};
use mem3::instrument::syntax::{instrument_fn, FnInstrumentError};
use mem3::instrument::ast::{Term, OutStmt, SaveCall, Statement};

fn c(s: &str) -> Vec<char> {
    s.chars().collect()
}

fn var(n: &str) -> Term {
    Term::Path { ident: Some(c(n)), last: c(n) }
}

fn b(e: Term) -> Box<Term> {
    Box::new(e)
}

fn call(n: &str) -> Statement {
    Statement::Term(Term::Call { callee: b(var(n)) })
}

fn assign(l: Term, r: Term) -> Term {
    Term::Assign { left: b(l), right: b(r) }
}

fn binary(l: Term, r: Term) -> Term {
    Term::Binary { left: b(l), right: b(r) }
}

fn deref(e: Term) -> Term {
    Term::Unary { deref: true, operand: b(e) }
}

fn index(base: Term, i: Term, text: &str) -> Term {
    Term::Index { base: b(base), index: b(i), index_text: c(text) }
}

fn lit() -> Term {
    Term::Other
}

fn keep(i: usize) -> OutStmt {
    OutStmt::Keep(i)
}

fn save(call: SaveCall) -> OutStmt {
    OutStmt::Save(call)
}

/// The example function of the instrumentation crate's runner.
#[test]
fn runner_example_logs_unsafe_static_write() {
    let body = vec![
        Statement::Local,
        Statement::Other,
        Statement::Local,
        Statement::Local,
        Statement::Local,
        Statement::Other,
        Statement::Local,
        Statement::Local,
        call("start_atomic"),
        Statement::Term(assign(var("y"), lit())),
        Statement::Term(assign(deref(var("ptr")), lit())),
        Statement::Term(Term::Unsafe { stmts: vec![Statement::Term(assign(var("a"), binary(var("a"), lit())))] }),
        Statement::Term(assign(index(var("my_array"), binary(var("z"), lit()), "z - 3"), lit())),
        Statement::Term(assign(Term::Field { base: b(var("ss")) }, lit())),
        Statement::Term(assign(index(var("my_array"), lit(), "2"), index(var("my_array"), lit(), "3"))),
        call("end_atomic"),
    ];
    let out = war_instrument(&vec![], &body).unwrap();
    let mut expected: Vec<OutStmt> = (0..11).map(keep).collect();
    expected.push(save(SaveCall::UnsafeReference(c("a"))));
    expected.extend((11..16).map(keep));
    assert_eq!(out, expected);
}

/// The atomic region of the firmware's `update`.
#[test]
fn update_logs_static_and_local() {
    let body = vec![
        Statement::Local,
        call("start_atomic"),
        Statement::Term(Term::Unsafe { stmts: vec![Statement::Term(assign(var("x"), lit()))] }),
        Statement::Term(assign(var("ya"), binary(var("ya"), lit()))),
        call("end_atomic"),
    ];
    let out = war_instrument(&vec![], &body).unwrap();
    assert_eq!(
        out,
        vec![
            keep(0),
            keep(1),
            save(SaveCall::UnsafeReference(c("x"))),
            keep(2),
            save(SaveCall::Reference(c("ya"))),
            keep(3),
            keep(4),
        ]
    );
}

#[test]
fn write_before_read_is_not_logged() {
    let body = vec![call("start_atomic"), Statement::Term(assign(var("y"), lit())), call("end_atomic")];
    let out = war_instrument(&vec![], &body).unwrap();
    assert_eq!(out, vec![keep(0), keep(1), keep(2)]);
}

#[test]
fn variable_is_logged_once() {
    let body = vec![
        call("start_atomic"),
        Statement::Term(assign(var("x"), binary(var("x"), lit()))),
        Statement::Term(assign(var("x"), binary(var("x"), lit()))),
        call("end_atomic"),
    ];
    let out = war_instrument(&vec![], &body).unwrap();
    assert_eq!(out, vec![keep(0), save(SaveCall::Reference(c("x"))), keep(1), keep(2), keep(3)]);
}

#[test]
fn compound_assignment_to_element_logs_the_element() {
    let body = vec![
        call("start_atomic"),
        Statement::Term(binary(index(var("arr"), var("i"), "i"), lit())),
        call("end_atomic"),
    ];
    let out = war_instrument(&vec![], &body).unwrap();
    assert_eq!(out, vec![keep(0), save(SaveCall::Element(c("arr"), c("i"))), keep(1), keep(2)]);
}

#[test]
fn element_index_is_cut_at_the_first_closing_bracket() {
    let nested = index(var("b"), lit(), "1");
    let body = vec![
        call("start_atomic"),
        Statement::Term(binary(index(var("arr"), nested, "b [1]"), lit())),
        call("end_atomic"),
    ];
    let out = war_instrument(&vec![], &body).unwrap();
    assert_eq!(out, vec![keep(0), keep(1), keep(2)]);
}

#[test]
fn element_with_call_index_is_logged_with_parsed_index() {
    let body = vec![
        call("start_atomic"),
        Statement::Term(binary(index(var("arr"), lit(), "f (x)"), lit())),
        call("end_atomic"),
    ];
    let out = war_instrument(&vec![], &body).unwrap();
    assert_eq!(out, vec![keep(0), save(SaveCall::Element(c("arr"), c("f (x)"))), keep(1), keep(2)]);
}

#[test]
fn compound_assignment_through_pointer_logs_the_pointer() {
    let body = vec![call("start_atomic"), Statement::Term(binary(deref(var("p")), lit())), call("end_atomic")];
    let out = war_instrument(&vec![], &body).unwrap();
    assert_eq!(out, vec![keep(0), save(SaveCall::PointerCore(c("p"))), keep(1), keep(2)]);
}

#[test]
fn variables_written_in_some_branches_are_logged() {
    let iff = Term::If {
        then_branch: vec![Statement::Term(assign(var("x"), lit()))],
        else_branch: Some(b(Term::Block { stmts: vec![Statement::Term(assign(var("y"), lit()))] })),
    };
    let body = vec![call("start_atomic"), Statement::Term(iff), call("end_atomic")];
    let out = war_instrument(&vec![], &body).unwrap();
    assert_eq!(
        out,
        vec![
            keep(0),
            save(SaveCall::Reference(c("x"))),
            save(SaveCall::Reference(c("y"))),
            keep(1),
            keep(2),
        ]
    );
}

#[test]
fn variable_written_in_every_branch_is_not_logged() {
    let iff = Term::If {
        then_branch: vec![Statement::Term(assign(var("x"), lit()))],
        else_branch: Some(b(Term::Block { stmts: vec![Statement::Term(assign(var("x"), lit()))] })),
    };
    let body = vec![call("start_atomic"), Statement::Term(iff), call("end_atomic")];
    let out = war_instrument(&vec![], &body).unwrap();
    assert_eq!(out, vec![keep(0), keep(1), keep(2)]);
}

#[test]
fn unsafe_write_through_pointer_fails() {
    let body = vec![
        call("start_atomic"),
        Statement::Term(Term::Unsafe { stmts: vec![Statement::Term(assign(deref(var("p")), lit()))] }),
        call("end_atomic"),
    ];
    assert_eq!(war_instrument(&vec![], &body), Err(InstrumentError::UnnamedUnsafeWrite));
}

#[test]
fn body_without_region_is_unchanged() {
    let body = vec![
        Statement::Local,
        Statement::Term(assign(var("x"), binary(var("x"), lit()))),
        Statement::Term(Term::Unsafe { stmts: vec![Statement::Term(assign(deref(var("p")), lit()))] }),
    ];
    let out = war_instrument(&vec![], &body).unwrap();
    assert_eq!(out, vec![keep(0), keep(1), keep(2)]);
}

#[test]
fn statements_after_the_region_are_unchanged() {
    let body = vec![
        call("start_atomic"),
        call("end_atomic"),
        Statement::Term(assign(var("x"), binary(var("x"), lit()))),
    ];
    let out = war_instrument(&vec![], &body).unwrap();
    assert_eq!(out, vec![keep(0), keep(1), keep(2)]);
}

#[test]
fn signature_reads_count_for_the_region() {
    let pre = vec![var("n")];
    let body = vec![call("start_atomic"), Statement::Term(assign(var("n"), lit())), call("end_atomic")];
    let out = war_instrument(&pre, &body).unwrap();
    assert_eq!(out, vec![keep(0), save(SaveCall::Reference(c("n"))), keep(1), keep(2)]);
}

use mem3::instrument::ast::Place;
use mem3::instrument::places::{places_read, places_written, truncate_index};

#[test]
fn binary_reads_both_sides_and_writes_the_left() {
    let e = binary(var("a"), binary(var("b"), var("a")));
    assert_eq!(places_read(&e), vec![Place::Var(c("a")), Place::Var(c("b"))]);
    assert_eq!(places_written(&e), vec![Place::Var(c("a"))]);
}

#[test]
fn assignment_to_element_writes_element_and_index() {
    let e = assign(index(var("arr"), var("i"), "i"), deref(var("p")));
    assert_eq!(places_read(&e), vec![Place::Deref(c("p"))]);
    assert_eq!(places_written(&e), vec![Place::Elem(c("arr"), c("i")), Place::Var(c("i"))]);
}

#[test]
fn index_text_stops_at_first_closing_bracket() {
    assert_eq!(truncate_index(&c("b [1]")), c("b [1"));
    assert_eq!(truncate_index(&c("z - 3")), c("z - 3"));
    assert_eq!(truncate_index(&c("]")), c(""));
}


fn element_body() -> Vec<Statement> {
    vec![
        call("start_atomic"),
        Statement::Term(binary(index(var("arr"), lit(), "2"), lit())),
        call("end_atomic"),
    ]
}

#[test]
fn element_is_saved_when_its_index_parses() {
    let answers = vec![(c("2"), true)];
    let out = war_instrument_with(&vec![], &element_body(), answers).unwrap();
    assert_eq!(out, vec![keep(0), save(SaveCall::Element(c("arr"), c("2"))), keep(1), keep(2)]);
}

#[test]
fn element_is_dropped_when_its_index_does_not_parse() {
    let answers = vec![(c("2"), false)];
    let out = war_instrument_with(&vec![], &element_body(), answers).unwrap();
    assert_eq!(out, vec![keep(0), keep(1), keep(2)]);
}

#[test]
fn element_is_dropped_when_no_answer_is_given() {
    let out = war_instrument_with(&vec![], &element_body(), vec![]).unwrap();
    assert_eq!(out, vec![keep(0), keep(1), keep(2)]);
}

#[test]
fn last_answer_for_a_text_wins() {
    let table = vec![(c("2"), false), (c("i"), true), (c("2"), true)];
    assert!(lookup_parse(&table, &c("2")));
    assert!(lookup_parse(&table, &c("i")));
    assert!(!lookup_parse(&table, &c("j")));
}

#[test]
fn asking_lists_the_index_texts_in_order() {
    let body = vec![
        Statement::Term(binary(index(var("a"), lit(), "k"), lit())),
        Statement::Term(binary(index(var("b"), lit(), "x [1]"), lit())),
    ];
    let mut table = vec![];
    ask_stmts(&body, &mut table);
    let keys: Vec<Vec<char>> = table.iter().map(|(k, _)| k.clone()).collect();
    assert_eq!(keys, vec![c("k"), c("x [1")]);
    assert!(table[0].1);
    assert!(!table[1].1);
}

#[test]
fn war_instrument_logs_element_with_literal_index() {
    let out = war_instrument(&vec![], &element_body()).unwrap();
    assert_eq!(out, vec![keep(0), save(SaveCall::Element(c("arr"), c("2"))), keep(1), keep(2)]);
}

#[test]
fn pointer_target_is_saved_once_per_region() {
    let body = vec![
        call("start_atomic"),
        Statement::Term(binary(deref(var("p")), lit())),
        Statement::Term(binary(deref(var("p")), lit())),
        call("end_atomic"),
    ];
    let out = war_instrument(&vec![], &body).unwrap();
    assert_eq!(out, vec![keep(0), save(SaveCall::PointerCore(c("p"))), keep(1), keep(2), keep(3)]);
}

#[test]
fn function_text_is_read_and_instrumented() {
    let f = instrument_fn(&c("fn f(p: *mut u32) { start_atomic(); *p += 1; *p += 1; end_atomic(); }")).ok().unwrap();
    assert_eq!(f.body.len(), 4);
    assert_eq!(f.body[1], Statement::Term(binary(deref(var("p")), lit())));
    assert!(f.preamble.is_empty());
    assert_eq!(f.out, vec![keep(0), save(SaveCall::PointerCore(c("p"))), keep(1), keep(2), keep(3)]);
}

#[test]
fn function_text_with_element_write_saves_the_element() {
    let f = instrument_fn(&c("fn g() { start_atomic(); arr[2] += x; end_atomic(); }")).ok().unwrap();
    assert_eq!(f.out, vec![keep(0), save(SaveCall::Element(c("arr"), c("2"))), keep(1), keep(2)]);
}

#[test]
fn signature_expressions_form_the_preamble() {
    let f = instrument_fn(&c("fn h(a: [u8; N]) { start_atomic(); N = 1; end_atomic(); }")).ok().unwrap();
    assert_eq!(f.preamble, vec![var("N")]);
    assert_eq!(f.out, vec![keep(0), save(SaveCall::Reference(c("N"))), keep(1), keep(2)]);
}

#[test]
fn text_that_is_not_a_function_is_refused() {
    let r = instrument_fn(&c("struct S;"));
    assert!(matches!(r, Err(FnInstrumentError::Unparsed(_))));
}

#[test]
fn unsafe_write_through_pointer_in_text_fails() {
    let r = instrument_fn(&c("fn k(p: *mut u8) { start_atomic(); unsafe { *p = 1; } end_atomic(); }"));
    assert!(matches!(r, Err(FnInstrumentError::UnnamedUnsafeWrite)));
}
