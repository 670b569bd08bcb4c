use meirgeach::atom::{Atom, Builtin, Error, Lambda, ParseError};
use meirgeach::env::{create_env, env_add, env_get, Env};
use meirgeach::evaluate::{eval, parse_eval, run_forms};
use meirgeach::parse::{atomise, parse};
use meirgeach::token::tokenise;

const FUEL: u64 = 200;

fn run(code: &str, env: &mut Env) -> Result<Atom, Error> {
    let mut out: Vec<String> = Vec::new();
    parse_eval(code, env, &mut out, true, FUEL)
}

fn run_fresh(code: &str) -> Result<Atom, Error> {
    let mut env = create_env();
    run(code, &mut env)
}

fn expect_number(r: Result<Atom, Error>) -> i64 {
    match r {
        Ok(Atom::Number(n)) => n,
        other => panic!("expected a number, got {:?}", other),
    }
}

fn expect_bool(r: Result<Atom, Error>) -> bool {
    match r {
        Ok(Atom::Bool(b)) => b,
        other => panic!("expected a boolean, got {:?}", other),
    }
}

#[test]
fn arithmetic_sum() {
    assert_eq!(expect_number(run_fresh("(+ 1 2 3)")), 6);
}

#[test]
fn arithmetic_sub() {
    assert_eq!(expect_number(run_fresh("(- 10 2 3)")), 5);
}

#[test]
fn arithmetic_mul() {
    assert_eq!(expect_number(run_fresh("(* 2 3 4)")), 24);
}

#[test]
fn arithmetic_div() {
    assert_eq!(expect_number(run_fresh("(/ 100 2 5)")), 10);
}

#[test]
fn unary_minus_subtracts_nothing() {
    assert_eq!(expect_number(run_fresh("(- 5)")), 5);
}

#[test]
fn comparison_greater() {
    assert!(expect_bool(run_fresh("(> 3 2)")));
    assert!(!expect_bool(run_fresh("(< 3 2)")));
}

#[test]
fn boolean_connectives() {
    assert!(expect_bool(run_fresh("(agus (níl #níl) #tá)")));
    assert!(!expect_bool(run_fresh("(agus #tá #níl)")));
}

#[test]
fn list_head_of_cons() {
    assert_eq!(expect_number(run_fresh("(ceann (cons 1 (athfhriotal (2 3))))")), 1);
}

#[test]
fn list_length() {
    assert_eq!(expect_number(run_fresh("(fad (athfhriotal (1 2 3)))")), 3);
}

#[test]
fn empty_list_predicate() {
    assert!(expect_bool(run_fresh("(folamh? (athfhriotal ()))")));
}

#[test]
fn list_tail() {
    let r = run_fresh("(fad (tóin (athfhriotal (1 2 3))))");
    assert_eq!(expect_number(r), 2);
}

#[test]
fn quote_shorthand() {
    assert_eq!(expect_number(run_fresh("(' 5)")), 5);
}

#[test]
fn define_and_apply() {
    let mut env = create_env();
    run("(sainigh square (lambda (x) (* x x)))", &mut env).unwrap();
    assert_eq!(expect_number(run("(square 5)", &mut env)), 25);
}

#[test]
fn closure_sees_later_global_bindings() {
    // The call frame chains to the caller's environment, not to an
    // environment captured at definition time, so a binding added to
    // the global frame after the definition is visible at the call.
    let mut env = create_env();
    run("(sainigh f (lambda (x) (+ x y)))", &mut env).unwrap();
    run("(sainigh y 10)", &mut env).unwrap();
    assert_eq!(expect_number(run("(f 1)", &mut env)), 11);
}

#[test]
fn arity_mismatch_leaves_environment_intact() {
    let mut env = create_env();
    run("(sainigh kept 7)", &mut env).unwrap();
    run("(sainigh one (lambda (x) x))", &mut env).unwrap();
    let r = run("(one 1 2)", &mut env);
    assert!(matches!(r, Err(Error::ArityMismatch)));
    assert_eq!(expect_number(run("kept", &mut env)), 7);
}

#[test]
fn unbound_symbol_leaves_bindings_intact() {
    let mut env = create_env();
    run("(sainigh kept 7)", &mut env).unwrap();
    let r = run("nothing_here", &mut env);
    assert!(matches!(r, Err(Error::UnboundSymbol)));
    assert_eq!(expect_number(run("kept", &mut env)), 7);
}

#[test]
fn evaluation_is_idempotent_on_values() {
    let mut env = create_env();
    let mut out: Vec<String> = Vec::new();
    let r = eval(&Atom::Number(42), &mut env, &mut out, FUEL);
    assert!(matches!(r, Ok(Atom::Number(42))));
    let r = eval(&Atom::Bool(true), &mut env, &mut out, FUEL);
    assert!(matches!(r, Ok(Atom::Bool(true))));
    let r = eval(&Atom::Func(Builtin::Add), &mut env, &mut out, FUEL);
    assert!(matches!(r, Ok(Atom::Func(Builtin::Add))));
    let lam = Atom::Lambda(Lambda {
        params: Box::new(Atom::List(vec![Atom::Symbol(String::from("x"))])),
        exp: Box::new(Atom::Symbol(String::from("x"))),
    });
    let r = eval(&lam, &mut env, &mut out, FUEL);
    assert!(matches!(r, Ok(Atom::Lambda(_))));
    assert!(out.is_empty());
}

#[test]
fn render_then_reparse_literal_form() {
    // A rendered list uses comma-space separators, so the
    // re-parseable literal form writes the same structure in source
    // syntax; parsing both must give structurally equal values.
    let toks = tokenise("(1 (2 3) #tá)");
    let (v, _) = parse(&toks).unwrap();
    assert_eq!(v.to_text(), "(1, (2, 3), #tá)");
    let toks2 = tokenise("( 1 ( 2 3 ) #tá )");
    let (v2, _) = parse(&toks2).unwrap();
    assert!(v.values_equal(&v2));
}

#[test]
fn function_values_are_never_equal() {
    assert!(!expect_bool(run_fresh("(= + +)")));
    assert!(expect_bool(run_fresh("(= (athfhriotal (1 2)) (athfhriotal (1 2)))")));
}

#[test]
fn write_emits_rendering_and_passes_through() {
    let mut env = create_env();
    let mut out: Vec<String> = Vec::new();
    let r = parse_eval("(scríobh 5)", &mut env, &mut out, true, FUEL);
    assert_eq!(expect_number(r), 5);
    assert_eq!(out, vec![String::from("5")]);
}

#[test]
fn map_applies_native_to_each_argument() {
    let r = run_fresh("(fad (mapáil níl #tá #níl))");
    assert_eq!(expect_number(r), 2);
    assert!(!expect_bool(run_fresh("(ceann (mapáil níl #tá #níl))")));
}

#[test]
fn conditional_picks_branch() {
    assert_eq!(expect_number(run_fresh("(má #tá 1 2)")), 1);
    assert_eq!(expect_number(run_fresh("(má #níl 1 2)")), 2);
    assert!(matches!(run_fresh("(má 3 1 2)"), Err(Error::TypeMismatch)));
}

#[test]
fn division_error_cases() {
    assert!(matches!(run_fresh("(/ 5)"), Err(Error::DivisionByEmptyOperand)));
    assert!(matches!(run_fresh("(/ 5 0)"), Err(Error::DivisionByZero)));
}

#[test]
fn arithmetic_error_cases() {
    assert!(matches!(run_fresh("(+ 1 #tá)"), Err(Error::TypeMismatch)));
    assert!(matches!(run_fresh("(*)"), Err(Error::ArityMismatch)));
    assert!(matches!(
        run_fresh("(+ 9223372036854775807 1)"),
        Err(Error::NumericOverflow)
    ));
}

#[test]
fn head_of_empty_list_fails() {
    assert!(matches!(run_fresh("(ceann (athfhriotal ()))"), Err(Error::TypeMismatch)));
}

#[test]
fn parse_error_cases() {
    assert!(matches!(
        run_fresh("(1 2"),
        Err(Error::Parse(ParseError::UnterminatedList))
    ));
    assert!(matches!(
        run_fresh(")"),
        Err(Error::Parse(ParseError::UnexpectedToken))
    ));
}

#[test]
fn lex_error_cases() {
    assert!(matches!(atomise("\""), Err(Error::Lex)));
    assert!(matches!(
        atomise("99999999999999999999"),
        Err(Error::NumericOverflow)
    ));
    assert!(matches!(atomise("\"ab\""), Ok(Atom::Str(s)) if s == "ab"));
}

#[test]
fn depth_budget_fails_predictably() {
    let mut env = create_env();
    let mut out: Vec<String> = Vec::new();
    let r = parse_eval("(+ 1 2)", &mut env, &mut out, true, 1);
    assert!(matches!(r, Err(Error::DepthLimit)));
    // The empty call form never converges; the budget stops it.
    assert!(matches!(run_fresh("()"), Err(Error::DepthLimit)));
}

#[test]
fn tokeniser_deletes_newlines_outright() {
    // Newlines and tabs are deleted, not replaced by spaces, so the
    // two number tokens run together.
    let toks = tokenise("(+ 1\n2)");
    let words: Vec<&str> = toks.iter().map(|s| s.as_str()).collect();
    assert_eq!(words, vec!["(", "+", "12", ")"]);
}

#[test]
fn string_literal_with_whitespace_splits() {
    let toks = tokenise("\"a b\"");
    assert_eq!(toks.len(), 2);
}

#[test]
fn bare_string_is_rejected_by_evaluation() {
    assert!(matches!(run_fresh("\"ab\""), Err(Error::TypeMismatch)));
}

#[test]
fn environment_lookup_walks_outward() {
    let mut env = create_env();
    env_add("x", Atom::Number(1), &mut env);
    let got = env_get(&Atom::Symbol(String::from("x")), &env).unwrap();
    assert!(matches!(got, Atom::Number(1)));
    env_add("x", Atom::Number(2), &mut env);
    let got = env_get(&Atom::Symbol(String::from("x")), &env).unwrap();
    assert!(matches!(got, Atom::Number(2)));
    assert!(matches!(
        env_get(&Atom::Symbol(String::from("zzz")), &env),
        Err(Error::UnboundSymbol)
    ));
    assert!(matches!(env_get(&Atom::Number(1), &env), Err(Error::TypeMismatch)));
}

#[test]
fn file_mode_runs_forms_in_sequence() {
    let mut env = create_env();
    let mut out: Vec<String> = Vec::new();
    let r = parse_eval(
        "((sainigh a 2) (sainigh b 3) (+ a b))",
        &mut env,
        &mut out,
        false,
        FUEL,
    );
    assert_eq!(expect_number(r), 5);
}

#[test]
fn file_mode_reports_failing_form() {
    let mut env = create_env();
    let mut out: Vec<String> = Vec::new();
    let toks = tokenise("((sainigh a 2) (+ a missing) (sainigh c 4))");
    let (ast, _) = parse(&toks).unwrap();
    let forms = match ast {
        Atom::List(l) => l,
        _ => panic!("expected a list"),
    };
    let (r, idx) = run_forms(&forms, &mut env, &mut out, FUEL);
    assert!(matches!(r, Err(Error::UnboundSymbol)));
    assert_eq!(idx, 1);
    // The failing form's predecessors took effect; its successors never ran.
    assert_eq!(expect_number(run("a", &mut env)), 2);
    assert!(matches!(run("c", &mut env), Err(Error::UnboundSymbol)));
}

#[test]
fn negative_results_render_with_sign() {
    let mut env = create_env();
    let r = run("(- 1 5)", &mut env);
    match r {
        Ok(a) => assert_eq!(a.to_text(), "-4"),
        other => panic!("expected a number, got {:?}", other),
    }
}

#[test]
fn define_returns_the_bound_value() {
    let mut env = create_env();
    assert_eq!(expect_number(run("(sainigh a 9)", &mut env)), 9);
}

#[test]
fn end_of_input_marker_resolves_to_itself() {
    let mut env = create_env();
    let got = env_get(&Atom::Symbol(String::from("#<EOF>")), &env).unwrap();
    assert!(matches!(got, Atom::Symbol(s) if s == "#<EOF>"));
}

#[test]
fn define_error_cases() {
    assert!(matches!(run_fresh("(sainigh x)"), Err(Error::ArityMismatch)));
    assert!(matches!(run_fresh("(sainigh 5 6)"), Err(Error::TypeMismatch)));
}

#[test]
fn lambda_error_cases() {
    assert!(matches!(run_fresh("(lambda (x))"), Err(Error::ArityMismatch)));
    assert!(matches!(run_fresh("((lambda 5 6) 1)"), Err(Error::TypeMismatch)));
}

#[test]
fn quote_needs_an_argument() {
    assert!(matches!(run_fresh("(athfhriotal)"), Err(Error::ArityMismatch)));
}

#[test]
fn conditional_needs_three_arguments() {
    assert!(matches!(run_fresh("(má #tá 1)"), Err(Error::ArityMismatch)));
}

#[test]
fn division_truncates_toward_zero() {
    let mut env = create_env();
    assert_eq!(expect_number(run("(/ 7 2)", &mut env)), 3);
    assert_eq!(expect_number(run("(/ (- 0 7) 2)", &mut env)), -3);
}

#[test]
fn zero_argument_sum_is_zero() {
    assert_eq!(expect_number(run_fresh("(+)")), 0);
}
