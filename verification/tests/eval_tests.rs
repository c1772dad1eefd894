use lisp::interpreter::Interpreter;
use lisp::lisp_object::LispObject;
use lisp::reader::Reader;

fn read_forms(itp: &mut Interpreter, src: &str) -> Vec<LispObject> {
    let mut reader = Reader::new();
    let mut prog: Vec<LispObject> = Vec::new();
    let r = reader.partial(&mut itp.symbols, &mut prog, src);
    assert!(r.is_ok());
    assert_eq!(reader.len(), 0);
    prog
}

fn eval_to_string(itp: &mut Interpreter, src: &str) -> String {
    let mut out = String::new();
    for form in read_forms(itp, src) {
        match itp.eval_top_level(&form) {
            Ok(v) => out = itp.symbols.serialize_object(&v),
            Err(e) => panic!("evaluation failed: {}", e.message),
        }
    }
    out
}

fn eval_expect_error(itp: &mut Interpreter, src: &str) -> lisp::lisp_object::EvalError {
    let forms = read_forms(itp, src);
    let mut last: Option<lisp::lisp_object::EvalError> = None;
    for form in forms {
        match itp.eval_top_level(&form) {
            Ok(_) => {
                last = None;
            }
            Err(e) => {
                last = Some(e);
            }
        }
    }
    last.expect("expected an evaluation error")
}

#[test]
fn self_evaluating_atoms() {
    let mut itp = Interpreter::new();
    assert_eq!(eval_to_string(&mut itp, "1"), "1");
    assert_eq!(eval_to_string(&mut itp, "-42"), "-42");
    assert_eq!(eval_to_string(&mut itp, "#t"), "#t");
    assert_eq!(eval_to_string(&mut itp, "#f"), "#f");
    assert_eq!(eval_to_string(&mut itp, "\"hello\""), "\"hello\"");
}

#[test]
fn arithmetic_natives() {
    let mut itp = Interpreter::new();
    assert_eq!(eval_to_string(&mut itp, "(+ 1 2 3)"), "6");
    assert_eq!(eval_to_string(&mut itp, "(+)"), "0");
    assert_eq!(eval_to_string(&mut itp, "(* 2 3 4)"), "24");
    assert_eq!(eval_to_string(&mut itp, "(*)"), "1");
    assert_eq!(eval_to_string(&mut itp, "(- 10 1 2)"), "7");
    assert_eq!(eval_to_string(&mut itp, "(- 5)"), "5");
    assert_eq!(eval_to_string(&mut itp, "(+ 1 (* 2 3))"), "7");
}

#[test]
fn equality_native() {
    let mut itp = Interpreter::new();
    assert_eq!(eval_to_string(&mut itp, "(= 1 1)"), "#t");
    assert_eq!(eval_to_string(&mut itp, "(= 1 2)"), "#f");
    assert_eq!(eval_to_string(&mut itp, "(= 'a 'a)"), "#t");
    assert_eq!(eval_to_string(&mut itp, "(= 'a 'b)"), "#f");
    let e = eval_expect_error(&mut itp, "(= \"a\" \"a\")");
    assert_eq!(e.message, "equal not implemented for type");
}

#[test]
fn list_natives() {
    let mut itp = Interpreter::new();
    assert_eq!(eval_to_string(&mut itp, "(list 1 2 3)"), "(1 2 3)");
    assert_eq!(eval_to_string(&mut itp, "(first (list 1 2 3))"), "1");
    assert_eq!(eval_to_string(&mut itp, "(rest (list 1 2 3))"), "(2 3)");
    assert_eq!(eval_to_string(&mut itp, "(rest (list))"), "()");
    assert_eq!(
        eval_to_string(&mut itp, "(concat (list 1 2) (list 3) (list))"),
        "(1 2 3)"
    );
    assert_eq!(eval_to_string(&mut itp, "(is-list (list 1))"), "#t");
    assert_eq!(eval_to_string(&mut itp, "(is-list 1)"), "#f");
    assert_eq!(eval_to_string(&mut itp, "(length (list 1 2 3))"), "3");
    let e = eval_expect_error(&mut itp, "(first (list))");
    assert_eq!(e.message, "first of empty list");
}

#[test]
fn quote_and_begin() {
    let mut itp = Interpreter::new();
    assert_eq!(eval_to_string(&mut itp, "(quote a)"), "a");
    assert_eq!(eval_to_string(&mut itp, "'(1 2)"), "(1 2)");
    assert_eq!(eval_to_string(&mut itp, "(begin 1 2 3)"), "3");
}

#[test]
fn def_and_set_scoping() {
    let mut itp = Interpreter::new();
    assert_eq!(eval_to_string(&mut itp, "(def x 10) x"), "10");
    // `set` binds only in the current scope; at top level that is the
    // global scope.
    assert_eq!(eval_to_string(&mut itp, "(set x 11) x"), "11");
    // `def` inside a function body writes the global scope.
    assert_eq!(
        eval_to_string(&mut itp, "(def f (fn (v) (def g v) g)) (f 5) g"),
        "5"
    );
}

#[test]
fn if_special_form() {
    let mut itp = Interpreter::new();
    assert_eq!(eval_to_string(&mut itp, "(if #t 1 2)"), "1");
    assert_eq!(eval_to_string(&mut itp, "(if #f 1 2)"), "2");
    assert_eq!(eval_to_string(&mut itp, "(if #f 1)"), "#f");
    assert_eq!(eval_to_string(&mut itp, "(if #f 1 2 3 4)"), "4");
    let e = eval_expect_error(&mut itp, "(if 5 1 2)");
    assert_eq!(e.message, "Expected a bool");
}

#[test]
fn lambda_application() {
    let mut itp = Interpreter::new();
    assert_eq!(eval_to_string(&mut itp, "((fn (x) x) 41)"), "41");
    assert_eq!(eval_to_string(&mut itp, "((fn (x y) (+ x y)) 1 2)"), "3");
    assert_eq!(
        eval_to_string(&mut itp, "(def add2 (fn (x) (+ x 2))) (add2 40)"),
        "42"
    );
    // a lambda value is self-serializing
    assert_eq!(eval_to_string(&mut itp, "(fn (x) x)"), "(fn (x) x)");
}

// Scoping: `(let ((x 1)) (let ((x 2)) x))` evaluates to `2`; after both
// `let`s exit, `x` is unbound again.
#[test]
fn let_scoping() {
    let mut itp = Interpreter::new();
    assert_eq!(
        eval_to_string(&mut itp, "(let ((x 1)) (let ((x 2)) x))"),
        "2"
    );
    let e = eval_expect_error(&mut itp, "x");
    assert_eq!(e.message, "Unbound symbol 'x'");
    // inner shadowing does not leak outward
    assert_eq!(
        eval_to_string(&mut itp, "(let ((x 1)) (let ((x 2)) x) x)"),
        "1"
    );
}

// Arity: a lambda with n positionals and no rest parameter rejects any
// other count before evaluating arguments; with a rest parameter any
// surplus is collected.
#[test]
fn arity_checking() {
    let mut itp = Interpreter::new();
    let e = eval_expect_error(&mut itp, "((fn (x) x) 1 2)");
    assert_eq!(e.message, "param list (x) requires exactly 1 arguments, got 2");
    let e = eval_expect_error(&mut itp, "((fn (x y) x) 1)");
    assert_eq!(
        e.message,
        "param list (x y) requires exactly 2 arguments, got 1"
    );
    assert_eq!(
        eval_to_string(&mut itp, "((fn (x &rest r) (length r)) 1 2 3)"),
        "2"
    );
    assert_eq!(eval_to_string(&mut itp, "((fn (x &rest r) r) 1)"), "()");
    assert_eq!(eval_to_string(&mut itp, "((fn (&rest r) r) 1 2)"), "(1 2)");
    // arguments are not evaluated when the count is wrong
    let e = eval_expect_error(&mut itp, "((fn (x) x) (undefined-thing) 2)");
    assert_eq!(e.message, "param list (x) requires exactly 1 arguments, got 2");
}

// Macro single step: the body runs on unevaluated operands, and its result
// is evaluated exactly once more.
#[test]
fn macro_single_step() {
    let mut itp = Interpreter::new();
    assert_eq!(
        eval_to_string(
            &mut itp,
            "(def m (macro (a) (list 'quote a))) (m (+ 1 2))"
        ),
        "(+ 1 2)"
    );
    // the operand reaches the body unevaluated; quoting it returns it as data
    assert_eq!(
        eval_to_string(&mut itp, "(m undefined-symbol)"),
        "undefined-symbol"
    );
    // a macro in call position may also stand as an inline literal list
    assert_eq!(
        eval_to_string(&mut itp, "((macro (a) (list 'quote a)) (+ 1 2))"),
        "(+ 1 2)"
    );
}

// Unbound symbol: evaluating a never-defined symbol fails, naming it.
#[test]
fn unbound_symbol_error() {
    let mut itp = Interpreter::new();
    let e = eval_expect_error(&mut itp, "never-defined-anywhere");
    assert_eq!(e.message, "Unbound symbol 'never-defined-anywhere'");
}

#[test]
fn empty_application_error() {
    let mut itp = Interpreter::new();
    let e = eval_expect_error(&mut itp, "()");
    assert_eq!(e.message, "apply received empty form");
}

#[test]
fn not_applicable_error() {
    let mut itp = Interpreter::new();
    let e = eval_expect_error(&mut itp, "(1 2 3)");
    assert_eq!(
        e.message,
        "apply only implemented for Native, Lambda and Special Form"
    );
}

#[test]
fn overflow_is_an_error_not_a_panic() {
    let mut itp = Interpreter::new();
    let e = eval_expect_error(&mut itp, "(+ 9223372036854775807 1)");
    assert_eq!(e.message, "numeric overflow");
    let e = eval_expect_error(&mut itp, "(* 9223372036854775807 2)");
    assert_eq!(e.message, "numeric overflow");
}

#[test]
fn rest_sentinel_must_be_second_to_last() {
    let mut itp = Interpreter::new();
    let e = eval_expect_error(&mut itp, "(fn (&rest a b) a)");
    assert_eq!(e.message, "&rest must be second to last in parameter list");
}

#[test]
fn side_effects_are_ordered() {
    let mut itp = Interpreter::new();
    assert_eq!(
        eval_to_string(&mut itp, "(def x 1) (begin (def x 2) x)"),
        "2"
    );
    // a failing top-level form leaves earlier definitions intact
    let _ = eval_expect_error(&mut itp, "(begin (def y 7) (no-such))");
    assert_eq!(eval_to_string(&mut itp, "y"), "7");
}

// The binding expressions of one `let` are evaluated in the enclosing
// scope: earlier siblings are not visible to later ones (classic `let`,
// not sequential binding).
#[test]
fn let_bindings_are_simultaneous() {
    let mut itp = Interpreter::new();
    assert_eq!(
        eval_to_string(&mut itp, "(def x 5) (let ((x 1) (y x)) y)"),
        "5"
    );
    let mut itp2 = Interpreter::new();
    let e = eval_expect_error(&mut itp2, "(let ((a 1) (b a)) b)");
    assert_eq!(e.message, "Unbound symbol 'a'");
}

// `set` binds in the current scope only; a write inside a `let` body
// vanishes when the scope is popped.
#[test]
fn set_is_scope_local() {
    let mut itp = Interpreter::new();
    assert_eq!(
        eval_to_string(&mut itp, "(let ((x 1)) (set y 2) y)"),
        "2"
    );
    let e = eval_expect_error(&mut itp, "y");
    assert_eq!(e.message, "Unbound symbol 'y'");
}

#[test]
fn strings_may_contain_spaces_and_parens() {
    let mut itp = Interpreter::new();
    assert_eq!(eval_to_string(&mut itp, "\"a (b c)\""), "\"a (b c)\"");
}

#[test]
fn minus_is_an_ordinary_symbol() {
    let mut itp = Interpreter::new();
    assert_eq!(eval_to_string(&mut itp, "(first (list - 1))"), "(~~ (min &rest subs) ~~)");
}

#[test]
fn shadowing_a_native_in_a_let() {
    let mut itp = Interpreter::new();
    assert_eq!(
        eval_to_string(&mut itp, "(let ((+ 1)) +)"),
        "1"
    );
    assert_eq!(eval_to_string(&mut itp, "(+ 1 2)"), "3");
}
