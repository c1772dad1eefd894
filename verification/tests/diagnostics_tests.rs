use lisp::err::{handle_eval_error, handle_failed_form, handle_read_error};
use lisp::interpreter::Interpreter;
use lisp::lisp_object::LispObject;
use lisp::reader::{ReadError, Reader};

fn read_one(itp: &mut Interpreter, src: &str) -> LispObject {
    let mut reader = Reader::new();
    let mut prog: Vec<LispObject> = Vec::new();
    assert!(reader.partial(&mut itp.symbols, &mut prog, src).is_ok());
    assert_eq!(prog.len(), 1);
    prog.remove(0)
}

// Trace accuracy: for input `(+ 1 (+ 2 "x"))`, evaluation fails inside the
// inner `+`, and the reconstructed highlight points exactly at the
// substring `"x"` within the rendered form.
#[test]
fn trace_points_at_failing_subexpression() {
    let mut itp = Interpreter::new();
    let form = read_one(&mut itp, "(+ 1 (+ 2 \"x\"))");
    let err = itp.eval_top_level(&form).unwrap_err();
    assert_eq!(err.message, "Expected a number");
    let (message, excerpts) = handle_eval_error(&itp.symbols, &err);
    assert_eq!(message, "Expected a number");
    assert_eq!(excerpts.len(), 1);
    let (rendered, start, end, place) = &excerpts[0];
    assert_eq!(rendered, "(+ 1 (+ 2 \"x\"))");
    assert_eq!((*start, *end), (10, 13));
    assert_eq!(&rendered[*start..*end], "\"x\"");
    assert_eq!(place.as_deref(), Some(":in:"));
}

#[test]
fn trace_in_first_operand() {
    let mut itp = Interpreter::new();
    let form = read_one(&mut itp, "(- \"a\" 1)");
    let err = itp.eval_top_level(&form).unwrap_err();
    let (_, excerpts) = handle_eval_error(&itp.symbols, &err);
    let (rendered, start, end, _) = &excerpts[0];
    assert_eq!(rendered, "(- \"a\" 1)");
    assert_eq!(&rendered[*start..*end], "\"a\"");
}

#[test]
fn function_body_failure_adds_a_frame() {
    let mut itp = Interpreter::new();
    for src in ["(def f (fn (x) (+ x \"y\")))", "(f 1)"] {
        let form = read_one(&mut itp, src);
        match itp.eval_top_level(&form) {
            Ok(_) => {}
            Err(err) => {
                let (message, excerpts) = handle_eval_error(&itp.symbols, &err);
                assert_eq!(message, "Expected a number");
                // one frame for the failing definition, one for the call site
                assert_eq!(excerpts.len(), 2);
                let (inner, s0, e0, label) = &excerpts[0];
                assert_eq!(inner, "(fn (x) (+ x \"y\"))");
                assert_eq!(&inner[*s0..*e0], "(fn (x) (+ x \"y\"))");
                assert_eq!(label.as_deref(), Some("f"));
                let (outer, s1, e1, place) = &excerpts[1];
                assert_eq!(outer, "(f 1)");
                assert_eq!(&outer[*s1..*e1], "f");
                assert_eq!(place.as_deref(), Some(":in:"));
            }
        }
    }
}

#[test]
fn whole_form_highlight_for_empty_trace() {
    let itp = Interpreter::new();
    let form = LispObject::Number(42);
    let (rendered, start, end) = handle_failed_form(&itp.symbols, &form, &Vec::new());
    assert_eq!(rendered, "42");
    assert_eq!((start, end), (0, 2));
}

#[test]
fn located_child_span() {
    let mut itp = Interpreter::new();
    let form = read_one(&mut itp, "(a bb ccc)");
    // child 2 of the form, from a trace as the unwind builds it
    let trace = vec![2usize];
    let (rendered, start, end) = handle_failed_form(&itp.symbols, &form, &trace);
    assert_eq!(rendered, "(a bb ccc)");
    assert_eq!(&rendered[start..end], "ccc");
}

#[test]
fn read_error_diagnostics() {
    let e = ReadError::UnexpectedRbrace(4, 5);
    let d = handle_read_error(e).unwrap();
    assert_eq!(d.0, "Right brace without matching lbrace.");
    assert_eq!(d.1, Some((4, 5)));

    let e = ReadError::UnknownCharacter(1, 2);
    let d = handle_read_error(e).unwrap();
    assert_eq!(d.0, "Unexpected character.");
    assert_eq!(d.1, Some((1, 2)));

    let e = ReadError::UnexpectedEndOfString;
    let d = handle_read_error(e).unwrap();
    assert_eq!(d.0, "Unexpected end of input while parsing string.");
    assert_eq!(d.1, None);

    assert!(handle_read_error(ReadError::InternalError).is_err());
}

#[test]
fn serialize_special_values() {
    let mut itp = Interpreter::new();
    let form = read_one(&mut itp, "+");
    let v = itp.eval_top_level(&form).unwrap();
    assert_eq!(itp.symbols.serialize_object(&v), "(~~ ( &rest terms) ~~)");
    let form = read_one(&mut itp, "if");
    let v = itp.eval_top_level(&form).unwrap();
    assert_eq!(itp.symbols.serialize_object(&v), "if");
}
