use lisp::env::Symbols;
use lisp::lisp_object::LispObject;
use lisp::reader::{ReadError, Reader};

fn read_all(src: &str) -> (Symbols, Vec<LispObject>) {
    let mut symbols = Symbols::new();
    let mut reader = Reader::new();
    let mut prog: Vec<LispObject> = Vec::new();
    let r = reader.partial(&mut symbols, &mut prog, src);
    assert!(r.is_ok());
    assert_eq!(reader.len(), 0);
    (symbols, prog)
}

fn rendered(src: &str) -> Vec<String> {
    let (symbols, prog) = read_all(src);
    prog.iter().map(|o| symbols.serialize_object(o)).collect()
}

#[test]
fn reads_atoms() {
    assert_eq!(rendered("1 -2 #t #f foo \"bar\""), vec![
        "1", "-2", "#t", "#f", "foo", "\"bar\""
    ]);
}

#[test]
fn reads_nested_lists() {
    assert_eq!(rendered("(1 (2 3) ())"), vec!["(1 (2 3) ())"]);
    assert_eq!(rendered("(a (b (c)))"), vec!["(a (b (c)))"]);
}

#[test]
fn whitespace_is_insignificant() {
    assert_eq!(rendered("  ( 1\t2\n3 )  "), vec!["(1 2 3)"]);
}

#[test]
fn quote_prefixes_expand() {
    assert_eq!(rendered("'a"), vec!["(quote a)"]);
    assert_eq!(rendered("`a"), vec!["(quasiquote a)"]);
    assert_eq!(rendered(",a"), vec!["(unquote a)"]);
    assert_eq!(rendered(",@a"), vec!["(unquote-splice a)"]);
    assert_eq!(rendered("'(1 '2)"), vec!["(quote (1 (quote 2)))"]);
}

// Reader continuation: feeding `"(+ 1"` then `" 2)"` across two `partial`
// calls yields one completed form; the pending depth signals the open
// nesting in between.
#[test]
fn reader_continuation() {
    let mut symbols = Symbols::new();
    let mut reader = Reader::new();
    let mut prog: Vec<LispObject> = Vec::new();
    assert!(reader.partial(&mut symbols, &mut prog, "(+ 1").is_ok());
    assert!(reader.len() > 0);
    assert_eq!(prog.len(), 0);
    assert!(reader.partial(&mut symbols, &mut prog, " 2)").is_ok());
    assert_eq!(reader.len(), 0);
    assert_eq!(prog.len(), 1);
    assert_eq!(symbols.serialize_object(&prog[0]), "(+ 1 2)");
}

#[test]
fn pending_depth_counts_nesting() {
    let mut symbols = Symbols::new();
    let mut reader = Reader::new();
    let mut prog: Vec<LispObject> = Vec::new();
    assert!(reader.partial(&mut symbols, &mut prog, "((( ").is_ok());
    assert_eq!(reader.len(), 3);
    assert!(reader.partial(&mut symbols, &mut prog, ")))").is_ok());
    assert_eq!(reader.len(), 0);
    assert_eq!(prog.len(), 1);
}

#[test]
fn unexpected_close_paren() {
    let mut symbols = Symbols::new();
    let mut reader = Reader::new();
    let mut prog: Vec<LispObject> = Vec::new();
    match reader.partial(&mut symbols, &mut prog, "  )") {
        Err(ReadError::UnexpectedRbrace(a, b)) => {
            assert_eq!((a, b), (2, 3));
        }
        _ => panic!("expected an unexpected-close-paren error"),
    }
}

#[test]
fn unterminated_string() {
    let mut symbols = Symbols::new();
    let mut reader = Reader::new();
    let mut prog: Vec<LispObject> = Vec::new();
    match reader.partial(&mut symbols, &mut prog, "\"abc") {
        Err(ReadError::UnexpectedEndOfString) => {}
        _ => panic!("expected an unterminated-string error"),
    }
}

#[test]
fn backslash_in_string_is_unknown_character() {
    let mut symbols = Symbols::new();
    let mut reader = Reader::new();
    let mut prog: Vec<LispObject> = Vec::new();
    match reader.partial(&mut symbols, &mut prog, "\"a\\b\"") {
        Err(ReadError::UnknownCharacter(a, b)) => {
            assert_eq!((a, b), (2, 3));
        }
        _ => panic!("expected an unknown-character error"),
    }
}

#[test]
fn interning_is_stable() {
    let mut symbols = Symbols::new();
    let a1 = symbols.intern("alpha");
    let b1 = symbols.intern("beta");
    let a2 = symbols.intern("alpha");
    assert_eq!(a1, a2);
    assert_ne!(a1, b1);
    assert_eq!(symbols.as_string(&a1), Some("alpha"));
    assert_eq!(symbols.as_string(&9999), None);
}

#[test]
fn numbers_at_the_machine_edge() {
    assert_eq!(rendered("9223372036854775807"), vec!["9223372036854775807"]);
    assert_eq!(rendered("-9223372036854775808"), vec![
        "-9223372036854775808"
    ]);
}

#[test]
fn oversized_numerals_read_as_symbols() {
    // a numeric pattern too large for the machine range is a symbol, so
    // evaluating it reports it as unbound rather than silently wrapping
    let mut itp = lisp::interpreter::Interpreter::new();
    let mut reader = Reader::new();
    let mut prog: Vec<LispObject> = Vec::new();
    assert!(reader
        .partial(&mut itp.symbols, &mut prog, "9223372036854775808")
        .is_ok());
    let e = itp.eval_top_level(&prog[0]).unwrap_err();
    assert_eq!(e.message, "Unbound symbol '9223372036854775808'");
}

#[test]
fn dotted_numerals_read_as_symbols() {
    let (symbols, prog) = read_all("3.5");
    assert_eq!(prog.len(), 1);
    assert!(matches!(prog[0], LispObject::Symbol(_)));
    assert_eq!(symbols.serialize_object(&prog[0]), "3.5");
}

// Round trip: serializing a value the reader produced and reading it back
// gives the same value again.
#[test]
fn round_trip_through_serialization() {
    let mut symbols = Symbols::new();
    let mut reader = Reader::new();
    let mut prog: Vec<LispObject> = Vec::new();
    let src = "(compare -17 (nest \"deep\" (#t #f ())) end)";
    assert!(reader.partial(&mut symbols, &mut prog, src).is_ok());
    let first = symbols.serialize_object(&prog[0]);
    let mut prog2: Vec<LispObject> = Vec::new();
    let mut reader2 = Reader::new();
    assert!(reader2
        .partial(&mut symbols, &mut prog2, first.as_str())
        .is_ok());
    let second = symbols.serialize_object(&prog2[0]);
    assert_eq!(first, second);
    assert_eq!(first, "(compare -17 (nest \"deep\" (#t #f ())) end)");
}
