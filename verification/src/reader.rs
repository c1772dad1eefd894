use vstd::prelude::*;

use crate::env::{intern_spec, Symbols};
use crate::lexer::{lex_next, LexOut, Lexer, ObjTok, ObjectT, StrTok, StringT, TokView, Tokens};
use crate::lisp_object::{obj_view, objs_view, LispObject, ObjView, Symbol};

verus! {

broadcast use crate::lisp_object::group_obj_view;

/// A lexical or structural problem in raw text; fatal to the current
/// `partial` call, never to the caller.
#[derive(Clone, Copy, PartialEq, Eq, Structural, Debug)]
pub enum ReadError {
    UnknownCharacter(usize, usize),
    UnexpectedRbrace(usize, usize),
    UnexpectedEndOfString,
    InternalError,
}

pub open spec fn read_err_msg(e: ReadError) -> Seq<char> {
    match e {
        ReadError::UnknownCharacter(_, _) => "Unexpected character."@,
        ReadError::UnexpectedRbrace(_, _) => "Right brace without matching lbrace."@,
        ReadError::UnexpectedEndOfString => "Unexpected end of input while parsing string."@,
        ReadError::InternalError => "Internal Error."@,
    }
}

impl ReadError {
    /// The human-readable message for this error.
    pub fn message(&self) -> (r: String)
        ensures
            r@ == read_err_msg(*self),
    {
        match self {
            ReadError::UnknownCharacter(_, _) => "Unexpected character.".to_owned(),
            ReadError::UnexpectedRbrace(_, _) => "Right brace without matching lbrace.".to_owned(),
            ReadError::UnexpectedEndOfString => {
                "Unexpected end of input while parsing string.".to_owned()
            },
            ReadError::InternalError => "Internal Error.".to_owned(),
        }
    }
}

/// An in-progress list under construction, or a pending reader-macro prefix
/// awaiting exactly one following object.
pub enum ReaderFrame {
    Sexpr(Vec<LispObject>),
    Quote,
    QuasiQuote,
    Unquote,
    UnquoteSplice,
}

/// The mathematical shape of a reader frame.
pub enum FrameV {
    Sexpr(Seq<ObjView>),
    Quote,
    QuasiQuote,
    Unquote,
    UnquoteSplice,
}

pub open spec fn frame_view(f: ReaderFrame) -> FrameV {
    match f {
        ReaderFrame::Sexpr(l) => FrameV::Sexpr(objs_view(l@)),
        ReaderFrame::Quote => FrameV::Quote,
        ReaderFrame::QuasiQuote => FrameV::QuasiQuote,
        ReaderFrame::Unquote => FrameV::Unquote,
        ReaderFrame::UnquoteSplice => FrameV::UnquoteSplice,
    }
}

pub open spec fn frames_view(s: Seq<ReaderFrame>) -> Seq<FrameV> {
    Seq::new(s.len(), |i: int| frame_view(s[i]))
}

/// The well-known ids the reader wraps prefixes with: quote, quasiquote,
/// unquote, unquote-splice.
pub type PrefixIds = (Symbol, Symbol, Symbol, Symbol);

pub open spec fn prefix_ids(sym: Symbols) -> PrefixIds {
    (sym.sym_quote, sym.sym_quasiquote, sym.sym_unquote, sym.sym_unquote_splice)
}

/// The wrapper form a pending prefix frame builds around a completed
/// object.
pub open spec fn wrap_view(ids: PrefixIds, f: FrameV, obj: ObjView) -> ObjView {
    let id = match f {
        FrameV::Quote => ids.0,
        FrameV::QuasiQuote => ids.1,
        FrameV::Unquote => ids.2,
        FrameV::UnquoteSplice => ids.3,
        FrameV::Sexpr(_) => ids.0,
    };
    ObjView::List(seq![ObjView::Symbol(id), obj])
}

/// Routing a completed object: pending prefixes wrap it, an open list
/// absorbs it, an empty stack hands it to the caller as a top-level form.
pub open spec fn handle_obj_spec(ids: PrefixIds, stack: Seq<FrameV>, obj: ObjView) -> (
    Seq<FrameV>,
    Option<ObjView>,
)
    decreases stack.len(),
{
    if stack.len() == 0 {
        (stack, Option::Some(obj))
    } else {
        match stack.last() {
            FrameV::Sexpr(l) => (
                stack.update(stack.len() - 1, FrameV::Sexpr(l.push(obj))),
                Option::None,
            ),
            f => handle_obj_spec(ids, stack.drop_last(), wrap_view(ids, f, obj)),
        }
    }
}

/// What one `parse_sexp` call does: a read error, the end of the input with
/// the stack carried over, or one completed top-level object and the
/// position after it.
pub enum PS {
    Fail(ReadError),
    End { nm: Seq<Seq<char>>, stack: Seq<FrameV> },
    Obj { nm: Seq<Seq<char>>, stack: Seq<FrameV>, obj: ObjView, pos: int },
}

/// The contents of a string literal starting inside the quotes at `pos`,
/// and the position after the closing quote.
pub open spec fn read_string_spec(s: Seq<char>, pos: int) -> Result<(Seq<char>, int), ReadError>
    decreases s.len() - pos,
    via read_string_spec_dec
{
    if pos < 0 || pos > s.len() {
        Result::Err(ReadError::InternalError)
    } else {
        match lex_next(s, pos, true) {
            LexOut::End => Result::Err(ReadError::UnexpectedEndOfString),
            LexOut::Got { t, start, end, string_mode } => match t {
                TokView::S(StrTok::EndString) => Result::Ok((Seq::empty(), end)),
                TokView::S(StrTok::Text(txt)) => match read_string_spec(s, end) {
                    Result::Ok((rest, e2)) => Result::Ok((txt + rest, e2)),
                    Result::Err(e) => Result::Err(e),
                },
                TokView::S(StrTok::Error) => Result::Err(
                    ReadError::UnknownCharacter(start as usize, end as usize),
                ),
                TokView::O(_) => Result::Err(ReadError::InternalError),
            },
        }
    }
}

#[via_fn]
proof fn read_string_spec_dec(s: Seq<char>, pos: int) {
    if 0 <= pos <= s.len() {
        crate::lexer::lemma_lex_next_advances(s, pos, true);
    }
}

/// A successful string read always lands after its starting position.
pub proof fn lemma_read_string_advances(s: Seq<char>, pos: int)
    requires
        0 <= pos <= s.len(),
    ensures
        match read_string_spec(s, pos) {
            Result::Ok((txt, e2)) => pos < e2 <= s.len(),
            Result::Err(_) => true,
        },
    decreases s.len() - pos,
{
    crate::lexer::lemma_lex_next_advances(s, pos, true);
    match lex_next(s, pos, true) {
        LexOut::End => {},
        LexOut::Got { t, start, end, string_mode } => match t {
            TokView::S(StrTok::Text(txt)) => {
                lemma_read_string_advances(s, end);
            },
            _ => {},
        },
    }
}

/// One step of the reader: consumes tokens until a top-level object is
/// completed, the input ends, or a read error surfaces.
pub open spec fn parse_sexp_spec(
    ids: PrefixIds,
    nm: Seq<Seq<char>>,
    stack: Seq<FrameV>,
    s: Seq<char>,
    pos: int,
) -> PS
    decreases s.len() - pos,
    via parse_sexp_spec_dec
{
    if pos < 0 || pos > s.len() {
        PS::Fail(ReadError::InternalError)
    } else {
        match lex_next(s, pos, false) {
            LexOut::End => PS::End { nm, stack },
            LexOut::Got { t, start, end, string_mode } => match t {
                TokView::S(_) => PS::Fail(ReadError::InternalError),
                TokView::O(ObjTok::Error) => PS::Fail(
                    ReadError::UnknownCharacter(start as usize, end as usize),
                ),
                TokView::O(ObjTok::Quote) => parse_sexp_spec(
                    ids,
                    nm,
                    stack.push(FrameV::Quote),
                    s,
                    end,
                ),
                TokView::O(ObjTok::QuasiQuote) => parse_sexp_spec(
                    ids,
                    nm,
                    stack.push(FrameV::QuasiQuote),
                    s,
                    end,
                ),
                TokView::O(ObjTok::Unquote) => parse_sexp_spec(
                    ids,
                    nm,
                    stack.push(FrameV::Unquote),
                    s,
                    end,
                ),
                TokView::O(ObjTok::UnquoteSplice) => parse_sexp_spec(
                    ids,
                    nm,
                    stack.push(FrameV::UnquoteSplice),
                    s,
                    end,
                ),
                TokView::O(ObjTok::LBrace) => parse_sexp_spec(
                    ids,
                    nm,
                    stack.push(FrameV::Sexpr(Seq::empty())),
                    s,
                    end,
                ),
                TokView::O(ObjTok::RBrace) => {
                    if stack.len() > 0 && stack.last() is Sexpr {
                        let l = stack.last()->Sexpr_0;
                        let (st2, out) = handle_obj_spec(
                            ids,
                            stack.drop_last(),
                            ObjView::List(l),
                        );
                        match out {
                            Option::Some(o) => PS::Obj { nm, stack: st2, obj: o, pos: end },
                            Option::None => parse_sexp_spec(ids, nm, st2, s, end),
                        }
                    } else {
                        PS::Fail(ReadError::UnexpectedRbrace(start as usize, end as usize))
                    }
                },
                TokView::O(ObjTok::Symbol(t0)) => {
                    let (nm2, id) = intern_spec(nm, t0);
                    let (st2, out) = handle_obj_spec(ids, stack, ObjView::Symbol(id));
                    match out {
                        Option::Some(o) => PS::Obj { nm: nm2, stack: st2, obj: o, pos: end },
                        Option::None => parse_sexp_spec(ids, nm2, st2, s, end),
                    }
                },
                TokView::O(ObjTok::True) => {
                    let (st2, out) = handle_obj_spec(ids, stack, ObjView::Bool(true));
                    match out {
                        Option::Some(o) => PS::Obj { nm, stack: st2, obj: o, pos: end },
                        Option::None => parse_sexp_spec(ids, nm, st2, s, end),
                    }
                },
                TokView::O(ObjTok::False) => {
                    let (st2, out) = handle_obj_spec(ids, stack, ObjView::Bool(false));
                    match out {
                        Option::Some(o) => PS::Obj { nm, stack: st2, obj: o, pos: end },
                        Option::None => parse_sexp_spec(ids, nm, st2, s, end),
                    }
                },
                TokView::O(ObjTok::Number(n)) => {
                    let (st2, out) = handle_obj_spec(ids, stack, ObjView::Number(n));
                    match out {
                        Option::Some(o) => PS::Obj { nm, stack: st2, obj: o, pos: end },
                        Option::None => parse_sexp_spec(ids, nm, st2, s, end),
                    }
                },
                TokView::O(ObjTok::StartString) => match read_string_spec(s, end) {
                    Result::Ok((txt, e2)) => {
                        let (st2, out) = handle_obj_spec(ids, stack, ObjView::String(txt));
                        match out {
                            Option::Some(o) => PS::Obj { nm, stack: st2, obj: o, pos: e2 },
                            Option::None => parse_sexp_spec(ids, nm, st2, s, e2),
                        }
                    },
                    Result::Err(e) => PS::Fail(e),
                },
            },
        }
    }
}

#[via_fn]
proof fn parse_sexp_spec_dec(
    ids: PrefixIds,
    nm: Seq<Seq<char>>,
    stack: Seq<FrameV>,
    s: Seq<char>,
    pos: int,
) {
    if 0 <= pos <= s.len() {
        crate::lexer::lemma_lex_next_advances(s, pos, false);
        match lex_next(s, pos, false) {
            LexOut::End => {},
            LexOut::Got { t, start, end, string_mode } => {
                if t == TokView::O(ObjTok::StartString) {
                    lemma_read_string_advances(s, end);
                }
            },
        }
    }
}

/// A completed object always lands after the starting position.
pub proof fn lemma_parse_advances(
    ids: PrefixIds,
    nm: Seq<Seq<char>>,
    stack: Seq<FrameV>,
    s: Seq<char>,
    pos: int,
)
    ensures
        match parse_sexp_spec(ids, nm, stack, s, pos) {
            PS::Obj { nm: nm2, stack: st2, obj, pos: p2 } => pos < p2 <= s.len(),
            _ => true,
        },
    decreases s.len() - pos,
{
    if 0 <= pos <= s.len() {
        crate::lexer::lemma_lex_next_advances(s, pos, false);
        match lex_next(s, pos, false) {
            LexOut::End => {},
            LexOut::Got { t, start, end, string_mode } => match t {
                TokView::O(ObjTok::Quote) => {
                    lemma_parse_advances(ids, nm, stack.push(FrameV::Quote), s, end);
                },
                TokView::O(ObjTok::QuasiQuote) => {
                    lemma_parse_advances(ids, nm, stack.push(FrameV::QuasiQuote), s, end);
                },
                TokView::O(ObjTok::Unquote) => {
                    lemma_parse_advances(ids, nm, stack.push(FrameV::Unquote), s, end);
                },
                TokView::O(ObjTok::UnquoteSplice) => {
                    lemma_parse_advances(ids, nm, stack.push(FrameV::UnquoteSplice), s, end);
                },
                TokView::O(ObjTok::LBrace) => {
                    lemma_parse_advances(ids, nm, stack.push(FrameV::Sexpr(Seq::empty())), s, end);
                },
                TokView::O(ObjTok::RBrace) => {
                    if stack.len() > 0 && stack.last() is Sexpr {
                        let l = stack.last()->Sexpr_0;
                        let (st2, out) = handle_obj_spec(ids, stack.drop_last(), ObjView::List(l));
                        if out is None {
                            lemma_parse_advances(ids, nm, st2, s, end);
                        }
                    }
                },
                TokView::O(ObjTok::Symbol(t0)) => {
                    let (nm2, id) = intern_spec(nm, t0);
                    let (st2, out) = handle_obj_spec(ids, stack, ObjView::Symbol(id));
                    if out is None {
                        lemma_parse_advances(ids, nm2, st2, s, end);
                    }
                },
                TokView::O(ObjTok::True) => {
                    let (st2, out) = handle_obj_spec(ids, stack, ObjView::Bool(true));
                    if out is None {
                        lemma_parse_advances(ids, nm, st2, s, end);
                    }
                },
                TokView::O(ObjTok::False) => {
                    let (st2, out) = handle_obj_spec(ids, stack, ObjView::Bool(false));
                    if out is None {
                        lemma_parse_advances(ids, nm, st2, s, end);
                    }
                },
                TokView::O(ObjTok::Number(n)) => {
                    let (st2, out) = handle_obj_spec(ids, stack, ObjView::Number(n));
                    if out is None {
                        lemma_parse_advances(ids, nm, st2, s, end);
                    }
                },
                TokView::O(ObjTok::StartString) => {
                    lemma_read_string_advances(s, end);
                    match read_string_spec(s, end) {
                        Result::Ok((txt, e2)) => {
                            let (st2, out) = handle_obj_spec(ids, stack, ObjView::String(txt));
                            if out is None {
                                lemma_parse_advances(ids, nm, st2, s, e2);
                            }
                        },
                        Result::Err(_) => {},
                    }
                },
                _ => {},
            },
        }
    }
}

/// The result of feeding one whole chunk to the reader.
pub enum RL {
    Fail(ReadError),
    Done { nm: Seq<Seq<char>>, stack: Seq<FrameV>, prog: Seq<ObjView> },
}

/// Reading a whole chunk: completed top-level objects are appended to
/// `prog`, and an unfinished stack is carried to the next chunk.
pub open spec fn read_loop(
    ids: PrefixIds,
    nm: Seq<Seq<char>>,
    stack: Seq<FrameV>,
    prog: Seq<ObjView>,
    s: Seq<char>,
    pos: int,
) -> RL
    decreases s.len() - pos,
    via read_loop_dec
{
    if pos < 0 || pos > s.len() {
        RL::Fail(ReadError::InternalError)
    } else {
        match parse_sexp_spec(ids, nm, stack, s, pos) {
            PS::Fail(e) => RL::Fail(e),
            PS::End { nm: nm2, stack: st2 } => RL::Done { nm: nm2, stack: st2, prog },
            PS::Obj { nm: nm2, stack: st2, obj, pos: p2 } => read_loop(
                ids,
                nm2,
                st2,
                prog.push(obj),
                s,
                p2,
            ),
        }
    }
}

#[via_fn]
proof fn read_loop_dec(
    ids: PrefixIds,
    nm: Seq<Seq<char>>,
    stack: Seq<FrameV>,
    prog: Seq<ObjView>,
    s: Seq<char>,
    pos: int,
) {
    if 0 <= pos <= s.len() {
        lemma_parse_advances(ids, nm, stack, s, pos);
    }
}

/// Builds completed values incrementally; a non-empty frame stack between
/// `partial` calls is the signal to request a continuation line.
pub struct Reader {
    pub stack: Vec<ReaderFrame>,
}

impl View for Reader {
    type V = Seq<FrameV>;

    open spec fn view(&self) -> Seq<FrameV> {
        frames_view(self.stack@)
    }
}

impl Reader {
    pub fn new() -> (r: Reader)
        ensures
            r@ =~= Seq::<FrameV>::empty(),
    {
        Reader { stack: Vec::new() }
    }

    /// How many nesting levels are still open, for prompting purposes.
    pub fn len(&self) -> (r: usize)
        ensures
            r == self@.len(),
    {
        self.stack.len()
    }

    /// Routes a completed object through the pending frames; returns the
    /// object if it completes a top-level form.
    fn handle_obj(&mut self, symbols: &Symbols, obj: LispObject) -> (r: Option<LispObject>)
        ensures
            ({
                let (st2, out) = handle_obj_spec(prefix_ids(*symbols), old(self)@, obj@);
                final(self)@ == st2 && match (r, out) {
                    (Option::Some(a), Option::Some(o)) => a@ == o,
                    (Option::None, Option::None) => true,
                    _ => false,
                }
            }),
        decreases old(self).stack@.len(),
    {
        let ghost st_pre = self@;
        let ghost ov = obj@;
        match self.stack.pop() {
            Option::Some(frame) => {
                proof {
                    assert(self@ =~= st_pre.drop_last());
                    assert(st_pre.last() == frame_view(frame));
                }
                match frame {
                    ReaderFrame::Quote => self.handle_obj(symbols, symbols.quote(obj)),
                    ReaderFrame::QuasiQuote => self.handle_obj(symbols, symbols.quasi_quote(obj)),
                    ReaderFrame::Unquote => self.handle_obj(symbols, symbols.unquote(obj)),
                    ReaderFrame::UnquoteSplice => self.handle_obj(
                        symbols,
                        symbols.unquote_splice(obj),
                    ),
                    ReaderFrame::Sexpr(lst) => {
                        let mut lst = lst;
                        let ghost lv = objs_view(lst@);
                        lst.push(obj);
                        proof {
                            assert(objs_view(lst@) =~= lv.push(ov));
                        }
                        self.stack.push(ReaderFrame::Sexpr(lst));
                        proof {
                            assert(self@ =~= st_pre.update(
                                st_pre.len() - 1,
                                FrameV::Sexpr(lv.push(ov)),
                            ));
                        }
                        None
                    },
                }
            },
            Option::None => Some(obj),
        }
    }

    /// Collects the contents of a string literal after its opening quote.
    fn parse_string(&mut self, lexer: &mut Lexer) -> (r: Result<LispObject, ReadError>)
        requires
            old(lexer).wf(),
            old(lexer).in_string,
        ensures
            final(self)@ == old(self)@,
            final(lexer).wf(),
            final(lexer).input@ == old(lexer).input@,
            match read_string_spec(old(lexer).input@, old(lexer).pos as int) {
                Result::Ok((txt, e2)) => {
                    &&& r matches Ok(v) && v@ == ObjView::String(txt)
                    &&& final(lexer).pos == e2
                    &&& !final(lexer).in_string
                },
                Result::Err(e) => r matches Err(e2) && e2 == e,
            },
    {
        let ghost s = lexer.input@;
        let ghost pos0 = lexer.pos as int;
        let mut acc = String::new();
        loop
            invariant
                lexer.wf(),
                lexer.in_string,
                lexer.input@ == s,
                s == old(lexer).input@,
                pos0 == old(lexer).pos as int,
                self@ == old(self)@,
                read_string_spec(s, pos0) == match read_string_spec(s, lexer.pos as int) {
                    Result::<(Seq<char>, int), ReadError>::Ok((rest, e2)) => Result::<
                        (Seq<char>, int),
                        ReadError,
                    >::Ok((acc@ + rest, e2)),
                    Result::<(Seq<char>, int), ReadError>::Err(e) => Result::<
                        (Seq<char>, int),
                        ReadError,
                    >::Err(e),
                },
            decreases s.len() - lexer.pos,
        {
            let ghost pos_pre = lexer.pos as int;
            let ghost acc_pre = acc@;
            proof {
                crate::lexer::lemma_lex_next_advances(s, pos_pre, true);
            }
            match lexer.next() {
                Option::None => {
                    return Err(ReadError::UnexpectedEndOfString);
                },
                Option::Some(Tokens::Object(_)) => {
                    return Err(ReadError::InternalError);
                },
                Option::Some(Tokens::String(StringT::Error)) => {
                    let sp = lexer.span();
                    return Err(ReadError::UnknownCharacter(sp.0, sp.1));
                },
                Option::Some(Tokens::String(StringT::EndString)) => {
                    proof {
                        assert(acc@ + Seq::<char>::empty() =~= acc@);
                    }
                    return Ok(LispObject::String(acc));
                },
                Option::Some(Tokens::String(StringT::Text(t))) => {
                    acc.append(t.as_str());
                    proof {
                        match read_string_spec(s, lexer.pos as int) {
                            Result::<(Seq<char>, int), ReadError>::Ok((rest, e2)) => {
                                assert(acc_pre + (t@ + rest) =~= acc@ + rest);
                            },
                            Result::<(Seq<char>, int), ReadError>::Err(_) => {},
                        }
                    }
                },
            }
        }
    }

    /// Closes the innermost open list; a close paren with no open list is a
    /// structural error at the current token span.
    fn pop_list(&mut self, lexer: &Lexer) -> (r: Result<LispObject, ReadError>)
        ensures
            ({
                let st = old(self)@;
                if st.len() > 0 && st.last() is Sexpr {
                    &&& r matches Ok(v) && v@ == ObjView::List(st.last()->Sexpr_0)
                    &&& final(self)@ == st.drop_last()
                } else {
                    r matches Err(e) && e == ReadError::UnexpectedRbrace(lexer.start, lexer.pos)
                }
            }),
    {
        let ghost st = self@;
        match self.stack.pop() {
            Option::Some(frame) => {
                proof {
                    assert(self@ =~= st.drop_last());
                    assert(st.last() == frame_view(frame));
                }
                match frame {
                    ReaderFrame::Sexpr(lst) => Ok(LispObject::List(lst)),
                    _ => {
                        let sp = lexer.span();
                        Err(ReadError::UnexpectedRbrace(sp.0, sp.1))
                    },
                }
            },
            Option::None => {
                let sp = lexer.span();
                Err(ReadError::UnexpectedRbrace(sp.0, sp.1))
            },
        }
    }

    /// Consumes tokens until one top-level object completes, the input
    /// ends, or a read error surfaces.
    fn parse_sexp(&mut self, symbols: &mut Symbols, lexer: &mut Lexer) -> (r: Result<
        Option<LispObject>,
        ReadError,
    >)
        requires
            old(symbols).wf(),
            old(lexer).wf(),
            !old(lexer).in_string,
        ensures
            final(symbols).wf(),
            final(lexer).wf(),
            final(lexer).input@ == old(lexer).input@,
            final(symbols).sym_quote == old(symbols).sym_quote,
            final(symbols).sym_quasiquote == old(symbols).sym_quasiquote,
            final(symbols).sym_unquote == old(symbols).sym_unquote,
            final(symbols).sym_unquote_splice == old(symbols).sym_unquote_splice,
            final(symbols).sym_rest == old(symbols).sym_rest,
            final(symbols).sym_fn == old(symbols).sym_fn,
            final(symbols).sym_macro == old(symbols).sym_macro,
            ({
                let spec_r = parse_sexp_spec(
                    prefix_ids(*old(symbols)),
                    old(symbols).names_view(),
                    old(self)@,
                    old(lexer).input@,
                    old(lexer).pos as int,
                );
                match r {
                    Ok(Option::Some(obj)) => {
                        &&& spec_r == (PS::Obj {
                            nm: final(symbols).names_view(),
                            stack: final(self)@,
                            obj: obj@,
                            pos: final(lexer).pos as int,
                        })
                        &&& !final(lexer).in_string
                        &&& old(lexer).pos < final(lexer).pos
                    },
                    Ok(Option::None) => spec_r == (PS::End {
                        nm: final(symbols).names_view(),
                        stack: final(self)@,
                    }),
                    Err(e) => spec_r == PS::Fail(e),
                }
            }),
    {
        let ghost ids = prefix_ids(*symbols);
        let ghost s = lexer.input@;
        let ghost nm0 = symbols.names_view();
        let ghost st0 = self@;
        let ghost pos0 = lexer.pos as int;
        loop
            invariant
                symbols.wf(),
                lexer.wf(),
                !lexer.in_string,
                lexer.input@ == s,
                ids == prefix_ids(*symbols),
                symbols.sym_quote == old(symbols).sym_quote,
                symbols.sym_quasiquote == old(symbols).sym_quasiquote,
                symbols.sym_unquote == old(symbols).sym_unquote,
                symbols.sym_unquote_splice == old(symbols).sym_unquote_splice,
                symbols.sym_rest == old(symbols).sym_rest,
                symbols.sym_fn == old(symbols).sym_fn,
                symbols.sym_macro == old(symbols).sym_macro,
                s == old(lexer).input@,
                nm0 == old(symbols).names_view(),
                st0 == old(self)@,
                pos0 == old(lexer).pos as int,
                ids == prefix_ids(*old(symbols)),
                pos0 <= lexer.pos as int,
                parse_sexp_spec(ids, nm0, st0, s, pos0) == parse_sexp_spec(
                    ids,
                    symbols.names_view(),
                    self@,
                    s,
                    lexer.pos as int,
                ),
            decreases s.len() - lexer.pos,
        {
            let ghost nm_pre = symbols.names_view();
            let ghost st_pre = self@;
            let ghost pos_pre = lexer.pos as int;
            proof {
                crate::lexer::lemma_lex_next_advances(s, pos_pre, false);
            }
            match lexer.next() {
                Option::None => {
                    return Ok(None);
                },
                Option::Some(Tokens::String(_)) => {
                    return Err(ReadError::InternalError);
                },
                Option::Some(Tokens::Object(ObjectT::Error)) => {
                    let sp = lexer.span();
                    return Err(ReadError::UnknownCharacter(sp.0, sp.1));
                },
                Option::Some(Tokens::Object(ObjectT::Quote)) => {
                    self.stack.push(ReaderFrame::Quote);
                    proof {
                        assert(self@ =~= st_pre.push(FrameV::Quote));
                    }
                },
                Option::Some(Tokens::Object(ObjectT::QuasiQuote)) => {
                    self.stack.push(ReaderFrame::QuasiQuote);
                    proof {
                        assert(self@ =~= st_pre.push(FrameV::QuasiQuote));
                    }
                },
                Option::Some(Tokens::Object(ObjectT::Unquote)) => {
                    self.stack.push(ReaderFrame::Unquote);
                    proof {
                        assert(self@ =~= st_pre.push(FrameV::Unquote));
                    }
                },
                Option::Some(Tokens::Object(ObjectT::UnquoteSplice)) => {
                    self.stack.push(ReaderFrame::UnquoteSplice);
                    proof {
                        assert(self@ =~= st_pre.push(FrameV::UnquoteSplice));
                    }
                },
                Option::Some(Tokens::Object(ObjectT::LBrace)) => {
                    self.stack.push(ReaderFrame::Sexpr(Vec::new()));
                    proof {
                        assert(objs_view(Seq::<LispObject>::empty()) =~= Seq::<
                            ObjView,
                        >::empty());
                        assert(self@ =~= st_pre.push(FrameV::Sexpr(Seq::empty())));
                    }
                },
                Option::Some(Tokens::Object(ObjectT::RBrace)) => {
                    let obj = match self.pop_list(lexer) {
                        Ok(o) => o,
                        Err(e) => {
                            return Err(e);
                        },
                    };
                    if let Option::Some(a) = self.handle_obj(symbols, obj) {
                        return Ok(Some(a));
                    }
                },
                Option::Some(Tokens::Object(ObjectT::Symbol(t))) => {
                    let obj = symbols.symbol(t.as_str());
                    if let Option::Some(a) = self.handle_obj(symbols, obj) {
                        return Ok(Some(a));
                    }
                },
                Option::Some(Tokens::Object(ObjectT::True)) => {
                    if let Option::Some(a) = self.handle_obj(symbols, LispObject::Bool(true)) {
                        return Ok(Some(a));
                    }
                },
                Option::Some(Tokens::Object(ObjectT::False)) => {
                    if let Option::Some(a) = self.handle_obj(symbols, LispObject::Bool(false)) {
                        return Ok(Some(a));
                    }
                },
                Option::Some(Tokens::Object(ObjectT::Number(n))) => {
                    if let Option::Some(a) = self.handle_obj(symbols, LispObject::Number(n)) {
                        return Ok(Some(a));
                    }
                },
                Option::Some(Tokens::Object(ObjectT::StartString)) => {
                    proof {
                        lemma_read_string_advances(s, lexer.pos as int);
                    }
                    let obj = match self.parse_string(lexer) {
                        Ok(o) => o,
                        Err(e) => {
                            return Err(e);
                        },
                    };
                    if let Option::Some(a) = self.handle_obj(symbols, obj) {
                        return Ok(Some(a));
                    }
                },
            }
        }
    }

    /// Feeds one text chunk to the reader, appending each completed
    /// top-level object to `prog`; an unfinished form stays on the stack for
    /// the next chunk.
    pub fn partial(&mut self, symbols: &mut Symbols, prog: &mut Vec<LispObject>, input: &str) -> (r:
        Result<(), ReadError>)
        requires
            old(symbols).wf(),
        ensures
            final(symbols).wf(),
            final(symbols).sym_quote == old(symbols).sym_quote,
            final(symbols).sym_quasiquote == old(symbols).sym_quasiquote,
            final(symbols).sym_unquote == old(symbols).sym_unquote,
            final(symbols).sym_unquote_splice == old(symbols).sym_unquote_splice,
            final(symbols).sym_rest == old(symbols).sym_rest,
            final(symbols).sym_fn == old(symbols).sym_fn,
            final(symbols).sym_macro == old(symbols).sym_macro,
            ({
                let spec_r = read_loop(
                    prefix_ids(*old(symbols)),
                    old(symbols).names_view(),
                    old(self)@,
                    objs_view(old(prog)@),
                    input@,
                    0,
                );
                match r {
                    Ok(()) => spec_r == (RL::Done {
                        nm: final(symbols).names_view(),
                        stack: final(self)@,
                        prog: objs_view(final(prog)@),
                    }),
                    Err(e) => spec_r == RL::Fail(e),
                }
            }),
    {
        let ghost ids = prefix_ids(*symbols);
        let ghost s = input@;
        let ghost nm0 = symbols.names_view();
        let ghost st0 = self@;
        let ghost pv0 = objs_view(prog@);
        let mut lexer = Lexer::new(input);
        loop
            invariant
                symbols.wf(),
                lexer.wf(),
                !lexer.in_string,
                lexer.input@ == s,
                ids == prefix_ids(*symbols),
                symbols.sym_quote == old(symbols).sym_quote,
                symbols.sym_quasiquote == old(symbols).sym_quasiquote,
                symbols.sym_unquote == old(symbols).sym_unquote,
                symbols.sym_unquote_splice == old(symbols).sym_unquote_splice,
                symbols.sym_rest == old(symbols).sym_rest,
                symbols.sym_fn == old(symbols).sym_fn,
                symbols.sym_macro == old(symbols).sym_macro,
                s == input@,
                nm0 == old(symbols).names_view(),
                st0 == old(self)@,
                pv0 == objs_view(old(prog)@),
                ids == prefix_ids(*old(symbols)),
                0 <= lexer.pos as int <= s.len(),
                read_loop(ids, nm0, st0, pv0, s, 0) == read_loop(
                    ids,
                    symbols.names_view(),
                    self@,
                    objs_view(prog@),
                    s,
                    lexer.pos as int,
                ),
            decreases s.len() - lexer.pos,
        {
            let ghost nm_pre = symbols.names_view();
            let ghost st_pre = self@;
            let ghost pv_pre = objs_view(prog@);
            let ghost pos_pre = lexer.pos as int;
            proof {
                lemma_parse_advances(ids, nm_pre, st_pre, s, pos_pre);
            }
            match self.parse_sexp(symbols, &mut lexer) {
                Ok(Option::Some(sexp)) => {
                    let ghost ov = sexp@;
                    prog.push(sexp);
                    proof {
                        assert(objs_view(prog@) =~= pv_pre.push(ov));
                    }
                },
                Ok(Option::None) => {
                    return Ok(());
                },
                Err(e) => {
                    return Err(e);
                },
            }
        }
    }
}

} // verus!