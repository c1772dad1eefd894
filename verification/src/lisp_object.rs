use vstd::prelude::*;

verus! {

/// The fixed, non-overridable operators of the language.
///
/// `Assign` is the `set` form (a binding write into the current scope).
#[derive(Clone, Copy, PartialEq, Eq, Structural, Debug)]
pub enum SpecialForm {
    Def,
    Assign,
    Fn,
    Macro,
    If,
    Let,
    Begin,
    Quote,
}

/// Identifies one of the built-in primitive functions.
#[derive(Clone, Copy, PartialEq, Eq, Structural, Debug)]
pub enum NativeFn {
    Add,
    Multiply,
    Subtract,
    Equal,
    First,
    Rest,
    ListOf,
    Concat,
    IsList,
    Length,
}

/// An interned symbol, compared by id only.
pub type Symbol = u64;

pub type Sexpr = Vec<LispObject>;

/// Positional parameter symbols plus an optional rest parameter.
pub type ParamList = (Vec<Symbol>, Option<Symbol>);

/// A runtime value. Lists own their elements outright: the value graph is a
/// strict tree and every transformation builds new values.
#[derive(Debug)]
pub enum LispObject {
    Bool(bool),
    SpecialForm(SpecialForm),
    Symbol(Symbol),
    String(String),
    Number(i64),
    List(Sexpr),
    Native(ParamList, NativeFn),
    Macro(ParamList, Sexpr),
    Lambda(ParamList, Sexpr),
}

/// The mathematical shape of a parameter list.
pub type ParamsView = (Seq<Symbol>, Option<Symbol>);

/// The mathematical shape of a value: lists and bodies become sequences,
/// strings become character sequences.
pub enum ObjView {
    Bool(bool),
    SpecialForm(SpecialForm),
    Symbol(Symbol),
    String(Seq<char>),
    Number(i64),
    List(Seq<ObjView>),
    Native(ParamsView, NativeFn),
    Macro(ParamsView, Seq<ObjView>),
    Lambda(ParamsView, Seq<ObjView>),
}

pub open spec fn params_view(p: ParamList) -> ParamsView {
    (p.0@, p.1)
}

pub open spec fn obj_view(o: LispObject) -> ObjView
    decreases o,
{
    match o {
        LispObject::Bool(b) => ObjView::Bool(b),
        LispObject::SpecialForm(sf) => ObjView::SpecialForm(sf),
        LispObject::Symbol(s) => ObjView::Symbol(s),
        LispObject::String(s) => ObjView::String(s@),
        LispObject::Number(n) => ObjView::Number(n),
        LispObject::List(l) => ObjView::List(
            Seq::new(
                l.len() as nat,
                |i: int|
                    if 0 <= i < l.len() {
                        obj_view(l[i])
                    } else {
                        vstd::pervasive::arbitrary()
                    },
            ),
        ),
        LispObject::Native(p, f) => ObjView::Native(params_view(p), f),
        LispObject::Macro(p, b) => ObjView::Macro(
            params_view(p),
            Seq::new(
                b.len() as nat,
                |i: int|
                    if 0 <= i < b.len() {
                        obj_view(b[i])
                    } else {
                        vstd::pervasive::arbitrary()
                    },
            ),
        ),
        LispObject::Lambda(p, b) => ObjView::Lambda(
            params_view(p),
            Seq::new(
                b.len() as nat,
                |i: int|
                    if 0 <= i < b.len() {
                        obj_view(b[i])
                    } else {
                        vstd::pervasive::arbitrary()
                    },
            ),
        ),
    }
}

/// The views of the elements of a form, in order.
pub open spec fn objs_view(l: Seq<LispObject>) -> Seq<ObjView> {
    Seq::new(l.len(), |i: int| obj_view(l[i]))
}

pub broadcast proof fn lemma_list_view(l: Sexpr)
    ensures
        #[trigger] obj_view(LispObject::List(l)) == ObjView::List(objs_view(l@)),
{
    assert(obj_view(LispObject::List(l))->List_0 =~= objs_view(l@));
}

pub broadcast proof fn lemma_macro_view(p: ParamList, b: Sexpr)
    ensures
        #[trigger] obj_view(LispObject::Macro(p, b)) == ObjView::Macro(
            params_view(p),
            objs_view(b@),
        ),
{
    assert(obj_view(LispObject::Macro(p, b))->Macro_1 =~= objs_view(b@));
}

pub broadcast proof fn lemma_lambda_view(p: ParamList, b: Sexpr)
    ensures
        #[trigger] obj_view(LispObject::Lambda(p, b)) == ObjView::Lambda(
            params_view(p),
            objs_view(b@),
        ),
{
    assert(obj_view(LispObject::Lambda(p, b))->Lambda_1 =~= objs_view(b@));
}

pub broadcast group group_obj_view {
    lemma_list_view,
    lemma_macro_view,
    lemma_lambda_view,
}

impl View for LispObject {
    type V = ObjView;

    open spec fn view(&self) -> ObjView {
        obj_view(*self)
    }
}

impl Clone for LispObject {
    /// A deep copy: the clone has the same mathematical value.
    fn clone(&self) -> (r: Self)
        ensures
            r@ == self@,
        decreases *self,
    {
        broadcast use group_obj_view;

        match self {
            LispObject::Bool(b) => LispObject::Bool(*b),
            LispObject::SpecialForm(sf) => LispObject::SpecialForm(*sf),
            LispObject::Symbol(s) => LispObject::Symbol(*s),
            LispObject::String(s) => LispObject::String(s.clone()),
            LispObject::Number(n) => LispObject::Number(*n),
            LispObject::List(l) => LispObject::List(clone_sexpr(l)),
            LispObject::Native(p, f) => LispObject::Native(clone_params(p), *f),
            LispObject::Macro(p, b) => LispObject::Macro(clone_params(p), clone_sexpr(b)),
            LispObject::Lambda(p, b) => LispObject::Lambda(clone_params(p), clone_sexpr(b)),
        }
    }
}

/// Deep copy of a sequence of values.
pub fn clone_sexpr(l: &Sexpr) -> (r: Sexpr)
    ensures
        objs_view(r@) == objs_view(l@),
        r@.len() == l@.len(),
    decreases l,
{
    let mut r: Sexpr = Vec::new();
    let mut i: usize = 0;
    while i < l.len()
        invariant
            i <= l.len(),
            r@.len() == i,
            forall|j: int| 0 <= j < i ==> obj_view(#[trigger] r@[j]) == obj_view(l@[j]),
        decreases l@.len() - i,
    {
        proof {
            assert(obj_view(l[i as int]) == obj_view(l@[i as int]));
        }
        r.push(l[i].clone());
        i = i + 1;
    }
    proof {
        assert(objs_view(r@) =~= objs_view(l@));
    }
    r
}

/// The declaration of one built-in primitive: the name it is bound under,
/// its parameter names, and its dispatch tag.
pub struct NativeDef {
    pub name: String,
    pub positional: Vec<String>,
    pub rest: Option<String>,
    pub func: NativeFn,
}

/// The index path of a failure site within one form, innermost index pushed
/// first while the error unwinds.
pub type Trace = Vec<usize>;

/// A snapshot taken when an error crosses a call boundary: the form being
/// evaluated at that layer, the trace gathered there, and an optional label.
pub type Frame = (LispObject, Trace, Option<String>);

/// A semantic failure, carrying the data needed to point at the exact
/// sub-expression that caused it.
#[derive(Debug)]
pub struct EvalError {
    pub message: String,
    pub frames: Vec<Frame>,
    pub trace: Trace,
}

/// The mathematical shape of an evaluation error.
pub struct ErrView {
    pub msg: Seq<char>,
    pub frames: Seq<(ObjView, Seq<usize>, Option<Seq<char>>)>,
    pub trace: Seq<usize>,
}

pub open spec fn opt_str_view(o: Option<String>) -> Option<Seq<char>> {
    match o {
        Option::Some(s) => Option::Some(s@),
        Option::None => Option::None,
    }
}

pub open spec fn frame_view(f: Frame) -> (ObjView, Seq<usize>, Option<Seq<char>>) {
    (obj_view(f.0), f.1@, opt_str_view(f.2))
}

impl View for EvalError {
    type V = ErrView;

    open spec fn view(&self) -> ErrView {
        ErrView {
            msg: self.message@,
            frames: Seq::new(self.frames@.len(), |i: int| frame_view(self.frames@[i])),
            trace: self.trace@,
        }
    }
}

/// A fresh error with the given message and no localisation yet.
pub open spec fn err_new(msg: Seq<char>) -> ErrView {
    ErrView { msg, frames: Seq::empty(), trace: Seq::empty() }
}

/// The error as re-raised by an enclosing evaluation at child index `i`.
pub open spec fn err_trace(e: ErrView, i: usize) -> ErrView {
    ErrView { msg: e.msg, frames: e.frames, trace: e.trace.push(i) }
}

/// The error as it crosses a call boundary: the current layer is snapshotted
/// and the trace starts over for the outer layer.
pub open spec fn err_frame(e: ErrView, form: ObjView, place: Option<Seq<char>>) -> ErrView {
    ErrView {
        msg: e.msg,
        frames: e.frames.push((form, e.trace, place)),
        trace: Seq::empty(),
    }
}

impl EvalError {
    pub fn new(message: String) -> (e: EvalError)
        ensures
            e@ == err_new(message@),
    {
        let e = EvalError { message, trace: Vec::new(), frames: Vec::new() };
        proof {
            assert(e@.frames =~= Seq::<(ObjView, Seq<usize>, Option<Seq<char>>)>::empty());
            assert(e@ == err_new(e.message@));
        }
        e
    }

    pub fn trace(self, index: usize) -> (e: EvalError)
        ensures
            e@ == err_trace(self@, index),
    {
        let ghost pre = self@;
        let EvalError { message, frames, mut trace } = self;
        trace.push(index);
        let e = EvalError { message, frames, trace };
        proof {
            assert(e@.frames =~= pre.frames);
            assert(e@ == err_trace(pre, index));
        }
        e
    }

    pub fn frame(self, expr: LispObject, place: Option<String>) -> (e: EvalError)
        ensures
            e@ == err_frame(self@, expr@, opt_str_view(place)),
    {
        let ghost pre = self@;
        let ghost pl = opt_str_view(place);
        let EvalError { message, mut frames, trace } = self;
        frames.push((expr, trace, place));
        let e = EvalError { message, frames, trace: Vec::new() };
        proof {
            assert(e@.frames =~= pre.frames.push((obj_view(expr), pre.trace, pl)));
            assert(e@.trace =~= Seq::<usize>::empty());
            assert(e@ == err_frame(pre, obj_view(expr), pl));
        }
        e
    }
}

pub open spec fn msg_expected_bool() -> Seq<char> {
    "Expected a bool"@
}

pub open spec fn msg_expected_number() -> Seq<char> {
    "Expected a number"@
}

pub open spec fn msg_expected_symbol() -> Seq<char> {
    "Expected a symbol"@
}

pub open spec fn msg_expected_list() -> Seq<char> {
    "Expected a list"@
}

impl LispObject {
    pub fn as_bool(&self) -> (r: Result<bool, EvalError>)
        ensures
            match *self {
                LispObject::Bool(b) => r matches Ok(rb) && rb == b,
                _ => r matches Err(e) && e@ == err_new(msg_expected_bool()),
            },
    {
        match self {
            LispObject::Bool(b) => Ok(*b),
            _ => Err(EvalError::new("Expected a bool".to_owned())),
        }
    }

    pub fn as_number(&self) -> (r: Result<i64, EvalError>)
        ensures
            match *self {
                LispObject::Number(n) => r matches Ok(rn) && rn == n,
                _ => r matches Err(e) && e@ == err_new(msg_expected_number()),
            },
    {
        match self {
            LispObject::Number(n) => Ok(*n),
            _ => Err(EvalError::new("Expected a number".to_owned())),
        }
    }

    pub fn as_symbol(&self) -> (r: Result<Symbol, EvalError>)
        ensures
            match *self {
                LispObject::Symbol(s) => r matches Ok(rs) && rs == s,
                _ => r matches Err(e) && e@ == err_new(msg_expected_symbol()),
            },
    {
        match self {
            LispObject::Symbol(s) => Ok(*s),
            _ => Err(EvalError::new("Expected a symbol".to_owned())),
        }
    }

    pub fn as_list(&self) -> (r: Result<Sexpr, EvalError>)
        ensures
            match *self {
                LispObject::List(l) => r matches Ok(rl) && objs_view(rl@) == objs_view(l@),
                _ => r matches Err(e) && e@ == err_new(msg_expected_list()),
            },
    {
        match self {
            LispObject::List(l) => Ok(clone_sexpr(l)),
            _ => Err(EvalError::new("Expected a list".to_owned())),
        }
    }

    pub fn into_list(self) -> (r: Result<Sexpr, EvalError>)
        ensures
            match self {
                LispObject::List(l) => r matches Ok(rl) && rl == l,
                _ => r matches Err(e) && e@ == err_new(msg_expected_list()),
            },
    {
        match self {
            LispObject::List(l) => Ok(l),
            _ => Err(EvalError::new("Expected a list".to_owned())),
        }
    }
}

pub fn clone_params(p: &ParamList) -> (r: ParamList)
    ensures
        params_view(r) == params_view(*p),
{
    let mut pos: Vec<Symbol> = Vec::new();
    let mut i: usize = 0;
    while i < p.0.len()
        invariant
            i <= p.0.len(),
            pos@ == p.0@.take(i as int),
        decreases p.0@.len() - i,
    {
        pos.push(p.0[i]);
        i = i + 1;
    }
    proof {
        assert(pos@ =~= p.0@);
    }
    (pos, p.1)
}

} // verus!
