use vstd::prelude::*;

use crate::lisp_object::{
    obj_view, objs_view, opt_str_view, params_view, LispObject, NativeDef, ObjView, ParamList,
    ParamsView, SpecialForm, Symbol,
};
use crate::native::{def_name, def_positional, def_rest};
use crate::lisp_object::NativeFn;

verus! {

/// The names the interner knows, in id order: symbol `i` names `nm[i]`.
pub open spec fn name_id(nm: Seq<Seq<char>>, name: Seq<char>) -> Option<int>
    decreases nm.len(),
{
    if nm.len() == 0 {
        Option::None
    } else if nm[0] == name {
        Option::Some(0int)
    } else {
        match name_id(nm.drop_first(), name) {
            Option::Some(i) => Option::Some(i + 1),
            Option::None => Option::None,
        }
    }
}

pub proof fn lemma_name_id_none(nm: Seq<Seq<char>>, name: Seq<char>)
    requires
        forall|j: int| 0 <= j < nm.len() ==> nm[j] != name,
    ensures
        name_id(nm, name) is None,
    decreases nm.len(),
{
    if nm.len() > 0 {
        lemma_name_id_none(nm.drop_first(), name);
    }
}

pub proof fn lemma_name_id_at(nm: Seq<Seq<char>>, name: Seq<char>, i: int)
    requires
        0 <= i < nm.len(),
        nm[i] == name,
        forall|j: int| 0 <= j < i ==> nm[j] != name,
    ensures
        name_id(nm, name) == Option::Some(i),
    decreases nm.len(),
{
    if i > 0 {
        lemma_name_id_at(nm.drop_first(), name, i - 1);
    }
}

pub proof fn lemma_name_id_none_inv(nm: Seq<Seq<char>>, name: Seq<char>)
    requires
        name_id(nm, name) is None,
    ensures
        forall|j: int| 0 <= j < nm.len() ==> nm[j] != name,
    decreases nm.len(),
{
    if nm.len() > 0 {
        lemma_name_id_none_inv(nm.drop_first(), name);
        assert forall|j: int| 0 <= j < nm.len() implies nm[j] != name by {
            if j > 0 {
                assert(nm.drop_first()[j - 1] != name);
            }
        }
    }
}

/// What `intern` does to the interner: an existing name keeps its id, a new
/// name is registered under the next id.
pub open spec fn intern_spec(nm: Seq<Seq<char>>, name: Seq<char>) -> (Seq<Seq<char>>, Symbol) {
    match name_id(nm, name) {
        Option::Some(i) => (nm, i as Symbol),
        Option::None => (nm.push(name), nm.len() as Symbol),
    }
}

/// The names the interner registers eagerly, in id order.
pub open spec fn initial_names() -> Seq<Seq<char>> {
    seq![
        "quote"@,
        "quasiquote"@,
        "unquote"@,
        "unquote-splice"@,
        "&rest"@,
        "fn"@,
        "macro"@,
    ]
}

/// The string <-> id bijection; a handful of well-known names are interned
/// eagerly because the reader and the parameter-list parser compare against
/// them by id.
pub struct Symbols {
    pub names: Vec<String>,
    pub sym_quote: Symbol,
    pub sym_quasiquote: Symbol,
    pub sym_unquote: Symbol,
    pub sym_unquote_splice: Symbol,
    pub sym_rest: Symbol,
    pub sym_fn: Symbol,
    pub sym_macro: Symbol,
}

impl Symbols {
    pub open spec fn names_view(&self) -> Seq<Seq<char>> {
        Seq::new(self.names@.len(), |i: int| self.names@[i]@)
    }

    /// Distinct names, and the well-known ids bound to their names.
    pub open spec fn wf(&self) -> bool {
        let nm = self.names_view();
        &&& forall|i: int, j: int| 0 <= i < j < nm.len() ==> nm[i] != nm[j]
        &&& nm.len() >= 7
        &&& self.sym_quote == 0 && nm[0] == "quote"@
        &&& self.sym_quasiquote == 1 && nm[1] == "quasiquote"@
        &&& self.sym_unquote == 2 && nm[2] == "unquote"@
        &&& self.sym_unquote_splice == 3 && nm[3] == "unquote-splice"@
        &&& self.sym_rest == 4 && nm[4] == "&rest"@
        &&& self.sym_fn == 5 && nm[5] == "fn"@
        &&& self.sym_macro == 6 && nm[6] == "macro"@
    }

    pub fn new() -> (s: Symbols)
        ensures
            s.wf(),
            s.names_view() =~~= initial_names(),
    {
        let mut names: Vec<String> = Vec::new();
        names.push("quote".to_owned());
        names.push("quasiquote".to_owned());
        names.push("unquote".to_owned());
        names.push("unquote-splice".to_owned());
        names.push("&rest".to_owned());
        names.push("fn".to_owned());
        names.push("macro".to_owned());
        let s = Symbols {
            names,
            sym_quote: 0,
            sym_quasiquote: 1,
            sym_unquote: 2,
            sym_unquote_splice: 3,
            sym_rest: 4,
            sym_fn: 5,
            sym_macro: 6,
        };
        proof {
            reveal_strlit("quote");
            reveal_strlit("quasiquote");
            reveal_strlit("unquote");
            reveal_strlit("unquote-splice");
            reveal_strlit("&rest");
            reveal_strlit("fn");
            reveal_strlit("macro");
            assert(s.names_view() =~~= seq![
                "quote"@,
                "quasiquote"@,
                "unquote"@,
                "unquote-splice"@,
                "&rest"@,
                "fn"@,
                "macro"@,
            ]);
            let nm = s.names_view();
            assert(nm[0][0] == 'q' && nm[4][0] == '&' && nm[6][0] == 'm');
            assert(nm[0].len() == 5 && nm[1].len() == 10 && nm[2].len() == 7 && nm[3].len()
                == 14 && nm[4].len() == 5 && nm[5].len() == 2 && nm[6].len() == 5);
            assert forall|i: int, j: int| 0 <= i < j < nm.len() implies nm[i] != nm[j] by {
                assert(nm[0] != nm[4] && nm[0] != nm[6] && nm[4] != nm[6]);
            }
        }
        s
    }

    /// The id under which a name is already registered, if any.
    fn lookup_id(&self, key: &String) -> (r: Option<usize>)
        ensures
            match r {
                Option::Some(i) => name_id(self.names_view(), key@) == Option::Some(i as int),
                Option::None => name_id(self.names_view(), key@) is None,
            },
    {
        let ghost nm = self.names_view();
        let mut i: usize = 0;
        while i < self.names.len()
            invariant
                i <= self.names.len(),
                nm == self.names_view(),
                forall|j: int| 0 <= j < i ==> nm[j] != key@,
            decreases self.names@.len() - i,
        {
            if self.names[i] == *key {
                proof {
                    lemma_name_id_at(nm, key@, i as int);
                }
                return Some(i);
            }
            i = i + 1;
        }
        proof {
            lemma_name_id_none(nm, key@);
        }
        None
    }

    /// Returns the existing id of a previously seen name, or registers the
    /// name under the next id.
    pub fn intern(&mut self, name: &str) -> (r: Symbol)
        requires
            old(self).wf(),
        ensures
            final(self).wf(),
            (final(self).names_view(), r) == intern_spec(old(self).names_view(), name@),
            final(self).sym_quote == old(self).sym_quote,
            final(self).sym_quasiquote == old(self).sym_quasiquote,
            final(self).sym_unquote == old(self).sym_unquote,
            final(self).sym_unquote_splice == old(self).sym_unquote_splice,
            final(self).sym_rest == old(self).sym_rest,
            final(self).sym_fn == old(self).sym_fn,
            final(self).sym_macro == old(self).sym_macro,
    {
        let ghost nm = self.names_view();
        let key = name.to_owned();
        match self.lookup_id(&key) {
            Option::Some(i) => i as Symbol,
            Option::None => {
                let r = self.names.len() as Symbol;
                self.names.push(key);
                proof {
                    assert(self.names_view() =~~= nm.push(name@));
                    lemma_name_id_none_inv(nm, name@);
                    let nm2 = self.names_view();
                    assert forall|i: int, j: int| 0 <= i < j < nm2.len() implies nm2[i]
                        != nm2[j] by {
                        if j < nm.len() {
                            assert(nm[i] != nm[j]);
                        } else {
                            assert(nm[i] != name@);
                        }
                    }
                }
                r
            },
        }
    }

    /// Interns `name` and wraps the id as a value.
    pub fn symbol(&mut self, name: &str) -> (r: LispObject)
        requires
            old(self).wf(),
        ensures
            final(self).wf(),
            ({
                let (nm, id) = intern_spec(old(self).names_view(), name@);
                final(self).names_view() == nm && r@ == ObjView::Symbol(id)
            }),
    {
        LispObject::Symbol(self.intern(name))
    }

    /// Wraps an object as `(quote obj)`.
    pub fn quote(&self, obj: LispObject) -> (r: LispObject)
        ensures
            r@ == ObjView::List(seq![ObjView::Symbol(self.sym_quote), obj@]),
    {
        wrap_prefix(self.sym_quote, obj)
    }

    /// Wraps an object as `(quasiquote obj)`.
    pub fn quasi_quote(&self, obj: LispObject) -> (r: LispObject)
        ensures
            r@ == ObjView::List(seq![ObjView::Symbol(self.sym_quasiquote), obj@]),
    {
        wrap_prefix(self.sym_quasiquote, obj)
    }

    /// Wraps an object as `(unquote obj)`.
    pub fn unquote(&self, obj: LispObject) -> (r: LispObject)
        ensures
            r@ == ObjView::List(seq![ObjView::Symbol(self.sym_unquote), obj@]),
    {
        wrap_prefix(self.sym_unquote, obj)
    }

    /// Wraps an object as `(unquote-splice obj)`.
    pub fn unquote_splice(&self, obj: LispObject) -> (r: LispObject)
        ensures
            r@ == ObjView::List(seq![ObjView::Symbol(self.sym_unquote_splice), obj@]),
    {
        wrap_prefix(self.sym_unquote_splice, obj)
    }

    /// The name a symbol id stands for, used only for diagnostics.
    pub fn as_string(&self, sym: &Symbol) -> (r: Option<&str>)
        ensures
            match r {
                Option::Some(s) => *sym < self.names_view().len() && s@ == self.names_view()[*sym as int],
                Option::None => *sym >= self.names_view().len(),
            },
    {
        if *sym < self.names.len() as u64 {
            Some(self.names[*sym as usize].as_str())
        } else {
            None
        }
    }
}

/// A two-element list `(sym obj)`, as built for reader-macro prefixes.
pub fn wrap_prefix(sym: Symbol, obj: LispObject) -> (r: LispObject)
    ensures
        r@ == ObjView::List(seq![ObjView::Symbol(sym), obj@]),
{
    broadcast use crate::lisp_object::group_obj_view;

    let mut l: Vec<LispObject> = Vec::new();
    l.push(LispObject::Symbol(sym));
    l.push(obj);
    let r = LispObject::List(l);
    proof {
        assert(objs_view(r->List_0@) =~= seq![ObjView::Symbol(sym), obj@]);
    }
    r
}

/// What a scope binds: later entries shadow earlier ones for the same symbol.
pub open spec fn scope_lookup(s: Seq<(Symbol, ObjView)>, k: Symbol) -> Option<ObjView>
    decreases s.len(),
{
    if s.len() == 0 {
        Option::None
    } else if s.last().0 == k {
        Option::Some(s.last().1)
    } else {
        scope_lookup(s.drop_last(), k)
    }
}

/// Resolution scans scopes innermost (last) to outermost (first); the first
/// scope that binds the symbol wins.
pub open spec fn env_lookup(env: Seq<Seq<(Symbol, ObjView)>>, k: Symbol) -> Option<ObjView>
    decreases env.len(),
{
    if env.len() == 0 {
        Option::None
    } else {
        match scope_lookup(env.last(), k) {
            Option::Some(v) => Option::Some(v),
            Option::None => env_lookup(env.drop_last(), k),
        }
    }
}

/// Writing into the current (topmost) scope.
pub open spec fn env_set(env: Seq<Seq<(Symbol, ObjView)>>, k: Symbol, v: ObjView) -> Seq<
    Seq<(Symbol, ObjView)>,
> {
    if env.len() == 0 {
        env
    } else {
        env.update(env.len() - 1, env.last().push((k, v)))
    }
}

/// Writing into the bottommost (global) scope.
pub open spec fn env_global(env: Seq<Seq<(Symbol, ObjView)>>, k: Symbol, v: ObjView) -> Seq<
    Seq<(Symbol, ObjView)>,
> {
    if env.len() == 0 {
        env
    } else {
        env.update(0, env[0].push((k, v)))
    }
}

pub type Scope = Vec<(Symbol, LispObject)>;

pub open spec fn scope_view(s: Seq<(Symbol, LispObject)>) -> Seq<(Symbol, ObjView)> {
    Seq::new(s.len(), |i: int| (s[i].0, obj_view(s[i].1)))
}

/// The ordered stack of scopes, innermost last.
pub struct Env {
    pub vars: Vec<Scope>,
}

impl View for Env {
    type V = Seq<Seq<(Symbol, ObjView)>>;

    open spec fn view(&self) -> Seq<Seq<(Symbol, ObjView)>> {
        Seq::new(self.vars@.len(), |i: int| scope_view(self.vars@[i]@))
    }
}

impl Env {
    pub fn new() -> (e: Env)
        ensures
            e@ =~~= seq![Seq::<(Symbol, ObjView)>::empty()],
    {
        let mut vars: Vec<Scope> = Vec::new();
        vars.push(Vec::new());
        let e = Env { vars };
        proof {
            assert(e@ =~~= seq![Seq::<(Symbol, ObjView)>::empty()]);
        }
        e
    }

    pub fn push_scope(&mut self)
        ensures
            final(self)@ =~~= old(self)@.push(Seq::<(Symbol, ObjView)>::empty()),
    {
        self.vars.push(Vec::new());
        proof {
            assert(self@ =~~= old(self)@.push(Seq::<(Symbol, ObjView)>::empty()));
        }
    }

    pub fn pop_scope(&mut self)
        ensures
            old(self)@.len() > 0 ==> final(self)@ =~~= old(self)@.drop_last(),
            old(self)@.len() == 0 ==> final(self)@ == old(self)@,
    {
        let _ = self.vars.pop();
        proof {
            if old(self)@.len() > 0 {
                assert(self@ =~~= old(self)@.drop_last());
            } else {
                assert(self@ =~~= old(self)@);
            }
        }
    }

    /// Binds in the current scope only; it does not search outward.
    pub fn set(&mut self, key: Symbol, value: LispObject)
        ensures
            final(self)@ =~~= env_set(old(self)@, key, value@),
    {
        let ghost pre = self@;
        let n = self.vars.len();
        if n > 0 {
            let scope = &mut self.vars[n - 1];
            scope.push((key, value));
        }
        proof {
            if pre.len() > 0 {
                assert(scope_view(self.vars@[pre.len() - 1]@) =~= pre.last().push(
                    (key, obj_view(value)),
                ));
            }
            assert(self@ =~~= env_set(pre, key, obj_view(value)));
        }
    }

    /// Defines in the bottommost (global) scope.
    pub fn global(&mut self, key: Symbol, value: LispObject)
        ensures
            final(self)@ =~~= env_global(old(self)@, key, value@),
    {
        let ghost pre = self@;
        if self.vars.len() > 0 {
            let scope = &mut self.vars[0];
            scope.push((key, value));
        }
        proof {
            if pre.len() > 0 {
                assert(scope_view(self.vars@[0]@) =~= pre[0].push((key, obj_view(value))));
            }
            assert(self@ =~~= env_global(pre, key, obj_view(value)));
        }
    }

    /// Innermost-to-outermost scan; the first hit wins; no match means the
    /// symbol is unbound.
    pub fn resolve(&self, key: &Symbol) -> (r: Option<&LispObject>)
        ensures
            match r {
                Option::Some(v) => env_lookup(self@, *key) == Option::Some(obj_view(*v)),
                Option::None => env_lookup(self@, *key) is None,
            },
    {
        let mut si: usize = self.vars.len();
        proof {
            assert(self@.take(si as int) =~= self@);
        }
        while si > 0
            invariant
                si <= self.vars.len(),
                env_lookup(self@, *key) == env_lookup(self@.take(si as int), *key),
            decreases si,
        {
            si = si - 1;
            let scope = &self.vars[si];
            let ghost sv = scope_view(scope@);
            let mut j: usize = scope.len();
            proof {
                assert(sv.take(j as int) =~= sv);
            }
            while j > 0
                invariant
                    si < self.vars.len(),
                    scope == &self.vars@[si as int],
                    sv == scope_view(scope@),
                    j <= scope.len(),
                    env_lookup(self@, *key) == env_lookup(self@.take(si as int + 1), *key),
                    scope_lookup(sv, *key) == scope_lookup(sv.take(j as int), *key),
                decreases j,
            {
                j = j - 1;
                if scope[j].0 == *key {
                    proof {
                        assert(sv.take(j as int + 1).last() == (scope@[j as int].0, obj_view(
                            scope@[j as int].1,
                        )));
                        assert(scope_lookup(sv.take(j as int + 1), *key) == Option::Some(
                            obj_view(scope@[j as int].1),
                        ));
                        assert(self@[si as int] == sv);
                        lemma_env_take_unfold(self@, *key, si as int);
                    }
                    return Some(&scope[j].1);
                }
                proof {
                    assert(sv.take(j as int + 1).drop_last() =~= sv.take(j as int));
                }
            }
            proof {
                assert(sv.take(0) =~= Seq::<(Symbol, ObjView)>::empty());
                assert(self@[si as int] == sv);
                lemma_env_take_unfold(self@, *key, si as int);
            }
        }
        proof {
            assert(self@.take(0) =~= Seq::<Seq<(Symbol, ObjView)>>::empty());
        }
        None
    }
}

/// Unfolds one step of the innermost-to-outermost scan over a prefix of the
/// scope stack.
proof fn lemma_env_take_unfold(env: Seq<Seq<(Symbol, ObjView)>>, k: Symbol, si: int)
    requires
        0 <= si < env.len(),
    ensures
        env_lookup(env.take(si + 1), k) == match scope_lookup(env[si], k) {
            Option::Some(v) => Option::Some(v),
            Option::None => env_lookup(env.take(si), k),
        },
{
    assert(env.take(si + 1).last() == env[si]);
    assert(env.take(si + 1).drop_last() =~= env.take(si));
}


/// The decimal digits of `m`, most significant first.
pub open spec fn digit_char(d: nat) -> char {
    if d == 0 {
        '0'
    } else if d == 1 {
        '1'
    } else if d == 2 {
        '2'
    } else if d == 3 {
        '3'
    } else if d == 4 {
        '4'
    } else if d == 5 {
        '5'
    } else if d == 6 {
        '6'
    } else if d == 7 {
        '7'
    } else if d == 8 {
        '8'
    } else {
        '9'
    }
}

pub open spec fn dec_digits(m: nat) -> Seq<char>
    decreases m,
{
    if m < 10 {
        seq![digit_char(m)]
    } else {
        dec_digits(m / 10).push(digit_char(m % 10))
    }
}

/// The decimal rendering of an integer, with a leading minus sign when
/// negative.
pub open spec fn int_to_dec(n: int) -> Seq<char> {
    if n < 0 {
        seq!['-'] + dec_digits((-n) as nat)
    } else {
        dec_digits(n as nat)
    }
}

fn digit_str(d: u64) -> (r: &'static str)
    requires
        d < 10,
    ensures
        r@ == seq![digit_char(d as nat)],
{
    proof {
        reveal_strlit("0");
        reveal_strlit("1");
        reveal_strlit("2");
        reveal_strlit("3");
        reveal_strlit("4");
        reveal_strlit("5");
        reveal_strlit("6");
        reveal_strlit("7");
        reveal_strlit("8");
        reveal_strlit("9");
    }
    let r = if d == 0 {
        "0"
    } else if d == 1 {
        "1"
    } else if d == 2 {
        "2"
    } else if d == 3 {
        "3"
    } else if d == 4 {
        "4"
    } else if d == 5 {
        "5"
    } else if d == 6 {
        "6"
    } else if d == 7 {
        "7"
    } else if d == 8 {
        "8"
    } else {
        "9"
    };
    proof {
        assert(r@ =~= seq![digit_char(d as nat)]);
    }
    r
}

/// Appends the decimal rendering of an unsigned count.
pub fn push_digits(out: &mut String, m: u64)
    ensures
        final(out)@ == old(out)@ + dec_digits(m as nat),
    decreases m,
{
    if m < 10 {
        out.append(digit_str(m));
        proof {
            assert(final(out)@ =~= old(out)@ + dec_digits(m as nat));
        }
    } else {
        push_digits(out, m / 10);
        out.append(digit_str(m % 10));
        proof {
            assert(final(out)@ =~= old(out)@ + dec_digits(m as nat));
        }
    }
}

/// Appends the decimal rendering of `n`.
pub fn push_number(out: &mut String, n: i64)
    ensures
        final(out)@ == old(out)@ + int_to_dec(n as int),
{
    if n < 0 {
        out.append("-");
        let m: u64 = ((-(n + 1)) as u64) + 1;
        proof {
            reveal_strlit("-");
            assert(m as nat == (-(n as int)) as nat);
        }
        push_digits(out, m);
        proof {
            assert(final(out)@ =~= old(out)@ + int_to_dec(n as int));
        }
    } else {
        push_digits(out, n as u64);
    }
}

/// The serialized form of a number.
pub fn number_to_string(n: i64) -> (r: String)
    ensures
        r@ == int_to_dec(n as int),
{
    let mut out = String::new();
    push_number(&mut out, n);
    proof {
        assert(out@ =~= int_to_dec(n as int));
    }
    out
}

/// The name of a symbol id, or the placeholder for an id the interner never
/// issued.
pub open spec fn name_or_uninterned(nm: Seq<Seq<char>>, s: Symbol) -> Seq<char> {
    if s < nm.len() {
        nm[s as int]
    } else {
        "~~uninterned~~"@
    }
}

/// The display name of a special form.
pub open spec fn sf_name(sf: SpecialForm) -> Seq<char> {
    match sf {
        SpecialForm::Def => "def"@,
        SpecialForm::Assign => "set"@,
        SpecialForm::Fn => "fn"@,
        SpecialForm::Macro => "macro"@,
        SpecialForm::If => "if"@,
        SpecialForm::Let => "let"@,
        SpecialForm::Begin => "begin"@,
        SpecialForm::Quote => "quote"@,
    }
}

/// The display name of a special form; this is also the name it is bound
/// under in the root environment.
pub fn special_form_name(sf: SpecialForm) -> (r: &'static str)
    ensures
        r@ == sf_name(sf),
{
    match sf {
        SpecialForm::Def => "def",
        SpecialForm::Assign => "set",
        SpecialForm::Fn => "fn",
        SpecialForm::Macro => "macro",
        SpecialForm::If => "if",
        SpecialForm::Let => "let",
        SpecialForm::Begin => "begin",
        SpecialForm::Quote => "quote",
    }
}

/// Serialization of a value. Every consumer of rendered forms uses exactly
/// this rule, so that offsets computed against it stay valid.
pub open spec fn ser_obj(nm: Seq<Seq<char>>, v: ObjView) -> Seq<char>
    decreases v,
{
    match v {
        ObjView::Symbol(s) => name_or_uninterned(nm, s),
        ObjView::List(l) => seq!['('] + ser_join(nm, l) + seq![')'],
        ObjView::Macro(ps, fs) => "macro "@ + ser_params(nm, ps) + ser_join(nm, fs),
        ObjView::Lambda(ps, fs) => "(fn "@ + ser_params(nm, ps) + seq![' '] + ser_join(nm, fs)
            + seq![')'],
        ObjView::Bool(b) => if b {
            "#t"@
        } else {
            "#f"@
        },
        ObjView::SpecialForm(sf) => sf_name(sf),
        ObjView::String(s) => seq!['"'] + s + seq!['"'],
        ObjView::Number(n) => int_to_dec(n as int),
        ObjView::Native(ps, _f) => "(~~ "@ + ser_params(nm, ps) + " ~~)"@,
    }
}

/// The elements of a form joined by single spaces.
pub open spec fn ser_join(nm: Seq<Seq<char>>, items: Seq<ObjView>) -> Seq<char>
    decreases items,
{
    if items.len() == 0 {
        Seq::empty()
    } else {
        ser_obj(nm, items[0]) + ser_rest(nm, items.drop_first())
    }
}

pub open spec fn ser_rest(nm: Seq<Seq<char>>, items: Seq<ObjView>) -> Seq<char>
    decreases items,
{
    if items.len() == 0 {
        Seq::empty()
    } else {
        seq![' '] + ser_obj(nm, items[0]) + ser_rest(nm, items.drop_first())
    }
}

/// Positional parameter names joined by single spaces.
pub open spec fn join_names(nm: Seq<Seq<char>>, ps: Seq<Symbol>) -> Seq<char>
    decreases ps.len(),
{
    if ps.len() == 0 {
        Seq::empty()
    } else if ps.len() == 1 {
        name_or_uninterned(nm, ps[0])
    } else {
        name_or_uninterned(nm, ps[0]) + seq![' '] + join_names(nm, ps.drop_first())
    }
}

pub open spec fn ser_rest_param(nm: Seq<Seq<char>>, r: Option<Symbol>) -> Seq<char> {
    match r {
        Option::Some(s) => " &rest "@ + name_or_uninterned(nm, s),
        Option::None => Seq::empty(),
    }
}

/// A parameter list rendered as `(a b &rest r)`.
pub open spec fn ser_params(nm: Seq<Seq<char>>, p: ParamsView) -> Seq<char> {
    seq!['('] + join_names(nm, p.0) + ser_rest_param(nm, p.1) + seq![')']
}

impl Symbols {
    fn push_name(&self, out: &mut String, sym: u64)
        ensures
            final(out)@ == old(out)@ + name_or_uninterned(self.names_view(), sym),
    {
        if sym < self.names.len() as u64 {
            out.append(self.names[sym as usize].as_str());
        } else {
            out.append("~~uninterned~~");
        }
    }

    fn push_obj(&self, out: &mut String, obj: &LispObject)
        ensures
            final(out)@ == old(out)@ + ser_obj(self.names_view(), obj@),
        decreases *obj, 0nat,
    {
        broadcast use crate::lisp_object::group_obj_view;

        let ghost nm = self.names_view();
        match obj {
            LispObject::Symbol(s) => {
                self.push_name(out, *s);
            },
            LispObject::List(l) => {
                out.append("(");
                self.push_join(out, l, 0);
                out.append(")");
                proof {
                    reveal_strlit("(");
                    reveal_strlit(")");
                    assert(objs_view(l@).skip(0) =~= objs_view(l@));
                    assert(final(out)@ =~= old(out)@ + ser_obj(nm, obj@));
                }
            },
            LispObject::Macro(ps, fs) => {
                out.append("macro ");
                self.push_params(out, ps);
                self.push_join(out, fs, 0);
                proof {
                    assert(objs_view(fs@).skip(0) =~= objs_view(fs@));
                    assert(final(out)@ =~= old(out)@ + ser_obj(nm, obj@));
                }
            },
            LispObject::Lambda(ps, fs) => {
                out.append("(fn ");
                self.push_params(out, ps);
                out.append(" ");
                self.push_join(out, fs, 0);
                out.append(")");
                proof {
                    reveal_strlit(" ");
                    reveal_strlit(")");
                    assert(objs_view(fs@).skip(0) =~= objs_view(fs@));
                    assert(final(out)@ =~= old(out)@ + ser_obj(nm, obj@));
                }
            },
            LispObject::Bool(b) => {
                if *b {
                    out.append("#t");
                } else {
                    out.append("#f");
                }
            },
            LispObject::SpecialForm(sf) => {
                out.append(special_form_name(*sf));
            },
            LispObject::String(s) => {
                out.append("\"");
                out.append(s.as_str());
                out.append("\"");
                proof {
                    reveal_strlit("\"");
                    assert(final(out)@ =~= old(out)@ + ser_obj(nm, obj@));
                }
            },
            LispObject::Number(n) => {
                push_number(out, *n);
            },
            LispObject::Native(ps, _f) => {
                out.append("(~~ ");
                self.push_params(out, ps);
                out.append(" ~~)");
                proof {
                    assert(final(out)@ =~= old(out)@ + ser_obj(nm, obj@));
                }
            },
        }
    }

    fn push_join(&self, out: &mut String, l: &Vec<LispObject>, from: usize)
        requires
            from <= l@.len(),
        ensures
            final(out)@ == old(out)@ + ser_join(self.names_view(), objs_view(l@).skip(from as int)),
        decreases *l, l@.len() - from,
    {
        let ghost items = objs_view(l@).skip(from as int);
        if from < l.len() {
            self.push_obj(out, &l[from]);
            self.push_rest(out, l, from + 1);
            proof {
                assert(items[0] == obj_view(l@[from as int]));
                assert(items.drop_first() =~= objs_view(l@).skip(from as int + 1));
                assert(final(out)@ =~= old(out)@ + ser_join(self.names_view(), items));
            }
        }
    }

    fn push_rest(&self, out: &mut String, l: &Vec<LispObject>, from: usize)
        requires
            from <= l@.len(),
        ensures
            final(out)@ == old(out)@ + ser_rest(self.names_view(), objs_view(l@).skip(from as int)),
        decreases *l, l@.len() - from,
    {
        let ghost items = objs_view(l@).skip(from as int);
        if from < l.len() {
            out.append(" ");
            self.push_obj(out, &l[from]);
            self.push_rest(out, l, from + 1);
            proof {
                reveal_strlit(" ");
                assert(items[0] == obj_view(l@[from as int]));
                assert(items.drop_first() =~= objs_view(l@).skip(from as int + 1));
                assert(final(out)@ =~= old(out)@ + ser_rest(self.names_view(), items));
            }
        }
    }

    fn push_params(&self, out: &mut String, p: &ParamList)
        ensures
            final(out)@ == old(out)@ + ser_params(self.names_view(), params_view(*p)),
    {
        out.append("(");
        let mut i: usize = 0;
        let ghost nm = self.names_view();
        let ghost mid = old(out)@ + seq!['('];
        proof {
            reveal_strlit("(");
            assert(out@ =~= mid);
            assert(p.0@.skip(0) =~= p.0@);
        }
        while i < p.0.len()
            invariant
                i <= p.0@.len(),
                nm == self.names_view(),
                mid + join_names(nm, p.0@) == out@ + join_names(nm, p.0@.skip(i as int)),
                i > 0 ==> p.0@.skip(i as int).len() > 0 ==> out@.len() > 0 && out@.last() == ' ',
            decreases p.0@.len() - i,
        {
            proof {
                assert(p.0@.skip(i as int)[0] == p.0@[i as int]);
            }
            self.push_name(out, p.0[i]);
            if i + 1 < p.0.len() {
                out.append(" ");
                proof {
                    reveal_strlit(" ");
                }
            }
            proof {
                let tail = p.0@.skip(i as int);
                if tail.len() == 1 {
                    assert(join_names(nm, tail) == name_or_uninterned(nm, tail[0]));
                    assert(tail.drop_first() =~= p.0@.skip(i as int + 1));
                } else {
                    assert(join_names(nm, tail) == name_or_uninterned(nm, tail[0]) + seq![' ']
                        + join_names(nm, tail.drop_first()));
                    assert(tail.drop_first() =~= p.0@.skip(i as int + 1));
                }
                assert(mid + join_names(nm, p.0@) =~= out@ + join_names(
                    nm,
                    p.0@.skip(i as int + 1),
                ));
            }
            i = i + 1;
        }
        proof {
            assert(p.0@.skip(p.0@.len() as int) =~= Seq::<Symbol>::empty());
            assert(out@ =~= mid + join_names(nm, p.0@));
        }
        match p.1 {
            Option::Some(s) => {
                out.append(" &rest ");
                self.push_name(out, s);
            },
            Option::None => {},
        }
        out.append(")");
        proof {
            reveal_strlit(")");
            assert(final(out)@ =~= old(out)@ + ser_params(nm, params_view(*p)));
        }
    }

    /// Renders positional parameter names joined by single spaces.
    pub fn pos_params_to_string(&self, ps: &Vec<Symbol>) -> (r: String)
        ensures
            r@ == join_names(self.names_view(), ps@),
    {
        let mut out = String::new();
        let mut i: usize = 0;
        let ghost nm = self.names_view();
        proof {
            assert(ps@.skip(0) =~= ps@);
        }
        while i < ps.len()
            invariant
                i <= ps@.len(),
                nm == self.names_view(),
                join_names(nm, ps@) == out@ + join_names(nm, ps@.skip(i as int)),
            decreases ps@.len() - i,
        {
            proof {
                assert(ps@.skip(i as int)[0] == ps@[i as int]);
            }
            self.push_name(&mut out, ps[i]);
            if i + 1 < ps.len() {
                out.append(" ");
                proof {
                    reveal_strlit(" ");
                }
            }
            proof {
                let tail = ps@.skip(i as int);
                if tail.len() == 1 {
                    assert(tail.drop_first() =~= ps@.skip(i as int + 1));
                } else {
                    assert(tail.drop_first() =~= ps@.skip(i as int + 1));
                }
                assert(join_names(nm, ps@) =~= out@ + join_names(nm, ps@.skip(i as int + 1)));
            }
            i = i + 1;
        }
        proof {
            assert(ps@.skip(ps@.len() as int) =~= Seq::<Symbol>::empty());
            assert(out@ =~= join_names(nm, ps@));
        }
        out
    }

    /// Renders the optional rest parameter as ` &rest name`, or nothing.
    pub fn rest_param_to_string(&self, sym: Option<Symbol>) -> (r: String)
        ensures
            r@ == ser_rest_param(self.names_view(), sym),
    {
        let mut out = String::new();
        match sym {
            Option::Some(s) => {
                out.append(" &rest ");
                self.push_name(&mut out, s);
                proof {
                    assert(out@ =~= ser_rest_param(self.names_view(), sym));
                }
            },
            Option::None => {
                proof {
                    assert(out@ =~= ser_rest_param(self.names_view(), sym));
                }
            },
        }
        out
    }

    /// Renders a parameter list as `(a b &rest r)`.
    pub fn serialize_param_list(&self, lst: &ParamList) -> (r: String)
        ensures
            r@ == ser_params(self.names_view(), params_view(*lst)),
    {
        let mut out = String::new();
        self.push_params(&mut out, lst);
        proof {
            assert(out@ =~= ser_params(self.names_view(), params_view(*lst)));
        }
        out
    }

    /// Renders a form's elements joined by single spaces.
    pub fn form_to_string(&self, l: &Vec<LispObject>) -> (r: String)
        ensures
            r@ == ser_join(self.names_view(), objs_view(l@)),
    {
        let mut out = String::new();
        self.push_join(&mut out, l, 0);
        proof {
            assert(objs_view(l@).skip(0) =~= objs_view(l@));
            assert(out@ =~= ser_join(self.names_view(), objs_view(l@)));
        }
        out
    }

    /// Renders a value as re-readable syntax (natives and special forms get
    /// opaque placeholders).
    pub fn serialize_object(&self, obj: &LispObject) -> (r: String)
        ensures
            r@ == ser_obj(self.names_view(), obj@),
    {
        let mut out = String::new();
        self.push_obj(&mut out, obj);
        proof {
            assert(out@ =~= ser_obj(self.names_view(), obj@));
        }
        out
    }
}



/// The views of a vector of names.
pub open spec fn strs_view(v: Seq<String>) -> Seq<Seq<char>> {
    Seq::new(v.len(), |i: int| v[i]@)
}

/// Interning a run of names in order, collecting their ids.
pub open spec fn intern_names_spec(nm: Seq<Seq<char>>, names: Seq<Seq<char>>) -> (
    Seq<Seq<char>>,
    Seq<Symbol>,
)
    decreases names.len(),
{
    if names.len() == 0 {
        (nm, Seq::empty())
    } else {
        let (nm1, id) = intern_spec(nm, names[0]);
        let (nm2, ids) = intern_names_spec(nm1, names.drop_first());
        (nm2, seq![id] + ids)
    }
}

/// Binding one special form in the global scope under its name.
pub open spec fn set_special_spec(
    nm: Seq<Seq<char>>,
    env: Seq<Seq<(Symbol, ObjView)>>,
    sf: SpecialForm,
) -> (Seq<Seq<char>>, Seq<Seq<(Symbol, ObjView)>>) {
    let (nm1, id) = intern_spec(nm, sf_name(sf));
    (nm1, env_global(env, id, ObjView::SpecialForm(sf)))
}

/// Binding one native in the global scope: its parameter names are interned
/// first, then its own name.
pub open spec fn set_native_spec(
    nm: Seq<Seq<char>>,
    env: Seq<Seq<(Symbol, ObjView)>>,
    name: Seq<char>,
    positional: Seq<Seq<char>>,
    rest: Option<Seq<char>>,
    f: NativeFn,
) -> (Seq<Seq<char>>, Seq<Seq<(Symbol, ObjView)>>) {
    let (nm1, pos_ids) = intern_names_spec(nm, positional);
    let (nm2, rest_id) = match rest {
        Option::Some(rn) => {
            let (nmr, id) = intern_spec(nm1, rn);
            (nmr, Option::Some(id))
        },
        Option::None => (nm1, Option::<Symbol>::None),
    };
    let (nm3, fid) = intern_spec(nm2, name);
    (nm3, env_global(env, fid, ObjView::Native((pos_ids, rest_id), f)))
}

/// Binding one native by its declaration.
pub open spec fn set_native_def_spec(
    nm: Seq<Seq<char>>,
    env: Seq<Seq<(Symbol, ObjView)>>,
    f: NativeFn,
) -> (Seq<Seq<char>>, Seq<Seq<(Symbol, ObjView)>>) {
    set_native_spec(nm, env, def_name(f), def_positional(f), def_rest(f), f)
}

/// The root environment: one global scope holding the seven special forms
/// (with `macro` as the constructor counterpart of `fn`) and the native
/// primitives, in registration order.
pub open spec fn root_spec(nm0: Seq<Seq<char>>) -> (Seq<Seq<char>>, Seq<Seq<(Symbol, ObjView)>>) {
    let env0 = seq![Seq::<(Symbol, ObjView)>::empty()];
    let (nm1, env1) = set_special_spec(nm0, env0, SpecialForm::Def);
    let (nm2, env2) = set_special_spec(nm1, env1, SpecialForm::Assign);
    let (nm3, env3) = set_special_spec(nm2, env2, SpecialForm::Fn);
    let (nm4, env4) = set_special_spec(nm3, env3, SpecialForm::Macro);
    let (nm5, env5) = set_special_spec(nm4, env4, SpecialForm::If);
    let (nm6, env6) = set_special_spec(nm5, env5, SpecialForm::Let);
    let (nm7, env7) = set_special_spec(nm6, env6, SpecialForm::Begin);
    let (nm8, env8) = set_special_spec(nm7, env7, SpecialForm::Quote);
    let (nm9, env9) = set_native_def_spec(nm8, env8, NativeFn::Add);
    let (nm10, env10) = set_native_def_spec(nm9, env9, NativeFn::Multiply);
    let (nm11, env11) = set_native_def_spec(nm10, env10, NativeFn::Subtract);
    let (nm12, env12) = set_native_def_spec(nm11, env11, NativeFn::Equal);
    let (nm13, env13) = set_native_def_spec(nm12, env12, NativeFn::First);
    let (nm14, env14) = set_native_def_spec(nm13, env13, NativeFn::Rest);
    let (nm15, env15) = set_native_def_spec(nm14, env14, NativeFn::ListOf);
    let (nm16, env16) = set_native_def_spec(nm15, env15, NativeFn::Concat);
    let (nm17, env17) = set_native_def_spec(nm16, env16, NativeFn::IsList);
    set_native_def_spec(nm17, env17, NativeFn::Length)
}

fn set_native(sym: &mut Symbols, env: &mut Env, def: NativeDef)
    requires
        old(sym).wf(),
    ensures
        final(sym).wf(),
        final(sym).sym_quote == old(sym).sym_quote,
        final(sym).sym_quasiquote == old(sym).sym_quasiquote,
        final(sym).sym_unquote == old(sym).sym_unquote,
        final(sym).sym_unquote_splice == old(sym).sym_unquote_splice,
        final(sym).sym_rest == old(sym).sym_rest,
        final(sym).sym_fn == old(sym).sym_fn,
        final(sym).sym_macro == old(sym).sym_macro,
        (final(sym).names_view(), final(env)@) == set_native_spec(
            old(sym).names_view(),
            old(env)@,
            def.name@,
            strs_view(def.positional@),
            opt_str_view(def.rest),
            def.func,
        ),
{
    let ghost nm0 = sym.names_view();
    let ghost pnames = strs_view(def.positional@);
    let mut pos_ids: Vec<Symbol> = Vec::new();
    let mut i: usize = 0;
    proof {
        assert(pnames.skip(0) =~= pnames);
    }
    while i < def.positional.len()
        invariant
            i <= def.positional@.len(),
            sym.wf(),
            sym.sym_quote == old(sym).sym_quote,
            sym.sym_quasiquote == old(sym).sym_quasiquote,
            sym.sym_unquote == old(sym).sym_unquote,
            sym.sym_unquote_splice == old(sym).sym_unquote_splice,
            sym.sym_rest == old(sym).sym_rest,
            sym.sym_fn == old(sym).sym_fn,
            sym.sym_macro == old(sym).sym_macro,
            pnames == strs_view(def.positional@),
            intern_names_spec(nm0, pnames) == ({
                let (nmr, idsr) = intern_names_spec(sym.names_view(), pnames.skip(i as int));
                (nmr, pos_ids@ + idsr)
            }),
        decreases def.positional@.len() - i,
    {
        let ghost nm_cur = sym.names_view();
        let id = sym.intern(def.positional[i].as_str());
        pos_ids.push(id);
        proof {
            let tail = pnames.skip(i as int);
            assert(tail[0] == pnames[i as int]);
            assert(tail.drop_first() =~= pnames.skip(i as int + 1));
            let (nmr, idsr) = intern_names_spec(sym.names_view(), pnames.skip(i as int + 1));
            assert(pos_ids@.drop_last() + (seq![id] + idsr) =~= pos_ids@ + idsr);
        }
        i = i + 1;
    }
    proof {
        assert(pnames.skip(i as int) =~= Seq::<Seq<char>>::empty());
        assert(pos_ids@ + Seq::<Symbol>::empty() =~= pos_ids@);
    }
    let rest_id = match &def.rest {
        Option::Some(rn) => Some(sym.intern(rn.as_str())),
        Option::None => None,
    };
    let fid = sym.intern(def.name.as_str());
    env.global(fid, LispObject::Native((pos_ids, rest_id), def.func));
}

fn set_special(sym: &mut Symbols, env: &mut Env, sf: SpecialForm)
    requires
        old(sym).wf(),
    ensures
        final(sym).wf(),
        final(sym).sym_quote == old(sym).sym_quote,
        final(sym).sym_quasiquote == old(sym).sym_quasiquote,
        final(sym).sym_unquote == old(sym).sym_unquote,
        final(sym).sym_unquote_splice == old(sym).sym_unquote_splice,
        final(sym).sym_rest == old(sym).sym_rest,
        final(sym).sym_fn == old(sym).sym_fn,
        final(sym).sym_macro == old(sym).sym_macro,
        (final(sym).names_view(), final(env)@) == set_special_spec(
            old(sym).names_view(),
            old(env)@,
            sf,
        ),
{
    let id = sym.intern(special_form_name(sf));
    env.global(id, LispObject::SpecialForm(sf));
}

/// A fresh root environment, seeded with the special forms and the native
/// primitives.
pub fn create_root(symbols: &mut Symbols) -> (root: Env)
    requires
        old(symbols).wf(),
    ensures
        final(symbols).wf(),
        final(symbols).sym_quote == old(symbols).sym_quote,
        final(symbols).sym_quasiquote == old(symbols).sym_quasiquote,
        final(symbols).sym_unquote == old(symbols).sym_unquote,
        final(symbols).sym_unquote_splice == old(symbols).sym_unquote_splice,
        final(symbols).sym_rest == old(symbols).sym_rest,
        final(symbols).sym_fn == old(symbols).sym_fn,
        final(symbols).sym_macro == old(symbols).sym_macro,
        (final(symbols).names_view(), root@) == root_spec(old(symbols).names_view()),
{
    let mut root = Env::new();
    set_special(symbols, &mut root, SpecialForm::Def);
    set_special(symbols, &mut root, SpecialForm::Assign);
    set_special(symbols, &mut root, SpecialForm::Fn);
    set_special(symbols, &mut root, SpecialForm::Macro);
    set_special(symbols, &mut root, SpecialForm::If);
    set_special(symbols, &mut root, SpecialForm::Let);
    set_special(symbols, &mut root, SpecialForm::Begin);
    set_special(symbols, &mut root, SpecialForm::Quote);
    set_native(symbols, &mut root, crate::native::native_def(NativeFn::Add));
    set_native(symbols, &mut root, crate::native::native_def(NativeFn::Multiply));
    set_native(symbols, &mut root, crate::native::native_def(NativeFn::Subtract));
    set_native(symbols, &mut root, crate::native::native_def(NativeFn::Equal));
    set_native(symbols, &mut root, crate::native::native_def(NativeFn::First));
    set_native(symbols, &mut root, crate::native::native_def(NativeFn::Rest));
    set_native(symbols, &mut root, crate::native::native_def(NativeFn::ListOf));
    set_native(symbols, &mut root, crate::native::native_def(NativeFn::Concat));
    set_native(symbols, &mut root, crate::native::native_def(NativeFn::IsList));
    set_native(symbols, &mut root, crate::native::native_def(NativeFn::Length));
    root
}


} // verus!
