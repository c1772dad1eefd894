use vstd::prelude::*;

use crate::env::{
    create_root, env_global, env_lookup, env_set, root_spec, ser_obj, ser_params, sf_name, Env,
    Symbols,
};
use crate::exc::{msg_apply_empty, msg_apply_unimpl, msg_unbound};
use crate::lisp_object::{
    err_frame, err_new, err_trace, obj_view, objs_view, params_view, ErrView, EvalError,
    LispObject, NativeFn, ObjView, ParamList, ParamsView, Sexpr, SpecialForm, Symbol,
};
use crate::lisp_object_util::{arity_ok, as_symbols_spec, assert_args, msg_arity, Match};
use crate::native::{native_apply_spec, native_args_ok, native_arity};
use crate::reader::ReadError;

verus! {

broadcast use crate::lisp_object::group_obj_view;

/// The depth budget for one top-level evaluation; recursion beyond it is
/// reported as an error rather than overflowing the host stack.
pub const FUEL: u64 = 1024;

/// A scope stack as the evaluator's model sees it.
pub type EnvV = Seq<Seq<(Symbol, ObjView)>>;

/// A read or an evaluation failure, for callers that drive both stages.
pub enum ExecError {
    Read(ReadError),
    Eval(EvalError),
}

/// A function definition parsed out of a form in call position.
pub struct FunctionDef {
    pub params: ParamList,
    pub forms: Sexpr,
    pub is_macro: bool,
}

pub open spec fn msg_depth() -> Seq<char> {
    "evaluation depth limit exceeded"@
}

pub open spec fn msg_def_symbol() -> Seq<char> {
    "special form def must have a symbol in 1st place"@
}

pub open spec fn msg_set_symbol() -> Seq<char> {
    "special form set must have a symbol in 1st place"@
}

pub open spec fn msg_let_binding() -> Seq<char> {
    "let binding must be a (symbol expression) pair"@
}

pub open spec fn msg_rest_pos() -> Seq<char> {
    "&rest must be second to last in parameter list"@
}

pub open spec fn msg_native_args() -> Seq<char> {
    "native argument vector mismatch"@
}

pub open spec fn msg_size_limit() -> Seq<char> {
    "body size limit exceeded"@
}

pub open spec fn msg_fn_def() -> Seq<char> {
    "fn definition"@
}

pub open spec fn msg_expected_fn_macro(nm: Seq<Seq<char>>, head: ObjView) -> Seq<char> {
    "Expected `fn` or `macro` symbol, got `"@ + ser_obj(nm, head) + "`"@
}

/// The description under which a special form's arity error reports it.
pub open spec fn sf_descr(sf: SpecialForm) -> Seq<char> {
    "special form "@ + sf_name(sf)
}

/// The description under which a parameter-list arity error reports it.
pub open spec fn params_descr(nm: Seq<Seq<char>>, params: ParamsView) -> Seq<char> {
    "param list "@ + ser_params(nm, params)
}

/// The display label of a call head, used on frames: the head symbol's
/// name, if the head was a bare interned symbol.
pub open spec fn head_label(sym: Symbols, head: ObjView) -> Option<Seq<char>> {
    match head {
        ObjView::Symbol(s) => if s < sym.names_view().len() {
            Option::Some(sym.names_view()[s as int])
        } else {
            Option::None
        },
        _ => Option::None,
    }
}

/// The unbound-symbol message names the symbol when the interner knows it.
pub open spec fn unbound_view(sym: Symbols, s: Symbol) -> ErrView {
    err_new(msg_unbound(if s < sym.names_view().len() {
        Option::Some(sym.names_view()[s as int])
    } else {
        Option::None
    }))
}

/// Pairs positional parameters with their arguments in order.
pub open spec fn zip_bind(ps: Seq<Symbol>, vs: Seq<ObjView>) -> Seq<(Symbol, ObjView)> {
    Seq::new(ps.len(), |i: int| (ps[i], vs[i]))
}

/// The first index at which `x` occurs.
pub open spec fn find_first(syms: Seq<Symbol>, x: Symbol) -> Option<int>
    decreases syms.len(),
{
    if syms.len() == 0 {
        Option::None
    } else if syms[0] == x {
        Option::Some(0int)
    } else {
        match find_first(syms.drop_first(), x) {
            Option::Some(i) => Option::Some(i + 1),
            Option::None => Option::None,
        }
    }
}

/// Splitting a validated raw parameter list at the rest sentinel, which
/// must stand exactly second to last if it occurs.
pub open spec fn split_params_spec(syms: Seq<Symbol>, ri: Option<int>) -> Result<
    ParamsView,
    ErrView,
> {
    match ri {
        Option::None => Result::Ok((syms, Option::None)),
        Option::Some(i) => if i == syms.len() - 2 {
            Result::Ok((syms.take(i), Option::Some(syms.last())))
        } else {
            Result::Err(err_trace(err_new(msg_rest_pos()), i as usize))
        },
    }
}

/// Parsing a raw parameter list: every element a symbol, then the rest
/// sentinel located and split off.
pub open spec fn parse_params_spec(sym: Symbols, lst: Seq<ObjView>) -> Result<ParamsView, ErrView> {
    match as_symbols_spec(lst) {
        Result::Ok(syms) => split_params_spec(syms, find_first(syms, sym.sym_rest)),
        Result::Err((e, i)) => Result::Err(err_trace(e, i as usize)),
    }
}

/// Parsing a form in call position into parameters, body and kind; the
/// head must be the literal `fn` or `macro` symbol.
pub open spec fn parse_fdef_spec(sym: Symbols, lst: Seq<ObjView>) -> Result<
    (ParamsView, Seq<ObjView>, bool),
    ErrView,
> {
    if lst.len() < 2 {
        Result::Err(err_new(msg_arity(msg_fn_def(), Match::Min, 2, lst.len() as int)))
    } else {
        let is_macro_r: Result<bool, ErrView> = match lst[0] {
            ObjView::Symbol(x) => if x == sym.sym_fn {
                Result::Ok(false)
            } else if x == sym.sym_macro {
                Result::Ok(true)
            } else {
                Result::Err(
                    err_trace(
                        err_new(msg_expected_fn_macro(sym.names_view(), lst[0])),
                        0,
                    ),
                )
            },
            _ => Result::Err(
                err_trace(err_new(msg_expected_fn_macro(sym.names_view(), lst[0])), 0),
            ),
        };
        match is_macro_r {
            Result::Err(e) => Result::Err(e),
            Result::Ok(is_macro) => match lst[1] {
                ObjView::List(pl) => match parse_params_spec(sym, pl) {
                    Result::Ok(params) => Result::Ok((params, lst.skip(2), is_macro)),
                    Result::Err(e) => Result::Err(err_trace(e, 1)),
                },
                _ => Result::Err(
                    err_trace(err_new(crate::lisp_object::msg_expected_list()), 1),
                ),
            },
        }
    }
}

/// Popping a scope; a missing scope stack leaves the model unchanged, as
/// the executable operation does.
pub open spec fn env_pop(env: EnvV) -> EnvV {
    if env.len() > 0 {
        env.drop_last()
    } else {
        env
    }
}

/// Evaluation of one object under a scope stack, with a depth budget.
///
/// Self-evaluating atoms return copies of themselves; symbols resolve
/// innermost-first; a non-empty list evaluates its head and dispatches on
/// the result.
pub open spec fn eval_spec(sym: Symbols, env: EnvV, v: ObjView, fuel: nat) -> (
    EnvV,
    Result<ObjView, ErrView>,
)
    decreases fuel, 0nat, 0nat,
{
    if fuel == 0 {
        (env, Result::Err(err_new(msg_depth())))
    } else {
        match v {
            ObjView::Symbol(s) => match env_lookup(env, s) {
                Option::Some(w) => (env, Result::Ok(w)),
                Option::None => (env, Result::Err(unbound_view(sym, s))),
            },
            ObjView::List(l) => if l.len() == 0 {
                (env, Result::Err(err_new(msg_apply_empty())))
            } else {
                let (env1, h) = eval_spec(sym, env, l[0], (fuel - 1) as nat);
                match h {
                    Result::Err(e) => (env1, Result::Err(err_trace(e, 0))),
                    Result::Ok(hv) => match hv {
                        ObjView::SpecialForm(sf) => special_spec(
                            sym,
                            env1,
                            sf,
                            l.drop_first(),
                            (fuel - 1) as nat,
                        ),
                        ObjView::Native(params, f) => {
                            let (env2, b) = bind_spec(
                                sym,
                                env1,
                                params,
                                l,
                                true,
                                (fuel - 1) as nat,
                            );
                            match b {
                                Result::Err((e, _b)) => (env2, Result::Err(e)),
                                Result::Ok(binding) => {
                                    let vals = Seq::new(
                                        binding.len(),
                                        |i: int| binding[i].1,
                                    );
                                    if native_args_ok(f, vals) {
                                        (env2, native_apply_spec(f, vals))
                                    } else {
                                        (env2, Result::Err(err_new(msg_native_args())))
                                    }
                                },
                            }
                        },
                        ObjView::List(lst) => expansion_result(
                            sym,
                            form_spec(sym, env1, lst, l, (fuel - 1) as nat),
                            ObjView::List(lst),
                            l[0],
                        ),
                        ObjView::Lambda(params, body) => expansion_result(
                            sym,
                            apply_spec(sym, env1, params, body, false, l, (fuel - 1) as nat),
                            ObjView::Lambda(params, body),
                            l[0],
                        ),
                        ObjView::Macro(params, body) => expansion_result(
                            sym,
                            apply_spec(sym, env1, params, body, true, l, (fuel - 1) as nat),
                            ObjView::Macro(params, body),
                            l[0],
                        ),
                        _ => (
                            env1,
                            Result::Err(
                                err_trace(
                                    err_frame(
                                        err_new(msg_apply_unimpl()),
                                        hv,
                                        head_label(sym, l[0]),
                                    ),
                                    0,
                                ),
                            ),
                        ),
                    },
                }
            },
            _ => (env, Result::Ok(v)),
        }
    }
}

/// An error that arose inside a callee's own definition is framed with
/// that definition and the call head's label; argument errors pass
/// through, belonging to the caller's source level.
pub open spec fn expansion_result(
    sym: Symbols,
    r: (EnvV, Result<ObjView, (ErrView, bool)>),
    form: ObjView,
    head: ObjView,
) -> (EnvV, Result<ObjView, ErrView>) {
    match r.1 {
        Result::Ok(v) => (r.0, Result::Ok(v)),
        Result::Err((e, in_expansion)) => if in_expansion {
            (r.0, Result::Err(err_trace(err_frame(e, form, head_label(sym, head)), 0)))
        } else {
            (r.0, Result::Err(e))
        },
    }
}

/// Left-to-right evaluation of a run of forms; a failure at relative index
/// `i` is traced at child index `i + off`.
pub open spec fn seq_eval_spec(sym: Symbols, env: EnvV, items: Seq<ObjView>, off: int, fuel: nat)
    -> (EnvV, Result<Seq<ObjView>, ErrView>)
    decreases fuel, 1nat, items.len(),
{
    if items.len() == 0 {
        (env, Result::Ok(Seq::empty()))
    } else {
        let (env1, r) = eval_spec(sym, env, items[0], fuel);
        match r {
            Result::Err(e) => (env1, Result::Err(err_trace(e, off as usize))),
            Result::Ok(v) => {
                let (env2, rs) = seq_eval_spec(sym, env1, items.drop_first(), off + 1, fuel);
                match rs {
                    Result::Err(e) => (env2, Result::Err(e)),
                    Result::Ok(vs) => (env2, Result::Ok(seq![v] + vs)),
                }
            },
        }
    }
}

/// Argument binding: the arity check first, then left-to-right evaluation
/// when enabled, then positional assignment with any surplus collected
/// into the rest list. The boolean marks errors that belong to the callee's
/// definition rather than to argument evaluation.
pub open spec fn bind_spec(
    sym: Symbols,
    env: EnvV,
    params: ParamsView,
    l: Seq<ObjView>,
    eval_args: bool,
    fuel: nat,
) -> (EnvV, Result<Seq<(Symbol, ObjView)>, (ErrView, bool)>)
    decreases fuel, 2nat, 0nat,
{
    let tail = l.drop_first();
    let m = if params.1 is None {
        Match::Exact
    } else {
        Match::Min
    };
    if !arity_ok(m, params.0.len() as int, tail.len() as int) {
        (
            env,
            Result::Err(
                (
                    err_trace(
                        err_new(
                            msg_arity(
                                params_descr(sym.names_view(), params),
                                m,
                                params.0.len() as int,
                                tail.len() as int,
                            ),
                        ),
                        1,
                    ),
                    true,
                ),
            ),
        )
    } else {
        let (env1, r) = if eval_args {
            seq_eval_spec(sym, env, tail, 1, fuel)
        } else {
            (env, Result::Ok(tail))
        };
        match r {
            Result::Err(e) => (env1, Result::Err((e, false))),
            Result::Ok(args) => {
                let np = params.0.len() as int;
                let binding = match params.1 {
                    Option::Some(rest_sym) => zip_bind(params.0, args.take(np)).push(
                        (rest_sym, ObjView::List(args.skip(np))),
                    ),
                    Option::None => zip_bind(params.0, args),
                };
                (env1, Result::Ok(binding))
            },
        }
    }
}

/// Body evaluation in a fresh scope seeded with the binding: every form in
/// order, the last result returned (the empty body gives the empty list),
/// the scope popped on every path.
pub open spec fn body_spec(
    sym: Symbols,
    env: EnvV,
    binding: Seq<(Symbol, ObjView)>,
    forms: Seq<ObjView>,
    fuel: nat,
) -> (EnvV, Result<ObjView, ErrView>)
    decreases fuel, 3nat, 0nat,
{
    let (env2, r) = seq_eval_spec(sym, env.push(binding), forms, 2, fuel);
    let env3 = env_pop(env2);
    match r {
        Result::Err(e) => (env3, Result::Err(e)),
        Result::Ok(vs) => (
            env3,
            Result::Ok(
                if vs.len() > 0 {
                    vs.last()
                } else {
                    ObjView::List(Seq::empty())
                },
            ),
        ),
    }
}

/// Application of a lambda or macro: bind, run the body, and for a macro
/// evaluate the resulting expression exactly once more in the call-site
/// environment.
pub open spec fn apply_spec(
    sym: Symbols,
    env: EnvV,
    params: ParamsView,
    body: Seq<ObjView>,
    is_macro: bool,
    l: Seq<ObjView>,
    fuel: nat,
) -> (EnvV, Result<ObjView, (ErrView, bool)>)
    decreases fuel, 4nat, 0nat,
{
    let (env2, b) = bind_spec(sym, env, params, l, !is_macro, fuel);
    match b {
        Result::Err(eb) => (env2, Result::Err(eb)),
        Result::Ok(binding) => if body.len() + 2 > usize::MAX {
            (env2, Result::Err((err_new(msg_size_limit()), true)))
        } else {
            let (env3, r) = body_spec(sym, env2, binding, body, fuel);
            match r {
                Result::Err(e) => (env3, Result::Err((e, true))),
                Result::Ok(result) => if is_macro {
                    let (env4, r2) = eval_spec(sym, env3, result, fuel);
                    match r2 {
                        Result::Err(e) => (
                            env4,
                            Result::Err(
                                (
                                    err_trace(
                                        err_frame(e, result, Option::Some("~>"@)),
                                        0,
                                    ),
                                    true,
                                ),
                            ),
                        ),
                        Result::Ok(v) => (env4, Result::Ok(v)),
                    }
                } else {
                    (env3, Result::Ok(result))
                },
            }
        },
    }
}

/// A list value in call position is parsed as an inline `fn`/`macro`
/// definition and applied through the same path as lambda and macro
/// values.
pub open spec fn form_spec(sym: Symbols, env: EnvV, lst: Seq<ObjView>, l: Seq<ObjView>, fuel: nat)
    -> (EnvV, Result<ObjView, (ErrView, bool)>)
    decreases fuel, 5nat, 0nat,
{
    match parse_fdef_spec(sym, lst) {
        Result::Err(e) => (env, Result::Err((e, true))),
        Result::Ok((params, body, is_macro)) => apply_spec(
            sym,
            env,
            params,
            body,
            is_macro,
            l,
            fuel,
        ),
    }
}

/// Dispatch of the special forms; operands are handed over unevaluated and
/// each form controls its own evaluation order.
pub open spec fn special_spec(sym: Symbols, env: EnvV, sf: SpecialForm, tail: Seq<ObjView>,
    fuel: nat) -> (EnvV, Result<ObjView, ErrView>)
    decreases fuel, 5nat, 0nat,
{
    match sf {
        SpecialForm::Quote => if tail.len() != 1 {
            (
                env,
                Result::Err(
                    err_new(msg_arity(sf_descr(sf), Match::Exact, 1, tail.len() as int)),
                ),
            )
        } else {
            (env, Result::Ok(tail[0]))
        },
        SpecialForm::Begin => if tail.len() < 1 {
            (
                env,
                Result::Err(err_new(msg_arity(sf_descr(sf), Match::Min, 1, tail.len() as int))),
            )
        } else {
            let (env1, r) = seq_eval_spec(sym, env, tail, 1, fuel);
            match r {
                Result::Err(e) => (env1, Result::Err(e)),
                Result::Ok(vs) => (env1, Result::Ok(vs.last())),
            }
        },
        SpecialForm::Def => if tail.len() != 2 {
            (
                env,
                Result::Err(
                    err_new(msg_arity(sf_descr(sf), Match::Exact, 2, tail.len() as int)),
                ),
            )
        } else {
            match tail[0] {
                ObjView::Symbol(s) => {
                    let (env1, r) = eval_spec(sym, env, tail[1], fuel);
                    match r {
                        Result::Err(e) => (env1, Result::Err(err_trace(e, 2))),
                        Result::Ok(v) => (env_global(env1, s, v), Result::Ok(v)),
                    }
                },
                _ => (env, Result::Err(err_trace(err_new(msg_def_symbol()), 1))),
            }
        },
        SpecialForm::Assign => if tail.len() != 2 {
            (
                env,
                Result::Err(
                    err_new(msg_arity(sf_descr(sf), Match::Exact, 2, tail.len() as int)),
                ),
            )
        } else {
            match tail[0] {
                ObjView::Symbol(s) => {
                    let (env1, r) = eval_spec(sym, env, tail[1], fuel);
                    match r {
                        Result::Err(e) => (env1, Result::Err(err_trace(e, 2))),
                        Result::Ok(v) => (env_set(env1, s, v), Result::Ok(v)),
                    }
                },
                _ => (env, Result::Err(err_trace(err_new(msg_set_symbol()), 1))),
            }
        },
        SpecialForm::If => if tail.len() < 2 {
            (
                env,
                Result::Err(err_new(msg_arity(sf_descr(sf), Match::Min, 2, tail.len() as int))),
            )
        } else {
            let (env1, p) = eval_spec(sym, env, tail[0], fuel);
            match p {
                Result::Err(e) => (env1, Result::Err(err_trace(e, 1))),
                Result::Ok(pv) => match pv {
                    ObjView::Bool(true) => {
                        let (env2, r) = eval_spec(sym, env1, tail[1], fuel);
                        match r {
                            Result::Err(e) => (env2, Result::Err(err_trace(e, 2))),
                            Result::Ok(v) => (env2, Result::Ok(v)),
                        }
                    },
                    ObjView::Bool(false) => if tail.len() == 2 {
                        (env1, Result::Ok(ObjView::Bool(false)))
                    } else {
                        let (env2, r) = seq_eval_spec(sym, env1, tail.skip(2), 3, fuel);
                        match r {
                            Result::Err(e) => (env2, Result::Err(e)),
                            Result::Ok(vs) => (env2, Result::Ok(vs.last())),
                        }
                    },
                    _ => (
                        env1,
                        Result::Err(
                            err_trace(err_new(crate::lisp_object::msg_expected_bool()), 1),
                        ),
                    ),
                },
            }
        },
        SpecialForm::Let => if tail.len() < 2 {
            (
                env,
                Result::Err(err_new(msg_arity(sf_descr(sf), Match::Min, 2, tail.len() as int))),
            )
        } else {
            match tail[0] {
                ObjView::List(bforms) => {
                    let (env1, b) = let_bindings_spec(sym, env, bforms, 0, fuel);
                    match b {
                        Result::Err(e) => (env1, Result::Err(e)),
                        Result::Ok(binding) => body_spec(sym, env1, binding, tail.skip(1), fuel),
                    }
                },
                _ => (
                    env,
                    Result::Err(
                        err_trace(err_new(crate::lisp_object::msg_expected_list()), 1),
                    ),
                ),
            }
        },
        SpecialForm::Fn => if tail.len() < 2 {
            (
                env,
                Result::Err(err_new(msg_arity(sf_descr(sf), Match::Min, 2, tail.len() as int))),
            )
        } else {
            match tail[0] {
                ObjView::List(pl) => match parse_params_spec(sym, pl) {
                    Result::Ok(params) => (env, Result::Ok(ObjView::Lambda(params, tail.skip(1)))),
                    Result::Err(e) => (env, Result::Err(err_trace(e, 1))),
                },
                _ => (
                    env,
                    Result::Err(
                        err_trace(err_new(crate::lisp_object::msg_expected_list()), 1),
                    ),
                ),
            }
        },
        SpecialForm::Macro => if tail.len() < 2 {
            (
                env,
                Result::Err(err_new(msg_arity(sf_descr(sf), Match::Min, 2, tail.len() as int))),
            )
        } else {
            match tail[0] {
                ObjView::List(pl) => match parse_params_spec(sym, pl) {
                    Result::Ok(params) => (env, Result::Ok(ObjView::Macro(params, tail.skip(1)))),
                    Result::Err(e) => (env, Result::Err(err_trace(e, 1))),
                },
                _ => (
                    env,
                    Result::Err(
                        err_trace(err_new(crate::lisp_object::msg_expected_list()), 1),
                    ),
                ),
            }
        },
    }
}

/// Left-to-right evaluation of `let` binding pairs in the enclosing scope:
/// each pair must be a `(symbol expression)` list; the collected bindings
/// become visible simultaneously only when the body scope is pushed.
pub open spec fn let_bindings_spec(sym: Symbols, env: EnvV, bforms: Seq<ObjView>, idx: int,
    fuel: nat) -> (EnvV, Result<Seq<(Symbol, ObjView)>, ErrView>)
    decreases fuel, 1nat, bforms.len(),
{
    if bforms.len() == 0 {
        (env, Result::Ok(Seq::empty()))
    } else {
        match bforms[0] {
            ObjView::List(b) => if b.len() < 2 {
                (
                    env,
                    Result::Err(
                        err_trace(err_trace(err_new(msg_let_binding()), idx as usize), 1),
                    ),
                )
            } else {
                match b[0] {
                    ObjView::Symbol(s) => {
                        let (env1, r) = eval_spec(sym, env, b[1], fuel);
                        match r {
                            Result::Err(e) => (
                                env1,
                                Result::Err(
                                    err_trace(
                                        err_trace(err_trace(e, 1), idx as usize),
                                        1,
                                    ),
                                ),
                            ),
                            Result::Ok(v) => {
                                let (env2, rs) = let_bindings_spec(
                                    sym,
                                    env1,
                                    bforms.drop_first(),
                                    idx + 1,
                                    fuel,
                                );
                                match rs {
                                    Result::Err(e) => (env2, Result::Err(e)),
                                    Result::Ok(bs) => (env2, Result::Ok(seq![(s, v)] + bs)),
                                }
                            },
                        }
                    },
                    _ => (
                        env,
                        Result::Err(
                            err_trace(
                                err_trace(
                                    err_trace(
                                        err_new(crate::lisp_object::msg_expected_symbol()),
                                        0,
                                    ),
                                    idx as usize,
                                ),
                                1,
                            ),
                        ),
                    ),
                }
            },
            _ => (
                env,
                Result::Err(
                    err_trace(
                        err_trace(err_new(crate::lisp_object::msg_expected_list()), idx as usize),
                        1,
                    ),
                ),
            ),
        }
    }
}

/// What the top-level entry point returns: an error crossing out of the
/// top level is framed with the whole input form under the entry label.
pub open spec fn eval_top_spec(sym: Symbols, env: EnvV, v: ObjView) -> (
    EnvV,
    Result<ObjView, ErrView>,
) {
    let (env1, r) = eval_spec(sym, env, v, FUEL as nat);
    match r {
        Result::Err(e) => (env1, Result::Err(err_frame(e, v, Option::Some(":in:"@)))),
        Result::Ok(w) => (env1, Result::Ok(w)),
    }
}


/// The views of a binding vector.
pub open spec fn binding_view(b: Seq<(Symbol, LispObject)>) -> Seq<(Symbol, ObjView)> {
    Seq::new(b.len(), |i: int| (b[i].0, obj_view(b[i].1)))
}

pub proof fn lemma_find_first_none(syms: Seq<Symbol>, x: Symbol)
    requires
        forall|j: int| 0 <= j < syms.len() ==> syms[j] != x,
    ensures
        find_first(syms, x) is None,
    decreases syms.len(),
{
    if syms.len() > 0 {
        lemma_find_first_none(syms.drop_first(), x);
    }
}

pub proof fn lemma_find_first_at(syms: Seq<Symbol>, x: Symbol, i: int)
    requires
        0 <= i < syms.len(),
        syms[i] == x,
        forall|j: int| 0 <= j < i ==> syms[j] != x,
    ensures
        find_first(syms, x) == Option::Some(i),
    decreases syms.len(),
{
    if i > 0 {
        lemma_find_first_at(syms.drop_first(), x, i - 1);
    }
}

/// Splits a validated parameter-symbol list at the rest sentinel: the
/// sentinel must stand exactly second to last, and the final symbol
/// becomes the rest parameter.
pub fn split_param_list(lst: &mut Vec<Symbol>, rest_index: Option<usize>) -> (r: Result<
    Option<Symbol>,
    EvalError,
>)
    requires
        match rest_index {
            Option::Some(i) => i < old(lst)@.len(),
            Option::None => true,
        },
    ensures
        ({
            let spec_r = split_params_spec(old(lst)@, match rest_index {
                Option::Some(i) => Option::Some(i as int),
                Option::None => Option::None,
            });
            match r {
                Ok(rest) => {
                    &&& spec_r matches Result::Ok(p)
                    &&& final(lst)@ == p.0
                    &&& rest == p.1
                },
                Err(e) => spec_r matches Result::Err(e2) && e@ == e2,
            }
        }),
{
    match rest_index {
        Option::None => Ok(None),
        Option::Some(ri) => {
            if lst.len() >= 2 && ri == lst.len() - 2 {
                let rest: Symbol = lst[ri + 1];
                lst.truncate(ri);
                proof {
                    assert(final(lst)@ =~= old(lst)@.take(ri as int));
                }
                Ok(Some(rest))
            } else {
                Err(
                    EvalError::new(
                        "&rest must be second to last in parameter list".to_owned(),
                    ).trace(ri),
                )
            }
        },
    }
}

/// Executable arity of a native's bound argument vector.
fn native_arity_len(f: NativeFn) -> (r: usize)
    ensures
        r as int == native_arity(f),
{
    match f {
        NativeFn::Subtract => 2,
        NativeFn::Equal => 2,
        _ => 1,
    }
}

/// The interpreter: the interner and the scope stack, seeded once and
/// mutated only by evaluation.
pub struct Interpreter {
    pub symbols: Symbols,
    pub env: Env,
}

impl Interpreter {
    pub open spec fn wf(&self) -> bool {
        self.symbols.wf()
    }

    /// A fresh interpreter over the root environment.
    pub fn new() -> (r: Interpreter)
        ensures
            r.wf(),
            (r.symbols.names_view(), r.env@) == root_spec(crate::env::initial_names()),
            r.symbols.sym_quote == 0 && r.symbols.sym_quasiquote == 1 && r.symbols.sym_unquote
                == 2 && r.symbols.sym_unquote_splice == 3 && r.symbols.sym_rest == 4
                && r.symbols.sym_fn == 5 && r.symbols.sym_macro == 6,
    {
        let mut symbols = Symbols::new();
        let env = create_root(&mut symbols);
        Interpreter { symbols, env }
    }

    /// The display label for a call head: the head symbol's name, if it
    /// was a bare interned symbol.
    fn head_label(&self, head: &LispObject) -> (r: Option<String>)
        ensures
            crate::lisp_object::opt_str_view(r) == head_label(self.symbols, head@),
    {
        match head {
            LispObject::Symbol(s) => match self.symbols.as_string(s) {
                Option::Some(st) => Some(st.to_owned()),
                Option::None => None,
            },
            _ => None,
        }
    }

    /// Parses a raw parameter list: every element must be a symbol, and
    /// the rest sentinel, if present, must be second to last.
    pub fn parse_param_list(&self, lst: Vec<LispObject>) -> (r: Result<ParamList, EvalError>)
        ensures
            match r {
                Ok(params) => parse_params_spec(self.symbols, objs_view(lst@)) == Result::<
                    ParamsView,
                    ErrView,
                >::Ok(params_view(params)),
                Err(e) => parse_params_spec(self.symbols, objs_view(lst@)) == Result::<
                    ParamsView,
                    ErrView,
                >::Err(e@),
            },
    {
        let mut params = match crate::lisp_object_util::as_symbols(&lst) {
            Ok(ss) => ss,
            Err((e, index)) => {
                return Err(e.trace(index));
            },
        };
        let ghost syms = params@;
        let mut rest_index: Option<usize> = None;
        let mut i: usize = 0;
        while i < params.len()
            invariant_except_break
                rest_index is None,
            invariant
                i <= params@.len(),
                syms == params@,
                forall|j: int| 0 <= j < i ==> syms[j] != self.symbols.sym_rest,
            ensures
                syms == params@,
                match rest_index {
                    Option::Some(ri) => ri < syms.len() && syms[ri as int]
                        == self.symbols.sym_rest && (forall|j: int|
                        0 <= j < ri ==> syms[j] != self.symbols.sym_rest),
                    Option::None => forall|j: int|
                        0 <= j < syms.len() ==> syms[j] != self.symbols.sym_rest,
                },
            decreases params@.len() - i,
        {
            if params[i] == self.symbols.sym_rest {
                rest_index = Some(i);
                break ;
            }
            i = i + 1;
        }
        proof {
            match rest_index {
                Option::Some(ri) => lemma_find_first_at(syms, self.symbols.sym_rest, ri as int),
                Option::None => lemma_find_first_none(syms, self.symbols.sym_rest),
            }
        }
        let rest = match split_param_list(&mut params, rest_index) {
            Ok(rs) => rs,
            Err(e) => {
                return Err(e);
            },
        };
        Ok((params, rest))
    }

    /// Parses a form in call position into its parameter list, body and
    /// kind; the head must be the literal `fn` or `macro` symbol.
    pub fn parse_function_def(&self, lst: &Sexpr) -> (r: Result<FunctionDef, EvalError>)
        ensures
            match r {
                Ok(d) => parse_fdef_spec(self.symbols, objs_view(lst@)) == Result::<
                    (ParamsView, Seq<ObjView>, bool),
                    ErrView,
                >::Ok((params_view(d.params), objs_view(d.forms@), d.is_macro)),
                Err(e) => parse_fdef_spec(self.symbols, objs_view(lst@)) == Result::<
                    (ParamsView, Seq<ObjView>, bool),
                    ErrView,
                >::Err(e@),
            },
    {
        if lst.len() < 2 {
            match assert_args(Match::Min, lst.len(), 2, "fn definition") {
                Ok(()) => {
                    proof {
                        assert(false);
                    }
                    return Err(EvalError::new("fn definition".to_owned()));
                },
                Err(e) => {
                    return Err(e);
                },
            }
        }
        let is_macro: bool;
        match &lst[0] {
            LispObject::Symbol(x) => {
                if *x == self.symbols.sym_fn {
                    is_macro = false;
                } else if *x == self.symbols.sym_macro {
                    is_macro = true;
                } else {
                    return Err(self.fn_macro_err(&lst[0]));
                }
            },
            _ => {
                return Err(self.fn_macro_err(&lst[0]));
            },
        }
        let param_list = match lst[1].as_list() {
            Ok(pl) => pl,
            Err(e) => {
                return Err(e.trace(1));
            },
        };
        let params = match self.parse_param_list(param_list) {
            Ok(p) => p,
            Err(e) => {
                return Err(e.trace(1));
            },
        };
        let mut forms: Sexpr = Vec::new();
        let mut i: usize = 2;
        while i < lst.len()
            invariant
                2 <= i <= lst@.len(),
                objs_view(forms@) =~= objs_view(lst@).subrange(2, i as int),
            decreases lst@.len() - i,
        {
            let ghost pre = objs_view(forms@);
            forms.push(lst[i].clone());
            proof {
                assert(objs_view(forms@) =~= pre.push(obj_view(lst@[i as int])));
                assert(objs_view(lst@).subrange(2, i + 1) =~= pre.push(
                    objs_view(lst@)[i as int],
                ));
            }
            i = i + 1;
        }
        proof {
            assert(objs_view(lst@).subrange(2, lst@.len() as int) =~= objs_view(lst@).skip(2));
        }
        Ok(FunctionDef { params, forms, is_macro })
    }

    /// The error for a call-position list whose head is neither `fn` nor
    /// `macro`.
    fn fn_macro_err(&self, head: &LispObject) -> (e: EvalError)
        ensures
            e@ == err_trace(
                err_new(msg_expected_fn_macro(self.symbols.names_view(), head@)),
                0,
            ),
    {
        let mut m = String::new();
        m.append("Expected `fn` or `macro` symbol, got `");
        m.append(self.symbols.serialize_object(head).as_str());
        m.append("`");
        proof {
            assert(m@ =~= msg_expected_fn_macro(self.symbols.names_view(), head@));
        }
        EvalError::new(m).trace(0)
    }
}



/// The continuation view of a partially executed run of forms: what the
/// whole run returns, given the accumulated values and the remaining
/// forms.
pub open spec fn seq_eval_cont(
    sym: Symbols,
    env: EnvV,
    items: Seq<ObjView>,
    off: int,
    acc: Seq<ObjView>,
    fuel: nat,
) -> (EnvV, Result<Seq<ObjView>, ErrView>) {
    let (env2, r2) = seq_eval_spec(sym, env, items, off, fuel);
    match r2 {
        Result::Ok(rest) => (env2, Result::Ok(acc + rest)),
        Result::Err(e) => (env2, Result::Err(e)),
    }
}

impl Interpreter {
    /// Evaluates the forms of `l` from index `from` left to right,
    /// collecting every result; a failure at index `i` is traced at child
    /// index `i - from + off`.
    fn eval_seq(&mut self, l: &Sexpr, from: usize, off: usize, fuel: u64) -> (r: Result<
        Vec<LispObject>,
        EvalError,
    >)
        requires
            old(self).wf(),
            from <= l@.len(),
            l@.len() - from + off <= usize::MAX,
        ensures
            final(self).wf(),
            final(self).symbols == old(self).symbols,
            ({
                let (env2, r2) = seq_eval_spec(
                    old(self).symbols,
                    old(self).env@,
                    objs_view(l@).skip(from as int),
                    off as int,
                    fuel as nat,
                );
                final(self).env@ == env2 && match (r, r2) {
                    (Ok(vs), Result::Ok(vs2)) => objs_view(vs@) == vs2,
                    (Err(e), Result::Err(e2)) => e@ == e2,
                    _ => false,
                }
            }),
        decreases fuel, 1nat, 0nat,
    {
        let ghost sym = self.symbols;
        let ghost env0 = self.env@;
        let ghost items0 = objs_view(l@).skip(from as int);
        let mut vs: Vec<LispObject> = Vec::new();
        let mut i: usize = from;
        proof {
            assert(objs_view(vs@) + Seq::<ObjView>::empty() =~= objs_view(vs@));
            assert(objs_view(vs@) =~= Seq::<ObjView>::empty());
        }
        while i < l.len()
            invariant
                self.wf(),
                self.symbols == sym,
                sym == old(self).symbols,
                env0 == old(self).env@,
                items0 == objs_view(l@).skip(from as int),
                from <= i <= l@.len(),
                l@.len() - from + off <= usize::MAX,
                seq_eval_spec(sym, env0, items0, off as int, fuel as nat) == seq_eval_cont(
                    sym,
                    self.env@,
                    objs_view(l@).skip(i as int),
                    off + i - from,
                    objs_view(vs@),
                    fuel as nat,
                ),
            decreases l@.len() - i,
        {
            let ghost items_cur = objs_view(l@).skip(i as int);
            let ghost env_pre = self.env@;
            let ghost acc_pre = objs_view(vs@);
            proof {
                assert(items_cur[0] == objs_view(l@)[i as int]);
                assert(items_cur.drop_first() =~= objs_view(l@).skip(i as int + 1));
            }
            match self.eval(&l[i], fuel) {
                Ok(v) => {
                    let ghost vv = v@;
                    vs.push(v);
                    proof {
                        assert(objs_view(vs@) =~= acc_pre.push(vv));
                        let (env2, r2) = seq_eval_spec(
                            sym,
                            self.env@,
                            objs_view(l@).skip(i as int + 1),
                            off + i + 1 - from,
                            fuel as nat,
                        );
                        match r2 {
                            Result::Ok(rest) => {
                                assert(acc_pre + (seq![vv] + rest) =~= acc_pre.push(vv) + rest);
                            },
                            Result::Err(_) => {},
                        }
                    }
                },
                Err(e) => {
                    let idx = i - from + off;
                    proof {
                        assert(idx == off + i - from);
                    }
                    return Err(e.trace(idx));
                },
            }
            i = i + 1;
        }
        proof {
            assert(objs_view(l@).skip(i as int) =~= Seq::<ObjView>::empty());
            assert(objs_view(vs@) + Seq::<ObjView>::empty() =~= objs_view(vs@));
        }
        Ok(vs)
    }

    /// Evaluates the body forms of `l` from index `from` in a fresh scope
    /// seeded with `binding`; the scope is popped on every exit path.
    fn eval_body(
        &mut self,
        binding: Option<Vec<(Symbol, LispObject)>>,
        l: &Sexpr,
        from: usize,
        fuel: u64,
    ) -> (r: Result<LispObject, EvalError>)
        requires
            old(self).wf(),
            from <= l@.len(),
            l@.len() - from + 2 <= usize::MAX,
        ensures
            final(self).wf(),
            final(self).symbols == old(self).symbols,
            ({
                let bv = match binding {
                    Option::Some(b) => binding_view(b@),
                    Option::None => Seq::empty(),
                };
                let (env2, r2) = body_spec(
                    old(self).symbols,
                    old(self).env@,
                    bv,
                    objs_view(l@).skip(from as int),
                    fuel as nat,
                );
                final(self).env@ == env2 && match (r, r2) {
                    (Ok(v), Result::Ok(v2)) => v@ == v2,
                    (Err(e), Result::Err(e2)) => e@ == e2,
                    _ => false,
                }
            }),
        decreases fuel, 3nat, 0nat,
    {
        let ghost env0 = self.env@;
        let ghost bv = match &binding {
            Option::Some(b) => binding_view(b@),
            Option::None => Seq::<(Symbol, ObjView)>::empty(),
        };
        self.env.push_scope();
        match binding {
            Option::Some(b) => {
                let mut i: usize = 0;
                proof {
                    assert(bv.take(0) =~= Seq::<(Symbol, ObjView)>::empty());
                    assert(self.env@ =~= env0.push(bv.take(0)));
                }
                while i < b.len()
                    invariant
                        i <= b@.len(),
                        bv == binding_view(b@),
                        self.env@ == env0.push(bv.take(i as int)),
                        self.symbols == old(self).symbols,
                    decreases b@.len() - i,
                {
                    let ghost env_pre = self.env@;
                    self.env.set(b[i].0, b[i].1.clone());
                    proof {
                        assert(bv[i as int] == (b@[i as int].0, obj_view(b@[i as int].1)));
                        assert(bv.take(i as int).push(bv[i as int]) =~= bv.take(i as int + 1));
                        assert(self.env@ =~~= env0.push(bv.take(i as int + 1)));
                    }
                    i = i + 1;
                }
                proof {
                    assert(bv.take(b@.len() as int) =~= bv);
                }
            },
            Option::None => {
                proof {
                    assert(bv =~= Seq::<(Symbol, ObjView)>::empty());
                    assert(self.env@ =~= env0.push(bv));
                }
            },
        }
        proof {
            assert(self.env@ == env0.push(bv));
        }
        let res = self.eval_seq(l, from, 2, fuel);
        self.env.pop_scope();
        match res {
            Ok(mut vs) => {
                let ghost vsv = objs_view(vs@);
                match vs.pop() {
                    Option::Some(last) => {
                        proof {
                            assert(obj_view(last) == vsv.last());
                        }
                        Ok(last)
                    },
                    Option::None => {
                        proof {
                            assert(vsv.len() == 0);
                            assert(objs_view(Seq::<LispObject>::empty()) =~= Seq::<
                                ObjView,
                            >::empty());
                        }
                        Ok(LispObject::List(Vec::new()))
                    },
                }
            },
            Err(e) => Err(e),
        }
    }

    /// Binds a call's arguments to a parameter list: the arity is checked
    /// first, arguments are evaluated left to right when evaluation is
    /// enabled, and any surplus is collected into the rest list.
    pub fn bind_param_list(&mut self, params: &ParamList, l: &Sexpr, eval_args: bool, fuel: u64)
        -> (r: Result<Vec<(Symbol, LispObject)>, (EvalError, bool)>)
        requires
            old(self).wf(),
            l@.len() >= 1,
        ensures
            final(self).wf(),
            final(self).symbols == old(self).symbols,
            ({
                let (env2, r2) = bind_spec(
                    old(self).symbols,
                    old(self).env@,
                    params_view(*params),
                    objs_view(l@),
                    eval_args,
                    fuel as nat,
                );
                final(self).env@ == env2 && match (r, r2) {
                    (Ok(b), Result::Ok(b2)) => binding_view(b@) == b2,
                    (Err((e, flag)), Result::Err((e2, flag2))) => e@ == e2 && flag == flag2,
                    _ => false,
                }
            }),
        decreases fuel, 2nat, 0nat,
    {
        let ghost lv = objs_view(l@);
        let ghost pv = params_view(*params);
        proof {
            assert(lv.drop_first() =~= lv.skip(1));
        }
        let m = match params.1 {
            Option::None => Match::Exact,
            Option::Some(_) => Match::Min,
        };
        let mut d = String::new();
        d.append("param list ");
        d.append(self.symbols.serialize_param_list(params).as_str());
        proof {
            assert(d@ =~= params_descr(self.symbols.names_view(), pv));
        }
        match assert_args(m, l.len() - 1, params.0.len(), d.as_str()) {
            Ok(()) => {},
            Err(e) => {
                return Err((e.trace(1), true));
            },
        }
        let args: Vec<LispObject>;
        if eval_args {
            let ghost env_pre = self.env@;
            match self.eval_seq(l, 1, 1, fuel) {
                Ok(vs) => {
                    proof {
                        lemma_seq_eval_len(
                            self.symbols,
                            env_pre,
                            objs_view(l@).skip(1),
                            1,
                            fuel as nat,
                        );
                    }
                    args = vs;
                },
                Err(e) => {
                    return Err((e, false));
                },
            }
        } else {
            let mut vs: Vec<LispObject> = Vec::new();
            let mut i: usize = 1;
            while i < l.len()
                invariant
                    1 <= i <= l@.len(),
                    lv == objs_view(l@),
                    objs_view(vs@) =~= lv.subrange(1, i as int),
                decreases l@.len() - i,
            {
                let ghost pre = objs_view(vs@);
                vs.push(l[i].clone());
                proof {
                    assert(objs_view(vs@) =~= pre.push(lv[i as int]));
                    assert(lv.subrange(1, i + 1) =~= pre.push(lv[i as int]));
                }
                i = i + 1;
            }
            proof {
                assert(lv.subrange(1, l@.len() as int) =~= lv.skip(1));
            }
            args = vs;
        }
        let ghost argsv = objs_view(args@);
        let np = params.0.len();
        let mut binding: Vec<(Symbol, LispObject)> = Vec::new();
        let mut i: usize = 0;
        while i < np
            invariant
                i <= np,
                np == params.0@.len(),
                np <= args@.len(),
                argsv == objs_view(args@),
                binding_view(binding@) =~= zip_bind(params.0@, argsv).take(i as int),
            decreases np - i,
        {
            let ghost pre = binding_view(binding@);
            binding.push((params.0[i], args[i].clone()));
            proof {
                assert(binding_view(binding@) =~= pre.push(
                    (params.0@[i as int], argsv[i as int]),
                ));
                assert(zip_bind(params.0@, argsv).take(i + 1) =~= pre.push(
                    (params.0@[i as int], argsv[i as int]),
                ));
            }
            i = i + 1;
        }
        proof {
            assert(zip_bind(params.0@, argsv).take(np as int) =~= zip_bind(params.0@, argsv));
            assert(zip_bind(params.0@, argsv.take(np as int)) =~= zip_bind(params.0@, argsv));
        }
        match params.1 {
            Option::Some(rest_sym) => {
                let mut rest_vec: Vec<LispObject> = Vec::new();
                let mut j: usize = np;
                while j < args.len()
                    invariant
                        np <= j <= args@.len(),
                        argsv == objs_view(args@),
                        objs_view(rest_vec@) =~= argsv.subrange(np as int, j as int),
                    decreases args@.len() - j,
                {
                    let ghost pre = objs_view(rest_vec@);
                    rest_vec.push(args[j].clone());
                    proof {
                        assert(objs_view(rest_vec@) =~= pre.push(argsv[j as int]));
                        assert(argsv.subrange(np as int, j + 1) =~= pre.push(argsv[j as int]));
                    }
                    j = j + 1;
                }
                proof {
                    assert(argsv.subrange(np as int, args@.len() as int) =~= argsv.skip(
                        np as int,
                    ));
                }
                let ghost bpre = binding_view(binding@);
                binding.push((rest_sym, LispObject::List(rest_vec)));
                proof {
                    assert(binding_view(binding@) =~= bpre.push(
                        (rest_sym, ObjView::List(argsv.skip(np as int))),
                    ));
                }
                Ok(binding)
            },
            Option::None => Ok(binding),
        }
    }
}



/// A successful run of forms yields exactly one value per form.
pub proof fn lemma_seq_eval_len(sym: Symbols, env: EnvV, items: Seq<ObjView>, off: int, fuel: nat)
    ensures
        ({
            let (env2, r2) = seq_eval_spec(sym, env, items, off, fuel);
            r2 matches Result::Ok(vs) ==> vs.len() == items.len()
        }),
    decreases items.len(),
{
    if items.len() > 0 {
        let (env1, r) = eval_spec(sym, env, items[0], fuel);
        match r {
            Result::Ok(v) => {
                lemma_seq_eval_len(sym, env1, items.drop_first(), off + 1, fuel);
            },
            Result::Err(_) => {},
        }
    }
}

impl Interpreter {
    /// Left-to-right evaluation of `let` binding pairs in the enclosing
    /// scope.
    fn eval_let_bindings(&mut self, bforms: &Sexpr, fuel: u64) -> (r: Result<
        Vec<(Symbol, LispObject)>,
        EvalError,
    >)
        requires
            old(self).wf(),
        ensures
            final(self).wf(),
            final(self).symbols == old(self).symbols,
            ({
                let (env2, r2) = let_bindings_spec(
                    old(self).symbols,
                    old(self).env@,
                    objs_view(bforms@),
                    0,
                    fuel as nat,
                );
                final(self).env@ == env2 && match (r, r2) {
                    (Ok(b), Result::Ok(b2)) => binding_view(b@) == b2,
                    (Err(e), Result::Err(e2)) => e@ == e2,
                    _ => false,
                }
            }),
        decreases fuel, 1nat, 0nat,
    {
        let ghost sym = self.symbols;
        let ghost env0 = self.env@;
        let ghost items0 = objs_view(bforms@);
        let mut binding: Vec<(Symbol, LispObject)> = Vec::new();
        let mut i: usize = 0;
        proof {
            assert(items0.skip(0) =~= items0);
            assert(binding_view(binding@) =~= Seq::<(Symbol, ObjView)>::empty());
        }
        while i < bforms.len()
            invariant
                self.wf(),
                self.symbols == sym,
                sym == old(self).symbols,
                env0 == old(self).env@,
                items0 == objs_view(bforms@),
                i <= bforms@.len(),
                let_bindings_spec(sym, env0, items0, 0, fuel as nat) == ({
                    let (env2, r2) = let_bindings_spec(
                        sym,
                        self.env@,
                        items0.skip(i as int),
                        i as int,
                        fuel as nat,
                    );
                    match r2 {
                        Result::<Seq<(Symbol, ObjView)>, ErrView>::Ok(bs) => (
                            env2,
                            Result::<Seq<(Symbol, ObjView)>, ErrView>::Ok(
                                binding_view(binding@) + bs,
                            ),
                        ),
                        Result::<Seq<(Symbol, ObjView)>, ErrView>::Err(e) => (
                            env2,
                            Result::<Seq<(Symbol, ObjView)>, ErrView>::Err(e),
                        ),
                    }
                }),
            decreases bforms@.len() - i,
        {
            let ghost items_cur = items0.skip(i as int);
            let ghost acc_pre = binding_view(binding@);
            proof {
                assert(items_cur[0] == items0[i as int]);
                assert(items_cur.drop_first() =~= items0.skip(i as int + 1));
            }
            let b = match bforms[i].as_list() {
                Ok(b) => b,
                Err(e) => {
                    return Err(e.trace(i).trace(1));
                },
            };
            if b.len() < 2 {
                return Err(
                    EvalError::new(
                        "let binding must be a (symbol expression) pair".to_owned(),
                    ).trace(i).trace(1),
                );
            }
            let sname = match b[0].as_symbol() {
                Ok(sy) => sy,
                Err(e) => {
                    return Err(e.trace(0).trace(i).trace(1));
                },
            };
            let v = match self.eval(&b[1], fuel) {
                Ok(v) => v,
                Err(e) => {
                    return Err(e.trace(1).trace(i).trace(1));
                },
            };
            let ghost vv = v@;
            binding.push((sname, v));
            proof {
                assert(binding_view(binding@) =~= acc_pre.push((sname, vv)));
                let (env2, r2) = let_bindings_spec(
                    sym,
                    self.env@,
                    items0.skip(i as int + 1),
                    i as int + 1,
                    fuel as nat,
                );
                match r2 {
                    Result::<Seq<(Symbol, ObjView)>, ErrView>::Ok(bs) => {
                        assert(acc_pre + (seq![(sname, vv)] + bs) =~= acc_pre.push(
                            (sname, vv),
                        ) + bs);
                    },
                    Result::<Seq<(Symbol, ObjView)>, ErrView>::Err(_) => {},
                }
            }
            i = i + 1;
        }
        proof {
            assert(items0.skip(i as int) =~= Seq::<ObjView>::empty());
            assert(binding_view(binding@) + Seq::<(Symbol, ObjView)>::empty() =~= binding_view(
                binding@,
            ));
        }
        Ok(binding)
    }

    /// Applies a lambda or macro: binds the arguments, runs the body in a
    /// fresh scope, and for a macro evaluates the resulting expression
    /// exactly once more in the call-site environment.
    fn apply_function(
        &mut self,
        params: &ParamList,
        body: &Sexpr,
        is_macro: bool,
        l: &Sexpr,
        fuel: u64,
    ) -> (r: Result<LispObject, (EvalError, bool)>)
        requires
            old(self).wf(),
            l@.len() >= 1,
        ensures
            final(self).wf(),
            final(self).symbols == old(self).symbols,
            ({
                let (env2, r2) = apply_spec(
                    old(self).symbols,
                    old(self).env@,
                    params_view(*params),
                    objs_view(body@),
                    is_macro,
                    objs_view(l@),
                    fuel as nat,
                );
                final(self).env@ == env2 && match (r, r2) {
                    (Ok(v), Result::Ok(v2)) => v@ == v2,
                    (Err((e, flag)), Result::Err((e2, flag2))) => e@ == e2 && flag == flag2,
                    _ => false,
                }
            }),
        decreases fuel, 4nat, 0nat,
    {
        let binding = match self.bind_param_list(params, l, !is_macro, fuel) {
            Ok(b) => b,
            Err(eb) => {
                return Err(eb);
            },
        };
        if body.len() > usize::MAX - 2 {
            return Err((EvalError::new("body size limit exceeded".to_owned()), true));
        }
        proof {
            assert(objs_view(body@).skip(0) =~= objs_view(body@));
        }
        let result = match self.eval_body(Some(binding), body, 0, fuel) {
            Ok(v) => v,
            Err(e) => {
                return Err((e, true));
            },
        };
        if is_macro {
            let ghost resv = result@;
            match self.eval(&result, fuel) {
                Ok(v) => Ok(v),
                Err(e) => Err((e.frame(result, Some("~>".to_owned())).trace(0), true)),
            }
        } else {
            Ok(result)
        }
    }

    /// A list value in call position: parsed once as an inline `fn` or
    /// `macro` definition, then applied.
    fn eval_form(&mut self, lst: &Sexpr, l: &Sexpr, fuel: u64) -> (r: Result<
        LispObject,
        (EvalError, bool),
    >)
        requires
            old(self).wf(),
            l@.len() >= 1,
        ensures
            final(self).wf(),
            final(self).symbols == old(self).symbols,
            ({
                let (env2, r2) = form_spec(
                    old(self).symbols,
                    old(self).env@,
                    objs_view(lst@),
                    objs_view(l@),
                    fuel as nat,
                );
                final(self).env@ == env2 && match (r, r2) {
                    (Ok(v), Result::Ok(v2)) => v@ == v2,
                    (Err((e, flag)), Result::Err((e2, flag2))) => e@ == e2 && flag == flag2,
                    _ => false,
                }
            }),
        decreases fuel, 5nat, 0nat,
    {
        let d = match self.parse_function_def(lst) {
            Ok(d) => d,
            Err(e) => {
                return Err((e, true));
            },
        };
        self.apply_function(&d.params, &d.forms, d.is_macro, l, fuel)
    }

    /// Special-form dispatch; the operands of `l` after the head are handed
    /// over unevaluated and each form controls its own evaluation order.
    pub fn eval_special_form(&mut self, sf: SpecialForm, l: &Sexpr, fuel: u64) -> (r: Result<
        LispObject,
        EvalError,
    >)
        requires
            old(self).wf(),
            l@.len() >= 1,
        ensures
            final(self).wf(),
            final(self).symbols == old(self).symbols,
            ({
                let (env2, r2) = special_spec(
                    old(self).symbols,
                    old(self).env@,
                    sf,
                    objs_view(l@).drop_first(),
                    fuel as nat,
                );
                final(self).env@ == env2 && match (r, r2) {
                    (Ok(v), Result::Ok(v2)) => v@ == v2,
                    (Err(e), Result::Err(e2)) => e@ == e2,
                    _ => false,
                }
            }),
        decreases fuel, 5nat, 0nat,
    {
        let ghost sym = self.symbols;
        let ghost env0 = self.env@;
        let ghost tail = objs_view(l@).drop_first();
        proof {
            assert(tail =~= objs_view(l@).skip(1));
        }
        let tail_len = l.len() - 1;
        let mut d = String::new();
        d.append("special form ");
        d.append(crate::env::special_form_name(sf));
        proof {
            assert(d@ =~= sf_descr(sf));
        }
        match sf {
            SpecialForm::Quote => {
                match assert_args(Match::Exact, tail_len, 1, d.as_str()) {
                    Ok(()) => {},
                    Err(e) => {
                        return Err(e);
                    },
                }
                proof {
                    assert(tail[0] == objs_view(l@)[1]);
                }
                Ok(l[1].clone())
            },
            SpecialForm::Begin => {
                match assert_args(Match::Min, tail_len, 1, d.as_str()) {
                    Ok(()) => {},
                    Err(e) => {
                        return Err(e);
                    },
                }
                proof {
                    lemma_seq_eval_len(sym, env0, tail, 1, fuel as nat);
                }
                match self.eval_seq(l, 1, 1, fuel) {
                    Ok(mut vs) => match vs.pop() {
                        Option::Some(last) => Ok(last),
                        Option::None => {
                            proof {
                                assert(false);
                            }
                            Err(EvalError::new(String::new()))
                        },
                    },
                    Err(e) => Err(e),
                }
            },
            SpecialForm::Def => {
                match assert_args(Match::Exact, tail_len, 2, d.as_str()) {
                    Ok(()) => {},
                    Err(e) => {
                        return Err(e);
                    },
                }
                proof {
                    assert(tail[0] == objs_view(l@)[1]);
                    assert(tail[1] == objs_view(l@)[2]);
                }
                match &l[1] {
                    LispObject::Symbol(sname) => {
                        let sname = *sname;
                        let value = match self.eval(&l[2], fuel) {
                            Ok(v) => v,
                            Err(e) => {
                                return Err(e.trace(2));
                            },
                        };
                        self.env.global(sname, value.clone());
                        Ok(value)
                    },
                    _ => Err(
                        EvalError::new(
                            "special form def must have a symbol in 1st place".to_owned(),
                        ).trace(1),
                    ),
                }
            },
            SpecialForm::Assign => {
                match assert_args(Match::Exact, tail_len, 2, d.as_str()) {
                    Ok(()) => {},
                    Err(e) => {
                        return Err(e);
                    },
                }
                proof {
                    assert(tail[0] == objs_view(l@)[1]);
                    assert(tail[1] == objs_view(l@)[2]);
                }
                match &l[1] {
                    LispObject::Symbol(sname) => {
                        let sname = *sname;
                        let value = match self.eval(&l[2], fuel) {
                            Ok(v) => v,
                            Err(e) => {
                                return Err(e.trace(2));
                            },
                        };
                        self.env.set(sname, value.clone());
                        Ok(value)
                    },
                    _ => Err(
                        EvalError::new(
                            "special form set must have a symbol in 1st place".to_owned(),
                        ).trace(1),
                    ),
                }
            },
            SpecialForm::If => {
                match assert_args(Match::Min, tail_len, 2, d.as_str()) {
                    Ok(()) => {},
                    Err(e) => {
                        return Err(e);
                    },
                }
                proof {
                    assert(tail[0] == objs_view(l@)[1]);
                    assert(tail[1] == objs_view(l@)[2]);
                }
                let pv = match self.eval(&l[1], fuel) {
                    Ok(v) => v,
                    Err(e) => {
                        return Err(e.trace(1));
                    },
                };
                let predicate = match pv.as_bool() {
                    Ok(b) => b,
                    Err(e) => {
                        return Err(e.trace(1));
                    },
                };
                if predicate {
                    match self.eval(&l[2], fuel) {
                        Ok(v) => Ok(v),
                        Err(e) => Err(e.trace(2)),
                    }
                } else if l.len() == 3 {
                    Ok(LispObject::Bool(false))
                } else {
                    proof {
                        assert(tail.skip(2) =~= objs_view(l@).skip(3));
                        lemma_seq_eval_len(sym, self.env@, tail.skip(2), 3, fuel as nat);
                    }
                    match self.eval_seq(l, 3, 3, fuel) {
                        Ok(mut vs) => match vs.pop() {
                            Option::Some(last) => Ok(last),
                            Option::None => {
                                proof {
                                    assert(false);
                                }
                                Err(EvalError::new(String::new()))
                            },
                        },
                        Err(e) => Err(e),
                    }
                }
            },
            SpecialForm::Let => {
                match assert_args(Match::Min, tail_len, 2, d.as_str()) {
                    Ok(()) => {},
                    Err(e) => {
                        return Err(e);
                    },
                }
                proof {
                    assert(tail[0] == objs_view(l@)[1]);
                }
                let binding_forms = match l[1].as_list() {
                    Ok(b) => b,
                    Err(e) => {
                        return Err(e.trace(1));
                    },
                };
                let binding = match self.eval_let_bindings(&binding_forms, fuel) {
                    Ok(b) => b,
                    Err(e) => {
                        return Err(e);
                    },
                };
                proof {
                    assert(tail.skip(1) =~= objs_view(l@).skip(2));
                }
                self.eval_body(Some(binding), l, 2, fuel)
            },
            SpecialForm::Fn => {
                match assert_args(Match::Min, tail_len, 2, d.as_str()) {
                    Ok(()) => {},
                    Err(e) => {
                        return Err(e);
                    },
                }
                proof {
                    assert(tail[0] == objs_view(l@)[1]);
                }
                let param_list = match l[1].as_list() {
                    Ok(pl) => pl,
                    Err(e) => {
                        return Err(e.trace(1));
                    },
                };
                let params = match self.parse_param_list(param_list) {
                    Ok(p) => p,
                    Err(e) => {
                        return Err(e.trace(1));
                    },
                };
                let mut forms: Sexpr = Vec::new();
                let mut i: usize = 2;
                while i < l.len()
                    invariant
                        2 <= i <= l@.len(),
                        objs_view(forms@) =~= objs_view(l@).subrange(2, i as int),
                    decreases l@.len() - i,
                {
                    let ghost pre = objs_view(forms@);
                    forms.push(l[i].clone());
                    proof {
                        assert(objs_view(forms@) =~= pre.push(objs_view(l@)[i as int]));
                        assert(objs_view(l@).subrange(2, i + 1) =~= pre.push(
                            objs_view(l@)[i as int],
                        ));
                    }
                    i = i + 1;
                }
                proof {
                    assert(objs_view(l@).subrange(2, l@.len() as int) =~= objs_view(l@).skip(2));
                    assert(tail.skip(1) =~= objs_view(l@).skip(2));
                }
                Ok(LispObject::Lambda(params, forms))
            },
            SpecialForm::Macro => {
                match assert_args(Match::Min, tail_len, 2, d.as_str()) {
                    Ok(()) => {},
                    Err(e) => {
                        return Err(e);
                    },
                }
                proof {
                    assert(tail[0] == objs_view(l@)[1]);
                }
                let param_list = match l[1].as_list() {
                    Ok(pl) => pl,
                    Err(e) => {
                        return Err(e.trace(1));
                    },
                };
                let params = match self.parse_param_list(param_list) {
                    Ok(p) => p,
                    Err(e) => {
                        return Err(e.trace(1));
                    },
                };
                let mut forms: Sexpr = Vec::new();
                let mut i: usize = 2;
                while i < l.len()
                    invariant
                        2 <= i <= l@.len(),
                        objs_view(forms@) =~= objs_view(l@).subrange(2, i as int),
                    decreases l@.len() - i,
                {
                    let ghost pre = objs_view(forms@);
                    forms.push(l[i].clone());
                    proof {
                        assert(objs_view(forms@) =~= pre.push(objs_view(l@)[i as int]));
                        assert(objs_view(l@).subrange(2, i + 1) =~= pre.push(
                            objs_view(l@)[i as int],
                        ));
                    }
                    i = i + 1;
                }
                proof {
                    assert(objs_view(l@).subrange(2, l@.len() as int) =~= objs_view(l@).skip(2));
                    assert(tail.skip(1) =~= objs_view(l@).skip(2));
                }
                Ok(LispObject::Macro(params, forms))
            },
        }
    }

    /// Evaluation of one object: self-evaluating atoms return copies of
    /// themselves, symbols resolve innermost-first, and a non-empty list
    /// evaluates its head and dispatches on the result. The fuel bounds the
    /// evaluation depth; the top-level entry point supplies `FUEL`.
    pub fn eval(&mut self, object: &LispObject, fuel: u64) -> (r: Result<LispObject, EvalError>)
        requires
            old(self).wf(),
        ensures
            final(self).wf(),
            final(self).symbols == old(self).symbols,
            ({
                let (env2, r2) = eval_spec(
                    old(self).symbols,
                    old(self).env@,
                    obj_view(*object),
                    fuel as nat,
                );
                final(self).env@ == env2 && match (r, r2) {
                    (Ok(v), Result::Ok(v2)) => v@ == v2,
                    (Err(e), Result::Err(e2)) => e@ == e2,
                    _ => false,
                }
            }),
        decreases fuel, 0nat, 0nat,
    {
        let ghost sym = self.symbols;
        let ghost env0 = self.env@;
        if fuel == 0 {
            return Err(EvalError::new("evaluation depth limit exceeded".to_owned()));
        }
        match object {
            LispObject::List(l) => {
                let ghost lv = objs_view(l@);
                if l.len() == 0 {
                    return Err(crate::exc::apply_empty());
                }
                proof {
                    assert(lv[0] == obj_view(l@[0]));
                }
                let head = match self.eval(&l[0], fuel - 1) {
                    Ok(h) => h,
                    Err(e) => {
                        return Err(e.trace(0));
                    },
                };
                let ghost hv = head@;
                match head {
                    LispObject::SpecialForm(sf) => self.eval_special_form(sf, l, fuel - 1),
                    LispObject::Native(params, f) => {
                        let binding = match self.bind_param_list(&params, l, true, fuel - 1) {
                            Ok(b) => b,
                            Err((e, _flag)) => {
                                return Err(e);
                            },
                        };
                        let ghost bv = binding_view(binding@);
                        let ghost vals = Seq::new(bv.len(), |i: int| bv[i].1);
                        let mut args: Vec<LispObject> = Vec::new();
                        let mut i: usize = 0;
                        while i < binding.len()
                            invariant
                                i <= binding@.len(),
                                bv == binding_view(binding@),
                                vals == Seq::new(bv.len(), |k: int| bv[k].1),
                                objs_view(args@) =~= vals.take(i as int),
                            decreases binding@.len() - i,
                        {
                            let ghost pre = objs_view(args@);
                            args.push(binding[i].1.clone());
                            proof {
                                assert(objs_view(args@) =~= pre.push(vals[i as int]));
                                assert(vals.take(i + 1) =~= pre.push(vals[i as int]));
                            }
                            i = i + 1;
                        }
                        proof {
                            assert(vals.take(vals.len() as int) =~= vals);
                            assert(objs_view(args@) =~= vals);
                        }
                        let na = native_arity_len(f);
                        let args_ok: bool;
                        if args.len() != na {
                            args_ok = false;
                        } else {
                            match f {
                                NativeFn::Subtract => match &args[1] {
                                    LispObject::List(l2) => {
                                        args_ok = l2.len() <= usize::MAX - 2;
                                        proof {
                                            assert(objs_view(args@)[1] == ObjView::List(
                                                objs_view(l2@),
                                            ));
                                        }
                                    },
                                    _ => {
                                        args_ok = true;
                                    },
                                },
                                _ => {
                                    args_ok = true;
                                },
                            }
                        }
                        if args_ok {
                            crate::native::apply_native(f, &args)
                        } else {
                            Err(EvalError::new("native argument vector mismatch".to_owned()))
                        }
                    },
                    LispObject::List(lst) => {
                        match self.eval_form(&lst, l, fuel - 1) {
                            Ok(v) => Ok(v),
                            Err((e, in_exp)) => if in_exp {
                                let label = self.head_label(&l[0]);
                                Err(e.frame(LispObject::List(lst), label).trace(0))
                            } else {
                                Err(e)
                            },
                        }
                    },
                    LispObject::Lambda(params, body) => {
                        match self.apply_function(&params, &body, false, l, fuel - 1) {
                            Ok(v) => Ok(v),
                            Err((e, in_exp)) => if in_exp {
                                let label = self.head_label(&l[0]);
                                Err(e.frame(LispObject::Lambda(params, body), label).trace(0))
                            } else {
                                Err(e)
                            },
                        }
                    },
                    LispObject::Macro(params, body) => {
                        match self.apply_function(&params, &body, true, l, fuel - 1) {
                            Ok(v) => Ok(v),
                            Err((e, in_exp)) => if in_exp {
                                let label = self.head_label(&l[0]);
                                Err(e.frame(LispObject::Macro(params, body), label).trace(0))
                            } else {
                                Err(e)
                            },
                        }
                    },
                    _ => {
                        let label = self.head_label(&l[0]);
                        Err(crate::exc::apply_unimpl().frame(head, label).trace(0))
                    },
                }
            },
            LispObject::Symbol(sname) => match self.env.resolve(sname) {
                Option::Some(o) => Ok(o.clone()),
                Option::None => Err(crate::exc::unbound_symbol(self.symbols.as_string(sname))),
            },
            _ => Ok(object.clone()),
        }
    }

    /// The top-level entry point: one object evaluated under the full depth
    /// budget; an error crossing out of the top level is framed with the
    /// whole input form under the entry label.
    pub fn eval_top_level(&mut self, object: &LispObject) -> (r: Result<LispObject, EvalError>)
        requires
            old(self).wf(),
        ensures
            final(self).wf(),
            final(self).symbols == old(self).symbols,
            ({
                let (env2, r2) = eval_top_spec(old(self).symbols, old(self).env@, obj_view(*object));
                final(self).env@ == env2 && match (r, r2) {
                    (Ok(v), Result::Ok(v2)) => v@ == v2,
                    (Err(e), Result::Err(e2)) => e@ == e2,
                    _ => false,
                }
            }),
    {
        match self.eval(object, FUEL) {
            Ok(v) => Ok(v),
            Err(e) => Err(e.frame(object.clone(), Some(":in:".to_owned()))),
        }
    }
}



/// Law: evaluating a bare symbol that no scope binds fails with an
/// unbound-symbol error naming that symbol, and leaves the environment
/// unchanged.
pub proof fn lemma_unbound_symbol(sym: Symbols, env: EnvV, s: Symbol, fuel: nat)
    requires
        fuel > 0,
        env_lookup(env, s) is None,
    ensures
        eval_spec(sym, env, ObjView::Symbol(s), fuel) == (
            env,
            Result::<ObjView, ErrView>::Err(unbound_view(sym, s)),
        ),
{
}

/// Law (arity): against a parameter list declaring `n` positionals and no
/// rest parameter, a call with `m != n` arguments fails with the arity
/// error before any argument is evaluated (the environment is untouched);
/// with a rest parameter, any `m >= n` passes the check, and when the
/// arguments come through, the rest-bound list holds exactly the `m - n`
/// surplus values.
pub proof fn lemma_bind_arity(
    sym: Symbols,
    env: EnvV,
    params: ParamsView,
    l: Seq<ObjView>,
    eval_args: bool,
    fuel: nat,
)
    requires
        l.len() >= 1,
    ensures
        ({
            let tail = l.drop_first();
            let np = params.0.len() as int;
            let (env2, r) = bind_spec(sym, env, params, l, eval_args, fuel);
            &&& (params.1 is None && tail.len() != np ==> env2 == env && r == Result::<
                Seq<(Symbol, ObjView)>,
                (ErrView, bool),
            >::Err(
                (
                    err_trace(
                        err_new(
                            msg_arity(
                                params_descr(sym.names_view(), params),
                                Match::Exact,
                                np,
                                tail.len() as int,
                            ),
                        ),
                        1,
                    ),
                    true,
                ),
            ))
            &&& (params.1 is None && tail.len() == np ==> ({
                let (env1, a) = if eval_args {
                    seq_eval_spec(sym, env, tail, 1, fuel)
                } else {
                    (env, Result::<Seq<ObjView>, ErrView>::Ok(tail))
                };
                a matches Result::Ok(args) ==> args.len() == np && (r matches Result::Ok(binding)
                    && binding.len() == np && (forall|i: int|
                    0 <= i < np ==> binding[i] == (params.0[i], args[i])))
            }))
            &&& (params.1 is Some && tail.len() >= np ==> ({
                let (env1, a) = if eval_args {
                    seq_eval_spec(sym, env, tail, 1, fuel)
                } else {
                    (env, Result::<Seq<ObjView>, ErrView>::Ok(tail))
                };
                a matches Result::Ok(args) ==> args.len() == tail.len() && (r matches Result::Ok(
                    binding,
                ) && binding.len() == np + 1 && binding.last() == (
                    params.1->0,
                    ObjView::List(args.skip(np)),
                ) && args.skip(np).len() == tail.len() - np && (forall|i: int|
                    0 <= i < np ==> binding[i] == (params.0[i], args[i])))
            }))
        }),
{
    let tail = l.drop_first();
    let np = params.0.len() as int;
    if eval_args {
        lemma_seq_eval_len(sym, env, tail, 1, fuel);
    }
}

/// Law (macro single step): invoking a macro bound in the environment
/// binds its operands unevaluated, evaluates its body once to obtain an
/// expression, and then evaluates that expression exactly once more in the
/// call-site environment; the result of that second evaluation is the
/// call's result, with no further automatic expansion.
pub proof fn lemma_macro_single_step(
    sym: Symbols,
    env: EnvV,
    l: Seq<ObjView>,
    params: ParamsView,
    body: Seq<ObjView>,
    fuel: nat,
)
    requires
        fuel >= 2,
        l.len() >= 1,
        l[0] is Symbol,
        env_lookup(env, l[0]->Symbol_0) == Option::Some(ObjView::Macro(params, body)),
        body.len() + 2 <= usize::MAX,
    ensures
        ({
            let f1 = (fuel - 1) as nat;
            let (env1, b) = bind_spec(sym, env, params, l, false, f1);
            b matches Result::Ok(binding) ==> ({
                let (env3, r) = body_spec(sym, env1, binding, body, f1);
                r matches Result::Ok(expansion) ==> ({
                    let (env4, r2) = eval_spec(sym, env3, expansion, f1);
                    r2 matches Result::Ok(v) ==> eval_spec(sym, env, ObjView::List(l), fuel)
                        == (env4, Result::<ObjView, ErrView>::Ok(v))
                })
            })
        }),
{
    let f1 = (fuel - 1) as nat;
    assert(eval_spec(sym, env, l[0], f1) == (
        env,
        Result::<ObjView, ErrView>::Ok(ObjView::Macro(params, body)),
    ));
    assert(eval_spec(sym, env, ObjView::List(l), fuel) == expansion_result(
        sym,
        apply_spec(sym, env, params, body, true, l, f1),
        ObjView::Macro(params, body),
        l[0],
    ));
    let (env1, b) = bind_spec(sym, env, params, l, false, f1);
    match b {
        Result::Ok(binding) => {
            let (env3, r) = body_spec(sym, env1, binding, body, f1);
            match r {
                Result::Ok(expansion) => {
                    let (env4, r2) = eval_spec(sym, env3, expansion, f1);
                    match r2 {
                        Result::Ok(v) => {
                            assert(apply_spec(sym, env, params, body, true, l, f1) == (
                                env4,
                                Result::<ObjView, (ErrView, bool)>::Ok(v),
                            ));
                        },
                        Result::Err(_) => {},
                    }
                },
                Result::Err(_) => {},
            }
        },
        Result::Err(_) => {},
    }
}

/// Evaluation leaves the scope stack exactly as deep as it found it: every
/// scope pushed on the way in is popped on every exit path, success or
/// error.
pub proof fn lemma_eval_preserves_depth(sym: Symbols, env: EnvV, v: ObjView, fuel: nat)
    ensures
        eval_spec(sym, env, v, fuel).0.len() == env.len(),
    decreases fuel, 0nat, 0nat,
{
    if fuel > 0 {
        match v {
            ObjView::List(l) => {
                if l.len() > 0 {
                    let f1 = (fuel - 1) as nat;
                    lemma_eval_preserves_depth(sym, env, l[0], f1);
                    let (env1, h) = eval_spec(sym, env, l[0], f1);
                    match h {
                        Result::Ok(hv) => match hv {
                            ObjView::SpecialForm(sf) => {
                                lemma_special_preserves_depth(sym, env1, sf, l.drop_first(), f1);
                            },
                            ObjView::Native(params, f) => {
                                lemma_bind_preserves_depth(sym, env1, params, l, true, f1);
                            },
                            ObjView::List(lst) => {
                                lemma_form_preserves_depth(sym, env1, lst, l, f1);
                            },
                            ObjView::Lambda(params, body) => {
                                lemma_apply_preserves_depth(sym, env1, params, body, false, l, f1);
                            },
                            ObjView::Macro(params, body) => {
                                lemma_apply_preserves_depth(sym, env1, params, body, true, l, f1);
                            },
                            _ => {},
                        },
                        Result::Err(_) => {},
                    }
                }
            },
            _ => {},
        }
    }
}

proof fn lemma_seq_eval_preserves_depth(
    sym: Symbols,
    env: EnvV,
    items: Seq<ObjView>,
    off: int,
    fuel: nat,
)
    ensures
        seq_eval_spec(sym, env, items, off, fuel).0.len() == env.len(),
    decreases fuel, 1nat, items.len(),
{
    if items.len() > 0 {
        lemma_eval_preserves_depth(sym, env, items[0], fuel);
        let (env1, r) = eval_spec(sym, env, items[0], fuel);
        match r {
            Result::Ok(_) => {
                lemma_seq_eval_preserves_depth(sym, env1, items.drop_first(), off + 1, fuel);
            },
            Result::Err(_) => {},
        }
    }
}

proof fn lemma_let_bindings_preserves_depth(
    sym: Symbols,
    env: EnvV,
    bforms: Seq<ObjView>,
    idx: int,
    fuel: nat,
)
    ensures
        let_bindings_spec(sym, env, bforms, idx, fuel).0.len() == env.len(),
    decreases fuel, 1nat, bforms.len(),
{
    if bforms.len() > 0 {
        match bforms[0] {
            ObjView::List(b) => {
                if b.len() >= 2 {
                    match b[0] {
                        ObjView::Symbol(_) => {
                            lemma_eval_preserves_depth(sym, env, b[1], fuel);
                            let (env1, r) = eval_spec(sym, env, b[1], fuel);
                            match r {
                                Result::Ok(_) => {
                                    lemma_let_bindings_preserves_depth(
                                        sym,
                                        env1,
                                        bforms.drop_first(),
                                        idx + 1,
                                        fuel,
                                    );
                                },
                                Result::Err(_) => {},
                            }
                        },
                        _ => {},
                    }
                }
            },
            _ => {},
        }
    }
}

proof fn lemma_bind_preserves_depth(
    sym: Symbols,
    env: EnvV,
    params: ParamsView,
    l: Seq<ObjView>,
    eval_args: bool,
    fuel: nat,
)
    ensures
        bind_spec(sym, env, params, l, eval_args, fuel).0.len() == env.len(),
    decreases fuel, 2nat, 0nat,
{
    if eval_args {
        lemma_seq_eval_preserves_depth(sym, env, l.drop_first(), 1, fuel);
    }
}

proof fn lemma_body_preserves_depth(
    sym: Symbols,
    env: EnvV,
    binding: Seq<(Symbol, ObjView)>,
    forms: Seq<ObjView>,
    fuel: nat,
)
    ensures
        body_spec(sym, env, binding, forms, fuel).0.len() == env.len(),
    decreases fuel, 3nat, 0nat,
{
    lemma_seq_eval_preserves_depth(sym, env.push(binding), forms, 2, fuel);
}

proof fn lemma_apply_preserves_depth(
    sym: Symbols,
    env: EnvV,
    params: ParamsView,
    body: Seq<ObjView>,
    is_macro: bool,
    l: Seq<ObjView>,
    fuel: nat,
)
    ensures
        apply_spec(sym, env, params, body, is_macro, l, fuel).0.len() == env.len(),
    decreases fuel, 4nat, 0nat,
{
    lemma_bind_preserves_depth(sym, env, params, l, !is_macro, fuel);
    let (env2, b) = bind_spec(sym, env, params, l, !is_macro, fuel);
    match b {
        Result::Ok(binding) => {
            if body.len() + 2 <= usize::MAX {
                lemma_body_preserves_depth(sym, env2, binding, body, fuel);
                let (env3, r) = body_spec(sym, env2, binding, body, fuel);
                match r {
                    Result::Ok(result) => {
                        if is_macro {
                            lemma_eval_preserves_depth(sym, env3, result, fuel);
                        }
                    },
                    Result::Err(_) => {},
                }
            }
        },
        Result::Err(_) => {},
    }
}

proof fn lemma_form_preserves_depth(
    sym: Symbols,
    env: EnvV,
    lst: Seq<ObjView>,
    l: Seq<ObjView>,
    fuel: nat,
)
    ensures
        form_spec(sym, env, lst, l, fuel).0.len() == env.len(),
    decreases fuel, 5nat, 0nat,
{
    match parse_fdef_spec(sym, lst) {
        Result::Ok((params, body, is_macro)) => {
            lemma_apply_preserves_depth(sym, env, params, body, is_macro, l, fuel);
        },
        Result::Err(_) => {},
    }
}

proof fn lemma_special_preserves_depth(
    sym: Symbols,
    env: EnvV,
    sf: SpecialForm,
    tail: Seq<ObjView>,
    fuel: nat,
)
    ensures
        special_spec(sym, env, sf, tail, fuel).0.len() == env.len(),
    decreases fuel, 5nat, 0nat,
{
    match sf {
        SpecialForm::Begin => {
            if tail.len() >= 1 {
                lemma_seq_eval_preserves_depth(sym, env, tail, 1, fuel);
            }
        },
        SpecialForm::Def => {
            if tail.len() == 2 && tail[0] is Symbol {
                lemma_eval_preserves_depth(sym, env, tail[1], fuel);
            }
        },
        SpecialForm::Assign => {
            if tail.len() == 2 && tail[0] is Symbol {
                lemma_eval_preserves_depth(sym, env, tail[1], fuel);
            }
        },
        SpecialForm::If => {
            if tail.len() >= 2 {
                lemma_eval_preserves_depth(sym, env, tail[0], fuel);
                let (env1, p) = eval_spec(sym, env, tail[0], fuel);
                match p {
                    Result::Ok(ObjView::Bool(true)) => {
                        lemma_eval_preserves_depth(sym, env1, tail[1], fuel);
                    },
                    Result::Ok(ObjView::Bool(false)) => {
                        if tail.len() > 2 {
                            lemma_seq_eval_preserves_depth(sym, env1, tail.skip(2), 3, fuel);
                        }
                    },
                    _ => {},
                }
            }
        },
        SpecialForm::Let => {
            if tail.len() >= 2 {
                match tail[0] {
                    ObjView::List(bforms) => {
                        lemma_let_bindings_preserves_depth(sym, env, bforms, 0, fuel);
                        let (env1, b) = let_bindings_spec(sym, env, bforms, 0, fuel);
                        match b {
                            Result::Ok(binding) => {
                                lemma_body_preserves_depth(
                                    sym,
                                    env1,
                                    binding,
                                    tail.skip(1),
                                    fuel,
                                );
                            },
                            Result::Err(_) => {},
                        }
                    },
                    _ => {},
                }
            }
        },
        _ => {},
    }
}


} // verus!
