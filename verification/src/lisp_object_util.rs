use vstd::prelude::*;

use crate::env::int_to_dec;
use crate::lisp_object::{
    err_new, err_trace, obj_view, objs_view, ErrView, EvalError, LispObject, ObjView, Symbol,
};

verus! {

/// How an argument count is checked: exactly the declared count, or at
/// least it.
#[derive(Clone, Copy, PartialEq, Eq, Structural)]
pub enum Match {
    Exact,
    Min,
}

/// The arity-error message for a callable described by `desc`.
pub open spec fn msg_arity(desc: Seq<char>, m: Match, len: int, actual: int) -> Seq<char> {
    desc + " requires "@ + (match m {
        Match::Exact => "exactly"@,
        Match::Min => "at least"@,
    }) + " "@ + int_to_dec(len) + " arguments, got "@ + int_to_dec(actual)
}

/// Whether an argument count passes the check.
pub open spec fn arity_ok(m: Match, len: int, actual: int) -> bool {
    match m {
        Match::Exact => actual == len,
        Match::Min => actual >= len,
    }
}

/// Checks an argument count, failing with a message that names the callable
/// and both counts.
pub fn assert_args(m: Match, actual_len: usize, len: usize, description: &str) -> (r: Result<
    (),
    EvalError,
>)
    ensures
        match r {
            Ok(()) => arity_ok(m, len as int, actual_len as int),
            Err(e) => !arity_ok(m, len as int, actual_len as int) && e@ == err_new(
                msg_arity(description@, m, len as int, actual_len as int),
            ),
        },
{
    let pred = match m {
        Match::Exact => actual_len != len,
        Match::Min => actual_len < len,
    };
    if pred {
        let mut msg = String::new();
        msg.append(description);
        msg.append(" requires ");
        match m {
            Match::Exact => msg.append("exactly"),
            Match::Min => msg.append("at least"),
        }
        msg.append(" ");
        crate::env::push_digits(&mut msg, len as u64);
        msg.append(" arguments, got ");
        crate::env::push_digits(&mut msg, actual_len as u64);
        proof {
            assert(msg@ =~= msg_arity(description@, m, len as int, actual_len as int));
        }
        Err(EvalError::new(msg))
    } else {
        Ok(())
    }
}

/// The values of a run of number atoms, or the first index holding
/// something else.
pub open spec fn as_numbers_spec(items: Seq<ObjView>) -> Result<Seq<i64>, (ErrView, int)>
    decreases items.len(),
{
    if items.len() == 0 {
        Result::Ok(Seq::empty())
    } else {
        match items[0] {
            ObjView::Number(n) => match as_numbers_spec(items.drop_first()) {
                Result::Ok(ns) => Result::Ok(seq![n] + ns),
                Result::Err((e, i)) => Result::Err((e, i + 1)),
            },
            _ => Result::Err((err_new(crate::lisp_object::msg_expected_number()), 0int)),
        }
    }
}

/// The ids of a run of symbol atoms, or the first index holding something
/// else.
pub open spec fn as_symbols_spec(items: Seq<ObjView>) -> Result<Seq<Symbol>, (ErrView, int)>
    decreases items.len(),
{
    if items.len() == 0 {
        Result::Ok(Seq::empty())
    } else {
        match items[0] {
            ObjView::Symbol(s) => match as_symbols_spec(items.drop_first()) {
                Result::Ok(ss) => Result::Ok(seq![s] + ss),
                Result::Err((e, i)) => Result::Err((e, i + 1)),
            },
            _ => Result::Err((err_new(crate::lisp_object::msg_expected_symbol()), 0int)),
        }
    }
}

pub proof fn lemma_as_numbers_partial(items: Seq<ObjView>, pre: Seq<i64>, i: int)
    requires
        0 <= i <= items.len(),
        pre.len() == i,
        forall|j: int| 0 <= j < i ==> items[j] == ObjView::Number(pre[j]),
    ensures
        as_numbers_spec(items) == match as_numbers_spec(items.skip(i)) {
            Result::<Seq<i64>, (ErrView, int)>::Ok(ns) => Result::<Seq<i64>, (ErrView, int)>::Ok(
                pre + ns,
            ),
            Result::<Seq<i64>, (ErrView, int)>::Err((e, k)) => Result::<
                Seq<i64>,
                (ErrView, int),
            >::Err((e, k + i)),
        },
    decreases i,
{
    if i == 0 {
        assert(items.skip(0) =~= items);
        match as_numbers_spec(items) {
            Result::Ok(ns) => {
                assert(pre + ns =~= ns);
            },
            Result::Err(_) => {},
        }
    } else {
        lemma_as_numbers_partial(items, pre.drop_last(), i - 1);
        let tail = items.skip(i - 1);
        assert(tail[0] == items[i - 1]);
        assert(tail.drop_first() =~= items.skip(i));
        match as_numbers_spec(items.skip(i)) {
            Result::Ok(ns) => {
                assert(as_numbers_spec(tail) == Result::<Seq<i64>, (ErrView, int)>::Ok(
                    seq![pre[i - 1]] + ns,
                ));
                assert(pre.drop_last() + (seq![pre[i - 1]] + ns) =~= pre + ns);
            },
            Result::Err((e, k)) => {
                assert(as_numbers_spec(tail) == Result::<Seq<i64>, (ErrView, int)>::Err(
                    (e, k + 1),
                ));
            },
        }
    }
}

pub proof fn lemma_as_symbols_partial(items: Seq<ObjView>, pre: Seq<Symbol>, i: int)
    requires
        0 <= i <= items.len(),
        pre.len() == i,
        forall|j: int| 0 <= j < i ==> items[j] == ObjView::Symbol(pre[j]),
    ensures
        as_symbols_spec(items) == match as_symbols_spec(items.skip(i)) {
            Result::<Seq<Symbol>, (ErrView, int)>::Ok(ss) => Result::<
                Seq<Symbol>,
                (ErrView, int),
            >::Ok(pre + ss),
            Result::<Seq<Symbol>, (ErrView, int)>::Err((e, k)) => Result::<
                Seq<Symbol>,
                (ErrView, int),
            >::Err((e, k + i)),
        },
    decreases i,
{
    if i == 0 {
        assert(items.skip(0) =~= items);
        match as_symbols_spec(items) {
            Result::Ok(ss) => {
                assert(pre + ss =~= ss);
            },
            Result::Err(_) => {},
        }
    } else {
        lemma_as_symbols_partial(items, pre.drop_last(), i - 1);
        let tail = items.skip(i - 1);
        assert(tail[0] == items[i - 1]);
        assert(tail.drop_first() =~= items.skip(i));
        match as_symbols_spec(items.skip(i)) {
            Result::Ok(ss) => {
                assert(as_symbols_spec(tail) == Result::<Seq<Symbol>, (ErrView, int)>::Ok(
                    seq![pre[i - 1]] + ss,
                ));
                assert(pre.drop_last() + (seq![pre[i - 1]] + ss) =~= pre + ss);
            },
            Result::Err((e, k)) => {
                assert(as_symbols_spec(tail) == Result::<Seq<Symbol>, (ErrView, int)>::Err(
                    (e, k + 1),
                ));
            },
        }
    }
}

/// The numeric values of the given objects; fails at the first object that
/// is not a number, reporting its index.
pub fn as_numbers(objects: &Vec<LispObject>) -> (r: Result<Vec<i64>, (EvalError, usize)>)
    ensures
        match r {
            Ok(ns) => as_numbers_spec(objs_view(objects@)) == Result::<
                Seq<i64>,
                (ErrView, int),
            >::Ok(ns@),
            Err((e, i)) => i < objects@.len() && as_numbers_spec(objs_view(objects@))
                == Result::<Seq<i64>, (ErrView, int)>::Err((e@, i as int)),
        },
{
    let ghost items = objs_view(objects@);
    let mut ns: Vec<i64> = Vec::new();
    let mut i: usize = 0;
    while i < objects.len()
        invariant
            i <= objects@.len(),
            items == objs_view(objects@),
            ns@.len() == i,
            forall|j: int| 0 <= j < i ==> items[j] == ObjView::Number(ns@[j]),
        decreases objects@.len() - i,
    {
        match objects[i].as_number() {
            Ok(n) => {
                ns.push(n);
            },
            Err(e) => {
                proof {
                    lemma_as_numbers_partial(items, ns@, i as int);
                    assert(items.skip(i as int)[0] == items[i as int]);
                }
                return Err((e, i));
            },
        }
        i = i + 1;
    }
    proof {
        lemma_as_numbers_partial(items, ns@, i as int);
        assert(items.skip(i as int) =~= Seq::<ObjView>::empty());
        assert(ns@ + Seq::<i64>::empty() =~= ns@);
    }
    Ok(ns)
}

/// The symbol ids of the given objects; fails at the first object that is
/// not a symbol, reporting its index.
pub fn as_symbols(objects: &Vec<LispObject>) -> (r: Result<Vec<Symbol>, (EvalError, usize)>)
    ensures
        match r {
            Ok(ss) => as_symbols_spec(objs_view(objects@)) == Result::<
                Seq<Symbol>,
                (ErrView, int),
            >::Ok(ss@),
            Err((e, i)) => i < objects@.len() && as_symbols_spec(objs_view(objects@))
                == Result::<Seq<Symbol>, (ErrView, int)>::Err((e@, i as int)),
        },
{
    let ghost items = objs_view(objects@);
    let mut ss: Vec<Symbol> = Vec::new();
    let mut i: usize = 0;
    while i < objects.len()
        invariant
            i <= objects@.len(),
            items == objs_view(objects@),
            ss@.len() == i,
            forall|j: int| 0 <= j < i ==> items[j] == ObjView::Symbol(ss@[j]),
        decreases objects@.len() - i,
    {
        match objects[i].as_symbol() {
            Ok(s) => {
                ss.push(s);
            },
            Err(e) => {
                proof {
                    lemma_as_symbols_partial(items, ss@, i as int);
                    assert(items.skip(i as int)[0] == items[i as int]);
                }
                return Err((e, i));
            },
        }
        i = i + 1;
    }
    proof {
        lemma_as_symbols_partial(items, ss@, i as int);
        assert(items.skip(i as int) =~= Seq::<ObjView>::empty());
        assert(ss@ + Seq::<Symbol>::empty() =~= ss@);
    }
    Ok(ss)
}

} // verus!
