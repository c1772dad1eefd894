use vstd::prelude::*;

use crate::lisp_object::{
    err_new, err_trace, msg_expected_list, msg_expected_number, msg_expected_symbol, obj_view,
    objs_view, ErrView, EvalError, LispObject, NativeDef, NativeFn, ObjView,
};
use crate::lisp_object_util::as_numbers_spec;

verus! {

broadcast use crate::lisp_object::group_obj_view;

pub open spec fn msg_num_overflow() -> Seq<char> {
    "numeric overflow"@
}

pub open spec fn msg_first_empty() -> Seq<char> {
    "first of empty list"@
}

pub open spec fn msg_equal_unimpl() -> Seq<char> {
    "equal not implemented for type"@
}

/// A native's result and an evaluation error are related to their models
/// together through this projection.
pub open spec fn res_view(r: Result<LispObject, EvalError>) -> Result<ObjView, ErrView> {
    match r {
        Ok(v) => Result::Ok(v@),
        Err(e) => Result::Err(e@),
    }
}

/// Left-to-right sum with a range check at every step.
pub open spec fn sum_i64(acc: i64, ns: Seq<i64>) -> Option<i64>
    decreases ns.len(),
{
    if ns.len() == 0 {
        Option::Some(acc)
    } else {
        let t = acc + ns[0];
        if i64::MIN <= t <= i64::MAX {
            sum_i64(t as i64, ns.drop_first())
        } else {
            Option::None
        }
    }
}

/// Left-to-right product with a range check at every step.
pub open spec fn prod_i64(acc: i64, ns: Seq<i64>) -> Option<i64>
    decreases ns.len(),
{
    if ns.len() == 0 {
        Option::Some(acc)
    } else {
        let t = acc * ns[0];
        if i64::MIN <= t <= i64::MAX {
            prod_i64(t as i64, ns.drop_first())
        } else {
            Option::None
        }
    }
}

/// Variadic addition over the rest list.
pub open spec fn native_add_spec(args: Seq<ObjView>) -> Result<ObjView, ErrView> {
    match args[0] {
        ObjView::List(l) => match as_numbers_spec(l) {
            Result::Ok(ns) => match sum_i64(0, ns) {
                Option::Some(s) => Result::Ok(ObjView::Number(s)),
                Option::None => Result::Err(err_new(msg_num_overflow())),
            },
            Result::Err((e, i)) => Result::Err(err_trace(e, (i + 1) as usize)),
        },
        _ => Result::Err(err_new(msg_expected_list())),
    }
}

/// Variadic multiplication over the rest list.
pub open spec fn native_multiply_spec(args: Seq<ObjView>) -> Result<ObjView, ErrView> {
    match args[0] {
        ObjView::List(l) => match as_numbers_spec(l) {
            Result::Ok(ns) => match prod_i64(1, ns) {
                Option::Some(s) => Result::Ok(ObjView::Number(s)),
                Option::None => Result::Err(err_new(msg_num_overflow())),
            },
            Result::Err((e, i)) => Result::Err(err_trace(e, (i + 1) as usize)),
        },
        _ => Result::Err(err_new(msg_expected_list())),
    }
}

/// A mandatory minuend minus the sum of the rest list.
pub open spec fn native_subtract_spec(args: Seq<ObjView>) -> Result<ObjView, ErrView> {
    match args[0] {
        ObjView::Number(min) => match args[1] {
            ObjView::List(l) => match as_numbers_spec(l) {
                Result::Ok(ns) => match sum_i64(0, ns) {
                    Option::Some(s) => if i64::MIN <= min - s <= i64::MAX {
                        Result::Ok(ObjView::Number((min - s) as i64))
                    } else {
                        Result::Err(err_new(msg_num_overflow()))
                    },
                    Option::None => Result::Err(err_new(msg_num_overflow())),
                },
                Result::Err((e, i)) => Result::Err(err_trace(e, (i + 2) as usize)),
            },
            _ => Result::Err(err_new(msg_expected_list())),
        },
        _ => Result::Err(err_trace(err_new(msg_expected_number()), 1)),
    }
}

/// Numeric or symbol equality; any other operand type is an error.
pub open spec fn native_equal_spec(args: Seq<ObjView>) -> Result<ObjView, ErrView> {
    match args[0] {
        ObjView::Number(a) => match args[1] {
            ObjView::Number(b) => Result::Ok(ObjView::Bool(a == b)),
            _ => Result::Err(err_trace(err_new(msg_expected_number()), 2)),
        },
        ObjView::Symbol(s) => match args[1] {
            ObjView::Symbol(t) => Result::Ok(ObjView::Bool(s == t)),
            _ => Result::Err(err_trace(err_new(msg_expected_symbol()), 2)),
        },
        _ => Result::Err(err_trace(err_new(msg_equal_unimpl()), 1)),
    }
}

/// The head of a list; the empty list has none.
pub open spec fn native_first_spec(args: Seq<ObjView>) -> Result<ObjView, ErrView> {
    match args[0] {
        ObjView::List(l) => if l.len() > 0 {
            Result::Ok(l[0])
        } else {
            Result::Err(err_new(msg_first_empty()))
        },
        _ => Result::Err(err_new(msg_expected_list())),
    }
}

/// The tail of a list; the tail of the empty list is the empty list.
pub open spec fn native_rest_spec(args: Seq<ObjView>) -> Result<ObjView, ErrView> {
    match args[0] {
        ObjView::List(l) => if l.len() > 0 {
            Result::Ok(ObjView::List(l.drop_first()))
        } else {
            Result::Ok(ObjView::List(Seq::empty()))
        },
        _ => Result::Err(err_new(msg_expected_list())),
    }
}

/// The rest list itself, as a list value.
pub open spec fn native_list_spec(args: Seq<ObjView>) -> Result<ObjView, ErrView> {
    match args[0] {
        ObjView::List(l) => Result::Ok(ObjView::List(l)),
        _ => Result::Err(err_new(msg_expected_list())),
    }
}

/// Flattening of a sequence of lists, or the first index holding a
/// non-list.
pub open spec fn concat_items(items: Seq<ObjView>) -> Result<Seq<ObjView>, (ErrView, int)>
    decreases items.len(),
{
    if items.len() == 0 {
        Result::Ok(Seq::empty())
    } else {
        match items[0] {
            ObjView::List(l) => match concat_items(items.drop_first()) {
                Result::Ok(r) => Result::Ok(l + r),
                Result::Err((e, i)) => Result::Err((e, i + 1)),
            },
            _ => Result::Err((err_new(msg_expected_list()), 0int)),
        }
    }
}

/// The concatenation of the element lists of the rest list.
pub open spec fn native_concat_spec(args: Seq<ObjView>) -> Result<ObjView, ErrView> {
    match args[0] {
        ObjView::List(l) => match concat_items(l) {
            Result::Ok(r) => Result::Ok(ObjView::List(r)),
            Result::Err((e, i)) => Result::Err(err_trace(e, (i + 1) as usize)),
        },
        _ => Result::Err(err_new(msg_expected_list())),
    }
}

/// Whether the operand is a list.
pub open spec fn native_is_list_spec(args: Seq<ObjView>) -> Result<ObjView, ErrView> {
    Result::Ok(ObjView::Bool(args[0] is List))
}

/// The element count of a list, as a number.
pub open spec fn native_length_spec(args: Seq<ObjView>) -> Result<ObjView, ErrView> {
    match args[0] {
        ObjView::List(l) => if l.len() <= i64::MAX {
            Result::Ok(ObjView::Number(l.len() as i64))
        } else {
            Result::Err(err_new(msg_num_overflow()))
        },
        _ => Result::Err(err_new(msg_expected_list())),
    }
}

/// A machine limit: when the subtrahends are a collected rest list its
/// element positions, offset by the two leading call positions, must fit in
/// `usize`.
pub open spec fn native_args_ok(f: NativeFn, args: Seq<ObjView>) -> bool {
    &&& args.len() == native_arity(f)
    &&& f is Subtract ==> match args[1] {
        ObjView::List(l) => l.len() + 2 <= usize::MAX,
        _ => true,
    }
}

/// How many bound arguments a native receives: its positional count plus
/// one collected rest list if it declares one.
pub open spec fn native_arity(f: NativeFn) -> int {
    match f {
        NativeFn::Add => 1,
        NativeFn::Multiply => 1,
        NativeFn::Subtract => 2,
        NativeFn::Equal => 2,
        NativeFn::First => 1,
        NativeFn::Rest => 1,
        NativeFn::ListOf => 1,
        NativeFn::Concat => 1,
        NativeFn::IsList => 1,
        NativeFn::Length => 1,
    }
}

/// What each native returns on its bound argument vector.
pub open spec fn native_apply_spec(f: NativeFn, args: Seq<ObjView>) -> Result<ObjView, ErrView> {
    match f {
        NativeFn::Add => native_add_spec(args),
        NativeFn::Multiply => native_multiply_spec(args),
        NativeFn::Subtract => native_subtract_spec(args),
        NativeFn::Equal => native_equal_spec(args),
        NativeFn::First => native_first_spec(args),
        NativeFn::Rest => native_rest_spec(args),
        NativeFn::ListOf => native_list_spec(args),
        NativeFn::Concat => native_concat_spec(args),
        NativeFn::IsList => native_is_list_spec(args),
        NativeFn::Length => native_length_spec(args),
    }
}

fn sum_vec(ns: &Vec<i64>) -> (r: Option<i64>)
    ensures
        r == sum_i64(0, ns@),
{
    let mut acc: i64 = 0;
    let mut i: usize = 0;
    proof {
        assert(ns@.skip(0) =~= ns@);
    }
    while i < ns.len()
        invariant
            i <= ns@.len(),
            sum_i64(0, ns@) == sum_i64(acc, ns@.skip(i as int)),
        decreases ns@.len() - i,
    {
        proof {
            assert(ns@.skip(i as int)[0] == ns@[i as int]);
            assert(ns@.skip(i as int).drop_first() =~= ns@.skip(i as int + 1));
        }
        match acc.checked_add(ns[i]) {
            Option::Some(t) => {
                acc = t;
            },
            Option::None => {
                return None;
            },
        }
        i = i + 1;
    }
    proof {
        assert(ns@.skip(i as int) =~= Seq::<i64>::empty());
    }
    Some(acc)
}

fn prod_vec(ns: &Vec<i64>) -> (r: Option<i64>)
    ensures
        r == prod_i64(1, ns@),
{
    let mut acc: i64 = 1;
    let mut i: usize = 0;
    proof {
        assert(ns@.skip(0) =~= ns@);
    }
    while i < ns.len()
        invariant
            i <= ns@.len(),
            prod_i64(1, ns@) == prod_i64(acc, ns@.skip(i as int)),
        decreases ns@.len() - i,
    {
        proof {
            assert(ns@.skip(i as int)[0] == ns@[i as int]);
            assert(ns@.skip(i as int).drop_first() =~= ns@.skip(i as int + 1));
        }
        match acc.checked_mul(ns[i]) {
            Option::Some(t) => {
                acc = t;
            },
            Option::None => {
                return None;
            },
        }
        i = i + 1;
    }
    proof {
        assert(ns@.skip(i as int) =~= Seq::<i64>::empty());
    }
    Some(acc)
}

pub fn add(args: &Vec<LispObject>) -> (r: Result<LispObject, EvalError>)
    requires
        args@.len() == native_arity(NativeFn::Add),
    ensures
        res_view(r) == native_add_spec(objs_view(args@)),
{
    let terms = match args[0].as_list() {
        Ok(l) => l,
        Err(e) => {
            return Err(e);
        },
    };
    match crate::lisp_object_util::as_numbers(&terms) {
        Ok(ns) => match sum_vec(&ns) {
            Option::Some(s) => Ok(LispObject::Number(s)),
            Option::None => Err(EvalError::new("numeric overflow".to_owned())),
        },
        Err((e, i)) => Err(e.trace(i + 1)),
    }
}

pub fn multiply(args: &Vec<LispObject>) -> (r: Result<LispObject, EvalError>)
    requires
        args@.len() == native_arity(NativeFn::Multiply),
    ensures
        res_view(r) == native_multiply_spec(objs_view(args@)),
{
    let factors = match args[0].as_list() {
        Ok(l) => l,
        Err(e) => {
            return Err(e);
        },
    };
    match crate::lisp_object_util::as_numbers(&factors) {
        Ok(ns) => match prod_vec(&ns) {
            Option::Some(s) => Ok(LispObject::Number(s)),
            Option::None => Err(EvalError::new("numeric overflow".to_owned())),
        },
        Err((e, i)) => Err(e.trace(i + 1)),
    }
}

pub fn subtract(args: &Vec<LispObject>) -> (r: Result<LispObject, EvalError>)
    requires
        native_args_ok(NativeFn::Subtract, objs_view(args@)),
    ensures
        res_view(r) == native_subtract_spec(objs_view(args@)),
{
    let min = match args[0].as_number() {
        Ok(n) => n,
        Err(e) => {
            return Err(e.trace(1));
        },
    };
    let subs = match args[1].as_list() {
        Ok(l) => l,
        Err(e) => {
            return Err(e);
        },
    };
    match crate::lisp_object_util::as_numbers(&subs) {
        Ok(ns) => match sum_vec(&ns) {
            Option::Some(s) => match min.checked_sub(s) {
                Option::Some(d) => Ok(LispObject::Number(d)),
                Option::None => Err(EvalError::new("numeric overflow".to_owned())),
            },
            Option::None => Err(EvalError::new("numeric overflow".to_owned())),
        },
        Err((e, i)) => Err(e.trace(i + 2)),
    }
}

pub fn equal(args: &Vec<LispObject>) -> (r: Result<LispObject, EvalError>)
    requires
        args@.len() == native_arity(NativeFn::Equal),
    ensures
        res_view(r) == native_equal_spec(objs_view(args@)),
{
    match &args[0] {
        LispObject::Number(op0) => match args[1].as_number() {
            Ok(op1) => Ok(LispObject::Bool(*op0 == op1)),
            Err(e) => Err(e.trace(2)),
        },
        LispObject::Symbol(op0) => match args[1].as_symbol() {
            Ok(op1) => Ok(LispObject::Bool(*op0 == op1)),
            Err(e) => Err(e.trace(2)),
        },
        _ => Err(EvalError::new("equal not implemented for type".to_owned()).trace(1)),
    }
}

pub fn first(args: &Vec<LispObject>) -> (r: Result<LispObject, EvalError>)
    requires
        args@.len() == native_arity(NativeFn::First),
    ensures
        res_view(r) == native_first_spec(objs_view(args@)),
{
    let lst = match args[0].as_list() {
        Ok(l) => l,
        Err(e) => {
            return Err(e);
        },
    };
    if lst.len() > 0 {
        let ghost pre = objs_view(lst@);
        let mut lst = lst;
        let h = lst.remove(0);
        proof {
            assert(obj_view(h) == pre[0]);
        }
        Ok(h)
    } else {
        Err(EvalError::new("first of empty list".to_owned()))
    }
}

pub fn rest(args: &Vec<LispObject>) -> (r: Result<LispObject, EvalError>)
    requires
        args@.len() == native_arity(NativeFn::Rest),
    ensures
        res_view(r) == native_rest_spec(objs_view(args@)),
{
    let lst = match args[0].as_list() {
        Ok(l) => l,
        Err(e) => {
            return Err(e);
        },
    };
    if lst.len() > 0 {
        let ghost pre = objs_view(lst@);
        let mut lst = lst;
        let _ = lst.remove(0);
        proof {
            assert(objs_view(lst@) =~= pre.drop_first());
        }
        Ok(LispObject::List(lst))
    } else {
        proof {
            assert(objs_view(lst@) =~= Seq::<ObjView>::empty());
        }
        Ok(LispObject::List(lst))
    }
}

pub fn list(args: &Vec<LispObject>) -> (r: Result<LispObject, EvalError>)
    requires
        args@.len() == native_arity(NativeFn::ListOf),
    ensures
        res_view(r) == native_list_spec(objs_view(args@)),
{
    match args[0].as_list() {
        Ok(l) => Ok(LispObject::List(l)),
        Err(e) => Err(e),
    }
}

pub fn concat(args: &Vec<LispObject>) -> (r: Result<LispObject, EvalError>)
    requires
        args@.len() == native_arity(NativeFn::Concat),
    ensures
        res_view(r) == native_concat_spec(objs_view(args@)),
{
    let lsts = match args[0].as_list() {
        Ok(l) => l,
        Err(e) => {
            return Err(e);
        },
    };
    let ghost items = objs_view(lsts@);
    proof {
        assert(args@[0] is List);
        assert(args@[0] == LispObject::List(args@[0]->List_0));
        assert(objs_view(args@)[0] == ObjView::List(items));
    }
    let mut out: Vec<LispObject> = Vec::new();
    let mut i: usize = 0;
    proof {
        assert(items.skip(0) =~= items);
    }
    while i < lsts.len()
        invariant
            args@.len() == 1,
            objs_view(args@)[0] == ObjView::List(items),
            i <= lsts@.len(),
            items == objs_view(lsts@),
            concat_items(items) == match concat_items(items.skip(i as int)) {
                Result::<Seq<ObjView>, (ErrView, int)>::Ok(r2) => Result::<
                    Seq<ObjView>,
                    (ErrView, int),
                >::Ok(objs_view(out@) + r2),
                Result::<Seq<ObjView>, (ErrView, int)>::Err((e, k)) => Result::<
                    Seq<ObjView>,
                    (ErrView, int),
                >::Err((e, k + i)),
            },
        decreases lsts@.len() - i,
    {
        proof {
            assert(items.skip(i as int)[0] == items[i as int]);
            assert(items.skip(i as int).drop_first() =~= items.skip(i as int + 1));
        }
        let ghost out_pre = objs_view(out@);
        match lsts[i].as_list() {
            Ok(mut elems) => {
                let ghost ev = objs_view(elems@);
                let mut j: usize = 0;
                while j < elems.len()
                    invariant
                        j <= elems@.len(),
                        ev == objs_view(elems@),
                        objs_view(out@) =~= out_pre + ev.take(j as int),
                    decreases elems@.len() - j,
                {
                    let ghost before = objs_view(out@);
                    let e = elems[j].clone();
                    out.push(e);
                    proof {
                        assert(objs_view(out@) =~= before.push(ev[j as int]));
                        assert(out_pre + ev.take(j as int + 1) =~= before.push(ev[j as int]));
                    }
                    j = j + 1;
                }
                proof {
                    assert(ev.take(ev.len() as int) =~= ev);
                    assert(objs_view(out@) =~= out_pre + ev);
                    assert(items[i as int] == ObjView::List(ev));
                    match concat_items(items.skip(i as int + 1)) {
                        Result::<Seq<ObjView>, (ErrView, int)>::Ok(r2) => {
                            assert((out_pre + ev) + r2 =~= out_pre + (ev + r2));
                        },
                        Result::<Seq<ObjView>, (ErrView, int)>::Err(_) => {},
                    }
                }
            },
            Err(e) => {
                let r = Err(e.trace(i + 1));
                proof {
                    assert(items[i as int] == obj_view(lsts@[i as int]));
                    assert(!(items[i as int] is List));
                }
                return r;
            },
        }
        i = i + 1;
    }
    proof {
        assert(items.skip(i as int) =~= Seq::<ObjView>::empty());
        assert(objs_view(out@) + Seq::<ObjView>::empty() =~= objs_view(out@));
    }
    Ok(LispObject::List(out))
}

pub fn is_list(args: &Vec<LispObject>) -> (r: Result<LispObject, EvalError>)
    requires
        args@.len() == native_arity(NativeFn::IsList),
    ensures
        res_view(r) == native_is_list_spec(objs_view(args@)),
{
    Ok(LispObject::Bool(matches!(&args[0], LispObject::List(_))))
}

pub fn length(args: &Vec<LispObject>) -> (r: Result<LispObject, EvalError>)
    requires
        args@.len() == native_arity(NativeFn::Length),
    ensures
        res_view(r) == native_length_spec(objs_view(args@)),
{
    let lst = match args[0].as_list() {
        Ok(l) => l,
        Err(e) => {
            return Err(e);
        },
    };
    if lst.len() as u64 <= i64::MAX as u64 {
        Ok(LispObject::Number(lst.len() as i64))
    } else {
        Err(EvalError::new("numeric overflow".to_owned()))
    }
}

/// Dispatches a bound argument vector to the named primitive.
pub fn apply_native(f: NativeFn, args: &Vec<LispObject>) -> (r: Result<LispObject, EvalError>)
    requires
        native_args_ok(f, objs_view(args@)),
    ensures
        res_view(r) == native_apply_spec(f, objs_view(args@)),
{
    match f {
        NativeFn::Add => crate::native::add(args),
        NativeFn::Multiply => multiply(args),
        NativeFn::Subtract => subtract(args),
        NativeFn::Equal => equal(args),
        NativeFn::First => first(args),
        NativeFn::Rest => rest(args),
        NativeFn::ListOf => list(args),
        NativeFn::Concat => concat(args),
        NativeFn::IsList => is_list(args),
        NativeFn::Length => length(args),
    }
}


/// The name each native is bound under in the root environment.
pub open spec fn def_name(f: NativeFn) -> Seq<char> {
    match f {
        NativeFn::Add => "+"@,
        NativeFn::Multiply => "*"@,
        NativeFn::Subtract => "-"@,
        NativeFn::Equal => "="@,
        NativeFn::First => "first"@,
        NativeFn::Rest => "rest"@,
        NativeFn::ListOf => "list"@,
        NativeFn::Concat => "concat"@,
        NativeFn::IsList => "is-list"@,
        NativeFn::Length => "length"@,
    }
}

/// The declared positional parameter names of each native.
pub open spec fn def_positional(f: NativeFn) -> Seq<Seq<char>> {
    match f {
        NativeFn::Add => Seq::empty(),
        NativeFn::Multiply => Seq::empty(),
        NativeFn::Subtract => seq!["min"@],
        NativeFn::Equal => seq!["o1"@, "o2"@],
        NativeFn::First => seq!["lst"@],
        NativeFn::Rest => seq!["lst"@],
        NativeFn::ListOf => Seq::empty(),
        NativeFn::Concat => Seq::empty(),
        NativeFn::IsList => seq!["lst"@],
        NativeFn::Length => seq!["lst"@],
    }
}

/// The declared rest parameter name of each native, if it takes one.
pub open spec fn def_rest(f: NativeFn) -> Option<Seq<char>> {
    match f {
        NativeFn::Add => Option::Some("terms"@),
        NativeFn::Multiply => Option::Some("factors"@),
        NativeFn::Subtract => Option::Some("subs"@),
        NativeFn::Equal => Option::None,
        NativeFn::First => Option::None,
        NativeFn::Rest => Option::None,
        NativeFn::ListOf => Option::Some("elems"@),
        NativeFn::Concat => Option::Some("lsts"@),
        NativeFn::IsList => Option::None,
        NativeFn::Length => Option::None,
    }
}

/// Builds the declaration of one native.
pub fn native_def(f: NativeFn) -> (d: NativeDef)
    ensures
        d.func == f,
        d.name@ == def_name(f),
        crate::env::strs_view(d.positional@) == def_positional(f),
        crate::lisp_object::opt_str_view(d.rest) == def_rest(f),
{
    let mut positional: Vec<String> = Vec::new();
    let name: &str;
    let mut rest: Option<String> = None;
    match f {
        NativeFn::Add => {
            name = "+";
            rest = Some("terms".to_owned());
        },
        NativeFn::Multiply => {
            name = "*";
            rest = Some("factors".to_owned());
        },
        NativeFn::Subtract => {
            name = "-";
            positional.push("min".to_owned());
            rest = Some("subs".to_owned());
        },
        NativeFn::Equal => {
            name = "=";
            positional.push("o1".to_owned());
            positional.push("o2".to_owned());
        },
        NativeFn::First => {
            name = "first";
            positional.push("lst".to_owned());
        },
        NativeFn::Rest => {
            name = "rest";
            positional.push("lst".to_owned());
        },
        NativeFn::ListOf => {
            name = "list";
            rest = Some("elems".to_owned());
        },
        NativeFn::Concat => {
            name = "concat";
            rest = Some("lsts".to_owned());
        },
        NativeFn::IsList => {
            name = "is-list";
            positional.push("lst".to_owned());
        },
        NativeFn::Length => {
            name = "length";
            positional.push("lst".to_owned());
        },
    }
    let d = NativeDef { name: name.to_owned(), positional, rest, func: f };
    proof {
        assert(crate::env::strs_view(d.positional@) =~~= def_positional(f));
    }
    d
}


} // verus!
