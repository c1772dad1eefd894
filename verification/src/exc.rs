use vstd::prelude::*;

use crate::lisp_object::{err_new, EvalError};

verus! {

pub open spec fn msg_apply_unimpl() -> Seq<char> {
    "apply only implemented for Native, Lambda and Special Form"@
}

pub open spec fn msg_apply_empty() -> Seq<char> {
    "apply received empty form"@
}

pub open spec fn msg_uninterned() -> Seq<char> {
    "~~uninterned~~"@
}

pub open spec fn msg_unbound(name: Option<Seq<char>>) -> Seq<char> {
    "Unbound symbol '"@ + (match name {
        Option::Some(n) => n,
        Option::None => msg_uninterned(),
    }) + "'"@
}

pub open spec fn msg_unexpected_lambda() -> Seq<char> {
    "Unexpected lambda. This is probably an internal error."@
}

pub open spec fn msg_unexpected_special_form() -> Seq<char> {
    "Unexpected special form. This is probably an internal error."@
}

/// The head of an application evaluated to something that cannot be applied.
pub fn apply_unimpl() -> (e: EvalError)
    ensures
        e@ == err_new(msg_apply_unimpl()),
{
    EvalError::new("apply only implemented for Native, Lambda and Special Form".to_owned())
}

/// An empty list was evaluated as an application.
pub fn apply_empty() -> (e: EvalError)
    ensures
        e@ == err_new(msg_apply_empty()),
{
    EvalError::new("apply received empty form".to_owned())
}

/// A symbol was evaluated that no scope binds; `sym` is its name, if the
/// interner knows one.
pub fn unbound_symbol(sym: Option<&str>) -> (e: EvalError)
    ensures
        e@ == err_new(msg_unbound(match sym {
            Option::Some(s) => Option::Some(s@),
            Option::None => Option::None,
        })),
{
    let mut m = String::new();
    m.append("Unbound symbol '");
    match sym {
        Option::Some(s) => m.append(s),
        Option::None => m.append("~~uninterned~~"),
    }
    m.append("'");
    EvalError::new(m)
}

pub fn unexpected_lambda() -> (e: EvalError)
    ensures
        e@ == err_new(msg_unexpected_lambda()),
{
    EvalError::new("Unexpected lambda. This is probably an internal error.".to_owned())
}

pub fn unexpected_special_form() -> (e: EvalError)
    ensures
        e@ == err_new(msg_unexpected_special_form()),
{
    EvalError::new("Unexpected special form. This is probably an internal error.".to_owned())
}

} // verus!
