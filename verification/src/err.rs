use vstd::prelude::*;

use crate::env::{ser_obj, Symbols};
use crate::lisp_object::{obj_view, objs_view, EvalError, LispObject, ObjView};
use crate::reader::{read_err_msg, ReadError};

verus! {

broadcast use crate::lisp_object::group_obj_view;

/// The sub-expression a trace points at: indices are popped from the end,
/// each selecting one child of the current list.
pub open spec fn subform_at(form: ObjView, trace: Seq<usize>) -> ObjView
    decreases trace.len(),
{
    if trace.len() == 0 {
        form
    } else {
        match form {
            ObjView::List(l) => subform_at(l[trace.last() as int], trace.drop_last()),
            _ => form,
        }
    }
}

/// Whether a trace is a path of in-bounds child indices.
pub open spec fn valid_path(form: ObjView, trace: Seq<usize>) -> bool
    decreases trace.len(),
{
    if trace.len() == 0 {
        true
    } else {
        match form {
            ObjView::List(l) => trace.last() < l.len() && valid_path(
                l[trace.last() as int],
                trace.drop_last(),
            ),
            _ => false,
        }
    }
}

/// The tail of a rendered list from element `i` on: each element followed
/// by a space, the last by the closing parenthesis.
pub open spec fn render_tail(nm: Seq<Seq<char>>, items: Seq<ObjView>, i: int) -> Seq<char>
    decreases items.len() - i,
{
    if i < 0 || i >= items.len() {
        if items.len() == 0 {
            seq![')']
        } else {
            Seq::empty()
        }
    } else {
        ser_obj(nm, items[i]) + (if i == items.len() - 1 {
            seq![')']
        } else {
            seq![' ']
        }) + render_tail(nm, items, i + 1)
    }
}

/// The rendered length of the elements before index `k`, separators
/// included.
pub open spec fn ser_upto(nm: Seq<Seq<char>>, items: Seq<ObjView>, k: int) -> int
    decreases k,
{
    if k <= 0 {
        0
    } else {
        ser_upto(nm, items, k - 1) + ser_obj(nm, items[k - 1]).len() + 1
    }
}

/// Where a failure sits within one form: the whole form rendered by the
/// ordinary serialization rule, and the character span of the failing
/// sub-expression at the path the trace describes.
pub open spec fn locate_spec(nm: Seq<Seq<char>>, form: ObjView, trace: Seq<usize>) -> (
    Seq<char>,
    int,
    int,
)
    decreases trace.len(),
{
    if trace.len() == 0 {
        (ser_obj(nm, form), 0, ser_obj(nm, form).len() as int)
    } else {
        match form {
            ObjView::List(l) => {
                let off = trace.last() as int;
                if off < l.len() {
                    let inner = locate_spec(nm, l[off], trace.drop_last());
                    (
                        ser_obj(nm, form),
                        1 + ser_upto(nm, l, off) + inner.1,
                        1 + ser_upto(nm, l, off) + inner.2,
                    )
                } else {
                    (ser_obj(nm, form), 0, 0)
                }
            },
            _ => (ser_obj(nm, form), 0, ser_obj(nm, form).len() as int),
        }
    }
}

/// A rendered list is the opening parenthesis followed by its rendered
/// tail.
pub proof fn lemma_ser_list_render(nm: Seq<Seq<char>>, items: Seq<ObjView>)
    ensures
        ser_obj(nm, ObjView::List(items)) == seq!['('] + render_tail(nm, items, 0),
{
    if items.len() == 0 {
        assert(crate::env::ser_join(nm, items) =~= Seq::<char>::empty());
        assert(ser_obj(nm, ObjView::List(items)) =~= seq!['('] + render_tail(nm, items, 0));
    } else {
        lemma_join_render(nm, items, 0);
        assert(items.skip(0) =~= items);
        assert(ser_obj(nm, ObjView::List(items)) =~= seq!['('] + render_tail(nm, items, 0));
    }
}

/// Joining from element `i` and closing matches the rendered tail.
proof fn lemma_join_render(nm: Seq<Seq<char>>, items: Seq<ObjView>, i: int)
    requires
        0 <= i < items.len(),
    ensures
        crate::env::ser_join(nm, items.skip(i)) + seq![')'] == render_tail(nm, items, i),
    decreases items.len() - i,
{
    let tail = items.skip(i);
    assert(tail[0] == items[i]);
    if i == items.len() - 1 {
        assert(tail.len() == 1);
        assert(tail.drop_first() =~= Seq::<ObjView>::empty());
        assert(crate::env::ser_rest(nm, tail.drop_first()) =~= Seq::<char>::empty());
        assert(render_tail(nm, items, i + 1) =~= Seq::<char>::empty());
        assert(crate::env::ser_join(nm, tail) + seq![')'] =~= render_tail(nm, items, i));
    } else {
        lemma_join_render(nm, items, i + 1);
        assert(tail.drop_first() =~= items.skip(i + 1));
        let next = items.skip(i + 1);
        assert(next.len() > 0);
        assert(next[0] == items[i + 1]);
        assert(crate::env::ser_rest(nm, next) =~= seq![' '] + crate::env::ser_join(nm, next));
        assert(crate::env::ser_join(nm, tail) + seq![')'] =~= render_tail(nm, items, i));
    }
}

/// Dropping a concatenation's first part leaves its second.
proof fn lemma_concat_skip(x: Seq<char>, y: Seq<char>)
    ensures
        (x + y).skip(x.len() as int) == y,
{
    assert((x + y).skip(x.len() as int) =~= y);
}

/// The rendered tail from element `k` is the whole rendering minus the
/// prefix of the first `k` elements.
proof fn lemma_render_skip_plain(nm: Seq<Seq<char>>, items: Seq<ObjView>, k: int)
    requires
        0 <= k <= items.len(),
        items.len() > 0,
    ensures
        0 <= ser_upto(nm, items, k) <= render_tail(nm, items, 0).len(),
        render_tail(nm, items, 0).skip(ser_upto(nm, items, k)) == render_tail(nm, items, k),
    decreases k,
{
    let rt0 = render_tail(nm, items, 0);
    if k == 0 {
        assert(rt0.skip(0) =~= rt0);
    } else {
        lemma_render_skip_plain(nm, items, k - 1);
        let prev = render_tail(nm, items, k - 1);
        let sep: Seq<char> = if k - 1 == items.len() - 1 {
            seq![')']
        } else {
            seq![' ']
        };
        let piece = ser_obj(nm, items[k - 1]) + sep;
        let step = piece.len() as int;
        assert(prev == piece + render_tail(nm, items, k));
        lemma_concat_skip(piece, render_tail(nm, items, k));
        assert(prev.skip(step) == render_tail(nm, items, k));
        let a = ser_upto(nm, items, k - 1);
        assert(ser_upto(nm, items, k) == a + step);
        assert(rt0.len() - a == prev.len());
        assert(a + step <= rt0.len());
        assert forall|n: int| 0 <= n < rt0.len() - (a + step) implies rt0.skip(a + step)[n]
            == render_tail(nm, items, k)[n] by {
            assert(rt0.skip(a + step)[n] == rt0[a + step + n]);
            assert(rt0.skip(a)[step + n] == rt0[a + step + n]);
            assert(prev[step + n] == rt0.skip(a)[step + n]);
            assert(prev.skip(step)[n] == prev[step + n]);
        }
        assert(rt0.skip(a + step) =~= render_tail(nm, items, k));
    }
}

/// One more element extends the rendered prefix by that element and its
/// separator.
proof fn lemma_render_take_step(nm: Seq<Seq<char>>, items: Seq<ObjView>, i: int)
    requires
        0 <= i < items.len(),
    ensures
        render_tail(nm, items, 0).take(ser_upto(nm, items, i + 1)) == render_tail(
            nm,
            items,
            0,
        ).take(ser_upto(nm, items, i)) + ser_obj(nm, items[i]) + (if i == items.len() - 1 {
            seq![')']
        } else {
            seq![' ']
        }),
{
    let rt0 = render_tail(nm, items, 0);
    lemma_render_skip_plain(nm, items, i);
    lemma_render_skip_plain(nm, items, i + 1);
    let a = ser_upto(nm, items, i);
    let b = ser_upto(nm, items, i + 1);
    let sep: Seq<char> = if i == items.len() - 1 {
        seq![')']
    } else {
        seq![' ']
    };
    let piece = ser_obj(nm, items[i]) + sep;
    assert(render_tail(nm, items, i) == piece + render_tail(nm, items, i + 1));
    assert(b == a + piece.len());
    assert forall|n: int| a <= n < b implies rt0[n] == piece[n - a] by {
        assert(rt0.skip(a)[n - a] == rt0[n]);
        assert(render_tail(nm, items, i)[n - a] == piece[n - a]);
    }
    assert(rt0.take(b) =~= rt0.take(a) + ser_obj(nm, items[i]) + sep);
}

/// The prefix of all elements is the whole rendering.
proof fn lemma_upto_full(nm: Seq<Seq<char>>, items: Seq<ObjView>)
    requires
        items.len() > 0,
    ensures
        ser_upto(nm, items, items.len() as int) == render_tail(nm, items, 0).len(),
{
    let n = items.len() as int;
    lemma_render_skip_plain(nm, items, n);
    assert(render_tail(nm, items, n) =~= Seq::<char>::empty());
    assert(render_tail(nm, items, 0).skip(ser_upto(nm, items, n)).len() == 0);
}

/// The located span always lies inside the rendered form, and when the
/// trace is a valid path the span holds exactly the serialization of the
/// sub-expression it points at.
pub proof fn lemma_locate_subform(nm: Seq<Seq<char>>, form: ObjView, trace: Seq<usize>)
    ensures
        ({
            let (s, a, b) = locate_spec(nm, form, trace);
            &&& s == ser_obj(nm, form)
            &&& 0 <= a <= b <= s.len()
            &&& valid_path(form, trace) ==> s.subrange(a, b) == ser_obj(
                nm,
                subform_at(form, trace),
            )
        }),
    decreases trace.len(),
{
    let (s, a, b) = locate_spec(nm, form, trace);
    if trace.len() == 0 {
        assert(s.subrange(0, s.len() as int) =~= s);
    } else {
        match form {
            ObjView::List(l) => {
                let off = trace.last() as int;
                if off < l.len() {
                    lemma_locate_subform(nm, l[off], trace.drop_last());
                    let inner = locate_spec(nm, l[off], trace.drop_last());
                    lemma_ser_list_render(nm, l);
                    lemma_render_skip_plain(nm, l, off);
                    let rt0 = render_tail(nm, l, 0);
                    let base = 1 + ser_upto(nm, l, off);
                    let sep: Seq<char> = if off == l.len() - 1 {
                        seq![')']
                    } else {
                        seq![' ']
                    };
                    let piece = ser_obj(nm, l[off]) + sep;
                    assert(render_tail(nm, l, off) == piece + render_tail(nm, l, off + 1));
                    assert(inner.0 == ser_obj(nm, l[off]));
                    assert(0 <= inner.1 <= inner.2 <= inner.0.len());
                    assert(s == seq!['('] + rt0);
                    assert(base - 1 + piece.len() <= rt0.len());
                    assert(0 <= a <= b <= s.len());
                    assert forall|m: int| 0 <= m < inner.0.len() implies s[base + m]
                        == inner.0[m] by {
                        assert(s[base + m] == rt0[base - 1 + m]);
                        assert(rt0.skip(base - 1)[m] == rt0[base - 1 + m]);
                        assert(render_tail(nm, l, off)[m] == piece[m]);
                        assert(piece[m] == inner.0[m]);
                    }
                    if valid_path(form, trace) {
                        assert(inner.0.subrange(inner.1, inner.2) == ser_obj(
                            nm,
                            subform_at(l[off], trace.drop_last()),
                        ));
                        assert(s.subrange(a, b) =~= inner.0.subrange(inner.1, inner.2));
                    }
                } else {
                }
            },
            _ => {
                assert(s.subrange(0, s.len() as int) =~= s);
            },
        }
    }
}

/// Renders a failed form and the character span of the failing
/// sub-expression that the trace points at; the rendering rule is exactly
/// the one `serialize_object` uses, so the offsets stay valid against what
/// is printed.
pub fn handle_failed_form(sym: &Symbols, form: &LispObject, stack: &Vec<usize>) -> (r: (
    String,
    usize,
    usize,
))
    ensures
        ({
            let (s, a, b) = locate_spec(sym.names_view(), form@, stack@);
            r.0@ == s && r.1 == a && r.2 == b
        }),
    decreases stack@.len(),
{
    let ghost nm = sym.names_view();
    if stack.len() == 0 {
        let string = sym.serialize_object(form);
        let len = string.as_str().unicode_len();
        return (string, 0, len);
    }
    match form {
        LispObject::List(l) => {
            let offset = stack[stack.len() - 1];
            if offset >= l.len() {
                let string = sym.serialize_object(form);
                return (string, 0, 0);
            }
            let ghost items = objs_view(l@);
            let mut rest: Vec<usize> = Vec::new();
            let mut k: usize = 0;
            while k < stack.len() - 1
                invariant
                    k <= stack@.len() - 1,
                    rest@ =~= stack@.take(k as int),
                decreases stack@.len() - 1 - k,
            {
                rest.push(stack[k]);
                proof {
                    assert(rest@ =~= stack@.take(k as int + 1));
                }
                k = k + 1;
            }
            proof {
                assert(rest@ =~= stack@.drop_last());
            }
            let mut out = String::new();
            out.append("(");
            let mut base: usize = 0;
            let mut off0: usize = 0;
            let mut off1: usize = 0;
            let mut index: usize = 0;
            let ghost inner = locate_spec(nm, items[offset as int], stack@.drop_last());
            proof {
                reveal_strlit("(");
                assert(out@ =~= seq!['(']);
                assert(ser_upto(nm, items, 0) == 0);
            }
            while index < l.len()
                invariant
                    index <= l@.len(),
                    offset < l@.len(),
                    items == objs_view(l@),
                    nm == sym.names_view(),
                    stack@.len() >= 1,
                    rest@ == stack@.drop_last(),
                    inner == locate_spec(nm, items[offset as int], stack@.drop_last()),
                    out@ =~= seq!['('] + render_tail(nm, items, 0).take(
                        ser_upto(nm, items, index as int),
                    ),
                    out@.len() == 1 + ser_upto(nm, items, index as int),
                    index > offset ==> base == 1 + ser_upto(nm, items, offset as int) && off0
                        == inner.1 && off1 == inner.2,
                decreases l@.len() - index,
            {
                let ghost out_pre = out@;
                proof {
                    assert(items[index as int] == obj_view(l@[index as int]));
                    lemma_locate_subform(nm, items[offset as int], stack@.drop_last());
                }
                if index == offset {
                    let (s_in, a_in, b_in) = handle_failed_form(sym, &l[index], &rest);
                    base = out.as_str().unicode_len();
                    off0 = a_in;
                    off1 = b_in;
                    out.append(s_in.as_str());
                } else {
                    let piece = sym.serialize_object(&l[index]);
                    out.append(piece.as_str());
                }
                if index == l.len() - 1 {
                    out.append(")");
                    proof {
                        reveal_strlit(")");
                    }
                } else {
                    out.append(" ");
                    proof {
                        reveal_strlit(" ");
                    }
                }
                proof {
                    let sep: Seq<char> = if index as int == items.len() - 1 {
                        seq![')']
                    } else {
                        seq![' ']
                    };
                    assert(out@ =~= out_pre + ser_obj(nm, items[index as int]) + sep);
                    lemma_render_take_step(nm, items, index as int);
                }
                index = index + 1;
            }
            proof {
                lemma_upto_full(nm, items);
                assert(render_tail(nm, items, 0).take(ser_upto(nm, items, items.len() as int))
                    =~= render_tail(nm, items, 0));
                lemma_ser_list_render(nm, items);
                assert(out@ =~= ser_obj(nm, form@));
            }
            let total = out.as_str().unicode_len();
            proof {
                lemma_locate_subform(nm, form@, stack@);
            }
            let start = base + off0;
            let end = base + off1;
            (out, start, end)
        },
        _ => {
            let string = sym.serialize_object(form);
            let len = string.as_str().unicode_len();
            (string, 0, len)
        },
    }
}

/// The one structure the presentation layer consumes for an evaluation
/// error: the message, and one localized excerpt per recorded frame,
/// innermost first.
pub fn handle_eval_error(sym: &Symbols, error: &EvalError) -> (r: (
    String,
    Vec<(String, usize, usize, Option<String>)>,
))
    ensures
        r.0@ == error@.msg,
        r.1@.len() == error@.frames.len(),
        forall|i: int|
            0 <= i < r.1@.len() ==> {
                let (form, tr, place) = #[trigger] error@.frames[i];
                let (s, a, b) = locate_spec(sym.names_view(), form, tr);
                &&& r.1@[i].0@ == s
                &&& r.1@[i].1 == a
                &&& r.1@[i].2 == b
                &&& crate::lisp_object::opt_str_view(r.1@[i].3) == place
            },
{
    let message = error.message.clone();
    let mut excerpts: Vec<(String, usize, usize, Option<String>)> = Vec::new();
    let mut i: usize = 0;
    while i < error.frames.len()
        invariant
            i <= error.frames@.len(),
            excerpts@.len() == i,
            forall|j: int|
                0 <= j < i ==> {
                    let (form, tr, place) = #[trigger] error@.frames[j];
                    let (s, a, b) = locate_spec(sym.names_view(), form, tr);
                    &&& excerpts@[j].0@ == s
                    &&& excerpts@[j].1 == a
                    &&& excerpts@[j].2 == b
                    &&& crate::lisp_object::opt_str_view(excerpts@[j].3) == place
                },
        decreases error.frames@.len() - i,
    {
        let frame = &error.frames[i];
        let (s, a, b) = handle_failed_form(sym, &frame.0, &frame.1);
        let place: Option<String> = match &frame.2 {
            Option::Some(p) => Some(p.clone()),
            Option::None => None,
        };
        excerpts.push((s, a, b, place));
        i = i + 1;
    }
    (message, excerpts)
}

/// The diagnostic data for a read error: its message and the input span to
/// highlight, if it has one. An internal-invariant violation is passed
/// back to the caller, as it reports a defect rather than a user error.
pub fn handle_read_error(e: ReadError) -> (r: Result<(String, Option<(usize, usize)>), ReadError>)
    ensures
        match e {
            ReadError::UnknownCharacter(a, b) => r matches Ok((m, sp)) && m@ == read_err_msg(e)
                && sp == Some((a, b)),
            ReadError::UnexpectedRbrace(a, b) => r matches Ok((m, sp)) && m@ == read_err_msg(e)
                && sp == Some((a, b)),
            ReadError::UnexpectedEndOfString => r matches Ok((m, sp)) && m@ == read_err_msg(e)
                && sp is None,
            ReadError::InternalError => r matches Err(e2) && e2 == e,
        },
{
    match e {
        ReadError::UnknownCharacter(a, b) => Ok((e.message(), Some((a, b)))),
        ReadError::UnexpectedRbrace(a, b) => Ok((e.message(), Some((a, b)))),
        ReadError::UnexpectedEndOfString => Ok((e.message(), None)),
        ReadError::InternalError => Err(ReadError::InternalError),
    }
}

} // verus!
