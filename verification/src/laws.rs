use vstd::prelude::*;

use crate::env::{dec_digits, digit_char, int_to_dec, ser_join, ser_obj, ser_rest};
use crate::lexer::{
    atom_end, classify_atom, dec_val, digit_val, is_delim, is_digit, is_i64_text, is_number_text,
    is_ws, num_val, skip_ws, text_end, ObjTok,
};
use crate::lisp_object::ObjView;
use crate::reader::{
    handle_obj_spec, parse_sexp_spec, read_loop, read_string_spec, FrameV, PrefixIds, PS, RL,
};

verus! {

/// A name that reads back as one symbol token: non-empty, free of
/// delimiters, and not mistakable for a boolean or a number.
pub open spec fn symbolic_name(t: Seq<char>) -> bool {
    &&& t.len() > 0
    &&& forall|i: int| 0 <= i < t.len() ==> !is_delim(t[i])
    &&& t != "#t"@
    &&& t != "#f"@
    &&& !is_number_text(t)
}

/// No two distinct ids carry the same name.
pub open spec fn distinct_names(nm: Seq<Seq<char>>) -> bool {
    forall|i: int, j: int| 0 <= i < j < nm.len() ==> nm[i] != nm[j]
}

/// A value the reader can produce: booleans, numbers, clean strings,
/// interned symbols with symbol-shaped names, and lists thereof. Natives,
/// special forms, lambdas and macros serialize as placeholders or as
/// `fn`/`macro` forms and therefore do not read back as themselves.
pub open spec fn readable(nm: Seq<Seq<char>>, v: ObjView) -> bool
    decreases v,
{
    match v {
        ObjView::Bool(_) => true,
        ObjView::Number(_) => true,
        ObjView::String(s) => forall|i: int|
            0 <= i < s.len() ==> s[i] != '"' && s[i] != '\\',
        ObjView::Symbol(id) => id < nm.len() && symbolic_name(nm[id as int]),
        ObjView::List(l) => forall|i: int| 0 <= i < l.len() ==> readable(nm, l[i]),
        _ => false,
    }
}

/// A position at which an atom may legally end: the end of the input or a
/// delimiter.
pub open spec fn boundary(s: Seq<char>, e: int) -> bool {
    e == s.len() || (0 <= e < s.len() && is_delim(s[e]))
}

/// Pointwise view of a matched subrange.
proof fn lemma_subrange_shift(s: Seq<char>, a: int, b: int, t: Seq<char>)
    requires
        0 <= a <= b <= s.len(),
        s.subrange(a, b) == t,
    ensures
        b - a == t.len(),
        forall|i: int| 0 <= i < t.len() ==> s[a + i] == #[trigger] t[i],
{
    assert forall|i: int| 0 <= i < t.len() implies s[a + i] == #[trigger] t[i] by {
        assert(s.subrange(a, b)[i] == s[a + i]);
    }
}

/// A piece of a matched subrange is itself a matched subrange.
proof fn lemma_subrange_within(s: Seq<char>, a: int, b: int, t: Seq<char>, c: int, d: int)
    requires
        0 <= a <= b <= s.len(),
        s.subrange(a, b) == t,
        a <= c <= d <= b,
    ensures
        s.subrange(c, d) == t.subrange(c - a, d - a),
{
    lemma_subrange_shift(s, a, b, t);
    assert forall|i: int| 0 <= i < d - c implies s.subrange(c, d)[i] == t.subrange(
        c - a,
        d - a,
    )[i] by {
        assert(s.subrange(c, d)[i] == s[c + i]);
        assert(t.subrange(c - a, d - a)[i] == t[c - a + i]);
        assert(s[a + (c - a + i)] == t[c - a + i]);
    }
    assert(s.subrange(c, d) =~= t.subrange(c - a, d - a));
}

proof fn lemma_digit_roundtrip(d: nat)
    requires
        d < 10,
    ensures
        digit_val(digit_char(d)) == d,
        is_digit(digit_char(d)),
        !is_delim(digit_char(d)),
        digit_char(d) != '-',
        digit_char(d) != '#',
{
}

proof fn lemma_dec_digits_props(m: nat)
    ensures
        dec_digits(m).len() >= 1,
        forall|i: int| 0 <= i < dec_digits(m).len() ==> is_digit(#[trigger] dec_digits(m)[i]),
        forall|i: int|
            0 <= i < dec_digits(m).len() ==> !is_delim(#[trigger] dec_digits(m)[i])
                && dec_digits(m)[i] != '-' && dec_digits(m)[i] != '#',
        dec_val(dec_digits(m)) == m,
    decreases m,
{
    if m < 10 {
        lemma_digit_roundtrip(m);
        assert(dec_digits(m) =~= seq![digit_char(m)]);
        assert(dec_digits(m).drop_last() =~= Seq::<char>::empty());
        assert(dec_val(Seq::<char>::empty()) == 0);
        assert(dec_val(dec_digits(m)) == dec_val(Seq::<char>::empty()) * 10 + digit_val(
            dec_digits(m).last(),
        ));
    } else {
        lemma_dec_digits_props(m / 10);
        lemma_digit_roundtrip(m % 10);
        vstd::arithmetic::div_mod::lemma_fundamental_div_mod(m as int, 10);
        let pre = dec_digits(m / 10);
        let cur = dec_digits(m);
        assert(cur == pre.push(digit_char(m % 10)));
        assert(cur.drop_last() =~= pre);
        assert(cur.last() == digit_char(m % 10));
        assert forall|i: int| 0 <= i < cur.len() implies is_digit(#[trigger] cur[i]) by {
            if i < pre.len() {
                assert(cur[i] == pre[i]);
            }
        }
        assert forall|i: int|
            0 <= i < cur.len() implies !is_delim(#[trigger] cur[i]) && cur[i] != '-' && cur[i]
                != '#' by {
            if i < pre.len() {
                assert(cur[i] == pre[i]);
            }
        }
        assert(dec_val(cur) == dec_val(pre) * 10 + digit_val(digit_char(m % 10)));
    }
}

proof fn lemma_int_to_dec_props(n: i64)
    ensures
        int_to_dec(n as int).len() >= 1,
        is_i64_text(int_to_dec(n as int)),
        num_val(int_to_dec(n as int)) == n as int,
        forall|i: int|
            0 <= i < int_to_dec(n as int).len() ==> !is_delim(
                #[trigger] int_to_dec(n as int)[i],
            ),
        int_to_dec(n as int)[0] != '#',
{
    let t = int_to_dec(n as int);
    if n >= 0 {
        lemma_dec_digits_props(n as nat);
        assert(t == dec_digits(n as nat));
        assert(t[0] != '-');
        assert(is_number_text(t));
    } else {
        lemma_dec_digits_props((-(n as int)) as nat);
        let ds = dec_digits((-(n as int)) as nat);
        assert(t == seq!['-'] + ds);
        assert(t[0] == '-');
        assert(t.drop_first() =~= ds);
        assert(t.len() >= 2);
        assert forall|i: int| 1 <= i < t.len() implies is_digit(t[i]) by {
            assert(t[i] == ds[i - 1]);
        }
        assert(is_number_text(t));
        assert(num_val(t) == -dec_val(ds));
        assert forall|i: int| 0 <= i < t.len() implies !is_delim(t[i]) by {
            if i >= 1 {
                assert(t[i] == ds[i - 1]);
            }
        }
    }
}

/// A run of non-delimiter characters up to a boundary is one atom.
proof fn lemma_atom_run(s: Seq<char>, pos: int, e: int)
    requires
        0 <= pos <= e <= s.len(),
        forall|i: int| pos <= i < e ==> !is_delim(s[i]),
        boundary(s, e),
    ensures
        atom_end(s, pos) == e,
    decreases e - pos,
{
    if pos < e {
        lemma_atom_run(s, pos + 1, e);
    }
}

/// A run of literal text characters up to the closing quote is one text
/// token.
proof fn lemma_text_run(s: Seq<char>, pos: int, e: int)
    requires
        0 <= pos <= e < s.len(),
        forall|i: int| pos <= i < e ==> s[i] != '"' && s[i] != '\\',
        s[e] == '"',
    ensures
        text_end(s, pos) == e,
    decreases e - pos,
{
    if pos < e {
        lemma_text_run(s, pos + 1, e);
    }
}

/// Leading whitespace does not change what the reader does next.
proof fn lemma_parse_ws_step(
    ids: PrefixIds,
    nm: Seq<Seq<char>>,
    st: Seq<FrameV>,
    s: Seq<char>,
    pos: int,
)
    requires
        0 <= pos < s.len(),
        is_ws(s[pos]),
    ensures
        parse_sexp_spec(ids, nm, st, s, pos) == parse_sexp_spec(ids, nm, st, s, pos + 1),
{
    assert(skip_ws(s, pos) == skip_ws(s, pos + 1));
}

/// Reading one serialized value: the lexer recognises exactly its tokens,
/// and the reader routes the value through the frame stack as if it had
/// been handed the value itself.
pub proof fn lemma_read_value(
    ids: PrefixIds,
    nm: Seq<Seq<char>>,
    st: Seq<FrameV>,
    s: Seq<char>,
    pos: int,
    v: ObjView,
)
    requires
        distinct_names(nm),
        readable(nm, v),
        0 <= pos,
        pos + ser_obj(nm, v).len() <= s.len(),
        s.subrange(pos, pos + ser_obj(nm, v).len()) == ser_obj(nm, v),
        boundary(s, pos + ser_obj(nm, v).len()),
    ensures
        parse_sexp_spec(ids, nm, st, s, pos) == ({
            let e = pos + ser_obj(nm, v).len();
            let (st2, out) = handle_obj_spec(ids, st, v);
            match out {
                Option::Some(o) => PS::Obj { nm, stack: st2, obj: o, pos: e },
                Option::None => parse_sexp_spec(ids, nm, st2, s, e),
            }
        }),
    decreases v, 0nat,
{
    let t = ser_obj(nm, v);
    let e = pos + t.len();
    lemma_subrange_shift(s, pos, e, t);
    match v {
        ObjView::Bool(b) => {
            proof_bool(ids, nm, st, s, pos, b);
        },
        ObjView::Number(n) => {
            lemma_int_to_dec_props(n);
            assert(s[pos + 0] == t[0]);
            assert(t[0] == s[pos]);
            assert(!is_delim(s[pos]));
            assert(skip_ws(s, pos) == pos);
            assert forall|i: int| pos <= i < e implies !is_delim(s[i]) by {
                assert(s[i] == t[i - pos]);
            }
            lemma_atom_run(s, pos, e);
            assert(s.subrange(pos, e) == t);
            reveal_strlit("#t");
            reveal_strlit("#f");
            assert(t != "#t"@ && t != "#f"@) by {
                assert(t[0] != '#');
                assert("#t"@[0] == '#' && "#f"@[0] == '#');
            }
            assert(classify_atom(t) == ObjTok::Number(n));
            assert(s[pos] != '(' && s[pos] != ')' && s[pos] != '\'' && s[pos] != '`' && s[pos]
                != ',' && s[pos] != '"');
        },
        ObjView::String(txt) => {
            {
                assert(t == seq!['"'] + txt + seq!['"']);
                assert(t[0] == '"');
                assert(s[pos + 0] == t[0]);
                assert(s[pos] == '"');
                assert(skip_ws(s, pos) == pos);
                assert(!is_ws('"'));
                // the token after the opening quote
                if txt.len() == 0 {
                    assert(t[1] == '"');
                    assert(s[pos + 1] == t[1]);
                    assert(read_string_spec(s, pos + 1) == Result::<
                        (Seq<char>, int),
                        crate::reader::ReadError,
                    >::Ok((Seq::empty(), pos + 2)));
                    assert(Seq::<char>::empty() =~= txt);
                } else {
                    assert forall|i: int| pos + 1 <= i < e - 1 implies s[i] != '"' && s[i]
                        != '\\' by {
                        assert(s[pos + (i - pos)] == t[i - pos]);
                        assert(t[i - pos] == txt[i - pos - 1]);
                    }
                    assert(t[t.len() - 1] == '"');
                    assert(s[pos + (t.len() - 1)] == t[t.len() - 1]);
                    assert(s[e - 1] == '"');
                    assert(t[1] == txt[0]);
                    assert(s[pos + 1] == t[1]);
                    lemma_text_run(s, pos + 1, e - 1);
                    assert forall|i: int| 0 <= i < txt.len() implies s.subrange(
                        pos + 1,
                        e - 1,
                    )[i] == txt[i] by {
                        assert(s.subrange(pos + 1, e - 1)[i] == s[pos + 1 + i]);
                        assert(s[pos + (1 + i)] == t[1 + i]);
                        assert(t[1 + i] == txt[i]);
                    }
                    assert(s.subrange(pos + 1, e - 1) =~= txt);
                    // after the text run comes the closing quote
                    assert(read_string_spec(s, e - 1) == Result::<
                        (Seq<char>, int),
                        crate::reader::ReadError,
                    >::Ok((Seq::empty(), e)));
                    assert(txt + Seq::<char>::empty() =~= txt);
                    assert(read_string_spec(s, pos + 1) == Result::<
                        (Seq<char>, int),
                        crate::reader::ReadError,
                    >::Ok((txt, e)));
                }
            }
        },
        ObjView::Symbol(id) => {
            let name = nm[id as int];
            assert(t == name);
            assert(s[pos + 0] == t[0]);
            assert(t[0] == s[pos]);
            assert(!is_delim(s[pos]));
            assert(skip_ws(s, pos) == pos);
            assert forall|i: int| pos <= i < e implies !is_delim(s[i]) by {
                assert(s[i] == t[i - pos]);
            }
            lemma_atom_run(s, pos, e);
            assert(classify_atom(t) == ObjTok::Symbol(t));
            assert forall|j: int| 0 <= j < id implies nm[j] != name by {
                assert(0 <= j < id < nm.len());
            }
            crate::env::lemma_name_id_at(nm, name, id as int);
            assert(crate::env::intern_spec(nm, name) == (nm, id));
            assert(s[pos] != '(' && s[pos] != ')' && s[pos] != '\'' && s[pos] != '`' && s[pos]
                != ',' && s[pos] != '"');
        },
        ObjView::List(l) => {
            assert(t[0] == '(');
            assert(s[pos + 0] == t[0]);
            assert(s[pos] == '(');
            assert(skip_ws(s, pos) == pos);
            crate::err::lemma_ser_list_render(nm, l);
            assert(t == seq!['('] + ser_join(nm, l) + seq![')']) by {
                assert(t =~= seq!['('] + ser_join(nm, l) + seq![')']);
            }
            let body = ser_join(nm, l) + seq![')'];
            lemma_subrange_within(s, pos, e, t, pos + 1, e);
            assert(t.subrange(1, t.len() as int) =~= body);
            assert(l.skip(0) =~= l);
            lemma_read_items(ids, nm, st, Seq::empty(), l, 0, s, pos + 1);
            assert(Seq::<ObjView>::empty() + l =~= l);
        },
        _ => {},
    }
}

/// The boolean tokens.
proof fn proof_bool(
    ids: PrefixIds,
    nm: Seq<Seq<char>>,
    st: Seq<FrameV>,
    s: Seq<char>,
    pos: int,
    b: bool,
)
    requires
        distinct_names(nm),
        0 <= pos,
        pos + ser_obj(nm, ObjView::Bool(b)).len() <= s.len(),
        s.subrange(pos, pos + ser_obj(nm, ObjView::Bool(b)).len()) == ser_obj(
            nm,
            ObjView::Bool(b),
        ),
        boundary(s, pos + ser_obj(nm, ObjView::Bool(b)).len()),
    ensures
        parse_sexp_spec(ids, nm, st, s, pos) == ({
            let e = pos + ser_obj(nm, ObjView::Bool(b)).len();
            let (st2, out) = handle_obj_spec(ids, st, ObjView::Bool(b));
            match out {
                Option::Some(o) => PS::Obj { nm, stack: st2, obj: o, pos: e },
                Option::None => parse_sexp_spec(ids, nm, st2, s, e),
            }
        }),
{
    let t = ser_obj(nm, ObjView::Bool(b));
    let e = pos + t.len();
    reveal_strlit("#t");
    reveal_strlit("#f");
    lemma_subrange_shift(s, pos, e, t);
    assert(s[pos + 0] == t[0] && s[pos + 1] == t[1]);
    assert(t.len() == 2);
    assert(t[0] == '#' && (t[1] == 't' || t[1] == 'f'));
    assert(s[pos] == '#');
    assert(!is_delim('#') && !is_delim('t') && !is_delim('f'));
    assert(skip_ws(s, pos) == pos);
    assert forall|i: int| pos <= i < e implies !is_delim(s[i]) by {
        assert(s[i] == t[i - pos]);
    }
    lemma_atom_run(s, pos, e);
    assert(s.subrange(pos, e) =~= t);
    if b {
        assert(classify_atom(t) == ObjTok::True);
    } else {
        assert(t != "#t"@) by {
            assert(t[1] == 'f' && "#t"@[1] == 't');
        }
        assert(classify_atom(t) == ObjTok::False);
    }
}

/// Reading the remaining serialized elements of a list and its closing
/// parenthesis: each element is appended to the open list frame in order,
/// and the close routes the completed list outward.
pub proof fn lemma_read_items(
    ids: PrefixIds,
    nm: Seq<Seq<char>>,
    st: Seq<FrameV>,
    acc: Seq<ObjView>,
    items: Seq<ObjView>,
    k: int,
    s: Seq<char>,
    pos: int,
)
    requires
        distinct_names(nm),
        forall|i: int| 0 <= i < items.len() ==> readable(nm, #[trigger] items[i]),
        0 <= k <= items.len(),
        0 <= pos,
        pos + ser_join(nm, items.skip(k)).len() + 1 <= s.len(),
        s.subrange(pos, pos + ser_join(nm, items.skip(k)).len() + 1) == ser_join(
            nm,
            items.skip(k),
        ) + seq![')'],
    ensures
        parse_sexp_spec(ids, nm, st.push(FrameV::Sexpr(acc)), s, pos) == ({
            let e = pos + ser_join(nm, items.skip(k)).len() + 1;
            let (st2, out) = handle_obj_spec(ids, st, ObjView::List(acc + items.skip(k)));
            match out {
                Option::Some(o) => PS::Obj { nm, stack: st2, obj: o, pos: e },
                Option::None => parse_sexp_spec(ids, nm, st2, s, e),
            }
        }),
    decreases items, items.len() - k,
{
    let rest = items.skip(k);
    let body = ser_join(nm, rest) + seq![')'];
    let e = pos + body.len();
    lemma_subrange_shift(s, pos, e, body);
    if k == items.len() {
        assert(rest.len() == 0);
        assert(body =~= seq![')']);
        assert(body[0] == ')');
        assert(s[pos + 0] == body[0]);
        assert(s[pos] == ')');
        assert(skip_ws(s, pos) == pos);
        let stp = st.push(FrameV::Sexpr(acc));
        assert(stp.last() == FrameV::Sexpr(acc));
        assert(stp.drop_last() =~= st);
        assert(acc + rest =~= acc);
    } else {
        let item = items[k];
        let ti = ser_obj(nm, item);
        assert(rest[0] == item);
        assert(rest.drop_first() =~= items.skip(k + 1));
        let rest2 = items.skip(k + 1);
        if rest2.len() == 0 {
            assert(ser_rest(nm, rest.drop_first()) =~= Seq::<char>::empty());
            assert(ser_join(nm, rest) =~= ti);
            assert(body =~= ti + seq![')']);
            lemma_subrange_within(s, pos, e, body, pos, pos + ti.len());
            assert(body.subrange(0, ti.len() as int) =~= ti);
            assert(body[ti.len() as int] == ')');
            assert(s[pos + ti.len()] == body[ti.len() as int]);
            assert(s[pos + ti.len()] == ')');
            assert(is_delim(')'));
            assert(boundary(s, pos + ti.len()));
            lemma_read_value(ids, nm, st.push(FrameV::Sexpr(acc)), s, pos, item);
            let stp = st.push(FrameV::Sexpr(acc));
            assert(stp.last() == FrameV::Sexpr(acc));
            assert(stp.drop_last() =~= st);
            assert(handle_obj_spec(ids, stp, item) == (
                st.push(FrameV::Sexpr(acc.push(item))),
                Option::<ObjView>::None,
            )) by {
                assert(stp.update(stp.len() - 1, FrameV::Sexpr(acc.push(item))) =~= st.push(
                    FrameV::Sexpr(acc.push(item)),
                ));
            }
            let pos2 = pos + ti.len();
            assert(ser_join(nm, items.skip(k + 1)) =~= Seq::<char>::empty());
            lemma_subrange_within(s, pos, e, body, pos2, pos2 + 1);
            assert(body.subrange(ti.len() as int, ti.len() as int + 1) =~= Seq::<char>::empty() + seq![
                ')',
            ]);
            lemma_read_items(ids, nm, st, acc.push(item), items, k + 1, s, pos2);
            assert(acc.push(item) + items.skip(k + 1) =~= acc + rest);
        } else {
            assert(ser_rest(nm, rest2) =~= seq![' '] + ser_obj(nm, rest2[0]) + ser_rest(
                nm,
                rest2.drop_first(),
            ));
            assert(ser_rest(nm, rest2) =~= seq![' '] + ser_join(nm, rest2));
            assert(ser_join(nm, rest) =~= ti + seq![' '] + ser_join(nm, rest2));
            assert(body =~= ti + seq![' '] + ser_join(nm, rest2) + seq![')']);
            lemma_subrange_within(s, pos, e, body, pos, pos + ti.len());
            assert(body.subrange(0, ti.len() as int) =~= ti);
            assert(body[ti.len() as int] == ' ');
            assert(s[pos + ti.len()] == body[ti.len() as int]);
            assert(s[pos + ti.len()] == ' ');
            assert(is_delim(' '));
            assert(boundary(s, pos + ti.len()));
            lemma_read_value(ids, nm, st.push(FrameV::Sexpr(acc)), s, pos, item);
            let stp = st.push(FrameV::Sexpr(acc));
            assert(stp.last() == FrameV::Sexpr(acc));
            assert(stp.drop_last() =~= st);
            assert(handle_obj_spec(ids, stp, item) == (
                st.push(FrameV::Sexpr(acc.push(item))),
                Option::<ObjView>::None,
            )) by {
                assert(stp.update(stp.len() - 1, FrameV::Sexpr(acc.push(item))) =~= st.push(
                    FrameV::Sexpr(acc.push(item)),
                ));
            }
            let pos2 = pos + ti.len();
            assert(is_ws(s[pos2]));
            lemma_parse_ws_step(
                ids,
                nm,
                st.push(FrameV::Sexpr(acc.push(item))),
                s,
                pos2,
            );
            let pos3 = pos2 + 1;
            lemma_subrange_within(s, pos, e, body, pos3, e);
            assert(body.subrange(ti.len() as int + 1, body.len() as int) =~= ser_join(nm, rest2)
                + seq![')']);
            lemma_read_items(ids, nm, st, acc.push(item), items, k + 1, s, pos3);
            assert(acc.push(item) + items.skip(k + 1) =~= acc + rest);
        }
    }
}

/// Law (round trip): for every value the reader can produce — no natives,
/// special forms, lambdas or macros anywhere inside, strings free of
/// quotes and escapes, symbols interned under symbol-shaped names —
/// reading its serialization back on a fresh reader yields exactly that
/// value, as the one completed top-level form, with nothing interned and
/// nothing left on the stack.
pub proof fn lemma_read_serialize_round_trip(ids: PrefixIds, nm: Seq<Seq<char>>, v: ObjView)
    requires
        distinct_names(nm),
        readable(nm, v),
    ensures
        read_loop(ids, nm, Seq::empty(), Seq::empty(), ser_obj(nm, v), 0) == (RL::Done {
            nm,
            stack: Seq::empty(),
            prog: seq![v],
        }),
{
    let s = ser_obj(nm, v);
    assert(s.subrange(0, s.len() as int) =~= s);
    assert(boundary(s, s.len() as int));
    lemma_read_value(ids, nm, Seq::empty(), s, 0, v);
    assert(handle_obj_spec(ids, Seq::empty(), v) == (
        Seq::<FrameV>::empty(),
        Option::Some(v),
    ));
    assert(parse_sexp_spec(ids, nm, Seq::empty(), s, 0) == (PS::Obj {
        nm,
        stack: Seq::empty(),
        obj: v,
        pos: s.len() as int,
    }));
    assert(skip_ws(s, s.len() as int) == s.len() as int);
    assert(parse_sexp_spec(ids, nm, Seq::empty(), s, s.len() as int) == (PS::End {
        nm,
        stack: Seq::empty(),
    }));
    assert(Seq::<ObjView>::empty().push(v) =~= seq![v]);
    assert(read_loop(ids, nm, Seq::empty(), seq![v], s, s.len() as int) == (RL::Done {
        nm,
        stack: Seq::empty(),
        prog: seq![v],
    }));
    assert(read_loop(ids, nm, Seq::empty(), Seq::empty(), s, 0) == read_loop(
        ids,
        nm,
        Seq::empty(),
        Seq::<ObjView>::empty().push(v),
        s,
        s.len() as int,
    ));
}

} // verus!
