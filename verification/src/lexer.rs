use vstd::prelude::*;

use vstd::string::StrSliceExecFns;

verus! {

/// Tokens of the object (normal) mode.
pub enum ObjectT {
    True,
    False,
    LBrace,
    RBrace,
    Quote,
    QuasiQuote,
    Unquote,
    UnquoteSplice,
    Number(i64),
    StartString,
    Symbol(String),
    Error,
}

/// Tokens of the string mode, the only mode aware of the difference between
/// literal text and control characters.
pub enum StringT {
    Error,
    Text(String),
    EndString,
}

/// A token from either mode.
pub enum Tokens {
    Object(ObjectT),
    String(StringT),
}

/// The mathematical shape of an object-mode token.
pub enum ObjTok {
    True,
    False,
    LBrace,
    RBrace,
    Quote,
    QuasiQuote,
    Unquote,
    UnquoteSplice,
    Number(i64),
    StartString,
    Symbol(Seq<char>),
    Error,
}

/// The mathematical shape of a string-mode token.
pub enum StrTok {
    Error,
    Text(Seq<char>),
    EndString,
}

/// The mathematical shape of any token.
pub enum TokView {
    O(ObjTok),
    S(StrTok),
}

pub open spec fn objectt_view(t: ObjectT) -> ObjTok {
    match t {
        ObjectT::True => ObjTok::True,
        ObjectT::False => ObjTok::False,
        ObjectT::LBrace => ObjTok::LBrace,
        ObjectT::RBrace => ObjTok::RBrace,
        ObjectT::Quote => ObjTok::Quote,
        ObjectT::QuasiQuote => ObjTok::QuasiQuote,
        ObjectT::Unquote => ObjTok::Unquote,
        ObjectT::UnquoteSplice => ObjTok::UnquoteSplice,
        ObjectT::Number(n) => ObjTok::Number(n),
        ObjectT::StartString => ObjTok::StartString,
        ObjectT::Symbol(s) => ObjTok::Symbol(s@),
        ObjectT::Error => ObjTok::Error,
    }
}

pub open spec fn stringt_view(t: StringT) -> StrTok {
    match t {
        StringT::Error => StrTok::Error,
        StringT::Text(s) => StrTok::Text(s@),
        StringT::EndString => StrTok::EndString,
    }
}

pub open spec fn tokens_view(t: Tokens) -> TokView {
    match t {
        Tokens::Object(o) => TokView::O(objectt_view(o)),
        Tokens::String(s) => TokView::S(stringt_view(s)),
    }
}

/// Whitespace, consumed silently between tokens in object mode.
pub open spec fn is_ws(c: char) -> bool {
    c == ' ' || c == '\t' || c == '\n' || c == '\u{000C}'
}

/// Characters that end an atom: whitespace, parentheses, the reader-macro
/// prefixes and the string delimiter.
pub open spec fn is_delim(c: char) -> bool {
    is_ws(c) || c == '(' || c == ')' || c == '\'' || c == '`' || c == ',' || c == '"'
}

/// The first position at or after `pos` holding a non-whitespace character.
pub open spec fn skip_ws(s: Seq<char>, pos: int) -> int
    decreases s.len() - pos,
{
    if pos < 0 || pos >= s.len() || !is_ws(s[pos]) {
        pos
    } else {
        skip_ws(s, pos + 1)
    }
}

/// The end of the atom starting at `pos`: the first delimiter at or after
/// it.
pub open spec fn atom_end(s: Seq<char>, pos: int) -> int
    decreases s.len() - pos,
{
    if pos < 0 || pos >= s.len() || is_delim(s[pos]) {
        pos
    } else {
        atom_end(s, pos + 1)
    }
}

/// The end of the literal text run starting at `pos` in string mode: the
/// first quote or backslash at or after it.
pub open spec fn text_end(s: Seq<char>, pos: int) -> int
    decreases s.len() - pos,
{
    if pos < 0 || pos >= s.len() || s[pos] == '"' || s[pos] == '\\' {
        pos
    } else {
        text_end(s, pos + 1)
    }
}

pub open spec fn is_digit(c: char) -> bool {
    '0' as int <= c as int <= '9' as int
}

pub open spec fn digit_val(c: char) -> int {
    c as int - '0' as int
}

/// The value of a run of decimal digits, most significant first.
pub open spec fn dec_val(ds: Seq<char>) -> int
    decreases ds.len(),
{
    if ds.len() == 0 {
        0
    } else {
        dec_val(ds.drop_last()) * 10 + digit_val(ds.last())
    }
}

/// The numeric pattern: an optional minus sign followed by at least one
/// digit, and nothing else.
pub open spec fn is_number_text(t: Seq<char>) -> bool {
    if t.len() == 0 {
        false
    } else if t[0] == '-' {
        t.len() >= 2 && (forall|i: int| 1 <= i < t.len() ==> is_digit(t[i]))
    } else {
        forall|i: int| 0 <= i < t.len() ==> is_digit(t[i])
    }
}

/// The value a numeric atom denotes.
pub open spec fn num_val(t: Seq<char>) -> int {
    if t.len() > 0 && t[0] == '-' {
        -dec_val(t.drop_first())
    } else {
        dec_val(t)
    }
}

/// A numeric atom whose value the language can hold. A numeric pattern too
/// large for the machine range is read as a symbol instead.
pub open spec fn is_i64_text(t: Seq<char>) -> bool {
    is_number_text(t) && i64::MIN <= num_val(t) <= i64::MAX
}

/// The classification of a completed atom run.
pub open spec fn classify_atom(t: Seq<char>) -> ObjTok {
    if t == "#t"@ {
        ObjTok::True
    } else if t == "#f"@ {
        ObjTok::False
    } else if is_i64_text(t) {
        ObjTok::Number(num_val(t) as i64)
    } else {
        ObjTok::Symbol(t)
    }
}

/// The object-mode token starting at `pos` (a non-whitespace position) and
/// the position just after it.
pub open spec fn obj_token_at(s: Seq<char>, pos: int) -> (ObjTok, int)
    recommends
        0 <= pos < s.len(),
{
    let c = s[pos];
    if c == '(' {
        (ObjTok::LBrace, pos + 1)
    } else if c == ')' {
        (ObjTok::RBrace, pos + 1)
    } else if c == '\'' {
        (ObjTok::Quote, pos + 1)
    } else if c == '`' {
        (ObjTok::QuasiQuote, pos + 1)
    } else if c == ',' {
        if pos + 1 < s.len() && s[pos + 1] == '@' {
            (ObjTok::UnquoteSplice, pos + 2)
        } else {
            (ObjTok::Unquote, pos + 1)
        }
    } else if c == '"' {
        (ObjTok::StartString, pos + 1)
    } else {
        let e = atom_end(s, pos);
        (classify_atom(s.subrange(pos, e)), e)
    }
}

/// The string-mode token starting at `pos` and the position just after it.
pub open spec fn str_token_at(s: Seq<char>, pos: int) -> (StrTok, int)
    recommends
        0 <= pos < s.len(),
{
    let c = s[pos];
    if c == '"' {
        (StrTok::EndString, pos + 1)
    } else if c == '\\' {
        (StrTok::Error, pos + 1)
    } else {
        (StrTok::Text(s.subrange(pos, text_end(s, pos))), text_end(s, pos))
    }
}

/// One step of the lexer: the next token with its span and the mode after
/// it, or the end of the input.
pub enum LexOut {
    End,
    Got { t: TokView, start: int, end: int, string_mode: bool },
}

pub open spec fn lex_next(s: Seq<char>, pos: int, in_string: bool) -> LexOut {
    if in_string {
        if pos >= s.len() {
            LexOut::End
        } else {
            let (t, e) = str_token_at(s, pos);
            LexOut::Got { t: TokView::S(t), start: pos, end: e, string_mode: !(t is EndString) }
        }
    } else {
        let p = skip_ws(s, pos);
        if p >= s.len() {
            LexOut::End
        } else {
            let (t, e) = obj_token_at(s, p);
            LexOut::Got { t: TokView::O(t), start: p, end: e, string_mode: t is StartString }
        }
    }
}

pub broadcast proof fn lemma_skip_ws_bounds(s: Seq<char>, pos: int)
    requires
        0 <= pos <= s.len(),
    ensures
        pos <= #[trigger] skip_ws(s, pos) <= s.len(),
    decreases s.len() - pos,
{
    if pos < s.len() && is_ws(s[pos]) {
        lemma_skip_ws_bounds(s, pos + 1);
    }
}

pub broadcast proof fn lemma_atom_end_bounds(s: Seq<char>, pos: int)
    requires
        0 <= pos <= s.len(),
    ensures
        pos <= #[trigger] atom_end(s, pos) <= s.len(),
    decreases s.len() - pos,
{
    if pos < s.len() && !is_delim(s[pos]) {
        lemma_atom_end_bounds(s, pos + 1);
    }
}

pub broadcast proof fn lemma_text_end_bounds(s: Seq<char>, pos: int)
    requires
        0 <= pos <= s.len(),
    ensures
        pos <= #[trigger] text_end(s, pos) <= s.len(),
    decreases s.len() - pos,
{
    if pos < s.len() && s[pos] != '"' && s[pos] != '\\' {
        lemma_text_end_bounds(s, pos + 1);
    }
}

/// The position that whitespace skipping lands on is the end of the input
/// or a non-whitespace character.
pub proof fn lemma_skip_ws_at(s: Seq<char>, pos: int)
    requires
        0 <= pos <= s.len(),
    ensures
        pos <= skip_ws(s, pos) <= s.len(),
        skip_ws(s, pos) == s.len() || !is_ws(s[skip_ws(s, pos)]),
    decreases s.len() - pos,
{
    if pos < s.len() && is_ws(s[pos]) {
        lemma_skip_ws_at(s, pos + 1);
    }
}

/// Every token covers at least one character.
pub proof fn lemma_lex_next_advances(s: Seq<char>, pos: int, in_string: bool)
    requires
        0 <= pos <= s.len(),
    ensures
        match lex_next(s, pos, in_string) {
            LexOut::End => true,
            LexOut::Got { t, start, end, string_mode } => pos <= start < end <= s.len(),
        },
{
    broadcast use lemma_skip_ws_bounds, lemma_atom_end_bounds, lemma_text_end_bounds;

    if in_string {
        if pos < s.len() {
            let c = s[pos];
            if c != '"' && c != '\\' {
                assert(text_end(s, pos) == text_end(s, pos + 1));
            }
        }
    } else {
        lemma_skip_ws_at(s, pos);
        let p = skip_ws(s, pos);
        if p < s.len() {
            let c = s[p];
            if c != '(' && c != ')' && c != '\'' && c != '`' && c != ',' && c != '"' {
                assert(!is_delim(s[p]));
                assert(atom_end(s, p) == atom_end(s, p + 1));
            }
        }
    }
}

/// Two cooperating modes sharing one cursor over the input; `start` and
/// `pos` delimit the current token for error highlighting. Positions count
/// characters.
pub struct Lexer<'a> {
    pub input: &'a str,
    pub pos: usize,
    pub start: usize,
    pub in_string: bool,
}

impl<'a> Lexer<'a> {
    pub open spec fn wf(&self) -> bool {
        self.start <= self.pos <= self.input@.len()
    }

    pub fn new(input: &'a str) -> (l: Lexer<'a>)
        ensures
            l.input@ == input@,
            l.pos == 0,
            l.start == 0,
            !l.in_string,
            l.wf(),
    {
        Lexer { input, pos: 0, start: 0, in_string: false }
    }

    /// The current token's span, for error highlighting.
    pub fn span(&self) -> (r: (usize, usize))
        ensures
            r == (self.start, self.pos),
    {
        (self.start, self.pos)
    }

    /// The next token, switching between object and string mode at the
    /// string delimiters.
    pub fn next(&mut self) -> (t: Option<Tokens>)
        requires
            old(self).wf(),
        ensures
            final(self).wf(),
            final(self).input@ == old(self).input@,
            match lex_next(old(self).input@, old(self).pos as int, old(self).in_string) {
                LexOut::End => t is None,
                LexOut::Got { t: tv, start, end, string_mode } => {
                    &&& t matches Some(tok) && tokens_view(tok) == tv
                    &&& final(self).start == start
                    &&& final(self).pos == end
                    &&& final(self).in_string == string_mode
                },
            },
    {
        proof {
            broadcast use lemma_skip_ws_bounds, lemma_atom_end_bounds, lemma_text_end_bounds;

        }
        let ghost s = self.input@;
        let n = self.input.unicode_len();
        if self.in_string {
            if self.pos >= n {
                return None;
            }
            let c = self.input.get_char(self.pos);
            if c == '"' {
                self.start = self.pos;
                self.pos = self.pos + 1;
                self.in_string = false;
                Some(Tokens::String(StringT::EndString))
            } else if c == '\\' {
                self.start = self.pos;
                self.pos = self.pos + 1;
                Some(Tokens::String(StringT::Error))
            } else {
                let start = self.pos;
                let mut e = self.pos + 1;
                proof {
                    assert(text_end(s, start as int) == text_end(s, start + 1));
                }
                while e < n
                    invariant
                        start < e <= s.len(),
                        s == self.input@,
                        n == s.len(),
                        text_end(s, start as int) == text_end(s, e as int),
                    ensures
                        start < e <= s.len(),
                        text_end(s, start as int) == e as int,
                    decreases s.len() - e,
                {
                    let c2 = self.input.get_char(e);
                    if c2 == '"' || c2 == '\\' {
                        proof {
                            assert(text_end(s, e as int) == e as int);
                        }
                        break ;
                    }
                    proof {
                        assert(text_end(s, e as int) == text_end(s, e + 1));
                    }
                    e = e + 1;
                }
                let txt = self.input.substring_char(start, e).to_owned();
                self.start = start;
                self.pos = e;
                Some(Tokens::String(StringT::Text(txt)))
            }
        } else {
            let ghost p0 = self.pos as int;
            proof {
                assert(p0 == old(self).pos as int);
            }
            let mut p = self.pos;
            while p < n
                invariant
                    p0 <= p <= s.len(),
                    s == self.input@,
                    n == s.len(),
                    skip_ws(s, p0) == skip_ws(s, p as int),
                ensures
                    p0 <= p <= s.len(),
                    skip_ws(s, p0) == p as int,
                decreases s.len() - p,
            {
                let c = self.input.get_char(p);
                if !(c == ' ' || c == '\t' || c == '\n' || c == '\u{000C}') {
                    proof {
                        assert(skip_ws(s, p as int) == p as int);
                    }
                    break ;
                }
                p = p + 1;
            }
            proof {
                if p == n {
                    assert(skip_ws(s, p as int) == p as int);
                }
            }
            if p >= n {
                self.pos = p;
                self.start = p;
                return None;
            }
            let c = self.input.get_char(p);
            if c == '(' {
                self.start = p;
                self.pos = p + 1;
                Some(Tokens::Object(ObjectT::LBrace))
            } else if c == ')' {
                self.start = p;
                self.pos = p + 1;
                Some(Tokens::Object(ObjectT::RBrace))
            } else if c == '\'' {
                self.start = p;
                self.pos = p + 1;
                Some(Tokens::Object(ObjectT::Quote))
            } else if c == '`' {
                self.start = p;
                self.pos = p + 1;
                Some(Tokens::Object(ObjectT::QuasiQuote))
            } else if c == ',' {
                if p + 1 < n && self.input.get_char(p + 1) == '@' {
                    self.start = p;
                    self.pos = p + 2;
                    Some(Tokens::Object(ObjectT::UnquoteSplice))
                } else {
                    self.start = p;
                    self.pos = p + 1;
                    Some(Tokens::Object(ObjectT::Unquote))
                }
            } else if c == '"' {
                self.start = p;
                self.pos = p + 1;
                self.in_string = true;
                Some(Tokens::Object(ObjectT::StartString))
            } else {
                let start = p;
                let mut e = p + 1;
                proof {
                    assert(!is_ws(s[start as int])) by {
                        if is_ws(s[start as int]) {
                            assert(skip_ws(s, start as int) == skip_ws(s, start + 1));
                            assert(skip_ws(s, start + 1) >= start + 1);
                        }
                    }
                    assert(!is_delim(s[start as int]));
                    assert(atom_end(s, start as int) == atom_end(s, start + 1));
                }
                while e < n
                    invariant
                        start < e <= s.len(),
                        s == self.input@,
                        n == s.len(),
                        atom_end(s, start as int) == atom_end(s, e as int),
                    ensures
                        start < e <= s.len(),
                        atom_end(s, start as int) == e as int,
                    decreases s.len() - e,
                {
                    let c2 = self.input.get_char(e);
                    if c2 == ' ' || c2 == '\t' || c2 == '\n' || c2 == '\u{000C}' || c2 == '('
                        || c2 == ')' || c2 == '\'' || c2 == '`' || c2 == ',' || c2 == '"' {
                        proof {
                            assert(atom_end(s, e as int) == e as int);
                        }
                        break ;
                    }
                    proof {
                        assert(atom_end(s, e as int) == atom_end(s, e + 1));
                    }
                    e = e + 1;
                }
                self.start = start;
                self.pos = e;
                Some(Tokens::Object(self.classify(start, e)))
            }
        }
    }

    /// Classifies a completed atom run as a boolean, a number or a symbol.
    fn classify(&self, start: usize, e: usize) -> (t: ObjectT)
        requires
            start < e <= self.input@.len(),
        ensures
            objectt_view(t) == classify_atom(self.input@.subrange(start as int, e as int)),
    {
        let ghost t = self.input@.subrange(start as int, e as int);
        proof {
            reveal_strlit("#t");
            reveal_strlit("#f");
            assert("#t"@ != "#f"@) by {
                assert("#t"@[1] == 't' && "#f"@[1] == 'f');
            }
        }
        let c0 = self.input.get_char(start);
        if e - start == 2 && c0 == '#' {
            let c1 = self.input.get_char(start + 1);
            if c1 == 't' {
                proof {
                    assert(t =~= "#t"@);
                }
                return ObjectT::True;
            }
            if c1 == 'f' {
                proof {
                    assert(t =~= "#f"@);
                }
                return ObjectT::False;
            }
        }
        proof {
            reveal_strlit("#t");
            reveal_strlit("#f");
            assert(t != "#t"@ && t != "#f"@) by {
                assert(t.len() == e - start);
                assert(t[0] == self.input@[start as int]);
                if t.len() == 2 {
                    assert(t[1] == self.input@[start as int + 1]);
                }
            }
        }
        match self.parse_num(start, e) {
            Option::Some(n) => ObjectT::Number(n),
            Option::None => {
                let sym = self.input.substring_char(start, e).to_owned();
                ObjectT::Symbol(sym)
            },
        }
    }

    /// Parses the atom as a machine number if it matches the numeric
    /// pattern and fits the machine range.
    fn parse_num(&self, start: usize, e: usize) -> (r: Option<i64>)
        requires
            start < e <= self.input@.len(),
        ensures
            ({
                let t = self.input@.subrange(start as int, e as int);
                match r {
                    Option::Some(n) => is_i64_text(t) && n == num_val(t),
                    Option::None => !is_i64_text(t),
                }
            }),
    {
        let ghost t = self.input@.subrange(start as int, e as int);
        let c0 = self.input.get_char(start);
        let neg = c0 == '-';
        let ds: usize = if neg {
            start + 1
        } else {
            start
        };
        if ds >= e {
            proof {
                assert(!is_number_text(t));
            }
            return None;
        }
        // accumulate in the negative range, which is the wider half
        let mut acc: i64 = 0;
        let mut i: usize = ds;
        let ghost dseq = self.input@.subrange(ds as int, e as int);
        proof {
            assert(dseq.subrange(0, 0) =~= Seq::<char>::empty());
            if neg {
                assert(t.drop_first() =~= dseq);
            } else {
                assert(t =~= dseq);
            }
        }
        while i < e
            invariant
                ds <= i <= e <= self.input@.len(),
                start < e,
                ds == if neg { start as int + 1 } else { start as int },
                ds < e,
                t == self.input@.subrange(start as int, e as int),
                dseq == self.input@.subrange(ds as int, e as int),
                neg ==> t[0] == '-' && t.drop_first() == dseq,
                !neg ==> t == dseq && t[0] != '-',
                forall|j: int| 0 <= j < i - ds ==> is_digit(dseq[j]),
                acc == -dec_val(dseq.subrange(0, i - ds)),
                acc <= 0,
            decreases e - i,
        {
            let c = self.input.get_char(i);
            let cu = c as u32;
            if !(('0' as u32) <= cu && cu <= ('9' as u32)) {
                proof {
                    assert(dseq[i - ds] == c);
                    if neg {
                        assert(t[i - ds + 1] == c);
                        assert(!is_number_text(t)) by {
                            if is_number_text(t) {
                                assert(is_digit(t[i - ds + 1]));
                            }
                        }
                    } else {
                        assert(!is_number_text(t)) by {
                            if is_number_text(t) {
                                assert(is_digit(t[i - ds]));
                            }
                        }
                    }
                }
                return None;
            }
            let d = (c as u32) - ('0' as u32);
            let ghost pre = dseq.subrange(0, i - ds);
            let ghost cur = dseq.subrange(0, i - ds + 1);
            proof {
                assert(cur.drop_last() =~= pre);
                assert(cur.last() == c);
                assert(dec_val(cur) == dec_val(pre) * 10 + digit_val(c));
            }
            let acc10 = match acc.checked_mul(10) {
                Option::Some(v) => v,
                Option::None => {
                    proof {
                        assert((acc as int) * 10 < i64::MIN);
                        assert(dec_val(cur) > (i64::MAX as int) + 1);
                        lemma_atom_not_i64(t, dseq, (i - ds + 1) as int, neg);
                    }
                    return None;
                },
            };
            let acc2 = match acc10.checked_sub(d as i64) {
                Option::Some(v) => v,
                Option::None => {
                    proof {
                        assert((acc10 as int) - (d as int) < i64::MIN);
                        assert(dec_val(cur) > (i64::MAX as int) + 1);
                        lemma_atom_not_i64(t, dseq, (i - ds + 1) as int, neg);
                    }
                    return None;
                },
            };
            acc = acc2;
            i = i + 1;
        }
        proof {
            assert(dseq.subrange(0, (e - ds) as int) =~= dseq);
            if neg {
                assert(t[0] == '-');
                assert forall|j: int| 1 <= j < t.len() implies is_digit(t[j]) by {
                    assert(t[j] == dseq[j - 1]);
                }
                assert(t.len() >= 2);
                assert(is_number_text(t));
                assert(num_val(t) == -dec_val(dseq));
            } else {
                assert(t =~= dseq);
                assert forall|j: int| 0 <= j < t.len() implies is_digit(t[j]) by {
                    assert(t[j] == dseq[j]);
                }
                assert(t[0] != '-');
                assert(is_number_text(t));
                assert(num_val(t) == dec_val(dseq));
            }
        }
        if neg {
            proof {
                assert(num_val(t) == acc);
            }
            Some(acc)
        } else {
            if acc == i64::MIN {
                proof {
                    assert(num_val(t) == -(acc as int));
                    assert(!is_i64_text(t));
                }
                None
            } else {
                proof {
                    assert(num_val(t) == -(acc as int));
                }
                Some(-acc)
            }
        }
    }
}

/// A digit run whose prefix value already exceeds the machine range denotes
/// no machine number, whichever way the sign goes.
proof fn lemma_atom_not_i64(t: Seq<char>, dseq: Seq<char>, k: int, neg: bool)
    requires
        0 <= k <= dseq.len(),
        dec_val(dseq.subrange(0, k)) > (i64::MAX as int) + 1,
        neg ==> t.len() > 0 && t[0] == '-' && t.drop_first() == dseq,
        !neg ==> t == dseq && (t.len() == 0 || t[0] != '-'),
    ensures
        !is_i64_text(t),
{
    if is_number_text(t) {
        assert forall|j: int| 0 <= j < dseq.len() implies is_digit(dseq[j]) by {
            if neg {
                assert(dseq[j] == t[j + 1]);
            } else {
                assert(dseq[j] == t[j]);
            }
        }
        lemma_dec_val_grows(dseq, k);
        if neg {
            assert(num_val(t) == -dec_val(dseq));
            assert(num_val(t) < i64::MIN);
        } else {
            assert(num_val(t) == dec_val(dseq));
            assert(num_val(t) > i64::MAX);
        }
    }
}

/// Once a digit run's value passes the machine range it only grows as more
/// digits follow.
proof fn lemma_dec_val_grows(ds: Seq<char>, k: int)
    requires
        0 <= k <= ds.len(),
        forall|j: int| 0 <= j < ds.len() ==> is_digit(ds[j]),
    ensures
        dec_val(ds) >= dec_val(ds.subrange(0, k)),
    decreases ds.len() - k,
{
    if k < ds.len() {
        lemma_dec_val_grows(ds, k + 1);
        let pre = ds.subrange(0, k);
        let cur = ds.subrange(0, k + 1);
        assert(cur.drop_last() =~= pre);
        assert(is_digit(cur.last()));
        assert forall|j: int| 0 <= j < pre.len() implies is_digit(pre[j]) by {
            assert(pre[j] == ds[j]);
        }
        lemma_dec_val_nonneg(pre);
        assert(digit_val(cur.last()) >= 0);
        assert(dec_val(cur) == dec_val(pre) * 10 + digit_val(cur.last()));
        assert(dec_val(cur) >= dec_val(pre));
    } else {
        assert(ds.subrange(0, ds.len() as int) =~= ds);
    }
}

proof fn lemma_dec_val_nonneg(ds: Seq<char>)
    requires
        forall|j: int| 0 <= j < ds.len() ==> is_digit(ds[j]),
    ensures
        dec_val(ds) >= 0,
    decreases ds.len(),
{
    if ds.len() > 0 {
        assert forall|j: int| 0 <= j < ds.drop_last().len() implies is_digit(
            ds.drop_last()[j],
        ) by {
            assert(ds.drop_last()[j] == ds[j]);
        }
        lemma_dec_val_nonneg(ds.drop_last());
        assert(digit_val(ds.last()) >= 0);
    }
}

} // verus!
