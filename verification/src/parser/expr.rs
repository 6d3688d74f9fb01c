use vstd::prelude::*;

use super::shared::{comment_or_ws, ident, ident_spec, key, key_spec, lemma_ws_end, tok, tok_spec, ws_end};
use crate::ast::{exprs_view, lemma_exprs_view_push, lemma_field_exprs_view_push, field_exprs_view, ArrayElem, BinaryOper, Expr, Ident, SExpr, StructLiter, UnaryOper};
use crate::text::push_char;

verus! {

pub open spec fn is_digit(c: char) -> bool {
    '0' <= c <= '9'
}

/// The end of the run of digits at `p`.
pub open spec fn digits_end(s: Seq<char>, p: int) -> int
    decreases s.len() - p,
{
    if 0 <= p < s.len() && is_digit(s[p]) {
        digits_end(s, p + 1)
    } else {
        p
    }
}

pub proof fn lemma_digits_end(s: Seq<char>, p: int)
    requires
        0 <= p <= s.len(),
    ensures
        p <= digits_end(s, p) <= s.len(),
    decreases s.len() - p,
{
    if p < s.len() && is_digit(s[p]) {
        lemma_digits_end(s, p + 1);
    }
}

/// The number written by decimal digits.
pub open spec fn decimal(ds: Seq<char>) -> int
    decreases ds.len(),
{
    if ds.len() == 0 {
        0
    } else {
        decimal(ds.drop_last()) * 10 + (ds.last() as int - '0' as int)
    }
}

/// An integer literal at `p`: an optional sign, white space, digits; its
/// value must fit in an `i32`.
pub open spec fn int_liter_spec(s: Seq<char>, p: int) -> Option<(int, int)> {
    let signed = p < s.len() && (s[p] == '+' || s[p] == '-');
    let neg = signed && s[p] == '-';
    let p1 = if signed {
        ws_end(s, p + 1)
    } else {
        p
    };
    let e = digits_end(s, p1);
    if e == p1 {
        None
    } else {
        let v = decimal(s.subrange(p1, e));
        let n = if neg {
            -v
        } else {
            v
        };
        if i32::MIN <= n <= i32::MAX {
            Some((n, ws_end(s, e)))
        } else {
            None
        }
    }
}

proof fn lemma_decimal_nonneg(ds: Seq<char>)
    requires
        forall|i: int| 0 <= i < ds.len() ==> is_digit(#[trigger] ds[i]),
    ensures
        decimal(ds) >= 0,
    decreases ds.len(),
{
    if ds.len() > 0 {
        lemma_decimal_nonneg(ds.drop_last());
    }
}

/* int-liter ::= ('+' | '-')? ('0'-'9')+ */
fn int_liter(s: &Vec<char>, p: usize) -> (r: Option<(i32, usize)>)
    requires
        p <= s@.len(),
    ensures
        match int_liter_spec(s@, p as int) {
            Some((n, q)) => r matches Some((m, q2)) && m == n && q2 == q,
            None => r is None,
        },
        r matches Some((_, q)) ==> p < q <= s@.len(),
{
    let len = s.len();
    let signed = p < len && (s[p] == '+' || s[p] == '-');
    let neg = signed && s[p] == '-';
    let p1 = if signed {
        comment_or_ws(s, p + 1)
    } else {
        p
    };
    let mut e = p1;
    let mut v: i64 = 0;
    let mut too_big = false;
    proof {
        lemma_digits_end(s@, p1 as int);
        assert(s@.subrange(p1 as int, p1 as int) =~= Seq::<char>::empty());
    }
    while e < len && '0' <= s[e] && s[e] <= '9'
        invariant
            len == s@.len(),
            p1 <= e <= len,
            digits_end(s@, e as int) == digits_end(s@, p1 as int),
            forall|i: int| p1 <= i < e ==> is_digit(#[trigger] s@[i]),
            !too_big ==> v == decimal(s@.subrange(p1 as int, e as int)),
            !too_big ==> 0 <= v <= 2147483648,
            too_big ==> decimal(s@.subrange(p1 as int, e as int)) > 2147483648,
        decreases len - e,
    {
        let d = (s[e] as u32 - '0' as u32) as i64;
        proof {
            let ds = s@.subrange(p1 as int, e + 1);
            assert(ds.drop_last() =~= s@.subrange(p1 as int, e as int));
            assert(ds.last() == s@[e as int]);
            assert forall|i: int| 0 <= i < ds.drop_last().len() implies is_digit(#[trigger] ds.drop_last()[i]) by {
                assert(ds.drop_last()[i] == s@[p1 + i]);
            }
            lemma_decimal_nonneg(ds.drop_last());
        }
        if !too_big {
            let nv = v * 10 + d;
            if nv > 2147483648 {
                too_big = true;
            } else {
                v = nv;
            }
        }
        e = e + 1;
    }
    if e == p1 || too_big {
        return None;
    }
    let n: i64 = if neg {
        -v
    } else {
        v
    };
    if n > 2147483647 {
        return None;
    }
    let q = comment_or_ws(s, e);
    Some((n as i32, q))
}

/// The character an escape sequence's letter stands for.
pub open spec fn escape_value(c: char) -> Option<char> {
    if c == '0' {
        Some('\0')
    } else if c == 'b' {
        Some('\u{8}')
    } else if c == 't' {
        Some('\t')
    } else if c == 'n' {
        Some('\n')
    } else if c == 'f' {
        Some('\u{c}')
    } else if c == 'r' {
        Some('\r')
    } else if c == '"' {
        Some('"')
    } else if c == '\'' {
        Some('\'')
    } else if c == '\\' {
        Some('\\')
    } else {
        None
    }
}

/// A character of a character or string literal: any character but '\',
/// '\'' and '"', or '\' and the letter of an escape sequence.
pub open spec fn character_spec(s: Seq<char>, p: int) -> Option<(char, int)> {
    if p < 0 || p >= s.len() {
        None
    } else if s[p] == '\\' {
        if p + 1 < s.len() && escape_value(s[p + 1]) is Some {
            Some((escape_value(s[p + 1]).unwrap(), p + 2))
        } else {
            None
        }
    } else if s[p] == '\'' || s[p] == '"' {
        None
    } else {
        Some((s[p], p + 1))
    }
}

fn escape(c: char) -> (r: Option<char>)
    ensures
        r == escape_value(c),
{
    if c == '0' {
        Some('\0')
    } else if c == 'b' {
        Some('\u{8}')
    } else if c == 't' {
        Some('\t')
    } else if c == 'n' {
        Some('\n')
    } else if c == 'f' {
        Some('\u{c}')
    } else if c == 'r' {
        Some('\r')
    } else if c == '"' {
        Some('"')
    } else if c == '\'' {
        Some('\'')
    } else if c == '\\' {
        Some('\\')
    } else {
        None
    }
}

fn character(s: &Vec<char>, p: usize) -> (r: Option<(char, usize)>)
    requires
        p <= s@.len(),
    ensures
        match character_spec(s@, p as int) {
            Some((c, q)) => r == Some((c, q as usize)),
            None => r is None,
        },
{
    let len = s.len();
    if p >= len {
        return None;
    }
    let c = s[p];
    if c == '\\' {
        if p + 1 < len {
            match escape(s[p + 1]) {
                Some(e) => Some((e, p + 2)),
                None => None,
            }
        } else {
            None
        }
    } else if c == '\'' || c == '"' {
        None
    } else {
        Some((c, p + 1))
    }
}

/* ======== The grammar of expressions ======== */

/// A character literal: a character between single quotes.
pub open spec fn char_liter_spec(s: Seq<char>, p: int) -> Option<(char, int)> {
    if 0 <= p < s.len() && s[p] == '\'' {
        match character_spec(s, p + 1) {
            Some((c, q)) => if q < s.len() && s[q] == '\'' {
                Some((c, ws_end(s, q + 1)))
            } else {
                None
            },
            None => None,
        }
    } else {
        None
    }
}

/// The characters at `p` up to the first that is not one, and where they end.
pub open spec fn str_chars_spec(s: Seq<char>, p: int) -> (Seq<char>, int)
    decreases s.len() - p,
{
    match character_spec(s, p) {
        Some((c, q)) => if p < q <= s.len() {
            let (rest, e) = str_chars_spec(s, q);
            (seq![c] + rest, e)
        } else {
            (Seq::empty(), p)
        },
        None => (Seq::empty(), p),
    }
}

/// A string literal: characters between double quotes.
pub open spec fn str_liter_spec(s: Seq<char>, p: int) -> Option<(Seq<char>, int)> {
    if 0 <= p < s.len() && s[p] == '"' {
        let (cs, e) = str_chars_spec(s, p + 1);
        if e < s.len() && s[e] == '"' {
            Some((cs, ws_end(s, e + 1)))
        } else {
            None
        }
    } else {
        None
    }
}

/// A unary operator.
pub open spec fn unary_oper_spec(s: Seq<char>, p: int) -> Option<(UnaryOper, int)> {
    if let Some(q) = tok_spec(s, p, "!"@) {
        Some((UnaryOper::Bang, q))
    } else if let Some(q) = tok_spec(s, p, "-"@) {
        Some((UnaryOper::Neg, q))
    } else if let Some(q) = key_spec(s, p, "len"@) {
        Some((UnaryOper::Len, q))
    } else if let Some(q) = key_spec(s, p, "ord"@) {
        Some((UnaryOper::Ord, q))
    } else if let Some(q) = key_spec(s, p, "chr"@) {
        Some((UnaryOper::Chr, q))
    } else {
        None
    }
}

/// An operator token.
pub open spec fn oper_spec(s: Seq<char>, p: int, t: Seq<char>, op: BinaryOper) -> Option<(BinaryOper, int)> {
    match tok_spec(s, p, t) {
        Some(q) => Some((op, q)),
        None => None,
    }
}

/// A binary operator of the given precedence level, 1 binding tightest.
pub open spec fn binary_oper_spec(s: Seq<char>, p: int, prec: int) -> Option<(BinaryOper, int)> {
    if prec == 1 {
        match oper_spec(s, p, "*"@, BinaryOper::Mul) {
            Some(r) => Some(r),
            None => match oper_spec(s, p, "/"@, BinaryOper::Div) {
                Some(r) => Some(r),
                None => oper_spec(s, p, "%"@, BinaryOper::Mod),
            },
        }
    } else if prec == 2 {
        match oper_spec(s, p, "+"@, BinaryOper::Add) {
            Some(r) => Some(r),
            None => oper_spec(s, p, "-"@, BinaryOper::Sub),
        }
    } else if prec == 3 {
        match oper_spec(s, p, ">="@, BinaryOper::Gte) {
            Some(r) => Some(r),
            None => match oper_spec(s, p, "<="@, BinaryOper::Lte) {
                Some(r) => Some(r),
                None => match oper_spec(s, p, ">"@, BinaryOper::Gt) {
                    Some(r) => Some(r),
                    None => oper_spec(s, p, "<"@, BinaryOper::Lt),
                },
            },
        }
    } else if prec == 4 {
        match oper_spec(s, p, "=="@, BinaryOper::Eq) {
            Some(r) => Some(r),
            None => oper_spec(s, p, "!="@, BinaryOper::Neq),
        }
    } else if prec == 5 {
        oper_spec(s, p, "&&"@, BinaryOper::And)
    } else {
        oper_spec(s, p, "||"@, BinaryOper::Or)
    }
}

/// An expression: binary applications at every precedence level.
pub open spec fn expr_spec(s: Seq<char>, p: int) -> Option<(SExpr, int)>
    decreases s.len() - p, 9nat,
{
    expr_binary_spec(s, p, 6)
}

/// Operands of a higher level joined by operators of level `prec`, which
/// group to the right.
pub open spec fn expr_binary_spec(s: Seq<char>, p: int, prec: nat) -> Option<(SExpr, int)>
    decreases s.len() - p, prec + 2,
{
    if prec == 0 {
        atom_spec(s, p)
    } else {
        match expr_binary_spec(s, p, (prec - 1) as nat) {
            None => None,
            Some((lhs, q)) => match binary_oper_spec(s, q, prec as int) {
                None => Some((lhs, q)),
                Some((op, q2)) => if p < q2 <= s.len() {
                    match expr_binary_spec(s, q2, prec) {
                        Some((rhs, q3)) => Some((SExpr::BinaryApp(Box::new(lhs), op, Box::new(rhs)), q3)),
                        None => None,
                    }
                } else {
                    None
                },
            },
        }
    }
}

/// An atom: a literal, a struct literal, an array element, a unary
/// application, an identifier, or an expression in brackets; the first of
/// these that reads.
pub open spec fn atom_spec(s: Seq<char>, p: int) -> Option<(SExpr, int)>
    decreases s.len() - p, 1nat,
{
    if let Some((n, q)) = int_liter_spec(s, p) {
        Some((SExpr::IntLiter(n as i32), q))
    } else if let Some(q) = tok_spec(s, p, "true"@) {
        Some((SExpr::BoolLiter(true), q))
    } else if let Some(q) = tok_spec(s, p, "false"@) {
        Some((SExpr::BoolLiter(false), q))
    } else if let Some((c, q)) = char_liter_spec(s, p) {
        Some((SExpr::CharLiter(c), q))
    } else if let Some((cs, q)) = str_liter_spec(s, p) {
        Some((SExpr::StrLiter(cs), q))
    } else if let Some(q) = tok_spec(s, p, "null"@) {
        Some((SExpr::NullPairLiter, q))
    } else if let Some(r) = struct_liter_spec(s, p) {
        Some(r)
    } else if let Some(r) = array_elem_spec(s, p) {
        Some(r)
    } else if let Some(r) = unary_app_spec(s, p) {
        Some(r)
    } else if let Some((id, q)) = ident_spec(s, p) {
        Some((SExpr::Ident(id), q))
    } else {
        match tok_spec(s, p, "("@) {
            Some(q) => if p < q <= s.len() {
                match expr_spec(s, q) {
                    Some((e, q2)) => match tok_spec(s, q2, ")"@) {
                        Some(q3) => Some((e, q3)),
                        None => None,
                    },
                    None => None,
                }
            } else {
                None
            },
            None => None,
        }
    }
}

/// A unary operator applied to an expression.
pub open spec fn unary_app_spec(s: Seq<char>, p: int) -> Option<(SExpr, int)>
    decreases s.len() - p, 0nat,
{
    match unary_oper_spec(s, p) {
        Some((op, q)) => if p < q <= s.len() {
            match expr_spec(s, q) {
                Some((e, q2)) => Some((SExpr::UnaryApp(op, Box::new(e)), q2)),
                None => None,
            }
        } else {
            None
        },
        None => None,
    }
}

/// The indexes '[' <expr> ']' at `p`, as many as read, and where they end.
pub open spec fn indexes_spec(s: Seq<char>, p: int) -> (Seq<SExpr>, int)
    decreases s.len() - p, 0nat,
{
    match tok_spec(s, p, "["@) {
        Some(q1) => if p < q1 <= s.len() {
            match expr_spec(s, q1) {
                Some((e, q2)) => match tok_spec(s, q2, "]"@) {
                    Some(q3) => if p < q3 <= s.len() {
                        let (rest, q4) = indexes_spec(s, q3);
                        (seq![e] + rest, q4)
                    } else {
                        (Seq::empty(), p)
                    },
                    None => (Seq::empty(), p),
                },
                None => (Seq::empty(), p),
            }
        } else {
            (Seq::empty(), p)
        },
        None => (Seq::empty(), p),
    }
}

/// An array element: an identifier and at least one index.
pub open spec fn array_elem_spec(s: Seq<char>, p: int) -> Option<(SExpr, int)>
    decreases s.len() - p, 0nat,
{
    match ident_spec(s, p) {
        Some((id, q)) => if p < q <= s.len() {
            let (idx, q2) = indexes_spec(s, q);
            if idx.len() == 0 {
                None
            } else {
                Some((SExpr::ArrayElem(id, idx), q2))
            }
        } else {
            None
        },
        None => None,
    }
}

/// The fields after the first of a struct literal: each ',' <ident> ':'
/// <expr>; a ',' that is not followed by a whole field spoils the literal.
pub open spec fn more_fields_spec(s: Seq<char>, p: int) -> Option<(Seq<(Seq<char>, SExpr)>, int)>
    decreases s.len() - p, 0nat,
{
    match tok_spec(s, p, ","@) {
        None => Some((Seq::empty(), p)),
        Some(q1) => match ident_spec(s, q1) {
            None => None,
            Some((f, q2)) => match tok_spec(s, q2, ":"@) {
                None => None,
                Some(q3) => if p < q3 <= s.len() {
                    match expr_spec(s, q3) {
                        None => None,
                        Some((e, q4)) => if p < q4 <= s.len() {
                            match more_fields_spec(s, q4) {
                                None => None,
                                Some((rest, q5)) => Some((seq![(f, e)] + rest, q5)),
                            }
                        } else {
                            None
                        },
                    }
                } else {
                    None
                },
            },
        },
    }
}

/// A struct literal: a name, then its fields between braces.
pub open spec fn struct_liter_spec(s: Seq<char>, p: int) -> Option<(SExpr, int)>
    decreases s.len() - p, 0nat,
{
    match ident_spec(s, p) {
        None => None,
        Some((id, q)) => match tok_spec(s, q, "{"@) {
            None => None,
            Some(q1) => {
                let fields = match ident_spec(s, q1) {
                    None => Some((Seq::empty(), q1)),
                    Some((f, q2)) => match tok_spec(s, q2, ":"@) {
                        None => None,
                        Some(q3) => if p < q3 <= s.len() {
                            match expr_spec(s, q3) {
                                None => None,
                                Some((e, q4)) => if p < q4 <= s.len() {
                                    match more_fields_spec(s, q4) {
                                        None => None,
                                        Some((rest, q5)) => Some((seq![(f, e)] + rest, q5)),
                                    }
                                } else {
                                    None
                                },
                            }
                        } else {
                            None
                        },
                    },
                };
                match fields {
                    None => None,
                    Some((fs, q6)) => match tok_spec(s, q6, "}"@) {
                        Some(q7) => Some((SExpr::StructLiter(id, fs), q7)),
                        None => None,
                    },
                }
            },
        },
    }
}

/// An exec result of an expression parser is its spec result.
pub open spec fn expr_result(r: Option<(Expr, usize)>, sp: Option<(SExpr, int)>) -> bool {
    match sp {
        Some((e, q)) => r matches Some((re, rq)) && re@ == e && rq == q,
        None => r is None,
    }
}

/* char-liter ::= '\'' <character> '\'' */
fn char_liter(s: &Vec<char>, p: usize) -> (r: Option<(char, usize)>)
    requires
        p <= s@.len(),
    ensures
        r matches Some((_, q)) ==> p < q <= s@.len(),
        match char_liter_spec(s@, p as int) {
            Some((c, q)) => r matches Some((rc, rq)) && rc == c && rq == q,
            None => r is None,
        },
{
    if p < s.len() && s[p] == '\'' {
        let (c, q) = character(s, p + 1)?;
        if q < s.len() && s[q] == '\'' {
            return Some((c, comment_or_ws(s, q + 1)));
        }
    }
    None
}

/* str-liter ::= '"' <character>* '"' */
fn str_liter(s: &Vec<char>, p: usize) -> (r: Option<(String, usize)>)
    requires
        p <= s@.len(),
    ensures
        r matches Some((_, q)) ==> p < q <= s@.len(),
        match str_liter_spec(s@, p as int) {
            Some((cs, q)) => r matches Some((st, rq)) && st@ == cs && rq == q,
            None => r is None,
        },
{
    let len = s.len();
    if p >= len || s[p] != '"' {
        return None;
    }
    let mut out = String::new();
    let mut q = p + 1;
    proof {
        assert(out@ + str_chars_spec(s@, q as int).0 =~= str_chars_spec(s@, p + 1).0);
    }
    loop
        invariant
            len == s@.len(),
            p < q <= len,
            str_chars_spec(s@, p + 1) == (out@ + str_chars_spec(s@, q as int).0, str_chars_spec(s@, q as int).1),
        ensures
            p < q <= len,
            str_chars_spec(s@, p + 1) == (out@, q as int),
        decreases len - q,
    {
        match character(s, q) {
            Some((c, q2)) => {
                let ghost out0 = out@;
                push_char(&mut out, c);
                proof {
                    assert(str_chars_spec(s@, q as int) == (seq![c] + str_chars_spec(s@, q2 as int).0, str_chars_spec(
                        s@,
                        q2 as int,
                    ).1));
                    assert(out0 + (seq![c] + str_chars_spec(s@, q2 as int).0) =~= out@ + str_chars_spec(s@, q2 as int).0);
                }
                q = q2;
            },
            None => {
                proof {
                    assert(out@ + Seq::<char>::empty() =~= out@);
                }
                break;
            },
        }
    }
    if q < len && s[q] == '"' {
        Some((out, comment_or_ws(s, q + 1)))
    } else {
        None
    }
}

/* unary-oper ::= '!' | '-' | 'len' | 'ord' | 'chr' */
pub fn unary_oper(s: &Vec<char>, p: usize) -> (r: Option<(UnaryOper, usize)>)
    requires
        p <= s@.len(),
    ensures
        r matches Some((_, q)) ==> p < q <= s@.len(),
        match unary_oper_spec(s@, p as int) {
            Some((op, q)) => r matches Some((ro, rq)) && ro == op && rq == q,
            None => r is None,
        },
{
    proof {
        reveal_strlit("!");
        reveal_strlit("-");
        reveal_strlit("len");
        reveal_strlit("ord");
        reveal_strlit("chr");
    }
    if let Some(q) = tok(s, p, "!") {
        return Some((UnaryOper::Bang, q));
    }
    if let Some(q) = tok(s, p, "-") {
        return Some((UnaryOper::Neg, q));
    }
    if let Some(q) = key(s, p, "len") {
        return Some((UnaryOper::Len, q));
    }
    if let Some(q) = key(s, p, "ord") {
        return Some((UnaryOper::Ord, q));
    }
    if let Some(q) = key(s, p, "chr") {
        return Some((UnaryOper::Chr, q));
    }
    None
}

/* A token that stands for an operator. */
fn oper_tok(s: &Vec<char>, p: usize, t: &str, op: BinaryOper) -> (r: Option<(BinaryOper, usize)>)
    requires
        p <= s@.len(),
        t@.len() > 0,
    ensures
        r matches Some((o, q)) ==> o == op && p < q <= s@.len(),
        match oper_spec(s@, p as int, t@, op) {
            Some((o, q)) => r matches Some((ro, rq)) && ro == o && rq == q,
            None => r is None,
        },
{
    let q = tok(s, p, t)?;
    Some((op, q))
}

/* The binary operators of a level of precedence, 1 binding tightest. */
pub fn binary_oper_prec(s: &Vec<char>, p: usize, prec: u8) -> (r: Option<(BinaryOper, usize)>)
    requires
        p <= s@.len(),
        1 <= prec <= 6,
    ensures
        r matches Some((_, q)) ==> p < q <= s@.len(),
        match binary_oper_spec(s@, p as int, prec as int) {
            Some((op, q)) => r matches Some((ro, rq)) && ro == op && rq == q,
            None => r is None,
        },
{
    proof {
        reveal_strlit("*");
        reveal_strlit("/");
        reveal_strlit("%");
        reveal_strlit("+");
        reveal_strlit("-");
        reveal_strlit(">=");
        reveal_strlit("<=");
        reveal_strlit(">");
        reveal_strlit("<");
        reveal_strlit("==");
        reveal_strlit("!=");
        reveal_strlit("&&");
        reveal_strlit("||");
    }
    if prec == 1 {
        match oper_tok(s, p, "*", BinaryOper::Mul) {
            Some(r) => Some(r),
            None => match oper_tok(s, p, "/", BinaryOper::Div) {
                Some(r) => Some(r),
                None => oper_tok(s, p, "%", BinaryOper::Mod),
            },
        }
    } else if prec == 2 {
        match oper_tok(s, p, "+", BinaryOper::Add) {
            Some(r) => Some(r),
            None => oper_tok(s, p, "-", BinaryOper::Sub),
        }
    } else if prec == 3 {
        match oper_tok(s, p, ">=", BinaryOper::Gte) {
            Some(r) => Some(r),
            None => match oper_tok(s, p, "<=", BinaryOper::Lte) {
                Some(r) => Some(r),
                None => match oper_tok(s, p, ">", BinaryOper::Gt) {
                    Some(r) => Some(r),
                    None => oper_tok(s, p, "<", BinaryOper::Lt),
                },
            },
        }
    } else if prec == 4 {
        match oper_tok(s, p, "==", BinaryOper::Eq) {
            Some(r) => Some(r),
            None => oper_tok(s, p, "!=", BinaryOper::Neq),
        }
    } else if prec == 5 {
        oper_tok(s, p, "&&", BinaryOper::And)
    } else {
        oper_tok(s, p, "||", BinaryOper::Or)
    }
}

proof fn lemma_char_view(c: char)
    ensures
        Expr::CharLiter(c)@ == SExpr::CharLiter(c),
{
}

/* expr ::= <expr> <binary-oper> <expr> | <atom>, with the usual precedence;
operators of one level group to the right. */
pub fn expr(s: &Vec<char>, p: usize) -> (r: Option<(Expr, usize)>)
    requires
        p <= s@.len(),
    ensures
        r matches Some((_, q)) ==> p < q <= s@.len(),
        expr_result(r, expr_spec(s@, p as int)),
    decreases s@.len() - p, 9nat,
{
    expr_binary_app(s, p, 6)
}

fn expr_binary_app(s: &Vec<char>, p: usize, prec: u8) -> (r: Option<(Expr, usize)>)
    requires
        p <= s@.len(),
        prec <= 6,
    ensures
        r matches Some((_, q)) ==> p < q <= s@.len(),
        expr_result(r, expr_binary_spec(s@, p as int, prec as nat)),
    decreases s@.len() - p, prec + 2,
{
    if prec == 0 {
        return expr_atom(s, p);
    }
    let (lhs, q) = match expr_binary_app(s, p, prec - 1) {
        Some(r) => r,
        None => {
            return None;
        },
    };
    match binary_oper_prec(s, q, prec) {
        None => Some((lhs, q)),
        Some((op, q2)) => {
            assert(binary_oper_spec(s@, q as int, prec as int) == Some((op, q2 as int)));
            assert(expr_binary_spec(s@, p as int, (prec - 1) as nat) == Some((lhs@, q as int)));
            let (rhs, q3) = match expr_binary_app(s, q2, prec) {
                Some(r) => r,
                None => {
                    assert(expr_binary_spec(s@, q2 as int, prec as nat) is None);
                    assert(expr_binary_spec(s@, p as int, prec as nat) is None);
                    return None;
                },
            };
            let e = Expr::BinaryApp(Box::new(lhs), op, Box::new(rhs));
            assert(e@ == SExpr::BinaryApp(Box::new(lhs@), op, Box::new(rhs@)));
            Some((e, q3))
        },
    }
}

#[verifier::rlimit(40)]
fn expr_atom(s: &Vec<char>, p: usize) -> (r: Option<(Expr, usize)>)
    requires
        p <= s@.len(),
    ensures
        r matches Some((_, q)) ==> p < q <= s@.len(),
        expr_result(r, atom_spec(s@, p as int)),
    decreases s@.len() - p, 1nat,
{
    proof {
        reveal_strlit("true");
        reveal_strlit("false");
        reveal_strlit("null");
        reveal_strlit("(");
        reveal_strlit(")");
    }
    if let Some((n, q)) = int_liter(s, p) {
        return Some((Expr::IntLiter(n), q));
    }
    if let Some(q) = tok(s, p, "true") {
        return Some((Expr::BoolLiter(true), q));
    }
    if let Some(q) = tok(s, p, "false") {
        return Some((Expr::BoolLiter(false), q));
    }
    if let Some((c, q)) = char_liter(s, p) {
        assert(int_liter_spec(s@, p as int) is None);
        assert(tok_spec(s@, p as int, "true"@) is None);
        assert(tok_spec(s@, p as int, "false"@) is None);
        assert(char_liter_spec(s@, p as int) == Some((c, q as int)));
        proof {
            lemma_char_view(c);
        }
        return Some((Expr::CharLiter(c), q));
    }
    if let Some((st, q)) = str_liter(s, p) {
        return Some((Expr::StrLiter(st), q));
    }
    if let Some(q) = tok(s, p, "null") {
        return Some((Expr::NullPairLiter, q));
    }
    if let Some((sl, q)) = struct_liter(s, p) {
        return Some((Expr::StructLiter(sl), q));
    }
    if let Some((ae, q)) = array_elem(s, p) {
        return Some((Expr::ArrayElem(ae), q));
    }
    if let Some((op, q)) = unary_oper(s, p) {
        if let Some((e, q2)) = expr(s, q) {
            let u = Expr::UnaryApp(op, Box::new(e));
            assert(u@ == SExpr::UnaryApp(op, Box::new(e@)));
            return Some((u, q2));
        }
    }
    assert(unary_app_spec(s@, p as int) is None);
    if let Some((id, q)) = ident(s, p) {
        return Some((Expr::Ident(id), q));
    }
    let q = match tok(s, p, "(") {
        Some(q) => q,
        None => {
            return None;
        },
    };
    let (e, q) = match expr(s, q) {
        Some(r) => r,
        None => {
            return None;
        },
    };
    let q = match tok(s, q, ")") {
        Some(q) => q,
        None => {
            return None;
        },
    };
    Some((e, q))
}

/* struct-liter ::= <ident> '{' (<ident> ':' <expr> (',' <ident> ':' <expr>)*)? '}' */
#[verifier::rlimit(40)]
pub fn struct_liter(s: &Vec<char>, p: usize) -> (r: Option<(StructLiter, usize)>)
    requires
        p <= s@.len(),
    ensures
        r matches Some((_, q)) ==> p < q <= s@.len(),
        match struct_liter_spec(s@, p as int) {
            Some((e, q)) => r matches Some((sl, rq)) && e == SExpr::StructLiter(sl.id@, field_exprs_view(sl.fields@))
                && rq == q,
            None => r is None,
        },
    decreases s@.len() - p, 0nat,
{
    proof {
        reveal_strlit("{");
        reveal_strlit("}");
        reveal_strlit(":");
        reveal_strlit(",");
    }
    let (id, q) = match ident(s, p) {
        Some(r) => r,
        None => {
            return None;
        },
    };
    let mut q = match tok(s, q, "{") {
        Some(q) => q,
        None => {
            return None;
        },
    };
    let ghost q_open = q as int;
    let mut fields: Vec<(Ident, Expr)> = Vec::new();
    if let Some((f, q1)) = ident(s, q) {
        let q2 = match tok(s, q1, ":") {
            Some(q2) => q2,
            None => {
                return None;
            },
        };
        let (e, q3) = match expr(s, q2) {
            Some(r) => r,
            None => {
                return None;
            },
        };
        let ghost first = (f@, e@);
        let ghost fl0 = fields@;
        proof {
            lemma_field_exprs_view_push(fl0, (f, e));
            assert(field_exprs_view(fl0) =~= Seq::<(Seq<char>, SExpr)>::empty());
        }
        fields.push((f, e));
        q = q3;
        let ghost q_more = q3 as int;
        proof {
            assert(field_exprs_view(fields@) =~= seq![first]);
            assert(field_exprs_view(fields@).skip(1) =~= Seq::<(Seq<char>, SExpr)>::empty());
        }
        loop
            invariant
                p < q_more <= q <= s@.len(),
                struct_liter_spec(s@, p as int) == match more_fields_spec(s@, q_more) {
                    None => None,
                    Some((rest, q5)) => match tok_spec(s@, q5, "}"@) {
                        Some(q7) => Some((SExpr::StructLiter(id@, seq![first] + rest), q7)),
                        None => None,
                    },
                },
                fields@.len() >= 1,
                field_exprs_view(fields@)[0] == first,
                more_fields_spec(s@, q_more) == match more_fields_spec(s@, q as int) {
                    Some((rest, qe)) => Some((field_exprs_view(fields@).skip(1) + rest, qe)),
                    None => None,
                },
            ensures
                p < q <= s@.len(),
                struct_liter_spec(s@, p as int) == match more_fields_spec(s@, q_more) {
                    None => None,
                    Some((rest, q5)) => match tok_spec(s@, q5, "}"@) {
                        Some(q7) => Some((SExpr::StructLiter(id@, seq![first] + rest), q7)),
                        None => None,
                    },
                },
                fields@.len() >= 1,
                field_exprs_view(fields@)[0] == first,
                more_fields_spec(s@, q_more) == Some((field_exprs_view(fields@).skip(1), q as int)),
            decreases s@.len() - q,
        {
            proof {
                reveal_strlit(",");
                reveal_strlit(":");
            }
            match tok(s, q, ",") {
                Some(q1) => match ident(s, q1) {
                    Some((f, q2)) => match tok(s, q2, ":") {
                        Some(q3) => match expr(s, q3) {
                            Some((e, q4)) => {
                                let ghost fv0 = field_exprs_view(fields@);
                                let ghost ev = e@;
                                let ghost fd = f@;
                                let ghost fl0 = fields@;
                                proof {
                                    lemma_field_exprs_view_push(fl0, (f, e));
                                }
                                fields.push((f, e));
                                proof {
                                    assert(field_exprs_view(fields@) == fv0.push((fd, ev)));
                                    assert(field_exprs_view(fields@)[0] == fv0[0]);
                                    assert(more_fields_spec(s@, q as int) == match more_fields_spec(s@, q4 as int) {
                                        Some((rest, qe)) => Some((seq![(fd, ev)] + rest, qe)),
                                        None => None,
                                    });
                                    assert forall|rest: Seq<(Seq<char>, SExpr)>| fv0.skip(1) + (seq![(fd, ev)] + rest)
                                        =~= field_exprs_view(fields@).skip(1) + rest by {}
                                }
                                q = q4;
                            },
                            None => {
                                return None;
                            },
                        },
                        None => {
                            return None;
                        },
                    },
                    None => {
                        return None;
                    },
                },
                None => {
                    proof {
                        assert(field_exprs_view(fields@).skip(1) + Seq::<(Seq<char>, SExpr)>::empty()
                            =~= field_exprs_view(fields@).skip(1));
                    }
                    break;
                },
            }
        }
        proof {
            assert(field_exprs_view(fields@) =~= seq![first] + field_exprs_view(fields@).skip(1));
        }
    } else {
        proof {
            assert(field_exprs_view(fields@) =~= Seq::<(Seq<char>, SExpr)>::empty());
        }
    }
    let q = match tok(s, q, "}") {
        Some(q) => q,
        None => {
            return None;
        },
    };
    Some((StructLiter { id, fields }, q))
}

/* array-elem ::= <ident> ('[' <expr> ']')+ */
#[verifier::rlimit(40)]
pub fn array_elem(s: &Vec<char>, p: usize) -> (r: Option<(ArrayElem, usize)>)
    requires
        p <= s@.len(),
    ensures
        r matches Some((_, q)) ==> p < q <= s@.len(),
        match array_elem_spec(s@, p as int) {
            Some((e, q)) => r matches Some((ae, rq)) && e == SExpr::ArrayElem(ae.0@, exprs_view(ae.1@)) && rq == q,
            None => r is None,
        },
    decreases s@.len() - p, 0nat,
{
    proof {
        reveal_strlit("[");
        reveal_strlit("]");
    }
    let (id, q) = match ident(s, p) {
        Some(r) => r,
        None => {
            return None;
        },
    };
    let ghost q0 = q as int;
    let mut indexes: Vec<Expr> = Vec::new();
    let mut q = q;
    proof {
        assert(exprs_view(indexes@) + indexes_spec(s@, q0).0 =~= indexes_spec(s@, q0).0);
    }
    loop
        invariant
            p < q0 <= q <= s@.len(),
            indexes_spec(s@, q0) == (exprs_view(indexes@) + indexes_spec(s@, q as int).0, indexes_spec(
                s@,
                q as int,
            ).1),
        ensures
            p < q <= s@.len(),
            indexes_spec(s@, q0) == (exprs_view(indexes@), q as int),
        decreases s@.len() - q,
    {
        proof {
            reveal_strlit("[");
            reveal_strlit("]");
        }
        match tok(s, q, "[") {
            Some(q1) => match expr(s, q1) {
                Some((e, q2)) => match tok(s, q2, "]") {
                    Some(q3) => {
                        let ghost ev0 = exprs_view(indexes@);
                        let ghost ee = e@;
                        let ghost iv0 = indexes@;
                        proof {
                            lemma_exprs_view_push(iv0, e);
                        }
                        indexes.push(e);
                        proof {
                            assert(exprs_view(indexes@) == ev0.push(ee));
                            assert(tok_spec(s@, q as int, "["@) == Some(q1 as int));
                            assert(expr_spec(s@, q1 as int) == Some((ee, q2 as int)));
                            assert(tok_spec(s@, q2 as int, "]"@) == Some(q3 as int));
                            assert(q < q1 <= s@.len());
                            assert(q < q3 <= s@.len());
                            assert(indexes_spec(s@, q as int) == (seq![ee] + indexes_spec(s@, q3 as int).0, indexes_spec(
                                s@,
                                q3 as int,
                            ).1));
                            assert(ev0 + (seq![ee] + indexes_spec(s@, q3 as int).0) =~= exprs_view(indexes@)
                                + indexes_spec(s@, q3 as int).0);
                        }
                        q = q3;
                    },
                    None => {
                        proof {
                            assert(exprs_view(indexes@) + Seq::<SExpr>::empty() =~= exprs_view(indexes@));
                        }
                        break;
                    },
                },
                None => {
                    proof {
                        assert(exprs_view(indexes@) + Seq::<SExpr>::empty() =~= exprs_view(indexes@));
                    }
                    break;
                },
            },
            None => {
                proof {
                    assert(exprs_view(indexes@) + Seq::<SExpr>::empty() =~= exprs_view(indexes@));
                }
                break;
            },
        }
    }
    if indexes.len() == 0 {
        proof {
            assert(exprs_view(indexes@) =~= Seq::<SExpr>::empty());
        }
        return None;
    }
    Some((ArrayElem(id, indexes), q))
}

} // verus!
