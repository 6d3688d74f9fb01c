use vstd::prelude::*;

use crate::ast::Ident;

verus! {

/* Parsers work on the characters of the input and a position in them; a
parser that succeeds gives back what it read and the position after it and
after the white space and comments that follow. */

pub open spec fn is_space(c: char) -> bool {
    c == ' ' || c == '\n' || c == '\r' || c == '\t'
}

/// The end of the comment starting at `p`: the next end of line, or the
/// end of the input.
pub open spec fn line_end(s: Seq<char>, p: int) -> int
    decreases s.len() - p,
{
    if p >= s.len() || s[p] == '\n' || s[p] == '\r' {
        p
    } else {
        line_end(s, p + 1)
    }
}

/// The position after the white space and comments ('#' to the end of the
/// line) at `p`.
pub open spec fn ws_end(s: Seq<char>, p: int) -> int
    decreases s.len() - p,
{
    if p < 0 || p >= s.len() {
        p
    } else if is_space(s[p]) {
        ws_end(s, p + 1)
    } else if s[p] == '#' {
        proof {
            lemma_line_end(s, p + 1);
        }
        let q = line_end(s, p + 1);
        if q >= s.len() {
            q
        } else {
            ws_end(s, q)
        }
    } else {
        p
    }
}

pub proof fn lemma_line_end(s: Seq<char>, p: int)
    requires
        0 <= p <= s.len(),
    ensures
        p <= line_end(s, p) <= s.len(),
    decreases s.len() - p,
{
    if p < s.len() && s[p] != '\n' && s[p] != '\r' {
        lemma_line_end(s, p + 1);
    }
}

pub proof fn lemma_ws_end(s: Seq<char>, p: int)
    requires
        0 <= p <= s.len(),
    ensures
        p <= ws_end(s, p) <= s.len(),
    decreases s.len() - p,
{
    if p < s.len() {
        if is_space(s[p]) {
            lemma_ws_end(s, p + 1);
        } else if s[p] == '#' {
            lemma_line_end(s, p + 1);
            let q = line_end(s, p + 1);
            if q < s.len() {
                lemma_ws_end(s, q);
            }
        }
    }
}

/// Skips the white space and comments at `p`.
pub fn comment_or_ws(s: &Vec<char>, p: usize) -> (r: usize)
    requires
        p <= s@.len(),
    ensures
        r == ws_end(s@, p as int),
        p <= r <= s@.len(),
{
    let mut q = p;
    proof {
        lemma_ws_end(s@, p as int);
    }
    while q < s.len() && (is_space_char(s[q]) || s[q] == '#')
        invariant
            p <= q <= s@.len(),
            ws_end(s@, q as int) == ws_end(s@, p as int),
        decreases s@.len() - q,
    {
        if s[q] == '#' {
            let mut e = q + 1;
            proof {
                lemma_line_end(s@, q + 1);
            }
            while e < s.len() && s[e] != '\n' && s[e] != '\r'
                invariant
                    q + 1 <= e <= s@.len(),
                    line_end(s@, e as int) == line_end(s@, q + 1),
                decreases s@.len() - e,
            {
                e = e + 1;
            }
            assert(line_end(s@, e as int) == e);
            q = e;
        } else {
            q = q + 1;
        }
    }
    q
}

/// A comment: '#' and the rest of its line, up to (not including) the end
/// of the line.
pub fn comment(s: &Vec<char>, p: usize) -> (r: Option<usize>)
    requires
        p <= s@.len(),
    ensures
        r is Some <==> (p < s@.len() && s@[p as int] == '#'),
        r matches Some(q) ==> q == line_end(s@, p + 1) && p < q <= s@.len(),
{
    if p >= s.len() || s[p] != '#' {
        return None;
    }
    let mut e = p + 1;
    proof {
        lemma_line_end(s@, p + 1);
    }
    while e < s.len() && s[e] != '\n' && s[e] != '\r'
        invariant
            p + 1 <= e <= s@.len(),
            line_end(s@, e as int) == line_end(s@, p + 1),
        decreases s@.len() - e,
    {
        e = e + 1;
    }
    Some(e)
}

fn is_space_char(c: char) -> (r: bool)
    ensures
        r == is_space(c),
{
    c == ' ' || c == '\n' || c == '\r' || c == '\t'
}

/// The characters at `p` are those of `t`.
pub open spec fn has_at(s: Seq<char>, p: int, t: Seq<char>) -> bool {
    0 <= p && p + t.len() <= s.len() && s.subrange(p, p + t.len()) == t
}

/// Whether the characters of `t` are at `p`.
pub fn starts_with_at(s: &Vec<char>, p: usize, t: &str) -> (r: bool)
    requires
        p <= s@.len(),
    ensures
        r == has_at(s@, p as int, t@),
{
    let n = t.unicode_len();
    let len = s.len();
    if n > len - p {
        return false;
    }
    let mut i: usize = 0;
    while i < n
        invariant
            n == t@.len(),
            len == s@.len(),
            p + n <= len,
            i <= n,
            forall|j: int| 0 <= j < i ==> s@[p + j] == t@[j],
        decreases n - i,
    {
        if s[p + i] != t.get_char(i) {
            assert(s@.subrange(p as int, p + n)[i as int] != t@[i as int]);
            return false;
        }
        i = i + 1;
    }
    assert(s@.subrange(p as int, p + n) =~= t@);
    true
}

/// A token: the characters of `t`, then white space and comments.
/// What `tok` gives: the position after `t` and the white space after it.
pub open spec fn tok_spec(s: Seq<char>, p: int, t: Seq<char>) -> Option<int> {
    if has_at(s, p, t) {
        Some(ws_end(s, p + t.len()))
    } else {
        None
    }
}

/// The position after the white space (no comments) at `p`.
pub open spec fn space_end(s: Seq<char>, p: int) -> int
    decreases s.len() - p,
{
    if 0 <= p < s.len() && is_space(s[p]) {
        space_end(s, p + 1)
    } else {
        p
    }
}

pub proof fn lemma_space_end(s: Seq<char>, p: int)
    requires
        0 <= p <= s.len(),
    ensures
        p <= space_end(s, p) <= s.len(),
    decreases s.len() - p,
{
    if p < s.len() && is_space(s[p]) {
        lemma_space_end(s, p + 1);
    }
}

/// What `key` gives: the characters of `t` when no identifier character
/// follows them, and the position after the white space after them.
pub open spec fn key_spec(s: Seq<char>, p: int, t: Seq<char>) -> Option<int> {
    if has_at(s, p, t) && (p + t.len() == s.len() || !is_ident_char(s[p + t.len()])) {
        Some(space_end(s, p + t.len()))
    } else {
        None
    }
}

/// What `ident` gives: the run of identifier characters, when it starts
/// well and is no keyword, and the position after the white space after it.
pub open spec fn ident_spec(s: Seq<char>, p: int) -> Option<(Seq<char>, int)> {
    if 0 <= p < s.len() && is_ident_start(s[p]) && !keywords().contains(s.subrange(p, run_end(s, p))) {
        Some((s.subrange(p, run_end(s, p)), ws_end(s, run_end(s, p))))
    } else {
        None
    }
}

pub fn tok(s: &Vec<char>, p: usize, t: &str) -> (r: Option<usize>)
    requires
        p <= s@.len(),
    ensures
        match tok_spec(s@, p as int, t@) {
            Some(q) => r matches Some(rq) && rq == q,
            None => r is None,
        },
        r is Some <==> has_at(s@, p as int, t@),
        r matches Some(q) ==> q == ws_end(s@, p + t@.len()) && p + t@.len() <= q <= s@.len(),
{
    if starts_with_at(s, p, t) {
        let n = t.unicode_len();
        let len = s.len();
        assert(p + n <= len);
        Some(comment_or_ws(s, p + n))
    } else {
        None
    }
}

/// Characters that can continue an identifier.
pub open spec fn is_ident_char(c: char) -> bool {
    ('a' <= c <= 'z') || ('A' <= c <= 'Z') || ('0' <= c <= '9') || c == '_'
}

/// Characters that can start an identifier.
pub open spec fn is_ident_start(c: char) -> bool {
    ('a' <= c <= 'z') || ('A' <= c <= 'Z') || c == '_'
}

fn ident_char(c: char) -> (r: bool)
    ensures
        r == is_ident_char(c),
{
    ('a' <= c && c <= 'z') || ('A' <= c && c <= 'Z') || ('0' <= c && c <= '9') || c == '_'
}

/// A keyword: the characters of `t` not followed by a character of an
/// identifier, then white space and comments.
pub fn key(s: &Vec<char>, p: usize, t: &str) -> (r: Option<usize>)
    requires
        p <= s@.len(),
    ensures
        match key_spec(s@, p as int, t@) {
            Some(q) => r matches Some(rq) && rq == q,
            None => r is None,
        },
        r is Some <==> has_at(s@, p as int, t@) && (p + t@.len() == s@.len() || !is_ident_char(
            s@[p + t@.len()],
        )),
        r matches Some(q) ==> q == space_end(s@, p + t@.len()) && p + t@.len() <= q <= s@.len(),
{
    if starts_with_at(s, p, t) {
        let n = t.unicode_len();
        let len = s.len();
        assert(p + n <= len);
        if p + n < len && ident_char(s[p + n]) {
            None
        } else {
            let mut q = p + n;
            proof {
                lemma_space_end(s@, q as int);
            }
            while q < len && is_space_char(s[q])
                invariant
                    p + n <= q <= len,
                    len == s@.len(),
                    space_end(s@, q as int) == space_end(s@, p + n),
                decreases len - q,
            {
                q = q + 1;
            }
            Some(q)
        }
    } else {
        None
    }
}

/// The words of the language, which cannot be identifiers.
pub open spec fn keywords() -> Set<Seq<char>> {
    set![
        "begin"@,
        "end"@,
        "is"@,
        "skip"@,
        "read"@,
        "free"@,
        "return"@,
        "exit"@,
        "print"@,
        "println"@,
        "if"@,
        "then"@,
        "else"@,
        "fi"@,
        "while"@,
        "do"@,
        "done"@,
        "newpair"@,
        "call"@,
        "fst"@,
        "snd"@,
        "int"@,
        "bool"@,
        "char"@,
        "string"@,
        "pair"@,
        "len"@,
        "ord"@,
        "chr"@,
        "true"@,
        "false"@,
        "null"@,
    ]
}

/// Whether the word is one of the language's.
pub fn is_keyword(ident: &str) -> (r: bool)
    ensures
        r == keywords().contains(ident@),
{
    let words = [
        "begin", "end", "is", "skip", "read", "free", "return", "exit", "print", "println", "if",
        "then", "else", "fi", "while", "do", "done", "newpair", "call", "fst", "snd", "int",
        "bool", "char", "string", "pair", "len", "ord", "chr", "true", "false", "null",
    ];
    let ghost ws = seq![
        "begin"@,
        "end"@,
        "is"@,
        "skip"@,
        "read"@,
        "free"@,
        "return"@,
        "exit"@,
        "print"@,
        "println"@,
        "if"@,
        "then"@,
        "else"@,
        "fi"@,
        "while"@,
        "do"@,
        "done"@,
        "newpair"@,
        "call"@,
        "fst"@,
        "snd"@,
        "int"@,
        "bool"@,
        "char"@,
        "string"@,
        "pair"@,
        "len"@,
        "ord"@,
        "chr"@,
        "true"@,
        "false"@,
        "null"@,
    ];
    assert(ws.to_set() =~= keywords()) by {
        assert forall|w: Seq<char>| keywords().contains(w) implies ws.to_set().contains(w) by {
            assert(ws.contains(w));
        }
    }
    let mut i: usize = 0;
    while i < 32
        invariant
            i <= 32,
            ws.len() == 32,
            ws.to_set() == keywords(),
            forall|j: int| 0 <= j < 32 ==> words@[j]@ == ws[j],
            forall|j: int| 0 <= j < i ==> ws[j] != ident@,
        decreases 32 - i,
    {
        if crate::ident_map::str_eq(words[i], ident) {
            assert(ws[i as int] == ident@);
            assert(ws.contains(ident@));
            assert(ws.to_set().contains(ident@));
            return true;
        }
        i = i + 1;
    }
    assert(!ws.contains(ident@));
    false
}

/// The end of the run of identifier characters at `p`.
pub open spec fn run_end(s: Seq<char>, p: int) -> int
    decreases s.len() - p,
{
    if 0 <= p < s.len() && is_ident_char(s[p]) {
        run_end(s, p + 1)
    } else {
        p
    }
}

pub proof fn lemma_run_end(s: Seq<char>, p: int)
    requires
        0 <= p <= s.len(),
    ensures
        p <= run_end(s, p) <= s.len(),
        forall|i: int| p <= i < run_end(s, p) ==> is_ident_char(#[trigger] s[i]),
    decreases s.len() - p,
{
    if p < s.len() && is_ident_char(s[p]) {
        lemma_run_end(s, p + 1);
    }
}

/// An identifier: a letter or '_', then letters, digits and '_', the whole
/// run not being a keyword; then white space and comments.
pub fn ident(s: &Vec<char>, p: usize) -> (r: Option<(Ident, usize)>)
    requires
        p <= s@.len(),
    ensures
        match ident_spec(s@, p as int) {
            Some((v, q)) => r matches Some((id, q2)) && id@ == v && q2 == q,
            None => r is None,
        },
        r is Some <==> (p < s@.len() && is_ident_start(s@[p as int]) && !keywords().contains(
            s@.subrange(p as int, run_end(s@, p as int)),
        )),
        r matches Some((id, q)) ==> id@ == s@.subrange(p as int, run_end(s@, p as int)) && q == ws_end(
            s@,
            run_end(s@, p as int),
        ) && p < q <= s@.len(),
{
    let len = s.len();
    if p >= len {
        return None;
    }
    let c = s[p];
    if !(('a' <= c && c <= 'z') || ('A' <= c && c <= 'Z') || c == '_') {
        return None;
    }
    let mut id = String::new();
    let mut e = p;
    proof {
        lemma_run_end(s@, p as int);
    }
    while e < len && ident_char(s[e])
        invariant
            len == s@.len(),
            p <= e <= len,
            run_end(s@, e as int) == run_end(s@, p as int),
            id@ == s@.subrange(p as int, e as int),
        decreases len - e,
    {
        crate::text::push_char(&mut id, s[e]);
        proof {
            assert(id@ =~= s@.subrange(p as int, e + 1));
        }
        e = e + 1;
    }
    assert(run_end(s@, e as int) == e);
    if is_keyword(id.as_str()) {
        return None;
    }
    let q = comment_or_ws(s, e);
    Some((id, q))
}

} // verus!
