use vstd::prelude::*;

use crate::analyser::context::SymbolTable;
use crate::generator::arm::Offset;
use crate::ident_map::IdentMap;
use crate::text::push_str;

verus! {

pub type Ident = String;

#[derive(Debug, PartialEq)]
pub struct Program {
    /* User defined functions. */
    pub funcs: Vec<Func>,
    /* Program body. */
    pub statement: ScopedStat,
    /* Top level symbol table (root node in any given scope in this program). */
    pub symbol_table: SymbolTable,
}

#[derive(Debug, PartialEq)]
pub struct Func {
    pub ident: Ident,
    pub param_ids: Vec<Ident>,
    pub signature: FuncSig,
    pub body: Stat,
    pub params_st: SymbolTable,
    pub body_st: SymbolTable,
}

#[derive(PartialEq, Debug)]
pub struct FuncSig {
    pub param_types: Vec<Type>,
    pub return_type: Type,
}

#[derive(Debug, PartialEq)]
pub enum Stat {
    Skip,
    Declaration(Type, Ident, AssignRhs),
    Assignment(AssignLhs, Type, AssignRhs),
    Read(Type, AssignLhs),
    Free(TypedExpr),
    Return(Expr),
    Exit(Expr),
    Print(TypedExpr),
    Println(TypedExpr),
    Sequence(Box<Stat>, Box<Stat>),
    /* Scoping statements hold their own symbol table, which contains the
    variables declared within. */
    If(Expr, ScopedStat, ScopedStat),
    While(Expr, ScopedStat),
    /* Optional declaration, condition, body, assignment at the end of each
    iteration. */
    For(Box<Stat>, Expr, ScopedStat, Box<Stat>),
    Scope(ScopedStat),
}

#[derive(Debug, PartialEq)]
pub struct ScopedStat(pub SymbolTable, pub Box<Stat>);

impl ScopedStat {
    pub fn new(statement: Stat) -> (r: ScopedStat)
        ensures
            r.0.is_blank(),
            *r.1 == statement,
    {
        ScopedStat(SymbolTable::default_table(), Box::new(statement))
    }
}

#[derive(Debug, PartialEq)]
pub enum AssignLhs {
    Ident(Ident),
    ArrayElem(ArrayElem),
    PairElem(PairElem),
    StructElem(StructElem),
}

#[derive(Debug, PartialEq)]
pub enum AssignRhs {
    Expr(Expr),
}

impl AssignRhs {
    /* Expr => AssignRhs::Expr */
    pub fn from_expr(e: Expr) -> (r: AssignRhs)
        ensures
            r == AssignRhs::Expr(e),
    {
        AssignRhs::Expr(e)
    }
}

#[derive(Debug, PartialEq)]
pub struct StructLiter {
    pub id: Ident,
    /* Field names with the expression each is set to. */
    pub fields: Vec<(Ident, Expr)>,
}

/* Struct name (filled in by the analyser), expression, field name. */
#[derive(Debug, PartialEq)]
pub struct StructElem(pub Ident, pub Box<Expr>, pub Ident);

#[derive(Debug, PartialEq)]
pub enum PairElem {
    /* Type of the accessed element (filled in by the analyser). */
    Fst(TypedExpr),
    Snd(TypedExpr),
}

#[derive(PartialEq, Debug)]
pub enum Type {
    Int,
    Bool,
    Char,
    String,
    Any,
    Array(Box<Type>),
    Pair(Box<Type>, Box<Type>),
    Func(Box<FuncSig>),
    Custom(Ident),
}

/// Mathematical value of a type: identifiers by their characters.
pub enum SType {
    Int,
    Bool,
    Char,
    Str,
    Any,
    Array(Box<SType>),
    Pair(Box<SType>, Box<SType>),
    Func(Seq<SType>, Box<SType>),
    Custom(Seq<char>),
}

pub open spec fn type_view(t: Type) -> SType
    decreases t,
{
    match t {
        Type::Int => SType::Int,
        Type::Bool => SType::Bool,
        Type::Char => SType::Char,
        Type::String => SType::Str,
        Type::Any => SType::Any,
        Type::Array(e) => SType::Array(Box::new(type_view(*e))),
        Type::Pair(a, b) => SType::Pair(Box::new(type_view(*a)), Box::new(type_view(*b))),
        Type::Func(sig) => SType::Func(
            types_view(sig.param_types@),
            Box::new(type_view(sig.return_type)),
        ),
        Type::Custom(id) => SType::Custom(id@),
    }
}

pub open spec fn types_view(ts: Seq<Type>) -> Seq<SType>
    decreases ts,
{
    if ts.len() == 0 {
        Seq::empty()
    } else {
        types_view(ts.drop_last()).push(type_view(ts.last()))
    }
}

impl View for Type {
    type V = SType;

    open spec fn view(&self) -> SType {
        type_view(*self)
    }
}

/// How a type is written in messages.
pub open spec fn type_debug(t: SType) -> Seq<char>
    decreases t,
{
    match t {
        SType::Int => "Int"@,
        SType::Bool => "Bool"@,
        SType::Char => "Char"@,
        SType::Str => "String"@,
        SType::Any => "Any"@,
        SType::Array(e) => "Array("@ + type_debug(*e) + ")"@,
        SType::Pair(a, b) => "Pair("@ + type_debug(*a) + ", "@ + type_debug(*b) + ")"@,
        SType::Func(ps, r) => "Func(FuncSig { param_types: ["@ + types_debug(ps) + "], return_type: "@
            + type_debug(*r) + " })"@,
        SType::Custom(s) => "Custom(\""@ + s + "\")"@,
    }
}

/// A list of types written in messages, separated by ", ".
pub open spec fn types_debug(ts: Seq<SType>) -> Seq<char>
    decreases ts,
{
    if ts.len() == 0 {
        Seq::empty()
    } else if ts.len() == 1 {
        type_debug(ts[0])
    } else {
        types_debug(ts.drop_last()) + ", "@ + type_debug(ts.last())
    }
}

pub proof fn lemma_types_view_len(ts: Seq<Type>)
    ensures
        types_view(ts).len() == ts.len(),
    decreases ts.len(),
{
    if ts.len() > 0 {
        lemma_types_view_len(ts.drop_last());
    }
}

pub proof fn lemma_types_view_index(ts: Seq<Type>, i: int)
    requires
        0 <= i < ts.len(),
    ensures
        types_view(ts).len() == ts.len(),
        types_view(ts)[i] == type_view(ts[i]),
    decreases ts.len(),
{
    lemma_types_view_len(ts);
    if i < ts.len() - 1 {
        lemma_types_view_index(ts.drop_last(), i);
    }
}

/// Appending a type appends its view.
pub proof fn lemma_types_view_push(ts: Seq<Type>, t: Type)
    ensures
        types_view(ts.push(t)) == types_view(ts).push(type_view(t)),
{
    assert(ts.push(t).drop_last() =~= ts);
}

/// Two sequences of types with the same values elementwise have the same view.
pub proof fn lemma_types_view_ext(a: Seq<Type>, b: Seq<Type>)
    requires
        a.len() == b.len(),
        forall|i: int| 0 <= i < a.len() ==> type_view(#[trigger] a[i]) == type_view(b[i]),
    ensures
        types_view(a) == types_view(b),
    decreases a.len(),
{
    if a.len() > 0 {
        lemma_types_view_ext(a.drop_last(), b.drop_last());
    }
}

impl Type {
    /// A copy of this type with the same value.
    pub fn deep_clone(&self) -> (r: Type)
        ensures
            r@ == self@,
        decreases self,
    {
        match self {
            Type::Int => Type::Int,
            Type::Bool => Type::Bool,
            Type::Char => Type::Char,
            Type::String => Type::String,
            Type::Any => Type::Any,
            Type::Array(e) => Type::Array(Box::new((**e).deep_clone())),
            Type::Pair(a, b) => Type::Pair(
                Box::new((**a).deep_clone()),
                Box::new((**b).deep_clone()),
            ),
            Type::Func(sig) => Type::Func(Box::new((**sig).deep_clone())),
            Type::Custom(id) => Type::Custom(id.clone()),
        }
    }

    /// Appends how this type is written in messages.
    #[verifier::loop_isolation(false)]
    pub fn push_debug(&self, out: &mut String)
        ensures
            final(out)@ == old(out)@ + type_debug(self@),
        decreases self,
    {
        let ghost o = out@;
        match self {
            Type::Int => push_str(out, "Int"),
            Type::Bool => push_str(out, "Bool"),
            Type::Char => push_str(out, "Char"),
            Type::String => push_str(out, "String"),
            Type::Any => push_str(out, "Any"),
            Type::Array(e) => {
                push_str(out, "Array(");
                (**e).push_debug(out);
                push_str(out, ")");
                assert(out@ =~= o + type_debug(self@));
            },
            Type::Pair(a, b) => {
                push_str(out, "Pair(");
                (**a).push_debug(out);
                push_str(out, ", ");
                (**b).push_debug(out);
                push_str(out, ")");
                assert(out@ =~= o + type_debug(self@));
            },
            Type::Func(sig) => {
                push_str(out, "Func(FuncSig { param_types: [");
                let ps = &sig.param_types;
                let mut i: usize = 0;
                while i < ps.len()
                    invariant
                        i <= ps@.len(),
                        out@ == o + "Func(FuncSig { param_types: ["@ + types_debug(
                            types_view(ps@.take(i as int)),
                        ),
                    decreases ps@.len() - i,
                {
                    proof {
                        assert(decreases_to!(*self => **sig));
                        assert(decreases_to!(**sig => sig.param_types));
                        assert(decreases_to!(sig.param_types => sig.param_types@));
                        assert(decreases_to!(sig.param_types@ => sig.param_types@[i as int]));
                    }
                    let ghost before = out@;
                    if i > 0 {
                        push_str(out, ", ");
                    }
                    ps[i].push_debug(out);
                    proof {
                        let t = ps@.take(i as int);
                        let t1 = ps@.take(i + 1);
                        assert(t1.drop_last() =~= t);
                        lemma_types_view_len(t);
                        lemma_types_view_len(t1);
                        assert(types_view(t1) == types_view(t).push(type_view(ps@[i as int])));
                        if i == 0 {
                            assert(types_view(t1).len() == 1);
                            assert(types_view(t1)[0] == type_view(ps@[0]));
                            assert(types_debug(types_view(t1)) == type_debug(type_view(ps@[0])));
                        } else {
                            assert(types_view(t1).drop_last() =~= types_view(t));
                        }
                    }
                    i = i + 1;
                }
                push_str(out, "], return_type: ");
                sig.return_type.push_debug(out);
                push_str(out, " })");
                proof {
                    assert(ps@.take(ps@.len() as int) =~= ps@);
                }
                assert(out@ =~= o + type_debug(self@));
            },
            Type::Custom(id) => {
                push_str(out, "Custom(\"");
                push_str(out, id.as_str());
                push_str(out, "\")");
                assert(out@ =~= o + type_debug(self@));
            },
        }
    }

    /* Returns how many bytes are required to store a value of this type. */
    pub fn size(&self) -> (r: i32)
        requires
            !(self is Any),
        ensures
            r == spec_size(*self),
    {
        match self {
            Type::Bool | Type::Char => 1,
            _ => 4,
        }
    }

    /// Whether this type is `Any`.
    pub fn is_any(&self) -> (r: bool)
        ensures
            r == (self@ == SType::Any),
    {
        match self {
            Type::Any => true,
            _ => false,
        }
    }
}

pub open spec fn spec_size(t: Type) -> i32 {
    match t {
        Type::Bool | Type::Char => 1,
        _ => 4,
    }
}

impl FuncSig {
    pub fn deep_clone(&self) -> (r: FuncSig)
        ensures
            types_view(r.param_types@) == types_view(self.param_types@),
            r.return_type@ == self.return_type@,
        decreases self,
    {
        let mut ps: Vec<Type> = Vec::new();
        let mut i: usize = 0;
        while i < self.param_types.len()
            invariant
                i <= self.param_types@.len(),
                ps@.len() == i,
                forall|j: int|
                    0 <= j < i ==> type_view(#[trigger] ps@[j]) == type_view(self.param_types@[j]),
            decreases self.param_types@.len() - i,
        {
            proof {
                assert(decreases_to!(self => self.param_types));
                assert(decreases_to!(self.param_types => self.param_types@));
                assert(decreases_to!(self.param_types@ => self.param_types@[i as int]));
            }
            ps.push(self.param_types[i].deep_clone());
            i = i + 1;
        }
        proof {
            lemma_types_view_ext(ps@, self.param_types@);
        }
        FuncSig { param_types: ps, return_type: self.return_type.deep_clone() }
    }
}

impl Clone for Type {
    fn clone(&self) -> (r: Type)
        ensures
            r@ == self@,
    {
        self.deep_clone()
    }
}

impl Clone for FuncSig {
    fn clone(&self) -> (r: FuncSig)
        ensures
            types_view(r.param_types@) == types_view(self.param_types@),
            r.return_type@ == self.return_type@,
    {
        self.deep_clone()
    }
}

impl Default for Type {
    fn default() -> (r: Type)
        ensures
            r == Type::Any,
    {
        Type::Any
    }
}

/// Mathematical value of a struct definition: each field's type and offset.
pub struct SStruct {
    pub fields: Map<Seq<char>, (SType, i32)>,
    pub count: nat,
    pub size: i32,
}

pub open spec fn fields_view(m: IdentMap<(Type, Offset)>) -> Map<Seq<char>, (SType, i32)> {
    Map::new(
        |k: Seq<char>| m.has_key(k),
        |k: Seq<char>| (m.spec_get(k).unwrap().0@, m.spec_get(k).unwrap().1),
    )
}

impl View for Struct {
    type V = SStruct;

    open spec fn view(&self) -> SStruct {
        SStruct { fields: fields_view(self.fields), count: self.fields.spec_len(), size: self.size }
    }
}

#[derive(Debug, PartialEq, Clone)]
pub struct Struct {
    /* Type and offset of each field of this struct. */
    pub fields: IdentMap<(Type, Offset)>,
    /* Size in bytes of the whole struct. */
    pub size: Offset,
}

impl Struct {
    /// A copy of this definition with the same value.
    pub fn deep_clone(&self) -> (r: Struct)
        ensures
            r@ == self@,
    {
        let mut fields: IdentMap<(Type, Offset)> = IdentMap::new();
        self.fields.lemma_distinct();
        let n = self.fields.len();
        let mut i: usize = 0;
        while i < n
            invariant
                n == self.fields.spec_len(),
                i <= n,
                fields.spec_len() == i,
                self.fields.keys_distinct(),
                forall|k: Seq<char>|
                    #![trigger fields.spec_get(k)]
                    (exists|j: int| 0 <= j < i && self.fields.spec_entries()[j].0 == k) ==> {
                        &&& fields.spec_get(k) is Some
                        &&& self.fields.spec_get(k) is Some
                        &&& fields.spec_get(k).unwrap().0@ == self.fields.spec_get(k).unwrap().0@
                        &&& fields.spec_get(k).unwrap().1 == self.fields.spec_get(k).unwrap().1
                    },
                forall|k: Seq<char>|
                    #![trigger fields.spec_get(k)]
                    !(exists|j: int| 0 <= j < i && self.fields.spec_entries()[j].0 == k)
                        ==> fields.spec_get(k) is None,
            decreases n - i,
        {
            let (name, entry) = self.fields.entry_at(i);
            proof {
                self.fields.lemma_get_at(i as int);
                let k = self.fields.spec_entries()[i as int].0;
                if exists|j: int| 0 <= j < i && self.fields.spec_entries()[j].0 == k {
                    let j = choose|j: int| 0 <= j < i && self.fields.spec_entries()[j].0 == k;
                    assert(self.fields.spec_entries()[j].0 != self.fields.spec_entries()[i as int].0);
                }
                assert(fields.spec_get(k) is None);
            }
            fields.insert(name.clone(), (entry.0.deep_clone(), entry.1));
            i = i + 1;
        }
        proof {
            assert forall|k: Seq<char>| #[trigger] fields.has_key(k) == self.fields.has_key(k) by {
                if self.fields.has_key(k) {
                    let j = self.fields.key_index(k);
                    assert(fields.spec_get(k) is Some);
                } else {
                    if fields.spec_get(k) is Some {
                        assert(exists|j: int| 0 <= j < n && self.fields.spec_entries()[j].0 == k);
                    }
                }
            }
            assert(fields_view(fields) =~= fields_view(self.fields));
        }
        Struct { fields, size: self.size }
    }

    pub fn new() -> (r: Struct)
        ensures
            r.fields.spec_len() == 0,
            forall|k: Seq<char>| r.fields.spec_get(k) is None,
            r.size == 0,
    {
        Struct { fields: IdentMap::new(), size: 0 }
    }

    /// Adds a field at the end of the struct. The struct grows by the size of
    /// the field's type; `None` when a field of that name was already there
    /// (it is replaced).
    pub fn add_field(&mut self, t: Type, id: Ident) -> (r: Option<Offset>)
        requires
            !(t is Any),
            old(self).size + spec_size(t) <= i32::MAX,
        ensures
            final(self).size == old(self).size + spec_size(t),
            final(self).fields.spec_get(id@) == Some((t, old(self).size)),
            forall|k: Seq<char>|
                k != id@ ==> final(self).fields.spec_get(k) == old(self).fields.spec_get(k),
            r is None <==> old(self).fields.has_key(id@),
            r matches Some(o) ==> o == old(self).size,
    {
        let offset = self.size;
        /* Grow size of structs by size of this type. */
        self.size = self.size + t.size();
        match self.fields.insert(id, (t, offset)) {
            Some(_) => None,
            None => Some(offset),
        }
    }
}

#[derive(Debug, PartialEq)]
pub struct TypedExpr(pub Type, pub Expr);

impl TypedExpr {
    pub fn new(expr: Expr) -> (r: Self)
        ensures
            r.0 == Type::Any,
            r.1 == expr,
    {
        TypedExpr(Type::Any, expr)
    }
}

#[derive(Debug, PartialEq)]
pub enum Expr {
    /* Literal values. */
    IntLiter(i32),
    BoolLiter(bool),
    CharLiter(char),
    StrLiter(String),
    NullPairLiter,
    PairLiter(Box<TypedExpr>, Box<TypedExpr>),
    ArrayLiter(ArrayLiter),
    StructLiter(StructLiter),
    /* Identifiers. */
    Ident(Ident),
    /* Element access. */
    ArrayElem(ArrayElem),
    StructElem(StructElem),
    PairElem(Box<PairElem>),
    /* Operator application. */
    UnaryApp(UnaryOper, Box<Expr>),
    BinaryApp(Box<Expr>, BinaryOper, Box<Expr>),
    /* Function calls. */
    Call(Type, Box<Expr>, Vec<Expr>),
}

/// Mathematical value of an expression: names and strings by their
/// characters, types by their values.
pub enum SExpr {
    IntLiter(i32),
    BoolLiter(bool),
    CharLiter(char),
    StrLiter(Seq<char>),
    NullPairLiter,
    PairLiter(SType, Box<SExpr>, SType, Box<SExpr>),
    ArrayLiter(SType, Seq<SExpr>),
    StructLiter(Seq<char>, Seq<(Seq<char>, SExpr)>),
    Ident(Seq<char>),
    ArrayElem(Seq<char>, Seq<SExpr>),
    StructElem(Seq<char>, Box<SExpr>, Seq<char>),
    /* Whether the first element is taken, its type, the pair. */
    PairElem(bool, SType, Box<SExpr>),
    UnaryApp(UnaryOper, Box<SExpr>),
    BinaryApp(Box<SExpr>, BinaryOper, Box<SExpr>),
    Call(SType, Box<SExpr>, Seq<SExpr>),
}

pub open spec fn expr_view(e: Expr) -> SExpr
    decreases e,
{
    match e {
        Expr::IntLiter(n) => SExpr::IntLiter(n),
        Expr::BoolLiter(b) => SExpr::BoolLiter(b),
        Expr::CharLiter(c) => SExpr::CharLiter(c),
        Expr::StrLiter(st) => SExpr::StrLiter(st@),
        Expr::NullPairLiter => SExpr::NullPairLiter,
        Expr::PairLiter(a, b) => SExpr::PairLiter(a.0@, Box::new(expr_view(a.1)), b.0@, Box::new(expr_view(b.1))),
        Expr::ArrayLiter(al) => SExpr::ArrayLiter(al.0@, exprs_view(al.1@)),
        Expr::StructLiter(sl) => SExpr::StructLiter(sl.id@, field_exprs_view(sl.fields@)),
        Expr::Ident(id) => SExpr::Ident(id@),
        Expr::ArrayElem(ae) => SExpr::ArrayElem(ae.0@, exprs_view(ae.1@)),
        Expr::StructElem(se) => SExpr::StructElem(se.0@, Box::new(expr_view(*se.1)), se.2@),
        Expr::PairElem(pe) => match *pe {
            PairElem::Fst(te) => SExpr::PairElem(true, te.0@, Box::new(expr_view(te.1))),
            PairElem::Snd(te) => SExpr::PairElem(false, te.0@, Box::new(expr_view(te.1))),
        },
        Expr::UnaryApp(op, x) => SExpr::UnaryApp(op, Box::new(expr_view(*x))),
        Expr::BinaryApp(a, op, b) => SExpr::BinaryApp(Box::new(expr_view(*a)), op, Box::new(expr_view(*b))),
        Expr::Call(t, f, args) => SExpr::Call(t@, Box::new(expr_view(*f)), exprs_view(args@)),
    }
}

pub open spec fn exprs_view(es: Seq<Expr>) -> Seq<SExpr>
    decreases es,
{
    if es.len() == 0 {
        Seq::empty()
    } else {
        exprs_view(es.drop_last()).push(expr_view(es.last()))
    }
}

pub open spec fn field_exprs_view(fs: Seq<(Ident, Expr)>) -> Seq<(Seq<char>, SExpr)>
    decreases fs,
{
    if fs.len() == 0 {
        Seq::empty()
    } else {
        field_exprs_view(fs.drop_last()).push((fs.last().0@, expr_view(fs.last().1)))
    }
}

/// The structure of an expression without what analysis fills in or
/// renames: every type becomes the unknown type, and the names of
/// variables, arrays and structs are dropped.
pub open spec fn expr_skel(e: Expr) -> SExpr
    decreases e,
{
    match e {
        Expr::IntLiter(n) => SExpr::IntLiter(n),
        Expr::BoolLiter(b) => SExpr::BoolLiter(b),
        Expr::CharLiter(c) => SExpr::CharLiter(c),
        Expr::StrLiter(st) => SExpr::StrLiter(st@),
        Expr::NullPairLiter => SExpr::NullPairLiter,
        Expr::PairLiter(a, b) => SExpr::PairLiter(
            SType::Any,
            Box::new(expr_skel(a.1)),
            SType::Any,
            Box::new(expr_skel(b.1)),
        ),
        Expr::ArrayLiter(al) => SExpr::ArrayLiter(SType::Any, exprs_skel(al.1@)),
        Expr::StructLiter(sl) => SExpr::StructLiter(Seq::empty(), fields_skel(sl.fields@)),
        Expr::Ident(_) => SExpr::Ident(Seq::empty()),
        Expr::ArrayElem(ae) => SExpr::ArrayElem(Seq::empty(), exprs_skel(ae.1@)),
        Expr::StructElem(se) => SExpr::StructElem(Seq::empty(), Box::new(expr_skel(*se.1)), se.2@),
        Expr::PairElem(pe) => match *pe {
            PairElem::Fst(te) => SExpr::PairElem(true, SType::Any, Box::new(expr_skel(te.1))),
            PairElem::Snd(te) => SExpr::PairElem(false, SType::Any, Box::new(expr_skel(te.1))),
        },
        Expr::UnaryApp(op, x) => SExpr::UnaryApp(op, Box::new(expr_skel(*x))),
        Expr::BinaryApp(a, op, b) => SExpr::BinaryApp(Box::new(expr_skel(*a)), op, Box::new(expr_skel(*b))),
        Expr::Call(_, f, args) => SExpr::Call(SType::Any, Box::new(expr_skel(*f)), exprs_skel(args@)),
    }
}

pub open spec fn exprs_skel(es: Seq<Expr>) -> Seq<SExpr>
    decreases es,
{
    if es.len() == 0 {
        Seq::empty()
    } else {
        exprs_skel(es.drop_last()).push(expr_skel(es.last()))
    }
}

pub open spec fn fields_skel(fs: Seq<(Ident, Expr)>) -> Seq<(Seq<char>, SExpr)>
    decreases fs,
{
    if fs.len() == 0 {
        Seq::empty()
    } else {
        fields_skel(fs.drop_last()).push((fs.last().0@, expr_skel(fs.last().1)))
    }
}

/// Lists of expressions with the same structures one by one have the same
/// structure.
pub proof fn lemma_exprs_skel_ext(a: Seq<Expr>, b: Seq<Expr>)
    requires
        a.len() == b.len(),
        forall|i: int| 0 <= i < a.len() ==> expr_skel(#[trigger] a[i]) == expr_skel(b[i]),
    ensures
        exprs_skel(a) == exprs_skel(b),
    decreases a.len(),
{
    if a.len() > 0 {
        lemma_exprs_skel_ext(a.drop_last(), b.drop_last());
        assert(a.last() == a[a.len() - 1]);
    }
}

/// As `lemma_exprs_skel_ext`, for the fields of a struct literal.
pub proof fn lemma_fields_skel_ext(a: Seq<(Ident, Expr)>, b: Seq<(Ident, Expr)>)
    requires
        a.len() == b.len(),
        forall|i: int|
            0 <= i < a.len() ==> (#[trigger] a[i]).0@ == b[i].0@ && expr_skel(a[i].1) == expr_skel(b[i].1),
    ensures
        fields_skel(a) == fields_skel(b),
    decreases a.len(),
{
    if a.len() > 0 {
        lemma_fields_skel_ext(a.drop_last(), b.drop_last());
        assert(a.last() == a[a.len() - 1]);
    }
}

/// The syntax of an assignment's left hand side.
pub enum SLhs {
    Ident(Seq<char>),
    ArrayElem(Seq<char>, Seq<SExpr>),
    /* Whether the first element is taken, its type, the pair. */
    PairElem(bool, SType, SExpr),
    StructElem(Seq<char>, SExpr, Seq<char>),
}

/// The syntax of a statement: its parts by value, scopes by their
/// statements, without the tables analysis fills in.
pub enum SStat {
    Skip,
    Declaration(SType, Seq<char>, SExpr),
    Assignment(SLhs, SType, SExpr),
    Read(SType, SLhs),
    Free(SType, SExpr),
    Return(SExpr),
    Exit(SExpr),
    Print(SType, SExpr),
    Println(SType, SExpr),
    Sequence(Box<SStat>, Box<SStat>),
    If(SExpr, Box<SStat>, Box<SStat>),
    While(SExpr, Box<SStat>),
    For(Box<SStat>, SExpr, Box<SStat>, Box<SStat>),
    Scope(Box<SStat>),
}

/// The structure of a left hand side without what analysis fills in or
/// renames (see `expr_skel`).
pub open spec fn lhs_skel(l: AssignLhs) -> SLhs {
    match l {
        AssignLhs::Ident(_) => SLhs::Ident(Seq::empty()),
        AssignLhs::ArrayElem(ae) => SLhs::ArrayElem(Seq::empty(), exprs_skel(ae.1@)),
        AssignLhs::PairElem(PairElem::Fst(te)) => SLhs::PairElem(true, SType::Any, expr_skel(te.1)),
        AssignLhs::PairElem(PairElem::Snd(te)) => SLhs::PairElem(false, SType::Any, expr_skel(te.1)),
        AssignLhs::StructElem(se) => SLhs::StructElem(Seq::empty(), expr_skel(*se.1), se.2@),
    }
}

pub open spec fn rhs_skel(r: AssignRhs) -> SExpr {
    match r {
        AssignRhs::Expr(e) => expr_skel(e),
    }
}

/// The structure of a statement without what analysis fills in or renames:
/// the types it stores, the names of the variables it declares or uses,
/// and the tables of its scopes.
pub open spec fn stat_skel(s: Stat) -> SStat
    decreases s,
{
    match s {
        Stat::Skip => SStat::Skip,
        Stat::Declaration(t, _, r) => SStat::Declaration(t@, Seq::empty(), rhs_skel(r)),
        Stat::Assignment(l, _, r) => SStat::Assignment(lhs_skel(l), SType::Any, rhs_skel(r)),
        Stat::Read(_, l) => SStat::Read(SType::Any, lhs_skel(l)),
        Stat::Free(te) => SStat::Free(SType::Any, expr_skel(te.1)),
        Stat::Return(e) => SStat::Return(expr_skel(e)),
        Stat::Exit(e) => SStat::Exit(expr_skel(e)),
        Stat::Print(te) => SStat::Print(SType::Any, expr_skel(te.1)),
        Stat::Println(te) => SStat::Println(SType::Any, expr_skel(te.1)),
        Stat::Sequence(a, b) => SStat::Sequence(Box::new(stat_skel(*a)), Box::new(stat_skel(*b))),
        Stat::If(c, x, y) => SStat::If(expr_skel(c), Box::new(stat_skel(*x.1)), Box::new(stat_skel(*y.1))),
        Stat::While(c, b) => SStat::While(expr_skel(c), Box::new(stat_skel(*b.1))),
        Stat::For(a, c, b, d) => SStat::For(
            Box::new(stat_skel(*a)),
            expr_skel(c),
            Box::new(stat_skel(*b.1)),
            Box::new(stat_skel(*d)),
        ),
        Stat::Scope(b) => SStat::Scope(Box::new(stat_skel(*b.1))),
    }
}

/// A function without what analysis fills in or renames: its name, its
/// type, how many parameters it names, and the structure of its body.
pub open spec fn func_skel(f: Func) -> (Seq<char>, SType, nat, SStat) {
    (
        f.ident@,
        SType::Func(types_view(f.signature.param_types@), Box::new(f.signature.return_type@)),
        f.param_ids@.len(),
        stat_skel(f.body),
    )
}

pub open spec fn lhs_shape(l: AssignLhs) -> SLhs {
    match l {
        AssignLhs::Ident(id) => SLhs::Ident(id@),
        AssignLhs::ArrayElem(ae) => SLhs::ArrayElem(ae.0@, exprs_view(ae.1@)),
        AssignLhs::PairElem(PairElem::Fst(te)) => SLhs::PairElem(true, te.0@, te.1@),
        AssignLhs::PairElem(PairElem::Snd(te)) => SLhs::PairElem(false, te.0@, te.1@),
        AssignLhs::StructElem(se) => SLhs::StructElem(se.0@, (*se.1)@, se.2@),
    }
}

pub open spec fn rhs_shape(r: AssignRhs) -> SExpr {
    match r {
        AssignRhs::Expr(e) => e@,
    }
}

pub open spec fn stat_shape(s: Stat) -> SStat
    decreases s,
{
    match s {
        Stat::Skip => SStat::Skip,
        Stat::Declaration(t, id, r) => SStat::Declaration(t@, id@, rhs_shape(r)),
        Stat::Assignment(l, t, r) => SStat::Assignment(lhs_shape(l), t@, rhs_shape(r)),
        Stat::Read(t, l) => SStat::Read(t@, lhs_shape(l)),
        Stat::Free(te) => SStat::Free(te.0@, te.1@),
        Stat::Return(e) => SStat::Return(e@),
        Stat::Exit(e) => SStat::Exit(e@),
        Stat::Print(te) => SStat::Print(te.0@, te.1@),
        Stat::Println(te) => SStat::Println(te.0@, te.1@),
        Stat::Sequence(a, b) => SStat::Sequence(Box::new(stat_shape(*a)), Box::new(stat_shape(*b))),
        Stat::If(c, x, y) => SStat::If(c@, Box::new(stat_shape(*x.1)), Box::new(stat_shape(*y.1))),
        Stat::While(c, b) => SStat::While(c@, Box::new(stat_shape(*b.1))),
        Stat::For(a, c, b, d) => SStat::For(
            Box::new(stat_shape(*a)),
            c@,
            Box::new(stat_shape(*b.1)),
            Box::new(stat_shape(*d)),
        ),
        Stat::Scope(b) => SStat::Scope(Box::new(stat_shape(*b.1))),
    }
}

impl View for Expr {
    type V = SExpr;

    open spec fn view(&self) -> SExpr {
        expr_view(*self)
    }
}

impl Expr {
    pub fn from_int(n: i32) -> (r: Expr)
        ensures
            r == Expr::IntLiter(n),
    {
        Expr::IntLiter(n)
    }
}

#[derive(PartialEq, Eq, Debug, Clone, Copy)]
pub enum UnaryOper {
    Bang,
    Neg,
    Len,
    Ord,
    Chr,
}

#[derive(PartialEq, Eq, Debug, Clone, Copy)]
pub enum BinaryOper {
    Mul,
    Div,
    Mod,
    Add,
    Sub,
    Gt,
    Gte,
    Lt,
    Lte,
    Eq,
    Neq,
    And,
    Or,
}

#[derive(Debug, PartialEq)]
pub struct ArrayElem(pub Ident, pub Vec<Expr>);

#[derive(Debug, PartialEq)]
pub struct ArrayLiter(pub Type, pub Vec<Expr>);

/// The parts of a pair element: whether it is the first, the type and the
/// expression.
pub open spec fn pair_elem_shape(pe: PairElem) -> (bool, SType, SExpr) {
    match pe {
        PairElem::Fst(te) => (true, te.0@, te.1@),
        PairElem::Snd(te) => (false, te.0@, te.1@),
    }
}

/// Appending an expression appends its view.
pub proof fn lemma_exprs_view_push(es: Seq<Expr>, x: Expr)
    ensures
        exprs_view(es.push(x)) == exprs_view(es).push(x@),
{
    assert(es.push(x).drop_last() =~= es);
}

/// Appending a named expression appends its view.
pub proof fn lemma_field_exprs_view_push(fs: Seq<(Ident, Expr)>, x: (Ident, Expr))
    ensures
        field_exprs_view(fs.push(x)) == field_exprs_view(fs).push((x.0@, x.1@)),
{
    assert(fs.push(x).drop_last() =~= fs);
}

/* Copies of syntax trees. */

pub fn clone_exprs(v: &Vec<Expr>) -> (r: Vec<Expr>)
    ensures
        r@.len() == v@.len(),
        exprs_view(r@) == exprs_view(v@),
    decreases v,
{
    let mut out: Vec<Expr> = Vec::new();
    let mut i: usize = 0;
    proof {
        assert(v@.take(0) =~= Seq::<Expr>::empty());
    }
    while i < v.len()
        invariant
            i <= v@.len(),
            out@.len() == i,
            exprs_view(out@) == exprs_view(v@.take(i as int)),
        decreases v@.len() - i,
    {
        proof {
            assert(decreases_to!(v => v@));
            assert(decreases_to!(v@ => v@[i as int]));
        }
        let e = clone_expr(&v[i]);
        proof {
            lemma_exprs_view_push(out@, e);
            lemma_exprs_view_push(v@.take(i as int), v@[i as int]);
            assert(v@.take(i + 1) =~= v@.take(i as int).push(v@[i as int]));
        }
        out.push(e);
        i = i + 1;
    }
    proof {
        assert(v@.take(v@.len() as int) =~= v@);
    }
    out
}

pub fn clone_typed_expr(te: &TypedExpr) -> (r: TypedExpr)
    ensures
        r.0@ == te.0@,
        r.1@ == te.1@,
    decreases te,
{
    TypedExpr(te.0.deep_clone(), clone_expr(&te.1))
}

pub fn clone_fields(v: &Vec<(Ident, Expr)>) -> (r: Vec<(Ident, Expr)>)
    ensures
        r@.len() == v@.len(),
        forall|i: int| 0 <= i < v@.len() ==> #[trigger] r@[i].0@ == v@[i].0@,
        field_exprs_view(r@) == field_exprs_view(v@),
    decreases v,
{
    let mut out: Vec<(Ident, Expr)> = Vec::new();
    let mut i: usize = 0;
    proof {
        assert(v@.take(0) =~= Seq::<(Ident, Expr)>::empty());
    }
    while i < v.len()
        invariant
            i <= v@.len(),
            out@.len() == i,
            forall|j: int| 0 <= j < i ==> #[trigger] out@[j].0@ == v@[j].0@,
            field_exprs_view(out@) == field_exprs_view(v@.take(i as int)),
        decreases v@.len() - i,
    {
        proof {
            assert(decreases_to!(v => v@));
            assert(decreases_to!(v@ => v@[i as int]));
            assert(decreases_to!(v@[i as int] => v@[i as int].1));
        }
        let x = (v[i].0.clone(), clone_expr(&v[i].1));
        proof {
            lemma_field_exprs_view_push(out@, x);
            lemma_field_exprs_view_push(v@.take(i as int), v@[i as int]);
            assert(v@.take(i + 1) =~= v@.take(i as int).push(v@[i as int]));
        }
        out.push(x);
        i = i + 1;
    }
    proof {
        assert(v@.take(v@.len() as int) =~= v@);
    }
    out
}

pub fn clone_pair_elem(p: &PairElem) -> (r: PairElem)
    ensures
        pair_elem_shape(r) == pair_elem_shape(*p),
    decreases p,
{
    match p {
        PairElem::Fst(te) => PairElem::Fst(clone_typed_expr(te)),
        PairElem::Snd(te) => PairElem::Snd(clone_typed_expr(te)),
    }
}

pub fn clone_expr(e: &Expr) -> (r: Expr)
    ensures
        r@ == e@,
    decreases e,
{
    match e {
        Expr::IntLiter(n) => Expr::IntLiter(*n),
        Expr::BoolLiter(b) => Expr::BoolLiter(*b),
        Expr::CharLiter(c) => Expr::CharLiter(*c),
        Expr::StrLiter(s) => Expr::StrLiter(s.clone()),
        Expr::NullPairLiter => Expr::NullPairLiter,
        Expr::PairLiter(a, b) => Expr::PairLiter(
            Box::new(clone_typed_expr(&**a)),
            Box::new(clone_typed_expr(&**b)),
        ),
        Expr::ArrayLiter(ArrayLiter(t, es)) => Expr::ArrayLiter(
            ArrayLiter(t.deep_clone(), clone_exprs(es)),
        ),
        Expr::StructLiter(sl) => Expr::StructLiter(
            StructLiter { id: sl.id.clone(), fields: clone_fields(&sl.fields) },
        ),
        Expr::Ident(id) => Expr::Ident(id.clone()),
        Expr::ArrayElem(ArrayElem(id, es)) => Expr::ArrayElem(ArrayElem(id.clone(), clone_exprs(es))),
        Expr::StructElem(StructElem(s, x, f)) => Expr::StructElem(
            StructElem(s.clone(), Box::new(clone_expr(&**x)), f.clone()),
        ),
        Expr::PairElem(p) => Expr::PairElem(Box::new(clone_pair_elem(&**p))),
        Expr::UnaryApp(op, x) => Expr::UnaryApp(*op, Box::new(clone_expr(&**x))),
        Expr::BinaryApp(a, op, b) => Expr::BinaryApp(
            Box::new(clone_expr(&**a)),
            *op,
            Box::new(clone_expr(&**b)),
        ),
        Expr::Call(t, f, args) => Expr::Call(t.deep_clone(), Box::new(clone_expr(&**f)), clone_exprs(args)),
    }
}

pub fn clone_assign_lhs(l: &AssignLhs) -> (r: AssignLhs)
    ensures
        lhs_shape(r) == lhs_shape(*l),
{
    match l {
        AssignLhs::Ident(id) => AssignLhs::Ident(id.clone()),
        AssignLhs::ArrayElem(ArrayElem(id, es)) => AssignLhs::ArrayElem(
            ArrayElem(id.clone(), clone_exprs(es)),
        ),
        AssignLhs::PairElem(p) => AssignLhs::PairElem(clone_pair_elem(p)),
        AssignLhs::StructElem(StructElem(s, x, f)) => AssignLhs::StructElem(
            StructElem(s.clone(), Box::new(clone_expr(&**x)), f.clone()),
        ),
    }
}

pub fn clone_assign_rhs(r: &AssignRhs) -> (o: AssignRhs)
    ensures
        rhs_shape(o) == rhs_shape(*r),
{
    match r {
        AssignRhs::Expr(e) => AssignRhs::Expr(clone_expr(e)),
    }
}

pub fn clone_stat(s: &Stat) -> (r: Stat)
    ensures
        stat_shape(r) == stat_shape(*s),
    decreases s,
{
    match s {
        Stat::Skip => Stat::Skip,
        Stat::Declaration(t, id, rhs) => Stat::Declaration(t.deep_clone(), id.clone(), clone_assign_rhs(rhs)),
        Stat::Assignment(lhs, t, rhs) => Stat::Assignment(
            clone_assign_lhs(lhs),
            t.deep_clone(),
            clone_assign_rhs(rhs),
        ),
        Stat::Read(t, lhs) => Stat::Read(t.deep_clone(), clone_assign_lhs(lhs)),
        Stat::Free(te) => Stat::Free(clone_typed_expr(te)),
        Stat::Return(e) => Stat::Return(clone_expr(e)),
        Stat::Exit(e) => Stat::Exit(clone_expr(e)),
        Stat::Print(te) => Stat::Print(clone_typed_expr(te)),
        Stat::Println(te) => Stat::Println(clone_typed_expr(te)),
        Stat::Sequence(a, b) => Stat::Sequence(Box::new(clone_stat(&**a)), Box::new(clone_stat(&**b))),
        Stat::If(c, a, b) => Stat::If(clone_expr(c), clone_scoped_stat(a), clone_scoped_stat(b)),
        Stat::While(c, b) => Stat::While(clone_expr(c), clone_scoped_stat(b)),
        Stat::For(d, c, b, a) => Stat::For(
            Box::new(clone_stat(&**d)),
            clone_expr(c),
            clone_scoped_stat(b),
            Box::new(clone_stat(&**a)),
        ),
        Stat::Scope(b) => Stat::Scope(clone_scoped_stat(b)),
    }
}

pub fn clone_scoped_stat(s: &ScopedStat) -> (r: ScopedStat)
    ensures
        stat_shape(*r.1) == stat_shape(*s.1),
    decreases s,
{
    ScopedStat(s.0.clone(), Box::new(clone_stat(&*s.1)))
}

impl Clone for Expr {
    fn clone(&self) -> (r: Self)
        ensures
            r@ == self@,
    {
        clone_expr(self)
    }
}

impl Clone for TypedExpr {
    fn clone(&self) -> (r: Self)
        ensures
            r.0@ == self.0@,
            r.1@ == self.1@,
    {
        clone_typed_expr(self)
    }
}

impl Clone for Stat {
    fn clone(&self) -> (r: Self)
        ensures
            stat_shape(r) == stat_shape(*self),
    {
        clone_stat(self)
    }
}

impl Clone for ScopedStat {
    fn clone(&self) -> (r: Self)
        ensures
            stat_shape(*r.1) == stat_shape(*self.1),
    {
        clone_scoped_stat(self)
    }
}

impl Clone for AssignLhs {
    fn clone(&self) -> (r: Self)
        ensures
            lhs_shape(r) == lhs_shape(*self),
    {
        clone_assign_lhs(self)
    }
}

impl Clone for AssignRhs {
    fn clone(&self) -> (r: Self)
        ensures
            rhs_shape(r) == rhs_shape(*self),
    {
        clone_assign_rhs(self)
    }
}

impl Clone for PairElem {
    fn clone(&self) -> (r: Self)
        ensures
            pair_elem_shape(r) == pair_elem_shape(*self),
    {
        clone_pair_elem(self)
    }
}

impl Clone for ArrayElem {
    fn clone(&self) -> (r: Self)
        ensures
            r.0@ == self.0@,
            exprs_view(r.1@) == exprs_view(self.1@),
    {
        ArrayElem(self.0.clone(), clone_exprs(&self.1))
    }
}

impl Clone for ArrayLiter {
    fn clone(&self) -> (r: Self)
        ensures
            r.0@ == self.0@,
            exprs_view(r.1@) == exprs_view(self.1@),
    {
        ArrayLiter(self.0.deep_clone(), clone_exprs(&self.1))
    }
}

impl Clone for StructLiter {
    fn clone(&self) -> (r: Self)
        ensures
            r.id@ == self.id@,
            field_exprs_view(r.fields@) == field_exprs_view(self.fields@),
    {
        StructLiter { id: self.id.clone(), fields: clone_fields(&self.fields) }
    }
}

impl Clone for StructElem {
    fn clone(&self) -> (r: Self)
        ensures
            r.0@ == self.0@,
            (*r.1)@ == (*self.1)@,
            r.2@ == self.2@,
    {
        StructElem(self.0.clone(), Box::new(clone_expr(&*self.1)), self.2.clone())
    }
}

impl Clone for Func {
    fn clone(&self) -> (r: Self)
        ensures
            r.ident@ == self.ident@,
            r.param_ids@.len() == self.param_ids@.len(),
            forall|i: int| 0 <= i < self.param_ids@.len() ==> #[trigger] r.param_ids@[i]@ == self.param_ids@[i]@,
            types_view(r.signature.param_types@) == types_view(self.signature.param_types@),
            r.signature.return_type@ == self.signature.return_type@,
            stat_shape(r.body) == stat_shape(self.body),
    {
        let mut ids: Vec<Ident> = Vec::new();
        let mut i: usize = 0;
        while i < self.param_ids.len()
            invariant
                i <= self.param_ids@.len(),
                ids@.len() == i,
                forall|j: int| 0 <= j < i ==> #[trigger] ids@[j]@ == self.param_ids@[j]@,
            decreases self.param_ids@.len() - i,
        {
            ids.push(self.param_ids[i].clone());
            i = i + 1;
        }
        Func {
            ident: self.ident.clone(),
            param_ids: ids,
            signature: self.signature.deep_clone(),
            body: clone_stat(&self.body),
            params_st: self.params_st.clone(),
            body_st: self.body_st.clone(),
        }
    }
}

} // verus!
