use vstd::prelude::*;

pub mod context;
pub mod unify;
pub mod expr;
pub mod stat;
pub mod program;
pub mod symbol_table;
pub mod semantic;

use crate::ast::{func_skel, stat_skel, ArrayElem, Expr, Ident, Program, SType, Type};
use crate::analyser::unify::spec_unify;
use expr::{binary_result, binary_type, check_expected, fits, index_through, msg_type, unary_result, unary_type};
use program::{program_analysed, program_check, program_supported, Check};
use symbol_table::{lookup, SymbolTable};

verus! {

/* Represents the result of a semantic analysis. */
#[derive(PartialEq, Eq, Debug)]
pub enum SemanticError {
    Normal(String),
    Syntax(String),
    Join(Box<SemanticError>, Box<SemanticError>),
}

pub type AResult<T> = Result<T, SemanticError>;

/// Mathematical value of an error: messages by their characters.
pub enum SError {
    Normal(Seq<char>),
    Syntax(Seq<char>),
    Join(Box<SError>, Box<SError>),
}

impl View for SemanticError {
    type V = SError;

    open spec fn view(&self) -> SError
        decreases self,
    {
        match self {
            SemanticError::Normal(s) => SError::Normal(s@),
            SemanticError::Syntax(s) => SError::Syntax(s@),
            SemanticError::Join(a, b) => SError::Join(Box::new((**a).view()), Box::new((**b).view())),
        }
    }
}

/// No error in the tree is a syntax error.
pub open spec fn no_syntax(e: SError) -> bool
    decreases e,
{
    match e {
        SError::Normal(_) => true,
        SError::Syntax(_) => false,
        SError::Join(a, b) => no_syntax(*a) && no_syntax(*b),
    }
}

/// The text of an error: its message, or for two errors both texts on
/// lines of their own.
pub open spec fn error_text(e: SError) -> Seq<char>
    decreases e,
{
    match e {
        SError::Normal(s) => s,
        SError::Syntax(s) => s,
        SError::Join(a, b) => error_text(*a) + seq!['\n'] + error_text(*b),
    }
}

impl SemanticError {
    /// The text of the error, as it is reported.
    pub fn to_string(&self) -> (r: String)
        ensures
            r@ == error_text(self@),
        decreases self,
    {
        match self {
            SemanticError::Normal(s) => s.clone(),
            SemanticError::Syntax(s) => s.clone(),
            SemanticError::Join(a, b) => {
                let mut r = a.to_string();
                crate::text::push_char(&mut r, '\n');
                let rest = b.to_string();
                crate::text::push_str(&mut r, rest.as_str());
                r
            },
        }
    }
}

/// Runs two analyses' results together: both values when both succeed,
/// otherwise the error, or both errors joined.
pub fn join<A, B>(a: AResult<A>, b: AResult<B>) -> (r: AResult<(A, B)>)
    ensures
        r is Ok <==> (a is Ok && b is Ok),
        r matches Ok(p) ==> a == Ok::<A, SemanticError>(p.0) && b == Ok::<B, SemanticError>(p.1),
        r matches Err(e) ==> match (a, b) {
            (Err(x), Err(y)) => e@ == SError::Join(Box::new(x@), Box::new(y@)),
            (Err(x), _) => e == x,
            (_, Err(y)) => e == y,
            _ => false,
        },
        (a matches Err(x) ==> no_syntax(x@)) && (b matches Err(y) ==> no_syntax(y@)) ==> (r matches Err(
            e,
        ) ==> no_syntax(e@)),
{
    proof {
        reveal_with_fuel(no_syntax, 2);
    }
    match (a, b) {
        (Ok(x), Ok(y)) => Ok((x, y)),
        (Err(x), Err(y)) => Err(SemanticError::Join(Box::new(x), Box::new(y))),
        (Err(x), _) => Err(x),
        (_, Err(y)) => Err(y),
    }
}

/* ======== Type getters ======== */

/* AST nodes which have an associated type, found in a type-only symbol
table. */
pub trait HasType {
    fn get_type(&self, symbol_table: &SymbolTable) -> AResult<Type>;
}

impl HasType for Ident {
    /// The type the identifier was given in the closest scope that has it.
    fn get_type(&self, symbol_table: &SymbolTable) -> (r: AResult<Type>)
        ensures
            r is Ok <==> lookup(symbol_table@, self@) is Some,
            r matches Ok(t) ==> lookup(symbol_table@, self@) == Some(t@),
            r matches Err(e) ==> e is Normal,
    {
        match symbol_table.get(self) {
            Some(t) => Ok(t.deep_clone()),
            None => Err(SemanticError::Normal(expr::msg_ident("Use of undeclared variable: ", self.as_str()))),
        }
    }
}

/// The type of an expression found from the types of variables alone:
/// literals, variables, array elements and operator applications have one.
pub open spec fn table_type(ts: Seq<Map<Seq<char>, SType>>, e: Expr) -> Option<SType>
    decreases e,
{
    match e {
        Expr::IntLiter(_) => Some(SType::Int),
        Expr::BoolLiter(_) => Some(SType::Bool),
        Expr::CharLiter(_) => Some(SType::Char),
        Expr::StrLiter(_) => Some(SType::Str),
        Expr::NullPairLiter => Some(SType::Pair(Box::new(SType::Any), Box::new(SType::Any))),
        Expr::Ident(id) => lookup(ts, id@),
        Expr::ArrayElem(ae) => match lookup(ts, ae.0@) {
            Some(base) => index_through(base, table_types(ts, ae.1@)),
            None => None,
        },
        Expr::UnaryApp(op, x) => unary_type(op, table_type(ts, *x)),
        Expr::BinaryApp(a, op, b) => match (table_type(ts, *a), table_type(ts, *b)) {
            (Some(x), Some(y)) => match spec_unify(x, y) {
                Some(u) => binary_type(op, u),
                None => None,
            },
            _ => None,
        },
        _ => None,
    }
}

/// The types of a list of expressions from the types of variables alone.
pub open spec fn table_types(ts: Seq<Map<Seq<char>, SType>>, es: Seq<Expr>) -> Seq<Option<SType>>
    decreases es,
{
    if es.len() == 0 {
        Seq::empty()
    } else {
        table_types(ts, es.drop_last()).push(table_type(ts, es.last()))
    }
}

pub proof fn lemma_table_types(ts: Seq<Map<Seq<char>, SType>>, es: Seq<Expr>)
    ensures
        table_types(ts, es).len() == es.len(),
        forall|i: int| 0 <= i < es.len() ==> #[trigger] table_types(ts, es)[i] == table_type(ts, es[i]),
    decreases es.len(),
{
    if es.len() > 0 {
        lemma_table_types(ts, es.drop_last());
    }
}

fn expr_table_type(e: &Expr, symbol_table: &SymbolTable) -> (r: AResult<Type>)
    ensures
        r is Ok <==> table_type(symbol_table@, *e) is Some,
        r matches Ok(t) ==> table_type(symbol_table@, *e) == Some(t@),
    decreases *e, 0nat,
{
    match e {
        Expr::IntLiter(_) => Ok(Type::Int),
        Expr::BoolLiter(_) => Ok(Type::Bool),
        Expr::CharLiter(_) => Ok(Type::Char),
        Expr::StrLiter(_) => Ok(Type::String),
        Expr::NullPairLiter => {
            let r = Type::Pair(Box::new(Type::Any), Box::new(Type::Any));
            assert(Type::Any@ == SType::Any);
            Ok(r)
        },
        Expr::Ident(id) => id.get_type(symbol_table),
        Expr::ArrayElem(ae) => array_elem_table_type(ae, symbol_table),
        Expr::UnaryApp(op, x) => unary_result(*op, expr_table_type(x, symbol_table)),
        Expr::BinaryApp(a, op, b) => {
            let lhs_type = expr_table_type(a, symbol_table)?;
            let rhs_type = expr_table_type(b, symbol_table)?;
            binary_result(*op, lhs_type, rhs_type)
        },
        _ => Err(SemanticError::Normal(crate::text::to_string("Expression needs a full scope to be typed"))),
    }
}

fn array_elem_table_type(ae: &ArrayElem, symbol_table: &SymbolTable) -> (r: AResult<Type>)
    ensures
        ({
            let st = match lookup(symbol_table@, ae.0@) {
                Some(base) => index_through(base, table_types(symbol_table@, ae.1@)),
                None => None,
            };
            &&& r is Ok <==> st is Some
            &&& r matches Ok(t) ==> st == Some(t@)
        }),
    decreases *ae, 1nat,
{
    let ghost ts = symbol_table@;
    /* Gets type of the array being looked up. */
    let mut curr_type = ae.0.get_type(symbol_table)?;
    let ghost base = curr_type@;
    let ghost types = table_types(ts, ae.1@);
    proof {
        lemma_table_types(ts, ae.1@);
        assert(types.skip(0) =~= types);
    }
    let n = ae.1.len();
    let mut i: usize = 0;
    /* For each index, unwrap the type by one array. */
    while i < n
        invariant
            n == ae.1@.len(),
            i <= n,
            ts == symbol_table@,
            types == table_types(ts, ae.1@),
            types.len() == n,
            lookup(ts, ae.0@) == Some(base),
            index_through(base, types) == index_through(curr_type@, types.skip(i as int)),
        decreases n - i,
    {
        proof {
            assert(decreases_to!(*ae => ae.1));
            assert(decreases_to!(ae.1 => ae.1@));
            assert(decreases_to!(ae.1@ => ae.1@[i as int]));
        }
        let res = expr_table_type(&ae.1[i], symbol_table);
        proof {
            lemma_table_types(ts, ae.1@);
            assert(types.skip(i as int).drop_first() =~= types.skip(i + 1));
            assert(types.skip(i as int)[0] == types[i as int]);
            assert(index_through(curr_type@, types.skip(i as int)) == match types[i as int] {
                Some(it) => if fits(SType::Int, it) {
                    match curr_type@ {
                        SType::Array(t) => index_through(*t, types.skip(i + 1)),
                        _ => None,
                    }
                } else {
                    None
                },
                None => None,
            });
        }
        check_expected(&Type::Int, res)?;
        curr_type = match curr_type {
            Type::Array(t) => *t,
            t => {
                return Err(SemanticError::Normal(msg_type("Expected array, found ", &t)));
            },
        };
        i = i + 1;
    }
    proof {
        assert(types.skip(n as int) =~= Seq::<Option<SType>>::empty());
    }
    Ok(curr_type)
}

impl HasType for Expr {
    /// The type of the expression, from the types of variables alone.
    fn get_type(&self, symbol_table: &SymbolTable) -> (r: AResult<Type>)
        ensures
            r is Ok <==> table_type(symbol_table@, *self) is Some,
            r matches Ok(t) ==> table_type(symbol_table@, *self) == Some(t@),
    {
        expr_table_type(self, symbol_table)
    }
}

impl HasType for ArrayElem {
    /// The type of the element: the array's type unwrapped once for each
    /// index, each index being an int.
    fn get_type(&self, symbol_table: &SymbolTable) -> (r: AResult<Type>)
        ensures
            r is Ok <==> table_type(symbol_table@, Expr::ArrayElem(*self)) is Some,
            r matches Ok(t) ==> table_type(symbol_table@, Expr::ArrayElem(*self)) == Some(t@),
    {
        array_elem_table_type(self, symbol_table)
    }
}

/// Type checks a program: see `Program::analyse`.
pub fn analyse(program: &mut Program) -> (r: AResult<()>)
    requires
        program_supported(*old(program)),
    ensures
        r is Ok <==> program_check(*old(program)) is Pass,
        r matches Err(e) ==> (no_syntax(e@) <==> !(program_check(*old(program)) is MissingReturn)),
        final(program).funcs@.len() == old(program).funcs@.len(),
        forall|i: int|
            0 <= i < old(program).funcs@.len() ==> func_skel(#[trigger] final(program).funcs@[i]) == func_skel(
                old(program).funcs@[i],
            ),
        stat_skel(*final(program).statement.1) == stat_skel(*old(program).statement.1),
        r is Ok ==> program_analysed(*old(program), *final(program)),
{
    program.analyse()
}

} // verus!
