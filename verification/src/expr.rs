//! Expressions of a logical plan, as far as the cache looks into them.

use vstd::prelude::*;

use crate::column::{Column, ColumnView};
use crate::scalar::{ScalarValue, ScalarView};

verus! {

/// A binary operator. Operators that the cache does not tell apart are known by a code.
#[derive(Debug, Clone, Copy, PartialEq, Eq, Structural)]
pub enum Operator {
    Eq,
    NotEq,
    Lt,
    LtEq,
    Gt,
    GtEq,
    And,
    Or,
    Other(u32),
}

impl Operator {
    /// The operator compares by order: `>`, `>=`, `<` or `<=`.
    pub open spec fn orders(self) -> bool {
        self is Gt || self is GtEq || self is Lt || self is LtEq
    }
}

/// An expression. Whatever the cache hands on without reading it (the metadata of a literal, a
/// data type, the definition of a function, any other kind of expression) is known by a handle.
/// `Other` stands for an expression whose value depends on the row alone, `Dynamic` for one that
/// may depend on more, such as the time or a subquery.
#[derive(Debug, PartialEq, Eq)]
pub enum Expr {
    Column(Column),
    Literal(ScalarValue, Option<u64>),
    BinaryExpr(BinaryExpr),
    Between(Between),
    Not(Box<Expr>),
    Negative(Box<Expr>),
    Cast(Cast),
    ScalarFunction(ScalarFunction),
    Other(u64),
    Dynamic(u64),
}

/// `left op right`
#[derive(Debug, PartialEq, Eq)]
pub struct BinaryExpr {
    pub left: Box<Expr>,
    pub op: Operator,
    pub right: Box<Expr>,
}

/// `expr [NOT] BETWEEN low AND high`
#[derive(Debug, PartialEq, Eq)]
pub struct Between {
    pub expr: Box<Expr>,
    pub negated: bool,
    pub low: Box<Expr>,
    pub high: Box<Expr>,
}

/// `CAST(expr AS data_type)`
#[derive(Debug, PartialEq, Eq)]
pub struct Cast {
    pub expr: Box<Expr>,
    pub data_type: u64,
}

/// `name(args)`. The result of an immutable function depends on the arguments alone.
#[derive(Debug, PartialEq, Eq)]
pub struct ScalarFunction {
    pub name: String,
    pub func: u64,
    pub immutable: bool,
    pub args: Vec<Expr>,
}

/// What an expression says.
pub enum ExprView {
    Column(ColumnView),
    Literal(ScalarView, Option<u64>),
    Binary { left: Box<ExprView>, op: Operator, right: Box<ExprView> },
    Between { expr: Box<ExprView>, negated: bool, low: Box<ExprView>, high: Box<ExprView> },
    Not(Box<ExprView>),
    Negative(Box<ExprView>),
    Cast { expr: Box<ExprView>, data_type: u64 },
    Function { name: Seq<char>, func: u64, immutable: bool, args: Seq<ExprView> },
    Other(u64),
    Dynamic(u64),
}

/// What an expression says.
pub open spec fn expr_view(e: Expr) -> ExprView
    decreases e,
{
    match e {
        Expr::Column(column) => ExprView::Column(column@),
        Expr::Literal(value, metadata) => ExprView::Literal(value@, metadata),
        Expr::BinaryExpr(b) => ExprView::Binary {
            left: Box::new(expr_view(*b.left)),
            op: b.op,
            right: Box::new(expr_view(*b.right)),
        },
        Expr::Between(b) => ExprView::Between {
            expr: Box::new(expr_view(*b.expr)),
            negated: b.negated,
            low: Box::new(expr_view(*b.low)),
            high: Box::new(expr_view(*b.high)),
        },
        Expr::Not(inner) => ExprView::Not(Box::new(expr_view(*inner))),
        Expr::Negative(inner) => ExprView::Negative(Box::new(expr_view(*inner))),
        Expr::Cast(c) => ExprView::Cast {
            expr: Box::new(expr_view(*c.expr)),
            data_type: c.data_type,
        },
        Expr::ScalarFunction(f) => ExprView::Function {
            name: f.name@,
            func: f.func,
            immutable: f.immutable,
            args: Seq::new(
                f.args@.len(),
                |i: int|
                    if 0 <= i < f.args@.len() {
                        expr_view(f.args@[i])
                    } else {
                        arbitrary()
                    },
            ),
        },
        Expr::Other(handle) => ExprView::Other(handle),
        Expr::Dynamic(handle) => ExprView::Dynamic(handle),
    }
}

impl View for Expr {
    type V = ExprView;

    open spec fn view(&self) -> ExprView {
        expr_view(*self)
    }
}

/// What each of the expressions says.
pub open spec fn exprs_view(exprs: Seq<Expr>) -> Seq<ExprView> {
    Seq::new(exprs.len(), |i: int| exprs[i]@)
}

impl Clone for Expr {
    fn clone(&self) -> (copy: Self)
        ensures
            copy@ == self@,
        decreases self,
    {
        match self {
            Expr::Column(column) => Expr::Column(column.clone()),
            Expr::Literal(value, metadata) => Expr::Literal(value.clone(), *metadata),
            Expr::BinaryExpr(b) => Expr::BinaryExpr(
                BinaryExpr {
                    left: Box::new((&*b.left).clone()),
                    op: b.op,
                    right: Box::new((&*b.right).clone()),
                },
            ),
            Expr::Between(b) => Expr::Between(
                Between {
                    expr: Box::new((&*b.expr).clone()),
                    negated: b.negated,
                    low: Box::new((&*b.low).clone()),
                    high: Box::new((&*b.high).clone()),
                },
            ),
            Expr::Not(inner) => Expr::Not(Box::new((&**inner).clone())),
            Expr::Negative(inner) => Expr::Negative(Box::new((&**inner).clone())),
            Expr::Cast(c) => Expr::Cast(
                Cast { expr: Box::new((&*c.expr).clone()), data_type: c.data_type },
            ),
            Expr::ScalarFunction(f) => {
                let args = &f.args;
                let mut copies: Vec<Expr> = Vec::new();
                let mut i: usize = 0;
                while i < args.len()
                    invariant
                        i <= args@.len(),
                        copies@.len() == i,
                        decreases_to!(self => args),
                        forall|j: int| 0 <= j < i ==> (#[trigger] copies@[j])@ == args@[j]@,
                    decreases args@.len() - i,
                {
                    assert(decreases_to!(args => args@));
                    assert(decreases_to!(args@ => args@[i as int]));
                    copies.push((&args[i]).clone());
                    i = i + 1;
                }
                let copy = Expr::ScalarFunction(
                    ScalarFunction {
                        name: f.name.clone(),
                        func: f.func,
                        immutable: f.immutable,
                        args: copies,
                    },
                );
                assert(copy@->args =~= self@->args);
                copy
            },
            Expr::Other(handle) => Expr::Other(*handle),
            Expr::Dynamic(handle) => Expr::Dynamic(*handle),
        }
    }
}

/// Copy a list of expressions.
pub fn copy_exprs(exprs: &Vec<Expr>) -> (copies: Vec<Expr>)
    ensures
        exprs_view(copies@) == exprs_view(exprs@),
{
    let mut copies: Vec<Expr> = Vec::new();
    let mut i: usize = 0;
    while i < exprs.len()
        invariant
            i <= exprs@.len(),
            copies@.len() == i,
            forall|j: int| 0 <= j < i ==> (#[trigger] copies@[j])@ == exprs@[j]@,
        decreases exprs@.len() - i,
    {
        copies.push(exprs[i].clone());
        i = i + 1;
    }
    assert(exprs_view(copies@) =~= exprs_view(exprs@));
    copies
}

/// What an expression says keeps every part of it.
pub proof fn law_expressions_keep_their_parts(
    column: Column,
    value: ScalarValue,
    handle: Option<u64>,
    node: u64,
    inner: Box<Expr>,
    binary: BinaryExpr,
    between: Between,
    cast: Cast,
    function: ScalarFunction,
)
    ensures
        Expr::Column(column)@ == ExprView::Column(column@),
        Expr::Literal(value, handle)@ == ExprView::Literal(value@, handle),
        Expr::BinaryExpr(binary)@ == (ExprView::Binary {
            left: Box::new((*binary.left)@),
            op: binary.op,
            right: Box::new((*binary.right)@),
        }),
        Expr::Between(between)@ == (ExprView::Between {
            expr: Box::new((*between.expr)@),
            negated: between.negated,
            low: Box::new((*between.low)@),
            high: Box::new((*between.high)@),
        }),
        Expr::Not(inner)@ == ExprView::Not(Box::new((*inner)@)),
        Expr::Negative(inner)@ == ExprView::Negative(Box::new((*inner)@)),
        Expr::Cast(cast)@ == (ExprView::Cast {
            expr: Box::new((*cast.expr)@),
            data_type: cast.data_type,
        }),
        Expr::ScalarFunction(function)@ matches ExprView::Function { name, func, immutable, args }
            && name == function.name@ && func == function.func && immutable == function.immutable
            && args.len() == function.args@.len() && forall|i: int|
            0 <= i < args.len() ==> #[trigger] args[i] == function.args@[i]@,
        Expr::Other(node)@ == ExprView::Other(node),
        Expr::Dynamic(node)@ == ExprView::Dynamic(node),
{
}

/// What a list of expressions says is what each of them says, in their order.
pub proof fn law_lists_keep_their_expressions(exprs: Seq<Expr>)
    ensures
        exprs_view(exprs).len() == exprs.len(),
        forall|i: int| 0 <= i < exprs.len() ==> #[trigger] exprs_view(exprs)[i] == exprs[i]@,
{
}

/// The operators that compare by order are `<`, `<=`, `>` and `>=`.
pub proof fn law_operators_that_order(code: u32)
    ensures
        Operator::Lt.orders() && Operator::LtEq.orders(),
        Operator::Gt.orders() && Operator::GtEq.orders(),
        !Operator::Eq.orders() && !Operator::NotEq.orders(),
        !Operator::And.orders() && !Operator::Or.orders(),
        !Operator::Other(code).orders(),
{
}

} // verus!
