//! Expressions without the bounds that they put on temporal columns.

use vstd::prelude::*;

use crate::column::{ColumnSet, ColumnView};
use crate::expr::{Between, BinaryExpr, Expr, ExprView, Operator, ScalarFunction};
use crate::scalar::{ScalarValue, ScalarView};
use crate::static_interval::is_column_of;

verus! {

/// The text that stands in for a bound.
pub const PLACEHOLDER: &'static str = "?";

/// The literal that stands in for a bound.
pub open spec fn placeholder() -> ExprView {
    ExprView::Literal(ScalarView::Utf8(Some(PLACEHOLDER@)), None)
}

/// The expression with `bound` applied to each literal that a column of the set is compared with,
/// by order or by BETWEEN.
pub open spec fn with_bounds(
    e: ExprView,
    columns: Set<ColumnView>,
    bound: spec_fn(ExprView) -> ExprView,
) -> ExprView
    decreases e,
{
    match e {
        ExprView::Binary { left, op, right } => {
            if op.orders() && is_column_of(*left, columns) {
                ExprView::Binary {
                    left,
                    op,
                    right: Box::new(
                        if *right is Literal {
                            bound(*right)
                        } else {
                            with_bounds(*right, columns, bound)
                        },
                    ),
                }
            } else {
                ExprView::Binary {
                    left: Box::new(with_bounds(*left, columns, bound)),
                    op,
                    right: Box::new(with_bounds(*right, columns, bound)),
                }
            }
        },
        ExprView::Between { expr, negated, low, high } => {
            if is_column_of(*expr, columns) {
                ExprView::Between {
                    expr,
                    negated,
                    low: Box::new(
                        if *low is Literal {
                            bound(*low)
                        } else {
                            with_bounds(*low, columns, bound)
                        },
                    ),
                    high: Box::new(
                        if *high is Literal {
                            bound(*high)
                        } else {
                            with_bounds(*high, columns, bound)
                        },
                    ),
                }
            } else {
                ExprView::Between {
                    expr: Box::new(with_bounds(*expr, columns, bound)),
                    negated,
                    low: Box::new(with_bounds(*low, columns, bound)),
                    high: Box::new(with_bounds(*high, columns, bound)),
                }
            }
        },
        ExprView::Not(inner) => ExprView::Not(Box::new(with_bounds(*inner, columns, bound))),
        ExprView::Negative(inner) => ExprView::Negative(
            Box::new(with_bounds(*inner, columns, bound)),
        ),
        ExprView::Function { name, func, immutable, args } => ExprView::Function {
            name,
            func,
            immutable,
            args: Seq::new(
                args.len(),
                |i: int|
                    if 0 <= i < args.len() {
                        with_bounds(args[i], columns, bound)
                    } else {
                        arbitrary()
                    },
            ),
        },
        _ => e,
    }
}

/// Whatever the bound is, the placeholder.
pub open spec fn blank() -> spec_fn(ExprView) -> ExprView {
    |literal: ExprView| placeholder()
}

/// The expression with the placeholder in place of the literals that bound the columns.
pub open spec fn normalized(e: ExprView, columns: Set<ColumnView>) -> ExprView {
    with_bounds(e, columns, blank())
}

/// The literal that stands in for a bound.
pub(crate) fn placeholder_expr() -> (literal: Expr)
    ensures
        literal@ == placeholder(),
{
    Expr::Literal(ScalarValue::Utf8(Some(PLACEHOLDER.to_string())), None)
}

/// Whether the expression is one of the columns.
fn is_temporal(expr: &Expr, columns: &ColumnSet) -> (temporal: bool)
    ensures
        temporal == is_column_of(expr@, columns@),
{
    match expr {
        Expr::Column(column) => columns.contains(column),
        _ => false,
    }
}

/// A bound of a temporal column: the placeholder for a literal, else the normalized expression.
fn normalize_bound(expr: &Expr, temporal_columns: &ColumnSet) -> (normal: Expr)
    ensures
        normal@ == if expr@ is Literal {
            placeholder()
        } else {
            normalized(expr@, temporal_columns@)
        },
    decreases expr, 1int,
{
    if let Expr::Literal(_, _) = expr {
        placeholder_expr()
    } else {
        normalize_temporal_bounds_in_expr(expr, temporal_columns)
    }
}

/// Normalize temporal bounds in expressions by replacing literals with placeholders.
pub fn normalize_temporal_bounds_in_expr(expr: &Expr, temporal_columns: &ColumnSet) -> (normal: Expr)
    ensures
        normal@ == normalized(expr@, temporal_columns@),
    decreases expr, 0int,
{
    match expr {
        Expr::BinaryExpr(bin_expr) => {
            let op = bin_expr.op;
            let orders = match op {
                Operator::Gt | Operator::GtEq | Operator::Lt | Operator::LtEq => true,
                _ => false,
            };
            if orders && is_temporal(&bin_expr.left, temporal_columns) {
                Expr::BinaryExpr(
                    BinaryExpr {
                        left: Box::new((&*bin_expr.left).clone()),
                        op,
                        right: Box::new(normalize_bound(&bin_expr.right, temporal_columns)),
                    },
                )
            } else {
                // Recursively normalize both sides
                Expr::BinaryExpr(
                    BinaryExpr {
                        left: Box::new(
                            normalize_temporal_bounds_in_expr(&bin_expr.left, temporal_columns),
                        ),
                        op,
                        right: Box::new(
                            normalize_temporal_bounds_in_expr(&bin_expr.right, temporal_columns),
                        ),
                    },
                )
            }
        },
        Expr::Between(between) => {
            if is_temporal(&between.expr, temporal_columns) {
                Expr::Between(
                    Between {
                        expr: Box::new((&*between.expr).clone()),
                        negated: between.negated,
                        low: Box::new(normalize_bound(&between.low, temporal_columns)),
                        high: Box::new(normalize_bound(&between.high, temporal_columns)),
                    },
                )
            } else {
                Expr::Between(
                    Between {
                        expr: Box::new(
                            normalize_temporal_bounds_in_expr(&between.expr, temporal_columns),
                        ),
                        negated: between.negated,
                        low: Box::new(
                            normalize_temporal_bounds_in_expr(&between.low, temporal_columns),
                        ),
                        high: Box::new(
                            normalize_temporal_bounds_in_expr(&between.high, temporal_columns),
                        ),
                    },
                )
            }
        },
        Expr::Not(e) => Expr::Not(Box::new(normalize_temporal_bounds_in_expr(e, temporal_columns))),
        Expr::Negative(e) => Expr::Negative(
            Box::new(normalize_temporal_bounds_in_expr(e, temporal_columns)),
        ),
        Expr::ScalarFunction(func) => {
            let args = &func.args;
            let mut normal_args: Vec<Expr> = Vec::new();
            let mut i: usize = 0;
            while i < args.len()
                invariant
                    i <= args@.len(),
                    normal_args@.len() == i,
                    decreases_to!(expr => args),
                    forall|j: int|
                        0 <= j < i ==> (#[trigger] normal_args@[j])@ == normalized(
                            args@[j]@,
                            temporal_columns@,
                        ),
                decreases args@.len() - i,
            {
                assert(decreases_to!(args => args@));
                assert(decreases_to!(args@ => args@[i as int]));
                normal_args.push(normalize_temporal_bounds_in_expr(&args[i], temporal_columns));
                i = i + 1;
            }
            let normal = Expr::ScalarFunction(
                ScalarFunction {
                    name: func.name.clone(),
                    func: func.func,
                    immutable: func.immutable,
                    args: normal_args,
                },
            );
            assert(normal@->args =~= normalized(expr@, temporal_columns@)->args);
            normal
        },
        // For literals, columns, and other types, return as-is
        _ => expr.clone(),
    }
}

/// Whatever the literals that bound the columns are replaced by, the normalized expression is the
/// same: expressions that differ only in such bounds share one normal form.
pub proof fn law_bounds_do_not_show(
    e: ExprView,
    columns: Set<ColumnView>,
    bound: spec_fn(ExprView) -> ExprView,
)
    requires
        forall|literal: ExprView| literal is Literal ==> #[trigger] bound(literal) is Literal,
    ensures
        normalized(with_bounds(e, columns, bound), columns) == normalized(e, columns),
    decreases e,
{
    match e {
        ExprView::Binary { left, op, right } => {
            law_bounds_do_not_show(*left, columns, bound);
            law_bounds_do_not_show(*right, columns, bound);
        },
        ExprView::Between { expr, negated, low, high } => {
            law_bounds_do_not_show(*expr, columns, bound);
            law_bounds_do_not_show(*low, columns, bound);
            law_bounds_do_not_show(*high, columns, bound);
        },
        ExprView::Not(inner) => {
            law_bounds_do_not_show(*inner, columns, bound);
        },
        ExprView::Negative(inner) => {
            law_bounds_do_not_show(*inner, columns, bound);
        },
        ExprView::Function { args, .. } => {
            assert forall|i: int| 0 <= i < args.len() implies normalized(
                with_bounds(#[trigger] args[i], columns, bound),
                columns,
            ) == normalized(args[i], columns) by {
                law_bounds_do_not_show(args[i], columns, bound);
            }
            assert(normalized(with_bounds(e, columns, bound), columns)->args =~= normalized(
                e,
                columns,
            )->args);
        },
        _ => {},
    }
}

/// Normalizing twice is the same as normalizing once.
pub proof fn law_normalizing_is_idempotent(e: ExprView, columns: Set<ColumnView>)
    ensures
        normalized(normalized(e, columns), columns) == normalized(e, columns),
{
    law_bounds_do_not_show(e, columns, blank());
}

/// No column of the set is compared, by order or by BETWEEN, in the expression or in those parts
/// of it that are normalized.
pub open spec fn bounds_nothing(e: ExprView, columns: Set<ColumnView>) -> bool
    decreases e,
{
    match e {
        ExprView::Binary { left, op, right } => {
            &&& !(op.orders() && is_column_of(*left, columns))
            &&& bounds_nothing(*left, columns)
            &&& bounds_nothing(*right, columns)
        },
        ExprView::Between { expr, low, high, .. } => {
            &&& !is_column_of(*expr, columns)
            &&& bounds_nothing(*expr, columns)
            &&& bounds_nothing(*low, columns)
            &&& bounds_nothing(*high, columns)
        },
        ExprView::Not(inner) => bounds_nothing(*inner, columns),
        ExprView::Negative(inner) => bounds_nothing(*inner, columns),
        ExprView::Function { args, .. } => all_bound_nothing(args, columns),
        _ => true,
    }
}

/// `bounds_nothing` holds of each of the expressions.
pub open spec fn all_bound_nothing(exprs: Seq<ExprView>, columns: Set<ColumnView>) -> bool
    decreases exprs,
{
    exprs.len() > 0 ==> {
        &&& all_bound_nothing(exprs.drop_last(), columns)
        &&& bounds_nothing(exprs[exprs.len() - 1], columns)
    }
}

proof fn lemma_each_bounds_nothing(exprs: Seq<ExprView>, columns: Set<ColumnView>, i: int)
    requires
        all_bound_nothing(exprs, columns),
        0 <= i < exprs.len(),
    ensures
        bounds_nothing(exprs[i], columns),
    decreases exprs.len(),
{
    if i < exprs.len() - 1 {
        lemma_each_bounds_nothing(exprs.drop_last(), columns, i);
    }
}

/// An expression that puts no bound on the columns stays as it is.
pub proof fn law_other_expressions_stay(e: ExprView, columns: Set<ColumnView>)
    requires
        bounds_nothing(e, columns),
    ensures
        normalized(e, columns) == e,
    decreases e,
{
    match e {
        ExprView::Binary { left, op, right } => {
            law_other_expressions_stay(*left, columns);
            law_other_expressions_stay(*right, columns);
        },
        ExprView::Between { expr, negated, low, high } => {
            law_other_expressions_stay(*expr, columns);
            law_other_expressions_stay(*low, columns);
            law_other_expressions_stay(*high, columns);
        },
        ExprView::Not(inner) => {
            law_other_expressions_stay(*inner, columns);
        },
        ExprView::Negative(inner) => {
            law_other_expressions_stay(*inner, columns);
        },
        ExprView::Function { args, .. } => {
            assert forall|i: int| 0 <= i < args.len() implies normalized(
                #[trigger] args[i],
                columns,
            ) == args[i] by {
                lemma_each_bounds_nothing(args, columns, i);
                law_other_expressions_stay(args[i], columns);
            }
            assert(normalized(e, columns)->args =~= args);
        },
        _ => {},
    }
}

/// A literal that a temporal column is compared with by order becomes the text `?`. Nothing else of
/// the comparison changes.
pub proof fn law_compared_literals_become_the_placeholder(
    column: ColumnView,
    columns: Set<ColumnView>,
    op: Operator,
    value: ScalarView,
    metadata: Option<u64>,
    right: ExprView,
)
    requires
        columns.contains(column),
        op == Operator::Lt || op == Operator::LtEq || op == Operator::Gt || op == Operator::GtEq,
    ensures
        normalized(
            (ExprView::Binary {
                left: Box::new(ExprView::Column(column)),
                op,
                right: Box::new(ExprView::Literal(value, metadata)),
            }),
            columns,
        ) == (ExprView::Binary {
            left: Box::new(ExprView::Column(column)),
            op,
            right: Box::new(ExprView::Literal(ScalarView::Utf8(Some("?"@)), None)),
        }),
        right !is Literal ==> normalized(
            (ExprView::Binary {
                left: Box::new(ExprView::Column(column)),
                op,
                right: Box::new(right),
            }),
            columns,
        ) == (ExprView::Binary {
            left: Box::new(ExprView::Column(column)),
            op,
            right: Box::new(normalized(right, columns)),
        }),
{
}

/// The literals that a temporal column stands between become the text `?`, negated or not. A bound
/// that is no literal is normalized on its own.
pub proof fn law_literals_of_between_become_the_placeholder(
    column: ColumnView,
    columns: Set<ColumnView>,
    negated: bool,
    low: ExprView,
    high: ExprView,
)
    requires
        columns.contains(column),
    ensures
        normalized(
            (ExprView::Between {
                expr: Box::new(ExprView::Column(column)),
                negated,
                low: Box::new(low),
                high: Box::new(high),
            }),
            columns,
        ) == (ExprView::Between {
            expr: Box::new(ExprView::Column(column)),
            negated,
            low: Box::new(
                if low is Literal {
                    ExprView::Literal(ScalarView::Utf8(Some("?"@)), None)
                } else {
                    normalized(low, columns)
                },
            ),
            high: Box::new(
                if high is Literal {
                    ExprView::Literal(ScalarView::Utf8(Some("?"@)), None)
                } else {
                    normalized(high, columns)
                },
            ),
        }),
{
}

/// Normalizing goes into the sides of operators, BETWEENs, negations and the arguments of functions
/// and keeps all around them. It leaves columns, literals, casts and everything else as they are.
pub proof fn law_normalizing_goes_into_the_parts(
    left: ExprView,
    op: Operator,
    right: ExprView,
    high: ExprView,
    negated: bool,
    columns: Set<ColumnView>,
    name: Seq<char>,
    func: u64,
    immutable: bool,
    args: Seq<ExprView>,
    column: ColumnView,
    value: ScalarView,
    metadata: Option<u64>,
    node: u64,
)
    ensures
        !(op == Operator::Lt || op == Operator::LtEq || op == Operator::Gt || op == Operator::GtEq)
            || !(left matches ExprView::Column(c) && columns.contains(c)) ==> normalized(
            (ExprView::Binary { left: Box::new(left), op, right: Box::new(right) }),
            columns,
        ) == (ExprView::Binary {
            left: Box::new(normalized(left, columns)),
            op,
            right: Box::new(normalized(right, columns)),
        }),
        !(left matches ExprView::Column(c) && columns.contains(c)) ==> normalized(
            (ExprView::Between {
                expr: Box::new(left),
                negated,
                low: Box::new(right),
                high: Box::new(high),
            }),
            columns,
        ) == (ExprView::Between {
            expr: Box::new(normalized(left, columns)),
            negated,
            low: Box::new(normalized(right, columns)),
            high: Box::new(normalized(high, columns)),
        }),
        normalized(ExprView::Not(Box::new(left)), columns) == ExprView::Not(
            Box::new(normalized(left, columns)),
        ),
        normalized(ExprView::Negative(Box::new(left)), columns) == ExprView::Negative(
            Box::new(normalized(left, columns)),
        ),
        normalized(
            (ExprView::Function { name, func, immutable, args }),
            columns,
        ) matches ExprView::Function { name: name2, func: func2, immutable: immutable2, args: args2 }
            && name2 == name && func2 == func && immutable2 == immutable && args2.len()
            == args.len() && forall|i: int|
            0 <= i < args.len() ==> #[trigger] args2[i] == normalized(args[i], columns),
        normalized(ExprView::Column(column), columns) == ExprView::Column(column),
        normalized(ExprView::Literal(value, metadata), columns) == ExprView::Literal(
            value,
            metadata,
        ),
        normalized((ExprView::Cast { expr: Box::new(left), data_type: node }), columns) == (
        ExprView::Cast { expr: Box::new(left), data_type: node }),
        normalized(ExprView::Other(node), columns) == ExprView::Other(node),
        normalized(ExprView::Dynamic(node), columns) == ExprView::Dynamic(node),
{
}

} // verus!
