//! The cached aggregation as a node of a logical plan.

use vstd::prelude::*;
use vstd::string::*;

use crate::column::{Column, ColumnView};
use crate::error::PlanError;
use crate::expr::{exprs_view, Expr, ExprView};
use crate::interval::TimeInterval;
use crate::plan::{Extension, LogicalPlan, PlanView, QCAggregatePlanNode};
use crate::scalar::{ScalarValue, ScalarView};

verus! {

/// The name of the node.
pub const NODE_NAME: &'static str = "QueryCacheAggregate";

/// The expressions of a cached aggregation: its temporal column and, where it has an interval,
/// the two ends of it.
pub open spec fn node_expressions(
    temporal_column: ColumnView,
    interval: Option<TimeInterval>,
) -> Seq<ExprView> {
    match interval {
        Some(interval) => seq![
            ExprView::Column(temporal_column),
            int64_literal(interval.start_ns),
            int64_literal(interval.end_ns),
        ],
        None => seq![ExprView::Column(temporal_column)],
    }
}

/// A 64-bit number as a literal.
pub open spec fn int64_literal(n: i64) -> ExprView {
    ExprView::Literal(ScalarView::Int64(Some(n)), None)
}

/// The number that a 64-bit literal holds.
pub open spec fn int64_value(e: ExprView) -> Option<i64> {
    match e {
        ExprView::Literal(ScalarView::Int64(Some(n)), _) => Some(n),
        _ => None,
    }
}

/// The temporal column and the interval that expressions stand for. The first is the column. The
/// next two, where both are 64-bit literals, are the ends of the interval; otherwise they count
/// for nothing. A fourth is an error.
pub open spec fn read_expressions(exprs: Seq<ExprView>) -> Result<
    (ColumnView, Option<TimeInterval>),
    PlanError,
> {
    if exprs.len() == 0 || exprs[0] !is Column {
        Err(PlanError::ExpectedTemporalColumn)
    } else if exprs.len() >= 3 && int64_value(exprs[1]) is Some && int64_value(exprs[2]) is Some {
        if exprs.len() > 3 {
            Err(PlanError::TooManyExpressions)
        } else {
            Ok(
                (
                    exprs[0]->Column_0,
                    Some(
                        TimeInterval {
                            start_ns: int64_value(exprs[1])->0,
                            end_ns: int64_value(exprs[2])->0,
                        },
                    ),
                ),
            )
        }
    } else if exprs.len() > 3 {
        Err(PlanError::ExpectedColumnAndLiterals)
    } else {
        Ok((exprs[0]->Column_0, None))
    }
}

/// `node` is the cached aggregation of `input`: an aggregation is wrapped, with the fingerprint
/// given or else the plan as `display` prints it; a cached aggregation stays what it is; anything
/// else is refused.
pub open spec fn is_node_of<D: Fn(&LogicalPlan) -> String>(
    node: Result<QCAggregatePlanNode, PlanError>,
    input: LogicalPlan,
    temporal_column: ColumnView,
    interval: Option<TimeInterval>,
    fingerprint: Option<String>,
    display: D,
) -> bool {
    match input@ {
        PlanView::QueryCache(inner) => node matches Ok(node) && node@ == *inner,
        PlanView::Extension(_) => node == Err::<QCAggregatePlanNode, PlanError>(
            PlanError::UnexpectedExtension,
        ),
        PlanView::Aggregate { .. } => {
            &&& node matches Ok(node)
            &&& node@.input == input@
            &&& node@.temporal_column == temporal_column
            &&& node@.interval == interval
            &&& match fingerprint {
                Some(fingerprint) => node@.fingerprint == fingerprint@,
                None => prints_as(display, input, node@.fingerprint),
            }
        },
        _ => node == Err::<QCAggregatePlanNode, PlanError>(PlanError::UnexpectedInput),
    }
}

/// `text` is what `display` may print for the plan.
pub open spec fn prints_as<D: Fn(&LogicalPlan) -> String>(
    display: D,
    plan: LogicalPlan,
    text: Seq<char>,
) -> bool {
    exists|printed: String| #[trigger] call_ensures(display, (&plan,), printed) && printed@ == text
}

/// `display` can print every plan.
pub open spec fn prints_all<D: Fn(&LogicalPlan) -> String>(display: D) -> bool {
    forall|plan: LogicalPlan| #[trigger] call_requires(display, (&plan,))
}

impl Clone for QCAggregatePlanNode {
    fn clone(&self) -> (copy: Self)
        ensures
            copy@ == self@,
    {
        QCAggregatePlanNode {
            input: self.input.clone(),
            fingerprint: self.fingerprint.clone(),
            temporal_column: self.temporal_column.clone(),
            interval: self.interval,
        }
    }
}

impl QCAggregatePlanNode {
    /// The cached aggregation of an aggregation, or of a cached aggregation itself. `display`
    /// prints a plan with its schema.
    pub fn new<D: Fn(&LogicalPlan) -> String>(
        input: LogicalPlan,
        temporal_column: Column,
        interval: Option<TimeInterval>,
        fingerprint: Option<String>,
        display: &D,
    ) -> (node: Result<Self, PlanError>)
        requires
            prints_all(*display),
        ensures
            is_node_of(node, input, temporal_column@, interval, fingerprint, *display),
    {
        match input {
            // Already a cached aggregation, return it
            LogicalPlan::Extension(Extension::QueryCache(node)) => Ok(*node),
            LogicalPlan::Extension(Extension::Other(_)) => Err(PlanError::UnexpectedExtension),
            LogicalPlan::Aggregate(agg) => {
                let input = LogicalPlan::Aggregate(agg);
                let fingerprint = match fingerprint {
                    Some(fingerprint) => fingerprint,
                    None => display(&input),
                };
                Ok(QCAggregatePlanNode { input, fingerprint, temporal_column, interval })
            },
            _ => Err(PlanError::UnexpectedInput),
        }
    }

    /// The name of the node.
    pub fn name(&self) -> (name: &'static str)
        ensures
            name@ == NODE_NAME@,
    {
        NODE_NAME
    }

    /// The expressions of the node: its temporal column and the ends of its interval.
    pub fn expressions(&self) -> (expressions: Vec<Expr>)
        ensures
            exprs_view(expressions@) == node_expressions(self@.temporal_column, self@.interval),
    {
        let mut expressions: Vec<Expr> = Vec::new();
        expressions.push(Expr::Column(self.temporal_column.clone()));
        if let Some(interval) = &self.interval {
            expressions.push(Expr::Literal(ScalarValue::Int64(Some(interval.start_ns)), None));
            expressions.push(Expr::Literal(ScalarValue::Int64(Some(interval.end_ns)), None));
        }
        assert(exprs_view(expressions@) =~= node_expressions(
            self@.temporal_column,
            self@.interval,
        ));
        expressions
    }

    /// The node as a line of a printed plan, from its input as it prints.
    pub fn fmt_for_explain(&self, input: &str) -> (line: String)
        ensures
            line@ == NODE_NAME@ + ": "@ + input@,
    {
        let mut line = NODE_NAME.to_string();
        line.append(": ");
        line.append(input);
        line
    }

    /// The node with other expressions and another input. Its fingerprint is made anew.
    pub fn with_exprs_and_inputs<D: Fn(&LogicalPlan) -> String>(
        &self,
        exprs: Vec<Expr>,
        inputs: Vec<LogicalPlan>,
        display: &D,
    ) -> (node: Result<Self, PlanError>)
        requires
            prints_all(*display),
        ensures
            match read_expressions(exprs_view(exprs@)) {
                Err(error) => node == Err::<QCAggregatePlanNode, PlanError>(error),
                Ok((column, interval)) => if inputs@.len() == 1 {
                    is_node_of(node, inputs@[0], column, interval, None, *display)
                } else {
                    node == Err::<QCAggregatePlanNode, PlanError>(PlanError::ExpectedOneInput)
                },
            },
    {
        let ghost views = exprs_view(exprs@);
        if exprs.len() == 0 {
            return Err(PlanError::ExpectedTemporalColumn);
        }
        assert(views[0] == exprs@[0]@);
        let column = match &exprs[0] {
            Expr::Column(column) => column.clone(),
            _ => {
                return Err(PlanError::ExpectedTemporalColumn);
            },
        };
        let ends = if exprs.len() >= 3 {
            assert(views[1] == exprs@[1]@ && views[2] == exprs@[2]@);
            match (&exprs[1], &exprs[2]) {
                (
                    Expr::Literal(ScalarValue::Int64(Some(start_ns)), _),
                    Expr::Literal(ScalarValue::Int64(Some(end_ns)), _),
                ) => Some((*start_ns, *end_ns)),
                _ => None,
            }
        } else {
            None
        };
        let interval = match ends {
            Some((start_ns, end_ns)) => {
                if exprs.len() > 3 {
                    return Err(PlanError::TooManyExpressions);
                }
                Some(TimeInterval::new(start_ns, end_ns))
            },
            None => {
                if exprs.len() > 3 {
                    return Err(PlanError::ExpectedColumnAndLiterals);
                }
                None
            },
        };
        let mut inputs = inputs;
        if inputs.len() != 1 {
            return Err(PlanError::ExpectedOneInput);
        }
        let input = inputs.remove(0);
        Self::new(input, column, interval, None, display)
    }
}

/// The expressions of a node say what its temporal column and its interval are: read back, they
/// give both.
pub proof fn law_expressions_round_trip(
    temporal_column: ColumnView,
    interval: Option<TimeInterval>,
)
    ensures
        read_expressions(node_expressions(temporal_column, interval)) == Ok::<
            (ColumnView, Option<TimeInterval>),
            PlanError,
        >((temporal_column, interval)),
{
}

/// The expressions of a cached aggregation are its temporal column and, where it has an interval,
/// the start and the end of it as 64-bit numbers.
pub proof fn law_expressions_of_a_node(column: ColumnView, start_ns: i64, end_ns: i64)
    ensures
        node_expressions(column, None) == seq![ExprView::Column(column)],
        node_expressions(column, Some(TimeInterval { start_ns, end_ns })) == seq![
            ExprView::Column(column),
            ExprView::Literal(ScalarView::Int64(Some(start_ns)), None),
            ExprView::Literal(ScalarView::Int64(Some(end_ns)), None),
        ],
        NODE_NAME@ == "QueryCacheAggregate"@,
{
}

/// The expressions of a cached aggregation are a column, or a column and two 64-bit numbers, which
/// are the start and the end of its interval. Without a column first, and with more than three,
/// they are refused. Second and third expressions that are not both 64-bit numbers count for
/// nothing.
pub proof fn law_expressions_are_read(exprs: Seq<ExprView>)
    ensures
        ({
            let read = read_expressions(exprs);
            let number = |e: ExprView|
                match e {
                    ExprView::Literal(ScalarView::Int64(Some(n)), _) => Some(n),
                    _ => None::<i64>,
                };
            &&& exprs.len() == 0 ==> read == Err::<(ColumnView, Option<TimeInterval>), PlanError>(
                PlanError::ExpectedTemporalColumn,
            )
            &&& exprs.len() > 0 && exprs[0] !is Column ==> read == Err::<
                (ColumnView, Option<TimeInterval>),
                PlanError,
            >(PlanError::ExpectedTemporalColumn)
            &&& exprs.len() > 0 ==> (exprs[0] matches ExprView::Column(column) ==> {
                let ends = exprs.len() >= 3 && number(exprs[1]) is Some && number(
                    exprs[2],
                ) is Some;
                &&& exprs.len() > 3 && ends ==> read == Err::<
                    (ColumnView, Option<TimeInterval>),
                    PlanError,
                >(PlanError::TooManyExpressions)
                &&& exprs.len() > 3 && !ends ==> read == Err::<
                    (ColumnView, Option<TimeInterval>),
                    PlanError,
                >(PlanError::ExpectedColumnAndLiterals)
                &&& exprs.len() <= 3 && !ends ==> read == Ok::<
                    (ColumnView, Option<TimeInterval>),
                    PlanError,
                >((column, None))
                &&& exprs.len() == 3 && ends ==> read == Ok::<
                    (ColumnView, Option<TimeInterval>),
                    PlanError,
                >(
                    (
                        column,
                        Some(
                            TimeInterval {
                                start_ns: number(exprs[1])->0,
                                end_ns: number(exprs[2])->0,
                            },
                        ),
                    ),
                )
            })
        }),
{
}

/// An aggregation is wrapped as it is, with the column and the interval that were given, and with
/// the fingerprint that was given or else its print. A cached aggregation is not wrapped again.
/// Anything else is refused.
pub proof fn law_what_is_wrapped<D: Fn(&LogicalPlan) -> String>(
    node: Result<QCAggregatePlanNode, PlanError>,
    input: LogicalPlan,
    column: ColumnView,
    interval: Option<TimeInterval>,
    fingerprint: Option<String>,
    display: D,
)
    requires
        is_node_of(node, input, column, interval, fingerprint, display),
    ensures
        input@ is Aggregate ==> (node matches Ok(node) && node@.input == input@
            && node@.temporal_column == column && node@.interval == interval),
        input@ is Aggregate && fingerprint is Some ==> node->Ok_0@.fingerprint == fingerprint->0@,
        input@ is Aggregate && fingerprint is None ==> exists|printed: String|
            #[trigger] call_ensures(display, (&input,), printed) && printed@
                == node->Ok_0@.fingerprint,
        input@ matches PlanView::QueryCache(inner) ==> (node matches Ok(node) && node@ == *inner),
        input@ is Extension ==> node == Err::<QCAggregatePlanNode, PlanError>(
            PlanError::UnexpectedExtension,
        ),
        input@ is Filter || input@ is Projection || input@ is TableScan || input@ is Other ==> node
            == Err::<QCAggregatePlanNode, PlanError>(PlanError::UnexpectedInput),
{
}

} // verus!
