//! Why a plan is refused.

use vstd::prelude::*;
use vstd::string::*;

verus! {

/// Why a logical or physical plan cannot be built.
#[derive(Debug, Clone, Copy, PartialEq, Eq, Structural)]
pub enum PlanError {
    /// The first expression of a cached aggregation is not a column.
    ExpectedTemporalColumn,
    /// More expressions than a column and the two ends of an interval.
    TooManyExpressions,
    /// More expressions, and no interval among them.
    ExpectedColumnAndLiterals,
    /// Not one logical input.
    ExpectedOneInput,
    /// An extension that is no cached aggregation.
    UnexpectedExtension,
    /// Neither an aggregation nor a cached one.
    UnexpectedInput,
    /// Not one physical input.
    ExpectedOnePhysicalInput,
    /// The plan has no timestamp column of the name.
    TimestampColumnNotFound,
    /// Not one child.
    ExpectedOneChild,
    /// A node without children was given some.
    ChildrenCannotBeReplaced,
}

pub const EXPECTED_TEMPORAL_COLUMN: &'static str =
    "UserDefinedLogicalNodeCore  expected temporal column as first expressoin";

pub const TOO_MANY_EXPRESSIONS: &'static str =
    "UserDefinedLogicalNodeCore expected one, two, or three expressions";

pub const EXPECTED_COLUMN_AND_LITERALS: &'static str =
    "UserDefinedLogicalNodeCore expected either one column or column + two int64 literals";

pub const EXPECTED_ONE_INPUT: &'static str = "UserDefinedLogicalNodeCore expected one inputs";

pub const UNEXPECTED_EXTENSION: &'static str =
    "unexpected extension node, expected QCAggregatePlanNode";

pub const UNEXPECTED_INPUT: &'static str =
    "unexpected input to QCAggregatePlanNode, mut be Aggregate or Extension(QCAggregatePlanNode), got ";

pub const EXPECTED_ONE_PHYSICAL_INPUT: &'static str = "QueryCacheGroupByExec expected one input";

pub const TIMESTAMP_COLUMN: &'static str = "Timestamp column '";

pub const NOT_FOUND_IN_PLAN: &'static str = "' not found in plan";

pub const EXPECTED_ONE_CHILD: &'static str = "CacheUpdateAggregateExec expected one child";

pub const CHILDREN_CANNOT_BE_REPLACED: &'static str =
    "Children cannot be replaced in CachedAggregateExec";

/// What an error says. `subject` is the unexpected input as it prints, or the name of the column
/// that was not found.
pub open spec fn error_message(error: PlanError, subject: Seq<char>) -> Seq<char> {
    match error {
        PlanError::ExpectedTemporalColumn => EXPECTED_TEMPORAL_COLUMN@,
        PlanError::TooManyExpressions => TOO_MANY_EXPRESSIONS@,
        PlanError::ExpectedColumnAndLiterals => EXPECTED_COLUMN_AND_LITERALS@,
        PlanError::ExpectedOneInput => EXPECTED_ONE_INPUT@,
        PlanError::UnexpectedExtension => UNEXPECTED_EXTENSION@,
        PlanError::UnexpectedInput => UNEXPECTED_INPUT@ + subject,
        PlanError::ExpectedOnePhysicalInput => EXPECTED_ONE_PHYSICAL_INPUT@,
        PlanError::TimestampColumnNotFound => TIMESTAMP_COLUMN@ + subject + NOT_FOUND_IN_PLAN@,
        PlanError::ExpectedOneChild => EXPECTED_ONE_CHILD@,
        PlanError::ChildrenCannotBeReplaced => CHILDREN_CANNOT_BE_REPLACED@,
    }
}

impl PlanError {
    /// What the error says. `subject` is the unexpected input as it prints, or the name of the
    /// column that was not found; other errors have none.
    pub fn message(&self, subject: &str) -> (message: String)
        ensures
            message@ == error_message(*self, subject@),
    {
        match self {
            PlanError::ExpectedTemporalColumn => EXPECTED_TEMPORAL_COLUMN.to_string(),
            PlanError::TooManyExpressions => TOO_MANY_EXPRESSIONS.to_string(),
            PlanError::ExpectedColumnAndLiterals => EXPECTED_COLUMN_AND_LITERALS.to_string(),
            PlanError::ExpectedOneInput => EXPECTED_ONE_INPUT.to_string(),
            PlanError::UnexpectedExtension => UNEXPECTED_EXTENSION.to_string(),
            PlanError::UnexpectedInput => {
                let mut message = UNEXPECTED_INPUT.to_string();
                message.append(subject);
                message
            },
            PlanError::ExpectedOnePhysicalInput => EXPECTED_ONE_PHYSICAL_INPUT.to_string(),
            PlanError::TimestampColumnNotFound => {
                let mut message = TIMESTAMP_COLUMN.to_string();
                message.append(subject);
                message.append(NOT_FOUND_IN_PLAN);
                message
            },
            PlanError::ExpectedOneChild => EXPECTED_ONE_CHILD.to_string(),
            PlanError::ChildrenCannotBeReplaced => CHILDREN_CANNOT_BE_REPLACED.to_string(),
        }
    }
}

/// What each error says, word by word.
pub proof fn law_what_errors_say(subject: Seq<char>)
    ensures
        error_message(PlanError::ExpectedTemporalColumn, subject)
            == "UserDefinedLogicalNodeCore  expected temporal column as first expressoin"@,
        error_message(PlanError::TooManyExpressions, subject)
            == "UserDefinedLogicalNodeCore expected one, two, or three expressions"@,
        error_message(PlanError::ExpectedColumnAndLiterals, subject)
            == "UserDefinedLogicalNodeCore expected either one column or column + two int64 literals"@,
        error_message(PlanError::ExpectedOneInput, subject)
            == "UserDefinedLogicalNodeCore expected one inputs"@,
        error_message(PlanError::UnexpectedExtension, subject)
            == "unexpected extension node, expected QCAggregatePlanNode"@,
        error_message(PlanError::UnexpectedInput, subject)
            == "unexpected input to QCAggregatePlanNode, mut be Aggregate or Extension(QCAggregatePlanNode), got "@
            + subject,
        error_message(PlanError::ExpectedOnePhysicalInput, subject)
            == "QueryCacheGroupByExec expected one input"@,
        error_message(PlanError::TimestampColumnNotFound, subject) == "Timestamp column '"@
            + subject + "' not found in plan"@,
        error_message(PlanError::ExpectedOneChild, subject)
            == "CacheUpdateAggregateExec expected one child"@,
        error_message(PlanError::ChildrenCannotBeReplaced, subject)
            == "Children cannot be replaced in CachedAggregateExec"@,
{
}

} // verus!
