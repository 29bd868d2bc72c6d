//! Cache keys.

use vstd::prelude::*;
use vstd::string::*;

verus! {

/// A nanosecond timestamp literal in a printed plan, with or without a time zone.
pub const NANOS_PATTERN: &'static str =
    r#"TimestampNanosecond\(\d+,\s*(?:None|Some\("[^"]*"\))\)"#;

/// What stands in for a nanosecond timestamp literal.
pub const NANOS_BLANK: &'static str = "TimestampNanosecond(?, None)";

/// How a nanosecond timestamp literal starts.
pub const NANOS_START: &'static str = "TimestampNanosecond(";

/// A microsecond timestamp literal in a printed plan, with or without a time zone.
pub const MICROS_PATTERN: &'static str =
    r#"TimestampMicrosecond\(\d+,\s*(?:None|Some\("[^"]*"\))\)"#;

/// What stands in for a microsecond timestamp literal.
pub const MICROS_BLANK: &'static str = "TimestampMicrosecond(?, None)";

/// How a microsecond timestamp literal starts.
pub const MICROS_START: &'static str = "TimestampMicrosecond(";

/// A table scan in a printed plan, with the name of its table and its schema.
pub const TABLE_SCAN_PATTERN: &'static str = r"TableScan: (?P<table>\w+) \[[^\]]+\]";

/// What stands in for a table scan.
pub const TABLE_SCAN_BLANK: &'static str = "TableScan: $table [normalized_schema]";

/// What `Regex::replace_all` of the regex crate makes of a text, for a regular expression in the
/// crate's syntax and a replacement in its syntax.
pub uninterp spec fn regex_replace_all(
    pattern: Seq<char>,
    replacement: Seq<char>,
    text: Seq<char>,
) -> Seq<char>;

/// The pattern is one of those that cache keys are made with.
pub open spec fn is_key_pattern(pattern: Seq<char>) -> bool {
    pattern == NANOS_PATTERN@ || pattern == MICROS_PATTERN@ || pattern == TABLE_SCAN_PATTERN@
}

/// Calls `regex::Regex::new` on the pattern and `replace_all` on the text. The result is a function
/// of the three texts, which is all that is claimed of it: it has a name. `Regex::new` accepts each
/// of the patterns that are admitted.
#[verifier::external_body]
fn replace_all(pattern: &str, replacement: &str, text: &str) -> (replaced: String)
    requires
        is_key_pattern(pattern@),
    ensures
        replaced@ == regex_replace_all(pattern@, replacement@, text@),
{
    regex::Regex::new(pattern).unwrap().replace_all(text, replacement).to_string()
}

/// The part stands somewhere in the text.
pub open spec fn stands_in(text: Seq<char>, part: Seq<char>) -> bool {
    exists|i: int|
        0 <= i <= text.len() - part.len() && #[trigger] text.subrange(i, i + part.len()) == part
}

/// Calls `str::contains` with a text for the pattern: whether the part stands somewhere in the
/// text.
#[verifier::external_body]
fn contains(text: &str, part: &str) -> (found: bool)
    ensures
        found == stands_in(text@, part@),
{
    text.contains(part)
}

/// The printed plan without nanosecond and microsecond timestamp literals, and without the schemas
/// of table scans. The names of the tables stay, and so does all else.
pub open spec fn cache_key(plan: Seq<char>) -> Seq<char> {
    regex_replace_all(
        TABLE_SCAN_PATTERN@,
        TABLE_SCAN_BLANK@,
        regex_replace_all(
            MICROS_PATTERN@,
            MICROS_BLANK@,
            regex_replace_all(NANOS_PATTERN@, NANOS_BLANK@, plan),
        ),
    )
}

/// The printed plan without the schemas of table scans. The names of the tables stay, and so does
/// all else.
pub open spec fn literal_key(plan: Seq<char>) -> Seq<char> {
    regex_replace_all(TABLE_SCAN_PATTERN@, TABLE_SCAN_BLANK@, plan)
}

/// The printed plan may hold a nanosecond or microsecond timestamp literal.
pub open spec fn mentions_timestamp(plan: Seq<char>) -> bool {
    stands_in(plan, NANOS_START@) || stands_in(plan, MICROS_START@)
}

/// The key of a plan that was printed without the bounds that its interval carries. A timestamp
/// literal that is left is carried by nothing, and tells the plan from others: it stays.
pub open spec fn printed_key(plan: Seq<char>) -> Seq<char> {
    if mentions_timestamp(plan) {
        literal_key(plan)
    } else {
        cache_key(plan)
    }
}

/// Normalize a fingerprint string for consistent caching by removing timestamp literals and
/// schema-specific details.
pub fn normalize_fingerprint_for_caching(fingerprint: &str) -> (key: String)
    ensures
        key@ == cache_key(fingerprint@),
{
    // Replace timestamp literals with placeholders, keeping timezone normalization
    let without_ns = replace_all(NANOS_PATTERN, NANOS_BLANK, fingerprint);
    let without_us = replace_all(MICROS_PATTERN, MICROS_BLANK, without_ns.as_str());
    // Replace TableScan schema information with a canonical representation
    replace_all(TABLE_SCAN_PATTERN, TABLE_SCAN_BLANK, without_us.as_str())
}

/// Remove schema-specific details from a fingerprint string and keep every literal.
pub fn normalize_schemas(fingerprint: &str) -> (key: String)
    ensures
        key@ == literal_key(fingerprint@),
{
    replace_all(TABLE_SCAN_PATTERN, TABLE_SCAN_BLANK, fingerprint)
}

/// The key of a plan that was printed without the bounds that its interval carries.
pub fn key_of_print(print: &str) -> (key: String)
    ensures
        key@ == printed_key(print@),
{
    if contains(print, NANOS_START) || contains(print, MICROS_START) {
        normalize_schemas(print)
    } else {
        normalize_fingerprint_for_caching(print)
    }
}

/// A fingerprint is normalized by three replacements, one after another: of nanosecond timestamps,
/// of microsecond timestamps, and of the schemas of table scans, whose tables keep their names.
pub proof fn law_fingerprints_are_normalized_by_three_replacements(print: Seq<char>)
    ensures
        cache_key(print) == regex_replace_all(
            r"TableScan: (?P<table>\w+) \[[^\]]+\]"@,
            "TableScan: $table [normalized_schema]"@,
            regex_replace_all(
                r#"TimestampMicrosecond\(\d+,\s*(?:None|Some\("[^"]*"\))\)"#@,
                "TimestampMicrosecond(?, None)"@,
                regex_replace_all(
                    r#"TimestampNanosecond\(\d+,\s*(?:None|Some\("[^"]*"\))\)"#@,
                    "TimestampNanosecond(?, None)"@,
                    print,
                ),
            ),
        ),
        literal_key(print) == regex_replace_all(
            r"TableScan: (?P<table>\w+) \[[^\]]+\]"@,
            "TableScan: $table [normalized_schema]"@,
            print,
        ),
{
}

/// A print that may hold a timestamp literal, one that no interval carries, is keyed with every
/// literal; one that holds none like a fingerprint.
pub proof fn law_prints_keep_timestamps_that_are_not_carried(print: Seq<char>)
    ensures
        ({
            let held = exists|i: int|
                0 <= i && ((i + "TimestampNanosecond("@.len() <= print.len()
                    && #[trigger] print.subrange(i, i + "TimestampNanosecond("@.len())
                    == "TimestampNanosecond("@));
            held ==> printed_key(print) == literal_key(print)
        }),
        ({
            let held = exists|i: int|
                0 <= i && ((i + "TimestampMicrosecond("@.len() <= print.len()
                    && #[trigger] print.subrange(i, i + "TimestampMicrosecond("@.len())
                    == "TimestampMicrosecond("@));
            held ==> printed_key(print) == literal_key(print)
        }),
        !stands_in(print, "TimestampNanosecond("@) && !stands_in(print, "TimestampMicrosecond("@)
            ==> printed_key(print) == cache_key(print),
{
    if exists|i: int|
        0 <= i && ((i + "TimestampNanosecond("@.len() <= print.len() && #[trigger] print.subrange(
            i,
            i + "TimestampNanosecond("@.len(),
        ) == "TimestampNanosecond("@)) {
        assert(stands_in(print, NANOS_START@));
    }
    if exists|i: int|
        0 <= i && ((i + "TimestampMicrosecond("@.len() <= print.len() && #[trigger] print.subrange(
            i,
            i + "TimestampMicrosecond("@.len(),
        ) == "TimestampMicrosecond("@)) {
        assert(stands_in(print, MICROS_START@));
    }
}

} // verus!
