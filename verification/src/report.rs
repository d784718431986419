//! The heading of the report.

use vstd::prelude::*;
use vstd::string::StringExecFns;

verus! {

/// The heading of a report that compares `suite_1` with `suite_2`.
pub open spec fn report_header_of(suite_1: Seq<char>, suite_2: Seq<char>) -> Seq<char> {
    "path, "@ + suite_1 + " only, "@ + suite_2
        + " only, both, total covered, total coverable, total lines, "@ + suite_1
        + "-only percent, "@ + suite_2 + "-only percent, coverage percent"@
}

/// The first line of the report: the names of the ten columns, those that
/// belong to one suite carrying its name.
pub fn report_header(suite_1: &str, suite_2: &str) -> (header: String)
    ensures
        header@ == report_header_of(suite_1@, suite_2@),
{
    let mut header = String::from_str("path, ");
    header.append(suite_1);
    header.append(" only, ");
    header.append(suite_2);
    header.append(" only, both, total covered, total coverable, total lines, ");
    header.append(suite_1);
    header.append("-only percent, ");
    header.append(suite_2);
    header.append("-only percent, coverage percent");
    header
}

} // verus!
