//! The finding model shared by every rule.

use vstd::prelude::*;

verus! {

/// A single security finding emitted by a rule.
#[derive(Debug, Clone, PartialEq, Eq)]
pub struct Finding {
    /// Stable rule identifier, e.g. `SG001`.
    pub rule_id: String,
    /// Severity level, e.g. `high`.
    pub severity: String,
    /// Path of the analyzed file as given to the scanner.
    pub file: String,
    /// 1-based line number of the offending code.
    pub line: usize,
    /// Name of the entry point function the finding belongs to.
    pub function: String,
    /// Human-readable description of the problem.
    pub message: String,
}

/// The mathematical content of a [`Finding`].
pub struct FindingView {
    pub rule_id: Seq<char>,
    pub severity: Seq<char>,
    pub file: Seq<char>,
    pub line: usize,
    pub function: Seq<char>,
    pub message: Seq<char>,
}

impl View for Finding {
    type V = FindingView;

    open spec fn view(&self) -> FindingView {
        FindingView {
            rule_id: self.rule_id@,
            severity: self.severity@,
            file: self.file@,
            line: self.line,
            function: self.function@,
            message: self.message@,
        }
    }
}

/// The views of a sequence of findings.
pub open spec fn finding_views(s: Seq<Finding>) -> Seq<FindingView> {
    s.map_values(|f: Finding| f@)
}

} // verus!
