//! Patterns and what they match.
//!
//! A pattern is a glob with capture groups in parentheses. Walking the file
//! system is left to the caller; this module tells whether a pattern is well
//! formed and holds what one match consists of.

use crate::text::{decimal, decimal_chars, string_of, texts_of};
use capturing_glob::{glob_with, MatchOptions};
use vstd::prelude::*;
use vstd::string::StringExecFns;

verus! {

/// How patterns are matched.
#[derive(Debug, Clone, Copy, PartialEq, Eq, Structural)]
pub struct MatchRules {
    pub case_sensitive: bool,
    pub require_literal_separator: bool,
    pub require_literal_leading_dot: bool,
}

/// The rules in force: case matters, a wildcard may stand for a separator,
/// and a leading dot needs no literal dot in the pattern.
pub fn match_rules() -> (rules: MatchRules)
    ensures
        rules == (MatchRules {
            case_sensitive: true,
            require_literal_separator: false,
            require_literal_leading_dot: false,
        }),
{
    MatchRules {
        case_sensitive: true,
        require_literal_separator: false,
        require_literal_leading_dot: false,
    }
}

/// One file-system entry that a pattern matched, with the text of each
/// capture group, the first group first.
#[derive(Debug, Clone)]
pub struct Match {
    pub matched_path: String,
    pub captures: Vec<String>,
    pub is_directory: bool,
}

/// What a `Match` says.
pub struct MatchView {
    pub matched_path: Seq<char>,
    pub captures: Seq<Seq<char>>,
    pub is_directory: bool,
}

impl View for Match {
    type V = MatchView;

    open spec fn view(&self) -> MatchView {
        MatchView {
            matched_path: self.matched_path@,
            captures: texts_of(self.captures@),
            is_directory: self.is_directory,
        }
    }
}

/// The views of a sequence of matches.
pub open spec fn matches_view(matches: Seq<Match>) -> Seq<MatchView> {
    Seq::new(matches.len(), |i: int| matches[i]@)
}

/// A malformed pattern: where the fault lies, as a character index, and
/// what it is.
#[derive(Debug, Clone)]
pub struct PatternError {
    pub pattern: String,
    pub position: usize,
    pub reason: String,
}

/// What a `PatternError` says.
pub struct PatternErrorView {
    pub pattern: Seq<char>,
    pub position: nat,
    pub reason: Seq<char>,
}

impl View for PatternError {
    type V = PatternErrorView;

    open spec fn view(&self) -> PatternErrorView {
        PatternErrorView {
            pattern: self.pattern@,
            position: self.position as nat,
            reason: self.reason@,
        }
    }
}

impl PatternError {
    /// The text shown to the user for an error.
    pub open spec fn message_text(error: PatternErrorView) -> Seq<char> {
        "Failed to match files for '"@ + error.pattern
            + "': pattern syntax error near position "@ + decimal(error.position) + ": "@
            + error.reason
    }

    /// Names the offending pattern, the position of the fault and the fault.
    pub fn message(&self) -> (text: String)
        ensures
            text@ == Self::message_text(self@),
    {
        let mut text = String::from_str("Failed to match files for '");
        text.append(self.pattern.as_str());
        text.append("': pattern syntax error near position ");
        let position = string_of(&decimal_chars(self.position));
        text.append(position.as_str());
        text.append(": ");
        text.append(self.reason.as_str());
        text
    }
}

/// The fault that the glob compiler finds in a pattern under the given
/// rules, as position and reason, or `None` for a pattern that it accepts.
pub uninterp spec fn glob_fault(
    pattern: Seq<char>,
    case_sensitive: bool,
    require_literal_separator: bool,
    require_literal_leading_dot: bool,
) -> Option<(nat, Seq<char>)>;

/// Compiles the pattern with `capturing_glob::glob_with` and hands back the
/// position and message of its `PatternError`, if it reports one. The
/// iterator that it returns otherwise is dropped unused, so nothing is read
/// from the file system. With `/` as the one path separator, as on every
/// platform that this library is meant for, the outcome depends on the
/// arguments alone.
#[verifier::external_body]
fn compile_fault(pattern: &str, rules: MatchRules) -> (fault: Option<(usize, String)>)
    ensures
        match fault {
            Some((position, reason)) => glob_fault(
                pattern@,
                rules.case_sensitive,
                rules.require_literal_separator,
                rules.require_literal_leading_dot,
            ) == Some((position as nat, reason@)),
            None => glob_fault(
                pattern@,
                rules.case_sensitive,
                rules.require_literal_separator,
                rules.require_literal_leading_dot,
            ) is None,
        },
{
    let options = MatchOptions {
        case_sensitive: rules.case_sensitive,
        require_literal_separator: rules.require_literal_separator,
        require_literal_leading_dot: rules.require_literal_leading_dot,
    };
    match glob_with(pattern, &options) {
        Ok(_) => None,
        Err(error) => Some((error.pos, error.msg.to_string())),
    }
}

/// Whether the pattern is well formed under the rules in force.
pub open spec fn is_valid_pattern(pattern: Seq<char>) -> bool {
    glob_fault(pattern, true, false, false) is None
}

/// The error for a pattern in which the glob compiler found `fault`.
pub fn pattern_error(pattern: &str, fault: (usize, String)) -> (error: PatternError)
    ensures
        error@ == (PatternErrorView {
            pattern: pattern@,
            position: fault.0 as nat,
            reason: fault.1@,
        }),
{
    PatternError { pattern: String::from_str(pattern), position: fault.0, reason: fault.1 }
}

/// Checks that a pattern is well formed.
pub fn check_pattern(pattern: &str) -> (r: Result<(), PatternError>)
    ensures
        match r {
            Ok(_) => is_valid_pattern(pattern@),
            Err(error) => glob_fault(pattern@, true, false, false) == Some(
                (error@.position, error@.reason),
            ) && error@.pattern == pattern@,
        },
{
    match compile_fault(pattern, match_rules()) {
        None => Ok(()),
        Some(fault) => Err(pattern_error(pattern, fault)),
    }
}

} // verus!
