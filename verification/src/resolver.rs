//! From rules and matches to concrete source/destination pairs.
//!
//! The destination of a match is the rule's template with the capture groups
//! put in place of their tokens `(1)`, `(2)`, and so on, one group after the
//! other, for as long as the group exists and its token is still found.

use crate::config::{mappings_view, Config, Mapping, MappingView};
use crate::matcher::{
    check_pattern, glob_fault, is_valid_pattern, matches_view, Match, MatchView, PatternError,
    PatternErrorView,
};
use crate::text::{
    chars_of, contains, contains_chars, decimal, decimal_chars, replace_all, replace_chars,
    string_of, texts_of,
};
use vstd::prelude::*;

verus! {

/// The token that stands for capture group `position` in a template.
pub open spec fn token(position: nat) -> Seq<char> {
    seq!['('] + decimal(position) + seq![')']
}

/// Whether group `position` is put in place in `working`: the group exists
/// and its token occurs.
pub open spec fn group_applies(
    working: Seq<char>,
    captures: Seq<Seq<char>>,
    position: nat,
) -> bool {
    1 <= position <= captures.len() && contains(working, token(position))
}

/// `working` after the groups from `position` on were put in place, one
/// after the other, up to the first that does not apply.
pub open spec fn substitute_from(
    working: Seq<char>,
    captures: Seq<Seq<char>>,
    position: nat,
) -> Seq<char>
    decreases captures.len() + 1 - position,
{
    if group_applies(working, captures, position) {
        substitute_from(
            replace_all(working, token(position), captures[position - 1]),
            captures,
            position + 1,
        )
    } else {
        working
    }
}

/// The destination that `template` stands for, given the captures of a match.
pub open spec fn substitute(template: Seq<char>, captures: Seq<Seq<char>>) -> Seq<char> {
    substitute_from(template, captures, 1)
}

/// Substitution goes by strictly increasing group numbers and halts at the
/// first gap: where the token of the next group does not occur, or that
/// group does not exist, the text stays as it is, whatever tokens of later
/// groups it holds.
pub proof fn lemma_substitution_halts_at_gap(
    working: Seq<char>,
    captures: Seq<Seq<char>>,
    position: nat,
)
    requires
        position < 1 || position > captures.len() || !contains(working, token(position)),
    ensures
        substitute_from(working, captures, position) == working,
{
}

/// A template that does not hold the token of the first group stands for
/// itself.
pub proof fn lemma_template_without_first_token(template: Seq<char>, captures: Seq<Seq<char>>)
    requires
        !contains(template, token(1)),
    ensures
        substitute(template, captures) == template,
{
}

/// The token of group `position`.
pub fn token_chars(position: usize) -> (r: Vec<char>)
    ensures
        r@ == token(position as nat),
{
    let digits = decimal_chars(position);
    let mut r: Vec<char> = Vec::new();
    r.push('(');
    let mut i: usize = 0;
    while i < digits.len()
        invariant
            i <= digits.len(),
            r@ == seq!['('] + digits@.take(i as int),
        decreases digits.len() - i,
    {
        r.push(digits[i]);
        i += 1;
    }
    r.push(')');
    r
}

/// Puts group `position` in place of its token in `destination`, or tells
/// that the group does not apply.
pub fn substitute_group_value(
    destination: &str,
    captures: &Vec<String>,
    position: usize,
) -> (r: Option<String>)
    ensures
        match r {
            Some(replaced) => group_applies(destination@, texts_of(captures@), position as nat)
                && replaced@ == replace_all(
                destination@,
                token(position as nat),
                captures@[position - 1]@,
            ),
            None => !group_applies(destination@, texts_of(captures@), position as nat),
        },
{
    if position < 1 || position > captures.len() {
        return None;
    }
    let working = chars_of(destination);
    let old = token_chars(position);
    if !contains_chars(&working, &old) {
        return None;
    }
    let group = chars_of(captures[position - 1].as_str());
    Some(string_of(&replace_chars(&working, &old, &group)))
}

/// The destination for a match of `mapping`: its template with the capture
/// groups of `matched` put in place.
pub fn substitute_group_values(mapping: &Mapping, matched: &Match) -> (destination: String)
    ensures
        destination@ == substitute(mapping@.destination, matched@.captures),
{
    let mut destination = mapping.destination.clone();
    let mut done: usize = 0;
    let ghost captures = texts_of(matched.captures@);
    while done < matched.captures.len()
        invariant
            done <= matched.captures.len(),
            captures == texts_of(matched.captures@),
            substitute_from(destination@, captures, (done + 1) as nat) == substitute(
                mapping.destination@,
                captures,
            ),
        decreases matched.captures.len() - done,
    {
        match substitute_group_value(destination.as_str(), &matched.captures, done + 1) {
            Some(replaced) => {
                destination = replaced;
                done += 1;
            },
            None => {
                return destination;
            },
        }
    }
    destination
}

/// The pair that one match of `rule` resolves to.
pub open spec fn resolve_match(rule: MappingView, matched: MatchView) -> MappingView {
    MappingView {
        source: matched.matched_path,
        destination: substitute(rule.destination, matched.captures),
    }
}

/// The pairs that the matches of `rule` resolve to, in the order of the
/// matches. Directories are passed over.
pub open spec fn resolve_rule_spec(rule: MappingView, matches: Seq<MatchView>) -> Seq<
    MappingView,
>
    decreases matches.len(),
{
    if matches.len() == 0 {
        Seq::empty()
    } else if matches.last().is_directory {
        resolve_rule_spec(rule, matches.drop_last())
    } else {
        resolve_rule_spec(rule, matches.drop_last()).push(resolve_match(rule, matches.last()))
    }
}

/// What a rule adds to the resolved pairs: the pairs of its matches, or
/// nothing where a fault was found in its pattern.
pub open spec fn contribution(
    rule: MappingView,
    fault: Option<PatternErrorView>,
    matches: Seq<MatchView>,
) -> Seq<MappingView> {
    if fault is None {
        resolve_rule_spec(rule, matches)
    } else {
        Seq::empty()
    }
}

/// What was found for rule `index`; nothing where `found` does not reach
/// that far.
pub open spec fn matches_of(found: Seq<Seq<MatchView>>, index: int) -> Seq<MatchView> {
    if 0 <= index < found.len() {
        found[index]
    } else {
        Seq::empty()
    }
}

/// What was found wrong with the pattern of rule `index`; nothing where
/// `faults` does not reach that far.
pub open spec fn fault_at(faults: Seq<Option<PatternErrorView>>, index: int) -> Option<
    PatternErrorView,
> {
    if 0 <= index < faults.len() {
        faults[index]
    } else {
        None
    }
}

/// The pairs that the first `count` rules resolve to, rule by rule, where
/// `faults[i]` is what was found wrong with the pattern of rule `i`.
pub open spec fn resolved_upto(
    rules: Seq<MappingView>,
    faults: Seq<Option<PatternErrorView>>,
    found: Seq<Seq<MatchView>>,
    count: nat,
) -> Seq<MappingView>
    decreases count,
{
    if count == 0 {
        Seq::empty()
    } else {
        resolved_upto(rules, faults, found, (count - 1) as nat) + contribution(
            rules[count - 1],
            fault_at(faults, count - 1),
            matches_of(found, count - 1),
        )
    }
}

/// The faults among the first `count`, in order.
pub open spec fn errors_upto(faults: Seq<Option<PatternErrorView>>, count: nat) -> Seq<
    PatternErrorView,
>
    decreases count,
{
    if count == 0 {
        Seq::empty()
    } else {
        match fault_at(faults, count - 1) {
            Some(error) => errors_upto(faults, (count - 1) as nat).push(error),
            None => errors_upto(faults, (count - 1) as nat),
        }
    }
}

/// What the glob compiler finds wrong with the pattern of `rule`.
pub open spec fn fault_of(rule: MappingView) -> Option<PatternErrorView> {
    match glob_fault(rule.source, true, false, false) {
        Some((position, reason)) => Some(
            PatternErrorView { pattern: rule.source, position, reason },
        ),
        None => None,
    }
}

/// What the glob compiler finds wrong with the pattern of each rule.
pub open spec fn faults_of(rules: Seq<MappingView>) -> Seq<Option<PatternErrorView>> {
    Seq::new(rules.len(), |i: int| fault_of(rules[i]))
}

/// The views of a sequence of faults.
pub open spec fn faults_view(faults: Seq<Option<PatternError>>) -> Seq<Option<PatternErrorView>> {
    Seq::new(
        faults.len(),
        |i: int|
            match faults[i] {
                Some(error) => Some(error@),
                None => None,
            },
    )
}

/// The views of the matches found for each rule.
pub open spec fn found_view(found: Seq<Vec<Match>>) -> Seq<Seq<MatchView>> {
    Seq::new(found.len(), |i: int| matches_view(found[i]@))
}

/// The views of a sequence of pattern errors.
pub open spec fn errors_view(errors: Seq<PatternError>) -> Seq<PatternErrorView> {
    Seq::new(errors.len(), |i: int| errors[i]@)
}

/// Resolves the matches of one rule.
pub fn resolve_rule(rule: &Mapping, matches: &Vec<Match>) -> (pairs: Vec<Mapping>)
    ensures
        mappings_view(pairs@) == resolve_rule_spec(rule@, matches_view(matches@)),
{
    let mut pairs: Vec<Mapping> = Vec::new();
    let ghost all = matches_view(matches@);
    let mut i: usize = 0;
    while i < matches.len()
        invariant
            i <= matches.len(),
            all == matches_view(matches@),
            mappings_view(pairs@) == resolve_rule_spec(rule@, all.take(i as int)),
        decreases matches.len() - i,
    {
        let matched = &matches[i];
        proof {
            assert(all.take(i as int + 1).drop_last() == all.take(i as int));
        }
        if !matched.is_directory {
            let source = matched.matched_path.clone();
            let destination = substitute_group_values(rule, matched);
            let pair = Mapping { source, destination };
            pairs.push(pair);
        }
        i += 1;
    }
    proof {
        assert(all.take(all.len() as int) == all);
    }
    pairs
}

/// The outcome of resolving all rules: the pairs to link, and one error for
/// each rule whose pattern is malformed.
#[derive(Debug)]
pub struct Resolution {
    pub mappings: Vec<Mapping>,
    pub errors: Vec<PatternError>,
}

/// Checks the pattern of every rule.
pub fn check_patterns(config: &Config) -> (faults: Vec<Option<PatternError>>)
    ensures
        faults_view(faults@) == faults_of(config@),
{
    let mut faults: Vec<Option<PatternError>> = Vec::new();
    let rules = &config.mappings;
    let mut i: usize = 0;
    while i < rules.len()
        invariant
            i <= rules.len(),
            rules == &config.mappings,
            faults_view(faults@) == faults_of(config@).take(i as int),
        decreases rules.len() - i,
    {
        let ghost before = faults_view(faults@);
        let rule = &rules[i];
        let fault = match check_pattern(rule.source.as_str()) {
            Ok(_) => None,
            Err(error) => Some(error),
        };
        faults.push(fault);
        proof {
            assert(faults_view(faults@) == before.push(fault_of(rule@)));
        }
        i += 1;
    }
    faults
}

/// Resolves every rule of `config`, where `faults[i]` is what was found
/// wrong with the pattern of rule `i` and `found[i]` holds what it matched.
/// The pairs come rule by rule and, within a rule, match by match. A rule
/// with a faulty pattern adds its error and no pair, and the other rules are
/// resolved all the same.
pub fn resolve_checked(
    config: &Config,
    faults: &Vec<Option<PatternError>>,
    found: &Vec<Vec<Match>>,
) -> (resolution: Resolution)
    ensures
        mappings_view(resolution.mappings@) == resolved_upto(
            config@,
            faults_view(faults@),
            found_view(found@),
            config@.len(),
        ),
        errors_view(resolution.errors@) == errors_upto(faults_view(faults@), config@.len()),
{
    let mut mappings: Vec<Mapping> = Vec::new();
    let mut errors: Vec<PatternError> = Vec::new();
    let rules = &config.mappings;
    let ghost all_faults = faults_view(faults@);
    let ghost all_found = found_view(found@);
    let mut i: usize = 0;
    while i < rules.len()
        invariant
            i <= rules.len(),
            rules == &config.mappings,
            all_faults == faults_view(faults@),
            all_found == found_view(found@),
            mappings_view(mappings@) == resolved_upto(config@, all_faults, all_found, i as nat),
            errors_view(errors@) == errors_upto(all_faults, i as nat),
        decreases rules.len() - i,
    {
        let rule = &rules[i];
        let known: &Option<PatternError> = if i < faults.len() {
            &faults[i]
        } else {
            &None
        };
        match known {
            Some(fault) => {
                let error = PatternError {
                    pattern: fault.pattern.clone(),
                    position: fault.position,
                    reason: fault.reason.clone(),
                };
                errors.push(error);
            },
            None => {
                let pairs = if i < found.len() {
                    resolve_rule(rule, &found[i])
                } else {
                    let none: Vec<Match> = Vec::new();
                    resolve_rule(rule, &none)
                };
                let ghost before = mappings_view(mappings@);
                let mut k: usize = 0;
                while k < pairs.len()
                    invariant
                        k <= pairs.len(),
                        mappings_view(mappings@) == before + mappings_view(pairs@).take(
                            k as int,
                        ),
                    decreases pairs.len() - k,
                {
                    let ghost so_far = mappings_view(mappings@);
                    let pair = Mapping {
                        source: pairs[k].source.clone(),
                        destination: pairs[k].destination.clone(),
                    };
                    mappings.push(pair);
                    proof {
                        assert(mappings_view(mappings@) == so_far.push(pair@));
                    }
                    k += 1;
                }
            },
        }
        i += 1;
    }
    Resolution { mappings, errors }
}

/// Resolves every rule of `config`, where `found[i]` holds what the pattern
/// of rule `i` matched. A rule whose pattern the glob compiler refuses adds
/// one error and no pair.
pub fn get_found_mappings(config: &Config, found: &Vec<Vec<Match>>) -> (resolution: Resolution)
    ensures
        mappings_view(resolution.mappings@) == resolved_upto(
            config@,
            faults_of(config@),
            found_view(found@),
            config@.len(),
        ),
        errors_view(resolution.errors@) == errors_upto(faults_of(config@), config@.len()),
{
    let faults = check_patterns(config);
    resolve_checked(config, &faults, found)
}

/// A rule whose pattern matched nothing adds no pair, and is no error
/// unless its pattern is faulty.
pub proof fn lemma_no_match_no_pair(rule: MappingView, fault: Option<PatternErrorView>)
    ensures
        contribution(rule, fault, Seq::empty()) == Seq::<MappingView>::empty(),
        is_valid_pattern(rule.source) ==> fault_of(rule) is None,
{
}

} // verus!
