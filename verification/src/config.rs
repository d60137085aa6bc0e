//! Mapping rules and the line-oriented text they are written in.
//!
//! Every line that is neither blank nor a comment holds one rule,
//! `<source> : <destination>`.

use crate::text::{
    chars_of, lemma_split_at_only_separator, lemma_split_count, lines, lines_of, occurrences,
    seqs_of, split, split_chars, string_of, trim, trim_chars,
};
use vstd::prelude::*;
use vstd::string::StringExecFns;

verus! {

/// A rule: a glob pattern with capture groups, and the template of the
/// destination, which refers to the groups as `(1)`, `(2)`, and so on.
#[derive(Debug, Clone)]
pub struct Mapping {
    pub source: String,
    pub destination: String,
}

/// What a `Mapping` says.
pub struct MappingView {
    pub source: Seq<char>,
    pub destination: Seq<char>,
}

impl View for Mapping {
    type V = MappingView;

    open spec fn view(&self) -> MappingView {
        MappingView { source: self.source@, destination: self.destination@ }
    }
}

impl Mapping {
    /// The rule in one line, source before destination.
    pub open spec fn description_text(mapping: MappingView) -> Seq<char> {
        mapping.source + " -> "@ + mapping.destination
    }

    /// Shows the rule in one line.
    pub fn description(&self) -> (text: String)
        ensures
            text@ == Self::description_text(self@),
    {
        let mut text = self.source.clone();
        text.append(" -> ");
        text.append(self.destination.as_str());
        text
    }
}

/// The rules of a working directory, in the order in which they were written.
#[derive(Debug, Clone)]
pub struct Config {
    pub mappings: Vec<Mapping>,
}

/// The views of a sequence of mappings.
pub open spec fn mappings_view(mappings: Seq<Mapping>) -> Seq<MappingView> {
    Seq::new(mappings.len(), |i: int| mappings[i]@)
}

impl View for Config {
    type V = Seq<MappingView>;

    open spec fn view(&self) -> Seq<MappingView> {
        mappings_view(self.mappings@)
    }
}

/// A line that should hold a rule and does not.
#[derive(Debug, Clone)]
pub struct ConfigParseError {
    pub line: String,
}

impl ConfigParseError {
    /// The text shown to the user for this error.
    pub open spec fn message_text(line: Seq<char>) -> Seq<char> {
        "Failed to parse line '"@ + line
            + "'.\nExpected format <source> : <destination>"@
    }

    /// Names the offending line and the shape that was expected.
    pub fn message(&self) -> (text: String)
        ensures
            text@ == Self::message_text(self.line@),
    {
        let mut text = String::from_str("Failed to parse line '");
        text.append(self.line.as_str());
        text.append("'.\nExpected format <source> : <destination>");
        text
    }
}

/// The configuration that a new working directory starts with.
pub const SAMPLE_CONFIG_CONTENT: &'static str = "
# This is a sample config file
# The configuration file supports Unix shell style patterns when matching files

# This mapping tracks the files in .mplayer directory and
# maps them to mplayer directory the under current working directory
# the brackets are used to capture groups of matched path which can
# be referenced on definition path as (<group position>),
# e.g (1) for this case corresponds to the first matched part in ()
/home/nomen/.mplayer/(*) : mplayer/(1)

# example
# ~/.config/neofetch/config.conf -> config/neofetch/config.conf
~/.config/(**) : config/(1)

# example
# ~/.config/polybar/launch.sh -> sh/polybar/launch.sh
~/.config/(*)/(*.sh) : sh/(1)/(2)

# ~/.config/neofetch/images/arch.png -> 
~/.config/(*)/**/(*.png) : (1)/pngs/(2) -> neofetch/pngs/arch.png

";

/// Whether a line holds a rule: it does unless it is blank or a comment,
/// which starts with `#` after any leading white space.
pub open spec fn is_considered(line: Seq<char>) -> bool {
    let content = trim(line);
    !(content.len() == 0 || content[0] == '#')
}

/// Whether a line can be read as a rule: it has two fields, one before and
/// one after a colon.
pub open spec fn is_well_formed(line: Seq<char>) -> bool {
    split(line, ':').len() == 2
}

/// The rule that a well-formed line holds.
pub open spec fn mapping_of(line: Seq<char>) -> MappingView {
    let fields = split(line, ':');
    MappingView { source: trim(fields[0]), destination: trim(fields[1]) }
}

/// What the lines of a configuration say, read in order: every line that
/// holds a rule adds it, and the first such line that is not well formed is
/// the error.
pub open spec fn parse_lines(lines: Seq<Seq<char>>) -> Result<Seq<MappingView>, Seq<char>>
    decreases lines.len(),
{
    if lines.len() == 0 {
        Ok(Seq::empty())
    } else {
        match parse_lines(lines.drop_last()) {
            Err(line) => Err(line),
            Ok(rules) => if !is_considered(lines.last()) {
                Ok(rules)
            } else if is_well_formed(lines.last()) {
                Ok(rules.push(mapping_of(lines.last())))
            } else {
                Err(lines.last())
            },
        }
    }
}

/// An error among the first `count` lines is the error of all the lines.
pub proof fn lemma_first_error_stays(lines: Seq<Seq<char>>, count: int)
    requires
        0 <= count <= lines.len(),
        parse_lines(lines.take(count)) is Err,
    ensures
        parse_lines(lines) == parse_lines(lines.take(count)),
    decreases lines.len() - count,
{
    if count == lines.len() {
        assert(lines.take(count) == lines);
    } else {
        assert(lines.drop_last().take(count) == lines.take(count));
        lemma_first_error_stays(lines.drop_last(), count);
    }
}

/// A line with one colon is well formed: what precedes the colon is its
/// source and what follows it is its destination, each without surrounding
/// white space.
pub proof fn lemma_line_with_one_colon(line: Seq<char>, at: int)
    requires
        0 <= at < line.len(),
        line[at] == ':',
        forall|i: int| 0 <= i < line.len() && i != at ==> line[i] != ':',
    ensures
        is_well_formed(line),
        mapping_of(line) == (MappingView {
            source: trim(line.take(at)),
            destination: trim(line.skip(at + 1)),
        }),
{
    lemma_split_at_only_separator(line, ':', at);
}

/// A line is well formed if and only if it holds exactly one colon.
pub proof fn lemma_well_formed_is_one_colon(line: Seq<char>)
    ensures
        is_well_formed(line) <==> occurrences(line, ':') == 1,
{
    lemma_split_count(line, ':');
}

/// Tells whether a line holds a rule.
pub fn considered_mapping(l: &String) -> (b: bool)
    ensures
        b == is_considered(l@),
{
    let content = trim_chars(&chars_of(l.as_str()));
    !(content.len() == 0 || content[0] == '#')
}

/// Reads a rule from a line: the text before its one colon is the source,
/// the text after it the destination, each without surrounding white space.
pub fn convert_line_to_mapping(l: String) -> (r: Result<Mapping, ConfigParseError>)
    ensures
        match r {
            Ok(mapping) => is_well_formed(l@) && mapping@ == mapping_of(l@),
            Err(error) => !is_well_formed(l@) && error.line@ == l@,
        },
{
    let fields = split_chars(&chars_of(l.as_str()), ':');
    if fields.len() == 2 {
        let source = string_of(&trim_chars(&fields[0]));
        let destination = string_of(&trim_chars(&fields[1]));
        Ok(Mapping { source, destination })
    } else {
        Err(ConfigParseError { line: l })
    }
}

/// Reads the rules from the text of a configuration file. Blank lines and
/// comments are passed over; the first other line that is not a rule is
/// reported and ends the reading.
pub fn load_config(text: &str) -> (r: Result<Config, ConfigParseError>)
    ensures
        match r {
            Ok(config) => parse_lines(lines(text@)) == Ok::<Seq<MappingView>, Seq<char>>(config@),
            Err(error) => parse_lines(lines(text@)) == Err::<Seq<MappingView>, Seq<char>>(
                error.line@,
            ),
        },
{
    let all = lines_of(&chars_of(text));
    let ghost all_lines = lines(text@);
    let mut mappings: Vec<Mapping> = Vec::new();
    let mut i: usize = 0;
    proof {
        assert(mappings_view(mappings@) == Seq::<MappingView>::empty());
    }
    while i < all.len()
        invariant
            i <= all.len(),
            seqs_of(all@) == all_lines,
            all_lines == lines(text@),
            parse_lines(all_lines.take(i as int)) == Ok::<Seq<MappingView>, Seq<char>>(
                mappings_view(mappings@),
            ),
        decreases all.len() - i,
    {
        let line = string_of(&all[i]);
        proof {
            assert(all_lines.take(i as int + 1).drop_last() == all_lines.take(i as int));
        }
        if considered_mapping(&line) {
            match convert_line_to_mapping(line) {
                Ok(mapping) => {
                    let ghost before = mappings_view(mappings@);
                    mappings.push(mapping);
                    proof {
                        assert(mappings_view(mappings@) == before.push(mapping@));
                    }
                },
                Err(error) => {
                    proof {
                        lemma_first_error_stays(all_lines, i as int + 1);
                    }
                    return Err(error);
                },
            }
        }
        i += 1;
    }
    proof {
        assert(all_lines.take(all_lines.len() as int) == all_lines);
    }
    Ok(Config { mappings })
}

} // verus!
