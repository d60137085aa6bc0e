//! What is asked of version control, and how its answers are read.
//!
//! The functions that ask for something build the command line; the caller
//! runs it. The functions that read an answer take the text that the command
//! printed.

use crate::text::{
    chars_of, contains, contains_chars, lines, lines_of, seqs_of, string_of, texts_of, trim,
    trim_chars,
};
use vstd::prelude::*;
use vstd::string::StringExecFns;

verus! {

/// A command line for the version control program, without the program's
/// name. With `echo` the caller shows each line of output to the user.
#[derive(Debug, Clone)]
pub struct GitCommand {
    pub arguments: Vec<String>,
    pub echo: bool,
}

/// What a `GitCommand` says.
pub struct GitCommandView {
    pub arguments: Seq<Seq<char>>,
    pub echo: bool,
}

impl View for GitCommand {
    type V = GitCommandView;

    open spec fn view(&self) -> GitCommandView {
        GitCommandView { arguments: texts_of(self.arguments@), echo: self.echo }
    }
}

/// The views of a sequence of commands.
pub open spec fn commands_view(commands: Seq<GitCommand>) -> Seq<GitCommandView> {
    Seq::new(commands.len(), |i: int| commands[i]@)
}

/// The state of one path in the index and in the working tree, as the two
/// characters of the short status format.
#[derive(Debug, Clone, Copy, PartialEq, Eq, Structural)]
pub struct GitFileStatus {
    pub index_status: char,
    pub working_tree_status: char,
}

impl GitFileStatus {
    /// Whether version control ignores the path: both characters are `!`.
    pub open spec fn ignored(self) -> bool {
        self.index_status == '!' && self.working_tree_status == '!'
    }

    /// Tells whether version control ignores the path.
    pub fn is_ignored(&self) -> (b: bool)
        ensures
            b == self.ignored(),
    {
        self.index_status == '!' && self.working_tree_status == '!'
    }
}

/// An answer of version control that could not be read.
#[derive(Debug, Clone)]
pub struct VersionControlError {
    /// The command whose answer it was.
    pub operation: String,
    /// The part of the answer that could not be read.
    pub output: String,
}

impl VersionControlError {
    /// The text shown to the user for this error.
    pub open spec fn message_text(operation: Seq<char>, output: Seq<char>) -> Seq<char> {
        "Failed to read the answer to 'git "@ + operation + "': '"@ + output + "'"@
    }

    /// Names the command and what could not be read.
    pub fn message(&self) -> (text: String)
        ensures
            text@ == Self::message_text(self.operation@, self.output@),
    {
        let mut text = String::from_str("Failed to read the answer to 'git ");
        text.append(self.operation.as_str());
        text.append("': '");
        text.append(self.output.as_str());
        text.append("'");
        text
    }
}

/// A command of one argument.
fn command1(first: &str, echo: bool) -> (command: GitCommand)
    ensures
        command@ == (GitCommandView { arguments: seq![first@], echo }),
{
    let mut arguments: Vec<String> = Vec::new();
    arguments.push(String::from_str(first));
    assert(texts_of(arguments@) == seq![first@]);
    GitCommand { arguments, echo }
}

/// A command of two arguments.
fn command2(first: &str, second: &str, echo: bool) -> (command: GitCommand)
    ensures
        command@ == (GitCommandView { arguments: seq![first@, second@], echo }),
{
    let mut arguments: Vec<String> = Vec::new();
    arguments.push(String::from_str(first));
    arguments.push(String::from_str(second));
    assert(texts_of(arguments@) == seq![first@, second@]);
    GitCommand { arguments, echo }
}

/// A command of three arguments.
fn command3(first: &str, second: &str, third: &str, echo: bool) -> (command: GitCommand)
    ensures
        command@ == (GitCommandView { arguments: seq![first@, second@, third@], echo }),
{
    let mut arguments: Vec<String> = Vec::new();
    arguments.push(String::from_str(first));
    arguments.push(String::from_str(second));
    arguments.push(String::from_str(third));
    assert(texts_of(arguments@) == seq![first@, second@, third@]);
    GitCommand { arguments, echo }
}

/// Asks where the repository's metadata is.
pub fn git_dir_query() -> (command: GitCommand)
    ensures
        command@ == (GitCommandView { arguments: seq!["rev-parse"@, "--git-dir"@], echo: false }),
{
    command2("rev-parse", "--git-dir", false)
}

/// Whether the answer to `git_dir_query` says that the current directory is
/// the root of a repository: it is `.git`, white space aside.
pub open spec fn names_repo_root(output: Seq<char>) -> bool {
    trim(output) == ".git"@
}

/// Reads the answer to `git_dir_query`.
pub fn is_git_repo_root_dir(output: &str) -> (b: bool)
    ensures
        b == names_repo_root(output@),
{
    let answer = string_of(&trim_chars(&chars_of(output)));
    let expected = String::from_str(".git");
    answer == expected
}

/// Creates a repository in the current directory.
pub fn init_git() -> (command: GitCommand)
    ensures
        command@ == (GitCommandView { arguments: seq!["init"@], echo: true }),
{
    command1("init", true)
}

/// Puts `paths` under version control.
pub fn add_file(paths: &Vec<String>) -> (command: GitCommand)
    ensures
        command@ == (GitCommandView {
            arguments: seq!["add"@] + texts_of(paths@),
            echo: false,
        }),
{
    let mut arguments: Vec<String> = Vec::new();
    arguments.push(String::from_str("add"));
    let mut i: usize = 0;
    while i < paths.len()
        invariant
            i <= paths.len(),
            texts_of(arguments@) == seq!["add"@] + texts_of(paths@).take(i as int),
        decreases paths.len() - i,
    {
        let ghost before = texts_of(arguments@);
        let path = paths[i].clone();
        arguments.push(path);
        proof {
            assert(texts_of(arguments@) == before.push(paths@[i as int]@));
        }
        i += 1;
    }
    proof {
        assert(texts_of(paths@).take(paths@.len() as int) == texts_of(paths@));
    }
    GitCommand { arguments, echo: false }
}

/// Stages what was modified or deleted among the files under version control.
pub fn stage_files() -> (command: GitCommand)
    ensures
        command@ == (GitCommandView { arguments: seq!["add"@, "-u"@], echo: true }),
{
    command2("add", "-u", true)
}

/// Takes `path` out of version control.
pub fn rm_file(path: &str) -> (command: GitCommand)
    ensures
        command@ == (GitCommandView { arguments: seq!["rm"@, path@], echo: false }),
{
    command2("rm", path, false)
}

/// Asks for the short status of `path`.
pub fn file_status_query(path: &str) -> (command: GitCommand)
    ensures
        command@ == (GitCommandView { arguments: seq!["status"@, "-s"@, path@], echo: false }),
{
    command3("status", "-s", path, false)
}

/// The status that the answer to `file_status_query` gives: its first two
/// characters. No answer at all stands for two blanks. An answer of one
/// character gives none.
pub open spec fn file_status_of(output: Seq<char>) -> Option<GitFileStatus> {
    if output.len() == 0 {
        Some(GitFileStatus { index_status: ' ', working_tree_status: ' ' })
    } else if output.len() >= 2 {
        Some(GitFileStatus { index_status: output[0], working_tree_status: output[1] })
    } else {
        None
    }
}

/// Reads the answer to `file_status_query`.
pub fn get_file_status(output: &str) -> (r: Result<GitFileStatus, VersionControlError>)
    ensures
        match r {
            Ok(status) => file_status_of(output@) == Some(status),
            Err(error) => file_status_of(output@) is None && error.output@ == output@
                && error.operation@ == "status -s"@,
        },
{
    let status = chars_of(output);
    if status.len() == 0 {
        Ok(GitFileStatus { index_status: ' ', working_tree_status: ' ' })
    } else if status.len() >= 2 {
        Ok(GitFileStatus { index_status: status[0], working_tree_status: status[1] })
    } else {
        Err(
            VersionControlError {
                operation: String::from_str("status -s"),
                output: String::from_str(output),
            },
        )
    }
}

/// Asks for the status of the working tree in long form.
pub fn status_query() -> (command: GitCommand)
    ensures
        command@ == (GitCommandView { arguments: seq!["status"@], echo: false }),
{
    command1("status", false)
}

/// Whether the answer to `status_query` reports staged changes.
pub open spec fn reports_staged(output: Seq<char>) -> bool {
    contains(output, "Changes to be committed:"@)
}

/// Reads the answer to `status_query`.
pub fn is_any_file_staged(output: &str) -> (b: bool)
    ensures
        b == reports_staged(output@),
{
    contains_chars(&chars_of(output), &chars_of("Changes to be committed:"))
}

/// Asks for the status of the working tree in short form.
pub fn short_status_query() -> (command: GitCommand)
    ensures
        command@ == (GitCommandView { arguments: seq!["status"@, "-s"@], echo: false }),
{
    command2("status", "-s", false)
}

/// Whether two characters are the code of a path that was changed on both
/// sides of a merge.
pub open spec fn is_conflict_code(index: char, tree: char) -> bool {
    ||| index == 'A' && tree == 'A'
    ||| index == 'A' && tree == 'U'
    ||| index == 'D' && tree == 'D'
    ||| index == 'D' && tree == 'U'
    ||| index == 'U' && tree == 'A'
    ||| index == 'U' && tree == 'D'
    ||| index == 'U' && tree == 'U'
}

/// Whether a line of short status has room for a code.
pub open spec fn has_code(line: Seq<char>) -> bool {
    line.len() >= 2
}

/// Whether a line of short status reports a conflict.
pub open spec fn reports_conflict(line: Seq<char>) -> bool {
    has_code(line) && is_conflict_code(line[0], line[1])
}

/// Tells whether two characters are a conflict code.
pub fn conflict_code(index: char, tree: char) -> (b: bool)
    ensures
        b == is_conflict_code(index, tree),
{
    (index == 'A' && tree == 'A') || (index == 'A' && tree == 'U') || (index == 'D' && tree
        == 'D') || (index == 'D' && tree == 'U') || (index == 'U' && tree == 'A') || (index == 'U'
        && tree == 'D') || (index == 'U' && tree == 'U')
}

/// What the lines of a short status say about conflicts, read in order: a
/// line that reports a conflict makes the answer `true`, a line without room
/// for a code makes it an error that holds the line, and whichever comes
/// first decides. Without either the answer is `false`.
pub open spec fn conflict_scan(lines: Seq<Seq<char>>) -> Result<bool, Seq<char>>
    decreases lines.len(),
{
    if lines.len() == 0 {
        Ok(false)
    } else if !has_code(lines[0]) {
        Err(lines[0])
    } else if reports_conflict(lines[0]) {
        Ok(true)
    } else {
        conflict_scan(lines.drop_first())
    }
}

/// Reads the answer to `short_status_query`.
pub fn is_any_file_conflicting(output: &str) -> (r: Result<bool, VersionControlError>)
    ensures
        match r {
            Ok(found) => conflict_scan(lines(output@)) == Ok::<bool, Seq<char>>(found),
            Err(error) => conflict_scan(lines(output@)) == Err::<bool, Seq<char>>(error.output@)
                && error.operation@ == "status -s"@,
        },
{
    let all = lines_of(&chars_of(output));
    let ghost all_lines = lines(output@);
    let mut i: usize = 0;
    proof {
        assert(all_lines.skip(0) == all_lines);
    }
    while i < all.len()
        invariant
            i <= all.len(),
            seqs_of(all@) == all_lines,
            all_lines == lines(output@),
            conflict_scan(all_lines.skip(i as int)) == conflict_scan(all_lines),
        decreases all.len() - i,
    {
        let line = &all[i];
        proof {
            assert(all_lines.skip(i as int).drop_first() == all_lines.skip(i as int + 1));
        }
        if line.len() < 2 {
            return Err(
                VersionControlError {
                    operation: String::from_str("status -s"),
                    output: string_of(line),
                },
            );
        }
        if conflict_code(line[0], line[1]) {
            return Ok(true);
        }
        i += 1;
    }
    Ok(false)
}

/// Records the staged changes under `message` if the answer to
/// `status_query`, asked after `stage_files`, reports any.
pub fn commit_staged_files(message: &str, status_output: &str) -> (command: Option<GitCommand>)
    ensures
        match command {
            Some(commit) => reports_staged(status_output@) && commit@ == (GitCommandView {
                arguments: seq!["commit"@, "-m"@, message@],
                echo: true,
            }),
            None => !reports_staged(status_output@),
        },
{
    if is_any_file_staged(status_output) {
        Some(command3("commit", "-m", message, true))
    } else {
        None
    }
}

/// Takes over the state of the remote repository: fetches it, then resets
/// the working tree to it.
pub fn fetch() -> (commands: Vec<GitCommand>)
    ensures
        commands_view(commands@) == seq![
            GitCommandView { arguments: seq!["fetch"@, "origin"@], echo: true },
            GitCommandView { arguments: seq!["reset"@, "--hard"@, "origin/master"@], echo: true },
        ],
{
    let mut commands: Vec<GitCommand> = Vec::new();
    let first = command2("fetch", "origin", true);
    let second = command3("reset", "--hard", "origin/master", true);
    commands.push(first);
    commands.push(second);
    commands
}

/// Sends the commits to the remote repository.
pub fn push() -> (command: GitCommand)
    ensures
        command@ == (GitCommandView { arguments: seq!["push"@], echo: true }),
{
    command1("push", true)
}

/// Sends the commits to the remote repository and lets them replace what
/// is there.
pub fn force_push() -> (command: GitCommand)
    ensures
        command@ == (GitCommandView { arguments: seq!["push"@, "--force"@], echo: true }),
{
    command2("push", "--force", true)
}

} // verus!
