//! The passes over a working directory: linking the resolved pairs, handing
//! the links to version control, and cleaning up.
//!
//! Each pass is driven by the caller, who probes the file system, asks this
//! module what to do, and does it.

use crate::config::{Mapping, MappingView};
use crate::git::{
    add_file, commands_view, file_status_query, init_git, is_git_repo_root_dir, names_repo_root,
    rm_file, GitCommand, GitCommandView, GitFileStatus,
};
use crate::path::{
    is_absolute, is_same_path, join, join_paths, lemma_joined_lies_below, same_path, starts_with,
};
use crate::reconciler::{
    actions_view, ensure_link_upto_date, plan_for, removal, remove_from_fs, LinkAction,
    LinkActionView, LinkError, LinkErrorView, LinkPlanView, LinkProbe, PathKind,
};
use crate::text::texts_of;
use vstd::prelude::*;

verus! {

/// Where the link of a resolved pair goes: its destination, seen from the
/// working directory.
pub open spec fn link_of(mapping: MappingView, working_dir: Seq<char>) -> Seq<char> {
    join(working_dir, mapping.destination)
}

/// The link of a pair whose destination is not absolute lies at or below the
/// working directory, as far as the text of the paths tells.
pub proof fn lemma_relative_link_lies_below(mapping: MappingView, working_dir: Seq<char>)
    requires
        !is_absolute(mapping.destination),
    ensures
        starts_with(link_of(mapping, working_dir), working_dir),
{
    lemma_joined_lies_below(working_dir, mapping.destination);
}

/// The path at which `mapping` is to be linked.
pub fn link_target(mapping: &Mapping, working_dir: &str) -> (link: String)
    ensures
        link@ == link_of(mapping@, working_dir@),
{
    join_paths(working_dir, mapping.destination.as_str())
}

/// How far a pass over the resolved pairs has come: the index of the pair
/// that is next, and the links that are live so far.
#[derive(Debug)]
pub struct LinkPass {
    pub position: usize,
    pub linked: Vec<String>,
}

impl LinkPass {
    /// A pass that has not started.
    pub fn new() -> (pass: LinkPass)
        ensures
            pass.position == 0,
            pass.linked@.len() == 0,
    {
        LinkPass { position: 0, linked: Vec::new() }
    }
}

/// One step of the linking pass: decides what is to be done for the pair at
/// `pass.position`, given what the caller found out about its source and its
/// link, and moves on to the next pair. The link is recorded as live unless
/// the source is missing. On an error the pass stays where it is, and so it
/// does, with nothing to be done, once all pairs have had their turn.
pub fn link_mappings(
    mappings: &Vec<Mapping>,
    working_dir: &str,
    pass: &mut LinkPass,
    probe: &LinkProbe,
) -> (r: Result<Vec<LinkAction>, LinkError>)
    ensures
        old(pass).position >= mappings@.len() ==> {
            &&& r matches Ok(actions)
            &&& actions@.len() == 0
            &&& *final(pass) == *old(pass)
        },
        old(pass).position < mappings@.len() ==> ({
            let mapping = mappings@[old(pass).position as int]@;
            let link = link_of(mapping, working_dir@);
            let decision = plan_for(mapping.source, link, probe@, working_dir@);
            match r {
                Ok(actions) => {
                    &&& decision matches Ok(plan)
                    &&& plan.actions == actions_view(actions@)
                    &&& final(pass).position == old(pass).position + 1
                    &&& texts_of(final(pass).linked@) == if plan.live {
                        texts_of(old(pass).linked@).push(link)
                    } else {
                        texts_of(old(pass).linked@)
                    }
                },
                Err(error) => {
                    &&& decision == Err::<LinkPlanView, LinkErrorView>(error@)
                    &&& *final(pass) == *old(pass)
                },
            }
        }),
{
    let position: usize = pass.position;
    if position >= mappings.len() {
        return Ok(Vec::new());
    }
    let mapping = &mappings[position];
    let link = link_target(mapping, working_dir);
    match ensure_link_upto_date(mapping.source.as_str(), link.as_str(), probe, working_dir) {
        Ok(plan) => {
            if plan.live {
                pass.linked.push(link);
            }
            pass.position = position + 1;
            Ok(plan.actions)
        },
        Err(error) => Err(error),
    }
}

/// How many paths are handed to version control in one command at most.
pub const BATCH_SIZE: usize = 16;

/// The number of commands that `count` paths take.
pub open spec fn batch_count(count: nat) -> nat {
    (count + 15) / 16
}

/// The paths of command `index`: sixteen of them, or what is left for the
/// last command.
pub open spec fn batch(paths: Seq<Seq<char>>, index: int) -> Seq<Seq<char>> {
    let end = if 16 * index + 16 <= paths.len() {
        16 * index + 16
    } else {
        paths.len() as int
    };
    paths.subrange(16 * index, end)
}

/// The commands that put `paths` under version control, sixteen paths to a
/// command, in the order of the paths.
pub fn track_links(paths: &Vec<String>) -> (commands: Vec<GitCommand>)
    ensures
        commands@.len() == batch_count(paths@.len()),
        forall|k: int|
            0 <= k < commands@.len() ==> (#[trigger] commands@[k])@ == (GitCommandView {
                arguments: seq!["add"@] + batch(texts_of(paths@), k),
                echo: false,
            }),
{
    let n: usize = paths.len();
    let ghost all = texts_of(paths@);
    let mut commands: Vec<GitCommand> = Vec::new();
    let mut start: usize = 0;
    while start < n
        invariant
            start <= n,
            n == paths.len(),
            all == texts_of(paths@),
            start == 16 * commands@.len() || start == n,
            commands@.len() == batch_count(start as nat),
            forall|k: int|
                0 <= k < commands@.len() ==> (#[trigger] commands@[k])@ == (GitCommandView {
                    arguments: seq!["add"@] + batch(all, k),
                    echo: false,
                }),
        decreases n - start,
    {
        let end: usize = if n - start > BATCH_SIZE {
            start + BATCH_SIZE
        } else {
            n
        };
        let mut chosen: Vec<String> = Vec::new();
        let mut i: usize = start;
        while i < end
            invariant
                start <= i <= end <= n,
                n == paths.len(),
                all == texts_of(paths@),
                texts_of(chosen@) == all.subrange(start as int, i as int),
            decreases end - i,
        {
            let ghost before = texts_of(chosen@);
            chosen.push(paths[i].clone());
            proof {
                assert(texts_of(chosen@) == before.push(paths@[i as int]@));
            }
            i += 1;
        }
        let command = add_file(&chosen);
        commands.push(command);
        start = end;
    }
    commands
}

/// Whether `entry` is one of the entries of the working directory that a
/// cleaning pass never touches: the configuration file, the metadata of
/// version control, and the license.
pub open spec fn is_protected(working_dir: Seq<char>, entry: Seq<char>) -> bool {
    ||| same_path(entry, join(working_dir, "config.cmf"@))
    ||| same_path(entry, join(working_dir, ".git"@))
    ||| same_path(entry, join(working_dir, "LICENSE"@))
}

/// Tells whether a cleaning pass must leave `entry` alone whatever version
/// control says of it.
pub fn is_protected_entry(working_dir: &str, entry: &str) -> (b: bool)
    ensures
        b == is_protected(working_dir@, entry@),
{
    let config = join_paths(working_dir, "config.cmf");
    let metadata = join_paths(working_dir, ".git");
    let license = join_paths(working_dir, "LICENSE");
    is_same_path(entry, config.as_str()) || is_same_path(entry, metadata.as_str())
        || is_same_path(entry, license.as_str())
}

/// What a cleaning pass does next about one entry of the working directory.
#[derive(Debug)]
pub enum CleanStep {
    /// Leave the entry as it is.
    Keep,
    /// Run the command and come back with the status that it reports.
    AskStatus { query: GitCommand },
    /// Carry out the actions, then run the command.
    Remove { actions: Vec<LinkAction>, unstage: GitCommand },
}

/// What a `CleanStep` says.
pub enum CleanStepView {
    Keep,
    AskStatus { query: GitCommandView },
    Remove { actions: Seq<LinkActionView>, unstage: GitCommandView },
}

impl View for CleanStep {
    type V = CleanStepView;

    open spec fn view(&self) -> CleanStepView {
        match self {
            CleanStep::Keep => CleanStepView::Keep,
            CleanStep::AskStatus { query } => CleanStepView::AskStatus { query: query@ },
            CleanStep::Remove { actions, unstage } => CleanStepView::Remove {
                actions: actions_view(actions@),
                unstage: unstage@,
            },
        }
    }
}

/// The next step for `entry`. A protected entry is kept. Of any other the
/// status is asked first; an ignored entry is kept, and any other is removed
/// from the file system and then from version control.
pub open spec fn clean_step(
    working_dir: Seq<char>,
    entry: Seq<char>,
    kind: PathKind,
    status: Option<GitFileStatus>,
) -> CleanStepView {
    if is_protected(working_dir, entry) {
        CleanStepView::Keep
    } else {
        match status {
            None => CleanStepView::AskStatus {
                query: GitCommandView { arguments: seq!["status"@, "-s"@, entry], echo: false },
            },
            Some(known) => if known.ignored() {
                CleanStepView::Keep
            } else {
                CleanStepView::Remove {
                    actions: removal(entry, kind),
                    unstage: GitCommandView { arguments: seq!["rm"@, entry], echo: false },
                }
            },
        }
    }
}

/// Decides the next step of a cleaning pass for one entry of the working
/// directory, given what the entry leads to and, once it was asked, its
/// status.
pub fn clean_working_dir(
    working_dir: &str,
    entry: &str,
    kind: PathKind,
    status: Option<GitFileStatus>,
) -> (step: CleanStep)
    ensures
        step@ == clean_step(working_dir@, entry@, kind, status),
{
    if is_protected_entry(working_dir, entry) {
        return CleanStep::Keep;
    }
    match status {
        None => CleanStep::AskStatus { query: file_status_query(entry) },
        Some(known) => {
            if known.is_ignored() {
                CleanStep::Keep
            } else {
                CleanStep::Remove { actions: remove_from_fs(entry, kind), unstage: rm_file(entry) }
            }
        },
    }
}

/// What setting a working directory up takes.
#[derive(Debug)]
pub struct InitPlan {
    /// Where the configuration file is.
    pub config_path: String,
    /// Whether the sample configuration has to be written there first.
    pub write_sample: bool,
    /// The commands to run after that, in order.
    pub commands: Vec<GitCommand>,
}

/// The commands of an `InitPlan`: a repository is created unless the
/// working directory is the root of one, and the configuration file is put
/// under version control.
pub open spec fn init_commands(config_path: Seq<char>, git_dir_output: Seq<char>) -> Seq<
    GitCommandView,
> {
    let track = GitCommandView { arguments: seq!["add"@, config_path], echo: false };
    if names_repo_root(git_dir_output) {
        seq![track]
    } else {
        seq![GitCommandView { arguments: seq!["init"@], echo: true }, track]
    }
}

/// Decides what setting the working directory up takes, given whether its
/// configuration file exists and the answer to `git_dir_query`.
pub fn init_working_dir(working_dir: &str, config_exists: bool, git_dir_output: &str) -> (plan:
    InitPlan)
    ensures
        plan.config_path@ == join(working_dir@, "config.cmf"@),
        plan.write_sample == !config_exists,
        commands_view(plan.commands@) == init_commands(plan.config_path@, git_dir_output@),
{
    let config_path = join_paths(working_dir, "config.cmf");
    let mut commands: Vec<GitCommand> = Vec::new();
    let mut to_add: Vec<String> = Vec::new();
    to_add.push(config_path.clone());
    let track = add_file(&to_add);
    assert(track@.arguments == seq!["add"@, config_path@]);
    if is_git_repo_root_dir(git_dir_output) {
        commands.push(track);
    } else {
        let create = init_git();
        commands.push(create);
        commands.push(track);
    }
    InitPlan { config_path, write_sample: !config_exists, commands }
}

/// `batch_count` is the ceiling of a sixteenth: it is the least number of
/// commands of sixteen paths that hold `count` paths.
pub proof fn lemma_batch_count_is_ceiling(count: nat)
    ensures
        16 * batch_count(count) >= count,
        count > 0 ==> 16 * (batch_count(count) - 1) < count,
        count == 0 ==> batch_count(count) == 0,
{
}

} // verus!
