//! Making one destination a link to its source.
//!
//! Nothing here touches the file system. The caller probes the two paths,
//! the functions of this module decide from the probe what has to be done,
//! and the caller carries the actions out in the order given.

use crate::path::{path_starts_with, starts_with};
use vstd::prelude::*;
use vstd::string::StringExecFns;

verus! {

/// What a path leads to, symbolic links followed.
#[derive(Debug, Clone, Copy, PartialEq, Eq, Structural)]
pub enum PathKind {
    Missing,
    File,
    Directory,
}

/// One operation on the file system.
#[derive(Debug, Clone)]
pub enum LinkAction {
    /// Create the directory that is to hold `link`, with all its ancestors.
    CreateParents { link: String },
    /// Create `link` as a hard link to the file `original`.
    HardLink { original: String, link: String },
    /// Create `link` as a symbolic link to the directory `original`.
    SymbolicLink { original: String, link: String },
    /// Remove the file `path`.
    RemoveFile { path: String },
    /// Remove the directory `path` with all that it holds.
    RemoveDirectory { path: String },
}

/// What a `LinkAction` says.
pub enum LinkActionView {
    CreateParents { link: Seq<char> },
    HardLink { original: Seq<char>, link: Seq<char> },
    SymbolicLink { original: Seq<char>, link: Seq<char> },
    RemoveFile { path: Seq<char> },
    RemoveDirectory { path: Seq<char> },
}

impl View for LinkAction {
    type V = LinkActionView;

    open spec fn view(&self) -> LinkActionView {
        match self {
            LinkAction::CreateParents { link } => LinkActionView::CreateParents { link: link@ },
            LinkAction::HardLink { original, link } => LinkActionView::HardLink {
                original: original@,
                link: link@,
            },
            LinkAction::SymbolicLink { original, link } => LinkActionView::SymbolicLink {
                original: original@,
                link: link@,
            },
            LinkAction::RemoveFile { path } => LinkActionView::RemoveFile { path: path@ },
            LinkAction::RemoveDirectory { path } => LinkActionView::RemoveDirectory {
                path: path@,
            },
        }
    }
}

/// The views of a sequence of actions.
pub open spec fn actions_view(actions: Seq<LinkAction>) -> Seq<LinkActionView> {
    Seq::new(actions.len(), |i: int| actions[i]@)
}

/// What the caller found out about a source (`original`) and a destination
/// (`link`) before anything is changed.
#[derive(Debug, Clone)]
pub struct LinkProbe {
    /// What the source leads to.
    pub original: PathKind,
    /// What the destination leads to.
    pub link: PathKind,
    /// Whether both lead to the same underlying file, where the comparison
    /// could be made.
    pub same_file: Option<bool>,
    /// The canonical path of the destination, where it could be had.
    pub canonical_link: Option<String>,
}

/// What a `LinkProbe` says.
pub struct LinkProbeView {
    pub original: PathKind,
    pub link: PathKind,
    pub same_file: Option<bool>,
    pub canonical_link: Option<Seq<char>>,
}

impl View for LinkProbe {
    type V = LinkProbeView;

    open spec fn view(&self) -> LinkProbeView {
        LinkProbeView {
            original: self.original,
            link: self.link,
            same_file: self.same_file,
            canonical_link: match self.canonical_link {
                Some(path) => Some(path@),
                None => None,
            },
        }
    }
}

/// Why a destination could not be made a link.
#[derive(Debug, Clone)]
pub enum LinkError {
    /// Something else is at the destination, and it lies outside the working
    /// directory: it is not ours to remove.
    Conflict { original: String, link: String },
    /// Something else is at the destination, and the file system did not
    /// tell where it lies.
    Filesystem { path: String },
}

/// What a `LinkError` says.
pub enum LinkErrorView {
    Conflict { original: Seq<char>, link: Seq<char> },
    Filesystem { path: Seq<char> },
}

impl View for LinkError {
    type V = LinkErrorView;

    open spec fn view(&self) -> LinkErrorView {
        match self {
            LinkError::Conflict { original, link } => LinkErrorView::Conflict {
                original: original@,
                link: link@,
            },
            LinkError::Filesystem { path } => LinkErrorView::Filesystem { path: path@ },
        }
    }
}

impl LinkError {
    /// The text shown to the user for an error.
    pub open spec fn message_text(error: LinkErrorView) -> Seq<char> {
        match error {
            LinkErrorView::Conflict { original, link } => "Failed to link '"@ + original
                + "' as '"@ + link + "', since a different file already exists there"@,
            LinkErrorView::Filesystem { path } => "Failed to resolve '"@ + path + "'"@,
        }
    }

    /// Names the paths that the error is about.
    pub fn message(&self) -> (text: String)
        ensures
            text@ == Self::message_text(self@),
    {
        match self {
            LinkError::Conflict { original, link } => {
                let mut text = String::from_str("Failed to link '");
                text.append(original.as_str());
                text.append("' as '");
                text.append(link.as_str());
                text.append("', since a different file already exists there");
                text
            },
            LinkError::Filesystem { path } => {
                let mut text = String::from_str("Failed to resolve '");
                text.append(path.as_str());
                text.append("'");
                text
            },
        }
    }
}

/// What is to be done for one source/destination pair, and whether the
/// destination is a live link once it is done.
#[derive(Debug, Clone)]
pub struct LinkPlan {
    pub actions: Vec<LinkAction>,
    pub live: bool,
}

/// What a `LinkPlan` says.
pub struct LinkPlanView {
    pub actions: Seq<LinkActionView>,
    pub live: bool,
}

impl View for LinkPlan {
    type V = LinkPlanView;

    open spec fn view(&self) -> LinkPlanView {
        LinkPlanView { actions: actions_view(self.actions@), live: self.live }
    }
}

/// The guard on every removal: a path may be removed only if its canonical
/// form lies at or below the canonical working directory.
pub open spec fn within_managed_tree(canonical_path: Seq<char>, working_dir: Seq<char>) -> bool {
    starts_with(canonical_path, working_dir)
}

/// The action that creates `link`: a symbolic link to a directory, a hard
/// link to anything else.
pub open spec fn link_action(original: Seq<char>, kind: PathKind, link: Seq<char>) -> LinkActionView {
    if kind == PathKind::Directory {
        LinkActionView::SymbolicLink { original, link }
    } else {
        LinkActionView::HardLink { original, link }
    }
}

/// The actions that remove what is at `path`.
pub open spec fn removal(path: Seq<char>, kind: PathKind) -> Seq<LinkActionView> {
    match kind {
        PathKind::Missing => Seq::empty(),
        PathKind::File => seq![LinkActionView::RemoveFile { path }],
        PathKind::Directory => seq![LinkActionView::RemoveDirectory { path }],
    }
}

/// The actions that create `link` where nothing is in its place.
pub open spec fn creation(original: Seq<char>, kind: PathKind, link: Seq<char>) -> Seq<
    LinkActionView,
> {
    seq![LinkActionView::CreateParents { link }, link_action(original, kind, link)]
}

/// Whether the probe found source and destination to be the same file. A
/// comparison that could not be made counts as a difference.
pub open spec fn identical(probe: LinkProbeView) -> bool {
    probe.same_file == Some(true)
}

/// What is to be done where the destination exists: nothing if it already
/// is the source; else, if the guard allows it, removal and creation.
pub open spec fn replacement(
    original: Seq<char>,
    link: Seq<char>,
    probe: LinkProbeView,
    working_dir: Seq<char>,
) -> Result<Seq<LinkActionView>, LinkErrorView> {
    if identical(probe) {
        Ok(Seq::empty())
    } else {
        match probe.canonical_link {
            None => Err(LinkErrorView::Filesystem { path: link }),
            Some(canonical) => if within_managed_tree(canonical, working_dir) {
                Ok(removal(link, probe.link) + creation(original, probe.original, link))
            } else {
                Err(LinkErrorView::Conflict { original, link })
            },
        }
    }
}

/// What is to be done for one pair. A missing source is passed over; a
/// missing destination is created; an existing one is replaced.
pub open spec fn plan_for(
    original: Seq<char>,
    link: Seq<char>,
    probe: LinkProbeView,
    working_dir: Seq<char>,
) -> Result<LinkPlanView, LinkErrorView> {
    if probe.original == PathKind::Missing {
        Ok(LinkPlanView { actions: Seq::empty(), live: false })
    } else if probe.link == PathKind::Missing {
        Ok(LinkPlanView { actions: creation(original, probe.original, link), live: true })
    } else {
        match replacement(original, link, probe, working_dir) {
            Ok(actions) => Ok(LinkPlanView { actions, live: true }),
            Err(error) => Err(error),
        }
    }
}

/// Tells whether a canonical path lies in the managed tree.
pub fn is_within_managed_tree(canonical_path: &str, working_dir: &str) -> (b: bool)
    ensures
        b == within_managed_tree(canonical_path@, working_dir@),
{
    path_starts_with(canonical_path, working_dir)
}

/// The action that links `link` to `original`.
pub fn link_path(original: &str, kind: PathKind, link: &str) -> (action: LinkAction)
    ensures
        action@ == link_action(original@, kind, link@),
{
    match kind {
        PathKind::Directory => LinkAction::SymbolicLink {
            original: String::from_str(original),
            link: String::from_str(link),
        },
        _ => LinkAction::HardLink {
            original: String::from_str(original),
            link: String::from_str(link),
        },
    }
}

/// The actions that remove what is at `path`, if anything is.
pub fn remove_from_fs(path: &str, kind: PathKind) -> (actions: Vec<LinkAction>)
    ensures
        actions_view(actions@) == removal(path@, kind),
{
    let mut actions: Vec<LinkAction> = Vec::new();
    match kind {
        PathKind::Missing => {},
        PathKind::File => {
            let action = LinkAction::RemoveFile { path: String::from_str(path) };
            actions.push(action);
        },
        PathKind::Directory => {
            let action = LinkAction::RemoveDirectory { path: String::from_str(path) };
            actions.push(action);
        },
    }
    actions
}

/// Adds to `actions` what creates `link` where nothing is in its place.
pub fn create_new_link(actions: &mut Vec<LinkAction>, original: &str, kind: PathKind, link: &str)
    ensures
        actions_view(final(actions)@) == actions_view(old(actions)@) + creation(
            original@,
            kind,
            link@,
        ),
{
    let parents = LinkAction::CreateParents { link: String::from_str(link) };
    let new_link = link_path(original, kind, link);
    actions.push(parents);
    actions.push(new_link);
}

/// Decides what is to be done about an existing destination.
pub fn replace_existing_with_link(
    original: &str,
    link: &str,
    probe: &LinkProbe,
    working_dir: &str,
) -> (r: Result<Vec<LinkAction>, LinkError>)
    ensures
        match r {
            Ok(actions) => replacement(original@, link@, probe@, working_dir@) == Ok::<
                Seq<LinkActionView>,
                LinkErrorView,
            >(actions_view(actions@)),
            Err(error) => replacement(original@, link@, probe@, working_dir@) == Err::<
                Seq<LinkActionView>,
                LinkErrorView,
            >(error@),
        },
{
    let same = match probe.same_file {
        Some(same) => same,
        None => false,
    };
    if same {
        let actions: Vec<LinkAction> = Vec::new();
        assert(actions_view(actions@) == Seq::<LinkActionView>::empty());
        return Ok(actions);
    }
    match &probe.canonical_link {
        None => Err(LinkError::Filesystem { path: String::from_str(link) }),
        Some(canonical) => {
            if is_within_managed_tree(canonical.as_str(), working_dir) {
                let mut actions = remove_from_fs(link, probe.link);
                create_new_link(&mut actions, original, probe.original, link);
                Ok(actions)
            } else {
                Err(
                    LinkError::Conflict {
                        original: String::from_str(original),
                        link: String::from_str(link),
                    },
                )
            }
        },
    }
}

/// Decides what is to be done so that `link` is a link to `original`.
///
/// A source that does not exist is passed over: no action, and no live link.
/// The call fails, with no action handed out, exactly where something other
/// than the source is at the destination and either its canonical path lies
/// outside the working directory or that path is not known.
pub fn ensure_link_upto_date(
    original: &str,
    link: &str,
    probe: &LinkProbe,
    working_dir: &str,
) -> (r: Result<LinkPlan, LinkError>)
    ensures
        match r {
            Ok(plan) => plan_for(original@, link@, probe@, working_dir@) == Ok::<
                LinkPlanView,
                LinkErrorView,
            >(plan@),
            Err(error) => plan_for(original@, link@, probe@, working_dir@) == Err::<
                LinkPlanView,
                LinkErrorView,
            >(error@),
        },
{
    match probe.original {
        PathKind::Missing => {
            let actions: Vec<LinkAction> = Vec::new();
            assert(actions_view(actions@) == Seq::<LinkActionView>::empty());
            Ok(LinkPlan { actions, live: false })
        },
        _ => {
            match probe.link {
                PathKind::Missing => {
                    let mut actions: Vec<LinkAction> = Vec::new();
                    create_new_link(&mut actions, original, probe.original, link);
                    Ok(LinkPlan { actions, live: true })
                },
                _ => {
                    match replace_existing_with_link(original, link, probe, working_dir) {
                        Ok(actions) => Ok(LinkPlan { actions, live: true }),
                        Err(error) => Err(error),
                    }
                },
            }
        },
    }
}

/// The guard holds of every plan: a plan removes nothing but the link, and
/// removes it only where the probe found its canonical path within the
/// working directory.
pub proof fn lemma_removal_is_guarded(
    original: Seq<char>,
    link: Seq<char>,
    probe: LinkProbeView,
    working_dir: Seq<char>,
    index: int,
)
    requires
        plan_for(original, link, probe, working_dir) is Ok,
        0 <= index < plan_for(original, link, probe, working_dir)->Ok_0.actions.len(),
    ensures
        ({
            let action = plan_for(original, link, probe, working_dir)->Ok_0.actions[index];
            let guarded = probe.canonical_link matches Some(canonical) && within_managed_tree(
                canonical,
                working_dir,
            );
            match action {
                LinkActionView::RemoveFile { path } => path == link && guarded,
                LinkActionView::RemoveDirectory { path } => path == link && guarded,
                _ => true,
            }
        }),
{
}

/// Linking is idempotent: where the probe found the destination to be the
/// source already, the plan holds no action and the link counts as live.
pub proof fn lemma_identical_is_left_alone(
    original: Seq<char>,
    link: Seq<char>,
    probe: LinkProbeView,
    working_dir: Seq<char>,
)
    requires
        probe.original != PathKind::Missing,
        probe.link != PathKind::Missing,
        identical(probe),
    ensures
        plan_for(original, link, probe, working_dir) == Ok::<LinkPlanView, LinkErrorView>(
            LinkPlanView { actions: Seq::empty(), live: true },
        ),
{
}

} // verus!
