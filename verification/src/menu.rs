//! The states of the program and the moves between them.
//!
//! In every state but two there is one task to carry out, after which the
//! program asks what to do next. In `ActionSelection` the user chooses the
//! next state, and `Exit` is final.

use crate::git::{
    conflict_scan, force_push, is_any_file_conflicting, push, GitCommand, GitCommandView,
    VersionControlError,
};
use crate::path::same_chars;
use crate::text::{chars_of, lines, texts_of};
use vstd::prelude::*;
use vstd::string::StringExecFns;

verus! {

/// A state of the program.
#[derive(Debug, Clone, Copy, PartialEq, Eq, Structural)]
pub enum State {
    ActionSelection,
    Initialize,
    Clean,
    Refresh,
    Commit,
    Fetch,
    Push,
    Exit,
}

/// What is to be carried out in a state.
#[derive(Debug, Clone, Copy, PartialEq, Eq, Structural)]
pub enum Task {
    /// Ask the user for the next state.
    Select,
    /// Set the working directory up.
    Initialize,
    /// Remove what is managed from the working directory.
    Clean,
    /// Clean, resolve the rules, link and track.
    Refresh,
    /// Ask for a message and commit.
    Commit,
    /// Take over the state of the remote repository.
    Fetch,
    /// Send the commits to the remote repository.
    Push,
    /// Nothing is left to do.
    Stop,
}

/// The state that a word on the command line stands for.
pub open spec fn state_named(word: Seq<char>) -> Option<State> {
    if word == "options"@ {
        Some(State::ActionSelection)
    } else if word == "init"@ {
        Some(State::Initialize)
    } else if word == "clean"@ {
        Some(State::Clean)
    } else if word == "refresh"@ {
        Some(State::Refresh)
    } else if word == "commit"@ {
        Some(State::Commit)
    } else if word == "fetch"@ {
        Some(State::Fetch)
    } else if word == "push"@ {
        Some(State::Push)
    } else if word == "exit"@ {
        Some(State::Exit)
    } else {
        None
    }
}

/// What a state is called when it is offered to the user.
pub open spec fn description_of(state: State) -> Seq<char> {
    match state {
        State::ActionSelection => "Choose what to do next"@,
        State::Initialize => "Initialize current working directory"@,
        State::Clean => "Clean items"@,
        State::Refresh => "Refresh items"@,
        State::Commit => "Commit changes"@,
        State::Fetch => "Fetch from remote"@,
        State::Push => "Update remote"@,
        State::Exit => "Exit"@,
    }
}

/// The task of a state.
pub open spec fn task_of(state: State) -> Task {
    match state {
        State::ActionSelection => Task::Select,
        State::Initialize => Task::Initialize,
        State::Clean => Task::Clean,
        State::Refresh => Task::Refresh,
        State::Commit => Task::Commit,
        State::Fetch => Task::Fetch,
        State::Push => Task::Push,
        State::Exit => Task::Stop,
    }
}

/// The state that follows `state` once its task was carried out. `Exit`
/// stays. After a selection the choice follows; where none was made, the
/// selection is offered again. After every other task the selection follows.
pub open spec fn next_state(state: State, chosen: Option<State>) -> State {
    match state {
        State::Exit => State::Exit,
        State::ActionSelection => match chosen {
            Some(choice) => choice,
            None => State::ActionSelection,
        },
        _ => State::ActionSelection,
    }
}

/// Tells whether `word` is the text `name`.
fn is_word(word: &Vec<char>, name: &str) -> (b: bool)
    ensures
        b == (word@ == name@),
{
    same_chars(word, &chars_of(name))
}

impl State {
    /// The state that a word on the command line stands for, if it stands
    /// for one.
    pub fn from(str: &str) -> (state: Option<State>)
        ensures
            state == state_named(str@),
    {
        let word = chars_of(str);
        if is_word(&word, "options") {
            Some(State::ActionSelection)
        } else if is_word(&word, "init") {
            Some(State::Initialize)
        } else if is_word(&word, "clean") {
            Some(State::Clean)
        } else if is_word(&word, "refresh") {
            Some(State::Refresh)
        } else if is_word(&word, "commit") {
            Some(State::Commit)
        } else if is_word(&word, "fetch") {
            Some(State::Fetch)
        } else if is_word(&word, "push") {
            Some(State::Push)
        } else if is_word(&word, "exit") {
            Some(State::Exit)
        } else {
            None
        }
    }

    /// What the state is called when it is offered to the user.
    pub fn description(&self) -> (text: String)
        ensures
            text@ == description_of(*self),
    {
        match self {
            State::ActionSelection => String::from_str("Choose what to do next"),
            State::Initialize => String::from_str("Initialize current working directory"),
            State::Clean => String::from_str("Clean items"),
            State::Refresh => String::from_str("Refresh items"),
            State::Commit => String::from_str("Commit changes"),
            State::Fetch => String::from_str("Fetch from remote"),
            State::Push => String::from_str("Update remote"),
            State::Exit => String::from_str("Exit"),
        }
    }

    /// The task to carry out in this state.
    pub fn task(&self) -> (task: Task)
        ensures
            task == task_of(*self),
    {
        match self {
            State::ActionSelection => Task::Select,
            State::Initialize => Task::Initialize,
            State::Clean => Task::Clean,
            State::Refresh => Task::Refresh,
            State::Commit => Task::Commit,
            State::Fetch => Task::Fetch,
            State::Push => Task::Push,
            State::Exit => Task::Stop,
        }
    }
}

/// The states that the user can choose from, in the order in which they are
/// offered.
pub fn offered_actions() -> (actions: Vec<State>)
    ensures
        actions@ == seq![
            State::Initialize,
            State::Clean,
            State::Refresh,
            State::Commit,
            State::Fetch,
            State::Push,
            State::Exit,
        ],
{
    let mut actions: Vec<State> = Vec::new();
    actions.push(State::Initialize);
    actions.push(State::Clean);
    actions.push(State::Refresh);
    actions.push(State::Commit);
    actions.push(State::Fetch);
    actions.push(State::Push);
    actions.push(State::Exit);
    actions
}

/// The state that follows `state`, once the caller has carried out its task
/// and, in `ActionSelection`, has the user's choice.
pub fn run_once(state: State, chosen: Option<State>) -> (next: State)
    ensures
        next == next_state(state, chosen),
{
    match state {
        State::Exit => State::Exit,
        State::ActionSelection => match chosen {
            Some(choice) => choice,
            None => State::ActionSelection,
        },
        _ => State::ActionSelection,
    }
}

/// How the program starts.
#[derive(Debug, Clone)]
pub enum Launch {
    /// The menu runs until the user leaves it.
    Interactive,
    /// One state runs, and the program ends.
    Once { state: State },
    /// The one argument names no state.
    Invalid { word: String },
    /// There are too many arguments.
    Unclear,
}

/// What a `Launch` says.
pub enum LaunchView {
    Interactive,
    Once { state: State },
    Invalid { word: Seq<char> },
    Unclear,
}

impl View for Launch {
    type V = LaunchView;

    open spec fn view(&self) -> LaunchView {
        match self {
            Launch::Interactive => LaunchView::Interactive,
            Launch::Once { state } => LaunchView::Once { state: *state },
            Launch::Invalid { word } => LaunchView::Invalid { word: word@ },
            Launch::Unclear => LaunchView::Unclear,
        }
    }
}

/// How the program starts when called with `arguments`, of which the first
/// is the name of the program. Without a further argument, or with `-i`,
/// the menu runs. One other argument names the state to run once.
pub open spec fn launch_for(arguments: Seq<Seq<char>>) -> LaunchView {
    if arguments.len() <= 1 {
        LaunchView::Interactive
    } else if arguments.len() == 2 {
        if arguments[1] == "-i"@ {
            LaunchView::Interactive
        } else {
            match state_named(arguments[1]) {
                Some(state) => LaunchView::Once { state },
                None => LaunchView::Invalid { word: arguments[1] },
            }
        }
    } else {
        LaunchView::Unclear
    }
}

/// Decides from the arguments how the program starts.
pub fn launch(arguments: &Vec<String>) -> (start: Launch)
    ensures
        start@ == launch_for(texts_of(arguments@)),
{
    if arguments.len() <= 1 {
        Launch::Interactive
    } else if arguments.len() == 2 {
        let word = arguments[1].as_str();
        if is_word(&chars_of(word), "-i") {
            Launch::Interactive
        } else {
            match State::from(word) {
                Some(state) => Launch::Once { state },
                None => Launch::Invalid { word: arguments[1].clone() },
            }
        }
    } else {
        Launch::Unclear
    }
}

/// What pushing does next.
#[derive(Debug)]
pub enum PushStep {
    /// Run the command.
    Run { command: GitCommand },
    /// Ask the user whether the remote state may be replaced, and come back
    /// with the answer.
    Confirm,
    /// Do nothing: the user declined.
    Skip,
}

/// What a `PushStep` says.
pub enum PushStepView {
    Run { command: GitCommandView },
    Confirm,
    Skip,
}

impl View for PushStep {
    type V = PushStepView;

    open spec fn view(&self) -> PushStepView {
        match self {
            PushStep::Run { command } => PushStepView::Run { command: command@ },
            PushStep::Confirm => PushStepView::Confirm,
            PushStep::Skip => PushStepView::Skip,
        }
    }
}

/// The next step of pushing. Without conflicts the commits are pushed. With
/// conflicts the user is asked first; a push that the user confirmed is
/// forced, and after any other answer nothing is done.
pub open spec fn push_step(conflicting: bool, confirmation: Option<bool>) -> PushStepView {
    if !conflicting {
        PushStepView::Run { command: GitCommandView { arguments: seq!["push"@], echo: true } }
    } else {
        match confirmation {
            None => PushStepView::Confirm,
            Some(true) => PushStepView::Run {
                command: GitCommandView { arguments: seq!["push"@, "--force"@], echo: true },
            },
            Some(false) => PushStepView::Skip,
        }
    }
}

/// Decides the next step of pushing from whether files are in conflict
/// and, once the user was asked, the answer.
pub fn push_decision(conflicting: bool, confirmation: Option<bool>) -> (step: PushStep)
    ensures
        step@ == push_step(conflicting, confirmation),
{
    if !conflicting {
        PushStep::Run { command: push() }
    } else {
        match confirmation {
            None => PushStep::Confirm,
            Some(true) => PushStep::Run { command: force_push() },
            Some(false) => PushStep::Skip,
        }
    }
}

/// Decides the next step of pushing from the short status of the working
/// tree and, once the user was asked, the answer. A status that cannot be
/// read is an error.
pub fn try_push(short_status: &str, confirmation: Option<bool>) -> (r: Result<
    PushStep,
    VersionControlError,
>)
    ensures
        match conflict_scan(lines(short_status@)) {
            Ok(conflicting) => r matches Ok(step) && step@ == push_step(
                conflicting,
                confirmation,
            ),
            Err(line) => r matches Err(error) && error.output@ == line && error.operation@
                == "status -s"@,
        },
{
    match is_any_file_conflicting(short_status) {
        Ok(conflicting) => Ok(push_decision(conflicting, confirmation)),
        Err(error) => Err(error),
    }
}

} // verus!
