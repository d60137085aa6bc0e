use dotlink::menu::{
    launch, offered_actions, push_decision, run_once, try_push, Launch, PushStep, State, Task,
};

const ALL: [State; 8] = [
    State::ActionSelection,
    State::Initialize,
    State::Clean,
    State::Refresh,
    State::Commit,
    State::Fetch,
    State::Push,
    State::Exit,
];

#[test]
fn every_subcommand_names_its_state() {
    assert_eq!(State::from("options"), Some(State::ActionSelection));
    assert_eq!(State::from("init"), Some(State::Initialize));
    assert_eq!(State::from("clean"), Some(State::Clean));
    assert_eq!(State::from("refresh"), Some(State::Refresh));
    assert_eq!(State::from("commit"), Some(State::Commit));
    assert_eq!(State::from("fetch"), Some(State::Fetch));
    assert_eq!(State::from("push"), Some(State::Push));
    assert_eq!(State::from("exit"), Some(State::Exit));
}

#[test]
fn any_other_word_names_no_state() {
    for word in ["", "Init", "init ", "-i", "optionsx", "pus", "refresh\n"] {
        assert_eq!(State::from(word), None);
    }
}

#[test]
fn every_state_has_its_description() {
    let expected = [
        "Choose what to do next",
        "Initialize current working directory",
        "Clean items",
        "Refresh items",
        "Commit changes",
        "Fetch from remote",
        "Update remote",
        "Exit",
    ];
    for (state, text) in ALL.iter().zip(expected) {
        assert_eq!(state.description(), text);
    }
}

#[test]
fn every_state_has_its_task() {
    let expected = [
        Task::Select,
        Task::Initialize,
        Task::Clean,
        Task::Refresh,
        Task::Commit,
        Task::Fetch,
        Task::Push,
        Task::Stop,
    ];
    for (state, task) in ALL.iter().zip(expected) {
        assert_eq!(state.task(), task);
    }
}

#[test]
fn the_user_is_offered_every_state_but_the_selection() {
    assert_eq!(offered_actions(), ALL[1..].to_vec());
}

#[test]
fn after_a_task_the_selection_follows() {
    for state in &ALL[1..7] {
        assert_eq!(run_once(*state, None), State::ActionSelection);
        assert_eq!(run_once(*state, Some(State::Exit)), State::ActionSelection);
    }
}

#[test]
fn after_a_selection_the_choice_follows() {
    for choice in ALL {
        assert_eq!(run_once(State::ActionSelection, Some(choice)), choice);
    }
    assert_eq!(run_once(State::ActionSelection, None), State::ActionSelection);
}

#[test]
fn exit_is_final() {
    assert_eq!(run_once(State::Exit, None), State::Exit);
    assert_eq!(run_once(State::Exit, Some(State::Refresh)), State::Exit);
}

fn arguments(step: &PushStep) -> Option<Vec<String>> {
    match step {
        PushStep::Run { command } => Some(command.arguments.clone()),
        _ => None,
    }
}

#[test]
fn without_conflicts_the_commits_are_pushed() {
    for confirmation in [None, Some(true), Some(false)] {
        let step = push_decision(false, confirmation);
        assert_eq!(arguments(&step), Some(vec![String::from("push")]));
    }
}

#[test]
fn with_conflicts_the_user_decides() {
    assert!(matches!(push_decision(true, None), PushStep::Confirm));
    assert!(matches!(push_decision(true, Some(false)), PushStep::Skip));
    assert_eq!(
        arguments(&push_decision(true, Some(true))),
        Some(vec![String::from("push"), String::from("--force")])
    );
}

#[test]
fn try_push_reads_the_short_status() {
    assert!(matches!(try_push("UU a\n", None), Ok(PushStep::Confirm)));
    assert!(matches!(try_push(" M a\n", None), Ok(PushStep::Run { .. })));
    assert!(matches!(try_push("UU a\n", Some(false)), Ok(PushStep::Skip)));
    assert!(try_push("x\n", None).is_err());
}

fn started(arguments: &[&str]) -> Launch {
    launch(&arguments.iter().map(|a| a.to_string()).collect())
}

#[test]
fn without_arguments_the_menu_runs() {
    assert!(matches!(started(&[]), Launch::Interactive));
    assert!(matches!(started(&["dotlink"]), Launch::Interactive));
    assert!(matches!(started(&["dotlink", "-i"]), Launch::Interactive));
}

#[test]
fn one_argument_names_the_state_to_run() {
    assert!(matches!(started(&["dotlink", "refresh"]), Launch::Once { state: State::Refresh }));
    assert!(matches!(started(&["dotlink", "exit"]), Launch::Once { state: State::Exit }));
    assert!(matches!(
        started(&["dotlink", "options"]),
        Launch::Once { state: State::ActionSelection }
    ));
}

#[test]
fn an_unknown_argument_is_told() {
    assert!(matches!(started(&["dotlink", "reset"]), Launch::Invalid { word } if word == "reset"));
    assert!(matches!(started(&["dotlink", "-I"]), Launch::Invalid { word } if word == "-I"));
}

#[test]
fn more_arguments_are_not_understood() {
    assert!(matches!(started(&["dotlink", "init", "clean"]), Launch::Unclear));
    assert!(matches!(started(&["dotlink", "-i", "clean"]), Launch::Unclear));
}
