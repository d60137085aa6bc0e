use dotlink::git::{
    add_file, commit_staged_files, conflict_code, fetch, file_status_query, force_push,
    get_file_status, git_dir_query, init_git, is_any_file_conflicting, is_any_file_staged,
    is_git_repo_root_dir, push, rm_file, short_status_query, stage_files, status_query,
    GitFileStatus, VersionControlError,
};

#[test]
fn the_commands_are_those_of_git() {
    assert_eq!(git_dir_query().arguments, vec!["rev-parse", "--git-dir"]);
    assert!(!git_dir_query().echo);
    assert_eq!(init_git().arguments, vec!["init"]);
    assert!(init_git().echo);
    assert_eq!(stage_files().arguments, vec!["add", "-u"]);
    assert!(stage_files().echo);
    assert_eq!(rm_file("a b").arguments, vec!["rm", "a b"]);
    assert!(!rm_file("x").echo);
    assert_eq!(file_status_query("p").arguments, vec!["status", "-s", "p"]);
    assert!(!file_status_query("p").echo);
    assert_eq!(status_query().arguments, vec!["status"]);
    assert_eq!(short_status_query().arguments, vec!["status", "-s"]);
    assert_eq!(push().arguments, vec!["push"]);
    assert!(push().echo);
    assert_eq!(force_push().arguments, vec!["push", "--force"]);
    assert!(force_push().echo);
}

#[test]
fn add_file_names_every_path() {
    let command = add_file(&vec![String::from("a"), String::from("b/c")]);
    assert_eq!(command.arguments, vec!["add", "a", "b/c"]);
    assert!(!command.echo);
    assert_eq!(add_file(&Vec::new()).arguments, vec!["add"]);
}

#[test]
fn fetch_resets_to_the_remote_state() {
    let commands = fetch();
    assert_eq!(commands.len(), 2);
    assert_eq!(commands[0].arguments, vec!["fetch", "origin"]);
    assert_eq!(commands[1].arguments, vec!["reset", "--hard", "origin/master"]);
    assert!(commands[0].echo && commands[1].echo);
}

#[test]
fn the_root_of_a_repository_answers_with_its_metadata_directory() {
    assert!(is_git_repo_root_dir(".git\n"));
    assert!(is_git_repo_root_dir("  .git  "));
    assert!(!is_git_repo_root_dir("/somewhere/.git\n"));
    assert!(!is_git_repo_root_dir(""));
    assert!(!is_git_repo_root_dir(".git x"));
}

#[test]
fn a_status_is_the_first_two_characters() {
    assert_eq!(
        get_file_status("!! ignored.txt\n").unwrap(),
        GitFileStatus { index_status: '!', working_tree_status: '!' }
    );
    assert_eq!(
        get_file_status(" M changed\n").unwrap(),
        GitFileStatus { index_status: ' ', working_tree_status: 'M' }
    );
    assert_eq!(
        get_file_status("??").unwrap(),
        GitFileStatus { index_status: '?', working_tree_status: '?' }
    );
}

#[test]
fn no_status_stands_for_two_blanks() {
    assert_eq!(
        get_file_status("").unwrap(),
        GitFileStatus { index_status: ' ', working_tree_status: ' ' }
    );
}

#[test]
fn a_status_of_one_character_cannot_be_read() {
    let error = get_file_status("M").unwrap_err();
    assert_eq!(error.output, "M");
    assert_eq!(error.operation, "status -s");
}

#[test]
fn only_two_exclamation_marks_mean_ignored() {
    assert!(GitFileStatus { index_status: '!', working_tree_status: '!' }.is_ignored());
    assert!(!GitFileStatus { index_status: '!', working_tree_status: ' ' }.is_ignored());
    assert!(!GitFileStatus { index_status: ' ', working_tree_status: '!' }.is_ignored());
    assert!(!GitFileStatus { index_status: '?', working_tree_status: '?' }.is_ignored());
}

#[test]
fn staged_changes_are_told_by_their_heading() {
    assert!(is_any_file_staged("On branch master\nChanges to be committed:\n\tnew file: a\n"));
    assert!(!is_any_file_staged("On branch master\nnothing to commit, working tree clean\n"));
    assert!(!is_any_file_staged(""));
    assert!(!is_any_file_staged("Changes to be committed"));
}

#[test]
fn the_conflict_codes_are_seven() {
    let letters = ['A', 'D', 'U', 'M', ' ', '?', '!'];
    let mut count = 0;
    for a in letters {
        for b in letters {
            let expected = ["AA", "AU", "DD", "DU", "UA", "UD", "UU"]
                .contains(&format!("{a}{b}").as_str());
            assert_eq!(conflict_code(a, b), expected);
            if expected {
                count += 1;
            }
        }
    }
    assert_eq!(count, 7);
}

#[test]
fn a_conflict_on_any_line_is_found() {
    assert_eq!(is_any_file_conflicting(" M a\nUU b\n?? c\n").ok(), Some(true));
    assert_eq!(is_any_file_conflicting("AA a").ok(), Some(true));
    assert_eq!(is_any_file_conflicting("DU a\r\n").ok(), Some(true));
}

#[test]
fn without_conflict_codes_nothing_is_in_conflict() {
    assert_eq!(is_any_file_conflicting(" M a\n?? c\nA  d\n").ok(), Some(false));
    assert_eq!(is_any_file_conflicting("").ok(), Some(false));
    assert_eq!(is_any_file_conflicting("AD a\nMU b\n").ok(), Some(false));
}

#[test]
fn a_line_without_room_for_a_code_cannot_be_read() {
    let error = is_any_file_conflicting(" M a\nx\nUU b\n").unwrap_err();
    assert_eq!(error.output, "x");
    assert_eq!(error.operation, "status -s");
    assert!(is_any_file_conflicting("\n").is_err());
}

#[test]
fn a_conflict_before_an_unreadable_line_decides() {
    assert_eq!(is_any_file_conflicting("UU b\nx\n").ok(), Some(true));
}

#[test]
fn a_commit_needs_staged_changes() {
    let command = commit_staged_files("first", "Changes to be committed:\n").unwrap();
    assert_eq!(command.arguments, vec!["commit", "-m", "first"]);
    assert!(command.echo);
    assert!(commit_staged_files("first", "nothing to commit").is_none());
}

#[test]
fn the_version_control_error_names_command_and_answer() {
    let error =
        VersionControlError { operation: String::from("status -s"), output: String::from("x") };
    assert_eq!(error.message(), "Failed to read the answer to 'git status -s': 'x'");
}
