use dotlink::reconciler::{
    create_new_link, ensure_link_upto_date, is_within_managed_tree, link_path, remove_from_fs,
    replace_existing_with_link, LinkAction, LinkError, LinkProbe, PathKind,
};

fn show(action: &LinkAction) -> String {
    match action {
        LinkAction::CreateParents { link } => format!("parents {link}"),
        LinkAction::HardLink { original, link } => format!("hard {original} {link}"),
        LinkAction::SymbolicLink { original, link } => format!("symbolic {original} {link}"),
        LinkAction::RemoveFile { path } => format!("remove-file {path}"),
        LinkAction::RemoveDirectory { path } => format!("remove-directory {path}"),
    }
}

fn shown(actions: &Vec<LinkAction>) -> Vec<String> {
    actions.iter().map(show).collect()
}

fn probe(original: PathKind, link: PathKind, same_file: bool, canonical: Option<&str>) -> LinkProbe {
    LinkProbe {
        original,
        link,
        same_file: Some(same_file),
        canonical_link: canonical.map(|c| c.to_string()),
    }
}

const SOURCE: &str = "/home/u/.config/app/conf";
const LINK: &str = "/work/config/app/conf";
const ROOT: &str = "/work";

#[test]
fn the_guard_admits_the_tree_and_what_is_below_it() {
    assert!(is_within_managed_tree("/work/config/app/conf", "/work"));
    assert!(is_within_managed_tree("/work", "/work"));
    assert!(!is_within_managed_tree("/workshop/conf", "/work"));
    assert!(!is_within_managed_tree("/home/u/.config/app/conf", "/work"));
    assert!(!is_within_managed_tree("/", "/work"));
}

#[test]
fn a_file_is_linked_hard_and_a_directory_symbolically() {
    assert_eq!(show(&link_path("/s", PathKind::File, "/l")), "hard /s /l");
    assert_eq!(show(&link_path("/s", PathKind::Directory, "/l")), "symbolic /s /l");
    assert_eq!(show(&link_path("/s", PathKind::Missing, "/l")), "hard /s /l");
}

#[test]
fn removal_goes_by_what_is_there() {
    assert_eq!(shown(&remove_from_fs("/p", PathKind::File)), vec!["remove-file /p"]);
    assert_eq!(shown(&remove_from_fs("/p", PathKind::Directory)), vec!["remove-directory /p"]);
    assert_eq!(shown(&remove_from_fs("/p", PathKind::Missing)), Vec::<String>::new());
}

#[test]
fn creation_makes_the_parents_first() {
    let mut actions = vec![LinkAction::RemoveFile { path: String::from("/l") }];
    create_new_link(&mut actions, "/s", PathKind::File, "/l");
    assert_eq!(shown(&actions), vec!["remove-file /l", "parents /l", "hard /s /l"]);
}

#[test]
fn a_missing_source_is_passed_over() {
    for link in [PathKind::Missing, PathKind::File, PathKind::Directory] {
        let plan =
            ensure_link_upto_date(SOURCE, LINK, &probe(PathKind::Missing, link, false, None), ROOT)
                .unwrap();
        assert!(!plan.live);
        assert_eq!(plan.actions.len(), 0);
    }
}

#[test]
fn a_missing_destination_is_created() {
    let plan = ensure_link_upto_date(
        SOURCE,
        LINK,
        &probe(PathKind::File, PathKind::Missing, false, None),
        ROOT,
    )
    .unwrap();
    assert!(plan.live);
    assert_eq!(
        shown(&plan.actions),
        vec![format!("parents {LINK}"), format!("hard {SOURCE} {LINK}")]
    );
    let plan = ensure_link_upto_date(
        SOURCE,
        LINK,
        &probe(PathKind::Directory, PathKind::Missing, false, None),
        ROOT,
    )
    .unwrap();
    assert!(plan.live);
    assert_eq!(
        shown(&plan.actions),
        vec![format!("parents {LINK}"), format!("symbolic {SOURCE} {LINK}")]
    );
}

#[test]
fn a_destination_that_is_the_source_is_left_alone() {
    let plan = ensure_link_upto_date(
        SOURCE,
        LINK,
        &probe(PathKind::File, PathKind::File, true, Some("/elsewhere/conf")),
        ROOT,
    )
    .unwrap();
    assert!(plan.live);
    assert_eq!(plan.actions.len(), 0);
}

#[test]
fn a_stale_destination_in_the_tree_is_replaced() {
    let plan = ensure_link_upto_date(
        SOURCE,
        LINK,
        &probe(PathKind::File, PathKind::File, false, Some("/work/config/app/conf")),
        ROOT,
    )
    .unwrap();
    assert!(plan.live);
    assert_eq!(
        shown(&plan.actions),
        vec![
            format!("remove-file {LINK}"),
            format!("parents {LINK}"),
            format!("hard {SOURCE} {LINK}")
        ]
    );
    let plan = ensure_link_upto_date(
        SOURCE,
        LINK,
        &probe(PathKind::Directory, PathKind::Directory, false, Some("/work/config/app/conf")),
        ROOT,
    )
    .unwrap();
    assert_eq!(
        shown(&plan.actions),
        vec![
            format!("remove-directory {LINK}"),
            format!("parents {LINK}"),
            format!("symbolic {SOURCE} {LINK}")
        ]
    );
}

#[test]
fn a_destination_outside_the_tree_is_a_conflict() {
    let error = ensure_link_upto_date(
        SOURCE,
        LINK,
        &probe(PathKind::File, PathKind::File, false, Some("/home/u/precious/conf")),
        ROOT,
    )
    .unwrap_err();
    assert!(matches!(
        &error,
        LinkError::Conflict { original, link } if original == SOURCE && link == LINK
    ));
    assert_eq!(
        error.message(),
        format!("Failed to link '{SOURCE}' as '{LINK}', since a different file already exists there")
    );
}

#[test]
fn a_destination_that_cannot_be_located_is_an_error() {
    let error = ensure_link_upto_date(
        SOURCE,
        LINK,
        &probe(PathKind::File, PathKind::Directory, false, None),
        ROOT,
    )
    .unwrap_err();
    assert!(matches!(&error, LinkError::Filesystem { path } if path == LINK));
    assert_eq!(error.message(), format!("Failed to resolve '{LINK}'"));
}

#[test]
fn a_comparison_that_failed_counts_as_a_difference() {
    let unknown = LinkProbe {
        original: PathKind::File,
        link: PathKind::File,
        same_file: None,
        canonical_link: Some(String::from("/work/config/app/conf")),
    };
    let plan = ensure_link_upto_date(SOURCE, LINK, &unknown, ROOT).unwrap();
    assert!(plan.live);
    assert_eq!(plan.actions.len(), 3);
    let foreign = LinkProbe {
        original: PathKind::File,
        link: PathKind::File,
        same_file: None,
        canonical_link: Some(String::from("/home/u/precious")),
    };
    assert!(matches!(
        ensure_link_upto_date(SOURCE, LINK, &foreign, ROOT),
        Err(LinkError::Conflict { .. })
    ));
}

#[test]
fn replacement_decides_on_identity_first() {
    let same = probe(PathKind::File, PathKind::File, true, None);
    assert_eq!(replace_existing_with_link(SOURCE, LINK, &same, ROOT).unwrap().len(), 0);
    let inside = probe(PathKind::File, PathKind::File, false, Some("/work/x"));
    assert_eq!(replace_existing_with_link(SOURCE, LINK, &inside, ROOT).unwrap().len(), 3);
    let outside = probe(PathKind::File, PathKind::File, false, Some("/x"));
    assert!(replace_existing_with_link(SOURCE, LINK, &outside, ROOT).is_err());
}
