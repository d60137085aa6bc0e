//! A model of the file system, as far as linking depends on it, and what
//! holds of the linking pass in that model.
//!
//! In the model every path is a cell of its own: what is done to one path
//! shows at that path and nowhere else. A path leads to an object, known by
//! its identity, or to nothing. Linking `link` to `original` makes `link`
//! lead to the object of `original`; removing a path makes it lead to
//! nothing; creating parent directories changes nothing that a probe of a
//! source or a link would see.

use crate::config::MappingView;
use crate::pipeline::link_of;
use crate::reconciler::{
    creation, identical, link_action, plan_for, removal, within_managed_tree, LinkActionView,
    LinkErrorView, LinkProbeView, PathKind,
};
use vstd::prelude::*;

verus! {

/// A state of the file system: the identity of the object that each path
/// leads to, which of the objects are directories, and the canonical form of
/// each path that has one.
pub struct World {
    pub nodes: Map<Seq<char>, int>,
    pub directories: Set<int>,
    pub canonical: Map<Seq<char>, Seq<char>>,
}

/// The object that `path` leads to, if it leads to one.
pub open spec fn node_at(world: World, path: Seq<char>) -> Option<int> {
    if world.nodes.dom().contains(path) {
        Some(world.nodes[path])
    } else {
        None
    }
}

/// What `path` leads to.
pub open spec fn kind_of(world: World, path: Seq<char>) -> PathKind {
    match node_at(world, path) {
        None => PathKind::Missing,
        Some(node) => if world.directories.contains(node) {
            PathKind::Directory
        } else {
            PathKind::File
        },
    }
}

/// What a caller finds out about `original` and `link` in `world`.
pub open spec fn probe_of(world: World, original: Seq<char>, link: Seq<char>) -> LinkProbeView {
    LinkProbeView {
        original: kind_of(world, original),
        link: kind_of(world, link),
        same_file: match (node_at(world, original), node_at(world, link)) {
            (Some(a), Some(b)) => Some(a == b),
            _ => None,
        },
        canonical_link: if world.canonical.dom().contains(link) {
            Some(world.canonical[link])
        } else {
            None
        },
    }
}

/// `world` with `link` leading to the object of `original`, if there is one.
pub open spec fn linked(world: World, original: Seq<char>, link: Seq<char>) -> World {
    match node_at(world, original) {
        Some(node) => World {
            nodes: world.nodes.insert(link, node),
            directories: world.directories,
            canonical: world.canonical,
        },
        None => world,
    }
}

/// `world` after one action.
pub open spec fn perform(world: World, action: LinkActionView) -> World {
    match action {
        LinkActionView::CreateParents { link } => world,
        LinkActionView::HardLink { original, link } => linked(world, original, link),
        LinkActionView::SymbolicLink { original, link } => linked(world, original, link),
        LinkActionView::RemoveFile { path } => World {
            nodes: world.nodes.remove(path),
            directories: world.directories,
            canonical: world.canonical,
        },
        LinkActionView::RemoveDirectory { path } => World {
            nodes: world.nodes.remove(path),
            directories: world.directories,
            canonical: world.canonical,
        },
    }
}

/// `world` after the actions, the first one first.
pub open spec fn perform_all(world: World, actions: Seq<LinkActionView>) -> World
    decreases actions.len(),
{
    if actions.len() == 0 {
        world
    } else {
        perform_all(perform(world, actions[0]), actions.drop_first())
    }
}

/// How a linking pass ends: the state it leaves, the actions it took, the
/// links that are live, and the error that stopped it, if one did.
pub struct LinkOutcome {
    pub world: World,
    pub actions: Seq<LinkActionView>,
    pub linked: Seq<Seq<char>>,
    pub failure: Option<LinkErrorView>,
}

/// The linking pass over `mappings` in `world`: pair by pair, the probe is
/// taken in the state that the pairs before have left, the plan is made from
/// it and carried out. The first error ends the pass.
pub open spec fn link_all(
    world: World,
    mappings: Seq<MappingView>,
    working_dir: Seq<char>,
) -> LinkOutcome
    decreases mappings.len(),
{
    if mappings.len() == 0 {
        LinkOutcome { world, actions: Seq::empty(), linked: Seq::empty(), failure: None }
    } else {
        let original = mappings[0].source;
        let link = link_of(mappings[0], working_dir);
        match plan_for(original, link, probe_of(world, original, link), working_dir) {
            Err(error) => LinkOutcome {
                world,
                actions: Seq::empty(),
                linked: Seq::empty(),
                failure: Some(error),
            },
            Ok(plan) => {
                let rest = link_all(
                    perform_all(world, plan.actions),
                    mappings.drop_first(),
                    working_dir,
                );
                LinkOutcome {
                    world: rest.world,
                    actions: plan.actions + rest.actions,
                    linked: if plan.live {
                        seq![link] + rest.linked
                    } else {
                        rest.linked
                    },
                    failure: rest.failure,
                }
            },
        }
    }
}

/// Whether no pair writes where another reads: the link of a pair is not
/// the source of another pair.
pub open spec fn links_spare_sources(mappings: Seq<MappingView>, working_dir: Seq<char>) -> bool {
    forall|i: int, j: int|
        #![trigger mappings[i], mappings[j]]
        0 <= i < mappings.len() && 0 <= j < mappings.len() && i != j ==> link_of(
            mappings[i],
            working_dir,
        ) != mappings[j].source
}

/// Whether no pair gets in the way of another: the link of a pair is not
/// the source of another pair, and pairs that have the same link have the
/// same source.
pub open spec fn independent(mappings: Seq<MappingView>, working_dir: Seq<char>) -> bool {
    &&& links_spare_sources(mappings, working_dir)
    &&& forall|i: int, j: int|
        #![trigger mappings[i], mappings[j]]
        0 <= i < mappings.len() && 0 <= j < mappings.len() && link_of(mappings[i], working_dir)
            == link_of(mappings[j], working_dir) ==> mappings[i].source == mappings[j].source
}

/// Whether the link of every pair whose source exists leads to the object of
/// the source.
pub open spec fn settled(world: World, mappings: Seq<MappingView>, working_dir: Seq<char>) -> bool {
    forall|i: int|
        0 <= i < mappings.len() && node_at(world, (#[trigger] mappings[i]).source) is Some
            ==> node_at(world, link_of(mappings[i], working_dir)) == node_at(
            world,
            mappings[i].source,
        )
}

/// What carrying out the plan for one pair does: it leaves every other path
/// and every canonical form as they were, and where the source exists, the
/// link ends up leading to the object of the source.
pub proof fn lemma_plan_effect(
    world: World,
    original: Seq<char>,
    link: Seq<char>,
    working_dir: Seq<char>,
)
    requires
        plan_for(original, link, probe_of(world, original, link), working_dir) is Ok,
    ensures
        ({
            let plan = plan_for(
                original,
                link,
                probe_of(world, original, link),
                working_dir,
            )->Ok_0;
            let after = perform_all(world, plan.actions);
            &&& after.canonical == world.canonical
            &&& after.directories == world.directories
            &&& forall|path: Seq<char>|
                path != link ==> #[trigger] node_at(after, path) == node_at(world, path)
            &&& plan.live == (node_at(world, original) is Some)
            &&& plan.live ==> node_at(after, link) == node_at(world, original)
            &&& !plan.live ==> after == world
        }),
{
    let probe = probe_of(world, original, link);
    let plan = plan_for(original, link, probe, working_dir)->Ok_0;
    let actions = plan.actions;
    reveal_with_fuel(perform_all, 4);
    if probe.original != PathKind::Missing && probe.link == PathKind::Missing {
        assert(actions == creation(original, probe.original, link));
        assert(actions.drop_first() == seq![link_action(original, probe.original, link)]);
        assert(actions.drop_first().drop_first() == Seq::<LinkActionView>::empty());
    } else if probe.original != PathKind::Missing && !identical(probe) {
        let removed = removal(link, probe.link);
        let created = creation(original, probe.original, link);
        assert(actions == removed + created);
        assert(removed.len() == 1);
        assert(actions.drop_first() == created);
        assert(created.drop_first() == seq![link_action(original, probe.original, link)]);
        assert(created.drop_first().drop_first() == Seq::<LinkActionView>::empty());
        assert(original != link);
        let emptied = perform(world, actions[0]);
        assert(emptied.nodes == world.nodes.remove(link));
        assert(node_at(emptied, original) == node_at(world, original));
    }
}

/// Whether `path` is the link of one of the pairs.
pub open spec fn is_link(
    mappings: Seq<MappingView>,
    working_dir: Seq<char>,
    path: Seq<char>,
) -> bool {
    exists|i: int| 0 <= i < mappings.len() && link_of(#[trigger] mappings[i], working_dir) == path
}

/// A linking pass changes nothing but what the links of its pairs lead to.
pub proof fn lemma_pass_frame(world: World, mappings: Seq<MappingView>, working_dir: Seq<char>)
    ensures
        ({
            let after = link_all(world, mappings, working_dir).world;
            &&& after.canonical == world.canonical
            &&& after.directories == world.directories
            &&& forall|path: Seq<char>|
                !is_link(mappings, working_dir, path) ==> #[trigger] node_at(after, path)
                    == node_at(world, path)
        }),
    decreases mappings.len(),
{
    if mappings.len() > 0 {
        let original = mappings[0].source;
        let link = link_of(mappings[0], working_dir);
        let rest = mappings.drop_first();
        match plan_for(original, link, probe_of(world, original, link), working_dir) {
            Err(_) => {},
            Ok(plan) => {
                let next = perform_all(world, plan.actions);
                lemma_plan_effect(world, original, link, working_dir);
                lemma_pass_frame(next, rest, working_dir);
                let after = link_all(world, mappings, working_dir).world;
                assert forall|path: Seq<char>|
                    !is_link(mappings, working_dir, path) implies #[trigger] node_at(after, path)
                    == node_at(world, path) by {
                    assert(link_of(mappings[0], working_dir) != path);
                    if is_link(rest, working_dir, path) {
                        let i = choose|i: int|
                            0 <= i < rest.len() && link_of(#[trigger] rest[i], working_dir)
                                == path;
                        assert(rest[i] == mappings[i + 1]);
                    }
                    assert(node_at(after, path) == node_at(next, path));
                }
            },
        }
    }
}

/// Where every link already leads to its source, a linking pass takes no
/// action, fails on nothing and leaves the state as it is.
pub proof fn lemma_settled_pass_is_idle(
    world: World,
    mappings: Seq<MappingView>,
    working_dir: Seq<char>,
)
    requires
        settled(world, mappings, working_dir),
    ensures
        link_all(world, mappings, working_dir).actions == Seq::<LinkActionView>::empty(),
        link_all(world, mappings, working_dir).failure is None,
        link_all(world, mappings, working_dir).world == world,
    decreases mappings.len(),
{
    if mappings.len() > 0 {
        let original = mappings[0].source;
        let link = link_of(mappings[0], working_dir);
        let rest = mappings.drop_first();
        let probe = probe_of(world, original, link);
        let decision = plan_for(original, link, probe, working_dir);
        assert(decision is Ok && decision->Ok_0.actions == Seq::<LinkActionView>::empty()) by {
            if node_at(world, original) is Some {
                assert(node_at(world, link) == node_at(world, mappings[0].source));
            }
        }
        assert(perform_all(world, decision->Ok_0.actions) == world);
        assert forall|i: int|
            0 <= i < rest.len() && node_at(world, (#[trigger] rest[i]).source) is Some implies node_at(
            world,
            link_of(rest[i], working_dir),
        ) == node_at(world, rest[i].source) by {
            assert(rest[i] == mappings[i + 1]);
        }
        lemma_settled_pass_is_idle(world, rest, working_dir);
        assert(Seq::<LinkActionView>::empty() + Seq::<LinkActionView>::empty() == Seq::<
            LinkActionView,
        >::empty());
    }
}

/// A linking pass that takes no action and fails on nothing found every
/// link leading to its source.
pub proof fn lemma_idle_pass_was_settled(
    world: World,
    mappings: Seq<MappingView>,
    working_dir: Seq<char>,
)
    requires
        link_all(world, mappings, working_dir).actions == Seq::<LinkActionView>::empty(),
        link_all(world, mappings, working_dir).failure is None,
    ensures
        settled(world, mappings, working_dir),
    decreases mappings.len(),
{
    if mappings.len() > 0 {
        let original = mappings[0].source;
        let link = link_of(mappings[0], working_dir);
        let rest = mappings.drop_first();
        let probe = probe_of(world, original, link);
        let plan = plan_for(original, link, probe, working_dir)->Ok_0;
        let after = link_all(perform_all(world, plan.actions), rest, working_dir);
        assert(plan.actions.len() == 0 && after.actions.len() == 0) by {
            assert((plan.actions + after.actions).len() == 0);
        }
        assert(plan.actions == Seq::<LinkActionView>::empty());
        assert(after.actions == Seq::<LinkActionView>::empty());
        assert(perform_all(world, plan.actions) == world);
        lemma_idle_pass_was_settled(world, rest, working_dir);
        assert forall|i: int|
            0 <= i < mappings.len() && node_at(world, (#[trigger] mappings[i]).source)
                is Some implies node_at(world, link_of(mappings[i], working_dir)) == node_at(
            world,
            mappings[i].source,
        ) by {
            if i == 0 {
                // A plan without action for an existing source found the
                // link to be the source.
                assert(creation(original, probe.original, link).len() == 2);
                assert(probe.link != PathKind::Missing);
                assert(identical(probe));
            } else {
                assert(rest[i - 1] == mappings[i]);
            }
        }
    }
}

/// What holds of the pairs holds of all but the first.
proof fn lemma_rest_spares_sources(mappings: Seq<MappingView>, working_dir: Seq<char>)
    requires
        mappings.len() > 0,
    ensures
        links_spare_sources(mappings, working_dir) ==> links_spare_sources(
            mappings.drop_first(),
            working_dir,
        ),
        independent(mappings, working_dir) ==> independent(mappings.drop_first(), working_dir),
{
    let rest = mappings.drop_first();
    if links_spare_sources(mappings, working_dir) {
        assert forall|i: int, j: int|
            #![trigger rest[i], rest[j]]
            0 <= i < rest.len() && 0 <= j < rest.len() && i != j implies link_of(
            rest[i],
            working_dir,
        ) != rest[j].source by {
            assert(rest[i] == mappings[i + 1]);
            assert(rest[j] == mappings[j + 1]);
        }
    }
    if independent(mappings, working_dir) {
        assert forall|i: int, j: int|
            #![trigger rest[i], rest[j]]
            0 <= i < rest.len() && 0 <= j < rest.len() && link_of(rest[i], working_dir)
                == link_of(rest[j], working_dir) implies rest[i].source == rest[j].source by {
            assert(rest[i] == mappings[i + 1]);
            assert(rest[j] == mappings[j + 1]);
        }
    }
}

/// A linking pass over pairs whose links spare the sources leaves every
/// source leading to what it led to before.
pub proof fn lemma_sources_stay(world: World, mappings: Seq<MappingView>, working_dir: Seq<char>)
    requires
        links_spare_sources(mappings, working_dir),
    ensures
        forall|i: int|
            0 <= i < mappings.len() ==> node_at(
                link_all(world, mappings, working_dir).world,
                (#[trigger] mappings[i]).source,
            ) == node_at(world, mappings[i].source),
    decreases mappings.len(),
{
    if mappings.len() > 0 {
        let original = mappings[0].source;
        let link = link_of(mappings[0], working_dir);
        let rest = mappings.drop_first();
        match plan_for(original, link, probe_of(world, original, link), working_dir) {
            Err(_) => {},
            Ok(plan) => {
                let next = perform_all(world, plan.actions);
                let after = link_all(world, mappings, working_dir).world;
                lemma_plan_effect(world, original, link, working_dir);
                lemma_rest_spares_sources(mappings, working_dir);
                lemma_sources_stay(next, rest, working_dir);
                lemma_pass_frame(next, rest, working_dir);
                assert(node_at(next, original) == node_at(world, original));
                assert(!is_link(rest, working_dir, original)) by {
                    if is_link(rest, working_dir, original) {
                        let i = choose|i: int|
                            0 <= i < rest.len() && link_of(#[trigger] rest[i], working_dir)
                                == original;
                        assert(rest[i] == mappings[i + 1]);
                        assert(link_of(mappings[i + 1], working_dir) != mappings[0].source);
                    }
                }
                assert forall|i: int| 0 <= i < mappings.len() implies node_at(
                    after,
                    (#[trigger] mappings[i]).source,
                ) == node_at(world, mappings[i].source) by {
                    if i > 0 {
                        assert(rest[i - 1] == mappings[i]);
                        assert(link_of(mappings[0], working_dir) != mappings[i].source);
                        assert(node_at(after, rest[i - 1].source) == node_at(
                            next,
                            rest[i - 1].source,
                        ));
                    }
                }
            },
        }
    }
}

/// Whether `path` is the link of a pair whose source exists in `world`.
pub open spec fn is_live_link(
    world: World,
    mappings: Seq<MappingView>,
    working_dir: Seq<char>,
    path: Seq<char>,
) -> bool {
    exists|i: int|
        0 <= i < mappings.len() && link_of(#[trigger] mappings[i], working_dir) == path
            && node_at(world, mappings[i].source) is Some
}

/// A linking pass changes nothing but what the links of pairs with an
/// existing source lead to.
pub proof fn lemma_live_frame(world: World, mappings: Seq<MappingView>, working_dir: Seq<char>)
    requires
        links_spare_sources(mappings, working_dir),
    ensures
        forall|path: Seq<char>|
            !is_live_link(world, mappings, working_dir, path) ==> #[trigger] node_at(
                link_all(world, mappings, working_dir).world,
                path,
            ) == node_at(world, path),
    decreases mappings.len(),
{
    if mappings.len() > 0 {
        let original = mappings[0].source;
        let link = link_of(mappings[0], working_dir);
        let rest = mappings.drop_first();
        match plan_for(original, link, probe_of(world, original, link), working_dir) {
            Err(_) => {},
            Ok(plan) => {
                let next = perform_all(world, plan.actions);
                let after = link_all(world, mappings, working_dir).world;
                lemma_plan_effect(world, original, link, working_dir);
                lemma_rest_spares_sources(mappings, working_dir);
                lemma_live_frame(next, rest, working_dir);
                assert forall|path: Seq<char>|
                    !is_live_link(world, mappings, working_dir, path) implies #[trigger] node_at(
                    after,
                    path,
                ) == node_at(world, path) by {
                    assert(node_at(next, path) == node_at(world, path)) by {
                        if path == link {
                            assert(link_of(mappings[0], working_dir) == path);
                            assert(node_at(world, mappings[0].source) is None);
                        }
                    }
                    if is_live_link(next, rest, working_dir, path) {
                        let i = choose|i: int|
                            0 <= i < rest.len() && link_of(#[trigger] rest[i], working_dir)
                                == path && node_at(next, rest[i].source) is Some;
                        assert(rest[i] == mappings[i + 1]);
                        assert(link_of(mappings[0], working_dir) != mappings[i + 1].source);
                        assert(node_at(next, mappings[i + 1].source) == node_at(
                            world,
                            mappings[i + 1].source,
                        ));
                        assert(link_of(mappings[i + 1], working_dir) == path);
                    }
                }
            },
        }
    }
}

/// After a linking pass that did not fail, over pairs whose links spare the
/// sources, every link of a pair whose source exists leads to the source of
/// a pair with that link.
pub proof fn lemma_live_link_leads_to_a_source(
    world: World,
    mappings: Seq<MappingView>,
    working_dir: Seq<char>,
    path: Seq<char>,
)
    requires
        links_spare_sources(mappings, working_dir),
        link_all(world, mappings, working_dir).failure is None,
        is_live_link(world, mappings, working_dir, path),
    ensures
        exists|k: int|
            0 <= k < mappings.len() && link_of(#[trigger] mappings[k], working_dir) == path
                && node_at(world, mappings[k].source) is Some && node_at(
                link_all(world, mappings, working_dir).world,
                path,
            ) == node_at(world, mappings[k].source),
    decreases mappings.len(),
{
    let original = mappings[0].source;
    let link = link_of(mappings[0], working_dir);
    let rest = mappings.drop_first();
    let plan = plan_for(original, link, probe_of(world, original, link), working_dir)->Ok_0;
    let next = perform_all(world, plan.actions);
    let after = link_all(world, mappings, working_dir).world;
    lemma_plan_effect(world, original, link, working_dir);
    lemma_rest_spares_sources(mappings, working_dir);
    assert forall|i: int| 0 <= i < rest.len() implies node_at(next, (#[trigger] rest[i]).source)
        == node_at(world, rest[i].source) by {
        assert(rest[i] == mappings[i + 1]);
        assert(link_of(mappings[0], working_dir) != mappings[i + 1].source);
    }
    if is_live_link(next, rest, working_dir, path) {
        lemma_live_link_leads_to_a_source(next, rest, working_dir, path);
        let k = choose|k: int|
            0 <= k < rest.len() && link_of(#[trigger] rest[k], working_dir) == path && node_at(
                next,
                rest[k].source,
            ) is Some && node_at(link_all(next, rest, working_dir).world, path) == node_at(
                next,
                rest[k].source,
            );
        assert(rest[k] == mappings[k + 1]);
        assert(link_of(mappings[k + 1], working_dir) == path && node_at(
            world,
            mappings[k + 1].source,
        ) is Some && node_at(after, path) == node_at(world, mappings[k + 1].source));
    } else {
        let i = choose|i: int|
            0 <= i < mappings.len() && link_of(#[trigger] mappings[i], working_dir) == path
                && node_at(world, mappings[i].source) is Some;
        if i > 0 {
            assert(rest[i - 1] == mappings[i]);
            assert(is_live_link(next, rest, working_dir, path));
        }
        lemma_live_frame(next, rest, working_dir);
        assert(node_at(after, path) == node_at(next, path));
        assert(link_of(mappings[0], working_dir) == path && node_at(world, mappings[0].source)
            is Some && node_at(after, path) == node_at(world, mappings[0].source));
    }
}

/// After a linking pass over independent pairs that did not fail, every
/// link leads to its source.
pub proof fn lemma_pass_settles(world: World, mappings: Seq<MappingView>, working_dir: Seq<char>)
    requires
        independent(mappings, working_dir),
        link_all(world, mappings, working_dir).failure is None,
    ensures
        settled(link_all(world, mappings, working_dir).world, mappings, working_dir),
{
    let after = link_all(world, mappings, working_dir).world;
    lemma_sources_stay(world, mappings, working_dir);
    assert forall|i: int|
        0 <= i < mappings.len() && node_at(after, (#[trigger] mappings[i]).source)
            is Some implies node_at(after, link_of(mappings[i], working_dir)) == node_at(
        after,
        mappings[i].source,
    ) by {
        let path = link_of(mappings[i], working_dir);
        assert(is_live_link(world, mappings, working_dir, path));
        lemma_live_link_leads_to_a_source(world, mappings, working_dir, path);
        let k = choose|k: int|
            0 <= k < mappings.len() && link_of(#[trigger] mappings[k], working_dir) == path
                && node_at(world, mappings[k].source) is Some && node_at(after, path) == node_at(
                world,
                mappings[k].source,
            );
        assert(mappings[k].source == mappings[i].source);
    }
}

/// Idempotence of linking: after a linking pass over independent pairs that
/// did not fail, a second pass over the same pairs takes no action, fails on
/// nothing and leaves the state as it is.
pub proof fn lemma_second_pass_is_idle(
    world: World,
    mappings: Seq<MappingView>,
    working_dir: Seq<char>,
)
    requires
        independent(mappings, working_dir),
        link_all(world, mappings, working_dir).failure is None,
    ensures
        ({
            let first = link_all(world, mappings, working_dir);
            let second = link_all(first.world, mappings, working_dir);
            &&& second.actions == Seq::<LinkActionView>::empty()
            &&& second.failure is None
            &&& second.world == first.world
        }),
{
    lemma_pass_settles(world, mappings, working_dir);
    lemma_settled_pass_is_idle(
        link_all(world, mappings, working_dir).world,
        mappings,
        working_dir,
    );
}

/// Convergence of linking: take two states in which every source leads to
/// the same object, and pairs whose links spare the sources. After a
/// linking pass that did not fail, the link of every pair whose source
/// exists leads to the same object in both, whatever the links led to
/// before.
pub proof fn lemma_links_follow_sources(
    first: World,
    second: World,
    mappings: Seq<MappingView>,
    working_dir: Seq<char>,
)
    requires
        links_spare_sources(mappings, working_dir),
        link_all(first, mappings, working_dir).failure is None,
        link_all(second, mappings, working_dir).failure is None,
        forall|i: int|
            0 <= i < mappings.len() ==> node_at(first, (#[trigger] mappings[i]).source)
                == node_at(second, mappings[i].source),
    ensures
        forall|path: Seq<char>|
            is_live_link(first, mappings, working_dir, path) ==> #[trigger] node_at(
                link_all(first, mappings, working_dir).world,
                path,
            ) == node_at(link_all(second, mappings, working_dir).world, path),
    decreases mappings.len(),
{
    if mappings.len() > 0 {
        let original = mappings[0].source;
        let link = link_of(mappings[0], working_dir);
        let rest = mappings.drop_first();
        let first_plan = plan_for(
            original,
            link,
            probe_of(first, original, link),
            working_dir,
        )->Ok_0;
        let second_plan = plan_for(
            original,
            link,
            probe_of(second, original, link),
            working_dir,
        )->Ok_0;
        let first_next = perform_all(first, first_plan.actions);
        let second_next = perform_all(second, second_plan.actions);
        let first_after = link_all(first, mappings, working_dir).world;
        let second_after = link_all(second, mappings, working_dir).world;
        assert(node_at(first, mappings[0].source) == node_at(second, mappings[0].source));
        lemma_plan_effect(first, original, link, working_dir);
        lemma_plan_effect(second, original, link, working_dir);
        lemma_rest_spares_sources(mappings, working_dir);
        assert forall|i: int| 0 <= i < rest.len() implies node_at(
            first_next,
            (#[trigger] rest[i]).source,
        ) == node_at(second_next, rest[i].source) && node_at(first_next, rest[i].source)
            == node_at(first, rest[i].source) by {
            assert(rest[i] == mappings[i + 1]);
            assert(link_of(mappings[0], working_dir) != mappings[i + 1].source);
            assert(node_at(first, mappings[i + 1].source) == node_at(
                second,
                mappings[i + 1].source,
            ));
        }
        lemma_links_follow_sources(first_next, second_next, rest, working_dir);
        lemma_live_frame(first_next, rest, working_dir);
        lemma_live_frame(second_next, rest, working_dir);
        assert forall|path: Seq<char>|
            is_live_link(first, mappings, working_dir, path) implies #[trigger] node_at(
            first_after,
            path,
        ) == node_at(second_after, path) by {
            if !is_live_link(first_next, rest, working_dir, path) {
                let i = choose|i: int|
                    0 <= i < mappings.len() && link_of(#[trigger] mappings[i], working_dir)
                        == path && node_at(first, mappings[i].source) is Some;
                if i > 0 {
                    assert(rest[i - 1] == mappings[i]);
                    assert(node_at(first_next, rest[i - 1].source) is Some);
                    assert(false);
                }
                assert(path == link);
                assert(!is_live_link(second_next, rest, working_dir, path)) by {
                    if is_live_link(second_next, rest, working_dir, path) {
                        let k = choose|k: int|
                            0 <= k < rest.len() && link_of(#[trigger] rest[k], working_dir)
                                == path && node_at(second_next, rest[k].source) is Some;
                        assert(node_at(first_next, rest[k].source) is Some);
                    }
                }
                assert(node_at(first_after, path) == node_at(first_next, path));
                assert(node_at(second_after, path) == node_at(second_next, path));
            }
        }
    }
}

/// The links of the pairs whose source exists in `world`, in the order of
/// the pairs.
pub open spec fn live_links(
    world: World,
    mappings: Seq<MappingView>,
    working_dir: Seq<char>,
) -> Seq<Seq<char>>
    decreases mappings.len(),
{
    if mappings.len() == 0 {
        Seq::empty()
    } else if node_at(world, mappings[0].source) is Some {
        seq![link_of(mappings[0], working_dir)] + live_links(
            world,
            mappings.drop_first(),
            working_dir,
        )
    } else {
        live_links(world, mappings.drop_first(), working_dir)
    }
}

/// Which links are live depends on which sources exist, and on nothing else.
proof fn lemma_live_links_go_by_sources(
    first: World,
    second: World,
    mappings: Seq<MappingView>,
    working_dir: Seq<char>,
)
    requires
        forall|i: int|
            0 <= i < mappings.len() ==> (node_at(first, (#[trigger] mappings[i]).source) is Some)
                == (node_at(second, mappings[i].source) is Some),
    ensures
        live_links(first, mappings, working_dir) == live_links(second, mappings, working_dir),
    decreases mappings.len(),
{
    if mappings.len() > 0 {
        let rest = mappings.drop_first();
        assert((node_at(first, mappings[0].source) is Some) == (node_at(
            second,
            mappings[0].source,
        ) is Some));
        assert forall|i: int| 0 <= i < rest.len() implies (node_at(
            first,
            (#[trigger] rest[i]).source,
        ) is Some) == (node_at(second, rest[i].source) is Some) by {
            assert(rest[i] == mappings[i + 1]);
        }
        lemma_live_links_go_by_sources(first, second, rest, working_dir);
    }
}

/// What a linking pass hands back: a pass that did not fail, over pairs
/// whose links spare the sources, records the link of every pair whose
/// source exists, in the order of the pairs, and no other.
pub proof fn lemma_pass_records_live_links(
    world: World,
    mappings: Seq<MappingView>,
    working_dir: Seq<char>,
)
    requires
        links_spare_sources(mappings, working_dir),
        link_all(world, mappings, working_dir).failure is None,
    ensures
        link_all(world, mappings, working_dir).linked == live_links(world, mappings, working_dir),
    decreases mappings.len(),
{
    if mappings.len() > 0 {
        let original = mappings[0].source;
        let link = link_of(mappings[0], working_dir);
        let rest = mappings.drop_first();
        let plan = plan_for(original, link, probe_of(world, original, link), working_dir)->Ok_0;
        let next = perform_all(world, plan.actions);
        lemma_plan_effect(world, original, link, working_dir);
        lemma_rest_spares_sources(mappings, working_dir);
        lemma_pass_records_live_links(next, rest, working_dir);
        assert forall|i: int| 0 <= i < rest.len() implies (node_at(
            next,
            (#[trigger] rest[i]).source,
        ) is Some) == (node_at(world, rest[i].source) is Some) by {
            assert(rest[i] == mappings[i + 1]);
            assert(link_of(mappings[0], working_dir) != mappings[i + 1].source);
        }
        lemma_live_links_go_by_sources(next, world, rest, working_dir);
    }
}

/// `world` with nothing left at the paths in `removed`.
pub open spec fn without(world: World, removed: Set<Seq<char>>) -> World {
    World {
        nodes: world.nodes.remove_keys(removed),
        directories: world.directories,
        canonical: world.canonical,
    }
}

/// The fixed point of cleaning and linking: after a linking pass that did
/// not fail, remove whatever paths but the sources, and link again. If that
/// pass does not fail either, the link of every pair whose source exists
/// leads to what it led to after the first pass.
pub proof fn lemma_relinking_restores(
    world: World,
    removed: Set<Seq<char>>,
    mappings: Seq<MappingView>,
    working_dir: Seq<char>,
)
    requires
        links_spare_sources(mappings, working_dir),
        forall|i: int| 0 <= i < mappings.len() ==> !removed.contains((#[trigger] mappings[i]).source),
        link_all(world, mappings, working_dir).failure is None,
        link_all(
            without(link_all(world, mappings, working_dir).world, removed),
            mappings,
            working_dir,
        ).failure is None,
    ensures
        forall|path: Seq<char>|
            is_live_link(world, mappings, working_dir, path) ==> #[trigger] node_at(
                link_all(
                    without(link_all(world, mappings, working_dir).world, removed),
                    mappings,
                    working_dir,
                ).world,
                path,
            ) == node_at(link_all(world, mappings, working_dir).world, path),
{
    let linked_world = link_all(world, mappings, working_dir).world;
    let cleaned = without(linked_world, removed);
    lemma_sources_stay(world, mappings, working_dir);
    assert forall|i: int| 0 <= i < mappings.len() implies node_at(
        world,
        (#[trigger] mappings[i]).source,
    ) == node_at(cleaned, mappings[i].source) by {
        assert(node_at(linked_world, mappings[i].source) == node_at(world, mappings[i].source));
    }
    lemma_links_follow_sources(world, cleaned, mappings, working_dir);
}

/// The guard at work: where something other than the source is at the link
/// and its canonical path lies outside the working directory, linking that
/// pair fails with a conflict that names both paths, takes no action and
/// leaves the state as it is.
pub proof fn lemma_conflict_changes_nothing(
    world: World,
    mapping: MappingView,
    working_dir: Seq<char>,
)
    requires
        node_at(world, mapping.source) is Some,
        node_at(world, link_of(mapping, working_dir)) is Some,
        node_at(world, link_of(mapping, working_dir)) != node_at(world, mapping.source),
        world.canonical.dom().contains(link_of(mapping, working_dir)),
        !within_managed_tree(world.canonical[link_of(mapping, working_dir)], working_dir),
    ensures
        link_all(world, seq![mapping], working_dir) == (LinkOutcome {
            world,
            actions: Seq::empty(),
            linked: Seq::empty(),
            failure: Some(
                LinkErrorView::Conflict {
                    original: mapping.source,
                    link: link_of(mapping, working_dir),
                },
            ),
        }),
{
    assert(seq![mapping][0] == mapping);
}

} // verus!
