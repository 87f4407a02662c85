//! The command line links: what stands at their places, and whose it is.

use vstd::prelude::*;

use crate::bundle::normalize_path_str;
use crate::shell::{BUNDLE_LINK_SUFFIX_CYS, BUNDLE_LINK_SUFFIX_CYSD};
use crate::shell::into_bundle;
use crate::text::ends_with;

verus! {

/// What was found at one place: nothing, a file, or a link and its target.
#[derive(Debug)]
pub struct LinkProbe {
    pub path: String,
    pub present: bool,
    pub is_symlink: bool,
    pub link_target: Option<String>,
}

/// What removing does at one place.
#[derive(Debug, PartialEq, Eq, Clone, Copy, Structural)]
pub enum UninstallAction {
    /// A link into the bundle: removed.
    Remove,
    /// Nothing there.
    SkipAbsent,
    /// A file of someone else.
    SkipNotSymlink,
    /// A link to somewhere else, or one whose target cannot be read.
    SkipForeignTarget,
}

/// What removing does at the place of `p`.
pub open spec fn action_for(p: LinkProbe) -> UninstallAction {
    if !p.present {
        UninstallAction::SkipAbsent
    } else if !p.is_symlink {
        UninstallAction::SkipNotSymlink
    } else {
        match p.link_target {
            Some(t) => if into_bundle(t@) {
                UninstallAction::Remove
            } else {
                UninstallAction::SkipForeignTarget
            },
            None => UninstallAction::SkipForeignTarget,
        }
    }
}

/// Something of someone else stands at the place of `p`.
pub open spec fn foreign_at(p: LinkProbe) -> bool {
    action_for(p) == UninstallAction::SkipNotSymlink || action_for(p)
        == UninstallAction::SkipForeignTarget
}

/// Whether a link target is one of the two binaries inside the bundle.
pub fn links_into_cys_bundle(target: &str) -> (r: bool)
    ensures
        r == into_bundle(target@),
{
    let t = normalize_path_str(target);
    ends_with(t.as_str(), BUNDLE_LINK_SUFFIX_CYS) || ends_with(t.as_str(), BUNDLE_LINK_SUFFIX_CYSD)
}

/// What removing does at one place: only a link into the bundle goes.
pub fn decide_cli_uninstall(p: &LinkProbe) -> (a: UninstallAction)
    ensures
        a == action_for(*p),
{
    if !p.present {
        return UninstallAction::SkipAbsent;
    }
    if !p.is_symlink {
        return UninstallAction::SkipNotSymlink;
    }
    match &p.link_target {
        Some(t) => {
            if links_into_cys_bundle(t.as_str()) {
                UninstallAction::Remove
            } else {
                UninstallAction::SkipForeignTarget
            }
        },
        None => UninstallAction::SkipForeignTarget,
    }
}

/// How the links stand as a whole.
#[derive(Debug, PartialEq, Eq, Clone, Copy, Structural)]
pub enum CliLinkState {
    Absent,
    Ours,
    Partial,
    Foreign,
}

/// The number of places whose link would be removed.
pub open spec fn ours_count(probes: Seq<LinkProbe>) -> nat
    decreases probes.len(),
{
    if probes.len() == 0 {
        0
    } else {
        ours_count(probes.drop_last()) + if action_for(probes.last()) == UninstallAction::Remove {
            1nat
        } else {
            0nat
        }
    }
}

/// Something foreign stands at one of the places.
pub open spec fn any_foreign(probes: Seq<LinkProbe>) -> bool {
    exists|i: int| 0 <= i < probes.len() && foreign_at(#[trigger] probes[i])
}

/// How the links stand: none of ours and nothing foreign, none of ours but
/// something foreign, all ours, or some ours.
pub open spec fn link_state(probes: Seq<LinkProbe>) -> CliLinkState {
    if ours_count(probes) == 0 {
        if any_foreign(probes) {
            CliLinkState::Foreign
        } else {
            CliLinkState::Absent
        }
    } else if ours_count(probes) == probes.len() {
        CliLinkState::Ours
    } else {
        CliLinkState::Partial
    }
}

/// How the links stand as a whole.
pub fn classify_cli_links(probes: &[LinkProbe]) -> (s: CliLinkState)
    ensures
        s == link_state(probes@),
{
    let mut ours: usize = 0;
    let mut foreign: bool = false;
    let mut i: usize = 0;
    while i < probes.len()
        invariant
            i <= probes@.len(),
            ours <= i,
            ours == ours_count(probes@.take(i as int)),
            foreign <==> exists|k: int| 0 <= k < i && foreign_at(#[trigger] probes@[k]),
        decreases probes.len() - i,
    {
        assert(probes@.take(i + 1).drop_last() == probes@.take(i as int));
        match decide_cli_uninstall(&probes[i]) {
            UninstallAction::Remove => {
                ours += 1;
            },
            UninstallAction::SkipNotSymlink | UninstallAction::SkipForeignTarget => {
                assert(foreign_at(probes@[i as int]));
                foreign = true;
            },
            UninstallAction::SkipAbsent => {},
        }
        i += 1;
    }
    assert(probes@.take(probes@.len() as int) == probes@);
    if ours == 0 {
        if foreign {
            CliLinkState::Foreign
        } else {
            CliLinkState::Absent
        }
    } else if ours == probes.len() {
        CliLinkState::Ours
    } else {
        CliLinkState::Partial
    }
}

proof fn lemma_ours_count(probes: Seq<LinkProbe>)
    ensures
        ours_count(probes) <= probes.len(),
        ours_count(probes) == 0 <==> forall|i: int|
            0 <= i < probes.len() ==> action_for(#[trigger] probes[i]) != UninstallAction::Remove,
        ours_count(probes) == probes.len() <==> forall|i: int|
            0 <= i < probes.len() ==> action_for(#[trigger] probes[i]) == UninstallAction::Remove,
    decreases probes.len(),
{
    if probes.len() > 0 {
        let u = probes.drop_last();
        lemma_ours_count(u);
        assert(forall|i: int| 0 <= i < u.len() ==> u[i] == probes[i]);
        if ours_count(probes) == 0 {
            assert forall|i: int| 0 <= i < probes.len() implies action_for(#[trigger] probes[i])
                != UninstallAction::Remove by {
                if i < u.len() {
                    assert(action_for(u[i]) != UninstallAction::Remove);
                }
            }
        } else if forall|i: int|
            0 <= i < probes.len() ==> action_for(#[trigger] probes[i]) != UninstallAction::Remove {
            assert forall|i: int| 0 <= i < u.len() implies action_for(#[trigger] u[i])
                != UninstallAction::Remove by {
                assert(action_for(probes[i]) != UninstallAction::Remove);
            }
            assert(action_for(probes[probes.len() - 1]) != UninstallAction::Remove);
        }
        if ours_count(probes) == probes.len() {
            assert forall|i: int| 0 <= i < probes.len() implies action_for(#[trigger] probes[i])
                == UninstallAction::Remove by {
                if i < u.len() {
                    assert(action_for(u[i]) == UninstallAction::Remove);
                }
            }
        } else if forall|i: int|
            0 <= i < probes.len() ==> action_for(#[trigger] probes[i]) == UninstallAction::Remove {
            assert forall|i: int| 0 <= i < u.len() implies action_for(#[trigger] u[i])
                == UninstallAction::Remove by {
                assert(action_for(probes[i]) == UninstallAction::Remove);
            }
            assert(action_for(probes[probes.len() - 1]) == UninstallAction::Remove);
        }
    }
}

/// What each state says of the single places. In the states `Ours` and
/// `Absent` nothing foreign stands anywhere.
pub proof fn law_link_state_meaning(probes: Seq<LinkProbe>)
    ensures
        link_state(probes) == CliLinkState::Absent <==> forall|i: int|
            0 <= i < probes.len() ==> action_for(#[trigger] probes[i])
                == UninstallAction::SkipAbsent,
        link_state(probes) == CliLinkState::Ours <==> probes.len() > 0 && forall|i: int|
            0 <= i < probes.len() ==> action_for(#[trigger] probes[i]) == UninstallAction::Remove,
        link_state(probes) == CliLinkState::Ours || link_state(probes) == CliLinkState::Partial
            <==> exists|i: int|
            0 <= i < probes.len() && action_for(#[trigger] probes[i]) == UninstallAction::Remove,
        link_state(probes) == CliLinkState::Ours || link_state(probes) == CliLinkState::Absent
            ==> !any_foreign(probes),
{
    lemma_ours_count(probes);
    if link_state(probes) == CliLinkState::Absent {
        assert forall|i: int| 0 <= i < probes.len() implies action_for(#[trigger] probes[i])
            == UninstallAction::SkipAbsent by {
            assert(!foreign_at(probes[i]));
        }
    }
    if forall|i: int|
        0 <= i < probes.len() ==> action_for(#[trigger] probes[i]) == UninstallAction::SkipAbsent {
        assert(ours_count(probes) == 0);
        assert(!any_foreign(probes));
    }
}

/// What removing does at a place follows from what was found there. Only a link
/// whose target ends in one of the two binaries of the bundle goes; where nothing
/// stands there is nothing to do, and a file or any other link is someone else's.
pub proof fn law_only_links_into_the_bundle_go(p: LinkProbe)
    ensures
        action_for(p) == UninstallAction::SkipAbsent <==> !p.present,
        action_for(p) == UninstallAction::SkipNotSymlink <==> p.present && !p.is_symlink,
        action_for(p) == UninstallAction::Remove <==> p.present && p.is_symlink && exists|
            t: String,
        |
            p.link_target == Some(t) && #[trigger] into_bundle(t@),
        foreign_at(p) <==> p.present && action_for(p) != UninstallAction::Remove,
{
    if let Some(t) = p.link_target {
        assert(into_bundle(t@) || !into_bundle(t@));
    }
}

} // verus!
