//! Removing the command line links and putting back what they displaced.

use vstd::prelude::*;

use crate::backup::{listed, pick_restore_backup};
use crate::backup::newest_backup;
use crate::bundle::paths_equivalent;
use crate::bundle::normalized;
use crate::install::{extend, shown_target, ScriptRun};
use crate::install::{some_ours, target_shown};
use crate::links::{decide_cli_uninstall, LinkProbe, UninstallAction};
use crate::links::{action_for, foreign_at, link_state};
use crate::marks::parse_pair_markers;
use crate::marks::marked_pairs;
use crate::shell::{build_uninstall_script, elevate, RESTORE_MARK};
use crate::shell::{elevated, uninstall_script};
use crate::text::same_text;
use crate::text::{opt_str_text, opt_text, pair_texts, texts, trimmed};

verus! {

pub const SKIP_REASON_ABSENT: &'static str = "absent";

pub const SKIP_REASON_NOT_SYMLINK: &'static str = "not_symlink";

pub const SKIP_REASON_FOREIGN_TARGET: &'static str = "foreign_target";

/// The machine-readable reason for leaving a place alone.
pub open spec fn skip_tag(a: UninstallAction) -> Option<Seq<char>> {
    match a {
        UninstallAction::Remove => None,
        UninstallAction::SkipAbsent => Some(SKIP_REASON_ABSENT@),
        UninstallAction::SkipNotSymlink => Some(SKIP_REASON_NOT_SYMLINK@),
        UninstallAction::SkipForeignTarget => Some(SKIP_REASON_FOREIGN_TARGET@),
    }
}

/// The machine-readable reason for leaving a place alone.
pub fn skip_reason_tag(action: &UninstallAction) -> (r: Option<&'static str>)
    ensures
        opt_str_text(r) == skip_tag(*action),
{
    match action {
        UninstallAction::Remove => None,
        UninstallAction::SkipAbsent => Some(SKIP_REASON_ABSENT),
        UninstallAction::SkipNotSymlink => Some(SKIP_REASON_NOT_SYMLINK),
        UninstallAction::SkipForeignTarget => Some(SKIP_REASON_FOREIGN_TARGET),
    }
}

/// Everything that was left alone was not there anyway.
pub open spec fn benign(reasons: Seq<Seq<char>>) -> bool {
    forall|i: int| 0 <= i < reasons.len() ==> #[trigger] reasons[i] == SKIP_REASON_ABSENT@
}

/// Whether everything that was left alone was not there anyway.
pub fn all_skips_benign(reasons: &[String]) -> (r: bool)
    ensures
        r == benign(texts(reasons@)),
{
    let mut i: usize = 0;
    let ghost all = texts(reasons@);
    while i < reasons.len()
        invariant
            i <= reasons@.len(),
            all == texts(reasons@),
            forall|j: int| 0 <= j < i ==> #[trigger] all[j] == SKIP_REASON_ABSENT@,
        decreases reasons.len() - i,
    {
        assert(all[i as int] == reasons@[i as int]@);
        if !same_text(reasons[i].as_str(), SKIP_REASON_ABSENT) {
            return false;
        }
        i += 1;
    }
    true
}

/// How to remove: what goes, what stays and why, what is put back as
/// `(backup, place)`, and the privileged command where anything goes.
#[derive(Debug)]
pub struct CliUninstallPlan {
    pub remove: Vec<String>,
    pub skipped: Vec<String>,
    pub skipped_reasons: Vec<String>,
    pub restore: Vec<(String, String)>,
    pub osascript_arg: Option<String>,
}

/// Why a place is left alone, in words.
pub open spec fn skip_note(p: LinkProbe) -> Option<Seq<char>> {
    match action_for(p) {
        UninstallAction::Remove => None,
        UninstallAction::SkipAbsent => Some(p.path@ + " — 없음(이미 해제된 상태)"@),
        UninstallAction::SkipNotSymlink => Some(
            p.path@
                + " — 심볼릭이 아니라 실제 파일입니다. 다른 도구가 설치한 것일 수 있어 건드리지 않았습니다."@,
        ),
        UninstallAction::SkipForeignTarget => Some(
            p.path@ + " — cys.app 번들이 아닌 곳("@ + target_shown(p)
                + ")을 가리키는 링크라 건드리지 않았습니다."@,
        ),
    }
}

/// The paths whose link goes.
pub open spec fn removed_paths(probes: Seq<LinkProbe>) -> Seq<Seq<char>>
    decreases probes.len(),
{
    if probes.len() == 0 {
        Seq::empty()
    } else {
        let head = removed_paths(probes.drop_last());
        if action_for(probes.last()) == UninstallAction::Remove {
            head.push(probes.last().path@)
        } else {
            head
        }
    }
}

/// The notes on the places that are left alone.
pub open spec fn skip_notes(probes: Seq<LinkProbe>) -> Seq<Seq<char>>
    decreases probes.len(),
{
    if probes.len() == 0 {
        Seq::empty()
    } else {
        let head = skip_notes(probes.drop_last());
        match skip_note(probes.last()) {
            Some(n) => head.push(n),
            None => head,
        }
    }
}

/// The reasons for the places that are left alone.
pub open spec fn skip_tags(probes: Seq<LinkProbe>) -> Seq<Seq<char>>
    decreases probes.len(),
{
    if probes.len() == 0 {
        Seq::empty()
    } else {
        let head = skip_tags(probes.drop_last());
        match skip_tag(action_for(probes.last())) {
            Some(t) => head.push(t),
            None => head,
        }
    }
}

/// What is put back: for each link that goes its newest backup.
pub open spec fn restored_pairs(probes: Seq<LinkProbe>, backups: Seq<Seq<char>>) -> Seq<
    (Seq<char>, Seq<char>),
>
    decreases probes.len(),
{
    if probes.len() == 0 {
        Seq::empty()
    } else {
        let head = restored_pairs(probes.drop_last(), backups);
        let p = probes.last();
        match newest_backup(normalized(p.path@), backups) {
            Some(b) => if action_for(p) == UninstallAction::Remove {
                head.push((b, p.path@))
            } else {
                head
            },
            None => head,
        }
    }
}

fn skip_note_of(p: &LinkProbe) -> (r: Option<String>)
    ensures
        opt_text(r) == skip_note(*p),
{
    match decide_cli_uninstall(p) {
        UninstallAction::Remove => None,
        UninstallAction::SkipAbsent => {
            let mut s = p.path.clone();
            s.append(" — 없음(이미 해제된 상태)");
            Some(s)
        },
        UninstallAction::SkipNotSymlink => {
            let mut s = p.path.clone();
            s.append(
                " — 심볼릭이 아니라 실제 파일입니다. 다른 도구가 설치한 것일 수 있어 건드리지 않았습니다.",
            );
            Some(s)
        },
        UninstallAction::SkipForeignTarget => {
            let mut s = p.path.clone();
            s.append(" — cys.app 번들이 아닌 곳(");
            s.append(shown_target(p).as_str());
            s.append(")을 가리키는 링크라 건드리지 않았습니다.");
            Some(s)
        },
    }
}

/// The plan for removing the links that were found at `probes`, with `backups`
/// the backups that are left.
pub fn plan_cli_uninstall(probes: &[LinkProbe], backups: &[String]) -> (plan: CliUninstallPlan)
    ensures
        texts(plan.remove@) == removed_paths(probes@),
        texts(plan.skipped@) == skip_notes(probes@),
        texts(plan.skipped_reasons@) == skip_tags(probes@),
        pair_texts(plan.restore@) == restored_pairs(probes@, texts(backups@)),
        opt_text(plan.osascript_arg) == (if removed_paths(probes@).len() == 0 {
            None
        } else {
            Some(
                elevated(
                    uninstall_script(
                        removed_paths(probes@),
                        restored_pairs(probes@, texts(backups@)),
                    ),
                ),
            )
        }),
{
    let mut remove: Vec<String> = Vec::new();
    let mut skipped: Vec<String> = Vec::new();
    let mut skipped_reasons: Vec<String> = Vec::new();
    let mut restore: Vec<(String, String)> = Vec::new();
    let mut i: usize = 0;
    assert(texts(remove@) == removed_paths(probes@.take(0)));
    assert(texts(skipped@) == skip_notes(probes@.take(0)));
    assert(texts(skipped_reasons@) == skip_tags(probes@.take(0)));
    assert(pair_texts(restore@) == restored_pairs(probes@.take(0), texts(backups@)));
    while i < probes.len()
        invariant
            i <= probes@.len(),
            texts(remove@) == removed_paths(probes@.take(i as int)),
            texts(skipped@) == skip_notes(probes@.take(i as int)),
            texts(skipped_reasons@) == skip_tags(probes@.take(i as int)),
            pair_texts(restore@) == restored_pairs(probes@.take(i as int), texts(backups@)),
        decreases probes.len() - i,
    {
        let ghost (r0, s0, t0, p0) = (remove@, skipped@, skipped_reasons@, restore@);
        assert(probes@.take(i + 1).drop_last() == probes@.take(i as int));
        let p = &probes[i];
        let action = decide_cli_uninstall(p);
        if let Some(tag) = skip_reason_tag(&action) {
            skipped_reasons.push(tag.to_owned());
            assert(texts(skipped_reasons@) == texts(t0).push(tag@));
        }
        if let Some(note) = skip_note_of(p) {
            let ghost n = note@;
            skipped.push(note);
            assert(texts(skipped@) == texts(s0).push(n));
        }
        if action == UninstallAction::Remove {
            if let Some(bak) = pick_restore_backup(p.path.as_str(), backups) {
                let place = p.path.clone();
                let ghost pair = (bak@, place@);
                restore.push((bak, place));
                assert(pair_texts(restore@) == pair_texts(p0).push(pair));
            }
            let path = p.path.clone();
            remove.push(path);
            assert(texts(remove@) == texts(r0).push(path@));
        }
        i += 1;
    }
    assert(probes@.take(probes@.len() as int) == probes@);
    assert(texts(remove@).len() == remove@.len());
    let osascript_arg = if remove.len() == 0 {
        None
    } else {
        Some(elevate(build_uninstall_script(remove.as_slice(), restore.as_slice()).as_str()))
    };
    CliUninstallPlan { remove, skipped, skipped_reasons, restore, osascript_arg }
}

/// Each place is either removed or left alone with a note and a reason of its
/// own; only links into the bundle are removed, and what is put back goes to
/// a place whose link is removed. Where nothing is removed there is no
/// privileged command, and the state of the links says the same.
pub proof fn law_uninstall_plan(probes: Seq<LinkProbe>, backups: Seq<Seq<char>>)
    ensures
        skip_notes(probes).len() == skip_tags(probes).len(),
        removed_paths(probes).len() + skip_notes(probes).len() == probes.len(),
        removed_paths(probes).len() > 0 <==> some_ours(link_state(probes)),
        restored_pairs(probes, backups).len() <= removed_paths(probes).len(),
        forall|i: int|
            0 <= i < restored_pairs(probes, backups).len() ==> removed_paths(probes).contains(
                (#[trigger] restored_pairs(probes, backups)[i]).1,
            ),
        benign(skip_tags(probes)) <==> !crate::links::any_foreign(probes),
{
    lemma_uninstall_plan(probes, backups);
    crate::links::law_link_state_meaning(probes);
}

proof fn lemma_uninstall_plan(probes: Seq<LinkProbe>, backups: Seq<Seq<char>>)
    ensures
        skip_notes(probes).len() == skip_tags(probes).len(),
        removed_paths(probes).len() + skip_notes(probes).len() == probes.len(),
        removed_paths(probes).len() > 0 <==> exists|i: int|
            0 <= i < probes.len() && action_for(#[trigger] probes[i]) == UninstallAction::Remove,
        restored_pairs(probes, backups).len() <= removed_paths(probes).len(),
        forall|i: int|
            0 <= i < restored_pairs(probes, backups).len() ==> removed_paths(probes).contains(
                (#[trigger] restored_pairs(probes, backups)[i]).1,
            ),
        benign(skip_tags(probes)) <==> !crate::links::any_foreign(probes),
    decreases probes.len(),
{
    reveal_strlit("absent");
    reveal_strlit("not_symlink");
    reveal_strlit("foreign_target");
    assert(SKIP_REASON_ABSENT@.len() != SKIP_REASON_NOT_SYMLINK@.len());
    assert(SKIP_REASON_ABSENT@.len() != SKIP_REASON_FOREIGN_TARGET@.len());
    if probes.len() > 0 {
        let u = probes.drop_last();
        let n = probes.len() - 1;
        lemma_uninstall_plan(u, backups);
        assert(forall|i: int| 0 <= i < n ==> u[i] == probes[i]);
        let (ru, rp) = (removed_paths(u), removed_paths(probes));
        let (xu, xp) = (restored_pairs(u, backups), restored_pairs(probes, backups));
        let (tu, tp) = (skip_tags(u), skip_tags(probes));
        if ru.len() > 0 {
            let i = choose|i: int|
                0 <= i < u.len() && action_for(#[trigger] u[i]) == UninstallAction::Remove;
            assert(action_for(probes[i]) == UninstallAction::Remove);
        }
        if exists|i: int|
            0 <= i < probes.len() && action_for(#[trigger] probes[i]) == UninstallAction::Remove {
            let i = choose|i: int|
                0 <= i < probes.len() && action_for(#[trigger] probes[i])
                    == UninstallAction::Remove;
            if i < n {
                assert(action_for(u[i]) == UninstallAction::Remove);
            }
        }
        if rp.len() > ru.len() {
            assert(action_for(probes[n]) == UninstallAction::Remove);
        }
        assert forall|i: int| 0 <= i < xp.len() implies rp.contains((#[trigger] xp[i]).1) by {
            if i < xu.len() {
                assert(xp[i] == xu[i]);
                assert(ru.contains(xu[i].1));
                let k = choose|k: int| 0 <= k < ru.len() && ru[k] == xu[i].1;
                assert(rp[k] == ru[k]);
            } else {
                assert(rp[rp.len() - 1] == xp[i].1);
            }
        }
        if benign(tp) {
            assert forall|i: int| 0 <= i < tu.len() implies #[trigger] tu[i]
                == SKIP_REASON_ABSENT@ by {
                assert(tp[i] == tu[i]);
            }
            assert(benign(tu));
            if tp.len() > tu.len() {
                assert(tp[tp.len() - 1] == SKIP_REASON_ABSENT@);
            }
            assert forall|i: int| 0 <= i < probes.len() implies !foreign_at(
                #[trigger] probes[i],
            ) by {
                if i < n {
                    assert(!foreign_at(u[i]));
                }
            }
        } else {
            let i = choose|i: int| 0 <= i < tp.len() && tp[i] != SKIP_REASON_ABSENT@;
            if i < tu.len() {
                assert(tu[i] == tp[i]);
                assert(!benign(tu));
                let k = choose|k: int| 0 <= k < u.len() && foreign_at(#[trigger] u[k]);
                assert(foreign_at(probes[k]));
            } else {
                assert(foreign_at(probes[n]));
            }
        }
    }
}

/// One line for each path.
pub open spec fn path_list(paths: Seq<Seq<char>>) -> Seq<char>
    decreases paths.len(),
{
    if paths.len() == 0 {
        Seq::empty()
    } else {
        path_list(paths.drop_last()) + "\n  · "@ + paths.last()
    }
}

/// A heading and the paths below it; nothing without paths.
pub open spec fn section(title: Seq<char>, paths: Seq<Seq<char>>) -> Seq<char> {
    if paths.len() == 0 {
        Seq::empty()
    } else {
        title + path_list(paths)
    }
}

/// The failure, and below it what was already gone, put back, and left.
pub open spec fn uninstall_failure_text(
    base: Seq<char>,
    gone: Seq<Seq<char>>,
    left: Seq<Seq<char>>,
    restored: Seq<Seq<char>>,
) -> Seq<char> {
    base + section("\n\n※ 실패 전에 이미 제거된 것:"@, gone) + section(
        "\n\n※ 실패 전에 이미 되돌린 것(설치 때 백업해 둔 원본이 제자리로 왔습니다):"@,
        restored,
    ) + section("\n\n※ 아직 남아 있는 것(자동으로 제거하지 못했습니다):"@, left)
}

fn section_text(title: &str, paths: &[String]) -> (r: String)
    ensures
        r@ == section(title@, texts(paths@)),
{
    let ghost all = texts(paths@);
    assert(all.len() == paths@.len());
    if paths.len() == 0 {
        return String::new();
    }
    let mut lines = String::new();
    let mut i: usize = 0;
    while i < paths.len()
        invariant
            i <= paths@.len(),
            all == texts(paths@),
            lines@ == path_list(all.take(i as int)),
        decreases paths.len() - i,
    {
        assert(all.take(i + 1).drop_last() == all.take(i as int));
        assert(all[i as int] == paths@[i as int]@);
        lines.append("\n  · ");
        lines.append(paths[i].as_str());
        i += 1;
    }
    assert(all.take(paths@.len() as int) == all);
    let mut out = title.to_owned();
    out.append(lines.as_str());
    out
}

/// The failure, and below it what was already gone, put back, and left.
pub fn uninstall_failure_message(
    base: &str,
    gone: &[String],
    left: &[String],
    restored: &[String],
) -> (r: String)
    ensures
        r@ == uninstall_failure_text(base@, texts(gone@), texts(left@), texts(restored@)),
{
    let mut msg = base.to_owned();
    msg.append(section_text("\n\n※ 실패 전에 이미 제거된 것:", gone).as_str());
    msg.append(
        section_text(
            "\n\n※ 실패 전에 이미 되돌린 것(설치 때 백업해 둔 원본이 제자리로 왔습니다):",
            restored,
        ).as_str(),
    );
    msg.append(
        section_text(
            "\n\n※ 아직 남아 있는 것(자동으로 제거하지 못했습니다):",
            left,
        ).as_str(),
    );
    msg
}

/// A path of `s` differs from `path` in nothing but its slashes.
pub open spec fn holds_path(s: Seq<Seq<char>>, path: Seq<char>) -> bool {
    exists|i: int| 0 <= i < s.len() && normalized(#[trigger] s[i]) == normalized(path)
}

/// Whether a path of `list` differs from `path` in nothing but its slashes.
pub fn lists_path(list: &[String], path: &str) -> (r: bool)
    ensures
        r == holds_path(texts(list@), path@),
{
    let ghost all = texts(list@);
    let mut i: usize = 0;
    while i < list.len()
        invariant
            i <= list@.len(),
            all == texts(list@),
            forall|j: int| 0 <= j < i ==> normalized(#[trigger] all[j]) != normalized(path@),
        decreases list.len() - i,
    {
        assert(all[i as int] == list@[i as int]@);
        if paths_equivalent(list[i].as_str(), path) {
            return true;
        }
        i += 1;
    }
    false
}

/// The link at `path` is gone: its place was put back, or nothing stands there.
pub open spec fn is_gone(
    path: Seq<char>,
    restored: Seq<Seq<char>>,
    present: Seq<Seq<char>>,
) -> bool {
    holds_path(restored, path) || !present.contains(path)
}

/// The planned paths of which `gone` holds or does not hold.
pub open spec fn with_gone(
    planned: Seq<Seq<char>>,
    restored: Seq<Seq<char>>,
    present: Seq<Seq<char>>,
    gone: bool,
) -> Seq<Seq<char>>
    decreases planned.len(),
{
    if planned.len() == 0 {
        Seq::empty()
    } else {
        let head = with_gone(planned.drop_last(), restored, present, gone);
        if is_gone(planned.last(), restored, present) == gone {
            head.push(planned.last())
        } else {
            head
        }
    }
}

/// The planned removals that happened and those that did not. A place whose
/// displaced file was put back counts as removed, although a file stands
/// there. `present` lists the paths at which something stands.
pub fn observe_removed(planned: &[String], restored: &[String], present: &[String]) -> (r: (
    Vec<String>,
    Vec<String>,
))
    ensures
        texts(r.0@) == with_gone(texts(planned@), texts(restored@), texts(present@), true),
        texts(r.1@) == with_gone(texts(planned@), texts(restored@), texts(present@), false),
{
    let mut gone: Vec<String> = Vec::new();
    let mut left: Vec<String> = Vec::new();
    let ghost (all, rs, ps) = (texts(planned@), texts(restored@), texts(present@));
    let mut i: usize = 0;
    assert(texts(gone@) == with_gone(all.take(0), rs, ps, true));
    assert(texts(left@) == with_gone(all.take(0), rs, ps, false));
    while i < planned.len()
        invariant
            i <= planned@.len(),
            all == texts(planned@),
            rs == texts(restored@),
            ps == texts(present@),
            texts(gone@) == with_gone(all.take(i as int), rs, ps, true),
            texts(left@) == with_gone(all.take(i as int), rs, ps, false),
        decreases planned.len() - i,
    {
        let ghost (g0, l0) = (gone@, left@);
        assert(all.take(i + 1).drop_last() == all.take(i as int));
        assert(all[i as int] == planned@[i as int]@);
        let p = planned[i].clone();
        let ghost pt = p@;
        if lists_path(restored, p.as_str()) || !listed(present, p.as_str()) {
            gone.push(p);
            assert(texts(gone@) == texts(g0).push(pt));
        } else {
            left.push(p);
            assert(texts(left@) == texts(l0).push(pt));
        }
        i += 1;
    }
    assert(all.take(planned@.len() as int) == all);
    (gone, left)
}

/// Every planned removal either happened or is left, and a place that was put
/// back is never among those left.
pub proof fn law_removals_are_accounted_for(
    planned: Seq<Seq<char>>,
    restored: Seq<Seq<char>>,
    present: Seq<Seq<char>>,
)
    ensures
        with_gone(planned, restored, present, true).len() + with_gone(
            planned,
            restored,
            present,
            false,
        ).len() == planned.len(),
        forall|i: int|
            0 <= i < with_gone(planned, restored, present, false).len() ==> !holds_path(
                restored,
                #[trigger] with_gone(planned, restored, present, false)[i],
            ),
    decreases planned.len(),
{
    if planned.len() > 0 {
        let u = planned.drop_last();
        law_removals_are_accounted_for(u, restored, present);
        let (lu, lp) = (
            with_gone(u, restored, present, false),
            with_gone(planned, restored, present, false),
        );
        assert forall|i: int| 0 <= i < lp.len() implies !holds_path(restored, #[trigger] lp[i]) by {
            if i < lu.len() {
                assert(lp[i] == lu[i]);
            }
        }
    }
}

/// The places of the planned restorations that happened: the backup is no
/// longer there and the place is taken.
pub open spec fn restored_places(
    planned: Seq<(Seq<char>, Seq<char>)>,
    present: Seq<Seq<char>>,
) -> Seq<Seq<char>>
    decreases planned.len(),
{
    if planned.len() == 0 {
        Seq::empty()
    } else {
        let head = restored_places(planned.drop_last(), present);
        let p = planned.last();
        if !present.contains(p.0) && present.contains(p.1) {
            head.push(p.1)
        } else {
            head
        }
    }
}

/// The places that were put back. `present` lists the paths at which something
/// stands, a dangling link included.
pub fn observe_restored(planned: &[(String, String)], present: &[String]) -> (r: Vec<String>)
    ensures
        texts(r@) == restored_places(pair_texts(planned@), texts(present@)),
{
    let mut out: Vec<String> = Vec::new();
    let ghost (all, ps) = (pair_texts(planned@), texts(present@));
    let mut i: usize = 0;
    assert(texts(out@) == restored_places(all.take(0), ps));
    while i < planned.len()
        invariant
            i <= planned@.len(),
            all == pair_texts(planned@),
            ps == texts(present@),
            texts(out@) == restored_places(all.take(i as int), ps),
        decreases planned.len() - i,
    {
        let ghost was = out@;
        assert(all.take(i + 1).drop_last() == all.take(i as int));
        assert(all[i as int] == (planned@[i as int].0@, planned@[i as int].1@));
        if !listed(present, planned[i].0.as_str()) && listed(present, planned[i].1.as_str()) {
            let s = planned[i].1.clone();
            out.push(s);
            assert(texts(out@) == texts(was).push(s@));
        }
        i += 1;
    }
    assert(all.take(planned@.len() as int) == all);
    out
}

/// `s` without the paths that repeat an earlier one, slashes aside.
pub open spec fn distinct_paths(s: Seq<Seq<char>>) -> Seq<Seq<char>>
    decreases s.len(),
{
    if s.len() == 0 {
        Seq::empty()
    } else {
        let head = distinct_paths(s.drop_last());
        if holds_path(head, s.last()) {
            head
        } else {
            head.push(s.last())
        }
    }
}

/// Merging loses no place and repeats none.
pub proof fn law_distinct_paths(s: Seq<Seq<char>>)
    ensures
        forall|p: Seq<char>| #[trigger] holds_path(distinct_paths(s), p) <==> holds_path(s, p),
        forall|i: int, j: int|
            0 <= i < j < distinct_paths(s).len() ==> normalized(#[trigger] distinct_paths(s)[i])
                != normalized(#[trigger] distinct_paths(s)[j]),
    decreases s.len(),
{
    let d = distinct_paths(s);
    if s.len() > 0 {
        let u = s.drop_last();
        let h = distinct_paths(u);
        law_distinct_paths(u);
        assert forall|p: Seq<char>| #[trigger] holds_path(d, p) <==> holds_path(s, p) by {
            if holds_path(s, p) {
                let i = choose|i: int|
                    0 <= i < s.len() && normalized(#[trigger] s[i]) == normalized(p);
                if i < u.len() {
                    assert(normalized(u[i]) == normalized(p));
                    assert(holds_path(u, p));
                    assert(holds_path(h, p));
                    let k = choose|k: int|
                        0 <= k < h.len() && normalized(#[trigger] h[k]) == normalized(p);
                    assert(d[k] == h[k]);
                } else if holds_path(h, s.last()) {
                    let k = choose|k: int|
                        0 <= k < h.len() && normalized(#[trigger] h[k]) == normalized(s.last());
                    assert(d[k] == h[k]);
                } else {
                    assert(d[d.len() - 1] == s.last());
                }
            }
            if holds_path(d, p) {
                let i = choose|i: int|
                    0 <= i < d.len() && normalized(#[trigger] d[i]) == normalized(p);
                if i < h.len() {
                    assert(d[i] == h[i]);
                    assert(holds_path(h, p));
                    assert(holds_path(u, p));
                    let k = choose|k: int|
                        0 <= k < u.len() && normalized(#[trigger] u[k]) == normalized(p);
                    assert(s[k] == u[k]);
                } else {
                    assert(s[s.len() - 1] == d[i]);
                }
            }
        }
        assert forall|i: int, j: int| 0 <= i < j < d.len() implies normalized(#[trigger] d[i])
            != normalized(#[trigger] d[j]) by {
            assert(d[i] == h[i]);
            if j < h.len() {
                assert(d[j] == h[j]);
            } else {
                assert(d[j] == s.last());
                assert(!holds_path(h, s.last()));
            }
        }
    }
}

/// The places that were put back: what the script reported first, then what
/// else was seen, each place once.
pub fn merge_restored_facts(reported: Vec<String>, observed: Vec<String>) -> (r: Vec<String>)
    ensures
        texts(r@) == distinct_paths(texts(reported@) + texts(observed@)),
{
    let mut all: Vec<String> = Vec::new();
    extend(&mut all, &reported);
    extend(&mut all, &observed);
    let ghost at = texts(all@);
    assert(at == texts(reported@) + texts(observed@));
    let mut out: Vec<String> = Vec::new();
    let mut i: usize = 0;
    assert(texts(out@) == distinct_paths(at.take(0)));
    while i < all.len()
        invariant
            i <= all.len(),
            at == texts(all@),
            texts(out@) == distinct_paths(at.take(i as int)),
        decreases all.len() - i,
    {
        let ghost was = out@;
        assert(at.take(i + 1).drop_last() == at.take(i as int));
        assert(at[i as int] == all@[i as int]@);
        if !lists_path(out.as_slice(), all[i].as_str()) {
            let s = all[i].clone();
            out.push(s);
            assert(texts(out@) == texts(was).push(s@));
        }
        i += 1;
    }
    assert(at.take(all.len() as int) == at);
    out
}

/// The report on a removal.
#[derive(Debug)]
pub struct UninstallCliReport {
    pub ok: bool,
    pub removed: Vec<String>,
    pub skipped: Vec<String>,
    pub skipped_reasons: Vec<String>,
    pub skipped_benign: bool,
    pub restored: Vec<String>,
    pub warnings: Vec<String>,
}

/// The second texts of the pairs.
pub open spec fn seconds(pairs: Seq<(Seq<char>, Seq<char>)>) -> Seq<Seq<char>> {
    pairs.map_values(|p: (Seq<char>, Seq<char>)| p.1)
}

/// The places that were put back, by report or by observation.
pub open spec fn restore_facts(
    run: ScriptRun,
    planned: Seq<(Seq<char>, Seq<char>)>,
    present: Seq<Seq<char>>,
) -> Seq<Seq<char>> {
    distinct_paths(
        seconds(marked_pairs(run.said_text(), RESTORE_MARK@)) + restored_places(planned, present),
    )
}

fn known_restores(run: &ScriptRun, planned: &[(String, String)], present: &[String]) -> (r: Vec<
    String,
>)
    ensures
        texts(r@) == restore_facts(*run, pair_texts(planned@), texts(present@)),
{
    let said = run.said();
    let pairs = parse_pair_markers(said.as_str(), RESTORE_MARK);
    let ghost pt = pair_texts(pairs@);
    let mut reported: Vec<String> = Vec::new();
    let mut i: usize = 0;
    while i < pairs.len()
        invariant
            i <= pairs.len(),
            pt == pair_texts(pairs@),
            texts(reported@) == seconds(pt).take(i as int),
        decreases pairs.len() - i,
    {
        let ghost was = reported@;
        assert(pt[i as int] == (pairs@[i as int].0@, pairs@[i as int].1@));
        let s = pairs[i].1.clone();
        reported.push(s);
        assert(texts(reported@) == texts(was).push(s@));
        assert(seconds(pt).take(i + 1) == seconds(pt).take(i as int).push(seconds(pt)[i as int]));
        i += 1;
    }
    assert(seconds(pt).take(pairs.len() as int) == seconds(pt));
    merge_restored_facts(reported, observe_restored(planned, present))
}

/// The report where nothing was to be removed.
pub fn uninstall_cli_nothing(plan: CliUninstallPlan) -> (r: UninstallCliReport)
    ensures
        r.ok,
        r.removed@.len() == 0,
        r.restored@.len() == 0,
        r.warnings@.len() == 0,
        r.skipped == plan.skipped,
        r.skipped_reasons == plan.skipped_reasons,
        r.skipped_benign == benign(texts(plan.skipped_reasons@)),
{
    UninstallCliReport {
        ok: true,
        removed: Vec::new(),
        skipped_benign: all_skips_benign(plan.skipped_reasons.as_slice()),
        skipped: plan.skipped,
        skipped_reasons: plan.skipped_reasons,
        restored: Vec::new(),
        warnings: Vec::new(),
    }
}

/// The error of a failed removal. It names what was already removed, what was
/// put back, and what is left; a place that was put back is not left over.
pub fn uninstall_cli_failure(plan: &CliUninstallPlan, run: &ScriptRun, present: &[String]) -> (r:
    String)
    ensures
        ({
            let restored = restore_facts(*run, pair_texts(plan.restore@), texts(present@));
            r@ == uninstall_failure_text(
                if run.was_canceled() {
                    "해제가 취소되었습니다."@
                } else {
                    "심볼릭 제거 실패: "@ + trimmed(run.error_text())
                },
                with_gone(texts(plan.remove@), restored, texts(present@), true),
                with_gone(texts(plan.remove@), restored, texts(present@), false),
                restored,
            )
        }),
{
    let restored = known_restores(run, plan.restore.as_slice(), present);
    let (gone, left) = observe_removed(plan.remove.as_slice(), restored.as_slice(), present);
    let base = run.failure("해제가 취소되었습니다.", "심볼릭 제거 실패: ");
    uninstall_failure_message(
        base.as_str(),
        gone.as_slice(),
        left.as_slice(),
        restored.as_slice(),
    )
}

/// Each path of `s` with `remark` behind it.
pub open spec fn remarks(s: Seq<Seq<char>>, remark: Seq<char>) -> Seq<Seq<char>> {
    s.map_values(|p: Seq<char>| p + remark)
}

fn push_remarks(list: &mut Vec<String>, items: &Vec<String>, remark: &str)
    ensures
        texts(final(list)@) == texts(old(list)@) + remarks(texts(items@), remark@),
{
    let ghost all = texts(items@);
    let ghost notes = remarks(all, remark@);
    let ghost start = texts(list@);
    let mut i: usize = 0;
    assert(start + notes.take(0) == start);
    while i < items.len()
        invariant
            i <= items.len(),
            all == texts(items@),
            notes == remarks(all, remark@),
            texts(list@) == start + notes.take(i as int),
        decreases items.len() - i,
    {
        let ghost was = list@;
        assert(all[i as int] == items@[i as int]@);
        let mut s = items[i].clone();
        s.append(remark);
        list.push(s);
        assert(texts(list@) == texts(was).push(s@));
        assert(notes.take(i + 1) == notes.take(i as int).push(notes[i as int]));
        i += 1;
        assert(texts(list@) == start + notes.take(i as int));
    }
    assert(notes.take(items.len() as int) == notes);
}

/// A note for each planned restoration whose place was not put back.
pub open spec fn unrestored_notes(
    planned: Seq<(Seq<char>, Seq<char>)>,
    restored: Seq<Seq<char>>,
) -> Seq<Seq<char>>
    decreases planned.len(),
{
    if planned.len() == 0 {
        Seq::empty()
    } else {
        let head = unrestored_notes(planned.drop_last(), restored);
        let p = planned.last();
        if holds_path(restored, p.1) {
            head
        } else {
            head.push(
                p.0 + " 를 "@ + p.1
                    + " 로 되돌리려 했으나 복원을 확인하지 못했습니다 — 현재 상태를 직접 확인하세요."@,
            )
        }
    }
}

fn push_unrestored_notes(
    list: &mut Vec<String>,
    planned: &[(String, String)],
    restored: &[String],
)
    ensures
        texts(final(list)@) == texts(old(list)@) + unrestored_notes(
            pair_texts(planned@),
            texts(restored@),
        ),
{
    let ghost (all, rs) = (pair_texts(planned@), texts(restored@));
    let ghost start = texts(list@);
    let mut i: usize = 0;
    assert(start + unrestored_notes(all.take(0), rs) == start);
    while i < planned.len()
        invariant
            i <= planned@.len(),
            all == pair_texts(planned@),
            rs == texts(restored@),
            texts(list@) == start + unrestored_notes(all.take(i as int), rs),
        decreases planned.len() - i,
    {
        let ghost was = list@;
        assert(all.take(i + 1).drop_last() == all.take(i as int));
        assert(all[i as int] == (planned@[i as int].0@, planned@[i as int].1@));
        if !lists_path(restored, planned[i].1.as_str()) {
            let mut s = planned[i].0.clone();
            s.append(" 를 ");
            s.append(planned[i].1.as_str());
            s.append(
                " 로 되돌리려 했으나 복원을 확인하지 못했습니다 — 현재 상태를 직접 확인하세요.",
            );
            list.push(s);
            assert(texts(list@) == texts(was).push(s@));
        }
        i += 1;
        assert(texts(list@) == start + unrestored_notes(all.take(i as int), rs));
    }
    assert(all.take(planned@.len() as int) == all);
}

/// The report on a removal whose script ended well. `present` lists the paths
/// at which something stands afterwards, `leftover` the backups that are left.
pub fn uninstall_cli_from_path(
    plan: CliUninstallPlan,
    run: &ScriptRun,
    present: &[String],
    leftover: &Vec<String>,
) -> (r: UninstallCliReport)
    ensures
        ({
            let restored = restore_facts(*run, pair_texts(plan.restore@), texts(present@));
            let planned = texts(plan.remove@);
            let gone = with_gone(planned, restored, texts(present@), true);
            let left = with_gone(planned, restored, texts(present@), false);
            &&& r.ok == (gone.len() == planned.len())
            &&& texts(r.removed@) == gone
            &&& r.skipped == plan.skipped
            &&& r.skipped_reasons == plan.skipped_reasons
            &&& r.skipped_benign == benign(texts(plan.skipped_reasons@))
            &&& texts(r.restored@) == restored
            &&& texts(r.warnings@) == remarks(
                left,
                " 가 아직 남아 있습니다 — 자동으로 제거하지 못했습니다."@,
            ) + remarks(
                restored,
                " — 설치 때 백업해 둔 원본을 그 자리에 되돌렸습니다(해제 전 상태로 복구)."@,
            ) + unrestored_notes(pair_texts(plan.restore@), restored) + remarks(
                texts(leftover@),
                " — 설치 때 백업해 둔 원본이 아직 남아 있습니다."@,
            )
        }),
{
    let restored = known_restores(run, plan.restore.as_slice(), present);
    let (removed, left) = observe_removed(plan.remove.as_slice(), restored.as_slice(), present);
    let mut warnings: Vec<String> = Vec::new();
    push_remarks(
        &mut warnings,
        &left,
        " 가 아직 남아 있습니다 — 자동으로 제거하지 못했습니다.",
    );
    assert(texts(warnings@) == remarks(
        texts(left@),
        " 가 아직 남아 있습니다 — 자동으로 제거하지 못했습니다."@,
    ));
    push_remarks(
        &mut warnings,
        &restored,
        " — 설치 때 백업해 둔 원본을 그 자리에 되돌렸습니다(해제 전 상태로 복구).",
    );
    push_unrestored_notes(&mut warnings, plan.restore.as_slice(), restored.as_slice());
    push_remarks(
        &mut warnings,
        leftover,
        " — 설치 때 백업해 둔 원본이 아직 남아 있습니다.",
    );
    assert(texts(removed@).len() == removed@.len());
    assert(texts(plan.remove@).len() == plan.remove@.len());
    UninstallCliReport {
        ok: removed.len() == plan.remove.len(),
        removed,
        skipped_benign: all_skips_benign(plan.skipped_reasons.as_slice()),
        skipped: plan.skipped,
        skipped_reasons: plan.skipped_reasons,
        restored,
        warnings,
    }
}

proof fn lemma_restored_pairs(probes: Seq<LinkProbe>, backups: Seq<Seq<char>>)
    ensures
        restored_pairs(probes, backups) == probes.filter(
            |p: LinkProbe|
                action_for(p) == UninstallAction::Remove && newest_backup(
                    normalized(p.path@),
                    backups,
                ) is Some,
        ).map_values(
            |p: LinkProbe| (newest_backup(normalized(p.path@), backups)->Some_0, p.path@),
        ),
    decreases probes.len(),
{
    reveal(Seq::filter);
    let w = |p: LinkProbe|
        action_for(p) == UninstallAction::Remove && newest_backup(
            normalized(p.path@),
            backups,
        ) is Some;
    let g = |p: LinkProbe| (newest_backup(normalized(p.path@), backups)->Some_0, p.path@);
    if probes.len() > 0 {
        lemma_restored_pairs(probes.drop_last(), backups);
    }
    assert(restored_pairs(probes, backups) =~= probes.filter(w).map_values(g));
}

/// Every link that goes and has a backup gets it back: for each such place the
/// plan holds the pair of its newest backup and the place. It holds no other
/// pair, and as many pairs as there are such places, so where no two probes are of
/// one place each place is put back once.
pub proof fn law_every_removed_link_gets_its_backup_back(
    probes: Seq<LinkProbe>,
    backups: Seq<Seq<char>>,
)
    ensures
        ({
            let r = restored_pairs(probes, backups);
            &&& forall|i: int, k: int|
                0 <= i < probes.len() && 0 <= k < backups.len() && action_for(#[trigger] probes[i])
                    == UninstallAction::Remove && crate::backup::backs_up(
                    #[trigger] backups[k],
                    normalized(probes[i].path@),
                ) ==> exists|b: Seq<char>| #[trigger]
                    r.contains((b, probes[i].path@)) && newest_backup(
                        normalized(probes[i].path@),
                        backups,
                    ) == Some(b) && crate::backup::candidate_stamp(backups[k])
                        <= crate::backup::candidate_stamp(b)
            &&& forall|pair: (Seq<char>, Seq<char>)| #[trigger]
                r.contains(pair) ==> {
                    &&& backups.contains(pair.0)
                    &&& crate::backup::backs_up(pair.0, normalized(pair.1))
                    &&& forall|k: int|
                        0 <= k < backups.len() && crate::backup::backs_up(
                            #[trigger] backups[k],
                            normalized(pair.1),
                        ) ==> crate::backup::candidate_stamp(backups[k])
                            <= crate::backup::candidate_stamp(pair.0)
                    &&& exists|i: int|
                        0 <= i < probes.len() && action_for(#[trigger] probes[i])
                            == UninstallAction::Remove && probes[i].path@ == pair.1
                }
            &&& r.len() == probes.filter(
                |p: LinkProbe|
                    action_for(p) == UninstallAction::Remove && exists|k: int|
                        0 <= k < backups.len() && crate::backup::backs_up(
                            #[trigger] backups[k],
                            normalized(p.path@),
                        ),
            ).len()
            &&& (forall|i: int, j: int|
                0 <= i < j < probes.len() ==> (#[trigger] probes[i]).path@ != (
                #[trigger] probes[j]).path@) ==> forall|i: int, j: int|
                0 <= i < j < r.len() ==> (#[trigger] r[i]).1 != (#[trigger] r[j]).1
        }),
{
    lemma_restored_pairs(probes, backups);
    let w = |p: LinkProbe|
        action_for(p) == UninstallAction::Remove && newest_backup(
            normalized(p.path@),
            backups,
        ) is Some;
    let v = |p: LinkProbe|
        action_for(p) == UninstallAction::Remove && exists|k: int|
            0 <= k < backups.len() && crate::backup::backs_up(
                #[trigger] backups[k],
                normalized(p.path@),
            );
    assert forall|p: LinkProbe| #[trigger] w(p) == v(p) by {
        let t = normalized(p.path@);
        crate::backup::law_newest_backup_is_put_back(t, backups);
        if let Some(b) = newest_backup(t, backups) {
            let k = choose|k: int| 0 <= k < backups.len() && backups[k] == b;
            assert(crate::backup::backs_up(backups[k], t));
        }
    }
    assert(w =~= v);
    let r = restored_pairs(probes, backups);
    let f = probes.filter(w);
    let places = crate::order::lemma_chosen_places(probes, w);
    assert forall|i: int, k: int|
        0 <= i < probes.len() && 0 <= k < backups.len() && action_for(#[trigger] probes[i])
            == UninstallAction::Remove && crate::backup::backs_up(
            #[trigger] backups[k],
            normalized(probes[i].path@),
        ) implies exists|b: Seq<char>| #[trigger]
        r.contains((b, probes[i].path@)) && newest_backup(normalized(probes[i].path@), backups)
            == Some(b) && crate::backup::candidate_stamp(backups[k])
            <= crate::backup::candidate_stamp(b) by {
        crate::backup::law_newest_backup_is_put_back(normalized(probes[i].path@), backups);
        let b = newest_backup(normalized(probes[i].path@), backups)->Some_0;
        assert(w(probes[i]));
        let j = choose|j: int| 0 <= j < places.len() && places[j] == i;
        assert(f[j] == probes[places[j]]);
        assert(r[j] == (b, probes[i].path@));
        assert(r.contains((b, probes[i].path@)));
    }
    assert forall|pair: (Seq<char>, Seq<char>)| #[trigger] r.contains(pair) implies {
        &&& backups.contains(pair.0)
        &&& crate::backup::backs_up(pair.0, normalized(pair.1))
        &&& forall|k: int|
            0 <= k < backups.len() && crate::backup::backs_up(
                #[trigger] backups[k],
                normalized(pair.1),
            ) ==> crate::backup::candidate_stamp(backups[k]) <= crate::backup::candidate_stamp(
                pair.0,
            )
        &&& exists|i: int|
            0 <= i < probes.len() && action_for(#[trigger] probes[i]) == UninstallAction::Remove
                && probes[i].path@ == pair.1
    } by {
        let j = choose|j: int| 0 <= j < r.len() && r[j] == pair;
        assert(f[j] == probes[places[j]]);
        assert(w(probes[places[j]]));
        crate::backup::law_newest_backup_is_put_back(normalized(pair.1), backups);
    }
    assert forall|i: int, j: int|
        (forall|a: int, b: int|
            0 <= a < b < probes.len() ==> (#[trigger] probes[a]).path@ != (
            #[trigger] probes[b]).path@) && 0 <= i < j < r.len() implies (#[trigger] r[i]).1 != (
    #[trigger] r[j]).1 by {
        assert(f[i] == probes[places[i]]);
        assert(f[j] == probes[places[j]]);
    }
}

/// The links that go are exactly those into the bundle, in the order of the
/// probes. Every other place is left alone, with a note that begins with its path
/// and the tag of what stands there, at the same position of both lists.
pub proof fn law_plan_follows_the_probes(probes: Seq<LinkProbe>)
    ensures
        removed_paths(probes) == probes.filter(
            |p: LinkProbe| action_for(p) == UninstallAction::Remove,
        ).map_values(|p: LinkProbe| p.path@),
        ({
            let kept = probes.filter(|p: LinkProbe| action_for(p) != UninstallAction::Remove);
            &&& skip_tags(probes).len() == kept.len()
            &&& skip_notes(probes).len() == kept.len()
            &&& forall|i: int|
                0 <= i < kept.len() ==> {
                    &&& #[trigger] skip_tags(probes)[i] == (if !kept[i].present {
                        "absent"@
                    } else if !kept[i].is_symlink {
                        "not_symlink"@
                    } else {
                        "foreign_target"@
                    })
                    &&& kept[i].path@.len() <= skip_notes(probes)[i].len()
                    &&& skip_notes(probes)[i].take(kept[i].path@.len() as int) == kept[i].path@
                }
        }),
    decreases probes.len(),
{
    reveal(Seq::filter);
    let go = |p: LinkProbe| action_for(p) == UninstallAction::Remove;
    let stay = |p: LinkProbe| action_for(p) != UninstallAction::Remove;
    let path = |p: LinkProbe| p.path@;
    if probes.len() > 0 {
        let u = probes.drop_last();
        let p = probes.last();
        law_plan_follows_the_probes(u);
        let kept = probes.filter(stay);
        let old_kept = u.filter(stay);
        assert forall|i: int| 0 <= i < kept.len() implies {
            &&& #[trigger] skip_tags(probes)[i] == (if !kept[i].present {
                "absent"@
            } else if !kept[i].is_symlink {
                "not_symlink"@
            } else {
                "foreign_target"@
            })
            &&& kept[i].path@.len() <= skip_notes(probes)[i].len()
            &&& skip_notes(probes)[i].take(kept[i].path@.len() as int) == kept[i].path@
        } by {
            if i < old_kept.len() {
                assert(skip_tags(probes)[i] == skip_tags(u)[i]);
                assert(skip_notes(probes)[i] == skip_notes(u)[i]);
            } else {
                let n = skip_note(p)->Some_0;
                assert(n.take(p.path@.len() as int) =~= p.path@);
            }
        }
    }
    assert(removed_paths(probes) =~= probes.filter(go).map_values(path));
}

/// A removal counts as done exactly where its place was put back, or nothing
/// stands there any more; the others are left over. Both lists keep the order of
/// the plan.
pub proof fn law_removal_is_seen_at_its_place(
    planned: Seq<Seq<char>>,
    restored: Seq<Seq<char>>,
    present: Seq<Seq<char>>,
)
    ensures
        with_gone(planned, restored, present, true) == planned.filter(
            |p: Seq<char>| holds_path(restored, p) || !present.contains(p),
        ),
        with_gone(planned, restored, present, false) == planned.filter(
            |p: Seq<char>| !holds_path(restored, p) && present.contains(p),
        ),
    decreases planned.len(),
{
    reveal(Seq::filter);
    if planned.len() > 0 {
        law_removal_is_seen_at_its_place(planned.drop_last(), restored, present);
    }
    assert(with_gone(planned, restored, present, true) =~= planned.filter(
        |p: Seq<char>| holds_path(restored, p) || !present.contains(p),
    ));
    assert(with_gone(planned, restored, present, false) =~= planned.filter(
        |p: Seq<char>| !holds_path(restored, p) && present.contains(p),
    ));
}

/// A place counts as put back by observation exactly where its backup has left
/// and something stands at the place.
pub proof fn law_restoration_is_seen_at_both_ends(
    planned: Seq<(Seq<char>, Seq<char>)>,
    present: Seq<Seq<char>>,
)
    ensures
        restored_places(planned, present) == planned.filter(
            |p: (Seq<char>, Seq<char>)| !present.contains(p.0) && present.contains(p.1),
        ).map_values(|p: (Seq<char>, Seq<char>)| p.1),
        forall|i: int|
            0 <= i < planned.len() && !present.contains((#[trigger] planned[i]).0)
                && present.contains(planned[i].1) ==> restored_places(planned, present).contains(
                planned[i].1,
            ),
    decreases planned.len(),
{
    reveal(Seq::filter);
    let w = |p: (Seq<char>, Seq<char>)| !present.contains(p.0) && present.contains(p.1);
    let g = |p: (Seq<char>, Seq<char>)| p.1;
    if planned.len() > 0 {
        law_restoration_is_seen_at_both_ends(planned.drop_last(), present);
    }
    let r = restored_places(planned, present);
    assert(r =~= planned.filter(w).map_values(g));
    let places = crate::order::lemma_chosen_places(planned, w);
    assert forall|i: int|
        0 <= i < planned.len() && !present.contains((#[trigger] planned[i]).0) && present.contains(
            planned[i].1,
        ) implies r.contains(planned[i].1) by {
        assert(w(planned[i]));
        let j = choose|j: int| 0 <= j < places.len() && places[j] == i;
        assert(planned.filter(w)[j] == planned[places[j]]);
        assert(r[j] == planned[i].1);
    }
}

/// A place is known to be put back exactly where the script said so or it was
/// seen to be, and each such place is named once, slashes aside.
pub proof fn law_restorations_are_known_from_both_sources(
    run: ScriptRun,
    planned: Seq<(Seq<char>, Seq<char>)>,
    present: Seq<Seq<char>>,
)
    ensures
        ({
            let r = restore_facts(run, planned, present);
            let said = marked_pairs(run.said_text(), "CYS-RESTORED:"@);
            &&& forall|p: Seq<char>| #[trigger]
                holds_path(r, p) <==> {
                    ||| exists|i: int|
                        0 <= i < said.len() && normalized((#[trigger] said[i]).1) == normalized(p)
                    ||| holds_path(restored_places(planned, present), p)
                }
            &&& forall|i: int, j: int|
                0 <= i < j < r.len() ==> normalized(#[trigger] r[i]) != normalized(#[trigger] r[j])
        }),
{
    let said = marked_pairs(run.said_text(), RESTORE_MARK@);
    let seen = restored_places(planned, present);
    let both = seconds(said) + seen;
    law_distinct_paths(both);
    assert forall|p: Seq<char>| #[trigger] holds_path(restore_facts(run, planned, present), p) <==> {
        ||| exists|i: int|
            0 <= i < said.len() && normalized((#[trigger] said[i]).1) == normalized(p)
        ||| holds_path(seen, p)
    } by {
        assert(holds_path(distinct_paths(both), p) <==> holds_path(both, p));
        if holds_path(both, p) {
            let i = choose|i: int|
                0 <= i < both.len() && normalized(#[trigger] both[i]) == normalized(p);
            if i < said.len() {
                assert(both[i] == said[i].1);
            } else {
                assert(both[i] == seen[i - said.len()]);
            }
        }
        if exists|i: int| 0 <= i < said.len() && normalized((#[trigger] said[i]).1) == normalized(
            p,
        ) {
            let i = choose|i: int|
                0 <= i < said.len() && normalized((#[trigger] said[i]).1) == normalized(p);
            assert(both[i] == said[i].1);
        }
        if holds_path(seen, p) {
            let i = choose|i: int|
                0 <= i < seen.len() && normalized(#[trigger] seen[i]) == normalized(p);
            assert(both[i + said.len()] == seen[i]);
        }
    }
}

/// A planned restoration that was not seen to happen is named in the warnings,
/// with its backup and its place, and only such a one is.
pub proof fn law_unconfirmed_restorations_are_named(
    planned: Seq<(Seq<char>, Seq<char>)>,
    restored: Seq<Seq<char>>,
)
    ensures
        unrestored_notes(planned, restored) == planned.filter(
            |p: (Seq<char>, Seq<char>)| !holds_path(restored, p.1),
        ).map_values(
            |p: (Seq<char>, Seq<char>)|
                p.0 + " 를 "@ + p.1
                    + " 로 되돌리려 했으나 복원을 확인하지 못했습니다 — 현재 상태를 직접 확인하세요."@,
        ),
    decreases planned.len(),
{
    reveal(Seq::filter);
    if planned.len() > 0 {
        law_unconfirmed_restorations_are_named(planned.drop_last(), restored);
    }
    assert(unrestored_notes(planned, restored) =~= planned.filter(
        |p: (Seq<char>, Seq<char>)| !holds_path(restored, p.1),
    ).map_values(
        |p: (Seq<char>, Seq<char>)|
            p.0 + " 를 "@ + p.1
                + " 로 되돌리려 했으나 복원을 확인하지 못했습니다 — 현재 상태를 직접 확인하세요."@,
    ));
}

proof fn lemma_path_line_occurs(paths: Seq<Seq<char>>, i: int)
    requires
        0 <= i < paths.len(),
    ensures
        crate::text::contains_text(path_list(paths), "\n  · "@ + paths[i]),
    decreases paths.len(),
{
    let line = "\n  · "@ + paths[i];
    let none = Seq::<char>::empty();
    let head = path_list(paths.drop_last());
    let last = "\n  · "@ + paths.last();
    assert(path_list(paths) =~= head + last);
    if i == paths.len() - 1 {
        crate::text::lemma_text_holds(head, line, none);
        assert(head + line + none =~= head + last);
    } else {
        lemma_path_line_occurs(paths.drop_last(), i);
        crate::text::lemma_part_holds(none, head, last, line);
        assert(none + head + last =~= head + last);
    }
}

/// A section names every path on a line of its own, in order and below its
/// heading; without a path there is no section.
pub proof fn law_section_names_every_path(
    title: Seq<char>,
    paths: Seq<Seq<char>>,
    more: Seq<char>,
)
    ensures
        section(title, Seq::empty()).len() == 0,
        section(title, seq![more]) == title + "\n  · "@ + more,
        paths.len() > 0 ==> section(title, paths.push(more)) == section(title, paths) + "\n  · "@
            + more,
        forall|i: int|
            0 <= i < paths.len() ==> crate::text::contains_text(
                section(title, paths),
                "\n  · "@ + #[trigger] paths[i],
            ),
{
    assert(paths.push(more).drop_last() =~= paths);
    assert(seq![more].drop_last() =~= Seq::<Seq<char>>::empty());
    assert(path_list(seq![more]) =~= "\n  · "@ + more) by {
        assert(path_list(Seq::<Seq<char>>::empty()) =~= Seq::<char>::empty());
    }
    assert(section(title, seq![more]) =~= title + "\n  · "@ + more);
    if paths.len() > 0 {
        assert(section(title, paths.push(more)) =~= section(title, paths) + "\n  · "@ + more);
    }
    assert forall|i: int| 0 <= i < paths.len() implies crate::text::contains_text(
        section(title, paths),
        "\n  · "@ + #[trigger] paths[i],
    ) by {
        let line = "\n  · "@ + paths[i];
        lemma_path_line_occurs(paths, i);
        let none = Seq::<char>::empty();
        crate::text::lemma_part_holds(title, path_list(paths), none, line);
        assert(section(title, paths) =~= title + path_list(paths) + none);
    }
}

/// A failed removal is told with its reason in front, alone where there is
/// nothing to add; then come what is gone, what was put back and what is left, each
/// below a heading of its own and none of them left out.
pub proof fn law_failure_names_every_path(
    base: Seq<char>,
    gone: Seq<Seq<char>>,
    left: Seq<Seq<char>>,
    restored: Seq<Seq<char>>,
)
    ensures
        ({
            let none = Seq::<Seq<char>>::empty();
            &&& uninstall_failure_text(base, none, none, none) == base
            &&& uninstall_failure_text(base, gone, none, none) == base + section(
                "\n\n※ 실패 전에 이미 제거된 것:"@,
                gone,
            )
            &&& uninstall_failure_text(base, none, none, restored) == base + section(
                "\n\n※ 실패 전에 이미 되돌린 것(설치 때 백업해 둔 원본이 제자리로 왔습니다):"@,
                restored,
            )
            &&& uninstall_failure_text(base, none, left, none) == base + section(
                "\n\n※ 아직 남아 있는 것(자동으로 제거하지 못했습니다):"@,
                left,
            )
            &&& uninstall_failure_text(base, gone, left, restored) == uninstall_failure_text(
                uninstall_failure_text(
                    uninstall_failure_text(base, gone, none, none),
                    none,
                    none,
                    restored,
                ),
                none,
                left,
                none,
            )
        }),
{
    let none = Seq::<Seq<char>>::empty();
    let e = Seq::<char>::empty();
    let a = base + section("\n\n※ 실패 전에 이미 제거된 것:"@, gone);
    let r = section(
        "\n\n※ 실패 전에 이미 되돌린 것(설치 때 백업해 둔 원본이 제자리로 왔습니다):"@,
        restored,
    );
    let l = section("\n\n※ 아직 남아 있는 것(자동으로 제거하지 못했습니다):"@, left);
    assert(uninstall_failure_text(base, none, none, none) =~= base);
    assert(uninstall_failure_text(base, gone, none, none) =~= a);
    assert(uninstall_failure_text(base, none, none, restored) =~= base + r);
    assert(uninstall_failure_text(base, none, left, none) =~= base + l);
    assert(uninstall_failure_text(a, none, none, restored) =~= a + r);
    assert(uninstall_failure_text(a + r, none, left, none) =~= a + r + l);
}

/// A remark is put behind every path, in order.
pub proof fn law_every_path_gets_the_remark(s: Seq<Seq<char>>, remark: Seq<char>)
    ensures
        remarks(s, remark).len() == s.len(),
        forall|i: int| 0 <= i < s.len() ==> #[trigger] remarks(s, remark)[i] == s[i] + remark,
{
}

/// A place that is left alone has a note that says why: nothing stands there, a
/// file does, or a link whose target the note gives. A link that goes has none.
pub proof fn law_skip_note_says_why(p: LinkProbe)
    ensures
        skip_note(p) is None <==> action_for(p) == UninstallAction::Remove,
        !p.present ==> skip_note(p) == Some(p.path@ + " — 없음(이미 해제된 상태)"@),
        p.present && !p.is_symlink ==> skip_note(p) == Some(
            p.path@
                + " — 심볼릭이 아니라 실제 파일입니다. 다른 도구가 설치한 것일 수 있어 건드리지 않았습니다."@,
        ),
        p.present && p.is_symlink ==> (skip_note(p) matches Some(n)
            ==> crate::text::contains_text(n, " — cys.app 번들이 아닌 곳("@ + target_shown(p))),
{
    if let Some(n) = skip_note(p) {
        let a = " — cys.app 번들이 아닌 곳("@;
        let b = ")을 가리키는 링크라 건드리지 않았습니다."@;
        if p.present && p.is_symlink {
            crate::text::lemma_text_holds(p.path@, a + target_shown(p), b);
            assert(n =~= p.path@ + (a + target_shown(p)) + b);
        }
    }
}

} // verus!
