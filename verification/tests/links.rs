use cys_app::backup::{
    backup_path_for, backup_stamp, install_backup_needed, is_our_backup_name, merge_backup_facts,
    observe_existing_backups, observe_leftover_backups, pick_restore_backup, plan_install_backups,
};
use cys_app::bundle::{normalize_path_str, paths_equivalent};
use cys_app::install::{
    classify_install_status, cysd_shadow_warning, path_shadow_note,
};
use cys_app::links::{
    classify_cli_links, decide_cli_uninstall, links_into_cys_bundle, CliLinkState, LinkProbe,
    UninstallAction,
};
use cys_app::probe::WhichProbe;
use cys_app::uninstall::plan_cli_uninstall;

fn probe(path: &str, present: bool, is_symlink: bool, target: Option<&str>) -> LinkProbe {
    LinkProbe {
        path: path.into(),
        present,
        is_symlink,
        link_target: target.map(|t| t.to_string()),
    }
}

#[test]
fn install_backup_and_uninstall_guard_share_one_judgment() {
    let ours = "/Applications/cys.app/Contents/MacOS/cys";
    let cases = [
        (probe("/usr/local/bin/cys", false, false, None), false),
        (probe("/usr/local/bin/cys", true, false, None), true),
        (probe("/usr/local/bin/cys", true, true, Some(ours)), false),
        (probe("/usr/local/bin/cys", true, true, Some("/opt/homebrew/bin/cys")), true),
        (probe("/usr/local/bin/cys", true, true, None), true),
    ];
    for (p, want) in cases {
        assert_eq!(install_backup_needed(&p), want, "백업 판정 어긋남: {p:?}");
        let guarded = matches!(
            decide_cli_uninstall(&p),
            UninstallAction::SkipNotSymlink | UninstallAction::SkipForeignTarget
        );
        assert_eq!(
            install_backup_needed(&p),
            guarded,
            "해제는 지키는데 설치는 파괴하는 비대칭이 남아 있다: {p:?}"
        );
    }
}

#[test]
fn plan_install_backups_matches_shell_condition() {
    let ours = "/Applications/cys.app/Contents/MacOS/cys";
    let b = plan_install_backups(
        &[
            probe("/usr/local/bin/cys", true, false, None),
            probe("/usr/local/bin/cysd", true, true, Some(ours)),
        ],
        "S",
    );
    assert_eq!(
        b,
        vec![(
            "/usr/local/bin/cys".to_string(),
            "/usr/local/bin/cys.cys-backup-S".to_string()
        )]
    );
    assert!(plan_install_backups(
        &[probe("/usr/local/bin/cys", false, false, None)],
        "S"
    )
    .is_empty());
    assert_eq!(
        plan_install_backups(&[probe("/usr/local/bin/cysd", true, true, None)], "S"),
        vec![(
            "/usr/local/bin/cysd".to_string(),
            "/usr/local/bin/cysd.cys-backup-S".to_string()
        )]
    );
    assert!(plan_install_backups(
        &[probe(
            "/usr/local/bin/cysd",
            true,
            true,
            Some("/Applications/cys.app/Contents/MacOS/cysd")
        )],
        "S"
    )
    .is_empty());
}

#[test]
fn links_into_cys_bundle_matches_only_bundle_binaries() {
    assert!(links_into_cys_bundle("/Applications/cys.app/Contents/MacOS/cys"));
    assert!(links_into_cys_bundle("/Users/x/Applications/cys.app/Contents/MacOS/cysd"));
    assert!(!links_into_cys_bundle("/Applications/cys.app.bak-044/Contents/MacOS/cys"));
    assert!(!links_into_cys_bundle("/Applications/Other.app/Contents/MacOS/cys"));
    assert!(!links_into_cys_bundle("/opt/homebrew/bin/cys"));
    assert!(!links_into_cys_bundle("/Applications/cys.app/Contents/MacOS/cys-app"));
}

#[test]
fn decide_cli_uninstall_removes_only_our_symlink() {
    assert_eq!(
        decide_cli_uninstall(&probe("/usr/local/bin/cys", true, false, None)),
        UninstallAction::SkipNotSymlink
    );
    assert_eq!(
        decide_cli_uninstall(&probe(
            "/usr/local/bin/cys",
            true,
            true,
            Some("/opt/homebrew/Cellar/cys/1.0/bin/cys")
        )),
        UninstallAction::SkipForeignTarget
    );
    assert_eq!(
        decide_cli_uninstall(&probe("/usr/local/bin/cysd", false, false, None)),
        UninstallAction::SkipAbsent
    );
    assert_eq!(
        decide_cli_uninstall(&probe(
            "/usr/local/bin/cys",
            true,
            true,
            Some("/Applications/cys.app/Contents/MacOS/cys")
        )),
        UninstallAction::Remove
    );
    assert_eq!(
        decide_cli_uninstall(&probe("/usr/local/bin/cys", true, true, None)),
        UninstallAction::SkipForeignTarget
    );
}

#[test]
fn classify_cli_links_maps_absent_ours_partial_foreign() {
    let ours = "/Applications/cys.app/Contents/MacOS/cys";
    assert_eq!(
        classify_cli_links(&[
            probe("/usr/local/bin/cys", false, false, None),
            probe("/usr/local/bin/cysd", false, false, None),
        ]),
        CliLinkState::Absent
    );
    assert_eq!(
        classify_cli_links(&[
            probe("/usr/local/bin/cys", true, true, Some(ours)),
            probe("/usr/local/bin/cysd", true, true, Some("/Applications/cys.app/Contents/MacOS/cysd")),
        ]),
        CliLinkState::Ours
    );
    assert_eq!(
        classify_cli_links(&[
            probe("/usr/local/bin/cys", true, true, Some(ours)),
            probe("/usr/local/bin/cysd", false, false, None),
        ]),
        CliLinkState::Partial
    );
    assert_eq!(
        classify_cli_links(&[
            probe("/usr/local/bin/cys", true, false, None),
            probe("/usr/local/bin/cysd", false, false, None),
        ]),
        CliLinkState::Foreign
    );
}

#[test]
fn major1_premise_partial_with_notes_does_not_imply_foreign_present() {
    let ours_cys = "/Applications/cys.app/Contents/MacOS/cys";
    let foreign_count = |ps: &[LinkProbe]| {
        ps.iter()
            .filter(|p| {
                matches!(
                    decide_cli_uninstall(p),
                    UninstallAction::SkipNotSymlink | UninstallAction::SkipForeignTarget
                )
            })
            .count()
    };

    let benign = vec![
        probe("/usr/local/bin/cys", true, true, Some(ours_cys)),
        probe("/usr/local/bin/cysd", false, false, None),
    ];
    assert_eq!(classify_cli_links(&benign), CliLinkState::Partial);
    assert_eq!(
        foreign_count(&benign),
        0,
        "partial 인데 남의 것이 0인 조합이 없다면 동치가 성립할 수도 있었다 — 실재한다"
    );

    let cys_seen = WhichProbe::Completed(vec!["/usr/local/bin/cys".into()]);
    let cysd_missing = WhichProbe::Completed(vec![]);
    assert!(
        path_shadow_note(&cys_seen, "/usr/local/bin/cys", "cys", "zsh").is_none(),
        "cys 가 PATH 1순위 target 이면 이 축은 말하지 않는다(그래야 아래 한 줄이 cysd 축의 것임이 확정된다)"
    );
    assert!(
        cysd_shadow_warning(&cys_seen, &cysd_missing, "/usr/local/bin/cysd", "zsh").is_some(),
        "남의 것이 0인 partial 에서도 notes 는 한 줄이 실린다 — 이것이 (⟸) 방향의 반례다"
    );

    let dangerous = vec![
        probe("/usr/local/bin/cys", true, true, Some(ours_cys)),
        probe("/usr/local/bin/cysd", true, false, None),
    ];
    assert_eq!(classify_cli_links(&dangerous), CliLinkState::Partial);
    assert_eq!(foreign_count(&dangerous), 1);
    let cysd_present = WhichProbe::Completed(vec!["/usr/local/bin/cysd".into()]);
    assert!(
        cysd_shadow_warning(&cys_seen, &cysd_present, "/usr/local/bin/cysd", "zsh").is_none(),
        "남의 실체 파일이 그 자리에 있으면 그림자 축은 침묵한다 — 그래서 이쪽도 notes.len()==1 이다"
    );
    let machine_view = |ps: &[LinkProbe], shadow_lines: usize| {
        let state = classify_cli_links(ps);
        (
            matches!(state, CliLinkState::Ours | CliLinkState::Partial),
            format!("{state:?}"),
            foreign_count(ps) + shadow_lines,
        )
    };
    assert_eq!(
        machine_view(&benign, 1),
        machine_view(&dangerous, 0),
        "기존 계약 필드(state·installed·notes.len())만으로는 두 세계가 구분되지 않는다 — \
그래서 UI 는 notes 유무를 경고 근거로 쓸 수 없고, 새 필드 없이 성립하는 판정은 state 하나뿐이다"
    );

    let ours = vec![
        probe("/usr/local/bin/cys", true, true, Some(ours_cys)),
        probe(
            "/usr/local/bin/cysd",
            true,
            true,
            Some("/Applications/cys.app/Contents/MacOS/cysd"),
        ),
    ];
    let absent = vec![
        probe("/usr/local/bin/cys", false, false, None),
        probe("/usr/local/bin/cysd", false, false, None),
    ];
    assert_eq!(classify_cli_links(&ours), CliLinkState::Ours);
    assert_eq!(foreign_count(&ours), 0);
    assert_eq!(classify_cli_links(&absent), CliLinkState::Absent);
    assert_eq!(foreign_count(&absent), 0);
}

#[test]
fn install_label_state_agrees_with_uninstall_plan() {
    for probes in [
        vec![
            probe("/usr/local/bin/cys", true, false, None),
            probe("/usr/local/bin/cysd", false, false, None),
        ],
        vec![
            probe("/usr/local/bin/cys", true, true, Some("/opt/homebrew/bin/cys")),
            probe("/usr/local/bin/cysd", false, false, None),
        ],
        vec![
            probe("/usr/local/bin/cys", true, true, Some("/Applications/cys.app/Contents/MacOS/cys")),
            probe("/usr/local/bin/cysd", false, false, None),
        ],
    ] {
        let state = classify_cli_links(&probes);
        let installed = matches!(state, CliLinkState::Ours | CliLinkState::Partial);
        let plan = plan_cli_uninstall(&probes, &[]);
        assert_eq!(
            installed,
            !plan.remove.is_empty(),
            "'해제' 라벨과 실제 제거 대상이 어긋났다: {state:?}"
        );
    }
}

#[test]
fn i1_path_normalization_applies_to_all_three_paths() {
    assert_eq!(normalize_path_str("/usr/local/bin//cys"), "/usr/local/bin/cys");
    assert_eq!(normalize_path_str("/usr/local/bin/cys/"), "/usr/local/bin/cys");
    assert_eq!(normalize_path_str("///a////b//"), "/a/b");
    assert_eq!(normalize_path_str("/"), "/", "루트가 빈 문자열로 접히면 안 된다");
    assert_eq!(normalize_path_str("//"), "/");
    assert!(paths_equivalent("/usr/local/bin//cys", "/usr/local/bin/cys"));
    assert!(!paths_equivalent("/usr/local/bin/cys", "/usr/local/bin/cysd"));

    let v = classify_install_status(
        &WhichProbe::Completed(vec!["/usr/local/bin//cys".into()]),
        "/usr/local/bin/cys",
        "zsh",
    );
    assert_eq!(v.status, "installed");
    assert_eq!(v.shadowed_by, None);

    assert!(links_into_cys_bundle("/Applications//cys.app/Contents/MacOS/cys"));
    assert!(links_into_cys_bundle("/Applications/cys.app/Contents/MacOS//cysd"));
    assert_eq!(
        decide_cli_uninstall(&probe(
            "/usr/local/bin/cys",
            true,
            true,
            Some("/Applications//cys.app/Contents/MacOS/cys")
        )),
        UninstallAction::Remove
    );
    assert!(!links_into_cys_bundle("/Applications/cys.app.bak-044/Contents/MacOS/cys"));
    assert!(!links_into_cys_bundle("/Applications//Other.app/Contents/MacOS/cys"));

    assert_eq!(
        classify_cli_links(&[
            probe("/usr/local/bin/cys", true, true, Some("/Applications//cys.app/Contents/MacOS/cys")),
            probe("/usr/local/bin/cysd", true, true, Some("/Applications/cys.app/Contents/MacOS//cysd")),
        ]),
        CliLinkState::Ours
    );
}

#[test]
fn i3_backup_name_rule_matches_only_our_own() {
    assert!(is_our_backup_name("cys.cys-backup-1700000000", "cys"));
    assert!(is_our_backup_name("cysd.cys-backup-1", "cysd"));
    assert!(!is_our_backup_name("cys.cys-backup-1700000000", "cysd"));
    assert!(!is_our_backup_name("cys.bak", "cys"));
    assert!(!is_our_backup_name("cys.cys-backup-STAMP", "cys"));
    assert!(!is_our_backup_name("cys.cys-backup-", "cys"));
    assert!(!is_our_backup_name("cys", "cys"));
    let cands = vec![
        "/b/cys.cys-backup-100".to_string(),
        "/b/cys.cys-backup-900".to_string(),
        "/b/cys.cys-backup-500".to_string(),
        "/b/cys.bak".to_string(),
        "/other/cys.cys-backup-999".to_string(),
    ];
    assert_eq!(
        pick_restore_backup("/b/cys", &cands).as_deref(),
        Some("/b/cys.cys-backup-900")
    );
    assert_eq!(pick_restore_backup("/b/cysd", &cands), None, "이름이 다르면 복원하지 않는다");
}

#[test]
fn largest_stamp_is_put_back_however_long_it_is() {
    let of = |stamps: &[&str]| -> Vec<String> {
        stamps.iter().map(|s| format!("/b/cys.cys-backup-{s}")).collect()
    };
    let pick = |stamps: &[&str]| pick_restore_backup("/b/cys", &of(stamps)).unwrap();
    assert_eq!(
        pick(&["99999999999999999999", "1"]),
        "/b/cys.cys-backup-99999999999999999999"
    );
    assert_eq!(
        pick(&["1", "99999999999999999999"]),
        "/b/cys.cys-backup-99999999999999999999"
    );
    assert_eq!(
        pick(&["99999999999999999998", "99999999999999999999", "18446744073709551616"]),
        "/b/cys.cys-backup-99999999999999999999"
    );
    assert_eq!(pick(&["0009", "10"]), "/b/cys.cys-backup-10");
    assert_eq!(pick(&["007", "7", "07"]), "/b/cys.cys-backup-07");
    assert_eq!(
        pick_restore_backup("/b/a-b", &["/b/a-b.cys-backup-2".to_string()]).as_deref(),
        Some("/b/a-b.cys-backup-2")
    );
}

#[test]
fn backups_are_named_by_time_and_found_again() {
    assert_eq!(backup_stamp(Some(1700000000)), "1700000000");
    assert_eq!(backup_stamp(None), "0");
    let name = backup_path_for("/b/cys", &backup_stamp(Some(17)));
    assert_eq!(name, "/b/cys.cys-backup-17");
    assert!(is_our_backup_name("cys.cys-backup-17", "cys"));
    assert_eq!(
        observe_existing_backups(
            &[("/b/cys".to_string(), name.clone()), ("/b/cysd".to_string(), "/b/x".to_string())],
            &[name.clone()]
        ),
        vec![("/b/cys".to_string(), name)]
    );
    assert_eq!(
        observe_leftover_backups(
            "/b",
            &["cys", "cysd"],
            &["cysd.cys-backup-2".to_string(), "cys".to_string(), "cys.cys-backup-1".to_string()]
        ),
        vec!["/b/cys.cys-backup-1", "/b/cysd.cys-backup-2"]
    );
    assert!(merge_backup_facts(vec![], vec![]).is_empty());
}
