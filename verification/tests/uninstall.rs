use cys_app::install::ScriptRun;
use cys_app::links::{LinkProbe, UninstallAction};
use cys_app::report::uninstall_report;
use cys_app::uninstall::{
    all_skips_benign, merge_restored_facts, observe_removed, observe_restored, plan_cli_uninstall,
    skip_reason_tag, uninstall_cli_failure, uninstall_cli_from_path, uninstall_cli_nothing,
    uninstall_failure_message, SKIP_REASON_ABSENT, SKIP_REASON_FOREIGN_TARGET,
    SKIP_REASON_NOT_SYMLINK,
};

fn probe(path: &str, present: bool, is_symlink: bool, target: Option<&str>) -> LinkProbe {
    LinkProbe {
        path: path.into(),
        present,
        is_symlink,
        link_target: target.map(|t| t.to_string()),
    }
}

#[test]
fn plan_cli_uninstall_removes_ours_and_explains_skips() {
    let plan = plan_cli_uninstall(
        &[
            probe("/usr/local/bin/cys", true, true, Some("/Applications/cys.app/Contents/MacOS/cys")),
            probe("/usr/local/bin/cysd", true, false, None),
        ],
        &[],
    );
    assert_eq!(plan.remove, vec!["/usr/local/bin/cys".to_string()]);
    assert_eq!(plan.skipped.len(), 1);
    assert!(plan.skipped[0].contains("/usr/local/bin/cysd"));
    assert!(plan.skipped[0].contains("심볼릭이 아니라"), "왜 안 지웠는지 읽을 수 있어야 한다");
    assert_eq!(plan.skipped_reasons, vec![SKIP_REASON_NOT_SYMLINK.to_string()]);
    assert!(!all_skips_benign(&plan.skipped_reasons), "남의 실체 파일이 남았는데 무해로 접혔다");
    let arg = plan.osascript_arg.expect("제거 대상이 있으면 승격 인자 생성");
    assert!(arg.starts_with("do shell script \""));
    assert!(arg.ends_with("\" with administrator privileges"));
    assert!(arg.contains("'/usr/local/bin/cys'"));
    assert!(!arg.contains("'/usr/local/bin/cysd'"), "건드리지 않기로 한 경로가 스크립트에 새면 안 된다");
}

#[test]
fn plan_cli_uninstall_never_elevates_when_nothing_to_remove() {
    let plan = plan_cli_uninstall(
        &[
            probe("/usr/local/bin/cys", false, false, None),
            probe("/usr/local/bin/cysd", false, false, None),
        ],
        &[],
    );
    assert!(plan.remove.is_empty());
    assert!(plan.osascript_arg.is_none(), "지울 것이 없으면 관리자 프롬프트를 띄우지 않는다");
    assert_eq!(plan.skipped.len(), 2);
    assert_eq!(
        plan.skipped_reasons,
        vec![SKIP_REASON_ABSENT.to_string(), SKIP_REASON_ABSENT.to_string()]
    );
    assert!(all_skips_benign(&plan.skipped_reasons));
}

#[test]
fn c3_uninstall_grade_is_decided_by_machine_tags_not_prose() {
    assert_eq!(skip_reason_tag(&UninstallAction::Remove), None);
    assert_eq!(skip_reason_tag(&UninstallAction::SkipAbsent), Some(SKIP_REASON_ABSENT));
    assert_eq!(
        skip_reason_tag(&UninstallAction::SkipNotSymlink),
        Some(SKIP_REASON_NOT_SYMLINK)
    );
    assert_eq!(
        skip_reason_tag(&UninstallAction::SkipForeignTarget),
        Some(SKIP_REASON_FOREIGN_TARGET)
    );
    assert!(all_skips_benign(&[]), "건너뛴 것이 없으면 무해다");
    assert!(all_skips_benign(&[
        SKIP_REASON_ABSENT.to_string(),
        SKIP_REASON_ABSENT.to_string()
    ]));
    assert!(!all_skips_benign(&[
        SKIP_REASON_ABSENT.to_string(),
        SKIP_REASON_FOREIGN_TARGET.to_string()
    ]));
    assert!(!all_skips_benign(&[SKIP_REASON_NOT_SYMLINK.to_string()]));

    let plan = plan_cli_uninstall(
        &[
            probe("/usr/local/bin/cys", false, false, None),
            probe("/usr/local/bin/cysd", true, true, Some("/opt/homebrew/bin/cysd")),
        ],
        &[],
    );
    assert_eq!(plan.skipped.len(), plan.skipped_reasons.len(), "인덱스 대응이 깨졌다");
    assert_eq!(
        plan.skipped_reasons,
        vec![
            SKIP_REASON_ABSENT.to_string(),
            SKIP_REASON_FOREIGN_TARGET.to_string()
        ]
    );
    assert!(!all_skips_benign(&plan.skipped_reasons));
}

#[test]
fn c3_uninstall_prose_is_never_a_contract() {
    for tag in [
        SKIP_REASON_ABSENT,
        SKIP_REASON_NOT_SYMLINK,
        SKIP_REASON_FOREIGN_TARGET,
    ] {
        assert!(
            tag.chars().all(|c| c.is_ascii_lowercase() || c == '_'),
            "기계 태그에 산문이 섞였다: {tag}"
        );
    }
    let a = plan_cli_uninstall(&[probe("/usr/local/bin/cys", false, false, None)], &[]);
    assert_eq!(a.skipped_reasons, vec![SKIP_REASON_ABSENT.to_string()]);
    assert!(
        a.skipped[0].contains("/usr/local/bin/cys"),
        "문구에는 경로가 있어야 한다(사람용): {:?}",
        a.skipped
    );
    assert!(all_skips_benign(&a.skipped_reasons));
}

fn text(s: &str) -> String {
    s.to_string()
}

const OURS: &str = "/Applications/cys.app/Contents/MacOS/cys";

#[test]
fn removal_plan_puts_the_newest_backup_back() {
    let plan = plan_cli_uninstall(
        &[probe("/usr/local/bin/cys", true, true, Some(OURS))],
        &[text("/usr/local/bin/cys.cys-backup-5"), text("/usr/local/bin/cys.cys-backup-12")],
    );
    assert_eq!(
        plan.restore,
        vec![(text("/usr/local/bin/cys.cys-backup-12"), text("/usr/local/bin/cys"))]
    );
}

#[test]
fn removals_are_accounted_for() {
    let planned = [text("/b/cys"), text("/b/cysd")];
    let (gone, left) = observe_removed(&planned, &[], &[text("/b/cysd")]);
    assert_eq!(gone, vec!["/b/cys"]);
    assert_eq!(left, vec!["/b/cysd"]);
    let (gone, left) = observe_removed(&planned, &[text("/b/cysd")], &[text("/b/cysd")]);
    assert_eq!(gone.len(), 2);
    assert!(left.is_empty());
}

#[test]
fn restored_places_are_merged_once() {
    assert_eq!(
        observe_restored(&[(text("/b/cys.cys-backup-1"), text("/b/cys"))], &[text("/b/cys")]),
        vec!["/b/cys"]
    );
    assert!(observe_restored(
        &[(text("/b/cys.cys-backup-1"), text("/b/cys"))],
        &[text("/b/cys.cys-backup-1"), text("/b/cys")]
    )
    .is_empty());
    assert_eq!(
        merge_restored_facts(vec![text("/b/cys")], vec![text("/b/cys"), text("/b/cysd")]),
        vec!["/b/cys", "/b/cysd"]
    );
}

#[test]
fn finished_removal_is_reported() {
    let plan = plan_cli_uninstall(&[probe("/usr/local/bin/cys", true, true, Some(OURS))], &[]);
    let run = ScriptRun { success: true, stdout: String::new(), stderr: String::new() };
    let rep = uninstall_cli_from_path(plan, &run, &[], &vec![]);
    assert!(rep.ok && rep.skipped_benign);
    assert_eq!(rep.removed, vec!["/usr/local/bin/cys"]);
    let shown = uninstall_report(&rep);
    assert_eq!(shown.get("ok").unwrap().as_bool(), Some(true));
    let plan = plan_cli_uninstall(&[probe("/usr/local/bin/cys", true, true, Some(OURS))], &[]);
    let stuck = uninstall_cli_from_path(plan, &run, &[text("/usr/local/bin/cys")], &vec![]);
    assert!(!stuck.ok);
}

#[test]
fn nothing_to_remove_is_fine() {
    let plan = plan_cli_uninstall(&[probe("/usr/local/bin/cys", false, false, None)], &[]);
    let rep = uninstall_cli_nothing(plan);
    assert!(rep.ok && rep.skipped_benign);
    assert!(rep.removed.is_empty());
}

#[test]
fn failed_removal_says_what_happened() {
    let plan = plan_cli_uninstall(&[probe("/usr/local/bin/cys", true, true, Some(OURS))], &[]);
    let run = ScriptRun { success: false, stdout: String::new(), stderr: text("rm: denied") };
    let msg = uninstall_cli_failure(&plan, &run, &[text("/usr/local/bin/cys")]);
    assert!(msg.contains("rm: denied"), "{msg}");
    let base = uninstall_failure_message("b", &[], &[], &[]);
    assert!(base.starts_with("b"), "{base}");
}
