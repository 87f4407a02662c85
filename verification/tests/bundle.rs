use cys_app::bundle::{
    autoregister_allowed, boot_path_verdict, boot_verdict, classify_bundle_dir,
    current_boot_verdict, maybe_autoregister_launchd, merge_integrity_pull, normalize_path_str,
    paths_equivalent, seal_cache_payload, seal_record_token, seal_selfdiag_marker,
    seal_selfdiag_skips, strict_install_bundle_ok, strip_data_volume_prefix,
    translocation_guidance, Autoregister, BootPathVerdict, BundleKind, SealVerdict,
};

#[test]
fn bundle_integrity_merge_never_drops_a_damage_verdict() {
    let s = || Some("구조 결손 안내".to_string());
    let b = || Some("봉인 파손 안내".to_string());
    assert_eq!(merge_integrity_pull(None, None), None);
    assert_eq!(merge_integrity_pull(s(), None), s());
    assert_eq!(merge_integrity_pull(None, b()), b());
    assert_eq!(merge_integrity_pull(s(), b()), b());
}

#[test]
fn classify_bundle_dir_distinguishes_canonical_translocated_backup_nonstandard() {
    assert_eq!(
        classify_bundle_dir("/Applications/cys.app/Contents/MacOS"),
        BundleKind::Canonical
    );
    assert_eq!(
        classify_bundle_dir("/Users/x/Applications/cys.app/Contents/MacOS"),
        BundleKind::Canonical
    );
    assert_eq!(
        classify_bundle_dir("/private/var/folders/aa/bb/AppTranslocation/CCCC/d/cys.app/Contents/MacOS"),
        BundleKind::Translocated
    );
    assert_eq!(
        classify_bundle_dir("/Applications/cys.app.bak-044/Contents/MacOS"),
        BundleKind::Backup
    );
    assert_eq!(
        classify_bundle_dir("/Applications/cys.app.prev-210050/Contents/MacOS"),
        BundleKind::Backup
    );
    assert_eq!(
        classify_bundle_dir("/Users/x/Downloads/cys.app/Contents/MacOS"),
        BundleKind::NonStandard
    );
}

#[test]
fn classify_bundle_dir_volumes_applications_is_not_canonical() {
    assert_ne!(
        classify_bundle_dir("/Volumes/cys 0.12.91/Applications/cys.app/Contents/MacOS"),
        BundleKind::Canonical,
        "/Volumes 하위 Applications 는 Canonical 오판 금지",
    );
    assert_eq!(
        classify_bundle_dir("/Volumes/cys 0.12.91/Applications/cys.app/Contents/MacOS"),
        BundleKind::NonStandard,
    );
    assert_eq!(
        classify_bundle_dir("/Applications/cys.app/Contents/MacOS"),
        BundleKind::Canonical,
        "/Applications 는 Canonical 불변",
    );
    assert_eq!(
        classify_bundle_dir("/Users/x/Applications/cys.app/Contents/MacOS"),
        BundleKind::Canonical,
        "~/Applications 는 Canonical 불변",
    );
    assert_eq!(
        boot_path_verdict(
            "/Volumes/cys 0.12.91/Applications/cys.app/Contents/MacOS/cys-app",
            false,
        ),
        BootPathVerdict::NonCanonical,
        "/Volumes 하위 Applications 는 부트 안전모드 진입",
    );
}

#[test]
fn autoregister_allowed_only_canonical() {
    assert!(autoregister_allowed(&BundleKind::Canonical), "정규 번들(/Applications·~/Applications)만 자동등록 허용");
    assert!(!autoregister_allowed(&BundleKind::Translocated), "임시 경로는 자동등록 거부");
    assert!(!autoregister_allowed(&BundleKind::Backup), "백업 번들은 자동등록 거부");
    assert!(!autoregister_allowed(&BundleKind::NonStandard), "비표준(Downloads·USB 등)도 자동등록 거부");
}

#[test]
fn boot_path_verdict_positive_and_negative_cases() {
    assert_eq!(
        boot_path_verdict(
            "/private/var/folders/ab/AppTranslocation/CD12/d/cys.app/Contents/MacOS/cys-app",
            false,
        ),
        BootPathVerdict::Translocated,
        "AppTranslocation 임시 경로 = Translocated",
    );
    assert_eq!(
        boot_path_verdict(
            "/Volumes/cys 0.12.91/cys.app/Contents/MacOS/cys-app",
            false,
        ),
        BootPathVerdict::NonCanonical,
        "DMG(/Volumes) 직실행 = NonCanonical",
    );
    assert_eq!(
        boot_path_verdict(
            "/Users/x/Downloads/cys.app/Contents/MacOS/cys-app",
            false,
        ),
        BootPathVerdict::NonCanonical,
        "임의(Downloads) 경로 = NonCanonical",
    );
    assert_eq!(
        boot_path_verdict(
            "/Applications/cys.app/Contents/MacOS/cys-app",
            false,
        ),
        BootPathVerdict::Canonical,
        "/Applications 정규 설치 = Canonical",
    );
    assert_eq!(
        boot_path_verdict(
            "/Users/x/dev/cys/target/release/cys-app",
            true,
        ),
        BootPathVerdict::Canonical,
        "CYS_ALLOW_NONCANONICAL=1(escape env) = 무조건 Canonical(개발·CI 자기감금 방지)",
    );
}

#[test]
fn boot_path_verdict_escape_overrides_and_user_applications() {
    assert_eq!(
        boot_path_verdict(
            "/Users/x/Applications/cys.app/Contents/MacOS/cys-app",
            false,
        ),
        BootPathVerdict::Canonical,
    );
    assert_eq!(
        boot_path_verdict(
            "/private/var/folders/ab/AppTranslocation/x/cys.app/Contents/MacOS/cys-app",
            true,
        ),
        BootPathVerdict::Canonical,
    );
    assert_eq!(
        boot_path_verdict(
            "/Users/x/dev/cys/target/debug/cys-app",
            false,
        ),
        BootPathVerdict::NonCanonical,
    );
}

#[test]
fn translocation_guidance_carries_recovery_steps() {
    let g = translocation_guidance(BootPathVerdict::Translocated);
    assert!(g.contains("Applications"), "① Applications 드래그 설치 안내 포함");
    assert!(g.contains("구버전") && g.contains("종료"), "② 구버전 종료·교체 안내 포함");
    assert!(
        g.contains("xattr -d com.apple.quarantine /Applications/cys.app"),
        "③ quarantine 제거 명령 포함",
    );
    let n = translocation_guidance(BootPathVerdict::NonCanonical);
    assert!(n.contains("xattr -d com.apple.quarantine /Applications/cys.app"));
}

#[test]
fn strict_install_bundle_ok_accepts_only_the_two_real_applications_dirs() {
    let home = "/Users/x";
    assert!(strict_install_bundle_ok(
        "/Applications/cys.app/Contents/MacOS",
        home
    ));
    assert!(strict_install_bundle_ok(
        "/Users/x/Applications/cys.app/Contents/MacOS",
        home
    ));
    for bad in [
        "/tmp/Applications/cys.app/Contents/MacOS",
        "/Users/x/Downloads/Applications/cys.app/Contents/MacOS",
        "/Applications/Utilities/Applications/cys.app/Contents/MacOS",
        "/Users/user/Applications/cys.app/Contents/MacOS",
    ] {
        assert_eq!(
            classify_bundle_dir(bad),
            BundleKind::Canonical,
            "전제 확인: 이 경로는 classify_bundle_dir 상 Canonical 이다 — {bad}"
        );
        assert!(
            !strict_install_bundle_ok(bad, home),
            "사용자가 만들 수 있는 Applications 유사 경로는 거부되어야 한다: {bad}"
        );
    }
    assert!(!strict_install_bundle_ok(
        "/Applications/Other.app/Contents/MacOS",
        home
    ));
    assert!(!strict_install_bundle_ok("/Applications/cys.app", home));
}

#[test]
fn only_the_components_of_an_installed_bundle_count() {
    let home = "/Users/x/";
    assert!(strict_install_bundle_ok("//Applications/./cys.app//Contents/MacOS/", home));
    assert!(strict_install_bundle_ok("/Users/./x/Applications/cys.app/Contents/MacOS", home));
    assert!(!strict_install_bundle_ok("Applications/cys.app/Contents/MacOS", home));
    assert!(!strict_install_bundle_ok("/Applications/x/../cys.app/Contents/MacOS", home));
    assert!(!strict_install_bundle_ok("/Applications/cys.app/Contents/MacOS/..", home));
}

#[test]
fn strict_install_bundle_ok_accepts_data_volume_firmlink_alias() {
    let home = "/Users/x";
    assert!(strict_install_bundle_ok(
        "/System/Volumes/Data/Applications/cys.app/Contents/MacOS",
        home
    ));
    assert!(strict_install_bundle_ok(
        "/System/Volumes/Data/Users/x/Applications/cys.app/Contents/MacOS",
        home
    ));
    assert!(strict_install_bundle_ok(
        "/Users/x/Applications/cys.app/Contents/MacOS",
        "/System/Volumes/Data/Users/x"
    ));
    for bad in [
        "/System/Volumes/Data/tmp/Applications/cys.app/Contents/MacOS",
        "/System/Volumes/Data/Users/user/Applications/cys.app/Contents/MacOS",
        "/System/Volumes/DataX/Applications/cys.app/Contents/MacOS",
        "/tmp/Applications/cys.app/Contents/MacOS",
        "/System/Volumes/Data/Applications/Other.app/Contents/MacOS",
    ] {
        assert!(
            !strict_install_bundle_ok(bad, home),
            "정규화가 가드를 넓혔다: {bad}"
        );
    }
    assert_eq!(
        strip_data_volume_prefix("/System/Volumes/Data/Applications"),
        "/Applications"
    );
    assert_eq!(
        strip_data_volume_prefix("/System/Volumes/Data"),
        "/"
    );
    assert_eq!(
        strip_data_volume_prefix("/System/Volumes/DataX/Applications"),
        "/System/Volumes/DataX/Applications"
    );
    assert_eq!(
        strip_data_volume_prefix("/Applications"),
        "/Applications"
    );
}

#[test]
fn classify_bundle_dir_pins_data_volume_firmlink_forms() {
    for p in [
        "/System/Volumes/Data/Applications/cys.app/Contents/MacOS",
        "/System/Volumes/Data/Users/x/Applications/cys.app/Contents/MacOS",
    ] {
        assert_eq!(
            classify_bundle_dir(p),
            BundleKind::Canonical,
            "데이터볼륨 경유 실행이 비정규로 떨어지면 정규 설치가 안전모드에 갇힌다: {p}"
        );
        assert!(
            autoregister_allowed(&classify_bundle_dir(p)),
            "같은 판정을 쓰는 autoregister 가드도 함께 통과해야 한다: {p}"
        );
    }
    assert_eq!(
        boot_path_verdict(
            "/System/Volumes/Data/Applications/cys.app/Contents/MacOS/cys-app",
            false,
        ),
        BootPathVerdict::Canonical,
    );
    assert_eq!(
        boot_path_verdict(
            "/System/Volumes/Data/Users/x/Applications/cys.app/Contents/MacOS/cys-app",
            false,
        ),
        BootPathVerdict::Canonical,
    );
    assert!(strict_install_bundle_ok(
        "/System/Volumes/Data/Applications/cys.app/Contents/MacOS",
        "/Users/x"
    ));
    assert!(strict_install_bundle_ok(
        "/System/Volumes/Data/Users/x/Applications/cys.app/Contents/MacOS",
        "/Users/x"
    ));
}

#[test]
fn seal_selfdiag_throttle_never_silences_a_broken_seal() {
    assert!(seal_selfdiag_skips(Some("intact")));
    assert!(seal_selfdiag_skips(Some("undetermined")));
    assert!(seal_selfdiag_skips(Some("  intact\n")), "공백·개행 관용");
    assert!(!seal_selfdiag_skips(None));
    assert!(!seal_selfdiag_skips(Some("broken")));
    assert!(!seal_selfdiag_skips(Some("")));
    assert!(!seal_selfdiag_skips(Some("ok")));
    assert!(seal_selfdiag_marker("/Users/x", "0.12.91").ends_with("selfdiag-0.12.91"));
    assert_eq!(
        seal_selfdiag_marker("/Users/x", "0.12.91"),
        "/Users/x/.cys/state/selfdiag-0.12.91"
    );
}

#[test]
fn seal_cache_stores_only_broken_and_speaks_the_canonical_notice() {
    let notice = "cys.app 봉인 파손: Contents/Resources/pack/__pycache__/x.pyc";
    assert_eq!(seal_cache_payload(&SealVerdict::Intact, notice), None);
    assert_eq!(seal_cache_payload(&SealVerdict::Undetermined, notice), None);
    let got = seal_cache_payload(&SealVerdict::Broken, notice)
        .expect("Broken 판정은 항상 안내문을 산출해야 한다");
    assert_eq!(got, notice, "push(emit)와 pull(캐시) 문구가 갈라졌다 — 이원화 금지 계약 위반");
}

#[test]
fn broken_seal_is_never_recorded() {
    assert_eq!(seal_record_token(&SealVerdict::Intact), Some("intact"));
    assert_eq!(seal_record_token(&SealVerdict::Undetermined), Some("undetermined"));
    assert_eq!(seal_record_token(&SealVerdict::Broken), None);
}

#[test]
fn boot_query_is_silent_only_for_a_full_boot() {
    assert_eq!(boot_verdict(BootPathVerdict::Canonical), None);
    let told = boot_verdict(BootPathVerdict::NonCanonical).expect("guidance");
    assert_eq!(told, translocation_guidance(BootPathVerdict::NonCanonical));
    assert!(told.contains("xattr -d com.apple.quarantine /Applications/cys.app"));
}

#[test]
fn running_executable_is_judged_by_its_path_and_the_switch() {
    let download = "/Users/x/Downloads/cys.app/Contents/MacOS/cys-app";
    assert_eq!(current_boot_verdict(None, None), BootPathVerdict::Canonical);
    assert_eq!(current_boot_verdict(Some(download), None), BootPathVerdict::NonCanonical);
    assert_eq!(current_boot_verdict(Some(download), Some("0")), BootPathVerdict::NonCanonical);
    assert_eq!(current_boot_verdict(Some(download), Some("1")), BootPathVerdict::Canonical);
}

#[test]
fn only_an_installed_bundle_with_its_daemon_registers() {
    assert_eq!(maybe_autoregister_launchd(None, true), Autoregister::Skip);
    assert_eq!(
        maybe_autoregister_launchd(Some("/Applications/cys.app/Contents/MacOS"), true),
        Autoregister::Register("/Applications/cys.app/Contents/MacOS/cysd".to_string())
    );
    assert_eq!(
        maybe_autoregister_launchd(Some("/Applications/cys.app/Contents/MacOS"), false),
        Autoregister::Skip
    );
    assert_eq!(
        maybe_autoregister_launchd(Some("/Users/x/Downloads/cys.app/Contents/MacOS"), true),
        Autoregister::SkipBundle(BundleKind::NonStandard)
    );
}

#[test]
fn normalizing_twice_changes_nothing() {
    for p in ["", "/", "//", "/a//b/", "a/b//", "///x"] {
        let once = normalize_path_str(p);
        assert_eq!(normalize_path_str(&once), once);
        assert!(paths_equivalent(p, &once));
    }
}
