use cys_app::backup::merge_backup_facts;
use cys_app::marks::{osascript_text_to_lf, parse_pair_markers, split_osascript_lines};
use cys_app::shell::{
    applescript_str, build_install_script, build_uninstall_script, elevate, sh_squote,
    BACKUP_COLLIDE_MSG, BACKUP_MARK, BUNDLE_LINK_PATTERN, BUNDLE_LINK_SUFFIX_CYS,
    BUNDLE_LINK_SUFFIX_CYSD, RESTORE_MARK, SCRIPT_PATH_PRELUDE, SHELL_PATH_NORMALIZER,
};

#[test]
fn sh_squote_escapes_spaces_and_quotes() {
    assert_eq!(sh_squote("/usr/local/bin"), "'/usr/local/bin'");
    assert_eq!(sh_squote("/Users/x/a b/cys.app"), "'/Users/x/a b/cys.app'");
    assert_eq!(sh_squote("a'b"), "'a'\\''b'");
}

#[test]
fn applescript_str_escapes_backslash_and_doublequote() {
    assert_eq!(applescript_str("/usr/local/bin"), "\"/usr/local/bin\"");
    assert_eq!(applescript_str("a\"b"), "\"a\\\"b\"");
    assert_eq!(applescript_str("a\\b"), "\"a\\\\b\"");
}

#[test]
fn build_install_script_backs_up_real_files_and_uses_ln_sfn() {
    let cys = "/Applications/cys.app/Contents/MacOS/cys";
    let cysd = "/Applications/cys.app/Contents/MacOS/cysd";
    let s = build_install_script(cys, cysd, "/usr/local/bin", "1700000000");
    assert_eq!(
        s,
        format!(
            "export PATH=/usr/bin:/bin:/usr/sbin:/sbin; /bin/mkdir -p '/usr/local/bin' && \
if [ -e '/usr/local/bin/cys' ] || [ -L '/usr/local/bin/cys' ]; then _cys_bak=1; \
if [ -L '/usr/local/bin/cys' ]; then _cys_t=$(/usr/bin/readlink '/usr/local/bin/cys' | {NORM}); \
case \"$_cys_t\" in \
*/cys.app/Contents/MacOS/cys|*/cys.app/Contents/MacOS/cysd) _cys_bak=0;; esac; fi; \
if [ \"$_cys_bak\" = 1 ]; then \
if [ -e '/usr/local/bin/cys.cys-backup-1700000000' ] || [ -L '/usr/local/bin/cys.cys-backup-1700000000' ]; then \
echo '{MSG}/usr/local/bin/cys.cys-backup-1700000000 (그 자리의 /usr/local/bin/cys 는 그대로 두었습니다. 1초 뒤 다시 시도하세요)' >&2; exit 1; fi; \
/bin/mv '/usr/local/bin/cys' '/usr/local/bin/cys.cys-backup-1700000000' \
&& echo 'CYS-BACKED-UP:/usr/local/bin/cys:/usr/local/bin/cys.cys-backup-1700000000'; fi; fi && \
/bin/ln -sfn '/Applications/cys.app/Contents/MacOS/cys' '/usr/local/bin/cys' && \
if [ -e '/usr/local/bin/cysd' ] || [ -L '/usr/local/bin/cysd' ]; then _cys_bak=1; \
if [ -L '/usr/local/bin/cysd' ]; then _cys_t=$(/usr/bin/readlink '/usr/local/bin/cysd' | {NORM}); \
case \"$_cys_t\" in \
*/cys.app/Contents/MacOS/cys|*/cys.app/Contents/MacOS/cysd) _cys_bak=0;; esac; fi; \
if [ \"$_cys_bak\" = 1 ]; then \
if [ -e '/usr/local/bin/cysd.cys-backup-1700000000' ] || [ -L '/usr/local/bin/cysd.cys-backup-1700000000' ]; then \
echo '{MSG}/usr/local/bin/cysd.cys-backup-1700000000 (그 자리의 /usr/local/bin/cysd 는 그대로 두었습니다. 1초 뒤 다시 시도하세요)' >&2; exit 1; fi; \
/bin/mv '/usr/local/bin/cysd' '/usr/local/bin/cysd.cys-backup-1700000000' \
&& echo 'CYS-BACKED-UP:/usr/local/bin/cysd:/usr/local/bin/cysd.cys-backup-1700000000'; fi; fi && \
/bin/ln -sfn '/Applications/cys.app/Contents/MacOS/cysd' '/usr/local/bin/cysd'",
            NORM = SHELL_PATH_NORMALIZER,
            MSG = BACKUP_COLLIDE_MSG
        )
    );
    assert!(
        s.find("/bin/mv '/usr/local/bin/cys'").unwrap()
            < s.find("/bin/ln -sfn '/Applications/cys.app/Contents/MacOS/cys'").unwrap(),
        "백업이 링크 생성보다 뒤에 있다: {s}"
    );
    assert!(!s.contains("ln -sf '"), "ln -sf(-n 없음) 회귀: {s}");
    assert!(s.contains("ln -sfn "), "ln -sfn 이어야 한다: {s}");
    assert!(!s.contains("date"), "타임스탬프는 Rust 가 박는다: {s}");
    assert!(
        !s.contains("] && [ ! -L "),
        "심볼릭 축 백업 가드가 2R 형태(-e && !-L)로 회귀했다: {s}"
    );
    assert!(s.starts_with(SCRIPT_PATH_PRELUDE), "PATH 프렐류드 누락: {s}");
    for bare in [
        "; mkdir", "then mv ", "&& mv ", "&& ln ", "$(readlink", "; rm ", "then rm ", "| sed ",
    ] {
        assert!(!s.contains(bare), "절대경로 없이 부르는 명령이 남아 있다({bare}): {s}");
    }
    assert!(s.contains("/bin/mkdir -p"), "mkdir 절대경로: {s}");
    assert!(s.contains("/usr/bin/readlink "), "readlink 절대경로: {s}");
    assert!(s.contains("/usr/bin/sed "), "sed 절대경로(I4 계약): {s}");
    assert!(
        s.contains(SHELL_PATH_NORMALIZER),
        "설치 집행이 readlink 원문을 그대로 대조한다(판정·집행 분리 회귀): {s}"
    );
    assert!(s.contains("echo 'CYS-BACKED-UP:"), "자기보고 표식 누락: {s}");
}

#[test]
fn build_uninstall_script_reverifies_symlink_and_target_before_rm() {
    let s = build_uninstall_script(
        &[
            "/usr/local/bin/cys".to_string(),
            "/usr/local/bin/cysd".to_string(),
        ],
        &[],
    );
    assert!(s.contains("[ -L '/usr/local/bin/cys' ]"), "-L 재검사 누락: {s}");
    assert!(s.contains("[ -L '/usr/local/bin/cysd' ]"), "-L 재검사 누락: {s}");
    assert!(s.contains("/usr/bin/readlink '/usr/local/bin/cys'"), "readlink 대조 누락: {s}");
    assert!(s.contains("/usr/bin/readlink '/usr/local/bin/cysd'"), "readlink 대조 누락: {s}");
    assert!(s.starts_with(SCRIPT_PATH_PRELUDE), "해제 스크립트에 PATH 프렐류드 누락: {s}");
    for bare in ["$(readlink", "; rm ", "then rm ", "; mv ", "&& mv ", "| sed "] {
        assert!(!s.contains(bare), "절대경로 없이 부르는 명령이 남아 있다({bare}): {s}");
    }
    assert!(
        s.contains(SHELL_PATH_NORMALIZER),
        "해제 집행이 readlink 원문을 그대로 대조한다(판정·집행 분리 회귀): {s}"
    );
    assert!(s.contains("/bin/rm -f '/usr/local/bin/cys'"), "rm 절대경로: {s}");
    assert!(
        s.contains("*/cys.app/Contents/MacOS/cys|*/cys.app/Contents/MacOS/cysd"),
        "번들 마커 대조 누락(links_into_cys_bundle 과 같은 마커여야 한다): {s}"
    );
    assert!(
        !s.contains("/bin/rm -f '/usr/local/bin/cys' '/usr/local/bin/cysd'"),
        "가드 없는 일괄 rm 회귀: {s}"
    );
    assert!(!s.contains("rm -r"), "재귀 삭제 금지: {s}");
    assert!(s.contains("/bin/rm -f '/usr/local/bin/cys'"));
    assert!(s.contains("/bin/rm -f '/usr/local/bin/cysd'"));
}

#[test]
fn split_osascript_lines_handles_cr_crlf_and_lf() {
    assert_eq!(split_osascript_lines("A\rB\rC\n"), vec!["A", "B", "C"]);
    assert_eq!(split_osascript_lines("A\r\nB\nC"), vec!["A", "B", "C"]);
    assert_eq!(split_osascript_lines(""), Vec::<&str>::new());
    assert_eq!(split_osascript_lines("\r\n"), vec![""]);
    assert_eq!(split_osascript_lines("가\r나\n"), vec!["가", "나"]);
    assert_eq!(osascript_text_to_lf("A\rB\r\nC"), "A\nB\nC");
    assert_eq!("A\rB\rC\n".lines().count(), 1);
}

#[test]
fn bundle_link_pattern_and_rust_suffixes_are_one_rule() {
    assert_eq!(
        BUNDLE_LINK_PATTERN,
        format!("*{BUNDLE_LINK_SUFFIX_CYS}|*{BUNDLE_LINK_SUFFIX_CYSD}"),
        "셸 패턴과 Rust 접미사가 갈라지면 판정과 집행이 다른 결론을 낸다"
    );
}

#[test]
fn i5_script_self_report_is_parsed_and_merged_with_observation() {
    let out = "noise line\n\
CYS-BACKED-UP:/usr/local/bin/cys:/usr/local/bin/cys.cys-backup-17\n\
  CYS-BACKED-UP:/usr/local/bin/cysd:/usr/local/bin/cysd.cys-backup-17  \n\
CYS-BACKED-UP:broken\n";
    assert_eq!(
        parse_pair_markers(out, BACKUP_MARK),
        vec![
            (
                "/usr/local/bin/cys".to_string(),
                "/usr/local/bin/cys.cys-backup-17".to_string()
            ),
            (
                "/usr/local/bin/cysd".to_string(),
                "/usr/local/bin/cysd.cys-backup-17".to_string()
            ),
        ],
        "구분자 없는 줄은 버리고, 앞뒤 공백은 관용한다"
    );
    assert!(parse_pair_markers(out, RESTORE_MARK).is_empty(), "접두가 다르면 집지 않는다");
    let reported = vec![("a".to_string(), "a.bak".to_string())];
    let observed = vec![
        ("a".to_string(), "a.bak".to_string()),
        ("b".to_string(), "b.bak".to_string()),
    ];
    assert_eq!(
        merge_backup_facts(reported, observed),
        vec![
            ("a".to_string(), "a.bak".to_string()),
            ("b".to_string(), "b.bak".to_string())
        ]
    );
}

#[test]
fn shell_words_and_literals_survive_quoting() {
    assert_eq!(sh_squote(""), "''");
    assert_eq!(applescript_str(""), "\"\"");
    assert_eq!(elevate("ls"), "do shell script \"ls\" with administrator privileges");
}

#[test]
fn cr_and_lf_give_the_same_lines() {
    assert_eq!(split_osascript_lines("a\rb"), split_osascript_lines("a\nb"));
    for line in split_osascript_lines("x\r\ny\rz\n\n") {
        assert!(!line.contains('\r') && !line.contains('\n'));
    }
}

#[test]
fn mark_reads_back_from_a_failing_run() {
    let said = "0:13: execution error: CYS-BACKED-UP:/a:/b\rCYS-RESTORED:/c:/d (3)";
    assert_eq!(
        parse_pair_markers(said, BACKUP_MARK),
        vec![("/a".to_string(), "/b".to_string())]
    );
    assert_eq!(
        parse_pair_markers(said, RESTORE_MARK),
        vec![("/c".to_string(), "/d".to_string())]
    );
}

#[test]
fn removal_script_puts_a_backup_back() {
    let s = build_uninstall_script(
        &["/usr/local/bin/cys".to_string()],
        &[(
            "/usr/local/bin/cys.cys-backup-9".to_string(),
            "/usr/local/bin/cys".to_string(),
        )],
    );
    assert!(s.contains("/bin/mv '/usr/local/bin/cys.cys-backup-9' '/usr/local/bin/cys'"), "{s}");
    assert!(s.contains("CYS-RESTORED:"), "{s}");
}
