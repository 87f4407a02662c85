//! Installing the command line links, and reporting how they stand.

use vstd::prelude::*;

use crate::backup::{merge_backup_facts, observe_existing_backups};
use crate::backup::with_present_backup;
use crate::bundle::{classify_bundle_dir, grandparent, paths_equivalent, strict_install_bundle_ok, BundleKind};
use crate::bundle::{bundle_kind, grandparent_of, normalized, strictly_installed};
use crate::links::{classify_cli_links, decide_cli_uninstall, CliLinkState, LinkProbe, UninstallAction};
use crate::links::{action_for, link_state};
use crate::marks::{osascript_text_to_lf, parse_pair_markers};
use crate::marks::{marked_pairs, script_lines, unique};
use crate::path::join;
use crate::path::joined_path;
use crate::probe::{ShadowProbe, WhichProbe};
use crate::probe::ProbeFacts;
use crate::shell::{build_install_script, elevate, BACKUP_MARK};
use crate::shell::{elevated, install_script};
use crate::text::{contains, same_text, trim};
use crate::text::{contains_text, joined, opt_str_text, opt_text, pair_texts, texts, trimmed};

verus! {

pub const UNVERIFIED_NOT_ON_PATH: &'static str = "not_on_path";

pub const UNVERIFIED_PROBE_FAILED: &'static str = "probe_failed";

/// How to install: the binaries to link to, and the privileged command.
#[derive(Debug)]
pub struct CliInstallPlan {
    pub cys_src: String,
    pub cysd_src: String,
    pub osascript_arg: String,
    pub warnings: Vec<String>,
}

/// The bundle that an error message names.
pub open spec fn bundle_shown(dir: Seq<char>) -> Seq<char> {
    match grandparent_of(dir) {
        Some(b) => b,
        None => dir,
    }
}

/// Why installing out of `dir` is refused, if it is.
pub open spec fn install_refusal(dir: Seq<char>, home: Seq<char>) -> Option<Seq<char>> {
    match bundle_kind(dir) {
        BundleKind::Translocated => Some(
            "cys.app이 Gatekeeper에 의해 임시 위치에서 실행 중입니다. Finder에서 cys.app을 Applications 폴더로 옮긴 뒤 다시 열고 시도하세요."@,
        ),
        BundleKind::Backup => Some(
            "백업 번들에서 실행 중입니다. 정규 cys.app(Applications)에서 실행한 뒤 시도하세요."@,
        ),
        BundleKind::NonStandard => Some(
            "cys.app이 표준 위치(Applications)가 아닌 곳에서 실행 중입니다: "@ + bundle_shown(dir)
                + "\nFinder에서 cys.app을 Applications 폴더로 옮긴 뒤 다시 열고 시도하세요."@,
        ),
        BundleKind::Canonical => if strictly_installed(dir, home) {
            None
        } else {
            Some(
                "cys.app이 표준 Applications 폴더가 아닌 곳에서 실행 중입니다: "@ + bundle_shown(
                    dir,
                )
                    + "\n정확히 /Applications 또는 홈 폴더의 Applications 안에 있는 cys.app에서만 설치할 수 있습니다. Finder에서 cys.app을 Applications 폴더로 옮긴 뒤 다시 열고 시도하세요."@,
            )
        },
    }
}

fn shown_bundle(dir: &str) -> (r: String)
    ensures
        r@ == bundle_shown(dir@),
{
    match grandparent(dir) {
        Some(b) => b,
        None => dir.to_owned(),
    }
}

/// The plan for linking the binaries of `macos_dir` into `target_dir`. Only a
/// bundle in one of the two real `Applications` directories may be installed.
pub fn plan_cli_install(macos_dir: &str, target_dir: &str, stamp: &str, home: &str) -> (r: Result<
    CliInstallPlan,
    String,
>)
    ensures
        match r {
            Ok(p) => {
                &&& install_refusal(macos_dir@, home@) is None
                &&& p.cys_src@ == joined_path(macos_dir@, "cys"@)
                &&& p.cysd_src@ == joined_path(macos_dir@, "cysd"@)
                &&& p.osascript_arg@ == elevated(
                    install_script(p.cys_src@, p.cysd_src@, target_dir@, stamp@),
                )
                &&& p.warnings@.len() == 0
            },
            Err(e) => install_refusal(macos_dir@, home@) == Some(e@),
        },
{
    match classify_bundle_dir(macos_dir) {
        BundleKind::Translocated => {
            return Err(
                "cys.app이 Gatekeeper에 의해 임시 위치에서 실행 중입니다. Finder에서 cys.app을 Applications 폴더로 옮긴 뒤 다시 열고 시도하세요.".to_owned(),
            );
        },
        BundleKind::Backup => {
            return Err(
                "백업 번들에서 실행 중입니다. 정규 cys.app(Applications)에서 실행한 뒤 시도하세요.".to_owned(),
            );
        },
        BundleKind::NonStandard => {
            let mut msg = "cys.app이 표준 위치(Applications)가 아닌 곳에서 실행 중입니다: ".to_owned();
            msg.append(shown_bundle(macos_dir).as_str());
            msg.append(
                "\nFinder에서 cys.app을 Applications 폴더로 옮긴 뒤 다시 열고 시도하세요.",
            );
            return Err(msg);
        },
        BundleKind::Canonical => {},
    }
    if !strict_install_bundle_ok(macos_dir, home) {
        let mut msg = "cys.app이 표준 Applications 폴더가 아닌 곳에서 실행 중입니다: ".to_owned();
        msg.append(shown_bundle(macos_dir).as_str());
        msg.append(
            "\n정확히 /Applications 또는 홈 폴더의 Applications 안에 있는 cys.app에서만 설치할 수 있습니다. Finder에서 cys.app을 Applications 폴더로 옮긴 뒤 다시 열고 시도하세요.",
        );
        return Err(msg);
    }
    let cys_src = join(macos_dir, "cys");
    let cysd_src = join(macos_dir, "cysd");
    let script = build_install_script(cys_src.as_str(), cysd_src.as_str(), target_dir, stamp);
    let osascript_arg = elevate(script.as_str());
    Ok(CliInstallPlan { cys_src, cysd_src, osascript_arg, warnings: Vec::new() })
}

/// Installing is planned only from a bundle that may also register itself as a
/// service, and that passes the strict judgment.
pub proof fn law_only_installed_bundles_install(dir: Seq<char>, home: Seq<char>)
    ensures
        install_refusal(dir, home) is None <==> bundle_kind(dir) == BundleKind::Canonical
            && strictly_installed(dir, home),
{
}

/// Whether the new link is what a new terminal runs.
#[derive(Debug)]
pub struct InstallVerdict {
    pub status: &'static str,
    pub unverified_reason: Option<&'static str>,
    pub effective_cys: Option<String>,
    pub shadowed_by: Option<String>,
    pub warnings: Vec<String>,
}

/// A verdict with its texts.
pub struct VerdictFacts {
    pub status: Seq<char>,
    pub unverified_reason: Option<Seq<char>>,
    pub effective_cys: Option<Seq<char>>,
    pub shadowed_by: Option<Seq<char>>,
    pub warnings: Seq<Seq<char>>,
}

impl InstallVerdict {
    pub open spec fn view(self) -> VerdictFacts {
        VerdictFacts {
            status: self.status@,
            unverified_reason: opt_str_text(self.unverified_reason),
            effective_cys: opt_text(self.effective_cys),
            shadowed_by: opt_text(self.shadowed_by),
            warnings: texts(self.warnings@),
        }
    }
}

/// Installed where the shell finds the new link first, shadowed where it finds
/// something else first, and otherwise unverified for one of two reasons.
pub open spec fn verdict_of(
    probe: ProbeFacts,
    target: Seq<char>,
    shell: Seq<char>,
) -> VerdictFacts {
    match probe {
        ProbeFacts::Completed(entries) => if entries.len() == 0 {
            VerdictFacts {
                status: "unverified"@,
                unverified_reason: Some(UNVERIFIED_NOT_ON_PATH@),
                effective_cys: None,
                shadowed_by: None,
                warnings: seq![
                    "PATH 확인 결과: 검증 명령은 정상 실행됐지만 로그인 셸("@ + shell
                        + ") PATH에서 cys를 찾지 못했습니다(PATH에 "@ + target
                        + "의 폴더가 없을 수 있습니다)."@,
                ],
            }
        } else if normalized(entries[0]) == normalized(target) {
            VerdictFacts {
                status: "installed"@,
                unverified_reason: None,
                effective_cys: Some(entries[0]),
                shadowed_by: None,
                warnings: Seq::empty(),
            }
        } else {
            VerdictFacts {
                status: "installed_shadowed"@,
                unverified_reason: None,
                effective_cys: Some(entries[0]),
                shadowed_by: Some(entries[0]),
                warnings: seq![
                    "PATH 확인 결과: 심볼릭은 만들었지만 로그인 셸("@ + shell
                        + ") PATH 앞쪽의 다른 cys가 우선합니다: "@ + entries[0]
                        + ". 새 터미널에서 'cys'를 치면 "@ + target
                        + "가 아니라 그쪽이 실행됩니다 — 그 파일을 지우거나 PATH에서 /usr/local/bin을 앞으로 옮긴 뒤 다시 확인하세요."@,
                ],
            }
        },
        ProbeFacts::Unmeasured(reason) => VerdictFacts {
            status: "unverified"@,
            unverified_reason: Some(UNVERIFIED_PROBE_FAILED@),
            effective_cys: None,
            shadowed_by: None,
            warnings: seq![
                "PATH 확인 실패: 심볼릭은 만들었지만 로그인 셸("@ + shell
                    + ")로 'which -a cys'를 실행하지 못했습니다: "@ + reason
                    + ". 새 터미널에서 'which -a cys'로 직접 확인하세요."@,
            ],
        },
    }
}

/// The list of one text.
fn one(s: String) -> (r: Vec<String>)
    ensures
        texts(r@) == seq![s@],
{
    let mut v: Vec<String> = Vec::new();
    v.push(s);
    assert(texts(v@) == seq![s@]);
    v
}

/// Whether the new link is what a new terminal runs.
pub fn classify_install_status(probe: &WhichProbe, target_cys: &str, shell_name: &str) -> (r:
    InstallVerdict)
    ensures
        r@ == verdict_of(probe@, target_cys@, shell_name@),
{
    match probe {
        WhichProbe::Completed(entries) => {
            let ghost all = texts(entries@);
            assert(all.len() == entries@.len());
            if entries.len() == 0 {
                let mut w = "PATH 확인 결과: 검증 명령은 정상 실행됐지만 로그인 셸(".to_owned();
                w.append(shell_name);
                w.append(") PATH에서 cys를 찾지 못했습니다(PATH에 ");
                w.append(target_cys);
                w.append("의 폴더가 없을 수 있습니다).");
                InstallVerdict {
                    status: "unverified",
                    unverified_reason: Some(UNVERIFIED_NOT_ON_PATH),
                    effective_cys: None,
                    shadowed_by: None,
                    warnings: one(w),
                }
            } else {
                let first = &entries[0];
                assert(all[0] == first@);
                if paths_equivalent(first.as_str(), target_cys) {
                    let warnings: Vec<String> = Vec::new();
                    assert(texts(warnings@) == Seq::<Seq<char>>::empty());
                    InstallVerdict {
                        status: "installed",
                        unverified_reason: None,
                        effective_cys: Some(first.clone()),
                        shadowed_by: None,
                        warnings,
                    }
                } else {
                    let mut w = "PATH 확인 결과: 심볼릭은 만들었지만 로그인 셸(".to_owned();
                    w.append(shell_name);
                    w.append(") PATH 앞쪽의 다른 cys가 우선합니다: ");
                    w.append(first.as_str());
                    w.append(". 새 터미널에서 'cys'를 치면 ");
                    w.append(target_cys);
                    w.append(
                        "가 아니라 그쪽이 실행됩니다 — 그 파일을 지우거나 PATH에서 /usr/local/bin을 앞으로 옮긴 뒤 다시 확인하세요.",
                    );
                    InstallVerdict {
                        status: "installed_shadowed",
                        unverified_reason: None,
                        effective_cys: Some(first.clone()),
                        shadowed_by: Some(first.clone()),
                        warnings: one(w),
                    }
                }
            }
        },
        WhichProbe::Unmeasured(reason) => {
            let mut w = "PATH 확인 실패: 심볼릭은 만들었지만 로그인 셸(".to_owned();
            w.append(shell_name);
            w.append(")로 'which -a cys'를 실행하지 못했습니다: ");
            w.append(reason.as_str());
            w.append(". 새 터미널에서 'which -a cys'로 직접 확인하세요.");
            InstallVerdict {
                status: "unverified",
                unverified_reason: Some(UNVERIFIED_PROBE_FAILED),
                effective_cys: None,
                shadowed_by: None,
                warnings: one(w),
            }
        },
    }
}

/// The status is one of three; a reason is given exactly for `unverified`, and
/// it tells a failed measurement from a path that was not found; only a
/// measurement that found the target first is `installed`.
pub proof fn law_install_status(probe: ProbeFacts, target: Seq<char>, shell: Seq<char>)
    ensures
        ({
            let v = verdict_of(probe, target, shell);
            &&& v.status == "installed"@ || v.status == "installed_shadowed"@ || v.status
                == "unverified"@
            &&& v.unverified_reason is Some <==> v.status == "unverified"@
            &&& probe is Unmeasured <==> v.unverified_reason == Some(UNVERIFIED_PROBE_FAILED@)
            &&& v.status == "installed"@ <==> (probe matches ProbeFacts::Completed(e) && e.len() > 0
                && normalized(e[0]) == normalized(target))
            &&& v.shadowed_by is Some <==> v.status == "installed_shadowed"@
            &&& v.warnings.len() == 0 <==> v.status == "installed"@
        }),
{
    reveal_strlit("installed");
    reveal_strlit("installed_shadowed");
    reveal_strlit("unverified");
    reveal_strlit("not_on_path");
    reveal_strlit("probe_failed");
    assert("installed"@.len() != "installed_shadowed"@.len());
    assert("installed"@.len() != "unverified"@.len());
    assert("unverified"@.len() != "installed_shadowed"@.len());
    assert(UNVERIFIED_NOT_ON_PATH@.len() != UNVERIFIED_PROBE_FAILED@.len());
}

/// The note on `cysd`: another one stands first, or it is not found although
/// `cys` was. A cause that the note on `cys` already names is not repeated.
pub open spec fn cysd_note(
    cys: ProbeFacts,
    cysd: ProbeFacts,
    target: Seq<char>,
    shell: Seq<char>,
) -> Option<Seq<char>> {
    match cysd {
        ProbeFacts::Completed(entries) => if entries.len() == 0 {
            if cys matches ProbeFacts::Completed(c) && c.len() == 0 {
                None
            } else {
                Some(
                    "cysd 확인 결과: 로그인 셸("@ + shell
                        + ") PATH에서 cysd를 찾지 못했습니다(PATH에 "@ + target
                        + "의 폴더가 없을 수 있습니다)."@,
                )
            }
        } else if normalized(entries[0]) == normalized(target) {
            None
        } else {
            Some(
                "cysd 확인 결과: 로그인 셸("@ + shell + ") PATH 앞쪽의 다른 cysd가 우선합니다: "@
                    + entries[0] + ". "@ + target
                    + "가 아니라 그쪽이 실행되므로 데몬 버전이 어긋날 수 있습니다."@,
            )
        },
        ProbeFacts::Unmeasured(_) => None,
    }
}

/// The note on `cysd`, where there is something new to say.
pub fn cysd_shadow_warning(
    cys_probe: &WhichProbe,
    cysd_probe: &WhichProbe,
    target_cysd: &str,
    shell_name: &str,
) -> (r: Option<String>)
    ensures
        opt_text(r) == cysd_note(cys_probe@, cysd_probe@, target_cysd@, shell_name@),
{
    match cysd_probe {
        WhichProbe::Completed(entries) => {
            let ghost all = texts(entries@);
            assert(all.len() == entries@.len());
            if entries.len() == 0 {
                if let WhichProbe::Completed(c) = cys_probe {
                    assert(texts(c@).len() == c@.len());
                    if c.len() == 0 {
                        return None;
                    }
                }
                let mut w = "cysd 확인 결과: 로그인 셸(".to_owned();
                w.append(shell_name);
                w.append(") PATH에서 cysd를 찾지 못했습니다(PATH에 ");
                w.append(target_cysd);
                w.append("의 폴더가 없을 수 있습니다).");
                Some(w)
            } else {
                assert(all[0] == entries@[0]@);
                if paths_equivalent(entries[0].as_str(), target_cysd) {
                    None
                } else {
                    let mut w = "cysd 확인 결과: 로그인 셸(".to_owned();
                    w.append(shell_name);
                    w.append(") PATH 앞쪽의 다른 cysd가 우선합니다: ");
                    w.append(entries[0].as_str());
                    w.append(". ");
                    w.append(target_cysd);
                    w.append("가 아니라 그쪽이 실행되므로 데몬 버전이 어긋날 수 있습니다.");
                    Some(w)
                }
            }
        },
        WhichProbe::Unmeasured(_) => None,
    }
}

/// The note on how the shell finds `name`: silent only where it finds the
/// target first. A failed measurement is said.
pub open spec fn shadow_note(
    probe: ProbeFacts,
    target: Seq<char>,
    name: Seq<char>,
    shell: Seq<char>,
) -> Option<Seq<char>> {
    match probe {
        ProbeFacts::Completed(entries) => if entries.len() == 0 {
            Some(
                name + " 확인 결과: 로그인 셸("@ + shell + ") PATH에서 "@ + name
                    + "를 찾지 못했습니다(PATH에 "@ + target + "의 폴더가 없을 수 있습니다)."@,
            )
        } else if normalized(entries[0]) == normalized(target) {
            None
        } else {
            Some(
                name + " 확인 결과: 로그인 셸("@ + shell + ") PATH 앞쪽의 다른 "@ + name
                    + "가 우선합니다: "@ + entries[0] + ". 새 터미널에서 '"@ + name
                    + "'를 치면 "@ + target + "가 아니라 그쪽이 실행됩니다."@,
            )
        },
        ProbeFacts::Unmeasured(reason) => Some(
            "PATH 확인 실패: 로그인 셸("@ + shell + ")로 'which -a "@ + name
                + "'를 실행하지 못했습니다: "@ + reason + "."@,
        ),
    }
}

/// The note on how the shell finds `name`.
pub fn path_shadow_note(probe: &WhichProbe, target: &str, name: &str, shell_name: &str) -> (r:
    Option<String>)
    ensures
        opt_text(r) == shadow_note(probe@, target@, name@, shell_name@),
{
    match probe {
        WhichProbe::Completed(entries) => {
            let ghost all = texts(entries@);
            assert(all.len() == entries@.len());
            if entries.len() == 0 {
                let mut w = name.to_owned();
                w.append(" 확인 결과: 로그인 셸(");
                w.append(shell_name);
                w.append(") PATH에서 ");
                w.append(name);
                w.append("를 찾지 못했습니다(PATH에 ");
                w.append(target);
                w.append("의 폴더가 없을 수 있습니다).");
                Some(w)
            } else {
                assert(all[0] == entries@[0]@);
                if paths_equivalent(entries[0].as_str(), target) {
                    None
                } else {
                    let mut w = name.to_owned();
                    w.append(" 확인 결과: 로그인 셸(");
                    w.append(shell_name);
                    w.append(") PATH 앞쪽의 다른 ");
                    w.append(name);
                    w.append("가 우선합니다: ");
                    w.append(entries[0].as_str());
                    w.append(". 새 터미널에서 '");
                    w.append(name);
                    w.append("'를 치면 ");
                    w.append(target);
                    w.append("가 아니라 그쪽이 실행됩니다.");
                    Some(w)
                }
            }
        },
        WhichProbe::Unmeasured(reason) => {
            let mut w = "PATH 확인 실패: 로그인 셸(".to_owned();
            w.append(shell_name);
            w.append(")로 'which -a ");
            w.append(name);
            w.append("'를 실행하지 못했습니다: ");
            w.append(reason.as_str());
            w.append(".");
            Some(w)
        },
    }
}

/// One line for each file that was moved away.
pub open spec fn moved_lines(found: Seq<(Seq<char>, Seq<char>)>) -> Seq<char>
    decreases found.len(),
{
    if found.len() == 0 {
        Seq::empty()
    } else {
        moved_lines(found.drop_last()) + "\n  · "@ + found.last().0 + " → "@ + found.last().1
    }
}

/// The failure, and below it the files that had been moved away before it.
pub open spec fn install_failure_text(
    base: Seq<char>,
    found: Seq<(Seq<char>, Seq<char>)>,
) -> Seq<char> {
    if found.len() == 0 {
        base
    } else {
        base + "\n\n※ 실패 전에 이미 옮겨진 파일이 있습니다 — 그대로 두면 안 됩니다:"@
            + moved_lines(found)
    }
}

/// The failure, and below it the files that had been moved away before it.
pub fn install_failure_message(base: &str, found: &[(String, String)]) -> (r: String)
    ensures
        r@ == install_failure_text(base@, pair_texts(found@)),
{
    let ghost all = pair_texts(found@);
    assert(all.len() == found@.len());
    if found.len() == 0 {
        return base.to_owned();
    }
    let mut lines = String::new();
    let mut i: usize = 0;
    while i < found.len()
        invariant
            i <= found@.len(),
            all == pair_texts(found@),
            lines@ == moved_lines(all.take(i as int)),
        decreases found.len() - i,
    {
        assert(all.take(i + 1).drop_last() == all.take(i as int));
        assert(all[i as int] == (found@[i as int].0@, found@[i as int].1@));
        lines.append("\n  · ");
        lines.append(found[i].0.as_str());
        lines.append(" → ");
        lines.append(found[i].1.as_str());
        i += 1;
    }
    assert(all.take(found@.len() as int) == all);
    let mut msg = base.to_owned();
    msg.append("\n\n※ 실패 전에 이미 옮겨진 파일이 있습니다 — 그대로 두면 안 됩니다:");
    msg.append(lines.as_str());
    msg
}

/// What a privileged script printed and how it ended.
#[derive(Debug)]
pub struct ScriptRun {
    pub success: bool,
    pub stdout: String,
    pub stderr: String,
}

impl ScriptRun {
    /// Both outputs, on lines of their own.
    pub open spec fn said_text(self) -> Seq<char> {
        self.stdout@ + "\n"@ + self.stderr@
    }

    /// The error output with line feeds between its lines.
    pub open spec fn error_text(self) -> Seq<char> {
        joined(script_lines(self.stderr@), "\n"@)
    }

    /// The user dismissed the password prompt.
    pub open spec fn was_canceled(self) -> bool {
        contains_text(self.error_text(), "-128"@) || contains_text(
            self.error_text(),
            "User canceled"@,
        )
    }

    /// Both outputs, on lines of their own.
    pub fn said(&self) -> (r: String)
        ensures
            r@ == self.said_text(),
    {
        let mut s = self.stdout.clone();
        s.append("\n");
        s.append(self.stderr.as_str());
        s
    }

    /// The error output with line feeds between its lines.
    pub fn error(&self) -> (r: String)
        ensures
            r@ == self.error_text(),
    {
        osascript_text_to_lf(self.stderr.as_str())
    }

    /// The failure in words: the cancellation, or `what` and the error output.
    pub fn failure(&self, canceled: &str, what: &str) -> (r: String)
        ensures
            r@ == (if self.was_canceled() {
                canceled@
            } else {
                what@ + trimmed(self.error_text())
            }),
    {
        let err = self.error();
        if contains(err.as_str(), "-128") || contains(err.as_str(), "User canceled") {
            canceled.to_owned()
        } else {
            let mut m = what.to_owned();
            m.append(trim(err.as_str()));
            m
        }
    }
}

/// The backups that the script reported or that are there.
pub open spec fn backup_facts(
    run: ScriptRun,
    expected: Seq<(Seq<char>, Seq<char>)>,
    present: Seq<Seq<char>>,
) -> Seq<(Seq<char>, Seq<char>)> {
    unique(
        marked_pairs(run.said_text(), BACKUP_MARK@) + with_present_backup(expected, present),
    )
}

fn known_backups(run: &ScriptRun, expected: &[(String, String)], present: &[String]) -> (r: Vec<
    (String, String),
>)
    ensures
        pair_texts(r@) == backup_facts(*run, pair_texts(expected@), texts(present@)),
{
    let said = run.said();
    merge_backup_facts(
        parse_pair_markers(said.as_str(), BACKUP_MARK),
        observe_existing_backups(expected, present),
    )
}

/// The error of a failed installation. It names every file that the script
/// had already moved away.
pub fn install_cli_failure(run: &ScriptRun, expected: &[(String, String)], present: &[String]) -> (r:
    String)
    ensures
        r@ == install_failure_text(
            if run.was_canceled() {
                "설치가 취소되었습니다."@
            } else {
                "심볼릭 생성 실패: "@ + trimmed(run.error_text())
            },
            backup_facts(*run, pair_texts(expected@), texts(present@)),
        ),
{
    let facts = known_backups(run, expected, present);
    let base = run.failure("설치가 취소되었습니다.", "심볼릭 생성 실패: ");
    install_failure_message(base.as_str(), facts.as_slice())
}

/// The report on an installation.
#[derive(Debug)]
pub struct InstallCliReport {
    pub ok: bool,
    pub status: String,
    pub target_dir: String,
    pub cys_link: String,
    pub cysd_link: String,
    pub source_cys: String,
    pub effective_cys: Option<String>,
    pub shadowed_by: Option<String>,
    pub unverified_reason: Option<String>,
    pub warnings: Vec<String>,
}

/// A note for each file that was moved away.
pub open spec fn moved_notes(facts: Seq<(Seq<char>, Seq<char>)>) -> Seq<Seq<char>> {
    facts.map_values(
        |p: (Seq<char>, Seq<char>)|
            p.0 + "에 우리 것이 아닌 파일/링크가 있어 지우지 않고 "@ + p.1
                + "로 백업한 뒤 링크를 만들었습니다."@,
    )
}

/// A note for each expected backup that is not among the facts.
pub open spec fn unseen_notes(
    expected: Seq<(Seq<char>, Seq<char>)>,
    facts: Seq<(Seq<char>, Seq<char>)>,
) -> Seq<Seq<char>>
    decreases expected.len(),
{
    if expected.len() == 0 {
        Seq::empty()
    } else {
        let head = unseen_notes(expected.drop_last(), facts);
        let p = expected.last();
        if facts.contains(p) {
            head
        } else {
            head.push(
                p.0 + "의 기존 파일을 "@ + p.1
                    + "로 백업하려 했으나 백업본을 확인하지 못했습니다 — 'ls -l "@ + p.0
                    + "'로 현재 상태를 직접 확인하세요."@,
            )
        }
    }
}

/// `s` with the text of `o` behind it, where there is one.
pub open spec fn with_note(s: Seq<Seq<char>>, o: Option<Seq<char>>) -> Seq<Seq<char>> {
    match o {
        Some(t) => s.push(t),
        None => s,
    }
}

/// Appends the texts of `more`.
pub fn extend(list: &mut Vec<String>, more: &Vec<String>)
    ensures
        texts(final(list)@) == texts(old(list)@) + texts(more@),
{
    let mut i: usize = 0;
    let ghost all = texts(more@);
    let ghost start = texts(list@);
    assert(start + all.take(0) == start);
    while i < more.len()
        invariant
            i <= more.len(),
            all == texts(more@),
            texts(list@) == start + all.take(i as int),
        decreases more.len() - i,
    {
        let ghost was = list@;
        assert(all[i as int] == more@[i as int]@);
        let s = more[i].clone();
        list.push(s);
        assert(texts(list@) == texts(was).push(s@));
        assert(all.take(i + 1) == all.take(i as int).push(all[i as int]));
        i += 1;
        assert(texts(list@) == start + all.take(i as int));
    }
    assert(all.take(more.len() as int) == all);
}

/// Appends a text.
pub fn push_note(list: &mut Vec<String>, note: Option<String>)
    ensures
        texts(final(list)@) == with_note(texts(old(list)@), opt_text(note)),
{
    if let Some(s) = note {
        let ghost was = list@;
        let ghost t = s@;
        list.push(s);
        assert(texts(list@) == texts(was).push(t));
    }
}

fn push_moved_notes(list: &mut Vec<String>, facts: &Vec<(String, String)>)
    ensures
        texts(final(list)@) == texts(old(list)@) + moved_notes(pair_texts(facts@)),
{
    let mut i: usize = 0;
    let ghost all = pair_texts(facts@);
    let ghost notes = moved_notes(all);
    let ghost start = texts(list@);
    assert(start + notes.take(0) == start);
    while i < facts.len()
        invariant
            i <= facts.len(),
            all == pair_texts(facts@),
            notes == moved_notes(all),
            texts(list@) == start + notes.take(i as int),
        decreases facts.len() - i,
    {
        let ghost was = list@;
        assert(all[i as int] == (facts@[i as int].0@, facts@[i as int].1@));
        let mut w = facts[i].0.clone();
        w.append("에 우리 것이 아닌 파일/링크가 있어 지우지 않고 ");
        w.append(facts[i].1.as_str());
        w.append("로 백업한 뒤 링크를 만들었습니다.");
        assert(w@ == notes[i as int]);
        list.push(w);
        assert(texts(list@) == texts(was).push(w@));
        assert(notes.take(i + 1) == notes.take(i as int).push(notes[i as int]));
        i += 1;
        assert(texts(list@) == start + notes.take(i as int));
    }
    assert(notes.take(facts.len() as int) == notes);
}

fn push_unseen_notes(
    list: &mut Vec<String>,
    expected: &[(String, String)],
    facts: &Vec<(String, String)>,
)
    ensures
        texts(final(list)@) == texts(old(list)@) + unseen_notes(
            pair_texts(expected@),
            pair_texts(facts@),
        ),
{
    let mut i: usize = 0;
    let ghost all = pair_texts(expected@);
    let ghost ft = pair_texts(facts@);
    let ghost start = texts(list@);
    assert(start + unseen_notes(all.take(0), ft) == start);
    while i < expected.len()
        invariant
            i <= expected@.len(),
            all == pair_texts(expected@),
            ft == pair_texts(facts@),
            texts(list@) == start + unseen_notes(all.take(i as int), ft),
        decreases expected.len() - i,
    {
        let ghost was = list@;
        assert(all.take(i + 1).drop_last() == all.take(i as int));
        assert(all[i as int] == (expected@[i as int].0@, expected@[i as int].1@));
        if !crate::marks::holds_pair(facts, expected[i].0.as_str(), expected[i].1.as_str()) {
            let mut w = expected[i].0.clone();
            w.append("의 기존 파일을 ");
            w.append(expected[i].1.as_str());
            w.append("로 백업하려 했으나 백업본을 확인하지 못했습니다 — 'ls -l ");
            w.append(expected[i].0.as_str());
            w.append("'로 현재 상태를 직접 확인하세요.");
            list.push(w);
            assert(texts(list@) == texts(was).push(w@));
        }
        i += 1;
        assert(texts(list@) == start + unseen_notes(all.take(i as int), ft));
    }
    assert(all.take(expected@.len() as int) == all);
}

/// The report on an installation whose script ended well: the verdict of the
/// shell, and notes on every file moved away, on every expected backup that
/// was not seen, and on what shadows the links.
pub fn install_cli_to_path(
    plan: &CliInstallPlan,
    target_dir: &str,
    run: &ScriptRun,
    expected: &[(String, String)],
    present: &[String],
    probe: &ShadowProbe,
) -> (r: InstallCliReport)
    ensures
        ({
            let cys_link = target_dir@ + "/cys"@;
            let cysd_link = target_dir@ + "/cysd"@;
            let v = verdict_of(probe.cys@, cys_link, probe.shell_name@);
            let facts = backup_facts(*run, pair_texts(expected@), texts(present@));
            &&& r.ok == (v.status == "installed"@)
            &&& r.status@ == v.status
            &&& r.target_dir@ == target_dir@
            &&& r.cys_link@ == cys_link
            &&& r.cysd_link@ == cysd_link
            &&& r.source_cys@ == plan.cys_src@
            &&& opt_text(r.effective_cys) == v.effective_cys
            &&& opt_text(r.shadowed_by) == v.shadowed_by
            &&& opt_text(r.unverified_reason) == v.unverified_reason
            &&& texts(r.warnings@) == with_note(
                texts(plan.warnings@) + moved_notes(facts) + unseen_notes(
                    pair_texts(expected@),
                    facts,
                ) + v.warnings,
                cysd_note(probe.cys@, probe.cysd@, cysd_link, probe.shell_name@),
            )
        }),
{
    let mut cys_link = target_dir.to_owned();
    cys_link.append("/cys");
    let mut cysd_link = target_dir.to_owned();
    cysd_link.append("/cysd");
    let shell = probe.shell_name.as_str();
    let verdict = classify_install_status(&probe.cys, cys_link.as_str(), shell);
    let facts = known_backups(run, expected, present);
    let mut warnings: Vec<String> = Vec::new();
    assert(texts(warnings@) + texts(plan.warnings@) == texts(plan.warnings@));
    extend(&mut warnings, &plan.warnings);
    push_moved_notes(&mut warnings, &facts);
    push_unseen_notes(&mut warnings, expected, &facts);
    extend(&mut warnings, &verdict.warnings);
    push_note(
        &mut warnings,
        cysd_shadow_warning(&probe.cys, &probe.cysd, cysd_link.as_str(), shell),
    );
    InstallCliReport {
        ok: same_text(verdict.status, "installed"),
        status: verdict.status.to_owned(),
        target_dir: target_dir.to_owned(),
        cys_link,
        cysd_link,
        source_cys: plan.cys_src.clone(),
        effective_cys: verdict.effective_cys,
        shadowed_by: verdict.shadowed_by,
        unverified_reason: match verdict.unverified_reason {
            Some(s) => Some(s.to_owned()),
            None => None,
        },
        warnings,
    }
}

/// The report on how the links stand.
#[derive(Debug)]
pub struct CliInstallStatusReport {
    pub platform_supported: bool,
    pub installed: bool,
    pub state: String,
    pub cys_link: String,
    pub cysd_link: String,
    pub notes: Vec<String>,
    pub backups: Vec<String>,
}

/// The target of a link in words.
pub open spec fn target_shown(p: LinkProbe) -> Seq<char> {
    match p.link_target {
        Some(t) => t@,
        None => "대상 읽기 실패"@,
    }
}

/// The target of a link in words.
pub fn shown_target(p: &LinkProbe) -> (r: String)
    ensures
        r@ == target_shown(*p),
{
    match &p.link_target {
        Some(t) => t.clone(),
        None => "대상 읽기 실패".to_owned(),
    }
}

/// A note for each place at which something foreign stands.
pub open spec fn foreign_notes(probes: Seq<LinkProbe>) -> Seq<Seq<char>>
    decreases probes.len(),
{
    if probes.len() == 0 {
        Seq::empty()
    } else {
        let head = foreign_notes(probes.drop_last());
        let p = probes.last();
        match action_for(p) {
            UninstallAction::SkipNotSymlink => head.push(
                p.path@
                    + " — 심볼릭이 아닌 실제 파일이 이미 있습니다(다른 도구 설치본일 수 있어 자동으로 제거하지 않습니다)."@,
            ),
            UninstallAction::SkipForeignTarget => head.push(
                p.path@ + " — cys.app 번들 밖("@ + target_shown(p)
                    + ")을 가리키는 링크입니다."@,
            ),
            _ => head,
        }
    }
}

fn foreign_note_list(probes: &[LinkProbe]) -> (r: Vec<String>)
    ensures
        texts(r@) == foreign_notes(probes@),
{
    let mut out: Vec<String> = Vec::new();
    let mut i: usize = 0;
    assert(texts(out@) == foreign_notes(probes@.take(0)));
    while i < probes.len()
        invariant
            i <= probes@.len(),
            texts(out@) == foreign_notes(probes@.take(i as int)),
        decreases probes.len() - i,
    {
        let ghost was = out@;
        assert(probes@.take(i + 1).drop_last() == probes@.take(i as int));
        match decide_cli_uninstall(&probes[i]) {
            UninstallAction::SkipNotSymlink => {
                let mut w = probes[i].path.clone();
                w.append(
                    " — 심볼릭이 아닌 실제 파일이 이미 있습니다(다른 도구 설치본일 수 있어 자동으로 제거하지 않습니다).",
                );
                out.push(w);
                assert(texts(out@) == texts(was).push(w@));
            },
            UninstallAction::SkipForeignTarget => {
                let mut w = probes[i].path.clone();
                w.append(" — cys.app 번들 밖(");
                w.append(shown_target(&probes[i]).as_str());
                w.append(")을 가리키는 링크입니다.");
                out.push(w);
                assert(texts(out@) == texts(was).push(w@));
            },
            _ => {},
        }
        i += 1;
    }
    assert(probes@.take(probes@.len() as int) == probes@);
    out
}

/// The name of a state.
pub open spec fn state_name(s: CliLinkState) -> Seq<char> {
    match s {
        CliLinkState::Absent => "absent"@,
        CliLinkState::Ours => "ours"@,
        CliLinkState::Partial => "partial"@,
        CliLinkState::Foreign => "foreign"@,
    }
}

/// At least one link is ours: what a shell finds is then worth asking.
pub open spec fn some_ours(s: CliLinkState) -> bool {
    s == CliLinkState::Ours || s == CliLinkState::Partial
}

/// Whether removing has something to remove, and whether to ask the shell.
pub fn links_installed(state: CliLinkState) -> (r: bool)
    ensures
        r == some_ours(state),
{
    matches!(state, CliLinkState::Ours | CliLinkState::Partial)
}

/// The notes on what shadows the links, where the shell was asked.
pub open spec fn shadow_notes(
    state: CliLinkState,
    probe: Option<&ShadowProbe>,
    cys_link: Seq<char>,
    cysd_link: Seq<char>,
) -> Seq<Seq<char>> {
    match probe {
        Some(p) => if some_ours(state) {
            with_note(
                with_note(
                    Seq::empty(),
                    shadow_note(p.cys@, cys_link, "cys"@, p.shell_name@),
                ),
                cysd_note(p.cys@, p.cysd@, cysd_link, p.shell_name@),
            )
        } else {
            Seq::empty()
        },
        None => Seq::empty(),
    }
}

/// The report on a platform that has no such links.
pub fn cli_install_status_unsupported(target_dir: &str) -> (r: CliInstallStatusReport)
    ensures
        !r.platform_supported,
        !r.installed,
        r.state@ == "unsupported"@,
        r.cys_link@ == target_dir@ + "/cys"@,
        r.cysd_link@ == target_dir@ + "/cysd"@,
        r.notes@.len() == 0,
        r.backups@.len() == 0,
{
    let mut cys_link = target_dir.to_owned();
    cys_link.append("/cys");
    let mut cysd_link = target_dir.to_owned();
    cysd_link.append("/cysd");
    CliInstallStatusReport {
        platform_supported: false,
        installed: false,
        state: "unsupported".to_owned(),
        cys_link,
        cysd_link,
        notes: Vec::new(),
        backups: Vec::new(),
    }
}

/// The report on how the links stand: the state, a note for everything foreign,
/// what shadows the links, and the backups that are left.
pub fn cli_install_status(
    target_dir: &str,
    probes: &[LinkProbe],
    shadow: Option<&ShadowProbe>,
    backups: Vec<String>,
) -> (r: CliInstallStatusReport)
    ensures
        r.platform_supported,
        r.installed == some_ours(link_state(probes@)),
        r.state@ == state_name(link_state(probes@)),
        r.cys_link@ == target_dir@ + "/cys"@,
        r.cysd_link@ == target_dir@ + "/cysd"@,
        texts(r.notes@) == foreign_notes(probes@) + shadow_notes(
            link_state(probes@),
            shadow,
            r.cys_link@,
            r.cysd_link@,
        ),
        r.backups == backups,
{
    let mut cys_link = target_dir.to_owned();
    cys_link.append("/cys");
    let mut cysd_link = target_dir.to_owned();
    cysd_link.append("/cysd");
    let state = classify_cli_links(probes);
    let mut notes = foreign_note_list(probes);
    let ghost start = texts(notes@);
    if links_installed(state) {
        if let Some(p) = shadow {
            let shell = p.shell_name.as_str();
            push_note(&mut notes, path_shadow_note(&p.cys, cys_link.as_str(), "cys", shell));
            push_note(
                &mut notes,
                cysd_shadow_warning(&p.cys, &p.cysd, cysd_link.as_str(), shell),
            );
        }
    }
    assert(texts(notes@) == start + shadow_notes(
        link_state(probes@),
        shadow,
        cys_link@,
        cysd_link@,
    ));
    let name = match state {
        CliLinkState::Absent => "absent",
        CliLinkState::Ours => "ours",
        CliLinkState::Partial => "partial",
        CliLinkState::Foreign => "foreign",
    };
    CliInstallStatusReport {
        platform_supported: true,
        installed: links_installed(state),
        state: name.to_owned(),
        cys_link,
        cysd_link,
        notes,
        backups,
    }
}

/// What the verdict says of the shell is what the measurement gave: the program
/// that the shell finds first is the one in effect, and it shadows the link exactly
/// where it is another one, slashes aside. Nothing found is told apart from nothing
/// measured, and a warning names the shell and what stands in the way.
pub proof fn law_verdict_follows_the_measurement(
    entries: Seq<Seq<char>>,
    reason: Seq<char>,
    target: Seq<char>,
    shell: Seq<char>,
)
    ensures
        entries.len() > 0 ==> {
            let v = verdict_of(ProbeFacts::Completed(entries), target, shell);
            &&& v.effective_cys == Some(entries[0])
            &&& v.shadowed_by == (if normalized(entries[0]) == normalized(target) {
                None
            } else {
                Some(entries[0])
            })
            &&& v.unverified_reason is None
            &&& normalized(entries[0]) != normalized(target) ==> v.warnings.len() == 1
                && contains_text(v.warnings[0], entries[0]) && contains_text(v.warnings[0], target)
                && contains_text(v.warnings[0], shell)
        },
        entries.len() == 0 ==> {
            let v = verdict_of(ProbeFacts::Completed(entries), target, shell);
            &&& v.status == "unverified"@
            &&& v.unverified_reason == Some("not_on_path"@)
            &&& v.effective_cys is None
            &&& v.shadowed_by is None
            &&& v.warnings.len() == 1 && contains_text(v.warnings[0], target) && contains_text(
                v.warnings[0],
                shell,
            )
        },
        ({
            let v = verdict_of(ProbeFacts::Unmeasured(reason), target, shell);
            &&& v.status == "unverified"@
            &&& v.unverified_reason == Some("probe_failed"@)
            &&& v.effective_cys is None
            &&& v.shadowed_by is None
            &&& v.warnings.len() == 1 && contains_text(v.warnings[0], reason) && contains_text(
                v.warnings[0],
                shell,
            )
        }),
{
    if entries.len() == 0 {
        lemma_nothing_found_is_told(entries, target, shell);
    } else if normalized(entries[0]) != normalized(target) {
        lemma_shadow_is_told(entries, target, shell);
    }
    lemma_failed_measurement_is_told(reason, target, shell);
}

proof fn lemma_shadow_is_told(entries: Seq<Seq<char>>, target: Seq<char>, shell: Seq<char>)
    requires
        entries.len() > 0,
        normalized(entries[0]) != normalized(target),
    ensures
        ({
            let w = verdict_of(ProbeFacts::Completed(entries), target, shell).warnings[0];
            contains_text(w, entries[0]) && contains_text(w, target) && contains_text(w, shell)
        }),
{
    let a = "PATH 확인 결과: 심볼릭은 만들었지만 로그인 셸("@;
    let b = ") PATH 앞쪽의 다른 cys가 우선합니다: "@;
    let c = ". 새 터미널에서 'cys'를 치면 "@;
    let d = "가 아니라 그쪽이 실행됩니다 — 그 파일을 지우거나 PATH에서 /usr/local/bin을 앞으로 옮긴 뒤 다시 확인하세요."@;
    let e = entries[0];
    let w = a + shell + b + e + c + target + d;
    assert(contains_text(w, shell)) by {
        crate::text::lemma_text_holds(a, shell, b + e + c + target + d);
        assert(w =~= (a) + shell + (b + e + c + target + d));
    }
    assert(contains_text(w, e)) by {
        crate::text::lemma_text_holds(a + shell + b, e, c + target + d);
        assert(w =~= (a + shell + b) + e + (c + target + d));
    }
    assert(contains_text(w, target)) by {
        crate::text::lemma_text_holds(a + shell + b + e + c, target, d);
        assert(w =~= (a + shell + b + e + c) + target + (d));
    }
}

proof fn lemma_nothing_found_is_told(entries: Seq<Seq<char>>, target: Seq<char>, shell: Seq<char>)
    requires
        entries.len() == 0,
    ensures
        ({
            let w = verdict_of(ProbeFacts::Completed(entries), target, shell).warnings[0];
            contains_text(w, target) && contains_text(w, shell)
        }),
{
    let a = "PATH 확인 결과: 검증 명령은 정상 실행됐지만 로그인 셸("@;
    let b = ") PATH에서 cys를 찾지 못했습니다(PATH에 "@;
    let c = "의 폴더가 없을 수 있습니다)."@;
    let w = a + shell + b + target + c;
    assert(contains_text(w, shell)) by {
        crate::text::lemma_text_holds(a, shell, b + target + c);
        assert(w =~= (a) + shell + (b + target + c));
    }
    assert(contains_text(w, target)) by {
        crate::text::lemma_text_holds(a + shell + b, target, c);
        assert(w =~= (a + shell + b) + target + (c));
    }
}

proof fn lemma_failed_measurement_is_told(reason: Seq<char>, target: Seq<char>, shell: Seq<char>)
    ensures
        ({
            let w = verdict_of(ProbeFacts::Unmeasured(reason), target, shell).warnings[0];
            contains_text(w, reason) && contains_text(w, shell)
        }),
{
    let a = "PATH 확인 실패: 심볼릭은 만들었지만 로그인 셸("@;
    let b = ")로 'which -a cys'를 실행하지 못했습니다: "@;
    let c = ". 새 터미널에서 'which -a cys'로 직접 확인하세요."@;
    let w = a + shell + b + reason + c;
    assert(contains_text(w, shell)) by {
        crate::text::lemma_text_holds(a, shell, b + reason + c);
        assert(w =~= (a) + shell + (b + reason + c));
    }
    assert(contains_text(w, reason)) by {
        crate::text::lemma_text_holds(a + shell + b, reason, c);
        assert(w =~= (a + shell + b) + reason + (c));
    }
}

/// A refusal follows the kind of the bundle, and where the place is at fault it
/// names the bundle.
pub proof fn law_refusal_names_the_bundle(dir: Seq<char>, home: Seq<char>)
    ensures
        bundle_kind(dir) == BundleKind::NonStandard || (bundle_kind(dir) == BundleKind::Canonical
            && !strictly_installed(dir, home)) ==> (install_refusal(dir, home) matches Some(e)
            && contains_text(e, bundle_shown(dir))),
        bundle_kind(dir) == BundleKind::Translocated ==> install_refusal(dir, home) == Some(
            "cys.app이 Gatekeeper에 의해 임시 위치에서 실행 중입니다. Finder에서 cys.app을 Applications 폴더로 옮긴 뒤 다시 열고 시도하세요."@,
        ),
        bundle_kind(dir) == BundleKind::Backup ==> install_refusal(dir, home) == Some(
            "백업 번들에서 실행 중입니다. 정규 cys.app(Applications)에서 실행한 뒤 시도하세요."@,
        ),
        grandparent_of(dir) matches Some(b) ==> bundle_shown(dir) == b,
        grandparent_of(dir) is None ==> bundle_shown(dir) == dir,
{
    let s = bundle_shown(dir);
    if bundle_kind(dir) == BundleKind::NonStandard {
        crate::text::lemma_text_holds(
            "cys.app이 표준 위치(Applications)가 아닌 곳에서 실행 중입니다: "@,
            s,
            "\nFinder에서 cys.app을 Applications 폴더로 옮긴 뒤 다시 열고 시도하세요."@,
        );
    } else {
        crate::text::lemma_text_holds(
            "cys.app이 표준 Applications 폴더가 아닌 곳에서 실행 중입니다: "@,
            s,
            "\n정확히 /Applications 또는 홈 폴더의 Applications 안에 있는 cys.app에서만 설치할 수 있습니다. Finder에서 cys.app을 Applications 폴더로 옮긴 뒤 다시 열고 시도하세요."@,
        );
    }
}

/// A note on `cysd` is given exactly where it was measured, was not found in its
/// place, and the note on `cys` does not say the same already. It names what stands
/// in front, and the place.
pub proof fn law_note_on_the_daemon(
    cys: ProbeFacts,
    cysd: ProbeFacts,
    target: Seq<char>,
    shell: Seq<char>,
)
    ensures
        cysd_note(cys, cysd, target, shell) is Some <==> (cysd matches ProbeFacts::Completed(e) && (
        if e.len() == 0 {
            !(cys matches ProbeFacts::Completed(c) && c.len() == 0)
        } else {
            normalized(e[0]) != normalized(target)
        })),
        cysd_note(cys, cysd, target, shell) matches Some(n) ==> contains_text(n, target)
            && contains_text(n, shell) && (cysd matches ProbeFacts::Completed(e) && (e.len() > 0
            ==> contains_text(n, e[0]))),
{
    if let ProbeFacts::Completed(e) = cysd {
        if let Some(n) = cysd_note(cys, cysd, target, shell) {
            let a = "cysd 확인 결과: 로그인 셸("@;
            if e.len() == 0 {
                let b = ") PATH에서 cysd를 찾지 못했습니다(PATH에 "@;
                let c = "의 폴더가 없을 수 있습니다)."@;
                assert(contains_text(n, shell)) by {
                    crate::text::lemma_text_holds(a, shell, b + target + c);
                    assert(n =~= (a) + shell + (b + target + c));
                }
                assert(contains_text(n, target)) by {
                    crate::text::lemma_text_holds(a + shell + b, target, c);
                    assert(n =~= (a + shell + b) + target + (c));
                }
            } else {
                let f = e[0];
                let b = ") PATH 앞쪽의 다른 cysd가 우선합니다: "@;
                let d = "가 아니라 그쪽이 실행되므로 데몬 버전이 어긋날 수 있습니다."@;
                assert(contains_text(n, shell)) by {
                    crate::text::lemma_text_holds(a, shell, b + f + ". "@ + target + d);
                    assert(n =~= (a) + shell + (b + f + ". "@ + target + d));
                }
                assert(contains_text(n, f)) by {
                    crate::text::lemma_text_holds(a + shell + b, f, ". "@ + target + d);
                    assert(n =~= (a + shell + b) + f + (". "@ + target + d));
                }
                assert(contains_text(n, target)) by {
                    crate::text::lemma_text_holds(a + shell + b + f + ". "@, target, d);
                    assert(n =~= (a + shell + b + f + ". "@) + target + (d));
                }
            }
        }
    }
}

/// A program that the shell finds in its place is passed over in silence, and
/// only that; what is found in front of it, and why nothing could be measured, is
/// named.
pub proof fn law_only_a_found_target_is_silent(
    probe: ProbeFacts,
    target: Seq<char>,
    name: Seq<char>,
    shell: Seq<char>,
)
    ensures
        shadow_note(probe, target, name, shell) is None <==> (probe matches ProbeFacts::Completed(
            e,
        ) && e.len() > 0 && normalized(e[0]) == normalized(target)),
        shadow_note(probe, target, name, shell) matches Some(n) ==> contains_text(n, name) && (
        match probe {
            ProbeFacts::Completed(e) => contains_text(n, target) && (e.len() > 0 ==> contains_text(
                n,
                e[0],
            )),
            ProbeFacts::Unmeasured(reason) => contains_text(n, reason),
        }),
{
    if let Some(n) = shadow_note(probe, target, name, shell) {
        match probe {
            ProbeFacts::Completed(e) => {
                if e.len() == 0 {
                    lemma_missing_program_is_told(n, target, name, shell);
                } else {
                    lemma_program_in_front_is_told(n, e[0], target, name, shell);
                }
            },
            ProbeFacts::Unmeasured(reason) => {
                let a = "PATH 확인 실패: 로그인 셸("@;
                let b = ")로 'which -a "@;
                let c = "'를 실행하지 못했습니다: "@;
                assert(contains_text(n, name)) by {
                    crate::text::lemma_text_holds(a + shell + b, name, c + reason + "."@);
                    assert(n =~= (a + shell + b) + name + (c + reason + "."@));
                }
                assert(contains_text(n, reason)) by {
                    crate::text::lemma_text_holds(a + shell + b + name + c, reason, "."@);
                    assert(n =~= (a + shell + b + name + c) + reason + ("."@));
                }
            },
        }
    }
}

proof fn lemma_missing_program_is_told(
    n: Seq<char>,
    target: Seq<char>,
    name: Seq<char>,
    shell: Seq<char>,
)
    requires
        n == name + " 확인 결과: 로그인 셸("@ + shell + ") PATH에서 "@ + name
            + "를 찾지 못했습니다(PATH에 "@ + target + "의 폴더가 없을 수 있습니다)."@,
    ensures
        contains_text(n, name),
        contains_text(n, target),
{
    let a = " 확인 결과: 로그인 셸("@;
    let b = ") PATH에서 "@;
    let c = "를 찾지 못했습니다(PATH에 "@;
    let d = "의 폴더가 없을 수 있습니다)."@;
    assert(contains_text(n, name)) by {
        crate::text::lemma_text_holds(name + a + shell + b, name, c + target + d);
        assert(n =~= (name + a + shell + b) + name + (c + target + d));
    }
    assert(contains_text(n, target)) by {
        crate::text::lemma_text_holds(name + a + shell + b + name + c, target, d);
        assert(n =~= (name + a + shell + b + name + c) + target + (d));
    }
}

proof fn lemma_program_in_front_is_told(
    n: Seq<char>,
    found: Seq<char>,
    target: Seq<char>,
    name: Seq<char>,
    shell: Seq<char>,
)
    requires
        n == name + " 확인 결과: 로그인 셸("@ + shell + ") PATH 앞쪽의 다른 "@ + name
            + "가 우선합니다: "@ + found + ". 새 터미널에서 '"@ + name + "'를 치면 "@ + target
            + "가 아니라 그쪽이 실행됩니다."@,
    ensures
        contains_text(n, name),
        contains_text(n, target),
        contains_text(n, found),
{
    let a = " 확인 결과: 로그인 셸("@;
    let b = ") PATH 앞쪽의 다른 "@;
    let c = "가 우선합니다: "@;
    let d = ". 새 터미널에서 '"@;
    let f = "'를 치면 "@;
    let g = "가 아니라 그쪽이 실행됩니다."@;
    assert(contains_text(n, name)) by {
        crate::text::lemma_text_holds(name + a + shell + b, name, c + found + d + name + f + target + g);
        assert(n =~= (name + a + shell + b) + name + (c + found + d + name + f + target + g));
    }
    assert(contains_text(n, found)) by {
        crate::text::lemma_text_holds(name + a + shell + b + name + c, found, d + name + f + target + g);
        assert(n =~= (name + a + shell + b + name + c) + found + (d + name + f + target + g));
    }
    assert(contains_text(n, target)) by {
        crate::text::lemma_text_holds(name + a + shell + b + name + c + found + d + name + f, target, g);
        assert(n =~= (name + a + shell + b + name + c + found + d + name + f) + target + (g));
    }
}

proof fn lemma_moved_line_occurs(found: Seq<(Seq<char>, Seq<char>)>, i: int)
    requires
        0 <= i < found.len(),
    ensures
        contains_text(moved_lines(found), "\n  · "@ + found[i].0 + " → "@ + found[i].1),
    decreases found.len(),
{
    let line = "\n  · "@ + found[i].0 + " → "@ + found[i].1;
    let none = Seq::<char>::empty();
    let head = moved_lines(found.drop_last());
    let last = "\n  · "@ + found.last().0 + " → "@ + found.last().1;
    assert(moved_lines(found) =~= head + last);
    if i == found.len() - 1 {
        crate::text::lemma_text_holds(head, line, none);
        assert(head + line + none =~= head + last);
    } else {
        lemma_moved_line_occurs(found.drop_last(), i);
        crate::text::lemma_part_holds(none, head, last, line);
        assert(none + head + last =~= head + last);
    }
}

/// A failed installation is told with its reason in front, alone where nothing
/// was moved; otherwise every file that was moved stands on a line of its own, with
/// the place it was moved to, in order.
pub proof fn law_failure_names_every_moved_file(
    base: Seq<char>,
    found: Seq<(Seq<char>, Seq<char>)>,
    more: (Seq<char>, Seq<char>),
)
    ensures
        install_failure_text(base, Seq::empty()) == base,
        crate::text::begins_with(install_failure_text(base, found), base),
        forall|i: int|
            0 <= i < found.len() ==> contains_text(
                install_failure_text(base, found),
                "\n  · "@ + (#[trigger] found[i]).0 + " → "@ + found[i].1,
            ),
        found.len() > 0 ==> install_failure_text(base, found.push(more)) == install_failure_text(
            base,
            found,
        ) + ("\n  · "@ + more.0 + " → "@ + more.1),
{
    let text = install_failure_text(base, found);
    let title = "\n\n※ 실패 전에 이미 옮겨진 파일이 있습니다 — 그대로 두면 안 됩니다:"@;
    assert(text.subrange(0, base.len() as int) =~= base);
    assert forall|i: int| 0 <= i < found.len() implies contains_text(
        text,
        "\n  · "@ + (#[trigger] found[i]).0 + " → "@ + found[i].1,
    ) by {
        let line = "\n  · "@ + found[i].0 + " → "@ + found[i].1;
        lemma_moved_line_occurs(found, i);
        let none = Seq::<char>::empty();
        crate::text::lemma_part_holds(base + title, moved_lines(found), none, line);
        assert(text =~= (base + title) + moved_lines(found) + none);
    }
    assert(found.push(more).drop_last() =~= found);
    if found.len() > 0 {
        assert(install_failure_text(base, found.push(more)) =~= text + ("\n  · "@ + more.0 + " → "@
            + more.1));
    }
}

/// A backup is known exactly where the script reported it or it was expected and
/// is there, and each is named once.
pub proof fn law_backups_are_known_from_both_sources(
    run: ScriptRun,
    expected: Seq<(Seq<char>, Seq<char>)>,
    present: Seq<Seq<char>>,
)
    ensures
        ({
            let r = backup_facts(run, expected, present);
            &&& r.no_duplicates()
            &&& forall|p: (Seq<char>, Seq<char>)| #[trigger]
                r.contains(p) <==> marked_pairs(run.said_text(), "CYS-BACKED-UP:"@).contains(p) || (
                expected.contains(p) && present.contains(p.1))
        }),
{
    let said = marked_pairs(run.said_text(), BACKUP_MARK@);
    let seen = with_present_backup(expected, present);
    let both = said + seen;
    crate::marks::law_unique(both);
    crate::backup::law_present_backups_are_seen(expected, present);
    assert forall|p: (Seq<char>, Seq<char>)| #[trigger] backup_facts(
        run,
        expected,
        present,
    ).contains(p) <==> said.contains(p) || (expected.contains(p) && present.contains(p.1)) by {
        assert(unique(both).contains(p) <==> both.contains(p));
        assert(seen.contains(p) <==> expected.contains(p) && present.contains(p.1));
        if both.contains(p) {
            let i = choose|i: int| 0 <= i < both.len() && both[i] == p;
            if i < said.len() {
                assert(said[i] == p);
            } else {
                assert(seen[i - said.len()] == p);
            }
        }
        if said.contains(p) {
            let i = choose|i: int| 0 <= i < said.len() && said[i] == p;
            assert(both[i] == p);
        }
        if seen.contains(p) {
            let i = choose|i: int| 0 <= i < seen.len() && seen[i] == p;
            assert(both[said.len() + i] == p);
        }
    }
}

/// Every file that was moved has a note that names it and its backup. An expected
/// backup that is not known has a note too, and only such a one.
pub proof fn law_backups_are_noted(
    expected: Seq<(Seq<char>, Seq<char>)>,
    facts: Seq<(Seq<char>, Seq<char>)>,
)
    ensures
        moved_notes(facts).len() == facts.len(),
        forall|i: int|
            0 <= i < facts.len() ==> #[trigger] moved_notes(facts)[i] == facts[i].0
                + "에 우리 것이 아닌 파일/링크가 있어 지우지 않고 "@ + facts[i].1
                + "로 백업한 뒤 링크를 만들었습니다."@,
        unseen_notes(expected, facts) == expected.filter(
            |p: (Seq<char>, Seq<char>)| !facts.contains(p),
        ).map_values(
            |p: (Seq<char>, Seq<char>)|
                p.0 + "의 기존 파일을 "@ + p.1
                    + "로 백업하려 했으나 백업본을 확인하지 못했습니다 — 'ls -l "@ + p.0
                    + "'로 현재 상태를 직접 확인하세요."@,
        ),
    decreases expected.len(),
{
    reveal(Seq::filter);
    if expected.len() > 0 {
        law_backups_are_noted(expected.drop_last(), facts);
    }
    assert(unseen_notes(expected, facts) =~= expected.filter(
        |p: (Seq<char>, Seq<char>)| !facts.contains(p),
    ).map_values(
        |p: (Seq<char>, Seq<char>)|
            p.0 + "의 기존 파일을 "@ + p.1
                + "로 백업하려 했으나 백업본을 확인하지 못했습니다 — 'ls -l "@ + p.0
                + "'로 현재 상태를 직접 확인하세요."@,
    ));
}

/// A prompt counts as dismissed exactly where the error output holds one of the
/// two marks of that; what a script said is both of its outputs, each on lines of its
/// own.
pub proof fn law_what_a_script_said(run: ScriptRun)
    ensures
        run.was_canceled() <==> contains_text(run.error_text(), "-128"@) || contains_text(
            run.error_text(),
            "User canceled"@,
        ),
        run.error_text() == joined(script_lines(run.stderr@), "\n"@),
        crate::text::begins_with(run.said_text(), run.stdout@),
        crate::text::finishes_with(run.said_text(), run.stderr@),
        run.said_text().len() == run.stdout@.len() + 1 + run.stderr@.len(),
        run.said_text()[run.stdout@.len() as int] == '\n',
{
    reveal_strlit("\n");
    assert("\n"@.len() == 1 && "\n"@[0] == '\n');
    let s = run.said_text();
    let n = run.stdout@.len() as int;
    assert(s.subrange(0, n) =~= run.stdout@);
    assert(s.subrange(n + 1, s.len() as int) =~= run.stderr@);
}

/// Each place with something foreign has a note that begins with its path, and
/// no other place has one.
pub proof fn law_foreign_places_are_noted(probes: Seq<LinkProbe>)
    ensures
        ({
            let foreign = probes.filter(|p: LinkProbe| crate::links::foreign_at(p));
            &&& foreign_notes(probes).len() == foreign.len()
            &&& forall|i: int|
                0 <= i < foreign.len() ==> #[trigger] foreign_notes(probes)[i] == foreign[i].path@
                    + (if foreign[i].is_symlink {
                    " — cys.app 번들 밖("@ + target_shown(foreign[i]) + ")을 가리키는 링크입니다."@
                } else {
                    " — 심볼릭이 아닌 실제 파일이 이미 있습니다(다른 도구 설치본일 수 있어 자동으로 제거하지 않습니다)."@
                })
        }),
    decreases probes.len(),
{
    reveal(Seq::filter);
    if probes.len() > 0 {
        let u = probes.drop_last();
        law_foreign_places_are_noted(u);
        let w = |p: LinkProbe| crate::links::foreign_at(p);
        let (fu, f) = (u.filter(w), probes.filter(w));
        assert forall|i: int| 0 <= i < f.len() implies #[trigger] foreign_notes(probes)[i]
            == f[i].path@ + (if f[i].is_symlink {
            " — cys.app 번들 밖("@ + target_shown(f[i]) + ")을 가리키는 링크입니다."@
        } else {
            " — 심볼릭이 아닌 실제 파일이 이미 있습니다(다른 도구 설치본일 수 있어 자동으로 제거하지 않습니다)."@
        }) by {
            if i < fu.len() {
                assert(foreign_notes(probes)[i] == foreign_notes(u)[i]);
            } else {
                let p = probes.last();
                assert(p.path@ + " — cys.app 번들 밖("@ + target_shown(p)
                    + ")을 가리키는 링크입니다."@ =~= p.path@ + (" — cys.app 번들 밖("@
                    + target_shown(p) + ")을 가리키는 링크입니다."@));
            }
        }
    }
}

/// Each state has a name of its own, and the target of a link is shown as it is
/// read.
pub proof fn law_state_names(s: CliLinkState, p: LinkProbe)
    ensures
        state_name(s) == "absent"@ <==> s == CliLinkState::Absent,
        state_name(s) == "ours"@ <==> s == CliLinkState::Ours,
        state_name(s) == "partial"@ <==> s == CliLinkState::Partial,
        state_name(s) == "foreign"@ <==> s == CliLinkState::Foreign,
        some_ours(s) <==> s != CliLinkState::Absent && s != CliLinkState::Foreign,
        p.link_target matches Some(t) ==> target_shown(p) == t@,
        p.link_target is None ==> target_shown(p) == "대상 읽기 실패"@,
{
    reveal_strlit("absent");
    reveal_strlit("ours");
    reveal_strlit("partial");
    reveal_strlit("foreign");
    assert("absent"@[0] == 'a');
    assert("ours"@[0] == 'o');
    assert("partial"@[0] == 'p');
    assert("foreign"@[0] == 'f');
}

/// What the shell finds is noted exactly where it was asked and a link is ours:
/// first of `cys`, then of `cysd`, each where there is something to note.
pub proof fn law_shadows_are_noted_for_our_links(
    state: CliLinkState,
    probe: &ShadowProbe,
    cys_link: Seq<char>,
    cysd_link: Seq<char>,
)
    ensures
        !some_ours(state) ==> shadow_notes(state, Some(probe), cys_link, cysd_link).len() == 0,
        shadow_notes(state, None, cys_link, cysd_link).len() == 0,
        some_ours(state) ==> {
            let notes = shadow_notes(state, Some(probe), cys_link, cysd_link);
            let a = shadow_note(probe.cys@, cys_link, "cys"@, probe.shell_name@);
            let b = cysd_note(probe.cys@, probe.cysd@, cysd_link, probe.shell_name@);
            &&& a is None && b is None ==> notes.len() == 0
            &&& a matches Some(n) ==> notes.len() > 0 && notes[0] == n
            &&& b matches Some(n) ==> notes.len() > 0 && notes.last() == n
            &&& notes.len() <= 2
            &&& notes.len() == 2 <==> a is Some && b is Some
        },
{
}

} // verus!
