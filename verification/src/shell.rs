//! Quoting for the shell and for AppleScript, and the two scripts that run
//! with administrator rights.

use vstd::prelude::*;

use crate::backup::backup_path_for;
use crate::backup::backup_path;
use crate::bundle::normalized;
use crate::text::{join, replace};
use crate::text::{begins_with, contains_text, finishes_with, joined, pair_texts, replaced, split_on, texts};

verus! {

pub const SCRIPT_PATH_PRELUDE: &'static str = "export PATH=/usr/bin:/bin:/usr/sbin:/sbin; ";

pub const BUNDLE_LINK_SUFFIX_CYS: &'static str = "/cys.app/Contents/MacOS/cys";

pub const BUNDLE_LINK_SUFFIX_CYSD: &'static str = "/cys.app/Contents/MacOS/cysd";

pub const BUNDLE_LINK_PATTERN: &'static str = "*/cys.app/Contents/MacOS/cys|*/cys.app/Contents/MacOS/cysd";

pub const SHELL_PATH_NORMALIZER: &'static str = "/usr/bin/sed -e 's|//*|/|g' -e 's|\\(.\\)/$|\\1|'";

pub const BACKUP_MARK: &'static str = "CYS-BACKED-UP:";

pub const BACKUP_COLLIDE_MSG: &'static str = "중단: 백업 이름이 이미 있습니다 — ";

pub const RESTORE_MARK: &'static str = "CYS-RESTORED:";

/// `s` as one word of the shell, in single quotes.
pub open spec fn sh_quoted(s: Seq<char>) -> Seq<char> {
    "'"@ + replaced(s, '\'', "'\\''"@) + "'"@
}

/// `s` as a string literal of AppleScript.
pub open spec fn applescript_quoted(s: Seq<char>) -> Seq<char> {
    "\""@ + replaced(replaced(s, '\\', "\\\\"@), '"', "\\\""@) + "\""@
}

/// The AppleScript command that runs `script` with administrator rights.
pub open spec fn elevated(script: Seq<char>) -> Seq<char> {
    "do shell script "@ + applescript_quoted(script) + " with administrator privileges"@
}

/// `s` as one word of the shell.
pub fn sh_squote(s: &str) -> (r: String)
    ensures
        r@ == sh_quoted(s@),
{
    let mut out = "'".to_owned();
    out.append(replace(s, '\'', "'\\''").as_str());
    out.append("'");
    out
}

/// `s` as a string literal of AppleScript.
pub fn applescript_str(s: &str) -> (r: String)
    ensures
        r@ == applescript_quoted(s@),
{
    let mut out = "\"".to_owned();
    out.append(replace(replace(s, '\\', "\\\\").as_str(), '"', "\\\"").as_str());
    out.append("\"");
    out
}

/// The AppleScript command that runs `script` with administrator rights.
pub fn elevate(script: &str) -> (r: String)
    ensures
        r@ == elevated(script@),
{
    let mut out = "do shell script ".to_owned();
    out.append(applescript_str(script).as_str());
    out.append(" with administrator privileges");
    out
}

/// The notice that a backup name is taken.
pub open spec fn collide_notice(dst: Seq<char>, bak: Seq<char>) -> Seq<char> {
    BACKUP_COLLIDE_MSG@ + bak + " (그 자리의 "@ + dst
        + " 는 그대로 두었습니다. 1초 뒤 다시 시도하세요)"@
}

/// The script step that links `dst` to `src`. Whatever stands at `dst` and is
/// not a link into the bundle is moved to the backup name first, never over
/// an existing file, and reported with the backup mark.
pub open spec fn link_step(src: Seq<char>, dst: Seq<char>, stamp: Seq<char>) -> Seq<char> {
    let bak = backup_path(dst, stamp);
    let d = sh_quoted(dst);
    let b = sh_quoted(bak);
    "if [ -e "@ + d + " ] || [ -L "@ + d + " ]; then _cys_bak=1; if [ -L "@ + d
        + " ]; then _cys_t=$(/usr/bin/readlink "@ + d + " | "@ + SHELL_PATH_NORMALIZER@
        + "); case \"$_cys_t\" in "@ + BUNDLE_LINK_PATTERN@
        + ") _cys_bak=0;; esac; fi; if [ \"$_cys_bak\" = 1 ]; then if [ -e "@ + b + " ] || [ -L "@
        + b + " ]; then echo "@ + sh_quoted(collide_notice(dst, bak))
        + " >&2; exit 1; fi; /bin/mv "@ + d + " "@ + b + " && echo "@ + sh_quoted(
        BACKUP_MARK@ + dst + ":"@ + bak,
    ) + "; fi; fi && /bin/ln -sfn "@ + sh_quoted(src) + " "@ + d
}

/// The script that installs both links in `target_dir`.
pub open spec fn install_script(
    cys: Seq<char>,
    cysd: Seq<char>,
    target_dir: Seq<char>,
    stamp: Seq<char>,
) -> Seq<char> {
    SCRIPT_PATH_PRELUDE@ + "/bin/mkdir -p "@ + sh_quoted(target_dir) + " && "@ + link_step(
        cys,
        target_dir + "/cys"@,
        stamp,
    ) + " && "@ + link_step(cysd, target_dir + "/cysd"@, stamp)
}

/// The script step that removes `path` where it is a link into the bundle.
pub open spec fn remove_step(path: Seq<char>) -> Seq<char> {
    let q = sh_quoted(path);
    "if [ -L "@ + q + " ]; then _cys_t=$(/usr/bin/readlink "@ + q + " | "@ + SHELL_PATH_NORMALIZER@
        + "); case \"$_cys_t\" in "@ + BUNDLE_LINK_PATTERN@ + ") /bin/rm -f "@ + q
        + ";; esac; fi"@
}

/// The script step that moves a backup to its place, where that place is free
/// and the backup exists, and reports it with the restore mark.
pub open spec fn restore_step(bak: Seq<char>, orig: Seq<char>) -> Seq<char> {
    let b = sh_quoted(bak);
    let o = sh_quoted(orig);
    "if [ ! -e "@ + o + " ] && [ ! -L "@ + o + " ] && { [ -e "@ + b + " ] || [ -L "@ + b
        + " ]; }; then /bin/mv "@ + b + " "@ + o + " && echo "@ + sh_quoted(
        RESTORE_MARK@ + bak + ":"@ + orig,
    ) + "; fi"@
}

/// The script that removes the links at `paths` and then restores.
pub open spec fn uninstall_script(
    paths: Seq<Seq<char>>,
    restore: Seq<(Seq<char>, Seq<char>)>,
) -> Seq<char> {
    SCRIPT_PATH_PRELUDE@ + joined(
        paths.map_values(|p: Seq<char>| remove_step(p)) + restore.map_values(
            |r: (Seq<char>, Seq<char>)| restore_step(r.0, r.1),
        ),
        "; "@,
    )
}

fn link_step_text(src: &str, dst: &str, stamp: &str) -> (r: String)
    ensures
        r@ == link_step(src@, dst@, stamp@),
{
    let bak_owned = backup_path_for(dst, stamp);
    let bak = bak_owned.as_str();
    let d_owned = sh_squote(dst);
    let d = d_owned.as_str();
    let b_owned = sh_squote(bak);
    let b = b_owned.as_str();
    let mut mark = BACKUP_MARK.to_owned();
    mark.append(dst);
    mark.append(":");
    mark.append(bak);
    let mut collide = BACKUP_COLLIDE_MSG.to_owned();
    collide.append(bak);
    collide.append(" (그 자리의 ");
    collide.append(dst);
    collide.append(" 는 그대로 두었습니다. 1초 뒤 다시 시도하세요)");
    let mut out = "if [ -e ".to_owned();
    out.append(d);
    out.append(" ] || [ -L ");
    out.append(d);
    out.append(" ]; then _cys_bak=1; if [ -L ");
    out.append(d);
    out.append(" ]; then _cys_t=$(/usr/bin/readlink ");
    out.append(d);
    out.append(" | ");
    out.append(SHELL_PATH_NORMALIZER);
    out.append("); case \"$_cys_t\" in ");
    out.append(BUNDLE_LINK_PATTERN);
    out.append(") _cys_bak=0;; esac; fi; if [ \"$_cys_bak\" = 1 ]; then if [ -e ");
    out.append(b);
    out.append(" ] || [ -L ");
    out.append(b);
    out.append(" ]; then echo ");
    out.append(sh_squote(collide.as_str()).as_str());
    out.append(" >&2; exit 1; fi; /bin/mv ");
    out.append(d);
    out.append(" ");
    out.append(b);
    out.append(" && echo ");
    out.append(sh_squote(mark.as_str()).as_str());
    out.append("; fi; fi && /bin/ln -sfn ");
    out.append(sh_squote(src).as_str());
    out.append(" ");
    out.append(d);
    out
}

/// The script that installs both links in `target_dir`.
pub fn build_install_script(cys: &str, cysd: &str, target_dir: &str, stamp: &str) -> (r: String)
    ensures
        r@ == install_script(cys@, cysd@, target_dir@, stamp@),
{
    let mut cys_dst = target_dir.to_owned();
    cys_dst.append("/cys");
    let mut cysd_dst = target_dir.to_owned();
    cysd_dst.append("/cysd");
    let mut out = SCRIPT_PATH_PRELUDE.to_owned();
    out.append("/bin/mkdir -p ");
    out.append(sh_squote(target_dir).as_str());
    out.append(" && ");
    out.append(link_step_text(cys, cys_dst.as_str(), stamp).as_str());
    out.append(" && ");
    out.append(link_step_text(cysd, cysd_dst.as_str(), stamp).as_str());
    out
}

fn remove_step_text(path: &str) -> (r: String)
    ensures
        r@ == remove_step(path@),
{
    let q_owned = sh_squote(path);
    let q = q_owned.as_str();
    let mut out = "if [ -L ".to_owned();
    out.append(q);
    out.append(" ]; then _cys_t=$(/usr/bin/readlink ");
    out.append(q);
    out.append(" | ");
    out.append(SHELL_PATH_NORMALIZER);
    out.append("); case \"$_cys_t\" in ");
    out.append(BUNDLE_LINK_PATTERN);
    out.append(") /bin/rm -f ");
    out.append(q);
    out.append(";; esac; fi");
    out
}

fn restore_step_text(bak: &str, orig: &str) -> (r: String)
    ensures
        r@ == restore_step(bak@, orig@),
{
    let b_owned = sh_squote(bak);
    let b = b_owned.as_str();
    let o_owned = sh_squote(orig);
    let o = o_owned.as_str();
    let mut mark = RESTORE_MARK.to_owned();
    mark.append(bak);
    mark.append(":");
    mark.append(orig);
    let mut out = "if [ ! -e ".to_owned();
    out.append(o);
    out.append(" ] && [ ! -L ");
    out.append(o);
    out.append(" ] && { [ -e ");
    out.append(b);
    out.append(" ] || [ -L ");
    out.append(b);
    out.append(" ]; }; then /bin/mv ");
    out.append(b);
    out.append(" ");
    out.append(o);
    out.append(" && echo ");
    out.append(sh_squote(mark.as_str()).as_str());
    out.append("; fi");
    out
}

/// The script that removes the links at `paths` and then restores each
/// `(backup, place)` of `restore`.
pub fn build_uninstall_script(paths: &[String], restore: &[(String, String)]) -> (r: String)
    ensures
        r@ == uninstall_script(texts(paths@), pair_texts(restore@)),
{
    let ghost ps = texts(paths@);
    let ghost rs = pair_texts(restore@);
    let ghost pf = |p: Seq<char>| remove_step(p);
    let ghost rf = |r: (Seq<char>, Seq<char>)| restore_step(r.0, r.1);
    let mut steps: Vec<String> = Vec::new();
    let mut i: usize = 0;
    while i < paths.len()
        invariant
            i <= paths@.len(),
            ps == texts(paths@),
            pf == (|p: Seq<char>| remove_step(p)),
            texts(steps@) == ps.take(i as int).map_values(pf),
        decreases paths.len() - i,
    {
        let ghost before = steps@;
        let step = remove_step_text(paths[i].as_str());
        assert(ps[i as int] == paths@[i as int]@);
        steps.push(step);
        assert(texts(steps@) == texts(before).push(step@));
        assert(ps.take(i + 1) == ps.take(i as int).push(ps[i as int]));
        i += 1;
        assert(texts(steps@) == ps.take(i as int).map_values(pf));
    }
    assert(ps.take(paths@.len() as int) == ps);
    let mut j: usize = 0;
    assert(texts(steps@) == ps.map_values(pf) + rs.take(0).map_values(rf));
    while j < restore.len()
        invariant
            j <= restore@.len(),
            rs == pair_texts(restore@),
            rf == (|r: (Seq<char>, Seq<char>)| restore_step(r.0, r.1)),
            texts(steps@) == ps.map_values(pf) + rs.take(j as int).map_values(rf),
        decreases restore.len() - j,
    {
        let ghost before = steps@;
        let step = restore_step_text(restore[j].0.as_str(), restore[j].1.as_str());
        assert(rs[j as int] == (restore@[j as int].0@, restore@[j as int].1@));
        steps.push(step);
        assert(texts(steps@) == texts(before).push(step@));
        assert(rs.take(j + 1) == rs.take(j as int).push(rs[j as int]));
        j += 1;
        assert(texts(steps@) == ps.map_values(pf) + rs.take(j as int).map_values(rf));
    }
    assert(rs.take(restore@.len() as int) == rs);
    let mut out = SCRIPT_PATH_PRELUDE.to_owned();
    out.append(join(&steps, "; ").as_str());
    out
}

/// Where the reader of a shell word stands.
pub enum ShellMode {
    Plain,
    Quoted,
    Escaped,
}

/// How the shell reads `t` as part of one word: single quotes keep everything
/// between them, a backslash outside them keeps the next character. Gives the
/// reader's state behind `t` and the word so far.
pub open spec fn sh_read(t: Seq<char>) -> (ShellMode, Seq<char>)
    decreases t.len(),
{
    if t.len() == 0 {
        (ShellMode::Plain, Seq::empty())
    } else {
        let (mode, word) = sh_read(t.drop_last());
        let c = t.last();
        match mode {
            ShellMode::Quoted => if c == '\'' {
                (ShellMode::Plain, word)
            } else {
                (ShellMode::Quoted, word.push(c))
            },
            ShellMode::Escaped => (ShellMode::Plain, word.push(c)),
            ShellMode::Plain => if c == '\'' {
                (ShellMode::Quoted, word)
            } else if c == '\\' {
                (ShellMode::Escaped, word)
            } else {
                (ShellMode::Plain, word.push(c))
            },
        }
    }
}

proof fn lemma_sh_read_open(s: Seq<char>)
    ensures
        sh_read("'"@ + replaced(s, '\'', "'\\''"@)) == (ShellMode::Quoted, s),
    decreases s.len(),
{
    reveal_strlit("'");
    reveal_strlit("'\\''");
    let with = "'\\''"@;
    if s.len() == 0 {
        let t = "'"@ + replaced(s, '\'', with);
        assert(t == "'"@);
        assert(t.drop_last() == Seq::<char>::empty());
        assert(sh_read(Seq::<char>::empty()) == (ShellMode::Plain, Seq::<char>::empty()));
        assert(s == Seq::<char>::empty());
        assert(t.last() == '\'');
    } else {
        let u = s.drop_last();
        lemma_sh_read_open(u);
        let head = "'"@ + replaced(u, '\'', with);
        let t = "'"@ + replaced(s, '\'', with);
        if s.last() == '\'' {
            let t1 = head.push('\'');
            let t2 = t1.push('\\');
            let t3 = t2.push('\'');
            assert(t == t3.push('\''));
            assert(t1.drop_last() == head);
            assert(t2.drop_last() == t1);
            assert(t3.drop_last() == t2);
            assert(t.drop_last() == t3);
            assert(sh_read(t1) == (ShellMode::Plain, u));
            assert(sh_read(t2) == (ShellMode::Escaped, u));
            assert(sh_read(t3) == (ShellMode::Plain, u.push('\'')));
        } else {
            assert(t == head.push(s.last()));
            assert(t.drop_last() == head);
        }
        assert(u.push(s.last()) == s);
    }
}

/// The shell reads a quoted text back as that text and nothing else.
pub proof fn law_shell_reads_back_the_quoted_text(s: Seq<char>)
    ensures
        sh_read(sh_quoted(s)) == (ShellMode::Plain, s),
{
    lemma_sh_read_open(s);
    reveal_strlit("'");
    let head = "'"@ + replaced(s, '\'', "'\\''"@);
    assert(sh_quoted(s) == head.push('\''));
    assert(sh_quoted(s).drop_last() == head);
}

/// Where the reader of an AppleScript literal stands.
pub enum LiteralMode {
    Outside,
    Inside,
    Escaped,
}

/// How AppleScript reads `t` as a string literal: a backslash keeps the next
/// character, an unescaped quotation mark opens or closes the literal. Gives
/// the reader's state behind `t` and the string so far.
pub open spec fn literal_read(t: Seq<char>) -> (LiteralMode, Seq<char>)
    decreases t.len(),
{
    if t.len() == 0 {
        (LiteralMode::Outside, Seq::empty())
    } else {
        let (mode, word) = literal_read(t.drop_last());
        let c = t.last();
        match mode {
            LiteralMode::Inside => if c == '"' {
                (LiteralMode::Outside, word)
            } else if c == '\\' {
                (LiteralMode::Escaped, word)
            } else {
                (LiteralMode::Inside, word.push(c))
            },
            LiteralMode::Escaped => (LiteralMode::Inside, word.push(c)),
            LiteralMode::Outside => if c == '"' {
                (LiteralMode::Inside, word)
            } else {
                (LiteralMode::Outside, word)
            },
        }
    }
}

proof fn lemma_literal_open(s: Seq<char>)
    ensures
        literal_read("\""@ + replaced(replaced(s, '\\', "\\\\"@), '"', "\\\""@)) == (
            LiteralMode::Inside,
            s,
        ),
    decreases s.len(),
{
    reveal_strlit("\"");
    reveal_strlit("\\\\");
    reveal_strlit("\\\"");
    let bs = "\\\\"@;
    let dq = "\\\""@;
    let t = "\""@ + replaced(replaced(s, '\\', bs), '"', dq);
    if s.len() == 0 {
        assert(replaced(s, '\\', bs) == Seq::<char>::empty());
        assert(t == "\""@);
        assert(t.drop_last() == Seq::<char>::empty());
        assert(literal_read(Seq::<char>::empty()) == (LiteralMode::Outside, Seq::<char>::empty()));
        assert(s == Seq::<char>::empty());
        assert(t.last() == '"');
    } else {
        let u = s.drop_last();
        let ru = replaced(u, '\\', bs);
        lemma_literal_open(u);
        let head = "\""@ + replaced(ru, '"', dq);
        let c = s.last();
        if c == '\\' {
            crate::text::lemma_replaced_concat(ru, bs, '"', dq);
            assert(replaced(bs, '"', dq) == bs) by {
                assert(bs.drop_last().drop_last() == Seq::<char>::empty());
                assert(replaced(bs.drop_last().drop_last(), '"', dq) == Seq::<char>::empty());
                assert(replaced(bs.drop_last(), '"', dq) == bs.drop_last());
            }
            let t1 = head.push('\\');
            assert(t == t1.push('\\'));
            assert(t1.drop_last() == head);
            assert(t.drop_last() == t1);
            assert(literal_read(t1) == (LiteralMode::Escaped, u));
        } else {
            let w = ru.push(c);
            assert(replaced(s, '\\', bs) == w);
            assert(w.drop_last() == ru);
            if c == '"' {
                let t1 = head.push('\\');
                assert(t == t1.push('"'));
                assert(t1.drop_last() == head);
                assert(t.drop_last() == t1);
                assert(literal_read(t1) == (LiteralMode::Escaped, u));
            } else {
                assert(t == head.push(c));
                assert(t.drop_last() == head);
            }
        }
        assert(u.push(c) == s);
    }
}

/// AppleScript reads the literal back as the text it was made from.
pub proof fn law_applescript_reads_back_the_literal(s: Seq<char>)
    ensures
        literal_read(applescript_quoted(s)) == (LiteralMode::Outside, s),
{
    lemma_literal_open(s);
    reveal_strlit("\"");
    let head = "\""@ + replaced(replaced(s, '\\', "\\\\"@), '"', "\\\""@);
    assert(applescript_quoted(s) == head.push('"'));
    assert(applescript_quoted(s).drop_last() == head);
}

/// `target`, cleaned of needless slashes, ends in one of the two link
/// targets inside the bundle.
pub open spec fn into_bundle(target: Seq<char>) -> bool {
    finishes_with(normalized(target), BUNDLE_LINK_SUFFIX_CYS@) || finishes_with(
        normalized(target),
        BUNDLE_LINK_SUFFIX_CYSD@,
    )
}

/// A `case` pattern of the shell that lists alternatives, each a star and a
/// fixed ending, accepts `t`.
pub open spec fn case_accepts(pattern: Seq<char>, t: Seq<char>) -> bool {
    exists|i: int|
        0 <= i < split_on(pattern, '|').len() && star_accepts(
            #[trigger] split_on(pattern, '|')[i],
            t,
        )
}

pub open spec fn star_accepts(alternative: Seq<char>, t: Seq<char>) -> bool {
    alternative.len() > 0 && alternative[0] == '*' && finishes_with(t, alternative.skip(1))
}

/// The pattern in the scripts and the two endings that the library tests are
/// one rule: both accept the same link targets.
pub proof fn law_script_pattern_is_the_link_rule(target: Seq<char>)
    ensures
        BUNDLE_LINK_PATTERN@ == "*"@ + BUNDLE_LINK_SUFFIX_CYS@ + "|*"@ + BUNDLE_LINK_SUFFIX_CYSD@,
        case_accepts(BUNDLE_LINK_PATTERN@, normalized(target)) <==> into_bundle(target),
{
    reveal_strlit("*/cys.app/Contents/MacOS/cys|*/cys.app/Contents/MacOS/cysd");
    reveal_strlit("/cys.app/Contents/MacOS/cys");
    reveal_strlit("/cys.app/Contents/MacOS/cysd");
    reveal_strlit("*");
    reveal_strlit("|*");
    let a = "*"@ + BUNDLE_LINK_SUFFIX_CYS@;
    let b = "*"@ + BUNDLE_LINK_SUFFIX_CYSD@;
    let t = normalized(target);
    assert(BUNDLE_LINK_PATTERN@ == a + "|*"@ + BUNDLE_LINK_SUFFIX_CYSD@);
    assert(BUNDLE_LINK_PATTERN@ == a.push('|') + b);
    crate::text::lemma_split_single(a, '|');
    crate::text::lemma_split_single(b, '|');
    crate::text::lemma_split_concat(a, b, '|');
    let alts = split_on(BUNDLE_LINK_PATTERN@, '|');
    assert(alts == seq![a] + seq![b]);
    assert(a.skip(1) == BUNDLE_LINK_SUFFIX_CYS@);
    assert(b.skip(1) == BUNDLE_LINK_SUFFIX_CYSD@);
    assert(alts[0] == a && alts[1] == b);
    assert(star_accepts(alts[0], t) == finishes_with(t, BUNDLE_LINK_SUFFIX_CYS@));
    assert(star_accepts(alts[1], t) == finishes_with(t, BUNDLE_LINK_SUFFIX_CYSD@));
}

/// A link target is the bundle's exactly where, needless slashes aside, it is
/// some directory followed by the place of one of the two binaries.
pub proof fn law_bundle_targets_end_in_a_binary(target: Seq<char>)
    ensures
        into_bundle(target) <==> exists|dir: Seq<char>|
            normalized(target) == #[trigger] (dir + "/cys.app/Contents/MacOS/cys"@) || normalized(
                target,
            ) == dir + "/cys.app/Contents/MacOS/cysd"@,
{
    let t = normalized(target);
    let a = "/cys.app/Contents/MacOS/cys"@;
    let b = "/cys.app/Contents/MacOS/cysd"@;
    if finishes_with(t, a) {
        assert(t =~= t.take(t.len() - a.len()) + a);
    }
    if finishes_with(t, b) {
        let dir = t.take(t.len() - b.len());
        assert(t =~= dir + b);
        assert((dir + a).len() >= 0);
    }
    if exists|dir: Seq<char>| t == #[trigger] (dir + a) || t == dir + b {
        let dir = choose|dir: Seq<char>| t == #[trigger] (dir + a) || t == dir + b;
        if t == dir + a {
            assert(t.skip(t.len() - a.len()) =~= a);
        } else {
            assert(t.skip(t.len() - b.len()) =~= b);
        }
    }
}

proof fn lemma_begins_still(s: Seq<char>, more: Seq<char>, pat: Seq<char>)
    requires
        begins_with(s, pat),
    ensures
        begins_with(s + more, pat),
{
    assert((s + more).subrange(0, pat.len() as int) =~= s.subrange(0, pat.len() as int));
}

/// A link is put where something stood only after that was moved away. The step
/// looks at the place first; before the move it looks at the backup name, and stops
/// where that is taken; the move goes from the place to the backup name and is
/// reported with both; the link comes last, from the binary to the place.
pub proof fn law_link_step_never_overwrites(src: Seq<char>, dst: Seq<char>, stamp: Seq<char>)
    ensures
        ({
            let bak = dst + ".cys-backup-"@ + stamp;
            let (d, b) = (sh_quoted(dst), sh_quoted(bak));
            &&& begins_with(
                link_step(src, dst, stamp),
                "if [ -e "@ + d + " ] || [ -L "@ + d + " ]; then _cys_bak=1; if [ -L "@ + d
                    + " ]; then _cys_t=$(/usr/bin/readlink "@ + d,
            )
            &&& exists|front: Seq<char>|
                link_step(src, dst, stamp) == #[trigger] (front + "if [ -e "@) + b
                    + " ] || [ -L "@ + b + " ]; then echo "@ + sh_quoted(collide_notice(dst, bak))
                    + " >&2; exit 1; fi; /bin/mv "@ + d + " "@ + b + " && echo "@ + sh_quoted(
                    "CYS-BACKED-UP:"@ + dst + ":"@ + bak,
                ) + "; fi; fi && /bin/ln -sfn "@ + sh_quoted(src) + " "@ + d
        }),
{
    let bak = backup_path(dst, stamp);
    let (d, b) = (sh_quoted(dst), sh_quoted(bak));
    let note = sh_quoted(collide_notice(dst, bak));
    let mark = sh_quoted(BACKUP_MARK@ + dst + ":"@ + bak);
    let x0 = "if [ -e "@ + d + " ] || [ -L "@ + d + " ]; then _cys_bak=1; if [ -L "@ + d
        + " ]; then _cys_t=$(/usr/bin/readlink "@ + d;
    assert(x0.subrange(0, x0.len() as int) =~= x0);
    let x1 = x0 + " | "@;
    lemma_begins_still(x0, " | "@, x0);
    let x2 = x1 + SHELL_PATH_NORMALIZER@;
    lemma_begins_still(x1, SHELL_PATH_NORMALIZER@, x0);
    let x3 = x2 + "); case \"$_cys_t\" in "@;
    lemma_begins_still(x2, "); case \"$_cys_t\" in "@, x0);
    let x4 = x3 + BUNDLE_LINK_PATTERN@;
    lemma_begins_still(x3, BUNDLE_LINK_PATTERN@, x0);
    let x5 = x4 + ") _cys_bak=0;; esac; fi; if [ \"$_cys_bak\" = 1 ]; then if [ -e "@;
    lemma_begins_still(x4, ") _cys_bak=0;; esac; fi; if [ \"$_cys_bak\" = 1 ]; then if [ -e "@, x0);
    let x6 = x5 + b;
    lemma_begins_still(x5, b, x0);
    let x7 = x6 + " ] || [ -L "@;
    lemma_begins_still(x6, " ] || [ -L "@, x0);
    let x8 = x7 + b;
    lemma_begins_still(x7, b, x0);
    let x9 = x8 + " ]; then echo "@;
    lemma_begins_still(x8, " ]; then echo "@, x0);
    let x10 = x9 + note;
    lemma_begins_still(x9, note, x0);
    let x11 = x10 + " >&2; exit 1; fi; /bin/mv "@;
    lemma_begins_still(x10, " >&2; exit 1; fi; /bin/mv "@, x0);
    let x12 = x11 + d;
    lemma_begins_still(x11, d, x0);
    let x13 = x12 + " "@;
    lemma_begins_still(x12, " "@, x0);
    let x14 = x13 + b;
    lemma_begins_still(x13, b, x0);
    let x15 = x14 + " && echo "@;
    lemma_begins_still(x14, " && echo "@, x0);
    let x16 = x15 + mark;
    lemma_begins_still(x15, mark, x0);
    let x17 = x16 + "; fi; fi && /bin/ln -sfn "@;
    lemma_begins_still(x16, "; fi; fi && /bin/ln -sfn "@, x0);
    let x18 = x17 + sh_quoted(src);
    lemma_begins_still(x17, sh_quoted(src), x0);
    let x19 = x18 + " "@;
    lemma_begins_still(x18, " "@, x0);
    let x20 = x19 + d;
    lemma_begins_still(x19, d, x0);
    assert(x20 == link_step(src, dst, stamp));
    assert(exists|front: Seq<char>| x5 == #[trigger] (front + "if [ -e "@)) by {
        lemma_guard_literal(x4);
    }
}

proof fn lemma_guard_literal(x: Seq<char>)
    ensures
        exists|front: Seq<char>|
            x + ") _cys_bak=0;; esac; fi; if [ \"$_cys_bak\" = 1 ]; then if [ -e "@ == #[trigger] (front
                + "if [ -e "@),
{
    reveal_strlit(") _cys_bak=0;; esac; fi; if [ \"$_cys_bak\" = 1 ]; then if [ -e ");
    reveal_strlit("if [ -e ");
    let lit = ") _cys_bak=0;; esac; fi; if [ \"$_cys_bak\" = 1 ]; then if [ -e "@;
    let n = lit.len() - 8;
    assert(lit.skip(n) =~= "if [ -e "@);
    assert(x + lit =~= (x + lit.take(n)) + "if [ -e "@);
}

/// The notice on a taken backup name gives that name and the place that was left
/// as it was.
pub proof fn law_collision_names_both_paths(dst: Seq<char>, bak: Seq<char>)
    ensures
        contains_text(collide_notice(dst, bak), bak),
        contains_text(collide_notice(dst, bak), dst),
{
    let m = BACKUP_COLLIDE_MSG@;
    let e = " (그 자리의 "@;
    let f = " 는 그대로 두었습니다. 1초 뒤 다시 시도하세요)"@;
    let c = collide_notice(dst, bak);
    assert(contains_text(c, bak)) by {
        crate::text::lemma_text_holds(m, bak, e + dst + f);
        assert(c =~= m + bak + (e + dst + f));
    }
    assert(contains_text(c, dst)) by {
        crate::text::lemma_text_holds(m + bak + e, dst, f);
        assert(c =~= (m + bak + e) + dst + f);
    }
}

proof fn lemma_three_steps(
    p: Seq<char>,
    m: Seq<char>,
    q: Seq<char>,
    b: Seq<char>,
    c: Seq<char>,
    sep: Seq<char>,
)
    ensures
        p + m + q + sep + b + sep + c == p + joined(seq![m + q, b, c], sep),
{
    let a = m + q;
    let steps = seq![a, b, c];
    assert(steps.drop_last() =~= seq![a, b]);
    assert(seq![a, b].drop_last() =~= seq![a]);
    reveal_with_fuel(joined, 3);
    assert(joined(seq![a], sep) == a);
    assert(joined(seq![a, b], sep) == a + sep + b);
    assert(joined(steps, sep) == a + sep + b + sep + c);
    assert(p + m + q + sep + b + sep + c =~= p + (a + sep + b + sep + c));
}

/// Installing makes the directory, then links `cys` and then `cysd` in it, each
/// to its own binary; a step that fails ends the script.
pub proof fn law_install_links_both_binaries(
    cys: Seq<char>,
    cysd: Seq<char>,
    dir: Seq<char>,
    stamp: Seq<char>,
)
    ensures
        install_script(cys, cysd, dir, stamp) == SCRIPT_PATH_PRELUDE@ + joined(
            seq![
                "/bin/mkdir -p "@ + sh_quoted(dir),
                link_step(cys, dir + "/cys"@, stamp),
                link_step(cysd, dir + "/cysd"@, stamp),
            ],
            " && "@,
        ),
{
    lemma_three_steps(
        SCRIPT_PATH_PRELUDE@,
        "/bin/mkdir -p "@,
        sh_quoted(dir),
        link_step(cys, dir + "/cys"@, stamp),
        link_step(cysd, dir + "/cysd"@, stamp),
        " && "@,
    );
}

/// A path is removed only where it is a link, and only where the target that is
/// read at that moment is one of the bundle's.
pub proof fn law_remove_step_is_guarded(path: Seq<char>)
    ensures
        ({
            let q = sh_quoted(path);
            remove_step(path) == "if [ -L "@ + q + " ]; then _cys_t=$(/usr/bin/readlink "@ + q
                + " | "@ + SHELL_PATH_NORMALIZER@ + "); case \"$_cys_t\" in "@
                + "*/cys.app/Contents/MacOS/cys|*/cys.app/Contents/MacOS/cysd"@ + ") /bin/rm -f "@ + q
                + ";; esac; fi"@
        }),
{
}

/// A backup is put back only where its place is free and it is there, and that is
/// reported with both.
pub proof fn law_restore_step_is_guarded(bak: Seq<char>, orig: Seq<char>)
    ensures
        ({
            let (b, o) = (sh_quoted(bak), sh_quoted(orig));
            restore_step(bak, orig) == "if [ ! -e "@ + o + " ] && [ ! -L "@ + o + " ] && { [ -e "@ + b
                + " ] || [ -L "@ + b + " ]; }; then /bin/mv "@ + b + " "@ + o + " && echo "@
                + sh_quoted("CYS-RESTORED:"@ + bak + ":"@ + orig) + "; fi"@
        }),
{
}

/// Removing goes through all links, in order, and only then puts the backups
/// back, in order: one more of either is one more step at the end of its kind.
pub proof fn law_removal_comes_before_restoring(
    paths: Seq<Seq<char>>,
    restore: Seq<(Seq<char>, Seq<char>)>,
    path: Seq<char>,
    pair: (Seq<char>, Seq<char>),
)
    ensures
        uninstall_script(seq![path], Seq::empty()) == SCRIPT_PATH_PRELUDE@ + remove_step(path),
        paths.len() > 0 ==> uninstall_script(paths.push(path), Seq::empty()) == uninstall_script(
            paths,
            Seq::empty(),
        ) + "; "@ + remove_step(path),
        paths.len() > 0 ==> uninstall_script(paths, restore.push(pair)) == uninstall_script(
            paths,
            restore,
        ) + "; "@ + restore_step(pair.0, pair.1),
{
    let r = |p: Seq<char>| remove_step(p);
    let s = |x: (Seq<char>, Seq<char>)| restore_step(x.0, x.1);
    let none = Seq::<(Seq<char>, Seq<char>)>::empty();
    let p = SCRIPT_PATH_PRELUDE@;
    assert(seq![path].map_values(r) + none.map_values(s) =~= seq![remove_step(path)]);
    if paths.len() > 0 {
        let a = paths.map_values(r);
        assert(a + none.map_values(s) =~= a);
        let more = paths.push(path).map_values(r) + none.map_values(s);
        assert(more =~= a.push(remove_step(path)));
        assert(more.drop_last() =~= a);
        assert(p + joined(more, "; "@) =~= (p + joined(a, "; "@)) + "; "@ + remove_step(path));
        let all = a + restore.map_values(s);
        let next = a + restore.push(pair).map_values(s);
        assert(next =~= all.push(restore_step(pair.0, pair.1)));
        assert(next.drop_last() =~= all);
        assert(p + joined(next, "; "@) =~= (p + joined(all, "; "@)) + "; "@ + restore_step(
            pair.0,
            pair.1,
        ));
    }
}

/// The scripts look up no program, read a link's target without needless
/// slashes, and report under marks of their own.
pub proof fn law_words_of_the_scripts()
    ensures
        SCRIPT_PATH_PRELUDE@ == "export PATH=/usr/bin:/bin:/usr/sbin:/sbin; "@,
        SHELL_PATH_NORMALIZER@ == "/usr/bin/sed -e 's|//*|/|g' -e 's|\\(.\\)/$|\\1|'"@,
        BACKUP_MARK@ == "CYS-BACKED-UP:"@,
        RESTORE_MARK@ == "CYS-RESTORED:"@,
        BACKUP_COLLIDE_MSG@ == "중단: 백업 이름이 이미 있습니다 — "@,
        BACKUP_MARK@ != RESTORE_MARK@,
{
    reveal_strlit("CYS-BACKED-UP:");
    reveal_strlit("CYS-RESTORED:");
    assert("CYS-BACKED-UP:"@.len() != "CYS-RESTORED:"@.len());
}

/// A script that runs with administrator rights is handed over as one literal of
/// its own, with nothing but the command around it.
pub proof fn law_elevated_script_is_one_literal(script: Seq<char>)
    ensures
        elevated(script) == "do shell script "@ + applescript_quoted(script)
            + " with administrator privileges"@,
        literal_read(applescript_quoted(script)) == (LiteralMode::Outside, script),
        begins_with(elevated(script), "do shell script "@),
        finishes_with(elevated(script), " with administrator privileges"@),
{
    law_applescript_reads_back_the_literal(script);
    let e = elevated(script);
    let (a, b) = ("do shell script "@, " with administrator privileges"@);
    assert(e.subrange(0, a.len() as int) =~= a);
    assert(e.subrange(e.len() - b.len(), e.len() as int) =~= b);
}

} // verus!
