//! Where the application bundle runs from, and what follows from it.

use vstd::prelude::*;

use crate::path::{file_name, join, parent, same_path};
use crate::path::{
    components_of, file_name_of, joined_path, law_joining_appends_the_components,
    law_parent_drops_the_last_component, lemma_name_is_its_component, parent_of, same_path_as,
};
use crate::text::{chars_of, contains, ends_with, same_text, starts_with, strip_prefix, text_of};
use crate::text::{begins_with, after_prefix, contains_text, finishes_with, opt_text, trimmed};

verus! {

/// Where a bundle stands.
#[derive(Debug, PartialEq, Eq, Clone, Copy, Structural)]
pub enum BundleKind {
    /// `cys.app` in an `Applications` directory.
    Canonical,
    /// A throw-away location that Gatekeeper runs a downloaded bundle from.
    Translocated,
    /// A `cys.app.bak…` or `cys.app.prev…` copy.
    Backup,
    /// Anywhere else.
    NonStandard,
}

/// What the boot sequence makes of the executable's location.
#[derive(Debug, PartialEq, Eq, Clone, Copy, Structural)]
pub enum BootPathVerdict {
    /// Boot in full.
    Canonical,
    /// Safe mode: a throw-away location.
    Translocated,
    /// Safe mode: any other location that is not an installation.
    NonCanonical,
}

/// The text of `o`, or nothing.
pub open spec fn text_or_empty(o: Option<Seq<char>>) -> Seq<char> {
    match o {
        Some(s) => s,
        None => Seq::empty(),
    }
}

/// The directory two levels above: the bundle that holds `Contents/MacOS`.
pub open spec fn grandparent_of(dir: Seq<char>) -> Option<Seq<char>> {
    match parent_of(dir) {
        Some(p) => parent_of(p),
        None => None,
    }
}

/// The kind of the bundle whose executables stand in `dir`.
pub open spec fn bundle_kind(dir: Seq<char>) -> BundleKind {
    if contains_text(dir, "/AppTranslocation/"@) {
        BundleKind::Translocated
    } else {
        match grandparent_of(dir) {
            None => BundleKind::NonStandard,
            Some(b) => {
                let name = text_or_empty(file_name_of(b));
                let place = text_or_empty(parent_of(b));
                if begins_with(name, "cys.app.bak"@) || begins_with(name, "cys.app.prev"@) {
                    BundleKind::Backup
                } else if name == "cys.app"@ && !begins_with(place, "/Volumes/"@) && (place
                    == "/Applications"@ || finishes_with(place, "/Applications"@)) {
                    BundleKind::Canonical
                } else {
                    BundleKind::NonStandard
                }
            },
        }
    }
}

/// The verdict on an executable at `exe`.
pub open spec fn boot_verdict_of(exe: Seq<char>, env_escape: bool) -> BootPathVerdict {
    if env_escape {
        BootPathVerdict::Canonical
    } else {
        match parent_of(exe) {
            None => BootPathVerdict::NonCanonical,
            Some(dir) => match bundle_kind(dir) {
                BundleKind::Canonical => BootPathVerdict::Canonical,
                BundleKind::Translocated => BootPathVerdict::Translocated,
                BundleKind::Backup | BundleKind::NonStandard => BootPathVerdict::NonCanonical,
            },
        }
    }
}

/// The text of an optional string, or the empty text.
pub fn or_empty(o: Option<String>) -> (s: String)
    ensures
        s@ == text_or_empty(opt_text(o)),
{
    match o {
        Some(s) => s,
        None => String::new(),
    }
}

/// The directory two levels above `dir`.
pub fn grandparent(dir: &str) -> (r: Option<String>)
    ensures
        opt_text(r) == grandparent_of(dir@),
{
    match parent(dir) {
        Some(p) => parent(p.as_str()),
        None => None,
    }
}

/// The kind of the bundle whose executables stand in `macos_dir`.
pub fn classify_bundle_dir(macos_dir: &str) -> (kind: BundleKind)
    ensures
        kind == bundle_kind(macos_dir@),
{
    if contains(macos_dir, "/AppTranslocation/") {
        return BundleKind::Translocated;
    }
    if let Some(b) = grandparent(macos_dir) {
        let name = or_empty(file_name(b.as_str()));
        if starts_with(name.as_str(), "cys.app.bak") || starts_with(name.as_str(), "cys.app.prev") {
            return BundleKind::Backup;
        }
        if same_text(name.as_str(), "cys.app") {
            let place = or_empty(parent(b.as_str()));
            if !starts_with(place.as_str(), "/Volumes/") && (same_text(
                place.as_str(),
                "/Applications",
            ) || ends_with(place.as_str(), "/Applications")) {
                return BundleKind::Canonical;
            }
        }
    }
    BundleKind::NonStandard
}

/// Only an installed bundle registers itself as a service.
pub fn autoregister_allowed(kind: &BundleKind) -> (r: bool)
    ensures
        r == (*kind == BundleKind::Canonical),
{
    matches!(kind, BundleKind::Canonical)
}

/// What to make of an executable at `exe_path`. `env_escape` is the
/// administrator's switch that accepts any location.
pub fn boot_path_verdict(exe_path: &str, env_escape: bool) -> (v: BootPathVerdict)
    ensures
        v == boot_verdict_of(exe_path@, env_escape),
{
    if env_escape {
        return BootPathVerdict::Canonical;
    }
    let macos_dir = match parent(exe_path) {
        Some(d) => d,
        None => return BootPathVerdict::NonCanonical,
    };
    match classify_bundle_dir(macos_dir.as_str()) {
        BundleKind::Canonical => BootPathVerdict::Canonical,
        BundleKind::Translocated => BootPathVerdict::Translocated,
        BundleKind::Backup | BundleKind::NonStandard => BootPathVerdict::NonCanonical,
    }
}

/// A bundle whose directory may register itself as a service is exactly one
/// whose executables boot in full, unless the switch is set.
pub proof fn law_boot_agrees_with_autoregister(exe: Seq<char>)
    requires
        parent_of(exe) is Some,
    ensures
        boot_verdict_of(exe, false) == BootPathVerdict::Canonical <==> bundle_kind(
            parent_of(exe)->0,
        ) == BundleKind::Canonical,
        boot_verdict_of(exe, false) == BootPathVerdict::Translocated <==> contains_text(
            parent_of(exe)->0,
            "/AppTranslocation/"@,
        ),
        boot_verdict_of(exe, true) == BootPathVerdict::Canonical,
{
}

/// Why the application stopped in safe mode.
pub open spec fn safe_mode_cause(v: BootPathVerdict) -> Seq<char> {
    match v {
        BootPathVerdict::Translocated =>
            "Safari 등에서 내려받은 DMG 안의 앱을 곧바로 열어 macOS가 cys.app을 임시 위치에서 실행 중입니다."@,
        _ => "cys.app이 정규 설치 위치(Applications) 밖에서 실행 중입니다."@,
    }
}

/// The cause, then how to install the application properly.
pub fn translocation_guidance(verdict: BootPathVerdict) -> (msg: String)
    ensures
        msg@ == safe_mode_cause(verdict) + RECOVERY_STEPS@,
{
    let mut msg = match verdict {
        BootPathVerdict::Translocated =>
            "Safari 등에서 내려받은 DMG 안의 앱을 곧바로 열어 macOS가 cys.app을 임시 위치에서 실행 중입니다.".to_owned(),
        _ => "cys.app이 정규 설치 위치(Applications) 밖에서 실행 중입니다.".to_owned(),
    };
    msg.append(RECOVERY_STEPS);
    msg
}

/// What the pull-style boot query answers: nothing for a full boot, the
/// guidance otherwise.
pub fn boot_verdict(verdict: BootPathVerdict) -> (r: Option<String>)
    ensures
        verdict == BootPathVerdict::Canonical <==> r is None,
        r matches Some(m) ==> m@ == safe_mode_cause(verdict) + RECOVERY_STEPS@,
{
    if verdict == BootPathVerdict::Canonical {
        None
    } else {
        Some(translocation_guidance(verdict))
    }
}

pub const RECOVERY_STEPS: &'static str = " 이 상태로는 백그라운드 서비스를 안전하게 등록할 수 없어 안전모드로 멈췄습니다.\n\n다음 순서로 설치해 주세요:\n1) Finder에서 cys.app을 응용 프로그램(Applications) 폴더로 드래그해 복사합니다.\n2) 이미 설치된 구버전 cys.app이 실행 중이면 먼저 종료한 뒤 새 버전으로 교체합니다.\n3) 그래도 '손상됨'으로 열리지 않으면 터미널에서 아래를 한 번 실행하세요:\n\u{2003}xattr -d com.apple.quarantine /Applications/cys.app\n\n설치 후 응용 프로그램 폴더의 cys.app을 다시 열면 정상 부팅됩니다.";

/// What a deep check of the code signature found.
#[derive(Debug, PartialEq, Eq, Clone, Copy, Structural)]
pub enum SealVerdict {
    Intact,
    Broken,
    Undetermined,
}

/// A recorded check makes another one unnecessary only where it found the
/// signature intact or could not tell; a broken one is looked at every time.
pub fn seal_selfdiag_skips(marker: Option<&str>) -> (r: bool)
    ensures
        r == (marker matches Some(m) && (trimmed(m@) == "intact"@ || trimmed(m@)
            == "undetermined"@)),
{
    match marker {
        Some(m) => {
            let t = crate::text::trim(m);
            same_text(t, "intact") || same_text(t, "undetermined")
        },
        None => false,
    }
}

/// The file that records the check of a version, below the home directory.
pub fn seal_selfdiag_marker(home: &str, version: &str) -> (r: String)
    ensures
        r@ == joined_path(joined_path(home@, ".cys/state"@), "selfdiag-"@ + version@),
{
    let mut name = "selfdiag-".to_owned();
    name.append(version);
    join(join(home, ".cys/state").as_str(), name.as_str())
}

/// What is recorded after a check: nothing for a broken signature.
pub fn seal_record_token(verdict: &SealVerdict) -> (r: Option<&'static str>)
    ensures
        crate::text::opt_str_text(r) == (match *verdict {
            SealVerdict::Intact => Some("intact"@),
            SealVerdict::Undetermined => Some("undetermined"@),
            SealVerdict::Broken => None,
        }),
{
    match verdict {
        SealVerdict::Intact => Some("intact"),
        SealVerdict::Undetermined => Some("undetermined"),
        SealVerdict::Broken => None,
    }
}

/// Only a broken signature puts its notice into the cache that the interface
/// pulls from.
pub fn seal_cache_payload(verdict: &SealVerdict, notice: &str) -> (r: Option<String>)
    ensures
        opt_text(r) == (if *verdict is Broken {
            Some(notice@)
        } else {
            None
        }),
{
    match verdict {
        SealVerdict::Broken => Some(notice.to_owned()),
        _ => None,
    }
}

/// The damage to report: the broken signature first, the structural damage
/// where the signature is not broken.
pub fn merge_integrity_pull(structural: Option<String>, seal_broken: Option<String>) -> (r: Option<
    String,
>)
    ensures
        r == (if seal_broken is Some {
            seal_broken
        } else {
            structural
        }),
        r is None <==> structural is None && seal_broken is None,
{
    match seal_broken {
        Some(m) => Some(m),
        None => structural,
    }
}

/// The path without the data volume in front of it, which the system shows
/// under both names.
pub open spec fn without_data_volume(s: Seq<char>) -> Seq<char> {
    match after_prefix(s, "/System/Volumes/Data"@) {
        Some(rest) => if rest.len() == 0 {
            "/"@
        } else if rest[0] == '/' {
            rest
        } else {
            s
        },
        None => s,
    }
}

/// The path without the data volume in front of it.
pub fn strip_data_volume_prefix(p: &str) -> (r: String)
    ensures
        r@ == without_data_volume(p@),
{
    match strip_prefix(p, "/System/Volumes/Data") {
        Some(rest) => {
            let v = chars_of(rest);
            if v.len() == 0 {
                "/".to_owned()
            } else if v[0] == '/' {
                rest.to_owned()
            } else {
                p.to_owned()
            }
        },
        None => p.to_owned(),
    }
}

/// The directory that holds `name`, where the last component of `path` is
/// `name`.
pub open spec fn holder_of(path: Seq<char>, name: Seq<char>) -> Option<Seq<char>> {
    if file_name_of(path) == Some(name) {
        parent_of(path)
    } else {
        None
    }
}

/// The directory that holds `cys.app`, where `dir` is `cys.app/Contents/MacOS`
/// in it.
pub open spec fn bundle_place(dir: Seq<char>) -> Option<Seq<char>> {
    match holder_of(dir, "MacOS"@) {
        None => None,
        Some(contents) => match holder_of(contents, "Contents"@) {
            None => None,
            Some(bundle) => holder_of(bundle, "cys.app"@),
        },
    }
}

/// `dir` is `cys.app/Contents/MacOS` in the system's or the user's own
/// `Applications` directory, and nothing that merely looks like it.
pub open spec fn strictly_installed(dir: Seq<char>, home: Seq<char>) -> bool {
    match bundle_place(without_data_volume(dir)) {
        None => false,
        Some(place) => same_path_as(place, "/Applications"@) || same_path_as(
            place,
            joined_path(without_data_volume(home), "Applications"@),
        ),
    }
}

fn named(path: &str, name: &str) -> (r: bool)
    ensures
        r == (file_name_of(path@) == Some(name@)),
{
    match file_name(path) {
        Some(n) => same_text(n.as_str(), name),
        None => false,
    }
}

/// Whether the bundle stands in one of the two real `Applications`
/// directories.
pub fn strict_install_bundle_ok(macos_dir: &str, home: &str) -> (r: bool)
    ensures
        r == strictly_installed(macos_dir@, home@),
{
    let dir = strip_data_volume_prefix(macos_dir);
    let home = strip_data_volume_prefix(home);
    if !named(dir.as_str(), "MacOS") {
        return false;
    }
    let Some(contents) = parent(dir.as_str()) else {
        return false;
    };
    if !named(contents.as_str(), "Contents") {
        return false;
    }
    let Some(bundle) = parent(contents.as_str()) else {
        return false;
    };
    if !named(bundle.as_str(), "cys.app") {
        return false;
    }
    let Some(place) = parent(bundle.as_str()) else {
        return false;
    };
    same_path(place.as_str(), "/Applications") || same_path(
        place.as_str(),
        join(home.as_str(), "Applications").as_str(),
    )
}

/// A path is held where its last component is `name`, by what has the components
/// before it.
proof fn lemma_holder_components(path: Seq<char>, name: Seq<char>)
    requires
        name.len() > 2,
    ensures
        holder_of(path, name) is Some <==> components_of(path).len() > 0 && components_of(
            path,
        ).last() == name,
        holder_of(path, name) matches Some(p) ==> components_of(p) == components_of(
            path,
        ).drop_last(),
{
    law_parent_drops_the_last_component(path);
    let c = components_of(path);
    assert(seq!['/'].len() == 1 && seq!['.'].len() == 1 && seq!['.', '.'].len() == 2);
    if c == seq![seq!['/']] {
        assert(c.last() == seq!['/']);
    }
}

/// The bundle's directory below the place that holds the bundle.
pub open spec fn bundle_tail() -> Seq<Seq<char>> {
    seq!["cys.app"@, "Contents"@, "MacOS"@]
}

proof fn lemma_bundle_place_components(dir: Seq<char>)
    ensures
        bundle_place(dir) matches Some(p) ==> components_of(dir) == components_of(p)
            + bundle_tail(),
        bundle_place(dir) is None ==> forall|front: Seq<Seq<char>>|
            components_of(dir) != #[trigger] (front + bundle_tail()),
{
    reveal_strlit("MacOS");
    reveal_strlit("Contents");
    reveal_strlit("cys.app");
    let c = components_of(dir);
    lemma_holder_components(dir, "MacOS"@);
    if let Some(contents) = holder_of(dir, "MacOS"@) {
        lemma_holder_components(contents, "Contents"@);
        if let Some(bundle) = holder_of(contents, "Contents"@) {
            lemma_holder_components(bundle, "cys.app"@);
            if let Some(place) = holder_of(bundle, "cys.app"@) {
                assert(c == components_of(place) + bundle_tail());
            }
        }
    }
    assert forall|front: Seq<Seq<char>>| c == #[trigger] (front + bundle_tail()) implies bundle_place(
        dir,
    ) is Some by {
        let n = front.len() as int;
        assert(c.last() == c[n + 2] && c[n + 2] == "MacOS"@);
        let contents = holder_of(dir, "MacOS"@)->0;
        assert(components_of(contents).last() == c[n + 1] && c[n + 1] == "Contents"@);
        let bundle = holder_of(contents, "Contents"@)->0;
        assert(components_of(bundle).last() == c[n] && c[n] == "cys.app"@);
    }
}

proof fn lemma_bundle_in(place: Seq<char>, full: Seq<char>)
    requires
        full == joined_path(place, "cys.app/Contents/MacOS"@),
    ensures
        components_of(full) == components_of(place) + bundle_tail(),
{
    reveal_strlit("MacOS");
    reveal_strlit("Contents");
    reveal_strlit("cys.app");
    reveal_strlit("Contents/MacOS");
    reveal_strlit("cys.app/Contents/MacOS");
    law_joining_appends_the_components(place, "cys.app/Contents/MacOS"@);
    assert("cys.app/Contents/MacOS"@ == joined_path("cys.app"@, "Contents/MacOS"@));
    law_joining_appends_the_components("cys.app"@, "Contents/MacOS"@);
    assert("Contents/MacOS"@ == joined_path("Contents"@, "MacOS"@));
    law_joining_appends_the_components("Contents"@, "MacOS"@);
    lemma_name_is_its_component("cys.app"@);
    lemma_name_is_its_component("Contents"@);
    lemma_name_is_its_component("MacOS"@);
    assert(components_of("cys.app/Contents/MacOS"@) == bundle_tail());
}

/// A bundle counts as installed exactly where its directory, without the data
/// volume in front, is the one in the system's `Applications` directory or the
/// one in that of the home directory: no other directory that merely ends in
/// `Applications` will do.
pub proof fn law_only_two_directories_are_installed(dir: Seq<char>, home: Seq<char>)
    ensures
        strictly_installed(dir, home) <==> {
            let q = without_data_volume(dir);
            ||| same_path_as(q, "/Applications/cys.app/Contents/MacOS"@)
            ||| same_path_as(
                q,
                joined_path(without_data_volume(home), "Applications/cys.app/Contents/MacOS"@),
            )
        },
{
    reveal_strlit("/Applications");
    reveal_strlit("Applications");
    reveal_strlit("cys.app/Contents/MacOS");
    reveal_strlit("/Applications/cys.app/Contents/MacOS");
    reveal_strlit("Applications/cys.app/Contents/MacOS");
    let q = without_data_volume(dir);
    let h = without_data_volume(home);
    let own = joined_path(h, "Applications"@);
    let system_full = "/Applications/cys.app/Contents/MacOS"@;
    let own_full = joined_path(h, "Applications/cys.app/Contents/MacOS"@);
    assert(system_full == joined_path("/Applications"@, "cys.app/Contents/MacOS"@));
    assert(own_full == joined_path(own, "cys.app/Contents/MacOS"@));
    lemma_bundle_in("/Applications"@, system_full);
    lemma_bundle_in(own, own_full);
    lemma_bundle_place_components(q);
    if let Some(place) = bundle_place(q) {
        let a = components_of(place);
        let tail = bundle_tail();
        assert forall|b: Seq<Seq<char>>| a + tail == #[trigger] (b + tail) implies a == b by {
            assert((a + tail).len() == a.len() + 3 && (b + tail).len() == b.len() + 3);
            assert forall|i: int| 0 <= i < a.len() implies a[i] == b[i] by {
                assert((a + tail)[i] == (b + tail)[i]);
            }
            assert(a =~= b);
        }
        assert(a + tail == components_of("/Applications"@) + tail ==> a == components_of(
            "/Applications"@,
        ));
        assert(a + tail == components_of(own) + tail ==> a == components_of(own));
    } else {
        assert(components_of(q) != components_of("/Applications"@) + bundle_tail());
        assert(components_of(q) != components_of(own) + bundle_tail());
    }
}

/// `s` with every run of slashes made one.
pub open spec fn collapsed(s: Seq<char>) -> Seq<char>
    decreases s.len(),
{
    if s.len() == 0 {
        Seq::empty()
    } else if s.last() == '/' && s.len() >= 2 && s[s.len() - 2] == '/' {
        collapsed(s.drop_last())
    } else {
        collapsed(s.drop_last()).push(s.last())
    }
}

/// `s` with every run of slashes made one and no slash at the end, except
/// that the root stays the root.
pub open spec fn normalized(s: Seq<char>) -> Seq<char> {
    let c = collapsed(s);
    if c.len() > 1 && c.last() == '/' {
        c.drop_last()
    } else {
        c
    }
}

/// The path with every run of slashes made one and none at its end.
pub fn normalize_path_str(s: &str) -> (r: String)
    ensures
        r@ == normalized(s@),
{
    let v = chars_of(s);
    let mut out: Vec<char> = Vec::new();
    let mut i: usize = 0;
    while i < v.len()
        invariant
            v@ == s@,
            i <= v.len(),
            out@ == collapsed(s@.take(i as int)),
        decreases v.len() - i,
    {
        assert(s@.take(i + 1).drop_last() == s@.take(i as int));
        assert(s@.take(i + 1).last() == v@[i as int]);
        assert(i > 0 ==> s@.take(i + 1)[i - 1] == v@[i - 1]);
        if !(v[i] == '/' && i > 0 && v[i - 1] == '/') {
            out.push(v[i]);
        }
        i += 1;
    }
    assert(s@.take(v.len() as int) == s@);
    let end: usize = if out.len() > 1 && out[out.len() - 1] == '/' {
        out.len() - 1
    } else {
        out.len()
    };
    assert(normalized(s@) == out@.subrange(0, end as int));
    text_of(&out, 0, end)
}

/// Two paths that differ only in their slashes.
pub fn paths_equivalent(a: &str, b: &str) -> (r: bool)
    ensures
        r == (normalized(a@) == normalized(b@)),
{
    same_text(normalize_path_str(a).as_str(), normalize_path_str(b).as_str())
}

/// No two slashes follow one another in `s`.
pub open spec fn single_slashes(s: Seq<char>) -> bool {
    forall|i: int| 0 <= i < s.len() - 1 && #[trigger] s[i] == '/' ==> s[i + 1] != '/'
}

proof fn lemma_collapsed_single(s: Seq<char>)
    ensures
        single_slashes(collapsed(s)),
        s.len() > 0 <==> collapsed(s).len() > 0,
        s.len() > 0 ==> collapsed(s).last() == s.last(),
    decreases s.len(),
{
    if s.len() > 0 {
        let u = s.drop_last();
        lemma_collapsed_single(u);
        if !(s.last() == '/' && s.len() >= 2 && s[s.len() - 2] == '/') {
            let c = collapsed(u);
            assert(u.len() > 0 ==> u.last() == s[s.len() - 2]);
            assert forall|i: int| 0 <= i < collapsed(s).len() - 1 && #[trigger] collapsed(s)[i]
                == '/' implies collapsed(s)[i + 1] != '/' by {
                assert(collapsed(s)[i] == c[i]);
                if i + 1 < c.len() {
                    assert(collapsed(s)[i + 1] == c[i + 1]);
                } else {
                    assert(c[i] == c.last());
                }
            }
        }
    }
}

proof fn lemma_collapse_fixed(s: Seq<char>)
    requires
        single_slashes(s),
    ensures
        collapsed(s) == s,
    decreases s.len(),
{
    if s.len() > 0 {
        let u = s.drop_last();
        assert(single_slashes(u)) by {
            assert forall|i: int| 0 <= i < u.len() - 1 && #[trigger] u[i] == '/' implies u[i + 1]
                != '/' by {
                assert(s[i] == u[i]);
            }
        }
        lemma_collapse_fixed(u);
        if s.len() >= 2 && s[s.len() - 2] == '/' {
            assert(s[s.len() - 1] != '/');
        }
        assert(collapsed(s) == u.push(s.last()));
        assert(u.push(s.last()) == s);
    }
}

/// A normalized path holds no double slash and no slash at its end beyond the
/// root, and normalizing it again changes nothing.
pub proof fn law_normalizing_is_idempotent(s: Seq<char>)
    ensures
        single_slashes(normalized(s)),
        normalized(s).len() > 1 ==> normalized(s).last() != '/',
        normalized(normalized(s)) == normalized(s),
{
    let c = collapsed(s);
    let n = normalized(s);
    lemma_collapsed_single(s);
    assert(single_slashes(n)) by {
        assert forall|i: int| 0 <= i < n.len() - 1 && #[trigger] n[i] == '/' implies n[i + 1]
            != '/' by {
            assert(c[i] == n[i]);
        }
    }
    if c.len() > 1 && c.last() == '/' {
        if n.len() > 1 {
            assert(n.last() == c[c.len() - 2]);
            if n.last() == '/' {
                assert(c[c.len() - 2] == '/');
                assert(c[c.len() - 1] != '/');
            }
        }
    }
    lemma_collapse_fixed(n);
}

/// What the boot sequence makes of the running executable: of its path, with the
/// administrator's switch that the environment gives. An executable whose path
/// is not known boots in full.
pub fn current_boot_verdict(exe: Option<&str>, allow: Option<&str>) -> (v: BootPathVerdict)
    ensures
        v == (match exe {
            Some(p) => boot_verdict_of(p@, allow matches Some(a) && a@ == "1"@),
            None => BootPathVerdict::Canonical,
        }),
{
    let escape = match allow {
        Some(a) => same_text(a, "1"),
        None => false,
    };
    match exe {
        Some(p) => boot_path_verdict(p, escape),
        None => BootPathVerdict::Canonical,
    }
}

/// What registering the daemon as a service starts with.
#[derive(Debug, PartialEq, Eq)]
pub enum Autoregister {
    /// Nothing is registered.
    Skip,
    /// Nothing is registered out of a bundle of this kind.
    SkipBundle(BundleKind),
    /// The daemon at this path is registered.
    Register(String),
}

/// Whether the daemon is registered as a service: out of an installed bundle
/// that holds it, and out of no other, so that no path that goes away is ever
/// registered. `daemon_exists` says whether the daemon stands beside the
/// executable.
pub fn maybe_autoregister_launchd(macos_dir: Option<&str>, daemon_exists: bool) -> (r:
    Autoregister)
    ensures
        match macos_dir {
            None => r is Skip,
            Some(dir) => if bundle_kind(dir@) != BundleKind::Canonical {
                r == Autoregister::SkipBundle(bundle_kind(dir@))
            } else if daemon_exists {
                r matches Autoregister::Register(p) && p@ == joined_path(dir@, "cysd"@)
            } else {
                r is Skip
            },
        },
        r is Register ==> macos_dir is Some && bundle_kind(macos_dir->0@) == BundleKind::Canonical,
{
    let Some(dir) = macos_dir else {
        return Autoregister::Skip;
    };
    let kind = classify_bundle_dir(dir);
    if !autoregister_allowed(&kind) {
        return Autoregister::SkipBundle(kind);
    }
    if !daemon_exists {
        return Autoregister::Skip;
    }
    Autoregister::Register(join(dir, "cysd"))
}

/// What kind a bundle is. A throw-away location is one, whatever the bundle is
/// called; a backup is told by its name, wherever it stands; installed is only
/// `cys.app` in an `Applications` directory that is not on another volume; all else
/// is in no proper place.
pub proof fn law_kinds_of_bundles(dir: Seq<char>, bundle: Seq<char>)
    ensures
        bundle_kind(dir) == BundleKind::Translocated <==> contains_text(
            dir,
            "/AppTranslocation/"@,
        ),
        grandparent_of(dir) == Some(bundle) && !contains_text(dir, "/AppTranslocation/"@) ==> {
            let name = text_or_empty(file_name_of(bundle));
            let place = text_or_empty(parent_of(bundle));
            &&& bundle_kind(dir) == BundleKind::Backup <==> begins_with(name, "cys.app.bak"@)
                || begins_with(name, "cys.app.prev"@)
            &&& bundle_kind(dir) == BundleKind::Canonical <==> name == "cys.app"@ && (place
                == "/Applications"@ || finishes_with(place, "/Applications"@)) && !begins_with(
                place,
                "/Volumes/"@,
            )
        },
        grandparent_of(dir) is None && !contains_text(dir, "/AppTranslocation/"@) ==> bundle_kind(
            dir,
        ) == BundleKind::NonStandard,
{
    reveal_strlit("cys.app");
    reveal_strlit("cys.app.bak");
    reveal_strlit("cys.app.prev");
    assert("cys.app"@.len() == 7);
    assert("cys.app.bak"@.len() == 11);
    assert("cys.app.prev"@.len() == 12);
}

/// The bundle that holds a directory is the one two levels above it.
pub proof fn law_bundle_is_two_levels_above(dir: Seq<char>, bundle: Seq<char>)
    ensures
        grandparent_of(dir) == Some(bundle) <==> exists|p: Seq<char>|
            parent_of(dir) == Some(p) && #[trigger] parent_of(p) == Some(bundle),
{
    if let Some(p) = parent_of(dir) {
        assert(parent_of(p) == grandparent_of(dir));
    }
}

/// An executable without a directory is not installed; with the switch set any
/// place is good enough.
pub proof fn law_boot_without_a_directory(exe: Seq<char>)
    ensures
        parent_of(exe) is None ==> boot_verdict_of(exe, false) == BootPathVerdict::NonCanonical,
        boot_verdict_of(exe, true) == BootPathVerdict::Canonical,
        parent_of(exe) is Some ==> (boot_verdict_of(exe, false) == BootPathVerdict::NonCanonical
            <==> bundle_kind(parent_of(exe)->0) == BundleKind::Backup || bundle_kind(
            parent_of(exe)->0,
        ) == BundleKind::NonStandard),
{
}

/// The data volume in front of a path is taken away, so that what is below it is
/// reached from the root; a path that merely begins like it, and any other path,
/// stays as it is.
pub proof fn law_data_volume_is_the_root(rest: Seq<char>, s: Seq<char>)
    ensures
        rest.len() > 0 && rest[0] == '/' ==> without_data_volume("/System/Volumes/Data"@ + rest)
            == rest,
        without_data_volume("/System/Volumes/Data"@) == "/"@,
        rest.len() > 0 && rest[0] != '/' ==> without_data_volume("/System/Volumes/Data"@ + rest)
            == "/System/Volumes/Data"@ + rest,
        !begins_with(s, "/System/Volumes/Data"@) ==> without_data_volume(s) == s,
{
    let v = "/System/Volumes/Data"@;
    let t = v + rest;
    assert(t.subrange(0, v.len() as int) =~= v);
    assert(t.skip(v.len() as int) =~= rest);
    assert(v.subrange(0, v.len() as int) =~= v);
    assert(v.skip(v.len() as int).len() == 0);
}

/// The pieces between slashes that hold something.
pub open spec fn full_names(s: Seq<char>) -> Seq<Seq<char>> {
    crate::text::split_on(s, '/').filter(|p: Seq<char>| p.len() > 0)
}

proof fn lemma_names_behind_a_slash(s: Seq<char>)
    requires
        s.len() > 0,
        s.last() == '/',
    ensures
        full_names(s) == full_names(s.drop_last()),
{
    reveal(Seq::filter);
    let head = crate::text::split_on(s.drop_last(), '/');
    assert(crate::text::split_on(s, '/') == head.push(Seq::empty()));
    assert(head.push(Seq::<char>::empty()).drop_last() =~= head);
}

proof fn lemma_collapsed_names(s: Seq<char>)
    ensures
        full_names(collapsed(s)) == full_names(s),
        crate::text::split_on(collapsed(s), '/').last() == crate::text::split_on(s, '/').last(),
        crate::text::split_on(collapsed(s), '/').drop_last().filter(|p: Seq<char>| p.len() > 0)
            == crate::text::split_on(s, '/').drop_last().filter(|p: Seq<char>| p.len() > 0),
        s.len() > 0 ==> collapsed(s).len() > 0 && collapsed(s)[0] == s[0],
    decreases s.len(),
{
    reveal(Seq::filter);
    let w = |p: Seq<char>| p.len() > 0;
    if s.len() > 0 {
        let u = s.drop_last();
        let c = s.last();
        lemma_collapsed_names(u);
        crate::text::law_pieces_join_back(u, '/');
        crate::text::law_pieces_join_back(collapsed(u), '/');
        let (pu, qu) = (crate::text::split_on(u, '/'), crate::text::split_on(collapsed(u), '/'));
        let ps = crate::text::split_on(s, '/');
        if c == '/' && s.len() >= 2 && s[s.len() - 2] == '/' {
            assert(u.last() == '/');
            assert(ps == pu.push(Seq::empty()));
            assert(ps.drop_last() =~= pu);
            assert(pu.last().len() == 0);
            assert(qu.last().len() == 0);
            assert(ps.last() =~= qu.last());
            assert(pu.filter(w) =~= pu.drop_last().filter(w));
            assert(qu.filter(w) =~= qu.drop_last().filter(w));
            assert(ps.filter(w) =~= pu.filter(w));
        } else {
            let d = collapsed(u).push(c);
            assert(collapsed(s) == d);
            assert(d.drop_last() =~= collapsed(u));
            let qs = crate::text::split_on(d, '/');
            if c == '/' {
                assert(ps.drop_last() =~= pu);
                assert(qs.drop_last() =~= qu);
                assert(pu.filter(w) == qu.filter(w)) by {
                    assert(pu.filter(w) == full_names(u));
                }
                assert(ps.filter(w) =~= pu.filter(w));
                assert(qs.filter(w) =~= qu.filter(w));
            } else {
                assert(ps.drop_last() =~= pu.drop_last());
                assert(qs.drop_last() =~= qu.drop_last());
                assert(ps.last() == pu.last().push(c));
                assert(qs.last() == qu.last().push(c));
            }
            if u.len() == 0 {
                assert(collapsed(u).len() == 0);
                assert(d[0] == c);
            } else {
                assert(d[0] == collapsed(u)[0]);
            }
        }
    } else {
        assert(collapsed(s) =~= s);
    }
}

/// Normalizing keeps the names of a path, in order, and whether it begins at the
/// root; so two paths with equal forms name the same.
pub proof fn law_normalizing_keeps_the_names(s: Seq<char>)
    ensures
        full_names(normalized(s)) == full_names(s),
        s.len() > 0 ==> normalized(s).len() > 0 && normalized(s)[0] == s[0],
        s.len() == 0 ==> normalized(s).len() == 0,
{
    lemma_collapsed_names(s);
    let c = collapsed(s);
    if c.len() > 1 && c.last() == '/' {
        lemma_names_behind_a_slash(c);
    }
}

/// Paths that differ only in the number of slashes between their names, or in a
/// slash at the end, have equal forms.
pub proof fn law_slashes_do_not_matter(a: Seq<char>, b: Seq<char>)
    ensures
        normalized(a.push('/').push('/') + b) == normalized(a.push('/') + b),
        a.len() > 0 && a.last() != '/' ==> normalized(a.push('/')) == normalized(a),
{
    lemma_double_slash(a, b);
    if a.len() > 0 && a.last() != '/' {
        assert(a.push('/').drop_last() =~= a);
        lemma_collapsed_single(a);
        assert(collapsed(a.push('/')) == collapsed(a).push('/'));
        assert(collapsed(a).push('/').drop_last() =~= collapsed(a));
    }
}

proof fn lemma_double_slash(a: Seq<char>, b: Seq<char>)
    ensures
        collapsed(a.push('/').push('/') + b) == collapsed(a.push('/') + b),
    decreases b.len(),
{
    let two = a.push('/').push('/');
    let one = a.push('/');
    if b.len() == 0 {
        assert(two + b =~= two);
        assert(one + b =~= one);
        assert(two.drop_last() =~= one);
    } else {
        lemma_double_slash(a, b.drop_last());
        assert((two + b).drop_last() =~= two + b.drop_last());
        assert((one + b).drop_last() =~= one + b.drop_last());
        let (s, t) = (two + b, one + b);
        assert(s.last() == b.last() && t.last() == b.last());
        if b.len() >= 2 {
            assert(s[s.len() - 2] == b[b.len() - 2]);
            assert(t[t.len() - 2] == b[b.len() - 2]);
        } else {
            assert(s[s.len() - 2] == '/');
            assert(t[t.len() - 2] == '/');
        }
    }
}

/// The cause of the safe mode tells a throw-away location from any other place.
pub proof fn law_causes_of_the_safe_mode(v: BootPathVerdict)
    ensures
        v == BootPathVerdict::Translocated ==> safe_mode_cause(v)
            == "Safari 등에서 내려받은 DMG 안의 앱을 곧바로 열어 macOS가 cys.app을 임시 위치에서 실행 중입니다."@,
        v != BootPathVerdict::Translocated ==> safe_mode_cause(v)
            == "cys.app이 정규 설치 위치(Applications) 밖에서 실행 중입니다."@,
{
}

/// What is not there counts as an empty text, and what is there as itself.
pub proof fn law_missing_text_is_empty(s: Seq<char>)
    ensures
        text_or_empty(Some(s)) == s,
        text_or_empty(None).len() == 0,
{
}

} // verus!
