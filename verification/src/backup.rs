//! The backups that installing makes and removing restores.

use vstd::prelude::*;

use crate::bundle::normalize_path_str;
use crate::bundle::normalized;
use crate::links::{decide_cli_uninstall, LinkProbe, UninstallAction};
use crate::links::foreign_at;
use crate::number::{decimal_text, digits_at_least};
use crate::number::{decimal, digits_value};
use crate::order::sort_texts;
use crate::order::in_order;
use crate::path::{file_name, join, parent, same_path};
use crate::path::{file_name_of, joined_path, lead, name_start, parent_of, same_path_as, shortened};
use crate::text::{chars_of, find_last, only_digits, same_text, strip_prefix, text_of};
use crate::text::{after_prefix, all_digits, last_index, opt_text, pair_texts, str_texts, texts};

verus! {

/// The backup of `target` made at `stamp`.
pub open spec fn backup_path(target: Seq<char>, stamp: Seq<char>) -> Seq<char> {
    target + ".cys-backup-"@ + stamp
}

/// The stamp of a backup made now: the seconds since the epoch, or zero where
/// the clock stands before it.
pub fn backup_stamp(since_epoch: Option<u64>) -> (r: String)
    ensures
        r@ == decimal(
            (match since_epoch {
                Some(n) => n,
                None => 0,
            }) as nat,
        ),
{
    match since_epoch {
        Some(n) => decimal_text(n),
        None => decimal_text(0),
    }
}

/// The backup of `target` made at `stamp`.
pub fn backup_path_for(target: &str, stamp: &str) -> (r: String)
    ensures
        r@ == backup_path(target@, stamp@),
{
    let mut out = target.to_owned();
    out.append(".cys-backup-");
    out.append(stamp);
    out
}

/// Installing moves away exactly what removing would not touch.
pub fn install_backup_needed(p: &LinkProbe) -> (r: bool)
    ensures
        r == foreign_at(*p),
{
    match decide_cli_uninstall(p) {
        UninstallAction::SkipAbsent | UninstallAction::Remove => false,
        UninstallAction::SkipNotSymlink | UninstallAction::SkipForeignTarget => true,
    }
}

/// The places that need a backup, each with its backup name.
pub open spec fn planned_backups(probes: Seq<LinkProbe>, stamp: Seq<char>) -> Seq<
    (Seq<char>, Seq<char>),
>
    decreases probes.len(),
{
    if probes.len() == 0 {
        Seq::empty()
    } else {
        let head = planned_backups(probes.drop_last(), stamp);
        let p = probes.last();
        if foreign_at(p) {
            head.push((p.path@, backup_path(p.path@, stamp)))
        } else {
            head
        }
    }
}

/// The backups that installing will make.
pub fn plan_install_backups(probes: &[LinkProbe], stamp: &str) -> (r: Vec<(String, String)>)
    ensures
        pair_texts(r@) == planned_backups(probes@, stamp@),
{
    let mut out: Vec<(String, String)> = Vec::new();
    let mut i: usize = 0;
    assert(pair_texts(out@) == planned_backups(probes@.take(0), stamp@));
    while i < probes.len()
        invariant
            i <= probes@.len(),
            pair_texts(out@) == planned_backups(probes@.take(i as int), stamp@),
        decreases probes.len() - i,
    {
        let ghost was = out@;
        assert(probes@.take(i + 1).drop_last() == probes@.take(i as int));
        if install_backup_needed(&probes[i]) {
            let bak = backup_path_for(probes[i].path.as_str(), stamp);
            let orig = probes[i].path.clone();
            let ghost pair = (orig@, bak@);
            out.push((orig, bak));
            assert(pair_texts(out@) == pair_texts(was).push(pair));
        }
        i += 1;
    }
    assert(probes@.take(probes@.len() as int) == probes@);
    out
}

/// Whether `path` is among `paths`, letter for letter.
pub fn listed(paths: &[String], path: &str) -> (r: bool)
    ensures
        r == texts(paths@).contains(path@),
{
    let mut i: usize = 0;
    while i < paths.len()
        invariant
            i <= paths@.len(),
            forall|j: int| 0 <= j < i ==> #[trigger] texts(paths@)[j] != path@,
        decreases paths.len() - i,
    {
        assert(texts(paths@)[i as int] == paths@[i as int]@);
        if same_text(paths[i].as_str(), path) {
            return true;
        }
        i += 1;
    }
    assert(!texts(paths@).contains(path@));
    false
}

/// The pairs whose backup is among `present`.
pub open spec fn with_present_backup(
    planned: Seq<(Seq<char>, Seq<char>)>,
    present: Seq<Seq<char>>,
) -> Seq<(Seq<char>, Seq<char>)>
    decreases planned.len(),
{
    if planned.len() == 0 {
        Seq::empty()
    } else {
        let head = with_present_backup(planned.drop_last(), present);
        if present.contains(planned.last().1) {
            head.push(planned.last())
        } else {
            head
        }
    }
}

/// Of the planned backups those that exist. `present` lists the backup paths
/// at which something stands, a dangling link included.
pub fn observe_existing_backups(planned: &[(String, String)], present: &[String]) -> (r: Vec<
    (String, String),
>)
    ensures
        pair_texts(r@) == with_present_backup(pair_texts(planned@), texts(present@)),
{
    let mut out: Vec<(String, String)> = Vec::new();
    let ghost all = pair_texts(planned@);
    let mut i: usize = 0;
    assert(pair_texts(out@) == with_present_backup(all.take(0), texts(present@)));
    while i < planned.len()
        invariant
            i <= planned@.len(),
            all == pair_texts(planned@),
            pair_texts(out@) == with_present_backup(all.take(i as int), texts(present@)),
        decreases planned.len() - i,
    {
        let ghost was = out@;
        assert(all.take(i + 1).drop_last() == all.take(i as int));
        assert(all[i as int] == (planned@[i as int].0@, planned@[i as int].1@));
        if listed(present, planned[i].1.as_str()) {
            let a = planned[i].0.clone();
            let b = planned[i].1.clone();
            let ghost pair = (a@, b@);
            out.push((a, b));
            assert(pair_texts(out@) == pair_texts(was).push(pair));
        }
        i += 1;
    }
    assert(all.take(planned@.len() as int) == all);
    out
}

/// `file` is `base` with the backup suffix and a stamp of digits.
pub open spec fn our_backup(file: Seq<char>, base: Seq<char>) -> bool {
    match after_prefix(file, base + ".cys-backup-"@) {
        Some(stamp) => all_digits(stamp),
        None => false,
    }
}

/// Whether a file name is that of a backup of `base_name`.
pub fn is_our_backup_name(file_name: &str, base_name: &str) -> (r: bool)
    ensures
        r == our_backup(file_name@, base_name@),
{
    let mut prefix = base_name.to_owned();
    prefix.append(".cys-backup-");
    match strip_prefix(file_name, prefix.as_str()) {
        Some(stamp) => only_digits(stamp),
        None => false,
    }
}

/// What stands behind the last hyphen of a backup's name.
pub open spec fn stamp_of(name: Seq<char>) -> Seq<char> {
    match last_index(name, '-') {
        Some(i) => name.skip(i + 1),
        None => name,
    }
}

fn stamp_digits(name: &str) -> (r: Vec<char>)
    ensures
        r@ == stamp_of(name@),
{
    let v = chars_of(name);
    let from: usize = match find_last(&v, '-') {
        Some(i) => i + 1,
        None => 0,
    };
    let tail = text_of(&v, from, v.len());
    assert(tail@ == name@.skip(from as int));
    assert(name@.skip(0) == name@);
    chars_of(tail.as_str())
}

/// The stamp of a backup's name is made of digits.
proof fn lemma_stamp_is_digits(name: Seq<char>, base: Seq<char>)
    requires
        our_backup(name, base),
    ensures
        all_digits(stamp_of(name)),
        stamp_of(name) == name.skip((base + ".cys-backup-"@).len() as int),
{
    reveal_strlit(".cys-backup-");
    reveal_strlit(".cys-backup");
    let digits = name.skip((base + ".cys-backup-"@).len() as int);
    let front = base + ".cys-backup"@;
    assert(front.push('-') == base + ".cys-backup-"@);
    assert(name == front.push('-') + digits);
    assert forall|i: int| 0 <= i < digits.len() implies digits[i] != '-' by {
        assert(crate::text::is_digit(digits[i]));
    }
    crate::marks::lemma_last_index_tail(front, '-', digits);
    assert(name.skip(front.len() as int + 1) == digits);
}

/// `candidate` is a backup of `target`: in the same directory, with the name
/// of a backup of it.
pub open spec fn backs_up(candidate: Seq<char>, target: Seq<char>) -> bool {
    match (file_name_of(target), parent_of(target), parent_of(candidate), file_name_of(candidate)) {
        (Some(base), Some(dir), Some(cdir), Some(name)) => same_path_as(cdir, dir) && our_backup(
            name,
            base,
        ),
        _ => false,
    }
}

/// The number that the stamp in the name of a candidate writes.
pub open spec fn candidate_stamp(candidate: Seq<char>) -> nat {
    match file_name_of(candidate) {
        Some(name) => digits_value(stamp_of(name)),
        None => 0,
    }
}

/// The backup of `target` with the largest stamp, the last of equals.
pub open spec fn newest_backup(target: Seq<char>, candidates: Seq<Seq<char>>) -> Option<Seq<char>>
    decreases candidates.len(),
{
    if candidates.len() == 0 {
        None
    } else {
        let best = newest_backup(target, candidates.drop_last());
        let c = candidates.last();
        if backs_up(c, target) && (best matches Some(b) ==> candidate_stamp(c) >= candidate_stamp(
            b,
        )) {
            Some(c)
        } else {
            best
        }
    }
}

/// The backup that removing puts back at `target`.
pub fn pick_restore_backup(target: &str, candidates: &[String]) -> (r: Option<String>)
    ensures
        opt_text(r) == newest_backup(normalized(target@), texts(candidates@)),
{
    let target = normalize_path_str(target);
    let ghost all = texts(candidates@);
    let base = file_name(target.as_str());
    let dir = parent(target.as_str());
    let mut best: Option<(Vec<char>, String)> = None;
    let mut i: usize = 0;
    while i < candidates.len()
        invariant
            i <= candidates@.len(),
            all == texts(candidates@),
            opt_text(base) == file_name_of(target@),
            opt_text(dir) == parent_of(target@),
            match best {
                Some(b) => newest_backup(target@, all.take(i as int)) == Some(b.1@) && all_digits(
                    b.0@,
                ) && digits_value(b.0@) == candidate_stamp(b.1@),
                None => newest_backup(target@, all.take(i as int)) is None,
            },
        decreases candidates.len() - i,
    {
        assert(all.take(i + 1).drop_last() == all.take(i as int));
        assert(all[i as int] == candidates@[i as int]@);
        let c = candidates[i].as_str();
        let mut fits: bool = false;
        let mut stamp: Vec<char> = Vec::new();
        if let (Some(base), Some(dir)) = (&base, &dir) {
            if let (Some(cdir), Some(name)) = (parent(c), file_name(c)) {
                if same_path(cdir.as_str(), dir.as_str()) && is_our_backup_name(
                    name.as_str(),
                    base.as_str(),
                ) {
                    fits = true;
                    stamp = stamp_digits(name.as_str());
                    proof {
                        lemma_stamp_is_digits(name@, base@);
                    }
                }
            }
        }
        assert(fits == backs_up(c@, target@));
        if fits {
            let newer: bool = match &best {
                Some(b) => digits_at_least(&stamp, &b.0),
                None => true,
            };
            if newer {
                best = Some((stamp, candidates[i].clone()));
            }
        }
        i += 1;
    }
    assert(all.take(candidates@.len() as int) == all);
    match best {
        Some(b) => Some(b.1),
        None => None,
    }
}

/// The backups among the file names `names` of the directory `dir`, as paths.
pub open spec fn leftover_backups(
    dir: Seq<char>,
    bases: Seq<Seq<char>>,
    names: Seq<Seq<char>>,
) -> Seq<Seq<char>>
    decreases names.len(),
{
    if names.len() == 0 {
        Seq::empty()
    } else {
        let head = leftover_backups(dir, bases, names.drop_last());
        if exists|k: int| 0 <= k < bases.len() && our_backup(names.last(), #[trigger] bases[k]) {
            head.push(joined_path(dir, names.last()))
        } else {
            head
        }
    }
}

fn backup_of_any(name: &str, bases: &[&str]) -> (r: bool)
    ensures
        r <==> exists|k: int|
            0 <= k < bases@.len() && our_backup(name@, #[trigger] str_texts(bases@)[k]),
{
    let mut k: usize = 0;
    while k < bases.len()
        invariant
            k <= bases@.len(),
            forall|j: int| 0 <= j < k ==> !our_backup(name@, #[trigger] str_texts(bases@)[j]),
        decreases bases.len() - k,
    {
        assert(str_texts(bases@)[k as int] == bases@[k as int]@);
        if is_our_backup_name(name, bases[k]) {
            assert(our_backup(name@, str_texts(bases@)[k as int]));
            return true;
        }
        k += 1;
    }
    false
}

/// The backups left in `dir`, in order. `names` are the file names that
/// reading the directory gave, none where it cannot be read.
pub fn observe_leftover_backups(dir: &str, base_names: &[&str], names: &[String]) -> (r: Vec<
    String,
>)
    ensures
        in_order(texts(r@)),
        texts(r@).to_multiset() == leftover_backups(
            dir@,
            str_texts(base_names@),
            texts(names@),
        ).to_multiset(),
{
    let mut found: Vec<String> = Vec::new();
    let ghost all = texts(names@);
    let ghost bases = str_texts(base_names@);
    let mut i: usize = 0;
    assert(texts(found@) == leftover_backups(dir@, bases, all.take(0)));
    while i < names.len()
        invariant
            i <= names@.len(),
            all == texts(names@),
            bases == str_texts(base_names@),
            texts(found@) == leftover_backups(dir@, bases, all.take(i as int)),
        decreases names.len() - i,
    {
        let ghost was = found@;
        assert(all.take(i + 1).drop_last() == all.take(i as int));
        assert(all[i as int] == names@[i as int]@);
        if backup_of_any(names[i].as_str(), base_names) {
            let p = join(dir, names[i].as_str());
            found.push(p);
            assert(texts(found@) == texts(was).push(p@));
        }
        i += 1;
    }
    assert(all.take(names@.len() as int) == all);
    sort_texts(found)
}

/// The backup facts: what the script reported first, then what else was seen,
/// each pair once.
pub fn merge_backup_facts(
    reported: Vec<(String, String)>,
    observed: Vec<(String, String)>,
) -> (r: Vec<(String, String)>)
    ensures
        pair_texts(r@) == crate::marks::unique(pair_texts(reported@) + pair_texts(observed@)),
{
    let ghost all = pair_texts(reported@) + pair_texts(observed@);
    let mut out: Vec<(String, String)> = Vec::new();
    let mut i: usize = 0;
    assert(all.take(0) == Seq::<(Seq<char>, Seq<char>)>::empty());
    assert(pair_texts(out@) == crate::marks::unique(all.take(0)));
    while i < reported.len()
        invariant
            i <= reported.len(),
            all == pair_texts(reported@) + pair_texts(observed@),
            pair_texts(out@) == crate::marks::unique(all.take(i as int)),
        decreases reported.len() - i,
    {
        assert(all.take(i + 1).drop_last() == all.take(i as int));
        assert(all[i as int] == (reported@[i as int].0@, reported@[i as int].1@));
        crate::marks::add_pair(&mut out, reported[i].0.as_str(), reported[i].1.as_str());
        i += 1;
    }
    let mut k: usize = 0;
    while k < observed.len()
        invariant
            k <= observed.len(),
            all == pair_texts(reported@) + pair_texts(observed@),
            pair_texts(out@) == crate::marks::unique(all.take(reported@.len() + k)),
        decreases observed.len() - k,
    {
        let ghost n = reported@.len() + k;
        assert(all.take(n + 1).drop_last() == all.take(n));
        assert(all[n] == (observed@[k as int].0@, observed@[k as int].1@));
        crate::marks::add_pair(&mut out, observed[k].0.as_str(), observed[k].1.as_str());
        k += 1;
    }
    assert(all.take((reported@.len() + observed@.len()) as int) == all);
    out
}

/// What is put back is a backup of the target, none has a later stamp, and
/// something is put back wherever there is a backup.
pub proof fn law_newest_backup_is_put_back(target: Seq<char>, candidates: Seq<Seq<char>>)
    ensures
        match newest_backup(target, candidates) {
            Some(b) => candidates.contains(b) && backs_up(b, target) && forall|i: int|
                0 <= i < candidates.len() && backs_up(#[trigger] candidates[i], target)
                    ==> candidate_stamp(candidates[i]) <= candidate_stamp(b),
            None => forall|i: int|
                0 <= i < candidates.len() ==> !backs_up(#[trigger] candidates[i], target),
        },
    decreases candidates.len(),
{
    if candidates.len() > 0 {
        let u = candidates.drop_last();
        law_newest_backup_is_put_back(target, u);
        let n = candidates.len() - 1;
        assert(forall|i: int| 0 <= i < n ==> u[i] == candidates[i]);
        assert(candidates[n] == candidates.last());
        match newest_backup(target, candidates) {
            Some(b) => {
                if b == candidates.last() {
                    assert(candidates.contains(b));
                }
                if u.contains(b) {
                    let k = choose|k: int| 0 <= k < u.len() && u[k] == b;
                    assert(candidates[k] == b);
                }
                assert forall|i: int|
                    0 <= i < candidates.len() && backs_up(
                        #[trigger] candidates[i],
                        target,
                    ) implies candidate_stamp(candidates[i]) <= candidate_stamp(b) by {
                    if i < n {
                        assert(backs_up(u[i], target));
                    }
                }
            },
            None => {
                assert forall|i: int| 0 <= i < candidates.len() implies !backs_up(
                    #[trigger] candidates[i],
                    target,
                ) by {
                    if i < n {
                        assert(!backs_up(u[i], target));
                    }
                }
            },
        }
    }
}

proof fn lemma_last_index_no(a: Seq<char>, b: Seq<char>, c: char)
    requires
        forall|i: int| 0 <= i < b.len() ==> b[i] != c,
    ensures
        last_index(a + b, c) == last_index(a, c),
    decreases b.len(),
{
    if b.len() == 0 {
        assert(a + b == a);
    } else {
        let u = b.drop_last();
        assert(forall|i: int| 0 <= i < u.len() ==> u[i] == b[i]);
        lemma_last_index_no(a, u, c);
        assert((a + b).drop_last() == a + u);
        assert((a + b).last() == b.last());
    }
}

proof fn lemma_last_index_range(a: Seq<char>, c: char)
    ensures
        last_index(a, c) matches Some(i) ==> 0 <= i < a.len() && a[i] == c,
    decreases a.len(),
{
    if a.len() > 0 {
        lemma_last_index_range(a.drop_last(), c);
    }
}

/// A backup that installing names is recognised as a backup of its target when
/// removing looks for one, and its stamp is the one it was made with.
pub proof fn law_backup_is_recognised(target: Seq<char>, stamp: nat)
    requires
        file_name_of(target) is Some,
        shortened(target) == target,
    ensures
        backs_up(backup_path(target, decimal(stamp)), target),
        candidate_stamp(backup_path(target, decimal(stamp))) == stamp,
{
    reveal_strlit(".cys-backup-");
    let digits = decimal(stamp);
    crate::number::lemma_decimal_is_digits(stamp);
    crate::number::law_decimal_reads_back(stamp);
    let tail = ".cys-backup-"@ + digits;
    let path = backup_path(target, digits);
    assert(path == target + tail);
    assert forall|i: int| 0 <= i < tail.len() implies tail[i] != '/' by {
        if i >= 12 {
            assert(tail[i] == digits[i - 12]);
        }
    }
    lemma_last_index_no(target, tail, '/');
    lemma_last_index_range(target, '/');
    let k = name_start(target);
    let base = target.skip(k);
    assert(name_start(path) == k);
    assert(path.last() == digits.last());
    assert(crate::text::is_digit(digits[digits.len() - 1]));
    assert(shortened(path) == path);
    assert(path.skip(k) == base + tail);
    assert(path.take(k) == target.take(k));
    assert(file_name_of(target) == Some(base));
    crate::path::lemma_shortened_fixed(target);
    assert(base.len() > 0) by {
        if base.len() == 0 {
            assert(target.len() > lead(target));
            assert(target.last() == '/');
        }
    }
    assert(lead(path) == lead(target)) by {
        assert(path[0] == target[0]);
        if target.len() > 1 {
            assert(path[1] == target[1]);
        } else {
            assert(path[1] == tail[0]);
        }
    }
    assert(path.skip(k).len() > 2);
    let name = base + tail;
    assert(file_name_of(path) == Some(name));
    assert(parent_of(path) == Some(shortened(path.take(k))));
    assert(parent_of(target) == Some(shortened(target.take(k))));
    let prefix = base + ".cys-backup-"@;
    assert(name.subrange(0, prefix.len() as int) == prefix);
    assert(name.skip(prefix.len() as int) == digits);
    assert(our_backup(name, base));
    lemma_stamp_is_digits(name, base);
}

/// Of equally new backups the one that is listed last is put back.
pub proof fn law_last_of_the_newest_is_put_back(target: Seq<char>, candidates: Seq<Seq<char>>)
    ensures
        newest_backup(target, candidates) matches Some(b) ==> exists|i: int|
            0 <= i < candidates.len() && #[trigger] candidates[i] == b && forall|j: int|
                i < j < candidates.len() && backs_up(#[trigger] candidates[j], target)
                    ==> candidate_stamp(candidates[j]) < candidate_stamp(b),
    decreases candidates.len(),
{
    if candidates.len() > 0 {
        let n = candidates.len() - 1;
        let u = candidates.drop_last();
        law_last_of_the_newest_is_put_back(target, u);
        if let Some(b) = newest_backup(target, candidates) {
            if newest_backup(target, u) == Some(b) && !(backs_up(candidates[n], target)
                && candidate_stamp(candidates[n]) >= candidate_stamp(b)) {
                let i = choose|i: int|
                    0 <= i < u.len() && #[trigger] u[i] == b && forall|j: int|
                        i < j < u.len() && backs_up(#[trigger] u[j], target)
                            ==> candidate_stamp(u[j]) < candidate_stamp(b);
                assert(candidates[i] == b);
                assert forall|j: int|
                    i < j < candidates.len() && backs_up(
                        #[trigger] candidates[j],
                        target,
                    ) implies candidate_stamp(candidates[j]) < candidate_stamp(b) by {
                    if j < n {
                        assert(u[j] == candidates[j]);
                    }
                }
            } else {
                assert(candidates[n] == b);
            }
        }
    }
}

/// A name is that of a backup of `base` exactly where it is that name, the
/// backup suffix and at least one digit, with nothing but digits behind it.
pub proof fn law_backup_names(file: Seq<char>, base: Seq<char>)
    ensures
        our_backup(file, base) <==> exists|stamp: Seq<char>|
            file == #[trigger] (base + ".cys-backup-"@ + stamp) && stamp.len() > 0 && forall|i: int|
                0 <= i < stamp.len() ==> '0' <= #[trigger] stamp[i] <= '9',
{
    let front = base + ".cys-backup-"@;
    if our_backup(file, base) {
        let stamp = file.skip(front.len() as int);
        assert(file =~= front + stamp);
    }
    if exists|stamp: Seq<char>|
        file == #[trigger] (base + ".cys-backup-"@ + stamp) && stamp.len() > 0 && forall|i: int|
            0 <= i < stamp.len() ==> '0' <= #[trigger] stamp[i] <= '9' {
        let stamp = choose|stamp: Seq<char>|
            file == #[trigger] (base + ".cys-backup-"@ + stamp) && stamp.len() > 0 && forall|i: int|
                0 <= i < stamp.len() ==> '0' <= #[trigger] stamp[i] <= '9';
        assert(file.take(front.len() as int) =~= front);
        assert(file.skip(front.len() as int) =~= stamp);
    }
}

proof fn lemma_planned_backups(probes: Seq<LinkProbe>, stamp: Seq<char>)
    ensures
        planned_backups(probes, stamp) == probes.filter(
            |p: LinkProbe| foreign_at(p),
        ).map_values(|p: LinkProbe| (p.path@, backup_path(p.path@, stamp))),
    decreases probes.len(),
{
    reveal(Seq::filter);
    let r = probes.filter(|p: LinkProbe| foreign_at(p)).map_values(
        |p: LinkProbe| (p.path@, backup_path(p.path@, stamp)),
    );
    if probes.len() > 0 {
        lemma_planned_backups(probes.drop_last(), stamp);
    }
    assert(planned_backups(probes, stamp) =~= r);
}

/// Installing plans a backup for each place with something foreign, and for no
/// other, in the order of the places. Each goes to its place's own name with the
/// backup suffix and the stamp behind it, so two places never share a backup.
pub proof fn law_every_foreign_place_is_backed_up(probes: Seq<LinkProbe>, stamp: Seq<char>)
    ensures
        ({
            let r = planned_backups(probes, stamp);
            &&& r.len() == probes.filter(|p: LinkProbe| foreign_at(p)).len()
            &&& forall|i: int|
                0 <= i < probes.len() && foreign_at(#[trigger] probes[i]) ==> r.contains(
                    (probes[i].path@, probes[i].path@ + ".cys-backup-"@ + stamp),
                )
            &&& forall|pair: (Seq<char>, Seq<char>)| #[trigger]
                r.contains(pair) ==> exists|i: int|
                    0 <= i < probes.len() && foreign_at(#[trigger] probes[i]) && pair == (
                        probes[i].path@,
                        probes[i].path@ + ".cys-backup-"@ + stamp,
                    )
            &&& forall|j: int, k: int|
                0 <= j < r.len() && 0 <= k < r.len() && (#[trigger] r[j]).1 == (#[trigger] r[k]).1
                    ==> r[j].0 == r[k].0
        }),
{
    lemma_planned_backups(probes, stamp);
    let w = |p: LinkProbe| foreign_at(p);
    let r = planned_backups(probes, stamp);
    let f = probes.filter(w);
    let places = crate::order::lemma_chosen_places(probes, w);
    assert forall|i: int| 0 <= i < probes.len() && foreign_at(#[trigger] probes[i]) implies r.contains(
        (probes[i].path@, probes[i].path@ + ".cys-backup-"@ + stamp),
    ) by {
        assert(w(probes[i]));
        let j = choose|j: int| 0 <= j < places.len() && places[j] == i;
        assert(f[j] == probes[places[j]]);
        assert(r[j] == (probes[i].path@, probes[i].path@ + ".cys-backup-"@ + stamp));
    }
    assert forall|pair: (Seq<char>, Seq<char>)| #[trigger] r.contains(pair) implies exists|i: int|
        0 <= i < probes.len() && foreign_at(#[trigger] probes[i]) && pair == (
            probes[i].path@,
            probes[i].path@ + ".cys-backup-"@ + stamp,
        ) by {
        let j = choose|j: int| 0 <= j < r.len() && r[j] == pair;
        assert(f[j] == probes[places[j]]);
        assert(w(probes[places[j]]));
    }
    assert forall|j: int, k: int|
        0 <= j < r.len() && 0 <= k < r.len() && (#[trigger] r[j]).1 == (#[trigger] r[k]).1 implies r[j].0
        == r[k].0 by {
        let s = ".cys-backup-"@ + stamp;
        assert(r[j].1 =~= r[j].0 + s);
        assert(r[k].1 =~= r[k].0 + s);
        assert(r[j].0 =~= r[j].1.take(r[j].1.len() - s.len()));
        assert(r[k].0 =~= r[k].1.take(r[k].1.len() - s.len()));
    }
}

/// Of the planned backups exactly those that stand there are reported, in order.
pub proof fn law_present_backups_are_seen(
    planned: Seq<(Seq<char>, Seq<char>)>,
    present: Seq<Seq<char>>,
)
    ensures
        with_present_backup(planned, present) == planned.filter(
            |p: (Seq<char>, Seq<char>)| present.contains(p.1),
        ),
        forall|p: (Seq<char>, Seq<char>)|
            with_present_backup(planned, present).contains(p) <==> #[trigger] planned.contains(p)
                && present.contains(p.1),
    decreases planned.len(),
{
    reveal(Seq::filter);
    let w = |p: (Seq<char>, Seq<char>)| present.contains(p.1);
    if planned.len() > 0 {
        law_present_backups_are_seen(planned.drop_last(), present);
    }
    assert(with_present_backup(planned, present) =~= planned.filter(w));
    let f = planned.filter(w);
    let places = crate::order::lemma_chosen_places(planned, w);
    assert forall|p: (Seq<char>, Seq<char>)| f.contains(p) <==> #[trigger] planned.contains(p)
        && present.contains(p.1) by {
        if f.contains(p) {
            let j = choose|j: int| 0 <= j < f.len() && f[j] == p;
            assert(planned[places[j]] == p);
        }
        if planned.contains(p) && present.contains(p.1) {
            let i = choose|i: int| 0 <= i < planned.len() && planned[i] == p;
            assert(w(planned[i]));
            let j = choose|j: int| 0 <= j < places.len() && places[j] == i;
            assert(f[j] == planned[places[j]]);
        }
    }
}

/// Every file of the directory that has the name of a backup of one of the bases
/// is listed as left over, as a path in that directory, and nothing else is.
pub proof fn law_every_leftover_is_listed(
    dir: Seq<char>,
    bases: Seq<Seq<char>>,
    names: Seq<Seq<char>>,
)
    ensures
        ({
            let r = leftover_backups(dir, bases, names);
            &&& forall|i: int, k: int|
                0 <= i < names.len() && 0 <= k < bases.len() && our_backup(
                    #[trigger] names[i],
                    #[trigger] bases[k],
                ) ==> r.contains(joined_path(dir, names[i]))
            &&& forall|path: Seq<char>| #[trigger]
                r.contains(path) ==> exists|i: int, k: int|
                    0 <= i < names.len() && 0 <= k < bases.len() && our_backup(
                        #[trigger] names[i],
                        #[trigger] bases[k],
                    ) && path == joined_path(dir, names[i])
            &&& r.len() <= names.len()
        }),
    decreases names.len(),
{
    if names.len() > 0 {
        let n = names.len() - 1;
        let u = names.drop_last();
        law_every_leftover_is_listed(dir, bases, u);
        let (ru, r) = (leftover_backups(dir, bases, u), leftover_backups(dir, bases, names));
        assert forall|i: int, k: int|
            0 <= i < names.len() && 0 <= k < bases.len() && our_backup(
                #[trigger] names[i],
                #[trigger] bases[k],
            ) implies r.contains(joined_path(dir, names[i])) by {
            if i < n {
                assert(u[i] == names[i]);
                assert(ru.contains(joined_path(dir, u[i])));
                let j = choose|j: int| 0 <= j < ru.len() && ru[j] == joined_path(dir, u[i]);
                assert(r[j] == ru[j]);
            } else {
                assert(r[r.len() - 1] == joined_path(dir, names[i]));
            }
        }
        assert forall|path: Seq<char>| #[trigger] r.contains(path) implies exists|i: int, k: int|
            0 <= i < names.len() && 0 <= k < bases.len() && our_backup(
                #[trigger] names[i],
                #[trigger] bases[k],
            ) && path == joined_path(dir, names[i]) by {
            let j = choose|j: int| 0 <= j < r.len() && r[j] == path;
            if j < ru.len() {
                assert(r[j] == ru[j]);
                assert(ru.contains(path));
                let (i, k) = choose|i: int, k: int|
                    0 <= i < u.len() && 0 <= k < bases.len() && our_backup(
                        #[trigger] u[i],
                        #[trigger] bases[k],
                    ) && path == joined_path(dir, u[i]);
                assert(names[i] == u[i]);
                assert(our_backup(names[i], bases[k]));
            } else {
                let k = choose|k: int|
                    0 <= k < bases.len() && our_backup(names.last(), #[trigger] bases[k]);
                assert(our_backup(names[n], bases[k]));
            }
        }
    }
}

/// A file is a backup of a place exactly where both have a name and a directory,
/// the directories are the same, and the name is that of a backup of the place's.
pub proof fn law_backups_stand_beside_their_places(candidate: Seq<char>, target: Seq<char>)
    ensures
        backs_up(candidate, target) <==> {
            &&& file_name_of(target) is Some
            &&& parent_of(target) is Some
            &&& file_name_of(candidate) is Some
            &&& parent_of(candidate) is Some
            &&& same_path_as(parent_of(candidate)->0, parent_of(target)->0)
            &&& our_backup(file_name_of(candidate)->0, file_name_of(target)->0)
        },
        file_name_of(candidate) is None ==> candidate_stamp(candidate) == 0,
{
}

} // verus!
