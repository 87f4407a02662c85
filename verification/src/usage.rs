//! What the accounts used, put together from every daemon.

use vstd::prelude::*;

use crate::dept::{get_text, get_texts};
use crate::dept::{text_at, texts_at};
use crate::json::{object, put, texts_json, Json};
use crate::json::{members, text_array, trees, JsonTree};
use crate::order::order_by;
use crate::order::stable_order;
use crate::rpc::insert;
use crate::rpc::inserted;
use crate::text::{before, same_text};
use crate::text::{pair_texts, text_before, texts};

verus! {

broadcast use crate::json::group_json_views;

/// The text at `key`, or nothing.
pub open spec fn text_or_none(t: JsonTree, key: Seq<char>) -> Seq<char> {
    match text_at(t, key) {
        Some(s) => s,
        None => Seq::empty(),
    }
}

/// What an account is known by: its provider and its number.
pub open spec fn account_key_of(t: JsonTree) -> (Seq<char>, Seq<char>) {
    (text_or_none(t, "provider"@), text_or_none(t, "account_id"@))
}

fn text_or_empty(j: &Json, key: &str) -> (r: String)
    ensures
        r@ == text_or_none(j@, key@),
{
    match get_text(j, key) {
        Some(s) => s,
        None => String::new(),
    }
}

/// What an account is known by.
pub fn account_key(a: &Json) -> (r: (String, String))
    ensures
        (r.0@, r.1@) == account_key_of(a@),
{
    (text_or_empty(a, "provider"), text_or_empty(a, "account_id"))
}

/// The place of the account with the key of `account`, where it is known.
pub open spec fn place_of(known: Seq<JsonTree>, key: (Seq<char>, Seq<char>), i: int) -> Option<int>
    decreases known.len() - i,
{
    if i < 0 || i >= known.len() {
        None
    } else if account_key_of(known[i]) == key {
        Some(i)
    } else {
        place_of(known, key, i + 1)
    }
}

/// The place of the account with the same key, where it is known.
pub fn find_account(known: &Vec<Json>, account: &Json) -> (r: Option<usize>)
    ensures
        match r {
            Some(i) => i < known.len() && place_of(trees(known@), account_key_of(account@), 0)
                == Some(i as int) && account_key_of(known@[i as int]@) == account_key_of(account@),
            None => place_of(trees(known@), account_key_of(account@), 0) is None,
        },
{
    let (p, a) = account_key(account);
    let ghost key = account_key_of(account@);
    let ghost kt = trees(known@);
    let mut i: usize = 0;
    while i < known.len()
        invariant
            i <= known.len(),
            kt == trees(known@),
            key == (p@, a@),
            key == account_key_of(account@),
            place_of(kt, key, 0) == place_of(kt, key, i as int),
        decreases known.len() - i,
    {
        assert(kt[i as int] == known@[i as int]@);
        let (q, b) = account_key(&known[i]);
        if same_text(q.as_str(), p.as_str()) && same_text(b.as_str(), a.as_str()) {
            return Some(i);
        }
        i += 1;
    }
    None
}

/// The ordered list with `x` in it once.
pub open spec fn with_text(list: Seq<Seq<char>>, x: Seq<char>) -> Seq<Seq<char>>
    decreases list.len(),
{
    if list.len() == 0 {
        seq![x]
    } else if list[0] == x {
        list
    } else if text_before(x, list[0]) {
        seq![x] + list
    } else {
        seq![list[0]] + with_text(list.skip(1), x)
    }
}

/// The texts in order, each once.
pub open spec fn ordered_once(items: Seq<Seq<char>>) -> Seq<Seq<char>>
    decreases items.len(),
{
    if items.len() == 0 {
        Seq::empty()
    } else {
        with_text(ordered_once(items.drop_last()), items.last())
    }
}

fn insert_once(list: &mut Vec<String>, x: &str)
    ensures
        texts(final(list)@) == with_text(texts(old(list)@), x@),
{
    let ghost all = texts(list@);
    let mut i: usize = 0;
    assert(all.skip(0) =~= all);
    assert(all.take(0) + with_text(all.skip(0), x@) =~= with_text(all, x@));
    while i < list.len() && !same_text(list[i].as_str(), x) && !before(x, list[i].as_str())
        invariant
            i <= list.len(),
            list@ == old(list)@,
            all == texts(list@),
            all.take(i as int) + with_text(all.skip(i as int), x@) == with_text(all, x@),
        decreases list.len() - i,
    {
        assert(all[i as int] == list@[i as int]@);
        let ghost rest = all.skip(i as int);
        assert(rest.skip(1) =~= all.skip(i + 1));
        assert(rest[0] == all[i as int]);
        assert(all.take(i as int) + (seq![rest[0]] + with_text(rest.skip(1), x@)) =~= all.take(
            i + 1,
        ) + with_text(all.skip(i + 1), x@));
        i += 1;
    }
    let ghost rest = all.skip(i as int);
    assert(i < all.len() ==> rest[0] == list@[i as int]@);
    if i < list.len() && same_text(list[i].as_str(), x) {
        assert(all.take(i as int) + rest =~= all);
    } else {
        list.insert(i, x.to_owned());
        assert(texts(list@) =~= all.take(i as int) + (seq![x@] + rest));
        assert(rest.len() == 0 ==> seq![x@] + rest =~= seq![x@]);
    }
}

/// The texts of `s` come before one another, so none repeats.
pub open spec fn strictly_ordered(s: Seq<Seq<char>>) -> bool {
    forall|i: int, j: int| 0 <= i < j < s.len() ==> text_before(#[trigger] s[i], #[trigger] s[j])
}

proof fn lemma_with_text(list: Seq<Seq<char>>, x: Seq<char>)
    requires
        strictly_ordered(list),
    ensures
        strictly_ordered(with_text(list, x)),
        forall|y: Seq<char>| #[trigger]
            with_text(list, x).contains(y) <==> list.contains(y) || y == x,
    decreases list.len(),
{
    let w = with_text(list, x);
    if list.len() == 0 {
        assert(w =~= seq![x]);
        assert(w[0] == x);
    } else if list[0] == x {
        assert(list.contains(x));
    } else if text_before(x, list[0]) {
        assert(w =~= seq![x] + list);
        assert(w[0] == x);
        assert forall|i: int, j: int| 0 <= i < j < w.len() implies text_before(
            #[trigger] w[i],
            #[trigger] w[j],
        ) by {
            assert(w[j] == list[j - 1]);
            if i == 0 {
                if j > 1 {
                    assert(text_before(list[0], list[j - 1]));
                    crate::order::lemma_text_before_transitive(x, list[0], list[j - 1]);
                }
            } else {
                assert(w[i] == list[i - 1]);
            }
        }
        assert forall|y: Seq<char>| #[trigger] w.contains(y) <==> list.contains(y) || y == x by {
            if list.contains(y) {
                let k = choose|k: int| 0 <= k < list.len() && list[k] == y;
                assert(w[k + 1] == y);
            }
            if w.contains(y) && y != x {
                let k = choose|k: int| 0 <= k < w.len() && w[k] == y;
                assert(list[k - 1] == y);
            }
        }
    } else {
        let tail = list.skip(1);
        assert forall|i: int, j: int| 0 <= i < j < tail.len() implies text_before(
            #[trigger] tail[i],
            #[trigger] tail[j],
        ) by {
            assert(tail[i] == list[i + 1]);
            assert(tail[j] == list[j + 1]);
        }
        lemma_with_text(tail, x);
        let wt = with_text(tail, x);
        assert(w =~= seq![list[0]] + wt);
        assert(w[0] == list[0]);
        crate::order::lemma_text_before_total(x, list[0]);
        assert forall|i: int, j: int| 0 <= i < j < w.len() implies text_before(
            #[trigger] w[i],
            #[trigger] w[j],
        ) by {
            assert(w[j] == wt[j - 1]);
            if i == 0 {
                assert(wt.contains(w[j]));
                if w[j] != x {
                    assert(tail.contains(w[j]));
                    let k = choose|k: int| 0 <= k < tail.len() && tail[k] == w[j];
                    assert(list[k + 1] == w[j]);
                    assert(text_before(list[0], list[k + 1]));
                }
            } else {
                assert(w[i] == wt[i - 1]);
            }
        }
        assert forall|y: Seq<char>| #[trigger] w.contains(y) <==> list.contains(y) || y == x by {
            if list.contains(y) {
                let k = choose|k: int| 0 <= k < list.len() && list[k] == y;
                if k == 0 {
                    assert(w[0] == y);
                } else {
                    assert(tail[k - 1] == y);
                    assert(tail.contains(y));
                    assert(wt.contains(y));
                    let q = choose|q: int| 0 <= q < wt.len() && wt[q] == y;
                    assert(w[q + 1] == y);
                }
            }
            if y == x {
                assert(wt.contains(x));
                let q = choose|q: int| 0 <= q < wt.len() && wt[q] == x;
                assert(w[q + 1] == x);
            }
            if w.contains(y) && y != x {
                let k = choose|k: int| 0 <= k < w.len() && w[k] == y;
                if k > 0 {
                    assert(wt[k - 1] == y);
                    assert(wt.contains(y));
                    assert(tail.contains(y));
                    let q = choose|q: int| 0 <= q < tail.len() && tail[q] == y;
                    assert(list[q + 1] == y);
                } else {
                    assert(list[0] == y);
                }
            }
        }
    }
}

/// Putting texts in order once loses none, adds none and repeats none.
pub proof fn law_ordered_once(items: Seq<Seq<char>>)
    ensures
        strictly_ordered(ordered_once(items)),
        forall|y: Seq<char>| #[trigger]
            ordered_once(items).contains(y) <==> items.contains(y),
    decreases items.len(),
{
    if items.len() > 0 {
        let u = items.drop_last();
        law_ordered_once(u);
        lemma_with_text(ordered_once(u), items.last());
        assert forall|y: Seq<char>| #[trigger]
            ordered_once(items).contains(y) <==> items.contains(y) by {
            if items.contains(y) {
                let k = choose|k: int| 0 <= k < items.len() && items[k] == y;
                if k < u.len() {
                    assert(u[k] == y);
                    assert(u.contains(y));
                }
            }
            if u.contains(y) {
                let k = choose|k: int| 0 <= k < u.len() && u[k] == y;
                assert(items[k] == y);
            }
            assert(items[items.len() - 1] == items.last());
        }
    }
}

/// The account with members, where it is an object or nothing yet.
pub open spec fn as_account(t: JsonTree) -> JsonTree {
    match t {
        JsonTree::Null => JsonTree::Object(Seq::empty()),
        _ => t,
    }
}

/// Two reports on one account put together: the newer one counts, the profiles
/// of both are kept, and the scoped figures come from the report whose scoped
/// figures are newer.
pub open spec fn merged_account(
    cur: JsonTree,
    new: JsonTree,
    newer: bool,
    scoped_newer: bool,
) -> JsonTree {
    let base = as_account(
        if newer {
            new
        } else {
            cur
        },
    );
    let profiles = ordered_once(texts_at(cur, "profiles"@) + texts_at(new, "profiles"@));
    let scoped = if scoped_newer {
        new.at("scoped"@)
    } else {
        cur.at("scoped"@)
    };
    inserted(inserted(base, "profiles"@, text_array(profiles)), "scoped"@, scoped)
}

fn once_of(a: &Vec<String>, b: &Vec<String>) -> (r: Vec<String>)
    ensures
        texts(r@) == ordered_once(texts(a@) + texts(b@)),
{
    let mut all: Vec<String> = Vec::new();
    crate::install::extend(&mut all, a);
    crate::install::extend(&mut all, b);
    let ghost at = texts(all@);
    assert(at =~= texts(a@) + texts(b@));
    let mut out: Vec<String> = Vec::new();
    let mut i: usize = 0;
    assert(texts(out@) =~= ordered_once(at.take(0)));
    while i < all.len()
        invariant
            i <= all.len(),
            at == texts(all@),
            texts(out@) == ordered_once(at.take(i as int)),
        decreases all.len() - i,
    {
        assert(at.take(i + 1).drop_last() =~= at.take(i as int));
        assert(at.take(i + 1).last() == all@[i as int]@);
        insert_once(&mut out, all[i].as_str());
        i += 1;
    }
    assert(at.take(all.len() as int) =~= at);
    out
}

fn member_or_null(j: &Json, key: &str) -> (r: Json)
    ensures
        r@ == j@.at(key@),
{
    match j.get(key) {
        Some(x) => x.duplicate(),
        None => Json::Null,
    }
}

/// Whether a report can take members.
pub open spec fn takes_members(t: JsonTree) -> bool {
    t is Object || t is Null
}

/// Two reports on one account put together.
pub fn merge_account(cur: &Json, new: &Json, newer: bool, scoped_newer: bool) -> (r: Json)
    requires
        takes_members(
            if newer {
                new@
            } else {
                cur@
            },
        ),
    ensures
        r@ == merged_account(cur@, new@, newer, scoped_newer),
{
    let scoped = if scoped_newer {
        member_or_null(new, "scoped")
    } else {
        member_or_null(cur, "scoped")
    };
    let profiles = once_of(&get_texts(cur, "profiles"), &get_texts(new, "profiles"));
    let base = if newer {
        new.duplicate()
    } else {
        cur.duplicate()
    };
    let base = match base {
        Json::Null => Json::Object(object()),
        other => other,
    };
    insert(insert(base, "profiles", texts_json(&profiles)), "scoped", scoped)
}

/// The accounts with one more report: put together with what is known of the
/// account, or as a new one.
pub open spec fn with_account(
    known: Seq<JsonTree>,
    account: JsonTree,
    newer: bool,
    scoped_newer: bool,
) -> Seq<JsonTree> {
    match place_of(known, account_key_of(account), 0) {
        Some(i) => known.update(i, merged_account(known[i], account, newer, scoped_newer)),
        None => known.push(account),
    }
}

/// The report that counts can take members, where the account is known.
pub open spec fn addable(known: Seq<JsonTree>, account: JsonTree, newer: bool) -> bool {
    match place_of(known, account_key_of(account), 0) {
        Some(i) => takes_members(
            if newer {
                account
            } else {
                known[i]
            },
        ),
        None => true,
    }
}

/// Takes one more report into the accounts: put together with what is known of
/// the account, or as a new one. `newer` and `scoped_newer` compare its times
/// with those of the known account.
pub fn add_account(known: &mut Vec<Json>, account: Json, newer: bool, scoped_newer: bool)
    requires
        addable(trees(old(known)@), account@, newer),
    ensures
        trees(final(known)@) == with_account(
            trees(old(known)@),
            account@,
            newer,
            scoped_newer,
        ),
{
    match find_account(known, &account) {
        Some(i) => {
            let merged = merge_account(&known[i], &account, newer, scoped_newer);
            let ghost mt = merged@;
            known.set(i, merged);
            assert(trees(known@) =~= trees(old(known)@).update(i as int, mt));
        },
        None => {
            let ghost at = account@;
            known.push(account);
            assert(trees(known@) =~= trees(old(known)@).push(at));
        },
    }
}

/// What the accounts are sorted by.
pub open spec fn account_order_keys(known: Seq<JsonTree>) -> Seq<(Seq<char>, Seq<char>)> {
    known.map_values(|t: JsonTree| (text_or_none(t, "provider"@), text_or_none(t, "label"@)))
}

/// The accounts in the order of provider and label.
pub fn usage_accounts_all(known: &Vec<Json>) -> (r: Json)
    ensures
        exists|order: Seq<usize>| #[trigger]
            stable_order(account_order_keys(trees(known@)), order, known@.len() as int) && r@
                == JsonTree::Object(
                seq![
                    (
                        "accounts"@,
                        JsonTree::Array(order.map_values(|i: usize| trees(known@)[i as int])),
                    ),
                ],
            ),
{
    let ghost kt = trees(known@);
    let ghost want_keys = account_order_keys(kt);
    let mut keys: Vec<(String, String)> = Vec::new();
    let mut i: usize = 0;
    while i < known.len()
        invariant
            i <= known.len(),
            kt == trees(known@),
            want_keys == account_order_keys(kt),
            pair_texts(keys@) == want_keys.take(i as int),
        decreases known.len() - i,
    {
        let ghost was = keys@;
        let p = text_or_empty(&known[i], "provider");
        let l = text_or_empty(&known[i], "label");
        let ghost key = (p@, l@);
        keys.push((p, l));
        assert(kt[i as int] == known@[i as int]@);
        assert(pair_texts(keys@) =~= pair_texts(was).push(key));
        assert(want_keys.take(i + 1) =~= want_keys.take(i as int).push(want_keys[i as int]));
        i += 1;
    }
    assert(want_keys.take(known.len() as int) =~= want_keys);
    assert(pair_texts(keys@).len() == keys@.len());
    let order = order_by(&keys);
    let ghost want = order@.map_values(|i: usize| kt[i as int]);
    let mut out: Vec<Json> = Vec::new();
    let mut k: usize = 0;
    while k < order.len()
        invariant
            k <= order.len(),
            kt == trees(known@),
            stable_order(want_keys, order@, known@.len() as int),
            want == order@.map_values(|i: usize| kt[i as int]),
            trees(out@) == want.take(k as int),
        decreases order.len() - k,
    {
        let ghost was = out@;
        assert(order@[k as int] < known.len());
        let j = known[order[k]].duplicate();
        out.push(j);
        assert(trees(out@) =~= trees(was).push(j@));
        assert(want.take(k + 1) =~= want.take(k as int).push(want[k as int]));
        k += 1;
    }
    assert(want.take(order.len() as int) =~= want);
    let mut m = object();
    put(&mut m, "accounts", Json::Array(out));
    assert(members(m@) =~= seq![("accounts"@, JsonTree::Array(want))]);
    Json::Object(m)
}

/// However two reports on an account compare in time, the profiles of both are
/// kept, and the scoped figures go by their own time.
pub proof fn law_merging_keeps_profiles_and_scope(
    cur: JsonTree,
    new: JsonTree,
    newer: bool,
    scoped_newer: bool,
)
    requires
        takes_members(
            if newer {
                new
            } else {
                cur
            },
        ),
    ensures
        merged_account(cur, new, newer, scoped_newer).at("profiles"@) == text_array(
            ordered_once(texts_at(cur, "profiles"@) + texts_at(new, "profiles"@)),
        ),
        merged_account(cur, new, newer, scoped_newer).at("scoped"@) == (if scoped_newer {
            new.at("scoped"@)
        } else {
            cur.at("scoped"@)
        }),
{
    reveal_strlit("profiles");
    reveal_strlit("scoped");
    let base = as_account(
        if newer {
            new
        } else {
            cur
        },
    );
    let profiles = text_array(
        ordered_once(texts_at(cur, "profiles"@) + texts_at(new, "profiles"@)),
    );
    let scoped = if scoped_newer {
        new.at("scoped"@)
    } else {
        cur.at("scoped"@)
    };
    assert("profiles"@.len() != "scoped"@.len());
    let m = base->Object_0;
    crate::rpc::law_insert_reads_back(m, "profiles"@, profiles, "scoped"@);
    let one = inserted(base, "profiles"@, profiles);
    crate::rpc::law_insert_reads_back(one->Object_0, "scoped"@, scoped, "profiles"@);
}

/// How reports compare in time: a number for what a report has at `updated_at`,
/// and one for its scoped figures.
pub struct Times {
    pub of_report: spec_fn(JsonTree) -> int,
    pub of_scoped: spec_fn(JsonTree) -> int,
}

impl Times {
    /// The time of a report.
    pub open spec fn report(self, t: JsonTree) -> int {
        (self.of_report)(t.at("updated_at"@))
    }

    /// The time of a report's scoped figures.
    pub open spec fn scoped(self, t: JsonTree) -> int {
        (self.of_scoped)(t.at("scoped"@))
    }

    /// `new` is a later report than `cur`.
    pub open spec fn newer(self, new: JsonTree, cur: JsonTree) -> bool {
        self.report(new) > self.report(cur)
    }

    /// `new` has later scoped figures than `cur`.
    pub open spec fn scoped_newer(self, new: JsonTree, cur: JsonTree) -> bool {
        self.scoped(new) > self.scoped(cur)
    }
}

/// The account with the key of `report`, where it is known; null otherwise.
pub open spec fn known_account(known: Seq<JsonTree>, report: JsonTree) -> JsonTree {
    match place_of(known, account_key_of(report), 0) {
        Some(i) => known[i],
        None => JsonTree::Null,
    }
}

/// The accounts after the reports, taken in one after the other.
pub open spec fn accounts_after(reports: Seq<JsonTree>, times: Times) -> Seq<JsonTree>
    decreases reports.len(),
{
    if reports.len() == 0 {
        Seq::empty()
    } else {
        let known = accounts_after(reports.drop_last(), times);
        let new = reports.last();
        let cur = known_account(known, new);
        with_account(known, new, times.newer(new, cur), times.scoped_newer(new, cur))
    }
}

/// Each report can be taken in when its turn comes.
pub open spec fn all_addable(reports: Seq<JsonTree>, times: Times) -> bool
    decreases reports.len(),
{
    reports.len() > 0 ==> {
        let known = accounts_after(reports.drop_last(), times);
        let new = reports.last();
        all_addable(reports.drop_last(), times) && addable(
            known,
            new,
            times.newer(new, known_account(known, new)),
        )
    }
}

/// The reports on one account.
pub open spec fn reports_on(reports: Seq<JsonTree>, key: (Seq<char>, Seq<char>)) -> Seq<JsonTree>
    decreases reports.len(),
{
    if reports.len() == 0 {
        Seq::empty()
    } else if account_key_of(reports.last()) == key {
        reports_on(reports.drop_last(), key).push(reports.last())
    } else {
        reports_on(reports.drop_last(), key)
    }
}

/// The profiles of all reports, one report after the other.
pub open spec fn all_profiles(reports: Seq<JsonTree>) -> Seq<Seq<char>>
    decreases reports.len(),
{
    if reports.len() == 0 {
        Seq::empty()
    } else {
        all_profiles(reports.drop_last()) + texts_at(reports.last(), "profiles"@)
    }
}

/// `j` is the first place of the largest number.
pub open spec fn first_largest(numbers: Seq<int>, j: int) -> bool {
    &&& 0 <= j < numbers.len()
    &&& forall|i: int| 0 <= i < numbers.len() ==> #[trigger] numbers[i] <= numbers[j]
    &&& forall|i: int| 0 <= i < j ==> #[trigger] numbers[i] < numbers[j]
}

/// The times of reports.
pub open spec fn report_times(reports: Seq<JsonTree>, times: Times) -> Seq<int> {
    reports.map_values(|t: JsonTree| times.report(t))
}

/// The times of the scoped figures of reports.
pub open spec fn scoped_times(reports: Seq<JsonTree>, times: Times) -> Seq<int> {
    reports.map_values(|t: JsonTree| times.scoped(t))
}

/// `t` says what the report says, but for the profiles and the scoped figures.
pub open spec fn says_as(t: JsonTree, report: JsonTree) -> bool {
    forall|m: Seq<char>|
        m != "profiles"@ && m != "scoped"@ ==> #[trigger] t.member(m) == report.member(m)
}

/// `t` is what the reports on one account amount to: the only report as it is;
/// of several what the first of the latest says, with the profiles of all in
/// order, each once. The scoped figures are the first of the latest.
pub open spec fn sums_up(t: JsonTree, reports: Seq<JsonTree>, times: Times) -> bool {
    &&& reports.len() > 0
    &&& reports.len() == 1 ==> t == reports[0]
    &&& exists|j: int| #[trigger]
        first_largest(report_times(reports, times), j) && says_as(t, reports[j])
    &&& exists|j: int| #[trigger]
        first_largest(scoped_times(reports, times), j) && t.at("scoped"@) == reports[j].at(
            "scoped"@,
        )
    &&& reports.len() > 1 ==> t.at("profiles"@) == text_array(ordered_once(all_profiles(reports)))
}

proof fn lemma_strictly_ordered_unique(a: Seq<Seq<char>>, b: Seq<Seq<char>>)
    requires
        strictly_ordered(a),
        strictly_ordered(b),
        forall|y: Seq<char>| #[trigger] a.contains(y) <==> b.contains(y),
    ensures
        a == b,
    decreases a.len(),
{
    if a.len() == 0 {
        if b.len() > 0 {
            assert(b.contains(b[0]));
            assert(a.contains(b[0]));
        }
        assert(a =~= b);
    } else {
        assert(a.contains(a[0]));
        let j = choose|j: int| 0 <= j < b.len() && b[j] == a[0];
        assert(b.contains(b[0]));
        assert(a.contains(b[0]));
        let i = choose|i: int| 0 <= i < a.len() && a[i] == b[0];
        if i > 0 && j > 0 {
            assert(text_before(a[0], a[i]));
            assert(text_before(b[0], b[j]));
            crate::order::lemma_text_before_transitive(a[0], b[0], a[0]);
            crate::order::lemma_text_before_irreflexive(a[0]);
        }
        assert(a[0] == b[0]);
        let x = a.skip(1);
        let y = b.skip(1);
        assert forall|p: int, q: int| 0 <= p < q < x.len() implies text_before(
            #[trigger] x[p],
            #[trigger] x[q],
        ) by {
            assert(x[p] == a[p + 1] && x[q] == a[q + 1]);
        }
        assert forall|p: int, q: int| 0 <= p < q < y.len() implies text_before(
            #[trigger] y[p],
            #[trigger] y[q],
        ) by {
            assert(y[p] == b[p + 1] && y[q] == b[q + 1]);
        }
        assert forall|t: Seq<char>| #[trigger] x.contains(t) <==> y.contains(t) by {
            crate::order::lemma_text_before_irreflexive(a[0]);
            if x.contains(t) {
                let p = choose|p: int| 0 <= p < x.len() && x[p] == t;
                assert(a[p + 1] == t);
                assert(text_before(a[0], a[p + 1]));
                assert(a.contains(t));
                let q = choose|q: int| 0 <= q < b.len() && b[q] == t;
                assert(y[q - 1] == t);
            }
            if y.contains(t) {
                let p = choose|p: int| 0 <= p < y.len() && y[p] == t;
                assert(b[p + 1] == t);
                assert(text_before(b[0], b[p + 1]));
                assert(b.contains(t));
                assert(a.contains(t));
                let q = choose|q: int| 0 <= q < a.len() && a[q] == t;
                assert(x[q - 1] == t);
            }
        }
        lemma_strictly_ordered_unique(x, y);
        assert(a =~= seq![a[0]] + x);
        assert(b =~= seq![b[0]] + y);
    }
}

/// Texts put in order once stay so when more come to them.
proof fn lemma_ordered_once_again(a: Seq<Seq<char>>, b: Seq<Seq<char>>)
    ensures
        ordered_once(ordered_once(a) + b) == ordered_once(a + b),
{
    law_ordered_once(a);
    law_ordered_once(ordered_once(a) + b);
    law_ordered_once(a + b);
    let o = ordered_once(a);
    assert forall|y: Seq<char>| #[trigger] ordered_once(o + b).contains(y) <==> ordered_once(
        a + b,
    ).contains(y) by {
        lemma_concat_contains(o, b, y);
        lemma_concat_contains(a, b, y);
        assert(o.contains(y) <==> a.contains(y));
        assert((o + b).contains(y) <==> ordered_once(o + b).contains(y));
        assert((a + b).contains(y) <==> ordered_once(a + b).contains(y));
    }
    lemma_strictly_ordered_unique(ordered_once(o + b), ordered_once(a + b));
}

proof fn lemma_concat_contains(a: Seq<Seq<char>>, b: Seq<Seq<char>>, y: Seq<char>)
    ensures
        (a + b).contains(y) <==> a.contains(y) || b.contains(y),
{
    if a.contains(y) {
        let k = choose|k: int| 0 <= k < a.len() && a[k] == y;
        assert((a + b)[k] == y);
    }
    if b.contains(y) {
        let k = choose|k: int| 0 <= k < b.len() && b[k] == y;
        assert((a + b)[a.len() + k] == y);
    }
    if (a + b).contains(y) {
        let k = choose|k: int| 0 <= k < (a + b).len() && (a + b)[k] == y;
        if k < a.len() {
            assert(a[k] == y);
        } else {
            assert(b[k - a.len()] == y);
        }
    }
}

/// The texts of an array of texts are those texts.
proof fn lemma_texts_of_array(v: Seq<Seq<char>>)
    ensures
        crate::dept::text_items(text_array(v)->Array_0) == v,
    decreases v.len(),
{
    let a = text_array(v)->Array_0;
    if v.len() > 0 {
        lemma_texts_of_array(v.drop_last());
        assert(a.drop_last() =~= text_array(v.drop_last())->Array_0);
        assert(a.last() == JsonTree::Text(v.last()));
        assert(v.drop_last().push(v.last()) =~= v);
    } else {
        assert(v =~= Seq::<Seq<char>>::empty());
    }
}

/// Putting two reports together keeps every member of the one that counts but
/// the profiles and the scoped figures.
proof fn lemma_merged_says(cur: JsonTree, new: JsonTree, newer: bool, scoped_newer: bool)
    requires
        takes_members(
            if newer {
                new
            } else {
                cur
            },
        ),
    ensures
        says_as(
            merged_account(cur, new, newer, scoped_newer),
            if newer {
                new
            } else {
                cur
            },
        ),
{
    let base = if newer {
        new
    } else {
        cur
    };
    let full = as_account(base);
    let profiles = text_array(
        ordered_once(texts_at(cur, "profiles"@) + texts_at(new, "profiles"@)),
    );
    let scoped = if scoped_newer {
        new.at("scoped"@)
    } else {
        cur.at("scoped"@)
    };
    let one = inserted(full, "profiles"@, profiles);
    assert forall|m: Seq<char>| m != "profiles"@ && m != "scoped"@ implies #[trigger] merged_account(
        cur,
        new,
        newer,
        scoped_newer,
    ).member(m) == base.member(m) by {
        crate::rpc::law_insert_reads_back(full->Object_0, "profiles"@, profiles, m);
        crate::rpc::law_insert_reads_back(one->Object_0, "scoped"@, scoped, m);
    }
}

proof fn lemma_key_follows(t: JsonTree, report: JsonTree)
    requires
        says_as(t, report),
    ensures
        account_key_of(t) == account_key_of(report),
        t.at("updated_at"@) == report.at("updated_at"@),
{
    reveal_strlit("profiles");
    reveal_strlit("scoped");
    reveal_strlit("provider");
    reveal_strlit("account_id");
    reveal_strlit("updated_at");
    assert("provider"@[3] != "profiles"@[3]);
    assert("provider"@.len() != "scoped"@.len());
    assert(t.member("provider"@) == report.member("provider"@));
    assert(t.member("account_id"@) == report.member("account_id"@));
    assert(t.member("updated_at"@) == report.member("updated_at"@));
}

proof fn lemma_first_largest_push(numbers: Seq<int>, j: int, n: int)
    requires
        first_largest(numbers, j),
    ensures
        n > numbers[j] ==> first_largest(numbers.push(n), numbers.len() as int),
        n <= numbers[j] ==> first_largest(numbers.push(n), j),
{
    let w = numbers.push(n);
    assert(forall|i: int| 0 <= i < numbers.len() ==> #[trigger] w[i] == numbers[i]);
}

/// One more report on an account that earlier reports on it were summed up in.
proof fn lemma_sum_goes_on(t: JsonTree, reports: Seq<JsonTree>, new: JsonTree, times: Times)
    requires
        sums_up(t, reports, times),
        takes_members(
            if times.newer(new, t) {
                new
            } else {
                t
            },
        ),
    ensures
        sums_up(
            merged_account(t, new, times.newer(new, t), times.scoped_newer(new, t)),
            reports.push(new),
            times,
        ),
{
    let newer = times.newer(new, t);
    let scoped_newer = times.scoped_newer(new, t);
    let m = merged_account(t, new, newer, scoped_newer);
    let all = reports.push(new);
    law_merging_keeps_profiles_and_scope(t, new, newer, scoped_newer);
    lemma_merged_says(t, new, newer, scoped_newer);

    let j = choose|j: int| #[trigger]
        first_largest(report_times(reports, times), j) && says_as(t, reports[j]);
    lemma_key_follows(t, reports[j]);
    assert(report_times(all, times) =~= report_times(reports, times).push(times.report(new)));
    assert(report_times(reports, times)[j] == times.report(reports[j]));
    lemma_first_largest_push(report_times(reports, times), j, times.report(new));
    let jj = if newer {
        reports.len() as int
    } else {
        j
    };
    assert(first_largest(report_times(all, times), jj));
    assert(all[jj] == if newer {
        new
    } else {
        reports[j]
    });
    assert(says_as(m, all[jj])) by {
        assert forall|k: Seq<char>| k != "profiles"@ && k != "scoped"@ implies #[trigger] m.member(
            k,
        ) == all[jj].member(k) by {
            if !newer {
                assert(m.member(k) == t.member(k));
                assert(t.member(k) == reports[j].member(k));
            }
        }
    }

    let s = choose|s: int| #[trigger]
        first_largest(scoped_times(reports, times), s) && t.at("scoped"@) == reports[s].at(
            "scoped"@,
        );
    assert(scoped_times(all, times) =~= scoped_times(reports, times).push(times.scoped(new)));
    assert(scoped_times(reports, times)[s] == times.scoped(reports[s]));
    lemma_first_largest_push(scoped_times(reports, times), s, times.scoped(new));
    let ss = if scoped_newer {
        reports.len() as int
    } else {
        s
    };
    assert(first_largest(scoped_times(all, times), ss));
    assert(m.at("scoped"@) == all[ss].at("scoped"@));

    let before = texts_at(t, "profiles"@);
    let more = texts_at(new, "profiles"@);
    assert(all.drop_last() =~= reports);
    assert(all_profiles(all) == all_profiles(reports) + more);
    if reports.len() == 1 {
        assert(all_profiles(reports.drop_last()) == Seq::<Seq<char>>::empty());
        assert(all_profiles(reports) =~= texts_at(reports[0], "profiles"@));
    } else {
        lemma_texts_of_array(ordered_once(all_profiles(reports)));
        assert(before == ordered_once(all_profiles(reports)));
        lemma_ordered_once_again(all_profiles(reports), more);
    }
}

proof fn lemma_place(known: Seq<JsonTree>, key: (Seq<char>, Seq<char>), from: int)
    requires
        0 <= from,
    ensures
        match place_of(known, key, from) {
            Some(i) => from <= i < known.len() && account_key_of(known[i]) == key,
            None => forall|i: int|
                from <= i < known.len() ==> account_key_of(#[trigger] known[i]) != key,
        },
    decreases known.len() - from,
{
    if from < known.len() && account_key_of(known[from]) != key {
        lemma_place(known, key, from + 1);
    }
}

proof fn lemma_reports_on_none(reports: Seq<JsonTree>, key: (Seq<char>, Seq<char>))
    requires
        forall|r: int| 0 <= r < reports.len() ==> account_key_of(#[trigger] reports[r]) != key,
    ensures
        reports_on(reports, key).len() == 0,
    decreases reports.len(),
{
    if reports.len() > 0 {
        let u = reports.drop_last();
        assert(forall|r: int| 0 <= r < u.len() ==> #[trigger] u[r] == reports[r]);
        assert(account_key_of(reports[reports.len() - 1]) != key);
        lemma_reports_on_none(u, key);
    }
}

/// Whatever reports come in, each account that any of them speaks of is there
/// once, and no other, and it is what the reports on it amount to: the latest
/// report counts, the first of equals, with the profiles of all of them, and the
/// scoped figures go by their own time. The numbers of `times` stand for the
/// times, of which only the order matters.
pub proof fn law_accounts_sum_up_their_reports(reports: Seq<JsonTree>, times: Times)
    requires
        all_addable(reports, times),
    ensures
        ({
            let known = accounts_after(reports, times);
            &&& forall|i: int, j: int|
                0 <= i < j < known.len() ==> account_key_of(#[trigger] known[i]) != account_key_of(
                    #[trigger] known[j],
                )
            &&& forall|r: int|
                0 <= r < reports.len() ==> exists|i: int|
                    0 <= i < known.len() && account_key_of(#[trigger] known[i]) == account_key_of(
                        #[trigger] reports[r],
                    )
            &&& forall|i: int|
                0 <= i < known.len() ==> sums_up(
                    #[trigger] known[i],
                    reports_on(reports, account_key_of(known[i])),
                    times,
                )
        }),
    decreases reports.len(),
{
    if reports.len() > 0 {
        let init = reports.drop_last();
        let new = reports.last();
        let key = account_key_of(new);
        law_accounts_sum_up_their_reports(init, times);
        let was = accounts_after(init, times);
        let known = accounts_after(reports, times);
        lemma_place(was, key, 0);
        let at: int = match place_of(was, key, 0) {
            Some(p) => {
                lemma_sum_goes_on(was[p], reports_on(init, key), new, times);
                lemma_merged_says(
                    was[p],
                    new,
                    times.newer(new, was[p]),
                    times.scoped_newer(new, was[p]),
                );
                lemma_key_follows(
                    known[p],
                    if times.newer(new, was[p]) {
                        new
                    } else {
                        was[p]
                    },
                );
                p
            },
            None => {
                assert forall|r: int| 0 <= r < init.len() implies account_key_of(
                    #[trigger] init[r],
                ) != key by {
                    let i = choose|i: int|
                        0 <= i < was.len() && account_key_of(#[trigger] was[i]) == account_key_of(
                            init[r],
                        );
                    assert(account_key_of(was[i]) != key);
                }
                lemma_reports_on_none(init, key);
                assert(reports_on(init, key) =~= Seq::<JsonTree>::empty());
                assert(reports_on(reports, key) =~= seq![new]);
                lemma_one_report(new, times);
                was.len() as int
            },
        };
        assert(account_key_of(known[at]) == key);
        assert(sums_up(known[at], reports_on(reports, key), times));
        assert forall|i: int| 0 <= i < known.len() && i != at implies #[trigger] known[i] == was[i]
            && i < was.len() && account_key_of(known[i]) != key by {
            assert(account_key_of(was[i]) != key);
        }
        assert forall|i: int, j: int| 0 <= i < j < known.len() implies account_key_of(
            #[trigger] known[i],
        ) != account_key_of(#[trigger] known[j]) by {
            if i != at && j != at {
                assert(account_key_of(was[i]) != account_key_of(was[j]));
            }
        }
        assert forall|r: int| 0 <= r < reports.len() implies exists|i: int|
            0 <= i < known.len() && account_key_of(#[trigger] known[i]) == account_key_of(
                #[trigger] reports[r],
            ) by {
            if r < init.len() {
                assert(init[r] == reports[r]);
                let i = choose|i: int|
                    0 <= i < was.len() && account_key_of(#[trigger] was[i]) == account_key_of(
                        init[r],
                    );
                assert(account_key_of(known[i]) == account_key_of(reports[r]));
            } else {
                assert(account_key_of(known[at]) == account_key_of(reports[r]));
            }
        }
        assert forall|i: int| 0 <= i < known.len() implies sums_up(
            #[trigger] known[i],
            reports_on(reports, account_key_of(known[i])),
            times,
        ) by {
            if i != at {
                assert(sums_up(was[i], reports_on(init, account_key_of(was[i])), times));
            }
        }
    }
}

proof fn lemma_one_report(new: JsonTree, times: Times)
    ensures
        sums_up(new, seq![new], times),
{
    let reports = seq![new];
    assert(first_largest(report_times(reports, times), 0));
    assert(first_largest(scoped_times(reports, times), 0));
    assert(says_as(new, reports[0]));
}

/// An account is known by the provider and the number that its report gives,
/// nothing for what is no text; it is sorted by its provider and its label.
pub proof fn law_account_keys(t: JsonTree, provider: Seq<char>, id: Seq<char>)
    ensures
        t.member("provider"@) == Some(JsonTree::Text(provider)) ==> account_key_of(t).0 == provider,
        t.member("account_id"@) == Some(JsonTree::Text(id)) ==> account_key_of(t).1 == id,
        !(t.member("provider"@) matches Some(JsonTree::Text(_))) ==> account_key_of(t).0.len() == 0,
        !(t.member("account_id"@) matches Some(JsonTree::Text(_))) ==> account_key_of(t).1.len()
            == 0,
{
}

/// The place of an account is the first one that has its key.
pub proof fn law_first_place_of_an_account(known: Seq<JsonTree>, key: (Seq<char>, Seq<char>))
    ensures
        match place_of(known, key, 0) {
            Some(i) => 0 <= i < known.len() && account_key_of(known[i]) == key && forall|j: int|
                0 <= j < i ==> account_key_of(#[trigger] known[j]) != key,
            None => forall|j: int|
                0 <= j < known.len() ==> account_key_of(#[trigger] known[j]) != key,
        },
{
    lemma_first_place(known, key, 0);
}

proof fn lemma_first_place(known: Seq<JsonTree>, key: (Seq<char>, Seq<char>), from: int)
    requires
        0 <= from,
    ensures
        match place_of(known, key, from) {
            Some(i) => from <= i < known.len() && account_key_of(known[i]) == key && forall|j: int|
                from <= j < i ==> account_key_of(#[trigger] known[j]) != key,
            None => forall|j: int|
                from <= j < known.len() ==> account_key_of(#[trigger] known[j]) != key,
        },
    decreases known.len() - from,
{
    if from < known.len() && account_key_of(known[from]) != key {
        lemma_first_place(known, key, from + 1);
    }
}

/// One more report changes the account that it speaks of and no other, and adds
/// one exactly where that account is not known.
pub proof fn law_report_touches_only_its_account(
    known: Seq<JsonTree>,
    account: JsonTree,
    newer: bool,
    scoped_newer: bool,
)
    ensures
        ({
            let r = with_account(known, account, newer, scoped_newer);
            match place_of(known, account_key_of(account), 0) {
                Some(i) => {
                    &&& r.len() == known.len()
                    &&& r[i] == merged_account(known[i], account, newer, scoped_newer)
                    &&& forall|j: int| 0 <= j < r.len() && j != i ==> #[trigger] r[j] == known[j]
                },
                None => {
                    &&& r.len() == known.len() + 1
                    &&& r.last() == account
                    &&& forall|j: int| 0 <= j < known.len() ==> #[trigger] r[j] == known[j]
                },
            }
        }),
{
    lemma_place(known, account_key_of(account), 0);
}

/// The accounts are shown all and each once, in the order of their providers and,
/// below one provider, of their labels; equal ones as they came.
pub proof fn law_accounts_are_shown_in_order(known: Seq<JsonTree>, order: Seq<usize>)
    requires
        stable_order(account_order_keys(known), order, known.len() as int),
    ensures
        order.len() == known.len(),
        order.no_duplicates(),
        forall|k: usize| k < known.len() ==> #[trigger] order.contains(k),
        forall|i: int, j: int|
            0 <= i < j < order.len() ==> {
                let a = known[(#[trigger] order[i]) as int];
                let b = known[(#[trigger] order[j]) as int];
                let (pa, pb) = (text_or_none(a, "provider"@), text_or_none(b, "provider"@));
                let (la, lb) = (text_or_none(a, "label"@), text_or_none(b, "label"@));
                &&& !text_before(pb, pa)
                &&& pa == pb ==> !text_before(lb, la)
                &&& pa == pb && la == lb ==> order[i] < order[j]
            },
{
    let keys = account_order_keys(known);
    crate::order::lemma_stable_order_is_complete(keys, order, known.len() as int);
    assert forall|i: int, j: int| 0 <= i < j < order.len() implies {
        let a = known[(#[trigger] order[i]) as int];
        let b = known[(#[trigger] order[j]) as int];
        let (pa, pb) = (text_or_none(a, "provider"@), text_or_none(b, "provider"@));
        let (la, lb) = (text_or_none(a, "label"@), text_or_none(b, "label"@));
        &&& !text_before(pb, pa)
        &&& pa == pb ==> !text_before(lb, la)
        &&& pa == pb && la == lb ==> order[i] < order[j]
    } by {
        let (p, q) = (order[i] as int, order[j] as int);
        assert(keys[p] == (
            text_or_none(known[p], "provider"@),
            text_or_none(known[p], "label"@),
        ));
        assert(keys[q] == (
            text_or_none(known[q], "provider"@),
            text_or_none(known[q], "label"@),
        ));
    }
}

} // verus!
