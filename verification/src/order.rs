//! Ordering texts.

use vstd::prelude::*;

use crate::text::{before, same_text};
use crate::text::{pair_texts, text_before, texts};

verus! {

/// No text of `s` stands behind one that it comes before.
pub open spec fn in_order(s: Seq<Seq<char>>) -> bool {
    forall|i: int, j: int| 0 <= i < j < s.len() ==> !text_before(#[trigger] s[j], #[trigger] s[i])
}

/// Pairs of texts in the order of the first, then of the second.
pub open spec fn pair_before(a: (Seq<char>, Seq<char>), b: (Seq<char>, Seq<char>)) -> bool {
    text_before(a.0, b.0) || (a.0 == b.0 && text_before(a.1, b.1))
}

pub proof fn lemma_text_before_irreflexive(a: Seq<char>)
    ensures
        !text_before(a, a),
    decreases a.len(),
{
    if a.len() > 0 {
        lemma_text_before_irreflexive(a.skip(1));
    }
}

pub proof fn lemma_text_before_total(a: Seq<char>, b: Seq<char>)
    ensures
        a == b || text_before(a, b) || text_before(b, a),
    decreases a.len(),
{
    if a.len() == 0 {
        if b.len() == 0 {
            assert(a == b);
        }
    } else if b.len() > 0 && a[0] == b[0] {
        lemma_text_before_total(a.skip(1), b.skip(1));
        if a.skip(1) == b.skip(1) {
            assert(a == seq![a[0]] + a.skip(1));
            assert(b == seq![b[0]] + b.skip(1));
        }
    }
}

pub proof fn lemma_text_before_transitive(a: Seq<char>, b: Seq<char>, c: Seq<char>)
    requires
        text_before(a, b),
        text_before(b, c),
    ensures
        text_before(a, c),
    decreases a.len(),
{
    if a.len() > 0 && a[0] == b[0] && b[0] == c[0] {
        lemma_text_before_transitive(a.skip(1), b.skip(1), c.skip(1));
    }
}

proof fn lemma_pair_before_transitive(
    a: (Seq<char>, Seq<char>),
    b: (Seq<char>, Seq<char>),
    c: (Seq<char>, Seq<char>),
)
    requires
        pair_before(a, b),
        pair_before(b, c),
    ensures
        pair_before(a, c),
{
    if text_before(a.0, b.0) && text_before(b.0, c.0) {
        lemma_text_before_transitive(a.0, b.0, c.0);
    }
    if text_before(a.1, b.1) && text_before(b.1, c.1) {
        lemma_text_before_transitive(a.1, b.1, c.1);
    }
}

proof fn lemma_pair_before_total(a: (Seq<char>, Seq<char>), b: (Seq<char>, Seq<char>))
    ensures
        a == b || pair_before(a, b) || pair_before(b, a),
{
    lemma_text_before_total(a.0, b.0);
    lemma_text_before_total(a.1, b.1);
}

proof fn lemma_pair_before_irreflexive(a: (Seq<char>, Seq<char>))
    ensures
        !pair_before(a, a),
{
    lemma_text_before_irreflexive(a.0);
    lemma_text_before_irreflexive(a.1);
}

/// Puts `x` into the ordered list, behind the texts that it equals.
fn insert_text(list: &mut Vec<String>, x: String)
    requires
        in_order(texts(old(list)@)),
    ensures
        in_order(texts(final(list)@)),
        texts(final(list)@).to_multiset() == texts(old(list)@).to_multiset().insert(x@),
{
    let ghost old_texts = texts(list@);
    let mut i: usize = 0;
    while i < list.len() && !before(x.as_str(), list[i].as_str())
        invariant
            i <= list.len(),
            list@ == old(list)@,
            old_texts == texts(list@),
            forall|j: int| 0 <= j < i ==> !text_before(x@, #[trigger] old_texts[j]),
        decreases list.len() - i,
    {
        assert(old_texts[i as int] == list@[i as int]@);
        i += 1;
    }
    assert(i < list.len() ==> text_before(x@, old_texts[i as int]));
    let ghost xt = x@;
    list.insert(i, x);
    let ghost new_texts = texts(list@);
    proof {
        assert(new_texts == old_texts.insert(i as int, xt));
        assert forall|a: int, b: int| 0 <= a < b < new_texts.len() implies !text_before(
            #[trigger] new_texts[b],
            #[trigger] new_texts[a],
        ) by {
            if a == i {
                assert(new_texts[b] == old_texts[b - 1]);
                if text_before(old_texts[b - 1], xt) {
                    lemma_text_before_transitive(old_texts[b - 1], xt, old_texts[i as int]);
                    if b - 1 == i {
                        lemma_text_before_irreflexive(old_texts[i as int]);
                    }
                }
            } else if b == i {
                assert(new_texts[a] == old_texts[a]);
            } else {
                let a0 = if a < i {
                    a
                } else {
                    a - 1
                };
                let b0 = if b < i {
                    b
                } else {
                    b - 1
                };
                assert(new_texts[a] == old_texts[a0]);
                assert(new_texts[b] == old_texts[b0]);
            }
        }
        assert(new_texts.remove(i as int) == old_texts);
        vstd::seq_lib::to_multiset_remove(new_texts, i as int);
        new_texts.to_multiset_ensures();
        assert(new_texts[i as int] == xt);
        assert(new_texts.contains(xt));
        assert(new_texts.to_multiset() =~= old_texts.to_multiset().insert(xt));
    }
}

/// The texts in the order of their code points.
pub fn sort_texts(items: Vec<String>) -> (r: Vec<String>)
    ensures
        in_order(texts(r@)),
        texts(r@).to_multiset() == texts(items@).to_multiset(),
{
    let mut out: Vec<String> = Vec::new();
    let ghost all = texts(items@);
    let mut i: usize = 0;
    assert(texts(out@) == all.take(0));
    while i < items.len()
        invariant
            i <= items.len(),
            all == texts(items@),
            in_order(texts(out@)),
            texts(out@).to_multiset() == all.take(i as int).to_multiset(),
        decreases items.len() - i,
    {
        assert(all[i as int] == items@[i as int]@);
        insert_text(&mut out, items[i].clone());
        proof {
            assert(all.take(i + 1) == all.take(i as int).push(all[i as int]));
            vstd::seq_lib::to_multiset_build(all.take(i as int), all[i as int]);
        }
        i += 1;
    }
    assert(all.take(items.len() as int) == all);
    out
}

/// `order` names each of the `count` first keys once, no key stands behind one
/// that it comes before, and equal keys keep their order.
pub open spec fn stable_order(
    keys: Seq<(Seq<char>, Seq<char>)>,
    order: Seq<usize>,
    count: int,
) -> bool {
    &&& order.len() == count
    &&& order.no_duplicates()
    &&& forall|i: int| 0 <= i < order.len() ==> #[trigger] order[i] < count
    &&& forall|i: int, j: int|
        0 <= i < j < order.len() ==> {
            &&& !pair_before(keys[#[trigger] order[j] as int], keys[#[trigger] order[i] as int])
            &&& keys[order[i] as int] == keys[order[j] as int] ==> order[i] < order[j]
        }
}

fn key_before(a: &(String, String), b: &(String, String)) -> (r: bool)
    ensures
        r == pair_before((a.0@, a.1@), (b.0@, b.1@)),
{
    before(a.0.as_str(), b.0.as_str()) || (same_text(a.0.as_str(), b.0.as_str()) && before(
        a.1.as_str(),
        b.1.as_str(),
    ))
}

/// The order in which the keys stand when sorted.
pub fn order_by(keys: &Vec<(String, String)>) -> (order: Vec<usize>)
    ensures
        stable_order(pair_texts(keys@), order@, keys@.len() as int),
{
    let ghost kt = pair_texts(keys@);
    let mut order: Vec<usize> = Vec::new();
    let mut k: usize = 0;
    while k < keys.len()
        invariant
            k <= keys.len(),
            kt == pair_texts(keys@),
            stable_order(kt, order@, k as int),
        decreases keys.len() - k,
    {
        let mut i: usize = 0;
        while i < order.len() && !key_before(&keys[k], &keys[order[i]])
            invariant
                k < keys.len(),
                kt == pair_texts(keys@),
                i <= order.len(),
                stable_order(kt, order@, k as int),
                forall|j: int|
                    0 <= j < i ==> !pair_before(
                        kt[k as int],
                        kt[#[trigger] order@[j] as int],
                    ),
            decreases order.len() - i,
        {
            i += 1;
        }
        let ghost was = order@;
        order.insert(i, k);
        proof {
            let now = order@;
            assert(now == was.insert(i as int, k));
            let kk = kt[k as int];
            assert forall|a: int| 0 <= a < now.len() implies #[trigger] now[a] < k + 1 by {
                if a != i {
                    let a0 = if a < i {
                        a
                    } else {
                        a - 1
                    };
                    assert(now[a] == was[a0]);
                }
            }
            assert forall|a: int, b: int| 0 <= a < b < now.len() implies {
                &&& !pair_before(
                    kt[#[trigger] now[b] as int],
                    kt[#[trigger] now[a] as int],
                )
                &&& kt[now[a] as int] == kt[now[b] as int] ==> now[a]
                    < now[b]
                &&& now[a] != now[b]
            } by {
                let a0 = if a < i {
                    a
                } else {
                    a - 1
                };
                let b0 = if b < i {
                    b
                } else {
                    b - 1
                };
                if a == i {
                    assert(now[b] == was[b0]);
                    let kb = kt[was[b0] as int];
                    let ki = kt[was[i as int] as int];
                    assert(pair_before(kk, ki));
                    assert(pair_before(kk, kb)) by {
                        if b0 != i {
                            lemma_pair_before_total(ki, kb);
                            if pair_before(ki, kb) {
                                lemma_pair_before_transitive(kk, ki, kb);
                            }
                        }
                    }
                    if pair_before(kb, kk) {
                        lemma_pair_before_transitive(kb, kk, kb);
                        lemma_pair_before_irreflexive(kb);
                    }
                    lemma_pair_before_irreflexive(kk);
                } else if b == i {
                    assert(now[a] == was[a0]);
                } else {
                    assert(now[a] == was[a0]);
                    assert(now[b] == was[b0]);
                }
            }
            assert(now.no_duplicates());
        }
        k += 1;
    }
    order
}

/// Where in `s` the chosen items stand: in rising order, and all of them.
pub proof fn lemma_chosen_places<A>(s: Seq<A>, chosen: spec_fn(A) -> bool) -> (places: Seq<int>)
    ensures
        places.len() == s.filter(chosen).len(),
        forall|j: int|
            0 <= j < places.len() ==> 0 <= #[trigger] places[j] < s.len() && chosen(s[places[j]])
                && s.filter(chosen)[j] == s[places[j]],
        forall|j: int, k: int| 0 <= j < k < places.len() ==> places[j] < places[k],
        forall|i: int|
            0 <= i < s.len() && chosen(#[trigger] s[i]) ==> exists|j: int|
                0 <= j < places.len() && places[j] == i,
    decreases s.len(),
{
    reveal(Seq::filter);
    if s.len() == 0 {
        Seq::empty()
    } else {
        let n = s.len() - 1;
        let head = lemma_chosen_places(s.drop_last(), chosen);
        if chosen(s.last()) {
            let all = head.push(n);
            assert forall|i: int| 0 <= i < s.len() && chosen(#[trigger] s[i]) implies exists|j: int|
                0 <= j < all.len() && all[j] == i by {
                if i < n {
                    assert(s.drop_last()[i] == s[i]);
                    let j = choose|j: int| 0 <= j < head.len() && head[j] == i;
                    assert(all[j] == i);
                } else {
                    assert(all[head.len() as int] == i);
                }
            }
            all
        } else {
            assert forall|i: int| 0 <= i < s.len() && chosen(#[trigger] s[i]) implies exists|j: int|
                0 <= j < head.len() && head[j] == i by {
                assert(s.drop_last()[i] == s[i]);
            }
            head
        }
    }
}

/// A stable order leaves no key out.
pub proof fn lemma_stable_order_is_complete(
    keys: Seq<(Seq<char>, Seq<char>)>,
    order: Seq<usize>,
    count: int,
)
    requires
        stable_order(keys, order, count),
    ensures
        forall|k: usize| k < count ==> #[trigger] order.contains(k),
{
    let places = order.map_values(|i: usize| i as int);
    assert(places.no_duplicates()) by {
        assert forall|i: int, j: int|
            0 <= i < places.len() && 0 <= j < places.len() && i != j implies places[i]
            != places[j] by {
            assert(order[i] != order[j]);
        }
    }
    places.unique_seq_to_set();
    let all = vstd::set_lib::set_int_range(0, count);
    vstd::set_lib::lemma_int_range(0, count);
    assert(places.to_set().subset_of(all)) by {
        assert forall|k: int| places.to_set().contains(k) implies all.contains(k) by {
            let i = choose|i: int| 0 <= i < places.len() && places[i] == k;
            assert(order[i] < count);
        }
    }
    vstd::set_lib::lemma_subset_equality(places.to_set(), all);
    assert forall|k: usize| k < count implies #[trigger] order.contains(k) by {
        assert(all.contains(k as int));
        assert(places.to_set().contains(k as int));
        let i = choose|i: int| 0 <= i < places.len() && places[i] == k as int;
        assert(order[i] == k);
    }
}

/// In an ordered list each text is the same as every later one or comes before
/// it.
pub proof fn law_ordered_texts(s: Seq<Seq<char>>)
    ensures
        in_order(s) <==> forall|i: int, j: int|
            0 <= i < j < s.len() ==> #[trigger] s[i] == #[trigger] s[j] || text_before(s[i], s[j]),
{
    assert forall|i: int, j: int| 0 <= i < j < s.len() implies (!text_before(
        #[trigger] s[j],
        #[trigger] s[i],
    ) <==> s[i] == s[j] || text_before(s[i], s[j])) by {
        lemma_text_before_total(s[i], s[j]);
        lemma_text_before_irreflexive(s[i]);
        if text_before(s[i], s[j]) && text_before(s[j], s[i]) {
            lemma_text_before_transitive(s[i], s[j], s[i]);
        }
    }
    if in_order(s) {
        assert forall|i: int, j: int| 0 <= i < j < s.len() implies #[trigger] s[i]
            == #[trigger] s[j] || text_before(s[i], s[j]) by {
            assert(!text_before(s[j], s[i]));
        }
    }
    if forall|i: int, j: int|
        0 <= i < j < s.len() ==> #[trigger] s[i] == #[trigger] s[j] || text_before(s[i], s[j]) {
        assert forall|i: int, j: int| 0 <= i < j < s.len() implies !text_before(
            #[trigger] s[j],
            #[trigger] s[i],
        ) by {
            assert(s[i] == s[j] || text_before(s[i], s[j]));
        }
    }
}

/// Pairs are ordered by their first texts, and by their second where those are
/// the same.
pub proof fn law_ordered_pairs(a: (Seq<char>, Seq<char>), b: (Seq<char>, Seq<char>))
    ensures
        a.0 != b.0 ==> (pair_before(a, b) <==> text_before(a.0, b.0)),
        a.0 == b.0 ==> (pair_before(a, b) <==> text_before(a.1, b.1)),
{
    if a.0 == b.0 {
        lemma_text_before_irreflexive(a.0);
    }
}

} // verus!
