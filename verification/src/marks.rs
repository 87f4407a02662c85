//! What the privileged scripts print: lines as `osascript` returns them, and
//! the marked pairs in them.

use vstd::prelude::*;

use crate::text::{chars_of, find_last, first_word, join_strs, occurs, same_text};
use crate::text::{last_index, joined, occurs_at, pair_texts, str_texts, words_of};

verus! {

/// The pieces of `s` between its line ends: a carriage return, a line feed, or
/// the two together.
pub open spec fn script_pieces(s: Seq<char>) -> Seq<Seq<char>>
    decreases s.len(),
{
    if s.len() == 0 {
        seq![Seq::empty()]
    } else {
        let head = script_pieces(s.drop_last());
        if s.last() == '\n' && s.len() >= 2 && s[s.len() - 2] == '\r' {
            head
        } else if s.last() == '\r' || s.last() == '\n' {
            head.push(Seq::empty())
        } else {
            head.drop_last().push(head.last().push(s.last()))
        }
    }
}

/// The lines of `s`: its pieces, without an empty one behind the last line
/// end.
pub open spec fn script_lines(s: Seq<char>) -> Seq<Seq<char>> {
    let p = script_pieces(s);
    if p.last().len() == 0 {
        p.drop_last()
    } else {
        p
    }
}

/// The lines of what `osascript` printed.
pub fn split_osascript_lines<'a>(s: &'a str) -> (r: Vec<&'a str>)
    ensures
        str_texts(r@) == script_lines(s@),
{
    let v = chars_of(s);
    let mut out: Vec<&'a str> = Vec::new();
    let mut start: usize = 0;
    let mut i: usize = 0;
    assert(s@.take(0) == Seq::<char>::empty());
    assert(str_texts(out@).push(s@.subrange(0, 0)) == script_pieces(s@.take(0)));
    while i < v.len()
        invariant
            v@ == s@,
            start <= i <= v.len(),
            i > 0 && v@[i - 1] == '\r' ==> start == i,
            str_texts(out@).push(s@.subrange(start as int, i as int)) == script_pieces(
                s@.take(i as int),
            ),
        decreases v.len() - i,
    {
        let ghost before = out@;
        let ghost head = script_pieces(s@.take(i as int));
        assert(s@.take(i + 1).drop_last() == s@.take(i as int));
        assert(s@.take(i + 1).last() == v@[i as int]);
        assert(i > 0 ==> s@.take(i + 1)[i - 1] == v@[i - 1]);
        if v[i] == '\n' && i > 0 && v[i - 1] == '\r' {
            assert(s@.subrange(i + 1, i + 1) == s@.subrange(start as int, i as int));
            start = i + 1;
        } else if v[i] == '\r' || v[i] == '\n' {
            let piece = s.substring_char(start, i);
            out.push(piece);
            assert(str_texts(out@) == str_texts(before).push(piece@));
            start = i + 1;
            assert(s@.subrange(start as int, i + 1) == Seq::<char>::empty());
        } else {
            assert(head.drop_last() == str_texts(before));
            assert(s@.subrange(start as int, i + 1) == s@.subrange(start as int, i as int).push(
                v@[i as int],
            ));
        }
        i += 1;
    }
    assert(s@.take(v.len() as int) == s@);
    let ghost pieces = script_pieces(s@);
    let ghost before = out@;
    assert(pieces.last() == s@.subrange(start as int, v.len() as int));
    if start < v.len() {
        let last = s.substring_char(start, v.len());
        out.push(last);
        assert(str_texts(out@) == str_texts(before).push(last@));
    } else {
        assert(pieces.drop_last() == str_texts(before));
    }
    out
}

/// What `osascript` printed, with line feeds between the lines.
pub fn osascript_text_to_lf(s: &str) -> (r: String)
    ensures
        r@ == joined(script_lines(s@), "\n"@),
{
    join_strs(&split_osascript_lines(s), "\n")
}

/// The pair that the first word of `rest` writes as `a:b`, split at the last
/// colon, where neither side is empty.
pub open spec fn pair_of(rest: Seq<char>) -> Option<(Seq<char>, Seq<char>)> {
    let words = words_of(rest);
    if words.len() == 0 {
        None
    } else {
        match last_index(words[0], ':') {
            None => None,
            Some(i) => if 0 < i < words[0].len() - 1 {
                Some((words[0].take(i), words[0].skip(i + 1)))
            } else {
                None
            },
        }
    }
}

/// The pairs behind each occurrence of `prefix` in `line`, from position `i`
/// on. Occurrences do not overlap.
pub open spec fn line_pairs(line: Seq<char>, prefix: Seq<char>, i: int) -> Seq<
    (Seq<char>, Seq<char>),
>
    decreases line.len() + 1 - i,
{
    if i < 0 || i + prefix.len() > line.len() {
        Seq::empty()
    } else if occurs_at(line, prefix, i) {
        let rest = line_pairs(
            line,
            prefix,
            if prefix.len() == 0 {
                i + 1
            } else {
                i + prefix.len()
            },
        );
        match pair_of(line.skip(i + prefix.len())) {
            Some(p) => seq![p] + rest,
            None => rest,
        }
    } else {
        line_pairs(line, prefix, i + 1)
    }
}

/// The pairs of all lines, in order.
pub open spec fn lines_pairs(lines: Seq<Seq<char>>, prefix: Seq<char>) -> Seq<
    (Seq<char>, Seq<char>),
>
    decreases lines.len(),
{
    if lines.len() == 0 {
        Seq::empty()
    } else {
        lines_pairs(lines.drop_last(), prefix) + line_pairs(lines.last(), prefix, 0)
    }
}

/// `s` without the repetitions: the first of equal items stays.
pub open spec fn unique<T>(s: Seq<T>) -> Seq<T>
    decreases s.len(),
{
    if s.len() == 0 {
        s
    } else {
        let head = unique(s.drop_last());
        if head.contains(s.last()) {
            head
        } else {
            head.push(s.last())
        }
    }
}

/// The pairs that follow `prefix` in what a script printed.
pub open spec fn marked_pairs(out: Seq<char>, prefix: Seq<char>) -> Seq<(Seq<char>, Seq<char>)> {
    unique(lines_pairs(script_lines(out), prefix))
}

/// Whether the pair is among those found.
pub fn holds_pair(found: &Vec<(String, String)>, a: &str, b: &str) -> (r: bool)
    ensures
        r == pair_texts(found@).contains((a@, b@)),
{
    let mut i: usize = 0;
    while i < found.len()
        invariant
            i <= found.len(),
            forall|j: int| 0 <= j < i ==> #[trigger] pair_texts(found@)[j] != (a@, b@),
        decreases found.len() - i,
    {
        assert(pair_texts(found@)[i as int] == (found@[i as int].0@, found@[i as int].1@));
        if same_text(found[i].0.as_str(), a) && same_text(found[i].1.as_str(), b) {
            return true;
        }
        i += 1;
    }
    assert(!pair_texts(found@).contains((a@, b@)));
    false
}

/// Adds the pair where it is not there yet.
pub fn add_pair(found: &mut Vec<(String, String)>, a: &str, b: &str)
    ensures
        pair_texts(final(found)@) == (if pair_texts(old(found)@).contains((a@, b@)) {
            pair_texts(old(found)@)
        } else {
            pair_texts(old(found)@).push((a@, b@))
        }),
{
    if !holds_pair(found, a, b) {
        found.push((a.to_owned(), b.to_owned()));
        assert(pair_texts(found@) == pair_texts(old(found)@).push((a@, b@)));
    }
}

proof fn lemma_unique_push<T>(s: Seq<T>, x: T)
    ensures
        unique(s.push(x)) == (if unique(s).contains(x) {
            unique(s)
        } else {
            unique(s).push(x)
        }),
{
    assert(s.push(x).drop_last() == s);
}

/// The pair that the first word of `rest` writes.
fn split_pair(rest: &str) -> (r: Option<(String, String)>)
    ensures
        match r {
            Some(p) => pair_of(rest@) == Some((p.0@, p.1@)),
            None => pair_of(rest@) is None,
        },
{
    let word = first_word(rest);
    let w = chars_of(word);
    match find_last(&w, ':') {
        None => {
            assert(last_index(Seq::<char>::empty(), ':') is None);
            None
        },
        Some(i) => {
            if i > 0 && i < w.len() - 1 {
                assert(w@.take(i as int) == w@.subrange(0, i as int));
                assert(w@.skip(i + 1) == w@.subrange(i + 1, w.len() as int));
                Some((crate::text::text_of(&w, 0, i), crate::text::text_of(&w, i + 1, w.len())))
            } else {
                None
            }
        },
    }
}

/// The pairs that follow `prefix` in what a script printed, each once.
pub fn parse_pair_markers(out: &str, prefix: &str) -> (r: Vec<(String, String)>)
    ensures
        pair_texts(r@) == marked_pairs(out@, prefix@),
{
    let lines = split_osascript_lines(out);
    let ghost all = script_lines(out@);
    let p = chars_of(prefix);
    let mut found: Vec<(String, String)> = Vec::new();
    let mut k: usize = 0;
    assert(pair_texts(found@) == unique(lines_pairs(all.take(0), prefix@)));
    while k < lines.len()
        invariant
            k <= lines.len(),
            p@ == prefix@,
            all == str_texts(lines@),
            pair_texts(found@) == unique(lines_pairs(all.take(k as int), prefix@)),
        decreases lines.len() - k,
    {
        let line = lines[k];
        let v = chars_of(line);
        assert(all[k as int] == line@);
        assert(all.take(k + 1).drop_last() == all.take(k as int));
        let ghost before = lines_pairs(all.take(k as int), prefix@);
        let ghost goal = lines_pairs(all.take(k + 1), prefix@);
        let ghost mut seen = before;
        let mut i: usize = 0;
        let mut open: bool = p.len() <= v.len();
        assert(goal == seen + line_pairs(line@, prefix@, 0));
        while open
            invariant
                v@ == line@,
                p@ == prefix@,
                open ==> i + p.len() <= v.len(),
                pair_texts(found@) == unique(seen),
                open ==> goal == seen + line_pairs(line@, prefix@, i as int),
                !open ==> goal == seen,
            decreases
                    (if open {
                        v.len() + 1 - i
                    } else {
                        0
                    }),
        {
            let ghost step: int = if occurs_at(line@, prefix@, i as int) && p.len() > 0 {
                p.len() as int
            } else {
                1
            };
            let ghost tail = line_pairs(line@, prefix@, i + step);
            let mut width: usize = 1;
            if occurs(&v, &p, i) {
                if p.len() > 0 {
                    width = p.len();
                }
                let rest = line.substring_char(i + p.len(), v.len());
                assert(rest@ == line@.skip(i + p.len()));
                if let Some((a, b)) = split_pair(rest) {
                    let ghost pair = (a@, b@);
                    add_pair(&mut found, a.as_str(), b.as_str());
                    proof {
                        lemma_unique_push(seen, pair);
                        assert(seen + (seq![pair] + tail) == seen.push(pair) + tail);
                        seen = seen.push(pair);
                    }
                }
            }
            assert(width == step);
            assert(goal == seen + tail);
            if width <= v.len() - p.len() - i {
                i += width;
            } else {
                open = false;
                assert(tail == Seq::<(Seq<char>, Seq<char>)>::empty());
                assert(seen + tail == seen);
            }
        }
        assert(goal == seen);
        k += 1;
    }
    assert(all.take(lines.len() as int) == all);
    found
}

/// No line end inside `s`.
pub open spec fn one_line(s: Seq<char>) -> bool {
    forall|i: int| 0 <= i < s.len() ==> s[i] != '\r' && s[i] != '\n'
}

proof fn lemma_pieces_one_line(s: Seq<char>)
    ensures
        script_pieces(s).len() > 0,
        forall|k: int| 0 <= k < script_pieces(s).len() ==> one_line(#[trigger] script_pieces(s)[k]),
    decreases s.len(),
{
    if s.len() > 0 {
        lemma_pieces_one_line(s.drop_last());
        let head = script_pieces(s.drop_last());
        assert(one_line(head.last()));
        assert forall|k: int| 0 <= k < script_pieces(s).len() implies one_line(
            #[trigger] script_pieces(s)[k],
        ) by {
            if k < head.len() - 1 {
                assert(script_pieces(s)[k] == head[k]);
            }
        }
    }
}

/// No line of a script's output holds a line end.
pub proof fn law_lines_hold_no_line_end(s: Seq<char>)
    ensures
        forall|k: int| 0 <= k < script_lines(s).len() ==> one_line(#[trigger] script_lines(s)[k]),
{
    lemma_pieces_one_line(s);
    assert forall|k: int| 0 <= k < script_lines(s).len() implies one_line(
        #[trigger] script_lines(s)[k],
    ) by {
        assert(script_lines(s)[k] == script_pieces(s)[k]);
    }
}

/// `s` with line feeds in place of carriage returns.
pub open spec fn cr_to_lf(s: Seq<char>) -> Seq<char> {
    s.map_values(
        |c: char|
            if c == '\r' {
                '\n'
            } else {
                c
            },
    )
}

/// Output whose lines end in carriage returns has the same lines as the same
/// output with line feeds.
pub proof fn law_cr_and_lf_give_the_same_lines(s: Seq<char>)
    requires
        forall|i: int| 0 <= i < s.len() ==> s[i] != '\n',
    ensures
        script_pieces(cr_to_lf(s)) == script_pieces(s),
        script_lines(cr_to_lf(s)) == script_lines(s),
    decreases s.len(),
{
    let t = cr_to_lf(s);
    if s.len() > 0 {
        let u = s.drop_last();
        assert(forall|i: int| 0 <= i < u.len() ==> u[i] == s[i]);
        law_cr_and_lf_give_the_same_lines(u);
        assert(t.drop_last() == cr_to_lf(u));
        assert(s.len() >= 2 ==> t[t.len() - 2] != '\r');
        assert(t.last() == (if s.last() == '\r' {
            '\n'
        } else {
            s.last()
        }));
    } else {
        assert(t == s);
    }
}

/// Removing repetitions leaves no repetition, loses nothing, adds nothing,
/// and does nothing the second time.
pub proof fn law_unique<T>(s: Seq<T>)
    ensures
        unique(s).no_duplicates(),
        forall|x: T| unique(s).contains(x) <==> s.contains(x),
        unique(unique(s)) == unique(s),
    decreases s.len(),
{
    if s.len() > 0 {
        let u = s.drop_last();
        law_unique(u);
        let head = unique(u);
        assert(s == u.push(s.last()));
        assert forall|x: T| unique(s).contains(x) <==> s.contains(x) by {
            if s.contains(x) {
                let i = choose|i: int| 0 <= i < s.len() && s[i] == x;
                if i < u.len() {
                    assert(u[i] == x);
                    assert(u.contains(x));
                    assert(head.contains(x));
                    let j = choose|j: int| 0 <= j < head.len() && head[j] == x;
                    assert(unique(s)[j] == x);
                } else if !head.contains(x) {
                    assert(unique(s).last() == x);
                    assert(unique(s)[unique(s).len() - 1] == x);
                }
            }
            if unique(s).contains(x) {
                let i = choose|i: int| 0 <= i < unique(s).len() && unique(s)[i] == x;
                if i < head.len() {
                    assert(head[i] == x);
                    assert(head.contains(x));
                    assert(u.contains(x));
                    let j = choose|j: int| 0 <= j < u.len() && u[j] == x;
                    assert(s[j] == x);
                } else {
                    assert(x == s.last());
                    assert(s[s.len() - 1] == x);
                }
            }
        }
        if !head.contains(s.last()) {
            assert(unique(s).drop_last() == head);
            assert(unique(s).last() == s.last());
        }
    }
}

proof fn lemma_pieces_single(s: Seq<char>)
    requires
        one_line(s),
    ensures
        script_pieces(s) == seq![s],
    decreases s.len(),
{
    if s.len() > 0 {
        let u = s.drop_last();
        assert(forall|i: int| 0 <= i < u.len() ==> u[i] == s[i]);
        lemma_pieces_single(u);
        assert(seq![u].drop_last() == Seq::<Seq<char>>::empty());
        assert(u.push(s.last()) == s);
        assert(script_pieces(s) == seq![s]);
    } else {
        assert(s == Seq::<char>::empty());
    }
}

/// A text without white space is one word.
pub proof fn lemma_words_single(s: Seq<char>)
    requires
        s.len() > 0,
        !crate::text::has_white(s),
    ensures
        words_of(s) == seq![s],
    decreases s.len(),
{
    let u = s.drop_last();
    assert(!crate::text::is_white(s[s.len() - 1]));
    if s.len() == 1 {
        assert(words_of(u) == Seq::<Seq<char>>::empty());
        assert(seq![s.last()] == s);
        assert(words_of(s) == seq![s]);
    } else {
        assert(!crate::text::is_white(s[s.len() - 2]));
        assert(!crate::text::has_white(u)) by {
            if crate::text::has_white(u) {
                let i = choose|i: int| 0 <= i < u.len() && crate::text::is_white(u[i]);
                assert(crate::text::is_white(s[i]));
            }
        }
        lemma_words_single(u);
        assert(seq![u].drop_last() == Seq::<Seq<char>>::empty());
        assert(u.push(s.last()) == s);
        assert(words_of(s) == seq![s]);
    }
}

pub proof fn lemma_last_index_tail(a: Seq<char>, c: char, b: Seq<char>)
    requires
        forall|i: int| 0 <= i < b.len() ==> b[i] != c,
    ensures
        last_index(a.push(c) + b, c) == Some(a.len() as int),
    decreases b.len(),
{
    let t = a.push(c) + b;
    if b.len() == 0 {
        assert(t == a.push(c));
    } else {
        let u = b.drop_last();
        assert(forall|i: int| 0 <= i < u.len() ==> u[i] == b[i]);
        lemma_last_index_tail(a, c, u);
        assert(t.drop_last() == a.push(c) + u);
        assert(t.last() == b.last());
    }
}

proof fn lemma_no_more_pairs(line: Seq<char>, prefix: Seq<char>, i: int)
    requires
        forall|j: int| i <= j ==> !occurs_at(line, prefix, j),
    ensures
        line_pairs(line, prefix, i) == Seq::<(Seq<char>, Seq<char>)>::empty(),
    decreases line.len() + 1 - i,
{
    if !(i < 0 || i + prefix.len() > line.len()) {
        lemma_no_more_pairs(line, prefix, i + 1);
    }
}

/// A payload of two paths is read as the pair.
proof fn lemma_payload(a: Seq<char>, b: Seq<char>)
    requires
        a.len() > 0,
        b.len() > 0,
        !crate::text::has_white(a),
        !crate::text::has_white(b),
        forall|i: int| 0 <= i < b.len() ==> b[i] != ':',
    ensures
        forall|i: int|
            0 <= i < (a.push(':') + b).len() ==> !crate::text::is_white(
                #[trigger] (a.push(':') + b)[i],
            ),
        pair_of(a.push(':') + b) == Some((a, b)),
{
    let payload = a.push(':') + b;
    assert forall|i: int| 0 <= i < payload.len() implies !crate::text::is_white(
        #[trigger] payload[i],
    ) by {
        if i < a.len() {
            assert(payload[i] == a[i]);
        } else if i > a.len() {
            assert(payload[i] == b[i - a.len() - 1]);
        }
    }
    assert(!crate::text::has_white(payload));
    lemma_words_single(payload);
    lemma_last_index_tail(a, ':', b);
    assert(payload.take(a.len() as int) == a);
    assert(payload.skip(a.len() as int + 1) == b);
}

/// The pairs of a single line in which the mark stands only in front.
proof fn lemma_marked_line(prefix: Seq<char>, payload: Seq<char>, pair: (Seq<char>, Seq<char>))
    requires
        prefix.len() > 0,
        pair_of(payload) == Some(pair),
        forall|j: int| 0 < j ==> !occurs_at(prefix + payload, prefix, j),
    ensures
        line_pairs(prefix + payload, prefix, 0) == seq![pair],
{
    let line = prefix + payload;
    assert(line.subrange(0, prefix.len() as int) == prefix);
    assert(occurs_at(line, prefix, 0));
    lemma_no_more_pairs(line, prefix, prefix.len() as int);
    assert(line.skip(prefix.len() as int) == payload);
    let none = Seq::<(Seq<char>, Seq<char>)>::empty();
    assert(line_pairs(line, prefix, 0) == seq![pair] + none);
    assert(seq![pair] + none == seq![pair]);
}

/// A marked line is read back as the pair it was printed for, where the mark
/// stands only in front, neither path holds white space and the second holds
/// no colon.
pub proof fn law_mark_reads_back(prefix: Seq<char>, a: Seq<char>, b: Seq<char>)
    requires
        prefix.len() > 0,
        one_line(prefix),
        a.len() > 0,
        b.len() > 0,
        !crate::text::has_white(a),
        !crate::text::has_white(b),
        forall|i: int| 0 <= i < b.len() ==> b[i] != ':',
        forall|j: int| 0 < j ==> !occurs_at(prefix + a + ":"@ + b, prefix, j),
    ensures
        marked_pairs(prefix + a + ":"@ + b, prefix) == seq![(a, b)],
{
    reveal_strlit(":");
    let line = prefix + a + ":"@ + b;
    let payload = a.push(':') + b;
    assert(line == prefix + payload);
    lemma_payload(a, b);
    assert(one_line(line)) by {
        assert forall|i: int| 0 <= i < line.len() implies line[i] != '\r' && line[i] != '\n' by {
            if i < prefix.len() {
                assert(line[i] == prefix[i]);
            } else {
                assert(line[i] == payload[i - prefix.len()]);
                assert(!crate::text::is_white(payload[i - prefix.len()]));
            }
        }
    }
    lemma_pieces_single(line);
    let lines = script_lines(line);
    assert(lines == seq![line]);
    lemma_marked_line(prefix, payload, (a, b));
    let none = Seq::<(Seq<char>, Seq<char>)>::empty();
    assert(lines.drop_last() == Seq::<Seq<char>>::empty());
    assert(lines_pairs(lines.drop_last(), prefix) == none);
    assert(lines_pairs(lines, prefix) == none + seq![(a, b)]);
    assert(none + seq![(a, b)] == none.push((a, b)));
    lemma_unique_push(none, (a, b));
    assert(none.push((a, b)) == seq![(a, b)]);
}

/// A pair is the first word that follows, split at its last colon, with something
/// on both sides; where there is no such word there is no pair.
pub proof fn law_pair_is_the_first_word(rest: Seq<char>)
    ensures
        match pair_of(rest) {
            Some(p) => {
                &&& words_of(rest).len() > 0
                &&& words_of(rest)[0] == p.0.push(':') + p.1
                &&& p.0.len() > 0
                &&& p.1.len() > 0
                &&& !p.1.contains(':')
            },
            None => words_of(rest).len() == 0 || forall|a: Seq<char>, b: Seq<char>|
                a.len() > 0 && b.len() > 0 && !b.contains(':') ==> words_of(rest)[0] != #[trigger] (
                a.push(':') + b),
        },
{
    if words_of(rest).len() > 0 {
        let w = words_of(rest)[0];
        crate::text::law_last_position(w, ':');
        if let Some(p) = pair_of(rest) {
            let i = last_index(w, ':')->0;
            assert(w =~= p.0.push(':') + p.1);
            if p.1.contains(':') {
                let k = choose|k: int| 0 <= k < p.1.len() && p.1[k] == ':';
                assert(w[i + 1 + k] == ':');
            }
        } else {
            assert forall|a: Seq<char>, b: Seq<char>|
                a.len() > 0 && b.len() > 0 && !b.contains(':') implies w != #[trigger] (a.push(':')
                + b) by {
                if w == a.push(':') + b {
                    assert(w[a.len() as int] == ':');
                    assert(w.contains(':'));
                    let i = last_index(w, ':')->0;
                    if i > a.len() {
                        assert(b[i - a.len() - 1] == ':');
                    }
                    assert(i == a.len());
                }
            }
        }
    }
}

proof fn lemma_pairs_of_a_line(line: Seq<char>, prefix: Seq<char>, from: int)
    requires
        prefix.len() > 0,
        0 <= from,
        forall|i: int, j: int|
            i < j && #[trigger] occurs_at(line, prefix, i) && #[trigger] occurs_at(line, prefix, j)
                ==> i + prefix.len() <= j,
    ensures
        forall|i: int|
            from <= i && #[trigger] occurs_at(line, prefix, i) && pair_of(
                line.skip(i + prefix.len()),
            ) is Some ==> line_pairs(line, prefix, from).contains(
                pair_of(line.skip(i + prefix.len()))->0,
            ),
        forall|p: (Seq<char>, Seq<char>)| #[trigger]
            line_pairs(line, prefix, from).contains(p) ==> exists|i: int|
                from <= i && #[trigger] occurs_at(line, prefix, i) && pair_of(
                    line.skip(i + prefix.len()),
                ) == Some(p),
    decreases line.len() + 1 - from,
{
    let all = line_pairs(line, prefix, from);
    if from + prefix.len() <= line.len() {
        if occurs_at(line, prefix, from) {
            let next = from + prefix.len();
            lemma_pairs_of_a_line(line, prefix, next);
            let rest = line_pairs(line, prefix, next);
            let here = pair_of(line.skip(from + prefix.len()));
            assert forall|i: int|
                from <= i && #[trigger] occurs_at(line, prefix, i) && pair_of(
                    line.skip(i + prefix.len()),
                ) is Some implies all.contains(pair_of(line.skip(i + prefix.len()))->0) by {
                let p = pair_of(line.skip(i + prefix.len()))->0;
                if i == from {
                    assert(all[0] == p);
                } else {
                    assert(next <= i);
                    assert(rest.contains(p));
                    let k = choose|k: int| 0 <= k < rest.len() && rest[k] == p;
                    assert(all[k + (all.len() - rest.len())] == p);
                }
            }
            assert forall|p: (Seq<char>, Seq<char>)| #[trigger] all.contains(p) implies exists|
                i: int,
            |
                from <= i && #[trigger] occurs_at(line, prefix, i) && pair_of(
                    line.skip(i + prefix.len()),
                ) == Some(p) by {
                let k = choose|k: int| 0 <= k < all.len() && all[k] == p;
                if here is Some && k == 0 {
                    assert(occurs_at(line, prefix, from));
                } else {
                    assert(rest[k - (all.len() - rest.len())] == p);
                    assert(rest.contains(p));
                }
            }
        } else {
            lemma_pairs_of_a_line(line, prefix, from + 1);
            let rest = line_pairs(line, prefix, from + 1);
            assert(all == rest);
            assert forall|p: (Seq<char>, Seq<char>)| #[trigger] all.contains(p) implies exists|
                i: int,
            |
                from <= i && #[trigger] occurs_at(line, prefix, i) && pair_of(
                    line.skip(i + prefix.len()),
                ) == Some(p) by {
                assert(rest.contains(p));
                let i = choose|i: int|
                    from + 1 <= i && #[trigger] occurs_at(line, prefix, i) && pair_of(
                        line.skip(i + prefix.len()),
                    ) == Some(p);
                assert(from <= i && occurs_at(line, prefix, i));
            }
        }
    } else {
        assert(all.len() == 0);
        assert forall|i: int| from <= i implies !#[trigger] occurs_at(line, prefix, i) by {}
    }
}

/// Every mark on a line counts, however many there are: the pairs of a line are
/// those behind its marks, as long as no two marks overlap.
pub proof fn law_every_mark_on_a_line_counts(line: Seq<char>, prefix: Seq<char>)
    requires
        prefix.len() > 0,
        forall|i: int, j: int|
            i < j && #[trigger] occurs_at(line, prefix, i) && #[trigger] occurs_at(line, prefix, j)
                ==> i + prefix.len() <= j,
    ensures
        forall|p: (Seq<char>, Seq<char>)| #[trigger]
            line_pairs(line, prefix, 0).contains(p) <==> exists|i: int| #[trigger]
                occurs_at(line, prefix, i) && pair_of(line.skip(i + prefix.len())) == Some(p),
{
    lemma_pairs_of_a_line(line, prefix, 0);
}

/// The pairs of what a script printed are those of its lines, all of them, each
/// once.
pub proof fn law_pairs_of_all_lines(out: Seq<char>, prefix: Seq<char>)
    ensures
        marked_pairs(out, prefix).no_duplicates(),
        forall|p: (Seq<char>, Seq<char>)| #[trigger]
            marked_pairs(out, prefix).contains(p) <==> exists|k: int|
                0 <= k < script_lines(out).len() && line_pairs(
                    #[trigger] script_lines(out)[k],
                    prefix,
                    0,
                ).contains(p),
{
    let lines = script_lines(out);
    lemma_pairs_of_lines(lines, prefix);
    let all = lines_pairs(lines, prefix);
    law_unique(all);
    assert forall|p: (Seq<char>, Seq<char>)| #[trigger] marked_pairs(out, prefix).contains(p)
        <==> exists|k: int|
        0 <= k < lines.len() && line_pairs(#[trigger] lines[k], prefix, 0).contains(p) by {
        assert(unique(all).contains(p) <==> all.contains(p));
    }
}

proof fn lemma_pairs_of_lines(lines: Seq<Seq<char>>, prefix: Seq<char>)
    ensures
        forall|p: (Seq<char>, Seq<char>)| #[trigger]
            lines_pairs(lines, prefix).contains(p) <==> exists|k: int|
                0 <= k < lines.len() && line_pairs(#[trigger] lines[k], prefix, 0).contains(p),
    decreases lines.len(),
{
    if lines.len() > 0 {
        let u = lines.drop_last();
        let n = lines.len() - 1;
        lemma_pairs_of_lines(u, prefix);
        let (head, last) = (lines_pairs(u, prefix), line_pairs(lines.last(), prefix, 0));
        let all = lines_pairs(lines, prefix);
        assert forall|p: (Seq<char>, Seq<char>)| #[trigger] all.contains(p) <==> exists|k: int|
            0 <= k < lines.len() && line_pairs(#[trigger] lines[k], prefix, 0).contains(p) by {
            if all.contains(p) {
                let i = choose|i: int| 0 <= i < all.len() && all[i] == p;
                if i < head.len() {
                    assert(head[i] == p);
                    assert(head.contains(p));
                    let k = choose|k: int|
                        0 <= k < u.len() && line_pairs(#[trigger] u[k], prefix, 0).contains(p);
                    assert(lines[k] == u[k]);
                    assert(line_pairs(lines[k], prefix, 0).contains(p));
                } else {
                    assert(last[i - head.len()] == p);
                    assert(line_pairs(lines[n], prefix, 0).contains(p));
                }
            }
            if exists|k: int|
                0 <= k < lines.len() && line_pairs(#[trigger] lines[k], prefix, 0).contains(p) {
                let k = choose|k: int|
                    0 <= k < lines.len() && line_pairs(#[trigger] lines[k], prefix, 0).contains(p);
                if k < n {
                    assert(u[k] == lines[k]);
                    assert(line_pairs(u[k], prefix, 0).contains(p));
                    assert(head.contains(p));
                    let i = choose|i: int| 0 <= i < head.len() && head[i] == p;
                    assert(all[i] == p);
                } else {
                    let i = choose|i: int| 0 <= i < last.len() && last[i] == p;
                    assert(all[head.len() + i] == p);
                }
            }
        }
    }
}

/// The first of equal items stays where it was: what removing repetitions leaves
/// is in the order of the first occurrences.
pub proof fn law_first_of_equals_stays<T>(s: Seq<T>, x: T)
    ensures
        s.contains(x) ==> unique(s.push(x)) == unique(s),
        !s.contains(x) ==> unique(s.push(x)) == unique(s).push(x),
{
    law_unique(s);
    assert(s.push(x).drop_last() =~= s);
    assert(unique(s).contains(x) <==> s.contains(x));
}

} // verus!
