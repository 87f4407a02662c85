//! Text as sequences of characters: the specification functions that the
//! other modules state their contracts with, and verified code for each.

use vstd::prelude::*;

verus! {

/// `String::push` appends one character at the end.
pub assume_specification[ String::push ](s: &mut String, c: char)
    ensures
        final(s)@ == old(s)@.push(c),
;

/// The texts of a list of strings.
pub open spec fn texts(v: Seq<String>) -> Seq<Seq<char>> {
    v.map_values(|s: String| s@)
}

/// The texts of a list of string slices.
pub open spec fn str_texts(v: Seq<&str>) -> Seq<Seq<char>> {
    v.map_values(|s: &str| s@)
}

/// The texts of a list of string pairs.
pub open spec fn pair_texts(v: Seq<(String, String)>) -> Seq<(Seq<char>, Seq<char>)> {
    v.map_values(|p: (String, String)| (p.0@, p.1@))
}

/// The text of an optional string.
pub open spec fn opt_text(o: Option<String>) -> Option<Seq<char>> {
    match o {
        Some(s) => Some(s@),
        None => None,
    }
}

/// The text of an optional string slice.
pub open spec fn opt_str_text(o: Option<&str>) -> Option<Seq<char>> {
    match o {
        Some(s) => Some(s@),
        None => None,
    }
}

/// The characters of Unicode's `White_Space` property.
pub open spec fn is_white(c: char) -> bool {
    ||| 0x9 <= c as int <= 0xd
    ||| c as int == 0x20
    ||| c as int == 0x85
    ||| c as int == 0xa0
    ||| c as int == 0x1680
    ||| 0x2000 <= c as int <= 0x200a
    ||| c as int == 0x2028
    ||| c as int == 0x2029
    ||| c as int == 0x202f
    ||| c as int == 0x205f
    ||| c as int == 0x3000
}

pub open spec fn is_digit(c: char) -> bool {
    '0' <= c <= '9'
}

pub open spec fn is_ascii_alnum(c: char) -> bool {
    is_digit(c) || 'a' <= c <= 'z' || 'A' <= c <= 'Z'
}

/// Whether any character of `s` is white space.
pub open spec fn has_white(s: Seq<char>) -> bool {
    exists|i: int| 0 <= i < s.len() && is_white(#[trigger] s[i])
}

/// `s` is one or more decimal digits.
pub open spec fn all_digits(s: Seq<char>) -> bool {
    s.len() > 0 && forall|i: int| 0 <= i < s.len() ==> is_digit(#[trigger] s[i])
}

/// `pat` stands in `s` at position `i`.
pub open spec fn occurs_at(s: Seq<char>, pat: Seq<char>, i: int) -> bool {
    0 <= i && i + pat.len() <= s.len() && s.subrange(i, i + pat.len()) == pat
}

/// `pat` stands somewhere in `s`.
pub open spec fn contains_text(s: Seq<char>, pat: Seq<char>) -> bool {
    exists|i: int| #[trigger] occurs_at(s, pat, i)
}

pub open spec fn begins_with(s: Seq<char>, pat: Seq<char>) -> bool {
    occurs_at(s, pat, 0)
}

pub open spec fn finishes_with(s: Seq<char>, pat: Seq<char>) -> bool {
    occurs_at(s, pat, s.len() - pat.len())
}

/// `s` without `pat` in front of it, where `pat` stands in front of it.
pub open spec fn after_prefix(s: Seq<char>, pat: Seq<char>) -> Option<Seq<char>> {
    if begins_with(s, pat) {
        Some(s.skip(pat.len() as int))
    } else {
        None
    }
}

/// `s` without the white space in front of it.
pub open spec fn trimmed_start(s: Seq<char>) -> Seq<char>
    decreases s.len(),
{
    if s.len() > 0 && is_white(s[0]) {
        trimmed_start(s.skip(1))
    } else {
        s
    }
}

/// `s` without the white space behind it.
pub open spec fn trimmed_end(s: Seq<char>) -> Seq<char>
    decreases s.len(),
{
    if s.len() > 0 && is_white(s.last()) {
        trimmed_end(s.drop_last())
    } else {
        s
    }
}

/// `s` without the white space around it.
pub open spec fn trimmed(s: Seq<char>) -> Seq<char> {
    trimmed_end(trimmed_start(s))
}

/// The pieces of `s` between the separators: one more than there are
/// separators.
pub open spec fn split_on(s: Seq<char>, sep: char) -> Seq<Seq<char>>
    decreases s.len(),
{
    if s.len() == 0 {
        seq![Seq::empty()]
    } else {
        let head = split_on(s.drop_last(), sep);
        if s.last() == sep {
            head.push(Seq::empty())
        } else {
            head.drop_last().push(head.last().push(s.last()))
        }
    }
}

/// `s` without one carriage return at its end.
pub open spec fn without_cr(s: Seq<char>) -> Seq<char> {
    if s.len() > 0 && s.last() == '\r' {
        s.drop_last()
    } else {
        s
    }
}

/// The lines of `s`: a line ends at a line feed, and a carriage return right
/// before that line feed does not belong to it. Nothing follows a final line
/// feed.
pub open spec fn lines_of(s: Seq<char>) -> Seq<Seq<char>> {
    let pieces = split_on(s, '\n');
    let ended = pieces.drop_last().map_values(|p: Seq<char>| without_cr(p));
    if pieces.last().len() == 0 {
        ended
    } else {
        ended.push(pieces.last())
    }
}

/// The runs of `s` that hold no white space, in order.
pub open spec fn words_of(s: Seq<char>) -> Seq<Seq<char>>
    decreases s.len(),
{
    if s.len() == 0 {
        Seq::empty()
    } else {
        let head = words_of(s.drop_last());
        if is_white(s.last()) {
            head
        } else if s.len() == 1 || is_white(s[s.len() - 2]) {
            head.push(seq![s.last()])
        } else {
            head.drop_last().push(head.last().push(s.last()))
        }
    }
}

/// `parts` one after the other, with `sep` between each two.
pub open spec fn joined(parts: Seq<Seq<char>>, sep: Seq<char>) -> Seq<char>
    decreases parts.len(),
{
    if parts.len() == 0 {
        Seq::empty()
    } else if parts.len() == 1 {
        parts[0]
    } else {
        joined(parts.drop_last(), sep) + sep + parts.last()
    }
}

/// `s` with every `c` replaced by `with`.
pub open spec fn replaced(s: Seq<char>, c: char, with: Seq<char>) -> Seq<char>
    decreases s.len(),
{
    if s.len() == 0 {
        Seq::empty()
    } else if s.last() == c {
        replaced(s.drop_last(), c, with) + with
    } else {
        replaced(s.drop_last(), c, with).push(s.last())
    }
}

/// The position of the last `c` in `s`.
pub open spec fn last_index(s: Seq<char>, c: char) -> Option<int>
    decreases s.len(),
{
    if s.len() == 0 {
        None
    } else if s.last() == c {
        Some(s.len() - 1)
    } else {
        last_index(s.drop_last(), c)
    }
}

/// The part of `s` in front of its first `c`; the whole of `s` without one.
pub open spec fn before_first(s: Seq<char>, c: char) -> Seq<char>
    decreases s.len(),
{
    if s.len() == 0 || s[0] == c {
        Seq::empty()
    } else {
        seq![s[0]] + before_first(s.skip(1), c)
    }
}

/// The lower case form of an ASCII letter; any other character as it is.
pub open spec fn ascii_lower(c: char) -> char {
    if 'A' <= c <= 'Z' {
        ((c as int) + 32) as char
    } else {
        c
    }
}

/// `a` stands before `b` in the order of code points.
pub open spec fn text_before(a: Seq<char>, b: Seq<char>) -> bool
    decreases a.len(),
{
    if b.len() == 0 {
        false
    } else if a.len() == 0 {
        true
    } else if a[0] != b[0] {
        a[0] < b[0]
    } else {
        text_before(a.skip(1), b.skip(1))
    }
}

/// The characters of `s`.
pub fn chars_of(s: &str) -> (v: Vec<char>)
    ensures
        v@ == s@,
{
    let mut v: Vec<char> = Vec::new();
    for c in it: s.chars()
        invariant
            v@ == it.seq().take(it.index() as int),
            it.seq() == s@,
    {
        v.push(c);
    }
    v
}

/// The text made of `v[from..to]`.
pub fn text_of(v: &Vec<char>, from: usize, to: usize) -> (s: String)
    requires
        from <= to <= v@.len(),
    ensures
        s@ == v@.subrange(from as int, to as int),
{
    let mut s = String::new();
    let mut i: usize = from;
    while i < to
        invariant
            from <= i <= to <= v@.len(),
            s@ == v@.subrange(from as int, i as int),
        decreases to - i,
    {
        s.push(v[i]);
        i += 1;
        assert(v@.subrange(from as int, i as int) == v@.subrange(from as int, i - 1).push(
            v@[i - 1],
        ));
    }
    s
}

pub fn white(c: char) -> (r: bool)
    ensures
        r == is_white(c),
{
    let n: u32 = c as u32;
    (0x9 <= n && n <= 0xd) || n == 0x20 || n == 0x85 || n == 0xa0 || n == 0x1680 || (0x2000 <= n
        && n <= 0x200a) || n == 0x2028 || n == 0x2029 || n == 0x202f || n == 0x205f || n == 0x3000
}

pub fn digit(c: char) -> (r: bool)
    ensures
        r == is_digit(c),
{
    '0' <= c && c <= '9'
}

pub fn ascii_alnum(c: char) -> (r: bool)
    ensures
        r == is_ascii_alnum(c),
{
    digit(c) || ('a' <= c && c <= 'z') || ('A' <= c && c <= 'Z')
}

/// Whether two texts are the same.
pub fn same_text(a: &str, b: &str) -> (r: bool)
    ensures
        r == (a@ == b@),
{
    let x = chars_of(a);
    let y = chars_of(b);
    if x.len() != y.len() {
        return false;
    }
    let mut i: usize = 0;
    while i < x.len()
        invariant
            i <= x.len() == y.len(),
            x@ == a@,
            y@ == b@,
            forall|j: int| 0 <= j < i ==> x@[j] == y@[j],
        decreases x.len() - i,
    {
        if x[i] != y[i] {
            return false;
        }
        i += 1;
    }
    assert(x@ == y@);
    true
}

/// Whether `pat` stands in `s` at position `i`.
pub fn occurs(s: &Vec<char>, pat: &Vec<char>, i: usize) -> (r: bool)
    ensures
        r == occurs_at(s@, pat@, i as int),
{
    if pat.len() > s.len() || i > s.len() - pat.len() {
        return false;
    }
    let mut j: usize = 0;
    while j < pat.len()
        invariant
            j <= pat.len() <= s.len(),
            i <= s.len() - pat.len(),
            forall|k: int| 0 <= k < j ==> s@[i + k] == pat@[k],
        decreases pat.len() - j,
    {
        if s[i + j] != pat[j] {
            assert(s@.subrange(i as int, i + pat.len())[j as int] == s@[i + j]);
            return false;
        }
        j += 1;
    }
    assert(s@.subrange(i as int, i + pat.len()) == pat@);
    true
}

pub fn starts_with(s: &str, pat: &str) -> (r: bool)
    ensures
        r == begins_with(s@, pat@),
{
    occurs(&chars_of(s), &chars_of(pat), 0)
}

pub fn ends_with(s: &str, pat: &str) -> (r: bool)
    ensures
        r == finishes_with(s@, pat@),
{
    let v = chars_of(s);
    let p = chars_of(pat);
    p.len() <= v.len() && occurs(&v, &p, v.len() - p.len())
}

pub fn contains(s: &str, pat: &str) -> (r: bool)
    ensures
        r == contains_text(s@, pat@),
{
    let v = chars_of(s);
    let p = chars_of(pat);
    if p.len() > v.len() {
        return false;
    }
    let last: usize = v.len() - p.len();
    let mut i: usize = 0;
    while i < last
        invariant
            v@ == s@,
            p@ == pat@,
            last == v.len() - p.len(),
            i <= last,
            forall|k: int| 0 <= k < i ==> !occurs_at(v@, p@, k),
        decreases last - i,
    {
        if occurs(&v, &p, i) {
            return true;
        }
        i += 1;
    }
    if occurs(&v, &p, last) {
        return true;
    }
    assert forall|k: int| !occurs_at(v@, p@, k) by {}
    false
}

pub fn strip_prefix<'a>(s: &'a str, pat: &str) -> (r: Option<&'a str>)
    ensures
        opt_str_text(r) == after_prefix(s@, pat@),
{
    if starts_with(s, pat) {
        let n: usize = pat.unicode_len();
        let end: usize = s.unicode_len();
        let rest = s.substring_char(n, end);
        assert(s@.subrange(n as int, end as int) == s@.skip(n as int));
        Some(rest)
    } else {
        None
    }
}

pub fn trim<'a>(s: &'a str) -> (r: &'a str)
    ensures
        r@ == trimmed(s@),
{
    let v = chars_of(s);
    let mut from: usize = 0;
    assert(s@.skip(0) == s@);
    while from < v.len() && white(v[from])
        invariant
            v@ == s@,
            from <= v.len(),
            trimmed_start(s@) == trimmed_start(s@.skip(from as int)),
        decreases v.len() - from,
    {
        assert(s@.skip(from as int).skip(1) == s@.skip(from + 1));
        from += 1;
    }
    let ghost t = s@.skip(from as int);
    assert(trimmed_start(s@) == t);
    let mut to: usize = v.len();
    assert(t.take(to - from) == t);
    while to > from && white(v[to - 1])
        invariant
            v@ == s@,
            from <= to <= v.len(),
            t == s@.skip(from as int),
            trimmed_end(t) == trimmed_end(t.take(to - from)),
        decreases to,
    {
        assert(t.take(to - from).drop_last() == t.take(to - 1 - from));
        assert(t.take(to - from).last() == v@[to - 1]);
        to -= 1;
    }
    assert(to > from ==> t.take(to - from).last() == v@[to - 1]);
    assert(trimmed_end(t) == t.take(to - from));
    assert(t.take(to - from) == s@.subrange(from as int, to as int));
    s.substring_char(from, to)
}

pub fn any_white(s: &str) -> (r: bool)
    ensures
        r == has_white(s@),
{
    let v = chars_of(s);
    let mut i: usize = 0;
    while i < v.len()
        invariant
            v@ == s@,
            i <= v.len(),
            forall|j: int| 0 <= j < i ==> !is_white(#[trigger] s@[j]),
        decreases v.len() - i,
    {
        if white(v[i]) {
            assert(is_white(s@[i as int]));
            return true;
        }
        i += 1;
    }
    false
}

pub fn only_digits(s: &str) -> (r: bool)
    ensures
        r == all_digits(s@),
{
    let v = chars_of(s);
    let mut i: usize = 0;
    while i < v.len()
        invariant
            v@ == s@,
            i <= v.len(),
            forall|j: int| 0 <= j < i ==> is_digit(#[trigger] s@[j]),
        decreases v.len() - i,
    {
        if !digit(v[i]) {
            assert(!is_digit(s@[i as int]));
            return false;
        }
        i += 1;
    }
    v.len() > 0
}

/// The pieces of `s` between the separators.
pub fn split<'a>(s: &'a str, sep: char) -> (r: Vec<&'a str>)
    ensures
        str_texts(r@) == split_on(s@, sep),
        r@.len() > 0,
{
    let v = chars_of(s);
    let mut out: Vec<&'a str> = Vec::new();
    let mut start: usize = 0;
    let mut i: usize = 0;
    assert(s@.take(0) == Seq::<char>::empty());
    assert(str_texts(out@).push(s@.subrange(0, 0)) == split_on(s@.take(0), sep));
    while i < v.len()
        invariant
            v@ == s@,
            start <= i <= v.len(),
            str_texts(out@).push(s@.subrange(start as int, i as int)) == split_on(
                s@.take(i as int),
                sep,
            ),
        decreases v.len() - i,
    {
        let ghost before = out@;
        assert(s@.take(i + 1).drop_last() == s@.take(i as int));
        assert(s@.take(i + 1).last() == v@[i as int]);
        let ghost head = split_on(s@.take(i as int), sep);
        if v[i] == sep {
            let piece = s.substring_char(start, i);
            out.push(piece);
            assert(str_texts(out@) == str_texts(before).push(piece@));
            start = i + 1;
            assert(s@.subrange(start as int, i + 1) == Seq::<char>::empty());
        } else {
            assert(head.drop_last() == str_texts(before));
            assert(s@.subrange(start as int, i + 1) == s@.subrange(start as int, i as int).push(
                v@[i as int],
            ));
        }
        i += 1;
    }
    let last = s.substring_char(start, v.len());
    let ghost before = out@;
    out.push(last);
    assert(str_texts(out@) == str_texts(before).push(last@));
    assert(s@.take(v.len() as int) == s@);
    out
}

/// The lines of `s`.
pub fn lines<'a>(s: &'a str) -> (r: Vec<&'a str>)
    ensures
        str_texts(r@) == lines_of(s@),
{
    let pieces = split(s, '\n');
    let ghost all = split_on(s@, '\n');
    let n: usize = pieces.len();
    assert(all.len() == n);
    let mut out: Vec<&'a str> = Vec::new();
    let mut i: usize = 0;
    while i < n - 1
        invariant
            n > 0,
            n == pieces.len(),
            all == str_texts(pieces@),
            i <= n - 1,
            str_texts(out@) == all.take(i as int).map_values(|p: Seq<char>| without_cr(p)),
        decreases n - i,
    {
        let ghost before = out@;
        let piece = pieces[i];
        assert(all[i as int] == piece@);
        let chars = chars_of(piece);
        let line = if chars.len() > 0 && chars[chars.len() - 1] == '\r' {
            let l = piece.substring_char(0, chars.len() - 1);
            assert(piece@.subrange(0, chars.len() - 1) == piece@.drop_last());
            l
        } else {
            piece
        };
        assert(line@ == without_cr(piece@));
        out.push(line);
        assert(str_texts(out@) == str_texts(before).push(line@));
        assert(all.take(i + 1) == all.take(i as int).push(all[i as int]));
        i += 1;
        assert(str_texts(out@) == all.take(i as int).map_values(|p: Seq<char>| without_cr(p)));
    }
    assert(all.drop_last() == all.take(n - 1));
    let last = pieces[n - 1];
    assert(all.last() == last@);
    let ghost before = out@;
    if !last.is_empty() {
        out.push(last);
        assert(str_texts(out@) == str_texts(before).push(last@));
    }
    out
}

/// The runs of `s` that hold no white space.
pub fn words<'a>(s: &'a str) -> (r: Vec<&'a str>)
    ensures
        str_texts(r@) == words_of(s@),
{
    let v = chars_of(s);
    let mut out: Vec<&'a str> = Vec::new();
    let mut start: usize = 0;
    let mut i: usize = 0;
    assert(s@.take(0) == Seq::<char>::empty());
    assert(str_texts(out@) == words_of(s@.take(0)));
    while i < v.len()
        invariant
            v@ == s@,
            start <= i <= v.len(),
            start == i ==> (i == 0 || is_white(v@[i - 1])) && str_texts(out@) == words_of(
                s@.take(i as int),
            ),
            start < i ==> !is_white(v@[i - 1]) && str_texts(out@).push(
                s@.subrange(start as int, i as int),
            ) == words_of(s@.take(i as int)),
        decreases v.len() - i,
    {
        let ghost before = out@;
        let ghost head = words_of(s@.take(i as int));
        assert(s@.take(i + 1).drop_last() == s@.take(i as int));
        assert(s@.take(i + 1).last() == v@[i as int]);
        assert(i > 0 ==> s@.take(i + 1)[i - 1] == v@[i - 1]);
        if white(v[i]) {
            if start < i {
                let word = s.substring_char(start, i);
                out.push(word);
                assert(str_texts(out@) == str_texts(before).push(word@));
            }
            start = i + 1;
        } else if start == i {
            assert(s@.subrange(start as int, i + 1) == seq![v@[i as int]]);
        } else {
            assert(head.drop_last() == str_texts(before));
            assert(s@.subrange(start as int, i + 1) == s@.subrange(start as int, i as int).push(
                v@[i as int],
            ));
        }
        i += 1;
    }
    assert(s@.take(v.len() as int) == s@);
    if start < v.len() {
        let word = s.substring_char(start, v.len());
        let ghost before = out@;
        out.push(word);
        assert(str_texts(out@) == str_texts(before).push(word@));
    }
    out
}

/// The first word of `s`, or the empty text.
pub fn first_word<'a>(s: &'a str) -> (r: &'a str)
    ensures
        r@ == (if words_of(s@).len() > 0 {
            words_of(s@)[0]
        } else {
            Seq::empty()
        }),
{
    let w = words(s);
    assert(str_texts(w@).len() == w@.len());
    if w.len() > 0 {
        assert(str_texts(w@)[0] == w@[0]@);
        w[0]
    } else {
        s.substring_char(0, 0)
    }
}

/// `parts` one after the other, with `sep` between each two.
pub fn join(parts: &Vec<String>, sep: &str) -> (r: String)
    ensures
        r@ == joined(texts(parts@), sep@),
{
    let mut out = String::new();
    let mut i: usize = 0;
    let ghost all = texts(parts@);
    while i < parts.len()
        invariant
            i <= parts.len(),
            all == texts(parts@),
            out@ == joined(all.take(i as int), sep@),
        decreases parts.len() - i,
    {
        assert(all.take(i + 1).drop_last() == all.take(i as int));
        assert(all[i as int] == parts@[i as int]@);
        if i > 0 {
            out.append(sep);
        }
        out.append(parts[i].as_str());
        assert(i == 0 ==> out@ == parts@[0]@);
        i += 1;
    }
    assert(all.take(parts.len() as int) == all);
    out
}

/// `parts` one after the other, with `sep` between each two.
pub fn join_strs(parts: &Vec<&str>, sep: &str) -> (r: String)
    ensures
        r@ == joined(str_texts(parts@), sep@),
{
    let mut out = String::new();
    let mut i: usize = 0;
    let ghost all = str_texts(parts@);
    while i < parts.len()
        invariant
            i <= parts.len(),
            all == str_texts(parts@),
            out@ == joined(all.take(i as int), sep@),
        decreases parts.len() - i,
    {
        assert(all.take(i + 1).drop_last() == all.take(i as int));
        assert(all[i as int] == parts@[i as int]@);
        if i > 0 {
            out.append(sep);
        }
        out.append(parts[i]);
        assert(i == 0 ==> out@ == parts@[0]@);
        i += 1;
    }
    assert(all.take(parts.len() as int) == all);
    out
}

/// `s` with every `c` replaced by `with`.
pub fn replace(s: &str, c: char, with: &str) -> (r: String)
    ensures
        r@ == replaced(s@, c, with@),
{
    let v = chars_of(s);
    let mut out = String::new();
    let mut i: usize = 0;
    while i < v.len()
        invariant
            v@ == s@,
            i <= v.len(),
            out@ == replaced(s@.take(i as int), c, with@),
        decreases v.len() - i,
    {
        assert(s@.take(i + 1).drop_last() == s@.take(i as int));
        assert(s@.take(i + 1).last() == v@[i as int]);
        if v[i] == c {
            out.append(with);
        } else {
            out.push(v[i]);
        }
        i += 1;
    }
    assert(s@.take(v.len() as int) == s@);
    out
}

/// The position of the last `c` in `v`.
pub fn find_last(v: &Vec<char>, c: char) -> (r: Option<usize>)
    ensures
        match r {
            Some(i) => last_index(v@, c) == Some(i as int) && i < v.len() && v@[i as int] == c
                && forall|j: int| i < j < v.len() ==> v@[j] != c,
            None => last_index(v@, c) is None && forall|j: int| 0 <= j < v.len() ==> v@[j] != c,
        },
{
    let mut n: usize = v.len();
    assert(v@.take(n as int) == v@);
    while n > 0
        invariant
            n <= v.len(),
            last_index(v@, c) == last_index(v@.take(n as int), c),
            forall|j: int| n <= j < v.len() ==> v@[j] != c,
        decreases n,
    {
        assert(v@.take(n as int).last() == v@[n - 1]);
        assert(v@.take(n as int).drop_last() == v@.take(n - 1));
        if v[n - 1] == c {
            return Some(n - 1);
        }
        n -= 1;
    }
    None
}

/// The part of `s` in front of its first `c`.
pub fn until<'a>(s: &'a str, c: char) -> (r: &'a str)
    ensures
        r@ == before_first(s@, c),
{
    let v = chars_of(s);
    let mut i: usize = 0;
    assert(s@.skip(0) == s@);
    assert(s@.take(0) + before_first(s@.skip(0), c) == before_first(s@, c));
    while i < v.len() && v[i] != c
        invariant
            v@ == s@,
            i <= v.len(),
            s@.take(i as int) + before_first(s@.skip(i as int), c) == before_first(s@, c),
        decreases v.len() - i,
    {
        let ghost rest = s@.skip(i as int);
        assert(rest.skip(1) == s@.skip(i + 1));
        assert(s@.take(i + 1) == s@.take(i as int) + seq![rest[0]]);
        assert(s@.take(i as int) + (seq![rest[0]] + before_first(rest.skip(1), c)) == s@.take(i + 1)
            + before_first(s@.skip(i + 1), c));
        i += 1;
    }
    let r = s.substring_char(0, i);
    assert(r@ == s@.take(i as int));
    assert(before_first(s@.skip(i as int), c) == Seq::<char>::empty());
    assert(s@.take(i as int) + Seq::<char>::empty() == s@.take(i as int));
    r
}

pub fn to_ascii_lower(c: char) -> (r: char)
    ensures
        r == ascii_lower(c),
{
    if 'A' <= c && c <= 'Z' {
        let n: u8 = c as u8;
        (n + 32) as char
    } else {
        c
    }
}

/// `a` stands before `b` in the order of code points.
pub fn before(a: &str, b: &str) -> (r: bool)
    ensures
        r == text_before(a@, b@),
{
    let x = chars_of(a);
    let y = chars_of(b);
    let mut i: usize = 0;
    assert(a@.skip(0) == a@);
    assert(b@.skip(0) == b@);
    while i < x.len() && i < y.len() && x[i] == y[i]
        invariant
            x@ == a@,
            y@ == b@,
            i <= x.len(),
            i <= y.len(),
            text_before(a@, b@) == text_before(a@.skip(i as int), b@.skip(i as int)),
        decreases x.len() - i,
    {
        assert(a@.skip(i as int).skip(1) == a@.skip(i + 1));
        assert(b@.skip(i as int).skip(1) == b@.skip(i + 1));
        i += 1;
    }
    if i >= y.len() {
        false
    } else if i >= x.len() {
        true
    } else {
        assert(a@.skip(i as int)[0] == x@[i as int]);
        assert(b@.skip(i as int)[0] == y@[i as int]);
        x[i] < y[i]
    }
}

/// Splitting two texts with a separator between them gives the pieces of both.
pub proof fn lemma_split_concat(a: Seq<char>, b: Seq<char>, sep: char)
    ensures
        split_on(b, sep).len() > 0,
        split_on(a.push(sep) + b, sep) == split_on(a, sep)
            + split_on(b, sep),
    decreases b.len(),
{
    let t = a.push(sep) + b;
    let sa = split_on(a, sep);
    if b.len() == 0 {
        assert(t == a.push(sep));
        assert(t.drop_last() == a);
        assert(b == Seq::<char>::empty());
        assert(sa + seq![Seq::<char>::empty()] == sa.push(Seq::<char>::empty()));
    } else {
        let u = b.drop_last();
        lemma_split_concat(a, u, sep);
        assert(t.drop_last() == a.push(sep) + u);
        assert(t.last() == b.last());
        let su = split_on(u, sep);
        let head = sa + su;
        if b.last() == sep {
            assert(head.push(Seq::<char>::empty()) == sa + su.push(Seq::<char>::empty()));
        } else {
            assert(head.last() == su.last());
            assert(head.drop_last().push(head.last().push(b.last())) == sa + su.drop_last().push(
                su.last().push(b.last()),
            ));
        }
    }
}

/// A text without the separator is its only piece.
pub proof fn lemma_split_single(s: Seq<char>, sep: char)
    requires
        forall|i: int| 0 <= i < s.len() ==> s[i] != sep,
    ensures
        split_on(s, sep) == seq![s],
    decreases s.len(),
{
    if s.len() > 0 {
        let u = s.drop_last();
        assert(forall|i: int| 0 <= i < u.len() ==> u[i] == s[i]);
        lemma_split_single(u, sep);
        assert(seq![u].drop_last() == Seq::<Seq<char>>::empty());
        assert(u.push(s.last()) == s);
        assert(split_on(s, sep) == seq![s]);
    } else {
        assert(s == Seq::<char>::empty());
    }
}

/// Replacing in two texts one after the other replaces in each.
pub proof fn lemma_replaced_concat(a: Seq<char>, b: Seq<char>, c: char, with: Seq<char>)
    ensures
        replaced(a + b, c, with) == replaced(a, c, with) + replaced(b, c, with),
    decreases b.len(),
{
    if b.len() == 0 {
        assert(a + b == a);
        assert(replaced(a, c, with) + replaced(b, c, with) == replaced(a, c, with));
    } else {
        lemma_replaced_concat(a, b.drop_last(), c, with);
        assert((a + b).drop_last() == a + b.drop_last());
        assert((a + b).last() == b.last());
        assert(replaced(a + b, c, with) == replaced(a, c, with) + replaced(b, c, with));
    }
}

/// The pieces of a text hold no separator, and joined with it they are the text
/// again.
pub proof fn law_pieces_join_back(s: Seq<char>, sep: char)
    ensures
        split_on(s, sep).len() > 0,
        forall|i: int|
            0 <= i < split_on(s, sep).len() ==> !(#[trigger] split_on(s, sep)[i]).contains(sep),
        joined(split_on(s, sep), seq![sep]) == s,
    decreases s.len(),
{
    if s.len() > 0 {
        let head = split_on(s.drop_last(), sep);
        let all = split_on(s, sep);
        let c = s.last();
        law_pieces_join_back(s.drop_last(), sep);
        assert(s =~= s.drop_last().push(c));
        if c == sep {
            assert(all.drop_last() =~= head);
            assert forall|i: int| 0 <= i < all.len() implies !(#[trigger] all[i]).contains(sep) by {
                if i < head.len() {
                    assert(all[i] == head[i]);
                }
            }
            assert(joined(all, seq![sep]) =~= s);
        } else {
            assert(all.drop_last() =~= head.drop_last());
            let (old, new) = (head.last(), head.last().push(c));
            assert forall|i: int| 0 <= i < all.len() implies !(#[trigger] all[i]).contains(sep) by {
                if i < head.len() - 1 {
                    assert(all[i] == head[i]);
                } else {
                    assert(!head[head.len() - 1].contains(sep));
                    if new.contains(sep) {
                        let k = choose|k: int| 0 <= k < new.len() && new[k] == sep;
                        assert(old[k] == sep);
                    }
                }
            }
            assert(joined(all, seq![sep]) =~= s);
        }
    } else {
        assert(joined(seq![Seq::<char>::empty()], seq![sep]) =~= s);
    }
}

proof fn lemma_trimmed_start(s: Seq<char>) -> (front: Seq<char>)
    ensures
        s == front + trimmed_start(s),
        forall|i: int| 0 <= i < front.len() ==> is_white(#[trigger] front[i]),
        trimmed_start(s).len() > 0 ==> !is_white(trimmed_start(s)[0]),
    decreases s.len(),
{
    if s.len() > 0 && is_white(s[0]) {
        let rest = lemma_trimmed_start(s.skip(1));
        let front = seq![s[0]] + rest;
        assert(s =~= seq![s[0]] + s.skip(1));
        assert(front + trimmed_start(s) =~= seq![s[0]] + (rest + trimmed_start(s.skip(1))));
        front
    } else {
        assert(s =~= Seq::<char>::empty() + s);
        Seq::empty()
    }
}

proof fn lemma_trimmed_end(s: Seq<char>) -> (back: Seq<char>)
    ensures
        s == trimmed_end(s) + back,
        forall|i: int| 0 <= i < back.len() ==> is_white(#[trigger] back[i]),
        trimmed_end(s).len() > 0 ==> !is_white(trimmed_end(s).last()),
    decreases s.len(),
{
    if s.len() > 0 && is_white(s.last()) {
        let rest = lemma_trimmed_end(s.drop_last());
        let back = rest.push(s.last());
        assert(s =~= s.drop_last().push(s.last()));
        assert(trimmed_end(s) + back =~= (trimmed_end(s.drop_last()) + rest).push(s.last()));
        back
    } else {
        assert(s =~= s + Seq::<char>::empty());
        Seq::empty()
    }
}

/// Trimming takes away white space at both ends, all of it and nothing else.
pub proof fn law_trimming_takes_the_white_space_around(s: Seq<char>)
    ensures
        exists|front: Seq<char>, back: Seq<char>|
            #![trigger front + trimmed(s) + back]
            s == front + trimmed(s) + back && (forall|i: int|
                0 <= i < front.len() ==> is_white(#[trigger] front[i])) && (forall|i: int|
                0 <= i < back.len() ==> is_white(#[trigger] back[i])),
        trimmed(s).len() > 0 ==> !is_white(trimmed(s)[0]) && !is_white(trimmed(s).last()),
{
    let front = lemma_trimmed_start(s);
    let back = lemma_trimmed_end(trimmed_start(s));
    assert(s =~= front + trimmed(s) + back);
    if trimmed(s).len() > 0 {
        assert(trimmed(s)[0] == trimmed_start(s)[0]);
    }
}

/// Lines that hold no line end are read back from the text that ends each of
/// them with a line feed, or with a carriage return and a line feed; a last line
/// without an end is a line too, unless nothing stands on it.
pub proof fn law_lines_read_back(front: Seq<char>, line: Seq<char>)
    requires
        !line.contains('\n'),
        front.len() == 0 || front.last() == '\n',
    ensures
        lines_of(front + line) == (if line.len() == 0 {
            lines_of(front)
        } else {
            lines_of(front).push(line)
        }),
        line.len() == 0 || line.last() != '\r' ==> {
            &&& lines_of(front + line.push('\n')) == lines_of(front).push(line)
            &&& lines_of(front + line.push('\r').push('\n')) == lines_of(front).push(line)
        },
        lines_of(Seq::empty()).len() == 0,
{
    let f = split_on(front, '\n');
    law_pieces_join_back(front, '\n');
    assert(f.last().len() == 0) by {
        if front.len() > 0 {
            assert(f == split_on(front.drop_last(), '\n').push(Seq::empty()));
        }
    }
    lemma_split_behind_an_end(front, line);
    let a = split_on(front + line, '\n');
    assert(a =~= f.drop_last().push(line));
    assert(a.drop_last() =~= f.drop_last());
    if line.len() == 0 {
        assert(front + line =~= front);
    }
    let cr = line.push('\r');
    assert(!cr.contains('\n')) by {
        if cr.contains('\n') {
            let k = choose|k: int| 0 <= k < cr.len() && cr[k] == '\n';
            assert(line[k] == '\n');
        }
    }
    lemma_split_behind_an_end(front, cr);
    let strip = |p: Seq<char>| without_cr(p);
    assert((front + line.push('\n')).drop_last() =~= front + line);
    assert((front + cr.push('\n')).drop_last() =~= front + cr);
    let b = split_on(front + line.push('\n'), '\n');
    let c = split_on(front + cr.push('\n'), '\n');
    assert(b =~= f.drop_last().push(line).push(Seq::empty()));
    assert(c =~= f.drop_last().push(cr).push(Seq::empty()));
    assert(b.drop_last() =~= f.drop_last().push(line));
    assert(c.drop_last() =~= f.drop_last().push(cr));
    assert(lines_of(front) =~= f.drop_last().map_values(strip));
    assert(cr.drop_last() =~= line);
    assert(without_cr(cr) =~= line);
    if line.len() == 0 || line.last() != '\r' {
        assert(b.drop_last().map_values(strip) =~= lines_of(front).push(line));
        assert(c.drop_last().map_values(strip) =~= lines_of(front).push(line));
    }
}

proof fn lemma_split_behind_an_end(front: Seq<char>, line: Seq<char>)
    requires
        !line.contains('\n'),
        split_on(front, '\n').last().len() == 0,
    ensures
        split_on(front + line, '\n') == split_on(front, '\n').drop_last().push(line),
    decreases line.len(),
{
    let f = split_on(front, '\n');
    law_pieces_join_back(front, '\n');
    if line.len() == 0 {
        assert(front + line =~= front);
        assert(f =~= f.drop_last().push(f.last()));
        assert(f.last() =~= line);
    } else {
        let head = line.drop_last();
        assert(!head.contains('\n')) by {
            if head.contains('\n') {
                let k = choose|k: int| 0 <= k < head.len() && head[k] == '\n';
                assert(line[k] == '\n');
            }
        }
        lemma_split_behind_an_end(front, head);
        assert((front + line).drop_last() =~= front + head);
        assert(line.last() != '\n') by {
            assert(line[line.len() - 1] == line.last());
        }
        let h = split_on(front + head, '\n');
        assert(h.drop_last() =~= f.drop_last());
        assert(head.push(line.last()) =~= line);
    }
}

/// White space parts words, a text without any is one word, and nothing is none.
pub proof fn law_white_space_parts_words(a: Seq<char>, c: char, b: Seq<char>)
    ensures
        is_white(c) ==> words_of(a.push(c) + b) == words_of(a) + words_of(b),
        a.len() > 0 && !has_white(a) ==> words_of(a) == seq![a],
        words_of(Seq::empty()).len() == 0,
    decreases a.len() + b.len(),
{
    if is_white(c) {
        let s = a.push(c) + b;
        if b.len() == 0 {
            assert(s =~= a.push(c));
            assert(s.drop_last() =~= a);
            assert(words_of(a) + words_of(b) =~= words_of(a));
        } else {
            let u = b.drop_last();
            law_white_space_parts_words(a, c, u);
            assert(s.drop_last() =~= a.push(c) + u);
            assert(s.last() == b.last());
            let (wa, wu) = (words_of(a), words_of(u));
            if is_white(b.last()) {
            } else if b.len() == 1 {
                assert(u.len() == 0);
                assert(s[s.len() - 2] == c);
                assert(words_of(s) =~= wa + words_of(b));
            } else {
                assert(s[s.len() - 2] == b[b.len() - 2]);
                if is_white(b[b.len() - 2]) {
                    assert(words_of(s) =~= wa + words_of(b));
                } else {
                    lemma_open_word(u);
                    assert((wa + wu).drop_last() =~= wa + wu.drop_last());
                    assert(words_of(s) =~= wa + words_of(b));
                }
            }
        }
    }
    if a.len() > 0 && !has_white(a) {
        crate::marks::lemma_words_single(a);
    }
}

/// Behind a character that is no white space there is a word.
proof fn lemma_open_word(s: Seq<char>)
    requires
        s.len() > 0,
        !is_white(s.last()),
    ensures
        words_of(s).len() > 0,
    decreases s.len(),
{
    if s.len() > 1 && !is_white(s[s.len() - 2]) {
        lemma_open_word(s.drop_last());
    }
}

/// Replacing goes character by character: what is to be replaced becomes the
/// replacement, everything else stays, and the parts of a text keep their order.
pub proof fn law_replacing_goes_by_character(
    a: Seq<char>,
    d: char,
    b: Seq<char>,
    c: char,
    with: Seq<char>,
)
    ensures
        replaced(a.push(d) + b, c, with) == replaced(a, c, with) + (if d == c {
            with
        } else {
            seq![d]
        }) + replaced(b, c, with),
        replaced(Seq::empty(), c, with).len() == 0,
{
    lemma_replaced_concat(a.push(d), b, c, with);
    assert(a.push(d).drop_last() =~= a);
    assert(replaced(a.push(d), c, with) =~= replaced(a, c, with) + (if d == c {
        with
    } else {
        seq![d]
    }));
}

/// Joining puts the separator between each two parts and nowhere else.
pub proof fn law_joining_parts(a: Seq<Seq<char>>, b: Seq<Seq<char>>, sep: Seq<char>)
    requires
        a.len() > 0,
        b.len() > 0,
    ensures
        joined(a + b, sep) == joined(a, sep) + sep + joined(b, sep),
        a.len() == 1 ==> joined(a, sep) == a[0],
        joined(Seq::empty(), sep).len() == 0,
    decreases b.len(),
{
    assert((a + b).drop_last() =~= a + b.drop_last());
    assert((a + b).last() == b.last());
    if b.len() == 1 {
        assert(a + b.drop_last() =~= a);
        assert(joined(b, sep) == b[0]);
    } else {
        law_joining_parts(a, b.drop_last(), sep);
    }
    assert(joined(a + b, sep) =~= joined(a, sep) + sep + joined(b, sep));
}

/// The last position of a character holds it, and no later one does; there is
/// none exactly where the text does not hold it.
pub proof fn law_last_position(s: Seq<char>, c: char)
    ensures
        match last_index(s, c) {
            Some(i) => 0 <= i < s.len() && s[i] == c && forall|j: int|
                i < j < s.len() ==> #[trigger] s[j] != c,
            None => !s.contains(c),
        },
    decreases s.len(),
{
    if s.len() > 0 {
        let u = s.drop_last();
        law_last_position(u, c);
        if s.last() != c {
            match last_index(u, c) {
                Some(i) => {
                    assert forall|j: int| i < j < s.len() implies #[trigger] s[j] != c by {
                        if j < u.len() {
                            assert(u[j] == s[j]);
                        }
                    }
                },
                None => {
                    if s.contains(c) {
                        let k = choose|k: int| 0 <= k < s.len() && s[k] == c;
                        assert(u[k] == c);
                    }
                },
            }
        }
    }
}

/// What stands in front of the first `c` holds none, and behind it the text ends
/// or goes on with `c`.
pub proof fn law_front_of_the_first(s: Seq<char>, c: char)
    ensures
        before_first(s, c).len() <= s.len(),
        s.take(before_first(s, c).len() as int) == before_first(s, c),
        !before_first(s, c).contains(c),
        before_first(s, c).len() < s.len() ==> s[before_first(s, c).len() as int] == c,
    decreases s.len(),
{
    let f = before_first(s, c);
    if s.len() > 0 && s[0] != c {
        law_front_of_the_first(s.skip(1), c);
        let g = before_first(s.skip(1), c);
        assert(s.take(f.len() as int) =~= seq![s[0]] + s.skip(1).take(g.len() as int));
        if f.contains(c) {
            let k = choose|k: int| 0 <= k < f.len() && f[k] == c;
            assert(g[k - 1] == c);
        }
    } else {
        assert(s.take(0) =~= f);
    }
}

/// Texts are ordered by the first character in which they differ; where there is
/// none the shorter one stands first.
pub proof fn law_texts_are_ordered_by_their_first_difference(a: Seq<char>, b: Seq<char>)
    ensures
        text_before(a, b) <==> exists|k: int|
            #![trigger a.take(k)]
            0 <= k <= a.len() && k < b.len() && a.take(k) == b.take(k) && (k == a.len() || a[k]
                < b[k]),
    decreases a.len(),
{
    if b.len() > 0 && a.len() > 0 && a[0] == b[0] {
        let (u, v) = (a.skip(1), b.skip(1));
        law_texts_are_ordered_by_their_first_difference(u, v);
        if text_before(u, v) {
            let k = choose|k: int|
                #![trigger u.take(k)]
                0 <= k <= u.len() && k < v.len() && u.take(k) == v.take(k) && (k == u.len() || u[k]
                    < v[k]);
            assert forall|i: int| 0 <= i < k + 1 implies a[i] == b[i] by {
                if i > 0 {
                    assert(u.take(k)[i - 1] == v.take(k)[i - 1]);
                }
            }
            assert(a.take(k + 1) =~= b.take(k + 1));
        }
        if exists|k: int|
            #![trigger a.take(k)]
            0 <= k <= a.len() && k < b.len() && a.take(k) == b.take(k) && (k == a.len() || a[k]
                < b[k]) {
            let k = choose|k: int|
                #![trigger a.take(k)]
                0 <= k <= a.len() && k < b.len() && a.take(k) == b.take(k) && (k == a.len() || a[k]
                    < b[k]);
            assert(k > 0);
            assert forall|i: int| 0 <= i < k - 1 implies u[i] == v[i] by {
                assert(a.take(k)[i + 1] == b.take(k)[i + 1]);
            }
            assert(u.take(k - 1) =~= v.take(k - 1));
        }
    } else {
        if text_before(a, b) {
            assert(a.take(0) =~= b.take(0));
        }
        if exists|k: int|
            #![trigger a.take(k)]
            0 <= k <= a.len() && k < b.len() && a.take(k) == b.take(k) && (k == a.len() || a[k]
                < b[k]) {
            let k = choose|k: int|
                #![trigger a.take(k)]
                0 <= k <= a.len() && k < b.len() && a.take(k) == b.take(k) && (k == a.len() || a[k]
                    < b[k]);
            if k > 0 {
                assert(a.take(k)[0] == b.take(k)[0]);
            }
        }
    }
}

/// Lower case of ASCII changes the capital letters and nothing else, keeps them
/// apart, and has nothing left to change.
pub proof fn law_ascii_lower(c: char, d: char)
    ensures
        'A' <= c <= 'Z' ==> 'a' <= ascii_lower(c) <= 'z' && ascii_lower(c) as int - 'a' as int == c
            as int - 'A' as int,
        !('A' <= c <= 'Z') ==> ascii_lower(c) == c,
        ascii_lower(ascii_lower(c)) == ascii_lower(c),
        'A' <= c <= 'Z' && 'A' <= d <= 'Z' && ascii_lower(c) == ascii_lower(d) ==> c == d,
{
}

proof fn lemma_begins(s: Seq<char>, pat: Seq<char>)
    ensures
        begins_with(s, pat) <==> exists|rest: Seq<char>| s == #[trigger] (pat + rest),
{
    if begins_with(s, pat) {
        assert(s =~= pat + s.skip(pat.len() as int));
    }
    if exists|rest: Seq<char>| s == #[trigger] (pat + rest) {
        let rest = choose|rest: Seq<char>| s == #[trigger] (pat + rest);
        assert(s.subrange(0, pat.len() as int) =~= pat);
    }
}

proof fn lemma_finishes(s: Seq<char>, pat: Seq<char>)
    ensures
        finishes_with(s, pat) <==> exists|front: Seq<char>| s == #[trigger] (front + pat),
{
    if finishes_with(s, pat) {
        assert(s =~= s.take(s.len() - pat.len()) + pat);
    }
    if exists|front: Seq<char>| s == #[trigger] (front + pat) {
        let front = choose|front: Seq<char>| s == #[trigger] (front + pat);
        assert(s.subrange(s.len() - pat.len(), s.len() as int) =~= pat);
    }
}

proof fn lemma_contains(s: Seq<char>, pat: Seq<char>)
    ensures
        contains_text(s, pat) <==> exists|front: Seq<char>, rest: Seq<char>|
            s == #[trigger] (front + pat + rest),
{
    if contains_text(s, pat) {
        let i = choose|i: int| #[trigger] occurs_at(s, pat, i);
        assert(s =~= s.take(i) + pat + s.skip(i + pat.len()));
    }
    if exists|front: Seq<char>, rest: Seq<char>| s == #[trigger] (front + pat + rest) {
        let (front, rest) = choose|front: Seq<char>, rest: Seq<char>|
            s == #[trigger] (front + pat + rest);
        lemma_text_holds(front, pat, rest);
    }
}

/// A text begins with a pattern exactly where it is the pattern and something
/// behind it, ends with it exactly where it is something and the pattern, and holds
/// it exactly where it is something, the pattern and something.
pub proof fn law_where_patterns_stand(s: Seq<char>, pat: Seq<char>)
    ensures
        begins_with(s, pat) <==> exists|rest: Seq<char>| s == #[trigger] (pat + rest),
        finishes_with(s, pat) <==> exists|front: Seq<char>| s == #[trigger] (front + pat),
        contains_text(s, pat) <==> exists|front: Seq<char>, rest: Seq<char>|
            s == #[trigger] (front + pat + rest),
        after_prefix(s, pat) matches Some(rest) ==> s == pat + rest,
        after_prefix(s, pat) is Some <==> begins_with(s, pat),
{
    lemma_begins(s, pat);
    lemma_finishes(s, pat);
    lemma_contains(s, pat);
    if let Some(rest) = after_prefix(s, pat) {
        assert(s =~= pat + rest);
    }
}

/// A text holds what stands between its two ends.
pub proof fn lemma_text_holds(front: Seq<char>, pat: Seq<char>, rest: Seq<char>)
    ensures
        contains_text(front + pat + rest, pat),
{
    let s = front + pat + rest;
    let i = front.len() as int;
    assert(s.subrange(i, i + pat.len()) =~= pat);
    assert(occurs_at(s, pat, i));
}

/// What stands in a part of a text stands in the text.
pub proof fn lemma_part_holds(front: Seq<char>, s: Seq<char>, rest: Seq<char>, pat: Seq<char>)
    requires
        contains_text(s, pat),
    ensures
        contains_text(front + s + rest, pat),
{
    let i = choose|i: int| #[trigger] occurs_at(s, pat, i);
    let all = front + s + rest;
    let k = front.len() + i;
    assert(all.subrange(k, k + pat.len()) =~= s.subrange(i, i + pat.len()));
    assert(occurs_at(all, pat, k));
}

/// A text has white space exactly where one of its characters is such, wherever
/// that stands; one made of digits has at least one character and none that is no
/// digit.
pub proof fn law_kinds_of_texts(a: Seq<char>, c: char, b: Seq<char>)
    ensures
        is_white(c) ==> has_white(a.push(c) + b),
        has_white(a) || has_white(b) ==> has_white(a + b),
        has_white(a + b) ==> has_white(a) || has_white(b),
        !has_white(Seq::empty()),
        all_digits(a) && all_digits(b) ==> all_digits(a + b),
        all_digits(seq![c]) <==> '0' <= c <= '9',
        !all_digits(Seq::empty()),
        !is_digit(c) ==> !all_digits(a.push(c) + b),
{
    if is_white(c) {
        assert(is_white((a.push(c) + b)[a.len() as int]));
    }
    if has_white(a) {
        let i = choose|i: int| 0 <= i < a.len() && is_white(#[trigger] a[i]);
        assert(is_white((a + b)[i]));
    }
    if has_white(b) {
        let i = choose|i: int| 0 <= i < b.len() && is_white(#[trigger] b[i]);
        assert(is_white((a + b)[a.len() + i]));
    }
    if has_white(a + b) {
        let i = choose|i: int| 0 <= i < (a + b).len() && is_white(#[trigger] (a + b)[i]);
        if i < a.len() {
            assert(is_white(a[i]));
        } else {
            assert(is_white(b[i - a.len()]));
        }
    }
    assert(seq![c][0] == c);
    if !is_digit(c) {
        assert(!is_digit((a.push(c) + b)[a.len() as int]));
    }
}

/// The white space characters, all of them and no others; the letters and digits
/// of ASCII are the digits and what is a letter from a to z in lower case.
pub proof fn law_kinds_of_characters(c: char)
    ensures
        is_white(c) <==> seq![
            0x9int, 0xaint, 0xbint, 0xcint, 0xdint, 0x20int, 0x85int, 0xa0int, 0x1680int, 0x2000int, 0x2001int, 0x2002int, 0x2003int, 0x2004int, 0x2005int, 0x2006int, 0x2007int, 0x2008int, 0x2009int, 0x200aint, 0x2028int, 0x2029int, 0x202fint, 0x205fint, 0x3000int,
        ].contains(c as int),
        is_digit(c) <==> 48 <= c as int <= 57,
        is_ascii_alnum(c) <==> is_digit(c) || 97 <= ascii_lower(c) as int <= 122,
{
    let all = seq![
        0x9int, 0xaint, 0xbint, 0xcint, 0xdint, 0x20int, 0x85int, 0xa0int, 0x1680int, 0x2000int, 0x2001int, 0x2002int, 0x2003int, 0x2004int, 0x2005int, 0x2006int, 0x2007int, 0x2008int, 0x2009int, 0x200aint, 0x2028int, 0x2029int, 0x202fint, 0x205fint, 0x3000int,
    ];
    assert(all[0] == 0x9);
    assert(all[1] == 0xa);
    assert(all[2] == 0xb);
    assert(all[3] == 0xc);
    assert(all[4] == 0xd);
    assert(all[5] == 0x20);
    assert(all[6] == 0x85);
    assert(all[7] == 0xa0);
    assert(all[8] == 0x1680);
    assert(all[9] == 0x2000);
    assert(all[10] == 0x2001);
    assert(all[11] == 0x2002);
    assert(all[12] == 0x2003);
    assert(all[13] == 0x2004);
    assert(all[14] == 0x2005);
    assert(all[15] == 0x2006);
    assert(all[16] == 0x2007);
    assert(all[17] == 0x2008);
    assert(all[18] == 0x2009);
    assert(all[19] == 0x200a);
    assert(all[20] == 0x2028);
    assert(all[21] == 0x2029);
    assert(all[22] == 0x202f);
    assert(all[23] == 0x205f);
    assert(all[24] == 0x3000);
}

} // verus!
