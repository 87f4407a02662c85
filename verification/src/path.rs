//! Slash-separated paths as text: their components, the last name, the parent
//! directory, and joining.

use vstd::prelude::*;

use crate::text::{chars_of, find_last, same_text, split, text_of};
use crate::text::{last_index, split_on, str_texts, texts, opt_text};

verus! {

/// The path begins at the root directory.
pub open spec fn rooted(s: Seq<char>) -> bool {
    s.len() > 0 && s[0] == '/'
}

/// The path begins with a component that is a single dot.
pub open spec fn dotted(s: Seq<char>) -> bool {
    s.len() > 0 && s[0] == '.' && (s.len() == 1 || s[1] == '/')
}

/// How many characters in front are the root or the leading dot.
pub open spec fn lead(s: Seq<char>) -> int {
    if rooted(s) || dotted(s) {
        1
    } else {
        0
    }
}

/// `s` without the slashes and single dots at its end, which name nothing.
pub open spec fn shortened(s: Seq<char>) -> Seq<char>
    decreases s.len(),
{
    if s.len() > lead(s) && (s.last() == '/' || (s.len() >= 2 && s.last() == '.' && s[s.len() - 2]
        == '/')) {
        shortened(s.drop_last())
    } else {
        s
    }
}

/// Where the last component of the shortened path `t` begins.
pub open spec fn name_start(t: Seq<char>) -> int {
    match last_index(t, '/') {
        Some(i) => i + 1,
        None => 0,
    }
}

/// The last component of the path, where that is an ordinary name.
pub open spec fn file_name_of(s: Seq<char>) -> Option<Seq<char>> {
    let t = shortened(s);
    if t.len() <= lead(t) || t.skip(name_start(t)) == seq!['.', '.'] {
        None
    } else {
        Some(t.skip(name_start(t)))
    }
}

/// The path without its last component; none for the root and the empty path.
pub open spec fn parent_of(s: Seq<char>) -> Option<Seq<char>> {
    let t = shortened(s);
    if t.len() == 0 || (rooted(t) && t.len() == 1) {
        None
    } else if t.len() <= lead(t) {
        Some(Seq::empty())
    } else {
        Some(shortened(t.take(name_start(t))))
    }
}

/// The pieces that name something: not empty and not a single dot.
pub open spec fn naming(pieces: Seq<Seq<char>>) -> Seq<Seq<char>>
    decreases pieces.len(),
{
    if pieces.len() == 0 {
        Seq::empty()
    } else if pieces.last().len() == 0 || pieces.last() == seq!['.'] {
        naming(pieces.drop_last())
    } else {
        naming(pieces.drop_last()).push(pieces.last())
    }
}

/// The components of the path: the root or a leading dot, then each name.
pub open spec fn components_of(s: Seq<char>) -> Seq<Seq<char>> {
    (if rooted(s) {
        seq![seq!['/']]
    } else if dotted(s) {
        seq![seq!['.']]
    } else {
        Seq::empty()
    }) + naming(split_on(s, '/'))
}

/// Two paths with the same components are the same path.
pub open spec fn same_path_as(a: Seq<char>, b: Seq<char>) -> bool {
    components_of(a) == components_of(b)
}

/// `name` inside the directory `base`; an absolute `name` stands for itself.
pub open spec fn joined_path(base: Seq<char>, name: Seq<char>) -> Seq<char> {
    if rooted(name) {
        name
    } else if base.len() == 0 || base.last() == '/' {
        base + name
    } else {
        base + seq!['/'] + name
    }
}

fn lead_len(v: &Vec<char>) -> (n: usize)
    ensures
        n == lead(v@),
{
    if v.len() > 0 && (v[0] == '/' || (v[0] == '.' && (v.len() == 1 || v[1] == '/'))) {
        1
    } else {
        0
    }
}

/// The length of the shortened form of `v[..end]`.
fn shortened_len(v: &Vec<char>, end: usize) -> (n: usize)
    requires
        end <= v.len(),
    ensures
        n <= end,
        shortened(v@.take(end as int)) == v@.take(n as int),
{
    let mut n: usize = end;
    loop
        invariant
            n <= end <= v.len(),
            shortened(v@.take(end as int)) == shortened(v@.take(n as int)),
        decreases n,
    {
        let ghost t = v@.take(n as int);
        if n == 0 {
            return n;
        }
        assert(t.last() == v@[n - 1]);
        assert(t.drop_last() == v@.take(n - 1));
        let fixed: bool = n == 1 && (v[0] == '/' || v[0] == '.');
        assert(lead(t) <= n);
        assert(fixed ==> lead(t) == 1);
        assert(n == 1 && !fixed ==> t.last() != '/');
        if !fixed && (v[n - 1] == '/' || (n >= 2 && v[n - 1] == '.' && v[n - 2] == '/')) {
            assert(n >= 2);
            n -= 1;
        } else {
            return n;
        }
    }
}

/// The last component of the path, where that is an ordinary name.
pub fn file_name(path: &str) -> (r: Option<String>)
    ensures
        opt_text(r) == file_name_of(path@),
{
    let v = chars_of(path);
    assert(v@.take(v.len() as int) == v@);
    let n: usize = shortened_len(&v, v.len());
    let ghost t = shortened(path@);
    let mut w = v;
    w.truncate(n);
    assert(w@ == t);
    if n <= lead_len(&w) {
        return None;
    }
    let from: usize = match find_last(&w, '/') {
        Some(i) => i + 1,
        None => 0,
    };
    let name = text_of(&w, from, n);
    assert(t.skip(from as int) == name@);
    assert(".."@ == seq!['.', '.']) by {
        reveal_strlit("..");
    }
    if same_text(name.as_str(), "..") {
        None
    } else {
        Some(name)
    }
}

/// The path without its last component.
pub fn parent(path: &str) -> (r: Option<String>)
    ensures
        opt_text(r) == parent_of(path@),
{
    let v = chars_of(path);
    assert(v@.take(v.len() as int) == v@);
    let n: usize = shortened_len(&v, v.len());
    let ghost t = shortened(path@);
    let mut w = v;
    w.truncate(n);
    assert(w@ == t);
    if n == 0 || (n == 1 && w[0] == '/') {
        return None;
    }
    if n <= lead_len(&w) {
        return Some(String::new());
    }
    let from: usize = match find_last(&w, '/') {
        Some(i) => i + 1,
        None => 0,
    };
    let m: usize = shortened_len(&w, from);
    assert(t.take(m as int) == t.subrange(0, m as int));
    Some(text_of(&w, 0, m))
}

/// `name` inside the directory `base`.
pub fn join(base: &str, name: &str) -> (r: String)
    ensures
        r@ == joined_path(base@, name@),
{
    let n = chars_of(name);
    if n.len() > 0 && n[0] == '/' {
        return name.to_owned();
    }
    let b = chars_of(base);
    let mut out = base.to_owned();
    if b.len() > 0 && b[b.len() - 1] != '/' {
        out.push('/');
        assert(out@ == base@ + seq!['/']);
    }
    out.append(name);
    out
}

/// The components of the path.
pub fn components(path: &str) -> (r: Vec<String>)
    ensures
        texts(r@) == components_of(path@),
{
    let v = chars_of(path);
    let mut out: Vec<String> = Vec::new();
    if lead_len(&v) == 1 {
        let first = text_of(&v, 0, 1);
        assert(first@ == seq![path@[0]]);
        out.push(first);
    }
    let ghost front = texts(out@);
    assert(front == (if rooted(path@) {
        seq![seq!['/']]
    } else if dotted(path@) {
        seq![seq!['.']]
    } else {
        Seq::empty()
    }));
    let pieces = split(path, '/');
    let ghost all = split_on(path@, '/');
    let mut i: usize = 0;
    assert(all.take(0) == Seq::<Seq<char>>::empty());
    while i < pieces.len()
        invariant
            i <= pieces.len(),
            all == str_texts(pieces@),
            texts(out@) == front + naming(all.take(i as int)),
        decreases pieces.len() - i,
    {
        let ghost before = out@;
        let piece = pieces[i];
        assert(all[i as int] == piece@);
        assert(all.take(i + 1).drop_last() == all.take(i as int));
        assert(all.take(i + 1).last() == piece@);
        assert("."@ == seq!['.']) by {
            reveal_strlit(".");
        }
        if !piece.is_empty() && !same_text(piece, ".") {
            out.push(piece.to_owned());
            assert(texts(out@) == texts(before).push(piece@));
        }
        i += 1;
    }
    assert(all.take(pieces.len() as int) == all);
    out
}

/// Whether two paths have the same components.
pub fn same_path(a: &str, b: &str) -> (r: bool)
    ensures
        r == same_path_as(a@, b@),
{
    let x = components(a);
    let y = components(b);
    assert(texts(x@).len() == x@.len());
    assert(texts(y@).len() == y@.len());
    if x.len() != y.len() {
        return false;
    }
    let mut i: usize = 0;
    while i < x.len()
        invariant
            i <= x.len() == y.len(),
            texts(x@) == components_of(a@),
            texts(y@) == components_of(b@),
            forall|j: int| 0 <= j < i ==> texts(x@)[j] == texts(y@)[j],
        decreases x.len() - i,
    {
        assert(texts(x@)[i as int] == x@[i as int]@);
        assert(texts(y@)[i as int] == y@[i as int]@);
        if !same_text(x[i].as_str(), y[i].as_str()) {
            return false;
        }
        i += 1;
    }
    assert(texts(x@) == texts(y@));
    true
}

proof fn lemma_split_nonempty(s: Seq<char>, sep: char)
    ensures
        split_on(s, sep).len() > 0,
    decreases s.len(),
{
    if s.len() > 0 {
        lemma_split_nonempty(s.drop_last(), sep);
    }
}

proof fn lemma_naming_push(pieces: Seq<Seq<char>>, piece: Seq<char>)
    ensures
        naming(pieces.push(piece)) == (if piece.len() == 0 || piece == seq!['.'] {
            naming(pieces)
        } else {
            naming(pieces).push(piece)
        }),
{
    assert(pieces.push(piece).drop_last() == pieces);
}

/// Shortening keeps the components.
proof fn lemma_shortened_components(s: Seq<char>)
    ensures
        rooted(shortened(s)) == rooted(s),
        dotted(shortened(s)) == dotted(s),
        naming(split_on(shortened(s), '/')) == naming(split_on(s, '/')),
    decreases s.len(),
{
    if s.len() > lead(s) && (s.last() == '/' || (s.len() >= 2 && s.last() == '.' && s[s.len() - 2]
        == '/')) {
        let u = s.drop_last();
        assert(s.len() >= 2);
        lemma_shortened_components(u);
        lemma_split_nonempty(u, '/');
        if s.last() == '/' {
            lemma_naming_push(split_on(u, '/'), Seq::empty());
        } else {
            let w = u.drop_last();
            let head = split_on(u, '/');
            assert(head == split_on(w, '/').push(Seq::empty()));
            assert(head.drop_last() == split_on(w, '/'));
            assert(head.last().push('.') == seq!['.']);
            lemma_naming_push(split_on(w, '/'), Seq::empty());
            lemma_naming_push(split_on(w, '/'), seq!['.']);
        }
    }
}

/// A path is its directory part and the name that follows the last slash.
proof fn lemma_split_name(t: Seq<char>)
    ensures
        0 <= name_start(t) <= t.len(),
        name_start(t) > 0 ==> t[name_start(t) - 1] == '/',
        split_on(t.take(name_start(t)), '/').last().len() == 0,
        split_on(t, '/') == split_on(t.take(name_start(t)), '/').drop_last().push(
            t.skip(name_start(t)),
        ),
    decreases t.len(),
{
    let k = name_start(t);
    if t.len() == 0 {
        assert(t.take(0) == t);
        assert(t.skip(0) == Seq::<char>::empty());
        assert(split_on(t, '/').drop_last() == Seq::<Seq<char>>::empty());
    } else if t.last() == '/' {
        assert(t.take(k) == t);
        assert(t.skip(k) == Seq::<char>::empty());
        lemma_split_nonempty(t.drop_last(), '/');
        assert(split_on(t, '/').drop_last() == split_on(t.drop_last(), '/'));
    } else {
        let u = t.drop_last();
        lemma_split_name(u);
        assert(name_start(u) == k);
        assert(u.take(k) == t.take(k));
        let dir = split_on(t.take(k), '/').drop_last();
        assert(split_on(u, '/') == dir.push(u.skip(k)));
        assert(dir.push(u.skip(k)).drop_last() == dir);
        assert(u.skip(k).push(t.last()) == t.skip(k));
    }
}

/// The parent directory of a path has all its components but the last, and
/// the file name is that last component. Only the root and a path without
/// components have no parent, and only a path that ends in the root, in a dot
/// or in two dots has no file name beside it.
pub proof fn law_parent_drops_the_last_component(s: Seq<char>)
    ensures
        parent_of(s) is None <==> components_of(s) == Seq::<Seq<char>>::empty() || components_of(s)
            == seq![seq!['/']],
        parent_of(s) matches Some(p) ==> components_of(p) == components_of(s).drop_last(),
        file_name_of(s) matches Some(n) ==> components_of(s).len() > 0 && components_of(s).last()
            == n,
        file_name_of(s) is None <==> components_of(s).len() == 0 || components_of(s).last() == seq![
            '/',
        ] || components_of(s).last() == seq!['.'] || components_of(s).last() == seq!['.', '.'],
{
    let t = shortened(s);
    lemma_shortened_components(s);
    lemma_shortened_fixed(s);
    lemma_split_name(t);
    lemma_split_nonempty(t, '/');
    let k = name_start(t);
    let name = t.skip(k);
    assert(components_of(s) == components_of(t));
    let first = if rooted(s) {
        seq![seq!['/']]
    } else if dotted(s) {
        seq![seq!['.']]
    } else {
        Seq::<Seq<char>>::empty()
    };
    if t.len() <= lead(t) {
        if t.len() == 0 {
            lemma_naming_push(Seq::empty(), Seq::empty());
            assert(split_on(t, '/') == Seq::<Seq<char>>::empty().push(Seq::empty()));
            assert(components_of(t) == Seq::<Seq<char>>::empty());
        } else {
            let e = t.drop_last();
            assert(e == Seq::<char>::empty());
            assert(split_on(e, '/') == seq![Seq::<char>::empty()]);
            lemma_naming_push(Seq::empty(), Seq::empty());
            lemma_naming_push(Seq::empty(), seq!['.']);
            lemma_naming_push(seq![Seq::<char>::empty()], Seq::empty());
            assert(Seq::<Seq<char>>::empty().push(Seq::empty()) == seq![Seq::<char>::empty()]);
            if rooted(t) {
                assert(naming(split_on(t, '/')) == Seq::<Seq<char>>::empty());
                assert(components_of(t) == first);
            } else {
                assert(split_on(e, '/').drop_last() == Seq::<Seq<char>>::empty());
                assert(Seq::<char>::empty().push('.') == seq!['.']);
                assert(naming(split_on(t, '/')) == Seq::<Seq<char>>::empty());
                assert(components_of(t) == first);
                assert(components_of(t).len() == 1 && components_of(t)[0] == seq!['.']);
                assert(components_of(t)[0][0] == '.');
                assert(naming(split_on(e, '/')) == Seq::<Seq<char>>::empty());
                assert(components_of(Seq::<char>::empty()) == components_of(t).drop_last());
            }
        }
    } else {
        let d = t.take(k);
        lemma_shortened_components(d);
        lemma_no_slash_after(t);
        assert(rooted(t) ==> t[0] == '/' && k > 0);
        assert(dotted(t) ==> t[1] == '/' && k > 1);
        assert(name.len() > 0) by {
            if k == t.len() {
                assert(t.last() == '/');
            }
        }
        assert(name != seq!['.']) by {
            if name == seq!['.'] {
                assert(name.len() == 1);
                assert(t.last() == name[0]);
                assert(k == t.len() - 1);
            }
        }
        lemma_split_nonempty(d, '/');
        let dir = split_on(d, '/');
        assert(dir == dir.drop_last().push(dir.last()));
        lemma_naming_push(dir.drop_last(), dir.last());
        lemma_naming_push(dir.drop_last(), name);
        assert(rooted(d) == rooted(t));
        assert(dotted(d) == dotted(t));
        assert(components_of(t) == first + naming(dir).push(name));
        assert(components_of(t) == (first + naming(dir)).push(name));
        assert(components_of(shortened(d)) == first + naming(dir));
        assert(components_of(t).drop_last() == first + naming(dir));
        assert(components_of(t).last() == name);
        assert(name != seq!['/']) by {
            if name == seq!['/'] {
                assert(name[0] == '/');
                assert(name[0] == t[k]);
            }
        }
        assert(!(components_of(t) == seq![seq!['/']])) by {
            if components_of(t) == seq![seq!['/']] {
                assert(components_of(t).last() == seq!['/']);
            }
        }
    }
}

proof fn lemma_naming_concat(a: Seq<Seq<char>>, b: Seq<Seq<char>>)
    ensures
        naming(a + b) == naming(a) + naming(b),
    decreases b.len(),
{
    if b.len() == 0 {
        assert(a + b == a);
        assert(naming(a) + naming(b) == naming(a));
    } else {
        let u = b.drop_last();
        lemma_naming_concat(a, u);
        assert((a + b).drop_last() == a + u);
        assert((a + b).last() == b.last());
        assert((naming(a) + naming(u)).push(b.last()) == naming(a) + naming(u).push(b.last()));
    }
}

/// A name without slashes that names something is its only component.
pub proof fn lemma_name_is_its_component(name: Seq<char>)
    requires
        name.len() > 0,
        name != seq!['.'],
        forall|i: int| 0 <= i < name.len() ==> name[i] != '/',
    ensures
        components_of(name) == seq![name],
{
    crate::text::lemma_split_single(name, '/');
    lemma_naming_push(Seq::empty(), name);
    assert(Seq::<Seq<char>>::empty().push(name) == seq![name]);
    assert(!dotted(name)) by {
        if name.len() == 1 && name[0] == '.' {
            assert(name == seq!['.']);
        }
    }
    assert(components_of(name) == seq![name]);
}

/// Joining a relative path to a directory appends its components to those of
/// the directory.
pub proof fn law_joining_appends_the_components(base: Seq<char>, name: Seq<char>)
    requires
        !rooted(name),
        !dotted(name),
    ensures
        components_of(joined_path(base, name)) == components_of(base) + components_of(name),
{
    let j = joined_path(base, name);
    let sn = split_on(name, '/');
    assert(components_of(name) == naming(sn));
    if base.len() == 0 {
        assert(base == Seq::<char>::empty());
        assert(j == name);
        lemma_naming_push(Seq::empty(), Seq::empty());
        assert(split_on(base, '/') == Seq::<Seq<char>>::empty().push(Seq::empty()));
        assert(components_of(base) == Seq::<Seq<char>>::empty());
        assert(components_of(base) + components_of(name) == components_of(name));
    } else {
        let front = if base.last() == '/' {
            base.drop_last()
        } else {
            base
        };
        assert(j == front.push('/') + name);
        crate::text::lemma_split_concat(front, name, '/');
        lemma_naming_concat(split_on(front, '/'), sn);
        if base.last() == '/' {
            assert(split_on(base, '/') == split_on(front, '/').push(Seq::empty()));
            lemma_naming_push(split_on(front, '/'), Seq::empty());
        }
        assert(naming(split_on(front, '/')) == naming(split_on(base, '/')));
        assert(j[0] == base[0]);
        assert(base.len() > 1 ==> j[1] == base[1]);
        assert(base.len() == 1 && base[0] != '/' ==> j[1] == '/');
        assert(rooted(j) == rooted(base));
        assert(dotted(j) == dotted(base));
        assert(components_of(j) == components_of(base) + naming(sn));
    }
}

proof fn lemma_no_slash_after(t: Seq<char>)
    ensures
        0 <= name_start(t) <= t.len(),
        forall|i: int| name_start(t) <= i < t.len() ==> t[i] != '/',
    decreases t.len(),
{
    if t.len() > 0 && t.last() != '/' {
        let u = t.drop_last();
        lemma_no_slash_after(u);
        assert forall|i: int| name_start(t) <= i < t.len() implies t[i] != '/' by {
            if i < u.len() {
                assert(u[i] == t[i]);
            }
        }
    }
}

/// A shortened path does not end in a slash or a single dot.
pub proof fn lemma_shortened_fixed(s: Seq<char>)
    ensures
        ({
            let t = shortened(s);
            t.len() > lead(t) ==> t.last() != '/' && !(t.len() >= 2 && t.last() == '.' && t[t.len()
                - 2] == '/')
        }),
    decreases s.len(),
{
    if s.len() > lead(s) && (s.last() == '/' || (s.len() >= 2 && s.last() == '.' && s[s.len() - 2]
        == '/')) {
        lemma_shortened_fixed(s.drop_last());
    }
}

/// The pieces that name something are those that are neither empty nor a single
/// dot, all of them and in order.
pub proof fn law_naming_pieces(pieces: Seq<Seq<char>>)
    ensures
        naming(pieces) == pieces.filter(|p: Seq<char>| p.len() > 0 && p != seq!['.']),
    decreases pieces.len(),
{
    reveal(Seq::filter);
    if pieces.len() > 0 {
        law_naming_pieces(pieces.drop_last());
    }
    assert(naming(pieces) =~= pieces.filter(|p: Seq<char>| p.len() > 0 && p != seq!['.']));
}

/// A path that begins at the root has the root as its first component, one that
/// begins with a single dot that dot; then come the pieces between the slashes that
/// name something. An absolute name stands for itself wherever it is put.
pub proof fn law_components_of_a_path(s: Seq<char>, base: Seq<char>)
    ensures
        ({
            let names = split_on(s, '/').filter(|p: Seq<char>| p.len() > 0 && p != seq!['.']);
            &&& s.len() > 0 && s[0] == '/' ==> components_of(s) == seq![seq!['/']] + names
            &&& s.len() > 0 && s[0] == '.' && (s.len() == 1 || s[1] == '/') ==> components_of(s)
                == seq![seq!['.']] + names
            &&& s.len() == 0 || (s[0] != '/' && s[0] != '.') ==> components_of(s) == names
        }),
        rooted(s) ==> joined_path(base, s) == s,
        same_path_as(s, base) <==> components_of(s) == components_of(base),
{
    law_naming_pieces(split_on(s, '/'));
    let names = naming(split_on(s, '/'));
    assert(Seq::<Seq<char>>::empty() + names =~= names);
}

} // verus!
