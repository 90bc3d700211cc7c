//! Paths as text, with `/` between their components.
//!
//! A path is compared and taken apart by its components: repeated and trailing separators do not
//! count, and neither does a `.` other than one the path begins with.
//!
//! A path of Windows is written in the same way once it is [`portable`]: its drive, in upper case,
//! is its first component, and the drive alone is the root of the drive.

use crate::text::{after_last, chars_of, last_index, same_text, text_of, texts, texts_push};
use vstd::prelude::*;

verus! {

/// The pieces of `s` between separators; one more than there are separators.
pub open spec fn pieces(s: Seq<char>) -> Seq<Seq<char>>
    decreases s.len(),
{
    if s.len() == 0 {
        seq![Seq::<char>::empty()]
    } else {
        let front = pieces(s.drop_last());
        if s.last() == '/' {
            front.push(Seq::<char>::empty())
        } else {
            front.drop_last().push(front.last().push(s.last()))
        }
    }
}

/// Whether a piece of a path names something: it is neither empty nor `.`.
pub open spec fn names_something(piece: Seq<char>) -> bool {
    piece.len() > 0 && piece != seq!['.']
}

/// The pieces of `s` that name something.
pub open spec fn named(s: Seq<char>) -> Seq<Seq<char>> {
    pieces(s).filter(|piece: Seq<char>| names_something(piece))
}

/// How many characters stand before the pieces of `p`: 1 for a path that begins at the root or
/// with the component `.`.
pub open spec fn lead(p: Seq<char>) -> int {
    if p.len() > 0 && p[0] == '/' {
        1
    } else if p.len() > 0 && p[0] == '.' && (p.len() == 1 || p[1] == '/') {
        1
    } else {
        0
    }
}

/// The components of `p`. The root is the component `/`.
pub open spec fn components(p: Seq<char>) -> Seq<Seq<char>> {
    if lead(p) == 1 {
        seq![seq![p[0]]] + named(p.skip(1))
    } else {
        named(p)
    }
}

/// Whether `base` holds `path`: its components are the first components of `path`.
pub open spec fn starts_with(path: Seq<char>, base: Seq<char>) -> bool {
    components(base).is_prefix_of(components(path))
}

/// Whether two texts denote the same path.
pub open spec fn same_path(a: Seq<char>, b: Seq<char>) -> bool {
    components(a) == components(b)
}

/// The last component of `p`, where it is a name (not the root, `.` or `..`).
pub open spec fn file_name(p: Seq<char>) -> Option<Seq<char>> {
    let all = components(p);
    if all.len() > 0 && all.last() != seq!['/'] && all.last() != seq!['.'] && all.last() != seq![
        '.',
        '.',
    ] {
        Some(all.last())
    } else {
        None
    }
}

/// What follows the last `.` of the file name; `None` where it has no `.` but one in front.
pub open spec fn extension(p: Seq<char>) -> Option<Seq<char>> {
    match file_name(p) {
        Some(name) => if last_index(name, '.') > 0 {
            Some(name.skip(last_index(name, '.') + 1))
        } else {
            None
        },
        None => None,
    }
}

/// `rel` below `base`; `rel` itself where it begins at the root.
pub open spec fn join(base: Seq<char>, rel: Seq<char>) -> Seq<char> {
    if rel.len() > 0 && rel[0] == '/' {
        rel
    } else if base.len() == 0 || base.last() == '/' {
        base + rel
    } else {
        base.push('/') + rel
    }
}

/// Where `p[..e]` ends once trailing separators and `.` pieces are left out.
pub open spec fn body_end(p: Seq<char>, e: int) -> int
    decreases e,
{
    if lead(p) < e && p[e - 1] == '/' {
        body_end(p, e - 1)
    } else if lead(p) < e && p[e - 1] == '.' && (lead(p) == e - 1 || p[e - 2] == '/') {
        body_end(p, e - 1)
    } else {
        e
    }
}

/// Where the last piece of `p[..e]` begins.
pub open spec fn piece_start(p: Seq<char>, e: int) -> int {
    lead(p) + last_index(p.subrange(lead(p), e), '/') + 1
}

/// `p` without its last component; `None` for the root and for the empty path.
pub open spec fn parent(p: Seq<char>) -> Option<Seq<char>> {
    let e = body_end(p, p.len() as int);
    if lead(p) < e {
        Some(p.take(body_end(p, piece_start(p, e))))
    } else if lead(p) == 1 && p[0] == '.' {
        Some(Seq::empty())
    } else {
        None
    }
}

proof fn filter_push<A>(s: Seq<A>, x: A, keep: spec_fn(A) -> bool)
    ensures
        s.push(x).filter(keep) == if keep(x) {
            s.filter(keep).push(x)
        } else {
            s.filter(keep)
        },
{
    reveal(Seq::filter);
    assert(s.push(x).drop_last() =~= s);
}

fn piece_named(chars: &Vec<char>, from: usize, to: usize) -> (r: bool)
    requires
        from <= to <= chars@.len(),
    ensures
        r == names_something(chars@.subrange(from as int, to as int)),
{
    let ghost piece = chars@.subrange(from as int, to as int);
    if from == to {
        return false;
    }
    if to - from == 1 && chars[from] == '.' {
        proof {
            assert(piece =~= seq!['.']);
        }
        return false;
    }
    proof {
        if piece == seq!['.'] {
            assert(piece.len() == 1 && piece[0] == '.');
            assert(piece[0] == chars@[from as int]);
        }
    }
    true
}

/// Appends to `out` the pieces of `chars[from..]` that name something.
fn push_named(chars: &Vec<char>, from: usize, out: &mut Vec<String>)
    requires
        from <= chars@.len(),
    ensures
        texts(final(out)@) == texts(old(out)@) + named(chars@.skip(from as int)),
{
    let ghost keep = |piece: Seq<char>| names_something(piece);
    let ghost rest = chars@.skip(from as int);
    let ghost mut done: Seq<Seq<char>> = Seq::empty();
    let ghost before = texts(out@);
    let mut start: usize = from;
    let mut i: usize = from;
    proof {
        reveal(Seq::filter);
        assert(rest.take(0) =~= Seq::<char>::empty());
        assert(chars@.subrange(from as int, from as int) =~= Seq::<char>::empty());
        assert(done.push(Seq::<char>::empty()) =~= seq![Seq::<char>::empty()]);
        assert(before + done.filter(keep) =~= before);
    }
    while i < chars.len()
        invariant
            from <= start <= i <= chars@.len(),
            rest == chars@.skip(from as int),
            keep == (|piece: Seq<char>| names_something(piece)),
            pieces(rest.take(i - from)) == done.push(chars@.subrange(start as int, i as int)),
            texts(out@) == before + done.filter(keep),
        decreases chars@.len() - i,
    {
        let ghost piece = chars@.subrange(start as int, i as int);
        proof {
            assert(rest.take(i + 1 - from).drop_last() =~= rest.take(i - from));
            assert(rest.take(i + 1 - from).last() == chars@[i as int]);
        }
        if chars[i] == '/' {
            if piece_named(chars, start, i) {
                let piece_text = text_of(chars, start, i);
                proof {
                    texts_push(out@, piece_text);
                }
                out.push(piece_text);
            }
            proof {
                filter_push(done, piece, keep);
                done = done.push(piece);
                assert(chars@.subrange(i + 1, i + 1) =~= Seq::<char>::empty());
                assert(texts(out@) =~= before + done.filter(keep));
            }
            start = i + 1;
        } else {
            proof {
                assert(done.push(piece).drop_last() =~= done);
                assert(chars@.subrange(start as int, i + 1) =~= piece.push(chars@[i as int]));
            }
        }
        i = i + 1;
    }
    let ghost piece = chars@.subrange(start as int, i as int);
    if piece_named(chars, start, chars.len()) {
        let piece_text = text_of(chars, start, chars.len());
        proof {
            texts_push(out@, piece_text);
        }
        out.push(piece_text);
    }
    proof {
        filter_push(done, piece, keep);
        assert(rest.take(i - from) =~= rest);
        assert(texts(out@) =~= before + done.push(piece).filter(keep));
    }
}

/// How many characters stand before the pieces of a path.
fn lead_of(chars: &Vec<char>) -> (r: usize)
    ensures
        r == lead(chars@),
        r <= chars@.len(),
{
    if chars.len() > 0 && (chars[0] == '/' || (chars[0] == '.' && (chars.len() == 1 || chars[1]
        == '/'))) {
        1
    } else {
        0
    }
}

/// The components of `p`. The root is the component `/`.
pub fn components_of(p: &str) -> (r: Vec<String>)
    ensures
        texts(r@) == components(p@),
{
    let chars = chars_of(p);
    let mut out: Vec<String> = Vec::new();
    proof {
        assert(texts(out@) =~= Seq::<Seq<char>>::empty());
    }
    if lead_of(&chars) == 1 {
        out.push(text_of(&chars, 0, 1));
        proof {
            assert(chars@.subrange(0, 1) =~= seq![p@[0]]);
            assert(texts(out@) =~= seq![seq![p@[0]]]);
        }
        push_named(&chars, 1, &mut out);
    } else {
        push_named(&chars, 0, &mut out);
        proof {
            assert(p@.skip(0) =~= p@);
            assert(Seq::<Seq<char>>::empty() + named(p@) =~= named(p@));
        }
    }
    out
}

/// Where `chars[..e]` ends once trailing separators and `.` pieces are left out.
fn trim_body(chars: &Vec<char>, first: usize, e: usize) -> (r: usize)
    requires
        first == lead(chars@),
        first <= e <= chars@.len(),
    ensures
        r == body_end(chars@, e as int),
        first <= r <= e,
{
    let mut i: usize = e;
    while first < i && (chars[i - 1] == '/' || (chars[i - 1] == '.' && (first == i - 1 || chars[i
        - 2] == '/')))
        invariant
            first == lead(chars@),
            first <= i <= e <= chars@.len(),
            body_end(chars@, e as int) == body_end(chars@, i as int),
        decreases i,
    {
        i = i - 1;
    }
    i
}

/// Where the last piece of `chars[..e]` begins.
fn find_piece_start(chars: &Vec<char>, first: usize, e: usize) -> (r: usize)
    requires
        first == lead(chars@),
        first <= e <= chars@.len(),
    ensures
        r == piece_start(chars@, e as int),
        first <= r <= e,
{
    let mut i: usize = e;
    while i > first
        invariant
            first == lead(chars@),
            first <= i <= e <= chars@.len(),
            last_index(chars@.subrange(first as int, e as int), '/') == last_index(
                chars@.subrange(first as int, i as int),
                '/',
            ),
        decreases i,
    {
        proof {
            assert(chars@.subrange(first as int, i as int).drop_last() =~= chars@.subrange(
                first as int,
                i - 1,
            ));
        }
        if chars[i - 1] == '/' {
            return i;
        }
        i = i - 1;
    }
    first
}

/// `p` without its last component; `None` for the root and for the empty path.
pub fn path_parent(p: &str) -> (r: Option<String>)
    ensures
        r is Some <==> parent(p@) is Some,
        r matches Some(dir) ==> Some(dir@) == parent(p@),
{
    let chars = chars_of(p);
    let first: usize = lead_of(&chars);
    let e: usize = trim_body(&chars, first, chars.len());
    if first < e {
        let b: usize = find_piece_start(&chars, first, e);
        let to: usize = trim_body(&chars, first, b);
        proof {
            assert(chars@.subrange(0, to as int) =~= p@.take(to as int));
        }
        Some(text_of(&chars, 0, to))
    } else if first == 1 && chars[0] == '.' {
        Some(String::new())
    } else {
        None
    }
}

/// Whether the first `n` texts of two lists agree.
fn agree(a: &Vec<String>, b: &Vec<String>, n: usize) -> (r: bool)
    requires
        n <= a@.len(),
        n <= b@.len(),
    ensures
        r == (texts(a@).take(n as int) == texts(b@).take(n as int)),
{
    let mut i: usize = 0;
    while i < n
        invariant
            i <= n,
            n <= a@.len(),
            n <= b@.len(),
            forall|j: int| 0 <= j < i ==> a@[j]@ == b@[j]@,
        decreases n - i,
    {
        if !same_text(a[i].as_str(), b[i].as_str()) {
            proof {
                assert(texts(a@).take(n as int)[i as int] != texts(b@).take(n as int)[i as int]);
            }
            return false;
        }
        i = i + 1;
    }
    proof {
        assert(texts(a@).take(n as int) =~= texts(b@).take(n as int));
    }
    true
}

/// Whether `base` holds `path`.
pub fn path_starts_with(path: &str, base: &str) -> (r: bool)
    ensures
        r == starts_with(path@, base@),
{
    let whole = components_of(path);
    let front = components_of(base);
    proof {
        assert(texts(front@).take(front@.len() as int) =~= texts(front@));
        assert(texts(whole@).subrange(0, front@.len() as int) =~= texts(whole@).take(
            front@.len() as int,
        ));
    }
    front.len() <= whole.len() && agree(&whole, &front, front.len())
}

/// Whether two texts denote the same path.
pub fn is_same_path(a: &str, b: &str) -> (r: bool)
    ensures
        r == same_path(a@, b@),
{
    let left = components_of(a);
    let right = components_of(b);
    proof {
        assert(texts(left@).take(left@.len() as int) =~= texts(left@));
        assert(texts(right@).take(right@.len() as int) =~= texts(right@));
    }
    left.len() == right.len() && agree(&left, &right, left.len())
}

/// The last component of `p`, where it is a name.
pub fn path_file_name(p: &str) -> (r: Option<String>)
    ensures
        r is Some <==> file_name(p@) is Some,
        r matches Some(name) ==> Some(name@) == file_name(p@),
{
    let mut all = components_of(p);
    match all.pop() {
        Some(name) => {
            proof {
                reveal_strlit("/");
                reveal_strlit(".");
                reveal_strlit("..");
                assert("/"@ =~= seq!['/']);
                assert("."@ =~= seq!['.']);
                assert(".."@ =~= seq!['.', '.']);
                assert(name@ == components(p@).last());
            }
            if same_text(name.as_str(), "/") || same_text(name.as_str(), ".") || same_text(
                name.as_str(),
                "..",
            ) {
                None
            } else {
                Some(name)
            }
        },
        None => None,
    }
}

/// What follows the last `.` of the file name of `p`.
pub fn path_extension(p: &str) -> (r: Option<String>)
    ensures
        r is Some <==> extension(p@) is Some,
        r matches Some(ext) ==> Some(ext@) == extension(p@),
{
    match path_file_name(p) {
        Some(name) => {
            let chars = chars_of(name.as_str());
            let at: usize = after_last(&chars, chars.len(), '.');
            proof {
                assert(chars@.take(chars@.len() as int) =~= name@);
                assert(chars@.subrange(at as int, chars@.len() as int) =~= name@.skip(at as int));
            }
            if at > 1 {
                Some(text_of(&chars, at, chars.len()))
            } else {
                None
            }
        },
        None => None,
    }
}

/// `rel` below `base`; `rel` itself where it begins at the root.
pub fn path_join(base: &str, rel: &str) -> (r: String)
    ensures
        r@ == join(base@, rel@),
{
    let front = chars_of(base);
    let back = chars_of(rel);
    if back.len() > 0 && back[0] == '/' {
        return rel.to_owned();
    }
    let mut out = base.to_owned();
    if front.len() > 0 && front[front.len() - 1] != '/' {
        out.push('/');
    }
    out.append(rel);
    out
}

proof fn pieces_nonempty(s: Seq<char>)
    ensures
        pieces(s).len() > 0,
    decreases s.len(),
{
    if s.len() > 0 {
        pieces_nonempty(s.drop_last());
    }
}

/// A separator at the end names nothing.
proof fn named_push_separator(s: Seq<char>)
    ensures
        named(s.push('/')) == named(s),
{
    assert(s.push('/').drop_last() =~= s);
    filter_push(pieces(s), Seq::<char>::empty(), |piece: Seq<char>| names_something(piece));
}

/// A piece without separators behind a separator is one more piece.
proof fn pieces_append(s: Seq<char>, piece: Seq<char>)
    requires
        s.len() == 0 || s.last() == '/',
        !piece.contains('/'),
    ensures
        pieces(s + piece) == pieces(s).drop_last().push(piece),
    decreases piece.len(),
{
    pieces_nonempty(s);
    if piece.len() == 0 {
        assert(s + piece =~= s);
        assert(piece =~= Seq::<char>::empty());
        assert(pieces(s).last() =~= Seq::<char>::empty());
        assert(pieces(s).drop_last().push(piece) =~= pieces(s));
    } else {
        let front = piece.drop_last();
        assert forall|c: char| front.contains(c) implies piece.contains(c) by {
            let i = choose|i: int| 0 <= i < front.len() && front[i] == c;
            assert(piece[i] == c);
        }
        pieces_append(s, front);
        assert((s + piece).drop_last() =~= s + front);
        assert((s + piece).last() == piece.last());
        assert(piece.contains(piece.last()));
        assert(pieces(s).drop_last().push(front).drop_last() =~= pieces(s).drop_last());
        assert(front.push(piece.last()) =~= piece);
    }
}

/// What a piece without separators behind a separator adds to the names.
proof fn named_append(s: Seq<char>, piece: Seq<char>)
    requires
        s.len() == 0 || s.last() == '/',
        !piece.contains('/'),
    ensures
        named(s + piece) == if names_something(piece) {
            named(s).push(piece)
        } else {
            named(s)
        },
{
    let keep = |piece: Seq<char>| names_something(piece);
    pieces_append(s, piece);
    pieces_nonempty(s);
    let front = pieces(s).drop_last();
    filter_push(front, piece, keep);
    assert(pieces(s).last() =~= Seq::<char>::empty());
    assert(front.push(Seq::<char>::empty()) =~= pieces(s));
    filter_push(front, Seq::<char>::empty(), keep);
}

/// A name below a directory is one more component: joining keeps the components of the directory
/// and adds the name.
pub proof fn join_adds_component(dir: Seq<char>, name: Seq<char>)
    requires
        names_something(name),
        !name.contains('/'),
    ensures
        components(join(dir, name)) == components(dir).push(name),
        starts_with(join(dir, name), dir),
{
    let whole = join(dir, name);
    assert(name.contains(name[0]));
    if name.len() == 1 {
        if name[0] == '.' {
            assert(name =~= seq!['.']);
        }
    } else {
        assert(name.contains(name[1]));
    }
    if dir.len() == 0 {
        assert(whole =~= name);
        assert(dir + name =~= name);
        named_append(dir, name);
    } else {
        let base = if dir.last() == '/' {
            dir
        } else {
            dir.push('/')
        };
        assert(whole =~= base + name);
        if lead(dir) == 1 {
            assert(whole.skip(1) =~= base.skip(1) + name);
            named_append(base.skip(1), name);
            if dir.last() != '/' {
                assert(base.skip(1) =~= dir.skip(1).push('/'));
                named_push_separator(dir.skip(1));
            }
            assert(components(whole) =~= components(dir).push(name));
        } else {
            named_append(base, name);
            if dir.last() != '/' {
                named_push_separator(dir);
            }
        }
    }
    assert(components(dir).push(name).subrange(0, components(dir).len() as int) =~= components(
        dir,
    ));
}

proof fn last_index_is_last(s: Seq<char>, c: char)
    ensures
        -1 <= last_index(s, c) < s.len(),
        last_index(s, c) >= 0 ==> s[last_index(s, c)] == c,
        forall|j: int| last_index(s, c) < j < s.len() ==> s[j] != c,
    decreases s.len(),
{
    if s.len() > 0 && s.last() != c {
        last_index_is_last(s.drop_last(), c);
        assert forall|j: int| last_index(s, c) < j < s.len() implies s[j] != c by {
            if j < s.len() - 1 {
                assert(s[j] == s.drop_last()[j]);
            }
        }
    }
}

/// The last piece of `p[..e]`.
spec fn last_piece(p: Seq<char>, e: int) -> Seq<char> {
    p.subrange(piece_start(p, e), e)
}

/// Where the last piece begins: just behind the last separator.
proof fn piece_start_bounds(p: Seq<char>, e: int)
    requires
        lead(p) < e <= p.len(),
        p[e - 1] != '/',
    ensures
        lead(p) <= piece_start(p, e) < e,
        piece_start(p, e) == lead(p) || p[piece_start(p, e) - 1] == '/',
        !last_piece(p, e).contains('/'),
{
    let first = lead(p);
    let body = p.subrange(first, e);
    last_index_is_last(body, '/');
    let k = last_index(body, '/');
    assert(body[e - 1 - first] == p[e - 1]);
    if k >= 0 {
        assert(p[first + k] == body[k]);
    }
    assert forall|j: int| 0 <= j < last_piece(p, e).len() implies last_piece(p, e)[j] != '/' by {
        assert(last_piece(p, e)[j] == body[k + 1 + j]);
    }
}

/// Trailing separators and `.` pieces name nothing.
proof fn body_end_keeps_names(p: Seq<char>, e: int)
    requires
        lead(p) <= e <= p.len(),
    ensures
        lead(p) <= body_end(p, e) <= e,
        lead(p) < body_end(p, e) ==> names_something(last_piece(p, body_end(p, e))) && p[body_end(
            p,
            e,
        ) - 1] != '/',
        named(p.subrange(lead(p), e)) == named(p.subrange(lead(p), body_end(p, e))),
    decreases e,
{
    let first = lead(p);
    if first < e && p[e - 1] == '/' {
        body_end_keeps_names(p, e - 1);
        assert(p.subrange(first, e) =~= p.subrange(first, e - 1).push('/'));
        named_push_separator(p.subrange(first, e - 1));
    } else if first < e && p[e - 1] == '.' && (first == e - 1 || p[e - 2] == '/') {
        body_end_keeps_names(p, e - 1);
        assert(p.subrange(first, e) =~= p.subrange(first, e - 1) + seq!['.']);
        named_append(p.subrange(first, e - 1), seq!['.']);
    } else if first < e {
        piece_start_bounds(p, e);
        let piece = last_piece(p, e);
        if piece == seq!['.'] {
            assert(piece.len() == 1 && piece[0] == '.');
            assert(piece[0] == p[e - 1]);
        }
    }
}

/// The parent of a path has the components of the path, but for the last.
pub proof fn parent_drops_last_component(p: Seq<char>)
    requires
        parent(p) is Some,
    ensures
        components(p).len() > 0,
        components(parent(p)->0) == components(p).drop_last(),
{
    let first = lead(p);
    let e = body_end(p, p.len() as int);
    let q = parent(p)->0;
    body_end_keeps_names(p, p.len() as int);
    assert(p.subrange(first, p.len() as int) =~= p.skip(first));
    assert(p.skip(0) =~= p);
    if first < e {
        piece_start_bounds(p, e);
        let b = piece_start(p, e);
        let piece = last_piece(p, e);
        let front = p.subrange(first, b);
        assert(p.subrange(first, e) =~= front + piece);
        if front.len() > 0 {
            assert(front.last() == p[b - 1]);
        }
        named_append(front, piece);
        body_end_keeps_names(p, b);
        let t = body_end(p, b);
        assert(p.subrange(first, t) =~= q.skip(first));
        if first == 1 {
            assert(q[0] == p[0]);
            assert(components(q) =~= components(p).drop_last());
        } else {
            assert(q.skip(0) =~= q);
            dot_front(p, b);
            assert(components(q) =~= components(p).drop_last());
        }
    } else {
        assert(p.subrange(first, e) =~= Seq::<char>::empty());
        no_names();
        assert(components(p) =~= seq![seq![p[0]]]);
        assert(components(q) =~= Seq::<Seq<char>>::empty());
    }
}

proof fn no_names()
    ensures
        named(Seq::<char>::empty()) == Seq::<Seq<char>>::empty(),
{
    filter_push(Seq::<Seq<char>>::empty(), Seq::<char>::empty(), |piece: Seq<char>|
        names_something(piece));
    assert(Seq::<Seq<char>>::empty().push(Seq::<char>::empty()) =~= seq![Seq::<char>::empty()]);
    reveal(Seq::filter);
}

/// A relative path that does not begin with `.` is not cut to one that does.
proof fn dot_front(p: Seq<char>, b: int)
    requires
        lead(p) == 0,
        0 <= b <= p.len(),
        b == 0 || p[b - 1] == '/',
    ensures
        lead(p.take(body_end(p, b))) == 0,
{
    body_end_keeps_names(p, b);
    let t = body_end(p, b);
    let q = p.take(t);
    if t == 1 && p[0] == '.' {
        assert(b > 1);
        body_end_stops(p, b, 1);
    }
}

/// Whatever is left out behind position `t` is a separator or a `.` piece.
proof fn body_end_stops(p: Seq<char>, e: int, t: int)
    requires
        body_end(p, e) == t,
        lead(p) <= t < e <= p.len(),
    ensures
        p[t] == '/' || (p[t] == '.' && (lead(p) == t || p[t - 1] == '/')),
    decreases e,
{
    if t < e - 1 {
        body_end_stops(p, e - 1, t);
    }
}

/// Whether `p` begins with a drive: a letter and a colon.
pub open spec fn has_drive(p: Seq<char>) -> bool {
    p.len() >= 2 && ('a' <= p[0] <= 'z' || 'A' <= p[0] <= 'Z') && p[1] == ':'
}

/// The upper-case form of an ASCII character.
pub open spec fn ascii_upper(c: char) -> char {
    if 'a' <= c <= 'z' {
        (c as u32 - 32) as char
    } else {
        c
    }
}

/// A path of the system, as it is written here: on Windows with `/` in place of `\`, and with its
/// drive in upper case, for there both separators and both cases of a drive are one.
pub open spec fn portable(p: Seq<char>, windows: bool) -> Seq<char> {
    if windows {
        Seq::new(
            p.len(),
            |i: int|
                if p[i] == '\\' {
                    '/'
                } else if i == 0 && has_drive(p) {
                    ascii_upper(p[i])
                } else {
                    p[i]
                },
        )
    } else {
        p
    }
}

/// A path that is written as here, as the system takes it: on Windows a drive alone would be the
/// current directory of the drive, and not its root.
pub open spec fn native(p: Seq<char>, windows: bool) -> Seq<char> {
    if windows && p.len() == 2 && has_drive(p) {
        p.push('/')
    } else {
        p
    }
}

/// A path of the system, as it is written here.
pub fn to_portable(p: &str, windows: bool) -> (r: String)
    ensures
        r@ == portable(p@, windows),
{
    if !windows {
        return p.to_owned();
    }
    let chars = chars_of(p);
    let drive = begins_with_drive(&chars);
    let mut out = String::new();
    let mut i: usize = 0;
    while i < chars.len()
        invariant
            i <= chars@.len(),
            chars@ == p@,
            drive == has_drive(p@),
            out@ == portable(p@, true).take(i as int),
        decreases chars@.len() - i,
    {
        let c = chars[i];
        let written = if c == '\\' {
            '/'
        } else if i == 0 && drive && 'a' <= c && c <= 'z' {
            (c as u8 - 32) as char
        } else {
            c
        };
        out.push(written);
        proof {
            assert(written == portable(p@, true)[i as int]);
            assert(portable(p@, true).take(i + 1) =~= portable(p@, true).take(i as int).push(
                written,
            ));
        }
        i = i + 1;
    }
    proof {
        assert(portable(p@, true).take(p@.len() as int) =~= portable(p@, true));
    }
    out
}

/// Whether a path begins with a drive.
fn begins_with_drive(chars: &Vec<char>) -> (r: bool)
    ensures
        r == has_drive(chars@),
{
    chars.len() >= 2 && (('a' <= chars[0] && chars[0] <= 'z') || ('A' <= chars[0] && chars[0]
        <= 'Z')) && chars[1] == ':'
}

/// A path that is written as here, as the system takes it.
pub fn to_native(p: &str, windows: bool) -> (r: String)
    ensures
        r@ == native(p@, windows),
{
    let chars = chars_of(p);
    let mut out = p.to_owned();
    if windows && chars.len() == 2 && begins_with_drive(&chars) {
        out.push('/');
    }
    out
}

/// A path that is written as here stays as it is.
pub proof fn portable_paths_stay(p: Seq<char>, windows: bool)
    ensures
        portable(portable(p, windows), windows) == portable(p, windows),
{
    if windows {
        let once = portable(p, true);
        assert(portable(once, true) =~= once);
    }
}

/// What the system takes is the path that was written.
pub proof fn native_is_the_same_path(p: Seq<char>, windows: bool)
    ensures
        same_path(native(p, windows), p),
{
    if windows && p.len() == 2 && has_drive(p) {
        named_push_separator(p);
    }
}

/// What is joined stands behind the directory, with one separator between where the directory has
/// none at its end; a path that begins at the root stands alone.
pub proof fn joined_path_stands_behind(base: Seq<char>, rel: Seq<char>)
    ensures
        rel.len() > 0 && rel[0] == '/' ==> join(base, rel) == rel,
        !(rel.len() > 0 && rel[0] == '/') ==> {
            &&& base.len() == 0 ==> join(base, rel) == rel
            &&& base.len() > 0 && base.last() == '/' ==> join(base, rel) == base + rel
            &&& base.len() > 0 && base.last() != '/' ==> join(base, rel) == base + seq!['/'] + rel
        },
{
    assert(Seq::<char>::empty() + rel =~= rel);
    if base.len() == 0 {
        assert(base + rel =~= rel);
    }
    assert(base.push('/') + rel =~= base + seq!['/'] + rel);
}

/// The components of a path follow from how it is written: a name is one component, the root is
/// one, a name below a directory is one more, and neither a separator nor a `.` at the end of a
/// path is any.
pub proof fn components_follow_the_text(p: Seq<char>, name: Seq<char>)
    ensures
        components(Seq::empty()) == Seq::<Seq<char>>::empty(),
        components(seq!['/']) == seq![seq!['/']],
        name.len() > 0 && !name.contains('/') ==> components(name) == seq![name],
        p.len() > 0 && name.len() > 0 && name != seq!['.'] && !name.contains('/') ==> components(
            join(p, name),
        ) == components(p).push(name),
        p.len() > 0 ==> components(p.push('/')) == components(p),
        p.len() > 0 ==> components(join(p, seq!['.'])) == components(p),
{
    no_names();
    assert(seq!['/'].skip(1) =~= Seq::<char>::empty());
    assert(components(seq!['/']) =~= seq![seq!['/']]);
    if name.len() > 0 && !name.contains('/') {
        one_name(name);
        if name != seq!['.'] && p.len() > 0 {
            join_adds_component(p, name);
        }
    }
    if p.len() > 0 {
        let first = lead(p);
        let q = p.push('/');
        named_push_separator(p);
        named_push_separator(p.skip(1));
        assert(lead(q) == first || (first == 0 && p =~= seq!['.']));
        assert(q.skip(1) =~= p.skip(1).push('/'));
        assert(components(q) =~= components(p));
        let d = join(p, seq!['.']);
        let base = if p.last() == '/' {
            p
        } else {
            q
        };
        assert(components(base) == components(p));
        assert(d =~= base + seq!['.']);
        assert(!seq!['.'].contains('/'));
        assert(lead(d) == lead(base));
        named_append(base, seq!['.']);
        if base.len() == 1 {
            assert(d.skip(1) =~= Seq::<char>::empty() + seq!['.']);
            assert(base.skip(1) =~= Seq::<char>::empty());
            named_append(Seq::empty(), seq!['.']);
        } else {
            assert(d.skip(1) =~= base.skip(1) + seq!['.']);
            assert(base.skip(1).last() == base.last());
            named_append(base.skip(1), seq!['.']);
        }
        assert(components(d) =~= components(base));
    }
}

proof fn one_name(name: Seq<char>)
    requires
        name.len() > 0,
        !name.contains('/'),
    ensures
        components(name) == seq![name],
{
    no_names();
    assert(name.contains(name[0]));
    if name.len() > 1 {
        assert(name.contains(name[1]));
    }
    if lead(name) == 1 {
        assert(name =~= seq!['.']);
        assert(name.skip(1) =~= Seq::<char>::empty());
        assert(components(name) =~= seq![name]);
    } else {
        named_append(Seq::empty(), name);
        assert(Seq::<char>::empty() + name =~= name);
        if name.len() == 1 {
            assert(name[0] != '.');
        }
        assert(components(name) =~= seq![name]);
    }
}

/// A directory holds a path exactly where the path begins with each of its components, one by one;
/// two texts are one path where all of their components are the same.
pub proof fn paths_are_compared_by_components(path: Seq<char>, base: Seq<char>)
    ensures
        starts_with(path, base) <==> components(base).len() <= components(path).len() && forall|
            i: int,
        |
            0 <= i < components(base).len() ==> #[trigger] components(path)[i] == components(
                base,
            )[i],
        same_path(path, base) <==> components(base).len() == components(path).len() && forall|
            i: int,
        |
            0 <= i < components(base).len() ==> #[trigger] components(path)[i] == components(
                base,
            )[i],
{
    let a = components(path);
    let b = components(base);
    if starts_with(path, base) {
        assert forall|i: int| 0 <= i < b.len() implies #[trigger] a[i] == b[i] by {
            assert(a.subrange(0, b.len() as int)[i] == b[i]);
        }
    }
    if b.len() <= a.len() && forall|i: int| 0 <= i < b.len() ==> #[trigger] a[i] == b[i] {
        assert(a.subrange(0, b.len() as int) =~= b);
        if a.len() == b.len() {
            assert(a =~= b);
        }
    }
}

/// The file name is the last component, unless that is the root, `.` or `..`.
pub proof fn file_name_is_the_last_component(p: Seq<char>)
    ensures
        file_name(p) matches Some(name) ==> components(p).len() > 0 && name == components(p).last(),
        file_name(p) is None <==> components(p).len() == 0 || components(p).last() == seq!['/']
            || components(p).last() == seq!['.'] || components(p).last() == seq!['.', '.'],
{
}

/// The extension is what stands behind the last `.` of the file name, where something stands in
/// front of it.
pub proof fn extension_stands_behind_the_last_dot(p: Seq<char>, stem: Seq<char>, ext: Seq<char>)
    requires
        file_name(p) is Some,
    ensures
        file_name(p) == Some(stem + seq!['.'] + ext) && stem.len() > 0 && !ext.contains('.')
            ==> extension(p) == Some(ext),
        !file_name(p)->0.skip(1).contains('.') ==> extension(p) is None,
{
    let name = file_name(p)->0;
    last_index_is_last(name, '.');
    if name == stem + seq!['.'] + ext && stem.len() > 0 && !ext.contains('.') {
        let k = stem.len() as int;
        assert(name[k] == '.');
        assert forall|j: int| k < j < name.len() implies name[j] != '.' by {
            assert(name[j] == ext[j - k - 1]);
            assert(ext.contains(ext[j - k - 1]));
        }
        assert(last_index(name, '.') == k);
        assert(name.skip(k + 1) =~= ext);
    }
    if !name.skip(1).contains('.') {
        let k = last_index(name, '.');
        if k > 0 {
            assert(name.skip(1)[k - 1] == '.');
        }
    }
}

/// A path has a parent unless it is empty or the root alone; the parent is how the path begins,
/// and has all of its components but the last.
pub proof fn parent_is_how_the_path_begins(p: Seq<char>)
    ensures
        parent(p) is None <==> components(p).len() == 0 || components(p) == seq![seq!['/']],
        parent(p) matches Some(q) ==> {
            &&& components(q) == components(p).drop_last()
            &&& q.len() <= p.len()
            &&& q == p.take(q.len() as int)
        },
{
    let first = lead(p);
    let e = body_end(p, p.len() as int);
    body_end_keeps_names(p, p.len() as int);
    no_names();
    assert(p.subrange(first, p.len() as int) =~= p.skip(first));
    assert(p.skip(0) =~= p);
    if parent(p) is Some {
        parent_drops_last_component(p);
        let q = parent(p)->0;
        if first < e {
            piece_start_bounds(p, e);
            let b = piece_start(p, e);
            body_end_keeps_names(p, b);
            let piece = last_piece(p, e);
            let front = p.subrange(first, b);
            assert(p.subrange(first, e) =~= front + piece);
            if front.len() > 0 {
                assert(front.last() == p[b - 1]);
            }
            named_append(front, piece);
            assert(components(p).last() == piece);
            if piece == seq!['/'] {
                assert(piece[0] == '/');
                assert(piece.contains('/'));
            }
            if components(p) == seq![seq!['/']] {
                assert(components(p).last() == seq!['/']);
            }
        } else {
            assert(p.subrange(first, e) =~= Seq::<char>::empty());
            assert(components(p) =~= seq![seq!['.']]);
            assert(components(p)[0][0] == '.');
            assert(q =~= p.take(0));
        }
    } else {
        assert(p.subrange(first, e) =~= Seq::<char>::empty());
        if first == 1 {
            assert(seq![p[0]] =~= seq!['/']);
            assert(components(p) =~= seq![seq!['/']]);
        } else {
            assert(components(p) =~= Seq::<Seq<char>>::empty());
        }
    }
}

/// A path of Windows keeps its length; separators become `/`, a drive becomes upper case, and no
/// other character changes. Any other path stays as it is.
pub proof fn only_separators_and_drives_change(p: Seq<char>)
    ensures
        portable(p, false) == p,
        portable(p, true).len() == p.len(),
        forall|i: int| 0 <= i < p.len() && p[i] == '\\' ==> #[trigger] portable(p, true)[i] == '/',
        forall|i: int| 0 < i < p.len() && p[i] != '\\' ==> #[trigger] portable(p, true)[i] == p[i],
        p.len() >= 2 && p[1] == ':' && 'a' <= p[0] <= 'z' ==> portable(p, true)[0] == (p[0] as u32
            - 32) as char,
        p.len() > 0 && !('a' <= p[0] <= 'z' && p.len() >= 2 && p[1] == ':') && p[0] != '\\'
            ==> portable(p, true)[0] == p[0],
        native(p, false) == p,
        p.len() != 2 || p[1] != ':' ==> native(p, true) == p,
        p.len() == 2 && p[1] == ':' && ('a' <= p[0] <= 'z' || 'A' <= p[0] <= 'Z') ==> native(
            p,
            true,
        ) == p.push('/'),
{
}

} // verus!
