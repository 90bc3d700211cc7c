//! Vocabulary files: one term per line, ordered without regard to case.

use crate::text::{
    chars_of, comes_no_later, lowercase, same_text, text_le, text_of, texts, texts_push, to_lower,
};
use vstd::prelude::*;

verus! {

/// Where the first line of `s` ends: at its first line feed, or at its end.
pub open spec fn line_end(s: Seq<char>) -> int
    decreases s.len(),
{
    if s.len() == 0 || s[0] == '\n' {
        0
    } else {
        1 + line_end(s.drop_first())
    }
}

/// A line without a carriage return at its end.
pub open spec fn without_return(line: Seq<char>) -> Seq<char> {
    if line.len() > 0 && line.last() == '\r' {
        line.drop_last()
    } else {
        line
    }
}

/// The lines of `s`, without the line feed, or carriage return and line feed, that ends each. The
/// last line may end without one.
pub open spec fn lines(s: Seq<char>) -> Seq<Seq<char>>
    decreases s.len(),
{
    if s.len() == 0 {
        Seq::empty()
    } else if 0 <= line_end(s) < s.len() {
        seq![without_return(s.take(line_end(s)))] + lines(s.skip(line_end(s) + 1))
    } else {
        seq![s]
    }
}

/// The text of a list of lines, with a line feed behind each.
pub open spec fn unlines(list: Seq<Seq<char>>) -> Seq<char>
    decreases list.len(),
{
    if list.len() == 0 {
        Seq::empty()
    } else {
        unlines(list.drop_last()) + list.last().push('\n')
    }
}

/// `line` put into an ordered list, behind every line that comes no later without regard to case.
pub open spec fn placed(list: Seq<Seq<char>>, line: Seq<char>) -> Seq<Seq<char>>
    decreases list.len(),
{
    if list.len() == 0 || text_le(lowercase(list.last()), lowercase(line)) {
        list.push(line)
    } else {
        placed(list.drop_last(), line).push(list.last())
    }
}

/// The lines ordered without regard to case; lines that differ in case alone keep their order.
pub open spec fn ordered(list: Seq<Seq<char>>) -> Seq<Seq<char>>
    decreases list.len(),
{
    if list.len() == 0 {
        Seq::empty()
    } else {
        placed(ordered(list.drop_last()), list.last())
    }
}

/// What a vocabulary file with the text `content` holds once `term` is in it; `None` where the
/// term is there already.
pub open spec fn with_term(content: Seq<char>, term: Seq<char>) -> Option<Seq<char>> {
    if lines(content).contains(term) {
        None
    } else {
        Some(unlines(ordered(lines(content).push(term))))
    }
}

proof fn line_end_at(s: Seq<char>, k: int)
    requires
        0 <= k <= s.len(),
        forall|j: int| 0 <= j < k ==> s[j] != '\n',
        k == s.len() || s[k] == '\n',
    ensures
        line_end(s) == k,
    decreases s.len(),
{
    if k > 0 {
        assert forall|j: int| 0 <= j < k - 1 implies s.drop_first()[j] != '\n' by {
            assert(s.drop_first()[j] == s[j + 1]);
        }
        line_end_at(s.drop_first(), k - 1);
    }
}

/// The lines of `s`.
pub fn split_lines(s: &str) -> (r: Vec<String>)
    ensures
        texts(r@) == lines(s@),
{
    let chars = chars_of(s);
    let mut out: Vec<String> = Vec::new();
    let mut start: usize = 0;
    let mut i: usize = 0;
    proof {
        assert(s@.skip(0) =~= s@);
        assert(texts(out@) + lines(s@) =~= lines(s@));
    }
    while i < chars.len()
        invariant
            chars@ == s@,
            start <= i <= chars@.len(),
            forall|j: int| start <= j < i ==> chars@[j] != '\n',
            lines(s@) == texts(out@) + lines(s@.skip(start as int)),
        decreases chars@.len() - i,
    {
        if chars[i] == '\n' {
            let ghost rest = s@.skip(start as int);
            proof {
                line_end_at(rest, i - start);
                assert(rest.take(i - start) =~= s@.subrange(start as int, i as int));
                assert(rest.skip(i - start + 1) =~= s@.skip(i + 1));
            }
            let mut end: usize = i;
            if start < end && chars[end - 1] == '\r' {
                end = end - 1;
                proof {
                    assert(s@.subrange(start as int, i as int).drop_last() =~= s@.subrange(
                        start as int,
                        end as int,
                    ));
                }
            }
            let line = text_of(&chars, start, end);
            proof {
                texts_push(out@, line);
                assert(texts(out@).push(line@) + lines(s@.skip(i + 1)) =~= texts(out@) + (seq![
                    line@,
                ] + lines(s@.skip(i + 1))));
            }
            out.push(line);
            start = i + 1;
        }
        i = i + 1;
    }
    let ghost rest = s@.skip(start as int);
    if start < chars.len() {
        let line = text_of(&chars, start, chars.len());
        proof {
            line_end_at(rest, rest.len() as int);
            assert(line@ =~= rest);
            texts_push(out@, line);
            assert(texts(out@).push(line@) =~= texts(out@) + seq![line@]);
        }
        out.push(line);
    } else {
        proof {
            assert(rest =~= Seq::<char>::empty());
            assert(texts(out@) + Seq::<Seq<char>>::empty() =~= texts(out@));
        }
    }
    out
}

/// The text of a list of lines, with a line feed behind each.
fn join_lines(list: &Vec<String>) -> (r: String)
    ensures
        r@ == unlines(texts(list@)),
{
    let mut out = String::new();
    let mut i: usize = 0;
    while i < list.len()
        invariant
            i <= list@.len(),
            out@ == unlines(texts(list@).take(i as int)),
        decreases list@.len() - i,
    {
        proof {
            let front = texts(list@).take(i + 1);
            assert(front.drop_last() =~= texts(list@).take(i as int));
            assert(front.last() == list@[i as int]@);
            assert(out@ + list@[i as int]@.push('\n') =~= (out@ + list@[i as int]@).push('\n'));
        }
        out.append(list[i].as_str());
        out.push('\n');
        i = i + 1;
    }
    proof {
        assert(texts(list@).take(list@.len() as int) =~= texts(list@));
    }
    out
}

/// Where a line with the lower-case form `key` goes in a list whose lower-case forms are `keys`:
/// behind the last line that comes no later.
fn place_of(keys: &Vec<Vec<char>>, key: &Vec<char>) -> (r: usize)
    ensures
        r <= keys@.len(),
        r > 0 ==> text_le(keys@[r - 1]@, key@),
        forall|j: int| r <= j < keys@.len() ==> !text_le((#[trigger] keys@[j])@, key@),
{
    let mut j: usize = keys.len();
    while j > 0 && !comes_no_later(&keys[j - 1], key)
        invariant
            j <= keys@.len(),
            forall|k: int| j <= k < keys@.len() ==> !text_le((#[trigger] keys@[k])@, key@),
        decreases j,
    {
        j = j - 1;
    }
    j
}

proof fn placed_at(list: Seq<Seq<char>>, line: Seq<char>, at: int)
    requires
        0 <= at <= list.len(),
        at > 0 ==> text_le(lowercase(list[at - 1]), lowercase(line)),
        forall|j: int|
            at <= j < list.len() ==> !text_le(lowercase(#[trigger] list[j]), lowercase(line)),
    ensures
        placed(list, line) == list.insert(at, line),
    decreases list.len(),
{
    if at == list.len() {
        assert(list.insert(at, line) =~= list.push(line));
    } else {
        assert(list.last() == list[list.len() - 1]);
        assert forall|j: int| at <= j < list.drop_last().len() implies !text_le(
            lowercase(#[trigger] list.drop_last()[j]),
            lowercase(line),
        ) by {
            assert(list.drop_last()[j] == list[j]);
        }
        placed_at(list.drop_last(), line, at);
        assert(list.drop_last().insert(at, line).push(list.last()) =~= list.insert(at, line));
    }
}

/// The lines ordered without regard to case; lines that differ in case alone keep their order.
pub fn order_lines(list: &Vec<String>) -> (r: Vec<String>)
    ensures
        texts(r@) == ordered(texts(list@)),
{
    let mut out: Vec<String> = Vec::new();
    let mut keys: Vec<Vec<char>> = Vec::new();
    let mut i: usize = 0;
    proof {
        assert(texts(out@) =~= Seq::<Seq<char>>::empty());
    }
    while i < list.len()
        invariant
            i <= list@.len(),
            keys@.len() == out@.len(),
            texts(out@) == ordered(texts(list@).take(i as int)),
            forall|j: int| 0 <= j < out@.len() ==> (#[trigger] keys@[j])@ == lowercase(out@[j]@),
        decreases list@.len() - i,
    {
        let line = list[i].clone();
        let key = chars_of(to_lower(line.as_str()).as_str());
        let at: usize = place_of(&keys, &key);
        proof {
            let front = texts(list@).take(i + 1);
            assert(front.drop_last() =~= texts(list@).take(i as int));
            assert(front.last() == line@);
            assert forall|j: int| at <= j < texts(out@).len() implies !text_le(
                lowercase(#[trigger] texts(out@)[j]),
                lowercase(line@),
            ) by {
                assert(keys@[j]@ == lowercase(out@[j]@));
            }
            placed_at(texts(out@), line@, at as int);
            assert(texts(out@.insert(at as int, line)) =~= texts(out@).insert(at as int, line@));
        }
        out.insert(at, line);
        keys.insert(at, key);
        i = i + 1;
    }
    proof {
        assert(texts(list@).take(list@.len() as int) =~= texts(list@));
    }
    out
}

/// Whether `term` is one of the lines.
fn has_line(list: &Vec<String>, term: &str) -> (r: bool)
    ensures
        r == texts(list@).contains(term@),
{
    let mut i: usize = 0;
    while i < list.len()
        invariant
            i <= list@.len(),
            forall|j: int| 0 <= j < i ==> texts(list@)[j] != term@,
        decreases list@.len() - i,
    {
        if same_text(list[i].as_str(), term) {
            proof {
                assert(texts(list@)[i as int] == term@);
            }
            return true;
        }
        i = i + 1;
    }
    false
}

/// What a vocabulary file with the text `content` holds once `term` is in it; `None` where the
/// term is there already.
pub fn add_term(content: &str, term: &str) -> (r: Option<String>)
    ensures
        r is Some <==> with_term(content@, term@) is Some,
        r matches Some(new) ==> Some(new@) == with_term(content@, term@),
        r is None <==> exists|i: int|
            0 <= i < lines(content@).len() && #[trigger] lines(content@)[i] == term@,
{
    let mut list = split_lines(content);
    if has_line(&list, term) {
        return None;
    }
    let line = term.to_owned();
    proof {
        texts_push(list@, line);
    }
    list.push(line);
    Some(join_lines(&order_lines(&list)))
}

/// Whether a text is one line: no line feed in it, and no carriage return at its end.
pub open spec fn is_one_line(line: Seq<char>) -> bool {
    !line.contains('\n') && (line.len() > 0 ==> line.last() != '\r')
}

/// Lines read from `line`, a line feed and `rest` are the line and the lines of `rest`.
proof fn lines_front(line: Seq<char>, rest: Seq<char>)
    requires
        !line.contains('\n'),
    ensures
        lines(line.push('\n') + rest) == seq![without_return(line)] + lines(rest),
{
    let s = line.push('\n') + rest;
    assert forall|j: int| 0 <= j < line.len() implies s[j] != '\n' by {
        assert(s[j] == line[j]);
    }
    line_end_at(s, line.len() as int);
    assert(s.take(line.len() as int) =~= line);
    assert(s.skip(line.len() as int + 1) =~= rest);
}

/// Text behind whole lines: the lines of the front come first.
proof fn lines_behind(list: Seq<Seq<char>>, rest: Seq<char>)
    requires
        forall|i: int| 0 <= i < list.len() ==> !(#[trigger] list[i]).contains('\n'),
    ensures
        lines(unlines(list) + rest) == list.map_values(|l: Seq<char>| without_return(l)) + lines(
            rest,
        ),
    decreases list.len(),
{
    let f = |l: Seq<char>| without_return(l);
    if list.len() == 0 {
        assert(unlines(list) + rest =~= rest);
        assert(list.map_values(f) + lines(rest) =~= lines(rest));
    } else {
        let front = list.drop_last();
        let behind = list.last().push('\n') + rest;
        assert(unlines(list) + rest =~= unlines(front) + behind);
        assert forall|i: int| 0 <= i < front.len() implies !(#[trigger] front[i]).contains(
            '\n',
        ) by {
            assert(front[i] == list[i]);
        }
        lines_behind(front, behind);
        assert(list.last() == list[list.len() - 1]);
        lines_front(list.last(), rest);
        assert(list.map_values(f) + lines(rest) =~= front.map_values(f) + (seq![
            without_return(list.last()),
        ] + lines(rest)));
    }
}

/// Reading lines back: what was written as one line each is read as the same lines.
pub proof fn lines_read_back(list: Seq<Seq<char>>)
    requires
        forall|i: int| 0 <= i < list.len() ==> is_one_line(#[trigger] list[i]),
    ensures
        lines(unlines(list)) == list,
{
    lines_behind(list, Seq::empty());
    assert(unlines(list) + Seq::<char>::empty() =~= unlines(list));
    assert(list.map_values(|l: Seq<char>| without_return(l)) + Seq::<Seq<char>>::empty() =~= list);
}

proof fn text_le_total(a: Seq<char>, b: Seq<char>)
    ensures
        text_le(a, b) || text_le(b, a),
    decreases a.len(),
{
    if a.len() > 0 && b.len() > 0 && a[0] == b[0] {
        text_le_total(a.drop_first(), b.drop_first());
    }
}

proof fn text_le_transitive(a: Seq<char>, b: Seq<char>, c: Seq<char>)
    requires
        text_le(a, b),
        text_le(b, c),
    ensures
        text_le(a, c),
    decreases a.len(),
{
    if a.len() > 0 && b.len() > 0 && c.len() > 0 && a[0] == b[0] && b[0] == c[0] {
        text_le_transitive(a.drop_first(), b.drop_first(), c.drop_first());
    }
}

/// Whether every line comes no later than those behind it, without regard to case.
pub open spec fn is_ordered(list: Seq<Seq<char>>) -> bool {
    forall|i: int, j: int|
        0 <= i <= j < list.len() ==> text_le(
            lowercase(#[trigger] list[i]),
            lowercase(#[trigger] list[j]),
        )
}

proof fn placed_is_ordered(list: Seq<Seq<char>>, line: Seq<char>)
    requires
        is_ordered(list),
    ensures
        is_ordered(placed(list, line)),
        forall|x: Seq<char>|
            #![trigger placed(list, line).contains(x)]
            placed(list, line).contains(x) <==> list.contains(x) || x == line,
    decreases list.len(),
{
    let r = placed(list, line);
    text_le_total(lowercase(line), lowercase(line));
    if list.len() == 0 || text_le(lowercase(list.last()), lowercase(line)) {
        assert forall|i: int, j: int| 0 <= i <= j < r.len() implies text_le(
            lowercase(#[trigger] r[i]),
            lowercase(#[trigger] r[j]),
        ) by {
            if j == list.len() && i < j {
                assert(r[i] == list[i]);
                assert(list.last() == list[list.len() - 1]);
                text_le_transitive(lowercase(list[i]), lowercase(list.last()), lowercase(line));
            } else if j < list.len() {
                assert(r[i] == list[i] && r[j] == list[j]);
            }
        }
        assert forall|x: Seq<char>| #[trigger] r.contains(x) <==> list.contains(x) || x == line by {
            if list.contains(x) {
                let i = choose|i: int| 0 <= i < list.len() && list[i] == x;
                assert(r[i] == x);
            }
            if x == line {
                assert(r[list.len() as int] == x);
            }
        }
    } else {
        let front = list.drop_last();
        let last = list.last();
        assert forall|i: int, j: int| 0 <= i <= j < front.len() implies text_le(
            lowercase(#[trigger] front[i]),
            lowercase(#[trigger] front[j]),
        ) by {
            assert(front[i] == list[i] && front[j] == list[j]);
        }
        placed_is_ordered(front, line);
        let p = placed(front, line);
        text_le_total(lowercase(last), lowercase(line));
        assert forall|i: int, j: int| 0 <= i <= j < r.len() implies text_le(
            lowercase(#[trigger] r[i]),
            lowercase(#[trigger] r[j]),
        ) by {
            if j == p.len() {
                if i < j {
                    assert(r[i] == p[i]);
                    assert(p.contains(p[i]));
                    if front.contains(p[i]) {
                        let k = choose|k: int| 0 <= k < front.len() && front[k] == p[i];
                        assert(list[k] == p[i] && list[list.len() - 1] == last);
                    }
                } else {
                    text_le_total(lowercase(last), lowercase(last));
                }
            } else {
                assert(r[i] == p[i] && r[j] == p[j]);
            }
        }
        assert forall|x: Seq<char>| #[trigger] r.contains(x) <==> list.contains(x) || x == line by {
            if r.contains(x) {
                let i = choose|i: int| 0 <= i < r.len() && r[i] == x;
                if i < p.len() {
                    assert(p[i] == x);
                    assert(p.contains(x));
                    if front.contains(x) {
                        let k = choose|k: int| 0 <= k < front.len() && front[k] == x;
                        assert(list[k] == x);
                    }
                } else {
                    assert(list[list.len() - 1] == x);
                }
            }
            if list.contains(x) {
                let k = choose|k: int| 0 <= k < list.len() && list[k] == x;
                if k < front.len() {
                    assert(front[k] == x);
                    assert(front.contains(x));
                    assert(p.contains(x));
                    let i = choose|i: int| 0 <= i < p.len() && p[i] == x;
                    assert(r[i] == x);
                } else {
                    assert(r[p.len() as int] == x);
                }
            }
            if x == line {
                assert(p.contains(x));
                let i = choose|i: int| 0 <= i < p.len() && p[i] == x;
                assert(r[i] == x);
            }
        }
    }
}

/// A vocabulary is written in order, without regard to case.
pub proof fn ordered_is_ordered(list: Seq<Seq<char>>)
    ensures
        is_ordered(ordered(list)),
    decreases list.len(),
{
    if list.len() > 0 {
        ordered_is_ordered(list.drop_last());
        placed_is_ordered(ordered(list.drop_last()), list.last());
    }
}

/// Ordering keeps the lines: it adds none, drops none and repeats none.
pub proof fn ordered_keeps_lines(list: Seq<Seq<char>>)
    ensures
        ordered(list).to_multiset() == list.to_multiset(),
    decreases list.len(),
{
    broadcast use vstd::seq_lib::group_to_multiset_ensures;

    if list.len() > 0 {
        ordered_keeps_lines(list.drop_last());
        placed_keeps_lines(ordered(list.drop_last()), list.last());
        assert(list.drop_last().push(list.last()) =~= list);
    }
}

proof fn placed_keeps_lines(list: Seq<Seq<char>>, line: Seq<char>)
    ensures
        placed(list, line).to_multiset() == list.to_multiset().insert(line),
    decreases list.len(),
{
    broadcast use vstd::seq_lib::group_to_multiset_ensures;

    if !(list.len() == 0 || text_le(lowercase(list.last()), lowercase(line))) {
        placed_keeps_lines(list.drop_last(), line);
        assert(list.drop_last().push(list.last()) =~= list);
        assert(list.drop_last().to_multiset().insert(line).insert(list.last())
            =~= list.drop_last().to_multiset().insert(list.last()).insert(line));
    }
}

/// The lines of a list with the lower-case form `key`, in order.
pub open spec fn alike(list: Seq<Seq<char>>, key: Seq<char>) -> Seq<Seq<char>>
    decreases list.len(),
{
    if list.len() == 0 {
        Seq::empty()
    } else if lowercase(list.last()) == key {
        alike(list.drop_last(), key).push(list.last())
    } else {
        alike(list.drop_last(), key)
    }
}

proof fn alike_push(list: Seq<Seq<char>>, line: Seq<char>, key: Seq<char>)
    ensures
        alike(list.push(line), key) == if lowercase(line) == key {
            alike(list, key).push(line)
        } else {
            alike(list, key)
        },
{
    assert(list.push(line).drop_last() =~= list);
}

proof fn placed_keeps_alike(list: Seq<Seq<char>>, line: Seq<char>, key: Seq<char>)
    ensures
        alike(placed(list, line), key) == alike(list.push(line), key),
    decreases list.len(),
{
    alike_push(list, line, key);
    if !(list.len() == 0 || text_le(lowercase(list.last()), lowercase(line))) {
        let front = list.drop_last();
        placed_keeps_alike(front, line, key);
        alike_push(front, line, key);
        alike_push(placed(front, line), list.last(), key);
        text_le_total(lowercase(line), lowercase(line));
    }
}

/// Lines that differ in case alone keep their order.
pub proof fn ordered_is_stable(list: Seq<Seq<char>>, key: Seq<char>)
    ensures
        alike(ordered(list), key) == alike(list, key),
    decreases list.len(),
{
    if list.len() > 0 {
        ordered_is_stable(list.drop_last(), key);
        placed_keeps_alike(ordered(list.drop_last()), list.last(), key);
        alike_push(ordered(list.drop_last()), list.last(), key);
    }
}

proof fn ordered_contains(list: Seq<Seq<char>>, x: Seq<char>)
    ensures
        ordered(list).contains(x) <==> list.contains(x),
{
    ordered_keeps_lines(list);
    broadcast use vstd::seq_lib::group_to_multiset_ensures;

    assert(ordered(list).to_multiset().count(x) == list.to_multiset().count(x));
    assert(ordered(list).to_multiset().contains(x) <==> list.to_multiset().contains(x));
}

proof fn line_end_bounds(s: Seq<char>)
    ensures
        0 <= line_end(s) <= s.len(),
        forall|j: int| 0 <= j < line_end(s) ==> s[j] != '\n',
    decreases s.len(),
{
    if s.len() > 0 && s[0] != '\n' {
        line_end_bounds(s.drop_first());
        assert forall|j: int| 0 <= j < line_end(s) implies s[j] != '\n' by {
            if j > 0 {
                assert(s.drop_first()[j - 1] == s[j]);
            }
        }
    }
}

/// No line that is read has a line feed in it.
proof fn lines_have_no_feed(s: Seq<char>)
    ensures
        forall|i: int| 0 <= i < lines(s).len() ==> !(#[trigger] lines(s)[i]).contains('\n'),
    decreases s.len(),
{
    line_end_bounds(s);
    if s.len() > 0 {
        let k = line_end(s);
        let first = without_return(s.take(k));
        assert forall|j: int| 0 <= j < first.len() implies first[j] != '\n' by {
            assert(first[j] == s[j]);
        }
        if k < s.len() {
            lines_have_no_feed(s.skip(k + 1));
            assert forall|i: int| 0 <= i < lines(s).len() implies !(#[trigger] lines(
                s,
            )[i]).contains('\n') by {
                if i > 0 {
                    assert(lines(s)[i] == lines(s.skip(k + 1))[i - 1]);
                }
            }
        } else {
            assert(s.take(k) =~= s);
        }
    }
}

/// What is in a vocabulary file once a term was added: the lines that were there and the term, a
/// carriage return at the end of a line left out.
proof fn lines_with_term(content: Seq<char>, term: Seq<char>)
    requires
        is_one_line(term),
        with_term(content, term) is Some,
    ensures
        lines(with_term(content, term)->0) == ordered(lines(content).push(term)).map_values(
            |l: Seq<char>| without_return(l),
        ),
{
    let list = lines(content).push(term);
    let r = ordered(list);
    lines_have_no_feed(content);
    assert forall|i: int| 0 <= i < r.len() implies !(#[trigger] r[i]).contains('\n') by {
        assert(r.contains(r[i]));
        ordered_contains(list, r[i]);
        let k = choose|k: int| 0 <= k < list.len() && list[k] == r[i];
        if k < lines(content).len() {
            assert(list[k] == lines(content)[k]);
        }
    }
    lines_behind(r, Seq::empty());
    assert(unlines(r) + Seq::<char>::empty() =~= unlines(r));
    let f = |l: Seq<char>| without_return(l);
    assert(r.map_values(f) + Seq::<Seq<char>>::empty() =~= r.map_values(f));
}

/// A term that was added is read back, and adding it once more changes nothing.
pub proof fn adding_twice_changes_nothing(content: Seq<char>, term: Seq<char>)
    requires
        is_one_line(term),
        with_term(content, term) is Some,
    ensures
        lines(with_term(content, term)->0).contains(term),
        with_term(with_term(content, term)->0, term) is None,
{
    let list = lines(content).push(term);
    let r = ordered(list);
    lines_with_term(content, term);
    assert(list[list.len() - 1] == term);
    ordered_contains(list, term);
    let k = choose|k: int| 0 <= k < r.len() && r[k] == term;
    assert(lines(with_term(content, term)->0)[k] == term);
}

/// Adding a term keeps every line of the file and adds the term alone, where no line of the file
/// ends in a carriage return of its own.
pub proof fn adding_keeps_the_lines(content: Seq<char>, term: Seq<char>)
    requires
        is_one_line(term),
        with_term(content, term) is Some,
        forall|i: int| 0 <= i < lines(content).len() ==> is_one_line(#[trigger] lines(content)[i]),
    ensures
        lines(with_term(content, term)->0) == ordered(lines(content).push(term)),
        lines(with_term(content, term)->0).to_multiset() == lines(content).to_multiset().insert(
            term,
        ),
        is_ordered(lines(with_term(content, term)->0)),
{
    broadcast use vstd::seq_lib::group_to_multiset_ensures;

    let list = lines(content).push(term);
    let r = ordered(list);
    lines_with_term(content, term);
    let f = |l: Seq<char>| without_return(l);
    assert forall|i: int| 0 <= i < r.len() implies f(#[trigger] r[i]) == r[i] by {
        assert(r.contains(r[i]));
        ordered_contains(list, r[i]);
        let k = choose|k: int| 0 <= k < list.len() && list[k] == r[i];
        if k < lines(content).len() {
            assert(list[k] == lines(content)[k]);
        }
    }
    assert(r.map_values(f) =~= r);
    ordered_keeps_lines(list);
    ordered_is_ordered(list);
}

/// A term is left out exactly where it is a whole line of the file.
pub proof fn only_a_whole_line_keeps_a_term_out(content: Seq<char>, term: Seq<char>)
    ensures
        with_term(content, term) is None <==> exists|i: int|
            0 <= i < lines(content).len() && #[trigger] lines(content)[i] == term,
{
}

/// Once a term is added, the file holds the lines that were there and the term, and no other, every
/// one ended by a line feed, in order without regard to case; those that differ in case alone stay
/// in the order they had, the term behind them.
pub proof fn file_is_written_line_by_line(content: Seq<char>, term: Seq<char>, key: Seq<char>)
    requires
        with_term(content, term) is Some,
    ensures
        exists|list: Seq<Seq<char>>|
            {
                &&& with_term(content, term)->0 == list.map_values(
                    |line: Seq<char>| line.push('\n'),
                ).flatten()
                &&& #[trigger] list.to_multiset() == lines(content).to_multiset().insert(term)
                &&& forall|i: int, j: int|
                    0 <= i < j < list.len() ==> text_le(
                        lowercase(#[trigger] list[i]),
                        lowercase(#[trigger] list[j]),
                    )
                &&& list.filter(|line: Seq<char>| lowercase(line) == key) == lines(content).push(
                    term,
                ).filter(|line: Seq<char>| lowercase(line) == key)
            },
{
    broadcast use vstd::seq_lib::group_to_multiset_ensures;

    let all = lines(content).push(term);
    let list = ordered(all);
    ordered_keeps_lines(all);
    ordered_is_ordered(all);
    unlines_flattens(list);
    ordered_is_stable(all, key);
    alike_filters(list, key);
    alike_filters(all, key);
    assert(list.to_multiset() == lines(content).to_multiset().insert(term));
}

proof fn unlines_flattens(list: Seq<Seq<char>>)
    ensures
        unlines(list) == list.map_values(|line: Seq<char>| line.push('\n')).flatten(),
    decreases list.len(),
{
    broadcast use Seq::lemma_flatten_push;

    let f = |line: Seq<char>| line.push('\n');
    if list.len() == 0 {
        assert(list.map_values(f) =~= Seq::<Seq<char>>::empty());
    } else {
        unlines_flattens(list.drop_last());
        assert(list.map_values(f) =~= list.drop_last().map_values(f).push(f(list.last())));
    }
}

proof fn alike_filters(list: Seq<Seq<char>>, key: Seq<char>)
    ensures
        alike(list, key) == list.filter(|line: Seq<char>| lowercase(line) == key),
    decreases list.len(),
{
    reveal(Seq::filter);
    if list.len() > 0 {
        alike_filters(list.drop_last(), key);
    }
}

/// A text is read line by line: up to a line feed, and a carriage return in front of it is no part
/// of the line.
pub proof fn line_feed_ends_a_line(front: Seq<char>, rest: Seq<char>)
    requires
        !front.contains('\n'),
    ensures
        lines(front.push('\n') + rest) == seq![
            if front.len() > 0 && front.last() == '\r' {
                front.drop_last()
            } else {
                front
            },
        ] + lines(rest),
{
    let s = front.push('\n') + rest;
    assert forall|j: int| 0 <= j < front.len() implies s[j] != '\n' by {
        assert(front.contains(front[j]));
    }
    line_end_at(s, front.len() as int);
    assert(s.take(front.len() as int) =~= front);
    assert(s.skip(front.len() as int + 1) =~= rest);
}

/// What stands behind the last line feed is a line too, unless nothing does.
pub proof fn last_line_needs_no_feed(s: Seq<char>)
    requires
        !s.contains('\n'),
    ensures
        lines(s) == if s.len() > 0 {
            seq![s]
        } else {
            Seq::empty()
        },
{
    assert forall|j: int| 0 <= j < s.len() implies s[j] != '\n' by {
        assert(s.contains(s[j]));
    }
    line_end_at(s, s.len() as int);
}

/// A term that is one line is a line of the file from then on, whatever the file held.
pub proof fn added_term_is_a_line(content: Seq<char>, term: Seq<char>)
    requires
        !term.contains('\n'),
        term.len() > 0 ==> term.last() != '\r',
    ensures
        with_term(content, term) matches Some(new) ==> lines(new).contains(term) && with_term(
            new,
            term,
        ) is None,
{
    if with_term(content, term) is Some {
        adding_twice_changes_nothing(content, term);
    }
}

} // verus!
