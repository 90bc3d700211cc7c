//! Open documents: their lines, and links in them.

use crate::lsp::{Position, Range};
use crate::text::{
    chars_of, contained_text_has_sides, contains, find_text,
    first_occurrence_has_the_shortest_front, is_first_occurrence, occurs_at, text_if, text_of,
};
use ropey::Rope;
use vstd::arithmetic::div_mod::lemma_add_mod_noop;
use vstd::prelude::*;
use vstd::utf8::encode_utf8;

verus! {

/// `ropey::Rope`: the text of a document. What it holds is named by [`rope_text`], and what it
/// shows of its lines by [`rope_shown`].
#[verifier::external_type_specification]
#[verifier::external_body]
pub struct ExRope(Rope);

/// The text that a rope holds.
pub uninterp spec fn rope_text(rope: Rope) -> Seq<char>;

/// What a rope shows of each of its lines: the line, where the rope keeps it in one piece.
pub uninterp spec fn rope_shown(rope: Rope) -> Seq<Option<Seq<char>>>;

/// Whether a line ends behind `s[i]`: at a line feed, a carriage return that no line feed follows,
/// a vertical tab, a form feed, a next line, a line separator or a paragraph separator.
pub open spec fn breaks_after(s: Seq<char>, i: int) -> bool {
    ||| s[i] == '\u{a}'
    ||| s[i] == '\u{d}' && !(i + 1 < s.len() && s[i + 1] == '\u{a}')
    ||| s[i] == '\u{b}'
    ||| s[i] == '\u{c}'
    ||| s[i] == '\u{85}'
    ||| s[i] == '\u{2028}'
    ||| s[i] == '\u{2029}'
}

/// The lines of `s[..n]`, where `s` goes on behind: each with what ends it, and a last one, which
/// may be empty.
pub open spec fn rope_lines_to(s: Seq<char>, n: int) -> Seq<Seq<char>>
    decreases n,
{
    if n <= 0 {
        seq![Seq::<char>::empty()]
    } else {
        let front = rope_lines_to(s, n - 1);
        let grown = front.drop_last().push(front.last().push(s[n - 1]));
        if breaks_after(s, n - 1) {
            grown.push(Seq::<char>::empty())
        } else {
            grown
        }
    }
}

/// The lines of a document, each with what ends it.
pub open spec fn rope_lines(s: Seq<char>) -> Seq<Seq<char>> {
    rope_lines_to(s, s.len() as int)
}

/// Whether `seen` is true to the lines of `text`: of each line it shows all, or nothing.
pub open spec fn is_true_to(text: Seq<char>, seen: Seq<Option<Seq<char>>>) -> bool {
    &&& seen.len() == rope_lines(text).len()
    &&& forall|i: int|
        0 <= i < seen.len() ==> ((#[trigger] seen[i]) matches Some(line) ==> line == rope_lines(
            text,
        )[i])
}

/// Whether a text has at most 900 bytes, which a new rope keeps in one piece on every machine.
pub open spec fn is_short(text: Seq<char>) -> bool {
    encode_utf8(text).len() <= 900
}

/// Every line of a text, shown.
pub open spec fn all_shown(text: Seq<char>) -> Seq<Option<Seq<char>>> {
    rope_lines(text).map_values(|line: Seq<char>| Some(line))
}

/// Whether `seen` is what a new rope shows of `text`: of a short text every line, of any other of
/// each line all or nothing.
pub open spec fn is_shown_of(text: Seq<char>, seen: Seq<Option<Seq<char>>>) -> bool {
    &&& is_true_to(text, seen)
    &&& is_short(text) ==> seen == all_shown(text)
}

/// `Rope::from_str`: a rope that holds the text, and shows nothing but its lines. A text of at most
/// 900 bytes fits into one leaf of the rope's tree, so all of its lines are shown.
#[verifier::external_body]
pub(crate) fn rope_of(text: &str) -> (r: Rope)
    ensures
        rope_text(r) == text@,
        is_shown_of(text@, rope_shown(r)),
{
    Rope::from_str(text)
}

/// `Rope::len_lines`: how many lines a rope has.
#[verifier::external_body]
pub(crate) fn line_count(rope: &Rope) -> (r: usize)
    ensures
        r == rope_lines(rope_text(*rope)).len(),
        r == rope_shown(*rope).len(),
{
    rope.len_lines()
}

/// `Rope::line`, then `RopeSlice::as_str`: what a rope shows of a line, named [`rope_shown`]: the
/// line, with what ends it, where the rope keeps it in one piece. How the rope came to be decides
/// which lines those are, and not its text alone.
#[verifier::external_body]
pub(crate) fn line_in_one_piece(rope: &Rope, i: usize) -> (r: Option<String>)
    requires
        i < rope_lines(rope_text(*rope)).len(),
    ensures
        text_if(r) == rope_shown(*rope)[i as int],
        r matches Some(line) ==> line@ == rope_lines(rope_text(*rope))[i as int],
{
    match rope.line(i).as_str() {
        Some(line) => Some(line.to_string()),
        None => None,
    }
}

/// The texts of a list of optional strings.
pub open spec fn texts_if(list: Seq<Option<String>>) -> Seq<Option<Seq<char>>> {
    list.map_values(|s: Option<String>| text_if(s))
}

/// The lines of a rope, each where the rope keeps it in one piece.
pub fn lines_of(rope: &Rope) -> (r: Vec<Option<String>>)
    ensures
        texts_if(r@) == rope_shown(*rope),
        is_true_to(rope_text(*rope), rope_shown(*rope)),
{
    let ghost seen = rope_shown(*rope);
    let n: usize = line_count(rope);
    let mut out: Vec<Option<String>> = Vec::new();
    let mut i: usize = 0;
    while i < n
        invariant
            i <= n,
            seen == rope_shown(*rope),
            n == rope_lines(rope_text(*rope)).len(),
            n == seen.len(),
            out@.len() == i,
            forall|j: int| 0 <= j < i ==> text_if(#[trigger] out@[j]) == seen[j],
            forall|j: int|
                0 <= j < i ==> ((#[trigger] seen[j]) matches Some(line) ==> line == rope_lines(
                    rope_text(*rope),
                )[j]),
        decreases n - i,
    {
        out.push(line_in_one_piece(rope, i));
        i = i + 1;
    }
    proof {
        assert(texts_if(out@) =~= seen);
    }
    out
}

/// A count of bytes or lines as it is told: modulo 2 to the 32.
pub open spec fn told(n: nat) -> u32 {
    (n % 0x1_0000_0000) as u32
}

/// A count of bytes or lines as it is told.
fn tell(n: usize) -> (r: u32)
    ensures
        r == told(n as nat),
{
    let wide: u64 = n as u64;
    (wide % 0x1_0000_0000) as u32
}

/// Whether a line shows the link.
pub open spec fn shows(line: Option<Seq<char>>, link: Seq<char>) -> bool {
    line matches Some(text) && contains(text, link)
}

/// Whether the link stands first in line `i`, at character `at`.
pub open spec fn stands_first(
    lines: Seq<Option<Seq<char>>>,
    link: Seq<char>,
    i: int,
    at: int,
) -> bool {
    &&& 0 <= i < lines.len()
    &&& lines[i] is Some
    &&& is_first_occurrence(lines[i]->0, link, Some(at))
    &&& forall|j: int| 0 <= j < i ==> !shows(#[trigger] lines[j], link)
}

/// The part of a document that a link takes which stands in line `i`, behind `front`. Columns are
/// counted in bytes.
pub open spec fn link_range(i: int, front: Seq<char>, link: Seq<char>) -> Range {
    let line = told(i as nat);
    let from = encode_utf8(front).len();
    Range {
        start: Position { line, character: told(from) },
        end: Position { line, character: told(encode_utf8(link).len() + from) },
    }
}

/// Whether `found` is the part of the document that the link takes where it stands first; `None`
/// where it stands nowhere.
pub open spec fn is_link(
    lines: Seq<Option<Seq<char>>>,
    link: Seq<char>,
    found: Option<Range>,
) -> bool {
    match found {
        Some(range) => exists|i: int, at: int| #[trigger]
            stands_first(lines, link, i, at) && range == link_range(i, lines[i]->0.take(at), link),
        None => forall|i: int| 0 <= i < lines.len() ==> !shows(#[trigger] lines[i], link),
    }
}

/// Where a link stands first.
pub fn find_link(lines: &Vec<Option<String>>, link: &str) -> (r: Option<Range>)
    ensures
        is_link(texts_if(lines@), link@, r),
{
    let needle = chars_of(link);
    let ghost all = texts_if(lines@);
    let mut i: usize = 0;
    while i < lines.len()
        invariant
            i <= lines@.len(),
            needle@ == link@,
            all == texts_if(lines@),
            forall|j: int| 0 <= j < i ==> !shows(#[trigger] all[j], link@),
        decreases lines@.len() - i,
    {
        proof {
            assert(all[i as int] == text_if(lines@[i as int]));
        }
        match &lines[i] {
            Some(line) => {
                let chars = chars_of(line.as_str());
                match find_text(&chars, &needle) {
                    Some(at) => {
                        let front = text_of(&chars, 0, at);
                        let from: u32 = tell(front.as_str().as_bytes().len());
                        let long: u32 = tell(link.as_bytes().len());
                        let row: u32 = tell(i);
                        let range = Range {
                            start: Position { line: row, character: from },
                            end: Position { line: row, character: long.wrapping_add(from) },
                        };
                        proof {
                            assert(front@ =~= all[i as int]->0.take(at as int));
                            let a = encode_utf8(link@).len() as int;
                            let b = encode_utf8(front@).len() as int;
                            lemma_add_mod_noop(a, b, 0x1_0000_0000);
                            assert(range.end.character == told((a + b) as nat));
                            assert(stands_first(all, link@, i as int, at as int));
                        }
                        return Some(range);
                    },
                    None => {},
                }
            },
            None => {},
        }
        i = i + 1;
    }
    None
}

/// Where every line of a text is shown, a link is found exactly where some line holds it.
pub proof fn links_are_found_where_all_is_shown(
    text: Seq<char>,
    link: Seq<char>,
    found: Option<Range>,
)
    requires
        is_link(all_shown(text), link, found),
    ensures
        found is Some <==> exists|i: int|
            0 <= i < rope_lines(text).len() && contains(#[trigger] rope_lines(text)[i], link),
{
    let seen = all_shown(text);
    if let Some(range) = found {
        let (i, at) = choose|i: int, at: int| #[trigger]
            stands_first(seen, link, i, at) && range == link_range(i, seen[i]->0.take(at), link);
        assert(seen[i] == Some(rope_lines(text)[i]));
        assert(occurs_at(rope_lines(text)[i], link, at));
        assert(contains(rope_lines(text)[i], link));
    } else {
        assert forall|i: int| 0 <= i < rope_lines(text).len() implies !contains(
            #[trigger] rope_lines(text)[i],
            link,
        ) by {
            assert(seen[i] == Some(rope_lines(text)[i]));
            assert(!shows(seen[i], link));
        }
    }
}

/// A rope holds its text in lines: put behind each other, they are the text.
pub proof fn lines_make_up_the_text(s: Seq<char>)
    ensures
        rope_lines(s).flatten() == s,
{
    lines_make_up(s, s.len() as int);
    assert(s.take(s.len() as int) =~= s);
}

proof fn lines_make_up(s: Seq<char>, n: int)
    requires
        0 <= n <= s.len(),
    ensures
        rope_lines_to(s, n).len() > 0,
        rope_lines_to(s, n).flatten() == s.take(n),
    decreases n,
{
    broadcast use Seq::lemma_flatten_push;

    let all = rope_lines_to(s, n);
    if n == 0 {
        assert(all =~= Seq::<Seq<char>>::empty().push(Seq::<char>::empty()));
        assert(all.flatten() =~= s.take(0));
    } else {
        lines_make_up(s, n - 1);
        let front = rope_lines_to(s, n - 1);
        assert(front =~= front.drop_last().push(front.last()));
        assert(s.take(n) =~= s.take(n - 1).push(s[n - 1]));
        let grown = front.drop_last().push(front.last().push(s[n - 1]));
        assert(grown.flatten() =~= s.take(n));
        assert(all.flatten() =~= s.take(n));
    }
}

/// Where a link is found, it stands in that line behind the bytes that are counted, with no line
/// before it and no place in the line before it at which it stands; where none is found, no line
/// that is shown holds it.
pub proof fn link_stands_where_it_is_found(
    lines: Seq<Option<Seq<char>>>,
    link: Seq<char>,
    found: Option<Range>,
)
    requires
        is_link(lines, link, found),
    ensures
        found matches Some(range) ==> exists|i: int, front: Seq<char>, back: Seq<char>|
            {
                &&& 0 <= i < lines.len()
                &&& (#[trigger] lines[i]) == Some(#[trigger] (front + link + back))
                &&& range.start.line == i % 0x1_0000_0000
                &&& range.end.line == range.start.line
                &&& range.start.character == encode_utf8(front).len() % 0x1_0000_0000
                &&& range.end.character == (encode_utf8(link).len() + encode_utf8(front).len())
                    % 0x1_0000_0000
                &&& forall|a: Seq<char>, b: Seq<char>|
                    lines[i] == Some(#[trigger] (a + link + b)) ==> front.len() <= a.len()
                &&& forall|j: int, a: Seq<char>, b: Seq<char>|
                    0 <= j < i ==> #[trigger] lines[j] != Some(#[trigger] (a + link + b))
            },
        found is None ==> forall|j: int, a: Seq<char>, b: Seq<char>|
            0 <= j < lines.len() ==> #[trigger] lines[j] != Some(#[trigger] (a + link + b)),
{
    let limit = match found {
        Some(range) => {
            let (i, at) = choose|i: int, at: int| #[trigger]
                stands_first(lines, link, i, at) && range == link_range(
                    i,
                    lines[i]->0.take(at),
                    link,
                );
            i
        },
        None => lines.len() as int,
    };
    assert forall|j: int, a: Seq<char>, b: Seq<char>| 0 <= j < limit implies #[trigger] lines[j]
        != Some(#[trigger] (a + link + b)) by {
        assert(!shows(lines[j], link));
        if lines[j] == Some(a + link + b) {
            contained_text_has_sides(a + link + b, link);
        }
    }
    if let Some(range) = found {
        let (i, at) = choose|i: int, at: int| #[trigger]
            stands_first(lines, link, i, at) && range == link_range(i, lines[i]->0.take(at), link);
        let line = lines[i]->0;
        first_occurrence_has_the_shortest_front(line, link, Some(at));
        let front = line.take(at);
        let back = line.skip(at + link.len());
        assert(lines[i] == Some(front + link + back));
        assert forall|a: Seq<char>, b: Seq<char>|
            lines[i] == Some(#[trigger] (a + link + b)) implies front.len() <= a.len() by {
            assert(line == a + link + b);
        }
    }
}

/// A line of a document that is not its last ends with a line break, and no line has one in it but
/// there; a carriage return and the line feed behind it are one break.
pub proof fn every_break_ends_a_line(s: Seq<char>, i: int)
    requires
        0 <= i < rope_lines(s).len(),
    ensures
        ({
            let line = rope_lines(s)[i];
            &&& i < rope_lines(s).len() - 1 ==> line.len() > 0 && (line.last() == '\u{a}'
                || line.last() == '\u{b}' || line.last() == '\u{c}' || line.last() == '\u{d}'
                || line.last() == '\u{85}' || line.last() == '\u{2028}' || line.last()
                == '\u{2029}')
            &&& forall|j: int|
                0 <= j < line.len() && (j < line.len() - 1 || i == rope_lines(s).len() - 1) ==> {
                    &&& (#[trigger] line[j]) != '\u{a}'
                    &&& line[j] != '\u{b}'
                    &&& line[j] != '\u{c}'
                    &&& line[j] != '\u{85}'
                    &&& line[j] != '\u{2028}'
                    &&& line[j] != '\u{2029}'
                    &&& line[j] == '\u{d}' ==> j + 1 < line.len() && line[j + 1] == '\u{a}'
                }
            &&& i > 0 && rope_lines(s)[i - 1].last() == '\u{d}' && line.len() > 0 ==> line[0]
                != '\u{a}'
        }),
{
    breaks_to(s, s.len() as int);
    let all = rope_lines(s);
    let line = all[i];
    if i < all.len() - 1 {
        assert(is_finished(all[i]));
    }
    if i > 0 {
        assert(is_finished(all[i - 1]));
        assert(follows(all[i - 1], all[i]));
    }
    assert forall|j: int| 0 <= j < line.len() && (j < line.len() - 1 || i == all.len() - 1) implies {
        &&& (#[trigger] line[j]) != '\u{a}'
        &&& line[j] != '\u{b}'
        &&& line[j] != '\u{c}'
        &&& line[j] != '\u{85}'
        &&& line[j] != '\u{2028}'
        &&& line[j] != '\u{2029}'
        &&& line[j] == '\u{d}' ==> j + 1 < line.len() && line[j + 1] == '\u{a}'
    } by {
        if i == all.len() - 1 {
            assert(all.last()[j] == line[j]);
            assert(is_plain(all.last()[j]));
        } else {
            assert(is_plain(line[j]));
        }
    }
}

spec fn is_finished(line: Seq<char>) -> bool {
    &&& line.len() > 0
    &&& line.last() == '\u{a}' || line.last() == '\u{b}' || line.last() == '\u{c}' || line.last()
        == '\u{d}' || line.last() == '\u{85}' || line.last() == '\u{2028}' || line.last()
        == '\u{2029}'
    &&& forall|j: int|
        0 <= j < line.len() - 1 ==> is_plain(#[trigger] line[j]) && (line[j] == '\u{d}' ==> line[j
            + 1] == '\u{a}')
}

spec fn is_plain(c: char) -> bool {
    c != '\u{a}' && c != '\u{b}' && c != '\u{c}' && c != '\u{85}' && c != '\u{2028}' && c
        != '\u{2029}'
}

spec fn follows(line: Seq<char>, next: Seq<char>) -> bool {
    line.last() == '\u{d}' && next.len() > 0 ==> next[0] != '\u{a}'
}

proof fn breaks_to(s: Seq<char>, n: int)
    requires
        0 <= n <= s.len(),
    ensures
        ({
            let all = rope_lines_to(s, n);
            let open = all.last();
            &&& all.len() > 0
            &&& forall|i: int| 0 <= i < all.len() - 1 ==> is_finished(#[trigger] all[i])
            &&& forall|i: int|
                0 < i < all.len() ==> follows(all[i - 1], #[trigger] all[i])
            &&& forall|j: int| 0 <= j < open.len() ==> is_plain(#[trigger] open[j])
            &&& forall|j: int|
                0 <= j < open.len() && (#[trigger] open[j]) == '\u{d}' ==> j == open.len() - 1 && n
                    < s.len() && s[n] == '\u{a}'
            &&& open.len() == 0 && all.len() > 1 && all[all.len() - 2].last() == '\u{d}' && n
                < s.len() ==> s[n] != '\u{a}'
        }),
    decreases n,
{
    if n > 0 {
        breaks_to(s, n - 1);
        let front = rope_lines_to(s, n - 1);
        let all = rope_lines_to(s, n);
        let c = s[n - 1];
        let open = front.last();
        let grown = open.push(c);
        let last = front.len() - 1;
        assert forall|i: int| 0 <= i < last implies #[trigger] all[i] == front[i] by {}
        assert(all[last] == grown);
        if last > 0 {
            assert(follows(front[last - 1], front[last]));
            assert(all[last - 1] == front[last - 1]);
            if open.len() > 0 {
                assert(grown[0] == open[0]);
            }
            assert(follows(all[last - 1], all[last]));
        }
        assert forall|i: int| 0 < i < all.len() implies follows(all[i - 1], #[trigger] all[i]) by {
            if i < last {
                assert(follows(front[i - 1], front[i]));
            }
        }
        if breaks_after(s, n - 1) {
            assert forall|j: int| 0 <= j < grown.len() - 1 implies is_plain(#[trigger] grown[j]) && (
            grown[j] == '\u{d}' ==> grown[j + 1] == '\u{a}') by {
                assert(grown[j] == open[j]);
            }
            assert(is_finished(grown));
        } else {
            assert forall|j: int| 0 <= j < grown.len() implies is_plain(#[trigger] grown[j]) by {
                if j < open.len() {
                    assert(grown[j] == open[j]);
                }
            }
            assert forall|j: int| 0 <= j < grown.len() && (#[trigger] grown[j]) == '\u{d}' implies j
                == grown.len() - 1 && n < s.len() && s[n] == '\u{a}' by {
                if j < open.len() {
                    assert(grown[j] == open[j]);
                }
            }
        }
    }
}

/// What is true to a text shows of each line all of it, or nothing; where all is shown, every line
/// is.
pub proof fn shown_lines_are_those_of_the_text(
    text: Seq<char>,
    seen: Seq<Option<Seq<char>>>,
    i: int,
)
    ensures
        is_true_to(text, seen) ==> seen.len() == rope_lines(text).len(),
        is_true_to(text, seen) && 0 <= i < seen.len() ==> seen[i] is None || seen[i] == Some(
            rope_lines(text)[i],
        ),
        all_shown(text).len() == rope_lines(text).len(),
        0 <= i < rope_lines(text).len() ==> all_shown(text)[i] == Some(rope_lines(text)[i]),
        is_shown_of(text, seen) && encode_utf8(text).len() <= 900 ==> seen == all_shown(text),
        is_shown_of(text, seen) ==> is_true_to(text, seen),
{
}

/// The texts of optional strings are those of the strings, each in its place.
pub proof fn optional_texts_keep_their_places(list: Seq<Option<String>>, i: int)
    ensures
        texts_if(list).len() == list.len(),
        0 <= i < list.len() ==> match list[i] {
            Some(text) => texts_if(list)[i] == Some(text@),
            None => texts_if(list)[i] is None,
        },
{
}

} // verus!
