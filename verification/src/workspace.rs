//! The directories that a client works in.

use crate::path::{
    components, components_of, is_same_path, path_starts_with, same_path, starts_with,
};
use crate::text::{same_text, text_if, texts, texts_push};
use crate::uri::Uri;
use vstd::prelude::*;
use vstd::utf8::encode_utf8;

verus! {

/// Whether `b` lies no higher than `a`; of two that lie as high, the longer text counts as deeper.
pub open spec fn no_higher(b: Seq<char>, a: Seq<char>) -> bool {
    ||| components(b).len() > components(a).len()
    ||| components(b).len() == components(a).len() && encode_utf8(b).len() >= encode_utf8(a).len()
}

/// The innermost of the directories that hold `path`; the last of several that are the same.
pub open spec fn innermost(roots: Seq<Seq<char>>, path: Seq<char>) -> Option<Seq<char>>
    decreases roots.len(),
{
    if roots.len() == 0 {
        None
    } else {
        let among_others = innermost(roots.drop_last(), path);
        if !starts_with(path, roots.last()) {
            among_others
        } else {
            match among_others {
                Some(best) => if no_higher(roots.last(), best) {
                    Some(roots.last())
                } else {
                    Some(best)
                },
                None => Some(roots.last()),
            }
        }
    }
}

/// Whether `b` lies no higher than `a`.
fn lies_no_higher(b: &str, a: &str) -> (r: bool)
    ensures
        r == no_higher(b@, a@),
{
    let deep: usize = components_of(b).len();
    let other: usize = components_of(a).len();
    deep > other || (deep == other && b.as_bytes().len() >= a.as_bytes().len())
}

/// The innermost of the directories that hold `path`.
pub fn innermost_of(roots: &Vec<String>, path: &str) -> (r: Option<String>)
    ensures
        text_if(r) == innermost(texts(roots@), path@),
{
    let ghost all = texts(roots@);
    let mut best: Option<String> = None;
    let mut i: usize = 0;
    while i < roots.len()
        invariant
            i <= roots@.len(),
            all == texts(roots@),
            text_if(best) == innermost(all.take(i as int), path@),
        decreases roots@.len() - i,
    {
        proof {
            assert(all.take(i + 1).drop_last() =~= all.take(i as int));
            assert(all.take(i + 1).last() == roots@[i as int]@);
        }
        let root = roots[i].as_str();
        if path_starts_with(path, root) {
            let deeper = match &best {
                Some(found) => lies_no_higher(root, found.as_str()),
                None => true,
            };
            if deeper {
                best = Some(root.to_owned());
            }
        }
        i = i + 1;
    }
    proof {
        assert(all.take(all.len() as int) =~= all);
    }
    best
}

/// The files that addresses stand for, of those that stand for one.
pub open spec fn file_paths(list: Seq<Uri>) -> Seq<Seq<char>> {
    list.filter_map(|uri: Uri| text_if(uri.file_path))
}

/// The files that addresses stand for, of those that stand for one.
pub fn file_paths_of(list: &Vec<Uri>) -> (r: Vec<String>)
    ensures
        texts(r@) == file_paths(list@),
{
    let ghost f = |uri: Uri| text_if(uri.file_path);
    let mut out: Vec<String> = Vec::new();
    let mut i: usize = 0;
    proof {
        assert(texts(out@) =~= list@.take(0).filter_map(f));
    }
    while i < list.len()
        invariant
            i <= list@.len(),
            f == (|uri: Uri| text_if(uri.file_path)),
            texts(out@) == list@.take(i as int).filter_map(f),
        decreases list@.len() - i,
    {
        proof {
            assert(list@.take(i + 1).drop_last() =~= list@.take(i as int));
        }
        match &list[i].file_path {
            Some(path) => {
                let path = path.clone();
                proof {
                    texts_push(out@, path);
                    assert(texts(out@) + seq![path@] =~= texts(out@).push(path@));
                }
                out.push(path);
            },
            None => {},
        }
        i = i + 1;
    }
    proof {
        assert(list@.take(list@.len() as int) =~= list@);
    }
    out
}

/// The directories that a client works in: its folders, else its root, else `cwd`.
pub open spec fn opened(
    folders: Seq<Seq<char>>,
    root: Option<Seq<char>>,
    cwd: Option<Seq<char>>,
) -> Seq<Seq<char>> {
    if folders.len() > 0 {
        folders
    } else {
        match root {
            Some(path) => seq![path],
            None => match cwd {
                Some(path) => seq![path],
                None => Seq::empty(),
            },
        }
    }
}

/// Whether `path` is one of `list`.
pub open spec fn is_among(list: Seq<Seq<char>>, path: Seq<char>) -> bool {
    exists|i: int| 0 <= i < list.len() && same_path(path, #[trigger] list[i])
}

/// Whether `path` is one of `list`.
fn is_path_among(list: &Vec<String>, path: &str) -> (r: bool)
    ensures
        r == is_among(texts(list@), path@),
{
    let ghost all = texts(list@);
    let mut i: usize = 0;
    while i < list.len()
        invariant
            i <= list@.len(),
            all == texts(list@),
            forall|j: int| 0 <= j < i ==> !same_path(path@, #[trigger] all[j]),
        decreases list@.len() - i,
    {
        if is_same_path(path, list[i].as_str()) {
            proof {
                assert(same_path(path@, all[i as int]));
            }
            return true;
        }
        proof {
            assert(all[i as int] == list@[i as int]@);
        }
        i = i + 1;
    }
    false
}

/// The directories that are not among those given, in their order.
pub open spec fn without(roots: Seq<Seq<char>>, removed: Seq<Seq<char>>) -> Seq<Seq<char>> {
    roots.filter(|root: Seq<char>| !is_among(removed, root))
}

/// The directories, and behind them each of those given that is not yet there.
pub open spec fn with_added(roots: Seq<Seq<char>>, added: Seq<Seq<char>>) -> Seq<Seq<char>>
    decreases added.len(),
{
    if added.len() == 0 {
        roots
    } else {
        let front = with_added(roots, added.drop_last());
        if front.contains(added.last()) {
            front
        } else {
            front.push(added.last())
        }
    }
}

/// The directories once some have been taken out and others added.
pub open spec fn changed(
    roots: Seq<Seq<char>>,
    removed: Seq<Seq<char>>,
    added: Seq<Seq<char>>,
) -> Seq<Seq<char>> {
    with_added(without(roots, removed), added)
}

/// Whether a text is in a list.
fn is_listed(list: &Vec<String>, text: &str) -> (r: bool)
    ensures
        r == texts(list@).contains(text@),
{
    let ghost all = texts(list@);
    let mut i: usize = 0;
    while i < list.len()
        invariant
            i <= list@.len(),
            all == texts(list@),
            forall|j: int| 0 <= j < i ==> #[trigger] all[j] != text@,
        decreases list@.len() - i,
    {
        if same_text(list[i].as_str(), text) {
            proof {
                assert(all[i as int] == text@);
            }
            return true;
        }
        proof {
            assert(all[i as int] == list@[i as int]@);
        }
        i = i + 1;
    }
    false
}

/// The directories once some have been taken out and others added.
pub fn change_roots(roots: &Vec<String>, removed: &Vec<String>, added: &Vec<String>) -> (r: Vec<
    String,
>)
    ensures
        texts(r@) == changed(texts(roots@), texts(removed@), texts(added@)),
{
    let ghost old_roots = texts(roots@);
    let ghost gone = texts(removed@);
    let ghost keep = |root: Seq<char>| !is_among(gone, root);
    let mut out: Vec<String> = Vec::new();
    let mut i: usize = 0;
    proof {
        reveal(Seq::filter);
        assert(texts(out@) =~= old_roots.take(0).filter(keep));
    }
    while i < roots.len()
        invariant
            i <= roots@.len(),
            old_roots == texts(roots@),
            gone == texts(removed@),
            keep == (|root: Seq<char>| !is_among(gone, root)),
            texts(out@) == old_roots.take(i as int).filter(keep),
        decreases roots@.len() - i,
    {
        proof {
            reveal(Seq::filter);
            assert(old_roots.take(i + 1).drop_last() =~= old_roots.take(i as int));
            assert(old_roots.take(i + 1).last() == roots@[i as int]@);
        }
        if !is_path_among(removed, roots[i].as_str()) {
            let root = roots[i].clone();
            proof {
                texts_push(out@, root);
            }
            out.push(root);
        }
        i = i + 1;
    }
    let ghost kept = texts(out@);
    let ghost more = texts(added@);
    proof {
        assert(old_roots.take(old_roots.len() as int) =~= old_roots);
        assert(kept == without(old_roots, gone));
        assert(more.take(0) =~= Seq::<Seq<char>>::empty());
    }
    let mut k: usize = 0;
    while k < added.len()
        invariant
            k <= added@.len(),
            more == texts(added@),
            texts(out@) == with_added(kept, more.take(k as int)),
        decreases added@.len() - k,
    {
        proof {
            assert(more.take(k + 1).drop_last() =~= more.take(k as int));
            assert(more.take(k + 1).last() == added@[k as int]@);
        }
        if !is_listed(&out, added[k].as_str()) {
            let path = added[k].clone();
            proof {
                texts_push(out@, path);
            }
            out.push(path);
        }
        k = k + 1;
    }
    proof {
        assert(more.take(more.len() as int) =~= more);
    }
    out
}

/// The innermost directory is one of those given and holds the path, and every other that holds
/// the path holds it too. There is none exactly where none holds the path.
pub proof fn innermost_root_wins(roots: Seq<Seq<char>>, path: Seq<char>)
    ensures
        innermost(roots, path) is Some <==> exists|i: int|
            0 <= i < roots.len() && starts_with(path, #[trigger] roots[i]),
        innermost(roots, path) matches Some(best) ==> {
            &&& roots.contains(best)
            &&& starts_with(path, best)
            &&& forall|i: int|
                0 <= i < roots.len() && starts_with(path, #[trigger] roots[i]) ==> starts_with(
                    best,
                    roots[i],
                )
        },
    decreases roots.len(),
{
    if roots.len() > 0 {
        let others = roots.drop_last();
        let last = roots.last();
        innermost_root_wins(others, path);
        assert forall|i: int| 0 <= i < others.len() implies #[trigger] roots[i] == others[i] by {}
        if starts_with(path, last) {
            assert(starts_with(path, roots[roots.len() - 1]));
        }
        if innermost(roots, path) is Some {
            let best = innermost(roots, path)->0;
            if best == last {
                assert(roots[roots.len() - 1] == best);
            } else {
                let j = choose|j: int| 0 <= j < others.len() && others[j] == best;
                assert(roots[j] == best);
            }
            assert forall|i: int|
                0 <= i < roots.len() && starts_with(path, #[trigger] roots[i]) implies starts_with(
                best,
                roots[i],
            ) by {
                if i < others.len() {
                    let found = innermost(others, path)->0;
                    assert(starts_with(path, others[i]));
                    assert(starts_with(found, others[i]));
                }
                shorter_prefix(components(roots[i]), components(best), components(path));
            }
        }
    }
}

proof fn shorter_prefix<A>(a: Seq<A>, b: Seq<A>, whole: Seq<A>)
    requires
        a.is_prefix_of(whole),
        b.is_prefix_of(whole),
        a.len() <= b.len(),
    ensures
        a.is_prefix_of(b),
{
    assert(b.subrange(0, a.len() as int) =~= a) by {
        assert forall|k: int| 0 <= k < a.len() implies b[k] == a[k] by {
            assert(whole.subrange(0, a.len() as int)[k] == a[k]);
            assert(whole.subrange(0, b.len() as int)[k] == b[k]);
        }
    }
}

/// Where the program knows its own directory, there is somewhere to run the linter, whatever the
/// client sends.
pub proof fn there_is_somewhere_to_run(
    folders: Seq<Seq<char>>,
    root: Option<Seq<char>>,
    cwd: Seq<char>,
)
    ensures
        opened(folders, root, Some(cwd)).len() > 0,
{
}

proof fn added_at_the_end(roots: Seq<Seq<char>>, added: Seq<Seq<char>>)
    ensures
        roots.is_prefix_of(with_added(roots, added)),
        forall|i: int|
            roots.len() <= i < with_added(roots, added).len() ==> added.contains(
                #[trigger] with_added(roots, added)[i],
            ),
    decreases added.len(),
{
    let all = with_added(roots, added);
    if added.len() > 0 {
        let others = added.drop_last();
        let front = with_added(roots, others);
        added_at_the_end(roots, others);
        assert(all.subrange(0, roots.len() as int) =~= front.subrange(0, roots.len() as int));
        assert forall|i: int| roots.len() <= i < all.len() implies added.contains(
            #[trigger] all[i],
        ) by {
            if i < front.len() {
                assert(all[i] == front[i]);
                let j = choose|j: int| 0 <= j < others.len() && others[j] == front[i];
                assert(added[j] == all[i]);
            } else {
                assert(added[added.len() - 1] == all[i]);
            }
        }
    } else {
        assert(all.subrange(0, roots.len() as int) =~= roots);
    }
}

/// A directory that was taken out is not there any more, unless it was added again.
pub proof fn removed_folders_are_gone(
    roots: Seq<Seq<char>>,
    removed: Seq<Seq<char>>,
    added: Seq<Seq<char>>,
    path: Seq<char>,
)
    requires
        is_among(removed, path),
        !is_among(added, path),
    ensures
        !is_among(changed(roots, removed, added), path),
{
    broadcast use Seq::lemma_filter_pred;

    let kept = without(roots, removed);
    let all = changed(roots, removed, added);
    added_at_the_end(kept, added);
    if is_among(all, path) {
        let i = choose|i: int| 0 <= i < all.len() && same_path(path, #[trigger] all[i]);
        if i < kept.len() {
            assert(all.subrange(0, kept.len() as int)[i] == kept[i]);
            let k = choose|k: int| 0 <= k < removed.len() && same_path(path, #[trigger] removed[k]);
            assert(same_path(kept[i], removed[k]));
            assert(is_among(removed, kept[i]));
        } else {
            let k = choose|k: int| 0 <= k < added.len() && added[k] == all[i];
            assert(same_path(path, added[k]));
        }
    }
}

/// A directory that was added is there.
pub proof fn added_folders_are_there(
    roots: Seq<Seq<char>>,
    removed: Seq<Seq<char>>,
    added: Seq<Seq<char>>,
    path: Seq<char>,
)
    requires
        added.contains(path),
    ensures
        changed(roots, removed, added).contains(path),
{
    each_added_is_there(without(roots, removed), added, path);
}

proof fn each_added_is_there(roots: Seq<Seq<char>>, added: Seq<Seq<char>>, path: Seq<char>)
    requires
        added.contains(path),
    ensures
        with_added(roots, added).contains(path),
    decreases added.len(),
{
    let others = added.drop_last();
    let front = with_added(roots, others);
    let all = with_added(roots, added);
    if path == added.last() {
        if !front.contains(path) {
            assert(all[front.len() as int] == path);
        }
    } else {
        let k = choose|k: int| 0 <= k < added.len() && added[k] == path;
        assert(others[k] == path);
        each_added_is_there(roots, others, path);
        let j = choose|j: int| 0 <= j < front.len() && front[j] == path;
        assert(all[j] == path);
    }
}

/// A directory that was not taken out stays; those that stay come first, in their order.
pub proof fn other_folders_stay(
    roots: Seq<Seq<char>>,
    removed: Seq<Seq<char>>,
    added: Seq<Seq<char>>,
)
    ensures
        without(roots, removed).is_prefix_of(changed(roots, removed, added)),
        forall|i: int|
            0 <= i < roots.len() && !is_among(removed, roots[i]) ==> changed(
                roots,
                removed,
                added,
            ).contains(#[trigger] roots[i]),
{
    let kept = without(roots, removed);
    let all = changed(roots, removed, added);
    let keep = |root: Seq<char>| !is_among(removed, root);
    added_at_the_end(kept, added);
    assert forall|i: int| 0 <= i < roots.len() && !is_among(removed, roots[i]) implies all.contains(
        #[trigger] roots[i],
    ) by {
        roots.lemma_filter_contains(keep, i);
        let k = choose|k: int| 0 <= k < kept.len() && kept[k] == roots[i];
        assert(all.subrange(0, kept.len() as int)[k] == kept[k]);
        assert(all[k] == roots[i]);
    }
}

/// A change of folders lists none twice.
pub proof fn no_folder_is_listed_twice(
    roots: Seq<Seq<char>>,
    removed: Seq<Seq<char>>,
    added: Seq<Seq<char>>,
)
    requires
        roots.no_duplicates(),
    ensures
        changed(roots, removed, added).no_duplicates(),
{
    filter_keeps_distinct(roots, |root: Seq<char>| !is_among(removed, root));
    adding_keeps_distinct(without(roots, removed), added);
}

proof fn filter_keeps_distinct<A>(s: Seq<A>, keep: spec_fn(A) -> bool)
    requires
        s.no_duplicates(),
    ensures
        s.filter(keep).no_duplicates(),
        forall|x: A| s.filter(keep).contains(x) ==> #[trigger] s.contains(x),
    decreases s.len(),
{
    reveal(Seq::filter);
    if s.len() > 0 {
        let front = s.drop_last();
        filter_keeps_distinct(front, keep);
        let out = s.filter(keep);
        assert forall|x: A| out.contains(x) implies #[trigger] s.contains(x) by {
            let k = choose|k: int| 0 <= k < out.len() && out[k] == x;
            if k < front.filter(keep).len() {
                assert(front.filter(keep)[k] == x);
                assert(front.contains(x));
                let j = choose|j: int| 0 <= j < front.len() && front[j] == x;
                assert(s[j] == x);
            } else {
                assert(s[s.len() - 1] == x);
            }
        }
        if keep(s.last()) && front.filter(keep).contains(s.last()) {
            assert(front.contains(s.last()));
        }
    }
}

proof fn adding_keeps_distinct(roots: Seq<Seq<char>>, added: Seq<Seq<char>>)
    requires
        roots.no_duplicates(),
    ensures
        with_added(roots, added).no_duplicates(),
    decreases added.len(),
{
    if added.len() > 0 {
        adding_keeps_distinct(roots, added.drop_last());
    }
}

/// Of the directories that hold a path, the one with the most components is taken; of several with
/// as many, the one whose text is longest in bytes, and of these the last.
pub proof fn deepest_then_longest_then_last(roots: Seq<Seq<char>>, path: Seq<char>)
    ensures
        innermost(roots, path) is None <==> forall|i: int|
            0 <= i < roots.len() ==> !starts_with(path, #[trigger] roots[i]),
        innermost(roots, path) matches Some(best) ==> exists|k: int|
            {
                &&& 0 <= k < roots.len()
                &&& #[trigger] roots[k] == best
                &&& starts_with(path, best)
                &&& forall|i: int|
                    0 <= i < roots.len() && i != k && starts_with(path, #[trigger] roots[i]) ==> {
                        ||| components(roots[i]).len() < components(best).len()
                        ||| {
                            &&& components(roots[i]).len() == components(best).len()
                            &&& encode_utf8(roots[i]).len() < encode_utf8(best).len()
                        }
                        ||| {
                            &&& components(roots[i]).len() == components(best).len()
                            &&& encode_utf8(roots[i]).len() == encode_utf8(best).len()
                            &&& i < k
                        }
                    }
            },
    decreases roots.len(),
{
    if roots.len() > 0 {
        let others = roots.drop_last();
        let last = roots.last();
        let n = roots.len() - 1;
        deepest_then_longest_then_last(others, path);
        assert forall|i: int| 0 <= i < others.len() implies #[trigger] roots[i] == others[i] by {}
        if innermost(others, path) is None && !starts_with(path, last) {
            assert forall|i: int| 0 <= i < roots.len() implies !starts_with(
                path,
                #[trigger] roots[i],
            ) by {
                if i < n {
                    assert(others[i] == roots[i]);
                }
            }
        }
        if innermost(roots, path) is Some {
            let best = innermost(roots, path)->0;
            let k = if innermost(others, path) is None {
                n
            } else {
                let found = innermost(others, path)->0;
                let j = choose|j: int|
                    {
                        &&& 0 <= j < others.len()
                        &&& #[trigger] others[j] == found
                        &&& starts_with(path, found)
                        &&& forall|i: int|
                            0 <= i < others.len() && i != j && starts_with(
                                path,
                                #[trigger] others[i],
                            ) ==> {
                                ||| components(others[i]).len() < components(found).len()
                                ||| {
                                    &&& components(others[i]).len() == components(found).len()
                                    &&& encode_utf8(others[i]).len() < encode_utf8(found).len()
                                }
                                ||| {
                                    &&& components(others[i]).len() == components(found).len()
                                    &&& encode_utf8(others[i]).len() == encode_utf8(found).len()
                                    &&& i < j
                                }
                            }
                    };
                if starts_with(path, last) && no_higher(last, found) {
                    n
                } else {
                    j
                }
            };
            assert(roots[k] == best);
            assert forall|i: int|
                0 <= i < roots.len() && i != k && starts_with(path, #[trigger] roots[i]) implies {
                ||| components(roots[i]).len() < components(best).len()
                ||| {
                    &&& components(roots[i]).len() == components(best).len()
                    &&& encode_utf8(roots[i]).len() < encode_utf8(best).len()
                }
                ||| {
                    &&& components(roots[i]).len() == components(best).len()
                    &&& encode_utf8(roots[i]).len() == encode_utf8(best).len()
                    &&& i < k
                }
            } by {
                if i < n {
                    assert(others[i] == roots[i]);
                    assert(starts_with(path, others[i]));
                }
            }
        } else {
            assert(!starts_with(path, roots[n]));
            assert forall|i: int| 0 <= i < roots.len() implies !starts_with(
                path,
                #[trigger] roots[i],
            ) by {
                if i < n {
                    assert(others[i] == roots[i]);
                }
            }
        }
    }
}

/// The files of addresses are those of the addresses that stand for one, in their order.
pub proof fn each_address_with_a_file_counts(front: Seq<Uri>, uri: Uri)
    ensures
        file_paths(Seq::empty()) == Seq::<Seq<char>>::empty(),
        uri.file_path matches Some(path) ==> file_paths(front.push(uri)) == file_paths(front).push(
            path@,
        ),
        uri.file_path is None ==> file_paths(front.push(uri)) == file_paths(front),
{
    assert(front.push(uri).drop_last() =~= front);
    assert(file_paths(Seq::empty()) =~= Seq::<Seq<char>>::empty());
    if let Some(path) = uri.file_path {
        assert(file_paths(front.push(uri)) =~= file_paths(front).push(path@));
    }
}

/// A client works in all of its folders, in their order; in its root only where it has no folder,
/// and in the program's directory only where it has neither.
pub proof fn folders_come_before_the_root(
    folders: Seq<Seq<char>>,
    root: Option<Seq<char>>,
    cwd: Option<Seq<char>>,
)
    ensures
        folders.len() > 0 ==> opened(folders, root, cwd) == folders,
        folders.len() == 0 && root is Some ==> opened(folders, root, cwd) == seq![root->0],
        folders.len() == 0 && root is None && cwd is Some ==> opened(folders, root, cwd) == seq![
            cwd->0,
        ],
        folders.len() == 0 && root is None && cwd is None ==> opened(folders, root, cwd).len() == 0,
{
}

/// A directory stays exactly where no directory that is taken out is the same path, and those that
/// stay keep their order.
pub proof fn only_the_same_path_is_taken_out(
    front: Seq<Seq<char>>,
    root: Seq<char>,
    removed: Seq<Seq<char>>,
)
    ensures
        without(Seq::empty(), removed) == Seq::<Seq<char>>::empty(),
        (exists|i: int| 0 <= i < removed.len() && same_path(root, #[trigger] removed[i]))
            ==> without(front.push(root), removed) == without(front, removed),
        (forall|i: int| 0 <= i < removed.len() ==> !same_path(root, #[trigger] removed[i]))
            ==> without(front.push(root), removed) == without(front, removed).push(root),
{
    reveal(Seq::filter);
    assert(front.push(root).drop_last() =~= front);
}

/// A directory is added behind the others exactly where none has its text.
pub proof fn only_a_new_text_is_added(
    roots: Seq<Seq<char>>,
    added: Seq<Seq<char>>,
    path: Seq<char>,
)
    ensures
        with_added(roots, Seq::empty()) == roots,
        (exists|i: int|
            0 <= i < with_added(roots, added).len() && #[trigger] with_added(roots, added)[i]
                == path) ==> with_added(roots, added.push(path)) == with_added(roots, added),
        (forall|i: int|
            0 <= i < with_added(roots, added).len() ==> #[trigger] with_added(roots, added)[i]
                != path) ==> with_added(roots, added.push(path)) == with_added(roots, added).push(
            path,
        ),
{
    assert(added.push(path).drop_last() =~= added);
}

/// Folders are taken out first, and then others are added.
pub proof fn removals_come_before_additions(
    roots: Seq<Seq<char>>,
    removed: Seq<Seq<char>>,
    added: Seq<Seq<char>>,
)
    ensures
        changed(roots, removed, added) == with_added(without(roots, removed), added),
{
}

} // verus!
