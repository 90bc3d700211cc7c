//! Directories of styles, vocabularies and rules.

use crate::disk::{
    all_have_paths, is_dir, lists_no_empty_path, DirItem, Disk, ItemModel, Node, NodeModel,
};
use crate::error::Error;
use crate::path::{
    components, extension, file_name, join, join_adds_component, names_something, path_extension,
    path_file_name, path_join, starts_with,
};
use crate::text::{same_text, texts};
use crate::vocab::{add_term, lines, only_a_whole_line_keeps_a_term_out, with_term};
use vstd::prelude::*;

verus! {

/// What an entry is.
#[derive(Debug, Clone, Copy, PartialEq, Eq, Structural)]
pub enum EntryType {
    Style,
    Vocab,
    Rule,
}

/// Something found in a styles directory.
#[derive(Debug)]
pub struct PathEntry {
    pub name: String,
    pub size: usize,
    pub path: String,
    pub kind: EntryType,
}

/// One or more directories of styles, from the most general to the most specific.
#[derive(Debug)]
pub struct StylesPath {
    roots: Vec<String>,
}

/// What adding a term to a vocabulary asks for: that the directory be there, and that the file
/// hold the content, where there is one to write.
#[derive(Debug)]
pub struct VocabUpdate {
    pub dir: String,
    pub file: String,
    pub content: Option<String>,
}

/// The model of a [`PathEntry`].
pub ghost struct EntryModel {
    pub name: Seq<char>,
    pub size: nat,
    pub path: Seq<char>,
    pub kind: EntryType,
}

/// What going through directories comes to.
pub ghost enum Walk {
    /// The entries, in the order in which they are found.
    Done(Seq<EntryModel>),
    /// Something could not be read, and why.
    Failed(Seq<char>),
    /// The size of a style could not be told, because its directory cannot be read.
    Unsized,
}

impl View for PathEntry {
    type V = EntryModel;

    open spec fn view(&self) -> EntryModel {
        EntryModel {
            name: self.name@,
            size: self.size as nat,
            path: self.path@,
            kind: self.kind,
        }
    }
}

impl View for StylesPath {
    type V = Seq<Seq<char>>;

    closed spec fn view(&self) -> Seq<Seq<char>> {
        texts(self.roots@)
    }
}

/// The models of a list of entries.
pub open spec fn entries_of(list: Seq<PathEntry>) -> Seq<EntryModel> {
    list.map_values(|e: PathEntry| e@)
}

/// The name of the entry at `path`: its file name, or nothing where it has none.
pub open spec fn name_of(path: Seq<char>) -> Seq<char> {
    match file_name(path) {
        Some(name) => name,
        None => Seq::empty(),
    }
}

/// The entry that an item of a directory of vocabularies or of a style makes, if any: a YAML file
/// always, a directory among vocabularies.
pub open spec fn item_entry(
    disk: Map<Seq<char>, NodeModel>,
    item: ItemModel,
    kind: EntryType,
) -> Option<EntryModel> {
    match item {
        ItemModel::Path(path) => if extension(path) == Some("yml"@) || (is_dir(disk, path) && kind
            == EntryType::Vocab) {
            Some(EntryModel { name: name_of(path), size: 0, path, kind })
        } else {
            None
        },
        ItemModel::Failed(_) => None,
    }
}

/// The entries in the directory at `path`.
pub open spec fn dir_walk(
    disk: Map<Seq<char>, NodeModel>,
    path: Seq<char>,
    kind: EntryType,
) -> Walk {
    match disk[path] {
        NodeModel::Directory(items) => Walk::Done(
            items.filter_map(|item: ItemModel| item_entry(disk, item, kind)),
        ),
        NodeModel::Unreadable(why) => Walk::Failed(why),
        _ => Walk::Done(Seq::empty()),
    }
}

/// The entries at `path`, an item of a styles directory: the vocabularies of `config` and of
/// `Vocab`; of any other directory but `.vale-config`, the style and its rules.
pub open spec fn item_walk(disk: Map<Seq<char>, NodeModel>, path: Seq<char>) -> Walk {
    let name = name_of(path);
    if name == ".vale-config"@ || !is_dir(disk, path) {
        Walk::Done(Seq::empty())
    } else if name == "config"@ {
        let vocab = join(path, "vocabularies"@);
        if is_dir(disk, vocab) {
            dir_walk(disk, vocab, EntryType::Vocab)
        } else {
            Walk::Done(Seq::empty())
        }
    } else if name == "Vocab"@ {
        dir_walk(disk, path, EntryType::Vocab)
    } else {
        match disk[path] {
            NodeModel::Directory(items) => followed_by(
                seq![EntryModel { name, size: items.len(), path, kind: EntryType::Style }],
                dir_walk(disk, path, EntryType::Rule),
            ),
            _ => Walk::Unsized,
        }
    }
}

/// Entries, and behind them those of a further walk, where it succeeds.
pub open spec fn followed_by(front: Seq<EntryModel>, walk: Walk) -> Walk {
    match walk {
        Walk::Done(rest) => Walk::Done(front + rest),
        other => other,
    }
}

/// One walk, and where it succeeds another.
pub open spec fn and_next(first: Walk, second: Walk) -> Walk {
    match first {
        Walk::Done(front) => followed_by(front, second),
        other => other,
    }
}

/// The entries of the items of a styles directory, up to the first that cannot be read.
pub open spec fn items_walk(disk: Map<Seq<char>, NodeModel>, items: Seq<ItemModel>) -> Walk
    decreases items.len(),
{
    if items.len() == 0 {
        Walk::Done(Seq::empty())
    } else {
        and_next(
            items_walk(disk, items.drop_last()),
            match items.last() {
                ItemModel::Path(path) => item_walk(disk, path),
                ItemModel::Failed(why) => Walk::Failed(why),
            },
        )
    }
}

/// The entries of a styles directory; none where there is no such directory.
pub open spec fn root_walk(disk: Map<Seq<char>, NodeModel>, root: Seq<char>) -> Walk {
    if !is_dir(disk, root) {
        Walk::Done(Seq::empty())
    } else {
        match disk[root] {
            NodeModel::Directory(items) => items_walk(disk, items),
            NodeModel::Unreadable(why) => Walk::Failed(why),
            _ => Walk::Done(Seq::empty()),
        }
    }
}

/// The entries of a list of styles directories, those of the last directory first.
pub open spec fn roots_walk(disk: Map<Seq<char>, NodeModel>, roots: Seq<Seq<char>>) -> Walk
    decreases roots.len(),
{
    if roots.len() == 0 {
        Walk::Done(Seq::empty())
    } else {
        and_next(root_walk(disk, roots.last()), roots_walk(disk, roots.drop_last()))
    }
}

/// Whether an entry of `kind` with the name of `list[i]` stands before it.
pub open spec fn named_before(list: Seq<EntryModel>, kind: EntryType, i: int) -> bool {
    exists|j: int|
        0 <= j < i && (#[trigger] list[j]).kind == kind && list[j].name == list[i].name
}

/// The entries of `kind`, of those with one name the first alone.
pub open spec fn first_of_each(list: Seq<EntryModel>, kind: EntryType) -> Seq<EntryModel>
    decreases list.len(),
{
    if list.len() == 0 {
        Seq::empty()
    } else {
        let front = first_of_each(list.drop_last(), kind);
        if list.last().kind == kind && !named_before(list, kind, list.len() - 1) {
            front.push(list.last())
        } else {
            front
        }
    }
}

/// Whether a list of entries has one at `path`.
pub open spec fn has_path(list: Seq<EntryModel>, path: Seq<char>) -> bool {
    exists|i: int| 0 <= i < list.len() && (#[trigger] list[i]).path == path
}

/// The style that is always there.
pub open spec fn built_in_style() -> EntryModel {
    EntryModel { name: "Vale"@, size: 4, path: Seq::empty(), kind: EntryType::Style }
}

/// The directory of the vocabulary `name`: where it was kept of old, if it is there alone.
pub open spec fn vocab_dir(
    disk: Map<Seq<char>, NodeModel>,
    root: Seq<char>,
    name: Seq<char>,
) -> Seq<char> {
    let dir = join(join(join(root, "config"@), "vocabularies"@), name);
    let old_dir = join(join(root, "Vocab"@), name);
    if !is_dir(disk, dir) && is_dir(disk, old_dir) {
        old_dir
    } else {
        dir
    }
}

/// The file with the accepted or the rejected terms of a vocabulary.
pub open spec fn vocab_file(dir: Seq<char>, accept: bool) -> Seq<char> {
    join(
        dir,
        if accept {
            "accept.txt"@
        } else {
            "reject.txt"@
        },
    )
}

/// The outcome of a walk, in code.
enum Walked {
    Done(Vec<PathEntry>),
    Failed(String),
    Unsized,
}

impl View for Walked {
    type V = Walk;

    closed spec fn view(&self) -> Walk {
        match self {
            Walked::Done(list) => Walk::Done(entries_of(list@)),
            Walked::Failed(why) => Walk::Failed(why@),
            Walked::Unsized => Walk::Unsized,
        }
    }
}

impl Clone for PathEntry {
    fn clone(&self) -> (r: Self)
        ensures
            r@ == self@,
    {
        PathEntry {
            name: self.name.clone(),
            size: self.size,
            path: self.path.clone(),
            kind: self.kind,
        }
    }
}

impl EntryType {
    /// How the kind is called.
    pub fn label(&self) -> (r: String)
        ensures
            r@ == match *self {
                EntryType::Style => "Style"@,
                EntryType::Vocab => "Vocab"@,
                EntryType::Rule => "Rule"@,
            },
    {
        match self {
            EntryType::Style => "Style".to_owned(),
            EntryType::Vocab => "Vocab".to_owned(),
            EntryType::Rule => "Rule".to_owned(),
        }
    }
}

proof fn entries_push(list: Seq<PathEntry>, last: PathEntry)
    ensures
        entries_of(list.push(last)) == entries_of(list).push(last@),
{
    assert(entries_of(list.push(last)) =~= entries_of(list).push(last@));
}

proof fn entries_append(a: Seq<PathEntry>, b: Seq<PathEntry>)
    ensures
        entries_of(a + b) == entries_of(a) + entries_of(b),
{
    assert(entries_of(a + b) =~= entries_of(a) + entries_of(b));
}

/// The name of the entry at `path`.
fn entry_name(path: &str) -> (r: String)
    ensures
        r@ == name_of(path@),
{
    match path_file_name(path) {
        Some(name) => name,
        None => String::new(),
    }
}

/// The entry that an item of a directory makes.
fn entry_of(disk: &Disk, item: &DirItem, kind: EntryType) -> (r: Option<PathEntry>)
    ensures
        r is Some <==> item_entry(disk@, item@, kind) is Some,
        r matches Some(entry) ==> Some(entry@) == item_entry(disk@, item@, kind),
{
    match item {
        DirItem::Path(path) => {
            let yaml = match path_extension(path.as_str()) {
                Some(ext) => same_text(ext.as_str(), "yml"),
                None => false,
            };
            if yaml || (disk.is_dir(path.as_str()) && kind == EntryType::Vocab) {
                Some(
                    PathEntry {
                        name: entry_name(path.as_str()),
                        size: 0,
                        path: path.clone(),
                        kind,
                    },
                )
            } else {
                None
            }
        },
        DirItem::Failed(_) => None,
    }
}

/// The entries in the directory at `path`.
fn index_dir(disk: &Disk, path: &str, kind: EntryType) -> (r: Walked)
    ensures
        disk@.contains_key(path@) ==> r@ == dir_walk(disk@, path@, kind),
        !(r@ is Unsized),
{
    let mut entries: Vec<PathEntry> = Vec::new();
    match disk.get(path) {
        Some(Node::Directory(items)) => {
            let ghost f = |item: ItemModel| item_entry(disk@, item, kind);
            let ghost all = items@.map_values(|i: DirItem| i@);
            let mut i: usize = 0;
            proof {
                assert(entries_of(entries@) =~= all.take(0).filter_map(f));
            }
            while i < items.len()
                invariant
                    i <= items@.len(),
                    all == items@.map_values(|i: DirItem| i@),
                    f == (|item: ItemModel| item_entry(disk@, item, kind)),
                    entries_of(entries@) == all.take(i as int).filter_map(f),
                decreases items@.len() - i,
            {
                proof {
                    assert(all.take(i + 1).drop_last() =~= all.take(i as int));
                    assert(all.take(i + 1).last() == items@[i as int]@);
                }
                match entry_of(disk, &items[i], kind) {
                    Some(entry) => {
                        proof {
                            entries_push(entries@, entry);
                            assert(entries_of(entries@) + seq![entry@] =~= entries_of(
                                entries@,
                            ).push(entry@));
                        }
                        entries.push(entry);
                    },
                    None => {},
                }
                i = i + 1;
            }
            proof {
                assert(all.take(items@.len() as int) =~= all);
            }
            Walked::Done(entries)
        },
        Some(Node::Unreadable(why)) => Walked::Failed(why.clone()),
        _ => {
            proof {
                assert(entries_of(entries@) =~= Seq::<EntryModel>::empty());
            }
            Walked::Done(entries)
        },
    }
}

/// The entries at `path`, an item of a styles directory.
fn index_item(disk: &Disk, path: &str) -> (r: Walked)
    ensures
        r@ == item_walk(disk@, path@),
{
    let name = entry_name(path);
    if same_text(name.as_str(), ".vale-config") || !disk.is_dir(path) {
        let none: Vec<PathEntry> = Vec::new();
        proof {
            assert(entries_of(none@) =~= Seq::<EntryModel>::empty());
        }
        Walked::Done(none)
    } else if same_text(name.as_str(), "config") {
        let vocab = path_join(path, "vocabularies");
        if disk.is_dir(vocab.as_str()) {
            index_dir(disk, vocab.as_str(), EntryType::Vocab)
        } else {
            let none: Vec<PathEntry> = Vec::new();
            proof {
                assert(entries_of(none@) =~= Seq::<EntryModel>::empty());
            }
            Walked::Done(none)
        }
    } else if same_text(name.as_str(), "Vocab") {
        index_dir(disk, path, EntryType::Vocab)
    } else {
        match disk.get(path) {
            Some(Node::Directory(items)) => {
                let style = PathEntry {
                    name,
                    size: items.len(),
                    path: path.to_owned(),
                    kind: EntryType::Style,
                };
                let ghost front = style@;
                let mut entries: Vec<PathEntry> = Vec::new();
                entries.push(style);
                match index_dir(disk, path, EntryType::Rule) {
                    Walked::Done(mut rules) => {
                        proof {
                            entries_append(entries@, rules@);
                            assert(entries_of(entries@) =~= seq![front]);
                        }
                        entries.append(&mut rules);
                        Walked::Done(entries)
                    },
                    other => other,
                }
            },
            _ => Walked::Unsized,
        }
    }
}

/// The entries of the items of a styles directory.
fn index_items(disk: &Disk, items: &Vec<DirItem>) -> (r: Walked)
    ensures
        r@ == items_walk(disk@, items@.map_values(|i: DirItem| i@)),
{
    let mut entries: Vec<PathEntry> = Vec::new();
    let ghost all = items@.map_values(|i: DirItem| i@);
    let mut i: usize = 0;
    proof {
        assert(entries_of(entries@) =~= Seq::<EntryModel>::empty());
    }
    while i < items.len()
        invariant
            i <= items@.len(),
            all == items@.map_values(|i: DirItem| i@),
            items_walk(disk@, all.take(i as int)) == Walk::Done(entries_of(entries@)),
        decreases items@.len() - i,
    {
        proof {
            assert(all.take(i + 1).drop_last() =~= all.take(i as int));
            assert(all.take(i + 1).last() == items@[i as int]@);
        }
        let next = match &items[i] {
            DirItem::Path(path) => index_item(disk, path.as_str()),
            DirItem::Failed(why) => Walked::Failed(why.clone()),
        };
        match next {
            Walked::Done(mut more) => {
                proof {
                    entries_append(entries@, more@);
                }
                entries.append(&mut more);
            },
            other => {
                proof {
                    items_walk_stops(disk@, all, i + 1);
                }
                return other;
            },
        }
        i = i + 1;
    }
    proof {
        assert(all.take(items@.len() as int) =~= all);
    }
    Walked::Done(entries)
}

/// A walk that does not succeed on the first items does not succeed on more.
proof fn items_walk_stops(disk: Map<Seq<char>, NodeModel>, items: Seq<ItemModel>, k: int)
    requires
        0 <= k <= items.len(),
        !(items_walk(disk, items.take(k)) is Done),
    ensures
        items_walk(disk, items) == items_walk(disk, items.take(k)),
    decreases items.len() - k,
{
    if k == items.len() {
        assert(items.take(k) =~= items);
    } else {
        assert(items.take(k + 1).drop_last() =~= items.take(k));
        items_walk_stops(disk, items, k + 1);
    }
}

/// Whether a result is the error that something could not be read, with the reason given.
pub open spec fn is_io_error<T>(r: Result<T, Error>, why: Seq<char>) -> bool {
    r matches Err(Error::Io(said)) && said@ == why
}

impl StylesPath {
    /// What going through the directories comes to.
    pub open spec fn walk(&self, disk: &Disk) -> Walk {
        roots_walk(disk@, self@)
    }

    /// The styles directories `roots`, from the most general to the most specific.
    pub fn new(roots: Vec<String>) -> (r: StylesPath)
        ensures
            r@ == texts(roots@),
    {
        StylesPath { roots }
    }

    /// Leaves `path` as the only directory.
    pub fn set_path(&mut self, path: String)
        ensures
            final(self)@ == seq![path@],
    {
        self.roots = vec![path];
        proof {
            assert(texts(self.roots@) =~= seq![path@]);
        }
    }

    /// The directory of the project itself: the last that is searched.
    pub fn path(&self) -> (r: String)
        ensures
            r@ == if self@.len() > 0 {
                self@.last()
            } else {
                Seq::empty()
            },
    {
        if self.roots.len() > 0 {
            self.roots[self.roots.len() - 1].clone()
        } else {
            String::new()
        }
    }

    /// The entries of all directories, those of the last first.
    fn walked(&self, disk: &Disk) -> (r: Walked)
        ensures
            r@ == self.walk(disk),
    {
        let mut entries: Vec<PathEntry> = Vec::new();
        let mut i: usize = self.roots.len();
        proof {
            assert(entries_of(entries@) =~= Seq::<EntryModel>::empty());
            assert(self@.take(self@.len() as int) =~= self@);
            followed_by_nothing(roots_walk(disk@, self@));
        }
        while i > 0
            invariant
                i <= self.roots@.len(),
                self@ == texts(self.roots@),
                self.walk(disk) == followed_by(
                    entries_of(entries@),
                    roots_walk(disk@, self@.take(i as int)),
                ),
            decreases i,
        {
            let root = self.roots[i - 1].as_str();
            proof {
                assert(self@.take(i as int).drop_last() =~= self@.take(i - 1));
                assert(self@.take(i as int).last() == root@);
            }
            match disk.get(root) {
                Some(Node::Directory(items)) => {
                    match index_items(disk, items) {
                        Walked::Done(mut more) => {
                            proof {
                                entries_append(entries@, more@);
                                followed_by_twice(
                                    entries_of(entries@),
                                    entries_of(more@),
                                    roots_walk(disk@, self@.take(i - 1)),
                                );
                            }
                            entries.append(&mut more);
                        },
                        other => {
                            return other;
                        },
                    }
                },
                Some(Node::Unreadable(why)) => {
                    return Walked::Failed(why.clone());
                },
                _ => {
                    proof {
                        followed_by_nothing(roots_walk(disk@, self@.take(i - 1)));
                    }
                },
            }
            i = i - 1;
        }
        proof {
            assert(self@.take(0) =~= Seq::<Seq<char>>::empty());
            assert(entries_of(entries@) + Seq::<EntryModel>::empty() =~= entries_of(entries@));
        }
        Walked::Done(entries)
    }

    /// Whether the size of every style that is come across can be told.
    pub fn readable(&self, disk: &Disk) -> (r: bool)
        ensures
            r == !(self.walk(disk) is Unsized),
    {
        match self.walked(disk) {
            Walked::Unsized => false,
            _ => true,
        }
    }

    /// The entries of all directories, those of the last first.
    pub fn index(&self, disk: &Disk) -> (r: Result<Vec<PathEntry>, Error>)
        requires
            !(self.walk(disk) is Unsized),
        ensures
            self.walk(disk) matches Walk::Done(list) ==> r is Ok && entries_of(r->Ok_0@) == list,
            self.walk(disk) matches Walk::Failed(why) ==> is_io_error(r, why),
    {
        match self.walked(disk) {
            Walked::Done(entries) => Ok(entries),
            Walked::Failed(why) => Err(Error::Io(why)),
            Walked::Unsized => Ok(Vec::new()),
        }
    }

    /// How many entries of `kind` there are, counting each time a name occurs.
    pub fn count(&self, disk: &Disk, kind: EntryType) -> (r: Result<usize, Error>)
        requires
            !(self.walk(disk) is Unsized),
        ensures
            self.walk(disk) matches Walk::Done(list) ==> r is Ok && r->Ok_0 as nat == list.filter(
                |e: EntryModel| e.kind == kind,
            ).len(),
            self.walk(disk) matches Walk::Failed(why) ==> is_io_error(r, why),
    {
        let entries = match self.index(disk) {
            Ok(entries) => entries,
            Err(e) => {
                return Err(e);
            },
        };
        let ghost list = entries_of(entries@);
        let ghost keep = |e: EntryModel| e.kind == kind;
        let mut n: usize = 0;
        let mut i: usize = 0;
        proof {
            reveal(Seq::filter);
            assert(list.take(0).filter(keep).len() == 0);
        }
        while i < entries.len()
            invariant
                n <= i <= entries@.len(),
                list == entries_of(entries@),
                keep == (|e: EntryModel| e.kind == kind),
                n == list.take(i as int).filter(keep).len(),
            decreases entries@.len() - i,
        {
            proof {
                reveal(Seq::filter);
                assert(list.take(i + 1).drop_last() =~= list.take(i as int));
                assert(list.take(i + 1).last() == entries@[i as int]@);
            }
            if entries[i].kind == kind {
                n = n + 1;
            }
            i = i + 1;
        }
        proof {
            assert(list.take(list.len() as int) =~= list);
        }
        Ok(n)
    }

    /// Whether the entry at `path` is one of this library's.
    pub fn has(&self, disk: &Disk, path: &str) -> (r: Result<bool, Error>)
        requires
            !(self.walk(disk) is Unsized),
        ensures
            self.walk(disk) matches Walk::Done(list) ==> r is Ok && r->Ok_0 == has_path(
                list,
                path@,
            ),
            self.walk(disk) matches Walk::Failed(why) ==> is_io_error(r, why),
            self.walk(disk) matches Walk::Done(list) ==> (r->Ok_0 <==> exists|i: int|
                0 <= i < list.len() && (#[trigger] list[i]).path == path@),
            self.walk(disk) is Done && path@.len() == 0 ==> r is Ok && !r->Ok_0,
            self@.len() == 0 ==> r is Ok && !r->Ok_0,
    {
        proof {
            use_type_invariant(disk);
            roots_walk_finds_paths(disk@, self@);
            if path@.len() == 0 {
                assert(path@ =~= Seq::<char>::empty());
            }
        }
        let entries = match self.index(disk) {
            Ok(entries) => entries,
            Err(e) => {
                return Err(e);
            },
        };
        let ghost list = entries_of(entries@);
        let mut i: usize = 0;
        while i < entries.len()
            invariant
                i <= entries@.len(),
                list == entries_of(entries@),
                self.walk(disk) == Walk::Done(list),
                path@.len() == 0 ==> !has_path(list, path@),
                forall|j: int| 0 <= j < i ==> (#[trigger] list[j]).path != path@,
            decreases entries@.len() - i,
        {
            proof {
                assert(list[i as int] == entries@[i as int]@);
            }
            if same_text(entries[i].path.as_str(), path) {
                proof {
                    assert(has_path(list, path@));
                }
                return Ok(true);
            }
            i = i + 1;
        }
        Ok(false)
    }

    /// The entries of `kind`; where a name occurs more than once, the most specific alone.
    pub fn get(&self, disk: &Disk, kind: EntryType) -> (r: Result<Vec<PathEntry>, Error>)
        requires
            !(self.walk(disk) is Unsized),
        ensures
            self.walk(disk) matches Walk::Done(list) ==> r is Ok && entries_of(r->Ok_0@)
                == first_of_each(list, kind),
            self.walk(disk) matches Walk::Failed(why) ==> is_io_error(r, why),
    {
        let entries = match self.index(disk) {
            Ok(entries) => entries,
            Err(e) => {
                return Err(e);
            },
        };
        let ghost list = entries_of(entries@);
        let mut out: Vec<PathEntry> = Vec::new();
        let mut i: usize = 0;
        proof {
            assert(entries_of(out@) =~= first_of_each(list.take(0), kind));
        }
        while i < entries.len()
            invariant
                i <= entries@.len(),
                list == entries_of(entries@),
                entries_of(out@) == first_of_each(list.take(i as int), kind),
            decreases entries@.len() - i,
        {
            let entry = &entries[i];
            proof {
                assert(list.take(i + 1).drop_last() =~= list.take(i as int));
                assert(list.take(i + 1).last() == entry@);
            }
            if entry.kind == kind && !seen(&entries, i, kind) {
                let kept = entry.clone();
                proof {
                    entries_push(out@, kept);
                }
                out.push(kept);
            }
            i = i + 1;
        }
        proof {
            assert(list.take(list.len() as int) =~= list);
        }
        Ok(out)
    }

    /// The vocabularies; of those with one name the most specific alone.
    pub fn get_vocab(&self, disk: &Disk) -> (r: Result<Vec<PathEntry>, Error>)
        requires
            !(self.walk(disk) is Unsized),
        ensures
            self.walk(disk) matches Walk::Done(list) ==> r is Ok && entries_of(r->Ok_0@)
                == first_of_each(list, EntryType::Vocab),
            self.walk(disk) matches Walk::Failed(why) ==> is_io_error(r, why),
    {
        self.get(disk, EntryType::Vocab)
    }

    /// The built-in style, and behind it the styles that are found; of those with one name the
    /// most specific alone.
    pub fn get_styles(&self, disk: &Disk) -> (r: Result<Vec<PathEntry>, Error>)
        requires
            !(self.walk(disk) is Unsized),
        ensures
            self.walk(disk) matches Walk::Done(list) ==> r is Ok && entries_of(r->Ok_0@) == seq![
                built_in_style(),
            ] + first_of_each(list, EntryType::Style),
            self.walk(disk) matches Walk::Failed(why) ==> is_io_error(r, why),
    {
        let built_in = PathEntry {
            name: "Vale".to_owned(),
            size: 4,
            path: String::new(),
            kind: EntryType::Style,
        };
        let ghost first = built_in@;
        let mut styles: Vec<PathEntry> = Vec::new();
        styles.push(built_in);
        match self.get(disk, EntryType::Style) {
            Ok(mut found) => {
                proof {
                    entries_append(styles@, found@);
                    assert(entries_of(styles@) =~= seq![first]);
                }
                styles.append(&mut found);
                Ok(styles)
            },
            Err(e) => Err(e),
        }
    }

    /// The directory and the file that hold the accepted or the rejected terms of the vocabulary
    /// `name`.
    pub fn vocab_place(&self, disk: &Disk, name: &str, accept: bool) -> (r: (String, String))
        ensures
            r.0@ == vocab_dir(disk@, self.project_dir(), name@),
            r.1@ == vocab_file(vocab_dir(disk@, self.project_dir(), name@), accept),
    {
        let root = self.path();
        let config = path_join(root.as_str(), "config");
        let vocabularies = path_join(config.as_str(), "vocabularies");
        let mut dir = path_join(vocabularies.as_str(), name);
        if !disk.is_dir(dir.as_str()) {
            let old_dir = path_join(path_join(root.as_str(), "Vocab").as_str(), name);
            if disk.is_dir(old_dir.as_str()) {
                dir = old_dir;
            }
        }
        let file = if accept {
            path_join(dir.as_str(), "accept.txt")
        } else {
            path_join(dir.as_str(), "reject.txt")
        };
        (dir, file)
    }

    /// The directory of the project itself.
    pub open spec fn project_dir(&self) -> Seq<char> {
        if self@.len() > 0 {
            self@.last()
        } else {
            Seq::empty()
        }
    }

    /// Adds `term` to the accepted or the rejected terms of the vocabulary `name`, whose file
    /// holds `content`.
    fn add_to_vocab(
        &self,
        disk: &Disk,
        name: &str,
        term: &str,
        content: &str,
        accept: bool,
    ) -> (r: VocabUpdate)
        ensures
            self.is_update(disk, name@, term@, content@, accept, r),
    {
        let (dir, file) = self.vocab_place(disk, name, accept);
        VocabUpdate { dir, file, content: add_term(content, term) }
    }

    /// Whether `r` is what adding `term` to the vocabulary `name` asks for.
    pub open spec fn is_update(
        &self,
        disk: &Disk,
        name: Seq<char>,
        term: Seq<char>,
        content: Seq<char>,
        accept: bool,
        r: VocabUpdate,
    ) -> bool {
        let dir = vocab_dir(disk@, self.project_dir(), name);
        &&& r.dir@ == dir
        &&& r.file@ == vocab_file(dir, accept)
        &&& r.content is Some <==> with_term(content, term) is Some
        &&& r.content matches Some(new) ==> Some(new@) == with_term(content, term)
    }

    /// Adds `term` to the accepted terms of the vocabulary `name`, whose file holds `content`.
    pub fn add_to_accept(
        &self,
        disk: &Disk,
        name: &str,
        term: &str,
        content: &str,
    ) -> (r: VocabUpdate)
        ensures
            self.is_update(disk, name@, term@, content@, true, r),
    {
        self.add_to_vocab(disk, name, term, content, true)
    }

    /// Adds `term` to the rejected terms of the vocabulary `name`, whose file holds `content`.
    pub fn add_to_reject(
        &self,
        disk: &Disk,
        name: &str,
        term: &str,
        content: &str,
    ) -> (r: VocabUpdate)
        ensures
            self.is_update(disk, name@, term@, content@, false, r),
    {
        self.add_to_vocab(disk, name, term, content, false)
    }
}

/// Whether an entry of `kind` with the name of `entries[i]` stands before it.
fn seen(entries: &Vec<PathEntry>, i: usize, kind: EntryType) -> (r: bool)
    requires
        i < entries@.len(),
    ensures
        r == named_before(entries_of(entries@).take(i + 1), kind, i as int),
{
    let ghost list = entries_of(entries@).take(i + 1);
    let mut j: usize = 0;
    while j < i
        invariant
            j <= i < entries@.len(),
            list == entries_of(entries@).take(i + 1),
            forall|k: int|
                0 <= k < j ==> !((#[trigger] list[k]).kind == kind && list[k].name == list[i as int].name),
        decreases i - j,
    {
        proof {
            assert(list[j as int] == entries@[j as int]@);
            assert(list[i as int] == entries@[i as int]@);
        }
        if entries[j].kind == kind && same_text(entries[j].name.as_str(), entries[i].name.as_str())
        {
            return true;
        }
        j = j + 1;
    }
    false
}

proof fn followed_by_nothing(walk: Walk)
    ensures
        followed_by(Seq::empty(), walk) == walk,
{
    if let Walk::Done(rest) = walk {
        assert(Seq::<EntryModel>::empty() + rest =~= rest);
    }
}

proof fn followed_by_twice(a: Seq<EntryModel>, b: Seq<EntryModel>, walk: Walk)
    ensures
        followed_by(a, followed_by(b, walk)) == followed_by(a + b, walk),
{
    if let Walk::Done(rest) = walk {
        assert(a + (b + rest) =~= (a + b) + rest);
    }
}

/// Whether a list of entries has one of `kind` with the name `name`.
pub open spec fn has_name(list: Seq<EntryModel>, kind: EntryType, name: Seq<char>) -> bool {
    exists|i: int| 0 <= i < list.len() && (#[trigger] list[i]).kind == kind && list[i].name == name
}

/// Each name of a kind is reported once: what is reported has that kind and is among the entries,
/// no two have one name, and every name of the kind is there.
pub proof fn each_name_is_reported_once(list: Seq<EntryModel>, kind: EntryType)
    ensures
        forall|i: int|
            0 <= i < first_of_each(list, kind).len() ==> (#[trigger] first_of_each(
                list,
                kind,
            )[i]).kind == kind && list.contains(first_of_each(list, kind)[i]),
        forall|i: int, j: int|
            0 <= i < j < first_of_each(list, kind).len() ==> (#[trigger] first_of_each(
                list,
                kind,
            )[i]).name != (#[trigger] first_of_each(list, kind)[j]).name,
        forall|name: Seq<char>|
            #[trigger] has_name(first_of_each(list, kind), kind, name) <==> has_name(
                list,
                kind,
                name,
            ),
    decreases list.len(),
{
    let r = first_of_each(list, kind);
    if list.len() > 0 {
        let front = list.drop_last();
        let last = list.last();
        let p = first_of_each(front, kind);
        each_name_is_reported_once(front, kind);
        assert(named_before(list, kind, list.len() - 1) == has_name(front, kind, last.name)) by {
            if has_name(front, kind, last.name) {
                let k = choose|k: int|
                    0 <= k < front.len() && (#[trigger] front[k]).kind == kind && front[k].name
                        == last.name;
                assert(list[k] == front[k]);
            }
            if named_before(list, kind, list.len() - 1) {
                let k = choose|k: int|
                    0 <= k < list.len() - 1 && (#[trigger] list[k]).kind == kind && list[k].name
                        == list[list.len() - 1].name;
                assert(front[k] == list[k]);
            }
        }
        assert forall|i: int| 0 <= i < r.len() implies (#[trigger] r[i]).kind == kind
            && list.contains(r[i]) by {
            if i < p.len() {
                assert(r[i] == p[i]);
                let k = choose|k: int| 0 <= k < front.len() && front[k] == p[i];
                assert(list[k] == r[i]);
            } else {
                assert(list[list.len() - 1] == r[i]);
            }
        }
        assert forall|i: int, j: int| 0 <= i < j < r.len() implies (#[trigger] r[i]).name != (
        #[trigger] r[j]).name by {
            assert(r[i] == p[i]);
            if j < p.len() {
                assert(r[j] == p[j]);
            } else {
                assert(p[i].kind == kind);
                if p[i].name == last.name {
                    assert(has_name(p, kind, last.name));
                }
            }
        }
        assert forall|name: Seq<char>| #[trigger] has_name(r, kind, name) <==> has_name(
            list,
            kind,
            name,
        ) by {
            if has_name(r, kind, name) {
                let i = choose|i: int|
                    0 <= i < r.len() && (#[trigger] r[i]).kind == kind && r[i].name == name;
                let k = choose|k: int| 0 <= k < list.len() && list[k] == r[i];
                assert(list[k].kind == kind);
            }
            if has_name(list, kind, name) {
                let k = choose|k: int|
                    0 <= k < list.len() && (#[trigger] list[k]).kind == kind && list[k].name
                        == name;
                if k < front.len() {
                    assert(front[k] == list[k]);
                    assert(has_name(p, kind, name));
                } else if named_before(list, kind, list.len() - 1) {
                    assert(has_name(p, kind, name));
                } else {
                    assert(r[p.len() as int].kind == kind);
                }
                if has_name(p, kind, name) {
                    let i = choose|i: int|
                        0 <= i < p.len() && (#[trigger] p[i]).kind == kind && p[i].name == name;
                    assert(r[i] == p[i]);
                }
            }
        }
    }
}

/// What a further list adds: its entries of the kind with names that are not there yet.
pub open spec fn news(
    list: Seq<EntryModel>,
    more: Seq<EntryModel>,
    kind: EntryType,
) -> Seq<EntryModel>
    decreases more.len(),
{
    if more.len() == 0 {
        Seq::empty()
    } else {
        let front = news(list, more.drop_last(), kind);
        if more.last().kind == kind && !named_before(list + more, kind, (list + more).len() - 1) {
            front.push(more.last())
        } else {
            front
        }
    }
}

/// The most specific entry is the one that is kept: entries found in a more specific directory
/// are reported just as they are without the less specific ones, which come behind and add new
/// names alone.
pub proof fn most_specific_is_kept(
    specific: Seq<EntryModel>,
    general: Seq<EntryModel>,
    kind: EntryType,
)
    ensures
        first_of_each(specific + general, kind) == first_of_each(specific, kind) + news(
            specific,
            general,
            kind,
        ),
    decreases general.len(),
{
    if general.len() == 0 {
        assert(specific + general =~= specific);
        assert(first_of_each(specific, kind) + Seq::<EntryModel>::empty() =~= first_of_each(
            specific,
            kind,
        ));
    } else {
        let front = general.drop_last();
        most_specific_is_kept(specific, front, kind);
        assert((specific + general).drop_last() =~= specific + front);
        assert(first_of_each(specific + general, kind) =~= first_of_each(specific, kind) + news(
            specific,
            general,
            kind,
        ));
    }
}

/// Searching directories twice reports what searching them once does.
pub proof fn duplicates_are_reported_once(list: Seq<EntryModel>, kind: EntryType)
    ensures
        first_of_each(list + list, kind) == first_of_each(list, kind),
{
    most_specific_is_kept(list, list, kind);
    no_news(list, list, kind);
    assert(first_of_each(list, kind) + Seq::<EntryModel>::empty() =~= first_of_each(list, kind));
}

proof fn no_news(list: Seq<EntryModel>, more: Seq<EntryModel>, kind: EntryType)
    requires
        forall|i: int| 0 <= i < more.len() ==> list.contains(#[trigger] more[i]),
    ensures
        news(list, more, kind) == Seq::<EntryModel>::empty(),
    decreases more.len(),
{
    if more.len() > 0 {
        let front = more.drop_last();
        assert forall|i: int| 0 <= i < front.len() implies list.contains(#[trigger] front[i]) by {
            assert(front[i] == more[i]);
        }
        no_news(list, front, kind);
        assert(list.contains(more[more.len() - 1]));
        let k = choose|k: int| 0 <= k < list.len() && list[k] == more.last();
        let all = list + more;
        assert(all[k] == list[k]);
        assert(all[all.len() - 1] == more.last());
    }
}

/// Two lists of directories: the walk through the second comes first.
pub proof fn later_directories_come_first(
    disk: Map<Seq<char>, NodeModel>,
    front: Seq<Seq<char>>,
    back: Seq<Seq<char>>,
)
    ensures
        roots_walk(disk, front + back) == and_next(roots_walk(disk, back), roots_walk(disk, front)),
    decreases back.len(),
{
    if back.len() == 0 {
        assert(front + back =~= front);
        followed_by_nothing(roots_walk(disk, front));
    } else {
        later_directories_come_first(disk, front, back.drop_last());
        assert((front + back).drop_last() =~= front + back.drop_last());
        assert((front + back).last() == back.last());
        if let Walk::Done(a) = root_walk(disk, back.last()) {
            if let Walk::Done(b) = roots_walk(disk, back.drop_last()) {
                followed_by_twice(a, b, roots_walk(disk, front));
            }
        }
    }
}

/// A directory that is not there makes no difference.
pub proof fn missing_directories_are_skipped(
    disk: Map<Seq<char>, NodeModel>,
    front: Seq<Seq<char>>,
    missing: Seq<char>,
    back: Seq<Seq<char>>,
)
    requires
        !is_dir(disk, missing),
    ensures
        roots_walk(disk, front.push(missing) + back) == roots_walk(disk, front + back),
{
    later_directories_come_first(disk, front.push(missing), back);
    later_directories_come_first(disk, front, back);
    assert(front.push(missing).drop_last() =~= front);
    followed_by_nothing(roots_walk(disk, front));
}

/// Whether a walk comes across nothing with an empty path.
spec fn finds_paths(walk: Walk) -> bool {
    walk matches Walk::Done(list) ==> !has_path(list, Seq::empty())
}

proof fn both_find_paths(first: Walk, second: Walk)
    requires
        finds_paths(first),
        finds_paths(second),
    ensures
        finds_paths(and_next(first, second)),
{
    if let (Walk::Done(a), Walk::Done(b)) = (first, second) {
        let both = a + b;
        assert forall|i: int| 0 <= i < both.len() implies (#[trigger] both[i]).path != Seq::<
            char,
        >::empty() by {
            if i < a.len() {
                assert(both[i] == a[i]);
            } else {
                assert(both[i] == b[i - a.len()]);
            }
        }
    }
}

proof fn dir_items_have_paths(
    disk: Map<Seq<char>, NodeModel>,
    items: Seq<ItemModel>,
    kind: EntryType,
)
    requires
        all_have_paths(items),
    ensures
        !has_path(
            items.filter_map(|item: ItemModel| item_entry(disk, item, kind)),
            Seq::empty(),
        ),
    decreases items.len(),
{
    let f = |item: ItemModel| item_entry(disk, item, kind);
    if items.len() > 0 {
        let front = items.drop_last();
        assert forall|i: int| 0 <= i < front.len() implies #[trigger] front[i] != ItemModel::Path(
            Seq::empty(),
        ) by {
            assert(front[i] == items[i]);
        }
        dir_items_have_paths(disk, front, kind);
        assert(items[items.len() - 1] == items.last());
        let a = front.filter_map(f);
        let all = items.filter_map(f);
        assert forall|i: int| 0 <= i < all.len() implies (#[trigger] all[i]).path != Seq::<
            char,
        >::empty() by {
            if i < a.len() {
                assert(all[i] == a[i]);
            }
        }
    }
}

proof fn dir_walk_finds_paths(disk: Map<Seq<char>, NodeModel>, path: Seq<char>, kind: EntryType)
    requires
        lists_no_empty_path(disk),
        disk.contains_key(path),
    ensures
        finds_paths(dir_walk(disk, path, kind)),
{
    if let NodeModel::Directory(items) = disk[path] {
        dir_items_have_paths(disk, items, kind);
    }
}

proof fn items_walk_finds_paths(disk: Map<Seq<char>, NodeModel>, items: Seq<ItemModel>)
    requires
        lists_no_empty_path(disk),
        all_have_paths(items),
    ensures
        finds_paths(items_walk(disk, items)),
    decreases items.len(),
{
    if items.len() > 0 {
        let front = items.drop_last();
        assert forall|i: int| 0 <= i < front.len() implies #[trigger] front[i] != ItemModel::Path(
            Seq::empty(),
        ) by {
            assert(front[i] == items[i]);
        }
        items_walk_finds_paths(disk, front);
        assert(items[items.len() - 1] == items.last());
        let next = match items.last() {
            ItemModel::Path(path) => item_walk(disk, path),
            ItemModel::Failed(why) => Walk::Failed(why),
        };
        if let ItemModel::Path(path) = items.last() {
            if is_dir(disk, path) {
                let vocab = join(path, "vocabularies"@);
                if is_dir(disk, vocab) {
                    dir_walk_finds_paths(disk, vocab, EntryType::Vocab);
                }
                dir_walk_finds_paths(disk, path, EntryType::Vocab);
                dir_walk_finds_paths(disk, path, EntryType::Rule);
                if let NodeModel::Directory(inner) = disk[path] {
                    let style = seq![
                        EntryModel {
                            name: name_of(path),
                            size: inner.len(),
                            path,
                            kind: EntryType::Style,
                        },
                    ];
                    both_find_paths(Walk::Done(style), dir_walk(disk, path, EntryType::Rule));
                }
            }
        }
        both_find_paths(items_walk(disk, front), next);
    }
}

proof fn roots_walk_finds_paths(disk: Map<Seq<char>, NodeModel>, roots: Seq<Seq<char>>)
    requires
        lists_no_empty_path(disk),
    ensures
        finds_paths(roots_walk(disk, roots)),
    decreases roots.len(),
{
    if roots.len() > 0 {
        let root = roots.last();
        if is_dir(disk, root) {
            if let NodeModel::Directory(items) = disk[root] {
                items_walk_finds_paths(disk, items);
            }
        }
        roots_walk_finds_paths(disk, roots.drop_last());
        both_find_paths(root_walk(disk, root), roots_walk(disk, roots.drop_last()));
    }
}

/// The path of every entry that is reported is found, but for the built-in style: its path is
/// empty, and that one is not found.
pub proof fn reported_paths_are_found(
    disk: Map<Seq<char>, NodeModel>,
    roots: Seq<Seq<char>>,
    list: Seq<EntryModel>,
)
    requires
        lists_no_empty_path(disk),
        roots_walk(disk, roots) == Walk::Done(list),
    ensures
        forall|kind: EntryType, i: int|
            0 <= i < first_of_each(list, kind).len() ==> has_path(
                list,
                (#[trigger] first_of_each(list, kind)[i]).path,
            ),
        !has_path(list, Seq::empty()),
        !has_path(list, built_in_style().path),
{
    assert forall|kind: EntryType, i: int|
        0 <= i < first_of_each(list, kind).len() implies has_path(
        list,
        (#[trigger] first_of_each(list, kind)[i]).path,
    ) by {
        each_name_is_reported_once(list, kind);
        let entry = first_of_each(list, kind)[i];
        let k = choose|k: int| 0 <= k < list.len() && list[k] == entry;
        assert(list[k].path == entry.path);
    }
    roots_walk_finds_paths(disk, roots);
}

/// Without directories there are no entries, and no path is found.
pub proof fn without_directories_nothing_is_found(disk: Map<Seq<char>, NodeModel>, path: Seq<char>)
    ensures
        roots_walk(disk, Seq::empty()) == Walk::Done(Seq::<EntryModel>::empty()),
        !has_path(Seq::<EntryModel>::empty(), path),
{
}

/// The file of a vocabulary with a plain name lies below the project's directory.
pub proof fn vocab_file_lies_in_project(
    disk: Map<Seq<char>, NodeModel>,
    root: Seq<char>,
    name: Seq<char>,
    accept: bool,
)
    requires
        names_something(name),
        !name.contains('/'),
    ensures
        starts_with(vocab_file(vocab_dir(disk, root, name), accept), root),
{
    plain_names();
    let config = join(root, "config"@);
    let vocabularies = join(config, "vocabularies"@);
    let old_dir = join(root, "Vocab"@);
    join_adds_component(root, "config"@);
    join_adds_component(config, "vocabularies"@);
    join_adds_component(vocabularies, name);
    join_adds_component(root, "Vocab"@);
    join_adds_component(old_dir, name);
    let dir = vocab_dir(disk, root, name);
    join_adds_component(dir, "accept.txt"@);
    join_adds_component(dir, "reject.txt"@);
    let all = components(vocab_file(dir, accept));
    assert(all.subrange(0, components(root).len() as int) =~= components(root));
}

#[verifier::spinoff_prover]
proof fn plain_names()
    ensures
        names_something("config"@) && !"config"@.contains('/'),
        names_something("vocabularies"@) && !"vocabularies"@.contains('/'),
        names_something("Vocab"@) && !"Vocab"@.contains('/'),
        names_something("accept.txt"@) && !"accept.txt"@.contains('/'),
        names_something("reject.txt"@) && !"reject.txt"@.contains('/'),
{
    reveal_strlit("config");
    reveal_strlit("vocabularies");
    reveal_strlit("Vocab");
    reveal_strlit("accept.txt");
    reveal_strlit("reject.txt");
    assert(seq!['.'].len() == 1);
    assert("config"@.len() == 6 && "vocabularies"@.len() == 12 && "Vocab"@.len() == 5);
    assert("accept.txt"@.len() == 10 && "reject.txt"@.len() == 10);
}

/// A path is found exactly where it is the path of an entry, whatever the name and the kind of the
/// entry and whatever stands before it.
pub proof fn every_entry_is_found_by_its_path(list: Seq<EntryModel>, path: Seq<char>)
    ensures
        forall|i: int| 0 <= i < list.len() ==> has_path(list, (#[trigger] list[i]).path),
        has_path(list, path) ==> exists|i: int|
            0 <= i < list.len() && (#[trigger] list[i]).path == path,
{
}

/// An entry that no entry of its kind with its name stands before is kept.
pub proof fn first_of_a_name_is_kept(list: Seq<EntryModel>, kind: EntryType, k: int)
    requires
        0 <= k < list.len(),
        list[k].kind == kind,
        forall|j: int|
            0 <= j < k ==> !((#[trigger] list[j]).kind == kind && list[j].name == list[k].name),
    ensures
        first_of_each(list, kind).contains(list[k]),
    decreases list.len(),
{
    let r = first_of_each(list, kind);
    let front = list.drop_last();
    if k < front.len() {
        assert(front[k] == list[k]);
        assert forall|j: int| 0 <= j < k implies !((#[trigger] front[j]).kind == kind
            && front[j].name == front[k].name) by {
            assert(front[j] == list[j]);
        }
        first_of_a_name_is_kept(front, kind, k);
        let p = first_of_each(front, kind);
        let i = choose|i: int| 0 <= i < p.len() && p[i] == list[k];
        assert(r[i] == list[k]);
    } else {
        assert(!named_before(list, kind, k));
        assert(r[r.len() - 1] == list[k]);
    }
}

/// The entries that are kept are entries of the kind, in their order, and each is the first with
/// its name.
pub proof fn kept_entries_are_firsts_in_order(list: Seq<EntryModel>, kind: EntryType)
    ensures
        exists|at: Seq<int>|
            {
                &&& (#[trigger] at.len()) == first_of_each(list, kind).len()
                &&& forall|i: int|
                    0 <= i < at.len() ==> 0 <= (#[trigger] at[i]) < list.len() && list[at[i]]
                        == first_of_each(list, kind)[i] && list[at[i]].kind == kind && (forall|
                        j: int,
                    |
                        0 <= j < at[i] ==> !((#[trigger] list[j]).kind == kind && list[j].name
                            == list[at[i]].name))
                &&& forall|i: int, j: int|
                    0 <= i < j < at.len() ==> (#[trigger] at[i]) < (#[trigger] at[j])
            },
{
    let at = firsts(list, kind);
    assert(at.len() == first_of_each(list, kind).len());
}

proof fn firsts(list: Seq<EntryModel>, kind: EntryType) -> (at: Seq<int>)
    ensures
        at.len() == first_of_each(list, kind).len(),
        forall|i: int|
            0 <= i < at.len() ==> 0 <= (#[trigger] at[i]) < list.len() && list[at[i]]
                == first_of_each(list, kind)[i] && list[at[i]].kind == kind && (forall|j: int|
                0 <= j < at[i] ==> !((#[trigger] list[j]).kind == kind && list[j].name
                    == list[at[i]].name)),
        forall|i: int, j: int| 0 <= i < j < at.len() ==> (#[trigger] at[i]) < (#[trigger] at[j]),
    decreases list.len(),
{
    if list.len() == 0 {
        Seq::empty()
    } else {
        let front = list.drop_last();
        let before = firsts(front, kind);
        let n = list.len() - 1;
        let r = first_of_each(list, kind);
        let at = if list.last().kind == kind && !named_before(list, kind, n) {
            before.push(n)
        } else {
            before
        };
        assert forall|i: int| 0 <= i < at.len() implies 0 <= (#[trigger] at[i]) < list.len()
            && list[at[i]] == r[i] && list[at[i]].kind == kind && (forall|j: int|
            0 <= j < at[i] ==> !((#[trigger] list[j]).kind == kind && list[j].name
                == list[at[i]].name)) by {
            if i < before.len() {
                assert(at[i] == before[i]);
                assert(front[at[i]] == list[at[i]]);
                assert forall|j: int| 0 <= j < at[i] implies !((#[trigger] list[j]).kind == kind
                    && list[j].name == list[at[i]].name) by {
                    assert(front[j] == list[j]);
                }
            }
        }
        assert forall|i: int, j: int| 0 <= i < j < at.len() implies (#[trigger] at[i])
            < (#[trigger] at[j]) by {
            assert(at[i] == before[i]);
            if j < before.len() {
                assert(at[j] == before[j]);
            }
        }
        at
    }
}

/// Of a directory that can be read, every YAML file is an entry, and among vocabularies every
/// directory; in the order of the directory, each with its own path and file name, and nothing else
/// is.
pub proof fn every_item_of_a_directory_is_listed(
    disk: Map<Seq<char>, NodeModel>,
    path: Seq<char>,
    kind: EntryType,
    items: Seq<ItemModel>,
)
    requires
        disk[path] == NodeModel::Directory(items),
    ensures
        dir_walk(disk, path, kind) matches Walk::Done(list) && {
            &&& list.map_values(|e: EntryModel| e.path) == items.filter(
                |item: ItemModel|
                    match item {
                        ItemModel::Path(p) => extension(p) == Some("yml"@) || (kind
                            == EntryType::Vocab && is_dir(disk, p)),
                        ItemModel::Failed(_) => false,
                    },
            ).map_values(|item: ItemModel| item->Path_0)
            &&& forall|i: int|
                0 <= i < list.len() ==> (#[trigger] list[i]).kind == kind && list[i].size == 0
                    && list[i].name == match file_name(list[i].path) {
                    Some(name) => name,
                    None => Seq::empty(),
                }
        },
{
    listed_items(disk, kind, items);
}

proof fn listed_items(disk: Map<Seq<char>, NodeModel>, kind: EntryType, items: Seq<ItemModel>)
    ensures
        ({
            let list = items.filter_map(|item: ItemModel| item_entry(disk, item, kind));
            &&& list.map_values(|e: EntryModel| e.path) == items.filter(
                |item: ItemModel|
                    match item {
                        ItemModel::Path(p) => extension(p) == Some("yml"@) || (kind
                            == EntryType::Vocab && is_dir(disk, p)),
                        ItemModel::Failed(_) => false,
                    },
            ).map_values(|item: ItemModel| item->Path_0)
            &&& forall|i: int|
                0 <= i < list.len() ==> (#[trigger] list[i]).kind == kind && list[i].size == 0
                    && list[i].name == match file_name(list[i].path) {
                    Some(name) => name,
                    None => Seq::empty(),
                }
        }),
    decreases items.len(),
{
    reveal(Seq::filter);
    let f = |item: ItemModel| item_entry(disk, item, kind);
    let wanted = |item: ItemModel|
        match item {
            ItemModel::Path(p) => extension(p) == Some("yml"@) || (kind == EntryType::Vocab
                && is_dir(disk, p)),
            ItemModel::Failed(_) => false,
        };
    let path_of = |e: EntryModel| e.path;
    let inner = |item: ItemModel| item->Path_0;
    let list = items.filter_map(f);
    if items.len() == 0 {
        assert(list.map_values(path_of) =~= items.filter(wanted).map_values(inner));
    } else {
        let front = items.drop_last();
        listed_items(disk, kind, front);
        let before = front.filter_map(f);
        if let Some(e) = f(items.last()) {
            assert(list =~= before.push(e));
            assert(items.filter(wanted) =~= front.filter(wanted).push(items.last()));
            assert(list.map_values(path_of) =~= before.map_values(path_of).push(e.path));
            assert(items.filter(wanted).map_values(inner) =~= front.filter(wanted).map_values(
                inner,
            ).push(inner(items.last())));
        } else {
            assert(list =~= before);
            assert(items.filter(wanted) =~= front.filter(wanted));
        }
    }
}

/// A directory that cannot be read fails the walk, with the reason.
pub proof fn unreadable_directory_fails(
    disk: Map<Seq<char>, NodeModel>,
    path: Seq<char>,
    kind: EntryType,
    why: Seq<char>,
)
    requires
        disk.contains_key(path),
        disk[path] == NodeModel::Unreadable(why),
    ensures
        dir_walk(disk, path, kind) == Walk::Failed(why),
        roots_walk(disk, seq![path]) == Walk::Failed(why),
{
    assert(seq![path].drop_last() =~= Seq::<Seq<char>>::empty());
    assert(seq![path].last() == path);
}

/// What an item of a styles directory comes to: of `config` and `Vocab` their vocabularies, of any
/// other directory the style, with the number of its items, and then its rules; nothing of
/// `.vale-config` and of what is no directory.
pub proof fn items_come_to_styles_or_vocabularies(
    disk: Map<Seq<char>, NodeModel>,
    path: Seq<char>,
)
    ensures
        !is_dir(disk, path) ==> item_walk(disk, path) == Walk::Done(Seq::<EntryModel>::empty()),
        file_name(path) == Some(".vale-config"@) ==> item_walk(disk, path) == Walk::Done(
            Seq::<EntryModel>::empty(),
        ),
        is_dir(disk, path) && file_name(path) == Some("config"@) ==> item_walk(disk, path) == if is_dir(
            disk,
            join(path, "vocabularies"@),
        ) {
            dir_walk(disk, join(path, "vocabularies"@), EntryType::Vocab)
        } else {
            Walk::Done(Seq::<EntryModel>::empty())
        },
        is_dir(disk, path) && file_name(path) == Some("Vocab"@) ==> item_walk(disk, path)
            == dir_walk(disk, path, EntryType::Vocab),
        is_dir(disk, path) && file_name(path) != Some(".vale-config"@) && file_name(path) != Some(
            "config"@,
        ) && file_name(path) != Some("Vocab"@) ==> match disk[path] {
            NodeModel::Directory(items) => {
                &&& item_walk(disk, path) is Done
                &&& dir_walk(disk, path, EntryType::Rule) is Done
                &&& item_walk(disk, path)->Done_0 == seq![
                    EntryModel {
                        name: match file_name(path) {
                            Some(name) => name,
                            None => Seq::empty(),
                        },
                        size: items.len(),
                        path,
                        kind: EntryType::Style,
                    },
                ] + dir_walk(disk, path, EntryType::Rule)->Done_0
            },
            _ => item_walk(disk, path) is Unsized,
        },
{
    reveal_strlit(".vale-config");
    reveal_strlit("config");
    reveal_strlit("Vocab");
    assert(".vale-config"@.len() == 12 && "config"@.len() == 6 && "Vocab"@.len() == 5);
}

/// The items of a directory are gone through one after the other, up to the first that fails.
pub proof fn items_are_gone_through_in_order(
    disk: Map<Seq<char>, NodeModel>,
    front: Seq<ItemModel>,
    item: ItemModel,
)
    ensures
        items_walk(disk, Seq::empty()) == Walk::Done(Seq::<EntryModel>::empty()),
        match (items_walk(disk, front), item) {
            (Walk::Done(before), ItemModel::Path(path)) => match item_walk(disk, path) {
                Walk::Done(more) => items_walk(disk, front.push(item)) == Walk::Done(before + more),
                stopped => items_walk(disk, front.push(item)) == stopped,
            },
            (Walk::Done(before), ItemModel::Failed(why)) => items_walk(disk, front.push(item))
                == Walk::Failed(why),
            (stopped, _) => items_walk(disk, front.push(item)) == stopped,
        },
{
    assert(front.push(item).drop_last() =~= front);
}

/// The directories are gone through from the last to the first, up to one that fails; one that is
/// not there is passed over.
pub proof fn directories_are_gone_through_from_the_last(
    disk: Map<Seq<char>, NodeModel>,
    front: Seq<Seq<char>>,
    root: Seq<char>,
)
    ensures
        roots_walk(disk, Seq::empty()) == Walk::Done(Seq::<EntryModel>::empty()),
        !is_dir(disk, root) ==> roots_walk(disk, front.push(root)) == roots_walk(disk, front),
        disk.contains_key(root) ==> match disk[root] {
            NodeModel::Directory(items) => match (items_walk(disk, items), roots_walk(disk, front)) {
                (Walk::Done(first), Walk::Done(rest)) => roots_walk(disk, front.push(root))
                    == Walk::Done(first + rest),
                (Walk::Done(_), stopped) => roots_walk(disk, front.push(root)) == stopped,
                (stopped, _) => roots_walk(disk, front.push(root)) == stopped,
            },
            NodeModel::Unreadable(why) => roots_walk(disk, front.push(root)) == Walk::Failed(why),
            _ => true,
        },
{
    assert(front.push(root).drop_last() =~= front);
    followed_by_nothing(roots_walk(disk, front));
}

/// A vocabulary that lies in `config/vocabularies` of a directory is listed, and so is one that
/// lies in its `Vocab`.
pub proof fn every_vocabulary_is_listed(
    disk: Map<Seq<char>, NodeModel>,
    path: Seq<char>,
    items: Seq<ItemModel>,
    k: int,
    vocab: Seq<char>,
)
    requires
        disk[path] == NodeModel::Directory(items),
        0 <= k < items.len(),
        items[k] == ItemModel::Path(vocab),
        is_dir(disk, vocab) || extension(vocab) == Some("yml"@),
    ensures
        dir_walk(disk, path, EntryType::Vocab) matches Walk::Done(list) && exists|i: int|
            {
                &&& 0 <= i < list.len()
                &&& (#[trigger] list[i]).path == vocab
                &&& list[i].kind == EntryType::Vocab
                &&& list[i].name == match file_name(vocab) {
                    Some(name) => name,
                    None => Seq::empty(),
                }
            },
{
    item_is_listed(disk, path, EntryType::Vocab, items, k, vocab);
}

/// A YAML file of a style is listed as a rule.
pub proof fn every_rule_is_listed(
    disk: Map<Seq<char>, NodeModel>,
    path: Seq<char>,
    items: Seq<ItemModel>,
    k: int,
    rule: Seq<char>,
)
    requires
        disk[path] == NodeModel::Directory(items),
        0 <= k < items.len(),
        items[k] == ItemModel::Path(rule),
        extension(rule) == Some("yml"@),
    ensures
        dir_walk(disk, path, EntryType::Rule) matches Walk::Done(list) && exists|i: int|
            {
                &&& 0 <= i < list.len()
                &&& (#[trigger] list[i]).path == rule
                &&& list[i].kind == EntryType::Rule
                &&& list[i].name == match file_name(rule) {
                    Some(name) => name,
                    None => Seq::empty(),
                }
            },
{
    item_is_listed(disk, path, EntryType::Rule, items, k, rule);
}

proof fn item_is_listed(
    disk: Map<Seq<char>, NodeModel>,
    path: Seq<char>,
    kind: EntryType,
    items: Seq<ItemModel>,
    k: int,
    p: Seq<char>,
)
    requires
        disk[path] == NodeModel::Directory(items),
        0 <= k < items.len(),
        items[k] == ItemModel::Path(p),
        extension(p) == Some("yml"@) || (kind == EntryType::Vocab && is_dir(disk, p)),
    ensures
        dir_walk(disk, path, kind) matches Walk::Done(list) && exists|i: int|
            {
                &&& 0 <= i < list.len()
                &&& (#[trigger] list[i]).path == p
                &&& list[i].kind == kind
                &&& list[i].name == match file_name(p) {
                    Some(name) => name,
                    None => Seq::empty(),
                }
            },
{
    let f = |item: ItemModel| item_entry(disk, item, kind);
    let entry = item_entry(disk, items[k], kind)->0;
    filter_map_keeps(items, f, k);
    let list = items.filter_map(f);
    let i = choose|i: int| 0 <= i < list.len() && list[i] == entry;
    let walked = dir_walk(disk, path, kind)->Done_0;
    assert(walked[i] == entry);
    assert(walked[i].path == p && walked[i].kind == kind);
    assert(walked[i].name == match file_name(p) {
        Some(name) => name,
        None => Seq::empty(),
    });
}

proof fn filter_map_keeps<A, B>(s: Seq<A>, f: spec_fn(A) -> Option<B>, k: int)
    requires
        0 <= k < s.len(),
        f(s[k]) is Some,
    ensures
        s.filter_map(f).contains(f(s[k])->0),
    decreases s.len(),
{
    let front = s.drop_last();
    let all = s.filter_map(f);
    if k < front.len() {
        assert(front[k] == s[k]);
        filter_map_keeps(front, f, k);
        let before = front.filter_map(f);
        let i = choose|i: int| 0 <= i < before.len() && before[i] == f(s[k])->0;
        assert(all[i] == before[i]);
    } else {
        assert(all[all.len() - 1] == f(s[k])->0);
    }
}

/// Everything that an item of one of the directories comes to is among the entries, in one piece.
pub proof fn every_item_of_every_directory_counts(
    disk: Map<Seq<char>, NodeModel>,
    roots: Seq<Seq<char>>,
    list: Seq<EntryModel>,
    r: int,
    items: Seq<ItemModel>,
    k: int,
    path: Seq<char>,
)
    requires
        roots_walk(disk, roots) == Walk::Done(list),
        0 <= r < roots.len(),
        disk.contains_key(roots[r]),
        disk[roots[r]] == NodeModel::Directory(items),
        0 <= k < items.len(),
        items[k] == ItemModel::Path(path),
    ensures
        exists|a: Seq<EntryModel>, b: Seq<EntryModel>|
            item_walk(disk, path) is Done && list == #[trigger] (a + item_walk(disk, path)->Done_0
                + b),
    decreases roots.len(),
{
    let front = roots.drop_last();
    let root = roots.last();
    assert(roots =~= front.push(root));
    directories_are_gone_through_from_the_last(disk, front, root);
    if r < front.len() {
        assert(front[r] == roots[r]);
        let rest = roots_walk(disk, front)->Done_0;
        every_item_of_every_directory_counts(disk, front, rest, r, items, k, path);
        let mid = item_walk(disk, path)->Done_0;
        let (a, b) = choose|a: Seq<EntryModel>, b: Seq<EntryModel>|
            item_walk(disk, path) is Done && rest == #[trigger] (a + item_walk(disk, path)->Done_0
                + b);
        let first = root_walk(disk, root)->Done_0;
        assert(list =~= first + rest);
        assert(list =~= (first + a) + mid + b);
    } else {
        let first = items_walk(disk, items)->Done_0;
        let (a, b) = item_in_items(disk, items, k, path);
        let mid = item_walk(disk, path)->Done_0;
        let rest = roots_walk(disk, front)->Done_0;
        assert(list =~= first + rest);
        assert(list =~= a + mid + (b + rest));
    }
}

proof fn item_in_items(
    disk: Map<Seq<char>, NodeModel>,
    items: Seq<ItemModel>,
    k: int,
    path: Seq<char>,
) -> (sides: (Seq<EntryModel>, Seq<EntryModel>))
    requires
        items_walk(disk, items) is Done,
        0 <= k < items.len(),
        items[k] == ItemModel::Path(path),
    ensures
        item_walk(disk, path) is Done,
        items_walk(disk, items)->Done_0 == sides.0 + item_walk(disk, path)->Done_0 + sides.1,
    decreases items.len(),
{
    let front = items.drop_last();
    let last = items.last();
    assert(items =~= front.push(last));
    items_are_gone_through_in_order(disk, front, last);
    let whole = items_walk(disk, items)->Done_0;
    if k < front.len() {
        assert(front[k] == items[k]);
        let (a, b) = item_in_items(disk, front, k, path);
        let mid = item_walk(disk, path)->Done_0;
        let before = items_walk(disk, front)->Done_0;
        let more = whole.skip(before.len() as int);
        assert(whole =~= before + more);
        assert(whole =~= a + mid + (b + more));
        (a, b + more)
    } else {
        let before = items_walk(disk, front)->Done_0;
        assert(whole =~= before + item_walk(disk, path)->Done_0 + Seq::<EntryModel>::empty());
        (before, Seq::empty())
    }
}

/// The style that is always there has no path, and says that it has four rules.
pub proof fn built_in_style_has_no_path()
    ensures
        built_in_style().name == "Vale"@,
        built_in_style().path.len() == 0,
        built_in_style().size == 4,
        built_in_style().kind == EntryType::Style,
{
}

/// The file of a vocabulary lies below the project's directory in `config`, `vocabularies` and the
/// name, or in `Vocab` and the name where that directory is there and the other is not.
pub proof fn vocabulary_has_its_own_directory(
    disk: Map<Seq<char>, NodeModel>,
    root: Seq<char>,
    name: Seq<char>,
    accept: bool,
)
    ensures
        ({
            let modern = join(join(join(root, "config"@), "vocabularies"@), name);
            let legacy = join(join(root, "Vocab"@), name);
            let dir = if !is_dir(disk, modern) && is_dir(disk, legacy) {
                legacy
            } else {
                modern
            };
            &&& vocab_dir(disk, root, name) == dir
            &&& vocab_file(dir, accept) == join(
                dir,
                if accept {
                    "accept.txt"@
                } else {
                    "reject.txt"@
                },
            )
        }),
        name.len() > 0 && name != seq!['.'] && !name.contains('/') ==> components(
            vocab_file(vocab_dir(disk, root, name), accept),
        ) == components(root) + (if !is_dir(
            disk,
            join(join(join(root, "config"@), "vocabularies"@), name),
        ) && is_dir(disk, join(join(root, "Vocab"@), name)) {
            seq!["Vocab"@, name]
        } else {
            seq!["config"@, "vocabularies"@, name]
        }).push(
            if accept {
                "accept.txt"@
            } else {
                "reject.txt"@
            },
        ),
{
    if name.len() > 0 && name != seq!['.'] && !name.contains('/') {
        plain_names();
        let config = join(root, "config"@);
        let vocabularies = join(config, "vocabularies"@);
        let old_dir = join(root, "Vocab"@);
        join_adds_component(root, "config"@);
        join_adds_component(config, "vocabularies"@);
        join_adds_component(vocabularies, name);
        join_adds_component(root, "Vocab"@);
        join_adds_component(old_dir, name);
        let dir = vocab_dir(disk, root, name);
        join_adds_component(dir, "accept.txt"@);
        join_adds_component(dir, "reject.txt"@);
        let end = if accept {
            "accept.txt"@
        } else {
            "reject.txt"@
        };
        assert(components(vocab_file(dir, accept)) == components(dir).push(end));
        assert(components(root).push("Vocab"@).push(name).push(end) =~= components(root) + seq![
            "Vocab"@,
            name,
        ].push(end));
        assert(components(root).push("config"@).push("vocabularies"@).push(name).push(end)
            =~= components(root) + seq!["config"@, "vocabularies"@, name].push(end));
    }
}

/// An update names the directory, the file and the content that adding a term comes to.
pub proof fn update_says_where_and_what(
    styles: StylesPath,
    disk: Disk,
    name: Seq<char>,
    term: Seq<char>,
    content: Seq<char>,
    accept: bool,
    update: VocabUpdate,
)
    requires
        styles.is_update(&disk, name, term, content, accept, update),
    ensures
        ({
            let root = if styles@.len() > 0 {
                styles@.last()
            } else {
                Seq::empty()
            };
            &&& update.dir@ == vocab_dir(disk@, root, name)
            &&& update.file@ == vocab_file(vocab_dir(disk@, root, name), accept)
        }),
        update.content is None <==> exists|i: int|
            0 <= i < lines(content).len() && #[trigger] lines(content)[i] == term,
        update.content matches Some(new) ==> with_term(content, term) == Some(new@),
{
    only_a_whole_line_keeps_a_term_out(content, term);
}

/// An error of the disk is told with its reason, as such an error and no other.
pub proof fn failures_are_told_with_their_reason<T>(r: Result<T, Error>, why: Seq<char>)
    requires
        is_io_error(r, why),
    ensures
        r is Err,
        r->Err_0 is Io,
        r->Err_0->Io_0@ == why,
{
}

/// An entry is modelled with all that it says, and a list of entries with each in its place.
pub proof fn entries_are_modelled_as_they_are(list: Seq<PathEntry>, i: int)
    requires
        0 <= i < list.len(),
    ensures
        entries_of(list).len() == list.len(),
        entries_of(list)[i].name == list[i].name@,
        entries_of(list)[i].size == list[i].size,
        entries_of(list)[i].path == list[i].path@,
        entries_of(list)[i].kind == list[i].kind,
{
}

/// All of the directories are gone through, in the disk that is given.
pub proof fn walk_goes_through_all_directories(styles: StylesPath, disk: Disk)
    ensures
        styles.walk(&disk) == roots_walk(disk@, styles@),
{
}

} // verus!
