//! What is on disk, as far as it was looked at.

use crate::text::same_text;
use vstd::prelude::*;

verus! {

/// One result of reading a directory: the path of an entry, or why the entry could not be read.
#[derive(Debug)]
pub enum DirItem {
    Path(String),
    Failed(String),
}

/// What stands at a path.
#[derive(Debug)]
pub enum Node {
    /// A regular file.
    File,
    /// A directory with what reading it gives, in order.
    Directory(Vec<DirItem>),
    /// A directory that cannot be read, and why.
    Unreadable(String),
    /// Anything else.
    Other,
}

/// A path at which something stands.
#[derive(Debug)]
pub struct Place {
    pub path: String,
    pub node: Node,
}

/// The paths that were looked at and that exist. Where a path is listed twice, the first counts.
/// No directory lists an empty path.
#[derive(Debug)]
pub struct Disk {
    places: Vec<Place>,
}

/// The model of a [`DirItem`].
pub ghost enum ItemModel {
    Path(Seq<char>),
    Failed(Seq<char>),
}

/// The model of a [`Node`].
pub ghost enum NodeModel {
    File,
    Directory(Seq<ItemModel>),
    Unreadable(Seq<char>),
    Other,
}

impl View for DirItem {
    type V = ItemModel;

    open spec fn view(&self) -> ItemModel {
        match self {
            DirItem::Path(path) => ItemModel::Path(path@),
            DirItem::Failed(why) => ItemModel::Failed(why@),
        }
    }
}

impl View for Node {
    type V = NodeModel;

    open spec fn view(&self) -> NodeModel {
        match self {
            Node::File => NodeModel::File,
            Node::Directory(items) => NodeModel::Directory(items@.map_values(|i: DirItem| i@)),
            Node::Unreadable(why) => NodeModel::Unreadable(why@),
            Node::Other => NodeModel::Other,
        }
    }
}

/// What stands at each of a list of places.
pub open spec fn nodes_at(places: Seq<Place>) -> Map<Seq<char>, NodeModel>
    decreases places.len(),
{
    if places.len() == 0 {
        Map::empty()
    } else {
        nodes_at(places.drop_first()).insert(places[0].path@, places[0].node@)
    }
}

impl View for Disk {
    type V = Map<Seq<char>, NodeModel>;

    closed spec fn view(&self) -> Map<Seq<char>, NodeModel> {
        nodes_at(self.places@)
    }
}

/// Whether none of the items of a directory has an empty path.
pub open spec fn all_have_paths(items: Seq<ItemModel>) -> bool {
    forall|i: int| 0 <= i < items.len() ==> #[trigger] items[i] != ItemModel::Path(Seq::empty())
}

/// Whether no directory lists an empty path.
pub open spec fn lists_no_empty_path(disk: Map<Seq<char>, NodeModel>) -> bool {
    forall|dir: Seq<char>| #[trigger]
        disk.contains_key(dir) && disk[dir] is Directory ==> all_have_paths(
            disk[dir]->Directory_0,
        )
}

/// Whether what stands at a place lists no empty path.
pub open spec fn is_sound(node: NodeModel) -> bool {
    node matches NodeModel::Directory(items) ==> all_have_paths(items)
}

proof fn sound_places_list_no_empty_path(places: Seq<Place>)
    requires
        forall|i: int| 0 <= i < places.len() ==> is_sound(#[trigger] places[i].node@),
    ensures
        lists_no_empty_path(nodes_at(places)),
    decreases places.len(),
{
    if places.len() > 0 {
        let rest = places.drop_first();
        assert forall|i: int| 0 <= i < rest.len() implies is_sound(#[trigger] rest[i].node@) by {
            assert(rest[i] == places[i + 1]);
        }
        sound_places_list_no_empty_path(rest);
        assert(is_sound(places[0].node@));
    }
}

impl Node {
    /// Whether this lists no empty path.
    fn lists_paths(&self) -> (r: bool)
        ensures
            r == is_sound(self@),
    {
        match self {
            Node::Directory(items) => {
                let ghost models = items@.map_values(|i: DirItem| i@);
                let mut i: usize = 0;
                while i < items.len()
                    invariant
                        i <= items@.len(),
                        models == items@.map_values(|i: DirItem| i@),
                        self@ == NodeModel::Directory(models),
                        forall|j: int|
                            0 <= j < i ==> #[trigger] models[j] != ItemModel::Path(Seq::empty()),
                    decreases items@.len() - i,
                {
                    proof {
                        assert(models[i as int] == items@[i as int]@);
                    }
                    match &items[i] {
                        DirItem::Path(path) => {
                            if path.as_str().is_empty() {
                                proof {
                                    assert(path@ =~= Seq::<char>::empty());
                                    assert(models[i as int] == ItemModel::Path(Seq::empty()));
                                }
                                return false;
                            }
                        },
                        DirItem::Failed(_) => {},
                    }
                    i = i + 1;
                }
                true
            },
            _ => true,
        }
    }
}

/// Whether a directory stands at `path`.
pub open spec fn is_dir(disk: Map<Seq<char>, NodeModel>, path: Seq<char>) -> bool {
    disk.contains_key(path) && (disk[path] is Directory || disk[path] is Unreadable)
}

/// Whether a regular file stands at `path`.
pub open spec fn is_file(disk: Map<Seq<char>, NodeModel>, path: Seq<char>) -> bool {
    disk.contains_key(path) && disk[path] is File
}

impl Disk {
    /// No directory lists an empty path.
    #[verifier::type_invariant]
    pub open spec fn is_valid(&self) -> bool {
        lists_no_empty_path(self@)
    }

    /// What stands at `places`; `None` where a directory lists an empty path, as none does that
    /// was read.
    pub fn new(places: Vec<Place>) -> (r: Option<Disk>)
        ensures
            r is Some <==> forall|i: int|
                0 <= i < places@.len() ==> is_sound(#[trigger] places@[i].node@),
            r matches Some(disk) ==> disk@ == nodes_at(places@),
    {
        let mut i: usize = 0;
        while i < places.len()
            invariant
                i <= places@.len(),
                forall|j: int| 0 <= j < i ==> is_sound(#[trigger] places@[j].node@),
            decreases places@.len() - i,
        {
            if !places[i].node.lists_paths() {
                proof {
                    assert(!is_sound(places@[i as int].node@));
                }
                return None;
            }
            i = i + 1;
        }
        proof {
            sound_places_list_no_empty_path(places@);
        }
        Some(Disk { places })
    }

    /// What stands at `path`.
    pub fn get(&self, path: &str) -> (r: Option<&Node>)
        ensures
            r is Some <==> self@.contains_key(path@),
            r matches Some(node) ==> node@ == self@[path@],
    {
        let mut i: usize = 0;
        proof {
            assert(self.places@.skip(0) =~= self.places@);
        }
        while i < self.places.len()
            invariant
                i <= self.places@.len(),
                self@.contains_key(path@) <==> nodes_at(self.places@.skip(i as int)).contains_key(
                    path@,
                ),
                self@.contains_key(path@) ==> self@[path@] == nodes_at(
                    self.places@.skip(i as int),
                )[path@],
            decreases self.places@.len() - i,
        {
            proof {
                assert(self.places@.skip(i as int).drop_first() =~= self.places@.skip(i + 1));
            }
            if same_text(self.places[i].path.as_str(), path) {
                return Some(&self.places[i].node);
            }
            i = i + 1;
        }
        None
    }

    /// Whether anything stands at `path`.
    pub fn holds(&self, path: &str) -> (r: bool)
        ensures
            r == self@.contains_key(path@),
    {
        self.get(path).is_some()
    }

    /// Whether a directory stands at `path`.
    pub fn is_dir(&self, path: &str) -> (r: bool)
        ensures
            r == is_dir(self@, path@),
    {
        match self.get(path) {
            Some(Node::Directory(_)) => true,
            Some(Node::Unreadable(_)) => true,
            _ => false,
        }
    }

    /// Whether a regular file stands at `path`.
    pub fn is_file(&self, path: &str) -> (r: bool)
        ensures
            r == is_file(self@, path@),
    {
        match self.get(path) {
            Some(Node::File) => true,
            _ => false,
        }
    }
}

/// What was looked at first at a path is what stands there.
pub proof fn first_place_counts(places: Seq<Place>, path: Seq<char>, k: int)
    requires
        0 <= k < places.len(),
        places[k].path@ == path,
        forall|j: int| 0 <= j < k ==> (#[trigger] places[j]).path@ != path,
    ensures
        nodes_at(places).contains_key(path),
        nodes_at(places)[path] == places[k].node@,
    decreases places.len(),
{
    if k > 0 {
        let rest = places.drop_first();
        assert(places[0].path@ != path);
        assert(rest[k - 1] == places[k]);
        assert forall|j: int| 0 <= j < k - 1 implies (#[trigger] rest[j]).path@ != path by {
            assert(rest[j] == places[j + 1]);
        }
        first_place_counts(rest, path, k - 1);
    }
}

/// Nothing stands at a path where nothing was found.
pub proof fn nothing_stands_elsewhere(places: Seq<Place>, path: Seq<char>)
    requires
        forall|j: int| 0 <= j < places.len() ==> (#[trigger] places[j]).path@ != path,
    ensures
        !nodes_at(places).contains_key(path),
    decreases places.len(),
{
    if places.len() > 0 {
        let rest = places.drop_first();
        assert(places[0].path@ != path);
        assert forall|j: int| 0 <= j < rest.len() implies (#[trigger] rest[j]).path@ != path by {
            assert(rest[j] == places[j + 1]);
        }
        nothing_stands_elsewhere(rest, path);
    }
}

/// A directory stands at a path whether or not it can be read, and nothing but a directory or a
/// regular file is one.
pub proof fn what_stands_at_a_path(disk: Map<Seq<char>, NodeModel>, path: Seq<char>)
    ensures
        !disk.contains_key(path) ==> !is_dir(disk, path) && !is_file(disk, path),
        disk.contains_key(path) ==> match disk[path] {
            NodeModel::File => is_file(disk, path) && !is_dir(disk, path),
            NodeModel::Directory(_) => is_dir(disk, path) && !is_file(disk, path),
            NodeModel::Unreadable(_) => is_dir(disk, path) && !is_file(disk, path),
            NodeModel::Other => !is_dir(disk, path) && !is_file(disk, path),
        },
{
}

/// A directory is modelled with every result of reading it, in order.
pub proof fn directories_keep_their_items(items: Vec<DirItem>, i: int)
    ensures
        Node::Directory(items)@ is Directory,
        Node::Directory(items)@->Directory_0.len() == items@.len(),
        0 <= i < items@.len() ==> match items@[i] {
            DirItem::Path(path) => Node::Directory(items)@->Directory_0[i] == ItemModel::Path(path@),
            DirItem::Failed(why) => Node::Directory(items)@->Directory_0[i] == ItemModel::Failed(
                why@,
            ),
        },
        Node::File@ is File,
        Node::Other@ is Other,
{
}

/// What stands at a place is sound exactly where it is no directory that lists an empty path.
pub proof fn only_an_empty_path_is_unsound(node: NodeModel)
    ensures
        !is_sound(node) <==> node is Directory && exists|i: int|
            0 <= i < node->Directory_0.len() && #[trigger] node->Directory_0[i] == ItemModel::Path(
                Seq::empty(),
            ),
{
}

} // verus!
