//! The path enumerator: a worklist traversal of a directory, driven by the
//! listings that the caller obtains from the file system.
//!
//! The traversal never touches the file system itself. It names the
//! directory whose listing it needs next, the caller lists that directory
//! and supplies what it found, and so on until nothing is left to visit.

use vstd::prelude::*;
use crate::text::texts;

verus! {

/// One child of a directory, as a listing reports it.
#[derive(Debug, PartialEq, Eq)]
pub struct DirEntry {
    pub path: String,
    pub is_directory: bool,
}

/// What the caller found when it listed a directory.
#[derive(Debug, PartialEq, Eq)]
pub enum Listing {
    /// The children of the directory, in the order of the listing.
    Entries(Vec<DirEntry>),
    /// The path names no directory.
    NotADirectory,
    /// The directory could not be read.
    Failed,
}

/// Where a traversal stands.
#[derive(Debug, PartialEq, Eq)]
pub enum Status {
    /// The listing of this directory is needed next.
    Awaiting(String),
    /// Every entry has been visited.
    Finished,
    /// This directory could not be read; nothing was found.
    Failed(String),
}

/// A traversal in progress.
#[derive(Debug)]
pub struct Traversal {
    recursive: bool,
    /// The entries still to visit; the next one is the last of the vector.
    stack: Vec<DirEntry>,
    found: Vec<String>,
    status: Status,
}

/// A `DirEntry` as plain mathematical values.
pub struct EntryModel {
    pub path: Seq<char>,
    pub is_directory: bool,
}

/// A `Listing` as plain mathematical values.
pub enum ListingModel {
    Entries(Seq<EntryModel>),
    NotADirectory,
    Failed,
}

/// A `Status` as plain mathematical values.
pub enum StatusModel {
    Awaiting(Seq<char>),
    Finished,
    Failed(Seq<char>),
}

/// A `Traversal` as plain mathematical values.
pub struct TraversalModel {
    /// Whether subdirectories are entered.
    pub recursive: bool,
    /// The entries still to visit, the next one first.
    pub todo: Seq<EntryModel>,
    /// The paths found so far, in the order of the visit.
    pub found: Seq<Seq<char>>,
    pub status: StatusModel,
}

impl View for DirEntry {
    type V = EntryModel;

    open spec fn view(&self) -> EntryModel {
        EntryModel { path: self.path@, is_directory: self.is_directory }
    }
}

/// The models of `entries`.
pub open spec fn entry_models(entries: Seq<DirEntry>) -> Seq<EntryModel> {
    entries.map_values(|e: DirEntry| e@)
}

impl View for Listing {
    type V = ListingModel;

    open spec fn view(&self) -> ListingModel {
        match self {
            Listing::Entries(entries) => ListingModel::Entries(entry_models(entries@)),
            Listing::NotADirectory => ListingModel::NotADirectory,
            Listing::Failed => ListingModel::Failed,
        }
    }
}

impl View for Status {
    type V = StatusModel;

    open spec fn view(&self) -> StatusModel {
        match self {
            Status::Awaiting(directory) => StatusModel::Awaiting(directory@),
            Status::Finished => StatusModel::Finished,
            Status::Failed(directory) => StatusModel::Failed(directory@),
        }
    }
}

impl View for Traversal {
    type V = TraversalModel;

    closed spec fn view(&self) -> TraversalModel {
        TraversalModel {
            recursive: self.recursive,
            todo: entry_models(self.stack@).reverse(),
            found: texts(self.found@),
            status: self.status@,
        }
    }
}

/// A traversal of `root` before its first listing.
pub open spec fn started(root: Seq<char>, recursive: bool) -> TraversalModel {
    TraversalModel {
        recursive,
        todo: Seq::<EntryModel>::empty(),
        found: Seq::<Seq<char>>::empty(),
        status: StatusModel::Awaiting(root),
    }
}

/// The visit of `todo` as far as it goes without a new listing. An entry
/// that is no directory is found. A directory stops the visit where
/// subdirectories are entered, and is passed over where they are not.
pub open spec fn settled(recursive: bool, todo: Seq<EntryModel>, found: Seq<Seq<char>>) -> TraversalModel
    decreases todo.len(),
{
    if todo.len() == 0 {
        TraversalModel { recursive, todo, found, status: StatusModel::Finished }
    } else if !todo[0].is_directory {
        settled(recursive, todo.drop_first(), found.push(todo[0].path))
    } else if recursive {
        TraversalModel {
            recursive,
            todo: todo.drop_first(),
            found,
            status: StatusModel::Awaiting(todo[0].path),
        }
    } else {
        settled(recursive, todo.drop_first(), found)
    }
}

/// The traversal after the caller has supplied `listing` for the directory
/// that `before` was waiting for. The children of a directory are visited
/// before what was left to visit. A path that names no directory
/// contributes nothing. A directory that cannot be read ends the traversal
/// with nothing found. A traversal that waits for nothing stays as it is.
pub open spec fn supplied(before: TraversalModel, listing: ListingModel) -> TraversalModel {
    match before.status {
        StatusModel::Awaiting(directory) => match listing {
            ListingModel::Entries(entries) => settled(
                before.recursive,
                entries + before.todo,
                before.found,
            ),
            ListingModel::NotADirectory => settled(before.recursive, before.todo, before.found),
            ListingModel::Failed => TraversalModel {
                recursive: before.recursive,
                todo: Seq::<EntryModel>::empty(),
                found: Seq::<Seq<char>>::empty(),
                status: StatusModel::Failed(directory),
            },
        },
        _ => before,
    }
}

/// The paths of the entries of `entries` that are no directories, in
/// order.
pub open spec fn files_among(entries: Seq<EntryModel>) -> Seq<Seq<char>> {
    entries.filter(|e: EntryModel| !e.is_directory).map_values(|e: EntryModel| e.path)
}

/// Where subdirectories are not entered, one listing ends the traversal:
/// what is found are the children that are no directories, in the order of
/// the listing.
pub proof fn lemma_flat_visit(todo: Seq<EntryModel>, found: Seq<Seq<char>>)
    ensures
        settled(false, todo, found) == (TraversalModel {
            recursive: false,
            todo: Seq::<EntryModel>::empty(),
            found: found + files_among(todo),
            status: StatusModel::Finished,
        }),
    decreases todo.len(),
{
    let files = |e: EntryModel| !e.is_directory;
    if todo.len() == 0 {
        assert(todo.filter(files) =~= Seq::<EntryModel>::empty()) by {
            reveal(Seq::filter);
        }
        assert(found + files_among(todo) =~= found);
        assert(todo =~= Seq::<EntryModel>::empty());
    } else {
        let first = todo[0];
        let rest = todo.drop_first();
        assert(todo =~= seq![first] + rest);
        Seq::filter_distributes_over_add(seq![first], rest, files);
        assert(seq![first] =~= Seq::<EntryModel>::empty().push(first));
        Seq::<EntryModel>::empty().lemma_filter_push(first, files);
        assert(Seq::<EntryModel>::empty().filter(files) =~= Seq::<EntryModel>::empty()) by {
            reveal(Seq::filter);
        }
        if !first.is_directory {
            lemma_flat_visit(rest, found.push(first.path));
            assert(found.push(first.path) + files_among(rest) =~= found + files_among(todo));
        } else {
            lemma_flat_visit(rest, found);
            assert(files_among(rest) =~= files_among(todo));
        }
    }
}

/// A traversal that does not enter subdirectories is over after the
/// listing of its root, and has found the children that are no
/// directories, in the order of the listing.
pub proof fn lemma_flat_listing(root: Seq<char>, entries: Seq<EntryModel>)
    ensures
        supplied(started(root, false), ListingModel::Entries(entries)) == (TraversalModel {
            recursive: false,
            todo: Seq::<EntryModel>::empty(),
            found: files_among(entries),
            status: StatusModel::Finished,
        }),
{
    let nothing = Seq::<Seq<char>>::empty();
    assert(entries + Seq::<EntryModel>::empty() =~= entries);
    lemma_flat_visit(entries, nothing);
    assert(nothing + files_among(entries) =~= files_among(entries));
}

/// A root that is no directory gives an empty result, not an error.
pub proof fn lemma_root_is_no_directory(root: Seq<char>, recursive: bool)
    ensures
        supplied(started(root, recursive), ListingModel::NotADirectory) == (TraversalModel {
            recursive,
            todo: Seq::<EntryModel>::empty(),
            found: Seq::<Seq<char>>::empty(),
            status: StatusModel::Finished,
        }),
{
}

/// A file or a directory with what it holds, as a traversal may meet it.
pub enum Node {
    File(Seq<char>),
    Directory(Seq<char>, Seq<Node>),
}

/// The entry that a listing reports for `node`.
pub open spec fn entry_of(node: Node) -> EntryModel {
    match node {
        Node::File(path) => EntryModel { path, is_directory: false },
        Node::Directory(path, _) => EntryModel { path, is_directory: true },
    }
}

/// The listing of a directory that holds `nodes`.
pub open spec fn entries_of(nodes: Seq<Node>) -> Seq<EntryModel> {
    nodes.map_values(|n: Node| entry_of(n))
}

/// The files of `nodes` at any depth, depth first: the files of a
/// directory stand where the directory stands among its siblings.
pub open spec fn files_under(nodes: Seq<Node>) -> Seq<Seq<char>>
    decreases nodes,
{
    if nodes.len() == 0 {
        Seq::<Seq<char>>::empty()
    } else {
        let first = match nodes[0] {
            Node::File(path) => seq![path],
            Node::Directory(_, children) => files_under(children),
        };
        first + files_under(nodes.drop_first())
    }
}

/// The directories of `nodes` at any depth, depth first, each before what
/// it holds.
pub open spec fn directories_under(nodes: Seq<Node>) -> Seq<Seq<char>>
    decreases nodes,
{
    if nodes.len() == 0 {
        Seq::<Seq<char>>::empty()
    } else {
        let first = match nodes[0] {
            Node::File(_) => Seq::<Seq<char>>::empty(),
            Node::Directory(path, children) => seq![path] + directories_under(children),
        };
        first + directories_under(nodes.drop_first())
    }
}

/// The listings of the directories of `nodes`, in the order of
/// `directories_under`.
pub open spec fn listings_under(nodes: Seq<Node>) -> Seq<ListingModel>
    decreases nodes,
{
    if nodes.len() == 0 {
        Seq::<ListingModel>::empty()
    } else {
        let first = match nodes[0] {
            Node::File(_) => Seq::<ListingModel>::empty(),
            Node::Directory(_, children) => seq![ListingModel::Entries(entries_of(children))]
                + listings_under(children),
        };
        first + listings_under(nodes.drop_first())
    }
}

/// The traversal after the caller has supplied `listings`, one after the
/// other.
pub open spec fn fed(traversal: TraversalModel, listings: Seq<ListingModel>) -> TraversalModel
    decreases listings.len(),
{
    if listings.len() == 0 {
        traversal
    } else {
        fed(supplied(traversal, listings[0]), listings.drop_first())
    }
}

/// The directories that the traversal waits for, one before each of
/// `listings`.
pub open spec fn asked(traversal: TraversalModel, listings: Seq<ListingModel>) -> Seq<Seq<char>>
    decreases listings.len(),
{
    if listings.len() == 0 {
        Seq::<Seq<char>>::empty()
    } else {
        let first = match traversal.status {
            StatusModel::Awaiting(directory) => seq![directory],
            _ => Seq::<Seq<char>>::empty(),
        };
        first + asked(supplied(traversal, listings[0]), listings.drop_first())
    }
}

/// The visit of `nodes` in front of `rest`: once the listings of their
/// directories have been supplied, their files are found, their
/// directories have been asked for, and the visit stands at `rest`.
proof fn lemma_visit_nodes(
    nodes: Seq<Node>,
    rest: Seq<EntryModel>,
    found: Seq<Seq<char>>,
    more: Seq<ListingModel>,
)
    ensures
        fed(settled(true, entries_of(nodes) + rest, found), listings_under(nodes) + more) == fed(
            settled(true, rest, found + files_under(nodes)),
            more,
        ),
        asked(settled(true, entries_of(nodes) + rest, found), listings_under(nodes) + more)
            == directories_under(nodes) + asked(
            settled(true, rest, found + files_under(nodes)),
            more,
        ),
    decreases nodes,
{
    let todo = entries_of(nodes) + rest;
    if nodes.len() == 0 {
        assert(todo =~= rest);
        assert(listings_under(nodes) + more =~= more);
        assert(found + files_under(nodes) =~= found);
        assert(directories_under(nodes) + asked(settled(true, rest, found), more) =~= asked(
            settled(true, rest, found),
            more,
        ));
    } else {
        let tail = nodes.drop_first();
        assert(todo[0] == entry_of(nodes[0]));
        assert(todo.drop_first() =~= entries_of(tail) + rest);
        match nodes[0] {
            Node::File(path) => {
                lemma_visit_nodes(tail, rest, found.push(path), more);
                assert(listings_under(nodes) =~= listings_under(tail));
                assert(directories_under(nodes) =~= directories_under(tail));
                assert(found.push(path) + files_under(tail) =~= found + files_under(nodes));
            },
            Node::Directory(path, children) => {
                let waiting = settled(true, todo, found);
                let answer = ListingModel::Entries(entries_of(children));
                let later = listings_under(tail) + more;
                let all = listings_under(nodes) + more;
                assert(all =~= seq![answer] + (listings_under(children) + later));
                assert(all[0] == answer);
                assert(all.drop_first() =~= listings_under(children) + later);
                assert(supplied(waiting, answer) == settled(
                    true,
                    entries_of(children) + (entries_of(tail) + rest),
                    found,
                ));
                lemma_visit_nodes(children, entries_of(tail) + rest, found, later);
                lemma_visit_nodes(tail, rest, found + files_under(children), more);
                assert(found + files_under(children) + files_under(tail) =~= found + files_under(
                    nodes,
                ));
                let end = asked(settled(true, rest, found + files_under(nodes)), more);
                assert(seq![path] + (directories_under(children) + (directories_under(tail) + end))
                    =~= directories_under(nodes) + end);
            },
        }
    }
}

/// A recursive traversal of a directory tree finds the files of the tree
/// depth first. Where the caller answers each request with the listing of
/// the directory asked for, the traversal asks for the root and then for
/// every directory of the tree, each before what it holds, and ends with
/// every file of the tree, the files of a directory standing where the
/// directory stands in the listing of its parent.
pub proof fn lemma_recursive_visit(root: Seq<char>, children: Seq<Node>)
    ensures
        fed(
            started(root, true),
            seq![ListingModel::Entries(entries_of(children))] + listings_under(children),
        ) == (TraversalModel {
            recursive: true,
            todo: Seq::<EntryModel>::empty(),
            found: files_under(children),
            status: StatusModel::Finished,
        }),
        asked(
            started(root, true),
            seq![ListingModel::Entries(entries_of(children))] + listings_under(children),
        ) == seq![root] + directories_under(children),
{
    let answer = ListingModel::Entries(entries_of(children));
    let all = seq![answer] + listings_under(children);
    let none = Seq::<EntryModel>::empty();
    let nothing = Seq::<Seq<char>>::empty();
    let silence = Seq::<ListingModel>::empty();
    assert(all[0] == answer);
    assert(all.drop_first() =~= listings_under(children) + silence);
    assert(entries_of(children) + none =~= entries_of(children));
    assert(supplied(started(root, true), answer) == settled(
        true,
        entries_of(children) + none,
        nothing,
    ));
    lemma_visit_nodes(children, none, nothing, silence);
    assert(nothing + files_under(children) =~= files_under(children));
    assert(directories_under(children) + nothing =~= directories_under(children));
}

impl Traversal {
    /// Begins the traversal of `root`. Subdirectories are entered where
    /// `recursive` is set.
    pub fn start(root: String, recursive: bool) -> (traversal: Traversal)
        ensures
            traversal@ == started(root@, recursive),
    {
        let traversal = Traversal {
            recursive,
            stack: Vec::new(),
            found: Vec::new(),
            status: Status::Awaiting(root),
        };
        assert(traversal@.todo =~= Seq::<EntryModel>::empty());
        assert(traversal@.found =~= Seq::<Seq<char>>::empty());
        traversal
    }

    /// Where the traversal stands.
    pub fn status(&self) -> (status: &Status)
        ensures
            status@ == self@.status,
    {
        &self.status
    }

    /// Visits the waiting entries until a listing is needed or none is left.
    fn settle(&mut self)
        ensures
            final(self)@ == settled(old(self)@.recursive, old(self)@.todo, old(self)@.found),
    {
        let ghost recursive = self.recursive;
        let ghost goal = settled(self@.recursive, self@.todo, self@.found);
        loop
            invariant_except_break
                goal == settled(recursive, self@.todo, self@.found),
            invariant
                self.recursive == recursive,
            ensures
                self@ == goal,
            decreases self.stack.len(),
        {
            let ghost todo = self@.todo;
            let ghost stack = self.stack@;
            match self.stack.pop() {
                None => {
                    self.status = Status::Finished;
                    assert(self@.todo =~= todo);
                    break ;
                },
                Some(entry) => {
                    proof {
                        assert(stack == self.stack@.push(entry));
                        assert(todo =~= seq![entry@] + self@.todo);
                        assert(todo.drop_first() =~= self@.todo);
                    }
                    if !entry.is_directory {
                        let ghost earlier = self.found@;
                        self.found.push(entry.path);
                        assert(texts(self.found@) =~= texts(earlier).push(entry.path@));
                    } else if self.recursive {
                        self.status = Status::Awaiting(entry.path);
                        break ;
                    }
                },
            }
        }
    }

    /// Takes the listing of the directory that the traversal waits for.
    pub fn supply(&mut self, listing: Listing)
        ensures
            final(self)@ == supplied(old(self)@, listing@),
    {
        let directory = match &self.status {
            Status::Awaiting(directory) => directory.clone(),
            _ => {
                return ;
            },
        };
        match listing {
            Listing::Entries(entries) => {
                let mut entries = entries;
                let ghost given = entry_models(entries@);
                let ghost todo = self@.todo;
                loop
                    invariant
                        self.recursive == old(self).recursive,
                        self.found == old(self).found,
                        self.status == old(self).status,
                        entry_models(entries@) + self@.todo == given + todo,
                    ensures
                        self@.todo == given + todo,
                    decreases entries.len(),
                {
                    let ghost left = entries@;
                    let ghost stack = self.stack@;
                    match entries.pop() {
                        None => {
                            assert(entry_models(entries@) + self@.todo =~= self@.todo);
                            break ;
                        },
                        Some(entry) => {
                            self.stack.push(entry);
                            proof {
                                assert(left == entries@.push(entry));
                                assert(entry_models(left) =~= entry_models(entries@).push(entry@));
                                assert(entry_models(self.stack@) =~= entry_models(stack).push(
                                    entry@,
                                ));
                                assert(entry_models(self.stack@).reverse() =~= seq![entry@]
                                    + entry_models(stack).reverse());
                                assert(entry_models(entries@) + self@.todo =~= entry_models(left)
                                    + entry_models(stack).reverse());
                            }
                        },
                    }
                }
                self.settle();
            },
            Listing::NotADirectory => {
                self.settle();
            },
            Listing::Failed => {
                self.stack = Vec::new();
                self.found = Vec::new();
                self.status = Status::Failed(directory);
                assert(self@.todo =~= Seq::<EntryModel>::empty());
                assert(self@.found =~= Seq::<Seq<char>>::empty());
            },
        }
    }

    /// The paths found, in the order of the visit.
    pub fn into_found(self) -> (found: Vec<String>)
        ensures
            texts(found@) == self@.found,
    {
        self.found
    }
}

} // verus!
