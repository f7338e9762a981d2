//! The file locator: a walk through a directory tree that leaves out the
//! ignored directories, the directories named `.git` and the files named
//! `.gitignore`.
//!
//! The locator does not read the file system. It says which directory is to
//! be read next, and takes the entries of that directory; whoever drives it
//! does the reading. Directories wait on a stack, so the walk is depth-first,
//! and the sub-directories of a directory are visited in the order of its
//! listing.

use crate::errors::{IoFailure, IoFailureText};
use crate::paths::{child_path, join_path, last_segment, lemma_last_index_of};
use crate::text::{chars_of, holds_text, same_text, starts_with, string_of, string_views};
use vstd::prelude::*;

verus! {

/// One entry of a directory.
#[derive(Debug, Clone, PartialEq, Eq)]
pub struct DirEntry {
    pub name: String,
    pub is_dir: bool,
}

/// The mathematical value of a `DirEntry`.
pub struct EntryText {
    pub name: Seq<char>,
    pub is_dir: bool,
}

impl View for DirEntry {
    type V = EntryText;

    open spec fn view(&self) -> EntryText {
        EntryText { name: self.name@, is_dir: self.is_dir }
    }
}

/// The values of a sequence of entries, element by element.
pub open spec fn entry_views(entries: Seq<DirEntry>) -> Seq<EntryText> {
    Seq::new(entries.len(), |i: int| entries[i]@)
}

/// The values of a sequence of paths, each a sequence of segments.
pub open spec fn path_views(paths: Seq<Vec<String>>) -> Seq<Seq<Seq<char>>> {
    Seq::new(paths.len(), |i: int| string_views(paths[i]@))
}

/// A directory of this name is not entered: it is named `.git`, or its name
/// is one of the ignored names, character for character.
pub open spec fn is_pruned(name: Seq<char>, ignored: Seq<Seq<char>>) -> bool {
    name == ".git"@ || ignored.contains(name)
}

/// A file of this name is not listed: it is named `.gitignore`.
pub open spec fn is_unlisted(name: Seq<char>) -> bool {
    name == ".gitignore"@
}

/// The walk enters the directory with these segments below the root: none
/// of them is the name of a directory that is not entered.
pub open spec fn is_walked(path: Seq<Seq<char>>, ignored: Seq<Seq<char>>) -> bool {
    forall|i: int| 0 <= i < path.len() ==> !is_pruned(#[trigger] path[i], ignored)
}

/// The walk lists the file with these segments below the root: it lies in a
/// directory that the walk enters, and its name is listed.
pub open spec fn is_listed(path: Seq<Seq<char>>, ignored: Seq<Seq<char>>) -> bool {
    path.len() > 0 && is_walked(path.drop_last(), ignored) && !is_unlisted(path.last())
}

/// The files of a directory that the walk lists, in the order of the
/// entries, each as the segments of the directory and its name.
pub open spec fn files_in(dir: Seq<Seq<char>>, entries: Seq<EntryText>) -> Seq<Seq<Seq<char>>>
    decreases entries.len(),
{
    if entries.len() == 0 {
        Seq::empty()
    } else if !entries.last().is_dir && !is_unlisted(entries.last().name) {
        files_in(dir, entries.drop_last()).push(dir.push(entries.last().name))
    } else {
        files_in(dir, entries.drop_last())
    }
}

/// The sub-directories of a directory that the walk enters, in the order of
/// the entries.
pub open spec fn dirs_in(
    dir: Seq<Seq<char>>,
    entries: Seq<EntryText>,
    ignored: Seq<Seq<char>>,
) -> Seq<Seq<Seq<char>>>
    decreases entries.len(),
{
    if entries.len() == 0 {
        Seq::empty()
    } else if entries.last().is_dir && !is_pruned(entries.last().name, ignored) {
        dirs_in(dir, entries.drop_last(), ignored).push(dir.push(entries.last().name))
    } else {
        dirs_in(dir, entries.drop_last(), ignored)
    }
}

/// The path of the segments below a root.
pub open spec fn path_text(root: Seq<char>, path: Seq<Seq<char>>) -> Seq<char>
    decreases path.len(),
{
    if path.len() == 0 {
        root
    } else {
        child_path(path_text(root, path.drop_last()), path.last())
    }
}

/// The state of a walk.
pub struct LocatorText {
    /// Where the walk began.
    pub root: Seq<char>,
    /// The names of the directories that are not entered.
    pub ignored: Seq<Seq<char>>,
    /// The directories that wait to be read; the last one is read next.
    pub pending: Seq<Seq<Seq<char>>>,
    /// The directory that is being read.
    pub current: Option<Seq<Seq<char>>>,
    /// The files listed so far.
    pub found: Seq<Seq<Seq<char>>>,
    /// The first failure to read a directory, if one was met.
    pub failed: Option<IoFailureText>,
}

impl LocatorText {
    /// The walk before anything is read: the root waits.
    pub open spec fn start(root: Seq<char>, ignored: Seq<Seq<char>>) -> LocatorText {
        LocatorText {
            root,
            ignored,
            pending: seq![Seq::<Seq<char>>::empty()],
            current: None,
            found: Seq::empty(),
            failed: None,
        }
    }

    /// The walk has nothing left to read.
    pub open spec fn is_done(self) -> bool {
        self.pending.len() == 0
    }

    /// The walk after the next directory was taken from the stack.
    pub open spec fn advance(self) -> LocatorText {
        if self.is_done() {
            self
        } else {
            LocatorText {
                pending: self.pending.drop_last(),
                current: Some(self.pending.last()),
                ..self
            }
        }
    }

    /// The walk after the entries of the directory that is being read have
    /// come: its listed files are found, and its sub-directories wait, the
    /// first of them on top.
    pub open spec fn record(self, entries: Seq<EntryText>) -> LocatorText {
        match self.current {
            None => self,
            Some(dir) => LocatorText {
                pending: self.pending + dirs_in(dir, entries, self.ignored).reverse(),
                current: None,
                found: self.found + files_in(dir, entries),
                ..self
            },
        }
    }

    /// The walk after a directory could not be read: the first failure is
    /// kept, no directory is being read, and none waits any more, so the
    /// walk is done.
    pub open spec fn fail(self, failure: IoFailureText) -> LocatorText {
        LocatorText {
            pending: Seq::empty(),
            current: None,
            failed: if self.failed is Some {
                self.failed
            } else {
                Some(failure)
            },
            ..self
        }
    }

    /// What a walk comes to: the first failure where one was met, whatever
    /// was found, and else the paths of the files found.
    pub open spec fn outcome(self) -> Result<Seq<Seq<char>>, IoFailureText> {
        match self.failed {
            Some(failure) => Err(failure),
            None => Ok(self.files()),
        }
    }

    /// The paths of the files listed so far.
    pub open spec fn files(self) -> Seq<Seq<char>> {
        Seq::new(self.found.len(), |i: int| path_text(self.root, self.found[i]))
    }

    /// What holds of a walk at every moment: each directory that waits or is
    /// being read is one that the walk enters, and each file found is one
    /// that the walk lists.
    pub open spec fn excludes(self) -> bool {
        &&& forall|i: int|
            0 <= i < self.pending.len() ==> is_walked(#[trigger] self.pending[i], self.ignored)
        &&& self.current matches Some(dir) ==> is_walked(dir, self.ignored)
        &&& forall|i: int|
            0 <= i < self.found.len() ==> is_listed(#[trigger] self.found[i], self.ignored)
    }
}

/// The files that `files_in` gives for a directory that the walk enters are
/// files that the walk lists.
pub proof fn lemma_files_in_listed(
    dir: Seq<Seq<char>>,
    entries: Seq<EntryText>,
    ignored: Seq<Seq<char>>,
)
    requires
        is_walked(dir, ignored),
    ensures
        forall|i: int|
            0 <= i < files_in(dir, entries).len() ==> is_listed(
                #[trigger] files_in(dir, entries)[i],
                ignored,
            ),
    decreases entries.len(),
{
    if entries.len() > 0 {
        let front = files_in(dir, entries.drop_last());
        lemma_files_in_listed(dir, entries.drop_last(), ignored);
        let path = dir.push(entries.last().name);
        assert(path.drop_last() =~= dir);
        assert forall|i: int| 0 <= i < files_in(dir, entries).len() implies is_listed(
            #[trigger] files_in(dir, entries)[i],
            ignored,
        ) by {
            if i < front.len() {
                assert(files_in(dir, entries)[i] == front[i]);
            } else {
                assert(files_in(dir, entries)[i] == path);
            }
        }
    }
}

/// The directories that `dirs_in` gives for a directory that the walk enters
/// are directories that the walk enters.
pub proof fn lemma_dirs_in_walked(
    dir: Seq<Seq<char>>,
    entries: Seq<EntryText>,
    ignored: Seq<Seq<char>>,
)
    requires
        is_walked(dir, ignored),
    ensures
        forall|i: int|
            0 <= i < dirs_in(dir, entries, ignored).len() ==> is_walked(
                #[trigger] dirs_in(dir, entries, ignored)[i],
                ignored,
            ),
    decreases entries.len(),
{
    if entries.len() > 0 {
        let front = dirs_in(dir, entries.drop_last(), ignored);
        lemma_dirs_in_walked(dir, entries.drop_last(), ignored);
        let path = dir.push(entries.last().name);
        assert forall|i: int| 0 <= i < dirs_in(dir, entries, ignored).len() implies is_walked(
            #[trigger] dirs_in(dir, entries, ignored)[i],
            ignored,
        ) by {
            if i < front.len() {
                assert(dirs_in(dir, entries, ignored)[i] == front[i]);
            } else {
                assert(dirs_in(dir, entries, ignored)[i] == path);
                assert forall|k: int| 0 <= k < path.len() implies !is_pruned(
                    #[trigger] path[k],
                    ignored,
                ) by {
                    if k < dir.len() {
                        assert(path[k] == dir[k]);
                    }
                }
            }
        }
    }
}

/// A walk excludes what it should from its first moment on: at the start,
/// after a directory is taken, and after its entries have come. So at no
/// moment does it hold a file below an ignored directory or a directory
/// named `.git`, nor a file named `.gitignore`.
pub proof fn lemma_walk_excludes(
    root: Seq<char>,
    ignored: Seq<Seq<char>>,
    s: LocatorText,
    entries: Seq<EntryText>,
)
    ensures
        LocatorText::start(root, ignored).excludes(),
        s.excludes() ==> s.advance().excludes(),
        s.excludes() ==> s.record(entries).excludes(),
{
    if s.excludes() {
        if s.current is Some {
            let dir = s.current->0;
            lemma_files_in_listed(dir, entries, s.ignored);
            lemma_dirs_in_walked(dir, entries, s.ignored);
        }
    }
}

/// A failure ends a walk, and leaves it excluding what it should. Once a
/// failure was met, the walk comes to that failure, whatever follows.
pub proof fn lemma_failure_ends_the_walk(
    s: LocatorText,
    failure: IoFailureText,
    later: IoFailureText,
    entries: Seq<EntryText>,
)
    ensures
        s.fail(failure).is_done(),
        s.fail(failure).outcome() is Err,
        s.failed is None ==> s.fail(failure).outcome() == Err::<Seq<Seq<char>>, IoFailureText>(
            failure,
        ),
        s.excludes() ==> s.fail(failure).excludes(),
        s.fail(failure).advance() == s.fail(failure),
        s.fail(failure).record(entries) == s.fail(failure),
        s.fail(failure).fail(later) == s.fail(failure),
        s.advance().failed == s.failed,
        s.record(entries).failed == s.failed,
{
}

/// A file that the walk lists has no segment but its last that names an
/// ignored directory or `.git`, and its last segment is not `.gitignore`.
pub proof fn lemma_listed_file(path: Seq<Seq<char>>, ignored: Seq<Seq<char>>, i: int)
    requires
        is_listed(path, ignored),
        0 <= i < path.len() - 1,
    ensures
        path[i] != ".git"@,
        !ignored.contains(path[i]),
        path.last() != ".gitignore"@,
{
    assert(path.drop_last()[i] == path[i]);
}

/// A file or a directory of a tree, with what the directory holds.
pub enum Node {
    File { name: Seq<char> },
    Dir { name: Seq<char>, entries: Seq<Node> },
}

impl Node {
    /// The node as an entry of the directory that holds it.
    pub open spec fn entry(self) -> EntryText {
        match self {
            Node::File { name } => EntryText { name, is_dir: false },
            Node::Dir { name, .. } => EntryText { name, is_dir: true },
        }
    }

    /// The node is a directory that the walk enters.
    pub open spec fn is_entered(self, ignored: Seq<Seq<char>>) -> bool {
        self is Dir && !is_pruned(self.entry().name, ignored)
    }
}

/// What reading a directory gives: the entries of its nodes.
pub open spec fn listing(entries: Seq<Node>) -> Seq<EntryText> {
    Seq::new(entries.len(), |i: int| entries[i].entry())
}

/// Every file of a directory that is to be listed: first the listed files
/// of the directory itself, then those of each sub-directory that is
/// entered, in the order of the entries.
pub open spec fn files_below(
    dir: Seq<Seq<char>>,
    entries: Seq<Node>,
    ignored: Seq<Seq<char>>,
) -> Seq<Seq<Seq<char>>>
    decreases entries, 1nat, 0nat,
{
    files_in(dir, listing(entries)) + files_below_each(dir, entries, ignored, entries.len())
}

/// Every file that is to be listed of the sub-directories among the first
/// `n` entries of a directory.
pub open spec fn files_below_each(
    dir: Seq<Seq<char>>,
    entries: Seq<Node>,
    ignored: Seq<Seq<char>>,
    n: nat,
) -> Seq<Seq<Seq<char>>>
    decreases entries, 0nat, n,
{
    if n == 0 || n > entries.len() {
        Seq::empty()
    } else {
        files_below_each(dir, entries, ignored, (n - 1) as nat) + (match entries[n - 1] {
            Node::Dir { name, entries: inner } => if is_pruned(name, ignored) {
                Seq::empty()
            } else {
                files_below(dir.push(name), inner, ignored)
            },
            Node::File { .. } => Seq::empty(),
        })
    }
}

/// What the sub-directories hold that the walk enters, in the order of the
/// entries.
pub open spec fn held_in(entries: Seq<Node>, ignored: Seq<Seq<char>>) -> Seq<Seq<Node>>
    decreases entries.len(),
{
    if entries.len() == 0 {
        Seq::empty()
    } else {
        match entries.last() {
            Node::Dir { name, entries: inner } => if is_pruned(name, ignored) {
                held_in(entries.drop_last(), ignored)
            } else {
                held_in(entries.drop_last(), ignored).push(inner)
            },
            Node::File { .. } => held_in(entries.drop_last(), ignored),
        }
    }
}

/// Every file that is still to be listed when the directories `pending`
/// wait, the last of them to be read next, and `held` is what each holds.
pub open spec fn files_to_come(
    pending: Seq<Seq<Seq<char>>>,
    held: Seq<Seq<Node>>,
    ignored: Seq<Seq<char>>,
) -> Seq<Seq<Seq<char>>>
    decreases pending.len(),
{
    if pending.len() == 0 || held.len() == 0 {
        Seq::empty()
    } else {
        files_below(pending.last(), held.last(), ignored) + files_to_come(
            pending.drop_last(),
            held.drop_last(),
            ignored,
        )
    }
}

/// One round of a walk through a tree: the next directory is taken, and its
/// entries come as the tree has them.
pub open spec fn round(s: LocatorText, held: Seq<Seq<Node>>) -> (LocatorText, Seq<Seq<Node>>) {
    if s.is_done() || held.len() == 0 {
        (s, held)
    } else {
        (
            s.advance().record(listing(held.last())),
            held.drop_last() + held_in(held.last(), s.ignored).reverse(),
        )
    }
}

/// Between two rounds of a walk through a tree: no directory is being read,
/// `held` is what the waiting directories hold, and the files found, with
/// those still to come, are `total`.
pub open spec fn on_the_way(
    s: LocatorText,
    held: Seq<Seq<Node>>,
    total: Seq<Seq<Seq<char>>>,
) -> bool {
    &&& s.current is None
    &&& s.pending.len() == held.len()
    &&& s.found + files_to_come(s.pending, held, s.ignored) == total
}

/// The entered sub-directories of a directory, and what they hold, after
/// one more entry.
proof fn lemma_one_more_entry(
    dir: Seq<Seq<char>>,
    entries: Seq<Node>,
    ignored: Seq<Seq<char>>,
    n: nat,
)
    requires
        0 < n <= entries.len(),
    ensures
        entries[n - 1].is_entered(ignored) ==> {
            &&& dirs_in(dir, listing(entries.take(n as int)), ignored) == dirs_in(
                dir,
                listing(entries.take(n - 1)),
                ignored,
            ).push(dir.push(entries[n - 1].entry().name))
            &&& held_in(entries.take(n as int), ignored) == held_in(entries.take(n - 1), ignored).push(
                entries[n - 1]->Dir_entries,
            )
        },
        !entries[n - 1].is_entered(ignored) ==> {
            &&& dirs_in(dir, listing(entries.take(n as int)), ignored) == dirs_in(
                dir,
                listing(entries.take(n - 1)),
                ignored,
            )
            &&& held_in(entries.take(n as int), ignored) == held_in(entries.take(n - 1), ignored)
        },
{
    let first = entries.take(n as int);
    let fewer = entries.take(n - 1);
    assert(first.drop_last() =~= fewer);
    assert(first.last() == entries[n - 1]);
    assert(listing(first).drop_last() =~= listing(fewer));
    assert(listing(first).last() == entries[n - 1].entry());
}

/// Putting the entered sub-directories among the first `n` entries of a
/// directory on the stack, the first of them on top, adds to what is to
/// come exactly their files, in the order of the entries.
pub proof fn lemma_sub_directories_wait(
    dir: Seq<Seq<char>>,
    entries: Seq<Node>,
    ignored: Seq<Seq<char>>,
    n: nat,
    pending: Seq<Seq<Seq<char>>>,
    held: Seq<Seq<Node>>,
)
    requires
        n <= entries.len(),
        pending.len() == held.len(),
    ensures
        dirs_in(dir, listing(entries.take(n as int)), ignored).len() == held_in(
            entries.take(n as int),
            ignored,
        ).len(),
        files_to_come(
            pending + dirs_in(dir, listing(entries.take(n as int)), ignored).reverse(),
            held + held_in(entries.take(n as int), ignored).reverse(),
            ignored,
        ) == files_below_each(dir, entries, ignored, n) + files_to_come(pending, held, ignored),
    decreases n,
{
    let dirs = dirs_in(dir, listing(entries.take(n as int)), ignored);
    let inners = held_in(entries.take(n as int), ignored);
    let to_come = files_to_come(pending, held, ignored);
    if n == 0 {
        assert(listing(entries.take(0)) =~= Seq::<EntryText>::empty());
        assert(entries.take(0) =~= Seq::<Node>::empty());
        assert(dirs =~= Seq::<Seq<Seq<char>>>::empty());
        assert(inners =~= Seq::<Seq<Node>>::empty());
        assert(pending + dirs.reverse() =~= pending);
        assert(held + inners.reverse() =~= held);
        assert(files_below_each(dir, entries, ignored, 0) + to_come =~= to_come);
    } else {
        let node = entries[n - 1];
        let fewer_dirs = dirs_in(dir, listing(entries.take(n - 1)), ignored);
        let fewer_inners = held_in(entries.take(n - 1), ignored);
        let before = files_below_each(dir, entries, ignored, (n - 1) as nat);
        lemma_one_more_entry(dir, entries, ignored, n);
        if node.is_entered(ignored) {
            let path = dir.push(node.entry().name);
            let inner = node->Dir_entries;
            let below = files_below(path, inner, ignored);
            lemma_sub_directories_wait(
                dir,
                entries,
                ignored,
                (n - 1) as nat,
                pending.push(path),
                held.push(inner),
            );
            assert(pending + dirs.reverse() == pending.push(path) + fewer_dirs.reverse()) by {
                assert(dirs == fewer_dirs.push(path));
                assert(fewer_dirs.push(path).reverse() =~= seq![path] + fewer_dirs.reverse());
                assert(pending + (seq![path] + fewer_dirs.reverse()) =~= pending.push(path)
                    + fewer_dirs.reverse());
            }
            assert(held + inners.reverse() == held.push(inner) + fewer_inners.reverse()) by {
                assert(inners == fewer_inners.push(inner));
                assert(fewer_inners.push(inner).reverse() =~= seq![inner]
                    + fewer_inners.reverse());
                assert(held + (seq![inner] + fewer_inners.reverse()) =~= held.push(inner)
                    + fewer_inners.reverse());
            }
            assert(files_to_come(pending.push(path), held.push(inner), ignored) == below
                + to_come) by {
                assert(pending.push(path).drop_last() =~= pending);
                assert(held.push(inner).drop_last() =~= held);
            }
            assert(files_below_each(dir, entries, ignored, n) == before + below);
            assert(before + (below + to_come) =~= (before + below) + to_come);
        } else {
            lemma_sub_directories_wait(dir, entries, ignored, (n - 1) as nat, pending, held);
            assert(files_below_each(dir, entries, ignored, n) =~= before);
        }
    }
}

/// A walk through a tree finds every file that is to be listed, and no
/// other, each once and in the order of the tree: what is found and what is
/// to come make up the same files before the first round and after every
/// round, and once no directory waits, nothing is to come.
pub proof fn lemma_walk_finds_every_file(
    root: Seq<char>,
    ignored: Seq<Seq<char>>,
    tree: Seq<Node>,
    s: LocatorText,
    held: Seq<Seq<Node>>,
    total: Seq<Seq<Seq<char>>>,
)
    ensures
        on_the_way(
            LocatorText::start(root, ignored),
            seq![tree],
            files_below(Seq::empty(), tree, ignored),
        ),
        on_the_way(s, held, total) ==> on_the_way(round(s, held).0, round(s, held).1, total),
        on_the_way(s, held, total) && s.is_done() ==> s.found == total,
{
    let start = LocatorText::start(root, ignored);
    assert(on_the_way(start, seq![tree], files_below(Seq::empty(), tree, ignored))) by {
        let nothing = files_to_come(start.pending.drop_last(), seq![tree].drop_last(), ignored);
        assert(start.pending.drop_last() =~= Seq::<Seq<Seq<char>>>::empty());
        assert(nothing =~= Seq::<Seq<Seq<char>>>::empty());
        assert(start.pending.last() == Seq::<Seq<char>>::empty());
        assert(seq![tree].last() == tree);
        assert(files_to_come(start.pending, seq![tree], ignored) == files_below(
            Seq::empty(),
            tree,
            ignored,
        ) + nothing);
        assert(start.found + (files_below(Seq::empty(), tree, ignored) + nothing) =~= files_below(
            Seq::empty(),
            tree,
            ignored,
        ));
    }
    if on_the_way(s, held, total) {
        if s.is_done() {
            assert(s.found + files_to_come(s.pending, held, s.ignored) =~= s.found);
        } else {
            let dir = s.pending.last();
            let entries = held.last();
            let rest = s.pending.drop_last();
            let rest_held = held.drop_last();
            let after = round(s, held);
            assert(entries.take(entries.len() as int) =~= entries);
            lemma_sub_directories_wait(dir, entries, s.ignored, entries.len(), rest, rest_held);
            assert(after.0.pending == rest + dirs_in(dir, listing(entries), s.ignored).reverse());
            assert(after.1 == rest_held + held_in(entries, s.ignored).reverse());
            assert(after.0.found == s.found + files_in(dir, listing(entries)));
            assert(files_to_come(s.pending, held, s.ignored) == files_below(
                dir,
                entries,
                s.ignored,
            ) + files_to_come(rest, rest_held, s.ignored));
            assert(after.0.found + files_to_come(after.0.pending, after.1, s.ignored) =~= s.found
                + files_to_come(s.pending, held, s.ignored));
        }
    }
}

/// The number of directories below a directory that the walk enters.
pub open spec fn entered_below(entries: Seq<Node>, ignored: Seq<Seq<char>>) -> nat
    decreases entries, 1nat, 0nat,
{
    entered_below_each(entries, ignored, entries.len())
}

/// The number of directories that the walk enters among the first `n`
/// entries of a directory and below them.
pub open spec fn entered_below_each(entries: Seq<Node>, ignored: Seq<Seq<char>>, n: nat) -> nat
    decreases entries, 0nat, n,
{
    if n == 0 || n > entries.len() {
        0
    } else {
        entered_below_each(entries, ignored, (n - 1) as nat) + (match entries[n - 1] {
            Node::Dir { name, entries: inner } => if is_pruned(name, ignored) {
                0
            } else {
                1 + entered_below(inner, ignored)
            },
            Node::File { .. } => 0,
        })
    }
}

/// The number of rounds that a walk through a tree still takes when the
/// waiting directories hold `held`: one for each of them, and one for each
/// directory below them that the walk enters.
pub open spec fn rounds_left(held: Seq<Seq<Node>>, ignored: Seq<Seq<char>>) -> nat
    decreases held.len(),
{
    if held.len() == 0 {
        0
    } else {
        1 + entered_below(held.last(), ignored) + rounds_left(held.drop_last(), ignored)
    }
}

/// Putting the entered sub-directories among the first `n` entries of a
/// directory on the stack adds one round for each of them and for each
/// directory below them that the walk enters.
pub proof fn lemma_sub_directories_take_rounds(
    entries: Seq<Node>,
    ignored: Seq<Seq<char>>,
    n: nat,
    held: Seq<Seq<Node>>,
)
    requires
        n <= entries.len(),
    ensures
        rounds_left(held + held_in(entries.take(n as int), ignored).reverse(), ignored)
            == entered_below_each(entries, ignored, n) + rounds_left(held, ignored),
    decreases n,
{
    let inners = held_in(entries.take(n as int), ignored);
    if n == 0 {
        assert(entries.take(0) =~= Seq::<Node>::empty());
        assert(inners =~= Seq::<Seq<Node>>::empty());
        assert(held + inners.reverse() =~= held);
    } else {
        let node = entries[n - 1];
        let fewer_inners = held_in(entries.take(n - 1), ignored);
        lemma_one_more_entry(Seq::empty(), entries, ignored, n);
        if node.is_entered(ignored) {
            let inner = node->Dir_entries;
            lemma_sub_directories_take_rounds(entries, ignored, (n - 1) as nat, held.push(inner));
            assert(held + inners.reverse() == held.push(inner) + fewer_inners.reverse()) by {
                assert(inners == fewer_inners.push(inner));
                assert(fewer_inners.push(inner).reverse() =~= seq![inner]
                    + fewer_inners.reverse());
                assert(held + (seq![inner] + fewer_inners.reverse()) =~= held.push(inner)
                    + fewer_inners.reverse());
            }
            assert(rounds_left(held.push(inner), ignored) == 1 + entered_below(inner, ignored)
                + rounds_left(held, ignored)) by {
                assert(held.push(inner).drop_last() =~= held);
            }
        } else {
            lemma_sub_directories_take_rounds(entries, ignored, (n - 1) as nat, held);
        }
    }
}

/// A walk through a tree ends: each round leaves one round fewer to take,
/// and when none is left, no directory waits.
pub proof fn lemma_walk_ends(s: LocatorText, held: Seq<Seq<Node>>)
    requires
        s.pending.len() == held.len(),
    ensures
        !s.is_done() ==> rounds_left(round(s, held).1, s.ignored) + 1 == rounds_left(
            held,
            s.ignored,
        ),
        round(s, held).0.pending.len() == round(s, held).1.len(),
        rounds_left(held, s.ignored) == 0 ==> s.is_done(),
{
    if !s.is_done() {
        let entries = held.last();
        assert(entries.take(entries.len() as int) =~= entries);
        lemma_sub_directories_take_rounds(entries, s.ignored, entries.len(), held.drop_last());
        lemma_sub_directories_wait(
            s.pending.last(),
            entries,
            s.ignored,
            entries.len(),
            s.pending.drop_last(),
            held.drop_last(),
        );
    }
}

/// The walk through a tree after `n` rounds.
pub open spec fn rounds(s: LocatorText, held: Seq<Seq<Node>>, n: nat) -> (
    LocatorText,
    Seq<Seq<Node>>,
)
    decreases n,
{
    if n == 0 {
        (s, held)
    } else {
        rounds(round(s, held).0, round(s, held).1, (n - 1) as nat)
    }
}

/// A walk that is on its way is done after as many rounds as are left, and
/// has then found every file that was to come, in order.
pub proof fn lemma_walk_runs_to_its_end(
    s: LocatorText,
    held: Seq<Seq<Node>>,
    total: Seq<Seq<Seq<char>>>,
    n: nat,
)
    requires
        on_the_way(s, held, total),
        n == rounds_left(held, s.ignored),
    ensures
        rounds(s, held, n).0.is_done(),
        rounds(s, held, n).0.found == total,
        rounds(s, held, n).0.failed == s.failed,
        rounds(s, held, n).0.root == s.root,
    decreases n,
{
    lemma_walk_ends(s, held);
    lemma_walk_finds_every_file(s.root, s.ignored, Seq::empty(), s, held, total);
    if n > 0 {
        let next = round(s, held);
        assert(!s.is_done());
        assert(next.0.ignored == s.ignored);
        lemma_walk_runs_to_its_end(next.0, next.1, total, (n - 1) as nat);
    }
}

/// The whole walk through a tree: begun at the root and run to its end, it
/// comes to exactly the paths of the files of the tree that are to be
/// listed, in the order of the tree.
pub proof fn lemma_whole_walk(root: Seq<char>, ignored: Seq<Seq<char>>, tree: Seq<Node>)
    ensures
        ({
            let end = rounds(
                LocatorText::start(root, ignored),
                seq![tree],
                rounds_left(seq![tree], ignored),
            ).0;
            &&& end.is_done()
            &&& end.found == files_below(Seq::empty(), tree, ignored)
            &&& end.outcome() == Ok::<Seq<Seq<char>>, IoFailureText>(
                Seq::new(
                    files_below(Seq::empty(), tree, ignored).len(),
                    |i: int| path_text(root, files_below(Seq::empty(), tree, ignored)[i]),
                ),
            )
        }),
{
    let start = LocatorText::start(root, ignored);
    let total = files_below(Seq::empty(), tree, ignored);
    lemma_walk_finds_every_file(root, ignored, tree, start, seq![tree], total);
    lemma_walk_runs_to_its_end(start, seq![tree], total, rounds_left(seq![tree], ignored));
    let end = rounds(start, seq![tree], rounds_left(seq![tree], ignored)).0;
    assert(end.files() =~= Seq::new(total.len(), |i: int| path_text(root, total[i])));
}

/// The path of an entry begins with the path of its directory.
pub proof fn lemma_path_begins_with_the_root(root: Seq<char>, path: Seq<Seq<char>>)
    ensures
        starts_with(path_text(root, path), root),
    decreases path.len(),
{
    if path.len() == 0 {
        assert(root.subrange(0, root.len() as int) =~= root);
    } else {
        let dir = path_text(root, path.drop_last());
        let whole = path_text(root, path);
        lemma_path_begins_with_the_root(root, path.drop_last());
        assert(whole.subrange(0, dir.len() as int) =~= dir);
        assert(whole.subrange(0, root.len() as int) =~= dir.subrange(0, root.len() as int));
    }
}

/// Every path that a walk gives begins with the root of the walk.
pub proof fn lemma_found_paths_begin_with_the_root(s: LocatorText, i: int)
    requires
        0 <= i < s.files().len(),
    ensures
        starts_with(s.files()[i], s.root),
{
    lemma_path_begins_with_the_root(s.root, s.found[i]);
}

/// The file with the segments `rel` below a directory that holds `entries`
/// is one to be listed: it is a file of the tree, its name is listed, and
/// every directory on the way to it is entered.
pub open spec fn is_file_below(
    entries: Seq<Node>,
    rel: Seq<Seq<char>>,
    ignored: Seq<Seq<char>>,
) -> bool
    decreases rel.len(), 2nat, 0nat,
{
    rel.len() > 0 && leads_among(entries, rel, ignored, entries.len())
}

/// One of the first `n` entries is the first step on the way `rel` to a
/// file to be listed.
pub open spec fn leads_among(
    entries: Seq<Node>,
    rel: Seq<Seq<char>>,
    ignored: Seq<Seq<char>>,
    n: nat,
) -> bool
    decreases rel.len(), 1nat, n,
{
    0 < n <= entries.len() && (leads_among(entries, rel, ignored, (n - 1) as nat) || leads_to(
        entries[n - 1],
        rel,
        ignored,
    ))
}

/// The node is the first step on the way `rel` to a file to be listed: the
/// file itself, or an entered directory that holds the rest of the way.
pub open spec fn leads_to(node: Node, rel: Seq<Seq<char>>, ignored: Seq<Seq<char>>) -> bool
    decreases rel.len(), 0nat, 0nat,
{
    match node {
        Node::File { name } => rel.len() == 1 && rel[0] == name && !is_unlisted(name),
        Node::Dir { name, entries: inner } => rel.len() > 1 && rel[0] == name && !is_pruned(
            name,
            ignored,
        ) && is_file_below(inner, rel.drop_first(), ignored),
    }
}

/// One of the first `n` entries leads on exactly where there is such an
/// entry.
proof fn lemma_leads_among(
    entries: Seq<Node>,
    rel: Seq<Seq<char>>,
    ignored: Seq<Seq<char>>,
    n: nat,
)
    requires
        n <= entries.len(),
    ensures
        leads_among(entries, rel, ignored, n) <==> exists|i: int|
            0 <= i < n && #[trigger] leads_to(entries[i], rel, ignored),
    decreases n,
{
    if n > 0 {
        lemma_leads_among(entries, rel, ignored, (n - 1) as nat);
        if leads_among(entries, rel, ignored, n) {
            if leads_among(entries, rel, ignored, (n - 1) as nat) {
                let i = choose|i: int|
                    0 <= i < n - 1 && #[trigger] leads_to(entries[i], rel, ignored);
                assert(0 <= i < n && leads_to(entries[i], rel, ignored));
            } else {
                assert(leads_to(entries[n - 1], rel, ignored));
            }
        }
        if exists|i: int| 0 <= i < n && #[trigger] leads_to(entries[i], rel, ignored) {
            let i = choose|i: int| 0 <= i < n && #[trigger] leads_to(entries[i], rel, ignored);
            if i < n - 1 {
                assert(0 <= i < n - 1 && leads_to(entries[i], rel, ignored));
            }
        }
    }
}

/// A file below a directory is to be listed exactly where one of the
/// entries of the directory is the first step on the way to it.
pub proof fn lemma_way_begins(entries: Seq<Node>, rel: Seq<Seq<char>>, ignored: Seq<Seq<char>>)
    ensures
        is_file_below(entries, rel, ignored) <==> rel.len() > 0 && exists|i: int|
            0 <= i < entries.len() && #[trigger] leads_to(entries[i], rel, ignored),
{
    lemma_leads_among(entries, rel, ignored, entries.len());
}

/// The path `path` lies below the directory `dir`, which holds `entries`,
/// and is the path of a file to be listed.
pub open spec fn is_file_under(
    dir: Seq<Seq<char>>,
    entries: Seq<Node>,
    ignored: Seq<Seq<char>>,
    path: Seq<Seq<char>>,
) -> bool {
    &&& path.len() > dir.len()
    &&& path.take(dir.len() as int) == dir
    &&& is_file_below(entries, path.skip(dir.len() as int), ignored)
}

/// What two sequences hold together is what one of them holds.
proof fn lemma_either_holds(
    a: Seq<Seq<Seq<char>>>,
    b: Seq<Seq<Seq<char>>>,
    path: Seq<Seq<char>>,
)
    ensures
        (a + b).contains(path) <==> a.contains(path) || b.contains(path),
{
    if a.contains(path) {
        let i = choose|i: int| 0 <= i < a.len() && a[i] == path;
        assert((a + b)[i] == path);
    }
    if b.contains(path) {
        let i = choose|i: int| 0 <= i < b.len() && b[i] == path;
        assert((a + b)[a.len() + i] == path);
    }
    if (a + b).contains(path) {
        let i = choose|i: int| 0 <= i < (a + b).len() && (a + b)[i] == path;
        if i < a.len() {
            assert(a[i] == path);
        } else {
            assert(b[i - a.len()] == path);
        }
    }
}

/// The node is a file whose name is listed.
pub open spec fn is_listed_file(node: Node) -> bool {
    node is File && !is_unlisted(node.entry().name)
}

/// The listed files of a directory are its files with a listed name.
proof fn lemma_files_in_member(dir: Seq<Seq<char>>, entries: Seq<Node>, path: Seq<Seq<char>>)
    ensures
        files_in(dir, listing(entries)).contains(path) <==> exists|i: int|
            0 <= i < entries.len() && is_listed_file(#[trigger] entries[i]) && path == dir.push(
                entries[i].entry().name,
            ),
    decreases entries.len(),
{
    let here = files_in(dir, listing(entries));
    if entries.len() > 0 {
        let front = entries.drop_last();
        let last = entries.last();
        let before = files_in(dir, listing(front));
        assert(listing(entries).drop_last() =~= listing(front));
        assert(listing(entries).last() == last.entry());
        lemma_files_in_member(dir, front, path);
        if is_listed_file(last) {
            assert(here == before.push(dir.push(last.entry().name)));
            assert(before.push(dir.push(last.entry().name)) =~= before + seq![
                dir.push(last.entry().name),
            ]);
            lemma_either_holds(before, seq![dir.push(last.entry().name)], path);
            if seq![dir.push(last.entry().name)].contains(path) {
                assert(path == dir.push(last.entry().name));
                assert(entries[entries.len() - 1] == last);
            }
            if path == dir.push(last.entry().name) {
                assert(seq![dir.push(last.entry().name)][0] == path);
            }
        } else {
            assert(here == before);
        }
        if before.contains(path) {
            let i = choose|i: int|
                0 <= i < front.len() && is_listed_file(#[trigger] front[i]) && path == dir.push(
                    front[i].entry().name,
                );
            assert(entries[i] == front[i]);
        }
        if exists|i: int|
            0 <= i < entries.len() && is_listed_file(#[trigger] entries[i]) && path == dir.push(
                entries[i].entry().name,
            ) {
            let i = choose|i: int|
                0 <= i < entries.len() && is_listed_file(#[trigger] entries[i]) && path
                    == dir.push(entries[i].entry().name);
            if i < front.len() {
                assert(front[i] == entries[i]);
            }
        }
    }
}

/// The files below the sub-directories among the first `n` entries are the
/// files below one of those that are entered.
proof fn lemma_files_below_each_member(
    dir: Seq<Seq<char>>,
    entries: Seq<Node>,
    ignored: Seq<Seq<char>>,
    n: nat,
    path: Seq<Seq<char>>,
)
    requires
        n <= entries.len(),
    ensures
        files_below_each(dir, entries, ignored, n).contains(path) <==> exists|i: int|
            0 <= i < n && (#[trigger] entries[i]).is_entered(ignored) && files_below(
                dir.push(entries[i].entry().name),
                entries[i]->Dir_entries,
                ignored,
            ).contains(path),
    decreases n,
{
    if n > 0 {
        let node = entries[n - 1];
        let before = files_below_each(dir, entries, ignored, (n - 1) as nat);
        lemma_files_below_each_member(dir, entries, ignored, (n - 1) as nat, path);
        if node.is_entered(ignored) {
            let below = files_below(dir.push(node.entry().name), node->Dir_entries, ignored);
            assert(files_below_each(dir, entries, ignored, n) == before + below);
            lemma_either_holds(before, below, path);
        } else {
            assert(files_below_each(dir, entries, ignored, n) =~= before);
        }
    }
}

/// A walk lists a path exactly where it is the path of a file of the tree,
/// no directory on the way to it has an ignored name or the name `.git`,
/// and its own name is not `.gitignore`.
pub proof fn lemma_listed_exactly(
    dir: Seq<Seq<char>>,
    entries: Seq<Node>,
    ignored: Seq<Seq<char>>,
    path: Seq<Seq<char>>,
)
    ensures
        files_below(dir, entries, ignored).contains(path) <==> is_file_under(
            dir,
            entries,
            ignored,
            path,
        ),
    decreases entries,
{
    let own = files_in(dir, listing(entries));
    let deeper = files_below_each(dir, entries, ignored, entries.len());
    let rel = path.skip(dir.len() as int);
    lemma_way_begins(entries, rel, ignored);
    lemma_files_in_member(dir, entries, path);
    lemma_files_below_each_member(dir, entries, ignored, entries.len(), path);
    lemma_either_holds(own, deeper, path);
    assert forall|i: int| 0 <= i < entries.len() && (#[trigger] entries[i]).is_entered(
        ignored,
    ) implies (files_below(
        dir.push(entries[i].entry().name),
        entries[i]->Dir_entries,
        ignored,
    ).contains(path) <==> is_file_under(
        dir.push(entries[i].entry().name),
        entries[i]->Dir_entries,
        ignored,
        path,
    )) by {
        lemma_listed_exactly(
            dir.push(entries[i].entry().name),
            entries[i]->Dir_entries,
            ignored,
            path,
        );
    }
    if own.contains(path) {
        let i = choose|i: int|
            0 <= i < entries.len() && is_listed_file(#[trigger] entries[i]) && path == dir.push(
                entries[i].entry().name,
            );
        assert(path.take(dir.len() as int) =~= dir);
        assert(rel =~= seq![entries[i].entry().name]);
        assert(leads_to(entries[i], rel, ignored));
        assert(is_file_under(dir, entries, ignored, path));
    }
    if deeper.contains(path) {
        let i = choose|i: int|
            0 <= i < entries.len() && (#[trigger] entries[i]).is_entered(ignored) && files_below(
                dir.push(entries[i].entry().name),
                entries[i]->Dir_entries,
                ignored,
            ).contains(path);
        let sub = dir.push(entries[i].entry().name);
        assert(path.take(sub.len() as int) == sub);
        assert(path.take(dir.len() as int) =~= sub.take(dir.len() as int));
        assert(sub.take(dir.len() as int) =~= dir);
        assert(rel[0] == sub[dir.len() as int]);
        assert(rel.drop_first() =~= path.skip(sub.len() as int));
        assert(leads_to(entries[i], rel, ignored));
        assert(is_file_under(dir, entries, ignored, path));
    }
    if is_file_under(dir, entries, ignored, path) {
        let i = choose|i: int|
            0 <= i < entries.len() && #[trigger] leads_to(entries[i], rel, ignored);
        let name = entries[i].entry().name;
        let sub = dir.push(name);
        assert(rel[0] == name) by {
            assert(leads_to(entries[i], rel, ignored));
        }
        assert(rel[0] == path[dir.len() as int]);
        assert(path.take(sub.len() as int) =~= sub) by {
            assert forall|k: int| 0 <= k < sub.len() implies path.take(sub.len() as int)[k]
                == sub[k] by {
                if k < dir.len() {
                    assert(path.take(dir.len() as int)[k] == path[k]);
                }
            }
        }
        if entries[i] is File {
            assert(path =~= sub);
            assert(is_listed_file(entries[i]));
            assert(own.contains(path));
        } else {
            assert(rel.drop_first() =~= path.skip(sub.len() as int));
            assert(is_file_under(sub, entries[i]->Dir_entries, ignored, path));
            assert(entries[i].is_entered(ignored));
            assert(deeper.contains(path));
        }
    }
}

/// In every directory of the tree, no two entries have the same name.
pub open spec fn names_differ(entries: Seq<Node>) -> bool
    decreases entries, 1nat, 0nat,
{
    names_differ_among(entries, entries.len())
}

/// Among the first `n` entries of a directory no two have the same name,
/// and the same holds in every directory below them.
pub open spec fn names_differ_among(entries: Seq<Node>, n: nat) -> bool
    decreases entries, 0nat, n,
{
    if n == 0 || n > entries.len() {
        true
    } else {
        &&& names_differ_among(entries, (n - 1) as nat)
        &&& forall|i: int|
            0 <= i < n - 1 ==> (#[trigger] entries[i]).entry().name != entries[n - 1].entry().name
        &&& match entries[n - 1] {
            Node::Dir { entries: inner, .. } => names_differ(inner),
            Node::File { .. } => true,
        }
    }
}

/// Where names differ among the first `n` entries, any two of them have
/// different names, and names differ in each directory among them.
proof fn lemma_names_differ_among(entries: Seq<Node>, n: nat, i: int, j: int)
    requires
        n <= entries.len(),
        names_differ_among(entries, n),
        0 <= i < j < n,
    ensures
        entries[i].entry().name != entries[j].entry().name,
        entries[j] is Dir ==> names_differ(entries[j]->Dir_entries),
        entries[i] is Dir ==> names_differ(entries[i]->Dir_entries),
    decreases n,
{
    if j < n - 1 {
        lemma_names_differ_among(entries, (n - 1) as nat, i, j);
    } else if i < n - 2 {
        lemma_names_differ_among(entries, (n - 1) as nat, i, n - 2);
    } else if i == n - 2 && n >= 2 {
        assert(names_differ_among(entries, (n - 1) as nat));
    }
}

/// The listed files of a directory in which no two entries have the same
/// name are listed once each.
proof fn lemma_own_files_once(dir: Seq<Seq<char>>, entries: Seq<Node>, n: nat)
    requires
        n <= entries.len(),
        names_differ_among(entries, n),
    ensures
        files_in(dir, listing(entries.take(n as int))).no_duplicates(),
    decreases n,
{
    let first = entries.take(n as int);
    if n > 0 {
        let fewer = entries.take(n - 1);
        let last = entries[n - 1];
        let before = files_in(dir, listing(fewer));
        assert(first.drop_last() =~= fewer);
        assert(first.last() == last);
        assert(listing(first).drop_last() =~= listing(fewer));
        assert(listing(first).last() == last.entry());
        lemma_own_files_once(dir, entries, (n - 1) as nat);
        if is_listed_file(last) {
            let path = dir.push(last.entry().name);
            assert forall|k: int, m: int| 0 <= k < before.len() && 0 <= m < seq![
                path,
            ].len() implies before[k] != seq![path][m] by {
                lemma_files_in_member(dir, fewer, before[k]);
                assert(before.contains(before[k]));
                let i = choose|i: int|
                    0 <= i < fewer.len() && is_listed_file(#[trigger] fewer[i]) && before[k]
                        == dir.push(fewer[i].entry().name);
                assert(fewer[i] == entries[i]);
                lemma_names_differ_among(entries, n, i, n - 1);
                assert(before[k].last() == fewer[i].entry().name);
                assert(path.last() == last.entry().name);
            }
            vstd::seq_lib::lemma_no_dup_in_concat(before, seq![path]);
            assert(before.push(path) =~= before + seq![path]);
        }
    }
}

/// Every file below a directory has more segments than the directory, and
/// begins with its segments.
proof fn lemma_below_is_longer(
    dir: Seq<Seq<char>>,
    entries: Seq<Node>,
    ignored: Seq<Seq<char>>,
    path: Seq<Seq<char>>,
)
    requires
        files_below(dir, entries, ignored).contains(path),
    ensures
        path.len() > dir.len(),
        path.take(dir.len() as int) == dir,
{
    lemma_listed_exactly(dir, entries, ignored, path);
}

/// Where no two entries of a directory have the same name, in the whole
/// tree, the files below the sub-directories among the first `n` entries
/// are listed once each.
proof fn lemma_deeper_files_once(
    dir: Seq<Seq<char>>,
    entries: Seq<Node>,
    ignored: Seq<Seq<char>>,
    n: nat,
)
    requires
        n <= entries.len(),
        names_differ_among(entries, n),
    ensures
        files_below_each(dir, entries, ignored, n).no_duplicates(),
    decreases entries, 0nat, n,
{
    if n > 0 {
        let node = entries[n - 1];
        let before = files_below_each(dir, entries, ignored, (n - 1) as nat);
        lemma_deeper_files_once(dir, entries, ignored, (n - 1) as nat);
        if node.is_entered(ignored) {
            let sub = dir.push(node.entry().name);
            let below = files_below(sub, node->Dir_entries, ignored);
            lemma_files_once(sub, node->Dir_entries, ignored);
            assert forall|k: int, m: int|
                0 <= k < before.len() && 0 <= m < below.len() implies before[k] != below[m] by {
                assert(before.contains(before[k]));
                assert(below.contains(below[m]));
                lemma_files_below_each_member(dir, entries, ignored, (n - 1) as nat, before[k]);
                let i = choose|i: int|
                    0 <= i < n - 1 && (#[trigger] entries[i]).is_entered(ignored) && files_below(
                        dir.push(entries[i].entry().name),
                        entries[i]->Dir_entries,
                        ignored,
                    ).contains(before[k]);
                let other = dir.push(entries[i].entry().name);
                lemma_below_is_longer(other, entries[i]->Dir_entries, ignored, before[k]);
                lemma_below_is_longer(sub, node->Dir_entries, ignored, below[m]);
                lemma_names_differ_among(entries, n, i, n - 1);
                assert(before[k].take(other.len() as int)[dir.len() as int] == other[dir.len() as int]);
                assert(below[m].take(sub.len() as int)[dir.len() as int] == sub[dir.len() as int]);
            }
            vstd::seq_lib::lemma_no_dup_in_concat(before, below);
        } else {
            assert(files_below_each(dir, entries, ignored, n) =~= before);
        }
    }
}

/// Where no two entries of a directory have the same name, in the whole
/// tree, a walk lists no file twice.
pub proof fn lemma_files_once(dir: Seq<Seq<char>>, entries: Seq<Node>, ignored: Seq<Seq<char>>)
    requires
        names_differ(entries),
    ensures
        files_below(dir, entries, ignored).no_duplicates(),
    decreases entries, 1nat, 0nat,
{
    let own = files_in(dir, listing(entries));
    let deeper = files_below_each(dir, entries, ignored, entries.len());
    assert(entries.take(entries.len() as int) =~= entries);
    lemma_own_files_once(dir, entries, entries.len());
    lemma_deeper_files_once(dir, entries, ignored, entries.len());
    assert forall|k: int, m: int| 0 <= k < own.len() && 0 <= m < deeper.len() implies own[k]
        != deeper[m] by {
        assert(own.contains(own[k]));
        assert(deeper.contains(deeper[m]));
        lemma_files_in_member(dir, entries, own[k]);
        lemma_files_below_each_member(dir, entries, ignored, entries.len(), deeper[m]);
        let i = choose|i: int|
            0 <= i < entries.len() && (#[trigger] entries[i]).is_entered(ignored) && files_below(
                dir.push(entries[i].entry().name),
                entries[i]->Dir_entries,
                ignored,
            ).contains(deeper[m]);
        lemma_below_is_longer(
            dir.push(entries[i].entry().name),
            entries[i]->Dir_entries,
            ignored,
            deeper[m],
        );
    }
    vstd::seq_lib::lemma_no_dup_in_concat(own, deeper);
}

/// A name that can be a segment of a path: it is not empty and holds no
/// separator.
pub open spec fn is_segment(name: Seq<char>) -> bool {
    name.len() > 0 && forall|i: int| 0 <= i < name.len() ==> #[trigger] name[i] != '/'
}

/// Every one of the segments can be a segment of a path.
pub open spec fn are_segments(path: Seq<Seq<char>>) -> bool {
    forall|i: int| 0 <= i < path.len() ==> is_segment(#[trigger] path[i])
}

/// Every name in the tree can be a segment of a path.
pub open spec fn names_are_segments(entries: Seq<Node>) -> bool
    decreases entries, 1nat, 0nat,
{
    names_are_segments_among(entries, entries.len())
}

/// The names of the first `n` entries of a directory can be segments of a
/// path, and so can every name below them.
pub open spec fn names_are_segments_among(entries: Seq<Node>, n: nat) -> bool
    decreases entries, 0nat, n,
{
    if n == 0 || n > entries.len() {
        true
    } else {
        &&& names_are_segments_among(entries, (n - 1) as nat)
        &&& is_segment(entries[n - 1].entry().name)
        &&& match entries[n - 1] {
            Node::Dir { entries: inner, .. } => names_are_segments(inner),
            Node::File { .. } => true,
        }
    }
}

/// Where the names of the first `n` entries can be segments, the name of
/// each of them can, and so can the names in each directory among them.
proof fn lemma_names_are_segments_among(entries: Seq<Node>, n: nat, i: int)
    requires
        n <= entries.len(),
        names_are_segments_among(entries, n),
        0 <= i < n,
    ensures
        is_segment(entries[i].entry().name),
        entries[i] is Dir ==> names_are_segments(entries[i]->Dir_entries),
    decreases n,
{
    if i < n - 1 {
        lemma_names_are_segments_among(entries, (n - 1) as nat, i);
    }
}

/// The way to a file of a tree whose names can be segments is made of
/// segments.
proof fn lemma_way_is_made_of_segments(
    entries: Seq<Node>,
    rel: Seq<Seq<char>>,
    ignored: Seq<Seq<char>>,
)
    requires
        names_are_segments(entries),
        is_file_below(entries, rel, ignored),
    ensures
        are_segments(rel),
    decreases rel.len(),
{
    lemma_way_begins(entries, rel, ignored);
    let i = choose|i: int| 0 <= i < entries.len() && #[trigger] leads_to(entries[i], rel, ignored);
    lemma_names_are_segments_among(entries, entries.len(), i);
    assert(rel[0] == entries[i].entry().name);
    if entries[i] is Dir {
        let rest = rel.drop_first();
        lemma_way_is_made_of_segments(entries[i]->Dir_entries, rest, ignored);
        assert forall|k: int| 0 <= k < rel.len() implies is_segment(#[trigger] rel[k]) by {
            if k > 0 {
                assert(rel[k] == rest[k - 1]);
            }
        }
    }
}

/// A path is longer than the path of its directory, where the names are
/// segments: at least by the segments that were added.
proof fn lemma_path_grows(root: Seq<char>, path: Seq<Seq<char>>)
    requires
        are_segments(path),
    ensures
        path_text(root, path).len() >= root.len() + path.len(),
        path.len() > 0 ==> path_text(root, path).last() != '/',
    decreases path.len(),
{
    if path.len() > 0 {
        let front = path.drop_last();
        assert forall|i: int| 0 <= i < front.len() implies is_segment(#[trigger] front[i]) by {
            assert(front[i] == path[i]);
        }
        lemma_path_grows(root, front);
        let name = path.last();
        assert(is_segment(path[path.len() - 1]));
        assert(path_text(root, path).last() == name.last());
    }
}

/// The last segment of the path of an entry is the name of the entry, and
/// before it stands the path of the directory, with the separator where
/// the directory does not end with one.
proof fn lemma_child_path_parts(dir: Seq<char>, name: Seq<char>)
    requires
        is_segment(name),
    ensures
        last_segment(child_path(dir, name)) == name,
        child_path(dir, name).len() >= dir.len() + name.len(),
        child_path(dir, name).subrange(0, child_path(dir, name).len() - name.len()) == (if dir.len()
            == 0 || dir.last() == '/' {
            dir
        } else {
            dir.push('/')
        }),
{
    let whole = child_path(dir, name);
    let lead = if dir.len() == 0 || dir.last() == '/' {
        dir
    } else {
        dir.push('/')
    };
    reveal_strlit("/");
    assert("/"@ =~= seq!['/']);
    assert(whole =~= lead + name);
    assert forall|j: int| lead.len() <= j < whole.len() implies #[trigger] whole[j] != '/' by {
        assert(whole[j] == name[j - lead.len()]);
    }
    if lead.len() > 0 {
        assert(whole[lead.len() - 1] == '/');
    }
    lemma_last_index_of(whole, '/', lead.len() - 1);
    assert(whole.subrange(lead.len() as int, whole.len() as int) =~= name);
    assert(whole.subrange(0, whole.len() - name.len()) =~= lead);
}

/// Different ways below a root have different paths, where the names are
/// segments.
pub proof fn lemma_path_tells_the_way(root: Seq<char>, a: Seq<Seq<char>>, b: Seq<Seq<char>>)
    requires
        are_segments(a),
        are_segments(b),
        path_text(root, a) == path_text(root, b),
    ensures
        a == b,
    decreases a.len() + b.len(),
{
    lemma_path_grows(root, a);
    lemma_path_grows(root, b);
    if a.len() == 0 || b.len() == 0 {
        assert(a.len() == 0 && b.len() == 0);
        assert(a =~= b);
    } else {
        let front_a = a.drop_last();
        let front_b = b.drop_last();
        let dir_a = path_text(root, front_a);
        let dir_b = path_text(root, front_b);
        assert(is_segment(a[a.len() - 1]));
        assert(is_segment(b[b.len() - 1]));
        assert forall|i: int| 0 <= i < front_a.len() implies is_segment(#[trigger] front_a[i]) by {
            assert(front_a[i] == a[i]);
        }
        assert forall|i: int| 0 <= i < front_b.len() implies is_segment(#[trigger] front_b[i]) by {
            assert(front_b[i] == b[i]);
        }
        lemma_child_path_parts(dir_a, a.last());
        lemma_child_path_parts(dir_b, b.last());
        lemma_path_grows(root, front_a);
        lemma_path_grows(root, front_b);
        assert(a.last() == b.last());
        let lead_a = if dir_a.len() == 0 || dir_a.last() == '/' {
            dir_a
        } else {
            dir_a.push('/')
        };
        let lead_b = if dir_b.len() == 0 || dir_b.last() == '/' {
            dir_b
        } else {
            dir_b.push('/')
        };
        assert(lead_a == lead_b);
        assert(dir_a == dir_b) by {
            if lead_a == dir_a && lead_b != dir_b {
                assert(dir_a.last() == '/');
                assert(front_a.len() == 0);
                assert(dir_a == root);
                assert(dir_b.len() + 1 == root.len());
            } else if lead_a != dir_a && lead_b == dir_b {
                assert(dir_b.last() == '/');
                assert(front_b.len() == 0);
                assert(dir_b == root);
                assert(dir_a.len() + 1 == root.len());
            } else if lead_a != dir_a {
                assert(dir_a =~= dir_a.push('/').drop_last());
                assert(dir_b =~= dir_b.push('/').drop_last());
            }
        }
        lemma_path_tells_the_way(root, front_a, front_b);
        assert(a =~= front_a.push(a.last()));
        assert(b =~= front_b.push(b.last()));
    }
}

/// Where no two entries of a directory have the same name and every name
/// can be a segment of a path, in the whole tree, no path occurs twice
/// among the paths that a walk gives.
pub proof fn lemma_paths_once(root: Seq<char>, tree: Seq<Node>, ignored: Seq<Seq<char>>)
    requires
        names_differ(tree),
        names_are_segments(tree),
    ensures
        Seq::new(
            files_below(Seq::empty(), tree, ignored).len(),
            |i: int| path_text(root, files_below(Seq::empty(), tree, ignored)[i]),
        ).no_duplicates(),
{
    let found = files_below(Seq::empty(), tree, ignored);
    let paths = Seq::new(found.len(), |i: int| path_text(root, found[i]));
    lemma_files_once(Seq::empty(), tree, ignored);
    assert forall|i: int, j: int|
        0 <= i < paths.len() && 0 <= j < paths.len() && i != j implies paths[i] != paths[j] by {
        assert(found.contains(found[i]));
        assert(found.contains(found[j]));
        lemma_listed_exactly(Seq::empty(), tree, ignored, found[i]);
        lemma_listed_exactly(Seq::empty(), tree, ignored, found[j]);
        assert(found[i].skip(0) =~= found[i]);
        assert(found[j].skip(0) =~= found[j]);
        lemma_way_is_made_of_segments(tree, found[i], ignored);
        lemma_way_is_made_of_segments(tree, found[j], ignored);
        if paths[i] == paths[j] {
            lemma_path_tells_the_way(root, found[i], found[j]);
        }
    }
}

/// What a walk through a tree comes to, where every directory can be read,
/// no two entries of a directory have the same name and every name can be
/// a segment of a path: the paths of exactly the files that are to be
/// listed, each once, and each beginning with the root.
pub proof fn lemma_walk_of_a_tree(root: Seq<char>, ignored: Seq<Seq<char>>, tree: Seq<Node>)
    requires
        names_differ(tree),
        names_are_segments(tree),
    ensures
        ({
            let end = rounds(
                LocatorText::start(root, ignored),
                seq![tree],
                rounds_left(seq![tree], ignored),
            ).0;
            &&& end.is_done()
            &&& end.outcome() == Ok::<Seq<Seq<char>>, IoFailureText>(end.files())
            &&& end.files().no_duplicates()
            &&& forall|i: int|
                0 <= i < end.files().len() ==> starts_with(#[trigger] end.files()[i], root)
            &&& forall|path: Seq<Seq<char>>| #[trigger]
                end.found.contains(path) <==> is_file_under(Seq::empty(), tree, ignored, path)
        }),
{
    let end = rounds(
        LocatorText::start(root, ignored),
        seq![tree],
        rounds_left(seq![tree], ignored),
    ).0;
    let total = files_below(Seq::empty(), tree, ignored);
    lemma_whole_walk(root, ignored, tree);
    lemma_paths_once(root, tree, ignored);
    lemma_walk_finds_every_file(
        root,
        ignored,
        tree,
        LocatorText::start(root, ignored),
        seq![tree],
        total,
    );
    lemma_walk_runs_to_its_end(
        LocatorText::start(root, ignored),
        seq![tree],
        total,
        rounds_left(seq![tree], ignored),
    );
    assert(end.root == root);
    assert(end.files() =~= Seq::new(total.len(), |i: int| path_text(root, total[i])));
    assert forall|i: int| 0 <= i < end.files().len() implies starts_with(
        #[trigger] end.files()[i],
        root,
    ) by {
        lemma_found_paths_begin_with_the_root(end, i);
    }
    assert forall|path: Seq<Seq<char>>| #[trigger]
        end.found.contains(path) <==> is_file_under(Seq::empty(), tree, ignored, path) by {
        lemma_listed_exactly(Seq::empty(), tree, ignored, path);
    }
}

/// A copy of the strings.
fn copy_strings(items: &Vec<String>) -> (copy: Vec<String>)
    ensures
        string_views(copy@) == string_views(items@),
{
    let mut copy: Vec<String> = Vec::new();
    let mut i: usize = 0;
    while i < items.len()
        invariant
            i <= items.len(),
            copy@.len() == i,
            forall|j: int| 0 <= j < i ==> (#[trigger] copy@[j])@ == items@[j]@,
        decreases items.len() - i,
    {
        copy.push(items[i].clone());
        i += 1;
    }
    assert(string_views(copy@) =~= string_views(items@));
    copy
}

/// The path of the segments below a root.
fn path_string(root: &str, path: &Vec<String>) -> (text: String)
    ensures
        text@ == path_text(root@, string_views(path@)),
{
    let ghost segments = string_views(path@);
    let mut text = chars_of(root);
    let mut i: usize = 0;
    proof {
        assert(segments.take(0) =~= Seq::<Seq<char>>::empty());
    }
    while i < path.len()
        invariant
            i <= path.len(),
            segments == string_views(path@),
            text@ == path_text(root@, segments.take(i as int)),
        decreases path.len() - i,
    {
        let name = chars_of(path[i].as_str());
        proof {
            assert(segments.take(i + 1).drop_last() =~= segments.take(i as int));
            assert(segments.take(i + 1).last() == name@);
        }
        text = join_path(&text, &name);
        i += 1;
    }
    proof {
        assert(segments.take(segments.len() as int) =~= segments);
    }
    string_of(&text)
}

/// Tests whether a directory of this name is not entered.
fn prunes(name: &str, ignored: &Vec<String>) -> (pruned: bool)
    ensures
        pruned == is_pruned(name@, string_views(ignored@)),
{
    let text = chars_of(name);
    let git = chars_of(".git");
    same_text(&text, &git) || holds_text(ignored, &text)
}

/// Tests whether a file of this name is not listed.
fn unlisted(name: &str) -> (hidden: bool)
    ensures
        hidden == is_unlisted(name@),
{
    let text = chars_of(name);
    let gitignore = chars_of(".gitignore");
    same_text(&text, &gitignore)
}

/// The segments of the entry `name` in the directory `dir`.
fn child_of(dir: &Vec<String>, name: &String) -> (path: Vec<String>)
    ensures
        string_views(path@) == string_views(dir@).push(name@),
{
    let mut path = copy_strings(dir);
    let ghost before = string_views(path@);
    path.push(name.clone());
    assert(string_views(path@) =~= before.push(name@));
    path
}

/// The listed files and the entered sub-directories of a directory, each in
/// the order of the entries.
fn sort_entries(dir: &Vec<String>, entries: &Vec<DirEntry>, ignored: &Vec<String>) -> (sorted: (
    Vec<Vec<String>>,
    Vec<Vec<String>>,
))
    ensures
        path_views(sorted.0@) == files_in(string_views(dir@), entry_views(entries@)),
        path_views(sorted.1@) == dirs_in(
            string_views(dir@),
            entry_views(entries@),
            string_views(ignored@),
        ),
{
    let ghost all = entry_views(entries@);
    let ghost here = string_views(dir@);
    let ghost names = string_views(ignored@);
    let mut files: Vec<Vec<String>> = Vec::new();
    let mut dirs: Vec<Vec<String>> = Vec::new();
    let mut i: usize = 0;
    proof {
        assert(all.take(0) =~= Seq::<EntryText>::empty());
        assert(path_views(files@) =~= files_in(here, all.take(0)));
        assert(path_views(dirs@) =~= dirs_in(here, all.take(0), names));
    }
    while i < entries.len()
        invariant
            i <= entries.len(),
            all == entry_views(entries@),
            here == string_views(dir@),
            names == string_views(ignored@),
            path_views(files@) == files_in(here, all.take(i as int)),
            path_views(dirs@) == dirs_in(here, all.take(i as int), names),
        decreases entries.len() - i,
    {
        let entry = &entries[i];
        let ghost files_before = path_views(files@);
        let ghost dirs_before = path_views(dirs@);
        proof {
            assert(all.take(i + 1).drop_last() =~= all.take(i as int));
            assert(all.take(i + 1).last() == entry@);
        }
        if entry.is_dir {
            if !prunes(entry.name.as_str(), ignored) {
                dirs.push(child_of(dir, &entry.name));
                assert(path_views(dirs@) =~= dirs_before.push(here.push(entry@.name)));
            }
        } else if !unlisted(entry.name.as_str()) {
            files.push(child_of(dir, &entry.name));
            assert(path_views(files@) =~= files_before.push(here.push(entry@.name)));
        }
        i += 1;
    }
    proof {
        assert(all.take(all.len() as int) =~= all);
    }
    (files, dirs)
}

/// A walk through a directory tree.
pub struct FileLocator {
    root: String,
    ignored: Vec<String>,
    pending: Vec<Vec<String>>,
    current: Option<Vec<String>>,
    found: Vec<Vec<String>>,
    failed: Option<IoFailure>,
}

impl View for FileLocator {
    type V = LocatorText;

    closed spec fn view(&self) -> LocatorText {
        LocatorText {
            root: self.root@,
            ignored: string_views(self.ignored@),
            pending: path_views(self.pending@),
            current: match self.current {
                Some(dir) => Some(string_views(dir@)),
                None => None,
            },
            found: path_views(self.found@),
            failed: match self.failed {
                Some(failure) => Some(failure@),
                None => None,
            },
        }
    }
}

impl FileLocator {
    #[verifier::type_invariant]
    spec fn keeps_out(&self) -> bool {
        self@.excludes()
    }

    /// A walk that begins at `root` and enters no directory with one of the
    /// ignored names.
    pub fn new(root: &str, ignored: &Vec<String>) -> (walk: FileLocator)
        ensures
            walk@ == LocatorText::start(root@, string_views(ignored@)),
    {
        let mut pending: Vec<Vec<String>> = Vec::new();
        pending.push(Vec::new());
        let found: Vec<Vec<String>> = Vec::new();
        proof {
            assert(string_views(pending@[0]@) =~= Seq::<Seq<char>>::empty());
            assert(path_views(pending@) =~= seq![Seq::<Seq<char>>::empty()]);
            assert(path_views(found@) =~= Seq::<Seq<Seq<char>>>::empty());
            lemma_walk_excludes(
                root@,
                string_views(ignored@),
                LocatorText::start(root@, string_views(ignored@)),
                Seq::empty(),
            );
        }
        FileLocator {
            root: root.to_owned(),
            ignored: copy_strings(ignored),
            pending,
            current: None,
            found,
            failed: None,
        }
    }

    /// Takes the directory to read next from the stack and gives its path,
    /// or `None` where no directory waits: the walk is then done.
    pub fn next_directory(&mut self) -> (dir: Option<String>)
        ensures
            final(self)@ == old(self)@.advance(),
            match dir {
                Some(path) => !old(self)@.is_done() && path@ == path_text(
                    old(self)@.root,
                    old(self)@.pending.last(),
                ),
                None => old(self)@.is_done(),
            },
    {
        proof {
            use_type_invariant(&*self);
            lemma_walk_excludes(self@.root, self@.ignored, self@, Seq::empty());
        }
        let ghost before = self@;
        let mut pending: Vec<Vec<String>> = Vec::new();
        proof {
            assert(path_views(pending@) =~= Seq::<Seq<Seq<char>>>::empty());
        }
        std::mem::swap(&mut self.pending, &mut pending);
        match pending.pop() {
            None => {
                proof {
                    assert(path_views(pending@) =~= before.pending);
                }
                self.pending = pending;
                None
            },
            Some(dir) => {
                let path = path_string(self.root.as_str(), &dir);
                proof {
                    assert(path_views(pending@) =~= before.pending.drop_last());
                    assert(string_views(dir@) == before.pending.last());
                }
                self.pending = pending;
                self.current = Some(dir);
                Some(path)
            },
        }
    }

    /// Takes the entries of the directory that is being read. Where none is
    /// being read, nothing changes.
    pub fn record(&mut self, entries: &Vec<DirEntry>)
        ensures
            final(self)@ == old(self)@.record(entry_views(entries@)),
    {
        proof {
            use_type_invariant(&*self);
            lemma_walk_excludes(self@.root, self@.ignored, self@, entry_views(entries@));
        }
        let ghost before = self@;
        let ghost listing = entry_views(entries@);
        let sorted = match &self.current {
            None => {
                return ;
            },
            Some(dir) => sort_entries(dir, entries, &self.ignored),
        };
        let ghost here = before.current->0;
        let mut files = sorted.0;
        let mut dirs = sorted.1;
        let ghost new_files = files_in(here, listing);
        let ghost new_dirs = dirs_in(here, listing, before.ignored);
        let mut found: Vec<Vec<String>> = Vec::new();
        let mut pending: Vec<Vec<String>> = Vec::new();
        proof {
            assert(path_views(found@) =~= Seq::<Seq<Seq<char>>>::empty());
            assert(path_views(pending@) =~= Seq::<Seq<Seq<char>>>::empty());
        }
        std::mem::swap(&mut self.found, &mut found);
        std::mem::swap(&mut self.pending, &mut pending);
        found.append(&mut files);
        proof {
            assert(path_views(found@) =~= before.found + new_files);
        }
        let ghost total = new_dirs.len();
        proof {
            assert(new_dirs.take(total as int) =~= new_dirs);
            assert(before.pending + new_dirs.reverse().take(0) =~= before.pending);
        }
        while dirs.len() > 0
            invariant
                dirs.len() <= total,
                total == new_dirs.len(),
                path_views(dirs@) == new_dirs.take(dirs.len() as int),
                path_views(pending@) == before.pending + new_dirs.reverse().take(
                    total - dirs.len(),
                ),
            decreases dirs.len(),
        {
            let ghost pending_before = path_views(pending@);
            let ghost left = dirs.len();
            let ghost dirs_before = path_views(dirs@);
            match dirs.pop() {
                None => {},
                Some(dir) => {
                    proof {
                        assert(string_views(dir@) == dirs_before[left - 1]);
                        assert(string_views(dir@) == new_dirs[left - 1]);
                        assert(path_views(dirs@) =~= new_dirs.take(left - 1));
                        assert(new_dirs.reverse()[total - left] == new_dirs[left - 1]);
                        assert(pending_before.push(string_views(dir@)) =~= before.pending
                            + new_dirs.reverse().take(total - left + 1));
                    }
                    pending.push(dir);
                    proof {
                        assert(path_views(pending@) =~= pending_before.push(string_views(dir@)));
                    }
                },
            }
        }
        proof {
            assert(new_dirs.reverse().take(total as int) =~= new_dirs.reverse());
        }
        self.current = None;
        proof {
            let after = before.record(listing);
            assert(after.excludes());
            assert(path_views(found@) == after.found);
            assert(path_views(pending@) == after.pending);
            assert forall|k: int| 0 <= k < path_views(found@).len() implies is_listed(
                #[trigger] path_views(found@)[k],
                before.ignored,
            ) by {
                assert(is_listed(after.found[k], after.ignored));
            }
            assert forall|k: int| 0 <= k < path_views(pending@).len() implies is_walked(
                #[trigger] path_views(pending@)[k],
                before.ignored,
            ) by {
                assert(is_walked(after.pending[k], after.ignored));
            }
        }
        self.found = found;
        self.pending = pending;
    }

    /// Takes the failure to read a directory. The first failure is kept;
    /// no directory waits any more, so the walk is done.
    pub fn fail(&mut self, failure: IoFailure)
        ensures
            final(self)@ == old(self)@.fail(failure@),
    {
        proof {
            use_type_invariant(&*self);
        }
        let ghost before = self@;
        let pending: Vec<Vec<String>> = Vec::new();
        proof {
            assert(path_views(pending@) =~= Seq::<Seq<Seq<char>>>::empty());
        }
        self.pending = pending;
        self.current = None;
        if self.failed.is_none() {
            self.failed = Some(failure);
        }
    }

    /// What the walk comes to: the first failure where one was met, and
    /// else the paths of the files found.
    pub fn finish(&self) -> (r: Result<Vec<String>, IoFailure>)
        ensures
            match r {
                Ok(paths) => self@.outcome() == Ok::<Seq<Seq<char>>, IoFailureText>(
                    string_views(paths@),
                ),
                Err(failure) => self@.outcome() == Err::<Seq<Seq<char>>, IoFailureText>(failure@),
            },
    {
        match &self.failed {
            Some(failure) => Err(failure.duplicate()),
            None => Ok(self.files()),
        }
    }

    /// The paths of the files listed so far. None of them lies below an
    /// ignored directory or a directory named `.git`, and none is named
    /// `.gitignore`.
    pub fn files(&self) -> (paths: Vec<String>)
        ensures
            string_views(paths@) == self@.files(),
            self@.excludes(),
    {
        proof {
            use_type_invariant(self);
        }
        let mut paths: Vec<String> = Vec::new();
        let mut i: usize = 0;
        while i < self.found.len()
            invariant
                i <= self.found.len(),
                paths@.len() == i,
                forall|j: int|
                    0 <= j < i ==> (#[trigger] paths@[j])@ == path_text(
                        self@.root,
                        self@.found[j],
                    ),
            decreases self.found.len() - i,
        {
            paths.push(path_string(self.root.as_str(), &self.found[i]));
            i += 1;
        }
        assert(string_views(paths@) =~= self@.files());
        paths
    }
}

} // verus!
