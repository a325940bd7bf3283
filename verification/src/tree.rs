//! The archive as a tree held in memory, and the walk of the collector
//! through it: what is gathered is the note files of the tree, all that lie
//! below folders only, and no others, and each once where no directory holds
//! a name twice.

use crate::collector::{
    folders_in, is_collected, is_descended, notes_in, Collector, DirEntry, Disposition, EntryKind,
    EntryView,
};
use crate::path::{is_sorted, is_strictly_sorted, path_views, NotePath};
use crate::rules::{is_folder_name, is_note_name, NameRules};
use vstd::multiset::Multiset;
use vstd::prelude::*;

verus! {

/// An entry of a directory, with the entries below it where it is a
/// directory.
#[derive(Debug)]
pub struct Node {
    pub entry: DirEntry,
    pub children: Vec<Node>,
}

/// A node as the contracts see it.
pub struct NodeView {
    pub entry: EntryView,
    pub children: Seq<NodeView>,
}

/// What `node` stands for: its entry, and what each node below it stands
/// for.
pub open spec fn node_view(node: Node) -> NodeView
    decreases node,
{
    NodeView {
        entry: node.entry@,
        children: Seq::new(
            node.children@.len(),
            |i: int|
                if 0 <= i < node.children@.len() {
                    node_view(node.children@[i])
                } else {
                    arbitrary()
                },
        ),
    }
}

impl View for Node {
    type V = NodeView;

    open spec fn view(&self) -> NodeView {
        node_view(*self)
    }
}

impl DeepView for Node {
    type V = NodeView;

    open spec fn deep_view(&self) -> NodeView {
        self@
    }
}

/// A directory that a walk has yet to read: its path and its entries.
struct Visit {
    dir: Seq<Seq<char>>,
    entries: Seq<NodeView>,
}

/// What reading a directory with these entries gives.
spec fn listing_of(entries: Seq<NodeView>) -> Seq<EntryView> {
    entries.map_values(|node: NodeView| node.entry)
}

/// The note files of the tree: the files with a note name among `entries`,
/// the entries of the directory at `dir`, and those of every directory with a
/// folder name among them, and so on downwards. Each path is held as often
/// as the tree holds it.
pub open spec fn reachable_notes(dir: Seq<Seq<char>>, entries: Seq<NodeView>) -> Multiset<
    Seq<Seq<char>>,
>
    decreases entries,
{
    if entries.len() == 0 {
        Multiset::empty()
    } else {
        let before = reachable_notes(dir, entries.drop_last());
        let node = entries.last();
        if is_descended(node.entry) {
            before.add(reachable_notes(dir.push(node.entry.name), node.children))
        } else if is_collected(node.entry) {
            before.insert(dir.push(node.entry.name))
        } else {
            before
        }
    }
}

/// The directories among `entries` that a walk goes down into, each with its
/// path below `dir`, in the order of the listing.
spec fn visits_in(dir: Seq<Seq<char>>, entries: Seq<NodeView>) -> Seq<Visit>
    decreases entries.len(),
{
    if entries.len() == 0 {
        Seq::empty()
    } else {
        let before = visits_in(dir, entries.drop_last());
        let node = entries.last();
        if is_descended(node.entry) {
            before.push(Visit { dir: dir.push(node.entry.name), entries: node.children })
        } else {
            before
        }
    }
}

/// The paths of the directories to visit.
spec fn dirs_of(visits: Seq<Visit>) -> Seq<Seq<Seq<char>>> {
    visits.map_values(|visit: Visit| visit.dir)
}

/// The number of entries in a tree, at every depth.
spec fn size(entries: Seq<NodeView>) -> nat
    decreases entries,
{
    if entries.len() == 0 {
        0
    } else {
        size(entries.drop_last()) + 1 + size(entries.last().children)
    }
}

/// The work that a walk has before it: one for each directory to read and one
/// for each entry at or below it.
spec fn load(visits: Seq<Visit>) -> nat
    decreases visits.len(),
{
    if visits.len() == 0 {
        0
    } else {
        load(visits.drop_last()) + 1 + size(visits.last().entries)
    }
}

/// The note files that a walk has yet to gather from the directories it has
/// yet to read.
spec fn outstanding(visits: Seq<Visit>) -> Multiset<Seq<Seq<char>>>
    decreases visits.len(),
{
    if visits.len() == 0 {
        Multiset::empty()
    } else {
        outstanding(visits.drop_last()).add(
            reachable_notes(visits.last().dir, visits.last().entries),
        )
    }
}

/// The load of two runs of visits, one after the other, is the sum of their
/// loads.
proof fn lemma_load_additive(first: Seq<Visit>, second: Seq<Visit>)
    ensures
        load(first + second) == load(first) + load(second),
    decreases second.len(),
{
    if second.len() > 0 {
        assert((first + second).drop_last() =~= first + second.drop_last());
        lemma_load_additive(first, second.drop_last());
    }
}

/// Reading a directory leaves less work below it than it held.
proof fn lemma_load_of_visits_in(dir: Seq<Seq<char>>, entries: Seq<NodeView>)
    ensures
        load(visits_in(dir, entries)) <= size(entries),
    decreases entries.len(),
{
    if entries.len() > 0 {
        lemma_load_of_visits_in(dir, entries.drop_last());
        let before = visits_in(dir, entries.drop_last());
        let node = entries.last();
        if is_descended(node.entry) {
            let visit = Visit { dir: dir.push(node.entry.name), entries: node.children };
            assert(before.push(visit).drop_last() =~= before);
        }
    }
}

/// What is outstanding in two runs of visits, one after the other, is what is
/// outstanding in each.
proof fn lemma_outstanding_additive(first: Seq<Visit>, second: Seq<Visit>)
    ensures
        outstanding(first + second) == outstanding(first).add(outstanding(second)),
    decreases second.len(),
{
    broadcast use vstd::multiset::group_multiset_axioms;

    if second.len() > 0 {
        assert((first + second).drop_last() =~= first + second.drop_last());
        lemma_outstanding_additive(first, second.drop_last());
    }
}

/// The directories that a walk goes down into are those that the collector
/// puts with the pending ones when it takes in the listing.
proof fn lemma_dirs_of_visits_in(dir: Seq<Seq<char>>, entries: Seq<NodeView>)
    ensures
        dirs_of(visits_in(dir, entries)) == folders_in(dir, listing_of(entries)),
    decreases entries.len(),
{
    if entries.len() > 0 {
        lemma_dirs_of_visits_in(dir, entries.drop_last());
        assert(listing_of(entries).drop_last() =~= listing_of(entries.drop_last()));
    }
}

/// The note files below a directory are those in its own listing and those
/// below the directories that the walk goes down into from it.
proof fn lemma_reachable_notes_split(dir: Seq<Seq<char>>, entries: Seq<NodeView>)
    ensures
        reachable_notes(dir, entries) == notes_in(dir, listing_of(entries)).to_multiset().add(
            outstanding(visits_in(dir, entries)),
        ),
    decreases entries.len(),
{
    broadcast use vstd::multiset::group_multiset_axioms;

    let listing = listing_of(entries);
    if entries.len() == 0 {
        lemma_nothing_in_no_paths();
    } else {
        lemma_reachable_notes_split(dir, entries.drop_last());
        assert(listing.drop_last() =~= listing_of(entries.drop_last()));
        let node = entries.last();
        let notes_before = notes_in(dir, listing.drop_last());
        let visits_before = visits_in(dir, entries.drop_last());
        if is_descended(node.entry) {
            let visit = Visit { dir: dir.push(node.entry.name), entries: node.children };
            assert(visits_before.push(visit).drop_last() =~= visits_before);
        } else if is_collected(node.entry) {
            vstd::seq_lib::to_multiset_build(notes_before, dir.push(node.entry.name));
        }
    }
}

/// No paths, as a multiset, are the empty multiset.
proof fn lemma_nothing_in_no_paths()
    ensures
        Seq::<Seq<Seq<char>>>::empty().to_multiset() == Multiset::<Seq<Seq<char>>>::empty(),
{
    let none = Seq::<Seq<Seq<char>>>::empty();
    vstd::seq_lib::to_multiset_len(none);
    vstd::multiset::lemma_multiset_empty_len(none.to_multiset());
}

/// A file lies at `path` below a directory with these entries: the names
/// along the path but the last are names of directories, each in the one
/// before, and the last is the name of a file in the last of them.
pub open spec fn file_at(entries: Seq<NodeView>, path: Seq<Seq<char>>) -> bool
    decreases path.len(),
{
    if path.len() == 0 {
        false
    } else if path.len() == 1 {
        exists|i: int|
            0 <= i < entries.len() && (#[trigger] entries[i]).entry == (EntryView {
                name: path[0],
                kind: EntryKind::File,
            })
    } else {
        exists|i: int|
            0 <= i < entries.len() && (#[trigger] entries[i]).entry == (EntryView {
                name: path[0],
                kind: EntryKind::Directory,
            }) && file_at(entries[i].children, path.drop_first())
    }
}

/// The path of a note: folder names, one below the other, and a note name
/// at the end.
pub open spec fn is_note_path(path: Seq<Seq<char>>) -> bool {
    &&& path.len() > 0
    &&& is_note_name(path.last())
    &&& forall|level: int| 0 <= level < path.len() - 1 ==> is_folder_name(#[trigger] path[level])
}

/// A file that lies in a directory lies in it still when the directory has
/// one more entry.
proof fn lemma_file_at_with_one_more(entries: Seq<NodeView>, path: Seq<Seq<char>>)
    requires
        entries.len() > 0,
        file_at(entries.drop_last(), path),
    ensures
        file_at(entries, path),
{
    let fewer = entries.drop_last();
    if path.len() == 1 {
        let i = choose|i: int|
            0 <= i < fewer.len() && (#[trigger] fewer[i]).entry == (EntryView {
                name: path[0],
                kind: EntryKind::File,
            });
        assert(entries[i] == fewer[i]);
    } else {
        let i = choose|i: int|
            0 <= i < fewer.len() && (#[trigger] fewer[i]).entry == (EntryView {
                name: path[0],
                kind: EntryKind::Directory,
            }) && file_at(fewer[i].children, path.drop_first());
        assert(entries[i] == fewer[i]);
    }
}

/// What the walk gathers from a directory at `dir` lies below `dir`, where a
/// file lies, and is the path of a note from there on.
proof fn lemma_reachable_notes_are_note_files(
    dir: Seq<Seq<char>>,
    entries: Seq<NodeView>,
    path: Seq<Seq<char>>,
)
    requires
        reachable_notes(dir, entries).count(path) > 0,
    ensures
        path.len() > dir.len(),
        path.take(dir.len() as int) == dir,
        file_at(entries, path.skip(dir.len() as int)),
        is_note_path(path.skip(dir.len() as int)),
    decreases entries,
{
    broadcast use vstd::multiset::group_multiset_axioms;

    if entries.len() > 0 {
        let before = reachable_notes(dir, entries.drop_last());
        let node = entries.last();
        let below = dir.push(node.entry.name);
        let rest = path.skip(dir.len() as int);
        if before.count(path) > 0 {
            lemma_reachable_notes_are_note_files(dir, entries.drop_last(), path);
            lemma_file_at_with_one_more(entries, rest);
        } else if is_descended(node.entry) {
            lemma_reachable_notes_are_note_files(below, node.children, path);
            assert(rest[0] == path.take(below.len() as int)[dir.len() as int]);
            assert(rest.drop_first() =~= path.skip(below.len() as int));
            assert forall|level: int| 0 <= level < rest.len() - 1 implies is_folder_name(
                #[trigger] rest[level],
            ) by {
                if level > 0 {
                    assert(rest[level] == rest.drop_first()[level - 1]);
                }
            }
        }
    }
}

/// The walk gathers every note: a file that lies at the path of a note
/// below a directory is among what is gathered from that directory.
proof fn lemma_note_files_are_reachable(
    dir: Seq<Seq<char>>,
    entries: Seq<NodeView>,
    path: Seq<Seq<char>>,
)
    requires
        file_at(entries, path),
        is_note_path(path),
    ensures
        reachable_notes(dir, entries).count(dir + path) > 0,
    decreases entries,
{
    broadcast use vstd::multiset::group_multiset_axioms;

    let node = entries.last();
    let fewer = entries.drop_last();
    let below = dir.push(node.entry.name);
    if path.len() == 1 {
        let i = choose|i: int|
            0 <= i < entries.len() && (#[trigger] entries[i]).entry == (EntryView {
                name: path[0],
                kind: EntryKind::File,
            });
        if i < entries.len() - 1 {
            assert(fewer[i] == entries[i]);
            lemma_note_files_are_reachable(dir, fewer, path);
        } else {
            assert(dir + path =~= below);
        }
    } else {
        let i = choose|i: int|
            0 <= i < entries.len() && (#[trigger] entries[i]).entry == (EntryView {
                name: path[0],
                kind: EntryKind::Directory,
            }) && file_at(entries[i].children, path.drop_first());
        if i < entries.len() - 1 {
            assert(fewer[i] == entries[i]);
            lemma_note_files_are_reachable(dir, fewer, path);
        } else {
            let rest = path.drop_first();
            lemma_note_files_are_reachable(below, node.children, rest);
            assert(below + rest =~= dir + path);
        }
    }
}

/// What the walk gathers from a tree is the notes of the tree, and only
/// them: a path is gathered if and only if a file lies there and the path is
/// that of a note, which is to say that folder names lead to a note name.
/// Files with other names, and whatever lies below a directory with another
/// name, are not gathered.
pub proof fn theorem_reachable_notes_are_the_note_files(
    tree: Seq<NodeView>,
    path: Seq<Seq<char>>,
)
    ensures
        reachable_notes(Seq::empty(), tree).count(path) > 0 <==> file_at(tree, path)
            && is_note_path(path),
{
    let root = Seq::<Seq<char>>::empty();
    assert(path.skip(0) =~= path);
    if reachable_notes(root, tree).count(path) > 0 {
        lemma_reachable_notes_are_note_files(root, tree, path);
    }
    if file_at(tree, path) && is_note_path(path) {
        lemma_note_files_are_reachable(root, tree, path);
    }
}

/// No directory of the tree holds a name twice.
pub open spec fn has_distinct_names(entries: Seq<NodeView>) -> bool
    decreases entries,
{
    &&& forall|i: int, j: int|
        0 <= i < j < entries.len() ==> entries[i].entry.name != entries[j].entry.name
    &&& forall|i: int|
        0 <= i < entries.len() ==> has_distinct_names((#[trigger] entries[i]).children)
}

/// A file that lies in a directory lies below an entry of that directory,
/// which bears the first name of its path.
proof fn lemma_file_at_starts_at_an_entry(entries: Seq<NodeView>, path: Seq<Seq<char>>)
    requires
        file_at(entries, path),
    ensures
        path.len() > 0,
        exists|i: int| 0 <= i < entries.len() && (#[trigger] entries[i]).entry.name == path[0],
{
    if path.len() == 1 {
        let i = choose|i: int|
            0 <= i < entries.len() && (#[trigger] entries[i]).entry == (EntryView {
                name: path[0],
                kind: EntryKind::File,
            });
        assert(entries[i].entry.name == path[0]);
    } else {
        let i = choose|i: int|
            0 <= i < entries.len() && (#[trigger] entries[i]).entry == (EntryView {
                name: path[0],
                kind: EntryKind::Directory,
            }) && file_at(entries[i].children, path.drop_first());
        assert(entries[i].entry.name == path[0]);
    }
}

/// What the walk gathers from all but the last entry of a directory with
/// distinct names does not lie at or below the last entry.
proof fn lemma_earlier_entries_give_other_paths(
    dir: Seq<Seq<char>>,
    entries: Seq<NodeView>,
    path: Seq<Seq<char>>,
)
    requires
        has_distinct_names(entries),
        entries.len() > 0,
        path.len() > dir.len(),
        path[dir.len() as int] == entries.last().entry.name,
    ensures
        reachable_notes(dir, entries.drop_last()).count(path) == 0,
{
    let fewer = entries.drop_last();
    if reachable_notes(dir, fewer).count(path) > 0 {
        lemma_reachable_notes_are_note_files(dir, fewer, path);
        let rest = path.skip(dir.len() as int);
        lemma_file_at_starts_at_an_entry(fewer, rest);
        let i = choose|i: int| 0 <= i < fewer.len() && (#[trigger] fewer[i]).entry.name == rest[0];
        assert(entries[i] == fewer[i]);
        assert(entries[i].entry.name != entries[entries.len() - 1].entry.name);
    }
}

/// In a tree where no directory holds a name twice, no note is gathered
/// twice.
pub proof fn lemma_distinct_names_give_each_note_once(
    dir: Seq<Seq<char>>,
    entries: Seq<NodeView>,
    path: Seq<Seq<char>>,
)
    requires
        has_distinct_names(entries),
    ensures
        reachable_notes(dir, entries).count(path) <= 1,
    decreases entries,
{
    broadcast use vstd::multiset::group_multiset_axioms;

    if entries.len() > 0 {
        let fewer = entries.drop_last();
        let node = entries.last();
        let below = dir.push(node.entry.name);
        assert(has_distinct_names(fewer)) by {
            assert forall|i: int| 0 <= i < fewer.len() implies has_distinct_names(
                (#[trigger] fewer[i]).children,
            ) by {
                assert(fewer[i] == entries[i]);
            }
        }
        lemma_distinct_names_give_each_note_once(dir, fewer, path);
        if is_descended(node.entry) {
            assert(has_distinct_names(entries[entries.len() - 1].children));
            lemma_distinct_names_give_each_note_once(below, node.children, path);
            if reachable_notes(below, node.children).count(path) > 0 {
                lemma_reachable_notes_are_note_files(below, node.children, path);
                assert(path[dir.len() as int] == path.take(below.len() as int)[dir.len() as int]);
                lemma_earlier_entries_give_other_paths(dir, entries, path);
            }
        } else if is_collected(node.entry) {
            if path == below {
                lemma_earlier_entries_give_other_paths(dir, entries, path);
            }
        }
    }
}

/// In a tree where no directory holds a name twice, the gathered notes in
/// ascending order hold no path twice: each comes strictly before the next.
pub proof fn theorem_distinct_names_give_strict_order(
    tree: Seq<NodeView>,
    sorted: Seq<Seq<Seq<char>>>,
)
    requires
        has_distinct_names(tree),
        is_sorted(sorted),
        sorted.to_multiset() == reachable_notes(Seq::empty(), tree),
    ensures
        is_strictly_sorted(sorted),
{
    assert forall|path: Seq<Seq<char>>| sorted.to_multiset().contains(path) implies sorted.to_multiset().count(
        path,
    ) == 1 by {
        lemma_distinct_names_give_each_note_once(Seq::empty(), tree, path);
    }
    sorted.lemma_multiset_has_no_duplicates_conv();
}

/// The nodes as the contracts see them.
pub open spec fn node_views(nodes: Seq<Node>) -> Seq<NodeView> {
    nodes.map_values(|node: Node| node@)
}

/// What reading a directory with these entries gives.
fn listing(nodes: &Vec<Node>) -> (entries: Vec<DirEntry>)
    ensures
        entries.deep_view() == listing_of(node_views(nodes@)),
{
    let mut entries: Vec<DirEntry> = Vec::new();
    let mut i: usize = 0;
    while i < nodes.len()
        invariant
            i <= nodes.len(),
            entries.deep_view() == listing_of(node_views(nodes@)).take(i as int),
        decreases nodes.len() - i,
    {
        let entry = &nodes[i].entry;
        let ghost before = entries.deep_view();
        entries.push(DirEntry { name: entry.name.clone(), kind: entry.kind });
        assert(entries.deep_view() =~= before.push(entry@));
        i = i + 1;
    }
    entries
}

/// The directories behind the pending paths of a walk.
spec fn stands_for(stack: Seq<&Vec<Node>>, visits: Seq<Visit>) -> bool {
    &&& stack.len() == visits.len()
    &&& forall|i: int|
        0 <= i < stack.len() ==> node_views((#[trigger] stack[i])@) == visits[i].entries
}

/// Puts the entries of each directory among `nodes` that the walk goes down
/// into onto the stack, in the order of the listing.
fn push_folders<'a>(
    collector: &Collector,
    nodes: &'a Vec<Node>,
    stack: &mut Vec<&'a Vec<Node>>,
    Ghost(dir): Ghost<Seq<Seq<char>>>,
    Ghost(visits): Ghost<Seq<Visit>>,
)
    requires
        stands_for(old(stack)@, visits),
    ensures
        stands_for(final(stack)@, visits + visits_in(dir, node_views(nodes@))),
{
    let ghost entries = node_views(nodes@);
    let mut i: usize = 0;
    while i < nodes.len()
        invariant
            i <= nodes.len(),
            entries == node_views(nodes@),
            stands_for(stack@, visits + visits_in(dir, entries.take(i as int))),
        decreases nodes.len() - i,
    {
        let node = &nodes[i];
        proof {
            assert(entries.take(i + 1).drop_last() =~= entries.take(i as int));
            assert(node@.children =~= node_views(node.children@));
        }
        match collector.disposition(&node.entry) {
            Disposition::Descend => {
                stack.push(&node.children);
            },
            _ => {},
        }
        i = i + 1;
    }
    assert(entries.take(i as int) =~= entries);
}

/// The note files of `tree`, the entries of the archive root, in ascending
/// order: the walk of the collector, with the directories read from the tree.
pub fn get_pathes(rules: NameRules, tree: &Vec<Node>) -> (files: Vec<NotePath>)
    ensures
        is_sorted(path_views(files@)),
        path_views(files@).to_multiset() == reachable_notes(Seq::empty(), node_views(tree@)),
        has_distinct_names(node_views(tree@)) ==> is_strictly_sorted(path_views(files@)),
{
    let ghost root = Seq::<Seq<char>>::empty();
    let ghost whole = reachable_notes(root, node_views(tree@));
    let mut collector = Collector::new(rules);
    let mut stack: Vec<&Vec<Node>> = Vec::new();
    stack.push(tree);
    let ghost mut visits = seq![Visit { dir: root, entries: node_views(tree@) }];
    proof {
        broadcast use vstd::multiset::group_multiset_axioms;

        lemma_nothing_in_no_paths();
        assert(outstanding(visits.drop_last()) =~= Multiset::empty());
    }
    loop
        invariant
            collector.pending() == dirs_of(visits),
            stands_for(stack@, visits),
            collector.files().to_multiset().add(outstanding(visits)) == whole,
            whole == reachable_notes(Seq::empty(), node_views(tree@)),
        decreases load(visits),
    {
        let ghost files_before = collector.files();
        match collector.next_dir() {
            None => {
                proof {
                    broadcast use vstd::multiset::group_multiset_axioms;

                    assert(visits.len() == 0);
                    assert(collector.files().to_multiset() =~= whole);
                }
                let files = collector.finish();
                proof {
                    if has_distinct_names(node_views(tree@)) {
                        theorem_distinct_names_give_strict_order(
                            node_views(tree@),
                            path_views(files@),
                        );
                    }
                }
                return files;
            },
            Some(dir) => {
                let ghost visit = visits.last();
                let ghost rest = visits.drop_last();
                let nodes = stack.pop().unwrap();
                let entries = listing(nodes);
                collector.absorb(&dir, &entries);
                push_folders(&collector, nodes, &mut stack, Ghost(dir@), Ghost(rest));
                proof {
                    broadcast use vstd::multiset::group_multiset_axioms;

                    let below = visits_in(visit.dir, visit.entries);
                    let found = notes_in(visit.dir, listing_of(visit.entries));
                    lemma_dirs_of_visits_in(visit.dir, visit.entries);
                    lemma_load_of_visits_in(visit.dir, visit.entries);
                    lemma_load_additive(rest, below);
                    lemma_outstanding_additive(rest, below);
                    lemma_reachable_notes_split(visit.dir, visit.entries);
                    vstd::seq_lib::lemma_multiset_commutative(files_before, found);
                    visits = rest + below;
                }
            },
        }
    }
}

} // verus!
