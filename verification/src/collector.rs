//! The path collector: a walk through the numbered folders of the archive
//! that gathers the note files. The collector decides which directory is read
//! next and what to keep of each listing; reading the directory is the
//! caller's part.

use crate::path::{is_sorted, path_views, sort_paths, NotePath};
use crate::rules::{is_folder_name, is_note_name, NameRules};
use vstd::prelude::*;

verus! {

/// What a directory entry is.
#[derive(Clone, Copy, PartialEq, Eq, Structural, Debug)]
pub enum EntryKind {
    Directory,
    File,
    /// Neither a directory nor a regular file: a symbolic link, a socket.
    Other,
}

/// One entry of a directory that was read.
#[derive(Debug)]
pub struct DirEntry {
    pub name: String,
    pub kind: EntryKind,
}

/// A directory entry as the contracts see it.
pub struct EntryView {
    pub name: Seq<char>,
    pub kind: EntryKind,
}

impl View for DirEntry {
    type V = EntryView;

    open spec fn view(&self) -> EntryView {
        EntryView { name: self.name@, kind: self.kind }
    }
}

impl DeepView for DirEntry {
    type V = EntryView;

    open spec fn deep_view(&self) -> EntryView {
        self@
    }
}

/// What the walk does with an entry of a directory.
#[derive(Clone, Copy, PartialEq, Eq, Structural, Debug)]
pub enum Disposition {
    /// The entry is a folder: the walk goes down into it.
    Descend,
    /// The entry is a note: it is gathered.
    Collect,
    /// The entry is passed over.
    Skip,
}

/// What the walk does with an entry of this kind, given whether its name is
/// a folder name and whether it is a note name: a directory with a folder
/// name is descended into, a file with a note name is gathered, and every
/// other entry is passed over.
pub open spec fn disposition_of(kind: EntryKind, folder_name: bool, note_name: bool) -> Disposition {
    match kind {
        EntryKind::Directory => if folder_name {
            Disposition::Descend
        } else {
            Disposition::Skip
        },
        EntryKind::File => if note_name {
            Disposition::Collect
        } else {
            Disposition::Skip
        },
        EntryKind::Other => Disposition::Skip,
    }
}

/// What the walk does with this entry.
pub open spec fn entry_disposition(entry: EntryView) -> Disposition {
    disposition_of(entry.kind, is_folder_name(entry.name), is_note_name(entry.name))
}

/// The walk goes down into this entry: a directory with a folder name.
pub open spec fn is_descended(entry: EntryView) -> bool {
    entry_disposition(entry) == Disposition::Descend
}

/// This entry is gathered: a file with a note name.
pub open spec fn is_collected(entry: EntryView) -> bool {
    entry_disposition(entry) == Disposition::Collect
}

/// What the walk does with an entry of this kind, given whether its name is
/// a folder name and whether it is a note name.
pub fn decide(kind: EntryKind, folder_name: bool, note_name: bool) -> (d: Disposition)
    ensures
        d == disposition_of(kind, folder_name, note_name),
{
    match kind {
        EntryKind::Directory => if folder_name {
            Disposition::Descend
        } else {
            Disposition::Skip
        },
        EntryKind::File => if note_name {
            Disposition::Collect
        } else {
            Disposition::Skip
        },
        EntryKind::Other => Disposition::Skip,
    }
}

/// The paths of the entries of `listing`, the listing of the directory at
/// `dir`, that the walk goes down into, in the order of the listing.
pub open spec fn folders_in(dir: Seq<Seq<char>>, listing: Seq<EntryView>) -> Seq<Seq<Seq<char>>>
    decreases listing.len(),
{
    if listing.len() == 0 {
        Seq::empty()
    } else {
        let before = folders_in(dir, listing.drop_last());
        if is_descended(listing.last()) {
            before.push(dir.push(listing.last().name))
        } else {
            before
        }
    }
}

/// The paths of the entries of `listing`, the listing of the directory at
/// `dir`, that are gathered, in the order of the listing.
pub open spec fn notes_in(dir: Seq<Seq<char>>, listing: Seq<EntryView>) -> Seq<Seq<Seq<char>>>
    decreases listing.len(),
{
    if listing.len() == 0 {
        Seq::empty()
    } else {
        let before = notes_in(dir, listing.drop_last());
        if is_collected(listing.last()) {
            before.push(dir.push(listing.last().name))
        } else {
            before
        }
    }
}

/// The state of a walk: the directories still to be read, the one to be read
/// next last, and the note files gathered so far.
pub struct Collector {
    rules: NameRules,
    pending: Vec<NotePath>,
    files: Vec<NotePath>,
}

impl Collector {
    /// The directories still to be read; the last is read next.
    pub closed spec fn pending(&self) -> Seq<Seq<Seq<char>>> {
        path_views(self.pending@)
    }

    /// The note files gathered so far, in the order they were met.
    pub closed spec fn files(&self) -> Seq<Seq<Seq<char>>> {
        path_views(self.files@)
    }

    /// A walk that has the archive root to read and nothing gathered.
    pub fn new(rules: NameRules) -> (collector: Collector)
        ensures
            collector.pending() == seq![Seq::<Seq<char>>::empty()],
            collector.files() == Seq::<Seq<Seq<char>>>::empty(),
    {
        let mut pending: Vec<NotePath> = Vec::new();
        pending.push(NotePath::root());
        Collector { rules, pending, files: Vec::new() }
    }

    /// Takes the directory to read next off the pending ones; `None` when the
    /// walk is over.
    pub fn next_dir(&mut self) -> (next: Option<NotePath>)
        ensures
            final(self).files() == old(self).files(),
            match next {
                Some(dir) => {
                    &&& old(self).pending().len() > 0
                    &&& dir@ == old(self).pending().last()
                    &&& final(self).pending() == old(self).pending().drop_last()
                },
                None => {
                    &&& old(self).pending().len() == 0
                    &&& final(self).pending() == old(self).pending()
                },
            },
    {
        self.pending.pop()
    }

    /// What the walk does with `entry`. A name is put to the pattern for the
    /// kind of its entry only.
    pub fn disposition(&self, entry: &DirEntry) -> (d: Disposition)
        ensures
            d == entry_disposition(entry@),
    {
        match entry.kind {
            EntryKind::Directory => decide(
                entry.kind,
                self.rules.is_folder_name(entry.name.as_str()),
                false,
            ),
            EntryKind::File => decide(
                entry.kind,
                false,
                self.rules.is_note_name(entry.name.as_str()),
            ),
            EntryKind::Other => decide(entry.kind, false, false),
        }
    }

    /// Does with the entry called `name` of the directory at `dir` what
    /// `disposition` says: puts its path with the pending directories, or
    /// with the gathered files, or passes it over.
    pub fn take(&mut self, dir: &NotePath, name: &str, disposition: Disposition)
        ensures
            final(self).pending() == (if disposition == Disposition::Descend {
                old(self).pending().push(dir@.push(name@))
            } else {
                old(self).pending()
            }),
            final(self).files() == (if disposition == Disposition::Collect {
                old(self).files().push(dir@.push(name@))
            } else {
                old(self).files()
            }),
    {
        match disposition {
            Disposition::Descend => {
                self.pending.push(dir.child(name));
            },
            Disposition::Collect => {
                self.files.push(dir.child(name));
            },
            Disposition::Skip => {},
        }
    }

    /// Takes in `entries`, the listing of the directory at `dir`: the folders
    /// in it join the pending directories, the note files in it join the
    /// gathered files, and every other entry is passed over.
    pub fn absorb(&mut self, dir: &NotePath, entries: &Vec<DirEntry>)
        ensures
            final(self).pending() == old(self).pending() + folders_in(dir@, entries.deep_view()),
            final(self).files() == old(self).files() + notes_in(dir@, entries.deep_view()),
    {
        let ghost listing = entries.deep_view();
        let mut i: usize = 0;
        while i < entries.len()
            invariant
                i <= entries.len(),
                listing == entries.deep_view(),
                self.pending() == old(self).pending() + folders_in(dir@, listing.take(i as int)),
                self.files() == old(self).files() + notes_in(dir@, listing.take(i as int)),
            decreases entries.len() - i,
        {
            let entry = &entries[i];
            assert(listing.take(i + 1).drop_last() =~= listing.take(i as int));
            let disposition = self.disposition(entry);
            self.take(dir, entry.name.as_str(), disposition);
            i = i + 1;
        }
        assert(listing.take(i as int) =~= listing);
    }

    /// Ends the walk: the gathered note files in ascending order.
    pub fn finish(self) -> (sorted: Vec<NotePath>)
        ensures
            is_sorted(path_views(sorted@)),
            path_views(sorted@).to_multiset() == self.files().to_multiset(),
    {
        sort_paths(self.files)
    }
}

} // verus!
