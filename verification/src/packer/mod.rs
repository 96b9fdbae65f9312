//! What every archive writer offers, whatever its format.
//!
//! A packer is handed what was found on disk as plain values: each entry
//! with its path, its kind, its metadata and, for a file, its content.

pub mod tar;

use vstd::prelude::*;

use crate::error::Error;
use crate::error::ErrorView;

verus! {

/// The metadata of an entry that goes into an archive.
#[derive(Debug, Clone, Copy, PartialEq, Eq, Structural)]
pub struct EntryMeta {
    /// Permission bits.
    pub mode: u32,
    /// Time of the last change, in seconds since the epoch.
    pub mtime: u64,
    /// Owning user.
    pub uid: u64,
    /// Owning group.
    pub gid: u64,
}

/// One file or directory, as it was read from disk.
#[derive(Debug, Clone)]
pub struct FsEntry {
    /// The path under which the entry is stored.
    pub path: String,
    /// Whether the entry is a directory.
    pub is_dir: bool,
    pub meta: EntryMeta,
    /// The bytes of a file; for a directory they are not looked at.
    pub content: Vec<u8>,
}

/// An [`FsEntry`] with its path as characters and its content as a sequence.
pub struct EntryView {
    pub path: Seq<char>,
    pub is_dir: bool,
    pub meta: EntryMeta,
    pub content: Seq<u8>,
}

impl View for FsEntry {
    type V = EntryView;

    open spec fn view(&self) -> EntryView {
        EntryView { path: self.path@, is_dir: self.is_dir, meta: self.meta, content: self.content@ }
    }
}

/// What was found at one input path: the entry at the path itself and, for
/// a directory, everything below it in the order in which a walk met it.
#[derive(Debug, Clone)]
pub struct Source {
    pub root: FsEntry,
    pub below: Vec<FsEntry>,
}

/// The entries of a list, each by its view.
pub open spec fn entry_views(entries: Seq<FsEntry>) -> Seq<EntryView> {
    Seq::new(entries.len(), |i: int| entries[i]@)
}

impl Source {
    /// The entries that a directory at this path brings: itself first, then
    /// what lies below it.
    pub open spec fn tree(self) -> Seq<EntryView> {
        seq![self.root@] + entry_views(self.below@)
    }

    /// The entries that adding this path adds: the whole tree of a
    /// directory, and of anything else the entry alone.
    pub open spec fn entries(self) -> Seq<EntryView> {
        if self.root.is_dir {
            self.tree()
        } else {
            seq![self.root@]
        }
    }
}

/// A directory brings itself first and then each entry below it, once, in
/// the order of the walk.
pub proof fn lemma_tree_order(source: Source)
    ensures
        source.tree().len() == 1 + source.below@.len(),
        source.tree()[0] == source.root@,
        forall|i: int| 0 <= i < source.below@.len() ==> source.tree()[i + 1] == source.below@[i]@,
{
}

/// Whether `after` is `before` with some but not all of `all` added, in order.
pub open spec fn stopped_within(
    before: Seq<EntryView>,
    after: Seq<EntryView>,
    all: Seq<EntryView>,
) -> bool {
    exists|n: int| 0 <= n < all.len() && after == before + #[trigger] all.take(n)
}

/// An archive writer.
pub trait Packer: Sized {
    /// Whether the packer is in order. A packer is when it is made, and it
    /// stays so.
    spec fn wf(&self) -> bool;

    /// The entries added so far, oldest first.
    spec fn entries(&self) -> Seq<EntryView>;

    /// Whether an entry is one that a packer of this kind can take.
    spec fn accepts(entry: EntryView) -> bool;

    /// Whether nothing but the entries decides if a packer of this kind
    /// succeeds. Such a packer takes every entry that it accepts and seals
    /// without fail; one that writes to memory is of this kind, one that
    /// writes to a disk is not.
    spec fn reliable() -> bool;

    /// Whether a packer of this kind can fail with the given error.
    spec fn can_fail_with(error: ErrorView) -> bool;

    /// The archive that `finish` would hand out if the packer held
    /// `entries`. Adding entries changes what the packer holds, never this.
    spec fn archive(&self, entries: Seq<EntryView>) -> Seq<u8>;

    /// Adds what was found at a path: a directory with all that lies below
    /// it, anything else as the single entry it is.
    fn add_path(&mut self, source: &Source) -> (r: Result<(), Error>)
        requires
            old(self).wf(),
        ensures
            final(self).wf(),
            r is Ok ==> final(self).entries() == old(self).entries() + source.entries(),
            r is Ok ==> forall|i: int|
                0 <= i < source.entries().len() ==> Self::accepts(#[trigger] source.entries()[i]),
            Self::reliable() && (forall|i: int|
                0 <= i < source.entries().len() ==> Self::accepts(#[trigger] source.entries()[i]))
                ==> r is Ok,
            r is Err ==> stopped_within(
                old(self).entries(),
                final(self).entries(),
                source.entries(),
            ),
            r matches Err(e) ==> Self::can_fail_with(e@),
            forall|all: Seq<EntryView>| #[trigger]
                final(self).archive(all) == old(self).archive(all),
    {
        if source.root.is_dir {
            assert(source.entries() == source.tree());
            self.add_dir(source)
        } else {
            let r = self.add_file(&source.root);
            proof {
                assert(source.entries()[0] == source.root@);
                if r is Ok {
                    assert(old(self).entries().push(source.root@) =~= old(self).entries()
                        + source.entries());
                } else {
                    assert(self.entries() =~= old(self).entries() + source.entries().take(0));
                    assert(stopped_within(old(self).entries(), self.entries(), source.entries()));
                }
            }
            r
        }
    }

    /// Adds a directory and all that lies below it: the directory itself
    /// first, then each entry of the walk, once, in the walk's order. The
    /// first entry that fails ends the call, with the entries before it added.
    fn add_dir(&mut self, source: &Source) -> (r: Result<(), Error>)
        requires
            old(self).wf(),
        ensures
            final(self).wf(),
            r is Ok ==> final(self).entries() == old(self).entries() + source.tree(),
            r is Ok ==> forall|i: int|
                0 <= i < source.tree().len() ==> Self::accepts(#[trigger] source.tree()[i]),
            Self::reliable() && (forall|i: int|
                0 <= i < source.tree().len() ==> Self::accepts(#[trigger] source.tree()[i]))
                ==> r is Ok,
            r is Err ==> stopped_within(old(self).entries(), final(self).entries(), source.tree()),
            r matches Err(e) ==> Self::can_fail_with(e@),
            forall|all: Seq<EntryView>| #[trigger]
                final(self).archive(all) == old(self).archive(all),
    {
        assert(source.tree()[0] == source.root@);
        match self.add_file(&source.root) {
            Ok(()) => {},
            Err(e) => {
                assert(self.entries() =~= old(self).entries() + source.tree().take(0));
                return Err(e);
            },
        }
        let mut i: usize = 0;
        assert(old(self).entries().push(source.root@) =~= old(self).entries() + source.tree().take(
            1,
        ));
        while i < source.below.len()
            invariant
                0 <= i <= source.below.len(),
                self.wf(),
                self.entries() == old(self).entries() + source.tree().take(i + 1),
                forall|j: int|
                    0 <= j < i + 1 ==> Self::accepts(#[trigger] source.tree()[j]),
                forall|all: Seq<EntryView>| #[trigger] self.archive(all) == old(self).archive(all),
            decreases source.below.len() - i,
        {
            let ghost before = self.entries();
            assert(source.tree()[i + 1] == source.below[i as int]@);
            match self.add_file(&source.below[i]) {
                Ok(()) => {},
                Err(e) => {
                    return Err(e);
                },
            }
            assert(before.push(source.below[i as int]@) =~= old(self).entries()
                + source.tree().take(i + 2));
            i = i + 1;
        }
        assert(source.tree().take(i + 1) =~= source.tree());
        Ok(())
    }

    /// Adds one entry, file or directory, by itself.
    fn add_file(&mut self, entry: &FsEntry) -> (r: Result<(), Error>)
        requires
            old(self).wf(),
        ensures
            final(self).wf(),
            r is Ok ==> final(self).entries() == old(self).entries().push(entry@),
            r is Ok ==> Self::accepts(entry@),
            Self::reliable() && Self::accepts(entry@) ==> r is Ok,
            r is Err ==> final(self).entries() == old(self).entries(),
            r matches Err(e) ==> Self::can_fail_with(e@),
            forall|all: Seq<EntryView>| #[trigger]
                final(self).archive(all) == old(self).archive(all),
    ;

    /// Seals the archive and hands out its bytes. The packer is used up.
    fn finish(self) -> (r: Result<Vec<u8>, Error>)
        requires
            self.wf(),
        ensures
            Self::reliable() ==> r is Ok,
            r matches Ok(bytes) ==> bytes@ == self.archive(self.entries()),
            r matches Err(e) ==> Self::can_fail_with(e@),
    ;
}

/// Whether a packer of kind `P` accepts every entry of a list.
pub open spec fn all_accepted<P: Packer>(entries: Seq<EntryView>) -> bool {
    forall|i: int| 0 <= i < entries.len() ==> P::accepts(#[trigger] entries[i])
}

/// An archive reader: the counterpart of a [`Packer`].
pub trait Unpacker: Sized {
    /// Opens the archive that `bytes` holds.
    fn open(bytes: Vec<u8>) -> Result<Self, Error>;

    /// Reads the archive out, entry by entry. The unpacker is used up.
    fn unpack(self) -> Result<Vec<FsEntry>, Error>;
}

} // verus!
