//! The packer for tar archives, on top of the `tar` crate.
//!
//! The archive is built in memory. What the `tar` crate writes for an
//! entry, and which paths it takes, is not spelled out here: both are
//! named, and the contracts say when packing succeeds, in which order the
//! records follow each other and how the archive ends.

use vstd::prelude::*;

use crate::error::Error;
use crate::error::ErrorView;
use crate::packer::EntryView;
use crate::packer::FsEntry;
use crate::packer::Packer;

verus! {

/// A `tar::Builder` that writes into a buffer in memory. What it holds is
/// spoken of through [`builder_bytes`] and [`builder_finished`].
#[verifier::external_body]
pub struct TarBuilder {
    inner: ::tar::Builder<Vec<u8>>,
}

/// The bytes that a builder has written to its buffer so far.
pub uninterp spec fn builder_bytes(builder: TarBuilder) -> Seq<u8>;

/// Whether a builder has already written the end of its archive.
pub uninterp spec fn builder_finished(builder: TarBuilder) -> bool;

/// The bytes that `tar::Builder::append_data` writes for one entry: a GNU
/// header with the given type, mode, time and owners, sized for `content`,
/// before it a long-name record where the path does not fit the header, and
/// after it `content`, padded to whole blocks. How a path is laid down in a
/// header is the `tar` crate's business and follows the platform's notion of
/// a path.
pub uninterp spec fn tar_record(
    path: Seq<char>,
    kind: u8,
    mode: u32,
    mtime: u64,
    uid: u64,
    gid: u64,
    content: Seq<u8>,
) -> Seq<u8>;

/// Whether `tar::Builder::append_data` takes an entry with this path. The
/// path is the one thing that it can refuse, as it does with one that is
/// empty, absolute or leads upwards.
pub uninterp spec fn tar_accepts(path: Seq<char>) -> bool;

/// Calls `tar::Builder::new`, which keeps the buffer as it is and writes
/// nothing yet.
#[verifier::external_body]
fn builder_new(sink: Vec<u8>) -> (r: TarBuilder)
    ensures
        builder_bytes(r) == sink@,
        !builder_finished(r),
{
    TarBuilder { inner: ::tar::Builder::new(sink) }
}

/// Calls `tar::Builder::append_data` with a fresh GNU header that holds the
/// given values. The call succeeds exactly when the crate accepts the path,
/// since writing to a buffer in memory cannot fail. On success the buffer
/// has grown by the entry's record, which is made of whole blocks of 512
/// bytes. A path that the crate refuses is reported before anything is
/// written, so on failure the buffer is as it was.
#[verifier::external_body]
fn builder_append(
    builder: &mut TarBuilder,
    path: &str,
    kind: u8,
    mode: u32,
    mtime: u64,
    uid: u64,
    gid: u64,
    content: &[u8],
) -> (r: Result<(), std::io::Error>)
    ensures
        r is Ok <==> tar_accepts(path@),
        r is Ok ==> tar_record(path@, kind, mode, mtime, uid, gid, content@).len() % 512 == 0,
        r is Ok ==> builder_bytes(*final(builder)) == builder_bytes(*old(builder)) + tar_record(
            path@,
            kind,
            mode,
            mtime,
            uid,
            gid,
            content@,
        ),
        r is Err ==> builder_bytes(*final(builder)) == builder_bytes(*old(builder)),
        builder_finished(*final(builder)) == builder_finished(*old(builder)),
{
    let mut header = ::tar::Header::new_gnu();
    header.set_entry_type(::tar::EntryType::new(kind));
    header.set_mode(mode);
    header.set_mtime(mtime);
    header.set_uid(uid);
    header.set_gid(gid);
    header.set_size(content.len() as u64);
    builder.inner.append_data(&mut header, path, content)
}

/// Calls `tar::Builder::into_inner`, which ends the archive with 1024 zero
/// bytes, unless it was ended before, and hands out the buffer. Nothing in
/// it can fail on a buffer in memory.
#[verifier::external_body]
fn builder_into_inner(builder: TarBuilder) -> (r: Result<Vec<u8>, std::io::Error>)
    ensures
        r is Ok,
        r matches Ok(bytes) ==> bytes@ == builder_bytes(builder) + (if builder_finished(builder) {
            Seq::<u8>::empty()
        } else {
            end_marker()
        }),
{
    builder.inner.into_inner()
}

/// The type byte of a regular file in a tar header.
pub const KIND_FILE: u8 = 48;

/// The type byte of a directory in a tar header.
pub const KIND_DIRECTORY: u8 = 53;

/// The end of a tar archive: two blocks of zeros.
pub open spec fn end_marker() -> Seq<u8> {
    Seq::new(1024, |i: int| 0u8)
}

/// The record of one entry. A directory is stored without content.
pub open spec fn entry_record(entry: EntryView) -> Seq<u8> {
    if entry.is_dir {
        tar_record(
            entry.path,
            KIND_DIRECTORY,
            entry.meta.mode,
            entry.meta.mtime,
            entry.meta.uid,
            entry.meta.gid,
            Seq::empty(),
        )
    } else {
        tar_record(
            entry.path,
            KIND_FILE,
            entry.meta.mode,
            entry.meta.mtime,
            entry.meta.uid,
            entry.meta.gid,
            entry.content,
        )
    }
}

/// The records of a list of entries, one after the other.
pub open spec fn tar_records(entries: Seq<EntryView>) -> Seq<u8>
    decreases entries.len(),
{
    if entries.len() == 0 {
        Seq::empty()
    } else {
        tar_records(entries.drop_last()) + entry_record(entries.last())
    }
}

/// A tar archive with the given entries: their records, then the end marker.
pub open spec fn tar_archive(entries: Seq<EntryView>) -> Seq<u8> {
    tar_records(entries) + end_marker()
}

/// A tar archive without entries is the end marker and nothing else.
pub proof fn lemma_empty_archive()
    ensures
        tar_archive(Seq::empty()) == end_marker(),
        tar_archive(Seq::empty()).len() == 1024,
{
    assert(tar_archive(Seq::empty()) =~= end_marker());
}

/// The records grow by one entry at a time.
pub proof fn lemma_tar_records_push(entries: Seq<EntryView>, entry: EntryView)
    ensures
        tar_records(entries.push(entry)) == tar_records(entries) + entry_record(entry),
{
    assert(entries.push(entry).drop_last() =~= entries);
}

/// A packer that writes a tar archive into a buffer.
pub struct TarPacker {
    tar: TarBuilder,
    entries: Ghost<Seq<EntryView>>,
    prefix: Ghost<Seq<u8>>,
}

impl TarPacker {
    /// What the buffer held when the packer was made.
    pub closed spec fn prefix(&self) -> Seq<u8> {
        self.prefix@
    }

    /// Makes a packer that writes behind what `file` already holds.
    pub fn new(file: Vec<u8>) -> (r: Result<TarPacker, Error>)
        ensures
            r is Ok,
            r->Ok_0.wf(),
            r->Ok_0.prefix() == file@,
            r->Ok_0.entries() == Seq::<EntryView>::empty(),
    {
        let ghost prefix = file@;
        let tar = builder_new(file);
        assert(prefix + tar_records(Seq::<EntryView>::empty()) =~= prefix);
        Ok(TarPacker { tar, entries: Ghost(Seq::empty()), prefix: Ghost(prefix) })
    }
}

impl Packer for TarPacker {
    /// The buffer holds the prefix and then the records of the entries, and
    /// the archive has not been ended.
    closed spec fn wf(&self) -> bool {
        &&& !builder_finished(self.tar)
        &&& builder_bytes(self.tar) == self.prefix@ + tar_records(self.entries@)
        &&& tar_records(self.entries@).len() % 512 == 0
    }

    /// A tar packer takes an entry when the `tar` crate takes its path.
    open spec fn accepts(entry: EntryView) -> bool {
        tar_accepts(entry.path)
    }

    /// A tar packer writes to memory, so the entries alone decide.
    open spec fn reliable() -> bool {
        true
    }

    /// A tar packer fails when the `tar` crate refuses an entry or cannot
    /// write, and in no other way.
    open spec fn can_fail_with(error: ErrorView) -> bool {
        error is TarPacker
    }

    closed spec fn entries(&self) -> Seq<EntryView> {
        self.entries@
    }

    open spec fn archive(&self, entries: Seq<EntryView>) -> Seq<u8> {
        self.prefix() + tar_archive(entries)
    }

    fn add_file(&mut self, entry: &FsEntry) -> (r: Result<(), Error>)
        ensures
            final(self).prefix() == old(self).prefix(),
            r is Ok <==> tar_accepts(entry.path@),
    {
        let empty: Vec<u8> = Vec::new();
        let outcome = if entry.is_dir {
            builder_append(
                &mut self.tar,
                entry.path.as_str(),
                KIND_DIRECTORY,
                entry.meta.mode,
                entry.meta.mtime,
                entry.meta.uid,
                entry.meta.gid,
                empty.as_slice(),
            )
        } else {
            builder_append(
                &mut self.tar,
                entry.path.as_str(),
                KIND_FILE,
                entry.meta.mode,
                entry.meta.mtime,
                entry.meta.uid,
                entry.meta.gid,
                entry.content.as_slice(),
            )
        };
        match outcome {
            Ok(()) => {
                proof {
                    lemma_tar_records_push(self.entries@, entry@);
                    assert(self.prefix@ + tar_records(self.entries@.push(entry@)) =~= self.prefix@
                        + tar_records(self.entries@) + entry_record(entry@));
                    self.entries@ = self.entries@.push(entry@);
                }
                Ok(())
            },
            Err(e) => Err(Error::TarPacker(e)),
        }
    }

    fn finish(self) -> (r: Result<Vec<u8>, Error>)
        ensures
            r is Ok,
            r matches Ok(bytes) ==> bytes@.len() >= self.prefix().len() + 1024 && (bytes@.len()
                - self.prefix().len()) % 512 == 0,
    {
        match builder_into_inner(self.tar) {
            Ok(bytes) => {
                assert(bytes@ =~= self.prefix() + tar_archive(self.entries()));
                Ok(bytes)
            },
            Err(e) => Err(Error::TarPacker(e)),
        }
    }
}

} // verus!
