//! Sealed archive segments. A segment's container is built in memory by the
//! zip crate behind a small trusted layer; the member list the container
//! holds is modelled as a sequence of (relative path, contents) pairs — a
//! file member carries its data, a directory marker none — and the verified
//! builder proves that the members written, names and contents both, are
//! exactly the entries of the segment's chunk, in order, and that the sealed
//! bytes are the (deterministic) encoding of that member list.

use vstd::prelude::*;
use vstd::string::StringSliceAdditionalSpecFns;
use crate::entry::{check_member_name, member_of, members_of, Entry, EntryKind};
use crate::errors::BackupError;
use crate::chunker::{chunk, chunk_entries};

verus! {

/// An in-memory zip container being written. Holds the outside writer so the
/// trusted layer below is the only code that touches it.
#[verifier::external_body]
pub struct ContainerWriter {
    inner: zip::ZipWriter<std::io::Cursor<Vec<u8>>>,
}

/// The members the container holds so far, in the order they were added:
/// each is the member's path with, for a file member, the contents written
/// for it so far, and for a directory marker, no contents. Directory markers
/// are stored by the container with a trailing slash appended to this path.
pub uninterp spec fn container_members(w: ContainerWriter) -> Seq<(Seq<char>, Option<Seq<u8>>)>;

/// The bytes of the finished container holding these members. With the
/// fixed options the trusted layer passes (deflate, fixed permission bits,
/// and — the zip build having no clock feature — the format's constant
/// default timestamp), the encoding is a function of the member list alone.
pub uninterp spec fn container_bytes(members: Seq<(Seq<char>, Option<Seq<u8>>)>) -> Seq<u8>;

/// A file member after more contents were written to it.
pub open spec fn member_appended(m: (Seq<char>, Option<Seq<u8>>), data: Seq<u8>) -> (
    Seq<char>,
    Option<Seq<u8>>,
) {
    (
        m.0,
        match m.1 {
            Some(written) => Some(written + data),
            None => Some(data),
        },
    )
}

impl ContainerWriter {
    /// Relies on zip::ZipWriter::new over an empty in-memory cursor: a fresh
    /// archive containing no members, written with deflate compression.
    #[verifier::external_body]
    pub(crate) fn new() -> (w: ContainerWriter)
        ensures
            container_members(w) == Seq::<(Seq<char>, Option<Seq<u8>>)>::empty(),
    {
        ContainerWriter { inner: zip::ZipWriter::new(std::io::Cursor::new(Vec::new())) }
    }

    /// Relies on zip::ZipWriter::start_file: on success the archive gains one
    /// file member with exactly this name and no contents yet, carrying the
    /// conventional readable permission bits; what is written next becomes
    /// this member's contents. The name-length bound keeps the name inside
    /// the format's 16-bit length field, which the writer would otherwise
    /// silently truncate.
    #[verifier::external_body]
    pub(crate) fn start_file_member(&mut self, name: &str) -> (r: Result<(), BackupError>)
        requires
            name.spec_bytes().len() < 65536,
        ensures
            r is Ok ==> container_members(*final(self)) == container_members(*old(self)).push(
                (name@, Some(Seq::<u8>::empty())),
            ),
    {
        let options = zip::write::FileOptions::default()
            .compression_method(zip::CompressionMethod::Deflated)
            .unix_permissions(0o755);
        match self.inner.start_file(name, options) {
            Ok(()) => Ok(()),
            Err(_) => Err(BackupError::Archive),
        }
    }

    /// Relies on std::io::Write::write_all as the zip crate implements it for
    /// ZipWriter: on success the bytes are appended to the contents of the
    /// file member most recently started, and no other member changes.
    #[verifier::external_body]
    pub(crate) fn write_member_data(&mut self, data: &[u8]) -> (r: Result<(), BackupError>)
        requires
            container_members(*old(self)).len() > 0,
            container_members(*old(self)).last().1 is Some,
        ensures
            r is Ok ==> container_members(*final(self)) == container_members(*old(self)).update(
                container_members(*old(self)).len() - 1,
                member_appended(container_members(*old(self)).last(), data@),
            ),
    {
        match std::io::Write::write_all(&mut self.inner, data) {
            Ok(()) => Ok(()),
            Err(_) => Err(BackupError::Archive),
        }
    }

    /// Relies on zip::ZipWriter::add_directory: on success the archive gains
    /// one content-free directory member, stored under this name with a
    /// trailing slash appended. The name must not already end in a
    /// separator (the writer would then skip the appending, storing a name
    /// this model reads differently), and must leave the appended slash
    /// inside the format's 16-bit name-length field.
    #[verifier::external_body]
    pub(crate) fn add_directory_member(&mut self, name: &str) -> (r: Result<(), BackupError>)
        requires
            name@.len() > 0 ==> name@.last() != '/' && name@.last() != '\\',
            name.spec_bytes().len() + 1 < 65536,
        ensures
            r is Ok ==> container_members(*final(self)) == container_members(*old(self)).push(
                (name@, None::<Seq<u8>>),
            ),
    {
        let options = zip::write::FileOptions::default()
            .compression_method(zip::CompressionMethod::Deflated)
            .unix_permissions(0o755);
        match self.inner.add_directory(name, options) {
            Ok(()) => Ok(()),
            Err(_) => Err(BackupError::Archive),
        }
    }

    /// Relies on zip::ZipWriter::finish: finalizes the container's central
    /// directory and hands back the container bytes — the encoding of
    /// exactly the members written. After this no member can be added.
    #[verifier::external_body]
    pub(crate) fn finish(self) -> (r: Result<Vec<u8>, BackupError>)
        ensures
            r matches Ok(b) ==> b@ == container_bytes(container_members(self)),
    {
        let mut w = self;
        match w.inner.finish() {
            Ok(cursor) => Ok(cursor.into_inner()),
            Err(_) => Err(BackupError::Archive),
        }
    }
}

/// One sealed archive segment of a run: its 0-based index, the number of
/// entries it holds, the finished container bytes, and (ghost) the member
/// list the container was built from. A sealed segment is immutable; it only
/// changes hands.
pub struct SealedSegment {
    pub index: usize,
    pub entry_count: usize,
    pub data: Vec<u8>,
    pub members: Ghost<Seq<(Seq<char>, Option<Seq<u8>>)>>,
}

/// What a correctly sealed segment for chunk `i` of contents `entries` is:
/// the right index and count, the chunk's member list, and container bytes
/// that encode exactly that member list.
pub open spec fn seals(s: SealedSegment, i: int, entries: Seq<Entry>) -> bool {
    &&& s.index == i
    &&& s.entry_count == entries.len()
    &&& s.members@ == members_of(entries)
    &&& s.data@ == container_bytes(members_of(entries))
}

/// Build and seal the container for one segment: every entry becomes one
/// member, in order — files with their full contents, directories as
/// markers — and the sealed bytes encode exactly that member list. A
/// container write failure, or an entry whose name the container could not
/// store faithfully (empty, separator-terminated, or over the format's
/// name-length limit), aborts with the archive error.
pub fn build_segment(index: usize, entries: &Vec<Entry>) -> (r: Result<
    SealedSegment,
    BackupError,
>)
    ensures
        r matches Ok(s) ==> seals(s, index as int, entries@),
        r is Err ==> r == Err::<SealedSegment, BackupError>(BackupError::Archive),
{
    let mut w = ContainerWriter::new();
    let mut i: usize = 0;
    proof {
        assert(members_of(entries@.take(0)) =~= Seq::<(Seq<char>, Option<Seq<u8>>)>::empty());
    }
    while i < entries.len()
        invariant
            i <= entries.len(),
            container_members(w) == members_of(entries@.take(i as int)),
        decreases entries.len() - i,
    {
        let e = &entries[i];
        if !check_member_name(e.rel_path.as_str()) {
            return Err(BackupError::Archive);
        }
        let ghost before = container_members(w);
        match &e.kind {
            EntryKind::File { data } => {
                match w.start_file_member(e.rel_path.as_str()) {
                    Ok(()) => {}
                    Err(_) => {
                        return Err(BackupError::Archive);
                    }
                }
                match w.write_member_data(data.as_slice()) {
                    Ok(()) => {}
                    Err(_) => {
                        return Err(BackupError::Archive);
                    }
                }
                proof {
                    let started = before.push((e.rel_path@, Some(Seq::<u8>::empty())));
                    assert(container_members(w) == started.update(
                        started.len() - 1,
                        member_appended(started.last(), data@),
                    ));
                    assert(Seq::<u8>::empty() + data@ =~= data@);
                    assert(container_members(w) =~= before.push((e.rel_path@, Some(data@))));
                }
            }
            EntryKind::Directory => {
                match w.add_directory_member(e.rel_path.as_str()) {
                    Ok(()) => {}
                    Err(_) => {
                        return Err(BackupError::Archive);
                    }
                }
            }
        }
        proof {
            assert(members_of(entries@.take(i + 1)) =~= members_of(entries@.take(i as int)).push(
                member_of(entries@[i as int]),
            ));
        }
        i = i + 1;
    }
    proof {
        assert(entries@.take(entries@.len() as int) =~= entries@);
    }
    let ghost written = container_members(w);
    let data = match w.finish() {
        Ok(d) => d,
        Err(_) => {
            return Err(BackupError::Archive);
        }
    };
    Ok(SealedSegment { index, entry_count: entries.len(), data, members: Ghost(written) })
}

/// An aborted archiving step: the segments that were already sealed before
/// the failure — intact, for staging and inspection — and why it stopped.
pub struct ArchiveFailure {
    pub sealed: Vec<SealedSegment>,
    pub error: BackupError,
}

/// Run the whole archiving step: split the entries at the threshold and seal
/// one container per segment. On success the segments carry the indices
/// 0..N-1 in order, each sealing its chunk of the entry sequence. On a
/// container write failure the step aborts with the archive error, handing
/// back untouched every segment sealed before the failure.
#[verifier::loop_isolation(false)]
pub fn archive_all(entries: Vec<Entry>, chunk_size: usize) -> (r: Result<
    Vec<SealedSegment>,
    ArchiveFailure,
>)
    requires
        chunk_size >= 1,
    ensures
        r matches Ok(segs) ==> {
            let cs = chunk(entries@, chunk_size as nat);
            &&& segs@.len() == cs.len()
            &&& forall|i: int| 0 <= i < segs@.len() ==> seals(#[trigger] segs@[i], i, cs[i])
        },
        r matches Err(f) ==> {
            let cs = chunk(entries@, chunk_size as nat);
            &&& f.error == BackupError::Archive
            &&& f.sealed@.len() <= cs.len()
            &&& forall|i: int| 0 <= i < f.sealed@.len() ==> seals(#[trigger] f.sealed@[i], i, cs[i])
        },
{
    let ghost cs = chunk(entries@, chunk_size as nat);
    let chunks = chunk_entries(entries, chunk_size);
    let mut segs: Vec<SealedSegment> = Vec::new();
    let mut i: usize = 0;
    while i < chunks.len()
        invariant
            i <= chunks.len(),
            chunks@.map_values(|v: Vec<Entry>| v@) == cs,
            segs@.len() == i,
            forall|j: int| 0 <= j < i ==> seals(#[trigger] segs@[j], j, cs[j]),
        decreases chunks.len() - i,
    {
        proof {
            assert(cs[i as int] == chunks@.map_values(|v: Vec<Entry>| v@)[i as int]);
        }
        match build_segment(i, &chunks[i]) {
            Ok(s) => {
                segs.push(s);
            }
            Err(e) => {
                proof {
                    assert(chunks@.map_values(|v: Vec<Entry>| v@).len() == chunks@.len());
                }
                return Err(ArchiveFailure { sealed: segs, error: e });
            }
        }
        i = i + 1;
    }
    proof {
        assert(chunks@.map_values(|v: Vec<Entry>| v@).len() == chunks@.len());
    }
    Ok(segs)
}

} // verus!
