//! Filesystem entries as the archiver sees them: a path relative to the
//! source root together with what the entry is (a file with its contents, or
//! a directory marker).

use vstd::prelude::*;
use vstd::string::{StrSliceExecFns, StringSliceAdditionalSpecFns};

verus! {

/// What a traversal entry is: a regular file carrying its full contents, or
/// a directory recorded as a content-free marker.
pub enum EntryKind {
    File { data: Vec<u8> },
    Directory,
}

/// One entry of the source tree, named by its root-relative path with
/// forward-slash separators.
pub struct Entry {
    pub rel_path: String,
    pub kind: EntryKind,
}

/// True of entries that count toward the chunking threshold.
pub open spec fn is_file_entry(e: Entry) -> bool {
    e.kind is File
}

/// How an entry appears in a sealed archive: its relative path, and its
/// contents — a file member carries its full data, a directory marker none.
pub open spec fn member_of(e: Entry) -> (Seq<char>, Option<Seq<u8>>) {
    (
        e.rel_path@,
        match e.kind {
            EntryKind::File { data } => Some(data@),
            EntryKind::Directory => None,
        },
    )
}

/// The member list an archive would hold for a sequence of entries, in order.
pub open spec fn members_of(s: Seq<Entry>) -> Seq<(Seq<char>, Option<Seq<u8>>)> {
    s.map_values(|e: Entry| member_of(e))
}

/// What chunking sees of an entry: its relative path and whether it is a
/// file (true) or a directory marker (false) — never the contents.
pub open spec fn shape_of(e: Entry) -> (Seq<char>, bool) {
    (e.rel_path@, is_file_entry(e))
}

/// The shapes of a sequence of entries, in order.
pub open spec fn shapes_of(s: Seq<Entry>) -> Seq<(Seq<char>, bool)> {
    s.map_values(|e: Entry| shape_of(e))
}

/// A member name the archive container can store faithfully: nonempty, not
/// ending in a path separator (the container appends the directory slash
/// itself), and under the format's 16-bit name-length limit.
pub open spec fn wf_member_name(s: &str) -> bool {
    s@.len() > 0 && s@.last() != '/' && s@.last() != '\\' && s.spec_bytes().len() + 1 < 65536
}

/// Check whether a member name can be stored faithfully.
pub fn check_member_name(name: &str) -> (r: bool)
    ensures
        r == wf_member_name(name),
{
    let n = name.unicode_len();
    if n == 0 {
        return false;
    }
    let last = name.get_char(n - 1);
    if last == '/' || last == '\\' {
        return false;
    }
    let bytes = name.as_bytes_vec();
    bytes.len() < 65535
}

/// How many entries of a sequence are files.
pub open spec fn file_count(s: Seq<Entry>) -> nat
    decreases s.len(),
{
    if s.len() == 0 {
        0
    } else {
        file_count(s.drop_last()) + if is_file_entry(s.last()) {
            1nat
        } else {
            0nat
        }
    }
}

pub proof fn lemma_file_count_push(s: Seq<Entry>, e: Entry)
    ensures
        file_count(s.push(e)) == file_count(s) + if is_file_entry(e) {
            1nat
        } else {
            0nat
        },
{
    assert(s.push(e).drop_last() =~= s);
    assert(s.push(e).last() == e);
}

impl Entry {
    /// Whether this entry is a file, as the chunking threshold counts it.
    pub fn is_file(&self) -> (r: bool)
        ensures
            r == is_file_entry(*self),
    {
        match &self.kind {
            EntryKind::File { .. } => true,
            EntryKind::Directory => false,
        }
    }
}

} // verus!
