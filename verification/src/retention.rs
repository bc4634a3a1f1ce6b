//! Retention policy over the staging directory. The sweep looks only at the
//! immediate children, keeps anything that is not an archive, and selects
//! for deletion exactly the archive files whose age exceeds the retention
//! window. The caller performs the deletions; a failed deletion of one file
//! never widens or narrows what the rest of the sweep selects.

use vstd::prelude::*;
use vstd::string::StrSliceExecFns;

verus! {

/// One immediate child of the staging directory: its file name and its age,
/// in seconds since it was last modified.
pub struct StagedFile {
    pub name: String,
    pub age_seconds: u64,
}

/// Seconds in a day.
pub const SECONDS_PER_DAY: u64 = 86400;

/// Whether a file name carries the archive extension `.zip`.
pub open spec fn is_archive_name(s: Seq<char>) -> bool {
    s.len() >= 4 && s.subrange(s.len() - 4, s.len() as int) == ".zip"@
}

/// Whether a staged file is eligible for deletion: it is an archive and is
/// strictly older than the window of `max_age_seconds`.
pub open spec fn eligible(f: StagedFile, max_age_seconds: u64) -> bool {
    is_archive_name(f.name@) && f.age_seconds > max_age_seconds
}

/// The staged files a sweep with this window leaves in place, in order.
pub open spec fn survivors(files: Seq<StagedFile>, max_age_seconds: u64) -> Seq<StagedFile> {
    files.filter(|f: StagedFile| !eligible(f, max_age_seconds))
}

/// Check the archive extension of a file name.
pub fn has_archive_extension(name: &str) -> (r: bool)
    ensures
        r == is_archive_name(name@),
{
    let n = name.unicode_len();
    if n < 4 {
        proof {
            assert(!is_archive_name(name@));
        }
        return false;
    }
    let tail = name.substring_char(n - 4, n);
    proof {
        reveal_strlit(".zip");
    }
    let dot = tail.get_char(0);
    let z = tail.get_char(1);
    let i_ch = tail.get_char(2);
    let p = tail.get_char(3);
    let r = dot == '.' && z == 'z' && i_ch == 'i' && p == 'p';
    proof {
        if r {
            assert(name@.subrange(name@.len() - 4, name@.len() as int) =~= ".zip"@);
        } else {
            if name@.subrange(name@.len() - 4, name@.len() as int) == ".zip"@ {
                assert(tail@[0] == '.' && tail@[1] == 'z' && tail@[2] == 'i' && tail@[3] == 'p');
            }
        }
    }
    r
}

impl StagedFile {
    /// Whether this file falls to a sweep with the given window.
    pub fn is_expired(&self, max_age_seconds: u64) -> (r: bool)
        ensures
            r == eligible(*self, max_age_seconds),
    {
        let archive = has_archive_extension(self.name.as_str());
        archive && self.age_seconds > max_age_seconds
    }
}

/// Decide a sweep: the indices, in increasing order, of exactly those staged
/// files that are archives strictly older than the window. Every index the
/// plan names is eligible, and every eligible file is named.
pub fn plan_sweep(files: &Vec<StagedFile>, max_age_seconds: u64) -> (plan: Vec<usize>)
    ensures
        forall|k: int|
            0 <= k < plan@.len() ==> (#[trigger] plan@[k]) < files@.len() && eligible(
                files@[plan@[k] as int],
                max_age_seconds,
            ),
        forall|i: int|
            0 <= i < files@.len() && eligible(#[trigger] files@[i], max_age_seconds)
                ==> plan@.contains(i as usize),
        forall|k1: int, k2: int|
            0 <= k1 < k2 < plan@.len() ==> (#[trigger] plan@[k1]) < (#[trigger] plan@[k2]),
{
    let mut plan: Vec<usize> = Vec::new();
    let mut i: usize = 0;
    while i < files.len()
        invariant
            i <= files@.len(),
            forall|k: int|
                0 <= k < plan@.len() ==> (#[trigger] plan@[k]) < i && eligible(
                    files@[plan@[k] as int],
                    max_age_seconds,
                ),
            forall|j: int|
                0 <= j < i && eligible(#[trigger] files@[j], max_age_seconds)
                    ==> plan@.contains(j as usize),
            forall|k1: int, k2: int|
                0 <= k1 < k2 < plan@.len() ==> (#[trigger] plan@[k1]) < (#[trigger] plan@[k2]),
        decreases files@.len() - i,
    {
        let ghost prev = plan@;
        if files[i].is_expired(max_age_seconds) {
            plan.push(i);
            proof {
                assert(plan@ =~= prev.push(i));
                assert forall|j: int|
                    0 <= j < i + 1 && eligible(#[trigger] files@[j], max_age_seconds)
                        implies plan@.contains(j as usize) by {
                    if j < i {
                        let k = choose|k: int| 0 <= k < prev.len() && prev[k] == j as usize;
                        assert(plan@[k] == j as usize);
                    } else {
                        assert(plan@[plan@.len() - 1] == i);
                    }
                }
            }
        }
        i = i + 1;
    }
    plan
}

/// A sweep removes exactly the expired archives: afterwards no staged file
/// is older than the window, and sweeping again removes nothing — the
/// survivors of a sweep survive a second sweep unchanged (idempotence).
pub proof fn lemma_sweep_idempotent(files: Seq<StagedFile>, max_age_seconds: u64)
    ensures
        forall|i: int|
            0 <= i < survivors(files, max_age_seconds).len() ==> !eligible(
                #[trigger] survivors(files, max_age_seconds)[i],
                max_age_seconds,
            ),
        survivors(survivors(files, max_age_seconds), max_age_seconds) == survivors(
            files,
            max_age_seconds,
        ),
    decreases files.len(),
{
    reveal(Seq::filter);
    let pred = |f: StagedFile| !eligible(f, max_age_seconds);
    if files.len() == 0 {
        assert(files.filter(pred) =~= Seq::<StagedFile>::empty());
        assert(survivors(files, max_age_seconds).filter(pred) =~= Seq::<StagedFile>::empty());
    } else {
        lemma_sweep_idempotent(files.drop_last(), max_age_seconds);
        let sd = files.drop_last().filter(pred);
        if pred(files.last()) {
            assert(files.filter(pred) == sd.push(files.last()));
            assert(sd.push(files.last()).drop_last() =~= sd);
            assert(files.filter(pred).filter(pred) == sd.filter(pred).push(files.last()));
        } else {
            assert(files.filter(pred) == sd);
        }
    }
}

} // verus!
