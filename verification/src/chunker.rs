//! Chunking policy: split the entry sequence of one run into segments. A
//! segment is closed exactly when it already holds the threshold number of
//! file entries and the next entry is a file; directory markers never close a
//! segment on their own. An exhausted sequence closes the open segment
//! whatever it holds, so even an empty tree yields one (empty) segment.

use vstd::prelude::*;
use crate::entry::{Entry, file_count, is_file_entry, lemma_file_count_push, member_of, members_of, shape_of, shapes_of};

verus! {

/// The segments that remain to be produced, given the entries still to
/// consume (`s`), the threshold `c`, the open segment `cur`, and the segments
/// already sealed (`done`).
pub open spec fn chunk_rec(
    s: Seq<Entry>,
    c: nat,
    cur: Seq<Entry>,
    done: Seq<Seq<Entry>>,
) -> Seq<Seq<Entry>>
    decreases s.len(),
{
    if s.len() == 0 {
        done.push(cur)
    } else if file_count(cur) == c && is_file_entry(s[0]) {
        chunk_rec(s.skip(1), c, seq![s[0]], done.push(cur))
    } else {
        chunk_rec(s.skip(1), c, cur.push(s[0]), done)
    }
}

/// The segment contents of one run: the entry sequence split at the chunking
/// threshold `c`.
pub open spec fn chunk(s: Seq<Entry>, c: nat) -> Seq<Seq<Entry>> {
    chunk_rec(s, c, Seq::empty(), Seq::empty())
}

/// All segment contents of a run, joined back into one sequence.
pub open spec fn concat_all(cs: Seq<Seq<Entry>>) -> Seq<Entry>
    decreases cs.len(),
{
    if cs.len() == 0 {
        Seq::empty()
    } else {
        concat_all(cs.drop_last()) + cs.last()
    }
}

/// The total entry count across segment contents.
pub open spec fn total_entries(cs: Seq<Seq<Entry>>) -> nat
    decreases cs.len(),
{
    if cs.len() == 0 {
        0
    } else {
        total_entries(cs.drop_last()) + cs.last().len()
    }
}

proof fn lemma_concat_all_len(cs: Seq<Seq<Entry>>)
    ensures
        concat_all(cs).len() == total_entries(cs),
    decreases cs.len(),
{
    if cs.len() > 0 {
        lemma_concat_all_len(cs.drop_last());
    }
}

proof fn lemma_chunk_rec_concat(s: Seq<Entry>, c: nat, cur: Seq<Entry>, done: Seq<Seq<Entry>>)
    ensures
        concat_all(chunk_rec(s, c, cur, done)) == concat_all(done) + cur + s,
    decreases s.len(),
{
    if s.len() == 0 {
        assert(chunk_rec(s, c, cur, done) == done.push(cur));
        assert(done.push(cur).drop_last() =~= done);
        assert(concat_all(done.push(cur)) == concat_all(done) + cur);
        assert(concat_all(done) + cur =~= concat_all(done) + cur + s);
    } else if file_count(cur) == c && is_file_entry(s[0]) {
        lemma_chunk_rec_concat(s.skip(1), c, seq![s[0]], done.push(cur));
        assert(done.push(cur).drop_last() =~= done);
        assert(concat_all(done.push(cur)) == concat_all(done) + cur);
        assert(concat_all(done) + cur + seq![s[0]] + s.skip(1) =~= concat_all(done) + cur + s);
    } else {
        lemma_chunk_rec_concat(s.skip(1), c, cur.push(s[0]), done);
        assert(concat_all(done) + cur.push(s[0]) + s.skip(1) =~= concat_all(done) + cur + s);
    }
}

/// Every entry of a run lands in exactly one segment: joining the segment
/// contents in order gives back the entry sequence, so the relative-path set
/// of the tree is reconstructed exactly, and the total entry count across
/// segments equals the number of entries.
pub proof fn lemma_chunk_partition(s: Seq<Entry>, c: nat)
    ensures
        concat_all(chunk(s, c)) == s,
        total_entries(chunk(s, c)) == s.len(),
{
    lemma_chunk_rec_concat(s, c, Seq::empty(), Seq::empty());
    assert(concat_all(Seq::<Seq<Entry>>::empty()) == Seq::<Entry>::empty());
    assert(Seq::<Entry>::empty() + Seq::<Entry>::empty() + s =~= s);
    lemma_concat_all_len(chunk(s, c));
}

proof fn lemma_chunk_rec_bounds(s: Seq<Entry>, c: nat, cur: Seq<Entry>, done: Seq<Seq<Entry>>)
    requires
        c >= 1,
        file_count(cur) <= c,
        forall|i: int| 0 <= i < done.len() ==> file_count(#[trigger] done[i]) == c,
    ensures
        chunk_rec(s, c, cur, done).len() >= done.len() + 1,
        forall|i: int|
            0 <= i < chunk_rec(s, c, cur, done).len() ==> file_count(
                #[trigger] chunk_rec(s, c, cur, done)[i],
            ) <= c,
        forall|i: int|
            0 <= i < chunk_rec(s, c, cur, done).len() - 1 ==> file_count(
                #[trigger] chunk_rec(s, c, cur, done)[i],
            ) == c,
    decreases s.len(),
{
    if s.len() == 0 {
        assert(chunk_rec(s, c, cur, done) == done.push(cur));
    } else if file_count(cur) == c && is_file_entry(s[0]) {
        assert(seq![s[0]] =~= Seq::<Entry>::empty().push(s[0]));
        lemma_file_count_push(Seq::<Entry>::empty(), s[0]);
        assert(file_count(Seq::<Entry>::empty()) == 0);
        assert(forall|i: int|
            0 <= i < done.push(cur).len() ==> file_count(#[trigger] done.push(cur)[i]) == c);
        lemma_chunk_rec_bounds(s.skip(1), c, seq![s[0]], done.push(cur));
    } else {
        lemma_file_count_push(cur, s[0]);
        lemma_chunk_rec_bounds(s.skip(1), c, cur.push(s[0]), done);
    }
}

/// A run always yields at least one segment; every segment holds at most the
/// threshold `c` of file entries; and every segment but the last holds
/// exactly `c`.
pub proof fn lemma_chunk_file_bounds(s: Seq<Entry>, c: nat)
    requires
        c >= 1,
    ensures
        chunk(s, c).len() >= 1,
        forall|i: int| 0 <= i < chunk(s, c).len() ==> file_count(#[trigger] chunk(s, c)[i]) <= c,
        forall|i: int|
            0 <= i < chunk(s, c).len() - 1 ==> file_count(#[trigger] chunk(s, c)[i]) == c,
{
    assert(file_count(Seq::<Entry>::empty()) == 0);
    lemma_chunk_rec_bounds(s, c, Seq::empty(), Seq::empty());
}

/// An empty tree still yields exactly one segment, and that segment is
/// empty: a backup run always produces at least one artifact.
pub proof fn lemma_chunk_empty_tree(c: nat)
    ensures
        chunk(Seq::<Entry>::empty(), c) == seq![Seq::<Entry>::empty()],
{
    assert(chunk(Seq::<Entry>::empty(), c)
        == Seq::<Seq<Entry>>::empty().push(Seq::<Entry>::empty()));
    assert(Seq::<Seq<Entry>>::empty().push(Seq::<Entry>::empty())
        =~= seq![Seq::<Entry>::empty()]);
}

/// The member lists of all segments of a run, in order.
pub open spec fn segment_members(cs: Seq<Seq<Entry>>) -> Seq<Seq<(Seq<char>, Option<Seq<u8>>)>> {
    cs.map_values(|seg: Seq<Entry>| members_of(seg))
}

/// The shapes (paths and kinds) of all segments of a run, in order.
pub open spec fn segment_shapes(cs: Seq<Seq<Entry>>) -> Seq<Seq<(Seq<char>, bool)>> {
    cs.map_values(|seg: Seq<Entry>| shapes_of(seg))
}

/// All segments' member lists, joined in order.
pub open spec fn concat_members(ms: Seq<Seq<(Seq<char>, Option<Seq<u8>>)>>) -> Seq<(Seq<char>, Option<Seq<u8>>)>
    decreases ms.len(),
{
    if ms.len() == 0 {
        Seq::empty()
    } else {
        concat_members(ms.drop_last()) + ms.last()
    }
}

proof fn lemma_concat_members_of(cs: Seq<Seq<Entry>>)
    ensures
        concat_members(segment_members(cs)) == members_of(concat_all(cs)),
    decreases cs.len(),
{
    if cs.len() == 0 {
        assert(segment_members(cs) =~= Seq::<Seq<(Seq<char>, Option<Seq<u8>>)>>::empty());
        assert(concat_all(cs) =~= Seq::<Entry>::empty());
        assert(members_of(Seq::<Entry>::empty()) =~= Seq::<(Seq<char>, Option<Seq<u8>>)>::empty());
    } else {
        lemma_concat_members_of(cs.drop_last());
        assert(segment_members(cs).drop_last() =~= segment_members(cs.drop_last()));
        assert(segment_members(cs).last() == members_of(cs.last()));
        assert(members_of(concat_all(cs.drop_last()) + cs.last())
            =~= members_of(concat_all(cs.drop_last())) + members_of(cs.last()));
    }
}

/// Extracting every segment of a run and joining their member lists in
/// order gives exactly the member list of the whole tree: no entry's
/// relative path is lost or invented by chunking.
pub proof fn lemma_archive_complete(s: Seq<Entry>, c: nat)
    ensures
        concat_members(segment_members(chunk(s, c))) == members_of(s),
{
    lemma_chunk_partition(s, c);
    lemma_concat_members_of(chunk(s, c));
}

proof fn lemma_members_file_count(a: Seq<Entry>, b: Seq<Entry>)
    requires
        shapes_of(a) == shapes_of(b),
    ensures
        file_count(a) == file_count(b),
    decreases a.len(),
{
    assert(shapes_of(a).len() == a.len());
    assert(shapes_of(b).len() == b.len());
    if a.len() > 0 {
        assert(shapes_of(a.drop_last()) =~= shapes_of(a).drop_last());
        assert(shapes_of(b.drop_last()) =~= shapes_of(b).drop_last());
        lemma_members_file_count(a.drop_last(), b.drop_last());
        assert(shapes_of(a)[a.len() - 1] == shapes_of(b)[b.len() - 1]);
        assert(is_file_entry(a.last()) == is_file_entry(b.last()));
    }
}

proof fn lemma_chunk_rec_shape(
    s1: Seq<Entry>,
    s2: Seq<Entry>,
    c: nat,
    cur1: Seq<Entry>,
    cur2: Seq<Entry>,
    done1: Seq<Seq<Entry>>,
    done2: Seq<Seq<Entry>>,
)
    requires
        shapes_of(s1) == shapes_of(s2),
        shapes_of(cur1) == shapes_of(cur2),
        segment_shapes(done1) == segment_shapes(done2),
    ensures
        segment_shapes(chunk_rec(s1, c, cur1, done1)) == segment_shapes(chunk_rec(s2, c, cur2, done2)),
    decreases s1.len(),
{
    assert(shapes_of(s1).len() == s1.len());
    assert(shapes_of(s2).len() == s2.len());
    lemma_members_file_count(cur1, cur2);
    if s1.len() == 0 {
        assert(segment_shapes(done1.push(cur1)) =~= segment_shapes(done1).push(shapes_of(cur1)));
        assert(segment_shapes(done2.push(cur2)) =~= segment_shapes(done2).push(shapes_of(cur2)));
    } else {
        assert(shapes_of(s1)[0] == shapes_of(s2)[0]);
        assert(is_file_entry(s1[0]) == is_file_entry(s2[0]));
        assert(shapes_of(s1.skip(1)) =~= shapes_of(s2.skip(1))) by {
            assert forall|i: int| 0 <= i < s1.skip(1).len() implies shapes_of(s1.skip(1))[i]
                == shapes_of(s2.skip(1))[i] by {
                assert(shapes_of(s1)[i + 1] == shapes_of(s2)[i + 1]);
            }
            assert(shapes_of(s1.skip(1)).len() == shapes_of(s2.skip(1)).len());
        }
        if file_count(cur1) == c && is_file_entry(s1[0]) {
            assert(segment_shapes(done1.push(cur1))
                =~= segment_shapes(done1).push(shapes_of(cur1)));
            assert(segment_shapes(done2.push(cur2))
                =~= segment_shapes(done2).push(shapes_of(cur2)));
            assert(shapes_of(seq![s1[0]]) =~= shapes_of(seq![s2[0]]));
            lemma_chunk_rec_shape(
                s1.skip(1), s2.skip(1), c,
                seq![s1[0]], seq![s2[0]],
                done1.push(cur1), done2.push(cur2),
            );
        } else {
            assert(shapes_of(cur1.push(s1[0])) =~= shapes_of(cur1).push(shape_of(s1[0])));
            assert(shapes_of(cur2.push(s2[0])) =~= shapes_of(cur2).push(shape_of(s2[0])));
            lemma_chunk_rec_shape(
                s1.skip(1), s2.skip(1), c,
                cur1.push(s1[0]), cur2.push(s2[0]),
                done1, done2,
            );
        }
    }
}

/// Chunking is deterministic: two trees whose entries have the same relative
/// paths and kinds, in the same order — whatever the file contents — are
/// split at the same boundaries, so re-running the archiver on an unchanged
/// tree with the same threshold produces identical member lists, segment for
/// segment.
pub proof fn lemma_chunk_deterministic(t1: Seq<Entry>, t2: Seq<Entry>, c: nat)
    requires
        shapes_of(t1) == shapes_of(t2),
    ensures
        segment_shapes(chunk(t1, c)) == segment_shapes(chunk(t2, c)),
{
    assert(shapes_of(Seq::<Entry>::empty()) =~= shapes_of(Seq::<Entry>::empty()));
    assert(segment_shapes(Seq::<Seq<Entry>>::empty()) =~= segment_shapes(Seq::<Seq<Entry>>::empty()));
    lemma_chunk_rec_shape(t1, t2, c, Seq::empty(), Seq::empty(), Seq::empty(), Seq::empty());
}

/// Split the entries of one run into segment contents, in order.
pub fn chunk_entries(entries: Vec<Entry>, chunk_size: usize) -> (chunks: Vec<Vec<Entry>>)
    requires
        chunk_size >= 1,
    ensures
        chunks@.map_values(|v: Vec<Entry>| v@) == chunk(entries@, chunk_size as nat),
{
    let ghost full: Seq<Entry> = entries@;
    let ghost c: nat = chunk_size as nat;
    let mut rest = entries;
    let mut cur: Vec<Entry> = Vec::new();
    let mut cur_files: usize = 0;
    let mut done: Vec<Vec<Entry>> = Vec::new();
    proof {
        assert(done@.map_values(|v: Vec<Entry>| v@) =~= Seq::<Seq<Entry>>::empty());
        assert(cur@ =~= Seq::<Entry>::empty());
    }
    while rest.len() > 0
        invariant
            chunk_size >= 1,
            c == chunk_size as nat,
            cur_files == file_count(cur@),
            cur_files <= chunk_size,
            chunk_rec(rest@, c, cur@, done@.map_values(|v: Vec<Entry>| v@)) == chunk(full, c),
        decreases rest.len(),
    {
        let ghost prev_rest = rest@;
        let ghost prev_cur = cur@;
        let ghost prev_done = done@.map_values(|v: Vec<Entry>| v@);
        let e = rest.remove(0);
        proof {
            assert(prev_rest.skip(1) =~= rest@);
            assert(e == prev_rest[0]);
        }
        let e_is_file = e.is_file();
        if cur_files == chunk_size && e_is_file {
            let mut fresh: Vec<Entry> = Vec::new();
            fresh.push(e);
            let sealed = cur;
            cur = fresh;
            cur_files = 1;
            done.push(sealed);
            proof {
                assert(chunk_rec(prev_rest, c, prev_cur, prev_done)
                    == chunk_rec(prev_rest.skip(1), c, seq![prev_rest[0]], prev_done.push(prev_cur)));
                assert(done@.map_values(|v: Vec<Entry>| v@) =~= prev_done.push(prev_cur));
                assert(cur@ =~= Seq::<Entry>::empty().push(prev_rest[0]));
                assert(file_count(Seq::<Entry>::empty()) == 0);
                lemma_file_count_push(Seq::<Entry>::empty(), prev_rest[0]);
            }
        } else {
            proof {
                lemma_file_count_push(cur@, e);
            }
            cur.push(e);
            if e_is_file {
                cur_files = cur_files + 1;
            }
            proof {
                assert(chunk_rec(prev_rest, c, prev_cur, prev_done)
                    == chunk_rec(prev_rest.skip(1), c, prev_cur.push(prev_rest[0]), prev_done));
                assert(cur@ =~= prev_cur.push(prev_rest[0]));
                assert(done@.map_values(|v: Vec<Entry>| v@) =~= prev_done);
            }
        }
    }
    let ghost end_done = done@.map_values(|v: Vec<Entry>| v@);
    proof {
        assert(rest@.len() == 0);
        assert(chunk_rec(rest@, c, cur@, end_done) == end_done.push(cur@));
    }
    let ghost last_cur = cur@;
    done.push(cur);
    proof {
        assert(done@.map_values(|v: Vec<Entry>| v@) =~= end_done.push(last_cur));
    }
    done
}

} // verus!
