//! The traversal's verified edge: turning absolute paths into the
//! root-relative names that archive members carry. The root itself yields no
//! entry, so a path equal to the root (or not under it) has no relative
//! name; a root given with trailing separators names the same directory.
//! Member names use forward-slash separators whatever the host convention,
//! so a normalizer is provided. Traversal order and directory reading stay
//! with the caller, which must hand entries over in a deterministic order.

use vstd::prelude::*;
use vstd::string::{StrSliceExecFns, StringExecFns};

verus! {

/// A path with its trailing separators dropped: the form in which a root
/// directory is compared against the paths below it.
pub open spec fn trim_trailing_seps(s: Seq<char>) -> Seq<char>
    decreases s.len(),
{
    if s.len() > 0 && s.last() == '/' {
        trim_trailing_seps(s.drop_last())
    } else {
        s
    }
}

/// The characters after the last separator of a path; empty when the path
/// is empty or ends with a separator.
pub open spec fn base_name_spec(s: Seq<char>) -> Seq<char>
    decreases s.len(),
{
    if s.len() == 0 {
        Seq::empty()
    } else if s.last() == '/' {
        Seq::empty()
    } else {
        base_name_spec(s.drop_last()).push(s.last())
    }
}

/// Whether `full` names something strictly inside the directory `root`,
/// for a root given without trailing separators.
pub open spec fn is_under(root: Seq<char>, full: Seq<char>) -> bool {
    full.len() > root.len() + 1 && full.subrange(0, root.len() as int) == root && full[root.len() as int]
        == '/'
}

/// The root-relative name of `full` below `root`.
pub open spec fn rel_of(root: Seq<char>, full: Seq<char>) -> Seq<char> {
    full.skip(root.len() + 1 as int)
}

/// Every path separator turned into the forward slash that archive member
/// names carry, whatever the host convention wrote.
pub open spec fn normalized_seps(s: Seq<char>) -> Seq<char> {
    s.map_values(
        |c: char|
            if c == '\\' {
                '/'
            } else {
                c
            },
    )
}

/// Strip the root from an absolute path: the relative member name if `full`
/// lies strictly under `root` (trailing separators on the root do not
/// matter), and nothing otherwise — in particular the root itself gets no
/// name and is excluded from the walk.
pub fn relative_path(root: &str, full: &str) -> (r: Option<String>)
    ensures
        r is Some <==> is_under(trim_trailing_seps(root@), full@),
        r matches Some(s) ==> s@ == rel_of(trim_trailing_seps(root@), full@),
{
    let mut rl = root.unicode_len();
    proof {
        assert(root@.take(root@.len() as int) =~= root@);
    }
    while rl > 0 && root.get_char(rl - 1) == '/'
        invariant
            rl <= root@.len(),
            trim_trailing_seps(root@) == trim_trailing_seps(root@.take(rl as int)),
        decreases rl,
    {
        proof {
            assert(root@.take(rl as int).last() == root@[rl - 1]);
            assert(root@.take(rl as int).drop_last() =~= root@.take(rl - 1));
        }
        rl = rl - 1;
    }
    proof {
        assert(trim_trailing_seps(root@) =~= root@.take(rl as int));
    }
    let ghost troot = root@.take(rl as int);
    let fl = full.unicode_len();
    if fl <= rl {
        return None;
    }
    if fl - rl < 2 {
        return None;
    }
    let mut i: usize = 0;
    while i < rl
        invariant
            i <= rl,
            rl <= root@.len(),
            troot == root@.take(rl as int),
            trim_trailing_seps(root@) == troot,
            fl == full@.len(),
            fl > rl + 1,
            forall|j: int| 0 <= j < i ==> full@[j] == troot[j],
        decreases rl - i,
    {
        if full.get_char(i) != root.get_char(i) {
            proof {
                if full@.subrange(0, troot.len() as int) == troot {
                    assert(full@.subrange(0, troot.len() as int)[i as int] == troot[i as int]);
                }
            }
            return None;
        }
        i = i + 1;
    }
    if full.get_char(rl) != '/' {
        return None;
    }
    proof {
        assert(full@.subrange(0, troot.len() as int) =~= troot);
    }
    let tail = full.substring_char(rl + 1, fl);
    proof {
        assert(full@.subrange(rl + 1, fl as int) =~= full@.skip(rl + 1));
    }
    Some(String::from_str(tail))
}

/// The base name of the source path, naming the run folder: the last
/// component, with trailing separators ignored; a path with no component at
/// all falls back to the name `backup`.
pub fn source_base_of(path: &str) -> (r: String)
    ensures
        r@ == if base_name_spec(trim_trailing_seps(path@)).len() == 0 {
            "backup"@
        } else {
            base_name_spec(trim_trailing_seps(path@))
        },
{
    let mut n = path.unicode_len();
    proof {
        assert(path@.take(path@.len() as int) =~= path@);
    }
    while n > 0 && path.get_char(n - 1) == '/'
        invariant
            n <= path@.len(),
            trim_trailing_seps(path@) == trim_trailing_seps(path@.take(n as int)),
        decreases n,
    {
        proof {
            assert(path@.take(n as int).last() == path@[n - 1]);
            assert(path@.take(n as int).drop_last() =~= path@.take(n - 1));
        }
        n = n - 1;
    }
    proof {
        assert(trim_trailing_seps(path@) =~= path@.take(n as int));
    }
    let ghost tpath = path@.take(n as int);
    let mut j = n;
    proof {
        assert(tpath.skip(n as int) =~= Seq::<char>::empty());
        assert(base_name_spec(tpath) =~= base_name_spec(path@.take(n as int)) + tpath.skip(n as int));
    }
    while j > 0
        invariant
            j <= n,
            n <= path@.len(),
            tpath == path@.take(n as int),
            trim_trailing_seps(path@) == tpath,
            base_name_spec(tpath) == base_name_spec(path@.take(j as int)) + path@.subrange(
                j as int,
                n as int,
            ),
        decreases j,
    {
        let c = path.get_char(j - 1);
        proof {
            assert(path@.take(j as int).last() == path@[j - 1]);
            assert(path@.take(j as int).drop_last() =~= path@.take(j - 1));
        }
        if c == '/' {
            proof {
                assert(base_name_spec(path@.take(j as int)) =~= Seq::<char>::empty());
                assert(base_name_spec(tpath) =~= path@.subrange(j as int, n as int));
            }
            let tail = path.substring_char(j, n);
            if tail.unicode_len() == 0 {
                return String::from_str("backup");
            } else {
                return String::from_str(tail);
            }
        }
        proof {
            assert(base_name_spec(path@.take(j as int)) == base_name_spec(path@.take(j - 1)).push(
                path@[j - 1],
            ));
            assert(base_name_spec(path@.take(j - 1)).push(path@[j - 1]) + path@.subrange(
                j as int,
                n as int,
            ) =~= base_name_spec(path@.take(j - 1)) + path@.subrange(j - 1, n as int));
        }
        j = j - 1;
    }
    proof {
        assert(path@.take(0) =~= Seq::<char>::empty());
        assert(base_name_spec(Seq::<char>::empty()) =~= Seq::<char>::empty());
        assert(base_name_spec(tpath) =~= path@.subrange(0, n as int));
    }
    let base = path.substring_char(j, n);
    if base.unicode_len() == 0 {
        String::from_str("backup")
    } else {
        String::from_str(base)
    }
}

/// Rewrite backslash separators to the forward slashes archive member names
/// use, leaving every other character in place.
pub fn normalize_separators(p: &str) -> (r: String)
    ensures
        r@ == normalized_seps(p@),
{
    let n = p.unicode_len();
    let mut out = String::new();
    let mut start: usize = 0;
    let mut i: usize = 0;
    proof {
        assert(out@ =~= normalized_seps(p@.take(0)));
    }
    while i < n
        invariant
            start <= i <= n,
            n == p@.len(),
            out@ == normalized_seps(p@.take(start as int)),
            forall|k: int| start <= k < i ==> p@[k] != '\\',
        decreases n - i,
    {
        let c = p.get_char(i);
        if c == '\\' {
            let run = p.substring_char(start, i);
            out.append(run);
            out.append("/");
            proof {
                reveal_strlit("/");
                assert forall|k: int| 0 <= k < i + 1 implies (normalized_seps(p@.take(start as int))
                    + p@.subrange(start as int, i as int) + "/"@)[k] == normalized_seps(
                    p@.take(i + 1),
                )[k] by {
                    if k < start {
                    } else if k < i {
                        assert(p@[k] != '\\');
                    } else {
                        assert(p@[k] == '\\');
                    }
                }
                assert(out@ =~= normalized_seps(p@.take(i + 1)));
            }
            start = i + 1;
        }
        i = i + 1;
    }
    let run = p.substring_char(start, n);
    out.append(run);
    proof {
        assert forall|k: int| 0 <= k < n implies (normalized_seps(p@.take(start as int))
            + p@.subrange(start as int, n as int))[k] == normalized_seps(p@)[k] by {
            if k >= start {
                assert(p@[k] != '\\');
            }
        }
        assert(out@ =~= normalized_seps(p@));
    }
    out
}

} // verus!
