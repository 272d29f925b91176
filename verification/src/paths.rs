//! File paths: which paths qualify for inclusion. A path qualifies when its
//! final component carries the one configured extension, `rs`, in the sense of
//! `std::path::Path::extension`: the component ends in `.rs` and has a
//! non-empty stem before the dot.

use vstd::prelude::*;

verus! {

/// The final component of a path: the longest suffix that contains no `/`.
pub open spec fn file_name_of(path: Seq<char>) -> Seq<char>
    decreases path.len(),
{
    if path.len() == 0 || path.last() == '/' {
        Seq::empty()
    } else {
        file_name_of(path.drop_last()).push(path.last())
    }
}

/// A path qualifies when its final component is `<stem>.rs` with a non-empty
/// stem, the case-sensitive match that `extension() == "rs"` makes.
pub open spec fn is_rs_path(path: Seq<char>) -> bool {
    let name = file_name_of(path);
    name.len() >= 4 && name[name.len() - 3] == '.' && name[name.len() - 2] == 'r' && name[name.len()
        - 1] == 's'
}

/// Once the characters from `k` on are not `/` and the character before `k`
/// (if any) is `/`, the final component is exactly the suffix from `k` on.
proof fn lemma_file_name_is_suffix(path: Seq<char>, k: int)
    requires
        0 <= k <= path.len(),
        forall|j: int| k <= j < path.len() ==> path[j] != '/',
        k == 0 || path[k - 1] == '/',
    ensures
        file_name_of(path) == path.subrange(k, path.len() as int),
    decreases path.len(),
{
    if k == path.len() {
        if path.len() == 0 || path.last() == '/' {
            assert(path.subrange(k, path.len() as int) =~= Seq::empty());
        }
    } else {
        assert(path.last() != '/');
        lemma_file_name_is_suffix(path.drop_last(), k);
        assert(file_name_of(path) == path.drop_last().subrange(k, path.len() - 1).push(
            path.last(),
        ));
        assert(path.drop_last().subrange(k, path.len() - 1).push(path.last()) =~= path.subrange(
            k,
            path.len() as int,
        ));
    }
}

/// Whether the path's final component carries the `rs` extension; the
/// executable side of `is_rs_path`.
pub fn has_rs_extension(path: &str) -> (r: bool)
    ensures
        r == is_rs_path(path@),
{
    let n: usize = path.unicode_len();
    let mut start: usize = n;
    while start > 0 && path.get_char(start - 1) != '/'
        invariant
            0 <= start <= n,
            n == path@.len(),
            forall|j: int| start <= j < n ==> path@[j] != '/',
        decreases start,
    {
        start = start - 1;
    }
    proof {
        lemma_file_name_is_suffix(path@, start as int);
    }
    if n - start < 4 {
        proof {
            assert(file_name_of(path@).len() == n - start);
        }
        return false;
    }
    let r = path.get_char(n - 3) == '.' && path.get_char(n - 2) == 'r' && path.get_char(n - 1)
        == 's';
    proof {
        let name = file_name_of(path@);
        assert(name.len() == n - start);
        assert(name[name.len() - 3] == path@[n - 3]);
        assert(name[name.len() - 2] == path@[n - 2]);
        assert(name[name.len() - 1] == path@[n - 1]);
    }
    r
}

} // verus!
