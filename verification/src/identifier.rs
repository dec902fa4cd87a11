//! Utilities on paths: the ordered identifier sequences, from the root down
//! to a node, that give a node its identity across renders.

use vstd::prelude::*;

verus! {

/// Whether two paths are equal, element for element.
pub fn path_eq(a: &Vec<u64>, b: &Vec<u64>) -> (r: bool)
    ensures
        r <==> a@ == b@,
{
    if a.len() != b.len() {
        return false;
    }
    let n = a.len();
    for i in 0..n
        invariant
            n == a@.len(),
            n == b@.len(),
            forall|k: int| 0 <= k < i ==> a@[k] == b@[k],
    {
        if a[i] != b[i] {
            return false;
        }
    }
    proof {
        assert(a@ =~= b@);
    }
    true
}

/// The path of a child: `path` with `id` appended.
pub fn append(path: &Vec<u64>, id: u64) -> (r: Vec<u64>)
    ensures
        r@ == path@.push(id),
{
    let mut r: Vec<u64> = Vec::new();
    let n = path.len();
    for i in 0..n
        invariant
            n == path@.len(),
            r@ == path@.take(i as int),
    {
        r.push(path[i]);
        proof {
            assert(r@ =~= path@.take(i + 1));
        }
    }
    proof {
        assert(path@.take(n as int) =~= path@);
    }
    r.push(id);
    r
}

/// The parent of a path: the same path without its last element. Root-level
/// paths (and the empty path) have no parent.
pub fn get_without_leaf(path: &Vec<u64>) -> (r: Option<Vec<u64>>)
    ensures
        path@.len() <= 1 ==> r is None,
        path@.len() > 1 ==> (r matches Some(p) && p@ == path@.drop_last()),
{
    if path.len() <= 1 {
        return None;
    }
    let mut r: Vec<u64> = Vec::new();
    let n = path.len() - 1;
    for i in 0..n
        invariant
            n == path@.len() - 1,
            r@ == path@.take(i as int),
    {
        r.push(path[i]);
        proof {
            assert(r@ =~= path@.take(i + 1));
        }
    }
    proof {
        assert(path@.take(n as int) =~= path@.drop_last());
    }
    Some(r)
}

/// Whether `p` is one of `paths`.
pub fn contains_path(paths: &Vec<Vec<u64>>, p: &Vec<u64>) -> (r: bool)
    ensures
        r <==> paths.deep_view().to_set().contains(p@),
{
    let n = paths.len();
    for i in 0..n
        invariant
            n == paths@.len(),
            forall|k: int| 0 <= k < i ==> paths.deep_view()[k] != p@,
    {
        if path_eq(&paths[i], p) {
            proof {
                assert(paths.deep_view()[i as int] == p@);
            }
            return true;
        }
        proof {
            assert(paths.deep_view()[i as int] == paths@[i as int]@);
        }
    }
    proof {
        assert(!paths.deep_view().contains(p@));
    }
    false
}

} // verus!
