//! Sets of grid points held as vectors without repetitions.

use vstd::prelude::*;
use crate::math::Point;

verus! {

/// No point occurs twice.
pub open spec fn no_dups(s: Seq<Point>) -> bool {
    forall|i: int, j: int| 0 <= i < j < s.len() ==> s[i] != s[j]
}

/// Whether `p` is in `v`.
pub fn contains_point(v: &Vec<Point>, p: Point) -> (b: bool)
    ensures
        b == v@.contains(p),
{
    let mut i: usize = 0;
    while i < v.len()
        invariant
            0 <= i <= v@.len(),
            forall|j: int| 0 <= j < i ==> v@[j] != p,
        decreases v@.len() - i,
    {
        if v[i] == p {
            return true;
        }
        i = i + 1;
    }
    false
}

/// Adds `p` unless it is already there.
pub fn insert_point(v: &mut Vec<Point>, p: Point)
    requires
        no_dups(old(v)@),
    ensures
        no_dups(final(v)@),
        final(v)@.to_set() == old(v)@.to_set().insert(p),
{
    if !contains_point(v, p) {
        v.push(p);
        proof {
            assert(v@ == old(v)@.push(p));
            assert forall|x: Point| v@.to_set().contains(x) <==> old(v)@.to_set().insert(p).contains(x) by {
                if v@.contains(x) && x != p {
                    let k = choose|k: int| 0 <= k < v@.len() && v@[k] == x;
                    assert(k < old(v)@.len());
                    assert(old(v)@[k] == x);
                }
                if old(v)@.contains(x) {
                    let k = choose|k: int| 0 <= k < old(v)@.len() && old(v)@[k] == x;
                    assert(v@[k] == x);
                }
                if x == p {
                    assert(v@[v@.len() - 1] == p);
                }
            }
            assert(v@.to_set() =~= old(v)@.to_set().insert(p));
        }
    } else {
        proof {
            assert(v@.to_set() =~= old(v)@.to_set().insert(p));
        }
    }
}

/// Removes `p` if it is there.
pub fn remove_point(v: &mut Vec<Point>, p: Point)
    requires
        no_dups(old(v)@),
    ensures
        no_dups(final(v)@),
        final(v)@.to_set() == old(v)@.to_set().remove(p),
{
    let mut i: usize = 0;
    while i < v.len()
        invariant
            v@ == old(v)@,
            no_dups(v@),
            0 <= i <= v@.len(),
            forall|j: int| 0 <= j < i ==> v@[j] != p,
        decreases v@.len() - i,
    {
        if v[i] == p {
            let ghost before = v@;
            v.remove(i);
            proof {
                assert(v@ =~= before.remove(i as int));
                assert forall|x: Point| v@.to_set().contains(x) <==> before.to_set().remove(p).contains(x) by {
                    if v@.to_set().contains(x) {
                        let k = choose|k: int| 0 <= k < v@.len() && v@[k] == x;
                        if k < i {
                            assert(before[k] == x);
                        } else {
                            assert(before[k + 1] == x);
                            assert(k + 1 != i);
                        }
                        assert(before.contains(x));
                    }
                    if before.to_set().remove(p).contains(x) {
                        let k = choose|k: int| 0 <= k < before.len() && before[k] == x;
                        assert(k != i);
                        if k < i {
                            assert(v@[k] == x);
                        } else {
                            assert(v@[k - 1] == x);
                        }
                        assert(v@.contains(x));
                    }
                }
                assert(v@.to_set() =~= old(v)@.to_set().remove(p));
            }
            return;
        }
        i = i + 1;
    }
    proof {
        assert(!v@.contains(p));
        assert(v@.to_set() =~= old(v)@.to_set().remove(p));
    }
}

/// A copy of `v`.
pub fn copy_points(v: &Vec<Point>) -> (c: Vec<Point>)
    ensures
        c@ == v@,
{
    let mut c: Vec<Point> = Vec::new();
    let mut i: usize = 0;
    while i < v.len()
        invariant
            0 <= i <= v@.len(),
            c@ == v@.take(i as int),
        decreases v@.len() - i,
    {
        c.push(v[i]);
        assert(v@.take(i as int + 1) =~= v@.take(i as int).push(v@[i as int]));
        i = i + 1;
    }
    assert(v@.take(v@.len() as int) =~= v@);
    c
}

} // verus!
