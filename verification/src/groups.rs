//! Group membership lists read as sets: the membership delta computation
//! cares which groups a member is in, not how often or in what order the
//! platform lists them.

use vstd::prelude::*;

verus! {

pub proof fn lemma_push_contains<T>(s: Seq<T>, x: T, y: T)
    ensures
        s.push(x).contains(y) <==> (s.contains(y) || y == x),
{
    if s.push(x).contains(y) {
        let i = choose|i: int| 0 <= i < s.push(x).len() && s.push(x)[i] == y;
        if i < s.len() {
            assert(s[i] == y);
        }
    }
    if s.contains(y) {
        let i = choose|i: int| 0 <= i < s.len() && s[i] == y;
        assert(s.push(x)[i] == y);
    }
    if y == x {
        assert(s.push(x)[s.len() as int] == y);
    }
}

pub fn contains_group(v: &Vec<u64>, g: u64) -> (r: bool)
    ensures
        r == v@.contains(g),
{
    let mut i: usize = 0;
    while i < v.len()
        invariant
            0 <= i <= v@.len(),
            forall|j: int| 0 <= j < i ==> #[trigger] v@[j] != g,
        decreases v@.len() - i,
    {
        if v[i] == g {
            return true;
        }
        i = i + 1;
    }
    false
}

/// Adds a group to the membership set.
pub fn insert_group(v: &mut Vec<u64>, g: u64)
    ensures
        final(v)@.to_set() == old(v)@.to_set().insert(g),
{
    if !contains_group(v, g) {
        let ghost before = v@;
        v.push(g);
        proof {
            assert forall|y: u64|
                final(v)@.to_set().contains(y) == old(v)@.to_set().insert(g).contains(y) by {
                lemma_push_contains(before, g, y);
            }
            assert(final(v)@.to_set() =~= old(v)@.to_set().insert(g));
        }
    } else {
        proof {
            assert(final(v)@.to_set() =~= old(v)@.to_set().insert(g));
        }
    }
}

/// Removes a group from the membership set.
pub fn remove_group(v: &mut Vec<u64>, g: u64)
    ensures
        final(v)@.to_set() == old(v)@.to_set().remove(g),
{
    let mut out: Vec<u64> = Vec::new();
    let mut i: usize = 0;
    while i < v.len()
        invariant
            0 <= i <= v@.len(),
            v@ == old(v)@,
            forall|y: u64|
                #[trigger] out@.contains(y) == (v@.subrange(0, i as int).contains(y) && y != g),
        decreases v@.len() - i,
    {
        let ghost out_before = out@;
        let x = v[i];
        if x != g {
            out.push(x);
        }
        proof {
            assert(v@.subrange(0, i + 1) =~= v@.subrange(0, i as int).push(v@[i as int]));
            assert forall|y: u64|
                #[trigger] out@.contains(y) == (v@.subrange(0, i + 1).contains(y) && y != g) by {
                lemma_push_contains(v@.subrange(0, i as int), v@[i as int], y);
                if x != g {
                    lemma_push_contains(out_before, x, y);
                }
            }
        }
        i = i + 1;
    }
    proof {
        assert(v@.subrange(0, i as int) =~= v@);
    }
    *v = out;
    proof {
        assert(final(v)@.to_set() =~= old(v)@.to_set().remove(g));
    }
}

/// Copies a membership list.
pub fn copy_groups(v: &Vec<u64>) -> (out: Vec<u64>)
    ensures
        out@ == v@,
{
    let mut out: Vec<u64> = Vec::new();
    let mut i: usize = 0;
    while i < v.len()
        invariant
            0 <= i <= v@.len(),
            out@ == v@.subrange(0, i as int),
        decreases v@.len() - i,
    {
        out.push(v[i]);
        proof {
            assert(v@.subrange(0, i + 1) =~= v@.subrange(0, i as int).push(v@[i as int]));
        }
        i = i + 1;
    }
    proof {
        assert(v@.subrange(0, i as int) =~= v@);
    }
    out
}

fn subset_groups(a: &Vec<u64>, b: &Vec<u64>) -> (r: bool)
    ensures
        r == forall|y: u64| #[trigger] a@.contains(y) ==> b@.contains(y),
{
    let mut i: usize = 0;
    while i < a.len()
        invariant
            0 <= i <= a@.len(),
            forall|j: int| 0 <= j < i ==> b@.contains(#[trigger] a@[j]),
        decreases a@.len() - i,
    {
        if !contains_group(b, a[i]) {
            assert(a@.contains(a@[i as int]));
            return false;
        }
        i = i + 1;
    }
    assert forall|y: u64| #[trigger] a@.contains(y) implies b@.contains(y) by {
        let j = choose|j: int| 0 <= j < a@.len() && a@[j] == y;
        assert(b@.contains(a@[j]));
    }
    true
}

/// Whether two membership lists denote the same set of groups.
pub fn same_groups(a: &Vec<u64>, b: &Vec<u64>) -> (r: bool)
    ensures
        r == (a@.to_set() == b@.to_set()),
{
    let ab = subset_groups(a, b);
    let ba = subset_groups(b, a);
    if ab && ba {
        proof {
            assert(a@.to_set() =~= b@.to_set());
        }
        true
    } else {
        proof {
            if a@.to_set() == b@.to_set() {
                assert(forall|y: u64| #[trigger] a@.contains(y) ==> a@.to_set().contains(y));
                assert(forall|y: u64| #[trigger] b@.contains(y) ==> b@.to_set().contains(y));
                assert(forall|y: u64| a@.to_set().contains(y) ==> b@.contains(y));
                assert(forall|y: u64| b@.to_set().contains(y) ==> a@.contains(y));
            }
        }
        false
    }
}

} // verus!
