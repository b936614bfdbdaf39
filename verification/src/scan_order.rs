use vstd::prelude::*;
use vstd::std_specs::btree::{group_btree_axioms, increasing_seq};
use vstd::std_specs::cmp::OrdSpec;

verus! {

/// Whether the numbers of a sequence ascend.
pub open spec fn ascending(s: Seq<usize>) -> bool {
    forall|i: int, j: int| 0 <= i < j < s.len() ==> s[i] < s[j]
}

/// The positions below `n`.
pub open spec fn positions_below(n: nat) -> Set<usize> {
    Set::new(|k: usize| k < n)
}

/// The positions `0` to `n - 1` in order.
pub open spec fn positions(n: nat) -> Seq<usize> {
    Seq::new(n, |i: int| i as usize)
}

/// Keys in the order in which a map hands them out ascend.
pub proof fn lemma_keys_ascend(s: Seq<usize>)
    requires
        increasing_seq(s),
    ensures
        ascending(s),
{
    broadcast use group_btree_axioms;
    broadcast use vstd::laws_cmp::group_laws_cmp;

    assert forall|i: int, j: int| 0 <= i < j < s.len() implies s[i] < s[j] by {
        assert(s[i].cmp_spec(&s[j]) is Less);
    }
}

/// Ascending numbers without a gap that are exactly the positions below
/// `n` are those positions in order.
pub proof fn lemma_positions_in_order(s: Seq<usize>, n: nat)
    requires
        n <= usize::MAX,
        ascending(s),
        s.to_set() =~= positions_below(n),
    ensures
        s =~= positions(n),
{
    assert forall|i: int| 0 <= i < s.len() implies s[i] == i by {
        lemma_at_its_place(s, n, i);
    }
    if n > 0 {
        let last = (n - 1) as usize;
        assert(positions_below(n).contains(last));
        assert(s.to_set().contains(last));
        let j = choose|j: int| 0 <= j < s.len() && s[j] == last;
        lemma_at_its_place(s, n, j);
    }
    if s.len() > 0 {
        lemma_at_its_place(s, n, s.len() - 1);
        assert(s.to_set().contains(s[s.len() - 1]));
    }
}

/// In ascending numbers that are exactly the positions below `n`, the
/// number at place `i` is `i`.
proof fn lemma_at_its_place(s: Seq<usize>, n: nat, i: int)
    requires
        n <= usize::MAX,
        ascending(s),
        s.to_set() =~= positions_below(n),
        0 <= i < s.len(),
    ensures
        s[i] == i,
    decreases i,
{
    assert(s.to_set().contains(s[i]));
    if i == 0 {
        assert(positions_below(n).contains(0usize));
        assert(s.to_set().contains(0usize));
        let j = choose|j: int| 0 <= j < s.len() && s[j] == 0usize;
        if j > 0 {
            assert(s[0] < s[j]);
        }
    } else {
        lemma_at_its_place(s, n, i - 1);
        assert(s[i - 1] < s[i]);
        let next = (s[i - 1] + 1) as usize;
        assert(positions_below(n).contains(next));
        assert(s.to_set().contains(next));
        let j = choose|j: int| 0 <= j < s.len() && s[j] == next;
        if j < i - 1 {
            assert(s[j] < s[i - 1]);
        }
        if j > i {
            assert(s[i] < s[j]);
        }
    }
}

} // verus!
