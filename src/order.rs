//! Ordering positions by a key, largest first.
use vstd::prelude::*;
use vstd::set_lib::*;

verus! {

/// Position `a` comes before position `b`: a larger key first, and on equal
/// keys the smaller position.
pub open spec fn precedes(keys: Seq<u64>, a: int, b: int) -> bool {
    keys[a] > keys[b] || (keys[a] == keys[b] && a < b)
}

/// `ord` lists every position of `keys` once, by descending key and, on
/// equal keys, by ascending position.
pub open spec fn is_count_order(keys: Seq<u64>, ord: Seq<usize>) -> bool {
    &&& ord.len() == keys.len()
    &&& forall|i: int| 0 <= i < ord.len() ==> #[trigger] ord[i] < keys.len()
    &&& forall|i: int, j: int| 0 <= i < j < ord.len() ==> ord[i] != ord[j]
    &&& forall|i: int, j: int|
        0 <= i < j < ord.len() ==> precedes(keys, #[trigger] ord[i] as int, #[trigger] ord[j] as int)
}

proof fn lemma_some_untaken(n: int, ord: Seq<usize>, taken: Seq<bool>)
    requires
        ord.len() < n,
        taken.len() == n,
        forall|x: int| 0 <= x < n && #[trigger] taken[x] ==> exists|i: int|
            0 <= i < ord.len() && ord[i] == x,
        forall|i: int, j: int| 0 <= i < j < ord.len() ==> ord[i] != ord[j],
    ensures
        exists|x: int| 0 <= x < n && !taken[x],
{
    if forall|x: int| 0 <= x < n ==> taken[x] {
        let s = ord.map_values(|v: usize| v as int);
        assert(s.no_duplicates()) by {
            assert forall|i: int, j: int| 0 <= i < s.len() && 0 <= j < s.len() && i != j implies s[i]
                != s[j] by {
                if i < j {
                    assert(ord[i] != ord[j]);
                } else {
                    assert(ord[j] != ord[i]);
                }
            }
        }
        s.unique_seq_to_set();
        lemma_int_range(0, n);
        assert forall|x: int| set_int_range(0, n).contains(x) implies s.to_set().contains(x) by {
            assert(taken[x]);
            let i = choose|i: int| 0 <= i < ord.len() && ord[i] == x;
            assert(s[i] == x);
        }
        lemma_len_subset(set_int_range(0, n), s.to_set());
    }
}

/// The positions of `keys`, by descending key and, on equal keys, by
/// ascending position.
pub fn order_by_count(keys: &Vec<u64>) -> (r: Vec<usize>)
    ensures
        is_count_order(keys@, r@),
{
    let n = keys.len();
    let mut taken: Vec<bool> = Vec::new();
    let mut x: usize = 0;
    while x < n
        invariant
            x <= n == keys@.len(),
            taken@.len() == x,
            forall|y: int| 0 <= y < x ==> !taken@[y],
        decreases n - x,
    {
        taken.push(false);
        x += 1;
    }
    let mut ord: Vec<usize> = Vec::new();
    while ord.len() < n
        invariant
            n == keys@.len(),
            taken@.len() == n,
            ord@.len() <= n,
            forall|i: int| 0 <= i < ord@.len() ==> #[trigger] ord@[i] < n,
            forall|i: int| 0 <= i < ord@.len() ==> taken@[#[trigger] ord@[i] as int],
            forall|y: int| 0 <= y < n && #[trigger] taken@[y] ==> exists|i: int|
                0 <= i < ord@.len() && ord@[i] == y,
            forall|i: int, j: int| 0 <= i < j < ord@.len() ==> ord@[i] != ord@[j],
            forall|i: int, j: int|
                0 <= i < j < ord@.len() ==> precedes(
                    keys@,
                    #[trigger] ord@[i] as int,
                    #[trigger] ord@[j] as int,
                ),
            forall|i: int, y: int|
                0 <= i < ord@.len() && 0 <= y < n && !#[trigger] taken@[y] ==> precedes(
                    keys@,
                    #[trigger] ord@[i] as int,
                    y,
                ),
        decreases n - ord@.len(),
    {
        proof {
            lemma_some_untaken(n as int, ord@, taken@);
        }
        let mut best: usize = n;
        let mut y: usize = 0;
        while y < n
            invariant
                n == keys@.len() == taken@.len(),
                y <= n,
                best == n || (best < y && !taken@[best as int]),
                best == n ==> forall|z: int| 0 <= z < y ==> taken@[z],
                best < n ==> forall|z: int|
                    0 <= z < y && !taken@[z] && z != best ==> precedes(keys@, best as int, z),
            decreases n - y,
        {
            if !taken[y] {
                if best == n || keys[y] > keys[best] {
                    best = y;
                }
            }
            y += 1;
        }
        assert(best < n);
        let ghost old_ord = ord@;
        let ghost old_taken = taken@;
        ord.push(best);
        taken.set(best, true);
        assert forall|z: int| 0 <= z < n && #[trigger] taken@[z] implies exists|i: int|
            0 <= i < ord@.len() && ord@[i] == z by {
            if z == best {
                assert(ord@[old_ord.len() as int] == z);
            } else {
                assert(old_taken[z]);
                let i = choose|i: int| 0 <= i < old_ord.len() && old_ord[i] == z;
                assert(ord@[i] == z);
            }
        }
        assert forall|i: int, j: int| 0 <= i < j < ord@.len() implies ord@[i] != ord@[j] by {
            if j == old_ord.len() {
                assert(old_taken[old_ord[i] as int]);
            }
        }
        assert forall|i: int, j: int| 0 <= i < j < ord@.len() implies precedes(
            keys@,
            #[trigger] ord@[i] as int,
            #[trigger] ord@[j] as int,
        ) by {
            if j == old_ord.len() {
                assert(!old_taken[best as int]);
            } else {
                assert(precedes(keys@, old_ord[i] as int, old_ord[j] as int));
            }
        }
        assert forall|i: int, z: int|
            0 <= i < ord@.len() && 0 <= z < n && !#[trigger] taken@[z] implies precedes(
            keys@,
            #[trigger] ord@[i] as int,
            z,
        ) by {
            assert(!old_taken[z]);
            if i < old_ord.len() {
                assert(precedes(keys@, old_ord[i] as int, z));
            }
        }
    }
    ord
}

} // verus!
