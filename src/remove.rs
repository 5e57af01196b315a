use vstd::prelude::*;

verus! {

/// Whether position `i` is named by one of the indices in `idx`.
pub open spec fn marked(idx: Seq<usize>, i: int) -> bool {
    exists|k: int| 0 <= k < idx.len() && idx[k] as int == i
}

/// `s` with every position named in `idx` taken out; the other items keep
/// their relative order. Indices past the end name nothing.
pub open spec fn without<T>(s: Seq<T>, idx: Seq<usize>) -> Seq<T>
    decreases s.len(),
{
    if s.len() == 0 {
        Seq::empty()
    } else {
        let rest = without(s.drop_last(), idx);
        if marked(idx, s.len() - 1) {
            rest
        } else {
            rest.push(s.last())
        }
    }
}

/// Taking positions out never makes a sequence longer.
pub proof fn lemma_without_len<T>(s: Seq<T>, idx: Seq<usize>)
    ensures
        without(s, idx).len() <= s.len(),
    decreases s.len(),
{
    if s.len() > 0 {
        lemma_without_len(s.drop_last(), idx);
    }
}

/// The indices in `idx` below `n`.
pub open spec fn marked_below(idx: Seq<usize>, n: int) -> Set<usize> {
    idx.to_set().filter(|x: usize| (x as int) < n)
}

proof fn lemma_without_len_marked<T>(s: Seq<T>, idx: Seq<usize>)
    requires
        s.len() <= usize::MAX,
    ensures
        marked_below(idx, s.len() as int).finite(),
        without(s, idx).len() == s.len() - marked_below(idx, s.len() as int).len(),
    decreases s.len(),
{
    idx.to_set().lemma_len_filter(|x: usize| (x as int) < s.len());
    if s.len() == 0 {
        assert(marked_below(idx, 0) =~= Set::<usize>::empty());
    } else {
        let n = s.len() as int;
        lemma_without_len_marked(s.drop_last(), idx);
        let below = marked_below(idx, n - 1);
        let last = (n - 1) as usize;
        if marked(idx, n - 1) {
            let k = choose|k: int| 0 <= k < idx.len() && idx[k] as int == n - 1;
            assert(idx.to_set().contains(idx[k]));
            assert(marked_below(idx, n) =~= below.insert(last));
            assert(!below.contains(last));
        } else {
            assert forall|x: usize| #[trigger] marked_below(idx, n).contains(x) implies below.contains(x) by {
                if x as int == n - 1 {
                    let k = choose|k: int| 0 <= k < idx.len() && idx[k] == x;
                    assert(marked(idx, n - 1));
                }
            }
            assert(marked_below(idx, n) =~= below);
        }
    }
}

/// Removing distinct positions that all lie in range shortens the sequence
/// by exactly their number.
pub proof fn lemma_remove_count<T>(s: Seq<T>, idx: Seq<usize>)
    requires
        s.len() <= usize::MAX,
        idx.no_duplicates(),
        forall|k: int| 0 <= k < idx.len() ==> (idx[k] as int) < s.len(),
    ensures
        without(s, idx).len() == s.len() - idx.len(),
{
    lemma_without_len_marked(s, idx);
    assert forall|x: usize| #[trigger] idx.to_set().contains(x) implies (x as int) < s.len() by {
        let k = choose|k: int| 0 <= k < idx.len() && idx[k] == x;
    }
    assert(marked_below(idx, s.len() as int) =~= idx.to_set());
    idx.unique_seq_to_set();
}

proof fn lemma_without_same_marks<T>(s: Seq<T>, a: Seq<usize>, b: Seq<usize>)
    requires
        forall|i: int| marked(a, i) == marked(b, i),
    ensures
        without(s, a) == without(s, b),
    decreases s.len(),
{
    if s.len() > 0 {
        lemma_without_same_marks(s.drop_last(), a, b);
    }
}

/// The order of the indices, and how often each is given, do not change what
/// is removed: two index lists holding the same set of indices remove the
/// same positions.
pub proof fn lemma_remove_order_independent<T>(s: Seq<T>, a: Seq<usize>, b: Seq<usize>)
    requires
        a.to_set() == b.to_set(),
    ensures
        without(s, a) == without(s, b),
{
    assert forall|i: int| marked(a, i) == marked(b, i) by {
        if marked(a, i) {
            let k = choose|k: int| 0 <= k < a.len() && a[k] as int == i;
            assert(a.to_set().contains(a[k]));
            assert(b.to_set().contains(a[k]));
        }
        if marked(b, i) {
            let k = choose|k: int| 0 <= k < b.len() && b[k] as int == i;
            assert(b.to_set().contains(b[k]));
            assert(a.to_set().contains(b[k]));
        }
    }
    lemma_without_same_marks(s, a, b);
}

/// Removal of several positions from a sequence in one step.
pub trait RemoveMultiple<T> {
    /// The items, in order.
    spec fn items(&self) -> Seq<T>;

    /// Remove every position named in `to_remove` (0-based). The indices may
    /// come in any order; a repeated index is removed once, and an index past
    /// the end is ignored.
    fn remove_multiple(&mut self, to_remove: Vec<usize>)
        ensures
            final(self).items() == without(old(self).items(), to_remove@),
    ;
}

fn is_marked(idx: &Vec<usize>, i: usize) -> (r: bool)
    ensures
        r == marked(idx@, i as int),
{
    let mut k: usize = 0;
    while k < idx.len()
        invariant
            k <= idx.len(),
            forall|j: int| 0 <= j < k ==> idx@[j] != i,
        decreases idx.len() - k,
    {
        if idx[k] == i {
            return true;
        }
        k = k + 1;
    }
    false
}

impl<T> RemoveMultiple<T> for Vec<T> {
    open spec fn items(&self) -> Seq<T> {
        self@
    }

    fn remove_multiple(&mut self, to_remove: Vec<usize>) {
        let ghost orig = self@;
        let n = self.len();
        // `pos` is where the item first at position `j` now stands.
        let mut pos: usize = 0;
        let mut j: usize = 0;
        while j < n
            invariant
                n == orig.len(),
                j <= n,
                pos == without(orig.take(j as int), to_remove@).len(),
                self@ == without(orig.take(j as int), to_remove@) + orig.skip(j as int),
            decreases n - j,
        {
            proof {
                lemma_without_len(orig.take(j + 1), to_remove@);
                assert(orig.take(j + 1).drop_last() =~= orig.take(j as int));
                assert(orig.take(j + 1).last() == orig[j as int]);
            }
            if is_marked(&to_remove, j) {
                self.remove(pos);
                assert(self@ =~= without(orig.take(j + 1), to_remove@) + orig.skip(j + 1));
            } else {
                pos = pos + 1;
                assert(self@ =~= without(orig.take(j + 1), to_remove@) + orig.skip(j + 1));
            }
            j = j + 1;
        }
        assert(orig.take(n as int) =~= orig);
        assert(self@ =~= without(orig, to_remove@));
    }
}

} // verus!
