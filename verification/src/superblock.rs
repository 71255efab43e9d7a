//! The block allocator: a fixed pool of block indices, each either free or
//! allocated, handed out from a stack of free indices. The allocator hands
//! a block over to the chain that asks for it and keeps only the record
//! that its index is allocated; `accounts_for` says when that record and
//! the chains that own the blocks agree.

use crate::abstracts::BlockAllocator;
use crate::block::{Block, BlockView};
use crate::error::Error;
use vstd::prelude::*;

verus! {

/// The allocator's state: the size of the pool and the stack of free
/// indices, whose last element is handed out first.
pub struct AllocatorView {
    /// Number of blocks in the pool.
    pub total: nat,
    /// The free indices, bottom of the stack first.
    pub free: Seq<usize>,
}

impl AllocatorView {
    /// A pool of `total` blocks, all free, in which index 0 is handed out
    /// first and index `total - 1` last.
    pub open spec fn fresh(total: nat) -> AllocatorView {
        AllocatorView { total, free: Seq::new(total, |i: int| (total - 1 - i) as usize) }
    }

    /// Every free index lies in the pool and none occurs twice.
    pub open spec fn well_formed(self) -> bool {
        &&& self.free.no_duplicates()
        &&& forall|i: int| 0 <= i < self.free.len() ==> (#[trigger] self.free[i]) < self.total
    }

    /// An index of the pool is allocated exactly when it is not free.
    pub open spec fn is_allocated(self, index: usize) -> bool {
        index < self.total && !self.free.contains(index)
    }

    /// Number of free blocks.
    pub open spec fn free_count(self) -> nat {
        self.free.len()
    }

    /// The indices that `allocate(n)` hands out, in the order in which they
    /// leave the stack.
    pub open spec fn taken(self, n: nat) -> Seq<usize>
        recommends
            n <= self.free.len(),
    {
        Seq::new(n, |i: int| self.free[self.free.len() - 1 - i])
    }

    /// The state after a successful `allocate(n)`.
    pub open spec fn allocate(self, n: nat) -> AllocatorView
        recommends
            n <= self.free.len(),
    {
        AllocatorView { total: self.total, free: self.free.take(self.free.len() - n) }
    }

    /// The state after `deallocate(index)`: an allocated index goes back on
    /// the stack, any other index changes nothing.
    pub open spec fn deallocate(self, index: usize) -> AllocatorView {
        if self.is_allocated(index) {
            AllocatorView { total: self.total, free: self.free.push(index) }
        } else {
            self
        }
    }

    /// The state after deallocating each of `indices` in turn.
    pub open spec fn deallocate_all(self, indices: Seq<usize>) -> AllocatorView
        decreases indices.len(),
    {
        if indices.len() == 0 {
            self
        } else {
            self.deallocate(indices[0]).deallocate_all(indices.drop_first())
        }
    }

    /// Deallocating keeps the state well formed.
    pub proof fn lemma_deallocate_well_formed(self, index: usize)
        requires
            self.well_formed(),
        ensures
            self.deallocate(index).well_formed(),
    {
        if self.is_allocated(index) {
            let after = self.free.push(index);
            assert forall|i: int, j: int| 0 <= i < after.len() && 0 <= j < after.len() && i != j
            implies after[i] != after[j] by {
                if i < self.free.len() && j < self.free.len() {
                } else if i < self.free.len() {
                    assert(self.free.contains(self.free[i]));
                } else {
                    assert(self.free.contains(self.free[j]));
                }
            }
        }
    }

    /// Allocating keeps the state well formed, and what it hands out is
    /// allocated afterwards and holds no index twice.
    pub proof fn lemma_allocate_well_formed(self, n: nat)
        requires
            self.well_formed(),
            n <= self.free.len(),
        ensures
            self.allocate(n).well_formed(),
            self.taken(n).no_duplicates(),
            forall|i: int|
                0 <= i < n ==> self.allocate(n).is_allocated(#[trigger] self.taken(n)[i]),
    {
        let rest = self.allocate(n).free;
        let taken = self.taken(n);
        assert forall|i: int| 0 <= i < n implies self.allocate(n).is_allocated(
            #[trigger] taken[i],
        ) by {
            let at = self.free.len() - 1 - i;
            assert(taken[i] == self.free[at]);
            if rest.contains(taken[i]) {
                let j = choose|j: int| 0 <= j < rest.len() && rest[j] == taken[i];
                assert(self.free[j] == self.free[at]);
            }
        }
    }

    /// Deallocating indices that are allocated and pairwise distinct frees
    /// one block for each of them.
    pub proof fn lemma_deallocate_all_count(self, indices: Seq<usize>)
        requires
            self.well_formed(),
            indices.no_duplicates(),
            forall|i: int| 0 <= i < indices.len() ==> self.is_allocated(#[trigger] indices[i]),
        ensures
            self.deallocate_all(indices).well_formed(),
            self.deallocate_all(indices).total == self.total,
            self.deallocate_all(indices).free_count() == self.free_count() + indices.len(),
            forall|i: int|
                0 <= i < indices.len() ==> !self.deallocate_all(indices).is_allocated(
                    #[trigger] indices[i],
                ),
            forall|index: usize|
                !self.is_allocated(index) ==> !self.deallocate_all(indices).is_allocated(index),
        decreases indices.len(),
    {
        if indices.len() > 0 {
            let first = indices[0];
            let next = self.deallocate(first);
            let rest = indices.drop_first();
            self.lemma_deallocate_well_formed(first);
            assert(self.is_allocated(first));
            assert(next.free.last() == first);
            assert(next.free.contains(first));
            assert forall|i: int| 0 <= i < rest.len() implies next.is_allocated(
                #[trigger] rest[i],
            ) by {
                assert(rest[i] == indices[i + 1]);
                assert(self.is_allocated(indices[i + 1]));
                if next.free.contains(rest[i]) {
                    let j = choose|j: int| 0 <= j < next.free.len() && next.free[j] == rest[i];
                    if j < self.free.len() {
                        assert(self.free.contains(self.free[j]));
                    }
                }
            }
            assert(rest.no_duplicates()) by {
                assert forall|i: int, j: int| 0 <= i < rest.len() && 0 <= j < rest.len() && i != j
                implies rest[i] != rest[j] by {
                    assert(rest[i] == indices[i + 1]);
                    assert(rest[j] == indices[j + 1]);
                }
            }
            next.lemma_deallocate_all_count(rest);
            let done = next.deallocate_all(rest);
            assert forall|i: int| 0 <= i < indices.len() implies !done.is_allocated(
                #[trigger] indices[i],
            ) by {
                if i > 0 {
                    assert(rest[i - 1] == indices[i]);
                } else {
                    assert(!next.is_allocated(first));
                }
            }
            assert forall|index: usize| !self.is_allocated(index) implies !done.is_allocated(
                index,
            ) by {
                if !self.is_allocated(index) {
                    if index < self.total {
                        let j = choose|j: int| 0 <= j < self.free.len() && self.free[j] == index;
                        assert(next.free[j] == index);
                        assert(next.free.contains(index));
                    }
                    assert(!next.is_allocated(index));
                }
            }
        }
    }

    /// Allocating `n` blocks and then deallocating each index that was
    /// handed out restores the free count, and leaves allocated exactly the
    /// indices that were allocated before.
    pub proof fn lemma_allocate_deallocate_restores(self, n: nat)
        requires
            self.well_formed(),
            n <= self.free_count(),
        ensures
            self.allocate(n).free_count() == self.free_count() - n,
            self.allocate(n).deallocate_all(self.taken(n)).free_count() == self.free_count(),
            self.allocate(n).deallocate_all(self.taken(n)).well_formed(),
            forall|index: usize|
                self.allocate(n).deallocate_all(self.taken(n)).is_allocated(index)
                    == self.is_allocated(index),
    {
        let after = self.allocate(n);
        let taken = self.taken(n);
        self.lemma_allocate_well_formed(n);
        after.lemma_deallocate_all_count(taken);
        let done = after.deallocate_all(taken);
        assert forall|index: usize| done.is_allocated(index) == self.is_allocated(index) by {
            if self.is_allocated(index) {
                // Still allocated: a free index of `done` would make the free
                // count exceed what the pool without `index` can hold.
                Self::lemma_allocated_survives(self, n, index);
            } else if index < self.total {
                let j = choose|j: int| 0 <= j < self.free.len() && self.free[j] == index;
                if j < after.free.len() {
                    assert(after.free[j] == index);
                    assert(after.free.contains(index));
                    assert(!after.is_allocated(index));
                } else {
                    let i = self.free.len() - 1 - j;
                    assert(taken[i] == index);
                }
            }
        }
    }

    /// Deallocating hands back only the indices it is given.
    pub proof fn lemma_deallocate_all_frees_only(self, indices: Seq<usize>, index: usize)
        requires
            self.is_allocated(index),
            !indices.contains(index),
        ensures
            self.deallocate_all(indices).is_allocated(index),
        decreases indices.len(),
    {
        if indices.len() > 0 {
            let first = indices[0];
            let next = self.deallocate(first);
            let rest = indices.drop_first();
            assert(indices.contains(first));
            assert(first != index);
            if next.free.contains(index) {
                let j = choose|j: int| 0 <= j < next.free.len() && next.free[j] == index;
                if j < self.free.len() {
                    assert(self.free.contains(self.free[j]));
                }
            }
            if rest.contains(index) {
                let j = choose|j: int| 0 <= j < rest.len() && rest[j] == index;
                assert(indices[j + 1] == index);
            }
            next.lemma_deallocate_all_frees_only(rest, index);
        }
    }

    /// An index that was allocated before `allocate(n)` is still allocated
    /// after the indices handed out have been deallocated.
    proof fn lemma_allocated_survives(self, n: nat, index: usize)
        requires
            self.well_formed(),
            n <= self.free_count(),
            self.is_allocated(index),
        ensures
            self.allocate(n).deallocate_all(self.taken(n)).is_allocated(index),
    {
        let after = self.allocate(n);
        let taken = self.taken(n);
        if after.free.contains(index) {
            let j = choose|j: int| 0 <= j < after.free.len() && after.free[j] == index;
            assert(self.free[j] == index);
            assert(self.free.contains(index));
        }
        if taken.contains(index) {
            let i = choose|i: int| 0 <= i < taken.len() && taken[i] == index;
            assert(self.free[self.free.len() - 1 - i] == index);
            assert(self.free.contains(index));
        }
        after.lemma_deallocate_all_frees_only(taken, index);
    }
}

/// Whether `chains` has a place `k` in its chain `i`.
pub open spec fn is_place(chains: Seq<Seq<usize>>, i: int, k: int) -> bool {
    0 <= i < chains.len() && 0 <= k < chains[i].len()
}

/// Whether some chain holds the index `index`.
pub open spec fn held(chains: Seq<Seq<usize>>, index: usize) -> bool {
    exists|i: int, k: int| is_place(chains, i, k) && #[trigger] chains[i][k] == index
}

impl AllocatorView {
    /// Whether the allocated indices are exactly the ones that the chains
    /// hold, each at one place only: every index in a chain is allocated,
    /// no index stands at two places, and every allocated index stands in
    /// some chain. The allocator's record of allocated blocks and the
    /// chains that own them then tell the same story.
    pub open spec fn accounts_for(self, chains: Seq<Seq<usize>>) -> bool {
        &&& forall|i: int, k: int|
            is_place(chains, i, k) ==> self.is_allocated(#[trigger] chains[i][k])
        &&& forall|i: int, k: int, j: int, l: int|
            is_place(chains, i, k) && is_place(chains, j, l) && (i != j || k != l) ==> (
            #[trigger] chains[i][k]) != (#[trigger] chains[j][l])
        &&& forall|index: usize| #[trigger] self.is_allocated(index) ==> held(chains, index)
    }

    /// What `allocate(n)` does to every index: the indices handed out were
    /// free and are allocated, and no other index changes sides.
    pub proof fn lemma_allocate_effect(self, n: nat)
        requires
            self.well_formed(),
            n <= self.free.len(),
        ensures
            forall|t: int| 0 <= t < n ==> !self.is_allocated(#[trigger] self.taken(n)[t]),
            forall|t: int| 0 <= t < n ==>
                self.allocate(n).is_allocated(#[trigger] self.taken(n)[t]),
            forall|index: usize|
                self.is_allocated(index) ==> #[trigger] self.allocate(n).is_allocated(index),
            forall|index: usize| #[trigger]
                self.allocate(n).is_allocated(index) ==> self.is_allocated(index)
                    || self.taken(n).contains(index),
    {
        let rest = self.allocate(n).free;
        let taken = self.taken(n);
        let len = self.free.len();
        self.lemma_allocate_well_formed(n);
        assert forall|t: int| 0 <= t < n implies !self.is_allocated(#[trigger] taken[t]) by {
            assert(self.free[len - 1 - t] == taken[t]);
            assert(self.free.contains(taken[t]));
        }
        assert forall|index: usize| self.is_allocated(index) implies #[trigger] self.allocate(
            n,
        ).is_allocated(index) by {
            if rest.contains(index) {
                let j = choose|j: int| 0 <= j < rest.len() && rest[j] == index;
                assert(self.free[j] == index);
                assert(self.free.contains(index));
            }
        }
        assert forall|index: usize| #[trigger]
            self.allocate(n).is_allocated(index) implies self.is_allocated(index)
            || taken.contains(index) by {
            if self.free.contains(index) {
                let j = choose|j: int| 0 <= j < len && self.free[j] == index;
                if j < len - n {
                    assert(rest[j] == index);
                    assert(rest.contains(index));
                } else {
                    assert(taken[len - 1 - j] == index);
                }
            }
        }
    }

    /// Allocating blocks for one chain keeps the account: the chain grows
    /// by the indices handed out.
    pub proof fn lemma_account_allocate(self, chains: Seq<Seq<usize>>, i: int, n: nat)
        requires
            self.well_formed(),
            self.accounts_for(chains),
            0 <= i < chains.len(),
            n <= self.free.len(),
        ensures
            self.allocate(n).accounts_for(chains.update(i, chains[i] + self.taken(n))),
    {
        let after = self.allocate(n);
        let taken = self.taken(n);
        let grown = chains.update(i, chains[i] + taken);
        let base = chains[i].len();
        self.lemma_allocate_effect(n);
        self.lemma_allocate_well_formed(n);
        assert forall|a: int, k: int| is_place(grown, a, k) implies after.is_allocated(
            #[trigger] grown[a][k],
        ) by {
            if a == i && k >= base {
                assert(grown[a][k] == taken[k - base]);
            } else {
                assert(grown[a][k] == chains[a][k]);
                assert(is_place(chains, a, k));
            }
        }
        assert forall|a: int, k: int, j: int, l: int|
            is_place(grown, a, k) && is_place(grown, j, l) && (a != j || k != l) implies (
        #[trigger] grown[a][k]) != (#[trigger] grown[j][l]) by {
            let first_new = a == i && k >= base;
            let second_new = j == i && l >= base;
            if first_new && second_new {
                assert(grown[a][k] == taken[k - base]);
                assert(grown[j][l] == taken[l - base]);
            } else if first_new {
                assert(grown[a][k] == taken[k - base]);
                assert(grown[j][l] == chains[j][l]);
                assert(is_place(chains, j, l));
                assert(self.is_allocated(chains[j][l]));
            } else if second_new {
                assert(grown[j][l] == taken[l - base]);
                assert(grown[a][k] == chains[a][k]);
                assert(is_place(chains, a, k));
                assert(self.is_allocated(chains[a][k]));
            } else {
                assert(grown[a][k] == chains[a][k]);
                assert(grown[j][l] == chains[j][l]);
                assert(is_place(chains, a, k) && is_place(chains, j, l));
            }
        }
        assert forall|index: usize| #[trigger] after.is_allocated(index) implies held(
            grown,
            index,
        ) by {
            if self.is_allocated(index) {
                assert(held(chains, index));
                let (a, k) = choose|a: int, k: int|
                    is_place(chains, a, k) && #[trigger] chains[a][k] == index;
                assert(is_place(grown, a, k) && grown[a][k] == index);
            } else {
                assert(taken.contains(index));
                let t = choose|t: int| 0 <= t < taken.len() && taken[t] == index;
                assert(is_place(grown, i, base + t) && grown[i][base + t] == index);
            }
        }
    }

    /// Giving back every block of one chain keeps the account: the chain
    /// is empty afterwards.
    pub proof fn lemma_account_release(self, chains: Seq<Seq<usize>>, i: int)
        requires
            self.well_formed(),
            self.accounts_for(chains),
            0 <= i < chains.len(),
        ensures
            self.deallocate_all(chains[i]).accounts_for(chains.update(i, Seq::empty())),
            self.deallocate_all(chains[i]).well_formed(),
            self.deallocate_all(chains[i]).free_count() == self.free_count() + chains[i].len(),
    {
        let gone = chains[i];
        let after = self.deallocate_all(gone);
        let left = chains.update(i, Seq::<usize>::empty());
        assert(gone.no_duplicates()) by {
            assert forall|k: int, l: int| 0 <= k < gone.len() && 0 <= l < gone.len() && k != l
            implies gone[k] != gone[l] by {
                assert(is_place(chains, i, k) && is_place(chains, i, l));
                assert(chains[i][k] != chains[i][l]);
            }
        }
        assert forall|k: int| 0 <= k < gone.len() implies self.is_allocated(
            #[trigger] gone[k],
        ) by {
            assert(is_place(chains, i, k));
            assert(self.is_allocated(chains[i][k]));
        }
        self.lemma_deallocate_all_count(gone);
        assert forall|a: int, k: int| is_place(left, a, k) implies after.is_allocated(
            #[trigger] left[a][k],
        ) by {
            assert(a != i);
            assert(left[a][k] == chains[a][k]);
            assert(is_place(chains, a, k));
            assert(self.is_allocated(chains[a][k]));
            if gone.contains(chains[a][k]) {
                let l = choose|l: int| 0 <= l < gone.len() && gone[l] == chains[a][k];
                assert(is_place(chains, i, l));
                assert(chains[a][k] != chains[i][l]);
            }
            self.lemma_deallocate_all_frees_only(gone, chains[a][k]);
        }
        assert forall|a: int, k: int, j: int, l: int|
            is_place(left, a, k) && is_place(left, j, l) && (a != j || k != l) implies (
        #[trigger] left[a][k]) != (#[trigger] left[j][l]) by {
            assert(left[a][k] == chains[a][k]);
            assert(left[j][l] == chains[j][l]);
            assert(is_place(chains, a, k) && is_place(chains, j, l));
        }
        assert forall|index: usize| #[trigger] after.is_allocated(index) implies held(
            left,
            index,
        ) by {
            if !self.is_allocated(index) {
                assert(!after.is_allocated(index));
            }
            assert(held(chains, index));
            let (a, k) = choose|a: int, k: int|
                is_place(chains, a, k) && #[trigger] chains[a][k] == index;
            if a == i {
                assert(gone[k] == index);
                assert(!after.is_allocated(gone[k]));
            }
            assert(is_place(left, a, k) && left[a][k] == index);
        }
    }

    /// A new, empty chain changes nothing in the account.
    pub proof fn lemma_account_new_chain(self, chains: Seq<Seq<usize>>)
        requires
            self.accounts_for(chains),
        ensures
            self.accounts_for(chains.push(Seq::empty())),
    {
        let more = chains.push(Seq::<usize>::empty());
        assert forall|a: int, k: int| is_place(more, a, k) implies self.is_allocated(
            #[trigger] more[a][k],
        ) by {
            assert(more[a][k] == chains[a][k]);
            assert(is_place(chains, a, k));
        }
        assert forall|a: int, k: int, j: int, l: int|
            is_place(more, a, k) && is_place(more, j, l) && (a != j || k != l) implies (
        #[trigger] more[a][k]) != (#[trigger] more[j][l]) by {
            assert(more[a][k] == chains[a][k]);
            assert(more[j][l] == chains[j][l]);
            assert(is_place(chains, a, k) && is_place(chains, j, l));
        }
        assert forall|index: usize| #[trigger] self.is_allocated(index) implies held(
            more,
            index,
        ) by {
            assert(held(chains, index));
            let (a, k) = choose|a: int, k: int|
                is_place(chains, a, k) && #[trigger] chains[a][k] == index;
            assert(is_place(more, a, k) && more[a][k] == index);
        }
    }

    /// A pool in which every block is free accounts for chains that are all
    /// empty, and for no others.
    pub proof fn lemma_account_fresh(total: nat, chains: Seq<Seq<usize>>)
        requires
            total <= usize::MAX,
            forall|i: int| 0 <= i < chains.len() ==> (#[trigger] chains[i]).len() == 0,
        ensures
            Self::fresh(total).accounts_for(chains),
    {
        let pool = Self::fresh(total);
        assert forall|index: usize| !(#[trigger] pool.is_allocated(index)) by {
            if index < total {
                assert(pool.free[total - 1 - index] == index);
                assert(pool.free.contains(index));
            }
        }
    }

    /// Where no block is allocated, every chain that the pool accounts for
    /// is empty.
    pub proof fn lemma_account_pristine(self, chains: Seq<Seq<usize>>)
        requires
            self.well_formed(),
            self.total <= usize::MAX,
            self.accounts_for(chains),
            self.free_count() == self.total,
        ensures
            forall|i: int| 0 <= i < chains.len() ==> (#[trigger] chains[i]).len() == 0,
    {
        assert forall|i: int| 0 <= i < chains.len() implies (#[trigger] chains[i]).len() == 0 by {
            if chains[i].len() > 0 {
                assert(is_place(chains, i, 0));
                let index = chains[i][0];
                assert(self.is_allocated(index));
                self.lemma_full_stack_holds_all(index);
            }
        }
    }

    /// A free stack as long as the pool is large holds every index of the
    /// pool.
    pub proof fn lemma_full_stack_holds_all(self, index: usize)
        requires
            self.well_formed(),
            self.total <= usize::MAX,
            self.free_count() == self.total,
            index < self.total,
        ensures
            self.free.contains(index),
    {
        let below = Set::new(|x: usize| x < self.total);
        let free_set = self.free.to_set();
        vstd::seq_lib::seq_to_set_is_finite(self.free);
        self.free.unique_seq_to_set();
        assert(free_set.len() == self.total);
        assert(free_set.subset_of(below)) by {
            assert forall|x: usize| free_set.contains(x) implies below.contains(x) by {
                let j = choose|j: int| 0 <= j < self.free.len() && self.free[j] == x;
                assert(self.free[j] < self.total);
            }
        }
        lemma_below_count(self.total);
        vstd::set_lib::lemma_subset_equality(free_set, below);
        assert(below.contains(index));
    }
}

/// Deallocating a sequence of indices and then one more is deallocating the
/// longer sequence.
pub proof fn lemma_deallocate_all_push(state: AllocatorView, indices: Seq<usize>, index: usize)
    ensures
        state.deallocate_all(indices.push(index)) == state.deallocate_all(indices).deallocate(
            index,
        ),
    decreases indices.len(),
{
    if indices.len() == 0 {
        assert(indices.push(index).drop_first() =~= Seq::<usize>::empty());
        let next = state.deallocate(index);
        assert(next.deallocate_all(Seq::<usize>::empty()) == next);
    } else {
        assert(indices.push(index).drop_first() =~= indices.drop_first().push(index));
        lemma_deallocate_all_push(state.deallocate(indices[0]), indices.drop_first(), index);
    }
}

/// There are exactly `total` indices below `total`.
pub proof fn lemma_below_count(total: nat)
    requires
        total <= usize::MAX,
    ensures
        Set::new(|x: usize| x < total).finite(),
        Set::new(|x: usize| x < total).len() == total,
    decreases total,
{
    let below = Set::new(|x: usize| x < total);
    if total == 0 {
        assert(below =~= Set::<usize>::empty());
    } else {
        let fewer = Set::new(|x: usize| x < (total - 1) as nat);
        lemma_below_count((total - 1) as nat);
        assert(below =~= fewer.insert((total - 1) as usize));
    }
}

/// The allocator of a fixed pool of blocks. The pool never grows.
pub struct Superblock {
    total_blocks: usize,
    free_blocks: Vec<usize>,
    allocated_blocks: Vec<bool>,
}

impl View for Superblock {
    type V = AllocatorView;

    closed spec fn view(&self) -> AllocatorView {
        AllocatorView { total: self.total_blocks as nat, free: self.free_blocks@ }
    }
}

impl Superblock {
    /// The invariant of the allocator: every index of the pool is either on
    /// the free stack, once, or allocated.
    pub closed spec fn wf(&self) -> bool {
        &&& self@.well_formed()
        &&& self.allocated_blocks@.len() == self.total_blocks
        &&& forall|i: int|
            0 <= i < self.total_blocks ==> (#[trigger] self.allocated_blocks@[i]
                <==> !self.free_blocks@.contains(i as usize))
    }

    /// A well-formed allocator has a well-formed state, over a pool whose
    /// size is a machine number.
    pub proof fn lemma_wf_view(&self)
        requires
            self.wf(),
        ensures
            self@.well_formed(),
            self@.total <= usize::MAX,
    {
    }

    /// A pool of `total_blocks` blocks, all of them free.
    pub fn new(total_blocks: usize) -> (superblock: Superblock)
        ensures
            superblock.wf(),
            superblock@ == AllocatorView::fresh(total_blocks as nat),
    {
        let mut free_blocks: Vec<usize> = Vec::new();
        let mut allocated_blocks: Vec<bool> = Vec::new();
        let mut i: usize = 0;
        while i < total_blocks
            invariant
                i <= total_blocks,
                free_blocks@.len() == i,
                allocated_blocks@.len() == i,
                forall|k: int| 0 <= k < i ==> free_blocks@[k] == total_blocks - 1 - k,
                forall|k: int| 0 <= k < i ==> !allocated_blocks@[k],
            decreases total_blocks - i,
        {
            free_blocks.push(total_blocks - 1 - i);
            allocated_blocks.push(false);
            i += 1;
        }
        let superblock = Superblock { total_blocks, free_blocks, allocated_blocks };
        proof {
            assert(superblock@.free =~= AllocatorView::fresh(total_blocks as nat).free);
            assert forall|k: int| 0 <= k < total_blocks implies (
            #[trigger] superblock.allocated_blocks@[k] <==> !superblock.free_blocks@.contains(
                k as usize,
            )) by {
                assert(superblock.free_blocks@[total_blocks - 1 - k] == k);
            }
        }
        superblock
    }

    /// Number of blocks in the pool.
    pub fn total_blocks(&self) -> (total: usize)
        ensures
            total == self@.total,
    {
        self.total_blocks
    }

    /// Number of free blocks.
    pub fn free_count(&self) -> (count: usize)
        ensures
            count == self@.free_count(),
    {
        self.free_blocks.len()
    }
}

impl BlockAllocator<Block> for Superblock {
    open spec fn allocator_wf(&self) -> bool {
        self.wf()
    }

    /// Takes `size` blocks off the free stack and hands them out as empty
    /// blocks, in the order in which their indices leave the stack.
    ///
    /// Fails with `InsufficientCapacity` where fewer than `size` blocks are
    /// free; nothing is reserved then.
    fn allocate(&mut self, size: usize) -> (result: Result<Vec<Block>, Error>)
        ensures
            size <= old(self)@.free_count() ==>
                result is Ok && final(self)@ == old(self)@.allocate(size as nat)
                && handed_out(result->Ok_0@, old(self)@.taken(size as nat)),
            size > old(self)@.free_count() ==> result == Err::<Vec<Block>, Error>(
                Error::InsufficientCapacity,
            ) && final(self)@ == old(self)@,
    {
        if size > self.free_blocks.len() {
            return Err(Error::InsufficientCapacity);
        }
        let ghost before = self.free_blocks@;
        let ghost taken = old(self)@.taken(size as nat);
        let mut blocks: Vec<Block> = Vec::new();
        let mut i: usize = 0;
        while i < size
            invariant
                i <= size <= before.len(),
                before == old(self).free_blocks@,
                taken == old(self)@.taken(size as nat),
                old(self).wf(),
                self.total_blocks == old(self).total_blocks,
                self.free_blocks@ == before.take(before.len() - i),
                self.allocated_blocks@.len() == self.total_blocks,
                forall|k: int|
                    0 <= k < self.total_blocks ==> (#[trigger] self.allocated_blocks@[k]
                        <==> !self.free_blocks@.contains(k as usize)),
                blocks@.len() == i,
                handed_out(blocks@, taken.take(i as int)),
            decreases size - i,
        {
            let ghost stack = self.free_blocks@;
            let index = self.free_blocks.pop().unwrap();
            proof {
                assert(index == before[before.len() - 1 - i]);
                assert(index == taken[i as int]);
                assert(self.free_blocks@ =~= before.take(before.len() - (i + 1)));
                assert(stack.contains(index)) by {
                    assert(stack[stack.len() - 1] == index);
                }
                assert(!self.free_blocks@.contains(index)) by {
                    if self.free_blocks@.contains(index) {
                        let j = choose|j: int|
                            0 <= j < self.free_blocks@.len() && self.free_blocks@[j] == index;
                        assert(before[j] == before[before.len() - 1 - i]);
                    }
                }
            }
            self.allocated_blocks[index] = true;
            proof {
                assert forall|k: int| 0 <= k < self.total_blocks implies (
                #[trigger] self.allocated_blocks@[k] <==> !self.free_blocks@.contains(
                    k as usize,
                )) by {
                    if k != index {
                        if stack.contains(k as usize) {
                            let j = choose|j: int| 0 <= j < stack.len() && stack[j] == k as usize;
                            assert(self.free_blocks@[j] == k as usize);
                        }
                        if self.free_blocks@.contains(k as usize) {
                            let j = choose|j: int|
                                0 <= j < self.free_blocks@.len() && self.free_blocks@[j]
                                    == k as usize;
                            assert(stack[j] == k as usize);
                        }
                    }
                }
            }
            let block = Block::with_index(index);
            blocks.push(block);
            proof {
                assert(taken.take(i + 1).len() == i + 1);
                assert forall|k: int| 0 <= k < blocks@.len() implies fresh_block(
                    #[trigger] blocks@[k],
                    taken.take(i + 1)[k],
                ) by {
                    if k < i {
                        assert(fresh_block(blocks@[k], taken.take(i as int)[k]));
                    }
                }
            }
            i += 1;
        }
        proof {
            assert(taken.take(size as int) =~= taken);
            old(self)@.lemma_allocate_well_formed(size as nat);
        }
        Ok(blocks)
    }

    /// Puts an allocated index back on the free stack. The block's content
    /// is not touched.
    ///
    /// Fails with `NotFound` where the pool has no such index, and with
    /// `NotAllocated` where the index is free already; nothing changes then.
    fn deallocate(&mut self, index: usize) -> (result: Result<(), Error>)
        ensures
            final(self)@ == old(self)@.deallocate(index),
            index >= old(self)@.total ==> result == Err::<(), Error>(Error::NotFound),
            index < old(self)@.total && !old(self)@.is_allocated(index) ==> result == Err::<
                (),
                Error,
            >(Error::NotAllocated),
            old(self)@.is_allocated(index) ==> result is Ok,
    {
        if index >= self.total_blocks {
            return Err(Error::NotFound);
        }
        if !self.allocated_blocks[index] {
            return Err(Error::NotAllocated);
        }
        let ghost stack = self.free_blocks@;
        self.free_blocks.push(index);
        self.allocated_blocks[index] = false;
        proof {
            old(self)@.lemma_deallocate_well_formed(index);
            assert(self.free_blocks@[stack.len() as int] == index);
            assert forall|k: int| 0 <= k < self.total_blocks implies (
            #[trigger] self.allocated_blocks@[k] <==> !self.free_blocks@.contains(k as usize)) by {
                if k != index {
                    if stack.contains(k as usize) {
                        let j = choose|j: int| 0 <= j < stack.len() && stack[j] == k as usize;
                        assert(self.free_blocks@[j] == k as usize);
                    }
                    if self.free_blocks@.contains(k as usize) {
                        let j = choose|j: int|
                            0 <= j < self.free_blocks@.len() && self.free_blocks@[j] == k as usize;
                        assert(stack[j] == k as usize);
                    }
                }
            }
        }
        Ok(())
    }

    /// Whether `index` is an allocated index of the pool.
    fn is_allocated(&self, index: usize) -> (allocated: bool)
        ensures
            allocated == self@.is_allocated(index),
    {
        index < self.total_blocks && self.allocated_blocks[index]
    }
}

/// `block` is an empty, well-formed block at pool position `index`, with no
/// earlier version.
pub open spec fn fresh_block(block: Block, index: usize) -> bool {
    &&& block.wf()
    &&& block@ == BlockView::empty()
    &&& block.index_spec() == index
    &&& block.previous() is None
}

/// `blocks` are fresh blocks at the positions `indices`, in that order.
pub open spec fn handed_out(blocks: Seq<Block>, indices: Seq<usize>) -> bool {
    &&& blocks.len() == indices.len()
    &&& forall|i: int| 0 <= i < blocks.len() ==> fresh_block(#[trigger] blocks[i], indices[i])
}

} // verus!
