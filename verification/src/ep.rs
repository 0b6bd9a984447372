//! Which rank owns which routed expert.
use vstd::prelude::*;

use crate::error::ModelError;

verus! {

/// The placement of the routed experts, seen from one rank.
///
/// A rank stores the experts that it owns in ascending order of their global
/// number; the place of an expert in that order is its local number.
#[derive(Debug)]
pub struct ExpertParallelLayout {
    /// The rank that this layout is for.
    pub rank: usize,
    /// Number of ranks.
    pub ep_size: usize,
    /// For each routed expert, the rank that owns it.
    pub owners: Vec<usize>,
}

/// The experts below `n` that `rank` owns, in ascending order.
pub open spec fn owned_below(owners: Seq<usize>, rank: usize, n: nat) -> Seq<usize>
    decreases n,
{
    if n == 0 {
        Seq::empty()
    } else {
        let before = owned_below(owners, rank, (n - 1) as nat);
        if owners[n - 1] == rank {
            before.push((n - 1) as usize)
        } else {
            before
        }
    }
}

impl ExpertParallelLayout {
    /// The experts that this rank owns, in ascending order.
    pub open spec fn owned(&self) -> Seq<usize> {
        owned_below(self.owners@, self.rank, self.owners@.len())
    }

    /// The rank that owns an expert.
    pub open spec fn owner_of(&self, global_expert: usize) -> Result<usize, ModelError> {
        if global_expert < self.owners@.len() {
            Ok(self.owners@[global_expert as int])
        } else {
            Err(ModelError::UnknownExpert { global_expert })
        }
    }

    /// The local number of an expert that this rank owns: how many owned
    /// experts come before it.
    pub open spec fn local_of(&self, global_expert: usize) -> Result<usize, ModelError> {
        if global_expert >= self.owners@.len() {
            Err(ModelError::UnknownExpert { global_expert })
        } else if self.owners@[global_expert as int] != self.rank {
            Err(ModelError::ForeignExpert { rank: self.rank, global_expert })
        } else {
            Ok(owned_below(self.owners@, self.rank, global_expert as nat).len() as usize)
        }
    }

    /// The rank that owns an expert.
    pub fn owner_rank(&self, global_expert: usize) -> (owner: Result<usize, ModelError>)
        ensures
            owner == self.owner_of(global_expert),
    {
        if global_expert < self.owners.len() {
            Ok(self.owners[global_expert])
        } else {
            Err(ModelError::UnknownExpert { global_expert })
        }
    }

    /// The local number of an expert that this rank owns.
    pub fn local_expert(&self, global_expert: usize) -> (local: Result<usize, ModelError>)
        ensures
            local == self.local_of(global_expert),
    {
        if global_expert >= self.owners.len() {
            return Err(ModelError::UnknownExpert { global_expert });
        }
        if self.owners[global_expert] != self.rank {
            return Err(ModelError::ForeignExpert { rank: self.rank, global_expert });
        }
        let mut count: usize = 0;
        let mut i: usize = 0;
        while i < global_expert
            invariant
                i <= global_expert < self.owners@.len(),
                count <= i,
                count == owned_below(self.owners@, self.rank, i as nat).len(),
            decreases global_expert - i,
        {
            if self.owners[i] == self.rank {
                count += 1;
            }
            i += 1;
        }
        Ok(count)
    }

    /// The experts that this rank owns, in the order of their local numbers.
    pub fn owned_experts(&self) -> (experts: Vec<usize>)
        ensures
            experts@ == self.owned(),
    {
        let mut experts: Vec<usize> = Vec::new();
        let mut i: usize = 0;
        while i < self.owners.len()
            invariant
                i <= self.owners@.len(),
                experts@ == owned_below(self.owners@, self.rank, i as nat),
            decreases self.owners@.len() - i,
        {
            if self.owners[i] == self.rank {
                experts.push(i);
            }
            i += 1;
        }
        experts
    }
}

/// Whatever is listed below `n` is an expert below `n` that the rank owns, and
/// the list ascends.
pub proof fn lemma_owned_below(owners: Seq<usize>, rank: usize, n: nat)
    requires
        n <= owners.len() <= usize::MAX,
    ensures
        owned_below(owners, rank, n).len() <= n,
        forall|i: int|
            0 <= i < owned_below(owners, rank, n).len() ==> (#[trigger] owned_below(
                owners,
                rank,
                n,
            )[i]) < n && owners[owned_below(owners, rank, n)[i] as int] == rank,
        forall|i: int, j: int|
            0 <= i < j < owned_below(owners, rank, n).len() ==> #[trigger] owned_below(
                owners,
                rank,
                n,
            )[i] < #[trigger] owned_below(owners, rank, n)[j],
    decreases n,
{
    if n > 0 {
        lemma_owned_below(owners, rank, (n - 1) as nat);
    }
}

/// The list below `m` starts with the list below `n`.
pub proof fn lemma_owned_prefix(owners: Seq<usize>, rank: usize, n: nat, m: nat)
    requires
        n <= m <= owners.len(),
    ensures
        owned_below(owners, rank, n).len() <= owned_below(owners, rank, m).len(),
        owned_below(owners, rank, m).take(owned_below(owners, rank, n).len() as int)
            == owned_below(owners, rank, n),
    decreases m,
{
    let small = owned_below(owners, rank, n);
    if n < m {
        lemma_owned_prefix(owners, rank, n, (m - 1) as nat);
        let before = owned_below(owners, rank, (m - 1) as nat);
        assert(owned_below(owners, rank, m).take(small.len() as int) =~= before.take(
            small.len() as int,
        ));
    } else {
        assert(small.take(small.len() as int) =~= small);
    }
}

/// The local number of an owned expert is its place among the owned experts.
pub proof fn law_local_number_is_place(layout: &ExpertParallelLayout, global_expert: usize)
    requires
        global_expert < layout.owners@.len(),
        layout.owners@[global_expert as int] == layout.rank,
    ensures
        layout.local_of(global_expert) is Ok,
        layout.local_of(global_expert)->Ok_0 < layout.owned().len(),
        layout.owned()[layout.local_of(global_expert)->Ok_0 as int] == global_expert,
{
    let owners = layout.owners@;
    let g = global_expert as nat;
    let before = owned_below(owners, layout.rank, g);
    assert(owners.len() == layout.owners.len());
    lemma_owned_below(owners, layout.rank, g);
    lemma_owned_prefix(owners, layout.rank, g + 1, owners.len());
    let upto = owned_below(owners, layout.rank, g + 1);
    assert(upto == before.push(global_expert));
    assert(upto[before.len() as int] == layout.owned().take(upto.len() as int)[before.len() as int]);
}

/// The expert at place `i` of a rank has local number `i` there.
pub proof fn law_place_is_local_number(layout: &ExpertParallelLayout, i: int)
    requires
        0 <= i < layout.owned().len(),
    ensures
        layout.owned()[i] < layout.owners@.len(),
        layout.owners@[layout.owned()[i] as int] == layout.rank,
        layout.local_of(layout.owned()[i]) == Ok::<usize, ModelError>(i as usize),
{
    assert(layout.owners@.len() == layout.owners.len());
    lemma_owned_below(layout.owners@, layout.rank, layout.owners@.len());
    let g = layout.owned()[i];
    law_local_number_is_place(layout, g);
    let local = layout.local_of(g)->Ok_0 as int;
    if local != i {
        assert(layout.owned()[local] == layout.owned()[i]);
    }
}

/// Two layouts of one placement list an expert on exactly the rank that owns
/// it: on both only if they are for the same rank.
pub proof fn law_ranks_own_disjoint_experts(
    left: &ExpertParallelLayout,
    right: &ExpertParallelLayout,
    global_expert: usize,
)
    requires
        left.owners@ == right.owners@,
        left.owned().contains(global_expert),
        right.owned().contains(global_expert),
    ensures
        left.rank == right.rank,
{
    assert(left.owners@.len() == left.owners.len());
    lemma_owned_below(left.owners@, left.rank, left.owners@.len());
    lemma_owned_below(right.owners@, right.rank, right.owners@.len());
}

/// Every placed expert is listed on the rank that owns it.
pub proof fn law_every_expert_is_owned(layout: &ExpertParallelLayout, global_expert: usize)
    requires
        layout.owner_of(global_expert) == Ok::<usize, ModelError>(layout.rank),
    ensures
        layout.owned().contains(global_expert),
{
    law_local_number_is_place(layout, global_expert);
}

/// The experts of a rank are exactly those that the placement gives it, in
/// ascending order.
pub proof fn law_owned_are_the_placed(layout: &ExpertParallelLayout, global_expert: usize)
    ensures
        layout.owned().contains(global_expert) <==> (global_expert < layout.owners@.len()
            && layout.owners@[global_expert as int] == layout.rank),
        forall|i: int, j: int|
            0 <= i < j < layout.owned().len() ==> #[trigger] layout.owned()[i]
                < #[trigger] layout.owned()[j],
{
    assert(layout.owners@.len() == layout.owners.len());
    lemma_owned_below(layout.owners@, layout.rank, layout.owners@.len());
    if global_expert < layout.owners@.len() && layout.owners@[global_expert as int]
        == layout.rank {
        law_local_number_is_place(layout, global_expert);
    }
}

/// Where the placement puts an expert: the owner is the rank that it names, and
/// on its own rank the expert's local number is the number of smaller experts
/// that the rank owns; other ranks refuse it, and nobody owns an expert that is
/// not placed.
pub proof fn law_placement_of_an_expert(layout: &ExpertParallelLayout, global_expert: usize)
    ensures
        global_expert < layout.owners@.len() ==> layout.owner_of(global_expert) == Ok::<
            usize,
            ModelError,
        >(layout.owners@[global_expert as int]),
        global_expert >= layout.owners@.len() ==> {
            &&& layout.owner_of(global_expert) == Err::<usize, ModelError>(
                ModelError::UnknownExpert { global_expert },
            )
            &&& layout.local_of(global_expert) == Err::<usize, ModelError>(
                ModelError::UnknownExpert { global_expert },
            )
        },
        global_expert < layout.owners@.len() && layout.owners@[global_expert as int]
            != layout.rank ==> layout.local_of(global_expert) == Err::<usize, ModelError>(
            ModelError::ForeignExpert { rank: layout.rank, global_expert },
        ),
        global_expert < layout.owners@.len() && layout.owners@[global_expert as int]
            == layout.rank ==> (layout.local_of(global_expert) matches Ok(local) && local
            == layout.owners@.take(global_expert as int).filter(
            |owner: usize| owner == layout.rank,
        ).len()),
{
    assert(layout.owners@.len() == layout.owners.len());
    if global_expert < layout.owners@.len() {
        lemma_owned_below(layout.owners@, layout.rank, global_expert as nat);
        lemma_owned_count(layout.owners@, layout.rank, global_expert as nat);
    }
}

/// As many experts are listed below `n` as the placement gives the rank there.
proof fn lemma_owned_count(owners: Seq<usize>, rank: usize, n: nat)
    requires
        n <= owners.len(),
    ensures
        owned_below(owners, rank, n).len() == owners.take(n as int).filter(
            |owner: usize| owner == rank,
        ).len(),
    decreases n,
{
    reveal(Seq::filter);
    if n > 0 {
        lemma_owned_count(owners, rank, (n - 1) as nat);
        assert(owners.take(n as int).drop_last() =~= owners.take(n - 1));
        assert(owners.take(n as int).last() == owners[n - 1]);
    }
}

} // verus!
