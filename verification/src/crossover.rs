//! Single-point crossover: two parents swap their tails behind a cut point.

use vstd::prelude::*;
use crate::fixed_point::ONE;
use crate::random::{chance, random_between};

verus! {

/// The genes of `head` before the cut point, followed by the genes of `tail` from the cut
/// point on.
pub open spec fn crossed(head: Seq<u8>, tail: Seq<u8>, point: int) -> Seq<u8> {
    head.take(point) + tail.skip(point)
}

/// Whether the two children are the parents with their tails swapped behind `point`.
pub open spec fn crossed_at(
    children: (Seq<u8>, Seq<u8>),
    parent1: Seq<u8>,
    parent2: Seq<u8>,
    point: int,
) -> bool {
    &&& children.0 == crossed(parent1, parent2, point)
    &&& children.1 == crossed(parent2, parent1, point)
}

/// Whether the two children can come out of crossing the parents at `crossover_rate`: they
/// are the parents unchanged, or the parents crossed at a point that leaves each child a gene
/// of either parent. At a rate of zero or less they are the parents unchanged; at a rate
/// of one or more they are crossed.
pub open spec fn is_crossover_of(
    children: (Seq<u8>, Seq<u8>),
    parent1: Seq<u8>,
    parent2: Seq<u8>,
    crossover_rate: i64,
) -> bool {
    let unchanged = children.0 == parent1 && children.1 == parent2;
    let swapped = exists|point: int|
        1 <= point < parent1.len() && #[trigger] crossed_at(children, parent1, parent2, point);
    &&& unchanged || swapped
    &&& crossover_rate <= 0 ==> unchanged
    &&& crossover_rate >= ONE ==> swapped
}

/// Crossing parents of one length gives children of that length, each gene of a child is the
/// gene of a parent at the same place, and the children differ from each other exactly
/// where the parents do.
pub proof fn lemma_crossed_children(parent1: Seq<u8>, parent2: Seq<u8>, point: int)
    requires
        parent1.len() == parent2.len(),
        0 <= point <= parent1.len(),
    ensures
        crossed(parent1, parent2, point).len() == parent1.len(),
        crossed(parent2, parent1, point).len() == parent1.len(),
        forall|i: int|
            0 <= i < parent1.len() ==> #[trigger] crossed(parent1, parent2, point)[i] == if i < point {
                parent1[i]
            } else {
                parent2[i]
            },
        forall|i: int|
            0 <= i < parent1.len() ==> #[trigger] crossed(parent2, parent1, point)[i] == if i < point {
                parent2[i]
            } else {
                parent1[i]
            },
        crossed(parent1, parent2, point) == crossed(parent2, parent1, point) <==> parent1 == parent2,
{
    let child1 = crossed(parent1, parent2, point);
    let child2 = crossed(parent2, parent1, point);
    if parent1 == parent2 {
        assert(child1 =~= child2);
    }
    if child1 == child2 {
        assert forall|i: int| 0 <= i < parent1.len() implies parent1[i] == parent2[i] by {
            assert(child1[i] == child2[i]);
        }
        assert(parent1 =~= parent2);
    }
}

/// A crossing at a rate of one or more, of parents of one length whose last genes differ,
/// changes both children: neither is the parent it started from, the two differ from each
/// other, and both have the parents' length.
pub proof fn lemma_certain_crossover_alters(
    children: (Seq<u8>, Seq<u8>),
    parent1: Seq<u8>,
    parent2: Seq<u8>,
    crossover_rate: i64,
)
    requires
        is_crossover_of(children, parent1, parent2, crossover_rate),
        crossover_rate >= ONE,
        parent1.len() == parent2.len(),
        parent1.len() > 0,
        parent1.last() != parent2.last(),
    ensures
        children.0 != parent1,
        children.1 != parent2,
        children.0 != children.1,
        children.0.len() == parent1.len(),
        children.1.len() == parent2.len(),
{
    let point = choose|point: int|
        1 <= point < parent1.len() && #[trigger] crossed_at(children, parent1, parent2, point);
    lemma_crossed_children(parent1, parent2, point);
    let last = parent1.len() - 1;
    assert(children.0[last] == parent2[last]);
    assert(children.1[last] == parent1[last]);
}

/// Whatever the rate, the children of parents of one length have that length, and they
/// differ from each other exactly where the parents do: two parents that differ have two
/// children that differ.
pub proof fn lemma_crossover_children_differ(
    children: (Seq<u8>, Seq<u8>),
    parent1: Seq<u8>,
    parent2: Seq<u8>,
    crossover_rate: i64,
)
    requires
        is_crossover_of(children, parent1, parent2, crossover_rate),
        parent1.len() == parent2.len(),
    ensures
        children.0.len() == parent1.len(),
        children.1.len() == parent2.len(),
        children.0 == children.1 <==> parent1 == parent2,
{
    if !(children.0 == parent1 && children.1 == parent2) {
        let point = choose|point: int|
            1 <= point < parent1.len() && #[trigger] crossed_at(children, parent1, parent2, point);
        lemma_crossed_children(parent1, parent2, point);
    }
}

/// Without crossing, at a rate of zero or less, the children are the parents.
pub proof fn lemma_no_crossover_keeps_parents(
    children: (Seq<u8>, Seq<u8>),
    parent1: Seq<u8>,
    parent2: Seq<u8>,
    crossover_rate: i64,
)
    requires
        is_crossover_of(children, parent1, parent2, crossover_rate),
        crossover_rate <= 0,
    ensures
        children.0 == parent1,
        children.1 == parent2,
{
}

/// A copy of the genes.
pub fn copy_genome(genome: &[u8]) -> (copy: Vec<u8>)
    ensures
        copy@ == genome@,
{
    let mut copy: Vec<u8> = Vec::with_capacity(genome.len());
    let mut i: usize = 0;
    while i < genome.len()
        invariant
            i <= genome.len(),
            copy@ == genome@.take(i as int),
        decreases genome.len() - i,
    {
        copy.push(genome[i]);
        assert(copy@ =~= genome@.take(i + 1));
        i = i + 1;
    }
    assert(genome@.take(i as int) =~= genome@);
    copy
}

/// The genes of `head` before `point`, followed by the genes of `tail` from `point` on.
fn splice(head: &[u8], tail: &[u8], point: usize) -> (child: Vec<u8>)
    requires
        point <= head.len(),
        point <= tail.len(),
    ensures
        child@ == crossed(head@, tail@, point as int),
{
    let mut child: Vec<u8> = Vec::with_capacity(tail.len());
    let mut i: usize = 0;
    while i < point
        invariant
            i <= point <= head.len(),
            child@ == head@.take(i as int),
        decreases point - i,
    {
        child.push(head[i]);
        assert(child@ =~= head@.take(i + 1));
        i = i + 1;
    }
    while i < tail.len()
        invariant
            point <= i <= tail.len(),
            point <= head.len(),
            child@ == head@.take(point as int) + tail@.subrange(point as int, i as int),
        decreases tail.len() - i,
    {
        child.push(tail[i]);
        assert(child@ =~= head@.take(point as int) + tail@.subrange(point as int, i + 1));
        i = i + 1;
    }
    assert(tail@.subrange(point as int, i as int) =~= tail@.skip(point as int));
    child
}

/// The two children of a crossing at `crossover_point`: each starts as one parent and ends
/// as the other.
pub fn crossover_at(parent1: &[u8], parent2: &[u8], crossover_point: usize) -> (children: (Vec<u8>, Vec<u8>))
    requires
        crossover_point <= parent1.len(),
        crossover_point <= parent2.len(),
    ensures
        crossed_at((children.0@, children.1@), parent1@, parent2@, crossover_point as int),
{
    let child1: Vec<u8> = splice(parent1, parent2, crossover_point);
    let child2: Vec<u8> = splice(parent2, parent1, crossover_point);
    (child1, child2)
}

/// With probability `crossover_rate`, crosses the parents at a cut point drawn uniformly
/// from the first gene's end to the last gene's start; otherwise returns copies of the
/// parents. The parents themselves are left as they are.
///
/// A crossing needs a cut point: where the rate is above zero, the first parent has at
/// least two genes and the second has a gene wherever the cut may fall.
pub fn crossover(parent1: &[u8], parent2: &[u8], crossover_rate: i64) -> (children: (Vec<u8>, Vec<u8>))
    requires
        crossover_rate > 0 ==> 2 <= parent1.len() <= parent2.len() + 1,
    ensures
        is_crossover_of((children.0@, children.1@), parent1@, parent2@, crossover_rate),
{
    if chance(crossover_rate) {
        let crossover_point: usize = random_between(1, parent1.len() - 1);
        crossover_at(parent1, parent2, crossover_point)
    } else {
        (copy_genome(parent1), copy_genome(parent2))
    }
}

} // verus!
