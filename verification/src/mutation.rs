//! Mutation: each gene of a genome is flipped with the same probability, by a draw of its
//! own.

use vstd::prelude::*;
use crate::fixed_point::ONE;
use crate::genome::is_binary;
use crate::random::chance;

verus! {

/// The other value of a gene: one for zero, zero for one.
pub open spec fn flipped(gene: u8) -> u8 {
    gene ^ 1
}

/// Flipping turns zero into one and one into zero; it always changes the gene, and flipping
/// twice gives the gene back.
pub proof fn lemma_flipped(gene: u8)
    ensures
        gene == 0 ==> flipped(gene) == 1,
        gene == 1 ==> flipped(gene) == 0,
        flipped(gene) != gene,
        flipped(flipped(gene)) == gene,
{
    assert(gene == 0 ==> gene ^ 1 == 1) by (bit_vector);
    assert(gene == 1 ==> gene ^ 1 == 0) by (bit_vector);
    assert(gene ^ 1 != gene) by (bit_vector);
    assert((gene ^ 1) ^ 1 == gene) by (bit_vector);
}

/// Whether `mutated` can come out of mutating `genome` at `mutation_rate`: it has as many
/// genes, and each is the gene of `genome` or its flip; none is flipped at a rate of zero or
/// less, and every one at a rate of one or more.
pub open spec fn is_mutation_of(mutated: Seq<u8>, genome: Seq<u8>, mutation_rate: i64) -> bool {
    &&& mutated.len() == genome.len()
    &&& forall|i: int|
        0 <= i < genome.len() ==> #[trigger] mutated[i] == genome[i] || mutated[i] == flipped(genome[i])
    &&& mutation_rate <= 0 ==> mutated == genome
    &&& mutation_rate >= ONE ==> forall|i: int|
        0 <= i < genome.len() ==> #[trigger] mutated[i] == flipped(genome[i])
}

/// A mutation of a binary genome is binary.
pub proof fn lemma_mutation_stays_binary(mutated: Seq<u8>, genome: Seq<u8>, mutation_rate: i64)
    requires
        is_mutation_of(mutated, genome, mutation_rate),
        is_binary(genome),
    ensures
        is_binary(mutated),
{
    assert forall|i: int| 0 <= i < mutated.len() implies #[trigger] mutated[i] <= 1 by {
        lemma_flipped(genome[i]);
        assert(genome[i] <= 1);
    }
}

/// At a rate of one or more, mutation changes every gene: the mutated genome differs from
/// the genome at each position, and mutating the outcome again at such a rate gives the
/// genome back.
pub proof fn lemma_certain_mutation_flips_all(mutated: Seq<u8>, genome: Seq<u8>, mutation_rate: i64)
    requires
        is_mutation_of(mutated, genome, mutation_rate),
        mutation_rate >= ONE,
    ensures
        forall|i: int| 0 <= i < genome.len() ==> #[trigger] mutated[i] != genome[i],
        forall|again: Seq<u8>| is_mutation_of(again, mutated, mutation_rate) ==> again == genome,
{
    assert forall|i: int| 0 <= i < genome.len() implies #[trigger] mutated[i] != genome[i] by {
        lemma_flipped(genome[i]);
    }
    assert forall|again: Seq<u8>| is_mutation_of(again, mutated, mutation_rate) implies again
        == genome by {
        assert forall|i: int| 0 <= i < genome.len() implies again[i] == genome[i] by {
            lemma_flipped(genome[i]);
            assert(again[i] == flipped(mutated[i]));
            assert(mutated[i] == flipped(genome[i]));
        }
        assert(again =~= genome);
    }
}

/// The gene, flipped where `flip` is set.
pub fn mutate_gene(gene: u8, flip: bool) -> (mutated: u8)
    ensures
        mutated == if flip {
            flipped(gene)
        } else {
            gene
        },
{
    if flip {
        gene ^ 1
    } else {
        gene
    }
}

/// A copy of the genome in which each gene was flipped with probability `mutation_rate`, by
/// a draw of its own. The genome itself is left as it is.
pub fn mutate(genome: &[u8], mutation_rate: i64) -> (mutated_genome: Vec<u8>)
    ensures
        is_mutation_of(mutated_genome@, genome@, mutation_rate),
        is_binary(genome@) ==> is_binary(mutated_genome@),
{
    let mut mutated_genome: Vec<u8> = Vec::with_capacity(genome.len());
    let mut i: usize = 0;
    while i < genome.len()
        invariant
            i <= genome.len(),
            mutated_genome.len() == i,
            forall|j: int|
                0 <= j < i ==> #[trigger] mutated_genome[j] == genome[j] || mutated_genome[j] == flipped(
                    genome[j],
                ),
            mutation_rate <= 0 ==> forall|j: int| 0 <= j < i ==> #[trigger] mutated_genome[j] == genome[j],
            mutation_rate >= ONE ==> forall|j: int|
                0 <= j < i ==> #[trigger] mutated_genome[j] == flipped(genome[j]),
        decreases genome.len() - i,
    {
        let flip: bool = chance(mutation_rate);
        let gene: u8 = mutate_gene(genome[i], flip);
        mutated_genome.push(gene);
        i = i + 1;
    }
    proof {
        if mutation_rate <= 0 {
            assert(mutated_genome@ =~= genome@);
        }
        if is_binary(genome@) {
            lemma_mutation_stays_binary(mutated_genome@, genome@, mutation_rate);
        }
    }
    mutated_genome
}

} // verus!
