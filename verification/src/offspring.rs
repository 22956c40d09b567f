//! The children that four parents can have: one choice of a possible gene at
//! each of the six loci.

use crate::genome::Gene;
use crate::locus::{
    lemma_possible_genes_ignore_order, lemma_possible_genes_lead, possible_genes, GeneAdder,
    MAX_PARENTS,
};
use vstd::prelude::*;

verus! {

/// The plants of a list, each as its sequence of genes.
pub open spec fn genomes(plants: Seq<[Gene; 6]>) -> Seq<Seq<Gene>> {
    Seq::new(plants.len(), |i: int| plants[i]@)
}

/// The possible genes of each locus, as sequences.
pub open spec fn choices(tree: Seq<Vec<Gene>>) -> Seq<Seq<Gene>> {
    Seq::new(tree.len(), |i: int| tree[i]@)
}

/// Every way to fill the loci after `prefix` from `tree`: the first open locus
/// varies slowest, and each locus runs through its genes in their order.
pub open spec fn expansions(tree: Seq<Seq<Gene>>, prefix: Seq<Gene>) -> Seq<Seq<Gene>>
    decreases tree.len() - prefix.len(), 1nat, 0nat,
{
    if prefix.len() >= tree.len() {
        seq![prefix]
    } else {
        expansions_upto(tree, prefix, tree[prefix.len() as int].len())
    }
}

/// The part of `expansions(tree, prefix)` that starts with one of the first
/// `j` genes of the first open locus.
pub open spec fn expansions_upto(tree: Seq<Seq<Gene>>, prefix: Seq<Gene>, j: nat) -> Seq<
    Seq<Gene>,
>
    decreases tree.len() - prefix.len(), 0nat, j,
{
    if prefix.len() >= tree.len() || j == 0 {
        Seq::empty()
    } else {
        expansions_upto(tree, prefix, (j - 1) as nat) + expansions(
            tree,
            prefix.push(tree[prefix.len() as int][j - 1]),
        )
    }
}

/// The genes that the parents hold at one locus.
pub open spec fn locus_alleles(parents: Seq<Seq<Gene>>, locus: int) -> Seq<Gene> {
    Seq::new(parents.len(), |k: int| parents[k][locus])
}

/// For each of the six loci, the genes that a child of `parents` can hold there.
pub open spec fn locus_choices(parents: Seq<Seq<Gene>>) -> Seq<Seq<Gene>> {
    Seq::new(6, |locus: int| possible_genes(locus_alleles(parents, locus)))
}

/// The children that `parents` can have, one for each choice of a possible
/// gene at each locus; a child that can arise in two ways stands twice.
pub open spec fn offspring(parents: Seq<Seq<Gene>>) -> Seq<Seq<Gene>> {
    expansions(locus_choices(parents), Seq::empty())
}

/// The product of the numbers of genes that `tree` offers from locus `from` on.
pub open spec fn size_product(tree: Seq<Seq<Gene>>, from: int) -> nat
    decreases tree.len() - from,
{
    if from < 0 || from >= tree.len() {
        1
    } else {
        tree[from].len() * size_product(tree, from + 1)
    }
}

/// Appends to `plants` every plant that starts with the first `index` genes
/// of `plant` and goes on with one gene of `tree` at each later locus.
pub fn expand_gene_tree(
    tree: &Vec<Vec<Gene>>,
    plant: &mut [Gene; 6],
    index: usize,
    plants: &mut Vec<[Gene; 6]>,
)
    requires
        tree@.len() == 6,
        index <= 6,
    ensures
        genomes(final(plants)@) == genomes(old(plants)@) + expansions(
            choices(tree@),
            old(plant)@.take(index as int),
        ),
        final(plant)@.take(index as int) == old(plant)@.take(index as int),
    decreases 6 - index,
{
    let ghost start = genomes(plants@);
    let ghost prefix = plant@.take(index as int);
    let ghost t = choices(tree@);
    if index == 6 {
        plants.push(*plant);
        proof {
            assert(plant@.take(6) =~= plant@);
            assert(genomes(plants@) =~= start + seq![prefix]);
        }
        return ;
    }
    let mut j: usize = 0;
    while j < tree[index].len()
        invariant
            tree@.len() == 6,
            index < 6,
            j <= tree@[index as int]@.len(),
            t == choices(tree@),
            prefix.len() == index,
            plant@.take(index as int) == prefix,
            genomes(plants@) == start + expansions_upto(t, prefix, j as nat),
        decreases tree@[index as int]@.len() - j,
    {
        plant[index] = tree[index][j];
        let ghost before = genomes(plants@);
        let ghost longer = prefix.push(t[index as int][j as int]);
        proof {
            assert(plant@.take(index + 1) =~= longer);
        }
        expand_gene_tree(tree, plant, index + 1, plants);
        proof {
            assert(plant@.take(index as int) =~= plant@.take(index + 1).take(index as int));
            assert(longer.take(index as int) =~= prefix);
            assert(genomes(plants@) == before + expansions(t, longer));
            assert(expansions_upto(t, prefix, (j + 1) as nat) == expansions_upto(
                t,
                prefix,
                j as nat,
            ) + expansions(t, longer));
            assert(genomes(plants@) =~= start + expansions_upto(t, prefix, (j + 1) as nat));
        }
        j += 1;
    }
}

/// The genes that the plants hold at one locus, in the plants' order.
pub fn genes_at(plants: &Vec<[Gene; 6]>, locus: usize) -> (r: Vec<Gene>)
    requires
        locus < 6,
    ensures
        r@ == locus_alleles(genomes(plants@), locus as int),
{
    let mut alleles: Vec<Gene> = Vec::new();
    let mut k: usize = 0;
    while k < plants.len()
        invariant
            locus < 6,
            k <= plants@.len(),
            alleles@.len() == k,
            forall|m: int| 0 <= m < k ==> alleles@[m] == (#[trigger] plants@[m])@[locus as int],
        decreases plants@.len() - k,
    {
        alleles.push(plants[k][locus]);
        k += 1;
    }
    proof {
        assert(alleles@ =~= locus_alleles(genomes(plants@), locus as int));
    }
    alleles
}

/// The children that the parents `plants` can have: at each locus one of the
/// genes with the highest score there, every choice once, the first locus
/// varying slowest.
pub fn combine_genes(plants: &Vec<[Gene; 6]>) -> (r: Vec<[Gene; 6]>)
    requires
        plants@.len() <= MAX_PARENTS,
    ensures
        genomes(r@) == offspring(genomes(plants@)),
        1 <= r@.len() <= 15625,
{
    let mut output_plant_tree: Vec<Vec<Gene>> = Vec::new();
    let mut i: usize = 0;
    while i < 6
        invariant
            i <= 6,
            plants@.len() <= MAX_PARENTS,
            output_plant_tree@.len() == i,
            forall|k: int|
                0 <= k < i ==> (#[trigger] output_plant_tree@[k])@ == possible_genes(
                    locus_alleles(genomes(plants@), k),
                ),
        decreases 6 - i,
    {
        let alleles = genes_at(plants, i);
        let gene_sums = GeneAdder::tally(&alleles);
        let genes = gene_sums.gene_result();
        proof {
            assert(genes@ =~= possible_genes(alleles@));
        }
        output_plant_tree.push(genes);
        i += 1;
    }
    let mut tmp_plant = [Gene::X; 6];
    let mut output_plants: Vec<[Gene; 6]> = Vec::new();
    let ghost blank = tmp_plant@;
    expand_gene_tree(&output_plant_tree, &mut tmp_plant, 0, &mut output_plants);
    proof {
        assert(choices(output_plant_tree@) =~= locus_choices(genomes(plants@)));
        assert(genomes(Seq::<[Gene; 6]>::empty()) =~= Seq::<Seq<Gene>>::empty());
        assert(blank.take(0) =~= Seq::<Gene>::empty());
        assert(genomes(output_plants@) =~= offspring(genomes(plants@)));
        lemma_offspring_count(genomes(plants@));
        assert(genomes(output_plants@).len() == output_plants@.len());
    }
    output_plants
}

/// `expansions` has one entry for each choice of one gene at each open locus.
pub proof fn lemma_expansions_len(tree: Seq<Seq<Gene>>, prefix: Seq<Gene>)
    ensures
        expansions(tree, prefix).len() == size_product(tree, prefix.len() as int),
    decreases tree.len() - prefix.len(), 1nat, 0nat,
{
    if prefix.len() < tree.len() {
        lemma_expansions_upto_len(tree, prefix, tree[prefix.len() as int].len());
    }
}

/// `expansions_upto` has `j` times the entries that the later loci allow.
pub proof fn lemma_expansions_upto_len(tree: Seq<Seq<Gene>>, prefix: Seq<Gene>, j: nat)
    requires
        prefix.len() < tree.len(),
    ensures
        expansions_upto(tree, prefix, j).len() == j * size_product(tree, prefix.len() as int + 1),
    decreases tree.len() - prefix.len(), 0nat, j,
{
    let rest = size_product(tree, prefix.len() as int + 1);
    if j > 0 {
        let longer = prefix.push(tree[prefix.len() as int][j - 1]);
        lemma_expansions_upto_len(tree, prefix, (j - 1) as nat);
        lemma_expansions_len(tree, longer);
        assert((j - 1) * rest + rest == j * rest) by (nonlinear_arith);
    } else {
        assert(0 * rest == 0);
    }
}

/// The product of two numbers between 1 and a bound each lies between 1 and
/// the product of the bounds.
pub proof fn lemma_product_bounds(a: nat, b: nat, top_a: nat, top_b: nat)
    requires
        1 <= a <= top_a,
        1 <= b <= top_b,
    ensures
        1 <= a * b <= top_a * top_b,
{
    assert(1 <= a * b <= top_a * top_b) by (nonlinear_arith)
        requires
            1 <= a <= top_a,
            1 <= b <= top_b,
    ;
}

/// The number of children that `parents` can have is the product, over the six
/// loci, of the number of genes possible at each; it lies between 1 and 5^6.
pub proof fn lemma_offspring_count(parents: Seq<Seq<Gene>>)
    ensures
        offspring(parents).len() == possible_genes(locus_alleles(parents, 0)).len() * (
        possible_genes(locus_alleles(parents, 1)).len() * (possible_genes(
            locus_alleles(parents, 2),
        ).len() * (possible_genes(locus_alleles(parents, 3)).len() * (possible_genes(
            locus_alleles(parents, 4),
        ).len() * possible_genes(locus_alleles(parents, 5)).len())))),
        1 <= offspring(parents).len() <= 15625,
{
    let tree = locus_choices(parents);
    lemma_expansions_len(tree, Seq::empty());
    reveal_with_fuel(size_product, 8);
    let n0 = tree[0].len();
    let n1 = tree[1].len();
    let n2 = tree[2].len();
    let n3 = tree[3].len();
    let n4 = tree[4].len();
    let n5 = tree[5].len();
    assert(size_product(tree, 6) == 1);
    assert(size_product(tree, 5) == n5 * 1);
    assert(size_product(tree, 0) == n0 * (n1 * (n2 * (n3 * (n4 * (n5 * 1))))));
    lemma_possible_genes_lead(locus_alleles(parents, 0), Gene::G);
    lemma_possible_genes_lead(locus_alleles(parents, 1), Gene::G);
    lemma_possible_genes_lead(locus_alleles(parents, 2), Gene::G);
    lemma_possible_genes_lead(locus_alleles(parents, 3), Gene::G);
    lemma_possible_genes_lead(locus_alleles(parents, 4), Gene::G);
    lemma_possible_genes_lead(locus_alleles(parents, 5), Gene::G);
    lemma_product_bounds(n4, n5, 5, 5);
    lemma_product_bounds(n3, n4 * n5, 5, 25);
    lemma_product_bounds(n2, n3 * (n4 * n5), 5, 125);
    lemma_product_bounds(n1, n2 * (n3 * (n4 * n5)), 5, 625);
    lemma_product_bounds(n0, n1 * (n2 * (n3 * (n4 * n5))), 5, 3125);
}

/// Whether `plant` fills the loci after `prefix` from `tree`: it has one gene
/// for each locus, starts with `prefix`, and holds at each later locus one of
/// the genes that `tree` offers there.
pub open spec fn fills(tree: Seq<Seq<Gene>>, prefix: Seq<Gene>, plant: Seq<Gene>) -> bool {
    &&& plant.len() == tree.len()
    &&& prefix.len() <= plant.len()
    &&& plant.take(prefix.len() as int) == prefix
    &&& forall|i: int| prefix.len() <= i < tree.len() ==> (#[trigger] tree[i]).contains(plant[i])
}

/// What stands in two sequences put together stands in one of them.
pub proof fn lemma_contains_in_either(a: Seq<Seq<Gene>>, b: Seq<Seq<Gene>>, plant: Seq<Gene>)
    ensures
        (a + b).contains(plant) <==> a.contains(plant) || b.contains(plant),
{
    if a.contains(plant) {
        let i = choose|i: int| 0 <= i < a.len() && a[i] == plant;
        assert((a + b)[i] == plant);
    }
    if b.contains(plant) {
        let i = choose|i: int| 0 <= i < b.len() && b[i] == plant;
        assert((a + b)[a.len() + i] == plant);
    }
    if (a + b).contains(plant) {
        let i = choose|i: int| 0 <= i < (a + b).len() && (a + b)[i] == plant;
        if i < a.len() {
            assert(a[i] == plant);
        } else {
            assert(b[i - a.len()] == plant);
        }
    }
}

/// `expansions` holds exactly the plants that fill the open loci.
pub proof fn lemma_expansions_members(tree: Seq<Seq<Gene>>, prefix: Seq<Gene>, plant: Seq<Gene>)
    requires
        prefix.len() <= tree.len(),
    ensures
        expansions(tree, prefix).contains(plant) <==> fills(tree, prefix, plant),
    decreases tree.len() - prefix.len(), 1nat, 0nat,
{
    if prefix.len() == tree.len() {
        assert(seq![prefix][0] == prefix);
        if fills(tree, prefix, plant) {
            assert(plant.take(plant.len() as int) =~= plant);
        }
        if plant == prefix {
            assert(plant.take(plant.len() as int) =~= plant);
        }
    } else {
        let p = prefix.len() as int;
        lemma_expansions_upto_members(tree, prefix, tree[p].len(), plant);
        if fills(tree, prefix, plant) {
            assert(tree[p].contains(plant[p]));
        }
    }
}

/// `expansions_upto` holds exactly the plants that fill the open loci with
/// one of the first `j` genes at the first of them.
pub proof fn lemma_expansions_upto_members(
    tree: Seq<Seq<Gene>>,
    prefix: Seq<Gene>,
    j: nat,
    plant: Seq<Gene>,
)
    requires
        prefix.len() < tree.len(),
        j <= tree[prefix.len() as int].len(),
    ensures
        expansions_upto(tree, prefix, j).contains(plant) <==> (fills(tree, prefix, plant)
            && exists|m: int|
            0 <= m < j && #[trigger] tree[prefix.len() as int][m] == plant[prefix.len() as int]),
    decreases tree.len() - prefix.len(), 0nat, j,
{
    let p = prefix.len() as int;
    if j > 0 {
        let gene = tree[p][j - 1];
        let longer = prefix.push(gene);
        let earlier = expansions_upto(tree, prefix, (j - 1) as nat);
        let last = expansions(tree, longer);
        lemma_expansions_upto_members(tree, prefix, (j - 1) as nat, plant);
        lemma_expansions_members(tree, longer, plant);
        lemma_contains_in_either(earlier, last, plant);
        if fills(tree, longer, plant) {
            assert(plant.take(p + 1).take(p) =~= plant.take(p));
            assert(longer.take(p) =~= prefix);
            assert(plant.take(p + 1)[p] == gene);
            assert(tree[p].contains(plant[p]));
            assert(fills(tree, prefix, plant));
            assert(tree[p][j - 1] == plant[p]);
        }
        if fills(tree, prefix, plant) && plant[p] == gene {
            assert(plant.take(p + 1) =~= longer);
            assert(fills(tree, longer, plant));
        }
        if fills(tree, prefix, plant) && exists|m: int|
            0 <= m < j && #[trigger] tree[p][m] == plant[p] {
            let m = choose|m: int| 0 <= m < j && #[trigger] tree[p][m] == plant[p];
            if m < j - 1 {
                assert(earlier.contains(plant));
            } else {
                assert(last.contains(plant));
            }
        }
    }
}

/// The possible children of `parents` are exactly the plants that hold at
/// each locus one of the genes possible there: every such choice is reached.
pub proof fn lemma_offspring_members(parents: Seq<Seq<Gene>>, child: Seq<Gene>)
    ensures
        offspring(parents).contains(child) <==> (child.len() == 6 && forall|locus: int|
            0 <= locus < 6 ==> possible_genes(#[trigger] locus_alleles(parents, locus)).contains(
                child[locus],
            )),
{
    let tree = locus_choices(parents);
    lemma_expansions_members(tree, Seq::empty(), child);
    assert(child.take(0) =~= Seq::<Gene>::empty());
    if fills(tree, Seq::empty(), child) {
        assert forall|locus: int| 0 <= locus < 6 implies possible_genes(
            #[trigger] locus_alleles(parents, locus),
        ).contains(child[locus]) by {
            assert(tree[locus].contains(child[locus]));
        }
    }
}

/// The possible children depend, at each locus, on which genes the parents
/// hold there, not on which parent holds which: the order of the parents
/// makes no difference.
pub proof fn lemma_offspring_ignores_order(a: Seq<Seq<Gene>>, b: Seq<Seq<Gene>>)
    requires
        forall|locus: int|
            0 <= locus < 6 ==> locus_alleles(a, locus).to_multiset() == locus_alleles(
                b,
                locus,
            ).to_multiset(),
    ensures
        offspring(a) == offspring(b),
{
    assert forall|locus: int| 0 <= locus < 6 implies possible_genes(locus_alleles(a, locus))
        == possible_genes(locus_alleles(b, locus)) by {
        lemma_possible_genes_ignore_order(locus_alleles(a, locus), locus_alleles(b, locus));
    }
    assert(locus_choices(a) =~= locus_choices(b));
}

} // verus!
