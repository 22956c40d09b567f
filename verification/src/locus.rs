//! What one locus of a child can hold, given the genes of its parents there.

use crate::genome::{lemma_no_occurrences, occurrences, Gene};
use vstd::prelude::*;
use vstd::seq_lib::to_multiset_build;

verus! {

/// What a parent's `G`, `Y` or `H` adds to that gene's score at a locus.
pub const GOOD_GENE: i32 = 6;

/// What a parent's `W` or `X` adds to that gene's score at a locus.
pub const BAD_GENE: i32 = 8;

/// The most parents that one crossing takes: their scores must fit in `i32`.
pub const MAX_PARENTS: usize = 0x0fff_ffff;

/// The score that `gene` gets from the genes `alleles` that the parents hold
/// at one locus: 6 for each `G`, `Y` or `H` among them, 8 for each `W` or `X`.
pub open spec fn weight_sum(alleles: Seq<Gene>, gene: Gene) -> int {
    let n: int = occurrences(alleles, gene) as int;
    match gene {
        Gene::G | Gene::Y | Gene::H => 6 * n,
        Gene::W | Gene::X => 8 * n,
    }
}

/// The larger of two scores.
pub open spec fn larger(a: int, b: int) -> int {
    if a >= b {
        a
    } else {
        b
    }
}

/// The highest score that any of the five genes has.
pub open spec fn top_of(score: spec_fn(Gene) -> int) -> int {
    larger(
        score(Gene::G),
        larger(score(Gene::Y), larger(score(Gene::H), larger(score(Gene::W), score(Gene::X)))),
    )
}

/// `gene` alone if it has the highest score, nothing otherwise.
pub open spec fn if_leading(score: spec_fn(Gene) -> int, gene: Gene) -> Seq<Gene> {
    if score(gene) == top_of(score) {
        seq![gene]
    } else {
        Seq::empty()
    }
}

/// The genes with the highest score, in the order `X`, `W`, `H`, `Y`, `G`.
pub open spec fn leaders_of(score: spec_fn(Gene) -> int) -> Seq<Gene> {
    if_leading(score, Gene::X) + if_leading(score, Gene::W) + if_leading(score, Gene::H)
        + if_leading(score, Gene::Y) + if_leading(score, Gene::G)
}

/// The genes that a child can hold at a locus where its parents hold `alleles`.
pub open spec fn possible_genes(alleles: Seq<Gene>) -> Seq<Gene> {
    leaders_of(|gene: Gene| weight_sum(alleles, gene))
}

/// The scores of the five genes at one locus.
#[derive(Debug, Copy, Clone)]
pub struct GeneAdder {
    pub g: i32,
    pub y: i32,
    pub h: i32,
    pub w: i32,
    pub x: i32,
}

impl GeneAdder {
    /// The score held for one gene.
    pub open spec fn score(&self, gene: Gene) -> int {
        match gene {
            Gene::G => self.g as int,
            Gene::Y => self.y as int,
            Gene::H => self.h as int,
            Gene::W => self.w as int,
            Gene::X => self.x as int,
        }
    }

    /// The scores that the genes `alleles` of the parents at one locus add up to.
    pub fn tally(alleles: &Vec<Gene>) -> (r: GeneAdder)
        requires
            alleles@.len() <= MAX_PARENTS,
        ensures
            forall|gene: Gene| #[trigger] r.score(gene) == weight_sum(alleles@, gene),
    {
        let mut sums = GeneAdder { g: 0, y: 0, h: 0, w: 0, x: 0 };
        let mut k: usize = 0;
        proof {
            lemma_no_occurrences(alleles@.take(0), Gene::G);
            lemma_no_occurrences(alleles@.take(0), Gene::Y);
            lemma_no_occurrences(alleles@.take(0), Gene::H);
            lemma_no_occurrences(alleles@.take(0), Gene::W);
            lemma_no_occurrences(alleles@.take(0), Gene::X);
        }
        while k < alleles.len()
            invariant
                k <= alleles@.len() <= MAX_PARENTS,
                0 <= sums.g <= 8 * k,
                0 <= sums.y <= 8 * k,
                0 <= sums.h <= 8 * k,
                0 <= sums.w <= 8 * k,
                0 <= sums.x <= 8 * k,
                sums.g == weight_sum(alleles@.take(k as int), Gene::G),
                sums.y == weight_sum(alleles@.take(k as int), Gene::Y),
                sums.h == weight_sum(alleles@.take(k as int), Gene::H),
                sums.w == weight_sum(alleles@.take(k as int), Gene::W),
                sums.x == weight_sum(alleles@.take(k as int), Gene::X),
            decreases alleles@.len() - k,
        {
            proof {
                to_multiset_build(alleles@.take(k as int), alleles@[k as int]);
                assert(alleles@.take(k + 1) =~= alleles@.take(k as int).push(alleles@[k as int]));
            }
            match alleles[k] {
                Gene::G => sums.g += GOOD_GENE,
                Gene::Y => sums.y += GOOD_GENE,
                Gene::H => sums.h += GOOD_GENE,
                Gene::W => sums.w += BAD_GENE,
                Gene::X => sums.x += BAD_GENE,
            }
            k += 1;
        }
        proof {
            assert(alleles@.take(alleles@.len() as int) =~= alleles@);
            assert forall|gene: Gene| #[trigger] sums.score(gene) == weight_sum(alleles@, gene) by {
                match gene {
                    Gene::G => {},
                    Gene::Y => {},
                    Gene::H => {},
                    Gene::W => {},
                    Gene::X => {},
                }
            }
        }
        sums
    }

    /// The genes with the highest score, ties all kept, in the order `X`, `W`,
    /// `H`, `Y`, `G`.
    pub fn gene_result(&self) -> (r: Vec<Gene>)
        ensures
            r@ == leaders_of(|gene: Gene| self.score(gene)),
    {
        let mut top_score = self.g;
        if self.y > top_score {
            top_score = self.y;
        }
        if self.h > top_score {
            top_score = self.h;
        }
        if self.w > top_score {
            top_score = self.w;
        }
        if self.x > top_score {
            top_score = self.x;
        }
        let ghost score = |gene: Gene| self.score(gene);
        assert(top_score == top_of(score));
        let mut possible_genes: Vec<Gene> = Vec::new();
        if self.x == top_score {
            possible_genes.push(Gene::X);
        }
        assert(possible_genes@ =~= if_leading(score, Gene::X));
        if self.w == top_score {
            possible_genes.push(Gene::W);
        }
        assert(possible_genes@ =~= if_leading(score, Gene::X) + if_leading(score, Gene::W));
        if self.h == top_score {
            possible_genes.push(Gene::H);
        }
        assert(possible_genes@ =~= if_leading(score, Gene::X) + if_leading(score, Gene::W)
            + if_leading(score, Gene::H));
        if self.y == top_score {
            possible_genes.push(Gene::Y);
        }
        assert(possible_genes@ =~= if_leading(score, Gene::X) + if_leading(score, Gene::W)
            + if_leading(score, Gene::H) + if_leading(score, Gene::Y));
        if self.g == top_score {
            possible_genes.push(Gene::G);
        }
        assert(possible_genes@ =~= leaders_of(score));
        possible_genes
    }
}

/// The genes that a child can hold at a locus are exactly those whose score
/// there is the highest of the five; there is always at least one, at most
/// five, and none occurs twice.
pub proof fn lemma_possible_genes_lead(alleles: Seq<Gene>, gene: Gene)
    ensures
        possible_genes(alleles).contains(gene) <==> weight_sum(alleles, gene) == top_of(
            |other: Gene| weight_sum(alleles, other),
        ),
        weight_sum(alleles, gene) <= top_of(|other: Gene| weight_sum(alleles, other)),
        1 <= possible_genes(alleles).len() <= 5,
        possible_genes(alleles).no_duplicates(),
{
    let score = |other: Gene| weight_sum(alleles, other);
    lemma_leaders(score, gene);
}

/// The same, for any five scores.
pub proof fn lemma_leaders(score: spec_fn(Gene) -> int, gene: Gene)
    ensures
        leaders_of(score).contains(gene) <==> score(gene) == top_of(score),
        score(gene) <= top_of(score),
        1 <= leaders_of(score).len() <= 5,
        leaders_of(score).no_duplicates(),
{
    let x = if_leading(score, Gene::X);
    let w = if_leading(score, Gene::W);
    let h = if_leading(score, Gene::H);
    let y = if_leading(score, Gene::Y);
    let g = if_leading(score, Gene::G);
    let all = leaders_of(score);
    assert(all.len() == x.len() + w.len() + h.len() + y.len() + g.len());
    assert(forall|i: int| 0 <= i < all.len() ==> all[i] == position_gene(score, i));
    if score(gene) == top_of(score) {
        let i = gene_position(score, gene);
        assert(all[i] == gene);
    }
}

/// The gene at place `i` of the leaders.
pub open spec fn position_gene(score: spec_fn(Gene) -> int, i: int) -> Gene {
    let x = if_leading(score, Gene::X).len();
    let w = x + if_leading(score, Gene::W).len();
    let h = w + if_leading(score, Gene::H).len();
    let y = h + if_leading(score, Gene::Y).len();
    if i < x {
        Gene::X
    } else if i < w {
        Gene::W
    } else if i < h {
        Gene::H
    } else if i < y {
        Gene::Y
    } else {
        Gene::G
    }
}

/// The place of a leading gene among the leaders.
pub open spec fn gene_position(score: spec_fn(Gene) -> int, gene: Gene) -> int {
    let x = if_leading(score, Gene::X).len();
    let w = x + if_leading(score, Gene::W).len();
    let h = w + if_leading(score, Gene::H).len();
    let y = h + if_leading(score, Gene::Y).len();
    match gene {
        Gene::X => 0,
        Gene::W => x as int,
        Gene::H => w as int,
        Gene::Y => h as int,
        Gene::G => y as int,
    }
}

/// The genes possible at a locus depend on which genes the parents hold
/// there, not on which parent holds which.
pub proof fn lemma_possible_genes_ignore_order(a: Seq<Gene>, b: Seq<Gene>)
    requires
        a.to_multiset() == b.to_multiset(),
    ensures
        possible_genes(a) == possible_genes(b),
{
    assert(possible_genes(a) =~= possible_genes(b));
}

} // verus!
