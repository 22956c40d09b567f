//! Genes, plants and the gene counts that a breeder asks for.

use vstd::prelude::*;
use vstd::seq_lib::to_multiset_build;

verus! {

/// One of the five genes that a plant can carry at a locus.
#[derive(Debug, Copy, Clone, PartialEq, Eq, Hash, Structural)]
pub enum Gene {
    G,
    Y,
    H,
    W,
    X,
}

/// How many genes of each kind a plant should carry.
#[derive(Debug, Copy, Clone, PartialEq, Eq, Structural)]
pub struct GeneSet {
    pub g: i32,
    pub y: i32,
    pub h: i32,
    pub w: i32,
    pub x: i32,
}

/// How often `gene` occurs in `genes`, wherever it stands.
pub open spec fn occurrences(genes: Seq<Gene>, gene: Gene) -> nat {
    genes.to_multiset().count(gene)
}

/// Nothing occurs in no genes at all.
pub proof fn lemma_no_occurrences(genes: Seq<Gene>, gene: Gene)
    requires
        genes.len() == 0,
    ensures
        occurrences(genes, gene) == 0,
{
    genes.to_multiset_ensures();
    assert(!genes.contains(gene));
}

/// A plant meets a goal when it carries each gene exactly as often as the goal asks.
pub open spec fn matches_goal(genes: Seq<Gene>, goal: GeneSet) -> bool {
    forall|gene: Gene| occurrences(genes, gene) == #[trigger] goal.wanted(gene)
}

impl GeneSet {
    /// The count that this goal asks for one gene.
    pub open spec fn wanted(&self, gene: Gene) -> int {
        match gene {
            Gene::G => self.g as int,
            Gene::Y => self.y as int,
            Gene::H => self.h as int,
            Gene::W => self.w as int,
            Gene::X => self.x as int,
        }
    }

    /// Whether `plant` carries each gene exactly as often as this goal asks.
    pub fn plant_matches(&self, plant: &[Gene; 6]) -> (r: bool)
        ensures
            r == matches_goal(plant@, *self),
    {
        let mut seen = GeneSet { g: 0, y: 0, h: 0, w: 0, x: 0 };
        let mut i: usize = 0;
        proof {
            lemma_no_occurrences(plant@.take(0), Gene::G);
            lemma_no_occurrences(plant@.take(0), Gene::Y);
            lemma_no_occurrences(plant@.take(0), Gene::H);
            lemma_no_occurrences(plant@.take(0), Gene::W);
            lemma_no_occurrences(plant@.take(0), Gene::X);
        }
        while i < 6
            invariant
                i <= 6,
                0 <= seen.g <= i,
                0 <= seen.y <= i,
                0 <= seen.h <= i,
                0 <= seen.w <= i,
                0 <= seen.x <= i,
                seen.g == occurrences(plant@.take(i as int), Gene::G),
                seen.y == occurrences(plant@.take(i as int), Gene::Y),
                seen.h == occurrences(plant@.take(i as int), Gene::H),
                seen.w == occurrences(plant@.take(i as int), Gene::W),
                seen.x == occurrences(plant@.take(i as int), Gene::X),
            decreases 6 - i,
        {
            proof {
                to_multiset_build(plant@.take(i as int), plant@[i as int]);
                assert(plant@.take(i + 1) =~= plant@.take(i as int).push(plant@[i as int]));
            }
            match plant[i] {
                Gene::G => seen.g += 1,
                Gene::Y => seen.y += 1,
                Gene::H => seen.h += 1,
                Gene::W => seen.w += 1,
                Gene::X => seen.x += 1,
            }
            i += 1;
        }
        proof {
            assert(plant@.take(6) =~= plant@);
            assert forall|gene: Gene| occurrences(plant@, gene) == #[trigger] seen.wanted(gene) by {
                match gene {
                    Gene::G => {},
                    Gene::Y => {},
                    Gene::H => {},
                    Gene::W => {},
                    Gene::X => {},
                }
            }
            if matches_goal(plant@, *self) {
                assert(self.wanted(Gene::G) == seen.g);
                assert(self.wanted(Gene::Y) == seen.y);
                assert(self.wanted(Gene::H) == seen.h);
                assert(self.wanted(Gene::W) == seen.w);
                assert(self.wanted(Gene::X) == seen.x);
            }
        }
        seen.g == self.g && seen.y == self.y && seen.h == self.h && seen.w == self.w && seen.x
            == self.x
    }
}

/// Two gene sequences that hold the same genes, in whatever order, meet the
/// same goals.
pub proof fn lemma_match_ignores_order(a: Seq<Gene>, b: Seq<Gene>, goal: GeneSet)
    requires
        a.to_multiset() == b.to_multiset(),
    ensures
        matches_goal(a, goal) == matches_goal(b, goal),
{
}

/// A plant meets a goal exactly when, for every gene, the plant's count of
/// that gene is the goal's.
pub proof fn lemma_match_is_count_equality(genes: Seq<Gene>, goal: GeneSet)
    ensures
        matches_goal(genes, goal) <==> (occurrences(genes, Gene::G) == goal.g && occurrences(
            genes,
            Gene::Y,
        ) == goal.y && occurrences(genes, Gene::H) == goal.h && occurrences(genes, Gene::W)
            == goal.w && occurrences(genes, Gene::X) == goal.x),
{
    if matches_goal(genes, goal) {
        assert(goal.wanted(Gene::G) == goal.g);
        assert(goal.wanted(Gene::Y) == goal.y);
        assert(goal.wanted(Gene::H) == goal.h);
        assert(goal.wanted(Gene::W) == goal.w);
        assert(goal.wanted(Gene::X) == goal.x);
    }
}

} // verus!
