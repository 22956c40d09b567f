//! The search for the four parents that most surely give a wanted child.

use crate::genome::{matches_goal, Gene, GeneSet};
use crate::offspring::{combine_genes, genomes, lemma_offspring_count, offspring};
use vstd::prelude::*;

verus! {

/// The size held while no crossing has been recorded: more than any four
/// parents can have children.
pub const NO_COMBO_SIZE: usize = 15626;

/// A crossing that gives a wanted child: the four parents, the first child
/// among their possible children that meets the goal, and how many possible
/// children there are. Each is taken to be as likely as any other, so the
/// wanted child comes with probability 1 / `size`.
#[derive(Debug, Copy, Clone, PartialEq, Eq)]
pub struct BestCombo {
    pub parents: [[Gene; 6]; 4],
    pub child: [Gene; 6],
    pub size: usize,
}

/// The place of the first of `children`, from place `from` on, that meets
/// `goal`; the length of `children` if none does.
pub open spec fn first_match_from(children: Seq<Seq<Gene>>, goal: GeneSet, from: int) -> int
    decreases children.len() - from,
{
    if from < 0 || from >= children.len() {
        children.len() as int
    } else if matches_goal(children[from], goal) {
        from
    } else {
        first_match_from(children, goal, from + 1)
    }
}

/// The place of the first of `children` that meets `goal`; their number if
/// none does.
pub open spec fn first_match(children: Seq<Seq<Gene>>, goal: GeneSet) -> int {
    first_match_from(children, goal, 0)
}

/// Whether one of `children` meets `goal`.
pub open spec fn has_match(children: Seq<Seq<Gene>>, goal: GeneSet) -> bool {
    first_match(children, goal) < children.len()
}

/// Whether `combo` records the crossing of `parents` for `goal`: those four
/// parents, their first possible child that meets the goal, and the number of
/// their possible children.
pub open spec fn records(combo: BestCombo, parents: Seq<Seq<Gene>>, goal: GeneSet) -> bool {
    let children = offspring(parents);
    &&& combo.parents@[0]@ == parents[0]
    &&& combo.parents@[1]@ == parents[1]
    &&& combo.parents@[2]@ == parents[2]
    &&& combo.parents@[3]@ == parents[3]
    &&& combo.child@ == children[first_match(children, goal)]
    &&& combo.size == children.len()
}

/// Four places in a pool of `n` plants, one for each parent.
pub open spec fn in_pool(t: (int, int, int, int), n: int) -> bool {
    0 <= t.0 < n && 0 <= t.1 < n && 0 <= t.2 < n && 0 <= t.3 < n
}

/// The order in which the search takes the crossings: the last parent varies
/// fastest.
pub open spec fn comes_before(s: (int, int, int, int), t: (int, int, int, int)) -> bool {
    s.0 < t.0 || (s.0 == t.0 && (s.1 < t.1 || (s.1 == t.1 && (s.2 < t.2 || (s.2 == t.2 && s.3
        < t.3)))))
}

/// The crossing that the search takes after `t` in a pool of `n` plants.
pub open spec fn successor(t: (int, int, int, int), n: int) -> (int, int, int, int) {
    if t.3 + 1 < n {
        (t.0, t.1, t.2, t.3 + 1)
    } else if t.2 + 1 < n {
        (t.0, t.1, t.2 + 1, 0)
    } else if t.1 + 1 < n {
        (t.0, t.1 + 1, 0, 0)
    } else {
        (t.0 + 1, 0, 0, 0)
    }
}

/// The four parents that stand at the places `t` of `pool`.
pub open spec fn parents_of(pool: Seq<Seq<Gene>>, t: (int, int, int, int)) -> Seq<Seq<Gene>> {
    seq![pool[t.0], pool[t.1], pool[t.2], pool[t.3]]
}

/// The possible children of the parents at the places `t`.
pub open spec fn children_of(pool: Seq<Seq<Gene>>, t: (int, int, int, int)) -> Seq<Seq<Gene>> {
    offspring(parents_of(pool, t))
}

/// Whether the parents at the places `t` can have a child that meets `goal`.
pub open spec fn succeeds(pool: Seq<Seq<Gene>>, goal: GeneSet, t: (int, int, int, int)) -> bool {
    has_match(children_of(pool, t), goal)
}

/// Whether the crossing `s` is to be preferred to `t`: it has fewer possible
/// children, or as many and the search takes it earlier.
pub open spec fn better(
    pool: Seq<Seq<Gene>>,
    s: (int, int, int, int),
    t: (int, int, int, int),
) -> bool {
    children_of(pool, s).len() < children_of(pool, t).len() || (children_of(pool, s).len()
        == children_of(pool, t).len() && comes_before(s, t))
}

/// Whether `best` is what the search holds when it reaches `cursor`: nothing
/// if no earlier crossing gives a wanted child, otherwise the earlier crossing
/// that does so and to which no other such crossing is preferred.
pub open spec fn best_before(
    pool: Seq<Seq<Gene>>,
    goal: GeneSet,
    best: Option<(int, int, int, int)>,
    cursor: (int, int, int, int),
) -> bool {
    match best {
        None => forall|t: (int, int, int, int)|
            in_pool(t, pool.len() as int) && comes_before(t, cursor) ==> !#[trigger] succeeds(
                pool,
                goal,
                t,
            ),
        Some(b) => {
            &&& in_pool(b, pool.len() as int)
            &&& comes_before(b, cursor)
            &&& succeeds(pool, goal, b)
            &&& forall|t: (int, int, int, int)|
                in_pool(t, pool.len() as int) && comes_before(t, cursor) && #[trigger] succeeds(
                    pool,
                    goal,
                    t,
                ) ==> !better(pool, t, b)
        },
    }
}

/// Whether `t` is the crossing to choose from `pool` for `goal`: it gives a
/// wanted child, no crossing that does so has fewer possible children, and of
/// those with as many it is the one that the search takes first.
pub open spec fn is_best(pool: Seq<Seq<Gene>>, goal: GeneSet, t: (int, int, int, int)) -> bool {
    &&& in_pool(t, pool.len() as int)
    &&& succeeds(pool, goal, t)
    &&& forall|s: (int, int, int, int)|
        in_pool(s, pool.len() as int) && #[trigger] succeeds(pool, goal, s) ==> !better(
            pool,
            s,
            t,
        )
}

/// The size that the search holds with `best`.
pub open spec fn size_held(pool: Seq<Seq<Gene>>, best: Option<(int, int, int, int)>) -> int {
    match best {
        None => NO_COMBO_SIZE as int,
        Some(b) => children_of(pool, b).len() as int,
    }
}

/// What the search holds after it has also taken the crossing `cursor`.
pub open spec fn best_after(
    pool: Seq<Seq<Gene>>,
    goal: GeneSet,
    best: Option<(int, int, int, int)>,
    cursor: (int, int, int, int),
) -> Option<(int, int, int, int)> {
    if succeeds(pool, goal, cursor) && children_of(pool, cursor).len() < size_held(pool, best) {
        Some(cursor)
    } else {
        best
    }
}

/// The first of `children` that meets `goal`, by its place.
pub fn find_match(goal: &GeneSet, children: &Vec<[Gene; 6]>) -> (r: Option<usize>)
    ensures
        match r {
            Some(i) => i < children@.len() && i == first_match(genomes(children@), *goal),
            None => !has_match(genomes(children@), *goal),
        },
{
    let mut i: usize = 0;
    while i < children.len()
        invariant
            i <= children@.len(),
            first_match(genomes(children@), *goal) == first_match_from(
                genomes(children@),
                *goal,
                i as int,
            ),
        decreases children@.len() - i,
    {
        if goal.plant_matches(&children[i]) {
            return Some(i);
        }
        i += 1;
    }
    None
}

/// What a search holds between two crossings: the best crossing so far, if
/// any, and the number of its possible children.
#[derive(Debug, Copy, Clone)]
pub struct Search {
    pub best_combo: Option<BestCombo>,
    pub best_combo_size: usize,
}

impl Search {
    /// The size held is that of the crossing held, or `NO_COMBO_SIZE` with none.
    pub open spec fn wf(&self) -> bool {
        match self.best_combo {
            None => self.best_combo_size == NO_COMBO_SIZE,
            Some(combo) => self.best_combo_size == combo.size && 1 <= combo.size <= 15625,
        }
    }

    /// A search that has taken no crossing yet.
    pub fn new() -> (r: Search)
        ensures
            r.wf(),
            r.best_combo is None,
    {
        Search { best_combo: None, best_combo_size: NO_COMBO_SIZE }
    }

    /// Takes the crossing of four parents into the search. The crossing is
    /// recorded only if it gives a child that meets `goal` and has fewer
    /// possible children than the size held; otherwise nothing changes. The
    /// size held never grows. The result says that the search is over: a
    /// crossing was recorded whose only possible child meets the goal.
    pub fn consider(
        &mut self,
        goal: &GeneSet,
        plant1: &[Gene; 6],
        plant2: &[Gene; 6],
        plant3: &[Gene; 6],
        plant4: &[Gene; 6],
    ) -> (done: bool)
        requires
            old(self).wf(),
        ensures
            final(self).wf(),
            final(self).best_combo_size <= old(self).best_combo_size,
            ({
                let parents = seq![plant1@, plant2@, plant3@, plant4@];
                let children = offspring(parents);
                if has_match(children, *goal) && children.len() < old(self).best_combo_size {
                    &&& final(self).best_combo is Some
                    &&& records(final(self).best_combo->0, parents, *goal)
                    &&& done == (children.len() == 1)
                } else {
                    &&& *final(self) == *old(self)
                    &&& !done
                }
            }),
    {
        let parents = vec![*plant1, *plant2, *plant3, *plant4];
        proof {
            assert(genomes(parents@) =~= seq![plant1@, plant2@, plant3@, plant4@]);
        }
        let possible_children = combine_genes(&parents);
        proof {
            assert(genomes(possible_children@).len() == possible_children@.len());
        }
        if possible_children.len() < self.best_combo_size {
            match find_match(goal, &possible_children) {
                Some(i) => {
                    self.best_combo = Some(
                        BestCombo {
                            parents: [*plant1, *plant2, *plant3, *plant4],
                            child: possible_children[i],
                            size: possible_children.len(),
                        },
                    );
                    self.best_combo_size = possible_children.len();
                    return possible_children.len() == 1;
                },
                None => {},
            }
        }
        false
    }
}

/// The four parents from `plants`, one plant taken as often as wanted, whose
/// possible children include one that meets `goal` and are fewest; of several
/// such crossings the first in the order of the search. Nothing if no
/// crossing gives such a child.
pub fn crossbreed_generation(goal: &GeneSet, plants: &Vec<[Gene; 6]>) -> (r: Option<BestCombo>)
    ensures
        plants@.len() == 0 ==> r is None,
        r is None <==> forall|t: (int, int, int, int)|
            in_pool(t, plants@.len() as int) ==> !#[trigger] succeeds(genomes(plants@), *goal, t),
        match r {
            None => forall|t: (int, int, int, int)|
                in_pool(t, plants@.len() as int) ==> !#[trigger] succeeds(
                    genomes(plants@),
                    *goal,
                    t,
                ),
            Some(combo) => exists|t: (int, int, int, int)|
                #[trigger] is_best(genomes(plants@), *goal, t) && records(
                    combo,
                    parents_of(genomes(plants@), t),
                    *goal,
                ),
        },
{
    let n = plants.len();
    let mut search = Search::new();
    let ghost pool = genomes(plants@);
    let ghost mut best: Option<(int, int, int, int)> = None;
    if n == 0 {
        return None;
    }
    let mut a: usize = 0;
    let mut b: usize = 0;
    let mut c: usize = 0;
    let mut d: usize = 0;
    while a < n
        invariant
            n == plants@.len(),
            n > 0,
            pool == genomes(plants@),
            a <= n,
            b < n,
            c < n,
            d < n,
            search.wf(),
            best_before(pool, *goal, best, (a as int, b as int, c as int, d as int)),
            search.best_combo_size == size_held(pool, best),
            match best {
                None => search.best_combo is None,
                Some(t) => search.best_combo is Some && records(
                    search.best_combo->0,
                    parents_of(pool, t),
                    *goal,
                ),
            },
        decreases n - a, n - b, n - c, n - d,
    {
        let ghost cursor = (a as int, b as int, c as int, d as int);
        proof {
            assert(parents_of(pool, cursor) =~= seq![
                plants@[a as int]@,
                plants@[b as int]@,
                plants@[c as int]@,
                plants@[d as int]@,
            ]);
        }
        let done = search.consider(goal, &plants[a], &plants[b], &plants[c], &plants[d]);
        proof {
            lemma_search_step(pool, *goal, best, cursor);
            best = best_after(pool, *goal, best, cursor);
        }
        if done {
            proof {
                lemma_single_child_is_best(pool, *goal, best, cursor);
            }
            return search.best_combo;
        }
        d += 1;
        if d == n {
            d = 0;
            c += 1;
            if c == n {
                c = 0;
                b += 1;
                if b == n {
                    b = 0;
                    a += 1;
                }
            }
        }
    }
    proof {
        lemma_search_end(pool, *goal, best, (a as int, b as int, c as int, d as int));
    }
    search.best_combo
}

/// One step of the search keeps what it holds right: after the crossing
/// `cursor`, `best_after` is the best of what came before the next crossing.
pub proof fn lemma_search_step(
    pool: Seq<Seq<Gene>>,
    goal: GeneSet,
    best: Option<(int, int, int, int)>,
    cursor: (int, int, int, int),
)
    requires
        in_pool(cursor, pool.len() as int),
        best_before(pool, goal, best, cursor),
    ensures
        best_before(
            pool,
            goal,
            best_after(pool, goal, best, cursor),
            successor(cursor, pool.len() as int),
        ),
{
    let n = pool.len() as int;
    let next = successor(cursor, n);
    let after = best_after(pool, goal, best, cursor);
    lemma_offspring_count(parents_of(pool, cursor));
    assert forall|t: (int, int, int, int)| in_pool(t, n) && comes_before(t, next) implies (
    comes_before(t, cursor) || t == cursor) by {}
    assert(comes_before(cursor, next));
    match after {
        None => {
            assert forall|t: (int, int, int, int)|
                in_pool(t, n) && comes_before(t, next) implies !#[trigger] succeeds(
                pool,
                goal,
                t,
            ) by {}
        },
        Some(chosen) => {
            assert forall|t: (int, int, int, int)|
                in_pool(t, n) && comes_before(t, next) && #[trigger] succeeds(
                    pool,
                    goal,
                    t,
                ) implies !better(pool, t, chosen) by {}
        },
    }
}

/// When every crossing has been taken, what the search holds is the crossing
/// to choose, or nothing where no crossing gives a wanted child.
pub proof fn lemma_search_end(
    pool: Seq<Seq<Gene>>,
    goal: GeneSet,
    best: Option<(int, int, int, int)>,
    cursor: (int, int, int, int),
)
    requires
        cursor.0 >= pool.len(),
        best_before(pool, goal, best, cursor),
    ensures
        match best {
            None => forall|t: (int, int, int, int)|
                in_pool(t, pool.len() as int) ==> !#[trigger] succeeds(pool, goal, t),
            Some(chosen) => is_best(pool, goal, chosen),
        },
{
    let n = pool.len() as int;
    assert forall|t: (int, int, int, int)| in_pool(t, n) implies comes_before(t, cursor) by {}
}

/// A crossing recorded with a single possible child ends the search: no
/// crossing has fewer possible children, and none with one child that gives
/// the wanted child came earlier.
pub proof fn lemma_single_child_is_best(
    pool: Seq<Seq<Gene>>,
    goal: GeneSet,
    best: Option<(int, int, int, int)>,
    cursor: (int, int, int, int),
)
    requires
        in_pool(cursor, pool.len() as int),
        best == Some(cursor),
        best_before(pool, goal, best, successor(cursor, pool.len() as int)),
        children_of(pool, cursor).len() == 1,
    ensures
        is_best(pool, goal, cursor),
{
    let n = pool.len() as int;
    let next = successor(cursor, n);
    assert forall|s: (int, int, int, int)|
        in_pool(s, n) && #[trigger] succeeds(pool, goal, s) implies !better(pool, s, cursor) by {
        lemma_offspring_count(parents_of(pool, s));
        if !comes_before(s, next) {
            assert(!comes_before(s, cursor));
        }
    }
}

/// The first match is the first: it lies within the children or just behind
/// them, no child before it meets the goal, and the child at it does.
pub proof fn lemma_first_match_from(children: Seq<Seq<Gene>>, goal: GeneSet, from: int)
    requires
        0 <= from <= children.len(),
    ensures
        from <= first_match_from(children, goal, from) <= children.len(),
        forall|k: int|
            from <= k < first_match_from(children, goal, from) ==> !matches_goal(
                #[trigger] children[k],
                goal,
            ),
        first_match_from(children, goal, from) < children.len() ==> matches_goal(
            children[first_match_from(children, goal, from)],
            goal,
        ),
    decreases children.len() - from,
{
    if from < children.len() && !matches_goal(children[from], goal) {
        lemma_first_match_from(children, goal, from + 1);
    }
}

/// Some child meets the goal exactly when the first match lies within the
/// children.
pub proof fn lemma_has_match(children: Seq<Seq<Gene>>, goal: GeneSet)
    ensures
        has_match(children, goal) <==> exists|k: int|
            0 <= k < children.len() && matches_goal(#[trigger] children[k], goal),
{
    lemma_first_match_from(children, goal, 0);
    if has_match(children, goal) {
        let k = first_match(children, goal);
        assert(0 <= k < children.len() && matches_goal(children[k], goal));
    }
}

/// The crossing chosen never has more possible children than any crossing
/// that gives a wanted child, the first such crossing among them.
pub proof fn lemma_best_has_fewest_children(
    pool: Seq<Seq<Gene>>,
    goal: GeneSet,
    best: (int, int, int, int),
    t: (int, int, int, int),
)
    requires
        is_best(pool, goal, best),
        in_pool(t, pool.len() as int),
        succeeds(pool, goal, t),
    ensures
        children_of(pool, best).len() <= children_of(pool, t).len(),
{
}

/// Where some crossing has a single possible child and that child meets the
/// goal, the crossing chosen is the first such one: its wanted child is
/// certain.
pub proof fn lemma_certain_child_is_chosen(
    pool: Seq<Seq<Gene>>,
    goal: GeneSet,
    best: (int, int, int, int),
    t: (int, int, int, int),
)
    requires
        is_best(pool, goal, best),
        in_pool(t, pool.len() as int),
        succeeds(pool, goal, t),
        children_of(pool, t).len() == 1,
    ensures
        children_of(pool, best).len() == 1,
        !comes_before(t, best),
{
    lemma_offspring_count(parents_of(pool, best));
}

/// Only one crossing can be the one to choose.
pub proof fn lemma_best_is_unique(
    pool: Seq<Seq<Gene>>,
    goal: GeneSet,
    s: (int, int, int, int),
    t: (int, int, int, int),
)
    requires
        is_best(pool, goal, s),
        is_best(pool, goal, t),
    ensures
        s == t,
{
}

/// The size that the search holds never grows from one crossing to the
/// next, and what the search holds changes only for a crossing with fewer
/// possible children than the size held.
pub proof fn lemma_size_held_never_grows(
    pool: Seq<Seq<Gene>>,
    goal: GeneSet,
    best: Option<(int, int, int, int)>,
    cursor: (int, int, int, int),
)
    ensures
        size_held(pool, best_after(pool, goal, best, cursor)) <= size_held(pool, best),
        best_after(pool, goal, best, cursor) != best ==> size_held(
            pool,
            best_after(pool, goal, best, cursor),
        ) < size_held(pool, best),
{
}

} // verus!
