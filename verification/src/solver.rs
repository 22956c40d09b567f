//! From a goal and a text of plants, one plant to a line, to the best crossing.

use crate::genome::{Gene, GeneSet};
use crate::offspring::genomes;
use crate::search::{
    crossbreed_generation, in_pool, is_best, parents_of, records, succeeds, BestCombo,
};
use vstd::prelude::*;
use vstd::string::StrSliceExecFns;

verus! {

/// What `solve` found.
#[derive(Debug, Clone, PartialEq, Eq)]
pub enum Solution {
    /// The five counts of the goal do not add up to six.
    BadGoal,
    /// A line of the text, held here in upper case, is not six genes.
    InvalidGeneSet(String),
    /// No four plants of the text can have a child that meets the goal.
    Unsolvable,
    /// The crossing to choose.
    Solved(BestCombo),
}

/// The lines of a text, as `str::lines` of the standard library gives them.
pub uninterp spec fn lines_of(text: Seq<char>) -> Seq<Seq<char>>;

/// Whether the regular expression `pattern`, as the crate `regex` reads it,
/// matches somewhere in `text`; `None` where `regex` does not accept `pattern`.
pub uninterp spec fn regex_match(pattern: Seq<char>, text: Seq<char>) -> Option<bool>;

/// The pattern that a line in upper case has to match.
pub open spec fn gene_pattern() -> Seq<char> {
    "^[GYHWX]{6}$"@
}

/// A letter from `a` to `z` as its capital, any other character as it is.
pub open spec fn upper_char(c: char) -> char {
    if 'a' <= c && c <= 'z' {
        ((c as u32) - 32) as char
    } else {
        c
    }
}

/// A text with each letter from `a` to `z` as its capital.
pub open spec fn upper(text: Seq<char>) -> Seq<char> {
    Seq::new(text.len(), |i: int| upper_char(text[i]))
}

/// The gene that a capital letter stands for.
pub open spec fn gene_of(c: char) -> Option<Gene> {
    if c == 'G' {
        Some(Gene::G)
    } else if c == 'Y' {
        Some(Gene::Y)
    } else if c == 'H' {
        Some(Gene::H)
    } else if c == 'W' {
        Some(Gene::W)
    } else if c == 'X' {
        Some(Gene::X)
    } else {
        None
    }
}

/// Whether a text is six letters that each stand for a gene.
pub open spec fn is_gene_text(text: Seq<char>) -> bool {
    text.len() == 6 && forall|i: int| 0 <= i < 6 ==> (#[trigger] gene_of(text[i])) is Some
}

/// The genes that the letters of a text stand for.
pub open spec fn genes_of(text: Seq<char>) -> Seq<Gene> {
    Seq::new(text.len(), |i: int| gene_of(text[i])->0)
}

/// Whether a line gives a plant: in upper case it matches the pattern and is
/// six letters that each stand for a gene.
pub open spec fn valid_line(line: Seq<char>) -> bool {
    regex_match(gene_pattern(), upper(line)) == Some(true) && is_gene_text(upper(line))
}

/// The place of the first line, from place `from` on, that gives no plant;
/// the number of lines if each gives one.
pub open spec fn first_invalid_from(lines: Seq<Seq<char>>, from: int) -> int
    decreases lines.len() - from,
{
    if from < 0 || from >= lines.len() {
        lines.len() as int
    } else if !valid_line(lines[from]) {
        from
    } else {
        first_invalid_from(lines, from + 1)
    }
}

/// `pool` with `plant` behind it, unless `pool` holds it already.
pub open spec fn with_plant(pool: Seq<Seq<Gene>>, plant: Seq<Gene>) -> Seq<Seq<Gene>> {
    if pool.contains(plant) {
        pool
    } else {
        pool.push(plant)
    }
}

/// The plants that the first `count` lines give, each once, in the order in
/// which they first occur.
pub open spec fn pool_of(lines: Seq<Seq<char>>, count: nat) -> Seq<Seq<Gene>>
    decreases count,
{
    if count == 0 {
        Seq::empty()
    } else {
        with_plant(pool_of(lines, (count - 1) as nat), genes_of(upper(lines[count - 1])))
    }
}

/// Whether the five counts of a goal add up to six.
pub open spec fn adds_up(g: i32, y: i32, h: i32, w: i32, x: i32) -> bool {
    g + y + h + w + x == 6
}

/// Calls `str::lines`, which cuts a text at its line ends and hands out the
/// lines without them. The lines come back as owned strings; they are a
/// function of the text alone.
#[verifier::external_body]
fn text_lines(text: &str) -> (r: Vec<String>)
    ensures
        r@.len() == lines_of(text@).len(),
        forall|i: int| 0 <= i < r@.len() ==> (#[trigger] r@[i])@ == lines_of(text@)[i],
{
    text.lines().map(|line| line.to_string()).collect()
}

/// Calls `str::to_ascii_uppercase`, which maps the letters `a` to `z` to `A`
/// to `Z` and leaves every other character as it is.
#[verifier::external_body]
fn ascii_uppercase(text: &str) -> (r: String)
    ensures
        r@ == upper(text@),
{
    text.to_ascii_uppercase()
}

/// Calls `regex::Regex::new` on `pattern` and, where that gives a regular
/// expression, `regex::Regex::is_match` of it on `text`. The answer is a
/// function of the two texts alone; nothing more is claimed of it.
#[verifier::external_body]
fn pattern_matches(pattern: &str, text: &str) -> (r: Option<bool>)
    ensures
        r == regex_match(pattern@, text@),
{
    match regex::Regex::new(pattern) {
        Ok(re) => Some(re.is_match(text)),
        Err(_) => None,
    }
}

/// The gene that a capital letter stands for.
pub fn parse_gene(c: char) -> (r: Option<Gene>)
    ensures
        r == gene_of(c),
{
    if c == 'G' {
        Some(Gene::G)
    } else if c == 'Y' {
        Some(Gene::Y)
    } else if c == 'H' {
        Some(Gene::H)
    } else if c == 'W' {
        Some(Gene::W)
    } else if c == 'X' {
        Some(Gene::X)
    } else {
        None
    }
}

/// The plant that `text` spells, given what the pattern said of `text`:
/// a plant only where the pattern matched and `text` is six letters that each
/// stand for a gene.
pub fn decode_plant(text: &str, accepted: Option<bool>) -> (r: Option<[Gene; 6]>)
    ensures
        r is Some <==> accepted == Some(true) && is_gene_text(text@),
        r is Some ==> r->0@ == genes_of(text@),
{
    match accepted {
        Some(true) => {},
        _ => {
            return None;
        },
    }
    if text.unicode_len() != 6 {
        return None;
    }
    let mut new_plant = [Gene::X; 6];
    let mut i: usize = 0;
    while i < 6
        invariant
            i <= 6,
            text@.len() == 6,
            forall|k: int| 0 <= k < i ==> #[trigger] gene_of(text@[k]) == Some(new_plant@[k]),
        decreases 6 - i,
    {
        match parse_gene(text.get_char(i)) {
            Some(gene) => {
                new_plant[i] = gene;
            },
            None => {
                return None;
            },
        }
        i += 1;
    }
    proof {
        assert(new_plant@ =~= genes_of(text@));
    }
    Some(new_plant)
}

/// The plant that a line gives; for a line that gives none, the line in upper
/// case.
pub fn parse_line(line: &str) -> (r: Result<[Gene; 6], String>)
    ensures
        match r {
            Ok(plant) => valid_line(line@) && plant@ == genes_of(upper(line@)),
            Err(text) => !valid_line(line@) && text@ == upper(line@),
        },
{
    let text = ascii_uppercase(line);
    let accepted = pattern_matches("^[GYHWX]{6}$", text.as_str());
    match decode_plant(text.as_str(), accepted) {
        Some(plant) => Ok(plant),
        None => Err(text),
    }
}

/// Whether two plants hold the same genes at every locus.
pub fn same_plant(a: &[Gene; 6], b: &[Gene; 6]) -> (r: bool)
    ensures
        r == (a@ == b@),
{
    let mut i: usize = 0;
    while i < 6
        invariant
            i <= 6,
            forall|k: int| 0 <= k < i ==> a@[k] == b@[k],
        decreases 6 - i,
    {
        if a[i] != b[i] {
            return false;
        }
        i += 1;
    }
    proof {
        assert(a@ =~= b@);
    }
    true
}

/// Puts `plant` behind the plants of `pool`, unless `pool` holds it already.
pub fn insert_plant(pool: &mut Vec<[Gene; 6]>, plant: [Gene; 6])
    ensures
        genomes(final(pool)@) == with_plant(genomes(old(pool)@), plant@),
        genomes(old(pool)@).no_duplicates() ==> genomes(final(pool)@).no_duplicates(),
{
    let ghost before = genomes(pool@);
    let mut k: usize = 0;
    while k < pool.len()
        invariant
            k <= pool@.len(),
            before == genomes(pool@),
            forall|m: int| 0 <= m < k ==> before[m] != plant@,
        decreases pool@.len() - k,
    {
        if same_plant(&pool[k], &plant) {
            proof {
                assert(before[k as int] == plant@);
            }
            return ;
        }
        k += 1;
    }
    pool.push(plant);
    proof {
        assert(genomes(pool@) =~= before.push(plant@));
    }
}

/// The plants that the lines give, each once, in the order in which they
/// first occur; for lines of which one gives no plant, the first such line in
/// upper case.
pub fn parse_plants(lines: &Vec<String>) -> (r: Result<Vec<[Gene; 6]>, String>)
    ensures
        match r {
            Ok(pool) => {
                &&& first_invalid_from(line_texts(lines@), 0) == lines@.len()
                &&& genomes(pool@) == pool_of(line_texts(lines@), lines@.len())
                &&& genomes(pool@).no_duplicates()
            },
            Err(text) => {
                let at = first_invalid_from(line_texts(lines@), 0);
                &&& 0 <= at < lines@.len()
                &&& text@ == upper(lines@[at]@)
            },
        },
{
    let ghost texts = line_texts(lines@);
    let mut plants: Vec<[Gene; 6]> = Vec::new();
    let mut i: usize = 0;
    proof {
        assert(genomes(plants@) =~= pool_of(texts, 0));
    }
    while i < lines.len()
        invariant
            i <= lines@.len(),
            texts == line_texts(lines@),
            first_invalid_from(texts, 0) == first_invalid_from(texts, i as int),
            genomes(plants@) == pool_of(texts, i as nat),
            genomes(plants@).no_duplicates(),
        decreases lines@.len() - i,
    {
        match parse_line(lines[i].as_str()) {
            Ok(plant) => {
                insert_plant(&mut plants, plant);
            },
            Err(text) => {
                return Err(text);
            },
        }
        i += 1;
    }
    Ok(plants)
}

/// The lines of a list of strings, each as its characters.
pub open spec fn line_texts(lines: Seq<String>) -> Seq<Seq<char>> {
    Seq::new(lines.len(), |i: int| lines[i]@)
}

/// What `solve` gives for a goal and the lines of a text.
pub open spec fn solution_for(goal: GeneSet, lines: Seq<Seq<char>>, r: Solution) -> bool {
    let at = first_invalid_from(lines, 0);
    let pool = pool_of(lines, lines.len());
    if !adds_up(goal.g, goal.y, goal.h, goal.w, goal.x) {
        r is BadGoal
    } else if at < lines.len() {
        r is InvalidGeneSet && r->InvalidGeneSet_0@ == upper(lines[at])
    } else {
        match r {
            Solution::Unsolvable => forall|t: (int, int, int, int)|
                in_pool(t, pool.len() as int) ==> !#[trigger] succeeds(pool, goal, t),
            Solution::Solved(combo) => exists|t: (int, int, int, int)|
                #[trigger] is_best(pool, goal, t) && records(combo, parents_of(pool, t), goal),
            _ => false,
        }
    }
}

/// The best crossing for a goal among the plants that the lines give, as
/// `solve` reports it.
pub fn solve_lines(goal: &GeneSet, lines: &Vec<String>) -> (r: Solution)
    ensures
        solution_for(*goal, line_texts(lines@), r),
{
    let sum: i64 = goal.g as i64 + goal.y as i64 + goal.h as i64 + goal.w as i64 + goal.x as i64;
    if sum != 6 {
        return Solution::BadGoal;
    }
    match parse_plants(lines) {
        Err(text) => Solution::InvalidGeneSet(text),
        Ok(plants) => {
            match crossbreed_generation(goal, &plants) {
                Some(combo) => Solution::Solved(combo),
                None => Solution::Unsolvable,
            }
        },
    }
}

/// The best crossing for the goal of `g`, `y`, `h`, `w` and `x` genes among
/// the plants of `plant_txt`, one plant to a line, in capitals or not. A goal
/// that does not add up to six is refused first, then the first line that is
/// not six genes.
pub fn solve(g: i32, y: i32, h: i32, w: i32, x: i32, plant_txt: &str) -> (r: Solution)
    ensures
        solution_for((GeneSet { g, y, h, w, x }), lines_of(plant_txt@), r),
{
    let goal = GeneSet { g, y, h, w, x };
    let lines = text_lines(plant_txt);
    proof {
        assert(line_texts(lines@) =~= lines_of(plant_txt@));
    }
    solve_lines(&goal, &lines)
}

} // verus!
