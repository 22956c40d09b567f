use crossbreed::genome::{Gene, GeneSet};
use crossbreed::search::{crossbreed_generation, find_match, BestCombo, Search, NO_COMBO_SIZE};
use crossbreed::solver::{
    decode_plant, insert_plant, parse_gene, parse_line, parse_plants, same_plant, solve,
    solve_lines, Solution,
};

const G: Gene = Gene::G;
const Y: Gene = Gene::Y;
const H: Gene = Gene::H;
const W: Gene = Gene::W;
const X: Gene = Gene::X;

fn goal(g: i32, y: i32, h: i32, w: i32, x: i32) -> GeneSet {
    GeneSet { g, y, h, w, x }
}

#[test]
fn find_match_gives_the_first_match() {
    let children = vec![[G; 6], [G, G, G, Y, Y, Y], [Y; 6], [Y, Y, Y, G, G, G]];
    assert_eq!(find_match(&goal(3, 3, 0, 0, 0), &children), Some(1));
    assert_eq!(find_match(&goal(0, 6, 0, 0, 0), &children), Some(2));
    assert_eq!(find_match(&goal(0, 0, 6, 0, 0), &children), None);
    assert_eq!(find_match(&goal(6, 0, 0, 0, 0), &Vec::new()), None);
}

#[test]
fn a_new_search_holds_nothing() {
    let search = Search::new();
    assert_eq!(search.best_combo, None);
    assert_eq!(search.best_combo_size, NO_COMBO_SIZE);
    assert_eq!(NO_COMBO_SIZE, 15626);
}

#[test]
fn consider_records_only_a_strict_improvement() {
    let wanted = goal(0, 6, 0, 0, 0);
    let g = [G; 6];
    let y = [Y; 6];
    let mut search = Search::new();

    assert!(!search.consider(&wanted, &g, &g, &g, &g));
    assert_eq!(search.best_combo, None);
    assert_eq!(search.best_combo_size, 15626);

    assert!(!search.consider(&wanted, &g, &g, &y, &y));
    let first = BestCombo { parents: [g, g, y, y], child: y, size: 64 };
    assert_eq!(search.best_combo, Some(first));
    assert_eq!(search.best_combo_size, 64);

    assert!(!search.consider(&wanted, &g, &y, &g, &y));
    assert_eq!(search.best_combo, Some(first));
    assert_eq!(search.best_combo_size, 64);

    assert!(search.consider(&wanted, &g, &y, &y, &y));
    let second = BestCombo { parents: [g, y, y, y], child: y, size: 1 };
    assert_eq!(search.best_combo, Some(second));
    assert_eq!(search.best_combo_size, 1);

    assert!(!search.consider(&wanted, &y, &y, &y, &y));
    assert_eq!(search.best_combo, Some(second));
    assert_eq!(search.best_combo_size, 1);
}

#[test]
fn consider_never_lets_the_size_grow() {
    let wanted = goal(3, 3, 0, 0, 0);
    let pool = [[G; 6], [Y; 6], [G, G, G, Y, Y, Y], [W; 6]];
    let mut search = Search::new();
    let mut last = search.best_combo_size;
    for a in pool.iter() {
        for b in pool.iter() {
            for c in pool.iter() {
                for d in pool.iter() {
                    let before = search.best_combo;
                    search.consider(&wanted, a, b, c, d);
                    assert!(search.best_combo_size <= last);
                    if search.best_combo != before {
                        assert!(search.best_combo_size < last);
                    }
                    last = search.best_combo_size;
                }
            }
        }
    }
    assert_eq!(last, 1);
}

#[test]
fn all_of_one_gene_from_a_single_plant() {
    let found = crossbreed_generation(&goal(6, 0, 0, 0, 0), &vec![[G; 6]]);
    assert_eq!(found, Some(BestCombo { parents: [[G; 6]; 4], child: [G; 6], size: 1 }));
    assert_eq!(
        solve(6, 0, 0, 0, 0, "GGGGGG"),
        Solution::Solved(BestCombo { parents: [[G; 6]; 4], child: [G; 6], size: 1 })
    );
}

#[test]
fn a_gene_that_no_parent_holds_cannot_be_bred() {
    assert_eq!(crossbreed_generation(&goal(0, 0, 0, 6, 0), &vec![[G; 6]]), None);
    assert_eq!(solve(0, 0, 0, 6, 0, "GGGGGG"), Solution::Unsolvable);
}

#[test]
fn good_and_bad_genes_never_tie_among_four_parents() {
    let pool = vec![[G; 6], [W; 6]];
    assert_eq!(crossbreed_generation(&goal(3, 0, 0, 3, 0), &pool), None);
    assert_eq!(solve(3, 0, 0, 3, 0, "GGGGGG\nWWWWWW"), Solution::Unsolvable);
}

#[test]
fn an_empty_pool_has_no_solution() {
    assert_eq!(crossbreed_generation(&goal(6, 0, 0, 0, 0), &Vec::new()), None);
    assert_eq!(solve(6, 0, 0, 0, 0, ""), Solution::Unsolvable);
}

#[test]
fn the_first_of_equal_crossings_and_its_first_matching_child_win() {
    let pool = vec![[G; 6], [Y; 6]];
    let found = crossbreed_generation(&goal(3, 3, 0, 0, 0), &pool);
    assert_eq!(
        found,
        Some(BestCombo {
            parents: [[G; 6], [G; 6], [Y; 6], [Y; 6]],
            child: [Y, Y, Y, G, G, G],
            size: 64,
        })
    );
}

#[test]
fn a_certain_child_ends_the_search_at_once() {
    let pool = vec![[G; 6], [Y; 6]];
    let found = crossbreed_generation(&goal(0, 6, 0, 0, 0), &pool);
    assert_eq!(
        found,
        Some(BestCombo { parents: [[G; 6], [Y; 6], [Y; 6], [Y; 6]], child: [Y; 6], size: 1 })
    );
}

#[test]
fn a_smaller_later_crossing_replaces_a_larger_earlier_one() {
    let mixed = [G, G, G, Y, Y, Y];
    let pool = vec![[G; 6], [Y; 6], mixed];
    let found = crossbreed_generation(&goal(3, 3, 0, 0, 0), &pool);
    assert_eq!(
        found,
        Some(BestCombo { parents: [[G; 6], [Y; 6], mixed, mixed], child: mixed, size: 1 })
    );
}

#[test]
fn three_genes_never_tie_at_a_locus_of_four_parents() {
    let pool = vec![[G, G, G, G, G, H], [Y, Y, Y, Y, Y, H], [H; 6]];
    assert_eq!(crossbreed_generation(&goal(2, 2, 2, 0, 0), &pool), None);
}

#[test]
fn parse_gene_reads_the_five_capitals() {
    assert_eq!(parse_gene('G'), Some(G));
    assert_eq!(parse_gene('Y'), Some(Y));
    assert_eq!(parse_gene('H'), Some(H));
    assert_eq!(parse_gene('W'), Some(W));
    assert_eq!(parse_gene('X'), Some(X));
    assert_eq!(parse_gene('g'), None);
    assert_eq!(parse_gene('A'), None);
}

#[test]
fn decode_plant_needs_the_pattern_to_have_matched() {
    assert_eq!(decode_plant("GYHWXG", Some(true)), Some([G, Y, H, W, X, G]));
    assert_eq!(decode_plant("GYHWXG", Some(false)), None);
    assert_eq!(decode_plant("GYHWXG", None), None);
    assert_eq!(decode_plant("GYHWX", Some(true)), None);
    assert_eq!(decode_plant("GYHWXGG", Some(true)), None);
    assert_eq!(decode_plant("GYHWXA", Some(true)), None);
    assert_eq!(decode_plant("gyhwxg", Some(true)), None);
}

#[test]
fn parse_line_takes_either_case() {
    assert_eq!(parse_line("GYHWXG"), Ok([G, Y, H, W, X, G]));
    assert_eq!(parse_line("gyhwxg"), Ok([G, Y, H, W, X, G]));
    assert_eq!(parse_line("gYhWxG"), Ok([G, Y, H, W, X, G]));
}

#[test]
fn parse_line_refuses_what_is_not_six_genes() {
    assert_eq!(parse_line("ggggg"), Err("GGGGG".to_string()));
    assert_eq!(parse_line("GGGGGGG"), Err("GGGGGGG".to_string()));
    assert_eq!(parse_line("gggggA"), Err("GGGGGA".to_string()));
    assert_eq!(parse_line(""), Err(String::new()));
    assert_eq!(parse_line(" GGGGGG"), Err(" GGGGGG".to_string()));
    assert_eq!(parse_line("GGGGGG\n"), Err("GGGGGG\n".to_string()));
}

#[test]
fn same_plant_compares_every_locus() {
    assert!(same_plant(&[G, Y, H, W, X, G], &[G, Y, H, W, X, G]));
    assert!(!same_plant(&[G, Y, H, W, X, G], &[G, Y, H, W, X, Y]));
    assert!(!same_plant(&[G, Y, H, W, X, G], &[Y, Y, H, W, X, G]));
}

#[test]
fn insert_plant_keeps_each_plant_once() {
    let mut pool = Vec::new();
    insert_plant(&mut pool, [G; 6]);
    insert_plant(&mut pool, [Y; 6]);
    insert_plant(&mut pool, [G; 6]);
    insert_plant(&mut pool, [G, G, G, G, G, Y]);
    insert_plant(&mut pool, [Y; 6]);
    assert_eq!(pool, vec![[G; 6], [Y; 6], [G, G, G, G, G, Y]]);
}

#[test]
fn parse_plants_drops_repeated_lines() {
    let lines = vec!["GGGGGG".to_string(), "yyyyyy".to_string(), "gggggg".to_string()];
    assert_eq!(parse_plants(&lines), Ok(vec![[G; 6], [Y; 6]]));
    assert_eq!(parse_plants(&Vec::new()), Ok(Vec::new()));
}

#[test]
fn parse_plants_reports_the_first_bad_line() {
    let lines =
        vec!["GGGGGG".to_string(), "yyyy".to_string(), "GGGGGG".to_string(), "abc".to_string()];
    assert_eq!(parse_plants(&lines), Err("YYYY".to_string()));
}

#[test]
fn solve_refuses_a_goal_that_does_not_add_up() {
    assert_eq!(solve(1, 1, 1, 1, 1, "GGGGGG"), Solution::BadGoal);
    assert_eq!(solve(7, 0, 0, 0, 0, "GGGGGG"), Solution::BadGoal);
    assert_eq!(solve(0, 0, 0, 0, 0, ""), Solution::BadGoal);
    assert_eq!(
        solve(3, 3, 0, 0, 0, "not a plant"),
        Solution::InvalidGeneSet("NOT A PLANT".to_string())
    );
    assert_eq!(solve(3, 3, 1, 0, 0, "not a plant"), Solution::BadGoal);
}

#[test]
fn solve_adds_the_goal_without_wrapping() {
    assert_eq!(solve(i32::MAX, i32::MAX, 8, 0, 0, "GGGGGG"), Solution::BadGoal);
    assert_eq!(solve(i32::MIN, i32::MIN, 6, 0, 0, "GGGGGG"), Solution::BadGoal);
    assert_eq!(solve(7, -1, 0, 0, 0, "GGGGGG"), Solution::Unsolvable);
}

#[test]
fn solve_reads_one_plant_to_a_line() {
    let expected = Solution::Solved(BestCombo {
        parents: [[G; 6], [Y; 6], [Y; 6], [Y; 6]],
        child: [Y; 6],
        size: 1,
    });
    assert_eq!(solve(0, 6, 0, 0, 0, "GGGGGG\nYYYYYY"), expected);
    assert_eq!(solve(0, 6, 0, 0, 0, "gggggg\nyyyyyy\n"), expected);
    assert_eq!(solve(0, 6, 0, 0, 0, "GGGGGG\r\nYYYYYY\r\nGGGGGG\r\n"), expected);
}

#[test]
fn solve_reports_the_first_bad_line_in_capitals() {
    assert_eq!(
        solve(6, 0, 0, 0, 0, "GGGGGG\nggggga\nzzz"),
        Solution::InvalidGeneSet("GGGGGA".to_string())
    );
    assert_eq!(solve(6, 0, 0, 0, 0, "GGGGGG\n\nYYYYYY"), Solution::InvalidGeneSet(String::new()));
    assert_eq!(
        solve(6, 0, 0, 0, 0, "GGGGGGG"),
        Solution::InvalidGeneSet("GGGGGGG".to_string())
    );
}

#[test]
fn solve_lines_works_on_lines_already_cut() {
    let lines = vec!["GGGGGG".to_string(), "YYYYYY".to_string()];
    assert_eq!(
        solve_lines(&goal(3, 3, 0, 0, 0), &lines),
        Solution::Solved(BestCombo {
            parents: [[G; 6], [G; 6], [Y; 6], [Y; 6]],
            child: [Y, Y, Y, G, G, G],
            size: 64,
        })
    );
    assert_eq!(solve_lines(&goal(3, 3, 0, 0, 1), &lines), Solution::BadGoal);
    assert_eq!(solve_lines(&goal(0, 0, 6, 0, 0), &lines), Solution::Unsolvable);
}
