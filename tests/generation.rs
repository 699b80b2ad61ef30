use nonogram_batch::{
    concat_batches, dedup_preserving_order, draw_candidate, keep_if_solvable, permute_dimensions, same_puzzle,
    GenerationState, Offer, Puzzle, SolvablePuzzle,
};
use nonogram::{arr1, Array2, Nonogram};

fn to_nonogram(p: &Puzzle) -> Nonogram {
    Nonogram {
        row_segments: arr1(&p.row_segments),
        column_segments: arr1(&p.column_segments),
        completed_grid: Array2::from_shape_vec((p.height, p.width), p.completed_grid.concat())
            .unwrap(),
    }
}

fn next_candidate(height: usize, width: usize) -> SolvablePuzzle {
    loop {
        if let Some(c) = draw_candidate(height, width) {
            return c;
        }
    }
}

fn fill(height: usize, width: usize, quota: usize) -> Vec<SolvablePuzzle> {
    let mut state = GenerationState::new(height, width, quota);
    while !state.is_full() {
        let c = next_candidate(height, width);
        state.offer(c);
    }
    state.into_puzzles()
}

fn all_distinct(puzzles: &[SolvablePuzzle]) -> bool {
    for i in 0..puzzles.len() {
        for j in (i + 1)..puzzles.len() {
            if same_puzzle(puzzles[i].puzzle(), puzzles[j].puzzle()) {
                return false;
            }
        }
    }
    true
}

#[test]
fn permute_dimensions_is_height_major() {
    let jobs = permute_dimensions(&[5, 10, 15], &[5, 20]);
    assert_eq!(jobs, vec![(5, 5), (5, 20), (10, 5), (10, 20), (15, 5), (15, 20)]);
}

#[test]
fn permute_dimensions_example_jobs() {
    assert_eq!(permute_dimensions(&[5, 10], &[5]), vec![(5, 5), (10, 5)]);
}

#[test]
fn permute_dimensions_empty_side() {
    assert!(permute_dimensions(&[], &[5, 10]).is_empty());
    assert!(permute_dimensions(&[5, 10], &[]).is_empty());
}

#[test]
fn dedup_keeps_first_occurrences() {
    assert_eq!(dedup_preserving_order(&[10, 5, 10, 5, 20]), vec![10, 5, 20]);
    assert_eq!(dedup_preserving_order(&[5, 5, 5]), vec![5]);
    assert!(dedup_preserving_order(&[]).is_empty());
}

#[test]
fn drawn_candidates_have_requested_size() {
    let c = next_candidate(10, 5);
    let p = c.puzzle();
    assert_eq!(p.height, 10);
    assert_eq!(p.width, 5);
    assert_eq!(p.completed_grid.len(), 10);
    assert!(p.completed_grid.iter().all(|row| row.len() == 5));
    assert_eq!(p.row_segments.len(), 10);
    assert_eq!(p.column_segments.len(), 5);
}

#[test]
fn filled_job_has_quota_distinct_puzzles() {
    let puzzles = fill(5, 5, 4);
    assert_eq!(puzzles.len(), 4);
    assert!(all_distinct(&puzzles));
    assert!(puzzles.iter().all(|c| c.puzzle().height == 5 && c.puzzle().width == 5));
}

#[test]
fn reruns_give_equal_sizes() {
    let a = fill(5, 5, 3);
    let b = fill(5, 5, 3);
    assert_eq!(a.len(), b.len());
    assert!(all_distinct(&a) && all_distinct(&b));
}

#[test]
fn full_state_refuses_more() {
    let mut state = GenerationState::new(5, 5, 1);
    state.offer(next_candidate(5, 5));
    assert!(state.is_full());
    assert!(matches!(state.offer(next_candidate(5, 5)), Offer::QuotaReached));
    assert_eq!(state.len(), 1);
}

#[test]
fn zero_quota_is_full_at_once() {
    let mut state = GenerationState::new(5, 5, 0);
    assert!(state.is_full());
    assert!(matches!(state.offer(next_candidate(5, 5)), Offer::QuotaReached));
    assert_eq!(state.len(), 0);
}

#[test]
fn equal_grid_is_a_duplicate() {
    // A 1 by 1 grid has two possible contents, so three offers repeat one.
    let mut state = GenerationState::new(1, 1, 5);
    let mut duplicates = 0;
    for _ in 0..3 {
        if matches!(state.offer(next_candidate(1, 1)), Offer::Duplicate) {
            duplicates += 1;
        }
    }
    assert!(duplicates >= 1);
    assert_eq!(state.len() + duplicates, 3);
    assert!(all_distinct(&state.into_puzzles()));
}

#[test]
fn example_run_collects_six_puzzles() {
    let jobs = permute_dimensions(&dedup_preserving_order(&[5, 10]), &dedup_preserving_order(&[5]));
    assert_eq!(jobs, vec![(5, 5), (10, 5)]);
    let batches: Vec<Vec<SolvablePuzzle>> = jobs.iter().map(|&(h, w)| fill(h, w, 3)).collect();
    let all = concat_batches(batches);
    assert_eq!(all.len(), 6);
    assert!(all[..3].iter().all(|c| c.puzzle().height == 5 && c.puzzle().width == 5));
    assert!(all[3..].iter().all(|c| c.puzzle().height == 10 && c.puzzle().width == 5));
    assert!(all_distinct(&all[..3]));
    assert!(all_distinct(&all[3..]));

    let engine: Vec<Nonogram> = all.iter().map(|c| to_nonogram(c.puzzle())).collect();
    let json = serde_json::to_string(&engine).unwrap();
    let value: serde_json::Value = serde_json::from_str(&json).unwrap();
    assert_eq!(value.as_array().unwrap().len(), 6);
}

#[test]
fn duplicate_is_structurally_equal() {
    let c = next_candidate(5, 10);
    let d = c.duplicate();
    assert!(same_puzzle(c.puzzle(), d.puzzle()));
    assert_eq!(c.puzzle().row_segments, d.puzzle().row_segments);
    assert_eq!(c.puzzle().column_segments, d.puzzle().column_segments);
    let mut state = GenerationState::new(5, 10, 3);
    assert!(matches!(state.offer(c), Offer::Inserted));
    assert!(matches!(state.offer(d), Offer::Duplicate));
    assert_eq!(state.len(), 1);
}

#[test]
fn keep_if_solvable_keeps_a_unique_grid() {
    let p = Puzzle {
        height: 1,
        width: 1,
        row_segments: vec![vec![1]],
        column_segments: vec![vec![1]],
        completed_grid: vec![vec![1]],
    };
    let kept = keep_if_solvable(p).expect("a single filled cell is solvable");
    assert_eq!(kept.puzzle().completed_grid, vec![vec![1]]);
}

#[test]
fn keep_if_solvable_drops_an_ambiguous_grid() {
    // Both diagonals of a 2 by 2 grid give these clues.
    let p = Puzzle {
        height: 2,
        width: 2,
        row_segments: vec![vec![1], vec![1]],
        column_segments: vec![vec![1], vec![1]],
        completed_grid: vec![vec![1, 0], vec![0, 1]],
    };
    assert!(keep_if_solvable(p).is_none());
}
