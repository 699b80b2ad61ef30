use nonogram::{arr1, Array2, Nonogram};
use nonogram_batch::{
    be_bytes, chunk_batches, document_item, draw_candidate, first_failed_batch, relational_row,
    Puzzle, SolvablePuzzle, BATCH_SIZE,
};

fn next_candidate(height: usize, width: usize) -> SolvablePuzzle {
    loop {
        if let Some(c) = draw_candidate(height, width) {
            return c;
        }
    }
}

fn engine_checksum(p: &Puzzle) -> u64 {
    let n = Nonogram {
        row_segments: arr1(&p.row_segments),
        column_segments: arr1(&p.column_segments),
        completed_grid: Array2::from_shape_vec((p.height, p.width), p.completed_grid.concat())
            .unwrap(),
    };
    n.generate_checksum()
}

#[test]
fn be_bytes_most_significant_first() {
    assert_eq!(be_bytes(0x0102030405060708), vec![1, 2, 3, 4, 5, 6, 7, 8]);
    assert_eq!(be_bytes(0), vec![0; 8]);
    assert_eq!(be_bytes(u64::MAX), vec![255; 8]);
}

#[test]
fn sixty_items_make_batches_of_25_25_10() {
    let items: Vec<u32> = (0..60).collect();
    let batches = chunk_batches(items, BATCH_SIZE);
    let sizes: Vec<usize> = batches.iter().map(|b| b.len()).collect();
    assert_eq!(sizes, vec![25, 25, 10]);
    let joined: Vec<u32> = batches.into_iter().flatten().collect();
    assert_eq!(joined, (0..60).collect::<Vec<u32>>());
}

#[test]
fn batching_edge_sizes() {
    assert!(chunk_batches(Vec::<u32>::new(), BATCH_SIZE).is_empty());
    let exact = chunk_batches((0..50).collect::<Vec<u32>>(), BATCH_SIZE);
    assert_eq!(exact.iter().map(|b| b.len()).collect::<Vec<_>>(), vec![25, 25]);
    let one = chunk_batches(vec![7u32], BATCH_SIZE);
    assert_eq!(one, vec![vec![7]]);
}

#[test]
fn third_batch_failing_fails_the_push() {
    assert_eq!(first_failed_batch(&vec![true, true, false]), Some(2));
    assert_eq!(first_failed_batch(&vec![true, false, false]), Some(1));
    assert_eq!(first_failed_batch(&vec![true, true, true]), None);
    assert_eq!(first_failed_batch(&vec![]), None);
}

#[test]
fn relational_row_carries_checksum_bytes() {
    let c = next_candidate(5, 10);
    let grid = c.puzzle().completed_grid.clone();
    let rows = c.puzzle().row_segments.clone();
    let columns = c.puzzle().column_segments.clone();
    let sum = engine_checksum(c.puzzle());
    let row = relational_row(c);
    assert_eq!(row.height, 5);
    assert_eq!(row.width, 10);
    assert_eq!(row.hash, sum.to_be_bytes().to_vec());
    assert_eq!(row.hash.len(), 8);
    assert_eq!(row.completed_grid, grid);
    assert_eq!(row.row_segments, rows);
    assert_eq!(row.column_segments, columns);
}

#[test]
fn document_item_carries_checksum() {
    let c = next_candidate(10, 5);
    let sum = engine_checksum(c.puzzle());
    let grid = c.puzzle().completed_grid.clone();
    let item = document_item(c);
    assert_eq!(item.checksum, sum);
    assert_eq!(item.height, 10);
    assert_eq!(item.width, 5);
    assert_eq!(item.completed_grid, grid);
}

#[test]
fn row_clues_match_grid() {
    let c = next_candidate(5, 5);
    let p = c.puzzle();
    for (row, clue) in p.completed_grid.iter().zip(p.row_segments.iter()) {
        let mut runs = Vec::new();
        let mut run = 0usize;
        for &cell in row {
            if cell != 0 {
                run += 1;
            } else if run > 0 {
                runs.push(run);
                run = 0;
            }
        }
        if run > 0 {
            runs.push(run);
        }
        assert_eq!(&runs, clue);
        assert!(row.iter().all(|&cell| cell <= 1));
    }
}
