use bracket_lib::random::RandomNumberGenerator;
use nqueens::gene::Gene;
use nqueens::vector::Vector2;

fn gene_of(rows: &[u8]) -> Gene {
    Gene::from_rows(&rows.to_vec()).unwrap()
}

fn splice_of(head: &[u8], tail: &[u8], point: usize) -> Vec<u8> {
    let mut out = head[..point].to_vec();
    out.extend_from_slice(&tail[point..]);
    out
}

#[test]
fn crossover() {
    let dimension = Vector2::new(8, 8);
    let mut gene = Gene::new(&dimension);
    let mut gene2 = Gene::new(&dimension);
    let mut rng = RandomNumberGenerator::new();
    gene.randomize(&dimension, &mut rng);
    gene2.randomize(&dimension, &mut rng);
    let genecross = gene.crossover(&gene2, &mut rng);

    println!(" gene1: {}", gene.to_string());
    println!(" gene2: {}\n", gene2.to_string());
    println!("cross1: {}", genecross.0.to_string());
    println!("cross2: {}", genecross.1.to_string());
}

#[test]
fn fitness() {
    let dimension = Vector2::new(8, 8);
    let gene = Gene::new(&dimension);

    assert_eq!(gene.fitness(), 0);
}

#[test]
fn mutate() {
    let dimension = Vector2::new(8, 8);
    let mut gene = Gene::new(&dimension);
    println!("original: {}", gene.to_string());

    let mut rng = RandomNumberGenerator::new();
    gene.mutate(8, &mut rng);
    println!("  mutate: {}", gene.to_string());
}

#[test]
fn new_gene_is_all_zero() {
    for n in [0, 1, 5, 8, 255] {
        let gene = Gene::new(&Vector2::new(n, n));
        assert_eq!(gene.len(), n as usize);
        assert_eq!(gene.rows(), vec![0u8; n as usize]);
    }
}

#[test]
fn new_gene_takes_its_length_from_the_columns() {
    let gene = Gene::new(&Vector2::new(3, 6));
    assert_eq!(gene.rows(), vec![0u8; 6]);
}

#[test]
fn zero_gene_has_fitness_zero_for_each_size() {
    for n in 0..=40 {
        let gene = Gene::new(&Vector2::new(n, n));
        assert_eq!(gene.fitness(), 0, "side {}", n);
    }
    assert_eq!(Gene::new(&Vector2::new(255, 255)).fitness(), 0);
}

#[test]
fn zero_gene_of_at_most_one_column_has_fitness_of_its_pairs() {
    assert_eq!(Gene::new(&Vector2::new(0, 0)).fitness(), 0);
    assert_eq!(Gene::new(&Vector2::new(1, 1)).fitness(), 0);
}

#[test]
fn fitness_exact_values() {
    assert_eq!(gene_of(&[0, 1, 2, 3, 4]).fitness(), 8);
    assert_eq!(gene_of(&[4, 3, 2, 1, 0]).fitness(), 7);
    assert_eq!(gene_of(&[0, 2, 4, 1, 3]).fitness(), 5);
    assert_eq!(gene_of(&[2, 0, 1]).fitness(), 2);
    assert_eq!(gene_of(&[0, 4, 7, 5, 2, 6, 1, 3]).fitness(), 20);
    assert_eq!(gene_of(&[3, 1, 4, 1, 5, 2, 6, 5]).fitness(), 21);
    assert_eq!(gene_of(&[7, 6, 5, 4, 3, 2, 1, 0]).fitness(), 22);
    assert_eq!(gene_of(&[0, 1, 2, 3, 4, 5, 6, 7]).fitness(), 24);
}

#[test]
fn fitness_of_two_columns_is_zero_whatever_the_rows() {
    assert_eq!(gene_of(&[0, 0]).fitness(), 0);
    assert_eq!(gene_of(&[1, 0]).fitness(), 0);
    assert_eq!(gene_of(&[0, 1]).fitness(), 0);
}

#[test]
fn fitness_stays_below_the_number_of_pairs() {
    let dimension = Vector2::new(8, 8);
    let mut rng = RandomNumberGenerator::seeded(7);
    for _ in 0..200 {
        let mut gene = Gene::new(&dimension);
        gene.randomize(&dimension, &mut rng);
        assert!(gene.fitness() < 28);
    }
}

#[test]
fn fitness_is_the_same_when_asked_twice() {
    let dimension = Vector2::new(8, 8);
    let mut rng = RandomNumberGenerator::seeded(11);
    for _ in 0..50 {
        let mut gene = Gene::new(&dimension);
        gene.randomize(&dimension, &mut rng);
        let first = gene.fitness();
        let second = gene.fitness();
        assert_eq!(first, second);
    }
}

#[test]
fn from_rows_accepts_rows_on_the_board_only() {
    assert!(Gene::from_rows(&vec![]).is_some());
    assert!(Gene::from_rows(&vec![0]).is_some());
    assert!(Gene::from_rows(&vec![1]).is_none());
    assert!(Gene::from_rows(&vec![0, 1, 2, 3]).is_some());
    assert!(Gene::from_rows(&vec![0, 1, 2, 4]).is_none());
    assert!(Gene::from_rows(&vec![254; 255]).is_some());
    assert!(Gene::from_rows(&vec![0; 256]).is_none());
    assert_eq!(Gene::from_rows(&vec![3, 0, 2, 1]).unwrap().rows(), vec![3, 0, 2, 1]);
}

#[test]
fn row_reads_one_column() {
    let gene = gene_of(&[3, 0, 2, 1]);
    assert_eq!(gene.row(0), Some(3));
    assert_eq!(gene.row(2), Some(2));
    assert_eq!(gene.row(3), Some(1));
    assert_eq!(gene.row(4), None);
}

#[test]
fn set_row_changes_that_column_only() {
    let mut gene = gene_of(&[3, 0, 2, 1, 4]);
    gene.set_row(1, 4);
    assert_eq!(gene.rows(), vec![3, 4, 2, 1, 4]);
    gene.set_row(4, 0);
    assert_eq!(gene.rows(), vec![3, 4, 2, 1, 0]);
}

#[test]
fn clone_has_storage_of_its_own() {
    let gene = gene_of(&[3, 0, 2, 1, 4]);
    let mut copy = gene.clone();
    assert_eq!(copy.rows(), vec![3, 0, 2, 1, 4]);
    copy.set_row(0, 1);
    assert_eq!(gene.rows(), vec![3, 0, 2, 1, 4]);
    assert_eq!(copy.rows(), vec![1, 0, 2, 1, 4]);
}

#[test]
fn randomize_keeps_rows_on_the_board() {
    let mut rng = RandomNumberGenerator::seeded(3);
    for n in [1, 2, 5, 8, 100, 255] {
        let dimension = Vector2::new(n, n);
        let mut gene = Gene::new(&dimension);
        gene.randomize(&dimension, &mut rng);
        assert_eq!(gene.len(), n as usize);
        assert!(gene.rows().iter().all(|r| (*r as i32) < n));
    }
}

#[test]
fn randomize_leaves_the_columns_past_the_side() {
    let mut rng = RandomNumberGenerator::seeded(5);
    let mut gene = gene_of(&[7, 7, 7, 7, 7, 7, 7, 7]);
    gene.randomize(&Vector2::new(3, 8), &mut rng);
    let rows = gene.rows();
    assert!(rows[..3].iter().all(|r| *r < 3));
    assert_eq!(&rows[3..], &[7, 7, 7, 7, 7]);
}

#[test]
fn randomize_reaches_every_row() {
    let dimension = Vector2::new(4, 4);
    let mut rng = RandomNumberGenerator::seeded(9);
    let mut seen = [false; 4];
    for _ in 0..200 {
        let mut gene = Gene::new(&dimension);
        gene.randomize(&dimension, &mut rng);
        for r in gene.rows() {
            seen[r as usize] = true;
        }
    }
    assert_eq!(seen, [true; 4]);
}

#[test]
fn mutate_changes_at_most_one_column() {
    let mut rng = RandomNumberGenerator::seeded(21);
    for _ in 0..300 {
        let before = vec![5u8, 6, 7, 5, 6, 7, 5, 6];
        let mut gene = gene_of(&before);
        gene.mutate(4, &mut rng);
        let after = gene.rows();
        assert_eq!(after.len(), before.len());
        let changed: Vec<usize> = (0..8).filter(|c| after[*c] != before[*c]).collect();
        assert_eq!(changed.len(), 1);
        assert!(after[changed[0]] < 4);
    }
}

#[test]
fn mutate_may_leave_the_gene_unchanged() {
    let mut rng = RandomNumberGenerator::seeded(22);
    for _ in 0..50 {
        let mut gene = gene_of(&[0, 0, 0, 0, 0]);
        gene.mutate(1, &mut rng);
        assert_eq!(gene.rows(), vec![0, 0, 0, 0, 0]);
    }
}

#[test]
fn mutate_reaches_every_column() {
    let mut rng = RandomNumberGenerator::seeded(23);
    let mut seen = [false; 6];
    for _ in 0..400 {
        let mut gene = gene_of(&[0, 0, 0, 0, 0, 0]);
        gene.mutate(6, &mut rng);
        for (c, r) in gene.rows().iter().enumerate() {
            if *r != 0 {
                seen[c] = true;
            }
        }
    }
    assert_eq!(seen, [true; 6]);
}

#[test]
fn crossover_at_splices_the_parents() {
    let a = [0u8, 1, 2, 3, 4, 5, 6, 7];
    let b = [7u8, 6, 5, 4, 3, 2, 1, 0];
    let (first, second) = gene_of(&a).crossover_at(&gene_of(&b), 3);
    assert_eq!(first.rows(), vec![0, 1, 2, 4, 3, 2, 1, 0]);
    assert_eq!(second.rows(), vec![7, 6, 5, 3, 4, 5, 6, 7]);
}

#[test]
fn crossover_at_the_ends_hands_the_parents_over() {
    let a = [0u8, 1, 2, 3, 4];
    let b = [4u8, 3, 2, 1, 0];
    let (first, second) = gene_of(&a).crossover_at(&gene_of(&b), 0);
    assert_eq!(first.rows(), b.to_vec());
    assert_eq!(second.rows(), a.to_vec());
    let (first, second) = gene_of(&a).crossover_at(&gene_of(&b), 5);
    assert_eq!(first.rows(), a.to_vec());
    assert_eq!(second.rows(), b.to_vec());
}

#[test]
fn crossover_leaves_the_parents_unchanged() {
    let mut rng = RandomNumberGenerator::seeded(31);
    let a = gene_of(&[0, 1, 2, 3, 4, 5, 6, 7]);
    let b = gene_of(&[7, 6, 5, 4, 3, 2, 1, 0]);
    let _ = a.crossover(&b, &mut rng);
    assert_eq!(a.rows(), vec![0, 1, 2, 3, 4, 5, 6, 7]);
    assert_eq!(b.rows(), vec![7, 6, 5, 4, 3, 2, 1, 0]);
}

#[test]
fn crossover_children_recombine_prefix_and_suffix() {
    let mut rng = RandomNumberGenerator::seeded(32);
    let a = [0u8, 1, 2, 3, 4, 5, 6, 7];
    let b = [7u8, 6, 5, 4, 3, 2, 1, 0];
    let mut seen = [false; 8];
    for _ in 0..300 {
        let (first, second) = gene_of(&a).crossover(&gene_of(&b), &mut rng);
        let first = first.rows();
        let second = second.rows();
        assert_eq!(first.len(), 8);
        assert_eq!(second.len(), 8);
        let k = (0..=8).find(|k| first == splice_of(&a, &b, *k)).unwrap();
        assert!((2..6).contains(&k));
        assert_eq!(second, splice_of(&b, &a, k));
        seen[k] = true;
    }
    assert_eq!(seen, [false, false, true, true, true, true, false, false]);
}

#[test]
fn crossover_on_the_smallest_board_splits_at_two_or_three() {
    let mut rng = RandomNumberGenerator::seeded(33);
    let a = [0u8, 1, 2, 3, 4];
    let b = [4u8, 3, 2, 1, 0];
    for _ in 0..200 {
        let (first, second) = gene_of(&a).crossover(&gene_of(&b), &mut rng);
        let first = first.rows();
        let k = (0..=5).find(|k| first == splice_of(&a, &b, *k)).unwrap();
        assert!(k == 2 || k == 3);
        assert_eq!(k, 2);
        assert_eq!(second.rows(), splice_of(&b, &a, k));
    }
}

#[test]
fn to_string_writes_each_row_and_a_space() {
    assert_eq!(gene_of(&[]).to_string(), "");
    assert_eq!(gene_of(&[3, 0, 2, 1]).to_string(), "3 0 2 1 ");
    assert_eq!(Gene::new(&Vector2::new(8, 8)).to_string(), "0 0 0 0 0 0 0 0 ");
    let mut rows = vec![0u8; 255];
    rows[0] = 9;
    rows[1] = 10;
    rows[2] = 99;
    rows[3] = 100;
    rows[4] = 254;
    rows[5] = 205;
    let text = Gene::from_rows(&rows).unwrap().to_string();
    assert!(text.starts_with("9 10 99 100 254 205 0 0 "));
    assert_eq!(text.len(), 2 * 255 + 1 + 1 + 2 + 2 + 2);
}

#[test]
fn to_board_draws_one_line_for_each_row() {
    assert_eq!(gene_of(&[]).to_board(), "");
    assert_eq!(gene_of(&[0]).to_board(), "-Q-\n");
    assert_eq!(
        gene_of(&[1, 0, 2]).to_board(),
        "|_|-Q-|_|\n-Q-|_||_|\n|_||_|-Q-\n"
    );
    let board = Gene::new(&Vector2::new(8, 8)).to_board();
    let lines: Vec<&str> = board.lines().collect();
    assert_eq!(lines.len(), 8);
    assert_eq!(lines[0], "-Q--Q--Q--Q--Q--Q--Q--Q-");
    for line in &lines[1..] {
        assert_eq!(*line, "|_||_||_||_||_||_||_||_|");
    }
}

#[test]
fn mutate_with_a_bound_above_the_side_still_changes_one_column_only() {
    let mut rng = RandomNumberGenerator::seeded(24);
    let mut above = false;
    for _ in 0..300 {
        let before = vec![0u8, 1, 2];
        let mut gene = gene_of(&before);
        gene.mutate(200, &mut rng);
        let after = gene.rows();
        assert_eq!(after.len(), 3);
        let changed: Vec<usize> = (0..3).filter(|c| after[*c] != before[*c]).collect();
        assert!(changed.len() <= 1);
        assert!(after.iter().all(|r| *r < 200));
        if after.iter().any(|r| *r >= 3) {
            above = true;
        }
    }
    assert!(above);
}

#[test]
fn mutate_of_one_column_with_one_row_changes_nothing() {
    let mut rng = RandomNumberGenerator::seeded(25);
    let mut gene = gene_of(&[0]);
    gene.mutate(1, &mut rng);
    assert_eq!(gene.rows(), vec![0]);
}

#[test]
fn set_row_takes_a_row_off_the_board() {
    let mut gene = gene_of(&[0, 1, 2]);
    gene.set_row(1, 9);
    assert_eq!(gene.rows(), vec![0, 9, 2]);
    assert_eq!(gene.row(1), Some(9));
}
