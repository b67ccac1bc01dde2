use bracket_lib::random::RandomNumberGenerator;
use nqueens::genetic_algorithm::{
    is_mutated, GeneticAlgorithm, Result, RESAMPLE_LIMIT, SAMPLE_PERIOD,
};
use nqueens::selection::RESOLUTION;
use nqueens::vector::Vector2;

fn members(ga: &GeneticAlgorithm) -> Vec<Vec<u8>> {
    (0..ga.population_size()).map(|i| ga.member(i).unwrap().rows()).collect()
}

fn spliced(head: &[u8], tail: &[u8], point: usize) -> Vec<u8> {
    let mut out = head[..point].to_vec();
    out.extend_from_slice(&tail[point..]);
    out
}

fn differ_in_at_most_one(a: &[u8], b: &[u8]) -> bool {
    a.len() == b.len() && (0..a.len()).filter(|i| a[*i] != b[*i]).count() <= 1
}

#[test]
fn constants_of_the_run() {
    assert_eq!(SAMPLE_PERIOD, 1000);
    assert_eq!(RESAMPLE_LIMIT, 1024);
}

#[test]
fn new_population_has_the_size_asked_for() {
    let ga = GeneticAlgorithm::new(Vector2::new(8, 8), 20);
    assert_eq!(ga.population_size(), 20);
    assert_eq!(ga.fitness_values(), vec![0u32; 20]);
    for rows in members(&ga) {
        assert_eq!(rows.len(), 8);
        assert!(rows.iter().all(|r| *r < 8));
    }
    assert!(ga.member(20).is_none());
    let mean = ga.average_fitness();
    assert_eq!(mean.total, 0);
    assert_eq!(mean.count, 20);
}

#[test]
fn new_population_may_be_empty() {
    let mut ga = GeneticAlgorithm::new(Vector2::new(8, 8), 0);
    assert_eq!(ga.population_size(), 0);
    let result = ga.run(0, 0);
    assert!(result.avg_fitness.is_empty());
    assert!(result.sample.is_empty());
    assert!(result.correct.is_empty());
    let mean = ga.average_fitness();
    assert_eq!((mean.total, mean.count), (0, 0));
}

#[test]
fn fitness_and_probability_evaluate_the_members() {
    let mut ga = GeneticAlgorithm::new(Vector2::new(8, 8), 12);
    ga.fitness();
    ga.probability();
    let values = ga.fitness_values();
    assert_eq!(values.len(), 12);
    for i in 0..12 {
        assert_eq!(values[i], ga.member(i).unwrap().fitness());
    }
    let mean = ga.average_fitness();
    assert_eq!(mean.total, values.iter().sum::<u32>());
    assert_eq!(mean.count, 12);
}

#[test]
fn choose_parent_follows_the_wheel() {
    let mut ga = GeneticAlgorithm::new(Vector2::new(8, 8), 10);
    ga.fitness();
    ga.probability();
    let values = ga.fitness_values();
    let mass: u64 = values.iter().map(|v| *v as u64).sum();
    let mut ticket: u32 = 0;
    while ticket < RESOLUTION {
        let mut running: u64 = 0;
        let mut expected = 0;
        for (i, v) in values.iter().enumerate() {
            running += *v as u64;
            if ticket as u64 * mass <= running * RESOLUTION as u64 {
                expected = i;
                break;
            }
        }
        assert_eq!(ga.choose_parent(ticket), expected);
        ticket += 99991;
    }
}

#[test]
fn reproduce_without_mutation_crosses_two_different_members() {
    let mut rng = RandomNumberGenerator::seeded(41);
    let mut ga = GeneticAlgorithm::new(Vector2::new(8, 8), 10);
    ga.fitness();
    ga.probability();
    let parents = members(&ga);
    ga.reproduce(&mut rng, 0);
    let children = members(&ga);
    assert_eq!(children.len(), 10);
    for pair in children.chunks(2) {
        let mut found = false;
        for a in 0..parents.len() {
            for b in 0..parents.len() {
                for k in 2..6 {
                    if a != b
                        && pair[0] == spliced(&parents[a], &parents[b], k)
                        && pair[1] == spliced(&parents[b], &parents[a], k)
                    {
                        found = true;
                    }
                }
            }
        }
        assert!(found);
    }
}

#[test]
fn reproduce_with_certain_mutation_changes_at_most_one_row_of_a_child() {
    let mut rng = RandomNumberGenerator::seeded(42);
    let mut ga = GeneticAlgorithm::new(Vector2::new(8, 8), 8);
    ga.fitness();
    ga.probability();
    let parents = members(&ga);
    ga.reproduce(&mut rng, RESOLUTION);
    let children = members(&ga);
    assert_eq!(children.len(), 8);
    for pair in children.chunks(2) {
        let mut found = false;
        for a in 0..parents.len() {
            for b in 0..parents.len() {
                for k in 2..6 {
                    if a != b
                        && differ_in_at_most_one(&pair[0], &spliced(&parents[a], &parents[b], k))
                        && differ_in_at_most_one(&pair[1], &spliced(&parents[b], &parents[a], k))
                    {
                        found = true;
                    }
                }
            }
        }
        assert!(found);
        assert!(pair[0].iter().all(|r| *r < 8));
        assert!(pair[1].iter().all(|r| *r < 8));
    }
}

#[test]
fn reproduce_drops_the_last_place_of_an_odd_population() {
    let mut rng = RandomNumberGenerator::seeded(43);
    let mut ga = GeneticAlgorithm::new(Vector2::new(5, 5), 7);
    ga.fitness();
    ga.probability();
    ga.reproduce(&mut rng, 0);
    assert_eq!(ga.population_size(), 6);
    ga.fitness();
    assert_eq!(ga.fitness_values().len(), 6);
}

#[test]
fn run_records_one_mean_for_each_generation() {
    let mut ga = GeneticAlgorithm::new(Vector2::new(8, 8), 16);
    let result = ga.run(30, RESOLUTION / 10);
    assert_eq!(result.avg_fitness.len(), 30);
    assert_eq!(result.sample.len(), 1);
    assert_eq!(ga.population_size(), 16);
    for mean in &result.avg_fitness {
        assert_eq!(mean.count, 16);
        assert!(mean.total <= 16 * 28);
    }
    for gene in &result.correct {
        assert_eq!(gene.fitness(), 28);
    }
    for gene in &result.sample {
        assert_eq!(gene.len(), 8);
    }
    let values = ga.fitness_values();
    for i in 0..16 {
        assert_eq!(values[i], ga.member(i).unwrap().fitness());
    }
    let last = result.avg_fitness[29];
    assert_eq!(last.total, values.iter().sum::<u32>());
}

#[test]
fn run_of_no_generation_evaluates_only() {
    let mut ga = GeneticAlgorithm::new(Vector2::new(3, 3), 1);
    let result = ga.run(0, 0);
    assert!(result.avg_fitness.is_empty());
    assert!(result.sample.is_empty());
    assert!(result.correct.is_empty());
    assert_eq!(ga.population_size(), 1);
    assert_eq!(ga.fitness_values()[0], ga.member(0).unwrap().fitness());
}

#[test]
fn run_samples_every_thousandth_generation() {
    let mut ga = GeneticAlgorithm::new(Vector2::new(5, 5), 4);
    assert_eq!(ga.run(1, 0).sample.len(), 1);
    assert_eq!(ga.run(1000, 0).sample.len(), 1);
    assert_eq!(ga.run(1001, 0).sample.len(), 2);
    assert_eq!(ga.run(2500, RESOLUTION).sample.len(), 3);
}

#[test]
fn run_never_records_a_board_of_two_or_more_columns() {
    let mut ga = GeneticAlgorithm::new(Vector2::new(6, 6), 32);
    let result = ga.run(200, RESOLUTION / 4);
    assert!(result.correct.is_empty());
}

#[test]
fn run_comes_to_an_end_when_selection_can_fall_on_one_member_only() {
    // With two members selection often falls on one of them again and again.
    let mut ga = GeneticAlgorithm::new(Vector2::new(5, 5), 2);
    let result = ga.run(300, RESOLUTION / 2);
    assert_eq!(result.avg_fitness.len(), 300);
    assert_eq!(ga.population_size(), 2);
}

#[test]
fn end_to_end_eight_queens() {
    let mut ga = GeneticAlgorithm::new(Vector2::new(8, 8), 256);
    let result = ga.run(4096, 0);
    assert_eq!(result.avg_fitness.len(), 4096);
    assert_eq!(result.sample.len(), 5);
    for mean in &result.avg_fitness {
        assert_eq!(mean.count, 256);
        assert!(mean.total <= 256 * 27);
    }
    assert_eq!(ga.population_size(), 256);
}

#[test]
fn pick_parents_gives_two_different_members() {
    let mut rng = RandomNumberGenerator::seeded(51);
    let mut ga = GeneticAlgorithm::new(Vector2::new(8, 8), 6);
    ga.fitness();
    ga.probability();
    let mut seen = [false; 6];
    for _ in 0..500 {
        let (first, second) = ga.pick_parents(&mut rng);
        assert!(first < 6);
        assert!(second < 6);
        assert_ne!(first, second);
        seen[first] = true;
    }
    let values = ga.fitness_values();
    for i in 1..6 {
        assert_eq!(seen[i], values[i] > 0);
    }
}

#[test]
fn pick_parents_takes_the_next_member_when_every_draw_falls_on_the_first() {
    // On a board of one column every fitness is zero, and the wheel then
    // selects the first member for every ticket.
    let mut rng = RandomNumberGenerator::seeded(52);
    let mut ga = GeneticAlgorithm::new(Vector2::new(1, 1), 3);
    ga.fitness();
    ga.probability();
    assert_eq!(ga.fitness_values(), vec![0, 0, 0]);
    for _ in 0..5 {
        assert_eq!(ga.pick_parents(&mut rng), (0, 1));
    }
}

#[test]
fn record_appends_the_mean_and_samples_by_the_generation() {
    let mut ga = GeneticAlgorithm::new(Vector2::new(8, 8), 10);
    ga.fitness();
    ga.probability();
    let total: u32 = ga.fitness_values().iter().sum();
    let leader = ga.member(0).unwrap().rows();
    let mut result = Result { correct: Vec::new(), avg_fitness: Vec::new(), sample: Vec::new() };

    ga.record(0, &mut result);
    assert_eq!(result.avg_fitness.len(), 1);
    assert_eq!((result.avg_fitness[0].total, result.avg_fitness[0].count), (total, 10));
    assert_eq!(result.sample.len(), 1);
    assert_eq!(result.sample[0].rows(), leader);
    assert!(result.correct.is_empty());

    ga.record(1, &mut result);
    ga.record(999, &mut result);
    assert_eq!(result.avg_fitness.len(), 3);
    assert_eq!(result.sample.len(), 1);

    ga.record(1000, &mut result);
    ga.record(3000, &mut result);
    assert_eq!(result.avg_fitness.len(), 5);
    assert_eq!(result.sample.len(), 3);
    assert_eq!(result.sample[2].rows(), leader);
    assert_eq!((result.avg_fitness[4].total, result.avg_fitness[4].count), (total, 10));
    assert!(result.correct.is_empty());
}

#[test]
fn record_keeps_every_member_that_reaches_the_number_of_pairs() {
    // A board of one column has no pair, so its only gene reaches the
    // number of pairs, which is zero.
    let mut ga = GeneticAlgorithm::new(Vector2::new(1, 1), 3);
    ga.fitness();
    ga.probability();
    let mut result = Result { correct: Vec::new(), avg_fitness: Vec::new(), sample: Vec::new() };
    ga.record(5, &mut result);
    assert_eq!(result.correct.len(), 3);
    for gene in &result.correct {
        assert_eq!(gene.rows(), vec![0]);
    }
    ga.record(6, &mut result);
    assert_eq!(result.correct.len(), 6);
    assert!(result.sample.is_empty());
    assert_eq!((result.avg_fitness[1].total, result.avg_fitness[1].count), (0, 3));
}

#[test]
fn admits_square_boards_whose_fitness_sum_fits() {
    assert!(GeneticAlgorithm::admits(&Vector2::new(8, 8), 256));
    assert!(GeneticAlgorithm::admits(&Vector2::new(0, 0), usize::MAX));
    assert!(GeneticAlgorithm::admits(&Vector2::new(1, 1), usize::MAX));
    assert!(GeneticAlgorithm::admits(&Vector2::new(255, 255), 132_622));
    assert!(!GeneticAlgorithm::admits(&Vector2::new(255, 255), 132_623));
    assert!(GeneticAlgorithm::admits(&Vector2::new(8, 8), 153_391_689));
    assert!(!GeneticAlgorithm::admits(&Vector2::new(8, 8), 153_391_690));
    assert!(GeneticAlgorithm::admits(&Vector2::new(2, 2), u32::MAX as usize));
    assert!(!GeneticAlgorithm::admits(&Vector2::new(2, 2), u32::MAX as usize + 1));
    assert!(!GeneticAlgorithm::admits(&Vector2::new(8, 7), 10));
    assert!(!GeneticAlgorithm::admits(&Vector2::new(256, 256), 10));
    assert!(!GeneticAlgorithm::admits(&Vector2::new(-1, -1), 10));
}

#[test]
fn board_size_is_the_one_given() {
    let ga = GeneticAlgorithm::new(Vector2::new(6, 6), 4);
    assert_eq!(ga.board_size(), Vector2::new(6, 6));
}

#[test]
fn record_of_an_empty_population_between_samples() {
    let mut ga = GeneticAlgorithm::new(Vector2::new(8, 8), 0);
    ga.fitness();
    ga.probability();
    let mut result = Result { correct: Vec::new(), avg_fitness: Vec::new(), sample: Vec::new() };
    ga.record(7, &mut result);
    assert!(result.correct.is_empty());
    assert!(result.sample.is_empty());
    assert_eq!((result.avg_fitness[0].total, result.avg_fitness[0].count), (0, 0));
}

#[test]
fn is_mutated_where_the_ticket_is_below_the_threshold() {
    assert!(is_mutated(5, 6));
    assert!(!is_mutated(6, 6));
    assert!(!is_mutated(7, 6));
    assert!(!is_mutated(0, 0));
    assert!(!is_mutated(RESOLUTION - 1, 0));
    assert!(is_mutated(0, 1));
    assert!(is_mutated(RESOLUTION - 1, RESOLUTION));
    assert!(is_mutated(0, RESOLUTION));
}

#[test]
fn other_parent_is_the_selected_member_unless_it_is_the_first() {
    let mut ga = GeneticAlgorithm::new(Vector2::new(8, 8), 10);
    ga.fitness();
    ga.probability();
    let mut ticket: u32 = 0;
    let mut some = 0;
    let mut none = 0;
    while ticket < RESOLUTION {
        let selected = ga.choose_parent(ticket);
        for first in 0..10 {
            let second = ga.other_parent(first, ticket);
            if selected == first {
                assert_eq!(second, None);
                none += 1;
            } else {
                assert_eq!(second, Some(selected));
                some += 1;
            }
        }
        ticket += 299_993;
    }
    assert!(some > 0);
    assert!(none > 0);
}

#[test]
fn spare_parent_is_the_first_other_member_with_fitness() {
    let mut ga = GeneticAlgorithm::new(Vector2::new(8, 8), 12);
    ga.fitness();
    ga.probability();
    let values = ga.fitness_values();
    for first in 0..12 {
        let expected = (0..12)
            .find(|j| *j != first && values[*j] > 0)
            .unwrap_or(if first + 1 < 12 { first + 1 } else { 0 });
        let second = ga.spare_parent(first);
        assert_eq!(second, expected);
        assert_ne!(second, first);
    }
}

#[test]
fn spare_parent_follows_the_first_where_no_member_has_fitness() {
    let mut ga = GeneticAlgorithm::new(Vector2::new(1, 1), 3);
    ga.fitness();
    ga.probability();
    assert_eq!(ga.spare_parent(0), 1);
    assert_eq!(ga.spare_parent(1), 2);
    assert_eq!(ga.spare_parent(2), 0);
}

#[test]
fn spare_parent_follows_the_first_where_fitness_is_not_evaluated_yet() {
    let ga = GeneticAlgorithm::new(Vector2::new(8, 8), 4);
    assert_eq!(ga.fitness_values(), vec![0, 0, 0, 0]);
    assert_eq!(ga.spare_parent(3), 0);
    assert_eq!(ga.spare_parent(0), 1);
}

#[test]
fn pick_parents_gives_a_second_parent_with_fitness_where_one_exists() {
    let mut rng = RandomNumberGenerator::seeded(53);
    let mut ga = GeneticAlgorithm::new(Vector2::new(8, 8), 2);
    ga.fitness();
    ga.probability();
    let values = ga.fitness_values();
    for _ in 0..200 {
        let (first, second) = ga.pick_parents(&mut rng);
        assert_ne!(first, second);
        assert!(first < 2 && second < 2);
        if values[0] > 0 && values[1] > 0 {
            assert!(values[second] > 0);
        }
    }
}
