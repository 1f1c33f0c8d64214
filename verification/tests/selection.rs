use neuroevolution::error::Error;
use neuroevolution::individual::Candidate;
use neuroevolution::selection::{sum_fitness, wheel_index, RouletteWheelSelection, SelectionMethod};
use rand::rngs::StdRng;
use rand::SeedableRng;

fn scored(fitness: u32) -> Candidate {
    Candidate::new(vec![fitness as i32], fitness)
}

#[test]
fn fitness_is_summed_without_overflow() {
    let population = vec![scored(u32::MAX), scored(u32::MAX), scored(u32::MAX)];
    assert_eq!(sum_fitness(&population), 3 * (u32::MAX as u128));
    let nobody: Vec<Candidate> = Vec::new();
    assert_eq!(sum_fitness(&nobody), 0);
}

#[test]
fn wheel_slots_partition_the_total() {
    let population = vec![scored(0), scored(1), scored(2), scored(3)];
    assert_eq!(sum_fitness(&population), 6);
    assert_eq!(wheel_index(&population, 0), Some(1));
    assert_eq!(wheel_index(&population, 1), Some(2));
    assert_eq!(wheel_index(&population, 2), Some(2));
    assert_eq!(wheel_index(&population, 3), Some(3));
    assert_eq!(wheel_index(&population, 4), Some(3));
    assert_eq!(wheel_index(&population, 5), Some(3));
    assert_eq!(wheel_index(&population, 6), None);
    assert_eq!(wheel_index(&population, u128::MAX), None);
}

#[test]
fn wheel_skips_individuals_without_fitness() {
    let population = vec![scored(2), scored(0), scored(0), scored(1)];
    assert_eq!(wheel_index(&population, 0), Some(0));
    assert_eq!(wheel_index(&population, 1), Some(0));
    assert_eq!(wheel_index(&population, 2), Some(3));
    assert_eq!(wheel_index(&population, 3), None);
}

#[test]
fn wheel_has_no_stop_without_fitness() {
    let population = vec![scored(0), scored(0)];
    assert_eq!(wheel_index(&population, 0), None);
    let nobody: Vec<Candidate> = Vec::new();
    assert_eq!(wheel_index(&nobody, 0), None);
}

#[test]
fn select_refuses_an_empty_population() {
    let mut rng = StdRng::seed_from_u64(1);
    let population: Vec<Candidate> = Vec::new();
    let result = RouletteWheelSelection::new().select(&mut rng, &population);
    assert_eq!(result, Err(Error::EmptyPopulation));
}

#[test]
fn select_answers_with_a_member() {
    let mut rng = StdRng::seed_from_u64(7);
    let population = vec![scored(5), scored(1), scored(9)];
    for _ in 0..1000 {
        let chosen = RouletteWheelSelection::new().select(&mut rng, &population).unwrap();
        assert!(population.iter().any(|member| std::ptr::eq(member, chosen)));
    }
}

#[test]
fn select_picks_evenly_when_nobody_has_fitness() {
    let mut rng = StdRng::seed_from_u64(11);
    let population = vec![
        Candidate::new(vec![0], 0),
        Candidate::new(vec![1], 0),
        Candidate::new(vec![2], 0),
        Candidate::new(vec![3], 0),
    ];
    let mut seen = [0u32; 4];
    for _ in 0..40000 {
        let chosen = RouletteWheelSelection::new().select(&mut rng, &population).unwrap();
        seen[chosen.genes[0] as usize] += 1;
    }
    for count in seen {
        assert!(count > 9000 && count < 11000, "count {}", count);
    }
}

#[test]
fn select_of_a_single_individual_is_that_individual() {
    let mut rng = StdRng::seed_from_u64(3);
    let population = vec![scored(4)];
    for _ in 0..100 {
        let chosen = RouletteWheelSelection::new().select(&mut rng, &population).unwrap();
        assert_eq!(chosen, &population[0]);
    }
    let idle = vec![scored(0)];
    for _ in 0..100 {
        let chosen = RouletteWheelSelection::new().select(&mut rng, &idle).unwrap();
        assert_eq!(chosen, &idle[0]);
    }
}

#[test]
fn roulette_wheel_follows_the_fitness_shares() {
    let mut rng = StdRng::seed_from_u64(42);
    let population = vec![scored(0), scored(1), scored(2), scored(3)];
    let mut seen = [0u32; 4];
    for _ in 0..100000 {
        let chosen = RouletteWheelSelection::new().select(&mut rng, &population).unwrap();
        seen[chosen.fitness as usize] += 1;
    }
    assert_eq!(seen[0], 0);
    let share = |count: u32| count as f64 / 100000.0;
    assert!((share(seen[1]) - 1.0 / 6.0).abs() < 0.01, "share {}", share(seen[1]));
    assert!((share(seen[2]) - 2.0 / 6.0).abs() < 0.01, "share {}", share(seen[2]));
    assert!((share(seen[3]) - 0.5).abs() < 0.01, "share {}", share(seen[3]));
}

#[test]
fn selection_is_reproducible_from_a_seed() {
    let population = vec![scored(3), scored(1), scored(4), scored(1), scored(5)];
    let mut first = StdRng::seed_from_u64(99);
    let mut second = StdRng::seed_from_u64(99);
    for _ in 0..200 {
        let a = RouletteWheelSelection::new().select(&mut first, &population).unwrap();
        let b = RouletteWheelSelection::new().select(&mut second, &population).unwrap();
        assert!(std::ptr::eq(a, b));
    }
}
