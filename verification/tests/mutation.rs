use neuroevolution::fixed::ONE;
use neuroevolution::mutation::{mutate_with, MutationMethod, UniformMutation};
use rand::rngs::StdRng;
use rand::SeedableRng;

#[test]
fn shifts_move_genes_one_by_one() {
    let mut genes = vec![10, 20, 30];
    mutate_with(&mut genes, &vec![1, 0, -5]);
    assert_eq!(genes, vec![11, 20, 25]);
}

#[test]
fn shifts_saturate_at_the_ends_of_the_range() {
    let mut genes = vec![i32::MAX, i32::MIN, i32::MAX - 1, 0];
    mutate_with(&mut genes, &vec![1, -1, 5, i32::MIN]);
    assert_eq!(genes, vec![i32::MAX, i32::MIN, i32::MAX, i32::MIN]);
}

#[test]
fn genes_without_a_shift_stay() {
    let mut genes = vec![1, 2, 3];
    mutate_with(&mut genes, &vec![10]);
    assert_eq!(genes, vec![11, 2, 3]);
    mutate_with(&mut genes, &vec![]);
    assert_eq!(genes, vec![11, 2, 3]);
    mutate_with(&mut genes, &vec![1, 1, 1, 1, 1]);
    assert_eq!(genes, vec![12, 3, 4]);
}

#[test]
fn mutation_remembers_its_settings() {
    let mutation = UniformMutation::new(ONE / 4, 3 * ONE);
    assert_eq!(mutation.chance(), 16384);
    assert_eq!(mutation.coefficient(), 196608);
}

#[test]
fn chance_zero_changes_nothing() {
    let mut rng = StdRng::seed_from_u64(1);
    let before: Vec<i32> = (0..200).collect();
    let mut genes = before.clone();
    UniformMutation::new(0, ONE).mutate(&mut rng, &mut genes);
    assert_eq!(genes, before);
}

#[test]
fn coefficient_zero_changes_nothing() {
    let mut rng = StdRng::seed_from_u64(2);
    let before: Vec<i32> = (0..200).collect();
    let mut genes = before.clone();
    UniformMutation::new(ONE, 0).mutate(&mut rng, &mut genes);
    assert_eq!(genes, before);
    UniformMutation::new(ONE / 2, 0).mutate(&mut rng, &mut genes);
    assert_eq!(genes, before);
}

#[test]
fn no_gene_moves_by_more_than_the_coefficient() {
    let mut rng = StdRng::seed_from_u64(3);
    let before: Vec<i32> = (0..1000).map(|gene| gene * 1000).collect();
    for chance in [0, ONE / 10, ONE / 2, ONE] {
        let mut genes = before.clone();
        UniformMutation::new(chance, 50).mutate(&mut rng, &mut genes);
        assert_eq!(genes.len(), before.len());
        for i in 0..genes.len() {
            assert!((genes[i] as i64 - before[i] as i64).abs() <= 50);
        }
    }
}

#[test]
fn chance_one_reaches_every_gene() {
    let mut rng = StdRng::seed_from_u64(4);
    let before = vec![0; 2000];
    let mut genes = before.clone();
    UniformMutation::new(ONE, ONE).mutate(&mut rng, &mut genes);
    let moved = genes.iter().filter(|gene| **gene != 0).count();
    assert!(moved >= 1990, "moved {}", moved);
    assert!(genes.iter().any(|gene| *gene > 0));
    assert!(genes.iter().any(|gene| *gene < 0));
}

#[test]
fn chance_sets_the_share_of_genes_that_move() {
    let mut rng = StdRng::seed_from_u64(5);
    let mut genes = vec![0; 20000];
    UniformMutation::new(ONE / 4, ONE).mutate(&mut rng, &mut genes);
    let moved = genes.iter().filter(|gene| **gene != 0).count();
    assert!(moved > 4500 && moved < 5500, "moved {}", moved);
}

#[test]
fn mutation_saturates_at_the_ends_of_the_range() {
    let mut rng = StdRng::seed_from_u64(6);
    let mut genes = vec![i32::MAX; 100];
    genes.extend(vec![i32::MIN; 100]);
    UniformMutation::new(ONE, 1000).mutate(&mut rng, &mut genes);
    for gene in &genes[..100] {
        assert!(*gene >= i32::MAX - 1000);
    }
    for gene in &genes[100..] {
        assert!(*gene <= i32::MIN + 1000);
    }
}

#[test]
fn mutating_an_empty_genome_leaves_it_empty() {
    let mut rng = StdRng::seed_from_u64(7);
    let mut genes: Vec<i32> = Vec::new();
    UniformMutation::new(ONE, ONE).mutate(&mut rng, &mut genes);
    assert!(genes.is_empty());
}
