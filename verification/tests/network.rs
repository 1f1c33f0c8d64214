use neuroevolution::error::Error;
use neuroevolution::fixed::ONE;
use neuroevolution::network::{LayerTopology, Network};
use rand::rngs::StdRng;
use rand::SeedableRng;

fn fixed(value: f64) -> i32 {
    (value * 65536.0).round() as i32
}

fn as_float(value: i32) -> f64 {
    value as f64 / 65536.0
}

fn topology(widths: &[usize]) -> Vec<LayerTopology> {
    widths.iter().map(|width| LayerTopology { neurons: *width }).collect()
}

fn genes(values: &[f64]) -> Vec<i32> {
    values.iter().map(|value| fixed(*value)).collect()
}

#[test]
fn two_layers_propagate_as_worked_by_hand() {
    let layers = topology(&[2, 2, 1]);
    let genome = genes(&[0.0, 1.0, 1.0, 0.0, 0.0, 1.0, 0.0, 0.5, 0.5]);
    let network = Network::from_genome(&layers, &genome).unwrap();
    let output = network.propagate(genes(&[1.0, 2.0])).unwrap();
    assert_eq!(output, vec![fixed(2.5)]);
    assert_eq!(as_float(output[0]), 2.5);
}

#[test]
fn hidden_layer_answers_as_worked_by_hand() {
    let layers = topology(&[2, 2]);
    let genome = genes(&[0.0, 1.0, 1.0, 0.0, 0.0, 1.0]);
    let network = Network::from_genome(&layers, &genome).unwrap();
    let output = network.propagate(genes(&[1.0, 2.0])).unwrap();
    assert_eq!(output, genes(&[3.0, 2.0]));
}

#[test]
fn neuron_adds_bias_to_weighted_sum() {
    let network = Network::from_genome(&topology(&[3, 1]), &genes(&[0.25, 2.0, -1.0, 0.5])).unwrap();
    let output = network.propagate(genes(&[1.0, 0.5, 4.0])).unwrap();
    assert_eq!(output, vec![fixed(0.25 + 2.0 - 0.5 + 2.0)]);
}

#[test]
fn neuron_rectifies_negative_sums_to_zero() {
    let network = Network::from_genome(&topology(&[2, 1]), &genes(&[-1.0, 1.0, 1.0])).unwrap();
    assert_eq!(network.propagate(genes(&[0.25, 0.25])).unwrap(), vec![0]);
    assert_eq!(network.propagate(genes(&[0.5, 0.5])).unwrap(), vec![0]);
    assert_eq!(network.propagate(genes(&[0.5, 0.75])).unwrap(), vec![fixed(0.25)]);
    assert_eq!(network.propagate(genes(&[-3.0, -3.0])).unwrap(), vec![0]);
}

#[test]
fn weighted_sum_is_rounded_down_once() {
    let network = Network::from_genome(&topology(&[2, 1]), &vec![0, 1, 1]).unwrap();
    assert_eq!(network.propagate(vec![32768, 32767]).unwrap(), vec![0]);
    assert_eq!(network.propagate(vec![32768, 32768]).unwrap(), vec![1]);
    let negative = Network::from_genome(&topology(&[1, 1]), &vec![2, -65537]).unwrap();
    assert_eq!(negative.propagate(vec![1]).unwrap(), vec![0]);
    let exact = Network::from_genome(&topology(&[1, 1]), &vec![2, -65536]).unwrap();
    assert_eq!(exact.propagate(vec![1]).unwrap(), vec![1]);
}

#[test]
fn neuron_output_saturates() {
    let network = Network::from_genome(&topology(&[2, 1]), &vec![i32::MAX, i32::MAX, i32::MAX]).unwrap();
    assert_eq!(network.propagate(vec![i32::MAX, i32::MAX]).unwrap(), vec![i32::MAX]);
    assert_eq!(network.propagate(vec![i32::MIN, i32::MIN]).unwrap(), vec![0]);
}

#[test]
fn raising_an_input_under_a_positive_weight_never_lowers_the_output() {
    let network = Network::from_genome(&topology(&[2, 1]), &genes(&[-0.5, 0.75, -2.0])).unwrap();
    let mut previous = 0;
    for step in -40..40 {
        let output = network.propagate(vec![fixed(step as f64 / 8.0), fixed(0.125)]).unwrap()[0];
        assert!(output >= previous);
        previous = output;
    }
    assert!(previous > 0);
}

#[test]
fn raising_an_input_under_a_negative_weight_can_lower_the_output() {
    let network = Network::from_genome(&topology(&[1, 1]), &genes(&[1.0, -1.0])).unwrap();
    assert_eq!(network.propagate(genes(&[0.0])).unwrap(), genes(&[1.0]));
    assert_eq!(network.propagate(genes(&[1.0])).unwrap(), genes(&[0.0]));
    assert_eq!(network.propagate(genes(&[2.0])).unwrap(), genes(&[0.0]));
}

#[test]
fn propagate_refuses_an_input_of_the_wrong_width() {
    let network = Network::from_genome(&topology(&[2, 1]), &genes(&[0.0, 1.0, 1.0])).unwrap();
    assert_eq!(network.propagate(vec![]), Err(Error::DimensionMismatch));
    assert_eq!(network.propagate(vec![1]), Err(Error::DimensionMismatch));
    assert_eq!(network.propagate(vec![1, 2, 3]), Err(Error::DimensionMismatch));
    assert!(network.propagate(vec![1, 2]).is_ok());
}

#[test]
fn output_has_the_width_of_the_last_layer() {
    let mut rng = StdRng::seed_from_u64(8);
    let network = Network::random(&mut rng, &topology(&[3, 5, 4, 2]));
    assert_eq!(network.propagate(vec![ONE, 0, -ONE]).unwrap().len(), 2);
}

#[test]
fn genome_length_counts_biases_and_weights() {
    assert_eq!(Network::genome_length(&topology(&[2, 2, 1])), Some(9));
    assert_eq!(Network::genome_length(&topology(&[3, 2, 1])), Some(11));
    assert_eq!(Network::genome_length(&topology(&[1, 1])), Some(2));
    assert_eq!(Network::genome_length(&topology(&[4])), Some(0));
    assert_eq!(Network::genome_length(&topology(&[])), Some(0));
    assert_eq!(Network::genome_length(&topology(&[9, 8, 7, 6])), Some(10 * 8 + 9 * 7 + 8 * 6));
}

#[test]
fn genome_length_beyond_the_machine_is_none() {
    assert_eq!(Network::genome_length(&topology(&[usize::MAX, 1])), None);
    assert_eq!(Network::genome_length(&topology(&[usize::MAX, usize::MAX])), None);
    assert_eq!(Network::genome_length(&topology(&[usize::MAX - 1, 1])), Some(usize::MAX));
    assert_eq!(Network::genome_length(&topology(&[usize::MAX - 1, 1, 1])), None);
    assert_eq!(Network::genome_length(&topology(&[1, usize::MAX / 2 + 1])), None);
}

#[test]
fn from_genome_refuses_a_genome_of_the_wrong_length() {
    let layers = topology(&[2, 2, 1]);
    assert_eq!(Network::from_genome(&layers, &vec![0; 8]).err(), Some(Error::GenomeLengthMismatch));
    assert_eq!(Network::from_genome(&layers, &vec![0; 10]).err(), Some(Error::GenomeLengthMismatch));
    assert_eq!(Network::from_genome(&layers, &vec![]).err(), Some(Error::GenomeLengthMismatch));
    assert!(Network::from_genome(&layers, &vec![0; 9]).is_ok());
    let huge = topology(&[usize::MAX, 1]);
    assert_eq!(Network::from_genome(&huge, &vec![0; 9]).err(), Some(Error::GenomeLengthMismatch));
}

#[test]
fn genome_survives_the_round_trip() {
    let layers = topology(&[3, 4, 2]);
    let genome: Vec<i32> = (0..26).map(|gene| gene * 1000 - 13000).collect();
    let network = Network::from_genome(&layers, &genome).unwrap();
    assert_eq!(network.to_genome(), genome);
    assert_eq!(network.to_genome().len(), genome.len());
}

#[test]
fn genome_is_laid_out_bias_first_neuron_by_neuron() {
    let layers = topology(&[2, 2]);
    let first = Network::from_genome(&layers, &genes(&[1.0, 0.0, 0.0, 0.0, 0.0, 0.0])).unwrap();
    assert_eq!(first.propagate(vec![0, 0]).unwrap(), genes(&[1.0, 0.0]));
    let second = Network::from_genome(&layers, &genes(&[0.0, 1.0, 0.0, 0.0, 0.0, 0.0])).unwrap();
    assert_eq!(second.propagate(genes(&[1.0, 0.0])).unwrap(), genes(&[1.0, 0.0]));
    let third = Network::from_genome(&layers, &genes(&[0.0, 0.0, 0.0, 0.0, 0.0, 1.0])).unwrap();
    assert_eq!(third.propagate(genes(&[0.0, 1.0])).unwrap(), genes(&[0.0, 1.0]));
}

#[test]
fn random_network_has_the_topology_asked_for() {
    let mut rng = StdRng::seed_from_u64(9);
    let layers = topology(&[3, 4, 2]);
    let network = Network::random(&mut rng, &layers);
    let genome = network.to_genome();
    assert_eq!(genome.len(), 26);
    assert_eq!(Some(genome.len()), Network::genome_length(&layers));
    assert!(network.propagate(vec![0, 0, 0]).is_ok());
    assert_eq!(network.propagate(vec![0, 0]), Err(Error::DimensionMismatch));
}

#[test]
fn random_weights_lie_between_minus_one_and_one() {
    let mut rng = StdRng::seed_from_u64(10);
    let network = Network::random(&mut rng, &topology(&[10, 20, 10]));
    let genome = network.to_genome();
    assert!(genome.iter().all(|gene| -ONE <= *gene && *gene <= ONE));
    assert!(genome.iter().any(|gene| *gene > ONE / 2));
    assert!(genome.iter().any(|gene| *gene < -ONE / 2));
}

#[test]
fn random_and_rebuilt_networks_are_alike() {
    let mut rng = StdRng::seed_from_u64(12);
    let layers = topology(&[4, 3, 2]);
    let network = Network::random(&mut rng, &layers);
    let rebuilt = Network::from_genome(&layers, &network.to_genome()).unwrap();
    assert_eq!(rebuilt.to_genome(), network.to_genome());
    let input = vec![ONE, -ONE / 2, ONE / 3, 0];
    assert_eq!(rebuilt.propagate(input.clone()), network.propagate(input));
}

#[test]
fn random_networks_are_reproducible_from_a_seed() {
    let layers = topology(&[4, 3, 2]);
    let first = Network::random(&mut StdRng::seed_from_u64(13), &layers);
    let second = Network::random(&mut StdRng::seed_from_u64(13), &layers);
    let other = Network::random(&mut StdRng::seed_from_u64(14), &layers);
    assert_eq!(first.to_genome(), second.to_genome());
    assert_ne!(first.to_genome(), other.to_genome());
}
