use genetic_algo::cell::Cell;
use genetic_algo::neural_network::{mix, perturb, rational_sigmoid, NeuralNetwork, WEIGHT_LIMIT};
use rand::SeedableRng;
use rand_chacha::ChaCha12Rng;

fn tiny(w_ih: i64, b_h: i64, w_ho: i64, b_o: i64) -> NeuralNetwork {
    NeuralNetwork {
        input_size: 1,
        hidden_size: 1,
        output_size: 1,
        weights_input_hidden: vec![w_ih],
        weights_hidden_output: vec![w_ho],
        biases_hidden: vec![b_h],
        biases_output: vec![b_o],
    }
}

#[test]
fn new_network_has_requested_shape_and_unit_weights() {
    let mut rng = ChaCha12Rng::seed_from_u64(3);
    let n = NeuralNetwork::new(9, 10, 4, &mut rng);
    assert_eq!(n.weights_input_hidden.len(), 90);
    assert_eq!(n.weights_hidden_output.len(), 40);
    assert_eq!(n.biases_hidden.len(), 10);
    assert_eq!(n.biases_output.len(), 4);
    for w in n.weights_input_hidden.iter().chain(n.weights_hidden_output.iter()) {
        assert!(*w >= -1_000 && *w <= 1_000);
    }
    let distinct = n.weights_input_hidden.iter().any(|w| *w != n.weights_input_hidden[0]);
    assert!(distinct);
}

#[test]
fn feedforward_exact_values() {
    let n = tiny(1_000, 0, 1_000, 0);
    // hidden: squash(0) = 500; output: squash(500_000) = 500 + 250_000_000 / 1_500_000.
    assert_eq!(n.feedforward(&vec![0]), vec![666]);
    // hidden: squash(1_000_000) = 750; output: squash(750_000) = 500 + 214.
    assert_eq!(n.feedforward(&vec![1_000]), vec![714]);
    let negative = tiny(-1_000, 0, 1_000, -1_000);
    // hidden: squash(-1_000_000) = 250; output: squash(250_000 - 1_000_000) = 500 - 214.
    assert_eq!(negative.feedforward(&vec![1_000]), vec![286]);
}

#[test]
fn feedforward_outputs_stay_in_unit_range() {
    let mut rng = ChaCha12Rng::seed_from_u64(11);
    let n = NeuralNetwork::new(9, 10, 4, &mut rng);
    let out = n.feedforward(&vec![1_000, 0, 2_000, 1_000, 0, 1_000, 500, 50, 100]);
    assert_eq!(out.len(), 4);
    for v in out {
        assert!(v >= 0 && v <= 1_000);
    }
}

#[test]
fn mix_picks_per_element() {
    assert_eq!(mix(&vec![1, 2, 3], &vec![4, 5, 6], &vec![0, 1, 0]), vec![1, 5, 3]);
    assert_eq!(mix(&vec![1, 2, 3], &vec![4, 5, 6], &vec![1, 1, 1]), vec![4, 5, 6]);
}

#[test]
fn crossover_with_coins_selects_parents() {
    let a = tiny(10, 20, 30, 40);
    let b = tiny(-10, -20, -30, -40);
    let all_a = NeuralNetwork::crossover_with(&a, &b, &vec![0], &vec![0], &vec![0], &vec![0]);
    assert_eq!(all_a.weights_input_hidden, vec![10]);
    assert_eq!(all_a.biases_output, vec![40]);
    let mixed = NeuralNetwork::crossover_with(&a, &b, &vec![1], &vec![0], &vec![1], &vec![0]);
    assert_eq!(mixed.weights_input_hidden, vec![-10]);
    assert_eq!(mixed.weights_hidden_output, vec![30]);
    assert_eq!(mixed.biases_hidden, vec![-20]);
    assert_eq!(mixed.biases_output, vec![40]);
}

#[test]
fn crossover_keeps_shape_and_parent_values() {
    let mut rng = ChaCha12Rng::seed_from_u64(5);
    let a = NeuralNetwork::new(9, 10, 4, &mut rng);
    let b = NeuralNetwork::new(9, 10, 4, &mut rng);
    let c = NeuralNetwork::crossover(&a, &b, &mut rng);
    assert_eq!((c.input_size, c.hidden_size, c.output_size), (9, 10, 4));
    assert_eq!(c.weights_input_hidden.len(), a.weights_input_hidden.len());
    assert_eq!(c.weights_hidden_output.len(), a.weights_hidden_output.len());
    for i in 0..c.weights_input_hidden.len() {
        let v = c.weights_input_hidden[i];
        assert!(v == a.weights_input_hidden[i] || v == b.weights_input_hidden[i]);
    }
    for i in 0..c.biases_hidden.len() {
        let v = c.biases_hidden[i];
        assert!(v == a.biases_hidden[i] || v == b.biases_hidden[i]);
    }
    let from_a = (0..c.weights_input_hidden.len())
        .filter(|&i| c.weights_input_hidden[i] == a.weights_input_hidden[i] && a.weights_input_hidden[i] != b.weights_input_hidden[i])
        .count();
    let from_b = (0..c.weights_input_hidden.len())
        .filter(|&i| c.weights_input_hidden[i] == b.weights_input_hidden[i] && a.weights_input_hidden[i] != b.weights_input_hidden[i])
        .count();
    assert!(from_a > 0 && from_b > 0);
}

#[test]
fn perturb_exact_values() {
    let mut v = vec![0, 999_990, -5];
    perturb(&mut v, &vec![10, 10, 999], &vec![50, 100, 100], 100);
    assert_eq!(v, vec![50, WEIGHT_LIMIT, -5]);
}

#[test]
fn mutate_keeps_shape_and_changes_some_weights() {
    let mut rng = ChaCha12Rng::seed_from_u64(9);
    let before = NeuralNetwork::new(9, 10, 4, &mut rng);
    let mut n = NeuralNetwork::new(9, 10, 4, &mut ChaCha12Rng::seed_from_u64(9));
    Cell::mutate(&mut n, 1_000, &mut rng);
    assert_eq!(n.weights_input_hidden.len(), 90);
    assert_eq!(n.biases_output.len(), 4);
    let changed = (0..90).filter(|&i| n.weights_input_hidden[i] != before.weights_input_hidden[i]).count();
    assert!(changed > 0);
    for i in 0..90 {
        assert!((n.weights_input_hidden[i] - before.weights_input_hidden[i]).abs() <= 100);
    }
    let mut unchanged = NeuralNetwork::new(9, 10, 4, &mut ChaCha12Rng::seed_from_u64(9));
    Cell::mutate(&mut unchanged, 0, &mut rng);
    assert_eq!(unchanged.weights_input_hidden, before.weights_input_hidden);
}

#[test]
fn rational_sigmoid_exact_values() {
    assert_eq!(rational_sigmoid(0), 500);
    assert_eq!(rational_sigmoid(1_000_000), 750);
    assert_eq!(rational_sigmoid(-1_000_000), 250);
    assert_eq!(rational_sigmoid(3_000_000), 875);
    assert_eq!(rational_sigmoid(1_000_000_000_000), 999);
}
