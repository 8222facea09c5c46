//! The image loader: offset arithmetic, dispatch of all 784 pixels, and
//! the explicit out-of-bounds failure.

use mnist_eval::MetricError;
use mnist_eval::MnistNetwork;
use mnist_eval::MnistNeuron;
use mnist_eval::toy::MeanNetwork;
use mnist_eval::toy::MeanNeuron;

#[test]
fn load_img_dispatches_the_indexed_image() {
    let mut net = MeanNetwork::new();
    let mut buf: Vec<u64> = Vec::new();
    buf.extend(std::iter::repeat(2u64).take(784));
    buf.extend(std::iter::repeat(4u64).take(784));
    assert!(net.load_img(&buf, 0).is_ok());
    assert_eq!(net.neuron_em(0), 2);
    assert!(net.load_img(&buf, 1).is_ok());
    assert_eq!(net.neuron_em(0), 4);
}

#[test]
fn load_img_reads_row_major_pixels() {
    let mut net = MeanNetwork::new();
    // one image whose pixel at flat position p holds p
    let buf: Vec<u64> = (0..784u64).collect();
    assert!(net.load_img(&buf, 0).is_ok());
    // the mean of 0..=783 is 391.5, rounded down by the neuron
    assert_eq!(net.neuron_em(0), 391);
}

#[test]
fn load_img_rejects_an_index_past_the_buffer() {
    let mut net = MeanNetwork::new();
    let buf: Vec<u64> = vec![1; 784];
    assert_eq!(net.load_img(&buf, 1), Err(MetricError::IndexError));
    // a buffer holding half an image does not hold image 0
    let short: Vec<u64> = vec![1; 400];
    assert_eq!(net.load_img(&short, 0), Err(MetricError::IndexError));
}

#[test]
fn load_img_on_a_failed_index_leaves_the_image_alone() {
    let mut net = MeanNetwork::new();
    let buf: Vec<u64> = vec![6; 784];
    assert!(net.load_img(&buf, 0).is_ok());
    let short: Vec<u64> = vec![9; 100];
    assert_eq!(net.load_img(&short, 0), Err(MetricError::IndexError));
    assert_eq!(net.neuron_em(0), 6);
}

#[test]
fn neuron_names_are_readable() {
    let neuron = MeanNeuron::new();
    assert_eq!(neuron.get_name(), "mean pixel neuron");
}
