//! A feedforward network of rectifying neurons over Q16.16 numbers.
//!
//! The mathematical model of a network is a sequence of layers, each a
//! sequence of neurons, each a pair of a bias and a weight sequence. All
//! contracts speak about that model.

use vstd::prelude::*;
use crate::entropy::draw_within;
use crate::error::Error;
use crate::fixed::{
    rectify, rescale, saturate, rescale_i128, saturate_i128, ONE, lemma_rectify_monotonic,
    lemma_rescale_monotonic, lemma_saturate_monotonic,
};
use crate::genome::{
    neuron_genes, layer_genes, genome_of, gene_count, lemma_layer_genes_push, lemma_genome_push,
    lemma_gene_count_push, lemma_gene_count_grows,
};

verus! {

/// A neuron as a plain value: its bias and its incoming weights.
pub type NeuronModel = (i32, Seq<i32>);

/// A layer as a plain value.
pub type LayerModel = Seq<NeuronModel>;

/// The sum of the first `n` products `weights[i] * input[i]`, at double scale.
pub open spec fn weighted_sum(weights: Seq<i32>, input: Seq<i32>, n: nat) -> int
    decreases n,
{
    if n == 0 {
        0
    } else {
        weighted_sum(weights, input, (n - 1) as nat) + weights[n - 1] * input[n - 1]
    }
}

/// What a neuron answers: `rectify(bias + dot(weights, input))`, saturated
/// into the representable range.
pub open spec fn neuron_output(neuron: NeuronModel, input: Seq<i32>) -> i32 {
    saturate(rectify(neuron.0 + rescale(weighted_sum(neuron.1, input, neuron.1.len()))))
}

/// What a layer answers: one output per neuron, in order.
pub open spec fn layer_output(layer: LayerModel, input: Seq<i32>) -> Seq<i32> {
    Seq::new(layer.len(), |j: int| neuron_output(layer[j], input))
}

/// The input after it has passed through the first `n` layers.
pub open spec fn output_after(layers: Seq<LayerModel>, input: Seq<i32>, n: nat) -> Seq<i32>
    decreases n,
{
    if n == 0 {
        input
    } else {
        layer_output(layers[n - 1], output_after(layers, input, (n - 1) as nat))
    }
}

/// What the whole network answers.
pub open spec fn network_output(layers: Seq<LayerModel>, input: Seq<i32>) -> Seq<i32> {
    output_after(layers, input, layers.len())
}

/// The number of values that feed layer `l`.
pub open spec fn width_before(layers: Seq<LayerModel>, l: int) -> nat {
    if l == 0 {
        layers[0][0].1.len()
    } else {
        layers[l - 1].len()
    }
}

/// The shape every network has: at least one layer, no empty layer, at
/// least one input, and in each neuron one weight per value that feeds its
/// layer.
pub open spec fn well_shaped(layers: Seq<LayerModel>) -> bool {
    &&& layers.len() >= 1
    &&& forall|l: int| 0 <= l < layers.len() ==> (#[trigger] layers[l]).len() >= 1
    &&& layers[0][0].1.len() >= 1
    &&& forall|l: int, j: int|
        0 <= l < layers.len() && 0 <= j < layers[l].len() ==> (#[trigger] layers[l][j]).1.len()
            == width_before(layers, l)
}

/// `high` is `low` with the value at position `i` raised, or left as it is.
pub open spec fn raised_at(low: Seq<i32>, high: Seq<i32>, i: int) -> bool {
    &&& low.len() == high.len()
    &&& 0 <= i < low.len()
    &&& low[i] <= high[i]
    &&& forall|k: int| 0 <= k < low.len() && k != i ==> low[k] == high[k]
}

/// Raising one input moves the weighted sum in the direction of that input's
/// weight: up where the weight is positive or zero, down where it is
/// negative or zero.
pub proof fn lemma_weighted_sum_follows_weight(
    weights: Seq<i32>,
    low: Seq<i32>,
    high: Seq<i32>,
    i: int,
    n: nat,
)
    requires
        raised_at(low, high, i),
        n <= low.len(),
    ensures
        weights[i] >= 0 ==> weighted_sum(weights, low, n) <= weighted_sum(weights, high, n),
        weights[i] <= 0 ==> weighted_sum(weights, low, n) >= weighted_sum(weights, high, n),
    decreases n,
{
    if n > 0 {
        lemma_weighted_sum_follows_weight(weights, low, high, i, (n - 1) as nat);
        if n - 1 == i {
            let w = weights[i] as int;
            let x = low[i] as int;
            let y = high[i] as int;
            assert(w >= 0 ==> w * x <= w * y) by (nonlinear_arith)
                requires
                    x <= y,
            ;
            assert(w <= 0 ==> w * x >= w * y) by (nonlinear_arith)
                requires
                    x <= y,
            ;
        } else {
            assert(low[n - 1] == high[n - 1]);
        }
    }
}

/// A neuron never answers below zero.
pub proof fn lemma_neuron_output_not_negative(neuron: NeuronModel, input: Seq<i32>)
    ensures
        neuron_output(neuron, input) >= 0,
{
}

/// The rectifier is monotonic: with weights and bias fixed, raising one
/// input while the others stay never lowers what the neuron answers, as long
/// as that input's weight is not negative. Under a negative weight the same
/// still holds of a neuron that answers zero: it goes on answering zero.
pub proof fn lemma_neuron_output_monotonic(
    neuron: NeuronModel,
    low: Seq<i32>,
    high: Seq<i32>,
    i: int,
)
    requires
        low.len() == neuron.1.len(),
        raised_at(low, high, i),
        neuron.1[i] >= 0 || neuron_output(neuron, low) == 0,
    ensures
        neuron_output(neuron, low) <= neuron_output(neuron, high),
{
    let n = neuron.1.len();
    let before = weighted_sum(neuron.1, low, n);
    let after = weighted_sum(neuron.1, high, n);
    lemma_weighted_sum_follows_weight(neuron.1, low, high, i, n);
    if neuron.1[i] >= 0 {
        lemma_rescale_monotonic(before, after);
        lemma_rectify_monotonic(neuron.0 + rescale(before), neuron.0 + rescale(after));
        lemma_saturate_monotonic(
            rectify(neuron.0 + rescale(before)),
            rectify(neuron.0 + rescale(after)),
        );
    } else {
        lemma_neuron_output_not_negative(neuron, high);
    }
}

/// A network answers with one value per neuron of its last layer.
pub proof fn lemma_network_output_len(layers: Seq<LayerModel>, input: Seq<i32>)
    requires
        layers.len() >= 1,
    ensures
        network_output(layers, input).len() == layers.last().len(),
{
}

/// The width of one layer of a topology. The first entry of a topology is
/// the number of inputs; each further entry is the number of neurons of a
/// layer.
#[derive(Debug, Clone, Copy, PartialEq, Eq, Structural)]
pub struct LayerTopology {
    pub neurons: usize,
}

/// A topology that a network can be built from: at least an input width and
/// one layer, and no width of zero.
pub open spec fn valid_topology(topology: Seq<LayerTopology>) -> bool {
    &&& topology.len() >= 2
    &&& forall|l: int| 0 <= l < topology.len() ==> (#[trigger] topology[l]).neurons >= 1
}

/// The layers are those that `topology` calls for: one layer per adjacent
/// pair of widths, with as many neurons as the second width says, each with
/// as many weights as the first width says.
pub open spec fn has_topology(layers: Seq<LayerModel>, topology: Seq<LayerTopology>) -> bool {
    &&& topology.len() == layers.len() + 1
    &&& forall|l: int|
        0 <= l < layers.len() ==> (#[trigger] layers[l]).len() == topology[l + 1].neurons
    &&& forall|l: int, j: int|
        0 <= l < layers.len() && 0 <= j < layers[l].len() ==> (#[trigger] layers[l][j]).1.len()
            == topology[l].neurons
}

/// Bias and weights all lie between minus one and one.
pub open spec fn neuron_within_one(neuron: NeuronModel) -> bool {
    &&& -ONE <= neuron.0 <= ONE
    &&& forall|k: int| 0 <= k < neuron.1.len() ==> -ONE <= #[trigger] neuron.1[k] <= ONE
}

/// Every bias and every weight of the network lies between minus one and one.
pub open spec fn within_one(layers: Seq<LayerModel>) -> bool {
    forall|l: int, j: int|
        0 <= l < layers.len() && 0 <= j < layers[l].len() ==> neuron_within_one(
            #[trigger] layers[l][j],
        )
}

/// A network built to a valid topology has the shape of a network.
pub proof fn lemma_topology_gives_shape(layers: Seq<LayerModel>, topology: Seq<LayerTopology>)
    requires
        valid_topology(topology),
        has_topology(layers, topology),
    ensures
        well_shaped(layers),
        width_before(layers, 0) == topology[0].neurons,
{
    assert(layers[0].len() == topology[1].neurons);
    assert forall|l: int| 0 <= l < layers.len() implies (#[trigger] layers[l]).len() >= 1 by {
        assert(topology[l + 1].neurons >= 1);
    }
    assert(layers[0][0].1.len() == topology[0].neurons);
    assert forall|l: int, j: int|
        0 <= l < layers.len() && 0 <= j < layers[l].len() implies (#[trigger] layers[l][j]).1.len()
        == width_before(layers, l) by {
        if l > 0 {
            assert(layers[l - 1].len() == topology[l - 1 + 1].neurons);
        }
    }
}

/// A layer that fits the last width of a topology, appended to a network of
/// that topology, gives a network of the topology extended by the layer's
/// own width.
pub proof fn lemma_has_topology_push(
    layers: Seq<LayerModel>,
    layer: LayerModel,
    topology: Seq<LayerTopology>,
    width: LayerTopology,
)
    requires
        has_topology(layers, topology),
        layer.len() == width.neurons,
        forall|j: int| 0 <= j < layer.len() ==> (#[trigger] layer[j]).1.len() == topology.last().neurons,
    ensures
        has_topology(layers.push(layer), topology.push(width)),
{
    let after = layers.push(layer);
    let widths = topology.push(width);
    assert forall|l: int| 0 <= l < after.len() implies (#[trigger] after[l]).len() == widths[l
        + 1].neurons by {
        if l < layers.len() {
            assert(layers[l].len() == topology[l + 1].neurons);
        }
    }
    assert forall|l: int, j: int| 0 <= l < after.len() && 0 <= j < after[l].len() implies (
    #[trigger] after[l][j]).1.len() == widths[l].neurons by {
        if l < layers.len() {
            assert(layers[l][j].1.len() == topology[l].neurons);
        } else {
            assert(after[l][j] == layer[j]);
        }
    }
}

struct Neuron {
    bias: i32,
    weights: Vec<i32>,
}

struct Layer {
    neurons: Vec<Neuron>,
}

pub struct Network {
    layers: Vec<Layer>,
}

impl Neuron {
    spec fn model(&self) -> NeuronModel {
        (self.bias, self.weights@)
    }

    fn propagate(&self, inputs: &Vec<i32>) -> (output: i32)
        requires
            inputs@.len() == self.weights@.len(),
        ensures
            output == neuron_output(self.model(), inputs@),
    {
        let mut sum: i128 = 0;
        let mut i: usize = 0;
        while i < self.weights.len()
            invariant
                i <= self.weights@.len(),
                inputs@.len() == self.weights@.len(),
                sum == weighted_sum(self.weights@, inputs@, i as nat),
                -(i * 0x4000_0000_0000_0000) <= sum <= i * 0x4000_0000_0000_0000,
            decreases self.weights@.len() - i,
        {
            let w: i128 = self.weights[i] as i128;
            let x: i128 = inputs[i] as i128;
            assert(-0x4000_0000_0000_0000 <= w * x <= 0x4000_0000_0000_0000) by (nonlinear_arith)
                requires
                    -0x8000_0000 <= w <= 0x7fff_ffff,
                    -0x8000_0000 <= x <= 0x7fff_ffff,
            ;
            sum = sum + w * x;
            i = i + 1;
        }
        saturate_i128(rectified(self.bias as i128 + rescale_i128(sum)))
    }
}

impl Neuron {
    /// A neuron with `input_size` weights; bias and weights are drawn evenly
    /// from minus one to one.
    fn random(rng: &mut rand::rngs::StdRng, input_size: usize) -> (neuron: Neuron)
        ensures
            neuron.weights@.len() == input_size,
            neuron_within_one(neuron.model()),
    {
        let bias = draw_within(rng, ONE);
        let mut weights: Vec<i32> = Vec::new();
        let mut k: usize = 0;
        while k < input_size
            invariant
                k <= input_size,
                weights@.len() == k,
                forall|m: int| 0 <= m < k ==> -ONE <= #[trigger] weights@[m] <= ONE,
            decreases input_size - k,
        {
            weights.push(draw_within(rng, ONE));
            k = k + 1;
        }
        Neuron { bias, weights }
    }
}

/// The models of a run of neurons, in order.
spec fn neuron_models(neurons: Seq<Neuron>) -> LayerModel {
    Seq::new(neurons.len(), |j: int| neurons[j].model())
}

impl Neuron {
    /// Appends the neuron's genes, bias first, to `genome`.
    fn append_genes(&self, genome: &mut Vec<i32>)
        ensures
            final(genome)@ == old(genome)@ + neuron_genes(self.model()),
    {
        let ghost before = genome@;
        genome.push(self.bias);
        let mut k: usize = 0;
        while k < self.weights.len()
            invariant
                k <= self.weights@.len(),
                genome@ == before + seq![self.bias] + self.weights@.take(k as int),
            decreases self.weights@.len() - k,
        {
            genome.push(self.weights[k]);
            assert(self.weights@.take(k + 1) =~= self.weights@.take(k as int).push(
                self.weights@[k as int],
            ));
            assert(genome@ =~= before + seq![self.bias] + self.weights@.take(k + 1));
            k = k + 1;
        }
        assert(self.weights@.take(k as int) =~= self.weights@);
        assert(genome@ =~= before + neuron_genes(self.model()));
    }

    /// Reads a neuron with `input_size` weights from `genes`, starting at
    /// `start`.
    fn from_genes(genes: &[i32], start: usize, input_size: usize) -> (neuron: Neuron)
        requires
            start + 1 + input_size <= genes@.len(),
        ensures
            neuron.weights@.len() == input_size,
            neuron_genes(neuron.model()) == genes@.subrange(
                start as int,
                start + 1 + input_size,
            ),
    {
        let available = genes.len();
        let bias = genes[start];
        let mut weights: Vec<i32> = Vec::with_capacity(input_size);
        let mut k: usize = 0;
        while k < input_size
            invariant
                k <= input_size,
                available == genes@.len(),
                start + 1 + input_size <= genes@.len(),
                weights@ == genes@.subrange(start + 1, start + 1 + k),
            decreases input_size - k,
        {
            weights.push(genes[start + 1 + k]);
            assert(weights@ =~= genes@.subrange(start + 1, start + 1 + k + 1));
            k = k + 1;
        }
        let neuron = Neuron { bias, weights };
        assert(neuron_genes(neuron.model()) =~= genes@.subrange(
            start as int,
            start + 1 + input_size,
        ));
        neuron
    }
}

/// The rectifier on machine integers.
fn rectified(x: i128) -> (r: i128)
    ensures
        r == rectify(x as int),
{
    if x > 0 {
        x
    } else {
        0
    }
}

impl Layer {
    spec fn model(&self) -> LayerModel {
        neuron_models(self.neurons@)
    }

    fn propagate(&self, inputs: &Vec<i32>) -> (outputs: Vec<i32>)
        requires
            forall|j: int|
                0 <= j < self.neurons@.len() ==> (#[trigger] self.neurons@[j]).weights@.len()
                    == inputs@.len(),
        ensures
            outputs@ == layer_output(self.model(), inputs@),
    {
        let mut outputs: Vec<i32> = Vec::with_capacity(self.neurons.len());
        let mut j: usize = 0;
        while j < self.neurons.len()
            invariant
                j <= self.neurons@.len(),
                outputs@.len() == j,
                forall|k: int|
                    0 <= k < self.neurons@.len() ==> (#[trigger] self.neurons@[k]).weights@.len()
                        == inputs@.len(),
                forall|k: int|
                    0 <= k < j ==> outputs@[k] == neuron_output(
                        (#[trigger] self.neurons@[k]).model(),
                        inputs@,
                    ),
            decreases self.neurons@.len() - j,
        {
            let output = self.neurons[j].propagate(inputs);
            outputs.push(output);
            j = j + 1;
        }
        assert(outputs@ =~= layer_output(self.model(), inputs@));
        outputs
    }
}

impl Layer {
    /// A layer of `output_neurons` random neurons that each take
    /// `input_neurons` values.
    fn random(rng: &mut rand::rngs::StdRng, input_neurons: usize, output_neurons: usize) -> (layer:
        Layer)
        ensures
            layer.model().len() == output_neurons,
            forall|j: int|
                0 <= j < output_neurons ==> (#[trigger] layer.model()[j]).1.len() == input_neurons,
            forall|j: int| 0 <= j < output_neurons ==> neuron_within_one(#[trigger] layer.model()[j]),
    {
        let mut neurons: Vec<Neuron> = Vec::new();
        let mut j: usize = 0;
        while j < output_neurons
            invariant
                j <= output_neurons,
                neurons@.len() == j,
                forall|m: int| 0 <= m < j ==> (#[trigger] neurons@[m]).weights@.len() == input_neurons,
                forall|m: int| 0 <= m < j ==> neuron_within_one((#[trigger] neurons@[m]).model()),
            decreases output_neurons - j,
        {
            neurons.push(Neuron::random(rng, input_neurons));
            j = j + 1;
        }
        let layer = Layer { neurons };
        assert forall|j: int| 0 <= j < output_neurons implies (#[trigger] layer.model()[j]).1.len()
            == input_neurons && neuron_within_one(layer.model()[j]) by {
            assert(layer.model()[j] == layer.neurons@[j].model());
        }
        layer
    }
}

impl Layer {
    /// Appends the genes of the layer's neurons, in order, to `genome`.
    fn append_genes(&self, genome: &mut Vec<i32>)
        ensures
            final(genome)@ == old(genome)@ + layer_genes(self.model()),
    {
        let ghost before = genome@;
        let mut j: usize = 0;
        assert(self.model().take(0) =~= Seq::<NeuronModel>::empty());
        assert(genome@ =~= before + layer_genes(self.model().take(0)));
        while j < self.neurons.len()
            invariant
                j <= self.neurons@.len(),
                genome@ == before + layer_genes(self.model().take(j as int)),
            decreases self.neurons@.len() - j,
        {
            let ghost so_far = genome@;
            self.neurons[j].append_genes(genome);
            proof {
                let done = self.model().take(j as int);
                let neuron = self.neurons@[j as int].model();
                assert(self.model().take(j + 1) =~= done.push(neuron));
                lemma_layer_genes_push(done, neuron);
                assert(genome@ =~= before + layer_genes(self.model().take(j + 1)));
            }
            j = j + 1;
        }
        assert(self.model().take(j as int) =~= self.model());
    }

    /// Reads a layer of `output_neurons` neurons with `input_neurons` weights
    /// each from `genes`, starting at `start`, and says where it stopped.
    fn from_genes(genes: &[i32], start: usize, input_neurons: usize, output_neurons: usize) -> (read:
        (Layer, usize))
        requires
            start + (1 + input_neurons) * output_neurons <= genes@.len(),
        ensures
            read.1 == start + (1 + input_neurons) * output_neurons,
            read.0.model().len() == output_neurons,
            forall|j: int|
                0 <= j < output_neurons ==> (#[trigger] read.0.model()[j]).1.len() == input_neurons,
            layer_genes(read.0.model()) == genes@.subrange(start as int, read.1 as int),
    {
        let available = genes.len();
        let mut neurons: Vec<Neuron> = Vec::with_capacity(output_neurons);
        let mut cursor: usize = start;
        let mut j: usize = 0;
        assert((1 + input_neurons) * 0 == 0) by (nonlinear_arith);
        assert(layer_genes(neuron_models(neurons@)) =~= genes@.subrange(start as int, cursor as int));
        while j < output_neurons
            invariant
                j <= output_neurons,
                available == genes@.len(),
                start + (1 + input_neurons) * output_neurons <= genes@.len(),
                cursor == start + (1 + input_neurons) * j,
                neurons@.len() == j,
                forall|m: int|
                    0 <= m < j ==> (#[trigger] neurons@[m]).weights@.len() == input_neurons,
                layer_genes(neuron_models(neurons@)) == genes@.subrange(start as int, cursor as int),
            decreases output_neurons - j,
        {
            assert((1 + input_neurons) * (j + 1) == (1 + input_neurons) * j + 1 + input_neurons
                && (1 + input_neurons) * (j + 1) <= (1 + input_neurons) * output_neurons)
                by (nonlinear_arith)
                requires
                    j + 1 <= output_neurons,
            ;
            let ghost done = neuron_models(neurons@);
            let neuron = Neuron::from_genes(genes, cursor, input_neurons);
            proof {
                lemma_layer_genes_push(done, neuron.model());
                assert(neuron_models(neurons@.push(neuron)) =~= done.push(neuron.model()));
                assert(genes@.subrange(start as int, cursor as int) + genes@.subrange(
                    cursor as int,
                    cursor + 1 + input_neurons,
                ) =~= genes@.subrange(start as int, cursor + 1 + input_neurons));
            }
            neurons.push(neuron);
            cursor = cursor + 1 + input_neurons;
            j = j + 1;
        }
        let layer = Layer { neurons };
        assert forall|j: int| 0 <= j < output_neurons implies (#[trigger] layer.model()[j]).1.len()
            == input_neurons by {
            assert(layer.model()[j] == layer.neurons@[j].model());
        }
        (layer, cursor)
    }
}

/// The models of a run of layers, in order.
spec fn layer_models(layers: Seq<Layer>) -> Seq<LayerModel> {
    Seq::new(layers.len(), |l: int| layers[l].model())
}

impl Network {
    /// The network as a plain value: its layers, in order.
    pub closed spec fn view(&self) -> Seq<LayerModel> {
        layer_models(self.layers@)
    }

    /// A network of the given topology whose biases and weights are drawn
    /// evenly from minus one to one.
    pub fn random(rng: &mut rand::rngs::StdRng, layers: &[LayerTopology]) -> (network: Network)
        requires
            valid_topology(layers@),
        ensures
            has_topology(network@, layers@),
            well_shaped(network@),
            within_one(network@),
    {
        let mut built_layers: Vec<Layer> = Vec::new();
        let count = layers.len();
        let mut l: usize = 0;
        while l + 1 < count
            invariant
                count == layers@.len(),
                l + 1 <= layers@.len(),
                built_layers@.len() == l,
                has_topology(layer_models(built_layers@), layers@.take(l + 1)),
                within_one(layer_models(built_layers@)),
            decreases layers@.len() - l,
        {
            let input_neurons = layers[l].neurons;
            let output_neurons = layers[l + 1].neurons;
            let ghost before = layer_models(built_layers@);
            let layer = Layer::random(rng, input_neurons, output_neurons);
            built_layers.push(layer);
            proof {
                let after = layer_models(built_layers@);
                assert(after =~= before.push(layer.model()));
                assert(layers@.take(l + 2) =~= layers@.take(l + 1).push(layers@[l + 1]));
                lemma_has_topology_push(before, layer.model(), layers@.take(l + 1), layers@[l + 1]);
                assert forall|m: int, j: int|
                    0 <= m < after.len() && 0 <= j < after[m].len() implies neuron_within_one(
                    #[trigger] after[m][j],
                ) by {
                    if m < l {
                        assert(neuron_within_one(before[m][j]));
                    } else {
                        assert(after[m][j] == layer.model()[j]);
                    }
                }
            }
            l = l + 1;
        }
        proof {
            assert(layers@.take(l + 1) =~= layers@);
            lemma_topology_gives_shape(layer_models(built_layers@), layers@);
        }
        Network { layers: built_layers }
    }

    #[verifier::type_invariant]
    spec fn shaped(&self) -> bool {
        well_shaped(self@)
    }

    /// The number of genes that a network of the given topology has, unless
    /// that number is beyond what a `usize` holds.
    pub fn genome_length(layers: &[LayerTopology]) -> (length: Option<usize>)
        ensures
            gene_count(layers@) <= usize::MAX ==> length == Some(gene_count(layers@) as usize),
            gene_count(layers@) > usize::MAX ==> length.is_none(),
    {
        let count = layers.len();
        if count < 2 {
            return Some(0);
        }
        let mut length: usize = 0;
        let mut l: usize = 0;
        assert(layers@.take(1).len() < 2);
        while l + 1 < count
            invariant
                count == layers@.len(),
                l + 1 <= count,
                length == gene_count(layers@.take(l + 1)),
            decreases count - l,
        {
            let inputs: u128 = layers[l].neurons as u128;
            let outputs: u128 = layers[l + 1].neurons as u128;
            proof {
                assert(layers@.take(l + 2) =~= layers@.take(l + 1).push(layers@[l + 1]));
                lemma_gene_count_push(layers@.take(l + 1), layers@[l + 1]);
                lemma_gene_count_grows(layers@, l + 2);
                assert(0 <= (1 + inputs) * outputs <= 0x1_0000_0000_0000_0000
                    * 0xffff_ffff_ffff_ffff) by (nonlinear_arith)
                    requires
                        0 <= inputs <= 0xffff_ffff_ffff_ffff,
                        0 <= outputs <= 0xffff_ffff_ffff_ffff,
                ;
            }
            let needed: u128 = (1 + inputs) * outputs;
            if needed > usize::MAX as u128 || length as u128 + needed > usize::MAX as u128 {
                return None;
            }
            length = (length as u128 + needed) as usize;
            l = l + 1;
        }
        assert(layers@.take(l + 1) =~= layers@);
        Some(length)
    }

    /// Builds the network of the given topology whose genome is `genes`.
    ///
    /// A genome that does not have exactly the length that the topology
    /// calls for is refused: nothing is cut off and nothing is filled in.
    pub fn from_genome(layers: &[LayerTopology], genes: &[i32]) -> (result: Result<Network, Error>)
        requires
            valid_topology(layers@),
        ensures
            genes@.len() == gene_count(layers@) ==> (result matches Ok(network) && has_topology(
                network@,
                layers@,
            ) && well_shaped(network@) && genome_of(network@) == genes@),
            genes@.len() != gene_count(layers@) ==> result == Err::<Network, Error>(
                Error::GenomeLengthMismatch,
            ),
    {
        let available = genes.len();
        let fits = match Network::genome_length(layers) {
            Some(length) => length == available,
            None => false,
        };
        if !fits {
            return Err(Error::GenomeLengthMismatch);
        }
        let count = layers.len();
        let mut built_layers: Vec<Layer> = Vec::with_capacity(count - 1);
        let mut cursor: usize = 0;
        let mut l: usize = 0;
        assert(layers@.take(1).len() < 2);
        assert(genome_of(layer_models(built_layers@)) =~= genes@.take(0));
        while l + 1 < count
            invariant
                count == layers@.len(),
                l + 1 <= count,
                genes@.len() == gene_count(layers@),
                built_layers@.len() == l,
                cursor == gene_count(layers@.take(l + 1)),
                has_topology(layer_models(built_layers@), layers@.take(l + 1)),
                genome_of(layer_models(built_layers@)) == genes@.take(cursor as int),
            decreases count - l,
        {
            let ghost before = layer_models(built_layers@);
            proof {
                assert(layers@.take(l + 2) =~= layers@.take(l + 1).push(layers@[l + 1]));
                lemma_gene_count_push(layers@.take(l + 1), layers@[l + 1]);
                lemma_gene_count_grows(layers@, l + 2);
                assert((1 + layers@[l as int].neurons) * layers@[l + 1].neurons >= 0)
                    by (nonlinear_arith);
            }
            let (layer, stop) = Layer::from_genes(genes, cursor, layers[l].neurons, layers[l + 1].neurons);
            built_layers.push(layer);
            proof {
                assert(layer_models(built_layers@) =~= before.push(layer.model()));
                lemma_has_topology_push(before, layer.model(), layers@.take(l + 1), layers@[l + 1]);
                lemma_genome_push(before, layer.model());
                assert(genes@.take(cursor as int) + genes@.subrange(cursor as int, stop as int)
                    =~= genes@.take(stop as int));
            }
            cursor = stop;
            l = l + 1;
        }
        proof {
            assert(layers@.take(l + 1) =~= layers@);
            assert(genes@.take(cursor as int) =~= genes@);
            lemma_topology_gives_shape(layer_models(built_layers@), layers@);
        }
        Ok(Network { layers: built_layers })
    }

    /// Lays out the biases and weights of the network as a genome.
    pub fn to_genome(&self) -> (genome: Vec<i32>)
        ensures
            genome@ == genome_of(self@),
    {
        let mut genome: Vec<i32> = Vec::new();
        let mut l: usize = 0;
        assert(self@.take(0) =~= Seq::<LayerModel>::empty());
        assert(genome@ =~= genome_of(self@.take(0)));
        while l < self.layers.len()
            invariant
                l <= self.layers@.len(),
                genome@ == genome_of(self@.take(l as int)),
            decreases self.layers@.len() - l,
        {
            self.layers[l].append_genes(&mut genome);
            proof {
                let done = self@.take(l as int);
                let layer = self.layers@[l as int].model();
                assert(self@.take(l + 1) =~= done.push(layer));
                lemma_genome_push(done, layer);
            }
            l = l + 1;
        }
        assert(self@.take(l as int) =~= self@);
        genome
    }

    /// Feeds `input` through every layer in turn.
    ///
    /// The input must have one value per input of the first layer; any other
    /// length is refused and nothing is computed.
    pub fn propagate(&self, input: Vec<i32>) -> (result: Result<Vec<i32>, Error>)
        ensures
            well_shaped(self@),
            input@.len() == width_before(self@, 0) ==> (result matches Ok(output) && output@
                == network_output(self@, input@)),
            input@.len() != width_before(self@, 0) ==> result == Err::<Vec<i32>, Error>(
                Error::DimensionMismatch,
            ),
    {
        proof {
            use_type_invariant(self);
        }
        assert(self@.len() == self.layers@.len());
        assert(self@[0] == self.layers@[0].model());
        assert(self@[0][0] == self.layers@[0].neurons@[0].model());
        if input.len() != self.layers[0].neurons[0].weights.len() {
            return Err(Error::DimensionMismatch);
        }
        let ghost given = input@;
        let mut current = input;
        let mut l: usize = 0;
        while l < self.layers.len()
            invariant
                l <= self.layers@.len(),
                well_shaped(self@),
                self@.len() == self.layers@.len(),
                current@ == output_after(self@, given, l as nat),
                l < self.layers@.len() ==> current@.len() == width_before(self@, l as int),
            decreases self.layers@.len() - l,
        {
            let layer = &self.layers[l];
            assert(self@[l as int] == layer.model());
            assert forall|j: int| 0 <= j < layer.neurons@.len() implies (#[trigger] layer.neurons@[j]).weights@.len()
                == current@.len() by {
                assert(self@[l as int][j] == layer.neurons@[j].model());
            }
            current = layer.propagate(&current);
            l = l + 1;
        }
        Ok(current)
    }
}

} // verus!
