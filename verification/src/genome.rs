//! The genome of a network: its biases and weights laid out in one sequence.
//!
//! The order is fixed: layer by layer, within a layer neuron by neuron, and
//! for each neuron the bias first and then the weights. Both directions of
//! the conversion follow it.

use vstd::prelude::*;
use crate::network::{NeuronModel, LayerModel, LayerTopology, has_topology};

verus! {

/// The genes of one neuron: its bias, then its weights.
pub open spec fn neuron_genes(neuron: NeuronModel) -> Seq<i32> {
    seq![neuron.0] + neuron.1
}

/// The genes of one layer: those of its neurons, in order.
pub open spec fn layer_genes(layer: LayerModel) -> Seq<i32>
    decreases layer.len(),
{
    if layer.len() == 0 {
        Seq::empty()
    } else {
        layer_genes(layer.drop_last()) + neuron_genes(layer.last())
    }
}

/// The genome of a network: the genes of its layers, in order.
pub open spec fn genome_of(layers: Seq<LayerModel>) -> Seq<i32>
    decreases layers.len(),
{
    if layers.len() == 0 {
        Seq::empty()
    } else {
        genome_of(layers.drop_last()) + layer_genes(layers.last())
    }
}

/// The number of genes that a topology calls for: for each layer, one bias
/// and one weight per incoming value for each of its neurons.
pub open spec fn gene_count(topology: Seq<LayerTopology>) -> nat
    decreases topology.len(),
{
    if topology.len() < 2 {
        0
    } else {
        gene_count(topology.drop_last()) + ((1 + topology[topology.len() - 2].neurons)
            * topology[topology.len() - 1].neurons) as nat
    }
}

/// A neuron appended to a layer appends its genes to the layer's.
pub proof fn lemma_layer_genes_push(layer: LayerModel, neuron: NeuronModel)
    ensures
        layer_genes(layer.push(neuron)) == layer_genes(layer) + neuron_genes(neuron),
{
    assert(layer.push(neuron).drop_last() =~= layer);
}

/// A layer appended to a network appends its genes to the genome.
pub proof fn lemma_genome_push(layers: Seq<LayerModel>, layer: LayerModel)
    ensures
        genome_of(layers.push(layer)) == genome_of(layers) + layer_genes(layer),
{
    assert(layers.push(layer).drop_last() =~= layers);
}

/// A width appended to a topology adds one layer's worth of genes.
pub proof fn lemma_gene_count_push(topology: Seq<LayerTopology>, width: LayerTopology)
    requires
        topology.len() >= 1,
    ensures
        gene_count(topology.push(width)) == gene_count(topology) + (1 + topology.last().neurons)
            * width.neurons,
{
    assert(topology.push(width).drop_last() =~= topology);
}

/// The first `m` widths of a topology call for no more genes than all of it.
pub proof fn lemma_gene_count_grows(topology: Seq<LayerTopology>, m: int)
    requires
        0 <= m <= topology.len(),
    ensures
        gene_count(topology.take(m)) <= gene_count(topology),
    decreases topology.len(),
{
    if m == topology.len() {
        assert(topology.take(m) =~= topology);
    } else if topology.len() >= 2 {
        lemma_gene_count_grows(topology.drop_last(), m);
        assert(topology.drop_last().take(m) =~= topology.take(m));
        assert((1 + topology[topology.len() - 2].neurons) * topology[topology.len() - 1].neurons
            >= 0) by (nonlinear_arith);
    } else {
        assert(topology.take(m).len() < 2);
    }
}

/// A layer whose neurons all have `inputs` weights has `1 + inputs` genes for
/// each of them.
pub proof fn lemma_layer_genes_len(layer: LayerModel, inputs: nat)
    requires
        forall|j: int| 0 <= j < layer.len() ==> (#[trigger] layer[j]).1.len() == inputs,
    ensures
        layer_genes(layer).len() == (1 + inputs) * layer.len(),
    decreases layer.len(),
{
    if layer.len() > 0 {
        let rest = layer.drop_last();
        assert forall|j: int| 0 <= j < rest.len() implies (#[trigger] rest[j]).1.len() == inputs by {
            assert(rest[j] == layer[j]);
        }
        lemma_layer_genes_len(rest, inputs);
        assert(layer.last() == layer[layer.len() - 1]);
        assert((1 + inputs) * (layer.len() - 1) + (1 + inputs) == (1 + inputs) * layer.len())
            by (nonlinear_arith);
    } else {
        assert((1 + inputs) * 0 == 0) by (nonlinear_arith);
    }
}

/// A network without its last layer has the topology without its last width.
pub proof fn lemma_has_topology_drop_last(layers: Seq<LayerModel>, topology: Seq<LayerTopology>)
    requires
        has_topology(layers, topology),
        layers.len() > 0,
    ensures
        has_topology(layers.drop_last(), topology.drop_last()),
{
    let rest = layers.drop_last();
    let widths = topology.drop_last();
    assert forall|l: int| 0 <= l < rest.len() implies (#[trigger] rest[l]).len() == widths[l
        + 1].neurons by {
        assert(rest[l] == layers[l]);
    }
    assert forall|l: int, j: int| 0 <= l < rest.len() && 0 <= j < rest[l].len() implies (
    #[trigger] rest[l][j]).1.len() == widths[l].neurons by {
        assert(rest[l] == layers[l]);
        assert(layers[l][j].1.len() == topology[l].neurons);
    }
}

/// The genome of a network has exactly as many genes as its topology calls
/// for: one bias and one weight per incoming value, summed over all neurons.
pub proof fn lemma_genome_len(layers: Seq<LayerModel>, topology: Seq<LayerTopology>)
    requires
        has_topology(layers, topology),
    ensures
        genome_of(layers).len() == gene_count(topology),
    decreases layers.len(),
{
    if layers.len() > 0 {
        let rest = layers.drop_last();
        let widths = topology.drop_last();
        lemma_has_topology_drop_last(layers, topology);
        lemma_genome_len(rest, widths);
        let last = layers.len() - 1;
        assert(layers.last() == layers[last]);
        assert forall|j: int| 0 <= j < layers[last].len() implies (#[trigger] layers[last][j]).1.len()
            == topology[last].neurons by {}
        lemma_layer_genes_len(layers[last], topology[last].neurons as nat);
        assert(layers[last].len() == topology[last + 1].neurons);
    }
}

/// Two concatenations that agree, and whose first parts are equally long,
/// agree part by part.
pub proof fn lemma_concat_splits(a: Seq<i32>, b: Seq<i32>, c: Seq<i32>, d: Seq<i32>)
    requires
        a + b == c + d,
        a.len() == c.len(),
    ensures
        a == c,
        b == d,
{
    assert((a + b).subrange(0, a.len() as int) =~= a);
    assert((c + d).subrange(0, c.len() as int) =~= c);
    assert((a + b).subrange(a.len() as int, (a + b).len() as int) =~= b);
    assert((c + d).subrange(c.len() as int, (c + d).len() as int) =~= d);
}

/// Neurons with the same genes are the same neuron.
pub proof fn lemma_genes_determine_neuron(a: NeuronModel, b: NeuronModel)
    requires
        neuron_genes(a) == neuron_genes(b),
    ensures
        a == b,
{
    assert(neuron_genes(a)[0] == a.0);
    assert(neuron_genes(b)[0] == b.0);
    assert(neuron_genes(a).subrange(1, neuron_genes(a).len() as int) =~= a.1);
    assert(neuron_genes(b).subrange(1, neuron_genes(b).len() as int) =~= b.1);
}

/// Layers of one width, over one number of inputs, with the same genes are
/// the same layer.
pub proof fn lemma_genes_determine_layer(a: LayerModel, b: LayerModel, inputs: nat)
    requires
        a.len() == b.len(),
        forall|j: int| 0 <= j < a.len() ==> (#[trigger] a[j]).1.len() == inputs,
        forall|j: int| 0 <= j < b.len() ==> (#[trigger] b[j]).1.len() == inputs,
        layer_genes(a) == layer_genes(b),
    ensures
        a == b,
    decreases a.len(),
{
    if a.len() == 0 {
        assert(a =~= b);
    } else {
        let a_rest = a.drop_last();
        let b_rest = b.drop_last();
        assert forall|j: int| 0 <= j < a_rest.len() implies (#[trigger] a_rest[j]).1.len()
            == inputs by {
            assert(a_rest[j] == a[j]);
        }
        assert forall|j: int| 0 <= j < b_rest.len() implies (#[trigger] b_rest[j]).1.len()
            == inputs by {
            assert(b_rest[j] == b[j]);
        }
        lemma_layer_genes_len(a_rest, inputs);
        lemma_layer_genes_len(b_rest, inputs);
        lemma_concat_splits(
            layer_genes(a_rest),
            neuron_genes(a.last()),
            layer_genes(b_rest),
            neuron_genes(b.last()),
        );
        lemma_genes_determine_layer(a_rest, b_rest, inputs);
        lemma_genes_determine_neuron(a.last(), b.last());
        assert(a =~= a_rest.push(a.last()));
        assert(b =~= b_rest.push(b.last()));
    }
}

/// A topology and a genome determine the network: two networks of one
/// topology with the same genome are the same network. So converting a
/// network to its genome and back gives the network again.
pub proof fn lemma_genome_determines_network(
    a: Seq<LayerModel>,
    b: Seq<LayerModel>,
    topology: Seq<LayerTopology>,
)
    requires
        has_topology(a, topology),
        has_topology(b, topology),
        genome_of(a) == genome_of(b),
    ensures
        a == b,
    decreases a.len(),
{
    if a.len() == 0 {
        assert(a =~= b);
    } else {
        let a_rest = a.drop_last();
        let b_rest = b.drop_last();
        let widths = topology.drop_last();
        let last = a.len() - 1;
        lemma_has_topology_drop_last(a, topology);
        lemma_has_topology_drop_last(b, topology);
        lemma_genome_len(a_rest, widths);
        lemma_genome_len(b_rest, widths);
        lemma_concat_splits(
            genome_of(a_rest),
            layer_genes(a.last()),
            genome_of(b_rest),
            layer_genes(b.last()),
        );
        lemma_genome_determines_network(a_rest, b_rest, widths);
        assert(a.last() == a[last] && b.last() == b[last]);
        assert(a[last].len() == topology[last + 1].neurons);
        assert(b[last].len() == topology[last + 1].neurons);
        assert forall|j: int| 0 <= j < a[last].len() implies (#[trigger] a[last][j]).1.len()
            == topology[last].neurons as nat by {}
        assert forall|j: int| 0 <= j < b[last].len() implies (#[trigger] b[last][j]).1.len()
            == topology[last].neurons as nat by {}
        lemma_genes_determine_layer(a[last], b[last], topology[last].neurons as nat);
        assert(a =~= a_rest.push(a.last()));
        assert(b =~= b_rest.push(b.last()));
    }
}

} // verus!
