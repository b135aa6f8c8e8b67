//! The size of the feed-forward networks of the neural collaborator.

use vstd::prelude::*;

verus! {

/// The number of inputs of layer `i` of a chain of layers that is fed
/// `input_size` values: the size of the layer before it.
pub open spec fn fan_in(input_size: usize, layers: Seq<usize>, i: int) -> nat {
    if i == 0 {
        input_size as nat
    } else {
        layers[i - 1] as nat
    }
}

/// The weights and biases of the first `n` layers of a chain: for each
/// layer one weight per input and output, and one bias per output.
pub open spec fn chain_parameters(input_size: usize, layers: Seq<usize>, n: nat) -> nat
    decreases n,
{
    if n == 0 {
        0
    } else {
        chain_parameters(input_size, layers, (n - 1) as nat) + fan_in(
            input_size,
            layers,
            n - 1,
        ) * (layers[n - 1] as nat) + (layers[n - 1] as nat)
    }
}

/// The weights and biases of `networks` networks of `hidden_layers`
/// followed by an output layer.
pub open spec fn total_parameters_spec(
    input_size: usize,
    hidden_layers: Seq<usize>,
    output_size: usize,
    networks: usize,
) -> nat {
    chain_parameters(input_size, hidden_layers.push(output_size), hidden_layers.len() + 1)
        * (networks as nat)
}

/// The chain only grows with its length.
proof fn lemma_chain_grows(input_size: usize, layers: Seq<usize>, i: nat, n: nat)
    requires
        i <= n,
    ensures
        chain_parameters(input_size, layers, i) <= chain_parameters(input_size, layers, n),
    decreases n - i,
{
    if i < n {
        lemma_chain_grows(input_size, layers, i, (n - 1) as nat);
        let f = fan_in(input_size, layers, n - 1);
        let s = layers[n - 1] as nat;
        assert(0 <= f * s) by (nonlinear_arith)
            requires
                0 <= f,
                0 <= s,
        ;
    }
}

/// `total` and the weights and biases of one more layer of `size` outputs
/// fed `inputs` values, where the sum can be counted.
fn add_layer(total: usize, inputs: usize, size: usize) -> (r: Option<usize>)
    ensures
        total + inputs * size + size <= usize::MAX ==> r == Some(
            (total + inputs * size + size) as usize,
        ),
        total + inputs * size + size > usize::MAX ==> r.is_none(),
{
    assert(0 <= inputs * size) by (nonlinear_arith);
    let weights = match inputs.checked_mul(size) {
        Some(w) => w,
        None => {
            return None;
        },
    };
    let layer = match weights.checked_add(size) {
        Some(l) => l,
        None => {
            return None;
        },
    };
    total.checked_add(layer)
}

/// The number of weights and biases of `networks` networks, each a chain of
/// `hidden_layers` and an output layer of `output_size` fed `input_size`
/// values, where that number can be counted.
pub fn calculate_total_parameters(
    input_size: usize,
    hidden_layers: &[usize],
    output_size: usize,
    networks: usize,
) -> (r: Option<usize>)
    ensures
        ({
            let total = total_parameters_spec(input_size, hidden_layers@, output_size, networks);
            if total <= usize::MAX {
                r == Some(total as usize)
            } else {
                r.is_none()
            }
        }),
{
    if networks == 0 {
        assert(total_parameters_spec(input_size, hidden_layers@, output_size, networks) == 0)
            by (nonlinear_arith)
            requires
                networks == 0,
                total_parameters_spec(input_size, hidden_layers@, output_size, networks)
                    == chain_parameters(
                    input_size,
                    hidden_layers@.push(output_size),
                    hidden_layers@.len() + 1,
                ) * (networks as nat),
        ;
        return Some(0);
    }
    let ghost layers = hidden_layers@.push(output_size);
    let ghost whole = chain_parameters(input_size, layers, hidden_layers@.len() + 1);
    let n = hidden_layers.len();
    let mut total: usize = 0;
    let mut current: usize = input_size;
    let mut i: usize = 0;
    proof {
        assert(whole <= whole * (networks as nat)) by (nonlinear_arith)
            requires
                networks >= 1,
                whole >= 0,
        ;
    }
    while i < n
        invariant
            i <= n,
            n == hidden_layers@.len(),
            layers == hidden_layers@.push(output_size),
            whole == chain_parameters(input_size, layers, hidden_layers@.len() + 1),
            whole <= whole * (networks as nat),
            whole * (networks as nat) == total_parameters_spec(
                input_size,
                hidden_layers@,
                output_size,
                networks,
            ),
            total as nat == chain_parameters(input_size, layers, i as nat),
            current as nat == fan_in(input_size, layers, i as int),
        decreases n - i,
    {
        let size = hidden_layers[i];
        assert(size == layers[i as int]);
        proof {
            lemma_chain_grows(input_size, layers, (i + 1) as nat, (n + 1) as nat);
        }
        total = match add_layer(total, current, size) {
            Some(t) => t,
            None => {
                return None;
            },
        };
        current = size;
        i += 1;
    }
    assert(output_size == layers[n as int]);
    total = match add_layer(total, current, output_size) {
        Some(t) => t,
        None => {
            return None;
        },
    };
    total.checked_mul(networks)
}

} // verus!
