use vstd::prelude::*;

use crate::activation::Activation;
use crate::arch::Arch;
use crate::error::ShapeError;
use crate::mat::Mat;

verus! {

/// A feed-forward network: per connection a weight matrix (`in x out`), a bias row
/// (`1 x out`) and an activation.
#[derive(Debug)]
pub struct NeuralNet<T> {
    weights: Vec<Mat<T>>,
    biases: Vec<Mat<T>>,
    activations: Vec<Activation>,
}

impl<T> NeuralNet<T> {
    #[verifier::type_invariant]
    spec fn inv(self) -> bool {
        &&& self.weights@.len() == self.biases@.len()
        &&& self.weights@.len() == self.activations@.len()
        &&& forall|i: int| 0 <= i < self.weights@.len() ==> {
            &&& #[trigger] self.biases@[i].nrows() == 1
            &&& self.biases@[i].ncols() == self.weights@[i].ncols()
        }
        &&& forall|i: int| 0 < i < self.weights@.len() ==> #[trigger] self.weights@[i].nrows() == self.weights@[i - 1].ncols()
    }

    /// The weight matrices, one per connection.
    pub closed spec fn weights_view(&self) -> Seq<Mat<T>> {
        self.weights@
    }

    /// The bias rows, one per connection.
    pub closed spec fn biases_view(&self) -> Seq<Mat<T>> {
        self.biases@
    }

    /// The activations, one per connection.
    pub closed spec fn activations_view(&self) -> Seq<Activation> {
        self.activations@
    }

    /// Number of connections.
    pub open spec fn layer_count(&self) -> nat {
        self.weights_view().len()
    }

    /// The parameters fit together: one weight, bias and activation per connection,
    /// each bias a row as wide as its weight, each weight as tall as the previous is wide.
    pub open spec fn consistent(&self) -> bool {
        &&& self.biases_view().len() == self.layer_count()
        &&& self.activations_view().len() == self.layer_count()
        &&& forall|i: int| 0 <= i < self.layer_count() ==> {
            &&& #[trigger] self.biases_view()[i].nrows() == 1
            &&& self.biases_view()[i].ncols() == self.weights_view()[i].ncols()
        }
        &&& forall|i: int| 0 < i < self.layer_count() ==> #[trigger] self.weights_view()[i].nrows() == self.weights_view()[i - 1].ncols()
    }

    /// `y` is what connection `i` makes of `x`: `activation_i(x * weight_i + bias_i)`,
    /// with the product folded from `zero` through `mul_add`, the bias added to each
    /// row through `add`, and the activation evaluated by `kernel`.
    pub open spec fn is_layer_step<M: Fn(T, T, T) -> T, A: Fn(T, T) -> T, K: Fn(Activation, T) -> T>(
        &self,
        i: int,
        x: Mat<T>,
        y: Mat<T>,
        zero: T,
        mul_add: M,
        add: A,
        kernel: K,
    ) -> bool {
        &&& y.nrows() == x.nrows()
        &&& y.ncols() == self.weights_view()[i].ncols()
        &&& exists|z: Mat<T>, s: Mat<T>|
            #[trigger] z.is_product_of(&x, &self.weights_view()[i], zero, mul_add)
                && #[trigger] s.is_row_zip_of(&z, &self.biases_view()[i], add)
                && y.is_activation_of(&s, self.activations_view()[i], kernel)
    }

    /// `outs` holds the outputs of the first `outs.len()` connections, in order, the
    /// first fed with `input` and each later one with the output before it.
    pub open spec fn is_trace<M: Fn(T, T, T) -> T, A: Fn(T, T) -> T, K: Fn(Activation, T) -> T>(
        &self,
        input: Mat<T>,
        outs: Seq<Mat<T>>,
        zero: T,
        mul_add: M,
        add: A,
        kernel: K,
    ) -> bool {
        &&& outs.len() <= self.layer_count()
        &&& forall|i: int| 0 <= i < outs.len() ==> #[trigger] self.is_layer_step(
            i,
            layer_input(input, outs, i),
            outs[i],
            zero,
            mul_add,
            add,
            kernel,
        )
    }
}

/// What connection `i` is fed: `input` for the first, else the output before it.
pub open spec fn layer_input<T>(input: Mat<T>, outs: Seq<Mat<T>>, i: int) -> Mat<T> {
    if i == 0 {
        input
    } else {
        outs[i - 1]
    }
}

impl<T: Copy> NeuralNet<T> {
    /// Number of connections.
    pub fn num_layers(&self) -> (n: usize)
        ensures
            n == self.layer_count(),
            self.consistent(),
    {
        proof {
            use_type_invariant(self);
        }
        self.weights.len()
    }

    /// The weight matrices, one per connection.
    pub fn weights(&self) -> (w: &Vec<Mat<T>>)
        ensures
            w@ == self.weights_view(),
    {
        &self.weights
    }

    /// The bias rows, one per connection.
    pub fn biases(&self) -> (b: &Vec<Mat<T>>)
        ensures
            b@ == self.biases_view(),
    {
        &self.biases
    }

    /// The activations, one per connection.
    pub fn activations(&self) -> (a: &Vec<Activation>)
        ensures
            a@ == self.activations_view(),
    {
        &self.activations
    }
}

impl<T: Copy> NeuralNet<T> {
    /// Allocates one `in x out` weight matrix from `init(in, out)` and one `1 x out`
    /// bias row of `zero` per connection of `arch`, and keeps its activations.
    pub fn from_arch<F: Fn(usize, usize) -> Mat<T>>(arch: &Arch, zero: T, init: &F) -> (r: Result<NeuralNet<T>, ShapeError>)
        requires
            forall|a: usize, b: usize| init.requires((a, b)),
        ensures
            !arch.counts_match() ==> r == Err::<NeuralNet<T>, ShapeError>(
                ShapeError::ActivationCount {
                    layers: arch.layers@.len() as usize,
                    activations: arch.activations@.len() as usize,
                },
            ),
            r is Ok ==> arch.well_formed(),
            (arch.well_formed() && forall|a: usize, b: usize, m: Mat<T>|
                #[trigger] init.ensures((a, b), m) ==> m.nrows() == a && m.ncols() == b) ==> r is Ok,
            r matches Ok(net) ==> net.is_built_from(arch, zero),
            r matches Ok(net) ==> forall|j: int| 0 <= j < net.layer_count() ==> init.ensures(
                (arch.layers@[j], arch.layers@[j + 1]),
                #[trigger] net.weights_view()[j],
            ),
    {
        if arch.layers.len() == 0 || arch.activations.len() != arch.layers.len() - 1 {
            return Err(
                ShapeError::ActivationCount {
                    layers: arch.layers.len(),
                    activations: arch.activations.len(),
                },
            );
        }
        let n = arch.activations.len();
        let mut weights: Vec<Mat<T>> = Vec::new();
        let mut biases: Vec<Mat<T>> = Vec::new();
        let mut activations: Vec<Activation> = Vec::new();
        let mut i: usize = 0;
        while i < n
            invariant
                n == arch.activations@.len(),
                arch.layers@.len() == n + 1,
                forall|a: usize, b: usize| init.requires((a, b)),
                i <= n,
                weights@.len() == i,
                biases@.len() == i,
                activations@.len() == i,
                forall|j: int| 0 <= j < i ==> #[trigger] activations@[j] == arch.activations@[j],
                forall|j: int| 0 <= j < i ==> #[trigger] arch.layers@[j] > 0,
                i > 0 ==> arch.layers@[i as int] > 0,
                forall|j: int| 0 <= j < i ==> {
                    &&& #[trigger] weights@[j].nrows() == arch.layers@[j]
                    &&& weights@[j].ncols() == arch.layers@[j + 1]
                    &&& init.ensures((arch.layers@[j], arch.layers@[j + 1]), weights@[j])
                    &&& biases@[j].nrows() == 1
                    &&& biases@[j].ncols() == arch.layers@[j + 1]
                    &&& forall|k: int| 0 <= k < biases@[j]@.len() ==> #[trigger] biases@[j]@[k] == zero
                },
            decreases n - i,
        {
            let fan_in = arch.layers[i];
            let fan_out = arch.layers[i + 1];
            if fan_in == 0 || fan_out == 0 {
                return Err(ShapeError::ZeroExtent { rows: fan_in, cols: fan_out });
            }
            let w = init(fan_in, fan_out);
            let (w_rows, w_cols) = w.shape();
            if w_rows != fan_in || w_cols != fan_out {
                return Err(
                    ShapeError::Mismatch {
                        left_rows: fan_in,
                        left_cols: fan_out,
                        right_rows: w_rows,
                        right_cols: w_cols,
                    },
                );
            }
            let b = Mat::new(1, fan_out, zero);
            weights.push(w);
            biases.push(b);
            activations.push(arch.activations[i]);
            i = i + 1;
        }
        proof {
            assert(activations@ =~= arch.activations@);
            assert forall|j: int| 0 < j < n implies #[trigger] weights@[j].nrows() == weights@[j - 1].ncols() by {
                assert(weights@[j - 1].nrows() == arch.layers@[j - 1]);
                assert(weights@[j].nrows() == arch.layers@[j]);
            }
            assert forall|j: int| 0 <= j < n implies #[trigger] biases@[j].nrows() == 1 && biases@[j].ncols() == weights@[j].ncols() by {
                assert(weights@[j].nrows() == arch.layers@[j]);
            }
        }
        let net = NeuralNet { weights, biases, activations };
        proof {
            assert(net.weights_view() == weights@);
            assert(net.biases_view() == biases@);
            assert forall|j: int| 0 <= j < net.layer_count() implies {
                &&& #[trigger] net.weights_view()[j].nrows() == arch.layers@[j]
                &&& net.weights_view()[j].ncols() == arch.layers@[j + 1]
                &&& net.biases_view()[j].nrows() == 1
                &&& net.biases_view()[j].ncols() == arch.layers@[j + 1]
                &&& forall|k: int| 0 <= k < net.biases_view()[j]@.len() ==> #[trigger] net.biases_view()[j]@[k] == zero
                &&& init.ensures((arch.layers@[j], arch.layers@[j + 1]), net.weights_view()[j])
            } by {
                assert(weights@[j].nrows() == arch.layers@[j]);
            }
            assert(net.is_built_from(arch, zero));
            assert forall|j: int| 0 <= j < net.layer_count() implies init.ensures(
                (arch.layers@[j], arch.layers@[j + 1]),
                #[trigger] net.weights_view()[j],
            ) by {
                assert(weights@[j].nrows() == arch.layers@[j]);
            }
        }
        Ok(net)
    }
}

impl<T: Copy> NeuralNet<T> {
    /// Output of connection `layer_idx` for `input`:
    /// `activation(input * weight + bias)`, the bias added to every row.
    pub fn forward_layer<M: Fn(T, T, T) -> T, A: Fn(T, T) -> T, K: Fn(Activation, T) -> T>(
        &self,
        layer_idx: usize,
        input: &Mat<T>,
        zero: T,
        mul_add: &M,
        add: &A,
        kernel: &K,
    ) -> (r: Result<Mat<T>, ShapeError>)
        requires
            layer_idx < self.layer_count(),
            input.nrows() * self.weights_view()[layer_idx as int].ncols() <= usize::MAX,
            forall|acc: T, x: T, y: T| mul_add.requires((acc, x, y)),
            forall|x: T, y: T| add.requires((x, y)),
            forall|a: Activation, v: T| kernel.requires((a, v)),
        ensures
            r is Ok <==> input.ncols() == self.weights_view()[layer_idx as int].nrows(),
            r is Err ==> r == Err::<Mat<T>, ShapeError>(
                input.mismatch(&self.weights_view()[layer_idx as int]),
            ),
            r matches Ok(y) ==> self.is_layer_step(layer_idx as int, *input, y, zero, *mul_add, *add, *kernel),
    {
        proof {
            use_type_invariant(self);
        }
        let w = &self.weights[layer_idx];
        let b = &self.biases[layer_idx];
        let act = self.activations[layer_idx];
        let z = match input.dot(w, zero, mul_add) {
            Ok(z) => z,
            Err(e) => {
                return Err(e);
            },
        };
        let mut s = match z.zip_map_row(b, add) {
            Ok(s) => s,
            Err(e) => {
                return Err(e);
            },
        };
        let ghost summed = s;
        act.apply_inplace(&mut s, kernel);
        proof {
            assert(z.is_product_of(input, &self.weights_view()[layer_idx as int], zero, *mul_add));
            assert(summed.is_row_zip_of(&z, &self.biases_view()[layer_idx as int], *add));
            assert(s.is_activation_of(&summed, self.activations_view()[layer_idx as int], *kernel));
        }
        Ok(s)
    }

    /// Feeds `input` through every connection in order and returns each connection's
    /// output, the last being the network's output.
    pub fn forward_all<M: Fn(T, T, T) -> T, A: Fn(T, T) -> T, K: Fn(Activation, T) -> T>(
        &self,
        input: &Mat<T>,
        zero: T,
        mul_add: &M,
        add: &A,
        kernel: &K,
    ) -> (r: Result<Vec<Mat<T>>, ShapeError>)
        requires
            forall|i: int| 0 <= i < self.layer_count() ==> input.nrows() * #[trigger] self.weights_view()[i].ncols() <= usize::MAX,
            forall|acc: T, x: T, y: T| mul_add.requires((acc, x, y)),
            forall|x: T, y: T| add.requires((x, y)),
            forall|a: Activation, v: T| kernel.requires((a, v)),
        ensures
            r is Ok <==> (self.layer_count() == 0 || input.ncols() == self.weights_view()[0].nrows()),
            r is Err ==> r == Err::<Vec<Mat<T>>, ShapeError>(input.mismatch(&self.weights_view()[0])),
            r matches Ok(outs) ==> {
                &&& outs@.len() == self.layer_count()
                &&& self.is_trace(*input, outs@, zero, *mul_add, *add, *kernel)
                &&& outs@.len() > 0 ==> outs@.last().nrows() == input.nrows()
            },
    {
        proof {
            use_type_invariant(self);
        }
        let n = self.weights.len();
        let mut outs: Vec<Mat<T>> = Vec::new();
        let mut i: usize = 0;
        while i < n
            invariant
                n == self.layer_count(),
                self.inv(),
                self.consistent(),
                forall|i: int| 0 <= i < self.layer_count() ==> input.nrows() * #[trigger] self.weights_view()[i].ncols() <= usize::MAX,
                forall|acc: T, x: T, y: T| mul_add.requires((acc, x, y)),
                forall|x: T, y: T| add.requires((x, y)),
                forall|a: Activation, v: T| kernel.requires((a, v)),
                i <= n,
                outs@.len() == i,
                i > 0 ==> input.ncols() == self.weights_view()[0].nrows(),
                i > 0 ==> outs@[i - 1].nrows() == input.nrows(),
                i > 0 ==> outs@[i - 1].ncols() == self.weights_view()[i - 1].ncols(),
                self.is_trace(*input, outs@, zero, *mul_add, *add, *kernel),
            decreases n - i,
        {
            let step = if i == 0 {
                self.forward_layer(0, input, zero, mul_add, add, kernel)
            } else {
                let prev = &outs[i - 1];
                self.forward_layer(i, prev, zero, mul_add, add, kernel)
            };
            let y = match step {
                Ok(y) => y,
                Err(e) => {
                    return Err(e);
                },
            };
            let ghost before = outs@;
            outs.push(y);
            proof {
                assert forall|j: int| 0 <= j < outs@.len() implies #[trigger] self.is_layer_step(
                    j,
                    layer_input(*input, outs@, j),
                    outs@[j],
                    zero,
                    *mul_add,
                    *add,
                    *kernel,
                ) by {
                    if j < i {
                        assert(outs@[j] == before[j]);
                        assert(layer_input(*input, outs@, j) == layer_input(*input, before, j));
                        assert(self.is_layer_step(j, layer_input(*input, before, j), before[j], zero, *mul_add, *add, *kernel));
                    }
                }
            }
            i = i + 1;
        }
        Ok(outs)
    }

    /// Feeds `input` through every connection in order and returns the last output;
    /// with no connections, a copy of `input`.
    pub fn forward<M: Fn(T, T, T) -> T, A: Fn(T, T) -> T, K: Fn(Activation, T) -> T>(
        &self,
        input: &Mat<T>,
        zero: T,
        mul_add: &M,
        add: &A,
        kernel: &K,
    ) -> (r: Result<Mat<T>, ShapeError>)
        requires
            forall|i: int| 0 <= i < self.layer_count() ==> input.nrows() * #[trigger] self.weights_view()[i].ncols() <= usize::MAX,
            forall|acc: T, x: T, y: T| mul_add.requires((acc, x, y)),
            forall|x: T, y: T| add.requires((x, y)),
            forall|a: Activation, v: T| kernel.requires((a, v)),
        ensures
            r is Ok <==> (self.layer_count() == 0 || input.ncols() == self.weights_view()[0].nrows()),
            r is Err ==> r == Err::<Mat<T>, ShapeError>(input.mismatch(&self.weights_view()[0])),
            r matches Ok(y) ==> {
                &&& y.nrows() == input.nrows()
                &&& self.layer_count() == 0 ==> y.ncols() == input.ncols() && y@ == input@
                &&& self.layer_count() > 0 ==> y.ncols() == self.weights_view().last().ncols()
                &&& self.layer_count() > 0 ==> exists|outs: Seq<Mat<T>>|
                    #[trigger] self.is_trace(*input, outs, zero, *mul_add, *add, *kernel)
                        && outs.len() == self.layer_count() && outs.last() == y
            },
    {
        let n = self.num_layers();
        let mut outs = match self.forward_all(input, zero, mul_add, add, kernel) {
            Ok(outs) => outs,
            Err(e) => {
                return Err(e);
            },
        };
        let ghost all = outs@;
        match outs.pop() {
            Some(y) => {
                proof {
                    let k = (n - 1) as int;
                    assert(self.is_layer_step(k, layer_input(*input, all, k), all[k], zero, *mul_add, *add, *kernel));
                    assert(all.last() == y);
                    assert(self.is_trace(*input, all, zero, *mul_add, *add, *kernel));
                }
                Ok(y)
            },
            None => Ok(input.copied()),
        }
    }
}

impl<T> NeuralNet<T> {
    /// The network's parameters have the shapes that `arch` gives, its biases are all `zero`, and its activations are those of `arch`.
    pub open spec fn is_built_from(&self, arch: &Arch, zero: T) -> bool {
        &&& self.layer_count() == arch.connections()
        &&& self.activations_view() == arch.activations@
        &&& forall|j: int| 0 <= j < self.layer_count() ==> {
            &&& #[trigger] self.weights_view()[j].nrows() == arch.layers@[j]
            &&& self.weights_view()[j].ncols() == arch.layers@[j + 1]
            &&& self.biases_view()[j].nrows() == 1
            &&& self.biases_view()[j].ncols() == arch.layers@[j + 1]
            &&& forall|k: int| 0 <= k < self.biases_view()[j]@.len() ==> #[trigger] self.biases_view()[j]@[k] == zero
        }
    }
}

/// Every output in a trace has as many rows as the input.
proof fn lemma_trace_rows<T, M: Fn(T, T, T) -> T, A: Fn(T, T) -> T, K: Fn(Activation, T) -> T>(
    net: NeuralNet<T>,
    input: Mat<T>,
    outs: Seq<Mat<T>>,
    zero: T,
    mul_add: M,
    add: A,
    kernel: K,
    k: int,
)
    requires
        net.is_trace(input, outs, zero, mul_add, add, kernel),
        0 <= k < outs.len(),
    ensures
        outs[k].nrows() == input.nrows(),
    decreases k,
{
    assert(net.is_layer_step(k, layer_input(input, outs, k), outs[k], zero, mul_add, add, kernel));
    if k > 0 {
        lemma_trace_rows(net, input, outs, zero, mul_add, add, kernel, k - 1);
    }
}

/// A network built from `arch`, run over all its connections, turns an `r x in`
/// input into an `r x out` output, `out` being the width of the last layer.
pub proof fn lemma_forward_shape<T, M: Fn(T, T, T) -> T, A: Fn(T, T) -> T, K: Fn(Activation, T) -> T>(
    net: NeuralNet<T>,
    arch: Arch,
    zero: T,
    input: Mat<T>,
    outs: Seq<Mat<T>>,
    mul_add: M,
    add: A,
    kernel: K,
)
    requires
        net.is_built_from(&arch, zero),
        net.is_trace(input, outs, zero, mul_add, add, kernel),
        outs.len() == net.layer_count(),
        outs.len() > 0,
    ensures
        outs.last().nrows() == input.nrows(),
        outs.last().ncols() == arch.layers@.last(),
{
    let k = outs.len() - 1;
    lemma_trace_rows(net, input, outs, zero, mul_add, add, kernel, k);
    assert(net.is_layer_step(k, layer_input(input, outs, k), outs[k], zero, mul_add, add, kernel));
    assert(net.weights_view()[k].nrows() == arch.layers@[k]);
}

} // verus!
