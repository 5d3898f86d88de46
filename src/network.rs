//! Layers behind one interface, and networks that chain them.
use vstd::prelude::*;
use crate::conv::{ConvLayer, unflatten};
use crate::dense::{DenseLayer, ints, affine_spec, gate, input_gradient, updated_weight, updated_bias};
use crate::fixed::{sub_spec, mul_spec};
use crate::loss::Loss;

verus! {

/// Integers that fit in `i64`, as fixed-point numbers.
pub open spec fn to_fixed(s: Seq<int>) -> Seq<i64> {
    s.map_values(|v: int| v as i64)
}

proof fn lemma_to_fixed(v: Seq<i64>, s: Seq<int>)
    requires
        ints(v) == s,
    ensures
        v == to_fixed(s),
{
    assert(v =~= to_fixed(s));
}

/// A layer of a network.
pub enum Layer {
    Dense(DenseLayer),
    Conv(ConvLayer),
}

impl Layer {
    pub open spec fn wf(&self) -> bool {
        match self {
            Layer::Dense(d) => d.wf(),
            Layer::Conv(c) => c.wf(),
        }
    }

    /// Length of the vectors `forward` takes.
    pub open spec fn input_len(&self) -> int {
        match self {
            Layer::Dense(d) => d.input_dim() as int,
            Layer::Conv(c) => c.input_len(),
        }
    }

    /// Length of the vectors `forward` returns.
    pub open spec fn output_len(&self) -> int {
        match self {
            Layer::Dense(d) => d.output_dim() as int,
            Layer::Conv(c) => c.output_len(),
        }
    }

    /// Whether a forward pass is cached for `backward`.
    pub open spec fn is_forwarded(&self) -> bool {
        match self {
            Layer::Dense(d) => d.is_forwarded(),
            Layer::Conv(c) => c.is_forwarded(),
        }
    }

    /// What `forward` returns on `x` with the current parameters.
    pub open spec fn output_spec(&self, x: Seq<i64>) -> Seq<int> {
        match self {
            Layer::Dense(d) => d.output_spec(x),
            Layer::Conv(c) => c.flat_output(x),
        }
    }

    /// Both layers are of one kind, with the same parameters and shape.
    pub open spec fn same_parameters(&self, other: &Layer) -> bool {
        match (self, other) {
            (Layer::Dense(a), Layer::Dense(b)) => a.weights_spec() == b.weights_spec() && a.biases_spec()
                == b.biases_spec(),
            (Layer::Conv(a), Layer::Conv(b)) => a.same_parameters(b),
            _ => false,
        }
    }

    /// The cache holds the forward pass on `x`.
    pub open spec fn caches_input(&self, x: Seq<i64>) -> bool {
        match self {
            Layer::Dense(d) => d.is_forwarded() && d.cached_input() == x && ints(d.cached_pre_activation())
                == affine_spec(d.weights_spec(), d.biases_spec(), x),
            Layer::Conv(c) => c.caches(unflatten(x, c.input_rows_spec(), c.input_cols_spec())),
        }
    }

    /// The gradient with respect to the input that `backward` returns for `g`.
    pub open spec fn input_gradient_spec(&self, g: Seq<i64>) -> Seq<int> {
        match self {
            Layer::Dense(d) => input_gradient(
                d.weights_spec(),
                gate(g, d.cached_pre_activation()),
                d.input_dim() as int,
            ),
            Layer::Conv(c) => c.input_gradient(g),
        }
    }

    /// `new` holds the parameters of `self` after one SGD step of size `lr`
    /// on upstream gradient `g`.
    pub open spec fn stepped(&self, new: &Layer, g: Seq<i64>, lr: i64) -> bool {
        match (self, new) {
            (Layer::Dense(a), Layer::Dense(b)) => {
                &&& forall|i: int, j: int|
                    0 <= i < a.output_dim() && 0 <= j < a.input_dim() ==> #[trigger] b.weights_spec()[i]@[j]
                        == updated_weight(a.weights_spec(), gate(g, a.cached_pre_activation()), a.cached_input(), lr, i, j)
                &&& forall|i: int|
                    0 <= i < a.output_dim() ==> #[trigger] b.biases_spec()[i] == updated_bias(
                        a.biases_spec(),
                        gate(g, a.cached_pre_activation()),
                        lr,
                        i,
                    )
            },
            (Layer::Conv(a), Layer::Conv(b)) => {
                &&& forall|k: int, r: int, c: int|
                    0 <= k < a.channels() && 0 <= r < a.filter_size_spec() && 0 <= c < a.filter_size_spec()
                        ==> #[trigger] b.filter(k)[r]@[c] == sub_spec(
                        a.filter(k)[r]@[c] as int,
                        mul_spec(lr as int, a.filter_gradient(g, k, r, c)),
                    )
                &&& forall|k: int|
                    0 <= k < a.channels() ==> #[trigger] b.bias_spec()[k] == sub_spec(
                        a.bias_spec()[k] as int,
                        mul_spec(lr as int, a.bias_gradient(g, k)),
                    )
            },
            _ => false,
        }
    }

    /// Runs the layer on `input`, caching what `backward` needs.
    pub fn forward(&mut self, input: &Vec<i64>) -> (r: Vec<i64>)
        requires
            old(self).wf(),
            input.len() == old(self).input_len(),
        ensures
            final(self).wf(),
            final(self).is_forwarded(),
            final(self).caches_input(input@),
            final(self).same_parameters(old(self)),
            final(self).input_len() == old(self).input_len(),
            final(self).output_len() == old(self).output_len(),
            ints(r@) == old(self).output_spec(input@),
            r.len() == old(self).output_len(),
    {
        match self {
            Layer::Dense(d) => d.forward(input),
            Layer::Conv(c) => c.forward_flat(input),
        }
    }

    /// Back-propagates `error` through the cached forward pass, updates the
    /// parameters with step `learn`, and returns the gradient with respect to the input.
    pub fn backward(&mut self, error: &Vec<i64>, learn: i64) -> (r: Vec<i64>)
        requires
            old(self).wf(),
            old(self).is_forwarded(),
            error.len() == old(self).output_len(),
        ensures
            final(self).wf(),
            !final(self).is_forwarded(),
            final(self).input_len() == old(self).input_len(),
            final(self).output_len() == old(self).output_len(),
            r.len() == old(self).input_len(),
            ints(r@) == old(self).input_gradient_spec(error@),
            old(self).stepped(final(self), error@, learn),
    {
        match self {
            Layer::Dense(d) => d.backward(error, learn),
            Layer::Conv(c) => c.backward(error, learn),
        }
    }
}

/// The layers are well formed and each one's output feeds the next one's input.
pub open spec fn chained(layers: Seq<Layer>) -> bool {
    &&& forall|i: int| 0 <= i < layers.len() ==> (#[trigger] layers[i]).wf()
    &&& forall|i: int| 0 <= i < layers.len() - 1 ==> (#[trigger] layers[i]).output_len() == layers[i + 1].input_len()
}

/// Layers pairwise of one kind with the same parameters.
pub open spec fn same_layers(a: Seq<Layer>, b: Seq<Layer>) -> bool {
    &&& a.len() == b.len()
    &&& forall|i: int| 0 <= i < a.len() ==> (#[trigger] a[i]).same_parameters(&b[i])
}

/// The input threaded through `layers` in order.
pub open spec fn layers_output(layers: Seq<Layer>, x: Seq<i64>) -> Seq<i64>
    decreases layers.len(),
{
    if layers.len() == 0 {
        x
    } else {
        to_fixed(layers.last().output_spec(layers_output(layers.drop_last(), x)))
    }
}

/// A layer's output on an input of its input length has its output length.
proof fn lemma_layer_output(l: Layer, x: Seq<i64>)
    requires
        l.wf(),
        x.len() == l.input_len(),
    ensures
        l.output_spec(x).len() == l.output_len(),
{
    match l {
        Layer::Dense(d) => {},
        Layer::Conv(c) => {
            c.lemma_sizes();
        },
    }
}

/// Running layers of one kind with the same parameters gives the same output.
pub proof fn lemma_same_layers_output(a: Seq<Layer>, b: Seq<Layer>, x: Seq<i64>)
    requires
        same_layers(a, b),
    ensures
        layers_output(a, x) == layers_output(b, x),
    decreases a.len(),
{
    if a.len() > 0 {
        assert(same_layers(a.drop_last(), b.drop_last()));
        lemma_same_layers_output(a.drop_last(), b.drop_last(), x);
        let l = a.len() - 1;
        assert(a[l].same_parameters(&b[l]));
        let y = layers_output(a.drop_last(), x);
        match (a[l], b[l]) {
            (Layer::Dense(p), Layer::Dense(q)) => {},
            (Layer::Conv(p), Layer::Conv(q)) => {
                assert(p.flat_output(y) =~= q.flat_output(y));
            },
            _ => {},
        }
    }
}

/// Whether `layers` take inputs of length `n`: any length when there are no layers.
pub open spec fn accepts(layers: Seq<Layer>, n: int) -> bool {
    layers.len() == 0 || layers[0].input_len() == n
}

/// Length of what `layers` return for inputs of length `n`: the input's own
/// length when there are no layers.
pub open spec fn out_len(layers: Seq<Layer>, n: int) -> int {
    if layers.len() == 0 {
        n
    } else {
        layers.last().output_len()
    }
}

/// For chained layers that take an input's length, the output's length is
/// the last layer's output length, or the input's when there are no layers.
pub proof fn lemma_output_len(layers: Seq<Layer>, x: Seq<i64>)
    requires
        chained(layers),
        accepts(layers, x.len() as int),
    ensures
        layers_output(layers, x).len() == out_len(layers, x.len() as int),
    decreases layers.len(),
{
    if layers.len() == 0 {
        return;
    }
    let l = layers.len() - 1;
    if l > 0 {
        let init = layers.drop_last();
        assert(chained(init));
        lemma_output_len(init, x);
        assert(layers[l - 1].output_len() == layers[l].input_len());
        lemma_layer_output(layers[l], layers_output(init, x));
    } else {
        assert(layers.drop_last().len() == 0);
        lemma_layer_output(layers[0], x);
    }
}

/// Both sequences have the same layer shapes, position by position.
pub open spec fn shapes_kept(a: Seq<Layer>, b: Seq<Layer>) -> bool {
    &&& a.len() == b.len()
    &&& forall|i: int|
        0 <= i < a.len() ==> (#[trigger] a[i]).input_len() == b[i].input_len() && a[i].output_len()
            == b[i].output_len()
}

/// Every layer has a forward pass cached.
pub open spec fn all_forwarded(layers: Seq<Layer>) -> bool {
    forall|i: int| 0 <= i < layers.len() ==> (#[trigger] layers[i]).is_forwarded()
}

/// No layer has a forward pass cached.
pub open spec fn none_forwarded(layers: Seq<Layer>) -> bool {
    forall|i: int| 0 <= i < layers.len() ==> !(#[trigger] layers[i]).is_forwarded()
}

/// `new` holds the layers of `old` after back-propagating `g` from the last
/// layer to the first, each taking one SGD step of size `lr` on the gradient
/// that the layer after it handed back.
pub open spec fn stepped_all(old: Seq<Layer>, new: Seq<Layer>, g: Seq<i64>, lr: i64) -> bool
    decreases old.len(),
{
    if old.len() == 0 {
        new.len() == 0
    } else {
        &&& new.len() == old.len()
        &&& old.last().stepped(&new.last(), g, lr)
        &&& stepped_all(
            old.drop_last(),
            new.drop_last(),
            to_fixed(old.last().input_gradient_spec(g)),
            lr,
        )
    }
}

/// The gradient with respect to the first layer's input after back-propagating
/// `g` through `layers`.
pub open spec fn backward_gradient(layers: Seq<Layer>, g: Seq<i64>) -> Seq<i64>
    decreases layers.len(),
{
    if layers.len() == 0 {
        g
    } else {
        backward_gradient(layers.drop_last(), to_fixed(layers.last().input_gradient_spec(g)))
    }
}

/// Each layer has cached the forward pass of `x` through the layers before it.
pub open spec fn caches_all(layers: Seq<Layer>, orig: Seq<Layer>, x: Seq<i64>) -> bool {
    forall|j: int| 0 <= j < layers.len() ==> (#[trigger] layers[j]).caches_input(layers_output(orig.take(j), x))
}

/// `new` holds `old` after one training step on input `x` and target `t`:
/// a forward pass that caches every layer's input, then back-propagation of
/// the loss gradient with step `lr`.
pub open spec fn trained_once(old: Seq<Layer>, new: Seq<Layer>, loss: Loss, x: Seq<i64>, t: Seq<i64>, lr: i64) -> bool {
    exists|mid: Seq<Layer>|
        same_layers(mid, old) && caches_all(mid, old, x) && #[trigger] stepped_all(
            mid,
            new,
            to_fixed(loss.gradient_spec(layers_output(old, x), t)),
            lr,
        )
}

/// `steps` runs from `old` to `new`, each state one training step after the one before.
pub open spec fn training_trace(
    steps: Seq<Seq<Layer>>,
    old: Seq<Layer>,
    new: Seq<Layer>,
    loss: Loss,
    x: Seq<i64>,
    t: Seq<i64>,
    lr: i64,
) -> bool {
    &&& steps.len() >= 1
    &&& steps[0] == old
    &&& steps.last() == new
    &&& forall|i: int| 0 <= i < steps.len() - 1 ==> trained_once(#[trigger] steps[i], steps[i + 1], loss, x, t, lr)
}

/// `new` holds `old` after `epochs` training steps on one sample.
pub open spec fn trained(
    old: Seq<Layer>,
    new: Seq<Layer>,
    loss: Loss,
    x: Seq<i64>,
    t: Seq<i64>,
    lr: i64,
    epochs: nat,
) -> bool {
    exists|steps: Seq<Seq<Layer>>| steps.len() == epochs + 1 && #[trigger] training_trace(steps, old, new, loss, x, t, lr)
}

/// Runs `layers` in order on `input`, each caching its forward pass.
pub fn forward_layers(layers: &mut Vec<Layer>, input: &Vec<i64>) -> (r: Vec<i64>)
    requires
        chained(old(layers)@),
        accepts(old(layers)@, input.len() as int),
    ensures
        chained(final(layers)@),
        same_layers(final(layers)@, old(layers)@),
        shapes_kept(final(layers)@, old(layers)@),
        all_forwarded(final(layers)@),
        caches_all(final(layers)@, old(layers)@, input@),
        r@ == layers_output(old(layers)@, input@),
        r.len() == out_len(old(layers)@, input.len() as int),
{
    let ghost orig = layers@;
    let n = layers.len();
    let mut cur: Vec<i64> = input.clone();
    assert(orig.take(0).len() == 0);
    let mut i: usize = 0;
    while i < n
        invariant
            n == orig.len(),
            chained(orig),
            accepts(orig, input@.len() as int),
            i <= n,
            layers.len() == n,
            forall|j: int| i <= j < n ==> #[trigger] layers@[j] == orig[j],
            forall|j: int|
                0 <= j < i ==> (#[trigger] layers@[j]).wf() && layers@[j].is_forwarded() && layers@[j].same_parameters(
                    &orig[j],
                ) && layers@[j].input_len() == orig[j].input_len() && layers@[j].output_len() == orig[j].output_len()
                    && layers@[j].caches_input(layers_output(orig.take(j), input@)),
            cur@ == layers_output(orig.take(i as int), input@),
            i == 0 ==> cur@ == input@,
            i > 0 ==> cur.len() == orig[i - 1].output_len(),
        decreases n - i,
    {
        proof {
            if i > 0 {
                assert(orig[i - 1].output_len() == orig[i as int].input_len());
            }
            assert(orig.take(i + 1).drop_last() =~= orig.take(i as int));
        }
        let ghost before = layers@;
        let mut l = layers.remove(i);
        let out = l.forward(&cur);
        proof {
            lemma_to_fixed(out@, orig[i as int].output_spec(cur@));
        }
        layers.insert(i, l);
        assert(layers@ =~= before.update(i as int, l));
        cur = out;
        i += 1;
    }
    proof {
        assert(orig.take(n as int) =~= orig);
        assert forall|j: int| 0 <= j < n - 1 implies (#[trigger] layers@[j]).output_len() == layers@[j + 1].input_len() by {
            assert(orig[j].output_len() == orig[j + 1].input_len());
        }
    }
    cur
}

/// Back-propagates `error` through `layers` in reverse order, each updating
/// its parameters with step `learn`; returns the gradient with respect to the
/// first layer's input.
pub fn backward_layers(layers: &mut Vec<Layer>, error: &Vec<i64>, learn: i64) -> (r: Vec<i64>)
    requires
        chained(old(layers)@),
        all_forwarded(old(layers)@),
        old(layers).len() > 0 ==> error.len() == old(layers)@.last().output_len(),
    ensures
        chained(final(layers)@),
        shapes_kept(final(layers)@, old(layers)@),
        none_forwarded(final(layers)@),
        stepped_all(old(layers)@, final(layers)@, error@, learn),
        r@ == backward_gradient(old(layers)@, error@),
        old(layers).len() > 0 ==> r.len() == old(layers)@[0].input_len(),
        old(layers).len() == 0 ==> r@ == error@,
{
    let ghost orig = layers@;
    let n = layers.len();
    let mut g: Vec<i64> = error.clone();
    let mut i: usize = n;
    proof {
        assert(orig.take(n as int) =~= orig);
        assert forall|np: Seq<Layer>| stepped_all(orig.take(n as int), np, g@, learn) implies #[trigger] stepped_all(
            orig,
            np + layers@.skip(n as int),
            error@,
            learn,
        ) by {
            assert(np + layers@.skip(n as int) =~= np);
        }
    }
    while i > 0
        invariant
            n == orig.len(),
            chained(orig),
            all_forwarded(orig),
            n == 0 ==> g@ == error@,
            i <= n,
            layers.len() == n,
            forall|j: int| 0 <= j < i ==> #[trigger] layers@[j] == orig[j],
            forall|j: int|
                i <= j < n ==> (#[trigger] layers@[j]).wf() && !layers@[j].is_forwarded() && layers@[j].input_len()
                    == orig[j].input_len() && layers@[j].output_len() == orig[j].output_len(),
            i == n && n > 0 ==> g.len() == orig[n - 1].output_len(),
            i < n ==> g.len() == orig[i as int].input_len(),
            backward_gradient(orig.take(i as int), g@) == backward_gradient(orig, error@),
            forall|np: Seq<Layer>|
                stepped_all(orig.take(i as int), np, g@, learn) ==> #[trigger] stepped_all(
                    orig,
                    np + layers@.skip(i as int),
                    error@,
                    learn,
                ),
        decreases i,
    {
        proof {
            if i < n {
                assert(orig[i - 1].output_len() == orig[i as int].input_len());
            }
        }
        let ghost before = layers@;
        let ghost g_before = g@;
        let mut l = layers.remove(i - 1);
        let next = l.backward(&g, learn);
        layers.insert(i - 1, l);
        assert(layers@ =~= before.update(i - 1, l));
        proof {
            lemma_to_fixed(next@, orig[i - 1].input_gradient_spec(g_before));
            let pre = orig.take(i as int);
            assert(pre.drop_last() =~= orig.take(i - 1));
            assert(pre.last() == orig[i - 1]);
            assert forall|np: Seq<Layer>| stepped_all(orig.take(i - 1), np, next@, learn) implies #[trigger] stepped_all(
                orig,
                np + layers@.skip(i - 1),
                error@,
                learn,
            ) by {
                let np2 = np.push(l);
                assert(np2.drop_last() =~= np);
                assert(np2.last() == l);
                assert(stepped_all(pre, np2, g_before, learn));
                assert(np2 + before.skip(i as int) =~= np + layers@.skip(i - 1));
            }
        }
        g = next;
        i -= 1;
    }
    proof {
        assert forall|j: int| 0 <= j < n - 1 implies (#[trigger] layers@[j]).output_len() == layers@[j + 1].input_len() by {
            assert(orig[j].output_len() == orig[j + 1].input_len());
        }
        assert(orig.take(0) =~= Seq::<Layer>::empty());
        assert(stepped_all(orig.take(0), Seq::<Layer>::empty(), g@, learn));
        assert(Seq::<Layer>::empty() + layers@.skip(0) =~= layers@);
    }
    g
}

/// A network: layers applied in order, trained against a loss.
pub struct NeuralNetwork {
    layers: Vec<Layer>,
    loss: Loss,
}

impl NeuralNetwork {
    pub closed spec fn layers_spec(&self) -> Seq<Layer> {
        self.layers@
    }

    pub closed spec fn loss_spec(&self) -> Loss {
        self.loss
    }

    /// The layers chain.
    pub open spec fn wf(&self) -> bool {
        chained(self.layers_spec())
    }

    /// Whether the network takes inputs of length `n`.
    pub open spec fn accepts(&self, n: int) -> bool {
        accepts(self.layers_spec(), n)
    }

    /// Length of the network's output for inputs of length `n`.
    pub open spec fn output_len(&self, n: int) -> int {
        out_len(self.layers_spec(), n)
    }

    /// What `forward` returns on `x`.
    pub open spec fn output_spec(&self, x: Seq<i64>) -> Seq<i64> {
        layers_output(self.layers_spec(), x)
    }

    /// Builds a network from chained layers and a loss.
    pub fn new(layers: Vec<Layer>, loss: Loss) -> (r: NeuralNetwork)
        requires
            chained(layers@),
        ensures
            r.wf(),
            r.layers_spec() == layers@,
            r.loss_spec() == loss,
    {
        NeuralNetwork { layers, loss }
    }

    /// Threads `input` through every layer in order.
    pub fn forward(&mut self, input: &Vec<i64>) -> (r: Vec<i64>)
        requires
            old(self).wf(),
            old(self).accepts(input.len() as int),
        ensures
            final(self).wf(),
            same_layers(final(self).layers_spec(), old(self).layers_spec()),
            shapes_kept(final(self).layers_spec(), old(self).layers_spec()),
            final(self).loss_spec() == old(self).loss_spec(),
            r@ == old(self).output_spec(input@),
            r.len() == old(self).output_len(input.len() as int),
    {
        forward_layers(&mut self.layers, input)
    }

    /// One training step on one sample: forward pass, loss gradient against
    /// `target`, then every layer's backward pass in reverse order with step `learn`.
    pub fn backprop(&mut self, input: &Vec<i64>, target: &Vec<i64>, learn: i64)
        requires
            old(self).wf(),
            old(self).accepts(input.len() as int),
            target.len() == old(self).output_len(input.len() as int),
            target.len() > 0,
        ensures
            final(self).wf(),
            shapes_kept(final(self).layers_spec(), old(self).layers_spec()),
            none_forwarded(final(self).layers_spec()),
            final(self).loss_spec() == old(self).loss_spec(),
            trained_once(
                old(self).layers_spec(),
                final(self).layers_spec(),
                old(self).loss_spec(),
                input@,
                target@,
                learn,
            ),
    {
        let result = forward_layers(&mut self.layers, input);
        let ghost mid = self.layers@;
        let error = self.loss.gradient(&result, target);
        proof {
            lemma_to_fixed(error@, self.loss.gradient_spec(result@, target@));
        }
        let _ = backward_layers(&mut self.layers, &error, learn);
        assert(error@ == to_fixed(old(self).loss_spec().gradient_spec(old(self).output_spec(input@), target@)));
        assert(stepped_all(
            mid,
            self.layers_spec(),
            to_fixed(old(self).loss_spec().gradient_spec(old(self).output_spec(input@), target@)),
            learn,
        ));
    }

    /// Repeats `backprop` on one sample `epochs` times.
    pub fn train(&mut self, input: &Vec<i64>, target: &Vec<i64>, learn: i64, epochs: usize)
        requires
            old(self).wf(),
            old(self).accepts(input.len() as int),
            target.len() == old(self).output_len(input.len() as int),
            target.len() > 0,
        ensures
            final(self).wf(),
            shapes_kept(final(self).layers_spec(), old(self).layers_spec()),
            final(self).loss_spec() == old(self).loss_spec(),
            trained(
                old(self).layers_spec(),
                final(self).layers_spec(),
                old(self).loss_spec(),
                input@,
                target@,
                learn,
                epochs as nat,
            ),
    {
        let ghost orig = self.layers@;
        let ghost mut steps: Seq<Seq<Layer>> = seq![orig];
        let mut e: usize = 0;
        while e < epochs
            invariant
                self.wf(),
                steps.len() == e + 1,
                training_trace(steps, orig, self.layers_spec(), self.loss_spec(), input@, target@, learn),
                shapes_kept(self.layers_spec(), orig),
                self.loss_spec() == old(self).loss_spec(),
                orig == old(self).layers_spec(),
                self.accepts(input.len() as int),
                target.len() == self.output_len(input.len() as int),
                target.len() > 0,
                e <= epochs,
            decreases epochs - e,
        {
            let ghost prev = steps;
            self.backprop(input, target, learn);
            proof {
                steps = prev.push(self.layers_spec());
                assert forall|i: int| 0 <= i < steps.len() - 1 implies trained_once(
                    #[trigger] steps[i],
                    steps[i + 1],
                    self.loss_spec(),
                    input@,
                    target@,
                    learn,
                ) by {
                    if i < prev.len() - 1 {
                        assert(steps[i] == prev[i] && steps[i + 1] == prev[i + 1]);
                    } else {
                        assert(steps[i] == prev.last());
                    }
                }
            }
            e += 1;
        }
        assert(training_trace(steps, orig, self.layers_spec(), self.loss_spec(), input@, target@, learn));
    }

    /// The loss of the network's output on `input` against `target`.
    pub fn test(&mut self, input: &Vec<i64>, target: &Vec<i64>) -> (r: i64)
        requires
            old(self).wf(),
            old(self).accepts(input.len() as int),
            target.len() == old(self).output_len(input.len() as int),
            target.len() > 0,
        ensures
            final(self).wf(),
            same_layers(final(self).layers_spec(), old(self).layers_spec()),
            shapes_kept(final(self).layers_spec(), old(self).layers_spec()),
            final(self).loss_spec() == old(self).loss_spec(),
            r == old(self).loss_spec().compute_spec(old(self).output_spec(input@), target@),
    {
        let result = forward_layers(&mut self.layers, input);
        self.loss.compute(&result, target)
    }
}

/// Running a network twice on one input, with no training between, gives the
/// same output: `forward` keeps the parameters and reads nothing else.
pub proof fn lemma_forward_idempotent(before: NeuralNetwork, after: NeuralNetwork, x: Seq<i64>)
    requires
        same_layers(after.layers_spec(), before.layers_spec()),
    ensures
        after.output_spec(x) == before.output_spec(x),
{
    lemma_same_layers_output(after.layers_spec(), before.layers_spec(), x);
}

/// A network's output has the last layer's output length.
pub proof fn lemma_network_output_len(net: NeuralNetwork, x: Seq<i64>)
    requires
        net.wf(),
        net.accepts(x.len() as int),
    ensures
        net.output_spec(x).len() == net.output_len(x.len() as int),
{
    lemma_output_len(net.layers_spec(), x);
}

/// A convolutional network: a convolutional stage whose flattened output
/// feeds a dense stage, trained against a loss.
#[allow(non_snake_case)]
pub struct CNN {
    cLayers: Vec<Layer>,
    dLayers: Vec<Layer>,
    loss: Loss,
}

impl CNN {
    pub closed spec fn conv_layers(&self) -> Seq<Layer> {
        self.cLayers@
    }

    pub closed spec fn dense_layers(&self) -> Seq<Layer> {
        self.dLayers@
    }

    pub closed spec fn loss_spec(&self) -> Loss {
        self.loss
    }

    /// Both stages chain, and where both hold layers the first feeds the second.
    pub open spec fn wf(&self) -> bool {
        &&& chained(self.conv_layers())
        &&& chained(self.dense_layers())
        &&& self.conv_layers().len() > 0 && self.dense_layers().len() > 0 ==> self.conv_layers().last().output_len()
            == self.dense_layers()[0].input_len()
    }

    /// Whether the network takes inputs of length `n`.
    pub open spec fn accepts(&self, n: int) -> bool {
        accepts(self.conv_layers(), n) && accepts(self.dense_layers(), out_len(self.conv_layers(), n))
    }

    /// Length of the network's output for inputs of length `n`.
    pub open spec fn output_len(&self, n: int) -> int {
        out_len(self.dense_layers(), out_len(self.conv_layers(), n))
    }

    /// What `forward` returns on `x`: the convolutional stage, then the dense stage.
    pub open spec fn output_spec(&self, x: Seq<i64>) -> Seq<i64> {
        layers_output(self.dense_layers(), layers_output(self.conv_layers(), x))
    }

    /// The gradient the loss hands to the last layer for input `x` and target `t`.
    pub open spec fn seed(&self, x: Seq<i64>, t: Seq<i64>) -> Seq<i64> {
        to_fixed(self.loss_spec().gradient_spec(self.output_spec(x), t))
    }

    /// `new` holds `self` after one training step on input `x` and target
    /// `t`: forward passes through both stages that cache every layer's
    /// input, then back-propagation of the loss gradient through the dense
    /// stage and on through the convolutional stage, with step `lr`.
    pub open spec fn trained_once(&self, new: &CNN, x: Seq<i64>, t: Seq<i64>, lr: i64) -> bool {
        exists|mc: Seq<Layer>, md: Seq<Layer>|
            {
                &&& same_layers(mc, self.conv_layers())
                &&& same_layers(md, self.dense_layers())
                &&& caches_all(mc, self.conv_layers(), x)
                &&& caches_all(md, self.dense_layers(), layers_output(self.conv_layers(), x))
                &&& #[trigger] stepped_all(md, new.dense_layers(), self.seed(x, t), lr)
                &&& #[trigger] stepped_all(mc, new.conv_layers(), backward_gradient(md, self.seed(x, t)), lr)
            }
    }

    /// `new` holds `self` after `epochs` training steps on one sample.
    pub open spec fn trained(&self, new: &CNN, x: Seq<i64>, t: Seq<i64>, lr: i64, epochs: nat) -> bool {
        exists|steps: Seq<CNN>|
            {
                &&& #[trigger] steps.len() == epochs + 1
                &&& steps[0] == *self
                &&& steps.last() == *new
                &&& forall|i: int| 0 <= i < epochs ==> (#[trigger] steps[i]).trained_once(&steps[i + 1], x, t, lr)
            }
    }

    /// Builds a network from a convolutional stage, a dense stage and a loss.
    #[allow(non_snake_case)]
    pub fn new(cLayers: Vec<Layer>, dLayers: Vec<Layer>, loss: Loss) -> (r: CNN)
        requires
            chained(cLayers@),
            chained(dLayers@),
            cLayers.len() > 0 && dLayers.len() > 0 ==> cLayers@.last().output_len() == dLayers@[0].input_len(),
        ensures
            r.wf(),
            r.conv_layers() == cLayers@,
            r.dense_layers() == dLayers@,
            r.loss_spec() == loss,
    {
        CNN { cLayers, dLayers, loss }
    }

    /// The loss the network is trained against.
    #[allow(non_snake_case)]
    pub fn getLoss(&self) -> (r: &Loss)
        ensures
            *r == self.loss_spec(),
    {
        &self.loss
    }

    /// Threads `input` through the convolutional stage, then the dense stage.
    pub fn forward(&mut self, input: &Vec<i64>) -> (r: Vec<i64>)
        requires
            old(self).wf(),
            old(self).accepts(input.len() as int),
        ensures
            final(self).wf(),
            same_layers(final(self).conv_layers(), old(self).conv_layers()),
            same_layers(final(self).dense_layers(), old(self).dense_layers()),
            shapes_kept(final(self).conv_layers(), old(self).conv_layers()),
            shapes_kept(final(self).dense_layers(), old(self).dense_layers()),
            final(self).loss_spec() == old(self).loss_spec(),
            r@ == old(self).output_spec(input@),
            r.len() == old(self).output_len(input.len() as int),
    {
        let mid = forward_layers(&mut self.cLayers, input);
        forward_layers(&mut self.dLayers, &mid)
    }

    /// One training step on one sample: forward pass, loss gradient against
    /// `target`, then the backward passes of the dense stage and of the
    /// convolutional stage, each in reverse order, with step `learn`.
    pub fn backprop(&mut self, input: &Vec<i64>, target: &Vec<i64>, learn: i64)
        requires
            old(self).wf(),
            old(self).accepts(input.len() as int),
            target.len() == old(self).output_len(input.len() as int),
            target.len() > 0,
        ensures
            final(self).wf(),
            shapes_kept(final(self).conv_layers(), old(self).conv_layers()),
            shapes_kept(final(self).dense_layers(), old(self).dense_layers()),
            none_forwarded(final(self).conv_layers()),
            none_forwarded(final(self).dense_layers()),
            final(self).loss_spec() == old(self).loss_spec(),
            old(self).trained_once(final(self), input@, target@, learn),
    {
        let mid = forward_layers(&mut self.cLayers, input);
        let output = forward_layers(&mut self.dLayers, &mid);
        let ghost mc = self.cLayers@;
        let ghost md = self.dLayers@;
        let error = self.loss.gradient(&output, target);
        proof {
            lemma_to_fixed(error@, self.loss.gradient_spec(output@, target@));
        }
        let back = backward_layers(&mut self.dLayers, &error, learn);
        let _ = backward_layers(&mut self.cLayers, &back, learn);
        assert(error@ == old(self).seed(input@, target@));
        assert(stepped_all(md, self.dense_layers(), old(self).seed(input@, target@), learn));
        assert(stepped_all(mc, self.conv_layers(), backward_gradient(md, old(self).seed(input@, target@)), learn));
    }

    /// Repeats `backprop` on one sample `epochs` times.
    pub fn train(&mut self, input: &Vec<i64>, target: &Vec<i64>, learn: i64, epochs: usize)
        requires
            old(self).wf(),
            old(self).accepts(input.len() as int),
            target.len() == old(self).output_len(input.len() as int),
            target.len() > 0,
        ensures
            final(self).wf(),
            shapes_kept(final(self).conv_layers(), old(self).conv_layers()),
            shapes_kept(final(self).dense_layers(), old(self).dense_layers()),
            final(self).loss_spec() == old(self).loss_spec(),
            old(self).trained(final(self), input@, target@, learn, epochs as nat),
    {
        let ghost start = *self;
        let ghost mut steps: Seq<CNN> = seq![start];
        let mut e: usize = 0;
        while e < epochs
            invariant
                self.wf(),
                start == *old(self),
                steps.len() == e + 1,
                steps[0] == start,
                steps.last() == *self,
                forall|i: int| 0 <= i < e ==> (#[trigger] steps[i]).trained_once(&steps[i + 1], input@, target@, learn),
                shapes_kept(self.conv_layers(), old(self).conv_layers()),
                shapes_kept(self.dense_layers(), old(self).dense_layers()),
                self.loss_spec() == old(self).loss_spec(),
                self.accepts(input.len() as int),
                target.len() == self.output_len(input.len() as int),
                target.len() > 0,
                e <= epochs,
            decreases epochs - e,
        {
            let ghost prev = steps;
            self.backprop(input, target, learn);
            proof {
                steps = prev.push(*self);
                assert forall|i: int| 0 <= i < e + 1 implies (#[trigger] steps[i]).trained_once(
                    &steps[i + 1],
                    input@,
                    target@,
                    learn,
                ) by {
                    if i < e {
                        assert(steps[i] == prev[i] && steps[i + 1] == prev[i + 1]);
                    } else {
                        assert(steps[i] == prev.last());
                    }
                }
            }
            e += 1;
        }
        assert(steps.len() == epochs + 1);
    }
}

} // verus!
