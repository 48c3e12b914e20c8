//! Networks, architectures, validation, and reference semantics.
//!
//! A network is a strict sequence of layers; the architecture is the
//! shape-only image of a network that the client works from.  The
//! reference semantics [`seq_nn_eval`] — canonical linear maps
//! interleaved with the truncated ReLU — is what the protocol's
//! end-to-end theorem compares against.

use crate::error::{ErrorKind, SessionError};
use crate::field::{f_add, f_mul, fe_valid};
use crate::fixed::relu_trunc;
use crate::layers::{
    apply, dims_len, dims_pos, dot, linear_layer_wf, map_matches, map_wf, spec_apply,
    spec_bias_at, spec_coeff, to_linear_map, Dims, Kernel, Layer, LayerDims, LinearLayer,
    LinearMap, NonLinearLayer, Padding,
};
use vstd::prelude::*;

verus! {

/// Shape-only information about a non-linear layer.
#[derive(Clone, Copy, PartialEq, Eq, Structural, Debug)]
pub enum NonLinearLayerInfo {
    ReLU,
}

/// Shape-only information about a linear layer: everything both parties
/// know; kernels and biases stay with the server.
#[derive(Clone, Copy, PartialEq, Eq, Structural, Debug)]
pub enum LinearLayerInfo {
    Conv2d { kernel_dims: Dims, stride: usize, padding: Padding },
    FullyConnected,
    AvgPool { pool_h: usize, pool_w: usize, stride: usize, coeff: u64 },
    Identity,
}

/// One layer of the public architecture.
#[derive(Clone, Copy, PartialEq, Eq, Structural, Debug)]
pub enum LayerInfo {
    LL(LayerDims, LinearLayerInfo),
    NLL(LayerDims, NonLinearLayerInfo),
}

/// The public, shape-only image of a network.
#[derive(Clone, Debug)]
pub struct NeuralArchitecture {
    pub layers: Vec<LayerInfo>,
}

/// The server's network: layers with their parameters.
#[derive(Clone, Debug)]
pub struct NeuralNetwork {
    pub layers: Vec<Layer>,
}

/// The shape-only image of one layer.
pub open spec fn spec_layer_info(l: Layer) -> LayerInfo {
    match l {
        Layer::LL(ll) => LayerInfo::LL(
            ll.spec_dims(),
            match ll {
                LinearLayer::Conv2d { kernel, stride, padding, .. } => LinearLayerInfo::Conv2d {
                    kernel_dims: kernel.dims,
                    stride,
                    padding,
                },
                LinearLayer::FullyConnected { .. } => LinearLayerInfo::FullyConnected,
                LinearLayer::AvgPool { pool_h, pool_w, stride, coeff, .. } => LinearLayerInfo::AvgPool {
                    pool_h,
                    pool_w,
                    stride,
                    coeff,
                },
                LinearLayer::Identity { .. } => LinearLayerInfo::Identity,
            },
        ),
        Layer::NLL(NonLinearLayer::ReLU { dims }) => LayerInfo::NLL(dims, NonLinearLayerInfo::ReLU),
    }
}

/// Project a network onto the shape-only architecture the client works
/// from: kernels and biases stay behind.
pub fn architecture_of(net: &NeuralNetwork) -> (r: NeuralArchitecture)
    ensures
        r.layers@.len() == net.layers@.len(),
        forall|i: int|
            0 <= i < net.layers@.len() ==> #[trigger] r.layers@[i] == spec_layer_info(
                net.layers@[i],
            ),
{
    let mut layers: Vec<LayerInfo> = Vec::new();
    let mut i: usize = 0;
    while i < net.layers.len()
        invariant
            i <= net.layers@.len(),
            layers@.len() == i,
            forall|t: int|
                0 <= t < i ==> #[trigger] layers@[t] == spec_layer_info(net.layers@[t]),
        decreases net.layers@.len() - i,
    {
        let info = match &net.layers[i] {
            Layer::LL(ll) => {
                let d = ll.dims();
                let kind = match ll {
                    LinearLayer::Conv2d { kernel, stride, padding, .. } => LinearLayerInfo::Conv2d {
                        kernel_dims: kernel.dims,
                        stride: *stride,
                        padding: *padding,
                    },
                    LinearLayer::FullyConnected { .. } => LinearLayerInfo::FullyConnected,
                    LinearLayer::AvgPool { pool_h, pool_w, stride, coeff, .. } => LinearLayerInfo::AvgPool {
                        pool_h: *pool_h,
                        pool_w: *pool_w,
                        stride: *stride,
                        coeff: *coeff,
                    },
                    LinearLayer::Identity { .. } => LinearLayerInfo::Identity,
                };
                LayerInfo::LL(d, kind)
            },
            Layer::NLL(NonLinearLayer::ReLU { dims }) => LayerInfo::NLL(
                *dims,
                NonLinearLayerInfo::ReLU,
            ),
        };
        layers.push(info);
        i = i + 1;
    }
    NeuralArchitecture { layers }
}

pub open spec fn layer_input_dims(l: Layer) -> Dims {
    match l {
        Layer::LL(ll) => ll.spec_dims().input_dims,
        Layer::NLL(NonLinearLayer::ReLU { dims }) => dims.input_dims,
    }
}

pub open spec fn layer_output_dims(l: Layer) -> Dims {
    match l {
        Layer::LL(ll) => ll.spec_dims().output_dims,
        Layer::NLL(NonLinearLayer::ReLU { dims }) => dims.output_dims,
    }
}

pub open spec fn layer_wf(l: Layer) -> bool {
    match l {
        Layer::LL(ll) => linear_layer_wf(ll),
        Layer::NLL(NonLinearLayer::ReLU { dims }) => {
            &&& dims_pos(dims.input_dims)
            &&& dims_len(dims.input_dims) <= usize::MAX
            &&& dims.output_dims == dims.input_dims
        },
    }
}

/// A well-formed sequence of layers: every layer well-formed and the
/// shapes composing in index order.
pub open spec fn layers_wf(ls: Seq<Layer>) -> bool {
    &&& forall|i: int| 0 <= i < ls.len() ==> layer_wf(#[trigger] ls[i])
    &&& forall|i: int|
        0 <= i < ls.len() - 1 ==> layer_output_dims(#[trigger] ls[i]) == layer_input_dims(
            ls[i + 1],
        )
}

pub open spec fn nn_wf(net: NeuralNetwork) -> bool {
    &&& net.layers@.len() >= 1
    &&& layers_wf(net.layers@)
}

/// The truncated ReLU applied to every element of a tensor.
pub open spec fn spec_relu_vec(x: Seq<u64>) -> Seq<u64> {
    Seq::new(x.len(), |i: int| relu_trunc(x[i] as int) as u64)
}

/// Dot of the canonical coefficients of a layer with an input prefix.
pub open spec fn ldot(l: LinearLayer, x: Seq<u64>, j: int, t: int) -> int
    decreases t,
{
    if t <= 0 {
        0
    } else {
        f_add(ldot(l, x, j, t - 1), f_mul(spec_coeff(l, j, t - 1), x[t - 1] as int))
    }
}

/// Reference semantics of one linear layer over the field.
pub open spec fn spec_linear_eval(l: LinearLayer, x: Seq<u64>) -> Seq<u64> {
    Seq::new(
        dims_len(l.spec_dims().output_dims) as nat,
        |j: int|
            f_add(
                ldot(l, x, j, dims_len(l.spec_dims().input_dims)),
                spec_bias_at(l, j),
            ) as u64,
    )
}

/// Reference semantics of one layer.
pub open spec fn spec_layer_eval(l: Layer, x: Seq<u64>) -> Seq<u64> {
    match l {
        Layer::LL(ll) => spec_linear_eval(ll, x),
        Layer::NLL(NonLinearLayer::ReLU { .. }) => spec_relu_vec(x),
    }
}

/// Reference semantics of a layer sequence, first layer first.
pub open spec fn seq_nn_eval(ls: Seq<Layer>, x: Seq<u64>) -> Seq<u64>
    decreases ls.len(),
{
    if ls.len() == 0 {
        x
    } else {
        seq_nn_eval(ls.subrange(1, ls.len() as int), spec_layer_eval(ls[0], x))
    }
}

/// Reference semantics of a whole network.
pub open spec fn nn_eval(net: NeuralNetwork, x: Seq<u64>) -> Seq<u64> {
    seq_nn_eval(net.layers@, x)
}

/// Layer composition: evaluating a concatenated layer list equals
/// evaluating the first list, then the second on its output.  Running
/// the protocol over `L2 . L1` therefore agrees with chaining two
/// separate runs through the intermediate activations.
pub proof fn lemma_nn_eval_compose(l1: Seq<Layer>, l2: Seq<Layer>, x: Seq<u64>)
    ensures
        seq_nn_eval(l1 + l2, x) == seq_nn_eval(l2, seq_nn_eval(l1, x)),
    decreases l1.len(),
{
    if l1.len() == 0 {
        assert(l1 + l2 =~= l2);
        assert(seq_nn_eval(l1, x) == x);
    } else {
        let rest = l1.subrange(1, l1.len() as int);
        assert((l1 + l2).subrange(1, (l1 + l2).len() as int) =~= rest + l2);
        assert((l1 + l2)[0] == l1[0]);
        lemma_nn_eval_compose(rest, l2, spec_layer_eval(l1[0], x));
    }
}

/// A canonical map carries exactly a layer's coefficients, so its dot
/// agrees with the layer's.
pub proof fn lemma_dot_vs_ldot(m: LinearMap, l: LinearLayer, x: Seq<u64>, j: int, t: int)
    requires
        map_wf(m),
        map_matches(m, l),
        0 <= j < m.out_len,
        t <= m.in_len,
    ensures
        dot(m.matrix@[j]@, x, t) == ldot(l, x, j, t),
    decreases t,
{
    if t > 0 {
        lemma_dot_vs_ldot(m, l, x, j, t - 1);
    }
}

/// Applying the canonical map is the layer's reference semantics.
pub proof fn lemma_map_eval(m: LinearMap, l: LinearLayer, x: Seq<u64>)
    requires
        map_wf(m),
        map_matches(m, l),
    ensures
        spec_apply(m, x) == spec_linear_eval(l, x),
{
    assert forall|j: int| 0 <= j < m.out_len implies spec_apply(m, x)[j] == spec_linear_eval(
        l,
        x,
    )[j] by {
        lemma_dot_vs_ldot(m, l, x, j, m.in_len as int);
    };
    assert(spec_apply(m, x) =~= spec_linear_eval(l, x));
}

/// The truncated ReLU applied elementwise, executable.
pub fn relu_vec(x: &Vec<u64>) -> (r: Vec<u64>)
    requires
        forall|i: int| 0 <= i < x@.len() ==> fe_valid(#[trigger] x@[i]),
    ensures
        r@ == spec_relu_vec(x@),
        r@.len() == x@.len(),
        forall|i: int| 0 <= i < r@.len() ==> fe_valid(#[trigger] r@[i]),
{
    let mut out: Vec<u64> = Vec::new();
    let mut i: usize = 0;
    while i < x.len()
        invariant
            i <= x@.len(),
            forall|t: int| 0 <= t < x@.len() ==> fe_valid(#[trigger] x@[t]),
            out@.len() == i,
            forall|t: int| 0 <= t < i ==> #[trigger] out@[t] == relu_trunc(x@[t] as int) as u64,
            forall|t: int| 0 <= t < i ==> fe_valid(#[trigger] out@[t]),
        decreases x@.len() - i,
    {
        out.push(crate::fixed::relu_trunc_exec(x[i]));
        i = i + 1;
    }
    proof {
        assert(out@ =~= spec_relu_vec(x@));
    }
    out
}

impl Layer {
    pub fn input_dimensions(&self) -> (r: Dims)
        ensures
            r == layer_input_dims(*self),
    {
        match self {
            Layer::LL(ll) => ll.input_dimensions(),
            Layer::NLL(NonLinearLayer::ReLU { dims }) => dims.input_dims,
        }
    }

    pub fn output_dimensions(&self) -> (r: Dims)
        ensures
            r == layer_output_dims(*self),
    {
        match self {
            Layer::LL(ll) => ll.output_dimensions(),
            Layer::NLL(NonLinearLayer::ReLU { dims }) => dims.output_dims,
        }
    }
}

/// Plaintext inference over the field: the reference the protocol is
/// held to.  Fails with a shape error when the input does not match the
/// first layer.
pub fn evaluate(net: &NeuralNetwork, x: &Vec<u64>) -> (r: Result<Vec<u64>, SessionError>)
    requires
        nn_wf(*net),
        forall|i: int| 0 <= i < x@.len() ==> fe_valid(#[trigger] x@[i]),
    ensures
        match r {
            Ok(v) => {
                &&& x@.len() == dims_len(layer_input_dims(net.layers@[0]))
                &&& v@ == nn_eval(*net, x@)
                &&& forall|i: int| 0 <= i < v@.len() ==> fe_valid(#[trigger] v@[i])
            },
            Err(e) => {
                &&& e.kind == ErrorKind::Shape
                &&& x@.len() != dims_len(layer_input_dims(net.layers@[0]))
            },
        },
{
    let d = net.layers[0].input_dimensions();
    proof {
        crate::layers::lemma_flat_index_bound(d, 0, 0, 0, 0);
    }
    let want = crate::layers::dims_product(&d);
    if x.len() != want {
        return Err(SessionError::new(ErrorKind::Shape, 0));
    }
    let mut cur: Vec<u64> = clone_vec(x);
    let mut i: usize = 0;
    while i < net.layers.len()
        invariant
            i <= net.layers@.len(),
            nn_wf(*net),
            cur@ == seq_nn_eval(net.layers@.take(i as int), x@),
            forall|t: int| 0 <= t < cur@.len() ==> fe_valid(#[trigger] cur@[t]),
            i < net.layers@.len() ==> cur@.len() == dims_len(
                layer_input_dims(net.layers@[i as int]),
            ),
        decreases net.layers@.len() - i,
    {
        let ghost prev = cur@;
        let layer = &net.layers[i];
        let next: Vec<u64> = match layer {
            Layer::LL(ll) => {
                let m = to_linear_map(ll);
                let out = apply(&m, &cur);
                proof {
                    lemma_map_eval(m, *ll, cur@);
                }
                out
            },
            Layer::NLL(NonLinearLayer::ReLU { .. }) => relu_vec(&cur),
        };
        proof {
            assert(next@ == spec_layer_eval(net.layers@[i as int], prev));
            lemma_nn_eval_step(net.layers@, x@, i as int, prev, next@);
        }
        cur = next;
        i = i + 1;
    }
    proof {
        assert(net.layers@.take(net.layers@.len() as int) =~= net.layers@);
    }
    Ok(cur)
}

/// Unfolding the evaluation one layer at a time from the front.
pub proof fn lemma_nn_eval_step(ls: Seq<Layer>, x: Seq<u64>, i: int, prev: Seq<u64>, next: Seq<u64>)
    requires
        0 <= i < ls.len(),
        prev == seq_nn_eval(ls.take(i), x),
        next == spec_layer_eval(ls[i], prev),
    ensures
        next == seq_nn_eval(ls.take(i + 1), x),
{
    assert(ls.take(i + 1) =~= ls.take(i) + seq![ls[i]]);
    lemma_nn_eval_compose(ls.take(i), seq![ls[i]], x);
    let single = seq![ls[i]];
    assert(seq_nn_eval(single, prev) == seq_nn_eval(
        single.subrange(1, 1),
        spec_layer_eval(single[0], prev),
    ));
    assert(single.subrange(1, 1) =~= Seq::<Layer>::empty());
}

pub fn clone_vec(x: &Vec<u64>) -> (r: Vec<u64>)
    ensures
        r@ == x@,
{
    let mut out: Vec<u64> = Vec::new();
    let mut i: usize = 0;
    while i < x.len()
        invariant
            i <= x@.len(),
            out@ == x@.take(i as int),
        decreases x@.len() - i,
    {
        out.push(x[i]);
        proof {
            assert(x@.take(i as int).push(x@[i as int]) =~= x@.take(i as int + 1));
        }
        i = i + 1;
    }
    proof {
        assert(x@.take(x@.len() as int) =~= x@);
    }
    out
}

} // verus!
