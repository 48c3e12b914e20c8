//! Architecture construction: randomly parameterised layers and the
//! 32-layer residual network preset.
//!
//! Builders check every shape as they go and return a shape failure
//! instead of constructing an invalid network; a network that comes
//! out of them is well-formed by contract, so the protocol phases can
//! consume it without re-validation.

use crate::error::{ErrorKind, SessionError};
use crate::fixed::FP_SCALE;
use crate::layers::{
    dims_len, dims_pos, linear_layer_wf, Dims, Kernel, Layer, LayerDims, LinearLayer,
    NonLinearLayer, Padding,
};
use crate::network::{
    layer_input_dims, layer_output_dims, layer_wf, layers_wf, NeuralNetwork,
};
use crate::rng::sample_field_vec;
use vstd::prelude::*;

verus! {

/// Appending a layer whose input matches the last output keeps a layer
/// list well-formed.
pub proof fn lemma_layers_wf_push(ls: Seq<Layer>, l: Layer)
    requires
        layers_wf(ls),
        layer_wf(l),
        ls.len() > 0 ==> layer_output_dims(ls.last()) == layer_input_dims(l),
    ensures
        layers_wf(ls.push(l)),
{
    let ls2 = ls.push(l);
    assert forall|i: int| 0 <= i < ls2.len() implies layer_wf(#[trigger] ls2[i]) by {
        if i < ls.len() {
            assert(ls2[i] == ls[i]);
        }
    };
    assert forall|i: int| 0 <= i < ls2.len() - 1 implies layer_output_dims(#[trigger] ls2[i])
        == layer_input_dims(ls2[i + 1]) by {
        if i < ls.len() - 1 {
            assert(ls2[i] == ls[i] && ls2[i + 1] == ls[i + 1]);
        } else {
            assert(ls2[i] == ls.last() && ls2[i + 1] == l);
        }
    };
}

/// A ReLU activation layer over the given extents.
pub open spec fn relu_layer(d: Dims) -> Layer {
    Layer::NLL(NonLinearLayer::ReLU { dims: LayerDims { input_dims: d, output_dims: d } })
}

/// Output height of a convolution, at the shape level.
pub open spec fn spec_conv_oh(input: Dims, kernel: Dims, stride: usize, padding: Padding) -> int {
    crate::layers::spec_conv_out_extent(input.h as int, kernel.h as int, stride as int, padding)
}

/// Output width of a convolution, at the shape level.
pub open spec fn spec_conv_ow(input: Dims, kernel: Dims, stride: usize, padding: Padding) -> int {
    crate::layers::spec_conv_out_extent(input.w as int, kernel.w as int, stride as int, padding)
}

/// Exactly the conditions under which a convolution layer can be
/// built: positive extents, a kernel no larger than its input over the
/// matching channels, and every tensor fitting the address space.
pub open spec fn conv_shape_ok(input: Dims, kernel: Dims, stride: usize, padding: Padding) -> bool {
    &&& dims_pos(input)
    &&& dims_pos(kernel)
    &&& kernel.c == input.c
    &&& kernel.h <= input.h
    &&& kernel.w <= input.w
    &&& stride >= 1
    &&& dims_len(input) <= usize::MAX
    &&& dims_len(kernel) <= usize::MAX
    &&& spec_conv_oh(input, kernel, stride, padding) <= usize::MAX
    &&& spec_conv_ow(input, kernel, stride, padding) <= usize::MAX
    &&& (input.n as int) * (kernel.n as int) * spec_conv_oh(input, kernel, stride, padding)
        * spec_conv_ow(input, kernel, stride, padding) <= usize::MAX
}

/// The output extents of a convolution layer.
pub open spec fn spec_conv_output(input: Dims, kernel: Dims, stride: usize, padding: Padding) -> Dims {
    Dims {
        n: input.n,
        c: kernel.n,
        h: spec_conv_oh(input, kernel, stride, padding) as usize,
        w: spec_conv_ow(input, kernel, stride, padding) as usize,
    }
}

/// Exactly the conditions under which a fully-connected layer can be
/// built.
pub open spec fn fc_shape_ok(input: Dims, out_chn: usize) -> bool {
    &&& dims_pos(input)
    &&& out_chn >= 1
    &&& dims_len(input) <= usize::MAX
    &&& (out_chn as int) * (input.c as int) * (input.h as int) * (input.w as int) <= usize::MAX
    &&& (input.n as int) * (out_chn as int) <= usize::MAX
}

/// Exactly the conditions under which an identity layer can be built.
pub open spec fn iden_shape_ok(input: Dims) -> bool {
    dims_pos(input) && dims_len(input) <= usize::MAX
}

/// The output extents of an average-pooling layer.
pub open spec fn spec_avg_output(input: Dims, pool_h: usize, pool_w: usize, stride: usize) -> Dims {
    Dims {
        n: input.n,
        c: input.c,
        h: ((input.h - pool_h) as int / stride as int + 1) as usize,
        w: ((input.w - pool_w) as int / stride as int + 1) as usize,
    }
}

/// The averaging coefficient: the rounded fixed-point encoding of the
/// reciprocal window size; a window larger than twice the scale rounds
/// to zero.
pub open spec fn spec_avg_coeff(pool_h: usize, pool_w: usize) -> int {
    let size = (pool_h as int) * (pool_w as int);
    if size > 2 * FP_SCALE {
        0
    } else {
        (2 * FP_SCALE + size) / (2 * size)
    }
}

/// Exactly the conditions under which an average-pooling layer can be
/// built.
pub open spec fn avg_shape_ok(input: Dims, pool_h: usize, pool_w: usize, stride: usize) -> bool {
    &&& dims_pos(input)
    &&& stride >= 1
    &&& 1 <= pool_h <= input.h
    &&& 1 <= pool_w <= input.w
    &&& dims_len(input) <= usize::MAX
    &&& dims_len(spec_avg_output(input, pool_h, pool_w, stride)) <= usize::MAX
}

/// Compute a tensor size, refusing shapes that do not fit the address
/// space.
fn checked_dims_len(d: &Dims) -> (r: Option<usize>)
    requires
        dims_pos(*d),
    ensures
        match r {
            Some(n) => n == dims_len(*d) && dims_len(*d) <= usize::MAX,
            None => dims_len(*d) > usize::MAX,
        },
{
    proof {
        crate::layers::lemma_u128_mul_fits(d.n as int, d.c as int);
    }
    let p1 = (d.n as u128) * (d.c as u128);
    if p1 > usize::MAX as u128 {
        proof {
            assert(dims_len(*d) >= (d.n as int) * (d.c as int)) by (nonlinear_arith)
                requires
                    d.h >= 1 && d.w >= 1 && d.n >= 1 && d.c >= 1 && dims_len(*d) == (d.n as int) * (
                    d.c as int) * (d.h as int) * (d.w as int),
            ;
        }
        return None;
    }
    proof {
        crate::layers::lemma_u128_mul_fits(p1 as int, d.h as int);
    }
    let p2 = p1 * (d.h as u128);
    if p2 > usize::MAX as u128 {
        proof {
            assert(dims_len(*d) >= (d.n as int) * (d.c as int) * (d.h as int))
                by (nonlinear_arith)
                requires
                    d.w >= 1 && d.n >= 1 && d.c >= 1 && d.h >= 1 && dims_len(*d) == (d.n as int) * (
                    d.c as int) * (d.h as int) * (d.w as int),
            ;
        }
        return None;
    }
    proof {
        crate::layers::lemma_u128_mul_fits(p2 as int, d.w as int);
    }
    let p3 = p2 * (d.w as u128);
    if p3 > usize::MAX as u128 {
        return None;
    }
    Some(p3 as usize)
}

/// Output extents of a convolution, refusing non-composing shapes.
fn conv_output_dims(input: &Dims, kernel: &Dims, stride: usize, padding: Padding) -> (r: Option<
    Dims,
>)
    requires
        dims_pos(*input),
        dims_pos(*kernel),
        stride >= 1,
        kernel.h <= input.h,
        kernel.w <= input.w,
    ensures
        r is Some <==> (spec_conv_oh(*input, *kernel, stride, padding) <= usize::MAX
            && spec_conv_ow(*input, *kernel, stride, padding) <= usize::MAX && (input.n as int) * (
        kernel.n as int) * spec_conv_oh(*input, *kernel, stride, padding) * spec_conv_ow(
            *input,
            *kernel,
            stride,
            padding,
        ) <= usize::MAX),
        match r {
            Some(o) => {
                &&& o == spec_conv_output(*input, *kernel, stride, padding)
                &&& dims_pos(o)
                &&& dims_len(o) <= usize::MAX
            },
            None => true,
        },
{
    let pad_h: u128 = match padding {
        Padding::Same => ((kernel.h - 1) / 2) as u128,
        Padding::Valid => 0,
    };
    let pad_w: u128 = match padding {
        Padding::Same => ((kernel.w - 1) / 2) as u128,
        Padding::Valid => 0,
    };
    let num_h = (input.h as u128) + 2 * pad_h - (kernel.h as u128);
    let num_w = (input.w as u128) + 2 * pad_w - (kernel.w as u128);
    let oh = num_h / (stride as u128) + 1;
    let ow = num_w / (stride as u128) + 1;
    if oh > usize::MAX as u128 || ow > usize::MAX as u128 {
        return None;
    }
    let o = Dims { n: input.n, c: kernel.n, h: oh as usize, w: ow as usize };
    match checked_dims_len(&o) {
        Some(_) => Some(o),
        None => None,
    }
}

/// Sample a convolution layer with uniformly random kernel and bias.
pub fn sample_conv_layer(
    input_dims: &Dims,
    kernel_dims: &Dims,
    stride: usize,
    padding: Padding,
    rng: &mut rand_chacha::ChaCha20Rng,
) -> (r: Result<LinearLayer, SessionError>)
    ensures
        r is Ok <==> conv_shape_ok(*input_dims, *kernel_dims, stride, padding),
        match r {
            Ok(l) => {
                &&& linear_layer_wf(l)
                &&& (l matches LinearLayer::Conv2d {
                    dims,
                    kernel,
                    bias,
                    stride: s,
                    padding: p,
                } && dims.input_dims == *input_dims && dims.output_dims == spec_conv_output(
                    *input_dims,
                    *kernel_dims,
                    stride,
                    padding,
                ) && kernel.dims == *kernel_dims && bias@.len() == kernel_dims.n && s == stride && p
                    == padding)
            },
            Err(e) => e.kind == ErrorKind::Shape,
        },
{
    let shape_err = SessionError::new(ErrorKind::Shape, 0);
    if !(input_dims.n >= 1 && input_dims.c >= 1 && input_dims.h >= 1 && input_dims.w >= 1) {
        return Err(shape_err);
    }
    if !(kernel_dims.n >= 1 && kernel_dims.c >= 1 && kernel_dims.h >= 1 && kernel_dims.w >= 1) {
        return Err(shape_err);
    }
    if !(kernel_dims.c == input_dims.c && kernel_dims.h <= input_dims.h && kernel_dims.w
        <= input_dims.w && stride >= 1) {
        return Err(shape_err);
    }
    if checked_dims_len(input_dims).is_none() {
        return Err(shape_err);
    }
    let kernel_len = match checked_dims_len(kernel_dims) {
        Some(n) => n,
        None => {
            return Err(shape_err);
        },
    };
    let out_dims = match conv_output_dims(input_dims, kernel_dims, stride, padding) {
        Some(o) => o,
        None => {
            return Err(shape_err);
        },
    };
    let kernel_data = sample_field_vec(rng, kernel_len);
    let bias = sample_field_vec(rng, kernel_dims.n);
    let kernel = Kernel { dims: *kernel_dims, data: kernel_data };
    let dims = LayerDims { input_dims: *input_dims, output_dims: out_dims };
    Ok(LinearLayer::Conv2d { dims, kernel, bias, stride, padding })
}

/// Sample a fully-connected layer with uniformly random weights and
/// bias.
pub fn sample_fc_layer(
    input_dims: &Dims,
    out_chn: usize,
    rng: &mut rand_chacha::ChaCha20Rng,
) -> (r: Result<LinearLayer, SessionError>)
    ensures
        r is Ok <==> fc_shape_ok(*input_dims, out_chn),
        match r {
            Ok(l) => {
                &&& linear_layer_wf(l)
                &&& (l matches LinearLayer::FullyConnected { dims, weights, bias }
                    && dims.input_dims == *input_dims && dims.output_dims == (Dims {
                    n: input_dims.n,
                    c: out_chn,
                    h: 1,
                    w: 1,
                }) && weights.dims == (Dims {
                    n: out_chn,
                    c: input_dims.c,
                    h: input_dims.h,
                    w: input_dims.w,
                }) && bias@.len() == out_chn)
            },
            Err(e) => e.kind == ErrorKind::Shape,
        },
{
    let shape_err = SessionError::new(ErrorKind::Shape, 0);
    if !(input_dims.n >= 1 && input_dims.c >= 1 && input_dims.h >= 1 && input_dims.w >= 1 && out_chn
        >= 1) {
        return Err(shape_err);
    }
    let weight_dims = Dims { n: out_chn, c: input_dims.c, h: input_dims.h, w: input_dims.w };
    let weight_len = match checked_dims_len(&weight_dims) {
        Some(n) => n,
        None => {
            return Err(shape_err);
        },
    };
    if checked_dims_len(input_dims).is_none() {
        return Err(shape_err);
    }
    let out_dims = Dims { n: input_dims.n, c: out_chn, h: 1, w: 1 };
    let out_len = match checked_dims_len(&out_dims) {
        Some(n) => n,
        None => {
            return Err(shape_err);
        },
    };
    let weights = Kernel { dims: weight_dims, data: sample_field_vec(rng, weight_len) };
    let bias = sample_field_vec(rng, out_chn);
    let dims = LayerDims { input_dims: *input_dims, output_dims: out_dims };
    Ok(LinearLayer::FullyConnected { dims, weights, bias })
}

/// An identity layer over the given extents.
pub fn sample_iden_layer(input_dims: &Dims) -> (r: Result<LinearLayer, SessionError>)
    ensures
        r is Ok <==> iden_shape_ok(*input_dims),
        match r {
            Ok(l) => {
                &&& linear_layer_wf(l)
                &&& l == (LinearLayer::Identity {
                    dims: LayerDims { input_dims: *input_dims, output_dims: *input_dims },
                })
            },
            Err(e) => e.kind == ErrorKind::Shape,
        },
{
    let shape_err = SessionError::new(ErrorKind::Shape, 0);
    if !(input_dims.n >= 1 && input_dims.c >= 1 && input_dims.h >= 1 && input_dims.w >= 1) {
        return Err(shape_err);
    }
    if checked_dims_len(input_dims).is_none() {
        return Err(shape_err);
    }
    let dims = LayerDims { input_dims: *input_dims, output_dims: *input_dims };
    Ok(LinearLayer::Identity { dims })
}

/// An average-pooling layer; the averaging coefficient is the rounded
/// fixed-point encoding of the reciprocal window size.
pub fn sample_avg_pool_layer(input_dims: &Dims, pool_h: usize, pool_w: usize, stride: usize) -> (r:
    Result<LinearLayer, SessionError>)
    ensures
        r is Ok <==> avg_shape_ok(*input_dims, pool_h, pool_w, stride),
        match r {
            Ok(l) => {
                &&& linear_layer_wf(l)
                &&& (l matches LinearLayer::AvgPool {
                    dims,
                    pool_h: ph,
                    pool_w: pw,
                    stride: s,
                    coeff,
                } && dims.input_dims == *input_dims && dims.output_dims == spec_avg_output(
                    *input_dims,
                    pool_h,
                    pool_w,
                    stride,
                ) && ph == pool_h && pw == pool_w && s == stride && coeff as int == spec_avg_coeff(
                    pool_h,
                    pool_w,
                ))
            },
            Err(e) => e.kind == ErrorKind::Shape,
        },
{
    let shape_err = SessionError::new(ErrorKind::Shape, 0);
    if !(input_dims.n >= 1 && input_dims.c >= 1 && input_dims.h >= 1 && input_dims.w >= 1) {
        return Err(shape_err);
    }
    if !(stride >= 1 && pool_h >= 1 && pool_w >= 1 && pool_h <= input_dims.h && pool_w
        <= input_dims.w) {
        return Err(shape_err);
    }
    if checked_dims_len(input_dims).is_none() {
        return Err(shape_err);
    }
    // round(2^e / (pool_h * pool_w)); a window larger than the scale
    // rounds to a zero coefficient.
    proof {
        crate::layers::lemma_u128_mul_fits(pool_h as int, pool_w as int);
    }
    let size_wide = (pool_h as u128) * (pool_w as u128);
    let coeff: u64 = if size_wide > 2 * (FP_SCALE as u128) {
        0
    } else {
        let size = size_wide as u64;
        proof {
            assert(size_wide >= 1) by (nonlinear_arith)
                requires
                    pool_h >= 1,
                    pool_w >= 1,
                    size_wide == (pool_h as int) * (pool_w as int),
            ;
            vstd::arithmetic::div_mod::lemma_div_nonincreasing(
                (2 * FP_SCALE + size_wide) as int,
                (2 * size_wide) as int,
            );
        }
        (2 * FP_SCALE + size) / (2 * size)
    };
    let oh = (input_dims.h - pool_h) / stride + 1;
    let ow = (input_dims.w - pool_w) / stride + 1;
    let out_dims = Dims { n: input_dims.n, c: input_dims.c, h: oh, w: ow };
    if checked_dims_len(&out_dims).is_none() {
        return Err(shape_err);
    }
    let dims = LayerDims { input_dims: *input_dims, output_dims: out_dims };
    Ok(LinearLayer::AvgPool { dims, pool_h, pool_w, stride, coeff })
}

/// Append a ReLU activation matching the network's current output.
pub fn add_activation_layer(nn: &mut NeuralNetwork)
    requires
        old(nn).layers@.len() >= 1,
        layers_wf(old(nn).layers@),
    ensures
        layers_wf(final(nn).layers@),
        final(nn).layers@ == old(nn).layers@.push(
            relu_layer(layer_output_dims(old(nn).layers@.last())),
        ),
        final(nn).layers@.len() == old(nn).layers@.len() + 1,
        layer_output_dims(final(nn).layers@.last()) == layer_output_dims(old(nn).layers@.last()),
{
    let last_idx = nn.layers.len() - 1;
    let cur = nn.layers[last_idx].output_dimensions();
    let layer = Layer::NLL(
        NonLinearLayer::ReLU { dims: LayerDims { input_dims: cur, output_dims: cur } },
    );
    proof {
        assert(layer_wf(old(nn).layers@.last()));
        assert(layer == relu_layer(cur));
        lemma_layers_wf_push(nn.layers@, layer);
    }
    nn.layers.push(layer);
}

/// Push a sampled linear layer whose input matches the current output.
fn push_linear(nn: &mut NeuralNetwork, l: LinearLayer)
    requires
        layers_wf(old(nn).layers@),
        linear_layer_wf(l),
        old(nn).layers@.len() > 0 ==> layer_output_dims(old(nn).layers@.last())
            == l.spec_dims().input_dims,
    ensures
        layers_wf(final(nn).layers@),
        final(nn).layers@ == old(nn).layers@.push(Layer::LL(l)),
        final(nn).layers@.len() == old(nn).layers@.len() + 1,
        layer_output_dims(final(nn).layers@.last()) == l.spec_dims().output_dims,
{
    proof {
        lemma_layers_wf_push(nn.layers@, Layer::LL(l));
    }
    nn.layers.push(Layer::LL(l));
}

/// A layer holds a sampled convolution of the stated kernel extents,
/// stride and Same padding over the stated input extents.
pub open spec fn is_sampled_conv(l: Layer, input: Dims, kernel: Dims, stride: usize) -> bool {
    l matches Layer::LL(ll) && (ll matches LinearLayer::Conv2d {
        dims,
        kernel: k,
        stride: s,
        padding,
        ..
    } && dims.input_dims == input && dims.output_dims == spec_conv_output(
        input,
        kernel,
        stride,
        Padding::Same,
    ) && k.dims == kernel && s == stride && padding is Same)
}

/// Positions `at` and `at + 1` hold a sampled convolution and its
/// matching activation.
pub open spec fn is_conv_pair(ls: Seq<Layer>, at: int, input: Dims, kernel: Dims, stride: usize) -> bool {
    &&& is_sampled_conv(ls[at], input, kernel, stride)
    &&& ls[at + 1] == relu_layer(spec_conv_output(input, kernel, stride, Padding::Same))
}

/// First kernel of a down-sampling block.
pub open spec fn block_kernel_1(cur: Dims, k_h: usize, k_w: usize, c_out: usize) -> Dims {
    Dims { n: c_out, c: cur.c, h: k_h, w: k_w }
}

/// Extents between the two convolutions of a down-sampling block.
pub open spec fn conv_block_mid(cur: Dims, k_h: usize, k_w: usize, c_out: usize, stride: usize) -> Dims {
    spec_conv_output(cur, block_kernel_1(cur, k_h, k_w, c_out), stride, Padding::Same)
}

/// Second kernel of a down-sampling block.
pub open spec fn block_kernel_2(cur: Dims, k_h: usize, k_w: usize, c_out: usize, stride: usize) -> Dims {
    let o1 = conv_block_mid(cur, k_h, k_w, c_out, stride);
    Dims { n: o1.c, c: o1.c, h: k_h, w: k_w }
}

/// Exactly the conditions under which a down-sampling block composes.
pub open spec fn conv_block_ok(cur: Dims, k_h: usize, k_w: usize, c_out: usize, stride: usize) -> bool {
    &&& conv_shape_ok(cur, block_kernel_1(cur, k_h, k_w, c_out), stride, Padding::Same)
    &&& conv_shape_ok(
        conv_block_mid(cur, k_h, k_w, c_out, stride),
        block_kernel_2(cur, k_h, k_w, c_out, stride),
        1,
        Padding::Same,
    )
}

/// Output extents of a down-sampling block.
pub open spec fn conv_block_out(cur: Dims, k_h: usize, k_w: usize, c_out: usize, stride: usize) -> Dims {
    spec_conv_output(
        conv_block_mid(cur, k_h, k_w, c_out, stride),
        block_kernel_2(cur, k_h, k_w, c_out, stride),
        1,
        Padding::Same,
    )
}

/// Positions `at .. at + 4` hold a down-sampling block: two sampled
/// convolutions of the stated kernel extents, each followed by its
/// activation.
pub open spec fn is_conv_block_at(
    ls: Seq<Layer>,
    at: int,
    cur: Dims,
    k_h: usize,
    k_w: usize,
    c_out: usize,
    stride: usize,
) -> bool {
    &&& is_conv_pair(ls, at, cur, block_kernel_1(cur, k_h, k_w, c_out), stride)
    &&& is_conv_pair(
        ls,
        at + 2,
        conv_block_mid(cur, k_h, k_w, c_out, stride),
        block_kernel_2(cur, k_h, k_w, c_out, stride),
        1,
    )
}

/// An identity block is a down-sampling block that keeps the channel
/// count and uses stride one.
pub open spec fn iden_block_ok(cur: Dims, k_h: usize, k_w: usize) -> bool {
    conv_block_ok(cur, k_h, k_w, cur.c, 1)
}

/// Output extents of an identity block.
pub open spec fn iden_block_out(cur: Dims, k_h: usize, k_w: usize) -> Dims {
    conv_block_out(cur, k_h, k_w, cur.c, 1)
}

/// Positions `at .. at + 4` hold an identity block.
pub open spec fn is_iden_block_at(ls: Seq<Layer>, at: int, cur: Dims, k_h: usize, k_w: usize) -> bool {
    is_conv_block_at(ls, at, cur, k_h, k_w, cur.c, 1)
}

/// Whether a layer is a convolution.
pub open spec fn is_conv_layer(l: Layer) -> bool {
    l matches Layer::LL(ll) && ll is Conv2d
}

/// Every convolution is immediately followed by a ReLU over its output
/// extents.
pub open spec fn convs_followed_by_relu(ls: Seq<Layer>) -> bool {
    forall|i: int|
        0 <= i < ls.len() && is_conv_layer(#[trigger] ls[i]) ==> i + 1 < ls.len() && ls[i + 1]
            == relu_layer(layer_output_dims(ls[i]))
}

/// Appending a non-convolution layer keeps every convolution followed
/// by its activation.
proof fn lemma_convs_relu_push_nonconv(ls: Seq<Layer>, l: Layer)
    requires
        convs_followed_by_relu(ls),
        !is_conv_layer(l),
    ensures
        convs_followed_by_relu(ls.push(l)),
{
    let ls2 = ls.push(l);
    assert forall|i: int| 0 <= i < ls2.len() && is_conv_layer(#[trigger] ls2[i]) implies i + 1
        < ls2.len() && ls2[i + 1] == relu_layer(layer_output_dims(ls2[i])) by {
        if i < ls.len() {
            assert(ls2[i] == ls[i]);
            assert(i + 1 < ls.len());
            assert(ls2[i + 1] == ls[i + 1]);
        }
    };
}

/// Appending a convolution and its matching activation keeps every
/// convolution followed by its activation.
proof fn lemma_convs_relu_push_pair(ls: Seq<Layer>, conv: Layer)
    requires
        convs_followed_by_relu(ls),
        is_conv_layer(conv),
    ensures
        convs_followed_by_relu(ls.push(conv).push(relu_layer(layer_output_dims(conv)))),
{
    let ls2 = ls.push(conv).push(relu_layer(layer_output_dims(conv)));
    assert forall|i: int| 0 <= i < ls2.len() && is_conv_layer(#[trigger] ls2[i]) implies i + 1
        < ls2.len() && ls2[i + 1] == relu_layer(layer_output_dims(ls2[i])) by {
        if i < ls.len() {
            assert(ls2[i] == ls[i]);
            assert(i + 1 < ls.len());
            assert(ls2[i + 1] == ls[i + 1]);
        } else if i == ls.len() {
            assert(ls2[i] == conv);
            assert(ls2[i + 1] == relu_layer(layer_output_dims(conv)));
        } else {
            assert(ls2[i] == relu_layer(layer_output_dims(conv)));
        }
    };
}

/// A residual down-sampling block: two convolutions, each followed by
/// an activation.  Succeeds exactly when the shapes compose, and then
/// extends the network by exactly those four layers.
pub fn conv_block(
    nn: &mut NeuralNetwork,
    k_h: usize,
    k_w: usize,
    num_output_channels: usize,
    stride: usize,
    rng: &mut rand_chacha::ChaCha20Rng,
) -> (r: Result<(), SessionError>)
    requires
        old(nn).layers@.len() >= 1,
        layers_wf(old(nn).layers@),
    ensures
        layers_wf(final(nn).layers@),
        final(nn).layers@.len() >= 1,
        final(nn).layers@.len() >= old(nn).layers@.len(),
        final(nn).layers@.subrange(0, old(nn).layers@.len() as int) == old(nn).layers@,
        convs_followed_by_relu(old(nn).layers@) ==> convs_followed_by_relu(final(nn).layers@),
        r is Ok <==> conv_block_ok(
            layer_output_dims(old(nn).layers@.last()),
            k_h,
            k_w,
            num_output_channels,
            stride,
        ),
        r matches Err(e) ==> e.kind == ErrorKind::Shape,
        r is Ok ==> final(nn).layers@.len() == old(nn).layers@.len() + 4,
        r is Ok ==> is_conv_block_at(
            final(nn).layers@,
            old(nn).layers@.len() as int,
            layer_output_dims(old(nn).layers@.last()),
            k_h,
            k_w,
            num_output_channels,
            stride,
        ),
        r is Ok ==> layer_output_dims(final(nn).layers@.last()) == conv_block_out(
            layer_output_dims(old(nn).layers@.last()),
            k_h,
            k_w,
            num_output_channels,
            stride,
        ),
{
    let ghost d0 = layer_output_dims(old(nn).layers@.last());
    let last_idx = nn.layers.len() - 1;
    let cur = nn.layers[last_idx].output_dimensions();
    let c_in = cur.c;
    let kd = Dims { n: num_output_channels, c: c_in, h: k_h, w: k_w };
    let conv_1 = match sample_conv_layer(&cur, &kd, stride, Padding::Same, rng) {
        Ok(l) => l,
        Err(e) => {
            proof {
                assert(final(nn).layers@.subrange(0, old(nn).layers@.len() as int) =~= old(
                    nn,
                ).layers@);
            }
            return Err(e);
        },
    };
    push_linear(nn, conv_1);
    add_activation_layer(nn);
    let ghost mid = conv_block_mid(d0, k_h, k_w, num_output_channels, stride);
    let last_idx = nn.layers.len() - 1;
    let cur = nn.layers[last_idx].output_dimensions();
    let c_in = cur.c;
    let kd = Dims { n: c_in, c: c_in, h: k_h, w: k_w };
    proof {
        assert(cur == mid);
        assert(kd == block_kernel_2(d0, k_h, k_w, num_output_channels, stride));
    }
    let conv_2 = match sample_conv_layer(&cur, &kd, 1, Padding::Same, rng) {
        Ok(l) => l,
        Err(e) => {
            proof {
                assert(nn.layers@.subrange(0, old(nn).layers@.len() as int) =~= old(nn).layers@);
                if convs_followed_by_relu(old(nn).layers@) {
                    lemma_convs_relu_push_pair(old(nn).layers@, Layer::LL(conv_1));
                    assert(nn.layers@ =~= old(nn).layers@.push(Layer::LL(conv_1)).push(
                        relu_layer(layer_output_dims(Layer::LL(conv_1))),
                    ));
                }
            }
            return Err(e);
        },
    };
    push_linear(nn, conv_2);
    add_activation_layer(nn);
    proof {
        let ls = nn.layers@;
        let base = old(nn).layers@.len() as int;
        assert(ls.subrange(0, base) =~= old(nn).layers@);
        assert(ls[base] == Layer::LL(conv_1));
        assert(ls[base + 1] == relu_layer(mid));
        assert(ls[base + 2] == Layer::LL(conv_2));
        assert(ls[base + 3] == relu_layer(
            conv_block_out(d0, k_h, k_w, num_output_channels, stride),
        ));
        if convs_followed_by_relu(old(nn).layers@) {
            let mid_seq = old(nn).layers@.push(Layer::LL(conv_1)).push(
                relu_layer(layer_output_dims(Layer::LL(conv_1))),
            );
            lemma_convs_relu_push_pair(old(nn).layers@, Layer::LL(conv_1));
            lemma_convs_relu_push_pair(mid_seq, Layer::LL(conv_2));
            assert(ls =~= mid_seq.push(Layer::LL(conv_2)).push(
                relu_layer(layer_output_dims(Layer::LL(conv_2))),
            ));
        }
    }
    Ok(())
}

/// A residual identity block: two stride-one convolutions with
/// activations.  Succeeds exactly when the shapes compose, and then
/// extends the network by exactly those four layers.
pub fn iden_block(
    nn: &mut NeuralNetwork,
    k_h: usize,
    k_w: usize,
    rng: &mut rand_chacha::ChaCha20Rng,
) -> (r: Result<(), SessionError>)
    requires
        old(nn).layers@.len() >= 1,
        layers_wf(old(nn).layers@),
    ensures
        layers_wf(final(nn).layers@),
        final(nn).layers@.len() >= 1,
        final(nn).layers@.len() >= old(nn).layers@.len(),
        final(nn).layers@.subrange(0, old(nn).layers@.len() as int) == old(nn).layers@,
        convs_followed_by_relu(old(nn).layers@) ==> convs_followed_by_relu(final(nn).layers@),
        r is Ok <==> iden_block_ok(layer_output_dims(old(nn).layers@.last()), k_h, k_w),
        r matches Err(e) ==> e.kind == ErrorKind::Shape,
        r is Ok ==> final(nn).layers@.len() == old(nn).layers@.len() + 4,
        r is Ok ==> is_iden_block_at(
            final(nn).layers@,
            old(nn).layers@.len() as int,
            layer_output_dims(old(nn).layers@.last()),
            k_h,
            k_w,
        ),
        r is Ok ==> layer_output_dims(final(nn).layers@.last()) == iden_block_out(
            layer_output_dims(old(nn).layers@.last()),
            k_h,
            k_w,
        ),
{
    let last_idx = nn.layers.len() - 1;
    let cur = nn.layers[last_idx].output_dimensions();
    let c_in = cur.c;
    conv_block(nn, k_h, k_w, c_in, 1, rng)
}

/// Extents after `t` identity blocks starting from `d`.
pub open spec fn resnet_stage_out(d: Dims, t: int, k_h: usize, k_w: usize) -> Dims
    decreases t,
{
    if t <= 0 {
        d
    } else {
        resnet_stage_out(iden_block_out(d, k_h, k_w), t - 1, k_h, k_w)
    }
}

/// All of `n` identity blocks starting from `d` compose.
pub open spec fn resnet_stage_ok(d: Dims, n: int, k_h: usize, k_w: usize) -> bool
    decreases n,
{
    n <= 0 || (iden_block_ok(d, k_h, k_w) && resnet_stage_ok(
        iden_block_out(d, k_h, k_w),
        n - 1,
        k_h,
        k_w,
    ))
}

/// Exactly the conditions under which a whole residual stage composes.
pub open spec fn resnet_block_ok(
    cur: Dims,
    layer_size: usize,
    c_out: usize,
    k_h: usize,
    k_w: usize,
    stride: usize,
) -> bool {
    &&& conv_block_ok(cur, k_h, k_w, c_out, stride)
    &&& resnet_stage_ok(
        conv_block_out(cur, k_h, k_w, c_out, stride),
        layer_size as int - 1,
        k_h,
        k_w,
    )
}

/// Peeling one identity block off the back of a stage.
proof fn lemma_stage_out_snoc(d: Dims, t: int, k_h: usize, k_w: usize)
    requires
        t >= 0,
    ensures
        resnet_stage_out(d, t + 1, k_h, k_w) == iden_block_out(
            resnet_stage_out(d, t, k_h, k_w),
            k_h,
            k_w,
        ),
    decreases t,
{
    if t == 0 {
        assert(resnet_stage_out(d, 1, k_h, k_w) == resnet_stage_out(
            iden_block_out(d, k_h, k_w),
            0,
            k_h,
            k_w,
        ));
    } else {
        lemma_stage_out_snoc(iden_block_out(d, k_h, k_w), t - 1, k_h, k_w);
    }
}

/// A stage composes when each of its identity blocks does.
proof fn lemma_stage_ok_build(d: Dims, n: int, k_h: usize, k_w: usize)
    requires
        forall|t: int|
            0 <= t < n ==> iden_block_ok(#[trigger] resnet_stage_out(d, t, k_h, k_w), k_h, k_w),
    ensures
        resnet_stage_ok(d, n, k_h, k_w),
    decreases n,
{
    if n > 0 {
        assert(resnet_stage_out(d, 0, k_h, k_w) == d);
        let d2 = iden_block_out(d, k_h, k_w);
        assert forall|t: int| 0 <= t < n - 1 implies iden_block_ok(
            #[trigger] resnet_stage_out(d2, t, k_h, k_w),
            k_h,
            k_w,
        ) by {
            assert(resnet_stage_out(d, t + 1, k_h, k_w) == resnet_stage_out(d2, t, k_h, k_w));
        };
        lemma_stage_ok_build(d2, n - 1, k_h, k_w);
    }
}

/// A stage does not compose when one of its identity blocks fails.
proof fn lemma_stage_ok_fail(d: Dims, n: int, t: int, k_h: usize, k_w: usize)
    requires
        0 <= t < n,
        !iden_block_ok(resnet_stage_out(d, t, k_h, k_w), k_h, k_w),
    ensures
        !resnet_stage_ok(d, n, k_h, k_w),
    decreases t,
{
    if t == 0 {
        assert(resnet_stage_out(d, 0, k_h, k_w) == d);
    } else {
        let d2 = iden_block_out(d, k_h, k_w);
        assert(resnet_stage_out(d, t, k_h, k_w) == resnet_stage_out(d2, t - 1, k_h, k_w));
        lemma_stage_ok_fail(d2, n - 1, t - 1, k_h, k_w);
    }
}

/// One residual stage: a down-sampling block followed by
/// `layer_size - 1` identity blocks.  Succeeds exactly when every
/// sub-block composes, and then extends the network by exactly those
/// `4 * layer_size` layers.
pub fn resnet_block(
    nn: &mut NeuralNetwork,
    layer_size: usize,
    c_out: usize,
    k_h: usize,
    k_w: usize,
    stride: usize,
    rng: &mut rand_chacha::ChaCha20Rng,
) -> (r: Result<(), SessionError>)
    requires
        old(nn).layers@.len() >= 1,
        layers_wf(old(nn).layers@),
        layer_size >= 1,
    ensures
        layers_wf(final(nn).layers@),
        final(nn).layers@.len() >= 1,
        final(nn).layers@.len() >= old(nn).layers@.len(),
        final(nn).layers@.subrange(0, old(nn).layers@.len() as int) == old(nn).layers@,
        convs_followed_by_relu(old(nn).layers@) ==> convs_followed_by_relu(final(nn).layers@),
        r is Ok <==> resnet_block_ok(
            layer_output_dims(old(nn).layers@.last()),
            layer_size,
            c_out,
            k_h,
            k_w,
            stride,
        ),
        r matches Err(e) ==> e.kind == ErrorKind::Shape,
        r is Ok ==> final(nn).layers@.len() == old(nn).layers@.len() + 4 * layer_size,
        r is Ok ==> is_conv_block_at(
            final(nn).layers@,
            old(nn).layers@.len() as int,
            layer_output_dims(old(nn).layers@.last()),
            k_h,
            k_w,
            c_out,
            stride,
        ),
        r is Ok ==> (forall|t: int|
            0 <= t < layer_size - 1 ==> is_iden_block_at(
                final(nn).layers@,
                old(nn).layers@.len() + 4 + 4 * t,
                #[trigger] resnet_stage_out(
                    conv_block_out(
                        layer_output_dims(old(nn).layers@.last()),
                        k_h,
                        k_w,
                        c_out,
                        stride,
                    ),
                    t,
                    k_h,
                    k_w,
                ),
                k_h,
                k_w,
            )),
        r is Ok ==> layer_output_dims(final(nn).layers@.last()) == resnet_stage_out(
            conv_block_out(layer_output_dims(old(nn).layers@.last()), k_h, k_w, c_out, stride),
            layer_size as int - 1,
            k_h,
            k_w,
        ),
{
    let ghost d0 = layer_output_dims(old(nn).layers@.last());
    let ghost base = old(nn).layers@.len() as int;
    match conv_block(nn, k_h, k_w, c_out, stride, rng) {
        Ok(()) => {},
        Err(e) => {
            return Err(e);
        },
    }
    let ghost d1 = conv_block_out(d0, k_h, k_w, c_out, stride);
    let mut i: usize = 0;
    while i < layer_size - 1
        invariant
            layer_size >= 1,
            i <= layer_size - 1,
            layers_wf(nn.layers@),
            nn.layers@.len() == base + 4 + 4 * i,
            base >= 1,
            nn.layers@.subrange(0, base) == old(nn).layers@,
            d0 == layer_output_dims(old(nn).layers@.last()),
            d1 == conv_block_out(d0, k_h, k_w, c_out, stride),
            convs_followed_by_relu(old(nn).layers@) ==> convs_followed_by_relu(nn.layers@),
            is_conv_block_at(nn.layers@, base, d0, k_h, k_w, c_out, stride),
            forall|t: int|
                0 <= t < i ==> is_iden_block_at(
                    nn.layers@,
                    base + 4 + 4 * t,
                    #[trigger] resnet_stage_out(d1, t, k_h, k_w),
                    k_h,
                    k_w,
                ),
            forall|t: int|
                0 <= t < i ==> iden_block_ok(
                    #[trigger] resnet_stage_out(d1, t, k_h, k_w),
                    k_h,
                    k_w,
                ),
            layer_output_dims(nn.layers@.last()) == resnet_stage_out(d1, i as int, k_h, k_w),
        decreases layer_size - 1 - i,
    {
        let ghost pre = nn.layers@;
        match iden_block(nn, k_h, k_w, rng) {
            Ok(()) => {},
            Err(e) => {
                proof {
                    lemma_stage_ok_fail(d1, layer_size as int - 1, i as int, k_h, k_w);
                    let ls = nn.layers@;
                    lemma_block_at_prefix_stable(pre, ls, 0, base);
                    assert forall|k: int| 0 <= k < base implies #[trigger] ls[k] == old(
                        nn,
                    ).layers@[k] by {
                        assert(pre.subrange(0, base)[k] == pre[k]);
                    };
                    assert(ls.subrange(0, base) =~= old(nn).layers@);
                }
                return Err(e);
            },
        }
        proof {
            let ls = nn.layers@;
            lemma_block_at_prefix_stable(pre, ls, 0, base);
            assert forall|k: int| 0 <= k < base implies #[trigger] ls[k] == old(
                nn,
            ).layers@[k] by {
                assert(pre.subrange(0, base)[k] == pre[k]);
            };
            assert(ls.subrange(0, base) =~= old(nn).layers@);
            assert(is_conv_block_at(ls, base, d0, k_h, k_w, c_out, stride)) by {
                lemma_block_at_prefix_stable(pre, ls, base, 4);
            }
            assert forall|t: int| 0 <= t < i implies is_iden_block_at(
                ls,
                base + 4 + 4 * t,
                #[trigger] resnet_stage_out(d1, t, k_h, k_w),
                k_h,
                k_w,
            ) by {
                lemma_block_at_prefix_stable(pre, ls, base + 4 + 4 * t, 4);
            };
            lemma_stage_out_snoc(d1, i as int, k_h, k_w);
        }
        i = i + 1;
    }
    proof {
        lemma_stage_ok_build(d1, layer_size as int - 1, k_h, k_w);
    }
    Ok(())
}

/// Four consecutive positions below a preserved prefix keep their
/// layers when the sequence is extended.
proof fn lemma_block_at_prefix_stable(pre: Seq<Layer>, ls: Seq<Layer>, at: int, span: int)
    requires
        pre.len() <= ls.len(),
        ls.subrange(0, pre.len() as int) == pre,
        0 <= at,
        at + span <= pre.len(),
        span >= 0,
    ensures
        forall|o: int| 0 <= o < span ==> #[trigger] ls[at + o] == pre[at + o],
{
    assert forall|o: int| 0 <= o < span implies #[trigger] ls[at + o] == pre[at + o] by {
        assert(0 <= at + o < pre.len());
        assert(pre[at + o] == ls.subrange(0, pre.len() as int)[at + o]);
    };
}

/// A stage of identity blocks over fixed extents composes, and leaves
/// the extents fixed.
proof fn lemma_stage_fixed(d: Dims, n: int, k_h: usize, k_w: usize)
    requires
        n >= 0,
        iden_block_ok(d, k_h, k_w),
        iden_block_out(d, k_h, k_w) == d,
    ensures
        resnet_stage_ok(d, n, k_h, k_w),
        resnet_stage_out(d, n, k_h, k_w) == d,
    decreases n,
{
    if n > 0 {
        lemma_stage_fixed(d, n - 1, k_h, k_w);
    }
}

/// All the concrete shape facts of the preset: every stage composes,
/// and the extents flow as stated.
#[verifier::spinoff_prover]
#[verifier::rlimit(100)]
proof fn lemma_preset_shapes(b: usize)
    requires
        1 <= b <= 100000,
    ensures
        conv_shape_ok(
            Dims { n: b, c: 3, h: 32, w: 32 },
            Dims { n: 16, c: 3, h: 3, w: 3 },
            1,
            Padding::Same,
        ),
        spec_conv_output(
            Dims { n: b, c: 3, h: 32, w: 32 },
            Dims { n: 16, c: 3, h: 3, w: 3 },
            1,
            Padding::Same,
        ) == (Dims { n: b, c: 16, h: 32, w: 32 }),
        conv_block_ok(Dims { n: b, c: 16, h: 32, w: 32 }, 3, 3, 16, 1),
        conv_block_out(Dims { n: b, c: 16, h: 32, w: 32 }, 3, 3, 16, 1) == (Dims {
            n: b,
            c: 16,
            h: 32,
            w: 32,
        }),
        iden_block_ok(Dims { n: b, c: 16, h: 32, w: 32 }, 3, 3),
        iden_block_out(Dims { n: b, c: 16, h: 32, w: 32 }, 3, 3) == (Dims {
            n: b,
            c: 16,
            h: 32,
            w: 32,
        }),
        conv_block_ok(Dims { n: b, c: 16, h: 32, w: 32 }, 3, 3, 32, 2),
        conv_block_out(Dims { n: b, c: 16, h: 32, w: 32 }, 3, 3, 32, 2) == (Dims {
            n: b,
            c: 32,
            h: 16,
            w: 16,
        }),
        iden_block_ok(Dims { n: b, c: 32, h: 16, w: 16 }, 3, 3),
        iden_block_out(Dims { n: b, c: 32, h: 16, w: 16 }, 3, 3) == (Dims {
            n: b,
            c: 32,
            h: 16,
            w: 16,
        }),
        conv_block_ok(Dims { n: b, c: 32, h: 16, w: 16 }, 3, 3, 64, 2),
        conv_block_out(Dims { n: b, c: 32, h: 16, w: 16 }, 3, 3, 64, 2) == (Dims {
            n: b,
            c: 64,
            h: 8,
            w: 8,
        }),
        iden_block_ok(Dims { n: b, c: 64, h: 8, w: 8 }, 3, 3),
        iden_block_out(Dims { n: b, c: 64, h: 8, w: 8 }, 3, 3) == (Dims {
            n: b,
            c: 64,
            h: 8,
            w: 8,
        }),
        avg_shape_ok(Dims { n: b, c: 64, h: 8, w: 8 }, 2, 2, 2),
        spec_avg_output(Dims { n: b, c: 64, h: 8, w: 8 }, 2, 2, 2) == (Dims {
            n: b,
            c: 64,
            h: 4,
            w: 4,
        }),
        fc_shape_ok(Dims { n: b, c: 64, h: 4, w: 4 }, 10),
{
    assert(usize::MAX >= 0xffffffff);
    let bi = b as int;
    let gd0 = Dims { n: b, c: 3, h: 32, w: 32 };
    let gd1 = Dims { n: b, c: 16, h: 32, w: 32 };
    let gd2 = Dims { n: b, c: 32, h: 16, w: 16 };
    let gd3 = Dims { n: b, c: 64, h: 8, w: 8 };
    let gd4 = Dims { n: b, c: 64, h: 4, w: 4 };
    let k0 = Dims { n: 16, c: 3, h: 3, w: 3 };
    let k1 = Dims { n: 16, c: 16, h: 3, w: 3 };
    let k2a = Dims { n: 32, c: 16, h: 3, w: 3 };
    let k2b = Dims { n: 32, c: 32, h: 3, w: 3 };
    let k3a = Dims { n: 64, c: 32, h: 3, w: 3 };
    let k3b = Dims { n: 64, c: 64, h: 3, w: 3 };
    // The output extents of every convolution of the preset fold to
    // constants.
    assert(spec_conv_oh(gd0, k0, 1, Padding::Same) == 32);
    assert(spec_conv_ow(gd0, k0, 1, Padding::Same) == 32);
    assert(spec_conv_oh(gd1, k1, 1, Padding::Same) == 32);
    assert(spec_conv_ow(gd1, k1, 1, Padding::Same) == 32);
    assert(spec_conv_oh(gd1, k2a, 2, Padding::Same) == 16);
    assert(spec_conv_ow(gd1, k2a, 2, Padding::Same) == 16);
    assert(spec_conv_oh(gd2, k2b, 1, Padding::Same) == 16);
    assert(spec_conv_ow(gd2, k2b, 1, Padding::Same) == 16);
    assert(spec_conv_oh(gd2, k3a, 2, Padding::Same) == 8);
    assert(spec_conv_ow(gd2, k3a, 2, Padding::Same) == 8);
    assert(spec_conv_oh(gd3, k3b, 1, Padding::Same) == 8);
    assert(spec_conv_ow(gd3, k3b, 1, Padding::Same) == 8);
    // Every tensor of the preset fits the address space under the
    // batch bound.
    assert(bi * 3 * 32 * 32 <= usize::MAX);
    assert(bi * 16 * 32 * 32 <= usize::MAX);
    assert(bi * 32 * 16 * 16 <= usize::MAX);
    assert(bi * 64 * 8 * 8 <= usize::MAX);
    assert(bi * 64 * 4 * 4 <= usize::MAX);
    assert(bi * 10 <= usize::MAX);
    assert(conv_shape_ok(gd0, k0, 1, Padding::Same));
    assert(spec_conv_output(gd0, k0, 1, Padding::Same) == gd1);
    assert(conv_shape_ok(gd1, k1, 1, Padding::Same));
    assert(spec_conv_output(gd1, k1, 1, Padding::Same) == gd1);
    assert(conv_block_mid(gd1, 3, 3, 16, 1) == gd1);
    assert(block_kernel_2(gd1, 3, 3, 16, 1) == k1);
    assert(conv_shape_ok(gd1, k2a, 2, Padding::Same));
    assert(spec_conv_output(gd1, k2a, 2, Padding::Same) == gd2);
    assert(conv_block_mid(gd1, 3, 3, 32, 2) == gd2);
    assert(block_kernel_2(gd1, 3, 3, 32, 2) == k2b);
    assert(conv_shape_ok(gd2, k2b, 1, Padding::Same));
    assert(spec_conv_output(gd2, k2b, 1, Padding::Same) == gd2);
    assert(conv_shape_ok(gd2, k3a, 2, Padding::Same));
    assert(spec_conv_output(gd2, k3a, 2, Padding::Same) == gd3);
    assert(conv_block_mid(gd2, 3, 3, 64, 2) == gd3);
    assert(block_kernel_2(gd2, 3, 3, 64, 2) == k3b);
    assert(conv_shape_ok(gd3, k3b, 1, Padding::Same));
    assert(spec_conv_output(gd3, k3b, 1, Padding::Same) == gd3);
    assert(spec_avg_output(gd3, 2, 2, 2) == gd4);
    assert(dims_len(gd4) == bi * 64 * 4 * 4);
    assert(avg_shape_ok(gd3, 2, 2, 2));
    assert(fc_shape_ok(gd4, 10));
}

/// Construct the 32-layer residual network preset over CIFAR-shaped
/// input, with uniformly random parameters: an initial convolution and
/// activation, three residual stages of five sub-blocks, average
/// pooling and the ten-way classifier head.  The batch bound is a
/// machine limit: it keeps every tensor of the preset within the
/// address space, so construction always succeeds.
#[verifier::spinoff_prover]
#[verifier::rlimit(100)]
pub fn construct_resnet_32(
    batch_size: usize,
    rng: &mut rand_chacha::ChaCha20Rng,
) -> (r: Result<NeuralNetwork, SessionError>)
    requires
        1 <= batch_size <= 100000,
    ensures
        r is Ok,
        r matches Ok(n) ==> {
            let b = batch_size;
            let d0 = Dims { n: b, c: 3, h: 32, w: 32 };
            let d1 = Dims { n: b, c: 16, h: 32, w: 32 };
            let d2 = Dims { n: b, c: 32, h: 16, w: 16 };
            let d3 = Dims { n: b, c: 64, h: 8, w: 8 };
            let d4 = Dims { n: b, c: 64, h: 4, w: 4 };
            &&& crate::network::nn_wf(n)
            &&& n.layers@.len() == 64
            &&& is_sampled_conv(n.layers@[0], d0, Dims { n: 16, c: 3, h: 3, w: 3 }, 1)
            &&& n.layers@[1] == relu_layer(d1)
            &&& convs_followed_by_relu(n.layers@)
            &&& is_conv_block_at(n.layers@, 2, d1, 3, 3, 16, 1)
            &&& (forall|t: int| 0 <= t < 4 ==> #[trigger] is_iden_block_at(
                n.layers@,
                6 + 4 * t,
                d1,
                3,
                3,
            ))
            &&& is_conv_block_at(n.layers@, 22, d1, 3, 3, 32, 2)
            &&& (forall|t: int| 0 <= t < 4 ==> #[trigger] is_iden_block_at(
                n.layers@,
                26 + 4 * t,
                d2,
                3,
                3,
            ))
            &&& is_conv_block_at(n.layers@, 42, d2, 3, 3, 64, 2)
            &&& (forall|t: int| 0 <= t < 4 ==> #[trigger] is_iden_block_at(
                n.layers@,
                46 + 4 * t,
                d3,
                3,
                3,
            ))
            &&& (n.layers@[62] matches Layer::LL(ll) && (ll matches LinearLayer::AvgPool {
                dims,
                pool_h,
                pool_w,
                stride,
                ..
            } && dims.input_dims == d3 && dims.output_dims == d4 && pool_h == 2 && pool_w == 2
                && stride == 2))
            &&& (n.layers@[63] matches Layer::LL(ll) && (ll matches LinearLayer::FullyConnected {
                dims,
                ..
            } && dims.input_dims == d4 && dims.output_dims == (Dims { n: b, c: 10, h: 1, w: 1 })))
        },
{
    let ghost b = batch_size;
    let ghost gd0 = Dims { n: b, c: 3, h: 32, w: 32 };
    let ghost gd1 = Dims { n: b, c: 16, h: 32, w: 32 };
    let ghost gd2 = Dims { n: b, c: 32, h: 16, w: 16 };
    let ghost gd3 = Dims { n: b, c: 64, h: 8, w: 8 };
    let ghost gd4 = Dims { n: b, c: 64, h: 4, w: 4 };
    let mut network = NeuralNetwork { layers: Vec::new() };
    let input_dims = Dims { n: batch_size, c: 3, h: 32, w: 32 };
    let kernel_dims = Dims { n: 16, c: 3, h: 3, w: 3 };
    proof {
        lemma_preset_shapes(b);
    }
    let conv_1 = match sample_conv_layer(&input_dims, &kernel_dims, 1, Padding::Same, rng) {
        Ok(l) => l,
        Err(e) => {
            proof {
                assert(false);
            }
            return Err(e);
        },
    };
    push_linear(&mut network, conv_1);
    add_activation_layer(&mut network);
    proof {
        assert(network.layers@.len() == 2);
        assert(network.layers@[0] == Layer::LL(conv_1));
        assert(network.layers@[1] == relu_layer(gd1));
        assert(convs_followed_by_relu(Seq::<Layer>::empty()));
        lemma_convs_relu_push_pair(Seq::<Layer>::empty(), Layer::LL(conv_1));
        assert(network.layers@ =~= Seq::<Layer>::empty().push(Layer::LL(conv_1)).push(
            relu_layer(layer_output_dims(Layer::LL(conv_1))),
        ));
        // Stage one composes over fixed extents.
        lemma_stage_fixed(gd1, 4, 3, 3);
    }
    let ghost snap1 = network.layers@;
    match resnet_block(&mut network, 5, 16, 3, 3, 1, rng) {
        Ok(()) => {},
        Err(e) => {
            proof {
                assert(false);
            }
            return Err(e);
        },
    }
    proof {
        assert(network.layers@.len() == 22);
        assert(layer_output_dims(network.layers@.last()) == gd1);
        // Stage two composes and halves the spatial extents.
        lemma_stage_fixed(gd2, 4, 3, 3);
    }
    let ghost snap2 = network.layers@;
    match resnet_block(&mut network, 5, 32, 3, 3, 2, rng) {
        Ok(()) => {},
        Err(e) => {
            proof {
                assert(false);
            }
            return Err(e);
        },
    }
    proof {
        assert(network.layers@.len() == 42);
        assert(layer_output_dims(network.layers@.last()) == gd2);
        // Stage three composes and halves the spatial extents again.
        lemma_stage_fixed(gd3, 4, 3, 3);
    }
    let ghost snap3 = network.layers@;
    match resnet_block(&mut network, 5, 64, 3, 3, 2, rng) {
        Ok(()) => {},
        Err(e) => {
            proof {
                assert(false);
            }
            return Err(e);
        },
    }
    let last_idx = network.layers.len() - 1;
    let cur = network.layers[last_idx].output_dimensions();
    proof {
        assert(network.layers@.len() == 62);
        assert(cur == gd3);
    }
    let pool = match sample_avg_pool_layer(&cur, 2, 2, 2) {
        Ok(l) => l,
        Err(e) => {
            proof {
                assert(false);
            }
            return Err(e);
        },
    };
    let ghost snap4 = network.layers@;
    push_linear(&mut network, pool);
    proof {
        lemma_convs_relu_push_nonconv(snap4, Layer::LL(pool));
    }
    let last_idx = network.layers.len() - 1;
    let cur = network.layers[last_idx].output_dimensions();
    proof {
        assert(cur == gd4);
    }
    let fc = match sample_fc_layer(&cur, 10, rng) {
        Ok(l) => l,
        Err(e) => {
            proof {
                assert(false);
            }
            return Err(e);
        },
    };
    let ghost snap5 = network.layers@;
    push_linear(&mut network, fc);
    proof {
        lemma_convs_relu_push_nonconv(snap5, Layer::LL(fc));
        let ls = network.layers@;
        // Every earlier structural fact survives the later extensions:
        // each step preserved the prefix below its own length.
        assert(ls.subrange(0, 63) =~= snap5);
        assert(snap5.subrange(0, 62) =~= snap4);
        lemma_block_at_prefix_stable(snap5, ls, 0, 63);
        lemma_block_at_prefix_stable(snap4, snap5, 0, 62);
        assert forall|k: int| 0 <= k < 62 implies #[trigger] ls[k] == snap4[k] by {
            assert(ls[k] == snap5[k]);
        };
        assert forall|k: int| 0 <= k < 42 implies #[trigger] snap4[k] == snap3[k] by {
            assert(snap4.subrange(0, 42)[k] == snap4[k]);
        };
        assert forall|k: int| 0 <= k < 22 implies #[trigger] snap3[k] == snap2[k] by {
            assert(snap3.subrange(0, 22)[k] == snap3[k]);
        };
        assert forall|k: int| 0 <= k < 2 implies #[trigger] snap2[k] == snap1[k] by {
            assert(snap2.subrange(0, 2)[k] == snap2[k]);
        };
        // Head.
        assert(ls[0] == snap1[0]);
        assert(ls[1] == snap1[1]);
        // Stage one structure, recorded on snap2, lifted to the end.
        assert(is_conv_block_at(snap2, 2, gd1, 3, 3, 16, 1));
        assert forall|k: int| 2 <= k < 22 implies #[trigger] ls[k] == snap2[k] by {};
        assert(is_conv_block_at(ls, 2, gd1, 3, 3, 16, 1));
        assert forall|t: int| 0 <= t < 4 implies #[trigger] is_iden_block_at(
            ls,
            6 + 4 * t,
            gd1,
            3,
            3,
        ) by {
            assert(is_iden_block_at(snap2, 6 + 4 * t, resnet_stage_out(gd1, t, 3, 3), 3, 3));
            assert(resnet_stage_out(gd1, t, 3, 3) == gd1) by {
                lemma_stage_fixed(gd1, t, 3, 3);
            }
        };
        // Stage two structure.
        assert forall|k: int| 22 <= k < 42 implies #[trigger] ls[k] == snap3[k] by {};
        assert(is_conv_block_at(ls, 22, gd1, 3, 3, 32, 2));
        assert forall|t: int| 0 <= t < 4 implies #[trigger] is_iden_block_at(
            ls,
            26 + 4 * t,
            gd2,
            3,
            3,
        ) by {
            assert(is_iden_block_at(snap3, 26 + 4 * t, resnet_stage_out(gd2, t, 3, 3), 3, 3));
            assert(resnet_stage_out(gd2, t, 3, 3) == gd2) by {
                lemma_stage_fixed(gd2, t, 3, 3);
            }
        };
        // Stage three structure.
        assert forall|k: int| 42 <= k < 62 implies #[trigger] ls[k] == snap4[k] by {};
        assert(is_conv_block_at(ls, 42, gd2, 3, 3, 64, 2));
        assert forall|t: int| 0 <= t < 4 implies #[trigger] is_iden_block_at(
            ls,
            46 + 4 * t,
            gd3,
            3,
            3,
        ) by {
            assert(is_iden_block_at(snap4, 46 + 4 * t, resnet_stage_out(gd3, t, 3, 3), 3, 3));
            assert(resnet_stage_out(gd3, t, 3, 3) == gd3) by {
                lemma_stage_fixed(gd3, t, 3, 3);
            }
        };
        // Tail.
        assert(ls[62] == Layer::LL(pool));
        assert(ls[63] == Layer::LL(fc));
    }
    Ok(network)
}

} // verus!
