//! The layer model: shapes, parameters and canonical linear maps.
//!
//! A network is a closed list of layer variants.  Before any offline
//! dance, a linear layer's parameters (kernel, bias, stride, padding) are
//! canonicalised into one dense matrix-plus-bias representation over the
//! field; both parties derive the same map from the same description, and
//! every later contract speaks of that map alone.  The map is linear, and
//! the proof of that fact is what lets shares of a blinded input be
//! recombined after the homomorphic evaluation.

use crate::field::{
    f_add, f_mul, fe_add, fe_mul, fe_valid, lemma_f_red_identity, lemma_mod_add_congruent,
    lemma_mod_mul_congruent, FIELD_MODULUS,
};
use crate::fixed::FP_SCALE;
use vstd::prelude::*;

verus! {

/// Tensor extents, `(batch, channels, height, width)`.
#[derive(Clone, Copy, PartialEq, Eq, Structural, Debug)]
pub struct Dims {
    pub n: usize,
    pub c: usize,
    pub h: usize,
    pub w: usize,
}

/// How a convolution treats the border.
#[derive(Clone, Copy, PartialEq, Eq, Structural, Debug)]
pub enum Padding {
    Same,
    Valid,
}

/// A layer's declared input and output extents.
#[derive(Clone, Copy, PartialEq, Eq, Structural, Debug)]
pub struct LayerDims {
    pub input_dims: Dims,
    pub output_dims: Dims,
}

/// Number of scalars in a tensor of these extents.
pub open spec fn dims_len(d: Dims) -> int {
    d.n * d.c * d.h * d.w
}

/// Every extent at least one: degenerate shapes are rejected up front.
pub open spec fn dims_pos(d: Dims) -> bool {
    d.n >= 1 && d.c >= 1 && d.h >= 1 && d.w >= 1
}

impl Dims {
    pub fn new(n: usize, c: usize, h: usize, w: usize) -> (r: Dims)
        ensures
            r == (Dims { n, c, h, w }),
    {
        Dims { n, c, h, w }
    }

    pub fn same_as(&self, other: &Dims) -> (r: bool)
        ensures
            r == (*self == *other),
    {
        self.n == other.n && self.c == other.c && self.h == other.h && self.w == other.w
    }
}

/// A product of four extents stays within each partial product's bound.
proof fn lemma_dims_partial_bounds(d: Dims)
    requires
        dims_pos(d),
    ensures
        d.n * d.c <= dims_len(d),
        (d.n * d.c) * d.h <= dims_len(d),
        d.n * d.c >= 1,
        (d.n * d.c) * d.h >= 1,
        dims_len(d) >= 1,
{
    assert(d.n * d.c >= 1 && (d.n * d.c) * d.h >= 1 && d.n * d.c * d.h * d.w >= 1 && d.n * d.c
        <= d.n * d.c * d.h * d.w && (d.n * d.c) * d.h <= d.n * d.c * d.h * d.w)
        by (nonlinear_arith)
        requires
            d.n >= 1 && d.c >= 1 && d.h >= 1 && d.w >= 1,
    ;
}

/// Count the scalars of a tensor shape.
pub fn dims_product(d: &Dims) -> (r: usize)
    requires
        dims_pos(*d),
        dims_len(*d) <= usize::MAX,
    ensures
        r == dims_len(*d),
{
    proof {
        lemma_dims_partial_bounds(*d);
    }
    ((d.n * d.c) * d.h) * d.w
}

/// Flat row-major offset of coordinates inside extents.
pub open spec fn flat_index(d: Dims, n: int, c: int, h: int, w: int) -> int {
    ((n * d.c + c) * d.h + h) * d.w + w
}

/// A row-major offset of in-range coordinates is in range.
pub proof fn lemma_flat_index_bound(d: Dims, n: int, c: int, h: int, w: int)
    requires
        0 <= n < d.n,
        0 <= c < d.c,
        0 <= h < d.h,
        0 <= w < d.w,
    ensures
        0 <= flat_index(d, n, c, h, w) < dims_len(d),
{
    assert(0 <= ((n * d.c + c) * d.h + h) * d.w + w < d.n * d.c * d.h * d.w) by (nonlinear_arith)
        requires
            0 <= n < d.n && 0 <= c < d.c && 0 <= h < d.h && 0 <= w < d.w,
    ;
}

/// A four-dimensional tensor of field elements, stored flat in row-major
/// order.
#[derive(Clone, Debug)]
pub struct Kernel {
    pub dims: Dims,
    pub data: Vec<u64>,
}

pub open spec fn kernel_wf(k: Kernel) -> bool {
    &&& dims_pos(k.dims)
    &&& dims_len(k.dims) <= usize::MAX
    &&& k.data@.len() == dims_len(k.dims)
    &&& forall|i: int| 0 <= i < k.data@.len() ==> fe_valid(#[trigger] k.data@[i])
}

impl Kernel {
    /// An all-zero tensor of the given extents.
    pub fn zeros(dims: Dims) -> (r: Kernel)
        requires
            dims_pos(dims),
            dims_len(dims) <= usize::MAX,
        ensures
            kernel_wf(r),
            r.dims == dims,
            forall|i: int| 0 <= i < r.data@.len() ==> #[trigger] r.data@[i] == 0,
    {
        let len = dims_product(&dims);
        let mut data: Vec<u64> = Vec::new();
        let mut i: usize = 0;
        while i < len
            invariant
                i <= len,
                data@.len() == i,
                forall|j: int| 0 <= j < i ==> #[trigger] data@[j] == 0,
            decreases len - i,
        {
            data.push(0);
            i = i + 1;
        }
        Kernel { dims, data }
    }
}

/// One linear layer with its parameters.
#[derive(Clone, Debug)]
pub enum LinearLayer {
    Conv2d { dims: LayerDims, kernel: Kernel, bias: Vec<u64>, stride: usize, padding: Padding },
    FullyConnected { dims: LayerDims, weights: Kernel, bias: Vec<u64> },
    AvgPool { dims: LayerDims, pool_h: usize, pool_w: usize, stride: usize, coeff: u64 },
    Identity { dims: LayerDims },
}

/// One non-linear layer.
#[derive(Clone, Debug)]
pub enum NonLinearLayer {
    ReLU { dims: LayerDims },
}

/// A layer of the network: linear or non-linear.
#[derive(Clone, Debug)]
pub enum Layer {
    LL(LinearLayer),
    NLL(NonLinearLayer),
}

/// Output height or width of a convolution along one axis.
pub open spec fn spec_conv_out_extent(h: int, k: int, stride: int, padding: Padding) -> int {
    if padding is Same {
        (h + 2 * ((k - 1) / 2) - k) / stride + 1
    } else {
        (h - k) / stride + 1
    }
}

/// Padding applied before a convolution along one axis.
pub open spec fn spec_pad(k: int, padding: Padding) -> int {
    if padding is Same {
        (k - 1) / 2
    } else {
        0
    }
}

impl LinearLayer {
    pub open spec fn spec_dims(&self) -> LayerDims {
        match self {
            LinearLayer::Conv2d { dims, .. } => *dims,
            LinearLayer::FullyConnected { dims, .. } => *dims,
            LinearLayer::AvgPool { dims, .. } => *dims,
            LinearLayer::Identity { dims } => *dims,
        }
    }

    pub fn dims(&self) -> (r: LayerDims)
        ensures
            r == self.spec_dims(),
    {
        match self {
            LinearLayer::Conv2d { dims, .. } => *dims,
            LinearLayer::FullyConnected { dims, .. } => *dims,
            LinearLayer::AvgPool { dims, .. } => *dims,
            LinearLayer::Identity { dims } => *dims,
        }
    }

    pub fn input_dimensions(&self) -> (r: Dims)
        ensures
            r == self.spec_dims().input_dims,
    {
        self.dims().input_dims
    }

    pub fn output_dimensions(&self) -> (r: Dims)
        ensures
            r == self.spec_dims().output_dims,
    {
        self.dims().output_dims
    }
}

/// Well-formedness of a linear layer: parameters canonical, shapes
/// positive and composing, declared output extents equal to the
/// calculated ones.
pub open spec fn linear_layer_wf(l: LinearLayer) -> bool {
    match l {
        LinearLayer::Conv2d { dims, kernel, bias, stride, padding } => {
            let i = dims.input_dims;
            let o = dims.output_dims;
            &&& dims_pos(i) && dims_pos(o)
            &&& dims_len(i) <= usize::MAX && dims_len(o) <= usize::MAX
            &&& kernel_wf(kernel)
            &&& kernel.dims.c == i.c
            &&& stride >= 1
            &&& kernel.dims.h <= i.h
            &&& kernel.dims.w <= i.w
            &&& o.n == i.n
            &&& o.c == kernel.dims.n
            &&& o.h == spec_conv_out_extent(i.h as int, kernel.dims.h as int, stride as int, padding)
            &&& o.w == spec_conv_out_extent(i.w as int, kernel.dims.w as int, stride as int, padding)
            &&& bias@.len() == kernel.dims.n
            &&& forall|t: int| 0 <= t < bias@.len() ==> fe_valid(#[trigger] bias@[t])
        },
        LinearLayer::FullyConnected { dims, weights, bias } => {
            let i = dims.input_dims;
            let o = dims.output_dims;
            &&& dims_pos(i) && dims_pos(o)
            &&& dims_len(i) <= usize::MAX && dims_len(o) <= usize::MAX
            &&& kernel_wf(weights)
            &&& weights.dims.c == i.c && weights.dims.h == i.h && weights.dims.w == i.w
            &&& o.n == i.n && o.c == weights.dims.n && o.h == 1 && o.w == 1
            &&& bias@.len() == weights.dims.n
            &&& forall|t: int| 0 <= t < bias@.len() ==> fe_valid(#[trigger] bias@[t])
        },
        LinearLayer::AvgPool { dims, pool_h, pool_w, stride, coeff } => {
            let i = dims.input_dims;
            let o = dims.output_dims;
            &&& dims_pos(i) && dims_pos(o)
            &&& dims_len(i) <= usize::MAX && dims_len(o) <= usize::MAX
            &&& stride >= 1
            &&& 1 <= pool_h <= i.h && 1 <= pool_w <= i.w
            &&& fe_valid(coeff)
            &&& o.n == i.n && o.c == i.c
            &&& o.h == (i.h - pool_h) as int / stride as int + 1
            &&& o.w == (i.w - pool_w) as int / stride as int + 1
        },
        LinearLayer::Identity { dims } => {
            &&& dims_pos(dims.input_dims)
            &&& dims_len(dims.input_dims) <= usize::MAX
            &&& dims.output_dims == dims.input_dims
        },
    }
}

/// The canonical matrix entry of a linear layer, for flat output index
/// `j` and flat input index `k`.
pub open spec fn spec_coeff(l: LinearLayer, j: int, k: int) -> int {
    match l {
        LinearLayer::Conv2d { dims, kernel, stride, padding, .. } => {
            let iw_ext = dims.input_dims.w as int;
            let ih_ext = dims.input_dims.h as int;
            let ic_ext = dims.input_dims.c as int;
            let ow_ext = dims.output_dims.w as int;
            let oh_ext = dims.output_dims.h as int;
            let oc_ext = dims.output_dims.c as int;
            let ow = j % ow_ext;
            let oh = (j / ow_ext) % oh_ext;
            let co = (j / (ow_ext * oh_ext)) % oc_ext;
            let n = j / (ow_ext * oh_ext * oc_ext);
            let iw = k % iw_ext;
            let ih = (k / iw_ext) % ih_ext;
            let ci = (k / (iw_ext * ih_ext)) % ic_ext;
            let n2 = k / (iw_ext * ih_ext * ic_ext);
            let kh = ih + spec_pad(kernel.dims.h as int, padding) - oh * (stride as int);
            let kw = iw + spec_pad(kernel.dims.w as int, padding) - ow * (stride as int);
            if n2 == n && 0 <= kh < kernel.dims.h as int && 0 <= kw < kernel.dims.w as int {
                kernel.data@[flat_index(kernel.dims, co, ci, kh, kw)] as int
            } else {
                0
            }
        },
        LinearLayer::FullyConnected { dims, weights, .. } => {
            let i = dims.input_dims;
            let oc_ext = dims.output_dims.c as int;
            let per_batch = (i.c as int) * (i.h as int) * (i.w as int);
            let co = j % oc_ext;
            let n = j / oc_ext;
            let within = k % per_batch;
            let n2 = k / per_batch;
            if n2 == n {
                weights.data@[co * per_batch + within] as int
            } else {
                0
            }
        },
        LinearLayer::AvgPool { dims, pool_h, pool_w, stride, coeff } => {
            let iw_ext = dims.input_dims.w as int;
            let ih_ext = dims.input_dims.h as int;
            let ic_ext = dims.input_dims.c as int;
            let ow_ext = dims.output_dims.w as int;
            let oh_ext = dims.output_dims.h as int;
            let oc_ext = dims.output_dims.c as int;
            let ow = j % ow_ext;
            let oh = (j / ow_ext) % oh_ext;
            let co = (j / (ow_ext * oh_ext)) % oc_ext;
            let n = j / (ow_ext * oh_ext * oc_ext);
            let iw = k % iw_ext;
            let ih = (k / iw_ext) % ih_ext;
            let ci = (k / (iw_ext * ih_ext)) % ic_ext;
            let n2 = k / (iw_ext * ih_ext * ic_ext);
            if n2 == n && ci == co && oh * (stride as int) <= ih < oh * (stride as int) + pool_h
                && ow * (stride as int) <= iw < ow * (stride as int) + pool_w {
                coeff as int
            } else {
                0
            }
        },
        LinearLayer::Identity { .. } => if j == k {
            1
        } else {
            0
        },
    }
}

/// The canonical bias entry of a linear layer for flat output index `j`.
/// A convolution or fully-connected bias is stored at single scale and
/// canonicalised here to the product scale of the matrix output.
pub open spec fn spec_bias_at(l: LinearLayer, j: int) -> int {
    match l {
        LinearLayer::Conv2d { dims, bias, .. } => {
            let o = dims.output_dims;
            let co = (j / ((o.w as int) * (o.h as int))) % (o.c as int);
            f_mul(FP_SCALE as int, bias@[co] as int)
        },
        LinearLayer::FullyConnected { dims, bias, .. } => {
            let o = dims.output_dims;
            let co = j % (o.c as int);
            f_mul(FP_SCALE as int, bias@[co] as int)
        },
        LinearLayer::AvgPool { .. } => 0,
        LinearLayer::Identity { .. } => 0,
    }
}

/// The canonical dense representation of a linear layer: `out_len` rows
/// of `in_len` field elements plus a bias column.  This is the batching
/// layout the homomorphic dance works over.
#[derive(Clone, Debug)]
pub struct LinearMap {
    pub in_len: usize,
    pub out_len: usize,
    pub matrix: Vec<Vec<u64>>,
    pub bias: Vec<u64>,
}

pub open spec fn map_wf(m: LinearMap) -> bool {
    &&& m.matrix@.len() == m.out_len
    &&& m.bias@.len() == m.out_len
    &&& forall|j: int| 0 <= j < m.out_len ==> (#[trigger] m.matrix@[j])@.len() == m.in_len
    &&& forall|j: int, k: int|
        0 <= j < m.out_len && 0 <= k < m.in_len ==> fe_valid(#[trigger] m.matrix@[j]@[k])
    &&& forall|j: int| 0 <= j < m.out_len ==> fe_valid(#[trigger] m.bias@[j])
}

/// The map carries exactly the canonical entries of the layer.
pub open spec fn map_matches(m: LinearMap, l: LinearLayer) -> bool {
    &&& m.in_len == dims_len(l.spec_dims().input_dims)
    &&& m.out_len == dims_len(l.spec_dims().output_dims)
    &&& forall|j: int, k: int|
        0 <= j < m.out_len && 0 <= k < m.in_len ==> #[trigger] m.matrix@[j]@[k] == spec_coeff(
            l,
            j,
            k,
        )
    &&& forall|j: int| 0 <= j < m.out_len ==> #[trigger] m.bias@[j] == spec_bias_at(l, j)
}

/// The inner product of a matrix row with an input vector over the
/// field, over the first `t` entries.
pub open spec fn dot(row: Seq<u64>, x: Seq<u64>, t: int) -> int
    decreases t,
{
    if t <= 0 {
        0
    } else {
        f_add(dot(row, x, t - 1), f_mul(row[t - 1] as int, x[t - 1] as int))
    }
}

/// The dot prefix is always a canonical element.
pub proof fn lemma_dot_bounds(row: Seq<u64>, x: Seq<u64>, t: int)
    ensures
        0 <= dot(row, x, t) < FIELD_MODULUS,
    decreases t,
{
    if t <= 0 {
    } else {
        lemma_dot_bounds(row, x, t - 1);
        vstd::arithmetic::div_mod::lemma_mod_bound(
            dot(row, x, t - 1) + f_mul(row[t - 1] as int, x[t - 1] as int),
            FIELD_MODULUS as int,
        );
    }
}

/// What a linear layer sends through one output coordinate: the row dot
/// product plus the canonical bias.
pub open spec fn spec_apply_at(m: LinearMap, x: Seq<u64>, j: int) -> int {
    f_add(dot(m.matrix@[j]@, x, m.in_len as int), m.bias@[j] as int)
}

/// Full application of the canonical map to an input tensor.
pub open spec fn spec_apply(m: LinearMap, x: Seq<u64>) -> Seq<u64> {
    Seq::new(m.out_len as nat, |j: int| spec_apply_at(m, x, j) as u64)
}

/// The row dot product without the bias: the homomorphic dance applies
/// the matrix alone to the client's randomizer.
pub open spec fn spec_apply_nobias(m: LinearMap, x: Seq<u64>) -> Seq<u64> {
    Seq::new(m.out_len as nat, |j: int| dot(m.matrix@[j]@, x, m.in_len as int) as u64)
}

/// Evaluate the canonical map, bias included.
pub fn apply(m: &LinearMap, x: &Vec<u64>) -> (r: Vec<u64>)
    requires
        map_wf(*m),
        x@.len() == m.in_len,
        forall|i: int| 0 <= i < x@.len() ==> fe_valid(#[trigger] x@[i]),
    ensures
        r@ == spec_apply(*m, x@),
        r@.len() == m.out_len,
        forall|i: int| 0 <= i < r@.len() ==> fe_valid(#[trigger] r@[i]),
{
    let mut out: Vec<u64> = Vec::new();
    let mut j: usize = 0;
    while j < m.out_len
        invariant
            j <= m.out_len,
            map_wf(*m),
            x@.len() == m.in_len,
            forall|i: int| 0 <= i < x@.len() ==> fe_valid(#[trigger] x@[i]),
            out@.len() == j,
            forall|t: int| 0 <= t < j ==> #[trigger] out@[t] == spec_apply_at(*m, x@, t) as u64,
            forall|t: int| 0 <= t < j ==> fe_valid(#[trigger] out@[t]),
        decreases m.out_len - j,
    {
        let row = &m.matrix[j];
        let mut acc: u64 = 0;
        let mut k: usize = 0;
        while k < m.in_len
            invariant
                k <= m.in_len,
                map_wf(*m),
                j < m.out_len,
                x@.len() == m.in_len,
                forall|i: int| 0 <= i < x@.len() ==> fe_valid(#[trigger] x@[i]),
                row@ == m.matrix@[j as int]@,
                fe_valid(acc),
                acc == dot(row@, x@, k as int),
            decreases m.in_len - k,
        {
            let term = fe_mul(row[k], x[k]);
            acc = fe_add(acc, term);
            k = k + 1;
        }
        let y = fe_add(acc, m.bias[j]);
        proof {
            lemma_f_red_identity(acc as int);
            assert(y == spec_apply_at(*m, x@, j as int) as u64);
        }
        out.push(y);
        j = j + 1;
    }
    proof {
        assert(out@ =~= spec_apply(*m, x@));
    }
    out
}

/// Evaluate the canonical map without the bias.
pub fn apply_nobias(m: &LinearMap, x: &Vec<u64>) -> (r: Vec<u64>)
    requires
        map_wf(*m),
        x@.len() == m.in_len,
        forall|i: int| 0 <= i < x@.len() ==> fe_valid(#[trigger] x@[i]),
    ensures
        r@ == spec_apply_nobias(*m, x@),
        r@.len() == m.out_len,
        forall|i: int| 0 <= i < r@.len() ==> fe_valid(#[trigger] r@[i]),
{
    let mut out: Vec<u64> = Vec::new();
    let mut j: usize = 0;
    while j < m.out_len
        invariant
            j <= m.out_len,
            map_wf(*m),
            x@.len() == m.in_len,
            forall|i: int| 0 <= i < x@.len() ==> fe_valid(#[trigger] x@[i]),
            out@.len() == j,
            forall|t: int|
                0 <= t < j ==> #[trigger] out@[t] == dot(
                    m.matrix@[t]@,
                    x@,
                    m.in_len as int,
                ) as u64,
            forall|t: int| 0 <= t < j ==> fe_valid(#[trigger] out@[t]),
        decreases m.out_len - j,
    {
        let row = &m.matrix[j];
        let mut acc: u64 = 0;
        let mut k: usize = 0;
        while k < m.in_len
            invariant
                k <= m.in_len,
                map_wf(*m),
                j < m.out_len,
                x@.len() == m.in_len,
                forall|i: int| 0 <= i < x@.len() ==> fe_valid(#[trigger] x@[i]),
                row@ == m.matrix@[j as int]@,
                fe_valid(acc),
                acc == dot(row@, x@, k as int),
            decreases m.in_len - k,
        {
            let term = fe_mul(row[k], x[k]);
            acc = fe_add(acc, term);
            k = k + 1;
        }
        proof {
            lemma_dot_bounds(row@, x@, m.in_len as int);
        }
        out.push(acc);
        j = j + 1;
    }
    proof {
        assert(out@ =~= spec_apply_nobias(*m, x@));
    }
    out
}

/// Elementwise field sum of two vectors.
pub open spec fn spec_vec_add(x: Seq<u64>, y: Seq<u64>) -> Seq<u64> {
    Seq::new(x.len(), |i: int| f_add(x[i] as int, y[i] as int) as u64)
}

/// Elementwise field difference of two vectors.
pub open spec fn spec_vec_sub(x: Seq<u64>, y: Seq<u64>) -> Seq<u64> {
    Seq::new(x.len(), |i: int| crate::field::f_sub(x[i] as int, y[i] as int) as u64)
}

pub fn vec_add(x: &Vec<u64>, y: &Vec<u64>) -> (r: Vec<u64>)
    requires
        x@.len() == y@.len(),
        forall|i: int| 0 <= i < x@.len() ==> fe_valid(#[trigger] x@[i]),
        forall|i: int| 0 <= i < y@.len() ==> fe_valid(#[trigger] y@[i]),
    ensures
        r@ == spec_vec_add(x@, y@),
        r@.len() == x@.len(),
        forall|i: int| 0 <= i < r@.len() ==> fe_valid(#[trigger] r@[i]),
{
    let mut out: Vec<u64> = Vec::new();
    let mut i: usize = 0;
    while i < x.len()
        invariant
            i <= x@.len(),
            x@.len() == y@.len(),
            forall|t: int| 0 <= t < x@.len() ==> fe_valid(#[trigger] x@[t]),
            forall|t: int| 0 <= t < y@.len() ==> fe_valid(#[trigger] y@[t]),
            out@.len() == i,
            forall|t: int|
                0 <= t < i ==> #[trigger] out@[t] == f_add(x@[t] as int, y@[t] as int) as u64,
            forall|t: int| 0 <= t < i ==> fe_valid(#[trigger] out@[t]),
        decreases x@.len() - i,
    {
        out.push(fe_add(x[i], y[i]));
        i = i + 1;
    }
    proof {
        assert(out@ =~= spec_vec_add(x@, y@));
    }
    out
}

pub fn vec_sub(x: &Vec<u64>, y: &Vec<u64>) -> (r: Vec<u64>)
    requires
        x@.len() == y@.len(),
        forall|i: int| 0 <= i < x@.len() ==> fe_valid(#[trigger] x@[i]),
        forall|i: int| 0 <= i < y@.len() ==> fe_valid(#[trigger] y@[i]),
    ensures
        r@ == spec_vec_sub(x@, y@),
        r@.len() == x@.len(),
        forall|i: int| 0 <= i < r@.len() ==> fe_valid(#[trigger] r@[i]),
{
    let mut out: Vec<u64> = Vec::new();
    let mut i: usize = 0;
    while i < x.len()
        invariant
            i <= x@.len(),
            x@.len() == y@.len(),
            forall|t: int| 0 <= t < x@.len() ==> fe_valid(#[trigger] x@[t]),
            forall|t: int| 0 <= t < y@.len() ==> fe_valid(#[trigger] y@[t]),
            out@.len() == i,
            forall|t: int|
                0 <= t < i ==> #[trigger] out@[t] == crate::field::f_sub(
                    x@[t] as int,
                    y@[t] as int,
                ) as u64,
            forall|t: int| 0 <= t < i ==> fe_valid(#[trigger] out@[t]),
        decreases x@.len() - i,
    {
        out.push(crate::field::fe_sub(x[i], y[i]));
        i = i + 1;
    }
    proof {
        assert(out@ =~= spec_vec_sub(x@, y@));
    }
    out
}

/// Inner extent products of a well-formed shape stay within `usize`
/// range and are positive.
proof fn lemma_dims_inner_bounds(d: Dims)
    requires
        dims_pos(d),
        dims_len(d) <= usize::MAX,
    ensures
        1 <= (d.w as int) * (d.h as int) <= usize::MAX,
        1 <= (d.w as int) * (d.h as int) * (d.c as int) <= usize::MAX,
        1 <= (d.c as int) * (d.h as int) <= usize::MAX,
        1 <= (d.c as int) * (d.h as int) * (d.w as int) <= usize::MAX,
{
    assert(1 <= (d.w as int) * (d.h as int) && 1 <= (d.w as int) * (d.h as int) * (d.c as int) && 1
        <= (d.c as int) * (d.h as int) && (d.w as int) * (d.h as int) <= dims_len(d) && (
    d.w as int) * (d.h as int) * (d.c as int) <= dims_len(d) && (d.c as int) * (d.h as int)
        <= dims_len(d) && (d.c as int) * (d.h as int) * (d.w as int) == (d.w as int) * (
    d.h as int) * (d.c as int)) by (nonlinear_arith)
        requires
            d.n >= 1 && d.c >= 1 && d.h >= 1 && d.w >= 1 && dims_len(d) == (d.n as int) * (
            d.c as int) * (d.h as int) * (d.w as int),
    ;
}

/// Row-major partial offsets of in-range coordinates stay in range at
/// every step of the horner evaluation.
proof fn lemma_flat_partial_bounds(d: Dims, a: int, b: int, c: int, w: int)
    requires
        dims_len(d) <= usize::MAX,
        0 <= a < d.n,
        0 <= b < d.c,
        0 <= c < d.h,
        0 <= w < d.w,
    ensures
        0 <= a * d.c + b < d.n * d.c <= usize::MAX,
        0 <= (a * d.c + b) * d.h + c < d.n * d.c * d.h <= usize::MAX,
        0 <= ((a * d.c + b) * d.h + c) * d.w + w < dims_len(d) <= usize::MAX,
{
    assert(0 <= a * d.c + b < d.n * d.c && 0 <= (a * d.c + b) * d.h + c < d.n * d.c * d.h && 0 <= ((
    a * d.c + b) * d.h + c) * d.w + w < d.n * d.c * d.h * d.w && d.n * d.c <= d.n * d.c * d.h * d.w
        && d.n * d.c * d.h <= d.n * d.c * d.h * d.w) by (nonlinear_arith)
        requires
            0 <= a < d.n && 0 <= b < d.c && 0 <= c < d.h && 0 <= w < d.w,
    ;
}

/// The product of two values below `2^64` fits in a `u128` with room to
/// add another such value.
pub(crate) proof fn lemma_u128_mul_fits(a: int, b: int)
    requires
        0 <= a <= 0xFFFFFFFFFFFFFFFF,
        0 <= b <= 0xFFFFFFFFFFFFFFFF,
    ensures
        a * b <= 0xFFFFFFFFFFFFFFFE0000000000000001,
{
    assert(a * b <= 0xFFFFFFFFFFFFFFFE0000000000000001) by (nonlinear_arith)
        requires
            0 <= a <= 0xFFFFFFFFFFFFFFFF,
            0 <= b <= 0xFFFFFFFFFFFFFFFF,
    ;
}

/// The canonical matrix entry, computed.  Index arithmetic runs in
/// `u128` so that no intermediate product can overflow.
fn coeff_at(l: &LinearLayer, j: usize, k: usize) -> (r: u64)
    requires
        linear_layer_wf(*l),
        j < dims_len(l.spec_dims().output_dims),
        k < dims_len(l.spec_dims().input_dims),
    ensures
        fe_valid(r),
        r as int == spec_coeff(*l, j as int, k as int),
{
    match l {
        LinearLayer::Conv2d { dims, kernel, stride, padding, .. } => {
            proof {
                lemma_dims_inner_bounds(dims.input_dims);
                lemma_dims_inner_bounds(dims.output_dims);
            }
            let iw_ext = dims.input_dims.w as u128;
            let ih_ext = dims.input_dims.h as u128;
            let ic_ext = dims.input_dims.c as u128;
            let ow_ext = dims.output_dims.w as u128;
            let oh_ext = dims.output_dims.h as u128;
            let oc_ext = dims.output_dims.c as u128;
            let jj = j as u128;
            let kk = k as u128;
            let ow = jj % ow_ext;
            let oh = (jj / ow_ext) % oh_ext;
            let co = (jj / (ow_ext * oh_ext)) % oc_ext;
            let n = jj / (ow_ext * oh_ext * oc_ext);
            let iw = kk % iw_ext;
            let ih = (kk / iw_ext) % ih_ext;
            let ci = (kk / (iw_ext * ih_ext)) % ic_ext;
            let n2 = kk / (iw_ext * ih_ext * ic_ext);
            let pad_h: u128 = match padding {
                Padding::Same => ((kernel.dims.h - 1) / 2) as u128,
                Padding::Valid => 0,
            };
            let pad_w: u128 = match padding {
                Padding::Same => ((kernel.dims.w - 1) / 2) as u128,
                Padding::Valid => 0,
            };
            let s = *stride as u128;
            proof {
                vstd::arithmetic::div_mod::lemma_mod_bound(jj as int / ow_ext as int, oh_ext as int);
                vstd::arithmetic::div_mod::lemma_mod_bound(jj as int, ow_ext as int);
                lemma_u128_mul_fits(oh as int, s as int);
                lemma_u128_mul_fits(ow as int, s as int);
            }
            let oh_s = oh * s;
            let ow_s = ow * s;
            if n2 == n && ih + pad_h >= oh_s && ih + pad_h - oh_s < kernel.dims.h as u128 && iw
                + pad_w >= ow_s && iw + pad_w - ow_s < kernel.dims.w as u128 {
                let kh = ih + pad_h - oh_s;
                let kw = iw + pad_w - ow_s;
                proof {
                    vstd::arithmetic::div_mod::lemma_mod_bound(
                        jj as int / (ow_ext as int * oh_ext as int),
                        oc_ext as int,
                    );
                    vstd::arithmetic::div_mod::lemma_mod_bound(
                        kk as int / (iw_ext as int * ih_ext as int),
                        ic_ext as int,
                    );
                    lemma_flat_partial_bounds(
                        kernel.dims,
                        co as int,
                        ci as int,
                        kh as int,
                        kw as int,
                    );
                }
                let idx = ((((co as usize) * kernel.dims.c + (ci as usize)) * kernel.dims.h + (
                kh as usize)) * kernel.dims.w) + (kw as usize);
                kernel.data[idx]
            } else {
                0
            }
        },
        LinearLayer::FullyConnected { dims, weights, .. } => {
            proof {
                lemma_dims_inner_bounds(dims.input_dims);
            }
            let i = dims.input_dims;
            let oc_ext = dims.output_dims.c as u128;
            let per_batch = ((i.c as u128) * (i.h as u128)) * (i.w as u128);
            let jj = j as u128;
            let kk = k as u128;
            let co = jj % oc_ext;
            let n = jj / oc_ext;
            let within = kk % per_batch;
            let n2 = kk / per_batch;
            if n2 == n {
                proof {
                    vstd::arithmetic::div_mod::lemma_mod_bound(co as int, oc_ext as int);
                    vstd::arithmetic::div_mod::lemma_mod_bound(within as int, per_batch as int);
                    assert(co as int * (per_batch as int) + (within as int) < dims_len(
                        weights.dims,
                    )) by (nonlinear_arith)
                        requires
                            0 <= (co as int) < (weights.dims.n as int),
                            0 <= (within as int) < (per_batch as int),
                            (per_batch as int) == (weights.dims.c as int) * (
                            weights.dims.h as int) * (weights.dims.w as int),
                            dims_len(weights.dims) == (weights.dims.n as int) * (
                            weights.dims.c as int) * (weights.dims.h as int) * (
                            weights.dims.w as int),
                    ;
                }
                let idx = (co as usize) * ((i.c * i.h) * i.w) + (within as usize);
                weights.data[idx]
            } else {
                0
            }
        },
        LinearLayer::AvgPool { dims, pool_h, pool_w, stride, coeff } => {
            proof {
                lemma_dims_inner_bounds(dims.input_dims);
                lemma_dims_inner_bounds(dims.output_dims);
            }
            let iw_ext = dims.input_dims.w as u128;
            let ih_ext = dims.input_dims.h as u128;
            let ic_ext = dims.input_dims.c as u128;
            let ow_ext = dims.output_dims.w as u128;
            let oh_ext = dims.output_dims.h as u128;
            let oc_ext = dims.output_dims.c as u128;
            let jj = j as u128;
            let kk = k as u128;
            let ow = jj % ow_ext;
            let oh = (jj / ow_ext) % oh_ext;
            let co = (jj / (ow_ext * oh_ext)) % oc_ext;
            let n = jj / (ow_ext * oh_ext * oc_ext);
            let iw = kk % iw_ext;
            let ih = (kk / iw_ext) % ih_ext;
            let ci = (kk / (iw_ext * ih_ext)) % ic_ext;
            let n2 = kk / (iw_ext * ih_ext * ic_ext);
            let s = *stride as u128;
            proof {
                vstd::arithmetic::div_mod::lemma_mod_bound(jj as int / ow_ext as int, oh_ext as int);
                vstd::arithmetic::div_mod::lemma_mod_bound(jj as int, ow_ext as int);
                lemma_u128_mul_fits(oh as int, s as int);
                lemma_u128_mul_fits(ow as int, s as int);
            }
            let oh_s = oh * s;
            let ow_s = ow * s;
            if n2 == n && ci == co && oh_s <= ih && ih < oh_s + (*pool_h as u128) && ow_s <= iw
                && iw < ow_s + (*pool_w as u128) {
                *coeff
            } else {
                0
            }
        },
        LinearLayer::Identity { .. } => if j == k {
            1
        } else {
            0
        },
    }
}

/// The canonical bias entry, computed.
fn bias_at(l: &LinearLayer, j: usize) -> (r: u64)
    requires
        linear_layer_wf(*l),
        j < dims_len(l.spec_dims().output_dims),
    ensures
        fe_valid(r),
        r as int == spec_bias_at(*l, j as int),
{
    match l {
        LinearLayer::Conv2d { dims, bias, .. } => {
            proof {
                lemma_dims_inner_bounds(dims.output_dims);
            }
            let o = dims.output_dims;
            let quot = (j as u128) / ((o.w as u128) * (o.h as u128));
            proof {
                vstd::arithmetic::div_mod::lemma_mod_bound(quot as int, o.c as int);
            }
            let co = quot % (o.c as u128);
            fe_mul(FP_SCALE, bias[co as usize])
        },
        LinearLayer::FullyConnected { dims, bias, .. } => {
            let o = dims.output_dims;
            let co = j % o.c;
            proof {
                vstd::arithmetic::div_mod::lemma_mod_bound(j as int, o.c as int);
            }
            fe_mul(FP_SCALE, bias[co])
        },
        LinearLayer::AvgPool { .. } => 0,
        LinearLayer::Identity { .. } => 0,
    }
}

/// Canonicalise a linear layer into its dense field representation.
/// Both parties derive the same map from the same layer description
/// before the offline dance; every contract downstream speaks of the
/// map.
pub fn to_linear_map(l: &LinearLayer) -> (r: LinearMap)
    requires
        linear_layer_wf(*l),
    ensures
        map_wf(r),
        map_matches(r, *l),
{
    let in_d = self_input_dims(l);
    let out_d = self_output_dims(l);
    let in_len = dims_product(&in_d);
    let out_len = dims_product(&out_d);
    let mut matrix: Vec<Vec<u64>> = Vec::new();
    let mut bias: Vec<u64> = Vec::new();
    let mut j: usize = 0;
    while j < out_len
        invariant
            j <= out_len,
            linear_layer_wf(*l),
            in_len == dims_len(l.spec_dims().input_dims),
            out_len == dims_len(l.spec_dims().output_dims),
            matrix@.len() == j,
            bias@.len() == j,
            forall|t: int| 0 <= t < j ==> (#[trigger] matrix@[t])@.len() == in_len,
            forall|t: int, k: int|
                0 <= t < j && 0 <= k < in_len ==> fe_valid(#[trigger] matrix@[t]@[k]),
            forall|t: int, k: int|
                0 <= t < j && 0 <= k < in_len ==> #[trigger] matrix@[t]@[k] == spec_coeff(
                    *l,
                    t,
                    k,
                ),
            forall|t: int| 0 <= t < j ==> fe_valid(#[trigger] bias@[t]),
            forall|t: int| 0 <= t < j ==> #[trigger] bias@[t] == spec_bias_at(*l, t),
        decreases out_len - j,
    {
        let mut row: Vec<u64> = Vec::new();
        let mut k: usize = 0;
        while k < in_len
            invariant
                k <= in_len,
                j < out_len,
                linear_layer_wf(*l),
                in_len == dims_len(l.spec_dims().input_dims),
                out_len == dims_len(l.spec_dims().output_dims),
                row@.len() == k,
                forall|t: int| 0 <= t < k ==> fe_valid(#[trigger] row@[t]),
                forall|t: int| 0 <= t < k ==> #[trigger] row@[t] == spec_coeff(*l, j as int, t),
            decreases in_len - k,
        {
            row.push(coeff_at(l, j, k));
            k = k + 1;
        }
        matrix.push(row);
        bias.push(bias_at(l, j));
        j = j + 1;
    }
    LinearMap { in_len, out_len, matrix, bias }
}

fn self_input_dims(l: &LinearLayer) -> (r: Dims)
    ensures
        r == l.spec_dims().input_dims,
{
    l.dims().input_dims
}

fn self_output_dims(l: &LinearLayer) -> (r: Dims)
    ensures
        r == l.spec_dims().output_dims,
{
    l.dims().output_dims
}

/// Linearity of the dot product over a field sum of inputs: splitting
/// the input into two addends splits the dot product.
pub proof fn lemma_dot_linear(row: Seq<u64>, x: Seq<u64>, y: Seq<u64>, t: int)
    requires
        x.len() == y.len(),
        t <= x.len(),
        t <= row.len(),
        forall|i: int| 0 <= i < x.len() ==> fe_valid(#[trigger] x[i]),
        forall|i: int| 0 <= i < y.len() ==> fe_valid(#[trigger] y[i]),
    ensures
        dot(row, spec_vec_add(x, y), t) == f_add(dot(row, x, t), dot(row, y, t)),
    decreases t,
{
    let z = spec_vec_add(x, y);
    let m = FIELD_MODULUS as int;
    if t <= 0 {
        lemma_f_red_identity(0);
    } else {
        lemma_dot_linear(row, x, y, t - 1);
        let w = row[t - 1] as int;
        let a = x[t - 1] as int;
        let b = y[t - 1] as int;
        // The last term splits: w * ((a + b) mod p) == w*a + w*b (mod p).
        vstd::arithmetic::div_mod::lemma_mod_twice(a + b, m);
        lemma_mod_mul_congruent(w, w, z[t - 1] as int, a + b);
        assert(w * (a + b) == w * a + w * b) by (nonlinear_arith);
        lemma_mod_add_congruent(w * a, f_mul(w, a), w * b, f_mul(w, b));
        vstd::arithmetic::div_mod::lemma_mod_twice(w * a, m);
        vstd::arithmetic::div_mod::lemma_mod_twice(w * b, m);
        assert(f_mul(w, z[t - 1] as int) == f_add(f_mul(w, a), f_mul(w, b)));
        // Recombine the prefix sums.
        lemma_dot_bounds(row, x, t - 1);
        lemma_dot_bounds(row, y, t - 1);
        let dx = dot(row, x, t - 1);
        let dy = dot(row, y, t - 1);
        let fa = f_mul(w, a);
        let fb = f_mul(w, b);
        // dot(z,t) = (dx + dy) mod p + (fa + fb) mod p, all mod p
        //          = ((dx + fa) + (dy + fb)) mod p = f_add(dot(x,t), dot(y,t)).
        vstd::arithmetic::div_mod::lemma_mod_twice(dx + dy, m);
        vstd::arithmetic::div_mod::lemma_mod_twice(fa + fb, m);
        lemma_mod_add_congruent(f_add(dx, dy), dx + dy, f_mul(w, z[t - 1] as int), fa + fb);
        lemma_mod_add_congruent(dx + fa, f_add(dx, fa), dy + fb, f_add(dy, fb));
        assert(dot(row, z, t) == f_add(dot(row, x, t), dot(row, y, t)));
    }
}

/// Linearity at the level of a whole map application, bias placed on the
/// first addend only: `L(x + y) == L_bias(x) + L_nobias(y)`.  This is
/// the recombination identity of the offline correlation dance.
pub proof fn lemma_apply_split(m: LinearMap, x: Seq<u64>, y: Seq<u64>)
    requires
        map_wf(m),
        x.len() == m.in_len,
        y.len() == m.in_len,
        forall|i: int| 0 <= i < x.len() ==> fe_valid(#[trigger] x[i]),
        forall|i: int| 0 <= i < y.len() ==> fe_valid(#[trigger] y[i]),
    ensures
        spec_apply(m, spec_vec_add(x, y)) == spec_vec_add(spec_apply(m, x), spec_apply_nobias(m, y)),
{
    let lhs = spec_apply(m, spec_vec_add(x, y));
    let rhs = spec_vec_add(spec_apply(m, x), spec_apply_nobias(m, y));
    assert forall|j: int| 0 <= j < m.out_len implies lhs[j] == rhs[j] by {
        let row = m.matrix@[j]@;
        lemma_dot_linear(row, x, y, m.in_len as int);
        let dx = dot(row, x, m.in_len as int);
        let dy = dot(row, y, m.in_len as int);
        let b = m.bias@[j] as int;
        lemma_dot_bounds(row, x, m.in_len as int);
        lemma_dot_bounds(row, y, m.in_len as int);
        let msp = FIELD_MODULUS as int;
        // (f_add(dx,dy) + b) mod p == ((dx + b) mod p + dy) mod p.
        vstd::arithmetic::div_mod::lemma_mod_twice(dx + dy, msp);
        lemma_mod_add_congruent(f_add(dx, dy), dx + dy, b, b);
        vstd::arithmetic::div_mod::lemma_mod_twice(dx + b, msp);
        lemma_mod_add_congruent(dx + b, f_add(dx, b), dy, dy);
        assert(spec_apply_at(m, spec_vec_add(x, y), j) == f_add(
            f_add(dx, b),
            dy,
        ));
        lemma_f_red_identity(dy);
    };
    assert(lhs =~= rhs);
}

} // verus!
