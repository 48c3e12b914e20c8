//! The layer-by-layer protocol orchestrator.
//!
//! The offline phase walks the layer list and produces per-layer state:
//! an authenticated-correlation share for every convolution and
//! fully-connected layer, garbled circuits and output randomizers for
//! every ReLU, and nothing for the local pooling and identity layers.
//! The online phase keeps one additive share of the current activation
//! on each side, updates the pair layer by layer, and opens the final
//! output under a MAC check.  The end-to-end theorem is stated on
//! [`NNProtocol::online_protocol`]: with both parties honest, the
//! client's output is exactly the reference evaluation of the network
//! in fixed point.

use crate::error::{ErrorKind, SessionError};
use crate::field::{
    f_add, f_mul, f_sub, fe_add, fe_mul, fe_valid, lemma_f_add_sub_cancel, lemma_f_red_identity,
    lemma_mod_add_congruent, FIELD_MODULUS,
};
use crate::fixed::relu_trunc;
use crate::gc::{garble_relu_batch, gc_eval, spec_gc_eval, GarbledReLU};
use crate::layers::{
    apply, apply_nobias, dims_len, lemma_flat_index_bound, map_matches, map_wf,
    spec_apply_nobias, to_linear_map, vec_add, vec_sub, Layer, LinearLayer, LinearMap,
    NonLinearLayer,
};
use crate::linear_layer::{acg_layer, vec_all_fe, AcgClientShare, AcgServerShare};
use crate::network::{
    layer_input_dims, layer_output_dims, ldot, lemma_map_eval, nn_eval, nn_wf,
    seq_nn_eval, spec_layer_eval, spec_linear_eval, spec_relu_vec, NeuralNetwork,
};
use crate::rng::{sample_field_element, sample_field_vec};
use crate::share::{open_authenticated, AuthAdditiveShare};
use vstd::prelude::*;

verus! {

/// The client's per-layer offline state.
#[derive(Clone, Debug)]
pub enum ClientLayerState {
    /// Correlation share of an interactive linear layer.
    Linear(AcgClientShare),
    /// Garbled circuits received for a ReLU layer.
    Relu(Vec<GarbledReLU>),
    /// A pooling or identity layer: evaluated locally, no state.
    Local,
}

/// The server's per-layer offline state.
#[derive(Clone, Debug)]
pub enum ServerLayerState {
    /// Correlation share of an interactive linear layer.
    Linear(AcgServerShare),
    /// Output randomizers of the garbled circuits of a ReLU layer.
    Relu(Vec<u64>),
    /// A pooling or identity layer: evaluated locally, no state.
    Local,
}

/// The client's whole offline state.
pub struct ClientState {
    pub layers: Vec<ClientLayerState>,
}

/// The server's whole offline state: per-layer shares plus the session
/// MAC key.
pub struct ServerState {
    pub layers: Vec<ServerLayerState>,
    pub mac_key: u64,
}

/// Whether a linear layer runs the interactive correlation dance
/// (convolution, fully connected) or is applied locally by both sides
/// (pooling, identity).
pub open spec fn is_interactive(l: LinearLayer) -> bool {
    l is Conv2d || l is FullyConnected
}

/// The layer's matrix action without bias, at the layer level.
pub open spec fn spec_layer_nobias(l: LinearLayer, x: Seq<u64>) -> Seq<u64> {
    Seq::new(
        dims_len(l.spec_dims().output_dims) as nat,
        |j: int| ldot(l, x, j, dims_len(l.spec_dims().input_dims)) as u64,
    )
}

/// A canonical map's bias-free action agrees with the layer's.
pub proof fn lemma_map_eval_nobias(m: LinearMap, l: LinearLayer, x: Seq<u64>)
    requires
        map_wf(m),
        map_matches(m, l),
    ensures
        spec_apply_nobias(m, x) == spec_layer_nobias(l, x),
{
    assert forall|j: int| 0 <= j < m.out_len implies spec_apply_nobias(m, x)[j]
        == spec_layer_nobias(l, x)[j] by {
        crate::network::lemma_dot_vs_ldot(m, l, x, j, m.in_len as int);
    };
    assert(spec_apply_nobias(m, x) =~= spec_layer_nobias(l, x));
}

/// Consistency of one layer's two state halves with the layer itself
/// under the session key `alpha`.
pub open spec fn layer_states_consistent(
    l: Layer,
    c: ClientLayerState,
    s: ServerLayerState,
    alpha: int,
) -> bool {
    match l {
        Layer::LL(ll) => {
            if is_interactive(ll) {
                match (c, s) {
                    (ClientLayerState::Linear(a), ServerLayerState::Linear(b)) => {
                        let out_len = dims_len(ll.spec_dims().output_dims);
                        &&& a.randomizer@.len() == dims_len(ll.spec_dims().input_dims)
                        &&& a.out_val@.len() == out_len
                        &&& a.out_mac@.len() == out_len
                        &&& b.out_blind@.len() == out_len
                        &&& b.mac_blind@.len() == out_len
                        &&& vec_all_fe(a.randomizer@) && vec_all_fe(a.out_val@) && vec_all_fe(
                            a.out_mac@,
                        )
                        &&& vec_all_fe(b.out_blind@) && vec_all_fe(b.mac_blind@)
                        &&& forall|j: int|
                            0 <= j < out_len ==> #[trigger] a.out_val@[j] == f_sub(
                                spec_layer_nobias(ll, a.randomizer@)[j] as int,
                                b.out_blind@[j] as int,
                            )
                        &&& forall|j: int|
                            0 <= j < out_len ==> #[trigger] a.out_mac@[j] == f_sub(
                                f_mul(alpha, a.out_val@[j] as int),
                                b.mac_blind@[j] as int,
                            )
                    },
                    _ => false,
                }
            } else {
                c is Local && s is Local
            }
        },
        Layer::NLL(NonLinearLayer::ReLU { dims }) => {
            match (c, s) {
                (ClientLayerState::Relu(gcs), ServerLayerState::Relu(routs)) => {
                    let n = dims_len(dims.input_dims);
                    &&& gcs@.len() == n
                    &&& routs@.len() == n
                    &&& vec_all_fe(routs@)
                    &&& forall|j: int| 0 <= j < n ==> (#[trigger] gcs@[j]).r_out == routs@[j]
                },
                _ => false,
            }
        },
    }
}

/// Consistency of the whole offline state pair with a network.
pub open spec fn states_consistent(
    net: NeuralNetwork,
    cs: ClientState,
    ss: ServerState,
) -> bool {
    &&& cs.layers@.len() == net.layers@.len()
    &&& ss.layers@.len() == net.layers@.len()
    &&& fe_valid(ss.mac_key)
    &&& forall|i: int|
        0 <= i < net.layers@.len() ==> layer_states_consistent(
            #[trigger] net.layers@[i],
            cs.layers@[i],
            ss.layers@[i],
            ss.mac_key as int,
        )
}

/// Both halves of an additive sharing of a tensor.
pub open spec fn shares_of(c: Seq<u64>, s: Seq<u64>, v: Seq<u64>) -> bool {
    &&& c.len() == v.len()
    &&& s.len() == v.len()
    &&& forall|j: int| 0 <= j < v.len() ==> f_add(#[trigger] c[j] as int, s[j] as int) == v[j]
}

/// The two running shares after one layer, as a pure function of the
/// layer, its offline state halves, and the shares before it.
pub open spec fn spec_online_step(
    l: Layer,
    cst: ClientLayerState,
    sst: ServerLayerState,
    c: Seq<u64>,
    sv: Seq<u64>,
) -> (Seq<u64>, Seq<u64>) {
    match l {
        Layer::LL(ll) => {
            if is_interactive(ll) {
                match (cst, sst) {
                    (ClientLayerState::Linear(a), ServerLayerState::Linear(b)) => {
                        let w = crate::layers::spec_vec_sub(c, a.randomizer@);
                        let u = crate::layers::spec_vec_add(w, sv);
                        (
                            a.out_val@,
                            crate::layers::spec_vec_add(spec_linear_eval(ll, u), b.out_blind@),
                        )
                    },
                    _ => (c, sv),
                }
            } else {
                (spec_layer_nobias(ll, c), spec_linear_eval(ll, sv))
            }
        },
        Layer::NLL(NonLinearLayer::ReLU { .. }) => {
            match (cst, sst) {
                (ClientLayerState::Relu(gcs), ServerLayerState::Relu(routs)) => {
                    (
                        Seq::new(
                            c.len(),
                            |j: int| spec_gc_eval(gcs@[j], sv[j] as int, c[j] as int) as u64,
                        ),
                        routs@,
                    )
                },
                _ => (c, sv),
            }
        },
    }
}

/// The two running shares before layer `i`, as a pure function of the
/// input and the offline states.
pub open spec fn spec_online_shares(
    ls: Seq<Layer>,
    cs: ClientState,
    ss: ServerState,
    x: Seq<u64>,
    i: int,
) -> (Seq<u64>, Seq<u64>)
    decreases i,
{
    if i <= 0 {
        (x, Seq::new(x.len(), |j: int| 0u64))
    } else {
        let prev = spec_online_shares(ls, cs, ss, x, i - 1);
        spec_online_step(ls[i - 1], cs.layers@[i - 1], ss.layers@[i - 1], prev.0, prev.1)
    }
}

/// The messages layer `i` puts on the wire: the client's blinded share
/// for an interactive linear layer, the server's garbler-label
/// encoding of its share for a ReLU, nothing for a local layer.
pub open spec fn spec_layer_messages(
    l: Layer,
    cst: ClientLayerState,
    c: Seq<u64>,
    sv: Seq<u64>,
) -> Seq<Seq<u64>> {
    match l {
        Layer::LL(ll) => if is_interactive(ll) {
            match cst {
                ClientLayerState::Linear(a) => seq![crate::layers::spec_vec_sub(c, a.randomizer@)],
                _ => Seq::empty(),
            }
        } else {
            Seq::empty()
        },
        Layer::NLL(NonLinearLayer::ReLU { .. }) => seq![sv],
    }
}

/// The wire messages of the first `i` layers.
pub open spec fn spec_transcript_prefix(
    ls: Seq<Layer>,
    cs: ClientState,
    ss: ServerState,
    x: Seq<u64>,
    i: int,
) -> Seq<Seq<u64>>
    decreases i,
{
    if i <= 0 {
        Seq::empty()
    } else {
        let prev = spec_online_shares(ls, cs, ss, x, i - 1);
        spec_transcript_prefix(ls, cs, ss, x, i - 1) + spec_layer_messages(
            ls[i - 1],
            cs.layers@[i - 1],
            prev.0,
            prev.1,
        )
    }
}

/// Whether the network ends in an interactive linear layer, so that
/// the final open carries MAC material.
pub open spec fn ends_interactive(net: NeuralNetwork) -> bool {
    net.layers@.last() matches Layer::LL(ll) && is_interactive(ll)
}

/// The whole online transcript: the per-layer messages followed by the
/// final open — the server's value broadcast, and its MAC broadcast
/// when the last layer ran the correlation dance.
pub open spec fn spec_online_transcript(
    net: NeuralNetwork,
    cs: ClientState,
    ss: ServerState,
    x: Seq<u64>,
) -> Seq<Seq<u64>> {
    let n = net.layers@.len() as int;
    let fin = spec_online_shares(net.layers@, cs, ss, x, n);
    let prefix = spec_transcript_prefix(net.layers@, cs, ss, x, n);
    if ends_interactive(net) {
        match ss.layers@[n - 1] {
            ServerLayerState::Linear(b) => prefix + seq![
                fin.1,
                Seq::new(
                    fin.1.len(),
                    |j: int|
                        f_add(
                            f_mul(ss.mac_key as int, fin.1[j] as int),
                            b.mac_blind@[j] as int,
                        ) as u64,
                ),
            ],
            _ => prefix + seq![fin.1],
        }
    } else {
        prefix + seq![fin.1]
    }
}

/// Bounds of the layer-level dot prefix.
proof fn lemma_ldot_bounds(l: LinearLayer, x: Seq<u64>, j: int, t: int)
    ensures
        0 <= ldot(l, x, j, t) < FIELD_MODULUS,
    decreases t,
{
    if t <= 0 {
    } else {
        lemma_ldot_bounds(l, x, j, t - 1);
        vstd::arithmetic::div_mod::lemma_mod_bound(
            ldot(l, x, j, t - 1) + f_mul(crate::layers::spec_coeff(l, j, t - 1), x[t - 1] as int),
            FIELD_MODULUS as int,
        );
    }
}

/// Linearity of the layer-level dot over a field sum of inputs.
proof fn lemma_ldot_linear(l: LinearLayer, x: Seq<u64>, y: Seq<u64>, j: int, t: int)
    requires
        x.len() == y.len(),
        t <= x.len(),
        vec_all_fe(x),
        vec_all_fe(y),
    ensures
        ldot(l, crate::layers::spec_vec_add(x, y), j, t) == f_add(
            ldot(l, x, j, t),
            ldot(l, y, j, t),
        ),
    decreases t,
{
    let z = crate::layers::spec_vec_add(x, y);
    let m = FIELD_MODULUS as int;
    if t <= 0 {
        lemma_f_red_identity(0);
    } else {
        lemma_ldot_linear(l, x, y, j, t - 1);
        let w = crate::layers::spec_coeff(l, j, t - 1);
        let a = x[t - 1] as int;
        let b = y[t - 1] as int;
        vstd::arithmetic::div_mod::lemma_mod_twice(a + b, m);
        crate::field::lemma_mod_mul_congruent(w, w, z[t - 1] as int, a + b);
        assert(w * (a + b) == w * a + w * b) by (nonlinear_arith);
        lemma_mod_add_congruent(w * a, f_mul(w, a), w * b, f_mul(w, b));
        vstd::arithmetic::div_mod::lemma_mod_twice(w * a, m);
        vstd::arithmetic::div_mod::lemma_mod_twice(w * b, m);
        assert(f_mul(w, z[t - 1] as int) == f_add(f_mul(w, a), f_mul(w, b)));
        lemma_ldot_bounds(l, x, j, t - 1);
        lemma_ldot_bounds(l, y, j, t - 1);
        let dx = ldot(l, x, j, t - 1);
        let dy = ldot(l, y, j, t - 1);
        let fa = f_mul(w, a);
        let fb = f_mul(w, b);
        vstd::arithmetic::div_mod::lemma_mod_twice(dx + dy, m);
        vstd::arithmetic::div_mod::lemma_mod_twice(fa + fb, m);
        lemma_mod_add_congruent(f_add(dx, dy), dx + dy, f_mul(w, z[t - 1] as int), fa + fb);
        lemma_mod_add_congruent(dx + fa, f_add(dx, fa), dy + fb, f_add(dy, fb));
    }
}

/// Layer-level recombination: the reference output on a field sum of
/// inputs splits into the biased action on the first addend and the
/// bias-free action on the second.
proof fn lemma_layer_split(l: LinearLayer, x: Seq<u64>, y: Seq<u64>)
    requires
        x.len() == dims_len(l.spec_dims().input_dims),
        y.len() == x.len(),
        vec_all_fe(x),
        vec_all_fe(y),
    ensures
        spec_linear_eval(l, crate::layers::spec_vec_add(x, y)) == crate::layers::spec_vec_add(
            spec_linear_eval(l, x),
            spec_layer_nobias(l, y),
        ),
{
    let out_len = dims_len(l.spec_dims().output_dims);
    let in_len = dims_len(l.spec_dims().input_dims);
    let lhs = spec_linear_eval(l, crate::layers::spec_vec_add(x, y));
    let rhs = crate::layers::spec_vec_add(spec_linear_eval(l, x), spec_layer_nobias(l, y));
    assert forall|j: int| 0 <= j < out_len implies lhs[j] == rhs[j] by {
        lemma_ldot_linear(l, x, y, j, in_len);
        let dx = ldot(l, x, j, in_len);
        let dy = ldot(l, y, j, in_len);
        let b = crate::layers::spec_bias_at(l, j);
        lemma_ldot_bounds(l, x, j, in_len);
        lemma_ldot_bounds(l, y, j, in_len);
        let m = FIELD_MODULUS as int;
        vstd::arithmetic::div_mod::lemma_mod_twice(dx + dy, m);
        lemma_mod_add_congruent(f_add(dx, dy), dx + dy, b, b);
        vstd::arithmetic::div_mod::lemma_mod_twice(dx + b, m);
        lemma_mod_add_congruent(dx + b, f_add(dx, b), dy, dy);
        lemma_f_red_identity(dy);
    };
    assert(lhs =~= rhs);
}

/// After an interactive linear layer, the client's running share is
/// exactly its offline output share; this is what arms the final MAC
/// check.
pub open spec fn last_share_matches(l: Layer, c_state: ClientLayerState, c: Seq<u64>) -> bool {
    match (l, c_state) {
        (Layer::LL(ll), ClientLayerState::Linear(a)) => is_interactive(ll) ==> c == a.out_val@,
        _ => true,
    }
}

/// Client step of an interactive linear layer: blind the running share
/// with the layer randomizer into the one message this layer costs,
/// and take the offline output share as the new running share.
pub fn online_client_linear_step(c: &Vec<u64>, a: &AcgClientShare) -> (r: (Vec<u64>, Vec<u64>))
    requires
        c@.len() == a.randomizer@.len(),
        vec_all_fe(c@),
        vec_all_fe(a.randomizer@),
        vec_all_fe(a.out_val@),
    ensures
        r.0@ == crate::layers::spec_vec_sub(c@, a.randomizer@),
        r.1@ == a.out_val@,
        vec_all_fe(r.0@),
        vec_all_fe(r.1@),
{
    let w = vec_sub(c, &a.randomizer);
    let new_c = crate::network::clone_vec(&a.out_val);
    (w, new_c)
}

/// Server step of an interactive linear layer: reconstruct the blinded
/// activation from the client's message, evaluate the canonical map,
/// and add the offline output blind.
pub fn online_server_linear_step(
    ll: &LinearLayer,
    w: &Vec<u64>,
    sv: &Vec<u64>,
    b: &AcgServerShare,
) -> (new_sv: Vec<u64>)
    requires
        crate::layers::linear_layer_wf(*ll),
        w@.len() == dims_len(ll.spec_dims().input_dims),
        sv@.len() == w@.len(),
        b.out_blind@.len() == dims_len(ll.spec_dims().output_dims),
        vec_all_fe(w@),
        vec_all_fe(sv@),
        vec_all_fe(b.out_blind@),
    ensures
        new_sv@ == crate::layers::spec_vec_add(
            spec_linear_eval(*ll, crate::layers::spec_vec_add(w@, sv@)),
            b.out_blind@,
        ),
        new_sv@.len() == dims_len(ll.spec_dims().output_dims),
        vec_all_fe(new_sv@),
{
    let m = to_linear_map(ll);
    let u = vec_add(w, sv);
    let lu = apply(&m, &u);
    proof {
        lemma_map_eval(m, *ll, u@);
    }
    vec_add(&lu, &b.out_blind)
}

/// Client step of a pooling or identity layer: apply the public map to
/// the own half locally, without bias.
pub fn online_client_local_step(ll: &LinearLayer, c: &Vec<u64>) -> (new_c: Vec<u64>)
    requires
        crate::layers::linear_layer_wf(*ll),
        c@.len() == dims_len(ll.spec_dims().input_dims),
        vec_all_fe(c@),
    ensures
        new_c@ == spec_layer_nobias(*ll, c@),
        new_c@.len() == dims_len(ll.spec_dims().output_dims),
        vec_all_fe(new_c@),
{
    let m = to_linear_map(ll);
    let r = apply_nobias(&m, c);
    proof {
        lemma_map_eval_nobias(m, *ll, c@);
    }
    r
}

/// Server step of a pooling or identity layer: apply the public map,
/// bias included, to the own half locally.
pub fn online_server_local_step(ll: &LinearLayer, sv: &Vec<u64>) -> (new_sv: Vec<u64>)
    requires
        crate::layers::linear_layer_wf(*ll),
        sv@.len() == dims_len(ll.spec_dims().input_dims),
        vec_all_fe(sv@),
    ensures
        new_sv@ == spec_linear_eval(*ll, sv@),
        new_sv@.len() == dims_len(ll.spec_dims().output_dims),
        vec_all_fe(new_sv@),
{
    let m = to_linear_map(ll);
    let r = apply(&m, sv);
    proof {
        lemma_map_eval(m, *ll, sv@);
    }
    r
}

/// Server step of a ReLU layer: ship the garbler-input labels encoding
/// the running share, and take the saved output randomizers as the new
/// running share.
pub fn online_server_relu_step(sv: &Vec<u64>, routs: &Vec<u64>) -> (r: (Vec<u64>, Vec<u64>))
    ensures
        r.0@ == sv@,
        r.1@ == routs@,
{
    (crate::network::clone_vec(sv), crate::network::clone_vec(routs))
}

/// Client step of a ReLU layer: evaluate each garbled circuit on the
/// shipped garbler labels and the own share.
pub fn online_client_relu_step(
    gcs: &Vec<GarbledReLU>,
    labels_msg: &Vec<u64>,
    c: &Vec<u64>,
) -> (new_c: Vec<u64>)
    requires
        gcs@.len() == c@.len(),
        labels_msg@.len() == c@.len(),
        vec_all_fe(labels_msg@),
        vec_all_fe(c@),
        forall|t: int| 0 <= t < gcs@.len() ==> fe_valid((#[trigger] gcs@[t]).r_out),
    ensures
        new_c@.len() == c@.len(),
        forall|t: int|
            0 <= t < c@.len() ==> #[trigger] new_c@[t] as int == spec_gc_eval(
                gcs@[t],
                labels_msg@[t] as int,
                c@[t] as int,
            ),
        vec_all_fe(new_c@),
{
    let mut new_c: Vec<u64> = Vec::new();
    let mut j: usize = 0;
    while j < c.len()
        invariant
            j <= c@.len(),
            c@.len() == gcs@.len(),
            c@.len() == labels_msg@.len(),
            vec_all_fe(c@),
            vec_all_fe(labels_msg@),
            forall|t: int| 0 <= t < gcs@.len() ==> fe_valid((#[trigger] gcs@[t]).r_out),
            new_c@.len() == j,
            forall|t: int|
                0 <= t < j ==> #[trigger] new_c@[t] as int == spec_gc_eval(
                    gcs@[t],
                    labels_msg@[t] as int,
                    c@[t] as int,
                ),
            forall|t: int| 0 <= t < j ==> fe_valid(#[trigger] new_c@[t]),
        decreases c@.len() - j,
    {
        new_c.push(gc_eval(&gcs[j], labels_msg[j], c[j]));
        j = j + 1;
    }
    new_c
}

/// Server side of the final open: compute the MAC broadcast from the
/// key, the running share and the saved mask.
pub fn online_server_final_mac(sv: &Vec<u64>, b: &AcgServerShare, alpha: u64) -> (smac: Vec<u64>)
    requires
        sv@.len() == b.mac_blind@.len(),
        vec_all_fe(sv@),
        vec_all_fe(b.mac_blind@),
        fe_valid(alpha),
    ensures
        smac@.len() == sv@.len(),
        forall|t: int|
            0 <= t < smac@.len() ==> #[trigger] smac@[t] as int == f_add(
                f_mul(alpha as int, sv@[t] as int),
                b.mac_blind@[t] as int,
            ),
        vec_all_fe(smac@),
{
    let mut smac: Vec<u64> = Vec::new();
    let mut j: usize = 0;
    while j < sv.len()
        invariant
            j <= sv@.len(),
            sv@.len() == b.mac_blind@.len(),
            vec_all_fe(sv@),
            vec_all_fe(b.mac_blind@),
            fe_valid(alpha),
            smac@.len() == j,
            forall|t: int|
                0 <= t < j ==> #[trigger] smac@[t] as int == f_add(
                    f_mul(alpha as int, sv@[t] as int),
                    b.mac_blind@[t] as int,
                ),
            forall|t: int| 0 <= t < j ==> fe_valid(#[trigger] smac@[t]),
        decreases sv@.len() - j,
    {
        smac.push(fe_add(fe_mul(alpha, sv[j]), b.mac_blind[j]));
        j = j + 1;
    }
    smac
}

pub struct NNProtocol;

impl NNProtocol {
    /// The offline phase, both honest parties composed: walks the
    /// layer list in index order, running the correlation dance for
    /// every interactive linear layer and garbling one truncated-ReLU
    /// circuit per activation of every non-linear layer.  Each party's
    /// randomness is drawn from its own seeded stream.
    pub fn offline_protocol(
        net: &NeuralNetwork,
        client_rng: &mut rand_chacha::ChaCha20Rng,
        server_rng: &mut rand_chacha::ChaCha20Rng,
    ) -> (r: (ClientState, ServerState))
        requires
            nn_wf(*net),
        ensures
            states_consistent(*net, r.0, r.1),
    {
        let mac_key = sample_field_element(server_rng);
        let mut client_layers: Vec<ClientLayerState> = Vec::new();
        let mut server_layers: Vec<ServerLayerState> = Vec::new();
        let mut i: usize = 0;
        while i < net.layers.len()
            invariant
                i <= net.layers@.len(),
                nn_wf(*net),
                fe_valid(mac_key),
                client_layers@.len() == i,
                server_layers@.len() == i,
                forall|t: int|
                    0 <= t < i ==> layer_states_consistent(
                        #[trigger] net.layers@[t],
                        client_layers@[t],
                        server_layers@[t],
                        mac_key as int,
                    ),
            decreases net.layers@.len() - i,
        {
            let layer = &net.layers[i];
            match layer {
                Layer::LL(ll) => {
                    match ll {
                        LinearLayer::Conv2d { .. } | LinearLayer::FullyConnected { .. } => {
                            let m = to_linear_map(ll);
                            let r = sample_field_vec(client_rng, m.in_len);
                            let s = sample_field_vec(server_rng, m.out_len);
                            let t = sample_field_vec(server_rng, m.out_len);
                            let (a, b) = acg_layer(&m, r, s, t, mac_key);
                            proof {
                                lemma_map_eval_nobias(m, *ll, a.randomizer@);
                            }
                            client_layers.push(ClientLayerState::Linear(a));
                            server_layers.push(ServerLayerState::Linear(b));
                        },
                        _ => {
                            client_layers.push(ClientLayerState::Local);
                            server_layers.push(ServerLayerState::Local);
                        },
                    }
                },
                Layer::NLL(NonLinearLayer::ReLU { dims }) => {
                    let d = dims.input_dims;
                    proof {
                        lemma_flat_index_bound(d, 0, 0, 0, 0);
                    }
                    let n = crate::layers::dims_product(&d);
                    let routs = sample_field_vec(server_rng, n);
                    let gcs = garble_relu_batch(&routs, n);
                    client_layers.push(ClientLayerState::Relu(gcs));
                    server_layers.push(ServerLayerState::Relu(routs));
                },
            }
            i = i + 1;
        }
        (ClientState { layers: client_layers }, ServerState { layers: server_layers, mac_key })
    }

    /// The online phase, both honest parties composed.  The client
    /// blinds its input with the first randomizer; each side then
    /// holds one additive share of the current activation and the pair
    /// walks the layers: an interactive linear layer costs one client
    /// message and one server evaluation of the canonical map, a
    /// pooling or identity layer is applied locally by both, a ReLU is
    /// evaluated under the garbled circuits.  The final output is
    /// opened under the MAC check.  With both parties honest the
    /// result is exactly the reference evaluation of the network.
    pub fn online_protocol(
        net: &NeuralNetwork,
        x: &Vec<u64>,
        cs: &ClientState,
        ss: &ServerState,
    ) -> (r: Result<(Vec<u64>, Vec<Vec<u64>>), SessionError>)
        requires
            nn_wf(*net),
            states_consistent(*net, *cs, *ss),
            x@.len() == dims_len(layer_input_dims(net.layers@[0])),
            vec_all_fe(x@),
        ensures
            r is Ok,
            r matches Ok(v) ==> v.0@ == nn_eval(*net, x@),
            r matches Ok(v) ==> v.1@.map_values(|mv: Vec<u64>| mv@) == spec_online_transcript(
                *net,
                *cs,
                *ss,
                x@,
            ),
    {
        let mut c: Vec<u64> = crate::network::clone_vec(x);
        let mut sv: Vec<u64> = zero_vec(x.len());
        let mut transcript: Vec<Vec<u64>> = Vec::new();
        proof {
            assert(net.layers@.take(0int) =~= Seq::<Layer>::empty());
            assert forall|j: int| 0 <= j < x@.len() implies f_add(c@[j] as int, sv@[j] as int)
                == x@[j] by {
                lemma_f_red_identity(x@[j] as int);
            };
            assert(sv@ =~= Seq::new(x@.len(), |j: int| 0u64));
            assert(transcript@.map_values(|mv: Vec<u64>| mv@) =~= Seq::<Seq<u64>>::empty());
        }
        let mut i: usize = 0;
        while i < net.layers.len()
            invariant
                i <= net.layers@.len(),
                nn_wf(*net),
                states_consistent(*net, *cs, *ss),
                vec_all_fe(c@),
                vec_all_fe(sv@),
                shares_of(c@, sv@, seq_nn_eval(net.layers@.take(i as int), x@)),
                i < net.layers@.len() ==> c@.len() == dims_len(
                    layer_input_dims(net.layers@[i as int]),
                ),
                i > 0 ==> last_share_matches(
                    net.layers@[i as int - 1],
                    cs.layers@[i as int - 1],
                    c@,
                ),
                c@ == spec_online_shares(net.layers@, *cs, *ss, x@, i as int).0,
                sv@ == spec_online_shares(net.layers@, *cs, *ss, x@, i as int).1,
                transcript@.map_values(|mv: Vec<u64>| mv@) == spec_transcript_prefix(
                    net.layers@,
                    *cs,
                    *ss,
                    x@,
                    i as int,
                ),
            decreases net.layers@.len() - i,
        {
            let ghost cur = seq_nn_eval(net.layers@.take(i as int), x@);
            let ghost prefix = spec_transcript_prefix(net.layers@, *cs, *ss, x@, i as int);
            let layer = &net.layers[i];
            proof {
                assert forall|j: int| 0 <= j < cur.len() implies fe_valid(#[trigger] cur[j]) by {
                    assert(f_add(c@[j] as int, sv@[j] as int) == cur[j]);
                    vstd::arithmetic::div_mod::lemma_mod_bound(
                        c@[j] + sv@[j],
                        FIELD_MODULUS as int,
                    );
                };
            }
            match layer {
                Layer::LL(ll) => {
                    match ll {
                        LinearLayer::Conv2d { .. } | LinearLayer::FullyConnected { .. } => {
                            let (a, b) = match (&cs.layers[i], &ss.layers[i]) {
                                (ClientLayerState::Linear(a), ServerLayerState::Linear(b)) => (
                                    a,
                                    b,
                                ),
                                _ => {
                                    proof {
                                        assert(false);
                                    }
                                    return Err(SessionError::new(ErrorKind::Protocol, i));
                                },
                            };
                            // Client turn: one blinded message.
                            let (w, new_c) = online_client_linear_step(&c, a);
                            // Server turn: evaluate the canonical map.
                            let new_sv = online_server_linear_step(ll, &w, &sv, b);
                            proof {
                                lemma_linear_step(
                                    *ll,
                                    cur,
                                    c@,
                                    sv@,
                                    a.randomizer@,
                                    b.out_blind@,
                                    a.out_val@,
                                    crate::layers::spec_vec_add(w@, sv@),
                                    new_sv@,
                                );
                                lemma_online_step(net.layers@, x@, i as int, cur, new_c@, new_sv@);
                                // The spec step takes the same values.
                                let step = spec_online_step(
                                    net.layers@[i as int],
                                    cs.layers@[i as int],
                                    ss.layers@[i as int],
                                    c@,
                                    sv@,
                                );
                                assert(new_c@ == step.0 && new_sv@ == step.1);
                                // And this layer's one message is the blinded share.
                                assert(spec_layer_messages(
                                    net.layers@[i as int],
                                    cs.layers@[i as int],
                                    c@,
                                    sv@,
                                ) == seq![w@]);
                            }
                            transcript.push(w);
                            proof {
                                assert(transcript@.map_values(|mv: Vec<u64>| mv@) =~= prefix
                                    + seq![transcript@.last()@]);
                            }
                            c = new_c;
                            sv = new_sv;
                        },
                        _ => {
                            // Pooling or identity: both parties apply
                            // the public map to their halves locally;
                            // no message.
                            let new_c = online_client_local_step(ll, &c);
                            let new_sv = online_server_local_step(ll, &sv);
                            proof {
                                lemma_local_step(*ll, cur, c@, sv@);
                                lemma_online_step(net.layers@, x@, i as int, cur, new_c@, new_sv@);
                                let step = spec_online_step(
                                    net.layers@[i as int],
                                    cs.layers@[i as int],
                                    ss.layers@[i as int],
                                    c@,
                                    sv@,
                                );
                                assert(new_c@ == step.0 && new_sv@ == step.1);
                                assert(spec_layer_messages(
                                    net.layers@[i as int],
                                    cs.layers@[i as int],
                                    c@,
                                    sv@,
                                ) =~= Seq::<Seq<u64>>::empty());
                                assert(transcript@.map_values(|mv: Vec<u64>| mv@) =~= prefix
                                    + Seq::<Seq<u64>>::empty());
                            }
                            c = new_c;
                            sv = new_sv;
                        },
                    }
                },
                Layer::NLL(NonLinearLayer::ReLU { .. }) => {
                    let (gcs, routs) = match (&cs.layers[i], &ss.layers[i]) {
                        (ClientLayerState::Relu(gcs), ServerLayerState::Relu(routs)) => (
                            gcs,
                            routs,
                        ),
                        _ => {
                            proof {
                                assert(false);
                            }
                            return Err(SessionError::new(ErrorKind::Protocol, i));
                        },
                    };
                    // Server turn: ship the garbler labels of its
                    // share; client turn: evaluate the circuits.
                    let (labels_msg, new_sv) = online_server_relu_step(&sv, routs);
                    let new_c = online_client_relu_step(gcs, &labels_msg, &c);
                    proof {
                        lemma_relu_step(cur, c@, sv@, gcs@, routs@, new_c@);
                        lemma_online_step(net.layers@, x@, i as int, cur, new_c@, new_sv@);
                        let step = spec_online_step(
                            net.layers@[i as int],
                            cs.layers@[i as int],
                            ss.layers@[i as int],
                            c@,
                            sv@,
                        );
                        assert(new_c@ =~= step.0);
                        assert(new_sv@ == step.1);
                        assert(spec_layer_messages(
                            net.layers@[i as int],
                            cs.layers@[i as int],
                            c@,
                            sv@,
                        ) == seq![sv@]);
                    }
                    transcript.push(labels_msg);
                    proof {
                        assert(transcript@.map_values(|mv: Vec<u64>| mv@) =~= prefix
                            + seq![transcript@.last()@]);
                    }
                    c = new_c;
                    sv = new_sv;
                },
            }
            i = i + 1;
        }
        proof {
            assert(net.layers@.take(net.layers@.len() as int) =~= net.layers@);
        }
        let ghost fin = seq_nn_eval(net.layers@, x@);
        let ghost prefix = spec_transcript_prefix(
            net.layers@,
            *cs,
            *ss,
            x@,
            net.layers@.len() as int,
        );
        // Final open: the server broadcasts its value share; when the
        // last layer ran the correlation dance, its MAC material
        // authenticates the broadcast and the client verifies it.
        let last = net.layers.len() - 1;
        let interactive_last = match &net.layers[last] {
            Layer::LL(LinearLayer::Conv2d { .. }) => true,
            Layer::LL(LinearLayer::FullyConnected { .. }) => true,
            _ => false,
        };
        proof {
            assert(interactive_last == ends_interactive(*net));
        }
        if interactive_last {
            let (a, b) = match (&cs.layers[last], &ss.layers[last]) {
                (ClientLayerState::Linear(a), ServerLayerState::Linear(b)) => (a, b),
                _ => {
                    proof {
                        assert(false);
                    }
                    return Err(SessionError::new(ErrorKind::Protocol, last));
                },
            };
            proof {
                assert(layer_states_consistent(
                    net.layers@[last as int],
                    cs.layers@[last as int],
                    ss.layers@[last as int],
                    ss.mac_key as int,
                ));
                assert(c@ == a.out_val@);
                assert(shares_of(c@, sv@, fin));
            }
            let smac = online_server_final_mac(&sv, b, ss.mac_key);
            proof {
                lemma_final_open_honest(
                    c@,
                    a.out_mac@,
                    sv@,
                    smac@,
                    b.mac_blind@,
                    ss.mac_key as int,
                );
            }
            transcript.push(crate::network::clone_vec(&sv));
            transcript.push(crate::network::clone_vec(&smac));
            proof {
                let expected = spec_online_transcript(*net, *cs, *ss, x@);
                assert(smac@ =~= Seq::new(
                    sv@.len(),
                    |j: int|
                        f_add(
                            f_mul(ss.mac_key as int, sv@[j] as int),
                            b.mac_blind@[j] as int,
                        ) as u64,
                ));
                assert(transcript@.map_values(|mv: Vec<u64>| mv@) =~= prefix + seq![sv@, smac@]);
                assert(transcript@.map_values(|mv: Vec<u64>| mv@) == expected);
            }
            match online_final_open(&c, &a.out_mac, &sv, &smac, ss.mac_key, last) {
                Ok(y) => {
                    proof {
                        assert forall|j2: int| 0 <= j2 < y@.len() implies y@[j2] == fin[j2] by {
                            assert(f_add(c@[j2] as int, sv@[j2] as int) == fin[j2]);
                        };
                        assert(y@ =~= fin);
                    }
                    Ok((y, transcript))
                },
                Err(e) => {
                    proof {
                        assert(false);
                    }
                    Err(e)
                },
            }
        } else {
            let y = vec_add(&c, &sv);
            transcript.push(crate::network::clone_vec(&sv));
            proof {
                assert forall|j: int| 0 <= j < y@.len() implies y@[j] == fin[j] by {
                    assert(f_add(c@[j] as int, sv@[j] as int) == fin[j]);
                };
                assert(y@ =~= fin);
                assert(transcript@.map_values(|mv: Vec<u64>| mv@) =~= prefix + seq![sv@]);
            }
            Ok((y, transcript))
        }
    }
}

/// Allocate an all-zero share vector.
pub fn zero_vec(n: usize) -> (r: Vec<u64>)
    ensures
        r@.len() == n,
        forall|i: int| 0 <= i < n ==> #[trigger] r@[i] == 0,
{
    let mut out: Vec<u64> = Vec::new();
    let mut i: usize = 0;
    while i < n
        invariant
            i <= n,
            out@.len() == i,
            forall|t: int| 0 <= t < i ==> #[trigger] out@[t] == 0,
        decreases n - i,
    {
        out.push(0);
        i = i + 1;
    }
    out
}

/// One interactive linear step preserves the sharing: the client's new
/// half is its offline output share, the server's is the layer's
/// reference action on the reconstructed blinded activation plus its
/// offline blind, and together they share the layer's reference
/// output.
proof fn lemma_linear_step(
    ll: LinearLayer,
    cur: Seq<u64>,
    c: Seq<u64>,
    sv: Seq<u64>,
    r: Seq<u64>,
    s: Seq<u64>,
    out_val: Seq<u64>,
    u: Seq<u64>,
    new_sv: Seq<u64>,
)
    requires
        cur.len() == dims_len(ll.spec_dims().input_dims),
        shares_of(c, sv, cur),
        vec_all_fe(c) && vec_all_fe(sv) && vec_all_fe(r) && vec_all_fe(s) && vec_all_fe(cur),
        r.len() == cur.len(),
        s.len() == dims_len(ll.spec_dims().output_dims),
        out_val.len() == s.len(),
        forall|j: int|
            0 <= j < out_val.len() ==> #[trigger] out_val[j] == f_sub(
                spec_layer_nobias(ll, r)[j] as int,
                s[j] as int,
            ),
        u == crate::layers::spec_vec_add(crate::layers::spec_vec_sub(c, r), sv),
        new_sv == crate::layers::spec_vec_add(spec_linear_eval(ll, u), s),
    ensures
        shares_of(out_val, new_sv, spec_linear_eval(ll, cur)),
{
    let in_len = dims_len(ll.spec_dims().input_dims);
    let out_len = dims_len(ll.spec_dims().output_dims);
    // u + r == cur, elementwise.
    let ur = crate::layers::spec_vec_add(u, r);
    assert forall|j: int| 0 <= j < in_len implies ur[j] == cur[j] by {
        let msp = FIELD_MODULUS as int;
        let cj = c[j] as int;
        let rj = r[j] as int;
        let sj = sv[j] as int;
        // ((c - r) + s) + r == c + s (mod p).
        vstd::arithmetic::div_mod::lemma_mod_twice(cj - rj, msp);
        lemma_mod_add_congruent(f_sub(cj, rj), cj - rj, sj, sj);
        vstd::arithmetic::div_mod::lemma_mod_twice((cj - rj) + sj, msp);
        lemma_mod_add_congruent(f_add(f_sub(cj, rj), sj), (cj - rj) + sj, rj, rj);
        lemma_mod_add_congruent(cj + sj, cj + sj, 0, 0);
        assert(f_add(u[j] as int, rj) == f_add(cj, sj));
        lemma_f_red_identity(cur[j] as int);
    };
    assert(ur =~= cur);
    lemma_layer_split(ll, u, r);
    assert(spec_linear_eval(ll, cur) == crate::layers::spec_vec_add(
        spec_linear_eval(ll, u),
        spec_layer_nobias(ll, r),
    ));
    assert forall|j: int| 0 <= j < out_len implies f_add(
        out_val[j] as int,
        new_sv[j] as int,
    ) == spec_linear_eval(ll, cur)[j] by {
        let msp = FIELD_MODULUS as int;
        let lr = spec_layer_nobias(ll, r)[j] as int;
        let lu = spec_linear_eval(ll, u)[j] as int;
        let sj = s[j] as int;
        // (lr - s) + (lu + s) == lr + lu (mod p).
        vstd::arithmetic::div_mod::lemma_mod_twice(lr - sj, msp);
        vstd::arithmetic::div_mod::lemma_mod_twice(lu + sj, msp);
        lemma_mod_add_congruent(f_sub(lr, sj), lr - sj, f_add(lu, sj), lu + sj);
        lemma_mod_add_congruent(lr + lu, lr + lu, 0, 0);
        assert(f_add(out_val[j] as int, new_sv[j] as int) == f_add(lu, lr));
        assert(spec_linear_eval(ll, cur)[j] as int == f_add(lu, lr));
        lemma_ldot_bounds(ll, cur, j, in_len);
        vstd::arithmetic::div_mod::lemma_mod_bound(
            ldot(ll, cur, j, in_len) + crate::layers::spec_bias_at(ll, j),
            msp,
        );
        lemma_f_red_identity(spec_linear_eval(ll, cur)[j] as int);
    };
}

/// One local (pooling / identity) step preserves the sharing.
proof fn lemma_local_step(ll: LinearLayer, cur: Seq<u64>, c: Seq<u64>, sv: Seq<u64>)
    requires
        cur.len() == dims_len(ll.spec_dims().input_dims),
        shares_of(c, sv, cur),
        vec_all_fe(c) && vec_all_fe(sv) && vec_all_fe(cur),
    ensures
        shares_of(spec_layer_nobias(ll, c), spec_linear_eval(ll, sv), spec_linear_eval(ll, cur)),
{
    let in_len = dims_len(ll.spec_dims().input_dims);
    let out_len = dims_len(ll.spec_dims().output_dims);
    let sc = crate::layers::spec_vec_add(sv, c);
    assert forall|j: int| 0 <= j < in_len implies sc[j] == cur[j] by {
        assert(f_add(sv[j] as int, c[j] as int) == f_add(c[j] as int, sv[j] as int));
        lemma_f_red_identity(cur[j] as int);
    };
    assert(sc =~= cur);
    lemma_layer_split(ll, sv, c);
    assert forall|j: int| 0 <= j < out_len implies f_add(
        spec_layer_nobias(ll, c)[j] as int,
        spec_linear_eval(ll, sv)[j] as int,
    ) == spec_linear_eval(ll, cur)[j] by {
        let lc = spec_layer_nobias(ll, c)[j] as int;
        let ls = spec_linear_eval(ll, sv)[j] as int;
        assert(spec_linear_eval(ll, cur)[j] == crate::layers::spec_vec_add(
            spec_linear_eval(ll, sv),
            spec_layer_nobias(ll, c),
        )[j]);
        assert(f_add(ls, lc) == f_add(lc, ls));
        lemma_ldot_bounds(ll, cur, j, in_len);
        vstd::arithmetic::div_mod::lemma_mod_bound(
            ldot(ll, cur, j, in_len) + crate::layers::spec_bias_at(ll, j),
            FIELD_MODULUS as int,
        );
        lemma_f_red_identity(spec_linear_eval(ll, cur)[j] as int);
    };
}

/// One garbled-ReLU step preserves the sharing: the evaluation output
/// and the server's saved output randomizers share the truncated ReLU
/// of the activation.
proof fn lemma_relu_step(
    cur: Seq<u64>,
    c: Seq<u64>,
    sv: Seq<u64>,
    gcs: Seq<GarbledReLU>,
    routs: Seq<u64>,
    new_c: Seq<u64>,
)
    requires
        shares_of(c, sv, cur),
        vec_all_fe(c) && vec_all_fe(sv) && vec_all_fe(cur) && vec_all_fe(routs),
        gcs.len() == cur.len(),
        routs.len() == cur.len(),
        new_c.len() == cur.len(),
        forall|j: int| 0 <= j < gcs.len() ==> (#[trigger] gcs[j]).r_out == routs[j],
        forall|j: int|
            0 <= j < new_c.len() ==> #[trigger] new_c[j] as int == spec_gc_eval(
                gcs[j],
                sv[j] as int,
                c[j] as int,
            ),
    ensures
        shares_of(new_c, routs, spec_relu_vec(cur)),
{
    assert forall|j: int| 0 <= j < cur.len() implies f_add(new_c[j] as int, routs[j] as int)
        == spec_relu_vec(cur)[j] by {
        let y = f_add(sv[j] as int, c[j] as int);
        assert(y == f_add(c[j] as int, sv[j] as int));
        lemma_f_red_identity(cur[j] as int);
        assert(y == cur[j] as int);
        let rl = relu_trunc(cur[j] as int);
        assert(0 <= rl < FIELD_MODULUS) by {
            assert(relu_trunc(cur[j] as int) <= crate::fixed::f_signed(cur[j] as int) || rl == 0);
            if crate::fixed::f_signed(cur[j] as int) > 0 {
                vstd::arithmetic::div_mod::lemma_div_pos_is_pos(
                    crate::fixed::f_signed(cur[j] as int),
                    crate::fixed::FP_SCALE as int,
                );
                vstd::arithmetic::div_mod::lemma_div_is_ordered_by_denominator(
                    crate::fixed::f_signed(cur[j] as int),
                    1,
                    crate::fixed::FP_SCALE as int,
                );
            }
        }
        lemma_f_add_sub_cancel(rl, routs[j] as int);
    };
}

/// Advancing the online sharing by one layer advances the reference
/// evaluation by the same layer.
proof fn lemma_online_step(
    ls: Seq<Layer>,
    x: Seq<u64>,
    i: int,
    cur: Seq<u64>,
    new_c: Seq<u64>,
    new_sv: Seq<u64>,
)
    requires
        0 <= i < ls.len(),
        cur == seq_nn_eval(ls.take(i), x),
        shares_of(new_c, new_sv, spec_layer_eval(ls[i], cur)),
    ensures
        shares_of(new_c, new_sv, seq_nn_eval(ls.take(i + 1), x)),
{
    crate::network::lemma_nn_eval_step(ls, x, i, cur, spec_layer_eval(ls[i], cur));
}

/// The randomness drawn for one layer agrees between two offline runs.
pub open spec fn layer_randomness_eq(
    c1: ClientLayerState,
    s1: ServerLayerState,
    c2: ClientLayerState,
    s2: ServerLayerState,
) -> bool {
    match (c1, s1, c2, s2) {
        (
            ClientLayerState::Linear(a1),
            ServerLayerState::Linear(b1),
            ClientLayerState::Linear(a2),
            ServerLayerState::Linear(b2),
        ) => a1.randomizer@ == a2.randomizer@ && b1.out_blind@ == b2.out_blind@ && b1.mac_blind@
            == b2.mac_blind@,
        (
            ClientLayerState::Relu(_),
            ServerLayerState::Relu(r1),
            ClientLayerState::Relu(_),
            ServerLayerState::Relu(r2),
        ) => r1@ == r2@,
        (
            ClientLayerState::Local,
            ServerLayerState::Local,
            ClientLayerState::Local,
            ServerLayerState::Local,
        ) => true,
        _ => false,
    }
}

/// Everything a layer's offline state holds agrees between two runs.
pub open spec fn layer_state_eq(
    c1: ClientLayerState,
    s1: ServerLayerState,
    c2: ClientLayerState,
    s2: ServerLayerState,
) -> bool {
    match (c1, s1, c2, s2) {
        (
            ClientLayerState::Linear(a1),
            ServerLayerState::Linear(b1),
            ClientLayerState::Linear(a2),
            ServerLayerState::Linear(b2),
        ) => {
            &&& a1.randomizer@ == a2.randomizer@
            &&& a1.out_val@ == a2.out_val@
            &&& a1.out_mac@ == a2.out_mac@
            &&& b1.out_blind@ == b2.out_blind@
            &&& b1.mac_blind@ == b2.mac_blind@
        },
        (
            ClientLayerState::Relu(g1),
            ServerLayerState::Relu(r1),
            ClientLayerState::Relu(g2),
            ServerLayerState::Relu(r2),
        ) => g1@ == g2@ && r1@ == r2@,
        (
            ClientLayerState::Local,
            ServerLayerState::Local,
            ClientLayerState::Local,
            ServerLayerState::Local,
        ) => true,
        _ => false,
    }
}

/// Re-running a session is idempotent: two offline runs over the same
/// network and MAC key that draw the same randomness hold identical
/// state, layer for layer — every derived component is pinned by the
/// consistency relation, so equal draws give equal sessions and hence
/// byte-identical transcripts.
/// One online step reads its inputs only through the state components
/// that [`layer_state_eq`] compares, so equal components give equal
/// steps and equal messages.
proof fn lemma_step_reads_components(
    l: Layer,
    c1: ClientLayerState,
    s1: ServerLayerState,
    c2: ClientLayerState,
    s2: ServerLayerState,
    c: Seq<u64>,
    sv: Seq<u64>,
)
    requires
        layer_state_eq(c1, s1, c2, s2),
    ensures
        spec_online_step(l, c1, s1, c, sv) == spec_online_step(l, c2, s2, c, sv),
        spec_layer_messages(l, c1, c, sv) == spec_layer_messages(l, c2, c, sv),
{
    match (c1, s1, c2, s2) {
        (
            ClientLayerState::Linear(a1),
            ServerLayerState::Linear(b1),
            ClientLayerState::Linear(a2),
            ServerLayerState::Linear(b2),
        ) => {
            match l {
                Layer::LL(ll) => {
                    if is_interactive(ll) {
                        let w = crate::layers::spec_vec_sub(c, a1.randomizer@);
                        assert(crate::layers::spec_vec_sub(c, a2.randomizer@) == w);
                        let u = crate::layers::spec_vec_add(w, sv);
                        assert(spec_online_step(l, c1, s1, c, sv).1
                            == crate::layers::spec_vec_add(spec_linear_eval(ll, u), b1.out_blind@));
                        assert(crate::layers::spec_vec_add(spec_linear_eval(ll, u), b1.out_blind@)
                            =~= crate::layers::spec_vec_add(
                            spec_linear_eval(ll, u),
                            b2.out_blind@,
                        ));
                    }
                },
                _ => {},
            }
        },
        (
            ClientLayerState::Relu(g1),
            ServerLayerState::Relu(r1),
            ClientLayerState::Relu(g2),
            ServerLayerState::Relu(r2),
        ) => {
            match l {
                Layer::NLL(NonLinearLayer::ReLU { .. }) => {
                    assert(Seq::new(
                        c.len(),
                        |j: int| spec_gc_eval(g1@[j], sv[j] as int, c[j] as int) as u64,
                    ) =~= Seq::new(
                        c.len(),
                        |j: int| spec_gc_eval(g2@[j], sv[j] as int, c[j] as int) as u64,
                    ));
                },
                _ => {},
            }
        },
        _ => {},
    }
}

/// Re-running a session is idempotent down to the wire: two offline
/// states holding the same per-layer components under the same MAC key
/// produce, for the same input, the same running shares and the same
/// transcript prefix at every depth.
pub proof fn lemma_transcript_deterministic(
    net: NeuralNetwork,
    cs1: ClientState,
    ss1: ServerState,
    cs2: ClientState,
    ss2: ServerState,
    x: Seq<u64>,
    i: int,
)
    requires
        cs1.layers@.len() == net.layers@.len(),
        ss1.layers@.len() == net.layers@.len(),
        cs2.layers@.len() == net.layers@.len(),
        ss2.layers@.len() == net.layers@.len(),
        ss1.mac_key == ss2.mac_key,
        0 <= i <= net.layers@.len(),
        forall|t: int|
            0 <= t < net.layers@.len() ==> layer_state_eq(
                #[trigger] cs1.layers@[t],
                ss1.layers@[t],
                cs2.layers@[t],
                ss2.layers@[t],
            ),
    ensures
        spec_online_shares(net.layers@, cs1, ss1, x, i) == spec_online_shares(
            net.layers@,
            cs2,
            ss2,
            x,
            i,
        ),
        spec_transcript_prefix(net.layers@, cs1, ss1, x, i) == spec_transcript_prefix(
            net.layers@,
            cs2,
            ss2,
            x,
            i,
        ),
    decreases i,
{
    if i > 0 {
        lemma_transcript_deterministic(net, cs1, ss1, cs2, ss2, x, i - 1);
        let prev = spec_online_shares(net.layers@, cs1, ss1, x, i - 1);
        lemma_step_reads_components(
            net.layers@[i - 1],
            cs1.layers@[i - 1],
            ss1.layers@[i - 1],
            cs2.layers@[i - 1],
            ss2.layers@[i - 1],
            prev.0,
            prev.1,
        );
    }
}

/// The whole-session corollary: under the conditions of
/// [`lemma_transcript_deterministic`], the complete online transcripts
/// — final open included — are identical.  Together with
/// [`lemma_offline_deterministic`] this pins a re-run end to end:
/// equal offline draws give equal state components, and equal state
/// components give byte-identical online transcripts.
pub proof fn lemma_session_transcript_deterministic(
    net: NeuralNetwork,
    cs1: ClientState,
    ss1: ServerState,
    cs2: ClientState,
    ss2: ServerState,
    x: Seq<u64>,
)
    requires
        net.layers@.len() >= 1,
        cs1.layers@.len() == net.layers@.len(),
        ss1.layers@.len() == net.layers@.len(),
        cs2.layers@.len() == net.layers@.len(),
        ss2.layers@.len() == net.layers@.len(),
        ss1.mac_key == ss2.mac_key,
        forall|t: int|
            0 <= t < net.layers@.len() ==> layer_state_eq(
                #[trigger] cs1.layers@[t],
                ss1.layers@[t],
                cs2.layers@[t],
                ss2.layers@[t],
            ),
    ensures
        spec_online_transcript(net, cs1, ss1, x) == spec_online_transcript(net, cs2, ss2, x),
{
    let n = net.layers@.len() as int;
    lemma_transcript_deterministic(net, cs1, ss1, cs2, ss2, x, n);
    let fin = spec_online_shares(net.layers@, cs1, ss1, x, n);
    if ends_interactive(net) {
        assert(layer_state_eq(
            cs1.layers@[n - 1],
            ss1.layers@[n - 1],
            cs2.layers@[n - 1],
            ss2.layers@[n - 1],
        ));
        match (ss1.layers@[n - 1], ss2.layers@[n - 1]) {
            (ServerLayerState::Linear(b1), ServerLayerState::Linear(b2)) => {
                assert(Seq::new(
                    fin.1.len(),
                    |j: int|
                        f_add(
                            f_mul(ss1.mac_key as int, fin.1[j] as int),
                            b1.mac_blind@[j] as int,
                        ) as u64,
                ) =~= Seq::new(
                    fin.1.len(),
                    |j: int|
                        f_add(
                            f_mul(ss2.mac_key as int, fin.1[j] as int),
                            b2.mac_blind@[j] as int,
                        ) as u64,
                ));
            },
            _ => {},
        }
    }
}

pub proof fn lemma_offline_deterministic(
    net: NeuralNetwork,
    cs1: ClientState,
    ss1: ServerState,
    cs2: ClientState,
    ss2: ServerState,
)
    requires
        states_consistent(net, cs1, ss1),
        states_consistent(net, cs2, ss2),
        ss1.mac_key == ss2.mac_key,
        forall|i: int|
            0 <= i < net.layers@.len() ==> layer_randomness_eq(
                #[trigger] cs1.layers@[i],
                ss1.layers@[i],
                cs2.layers@[i],
                ss2.layers@[i],
            ),
    ensures
        forall|i: int|
            0 <= i < net.layers@.len() ==> layer_state_eq(
                #[trigger] cs1.layers@[i],
                ss1.layers@[i],
                cs2.layers@[i],
                ss2.layers@[i],
            ),
{
    let alpha = ss1.mac_key as int;
    assert forall|i: int| 0 <= i < net.layers@.len() implies layer_state_eq(
        #[trigger] cs1.layers@[i],
        ss1.layers@[i],
        cs2.layers@[i],
        ss2.layers@[i],
    ) by {
        let l = net.layers@[i];
        assert(layer_states_consistent(l, cs1.layers@[i], ss1.layers@[i], alpha));
        assert(layer_states_consistent(l, cs2.layers@[i], ss2.layers@[i], alpha));
        match l {
            Layer::LL(ll) => {
                if is_interactive(ll) {
                    match (cs1.layers@[i], ss1.layers@[i], cs2.layers@[i], ss2.layers@[i]) {
                        (
                            ClientLayerState::Linear(a1),
                            ServerLayerState::Linear(b1),
                            ClientLayerState::Linear(a2),
                            ServerLayerState::Linear(b2),
                        ) => {
                            let out_len = dims_len(ll.spec_dims().output_dims);
                            assert forall|j: int| 0 <= j < out_len implies a1.out_val@[j]
                                == a2.out_val@[j] by {
                                assert(spec_layer_nobias(ll, a1.randomizer@) == spec_layer_nobias(
                                    ll,
                                    a2.randomizer@,
                                ));
                            };
                            assert(a1.out_val@ =~= a2.out_val@);
                            assert forall|j: int| 0 <= j < out_len implies a1.out_mac@[j]
                                == a2.out_mac@[j] by {};
                            assert(a1.out_mac@ =~= a2.out_mac@);
                        },
                        _ => {},
                    }
                }
            },
            Layer::NLL(NonLinearLayer::ReLU { dims }) => {
                match (cs1.layers@[i], ss1.layers@[i], cs2.layers@[i], ss2.layers@[i]) {
                    (
                        ClientLayerState::Relu(g1),
                        ServerLayerState::Relu(r1),
                        ClientLayerState::Relu(g2),
                        ServerLayerState::Relu(r2),
                    ) => {
                        let n = dims_len(dims.input_dims);
                        assert forall|j: int| 0 <= j < n implies g1@[j] == g2@[j] by {
                            assert(g1@[j].r_out == r1@[j] && g2@[j].r_out == r2@[j]);
                        };
                        assert(g1@ =~= g2@);
                    },
                    _ => {},
                }
            },
        }
    };
}

/// One whole session, offline then online: the convenience surface a
/// driver calls when both phases run back to back over one connection
/// pair.  The output is the reference evaluation of the network, and
/// the transcript is returned for byte accounting.
pub fn nn_session(
    net: &NeuralNetwork,
    x: &Vec<u64>,
    client_rng: &mut rand_chacha::ChaCha20Rng,
    server_rng: &mut rand_chacha::ChaCha20Rng,
) -> (r: Result<(Vec<u64>, Vec<Vec<u64>>), SessionError>)
    requires
        nn_wf(*net),
        x@.len() == dims_len(layer_input_dims(net.layers@[0])),
        vec_all_fe(x@),
    ensures
        r is Ok,
        r matches Ok(v) ==> v.0@ == nn_eval(*net, x@),
{
    let (cs, ss) = NNProtocol::offline_protocol(net, client_rng, server_rng);
    NNProtocol::online_protocol(net, x, &cs, &ss)
}

/// Blinding of the online messages.  The only value-bearing message
/// the client sends for a linear layer is its share minus the layer
/// randomizer.  For any observed message and any candidate activation
/// share there is exactly one randomizer vector consistent with both,
/// so the message alone carries no information about the share: every
/// candidate secret explains every transcript.
pub proof fn lemma_online_message_blinding(x: Seq<u64>, w: Seq<u64>)
    requires
        x.len() == w.len(),
        vec_all_fe(x),
        vec_all_fe(w),
    ensures
        exists|r: Seq<u64>|
            #![auto]
            r.len() == x.len() && vec_all_fe(r) && crate::layers::spec_vec_sub(x, r) == w,
        forall|r1: Seq<u64>, r2: Seq<u64>|
            #![auto]
            r1.len() == x.len() && r2.len() == x.len() && vec_all_fe(r1) && vec_all_fe(r2)
                && crate::layers::spec_vec_sub(x, r1) == crate::layers::spec_vec_sub(x, r2) ==> r1
                =~= r2,
{
    let witness = Seq::new(x.len(), |j: int| crate::field::f_red(x[j] - w[j]) as u64);
    assert forall|j: int| 0 <= j < x.len() implies fe_valid(#[trigger] witness[j])
        && crate::layers::spec_vec_sub(x, witness)[j] == w[j] by {
        crate::share::lemma_blinding_covers(x[j] as int, w[j] as int);
    };
    assert(crate::layers::spec_vec_sub(x, witness) =~= w);
    assert(witness.len() == x.len() && vec_all_fe(witness) && crate::layers::spec_vec_sub(
        x,
        witness,
    ) == w);
    assert forall|r1: Seq<u64>, r2: Seq<u64>|
        #![auto]
        r1.len() == x.len() && r2.len() == x.len() && vec_all_fe(r1) && vec_all_fe(r2)
            && crate::layers::spec_vec_sub(x, r1) == crate::layers::spec_vec_sub(x, r2) implies r1
        =~= r2 by {
        assert forall|j: int| 0 <= j < x.len() implies r1[j] == r2[j] by {
            assert(crate::layers::spec_vec_sub(x, r1)[j] == crate::layers::spec_vec_sub(x, r2)[j]);
            crate::share::lemma_blinding_unique(x[j] as int, r1[j] as int, r2[j] as int);
        };
    };
}

/// The honest final open verifies: the client's offline MAC share and
/// the server's online MAC broadcast sum to the key times the opened
/// value, for every element.
proof fn lemma_final_open_honest(
    c: Seq<u64>,
    cmac: Seq<u64>,
    sv: Seq<u64>,
    smac: Seq<u64>,
    t: Seq<u64>,
    alpha: int,
)
    requires
        cmac.len() == c.len(),
        sv.len() == c.len(),
        smac.len() == c.len(),
        t.len() == c.len(),
        vec_all_fe(c) && vec_all_fe(cmac) && vec_all_fe(sv) && vec_all_fe(smac) && vec_all_fe(t),
        0 <= alpha < FIELD_MODULUS,
        forall|j: int|
            0 <= j < c.len() ==> #[trigger] cmac[j] as int == f_sub(
                f_mul(alpha, c[j] as int),
                t[j] as int,
            ),
        forall|j: int|
            0 <= j < c.len() ==> #[trigger] smac[j] as int == f_add(
                f_mul(alpha, sv[j] as int),
                t[j] as int,
            ),
    ensures
        forall|j: int|
            0 <= j < c.len() ==> f_add(#[trigger] cmac[j] as int, smac[j] as int) == f_mul(
                alpha,
                f_add(c[j] as int, sv[j] as int),
            ),
{
    let m = FIELD_MODULUS as int;
    assert forall|j: int| 0 <= j < c.len() implies f_add(
        #[trigger] cmac[j] as int,
        smac[j] as int,
    ) == f_mul(alpha, f_add(c[j] as int, sv[j] as int)) by {
        let cm = f_mul(alpha, c[j] as int);
        let sm = f_mul(alpha, sv[j] as int);
        let tj = t[j] as int;
        // (cm - t) + (sm + t) == cm + sm (mod p).
        vstd::arithmetic::div_mod::lemma_mod_twice(cm - tj, m);
        vstd::arithmetic::div_mod::lemma_mod_twice(sm + tj, m);
        lemma_mod_add_congruent(f_sub(cm, tj), cm - tj, f_add(sm, tj), sm + tj);
        lemma_mod_add_congruent(cm + sm, cm + sm, 0, 0);
        assert(f_add(cmac[j] as int, smac[j] as int) == f_add(cm, sm));
        // cm + sm == alpha * (c + sv) (mod p).
        vstd::arithmetic::div_mod::lemma_mod_twice(alpha * (c[j] as int), m);
        vstd::arithmetic::div_mod::lemma_mod_twice(alpha * (sv[j] as int), m);
        lemma_mod_add_congruent(cm, alpha * (c[j] as int), sm, alpha * (sv[j] as int));
        vstd::arithmetic::mul::lemma_mul_is_distributive_add(
            alpha,
            c[j] as int,
            sv[j] as int,
        );
        crate::field::lemma_f_mul_red(alpha, c[j] + sv[j]);
    };
}

/// MAC-checked opening of the final output: the server broadcasts its
/// value share and MAC share; the client recombines and verifies every
/// element.  Accepts exactly when every element's MAC half-sum tags
/// the value half-sum under the key.
pub fn online_final_open(
    c_val: &Vec<u64>,
    c_mac: &Vec<u64>,
    s_val: &Vec<u64>,
    s_mac: &Vec<u64>,
    alpha: u64,
    layer: usize,
) -> (r: Result<Vec<u64>, SessionError>)
    requires
        c_val@.len() == c_mac@.len(),
        c_val@.len() == s_val@.len(),
        c_val@.len() == s_mac@.len(),
        vec_all_fe(c_val@) && vec_all_fe(c_mac@) && vec_all_fe(s_val@) && vec_all_fe(s_mac@),
        fe_valid(alpha),
    ensures
        match r {
            Ok(v) => {
                &&& v@.len() == c_val@.len()
                &&& forall|j: int|
                    0 <= j < v@.len() ==> #[trigger] v@[j] as int == f_add(
                        c_val@[j] as int,
                        s_val@[j] as int,
                    )
                &&& forall|j: int|
                    0 <= j < v@.len() ==> f_add(#[trigger] c_mac@[j] as int, s_mac@[j] as int)
                        == f_mul(alpha as int, f_add(c_val@[j] as int, s_val@[j] as int))
            },
            Err(e) => {
                &&& e.kind == ErrorKind::MacFailure
                &&& e.layer == layer
                &&& exists|j: int|
                    0 <= j < c_val@.len() && f_add(#[trigger] c_mac@[j] as int, s_mac@[j] as int)
                        != f_mul(alpha as int, f_add(c_val@[j] as int, s_val@[j] as int))
            },
        },
{
    let mut out: Vec<u64> = Vec::new();
    let mut j: usize = 0;
    while j < c_val.len()
        invariant
            j <= c_val@.len(),
            c_val@.len() == c_mac@.len(),
            c_val@.len() == s_val@.len(),
            c_val@.len() == s_mac@.len(),
            vec_all_fe(c_val@) && vec_all_fe(c_mac@) && vec_all_fe(s_val@) && vec_all_fe(s_mac@),
            fe_valid(alpha),
            out@.len() == j,
            forall|t: int|
                0 <= t < j ==> #[trigger] out@[t] as int == f_add(
                    c_val@[t] as int,
                    s_val@[t] as int,
                ),
            forall|t: int|
                0 <= t < j ==> f_add(#[trigger] c_mac@[t] as int, s_mac@[t] as int) == f_mul(
                    alpha as int,
                    f_add(c_val@[t] as int, s_val@[t] as int),
                ),
        decreases c_val@.len() - j,
    {
        let own = AuthAdditiveShare { val: c_val[j], mac: c_mac[j] };
        let other = AuthAdditiveShare { val: s_val[j], mac: s_mac[j] };
        match open_authenticated(own, other, alpha) {
            Ok(v) => {
                out.push(v);
            },
            Err(_) => {
                return Err(SessionError::new(ErrorKind::MacFailure, layer));
            },
        }
        j = j + 1;
    }
    Ok(out)
}

} // verus!
