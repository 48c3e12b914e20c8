//! End-to-end sessions: offline preprocessing plus online evaluation
//! against the plaintext reference.

use protocols::error::ErrorKind;
use protocols::field::FIELD_MODULUS;
use protocols::fixed::{fe_from_signed, FP_SCALE};
use protocols::layers::{Dims, Kernel, Layer, LayerDims, LinearLayer, NonLinearLayer, Padding};
use protocols::network::{architecture_of, evaluate, NeuralNetwork};
use protocols::neural_network::{
    online_client_linear_step, online_client_relu_step, online_final_open,
    online_server_final_mac, online_server_linear_step, online_server_relu_step, ClientLayerState,
    NNProtocol, ServerLayerState,
};
use protocols::rng::{chacha_from_seed, sample_field_element, sample_field_vec};
use protocols::resnet32::{
    add_activation_layer, construct_resnet_32, sample_conv_layer, sample_fc_layer,
};
use protocols::share::share_secret;

const RANDOMNESS: [u8; 32] = [
    0x11, 0xe0, 0x8f, 0xbc, 0x89, 0xa7, 0x34, 0x01, 0x45, 0x86, 0x82, 0xb6, 0x51, 0xda, 0xf4,
    0x76, 0x5d, 0xc9, 0x8d, 0xea, 0x23, 0xf2, 0x90, 0x8f, 0x9d, 0x03, 0xf2, 0x77, 0xd3, 0x4a,
    0x52, 0xd2,
];

fn enc(m: i64) -> u64 {
    fe_from_signed(m * FP_SCALE as i64)
}

fn identity_fc(n: usize, batch: usize) -> LinearLayer {
    let mut data = vec![0u64; n * n];
    for i in 0..n {
        data[i * n + i] = FP_SCALE;
    }
    let weights = Kernel { dims: Dims { n, c: n, h: 1, w: 1 }, data };
    let bias = vec![0u64; n];
    let dims = LayerDims {
        input_dims: Dims { n: batch, c: n, h: 1, w: 1 },
        output_dims: Dims { n: batch, c: n, h: 1, w: 1 },
    };
    LinearLayer::FullyConnected { dims, weights, bias }
}

fn run_session(net: &NeuralNetwork, x: &Vec<u64>) -> (Vec<u64>, Vec<Vec<u64>>) {
    let mut crng = chacha_from_seed(&RANDOMNESS);
    let mut srng = chacha_from_seed(&[9u8; 32]);
    let (cs, ss) = NNProtocol::offline_protocol(net, &mut crng, &mut srng);
    NNProtocol::online_protocol(net, x, &cs, &ss).unwrap()
}

#[test]
fn s1_identity_fully_connected() {
    // FullyConnected(in=4, out=2x...): identity weights, zero bias;
    // input (1,2,3,4) comes out as (1,2,3,4) at the product scale.
    let net = NeuralNetwork { layers: vec![Layer::LL(identity_fc(4, 1))] };
    let x = vec![enc(1), enc(2), enc(3), enc(4)];
    let (out, _) = run_session(&net, &x);
    let scale2 = (FP_SCALE * FP_SCALE) as u64;
    assert_eq!(out, vec![scale2, 2 * scale2, 3 * scale2, 4 * scale2]);
    // Bitwise agreement with the plaintext reference.
    assert_eq!(out, evaluate(&net, &x).unwrap());
}

#[test]
fn s2_one_by_one_convolution() {
    // Conv2d, 1x1 kernel = 2, zero bias, stride 1, Same padding, over
    // a 1x1x2x2 input (1,2,3,4): output (2,4,6,8).
    let kernel = Kernel { dims: Dims { n: 1, c: 1, h: 1, w: 1 }, data: vec![enc(2)] };
    let dims = LayerDims {
        input_dims: Dims { n: 1, c: 1, h: 2, w: 2 },
        output_dims: Dims { n: 1, c: 1, h: 2, w: 2 },
    };
    let conv = LinearLayer::Conv2d {
        dims,
        kernel,
        bias: vec![0u64],
        stride: 1,
        padding: Padding::Same,
    };
    let net = NeuralNetwork { layers: vec![Layer::LL(conv)] };
    let x = vec![enc(1), enc(2), enc(3), enc(4)];
    let (out, _) = run_session(&net, &x);
    let scale2 = (FP_SCALE * FP_SCALE) as u64;
    assert_eq!(out, vec![2 * scale2, 4 * scale2, 6 * scale2, 8 * scale2]);
}

#[test]
fn s3_relu_layer() {
    // ReLU over (-1, 0, +1) returns (0, 0, +1).
    let d = Dims { n: 1, c: 3, h: 1, w: 1 };
    let relu = Layer::NLL(NonLinearLayer::ReLU {
        dims: LayerDims { input_dims: d, output_dims: d },
    });
    let net = NeuralNetwork { layers: vec![relu] };
    let scale2 = (FP_SCALE * FP_SCALE) as i64;
    let x = vec![fe_from_signed(-scale2), 0, fe_from_signed(scale2)];
    let (out, _) = run_session(&net, &x);
    assert_eq!(out, vec![0, 0, FP_SCALE]);
}

#[test]
fn s4_conv_relu_fc_chain_matches_reference() {
    // Conv2d -> ReLU -> FullyConnected with random weights at the
    // fixed seed; the protocol output agrees bitwise with plaintext
    // inference.
    let mut wrng = chacha_from_seed(&RANDOMNESS);
    let input_dims = Dims { n: 1, c: 1, h: 4, w: 4 };
    let kernel_dims = Dims { n: 2, c: 1, h: 3, w: 3 };
    let conv = sample_conv_layer(&input_dims, &kernel_dims, 1, Padding::Same, &mut wrng).unwrap();
    let mut net = NeuralNetwork { layers: vec![Layer::LL(conv)] };
    add_activation_layer(&mut net);
    let cur = net.layers[net.layers.len() - 1].output_dimensions();
    let fc = sample_fc_layer(&cur, 3, &mut wrng).unwrap();
    net.layers.push(Layer::LL(fc));

    let x: Vec<u64> = (1..=16).map(|m| enc(m)).collect();
    let (out, _) = run_session(&net, &x);
    let reference = evaluate(&net, &x).unwrap();
    assert_eq!(out, reference);
    assert_eq!(out.len(), 3);
    // The architecture projection covers every layer.
    let arch = architecture_of(&net);
    assert_eq!(arch.layers.len(), net.layers.len());
}

#[test]
fn s5_corrupted_mac_share_fails_final_open() {
    let mut rng = chacha_from_seed(&RANDOMNESS);
    let alpha = sample_field_element(&mut rng);
    let values = vec![11u64, 22, 33];
    let mut c_val = Vec::new();
    let mut c_mac = Vec::new();
    let mut s_val = Vec::new();
    let mut s_mac = Vec::new();
    for v in &values {
        let r = sample_field_element(&mut rng);
        let t = sample_field_element(&mut rng);
        let (own, other) = share_secret(*v, alpha, r, t);
        c_val.push(own.val);
        c_mac.push(own.mac);
        s_val.push(other.val);
        s_mac.push(other.mac);
    }
    // Honest broadcast opens to the values.
    let opened = online_final_open(&c_val, &c_mac, &s_val, &s_mac, alpha, 2).unwrap();
    assert_eq!(opened, values);
    // Corrupt one byte of the server's MAC-share broadcast: the open
    // fails with a MAC failure at the recorded layer.
    let mut bad_mac = s_mac.clone();
    bad_mac[1] ^= 0x40;
    let err = online_final_open(&c_val, &c_mac, &s_val, &bad_mac, alpha, 2).unwrap_err();
    assert_eq!(err.kind, ErrorKind::MacFailure);
    assert_eq!(err.layer, 2);
}

#[test]
fn s5_tampered_offline_mac_material_aborts_session() {
    // Corrupting the server's saved MAC mask after the offline phase
    // makes the session terminate with a MAC failure at the final
    // open.
    let net = NeuralNetwork { layers: vec![Layer::LL(identity_fc(3, 1))] };
    let x = vec![enc(1), enc(2), enc(3)];
    let mut crng = chacha_from_seed(&RANDOMNESS);
    let mut srng = chacha_from_seed(&[9u8; 32]);
    let (cs, mut ss) = NNProtocol::offline_protocol(&net, &mut crng, &mut srng);
    match &mut ss.layers[0] {
        protocols::neural_network::ServerLayerState::Linear(b) => {
            b.mac_blind[0] ^= 1;
        },
        _ => panic!("expected linear layer state"),
    }
    let err = NNProtocol::online_protocol(&net, &x, &cs, &ss).unwrap_err();
    assert_eq!(err.kind, ErrorKind::MacFailure);
    assert_eq!(err.layer, 0);
}

#[test]
fn p4_re_run_is_byte_identical() {
    // Two sessions with identical seeds on both sides produce the same
    // offline draws and the same output.
    let net = NeuralNetwork { layers: vec![Layer::LL(identity_fc(3, 1))] };
    let x = vec![enc(5), enc(6), enc(7)];
    let (out1, transcript1) = run_session(&net, &x);
    let (out2, transcript2) = run_session(&net, &x);
    assert_eq!(out1, out2);
    // The transcripts are identical byte for byte.
    assert_eq!(transcript1.len(), transcript2.len());
    for (m1, m2) in transcript1.iter().zip(transcript2.iter()) {
        assert_eq!(
            protocols::bytes::serialize(m1),
            protocols::bytes::serialize(m2)
        );
    }
    let mut c1 = chacha_from_seed(&RANDOMNESS);
    let mut s1 = chacha_from_seed(&[9u8; 32]);
    let (cs1, ss1) = NNProtocol::offline_protocol(&net, &mut c1, &mut s1);
    let mut c2 = chacha_from_seed(&RANDOMNESS);
    let mut s2 = chacha_from_seed(&[9u8; 32]);
    let (cs2, ss2) = NNProtocol::offline_protocol(&net, &mut c2, &mut s2);
    assert_eq!(ss1.mac_key, ss2.mac_key);
    match (&cs1.layers[0], &cs2.layers[0]) {
        (
            protocols::neural_network::ClientLayerState::Linear(a1),
            protocols::neural_network::ClientLayerState::Linear(a2),
        ) => {
            assert_eq!(a1.randomizer, a2.randomizer);
            assert_eq!(a1.out_val, a2.out_val);
            assert_eq!(a1.out_mac, a2.out_mac);
        },
        _ => panic!("expected linear layer state"),
    }
}

#[test]
fn p5_layer_composition_chains() {
    // Evaluating a two-layer network equals evaluating the layers one
    // at a time, chained through the intermediate activations.
    let l1 = identity_fc(3, 1);
    let d = Dims { n: 1, c: 3, h: 1, w: 1 };
    let relu = Layer::NLL(NonLinearLayer::ReLU {
        dims: LayerDims { input_dims: d, output_dims: d },
    });
    let both = NeuralNetwork { layers: vec![Layer::LL(l1.clone()), relu.clone()] };
    let first = NeuralNetwork { layers: vec![Layer::LL(l1)] };
    let second = NeuralNetwork { layers: vec![relu] };
    let x = vec![enc(2), fe_from_signed(-3 * FP_SCALE as i64), enc(4)];
    let (whole, _) = run_session(&both, &x);
    let (mid, _) = run_session(&first, &x);
    let (chained, _) = run_session(&second, &mid);
    assert_eq!(whole, chained);
}

#[test]
fn evaluate_rejects_wrong_input_shape() {
    let net = NeuralNetwork { layers: vec![Layer::LL(identity_fc(4, 1))] };
    let err = evaluate(&net, &vec![1u64, 2, 3]).unwrap_err();
    assert_eq!(err.kind, ErrorKind::Shape);
}

#[test]
fn resnet32_constructs_and_validates() {
    let mut rng = chacha_from_seed(&RANDOMNESS);
    let net = construct_resnet_32(1, &mut rng).unwrap();
    // Initial conv + activation, three residual stages of twenty
    // layers, average pooling, and the classifier head.
    assert_eq!(net.layers.len(), 64);
    // The head: a 3x3 convolution to sixteen channels on the CIFAR
    // shape, followed by its activation.
    match &net.layers[0] {
        Layer::LL(LinearLayer::Conv2d { dims, kernel, stride, padding, .. }) => {
            assert_eq!(dims.input_dims, Dims { n: 1, c: 3, h: 32, w: 32 });
            assert_eq!(kernel.dims, Dims { n: 16, c: 3, h: 3, w: 3 });
            assert_eq!(*stride, 1);
            assert!(matches!(padding, Padding::Same));
        },
        _ => panic!("expected the initial convolution"),
    }
    assert!(matches!(&net.layers[1], Layer::NLL(NonLinearLayer::ReLU { .. })));
    // Every convolution is immediately followed by an activation.
    for i in 0..net.layers.len() {
        if matches!(&net.layers[i], Layer::LL(LinearLayer::Conv2d { .. })) {
            assert!(matches!(&net.layers[i + 1], Layer::NLL(NonLinearLayer::ReLU { .. })));
        }
    }
    // The tail: 2x2 stride-2 pooling, then the ten-way classifier.
    match &net.layers[62] {
        Layer::LL(LinearLayer::AvgPool { dims, pool_h, pool_w, stride, .. }) => {
            assert_eq!(dims.input_dims, Dims { n: 1, c: 64, h: 8, w: 8 });
            assert_eq!(dims.output_dims, Dims { n: 1, c: 64, h: 4, w: 4 });
            assert_eq!((*pool_h, *pool_w, *stride), (2, 2, 2));
        },
        _ => panic!("expected the pooling tail"),
    }
    match &net.layers[63] {
        Layer::LL(LinearLayer::FullyConnected { dims, .. }) => {
            assert_eq!(dims.output_dims, Dims { n: 1, c: 10, h: 1, w: 1 });
        },
        _ => panic!("expected the classifier head"),
    }
}

#[test]
fn per_party_steps_compose_to_the_session() {
    // Driving the per-party step functions by hand over the transcript
    // messages reproduces the composed session exactly.
    let mut wrng = chacha_from_seed(&RANDOMNESS);
    let input_dims = Dims { n: 1, c: 1, h: 3, w: 3 };
    let kernel_dims = Dims { n: 2, c: 1, h: 3, w: 3 };
    let conv = sample_conv_layer(&input_dims, &kernel_dims, 1, Padding::Same, &mut wrng).unwrap();
    let mut net = NeuralNetwork { layers: vec![Layer::LL(conv)] };
    add_activation_layer(&mut net);
    let cur = net.layers[net.layers.len() - 1].output_dimensions();
    let fc = sample_fc_layer(&cur, 2, &mut wrng).unwrap();
    net.layers.push(Layer::LL(fc));

    let x: Vec<u64> = (1..=9).map(|m| enc(m)).collect();
    let mut crng = chacha_from_seed(&RANDOMNESS);
    let mut srng = chacha_from_seed(&[9u8; 32]);
    let (cs, ss) = NNProtocol::offline_protocol(&net, &mut crng, &mut srng);

    // Client and server walk the layers, message by message.
    let mut c = x.clone();
    let mut sv = vec![0u64; x.len()];
    for i in 0..net.layers.len() {
        match (&net.layers[i], &cs.layers[i], &ss.layers[i]) {
            (Layer::LL(ll), ClientLayerState::Linear(a), ServerLayerState::Linear(b)) => {
                let (w, new_c) = online_client_linear_step(&c, a);
                sv = online_server_linear_step(ll, &w, &sv, b);
                c = new_c;
            },
            (Layer::NLL(_), ClientLayerState::Relu(gcs), ServerLayerState::Relu(routs)) => {
                let (labels_msg, new_sv) = online_server_relu_step(&sv, routs);
                c = online_client_relu_step(gcs, &labels_msg, &c);
                sv = new_sv;
            },
            _ => panic!("state misaligned"),
        }
    }
    let (cmac, b) = match (&cs.layers[2], &ss.layers[2]) {
        (ClientLayerState::Linear(a), ServerLayerState::Linear(b)) => (a.out_mac.clone(), b),
        _ => panic!("state misaligned"),
    };
    let smac = online_server_final_mac(&sv, b, ss.mac_key);
    let stepped = online_final_open(&c, &cmac, &sv, &smac, ss.mac_key, 2).unwrap();

    let (composed, _) = NNProtocol::online_protocol(&net, &x, &cs, &ss).unwrap();
    assert_eq!(stepped, composed);
    assert_eq!(stepped, evaluate(&net, &x).unwrap());
}

#[test]
fn samplers_pin_their_parameters() {
    // The identity layer is fully determined by its extents; the
    // pooling layer carries its window, stride and the rounded
    // reciprocal coefficient.
    let d = Dims { n: 1, c: 2, h: 4, w: 4 };
    match protocols::resnet32::sample_iden_layer(&d).unwrap() {
        LinearLayer::Identity { dims } => {
            assert_eq!(dims.input_dims, d);
            assert_eq!(dims.output_dims, d);
        },
        _ => panic!("expected an identity layer"),
    }
    match protocols::resnet32::sample_avg_pool_layer(&d, 2, 2, 2).unwrap() {
        LinearLayer::AvgPool { dims, pool_h, pool_w, stride, coeff } => {
            assert_eq!(dims.output_dims, Dims { n: 1, c: 2, h: 2, w: 2 });
            assert_eq!((pool_h, pool_w, stride), (2, 2, 2));
            // round(256 / 4)
            assert_eq!(coeff, 64);
        },
        _ => panic!("expected a pooling layer"),
    }
    // A window larger than twice the scale rounds to a zero
    // coefficient.
    let wide = Dims { n: 1, c: 1, h: 40, w: 40 };
    match protocols::resnet32::sample_avg_pool_layer(&wide, 40, 40, 40).unwrap() {
        LinearLayer::AvgPool { coeff, .. } => assert_eq!(coeff, 0),
        _ => panic!("expected a pooling layer"),
    }
}

#[test]
fn sampler_rejects_oversized_kernel() {
    let mut rng = chacha_from_seed(&RANDOMNESS);
    let input_dims = Dims { n: 1, c: 1, h: 2, w: 2 };
    let kernel_dims = Dims { n: 1, c: 1, h: 3, w: 3 };
    let err = sample_conv_layer(&input_dims, &kernel_dims, 1, Padding::Same, &mut rng).unwrap_err();
    assert_eq!(err.kind, ErrorKind::Shape);
}

#[test]
fn field_values_survive_session_bounds() {
    // All outputs of a random session are canonical field elements.
    let mut wrng = chacha_from_seed(&[3u8; 32]);
    let input_dims = Dims { n: 1, c: 2, h: 2, w: 2 };
    let fc = sample_fc_layer(&input_dims, 4, &mut wrng).unwrap();
    let net = NeuralNetwork { layers: vec![Layer::LL(fc)] };
    let x = sample_field_vec(&mut wrng, 8);
    let (out, _) = run_session(&net, &x);
    assert!(out.iter().all(|v| *v < FIELD_MODULUS));
}
