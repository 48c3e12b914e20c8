//! The authenticated MPC substrate: sharing, opening, Beaver triples,
//! conditional disclosure and input authentication.

use protocols::cds::{bit_decompose, server_cds_disclose};
use protocols::error::ErrorKind;
use protocols::field::{fe_add, fe_mul, FIELD_MODULUS};
use protocols::gc::LabelPair;
use protocols::input_auth::{input_auth_bits, mac_check_bits, optimized_input};
use protocols::mpc::{beaver_mul_both, ServerMPC};
use protocols::mpc_offline::{rands_gen, triples_gen};
use protocols::rng::{chacha_from_seed, sample_field_element, sample_field_vec};
use protocols::share::{open_authenticated, share_secret, AdditiveShare, AuthAdditiveShare};

const SEED: [u8; 32] = [7u8; 32];

#[test]
fn sampler_stays_in_field_and_is_seed_deterministic() {
    let mut rng1 = chacha_from_seed(&SEED);
    let mut rng2 = chacha_from_seed(&SEED);
    let a = sample_field_vec(&mut rng1, 64);
    let b = sample_field_vec(&mut rng2, 64);
    assert_eq!(a, b);
    assert!(a.iter().all(|x| *x < FIELD_MODULUS));
    // The draws are not all equal to each other (the stream moves).
    assert!(a.windows(2).any(|w| w[0] != w[1]));
}

#[test]
fn share_and_open_honest() {
    let mut rng = chacha_from_seed(&SEED);
    let alpha = sample_field_element(&mut rng);
    let x = 123456789u64;
    let r = sample_field_element(&mut rng);
    let t = sample_field_element(&mut rng);
    let (own, other) = share_secret(x, alpha, r, t);
    assert_eq!(own.val, r);
    assert_eq!(own.mac, t);
    assert_eq!(open_authenticated(own, other, alpha).unwrap(), x);
}

#[test]
fn open_detects_tampered_value_share() {
    let mut rng = chacha_from_seed(&SEED);
    let alpha = sample_field_element(&mut rng);
    let x = 42u64;
    let r = sample_field_element(&mut rng);
    let t = sample_field_element(&mut rng);
    let (own, other) = share_secret(x, alpha, r, t);
    // A single-bit flip in the transmitted value share.
    let forged = AuthAdditiveShare { val: other.val ^ 1, mac: other.mac };
    assert_eq!(open_authenticated(own, forged, alpha).unwrap_err(), ErrorKind::MacFailure);
}

#[test]
fn open_detects_tampered_mac_share() {
    let mut rng = chacha_from_seed(&SEED);
    let alpha = sample_field_element(&mut rng);
    let (own, other) = share_secret(99, alpha, 17, 23);
    let forged = AuthAdditiveShare { val: other.val, mac: other.mac ^ 4 };
    assert_eq!(open_authenticated(own, forged, alpha).unwrap_err(), ErrorKind::MacFailure);
}

#[test]
fn plain_additive_shares_add_locally() {
    let a = AdditiveShare::new(10);
    let b = AdditiveShare::new(FIELD_MODULUS - 3);
    assert_eq!(a.add(b).inner, 7);
    assert_eq!(a.sub(b).inner, 13);
}

fn mul_mod(a: u64, b: u64) -> u64 {
    ((a as u128 * b as u128) % FIELD_MODULUS as u128) as u64
}

#[test]
fn triples_reconstruct_to_products() {
    let mut rng = chacha_from_seed(&SEED);
    let alpha = sample_field_element(&mut rng);
    let num = 8usize;
    let ct = sample_field_vec(&mut rng, 2 * num);
    let st = sample_field_vec(&mut rng, 6 * num);
    let (client, server) = triples_gen(alpha, &ct, &st, num);
    assert_eq!(client.len(), num);
    for i in 0..num {
        let a = fe_add(client[i].a.val, server[i].a.val);
        let b = fe_add(client[i].b.val, server[i].b.val);
        let c = fe_add(client[i].c.val, server[i].c.val);
        assert_eq!(c, mul_mod(a, b));
        // Every component carries its MAC.
        assert_eq!(fe_add(client[i].a.mac, server[i].a.mac), mul_mod(alpha, a));
        assert_eq!(fe_add(client[i].b.mac, server[i].b.mac), mul_mod(alpha, b));
        assert_eq!(fe_add(client[i].c.mac, server[i].c.mac), mul_mod(alpha, c));
        // The client's halves come straight off its tape.
        assert_eq!(client[i].a.val, ct[2 * i]);
        assert_eq!(client[i].b.val, ct[2 * i + 1]);
    }
}

#[test]
fn rands_carry_macs() {
    let mut rng = chacha_from_seed(&SEED);
    let alpha = sample_field_element(&mut rng);
    let num = 5usize;
    let ct = sample_field_vec(&mut rng, 2 * num);
    let st = sample_field_vec(&mut rng, num);
    let (client, server) = rands_gen(alpha, &ct, &st, num);
    for i in 0..num {
        let v = fe_add(client[i].val, server[i].val);
        assert_eq!(fe_add(client[i].mac, server[i].mac), mul_mod(alpha, v));
    }
}

#[test]
fn beaver_multiplication_is_exact() {
    let mut rng = chacha_from_seed(&SEED);
    let alpha = sample_field_element(&mut rng);
    let ct = sample_field_vec(&mut rng, 2);
    let st = sample_field_vec(&mut rng, 6);
    let (tc, ts) = triples_gen(alpha, &ct, &st, 1);
    let x = 1234567u64;
    let y = 7654321u64;
    let (xc, xs) = share_secret(x, alpha, 1111, 2222);
    let (yc, ys) = share_secret(y, alpha, 3333, 4444);
    let (zc, zs) = beaver_mul_both(xc, xs, yc, ys, tc[0], ts[0], alpha);
    assert_eq!(fe_add(zc.val, zs.val), mul_mod(x, y));
    assert_eq!(open_authenticated(zc, zs, alpha).unwrap(), mul_mod(x, y));
}

#[test]
fn server_private_inputs_authenticate() {
    let mut rng = chacha_from_seed(&SEED);
    let alpha = sample_field_element(&mut rng);
    let mpc = ServerMPC::new(Vec::new(), Vec::new(), alpha);
    let values = vec![3u64, 1, 4, 1, 5];
    let blind = sample_field_vec(&mut rng, 10);
    let (own, peer) = mpc.private_inputs(&values, &blind);
    for i in 0..values.len() {
        assert_eq!(open_authenticated(own[i], peer[i], alpha).unwrap(), values[i]);
    }
}

#[test]
fn cds_discloses_only_consistent_bits() {
    let mut rng = chacha_from_seed(&SEED);
    let alpha = sample_field_element(&mut rng);
    let value = 0xdeadbeefu64;
    // The client holds the value whole; the server holds the MAC mask.
    let t = sample_field_element(&mut rng);
    let client_mac = {
        let tag = fe_mul(alpha, value);
        protocols::field::fe_sub(tag, t)
    };
    let bits = bit_decompose(value);
    let labels: Vec<LabelPair> =
        (0..63u128).map(|i| LabelPair { zero: 2 * i, one: 2 * i + 1 }).collect();
    let disclosed = server_cds_disclose(value, 0, client_mac, t, alpha, &bits, &labels).unwrap();
    for i in 0..63 {
        assert_eq!(disclosed[i], 2 * i as u128 + bits[i] as u128);
    }
    // A flipped bit claim is refused.
    let mut bad_bits = bits.clone();
    bad_bits[5] ^= 1;
    assert_eq!(
        server_cds_disclose(value, 0, client_mac, t, alpha, &bad_bits, &labels).unwrap_err(),
        ErrorKind::MacFailure
    );
    // A broken MAC share is refused even with honest bits.
    assert_eq!(
        server_cds_disclose(value, 0, client_mac ^ 2, t, alpha, &bits, &labels).unwrap_err(),
        ErrorKind::MacFailure
    );
}

#[test]
fn cds_layer_discloses_per_activation() {
    let mut rng = chacha_from_seed(&SEED);
    let alpha = sample_field_element(&mut rng);
    let values = vec![0x1111u64, 0x2222];
    let mut cs = Vec::new();
    let mut ss = Vec::new();
    let mut cm = Vec::new();
    let mut sm = Vec::new();
    let mut bits = Vec::new();
    for v in &values {
        let r = sample_field_element(&mut rng);
        let t = sample_field_element(&mut rng);
        cs.push(r);
        ss.push(protocols::field::fe_sub(*v, r));
        cm.push(protocols::field::fe_sub(fe_mul(alpha, *v), t));
        sm.push(t);
        bits.extend(bit_decompose(*v));
    }
    let labels: Vec<LabelPair> =
        (0..126u128).map(|i| LabelPair { zero: 2 * i, one: 2 * i + 1 }).collect();
    let sel = protocols::cds::server_cds_layer(&cs, &ss, &cm, &sm, alpha, &bits, &labels).unwrap();
    assert_eq!(sel.len(), 126);
    for i in 0..126 {
        assert_eq!(sel[i], 2 * i as u128 + bits[i] as u128);
    }
    // One flipped claimed bit kills the whole layer's disclosure.
    let mut bad = bits.clone();
    bad[70] ^= 1;
    assert_eq!(
        protocols::cds::server_cds_layer(&cs, &ss, &cm, &sm, alpha, &bad, &labels).unwrap_err(),
        ErrorKind::MacFailure
    );
}

#[test]
fn input_auth_variants_agree_and_check() {
    let mut rng = chacha_from_seed(&SEED);
    let alpha = sample_field_element(&mut rng);
    let value = 0x1234_5678_9abcu64;
    let blind = sample_field_vec(&mut rng, 2 * 63);
    let (bits, own1, peer1) = input_auth_bits(value, alpha, &blind);
    let (own2, peer2) = optimized_input(&bits, alpha, &blind);
    assert_eq!(own1, own2);
    assert_eq!(peer1, peer2);
    let opened = mac_check_bits(&own1, &peer1, alpha).unwrap();
    assert_eq!(opened, bits);
    // Tampering any bit share fails the final check.
    let mut bad = peer1.clone();
    bad[7].val ^= 1;
    assert_eq!(mac_check_bits(&own1, &bad, alpha).unwrap_err(), ErrorKind::MacFailure);
}
