use fhe_math::rq::traits::TryConvertFrom;
use fhe_math::rq::{Context, Poly as RqPoly, Representation};
use fhe_math::zq::primes::generate_prime;
use mbfv::{
    generate_crp, generate_crp_leveled, generate_crp_vec, Aggregate, BfvParameters, Ciphertext,
    DecryptionShare, Error, Poly, PublicKey, PublicKeyShare, PublicKeySwitchShare, RelinKeyGenerator,
    RelinKeyShare, SecretKey, SecretKeySwitchShare, R1, R2,
};
use num_bigint::BigUint;
use rand::rngs::StdRng;
use rand::{Rng, SeedableRng};
use std::sync::Arc;

const NUM_PARTIES: usize = 11;
const PLAINTEXT: u64 = 1153;
const VARIANCE: usize = 10;

fn moduli_for(n: usize, degree: usize) -> Vec<u64> {
    let mut moduli = vec![];
    let mut upper = 1u64 << 62;
    while moduli.len() < n {
        upper = generate_prime(62, 2 * degree as u64, upper).unwrap();
        moduli.push(upper);
    }
    moduli
}

fn params(n: usize, degree: usize) -> BfvParameters {
    BfvParameters::new(degree, moduli_for(n, degree), PLAINTEXT, VARIANCE).unwrap()
}

fn random_secret(par: &BfvParameters, rng: &mut StdRng) -> SecretKey {
    let coeffs = (0..par.degree()).map(|_| rng.random_range(-1i64..=1)).collect();
    SecretKey::new(coeffs, par)
}

fn rows_of(p: &RqPoly) -> Vec<Vec<u64>> {
    p.coefficients().outer_iter().map(|r| r.to_vec()).collect()
}

/// The ring contexts of every level of `par`.
fn contexts(par: &BfvParameters) -> Vec<Arc<Context>> {
    (0..=par.max_level())
        .map(|level| Context::new_arc(&par.ctx_at_level(level).unwrap(), par.degree()).unwrap())
        .collect()
}

fn small(ctx: &Arc<Context>, rng: &mut StdRng) -> Poly {
    let p = RqPoly::small(ctx, Representation::Ntt, VARIANCE, rng).unwrap();
    Poly::from_rows(rows_of(&p))
}

fn lifted_secret(sk: &SecretKey, c: &Arc<Context>) -> Poly {
    let mut p = RqPoly::try_convert_from(sk.coeffs().as_slice(), c, false, Representation::PowerBasis).unwrap();
    p.change_representation(Representation::Ntt);
    Poly::from_rows(rows_of(&p))
}

fn product(moduli: &[u64]) -> BigUint {
    moduli.iter().fold(BigUint::from(1u64), |acc, q| acc * BigUint::from(*q))
}

/// Encrypts `m` under `pk` at `level`.
fn encrypt(pk: &PublicKey, m: &[u64], level: usize, ctxs: &[Arc<Context>], rng: &mut StdRng) -> Ciphertext {
    let pk = pk.switched_to_level(level).unwrap();
    let par = pk.c().par();
    let moduli = par.ctx_at_level(level).unwrap();
    let q = product(&moduli);
    let delta = &q / BigUint::from(PLAINTEXT);
    let scaled: Vec<BigUint> = m.iter().map(|mi| (&delta * BigUint::from(*mi)) % &q).collect();
    let ctx = &ctxs[level];
    let mut dm = RqPoly::try_convert_from(scaled.as_slice(), ctx, false, Representation::PowerBasis).unwrap();
    dm.change_representation(Representation::Ntt);
    let dm = Poly::from_rows(rows_of(&dm));
    let u = small(ctx, rng);
    let e0 = small(ctx, rng);
    let e1 = small(ctx, rng);
    let c = pk.c().c();
    let c0 = c[0].mul(&u, &moduli).add(&e0, &moduli).add(&dm, &moduli);
    let c1 = c[1].mul(&u, &moduli).add(&e1, &moduli);
    Ciphertext::new(vec![c0, c1], par).unwrap()
}

/// Decrypts a two-component ciphertext under `sk`.
fn decrypt(sk: &SecretKey, ct: &Ciphertext, ctxs: &[Arc<Context>]) -> Vec<u64> {
    let par = ct.par();
    let moduli = par.ctx_at_level(ct.level()).unwrap();
    let ctx = &ctxs[ct.level()];
    let s = lifted_secret(sk, ctx);
    let c = ct.c();
    let x = c[0].add(&c[1].mul(&s, &moduli), &moduli);
    decode(&x, &moduli, ctx)
}

/// Rounds `t * x / Q` for every coefficient of `x`.
fn decode(x: &Poly, moduli: &[u64], ctx: &Arc<Context>) -> Vec<u64> {
    let flat: Vec<u64> = x.rows().concat();
    let mut p = RqPoly::try_convert_from(flat, ctx, false, Representation::Ntt).unwrap();
    p.change_representation(Representation::PowerBasis);
    let q = product(moduli);
    let t = BigUint::from(PLAINTEXT);
    Vec::<BigUint>::from(&p)
        .iter()
        .map(|xi| {
            let r = ((xi * &t) + (&q >> 1usize)) / &q % &t;
            r.to_u64_digits().first().copied().unwrap_or(0)
        })
        .collect()
}

struct Party {
    sk_share: SecretKey,
    pk_share: PublicKeyShare,
}

#[test]
fn encrypt_keyswitch_decrypt() {
    let mut rng = StdRng::seed_from_u64(7);
    for par in [params(1, 8), params(6, 8)] {
        let ctxs = contexts(&par);
        for level in 0..=par.max_level() {
            for _ in 0..20 {
                let crp = generate_crp(&par, &mut rng).unwrap();

                let mut parties: Vec<Party> = vec![];
                for _ in 0..NUM_PARTIES {
                    let sk_share = random_secret(&par, &mut rng);
                    let pk_share = PublicKeyShare::new(&sk_share, crp.duplicate(), &mut rng).unwrap();
                    parties.push(Party { sk_share, pk_share })
                }
                let public_key =
                    PublicKeyShare::aggregate(parties.iter().map(|p| p.pk_share.duplicate()).collect()).unwrap();

                let pt1: Vec<u64> = (0..par.degree()).map(|_| rng.random_range(0..PLAINTEXT)).collect();
                let ct1 = encrypt(&public_key, &pt1, level, &ctxs, &mut rng);

                let sk_out = random_secret(&par, &mut rng);
                let crp_out = generate_crp(&par, &mut rng).unwrap();
                let pk_out = PublicKeyShare::aggregate(vec![PublicKeyShare::new(&sk_out, crp_out, &mut rng).unwrap()]).unwrap();
                let pkss: Vec<PublicKeySwitchShare> = parties
                    .iter()
                    .map(|p| PublicKeySwitchShare::new(&p.sk_share, &pk_out, &ct1, &mut rng).unwrap())
                    .collect();
                let ct2 = PublicKeySwitchShare::aggregate(pkss).unwrap();

                let pt2 = decrypt(&sk_out, &ct2, &ctxs);
                assert_eq!(pt1, pt2);
            }
        }
    }
}

fn parties_with_key(par: &BfvParameters, rng: &mut StdRng) -> (Vec<SecretKey>, PublicKey) {
    let crp = generate_crp(par, rng).unwrap();
    let sks: Vec<SecretKey> = (0..NUM_PARTIES).map(|_| random_secret(par, rng)).collect();
    let shares = sks.iter().map(|sk| PublicKeyShare::new(sk, crp.duplicate(), rng).unwrap()).collect();
    (sks, PublicKeyShare::aggregate(shares).unwrap())
}

#[test]
fn aggregate_empty_fails_for_every_share_type() {
    let e = Error::TooFewValues(0, 1);
    assert_eq!(PublicKeyShare::aggregate(vec![]).err(), Some(e.clone()));
    assert_eq!(PublicKeySwitchShare::aggregate(vec![]).err(), Some(e.clone()));
    assert_eq!(RelinKeyShare::<R1>::aggregate(vec![]).err(), Some(e.clone()));
    assert_eq!(RelinKeyShare::<R2>::aggregate(vec![]).err(), Some(e.clone()));
    assert_eq!(SecretKeySwitchShare::aggregate(vec![]).err(), Some(e.clone()));
    assert_eq!(DecryptionShare::aggregate(vec![]).err(), Some(e));
}

#[test]
fn aggregate_mismatched_parameters_fails() {
    let mut rng = StdRng::seed_from_u64(1);
    let par_a = params(2, 8);
    let par_b = BfvParameters::new(8, moduli_for(2, 8), 17, VARIANCE).unwrap();
    let sk_a = random_secret(&par_a, &mut rng);
    let sk_b = random_secret(&par_b, &mut rng);
    let pk_a = PublicKeyShare::new(&sk_a, generate_crp(&par_a, &mut rng).unwrap(), &mut rng).unwrap();
    let pk_b = PublicKeyShare::new(&sk_b, generate_crp(&par_b, &mut rng).unwrap(), &mut rng).unwrap();
    assert_eq!(PublicKeyShare::aggregate(vec![pk_a, pk_b]).err(), Some(Error::ParametersMismatch));

    let crp_a = generate_crp_vec(&par_a, &mut rng).unwrap();
    let crp_b = generate_crp_vec(&par_b, &mut rng).unwrap();
    let r1_a = RelinKeyGenerator::new(&sk_a, &crp_a, &mut rng).unwrap().round_1(&mut rng).unwrap();
    let r1_b = RelinKeyGenerator::new(&sk_b, &crp_b, &mut rng).unwrap().round_1(&mut rng).unwrap();
    assert_eq!(RelinKeyShare::<R1>::aggregate(vec![r1_a, r1_b]).err(), Some(Error::ParametersMismatch));
}

#[test]
fn crp_vec_has_one_element_per_modulus() {
    let mut rng = StdRng::seed_from_u64(2);
    for n in [1usize, 3, 6] {
        let par = params(n, 8);
        let crp = generate_crp_vec(&par, &mut rng).unwrap();
        assert_eq!(crp.len(), par.moduli().len());
        for p in &crp {
            assert_eq!(p.rows().len(), n);
            for (row, q) in p.rows().iter().zip(par.moduli()) {
                assert_eq!(row.len(), 8);
                assert!(row.iter().all(|x| x < q));
            }
        }
        let again = generate_crp_vec(&par, &mut rng).unwrap();
        assert_ne!(crp[0].rows(), again[0].rows());
    }
}

#[test]
fn crp_leveled_rejects_missing_level() {
    let mut rng = StdRng::seed_from_u64(3);
    let par = params(3, 8);
    assert_eq!(generate_crp_leveled(&par, 3, &mut rng).err(), Some(Error::InvalidLevel(3)));
    let p = generate_crp_leveled(&par, 2, &mut rng).unwrap();
    assert_eq!(p.rows().len(), 1);
}

#[test]
fn public_key_switch_share_rejects_mismatched_parameters() {
    let mut rng = StdRng::seed_from_u64(4);
    let par_a = params(1, 8);
    let par_b = BfvParameters::new(8, moduli_for(1, 8), PLAINTEXT, 3).unwrap();
    let ctxs_a = contexts(&par_a);
    let (sks_a, pk_a) = parties_with_key(&par_a, &mut rng);
    let (sks_b, pk_b) = parties_with_key(&par_b, &mut rng);
    let ct_a = encrypt(&pk_a, &[1, 2, 3], 0, &ctxs_a, &mut rng);
    let mismatch = Some(Error::ParametersMismatch);
    assert_eq!(PublicKeySwitchShare::new(&sks_b[0], &pk_a, &ct_a, &mut rng).err(), mismatch);
    assert_eq!(PublicKeySwitchShare::new(&sks_a[0], &pk_b, &ct_a, &mut rng).err(), mismatch);
    assert!(PublicKeySwitchShare::new(&sks_a[0], &pk_a, &ct_a, &mut rng).is_ok());
}

#[test]
fn relin_key_two_rounds() {
    let mut rng = StdRng::seed_from_u64(5);
    let par = params(3, 8);
    let moduli = par.moduli().clone();
    let crp = generate_crp_vec(&par, &mut rng).unwrap();
    let sks: Vec<SecretKey> = (0..NUM_PARTIES).map(|_| random_secret(&par, &mut rng)).collect();
    let gens: Vec<RelinKeyGenerator> = sks.iter().map(|sk| RelinKeyGenerator::new(sk, &crp, &mut rng).unwrap()).collect();
    let r1: Vec<RelinKeyShare<R1>> = gens.iter().map(|g| g.round_1(&mut rng).unwrap()).collect();
    let r1_agg = RelinKeyShare::<R1>::aggregate(r1).unwrap();
    assert_eq!(r1_agg.h0().len(), 3);
    let r2: Vec<RelinKeyShare<R2>> = gens.iter().map(|g| g.round_2(&r1_agg, &mut rng).unwrap()).collect();
    let mut expected: Vec<Poly> = (0..3).map(|i| r2[0].h0()[i].add(&r2[0].h1()[i], &moduli)).collect();
    for sh in &r2[1..] {
        for i in 0..3 {
            expected[i] = expected[i].add(&sh.h0()[i].add(&sh.h1()[i], &moduli), &moduli);
        }
    }
    let rk = RelinKeyShare::<R2>::aggregate(r2).unwrap();
    let ksk = rk.ksk();
    assert_eq!(ksk.c0().len(), 3);
    assert_eq!(ksk.ciphertext_level(), 0);
    for i in 0..3 {
        assert_eq!(ksk.c0()[i].rows(), expected[i].rows());
        assert_eq!(ksk.c1()[i].rows(), r1_agg.h1()[i].rows());
    }
}

#[test]
fn relin_generator_rejects_short_crp() {
    let mut rng = StdRng::seed_from_u64(6);
    let par = params(3, 8);
    let sk = random_secret(&par, &mut rng);
    let crp = vec![generate_crp(&par, &mut rng).unwrap()];
    assert_eq!(RelinKeyGenerator::new(&sk, &crp, &mut rng).err(), Some(Error::CrpLengthMismatch(1, 3)));
}

#[test]
fn threshold_decryption_recovers_plaintext() {
    let mut rng = StdRng::seed_from_u64(8);
    let par = params(2, 8);
    let ctxs = contexts(&par);
    let (sks, pk) = parties_with_key(&par, &mut rng);
    for level in 0..=par.max_level() {
        let m: Vec<u64> = (0..8).map(|_| rng.random_range(0..PLAINTEXT)).collect();
        let ct = encrypt(&pk, &m, level, &ctxs, &mut rng);
        let shares = sks.iter().map(|sk| DecryptionShare::new(sk, &ct, &mut rng).unwrap()).collect();
        let x = DecryptionShare::aggregate(shares).unwrap();
        let moduli = par.ctx_at_level(level).unwrap();
        assert_eq!(decode(&x, &moduli, &ctxs[level]), m);
    }
}

#[test]
fn secret_key_switch_then_decrypt() {
    let mut rng = StdRng::seed_from_u64(9);
    let par = params(2, 8);
    let ctxs = contexts(&par);
    let (sks, pk) = parties_with_key(&par, &mut rng);
    let m: Vec<u64> = (0..8).map(|_| rng.random_range(0..PLAINTEXT)).collect();
    let ct = encrypt(&pk, &m, 0, &ctxs, &mut rng);
    let sk_out = random_secret(&par, &mut rng);
    let zero = SecretKey::new(vec![], &par);
    let shares = sks
        .iter()
        .enumerate()
        .map(|(i, sk)| SecretKeySwitchShare::new(sk, if i == 0 { &sk_out } else { &zero }, &ct, &mut rng).unwrap())
        .collect();
    let ct2 = SecretKeySwitchShare::aggregate(shares).unwrap();
    assert_eq!(decrypt(&sk_out, &ct2, &ctxs), m);
}

#[test]
fn ciphertext_needs_two_components() {
    let par = params(1, 8);
    let p = Poly::from_rows(vec![vec![0u64; 8]]);
    assert_eq!(Ciphertext::new(vec![p.duplicate()], &par).err(), Some(Error::ShapeMismatch));
    let short = Poly::from_rows(vec![vec![0u64; 7]]);
    assert_eq!(Ciphertext::new(vec![p.duplicate(), short], &par).err(), Some(Error::ShapeMismatch));
    let ct = Ciphertext::new(vec![p.duplicate(), p], &par).unwrap();
    assert_eq!(ct.level(), 0);
}

#[test]
fn parameters_reject_bad_variance_and_moduli() {
    assert!(BfvParameters::new(8, moduli_for(1, 8), PLAINTEXT, 0).is_err());
    assert!(BfvParameters::new(8, moduli_for(1, 8), PLAINTEXT, 17).is_err());
    assert!(matches!(BfvParameters::new(8, vec![15], PLAINTEXT, 3), Err(Error::MathError(_))));
    assert!(matches!(BfvParameters::new(6, moduli_for(1, 8), PLAINTEXT, 3), Err(Error::MathError(_))));
    let par = params(3, 8);
    assert_eq!(par.max_level(), 2);
    assert_eq!(par.ctx_at_level(3).err(), Some(Error::InvalidLevel(3)));
    assert_eq!(par.ctx_at_level(1).unwrap(), par.moduli()[..2].to_vec());
}

#[test]
fn ring_operations_exact_values() {
    let moduli = vec![17u64, 13];
    let a = Poly::from_rows(vec![vec![16, 5], vec![12, 0]]);
    let b = Poly::from_rows(vec![vec![3, 5], vec![12, 7]]);
    assert_eq!(a.add(&b, &moduli).rows(), &vec![vec![2, 10], vec![11, 7]]);
    assert_eq!(a.sub(&b, &moduli).rows(), &vec![vec![13, 0], vec![0, 6]]);
    assert_eq!(a.mul(&b, &moduli).rows(), &vec![vec![14, 8], vec![1, 0]]);
    assert_eq!(a.neg(&moduli).rows(), &vec![vec![1, 12], vec![1, 0]]);
    assert_eq!(a.scale(&vec![1, 0], &moduli).rows(), &vec![vec![16, 5], vec![0, 0]]);
    let big = Poly::from_rows(vec![vec![u64::MAX]]);
    let q = vec![(1u64 << 61) - 1];
    assert_eq!(big.mul(&big, &q).rows()[0][0], ((u64::MAX as u128 * u64::MAX as u128) % q[0] as u128) as u64);
}

#[test]
fn public_key_switches_down_levels() {
    let mut rng = StdRng::seed_from_u64(10);
    let par = params(3, 8);
    let (_, pk) = parties_with_key(&par, &mut rng);
    assert_eq!(pk.c().level(), 0);
    let pk2 = pk.switched_to_level(2).unwrap();
    assert_eq!(pk2.c().level(), 2);
    assert_eq!(pk2.c().c()[0].rows().len(), 1);
    assert_ne!(pk2.c().c()[0].rows()[0], pk.c().c()[0].rows()[0]);
    assert!(matches!(pk2.switched_to_level(1), Err(Error::InvalidLevel(1))));
    assert!(matches!(pk.switched_to_level(3), Err(Error::InvalidLevel(3))));
}

/// The coefficient form of `x`, each residue centered around zero, one row per modulus.
fn centered_rows(x: &Poly, ctx: &Arc<Context>, moduli: &[u64]) -> Vec<Vec<i64>> {
    let mut p = RqPoly::try_convert_from(x.rows().concat(), ctx, false, Representation::Ntt).unwrap();
    p.change_representation(Representation::PowerBasis);
    rows_of(&p)
        .iter()
        .zip(moduli)
        .map(|(row, q)| row.iter().map(|&c| if c > q / 2 { c as i64 - *q as i64 } else { c as i64 }).collect())
        .collect()
}

#[test]
fn public_key_share_is_small_under_its_secret() {
    let mut rng = StdRng::seed_from_u64(11);
    let par = params(2, 8);
    let ctxs = contexts(&par);
    let moduli = par.moduli().clone();
    let sk = random_secret(&par, &mut rng);
    let crp = generate_crp(&par, &mut rng).unwrap();
    let share = PublicKeyShare::new(&sk, crp.duplicate(), &mut rng).unwrap();
    let s = lifted_secret(&sk, &ctxs[0]);
    let e = share.p0_share().add(&crp.mul(&s, &moduli), &moduli);
    for row in centered_rows(&e, &ctxs[0], &moduli) {
        assert!(row.iter().all(|c| c.abs() <= 20));
    }
    assert_ne!(share.p0_share().rows(), crp.rows());
}

#[test]
fn relin_round_one_weights_secret_by_modulus() {
    let mut rng = StdRng::seed_from_u64(12);
    let par = params(3, 8);
    let ctxs = contexts(&par);
    let moduli = par.moduli().clone();
    let sk = SecretKey::new(vec![1000; 8], &par);
    let zero = Poly::from_rows(vec![vec![0u64; 8]; 3]);
    let crp = vec![zero.duplicate(), zero.duplicate(), zero];
    let generator = RelinKeyGenerator::new(&sk, &crp, &mut rng).unwrap();
    let r1 = generator.round_1(&mut rng).unwrap();
    for i in 0..3 {
        let rows = centered_rows(&r1.h0()[i], &ctxs[0], &moduli);
        for (j, row) in rows.iter().enumerate() {
            let expected = if i == j { 1000 } else { 0 };
            assert!(row.iter().all(|c| (c - expected).abs() <= 20), "h0[{}] row {}", i, j);
        }
        for row in centered_rows(&r1.h1()[i], &ctxs[0], &moduli) {
            assert!(row.iter().all(|c| c.abs() <= 20));
        }
    }
    generator.zeroize();
}

#[test]
fn aggregation_order_does_not_matter() {
    let mut rng = StdRng::seed_from_u64(13);
    let par = params(2, 8);
    let crp = generate_crp(&par, &mut rng).unwrap();
    let shares: Vec<PublicKeyShare> = (0..5)
        .map(|_| PublicKeyShare::new(&random_secret(&par, &mut rng), crp.duplicate(), &mut rng).unwrap())
        .collect();
    let forward = PublicKeyShare::aggregate(shares.iter().map(|s| s.duplicate()).collect()).unwrap();
    let backward = PublicKeyShare::aggregate(shares.iter().rev().map(|s| s.duplicate()).collect()).unwrap();
    assert_eq!(forward.c().c()[0].rows(), backward.c().c()[0].rows());
    assert_eq!(forward.c().c()[1].rows(), crp.rows());
}

#[test]
fn mod_switch_accepts_unreduced_slots() {
    let par = params(2, 8);
    let p = Poly::from_rows(vec![vec![u64::MAX; 8], vec![u64::MAX; 8]]);
    let ct = Ciphertext::new(vec![p.duplicate(), p], &par).unwrap();
    let next = ct.mod_switch_to_next_level().unwrap();
    assert_eq!(next.level(), 1);
    assert_eq!(next.c()[0].rows().len(), 1);
    assert!(next.c()[0].rows()[0].iter().all(|x| *x < par.moduli()[0]));
    assert_eq!(next.mod_switch_to_next_level().err(), Some(Error::InvalidLevel(2)));
}

#[test]
fn shares_reject_keys_longer_than_the_ring() {
    let mut rng = StdRng::seed_from_u64(14);
    let par = params(2, 8);
    let long = SecretKey::new(vec![1; 9], &par);
    let crp = generate_crp(&par, &mut rng).unwrap();
    assert_eq!(PublicKeyShare::new(&long, crp, &mut rng).err(), Some(Error::ShapeMismatch));
    let crp_vec = generate_crp_vec(&par, &mut rng).unwrap();
    assert_eq!(RelinKeyGenerator::new(&long, &crp_vec, &mut rng).err(), Some(Error::ShapeMismatch));
}

#[test]
fn reduce_exact_values() {
    let moduli = vec![17u64, 13];
    let a = Poly::from_rows(vec![vec![40, 16], vec![13, 100]]);
    assert_eq!(a.reduce(&moduli).rows(), &vec![vec![6, 16], vec![0, 9]]);
}
