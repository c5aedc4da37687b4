//! Public key switching, one round: re-encrypts a ciphertext under a new
//! collective public key without any party seeing the plaintext.
use vstd::prelude::*;
use crate::aggregate::Aggregate;
use crate::bfv::{switch_to, components_ok, fits, level_moduli, params_ok, views, BfvParameters, Ciphertext, CtView, ParamsView, PublicKey, SecretKey};
use crate::errors::Error;
use crate::math::{ntt_lift, small_noise};
use crate::ring::{poly_reduce, lemma_ops_shaped, lemma_sum_step, poly_add, poly_fma, poly_fma2, poly_mul, poly_sum, shaped, Poly};
use rand::rngs::StdRng;

verus! {

/// What a public-key-switch share discloses.
pub struct PksShareView {
    pub par: ParamsView,
    pub level: nat,
    pub c0: Seq<Seq<u64>>,
    pub h0_share: Seq<Seq<u64>>,
    pub h1_share: Seq<Seq<u64>>,
}

/// One party's contribution `(h0, h1) = (pk0 * u + s * c1 + e0, pk1 * u + e1)`
/// to switching the ciphertext `(c0, c1)` to the public key `(pk0, pk1)`.
pub struct PublicKeySwitchShare {
    par: BfvParameters,
    level: usize,
    c0: Poly,
    h0_share: Poly,
    h1_share: Poly,
}

impl View for PublicKeySwitchShare {
    type V = PksShareView;

    closed spec fn view(&self) -> PksShareView {
        PksShareView {
            par: self.par@,
            level: self.level as nat,
            c0: self.c0@,
            h0_share: self.h0_share@,
            h1_share: self.h1_share@,
        }
    }
}

/// The `h0` shares of a list of key-switch shares.
pub open spec fn h0_shares(shares: Seq<PublicKeySwitchShare>) -> Seq<Seq<Seq<u64>>> {
    shares.map_values(|s: PublicKeySwitchShare| s@.h0_share)
}

/// The `h1` shares of a list of key-switch shares.
pub open spec fn h1_shares(shares: Seq<PublicKeySwitchShare>) -> Seq<Seq<Seq<u64>>> {
    shares.map_values(|s: PublicKeySwitchShare| s@.h1_share)
}

impl PublicKeySwitchShare {
    #[verifier::type_invariant]
    closed spec fn inv(self) -> bool {
        &&& params_ok(self.par@)
        &&& fits(self.c0@, self.par@, self.level as nat)
        &&& fits(self.h0_share@, self.par@, self.level as nat)
        &&& fits(self.h1_share@, self.par@, self.level as nat)
    }

    /// The parameters of the share.
    pub fn par(&self) -> (r: &BfvParameters)
        ensures
            r@ == self@.par,
    {
        &self.par
    }

    /// The level of the ciphertext being switched.
    pub fn level(&self) -> (r: usize)
        ensures
            r == self@.level,
    {
        self.level
    }

    /// The first component of the ciphertext being switched.
    pub fn c0(&self) -> (r: &Poly)
        ensures
            r@ == self@.c0,
    {
        &self.c0
    }

    /// The share `pk0 * u + s * c1 + e0`.
    pub fn h0_share(&self) -> (r: &Poly)
        ensures
            r@ == self@.h0_share,
    {
        &self.h0_share
    }

    /// The share `pk1 * u + e1`.
    pub fn h1_share(&self) -> (r: &Poly)
        ensures
            r@ == self@.h1_share,
    {
        &self.h1_share
    }

    /// The share of the party holding `sk_share` in switching `ct` to
    /// `public_key`: `h0 = pk0 * u + s * c1 + e0` and `h1 = pk1 * u + e1`, with
    /// `(pk0, pk1)` the key switched down to the ciphertext's level, `s` the
    /// lift of the secret, and fresh small `u`, `e0`, `e1`. The three inputs
    /// must share one parameter set, checked before anything is computed.
    pub fn new(sk_share: &SecretKey, public_key: &PublicKey, ct: &Ciphertext, rng: &mut StdRng) -> (r: Result<PublicKeySwitchShare, Error>)
        ensures
            sk_share@.par != public_key@.par || public_key@.par != ct@.par ==> r == Err::<PublicKeySwitchShare, Error>(
                Error::ParametersMismatch,
            ),
            sk_share@.par == public_key@.par && public_key@.par == ct@.par ==> (r is Ok <==> public_key@.level
                <= ct@.level && sk_share@.coeffs.len() <= ct@.par.degree),
            r is Err ==> *final(rng) == *old(rng),
            r is Err ==> r->Err_0 is ParametersMismatch || r->Err_0 is InvalidLevel || r->Err_0 is ShapeMismatch,
            r matches Ok(sh) ==> sh@.par == ct@.par && sh@.level == ct@.level && sh@.c0 == ct@.c[0],
            r matches Ok(sh) ==> key_switch_share(
                sh@,
                switch_to(public_key@.c[0], ct@.par, public_key@.level, ct@.level),
                switch_to(public_key@.c[1], ct@.par, public_key@.level, ct@.level),
                ntt_lift(level_moduli(ct@.par, ct@.level), ct@.par.degree, sk_share@.coeffs),
                ct@.c[1],
            ),
    {
        if !sk_share.par().same(public_key.c().par()) || !public_key.c().par().same(ct.par()) {
            return Err(Error::ParametersMismatch);
        }
        let level = ct.level();
        let par = ct.par();
        if sk_share.coeffs().len() > par.degree() {
            return Err(Error::ShapeMismatch);
        }
        let pk = public_key.switched_to_level(level)?;
        let pk_ct = pk.c();
        let moduli = par.ctx_at_level(level)?;
        let degree = par.degree();
        let ghost m = moduli@;
        let ghost d = degree as nat;
        let mut s = par.lift_at(level, sk_share.coeffs());
        let mut u = par.noise_at(level, rng);
        let mut e0 = par.noise_at(level, rng);
        let mut e1 = par.noise_at(level, rng);
        let pkc = pk_ct.c();
        let ctc = ct.c();
        assert(level_moduli(par@, level as nat).len() == m.len());
        assert(fits(pkc@[0]@, par@, level as nat) && fits(pkc@[1]@, par@, level as nat)) by {
            assert(views(pkc@)[0] == pkc@[0]@);
            assert(views(pkc@)[1] == pkc@[1]@);
        }
        assert(fits(ctc@[0]@, par@, level as nat) && fits(ctc@[1]@, par@, level as nat)) by {
            assert(views(ctc@)[0] == ctc@[0]@);
            assert(views(ctc@)[1] == ctc@[1]@);
        }
        let c = par.context(level);
        let c1 = par.reduce_at(level, &ctc[1]);
        let pk0 = par.reduce_at(level, &pkc[0]);
        let pk1 = par.reduce_at(level, &pkc[1]);
        let mut s_c1 = s.mul_secret(&c1, c);
        let h0_share = pk0.mul_add2(&u, &s_c1, &e0, c);
        let h1_share = pk1.mul_add(&u, &e1, c);
        let ghost (uv, e0v, e1v) = (u@, e0@, e1@);
        proof {
            assert(views(ctc@)[1] == ctc@[1]@);
            assert(views(pkc@)[0] == pkc@[0]@);
            assert(views(pkc@)[1] == pkc@[1]@);
        }
        s.zeroize();
        s_c1.zeroize();
        u.zeroize();
        e0.zeroize();
        e1.zeroize();
        let c0 = ctc[0].duplicate();
        let sh = PublicKeySwitchShare { par: par.duplicate(), level, c0, h0_share, h1_share };
        assert(small_noise(uv, m, d, par@.variance) && small_noise(e0v, m, d, par@.variance) && small_noise(e1v, m, d, par@.variance));
        assert(sh@.h0_share == poly_fma2(poly_reduce(pkc@[0]@, m), uv, poly_mul(ntt_lift(m, d, sk_share@.coeffs), poly_reduce(ct@.c[1], m), m), e0v, m));
        assert(sh@.h1_share == poly_fma(poly_reduce(pkc@[1]@, m), uv, e1v, m));
        Ok(sh)
    }
}

/// The values of a key-switch share: `h0 = pk0 * u + s * c1 + e0` and
/// `h1 = pk1 * u + e1` for some small `u`, `e0` and `e1`, with the public
/// inputs taken reduced.
pub open spec fn key_switch_share(
    sh: PksShareView,
    pk0: Seq<Seq<u64>>,
    pk1: Seq<Seq<u64>>,
    s: Seq<Seq<u64>>,
    c1: Seq<Seq<u64>>,
) -> bool {
    let m = level_moduli(sh.par, sh.level);
    let d = sh.par.degree;
    let v = sh.par.variance;
    exists|u: Seq<Seq<u64>>, e0: Seq<Seq<u64>>, e1: Seq<Seq<u64>>|
        #![trigger small_noise(u, m, d, v), small_noise(e0, m, d, v), small_noise(e1, m, d, v)]
        small_noise(u, m, d, v) && small_noise(e0, m, d, v) && small_noise(e1, m, d, v)
        && sh.h0_share == poly_fma2(poly_reduce(pk0, m), u, poly_mul(s, poly_reduce(c1, m), m), e0, m)
        && sh.h1_share == poly_fma(poly_reduce(pk1, m), u, e1, m)
}

impl Aggregate for PublicKeySwitchShare {
    type Output = Ciphertext;

    open spec fn shares_agree(shares: Seq<Self>) -> bool {
        forall|k: int| #![trigger shares[k]] 0 <= k < shares.len() ==> shares[k]@.par == shares[0]@.par
            && shares[k]@.level == shares[0]@.level
    }

    /// The switched ciphertext is `(c0 + sum of h0, sum of h1)`.
    open spec fn aggregate_spec(shares: Seq<Self>, r: Result<Ciphertext, Error>) -> bool {
        let m = level_moduli(shares[0]@.par, shares[0]@.level);
        shares.len() > 0 && Self::shares_agree(shares) ==> (r matches Ok(ct) && ct@ == (CtView {
            par: shares[0]@.par,
            level: shares[0]@.level,
            c: seq![poly_add(shares[0]@.c0, poly_sum(h0_shares(shares), m), m), poly_sum(h1_shares(shares), m)],
        }))
    }

    fn aggregate(shares: Vec<Self>) -> (r: Result<Ciphertext, Error>) {
        if shares.len() == 0 {
            return Err(Error::TooFewValues(0, 1));
        }
        let first = &shares[0];
        proof {
            use_type_invariant(first);
        }
        let mut k: usize = 1;
        while k < shares.len()
            invariant
                1 <= k <= shares@.len(),
                first == shares@[0],
                forall|j: int| #![trigger shares@[j]] 0 <= j < k ==> shares@[j]@.par == first@.par
                    && shares@[j]@.level == first@.level,
            decreases shares.len() - k,
        {
            if !shares[k].par.same(&first.par) || shares[k].level != first.level {
                assert(!(shares@[k as int]@.par == shares@[0]@.par && shares@[k as int]@.level == shares@[0]@.level));
                let ghost bad = shares@[k as int];
                assert(!Self::shares_agree(shares@));
                return Err(Error::ParametersMismatch);
            }
            k = k + 1;
        }
        let moduli = first.par.ctx_at_level(first.level)?;
        let degree = first.par.degree();
        let ghost p0 = h0_shares(shares@);
        let ghost p1 = h1_shares(shares@);
        let ghost m = moduli@;
        let mut h0 = first.h0_share.duplicate();
        let mut h1 = first.h1_share.duplicate();
        assert(p0.subrange(0, 1) =~= seq![p0[0]]);
        assert(p1.subrange(0, 1) =~= seq![p1[0]]);
        let mut k: usize = 1;
        while k < shares.len()
            invariant
                1 <= k <= shares@.len(),
                first == shares@[0],
                moduli@ == m,
                m == level_moduli(first@.par, first@.level),
                crate::ring::moduli_ok(m),
                degree == first@.par.degree,
                first@.level < first@.par.moduli.len(),
                p0 == h0_shares(shares@),
                p1 == h1_shares(shares@),
                forall|j: int| #![trigger shares@[j]] 0 <= j < shares@.len() ==> shares@[j]@.par == first@.par
                    && shares@[j]@.level == first@.level,
                h0@ == poly_sum(p0.subrange(0, k as int), m),
                h1@ == poly_sum(p1.subrange(0, k as int), m),
                shaped(h0@, m.len(), degree as nat),
                shaped(h1@, m.len(), degree as nat),
            decreases shares.len() - k,
        {
            let sh = &shares[k];
            proof {
                use_type_invariant(sh);
                assert(sh@.par == first@.par && sh@.level == first@.level);
                lemma_sum_step(p0, k as int, m);
                lemma_sum_step(p1, k as int, m);
                lemma_ops_shaped(h0@, sh@.h0_share, Seq::empty(), m, m.len(), degree as nat);
                lemma_ops_shaped(h1@, sh@.h1_share, Seq::empty(), m, m.len(), degree as nat);
            }
            h0 = h0.add(&sh.h0_share, &moduli);
            h1 = h1.add(&sh.h1_share, &moduli);
            k = k + 1;
        }
        assert(p0.subrange(0, shares@.len() as int) =~= p0);
        assert(p1.subrange(0, shares@.len() as int) =~= p1);
        let c0 = first.c0.add(&h0, &moduli);
        proof {
            lemma_ops_shaped(first@.c0, h0@, Seq::empty(), m, m.len(), degree as nat);
        }
        let ghost c0_view = c0@;
        let ghost h1_view = h1@;
        let c = vec![c0, h1];
        assert(views(c@) =~= seq![c0_view, h1_view]);
        assert(components_ok(views(c@), first@.par));
        Ciphertext::new(c, &first.par)
    }
}

} // verus!
