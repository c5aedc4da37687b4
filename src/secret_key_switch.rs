//! Secret key switching and threshold decryption, one round: each party
//! contributes `(s_in - s_out) * c1 + e`; the sum, added to `c0`, re-keys the
//! ciphertext, or with no output key yields the noisy scaled plaintext.
use vstd::prelude::*;
use crate::aggregate::Aggregate;
use crate::bfv::{components_ok, fits, level_moduli, params_ok, views, BfvParameters, Ciphertext, CtView, ParamsView, SecretKey};
use crate::errors::Error;
use crate::math::{ntt_lift, small_noise};
use crate::ring::{poly_reduce, lemma_ops_shaped, lemma_sum_step, poly_add, poly_fma, poly_mul, poly_sub, poly_sum, shaped, Poly};
use rand::rngs::StdRng;

verus! {

/// What a secret-key-switch share discloses.
pub struct SksShareView {
    pub par: ParamsView,
    pub level: nat,
    pub c0: Seq<Seq<u64>>,
    pub c1: Seq<Seq<u64>>,
    pub h_share: Seq<Seq<u64>>,
}

/// One party's contribution `(s_in - s_out) * c1 + e` to switching the
/// ciphertext `(c0, c1)` from the input key to the output key.
pub struct SecretKeySwitchShare {
    par: BfvParameters,
    level: usize,
    c0: Poly,
    c1: Poly,
    h_share: Poly,
}

impl View for SecretKeySwitchShare {
    type V = SksShareView;

    closed spec fn view(&self) -> SksShareView {
        SksShareView { par: self.par@, level: self.level as nat, c0: self.c0@, c1: self.c1@, h_share: self.h_share@ }
    }
}

/// The `h` shares of a list of secret-key-switch shares.
pub open spec fn h_shares(shares: Seq<SecretKeySwitchShare>) -> Seq<Seq<Seq<u64>>> {
    shares.map_values(|s: SecretKeySwitchShare| s@.h_share)
}

/// `h == (s_in - s_out) * c1 + e` at `level` for some small noise `e`, with
/// `c1` taken reduced.
pub open spec fn switch_share_value(
    h: Seq<Seq<u64>>,
    s_in: Seq<i64>,
    s_out: Seq<i64>,
    c1: Seq<Seq<u64>>,
    par: ParamsView,
    level: nat,
) -> bool {
    let m = level_moduli(par, level);
    exists|e: Seq<Seq<u64>>| #[trigger] small_noise(e, m, par.degree, par.variance)
        && h == poly_fma(
            poly_sub(ntt_lift(m, par.degree, s_in), ntt_lift(m, par.degree, s_out), m),
            poly_reduce(c1, m),
            e,
            m,
        )
}

impl SecretKeySwitchShare {
    #[verifier::type_invariant]
    closed spec fn inv(self) -> bool {
        &&& params_ok(self.par@)
        &&& fits(self.c0@, self.par@, self.level as nat)
        &&& fits(self.c1@, self.par@, self.level as nat)
        &&& fits(self.h_share@, self.par@, self.level as nat)
    }

    /// The share `(s_in - s_out) * c1 + e` of the party holding both key
    /// shares, for the two-component ciphertext `ct`, with fresh small noise
    /// `e`. The keys and the ciphertext must share one parameter set, and the
    /// keys hold at most `degree` coefficients.
    pub fn new(sk_input_share: &SecretKey, sk_output_share: &SecretKey, ct: &Ciphertext, rng: &mut StdRng) -> (r: Result<SecretKeySwitchShare, Error>)
        ensures
            sk_input_share@.par != ct@.par || sk_output_share@.par != ct@.par ==> r == Err::<SecretKeySwitchShare, Error>(
                Error::ParametersMismatch,
            ),
            sk_input_share@.par == ct@.par && sk_output_share@.par == ct@.par ==> (r is Ok <==> ct@.c.len() == 2
                && sk_input_share@.coeffs.len() <= ct@.par.degree && sk_output_share@.coeffs.len() <= ct@.par.degree),
            r is Err ==> *final(rng) == *old(rng),
            r is Err ==> r->Err_0 is ParametersMismatch || r->Err_0 is ShapeMismatch,
            sk_input_share@.par == ct@.par && sk_output_share@.par == ct@.par && r is Err ==> r
                == Err::<SecretKeySwitchShare, Error>(Error::ShapeMismatch),
            r matches Ok(sh) ==> sh@.par == ct@.par && sh@.level == ct@.level && sh@.c0 == ct@.c[0] && sh@.c1
                == ct@.c[1],
            r matches Ok(sh) ==> switch_share_value(sh@.h_share, sk_input_share@.coeffs, sk_output_share@.coeffs, ct@.c[1], ct@.par, ct@.level),
    {
        if !sk_input_share.par().same(ct.par()) || !sk_output_share.par().same(ct.par()) {
            return Err(Error::ParametersMismatch);
        }
        let c = ct.c();
        let par = ct.par();
        let degree = par.degree();
        if c.len() != 2 || sk_input_share.coeffs().len() > degree || sk_output_share.coeffs().len() > degree {
            return Err(Error::ShapeMismatch);
        }
        let level = ct.level();
        let moduli = par.ctx_at_level(level)?;
        let ghost m = moduli@;
        let ghost d = degree as nat;
        assert(level_moduli(par@, level as nat).len() == m.len());
        assert(views(c@)[0] == c@[0]@ && views(c@)[1] == c@[1]@);
        assert(fits(views(c@)[0], par@, level as nat) && fits(views(c@)[1], par@, level as nat));
        let mut s_in = par.lift_at(level, sk_input_share.coeffs());
        let mut s_out = par.lift_at(level, sk_output_share.coeffs());
        let mut e = par.noise_at(level, rng);
        let ghost ev = e@;
        let ctx = par.context(level);
        let c1 = par.reduce_at(level, &c[1]);
        let mut s_diff = s_in.sub_secret(&s_out, ctx);
        let h_share = s_diff.mul_add(&c1, &e, ctx);
        assert(small_noise(ev, m, d, par@.variance));
        s_in.zeroize();
        s_out.zeroize();
        s_diff.zeroize();
        e.zeroize();
        Ok(SecretKeySwitchShare { par: par.duplicate(), level, c0: c[0].duplicate(), c1: c[1].duplicate(), h_share })
    }

    /// The parameters of the share.
    pub fn par(&self) -> (r: &BfvParameters)
        ensures
            r@ == self@.par,
    {
        &self.par
    }

    /// The share `(s_in - s_out) * c1 + e`.
    pub fn h_share(&self) -> (r: &Poly)
        ensures
            r@ == self@.h_share,
    {
        &self.h_share
    }
}

/// Checks that all shares agree, then sums their `h` shares.
fn sum_shares(shares: &Vec<SecretKeySwitchShare>) -> (r: Result<Poly, Error>)
    requires
        shares@.len() >= 1,
    ensures
        r is Ok <==> SecretKeySwitchShare::shares_agree(shares@),
        r is Err ==> r == Err::<Poly, Error>(Error::ParametersMismatch),
        r matches Ok(h) ==> h@ == poly_sum(h_shares(shares@), level_moduli(shares@[0]@.par, shares@[0]@.level)),
        r matches Ok(h) ==> fits(h@, shares@[0]@.par, shares@[0]@.level),
{
    let first = &shares[0];
    proof {
        use_type_invariant(first);
    }
    let mut k: usize = 1;
    while k < shares.len()
        invariant
            1 <= k <= shares@.len(),
            first == shares@[0],
            forall|j: int| #![trigger shares@[j]] 0 <= j < k ==> shares@[j]@.par == first@.par
                && shares@[j]@.level == first@.level,
        decreases shares.len() - k,
    {
        if !shares[k].par.same(&first.par) || shares[k].level != first.level {
            let ghost bad = shares@[k as int];
            assert(!SecretKeySwitchShare::shares_agree(shares@));
            return Err(Error::ParametersMismatch);
        }
        k = k + 1;
    }
    let moduli = first.par.ctx_at_level(first.level)?;
    let degree = first.par.degree();
    let ghost hs = h_shares(shares@);
    let ghost m = moduli@;
    let mut h = first.h_share.duplicate();
    assert(hs.subrange(0, 1) =~= seq![hs[0]]);
    let mut k: usize = 1;
    while k < shares.len()
        invariant
            1 <= k <= shares@.len(),
            first == shares@[0],
            moduli@ == m,
            m == level_moduli(first@.par, first@.level),
            crate::ring::moduli_ok(m),
            degree == first@.par.degree,
            first@.level < first@.par.moduli.len(),
            hs == h_shares(shares@),
            forall|j: int| #![trigger shares@[j]] 0 <= j < shares@.len() ==> shares@[j]@.par == first@.par
                && shares@[j]@.level == first@.level,
            h@ == poly_sum(hs.subrange(0, k as int), m),
            shaped(h@, m.len(), degree as nat),
        decreases shares.len() - k,
    {
        let sh = &shares[k];
        proof {
            use_type_invariant(sh);
            assert(sh@.par == first@.par && sh@.level == first@.level);
            lemma_sum_step(hs, k as int, m);
            lemma_ops_shaped(h@, sh@.h_share, Seq::empty(), m, m.len(), degree as nat);
        }
        h = h.add(&sh.h_share, &moduli);
        k = k + 1;
    }
    assert(hs.subrange(0, shares@.len() as int) =~= hs);
    Ok(h)
}

impl Aggregate for SecretKeySwitchShare {
    type Output = Ciphertext;

    open spec fn shares_agree(shares: Seq<Self>) -> bool {
        forall|k: int| #![trigger shares[k]] 0 <= k < shares.len() ==> shares[k]@.par == shares[0]@.par
            && shares[k]@.level == shares[0]@.level
    }

    /// The switched ciphertext is `(c0 + sum of h, c1)`.
    open spec fn aggregate_spec(shares: Seq<Self>, r: Result<Ciphertext, Error>) -> bool {
        let m = level_moduli(shares[0]@.par, shares[0]@.level);
        shares.len() > 0 && Self::shares_agree(shares) ==> (r matches Ok(ct) && ct@ == (CtView {
            par: shares[0]@.par,
            level: shares[0]@.level,
            c: seq![poly_add(shares[0]@.c0, poly_sum(h_shares(shares), m), m), shares[0]@.c1],
        }))
    }

    fn aggregate(shares: Vec<Self>) -> (r: Result<Ciphertext, Error>) {
        if shares.len() == 0 {
            return Err(Error::TooFewValues(0, 1));
        }
        let h = sum_shares(&shares)?;
        let first = &shares[0];
        proof {
            use_type_invariant(first);
        }
        let moduli = first.par.ctx_at_level(first.level)?;
        let ghost m = moduli@;
        let c0 = first.c0.add(&h, &moduli);
        proof {
            lemma_ops_shaped(first@.c0, h@, Seq::empty(), m, m.len(), first@.par.degree);
        }
        let c1 = first.c1.duplicate();
        let ghost c0_view = c0@;
        let ghost c1_view = c1@;
        let c = vec![c0, c1];
        assert(views(c@) =~= seq![c0_view, c1_view]);
        assert(components_ok(views(c@), first@.par));
        Ciphertext::new(c, &first.par)
    }
}

/// One party's contribution `s * c1 + e` to decrypting `(c0, c1)` under the
/// sum of the parties' secret shares.
pub struct DecryptionShare {
    sks_share: SecretKeySwitchShare,
}

impl View for DecryptionShare {
    type V = SksShareView;

    closed spec fn view(&self) -> SksShareView {
        self.sks_share@
    }
}

impl DecryptionShare {
    /// The share of the party holding `sk_input_share`: a key switch of `ct`
    /// to the zero key.
    pub fn new(sk_input_share: &SecretKey, ct: &Ciphertext, rng: &mut StdRng) -> (r: Result<DecryptionShare, Error>)
        ensures
            sk_input_share@.par != ct@.par ==> r == Err::<DecryptionShare, Error>(Error::ParametersMismatch),
            sk_input_share@.par == ct@.par && ct@.c.len() != 2 ==> r == Err::<DecryptionShare, Error>(
                Error::ShapeMismatch,
            ),
            sk_input_share@.par == ct@.par ==> (r is Ok <==> ct@.c.len() == 2 && sk_input_share@.coeffs.len()
                <= ct@.par.degree),
            r is Err ==> *final(rng) == *old(rng),
            r is Err ==> r->Err_0 is ParametersMismatch || r->Err_0 is ShapeMismatch,
            r matches Ok(sh) ==> sh@.par == ct@.par && sh@.level == ct@.level && sh@.c0 == ct@.c[0],
            r matches Ok(sh) ==> switch_share_value(sh@.h_share, sk_input_share@.coeffs, Seq::empty(), ct@.c[1], ct@.par, ct@.level),
    {
        if !sk_input_share.par().same(ct.par()) {
            return Err(Error::ParametersMismatch);
        }
        let zero = SecretKey::new(Vec::new(), ct.par());
        assert(zero@.coeffs =~= Seq::<i64>::empty());
        let sks_share = SecretKeySwitchShare::new(sk_input_share, &zero, ct, rng)?;
        Ok(DecryptionShare { sks_share })
    }

    /// The share `s * c1 + e`.
    pub fn h_share(&self) -> (r: &Poly)
        ensures
            r@ == self@.h_share,
    {
        self.sks_share.h_share()
    }
}

impl Aggregate for DecryptionShare {
    type Output = Poly;

    open spec fn shares_agree(shares: Seq<Self>) -> bool {
        forall|k: int| #![trigger shares[k]] 0 <= k < shares.len() ==> shares[k]@.par == shares[0]@.par
            && shares[k]@.level == shares[0]@.level
    }

    /// The scaled plaintext with noise, `c0 + sum of (s * c1 + e)`, in
    /// evaluation representation at the ciphertext's level.
    open spec fn aggregate_spec(shares: Seq<Self>, r: Result<Poly, Error>) -> bool {
        let m = level_moduli(shares[0]@.par, shares[0]@.level);
        shares.len() > 0 && Self::shares_agree(shares) ==> (r matches Ok(p) && p@ == poly_add(
            shares[0]@.c0,
            poly_sum(shares.map_values(|s: DecryptionShare| s@.h_share), m),
            m,
        ))
    }

    fn aggregate(shares: Vec<Self>) -> (r: Result<Poly, Error>) {
        if shares.len() == 0 {
            return Err(Error::TooFewValues(0, 1));
        }
        let mut sks: Vec<SecretKeySwitchShare> = Vec::with_capacity(shares.len());
        let mut k: usize = 0;
        while k < shares.len()
            invariant
                k <= shares@.len(),
                sks@.len() == k,
                forall|j: int| 0 <= j < k ==> #[trigger] sks@[j]@ == shares@[j]@,
            decreases shares.len() - k,
        {
            let sh = &shares[k].sks_share;
            proof {
                use_type_invariant(sh);
            }
            sks.push(SecretKeySwitchShare {
                par: sh.par.duplicate(),
                level: sh.level,
                c0: sh.c0.duplicate(),
                c1: sh.c1.duplicate(),
                h_share: sh.h_share.duplicate(),
            });
            k = k + 1;
        }
        proof {
            if !Self::shares_agree(shares@) {
                let j = choose|j: int| #![trigger shares@[j]] 0 <= j < shares@.len() && !(shares@[j]@.par == shares@[0]@.par
                    && shares@[j]@.level == shares@[0]@.level);
                assert(sks@[j]@ == shares@[j]@);
                assert(!SecretKeySwitchShare::shares_agree(sks@));
            } else {
                assert forall|j: int| #![trigger sks@[j]] 0 <= j < sks@.len() implies sks@[j]@.par == sks@[0]@.par
                    && sks@[j]@.level == sks@[0]@.level by {
                    assert(sks@[j]@ == shares@[j]@);
                }
            }
            assert(h_shares(sks@) =~= shares@.map_values(|s: DecryptionShare| s@.h_share));
        }
        let h = sum_shares(&sks)?;
        let first = &sks[0];
        proof {
            use_type_invariant(first);
        }
        let moduli = first.par.ctx_at_level(first.level)?;
        Ok(first.c0.add(&h, &moduli))
    }
}

} // verus!
