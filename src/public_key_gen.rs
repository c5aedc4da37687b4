//! Collective public key generation, one round.
use vstd::prelude::*;
use crate::aggregate::Aggregate;
use crate::bfv::{components_ok, views, fits, level_moduli, params_ok, BfvParameters, Ciphertext, CtView, ParamsView, PublicKey, SecretKey};
use crate::errors::Error;
use crate::math::{ntt_lift, small_noise};
use crate::ring::{lemma_ops_shaped, lemma_sum_shaped, lemma_sum_step, poly_mul, poly_neg, poly_neg_fma, poly_sum, shaped, Poly};
use rand::rngs::StdRng;
use crate::ring::{lemma_sum_slot, moduli_ok, poly_add, poly_reduce, slot_total};
use vstd::arithmetic::div_mod::{
    lemma_add_mod_noop, lemma_fundamental_div_mod, lemma_mod_multiples_vanish, lemma_mod_twice,
    lemma_mul_mod_noop_right,
};

verus! {

/// What a public-key share discloses.
pub struct PkShareView {
    pub par: ParamsView,
    pub crp: Seq<Seq<u64>>,
    pub p0_share: Seq<Seq<u64>>,
}

/// One party's contribution `-(a * s) + e` to the collective public key, where
/// `a` is the common random polynomial and `s` the party's secret share.
pub struct PublicKeyShare {
    par: BfvParameters,
    crp: Poly,
    p0_share: Poly,
}

impl View for PublicKeyShare {
    type V = PkShareView;

    closed spec fn view(&self) -> PkShareView {
        PkShareView { par: self.par@, crp: self.crp@, p0_share: self.p0_share@ }
    }
}

/// The `p0` shares of a list of public-key shares.
pub open spec fn p0_shares(shares: Seq<PublicKeyShare>) -> Seq<Seq<Seq<u64>>> {
    shares.map_values(|s: PublicKeyShare| s@.p0_share)
}

impl PublicKeyShare {
    #[verifier::type_invariant]
    closed spec fn inv(self) -> bool {
        &&& params_ok(self.par@)
        &&& fits(self.crp@, self.par@, 0)
        &&& fits(self.p0_share@, self.par@, 0)
    }

    /// The parameters of the share.
    pub fn par(&self) -> (r: &BfvParameters)
        ensures
            r@ == self@.par,
    {
        &self.par
    }

    /// The common random polynomial the share was built on.
    pub fn crp(&self) -> (r: &Poly)
        ensures
            r@ == self@.crp,
    {
        &self.crp
    }

    /// The share `-(crp * s) + e`.
    pub fn p0_share(&self) -> (r: &Poly)
        ensures
            r@ == self@.p0_share,
    {
        &self.p0_share
    }

    /// An equal share.
    pub fn duplicate(&self) -> (r: PublicKeyShare)
        ensures
            r@ == self@,
    {
        proof {
            use_type_invariant(self);
        }
        PublicKeyShare { par: self.par.duplicate(), crp: self.crp.duplicate(), p0_share: self.p0_share.duplicate() }
    }

    /// The share `-(crp * s) + e` of the party holding `sk_share`, with `s` the
    /// lift of its coefficients and fresh small noise `e`; the common random
    /// polynomial must lie at level 0 and the key must have at most `degree`
    /// coefficients.
    pub fn new(sk_share: &SecretKey, crp: Poly, rng: &mut StdRng) -> (r: Result<PublicKeyShare, Error>)
        ensures
            fits(crp@, sk_share@.par, 0) && sk_share@.coeffs.len() <= sk_share@.par.degree <==> r is Ok,
            r is Err ==> r == Err::<PublicKeyShare, Error>(Error::ShapeMismatch) && *final(rng) == *old(rng),
            r matches Ok(sh) ==> sh@.par == sk_share@.par && sh@.crp == crp@,
            r matches Ok(sh) ==> exists|e: Seq<Seq<u64>>| #[trigger]
                small_noise(e, sk_share@.par.moduli, sk_share@.par.degree, sk_share@.par.variance)
                && sh@.p0_share == poly_neg_fma(
                    poly_reduce(crp@, sk_share@.par.moduli),
                    ntt_lift(sk_share@.par.moduli, sk_share@.par.degree, sk_share@.coeffs),
                    e,
                    sk_share@.par.moduli,
                ),
    {
        let par = sk_share.par();
        let moduli = par.moduli();
        let degree = par.degree();
        if !crp.has_shape(moduli.len(), degree) || sk_share.coeffs().len() > degree {
            return Err(Error::ShapeMismatch);
        }
        assert(level_moduli(par@, 0) =~= moduli@);
        let mut e = par.noise_at(0, rng);
        let mut s = par.lift_at(0, sk_share.coeffs());
        let a = par.reduce_at(0, &crp);
        let p0_share = a.neg_mul_add(&s, &e, par.context(0));
        let ghost e_view = e@;
        proof {
            assert(small_noise(e_view, moduli@, degree as nat, par@.variance));
        }
        s.zeroize();
        e.zeroize();
        Ok(PublicKeyShare { par: par.duplicate(), crp, p0_share })
    }
}

impl Aggregate for PublicKeyShare {
    type Output = PublicKey;

    open spec fn shares_agree(shares: Seq<Self>) -> bool {
        forall|k: int| 0 <= k < shares.len() ==> #[trigger] shares[k]@.par == shares[0]@.par
    }

    /// The collective key is `(sum of the p0 shares, crp)` at level 0.
    open spec fn aggregate_spec(shares: Seq<Self>, r: Result<PublicKey, Error>) -> bool {
        shares.len() > 0 && Self::shares_agree(shares) ==> (r matches Ok(pk) && pk@ == (CtView {
            par: shares[0]@.par,
            level: 0,
            c: seq![poly_sum(p0_shares(shares), shares[0]@.par.moduli), shares[0]@.crp],
        }))
    }

    fn aggregate(shares: Vec<Self>) -> (r: Result<PublicKey, Error>) {
        if shares.len() == 0 {
            return Err(Error::TooFewValues(0, 1));
        }
        let first = &shares[0];
        proof {
            use_type_invariant(first);
        }
        let mut k: usize = 1;
        while k < shares.len()
            invariant
                1 <= k <= shares@.len(),
                first == shares@[0],
                forall|j: int| 0 <= j < k ==> #[trigger] shares@[j]@.par == first@.par,
            decreases shares.len() - k,
        {
            if !shares[k].par.same(&first.par) {
                assert(shares@[k as int]@.par != shares@[0]@.par);
                return Err(Error::ParametersMismatch);
            }
            k = k + 1;
        }
        let moduli = first.par.moduli();
        let degree = first.par.degree();
        let ghost ps = p0_shares(shares@);
        let ghost m = moduli@;
        let mut acc = first.p0_share.duplicate();
        assert(ps.subrange(0, 1) =~= seq![ps[0]]);
        let mut k: usize = 1;
        while k < shares.len()
            invariant
                1 <= k <= shares@.len(),
                first == shares@[0],
                moduli@ == m,
                m == first@.par.moduli,
                degree == first@.par.degree,
                params_ok(first@.par),
                ps == p0_shares(shares@),
                forall|j: int| 0 <= j < shares@.len() ==> #[trigger] shares@[j]@.par == first@.par,
                acc@ == poly_sum(ps.subrange(0, k as int), m),
                shaped(acc@, m.len(), degree as nat),
            decreases shares.len() - k,
        {
            let sh = &shares[k];
            proof {
                use_type_invariant(sh);
                assert(sh@.par == first@.par);
                lemma_sum_step(ps, k as int, m);
                lemma_ops_shaped(acc@, sh@.p0_share, Seq::empty(), m, m.len(), degree as nat);
            }
            acc = acc.add(&sh.p0_share, moduli);
            k = k + 1;
        }
        assert(ps.subrange(0, shares@.len() as int) =~= ps);
        let crp = first.crp.duplicate();
        let ghost acc_view = acc@;
        let ghost crp_view = crp@;
        proof {
            use_type_invariant(first);
        }
        let c = vec![acc, crp];
        assert(views(c@) =~= seq![acc_view, crp_view]);
        assert(components_ok(views(c@), first@.par));
        let ct = Ciphertext::new(c, &first.par)?;
        PublicKey::from_ciphertext(ct)
    }
}

/// The public-key shares of a run, one per party.
pub open spec fn key_shares(crp: Seq<Seq<u64>>, ss: Seq<Seq<Seq<u64>>>, es: Seq<Seq<Seq<u64>>>, moduli: Seq<u64>) -> Seq<Seq<Seq<u64>>> {
    Seq::new(ss.len(), |k: int| poly_neg_fma(crp, ss[k], es[k], moduli))
}

proof fn lemma_share_slot(a: int, s: int, e: int, q: int) -> (k: int)
    requires
        q > 1,
    ensures
        ((q - (a * s) % q) % q + e) % q + a * s - e == q * k,
{
    let r = (a * s) % q;
    let nn = (q - r) % q;
    let p = (nn + e) % q;
    lemma_fundamental_div_mod(a * s, q);
    lemma_fundamental_div_mod(q - r, q);
    lemma_fundamental_div_mod(nn + e, q);
    let c = (a * s) / q;
    let b = (q - r) / q;
    let aa = (nn + e) / q;
    assert(p + a * s - e == q * (1 + c - b - aa)) by (nonlinear_arith)
        requires
            a * s == q * c + r,
            q - r == q * b + nn,
            nn + e == q * aa + p,
    ;
    1 + c - b - aa
}

proof fn lemma_shares_total(
    crp: Seq<Seq<u64>>,
    ss: Seq<Seq<Seq<u64>>>,
    es: Seq<Seq<Seq<u64>>>,
    moduli: Seq<u64>,
    n: nat,
    d: nat,
    i: int,
    j: int,
) -> (k: int)
    requires
        es.len() == ss.len(),
        moduli_ok(moduli),
        moduli.len() == n,
        shaped(crp, n, d),
        forall|t: int| 0 <= t < ss.len() ==> #[trigger] shaped(ss[t], n, d),
        forall|t: int| 0 <= t < es.len() ==> #[trigger] shaped(es[t], n, d),
        0 <= i < n,
        0 <= j < d,
    ensures
        slot_total(key_shares(crp, ss, es, moduli), i, j) + crp[i][j] as int * slot_total(ss, i, j) - slot_total(es, i, j)
            == moduli[i] as int * k,
    decreases ss.len(),
{
    let q = moduli[i] as int;
    let a = crp[i][j] as int;
    assert(moduli[i] > 1);
    let ps = key_shares(crp, ss, es, moduli);
    if ss.len() == 0 {
        assert(ps.len() == 0);
        assert(q * 0 == 0) by (nonlinear_arith);
        0
    } else {
        let l = (ss.len() - 1) as int;
        let ss0 = ss.drop_last();
        let es0 = es.drop_last();
        assert(key_shares(crp, ss0, es0, moduli) =~= ps.drop_last());
        assert forall|t: int| 0 <= t < ss0.len() implies #[trigger] shaped(ss0[t], n, d) by {
            assert(ss0[t] == ss[t]);
        }
        assert forall|t: int| 0 <= t < es0.len() implies #[trigger] shaped(es0[t], n, d) by {
            assert(es0[t] == es[t]);
        }
        let k0 = lemma_shares_total(crp, ss0, es0, moduli, n, d, i, j);
        assert(shaped(ss[l], n, d) && shaped(es[l], n, d));
        let sv = ss[l][i][j] as int;
        let ev = es[l][i][j] as int;
        let k1 = lemma_share_slot(a, sv, ev, q);
        let mv = poly_mul(crp, ss[l], moduli);
        let nv = poly_neg(mv, moduli);
        assert(ps.last() == poly_add(nv, es[l], moduli));
        assert(mv[i][j] as int == (a * sv) % q);
        assert(nv[i][j] as int == (q - mv[i][j] as int % q) % q);
        lemma_mod_twice(a * sv, q);
        assert(ps.last()[i][j] as int == ((q - (a * sv) % q) % q + ev) % q);
        let tp0 = slot_total(ps.drop_last(), i, j);
        let ts0 = slot_total(ss0, i, j);
        let te0 = slot_total(es0, i, j);
        assert(slot_total(ps, i, j) == tp0 + ps.last()[i][j] as int);
        assert(slot_total(ss, i, j) == ts0 + sv);
        assert(slot_total(es, i, j) == te0 + ev);
        assert(a * (ts0 + sv) == a * ts0 + a * sv) by (nonlinear_arith);
        assert(q * k0 + q * k1 == q * (k0 + k1)) by (nonlinear_arith);
        k0 + k1
    }
}

/// The collective key works under the summed secret: when every party's
/// share is `-(crp * s_k) + e_k`, the sum of the shares plus `crp` times the
/// sum of the secrets is the sum of the noise terms.
pub proof fn lemma_collective_key(
    crp: Seq<Seq<u64>>,
    ss: Seq<Seq<Seq<u64>>>,
    es: Seq<Seq<Seq<u64>>>,
    moduli: Seq<u64>,
    n: nat,
    d: nat,
)
    requires
        ss.len() >= 1,
        es.len() == ss.len(),
        moduli_ok(moduli),
        moduli.len() == n,
        shaped(crp, n, d),
        forall|t: int| 0 <= t < ss.len() ==> #[trigger] shaped(ss[t], n, d),
        forall|t: int| 0 <= t < es.len() ==> #[trigger] shaped(es[t], n, d),
    ensures
        poly_add(poly_sum(key_shares(crp, ss, es, moduli), moduli), poly_mul(crp, poly_sum(ss, moduli), moduli), moduli)
            == poly_reduce(poly_sum(es, moduli), moduli),
{
    let ps = key_shares(crp, ss, es, moduli);
    assert forall|t: int| 0 <= t < ps.len() implies #[trigger] shaped(ps[t], n, d) by {
        lemma_ops_shaped(crp, ss[t], Seq::empty(), moduli, n, d);
        lemma_ops_shaped(poly_mul(crp, ss[t], moduli), ss[t], Seq::empty(), moduli, n, d);
        lemma_ops_shaped(poly_neg(poly_mul(crp, ss[t], moduli), moduli), es[t], Seq::empty(), moduli, n, d);
    }
    lemma_sum_shaped(ps, moduli, n, d);
    lemma_sum_shaped(ss, moduli, n, d);
    lemma_sum_shaped(es, moduli, n, d);
    let sp = poly_sum(ps, moduli);
    let sss = poly_sum(ss, moduli);
    let se = poly_sum(es, moduli);
    let lhs = poly_add(sp, poly_mul(crp, sss, moduli), moduli);
    let rhs = poly_reduce(se, moduli);
    assert forall|i: int| 0 <= i < n implies #[trigger] lhs[i] =~= rhs[i] by {
        assert forall|j: int| 0 <= j < d implies #[trigger] lhs[i][j] == rhs[i][j] by {
            let q = moduli[i] as int;
            assert(moduli[i] > 1);
            let a = crp[i][j] as int;
            lemma_sum_slot(ps, moduli, n, d, i, j);
            lemma_sum_slot(ss, moduli, n, d, i, j);
            lemma_sum_slot(es, moduli, n, d, i, j);
            let k = lemma_shares_total(crp, ss, es, moduli, n, d, i, j);
            let p = sp[i][j] as int;
            let sv = sss[i][j] as int;
            let tp = slot_total(ps, i, j);
            let ts = slot_total(ss, i, j);
            let te = slot_total(es, i, j);
            assert(lhs[i][j] as int == (p + (a * sv) % q) % q);
            lemma_add_mod_noop(p, a * sv, q);
            lemma_add_mod_noop(p, (a * sv) % q, q);
            lemma_mod_twice(a * sv, q);
            assert(lhs[i][j] as int == (p + a * sv) % q);
            lemma_mul_mod_noop_right(a, sv, q);
            lemma_mul_mod_noop_right(a, ts, q);
            lemma_add_mod_noop(tp, a * ts, q);
            lemma_mod_multiples_vanish(k, te, q);
            assert(tp + a * ts == q * k + te);
            assert(p % q == tp % q);
            assert((a * sv) % q == (a * ts) % q);
            assert((p + a * sv) % q == (tp + a * ts) % q);
            assert(rhs[i][j] as int == (se[i][j] as int) % q);
        }
    }
    assert(lhs =~= rhs);
}

} // verus!
