//! Relinearization key generation, two rounds whose order the types enforce:
//! round-one shares aggregate into an [`R1Aggregated`] share, round two needs
//! that share, and only round-two shares aggregate into a key.
use vstd::prelude::*;
use crate::aggregate::Aggregate;
use crate::bfv::{fits, level_moduli, params_ok, views, BfvParameters, KeySwitchingKey, KskView, ParamsView, RelinearizationKey, SecretKey};
use crate::errors::Error;
use crate::math::{garner_residues, ntt_lift, reduced, small_noise};
use crate::ring::{of_context, poly_reduce, lemma_ops_shaped, lemma_sum_step, moduli_ok, poly_add, poly_fma, poly_fma2, poly_mul, poly_scale, poly_sub, poly_sum, shaped, Poly};
use crate::sealed::Sealed;
use rand::rngs::StdRng;
use std::marker::PhantomData;

verus! {

/// A round of the protocol.
pub trait Round: Sealed {}

/// Marks the shares produced in round one.
pub struct R1;

/// Marks the aggregate of the round-one shares.
pub struct R1Aggregated;

/// Marks the shares produced in round two.
pub struct R2;

impl Sealed for R1 {}

impl Sealed for R1Aggregated {}

impl Sealed for R2 {}

impl Round for R1 {}

impl Round for R1Aggregated {}

impl Round for R2 {}

/// What a relinearization key share discloses: one pair `(h0[i], h1[i])` per
/// modulus, and, in round two, the aggregated round-one pair it was built on.
pub struct RksView {
    pub par: ParamsView,
    pub h0: Seq<Seq<Seq<u64>>>,
    pub h1: Seq<Seq<Seq<u64>>>,
    pub round_one: Option<(Seq<Seq<Seq<u64>>>, Seq<Seq<Seq<u64>>>)>,
}

/// The public shares of one round of the relinearization key protocol.
pub struct RelinKeyShare<R: Round = R1> {
    par: BfvParameters,
    h0: Vec<Poly>,
    h1: Vec<Poly>,
    last_round: Option<Box<RelinKeyShare<R1Aggregated>>>,
    _round: PhantomData<R>,
}

/// One ring element at level 0 per modulus of the chain.
pub open spec fn per_modulus(v: Seq<Seq<Seq<u64>>>, par: ParamsView) -> bool {
    &&& v.len() == par.moduli.len()
    &&& forall|i: int| 0 <= i < v.len() ==> #[trigger] fits(v[i], par, 0)
}

impl<R: Round> View for RelinKeyShare<R> {
    type V = RksView;

    closed spec fn view(&self) -> RksView {
        RksView {
            par: self.par@,
            h0: views(self.h0@),
            h1: views(self.h1@),
            round_one: match self.last_round {
                Some(b) => Some((views(b.h0@), views(b.h1@))),
                None => None,
            },
        }
    }
}

impl<R: Round> RelinKeyShare<R> {
    #[verifier::type_invariant]
    closed spec fn inv(self) -> bool {
        &&& params_ok(self.par@)
        &&& per_modulus(views(self.h0@), self.par@)
        &&& per_modulus(views(self.h1@), self.par@)
    }

    /// The parameters of the share.
    pub fn par(&self) -> (r: &BfvParameters)
        ensures
            r@ == self@.par,
    {
        &self.par
    }

    /// The first components, one per modulus.
    pub fn h0(&self) -> (r: &Vec<Poly>)
        ensures
            views(r@) == self@.h0,
            per_modulus(self@.h0, self@.par),
    {
        proof {
            use_type_invariant(self);
        }
        &self.h0
    }

    /// The second components, one per modulus.
    pub fn h1(&self) -> (r: &Vec<Poly>)
        ensures
            views(r@) == self@.h1,
            per_modulus(self@.h1, self@.par),
    {
        proof {
            use_type_invariant(self);
        }
        &self.h1
    }

    /// An equal share of the same round, without its round-one link.
    fn copy_unlinked(&self) -> (r: RelinKeyShare<R>)
        ensures
            r@.par == self@.par,
            r@.h0 == self@.h0,
            r@.h1 == self@.h1,
            r@.round_one is None,
    {
        proof {
            use_type_invariant(self);
        }
        let h0 = copy_polys(&self.h0);
        let h1 = copy_polys(&self.h1);
        RelinKeyShare { par: self.par.duplicate(), h0, h1, last_round: None, _round: PhantomData }
    }
}

fn copy_polys(v: &Vec<Poly>) -> (r: Vec<Poly>)
    ensures
        views(r@) == views(v@),
{
    let mut r: Vec<Poly> = Vec::with_capacity(v.len());
    let mut k: usize = 0;
    while k < v.len()
        invariant
            k <= v@.len(),
            r@.len() == k,
            forall|j: int| 0 <= j < k ==> #[trigger] r@[j]@ == v@[j]@,
        decreases v.len() - k,
    {
        r.push(v[k].duplicate());
        k = k + 1;
    }
    assert(views(r@) =~= views(v@));
    r
}

/// The state of one party across both rounds: its secret share, the common
/// random vector of the run, and its ephemeral mask `u`.
pub struct RelinKeyGenerator<'a, 'b> {
    sk_share: &'a SecretKey,
    crp: &'b [Poly],
    u: Poly,
}

/// The unit residue vector of length `n` with its one at `i`: the residues of
/// the `i`-th Garner weight.
pub open spec fn unit(n: nat, i: int) -> Seq<u64> {
    Seq::new(n, |j: int| if j == i { 1u64 } else { 0u64 })
}

/// `h == x * y + e` at level 0 for some small noise `e`.
pub open spec fn noisy_fma(h: Seq<Seq<u64>>, x: Seq<Seq<u64>>, y: Seq<Seq<u64>>, par: ParamsView) -> bool {
    exists|e: Seq<Seq<u64>>| #[trigger] small_noise(e, par.moduli, par.degree, par.variance)
        && h == poly_fma(x, y, e, par.moduli)
}

/// `h == x * y + z + e` at level 0 for some small noise `e`.
pub open spec fn noisy_fma2(h: Seq<Seq<u64>>, x: Seq<Seq<u64>>, y: Seq<Seq<u64>>, z: Seq<Seq<u64>>, par: ParamsView) -> bool {
    exists|e: Seq<Seq<u64>>| #[trigger] small_noise(e, par.moduli, par.degree, par.variance)
        && h == poly_fma2(x, y, z, e, par.moduli)
}

/// The lift at level 0 of a secret key's coefficients.
pub open spec fn secret_of(sk: crate::bfv::SkView) -> Seq<Seq<u64>> {
    ntt_lift(sk.par.moduli, sk.par.degree, sk.coeffs)
}

impl<'a, 'b> RelinKeyGenerator<'a, 'b> {
    #[verifier::type_invariant]
    closed spec fn inv(self) -> bool {
        &&& per_modulus(views(self.crp@), self.sk_share@.par)
        &&& fits(self.u@, self.sk_share@.par, 0)
        &&& reduced(self.u@, self.sk_share@.par.moduli)
        &&& self.sk_share@.coeffs.len() <= self.sk_share@.par.degree
    }

    /// The secret share of the party.
    pub closed spec fn secret(&self) -> &'a SecretKey {
        self.sk_share
    }

    /// The common random vector of the run.
    pub closed spec fn crp_view(&self) -> Seq<Seq<Seq<u64>>> {
        views(self.crp@)
    }

    /// The ephemeral mask `u` of the party.
    pub closed spec fn mask(&self) -> Seq<Seq<u64>> {
        self.u@
    }

    /// A generator for the party holding `sk_share`, with a freshly sampled
    /// small mask. The common random vector must hold one element at level 0
    /// per modulus and the key at most `degree` coefficients; both are checked
    /// before any secret material is used.
    pub fn new(sk_share: &'a SecretKey, crp: &'b [Poly], rng: &mut StdRng) -> (r: Result<Self, Error>)
        ensures
            crp@.len() != sk_share@.par.moduli.len() ==> r == Err::<Self, Error>(
                Error::CrpLengthMismatch(crp@.len() as usize, sk_share@.par.moduli.len() as usize),
            ),
            crp@.len() == sk_share@.par.moduli.len() && !per_modulus(views(crp@), sk_share@.par) ==> r
                == Err::<Self, Error>(Error::ShapeMismatch),
            r is Ok <==> per_modulus(views(crp@), sk_share@.par) && sk_share@.coeffs.len() <= sk_share@.par.degree,
            r is Err ==> *final(rng) == *old(rng),
            r is Err ==> r->Err_0 is CrpLengthMismatch || r->Err_0 is ShapeMismatch,
            r matches Ok(g) ==> g.secret() == sk_share && g.crp_view() == views(crp@)
                && small_noise(g.mask(), sk_share@.par.moduli, sk_share@.par.degree, sk_share@.par.variance),
    {
        let par = sk_share.par();
        let moduli = par.moduli();
        let degree = par.degree();
        check_crp(crp, par)?;
        if sk_share.coeffs().len() > degree {
            return Err(Error::ShapeMismatch);
        }
        assert(level_moduli(par@, 0) =~= moduli@);
        let u = par.noise_at(0, rng);
        Ok(RelinKeyGenerator { sk_share, crp, u })
    }

    /// This party's round-one share: `h0[i] = crp[i] * u + w_i * s + e_i` and
    /// `h1[i] = crp[i] * s + e'_i`, with `w_i` the `i`-th Garner weight.
    pub fn round_1(&self, rng: &mut StdRng) -> (r: Result<RelinKeyShare<R1>, Error>)
        ensures
            r is Ok,
            r matches Ok(sh) ==> sh@.par == self.secret()@.par && sh@.round_one is None,
            r matches Ok(sh) ==> round_one_share(sh@, self.crp_view(), self.mask(), secret_of(self.secret()@)),
    {
        proof {
            use_type_invariant(self);
        }
        Ok(RelinKeyShare::<R1>::new(self.sk_share, self.crp, &self.u, rng))
    }

    /// Overwrites the mask with zeros; the generator can no longer take part.
    pub fn zeroize(self) {
        let mut u = self.u;
        u.zeroize();
    }
}

/// The values of a round-one share built on `crp` with mask `u` and secret
/// `s`; the public inputs are taken reduced.
pub open spec fn round_one_share(sh: RksView, crp: Seq<Seq<Seq<u64>>>, u: Seq<Seq<u64>>, s: Seq<Seq<u64>>) -> bool {
    let m = sh.par.moduli;
    &&& sh.h0.len() == m.len() && sh.h1.len() == m.len() && crp.len() == m.len()
    &&& forall|i: int| 0 <= i < m.len() ==> #[trigger] noisy_fma2(
        sh.h0[i],
        poly_reduce(crp[i], m),
        u,
        poly_scale(s, unit(m.len(), i), m),
        sh.par,
    )
    &&& forall|i: int| 0 <= i < m.len() ==> #[trigger] noisy_fma(sh.h1[i], poly_reduce(crp[i], m), s, sh.par)
}

/// The values of a round-two share built on the aggregated round one `r1`
/// with mask `u` and secret `s`.
pub open spec fn round_two_share(sh: RksView, r1: RksView, u: Seq<Seq<u64>>, s: Seq<Seq<u64>>) -> bool {
    let m = sh.par.moduli;
    &&& sh.h0.len() == r1.h0.len() && sh.h1.len() == r1.h1.len()
    &&& forall|i: int| 0 <= i < sh.h0.len() ==> #[trigger] noisy_fma(sh.h0[i], poly_reduce(r1.h0[i], m), s, sh.par)
    &&& forall|i: int| 0 <= i < sh.h1.len() ==> #[trigger] noisy_fma(
        sh.h1[i],
        poly_reduce(r1.h1[i], m),
        poly_sub(u, s, m),
        sh.par,
    )
}

/// Fails unless `crp` holds one ring element at level 0 per modulus of `par`.
fn check_crp(crp: &[Poly], par: &BfvParameters) -> (r: Result<(), Error>)
    ensures
        r is Ok <==> per_modulus(views(crp@), par@),
        crp@.len() != par@.moduli.len() ==> r == Err::<(), Error>(
            Error::CrpLengthMismatch(crp@.len() as usize, par@.moduli.len() as usize),
        ),
        crp@.len() == par@.moduli.len() && !per_modulus(views(crp@), par@) ==> r == Err::<(), Error>(
            Error::ShapeMismatch,
        ),
{
    let moduli = par.moduli();
    let degree = par.degree();
    if crp.len() != moduli.len() {
        return Err(Error::CrpLengthMismatch(crp.len(), moduli.len()));
    }
    let mut i: usize = 0;
    while i < crp.len()
        invariant
            crp@.len() == moduli@.len(),
            moduli@ == par@.moduli,
            degree == par@.degree,
            params_ok(par@),
            i <= crp@.len(),
            forall|k: int| 0 <= k < i ==> #[trigger] fits(views(crp@)[k], par@, 0),
        decreases crp.len() - i,
    {
        if !crp[i].has_shape(moduli.len(), degree) {
            assert(!fits(views(crp@)[i as int], par@, 0));
            return Err(Error::ShapeMismatch);
        }
        i = i + 1;
    }
    Ok(())
}

impl RelinKeyShare<R1> {
    fn new(sk_share: &SecretKey, crp: &[Poly], u: &Poly, rng: &mut StdRng) -> (r: Self)
        requires
            per_modulus(views(crp@), sk_share@.par),
            fits(u@, sk_share@.par, 0),
            reduced(u@, sk_share@.par.moduli),
            sk_share@.coeffs.len() <= sk_share@.par.degree,
        ensures
            r@.par == sk_share@.par && r@.round_one is None,
            round_one_share(r@, views(crp@), u@, secret_of(sk_share@)),
    {
        let par = sk_share.par();
        let _ = par.moduli();
        let h0 = Self::generate_h0(sk_share, crp, u, rng);
        let h1 = Self::generate_h1(sk_share, crp, rng);
        RelinKeyShare { par: par.duplicate(), h0, h1, last_round: None, _round: PhantomData }
    }

    /// `h0[i] = crp[i] * u + w_i * s + e_i`, with `w_i` the `i`-th Garner weight.
    fn generate_h0(sk_share: &SecretKey, crp: &[Poly], u: &Poly, rng: &mut StdRng) -> (r: Vec<Poly>)
        requires
            per_modulus(views(crp@), sk_share@.par),
            fits(u@, sk_share@.par, 0),
            reduced(u@, sk_share@.par.moduli),
            sk_share@.coeffs.len() <= sk_share@.par.degree,
        ensures
            per_modulus(views(r@), sk_share@.par),
            forall|i: int| 0 <= i < r@.len() ==> #[trigger] noisy_fma2(
                views(r@)[i],
                poly_reduce(views(crp@)[i], sk_share@.par.moduli),
                u@,
                poly_scale(secret_of(sk_share@), unit(crp@.len() as nat, i), sk_share@.par.moduli),
                sk_share@.par,
            ),
    {
        let par = sk_share.par();
        let moduli = par.moduli();
        let degree = par.degree();
        let ghost m = moduli@;
        let ghost d = degree as nat;
        assert(level_moduli(par@, 0) =~= m);
        let ctx = par.context(0);
        let mut s = par.lift_at(0, sk_share.coeffs());
        let mut h: Vec<Poly> = Vec::with_capacity(crp.len());
        let mut i: usize = 0;
        while i < crp.len()
            invariant
                per_modulus(views(crp@), par@),
                fits(u@, par@, 0),
                reduced(u@, par@.moduli),
                fits(s@, par@, 0),
                of_context(s@, *ctx),
                s@ == secret_of(sk_share@),
                par@ == sk_share@.par,
                params_ok(par@),
                moduli@ == m,
                m == par@.moduli,
                ctx.moduli_view() == m,
                *ctx == par.ring_context(0),
                ctx.degree_view() == par@.degree,
                level_moduli(par@, 0) == m,
                degree == par@.degree,
                d == degree as nat,
                i <= crp@.len(),
                h@.len() == i,
                forall|k: int| 0 <= k < i ==> #[trigger] fits(h@[k]@, par@, 0),
                forall|k: int| 0 <= k < i ==> #[trigger] noisy_fma2(
                    h@[k]@,
                    poly_reduce(crp@[k]@, m),
                    u@,
                    poly_scale(s@, unit(m.len(), k), m),
                    par@,
                ),
            decreases crp.len() - i,
        {
            assert(fits(views(crp@)[i as int], par@, 0));
            assert(views(crp@)[i as int] == crp@[i as int]@);
            let w = garner_residues(ctx, i);
            assert(w@ =~= unit(m.len(), i as int));
            let mut w_s = s.keep_row(i, &w, ctx);
            let mut e = par.noise_at(0, rng);
            let ghost ev = e@;
            let a = par.reduce_at(0, &crp[i]);
            assert(of_context(u@, *ctx));
            let hi = a.mul_add2(u, &w_s, &e, ctx);
            assert(small_noise(ev, par@.moduli, par@.degree, par@.variance));
            assert(noisy_fma2(hi@, poly_reduce(crp@[i as int]@, m), u@, poly_scale(s@, unit(m.len(), i as int), m), par@));
            w_s.zeroize();
            e.zeroize();
            h.push(hi);
            i = i + 1;
        }
        s.zeroize();
        assert(views(h@).len() == m.len());
        assert forall|k: int| 0 <= k < h@.len() implies #[trigger] noisy_fma2(
            views(h@)[k],
            poly_reduce(views(crp@)[k], sk_share@.par.moduli),
            u@,
            poly_scale(secret_of(sk_share@), unit(crp@.len() as nat, k), sk_share@.par.moduli),
            sk_share@.par,
        ) by {
            assert(views(h@)[k] == h@[k]@);
            assert(views(crp@)[k] == crp@[k]@);
        }
        h
    }

    /// `h1[i] = crp[i] * s + e'_i`.
    fn generate_h1(sk_share: &SecretKey, crp: &[Poly], rng: &mut StdRng) -> (r: Vec<Poly>)
        requires
            per_modulus(views(crp@), sk_share@.par),
            sk_share@.coeffs.len() <= sk_share@.par.degree,
        ensures
            per_modulus(views(r@), sk_share@.par),
            r@.len() == crp@.len(),
            forall|i: int| 0 <= i < r@.len() ==> #[trigger] noisy_fma(views(r@)[i], poly_reduce(views(crp@)[i], sk_share@.par.moduli), secret_of(sk_share@), sk_share@.par),
    {
        let par = sk_share.par();
        let _ = par.moduli();
        let mut s = par.lift_at(0, sk_share.coeffs());
        assert(level_moduli(par@, 0) =~= par@.moduli);
        let h = products_with_noise(crp, &s, par, rng);
        s.zeroize();
        h
    }
}

/// `xs[i] * y + e_i` for each `i`, with fresh small noise `e_i` at level 0.
fn products_with_noise(xs: &[Poly], y: &Poly, par: &BfvParameters, rng: &mut StdRng) -> (r: Vec<Poly>)
    requires
        per_modulus(views(xs@), par@),
        fits(y@, par@, 0),
        reduced(y@, par@.moduli),
    ensures
        per_modulus(views(r@), par@),
        r@.len() == xs@.len(),
        forall|i: int| 0 <= i < r@.len() ==> #[trigger] noisy_fma(views(r@)[i], poly_reduce(views(xs@)[i], par@.moduli), y@, par@),
{
    let moduli = par.moduli();
    let degree = par.degree();
    let ghost m = moduli@;
    let ghost d = degree as nat;
    assert(level_moduli(par@, 0) =~= m);
    let mut h: Vec<Poly> = Vec::with_capacity(xs.len());
    let mut i: usize = 0;
    while i < xs.len()
        invariant
            per_modulus(views(xs@), par@),
            fits(y@, par@, 0),
            reduced(y@, par@.moduli),
            params_ok(par@),
            moduli@ == m,
            m == par@.moduli,
            level_moduli(par@, 0) == m,
            degree == par@.degree,
            d == degree as nat,
            i <= xs@.len(),
            h@.len() == i,
            forall|k: int| 0 <= k < i ==> #[trigger] fits(h@[k]@, par@, 0),
            forall|k: int| 0 <= k < i ==> #[trigger] noisy_fma(h@[k]@, poly_reduce(xs@[k]@, m), y@, par@),
        decreases xs.len() - i,
    {
        assert(fits(views(xs@)[i as int], par@, 0));
        assert(views(xs@)[i as int] == xs@[i as int]@);
        let mut e = par.noise_at(0, rng);
        let ghost ev = e@;
        let a = par.reduce_at(0, &xs[i]);
        let hi = a.mul_add(y, &e, par.context(0));
        assert(small_noise(ev, par@.moduli, par@.degree, par@.variance));
        assert(noisy_fma(hi@, poly_reduce(xs@[i as int]@, m), y@, par@));
        e.zeroize();
        h.push(hi);
        i = i + 1;
    }
    assert(views(h@).len() == m.len());
    assert forall|k: int| 0 <= k < h@.len() implies #[trigger] noisy_fma(views(h@)[k], poly_reduce(views(xs@)[k], par@.moduli), y@, par@) by {
        assert(views(h@)[k] == h@[k]@);
        assert(views(xs@)[k] == xs@[k]@);
    }
    h
}

/// The `i`-th first components of a list of shares.
pub open spec fn h0_column<R: Round>(shares: Seq<RelinKeyShare<R>>, i: int) -> Seq<Seq<Seq<u64>>> {
    shares.map_values(|s: RelinKeyShare<R>| s@.h0[i])
}

/// The `i`-th second components of a list of shares.
pub open spec fn h1_column<R: Round>(shares: Seq<RelinKeyShare<R>>, i: int) -> Seq<Seq<Seq<u64>>> {
    shares.map_values(|s: RelinKeyShare<R>| s@.h1[i])
}

/// The sums `h0[i] + h1[i]` of a list of shares.
pub open spec fn pair_column<R: Round>(shares: Seq<RelinKeyShare<R>>, i: int, moduli: Seq<u64>) -> Seq<Seq<Seq<u64>>> {
    shares.map_values(|s: RelinKeyShare<R>| poly_add(s@.h0[i], s@.h1[i], moduli))
}

/// Which entry of each share a column sum adds up.
pub open spec fn column<R: Round>(shares: Seq<RelinKeyShare<R>>, i: int, which: u8, moduli: Seq<u64>) -> Seq<Seq<Seq<u64>>> {
    if which == 0 {
        h0_column(shares, i)
    } else if which == 1 {
        h1_column(shares, i)
    } else {
        pair_column(shares, i, moduli)
    }
}

/// The sum over all shares of their `i`-th entry: `h0[i]` when `which` is 0,
/// `h1[i]` when it is 1, and `h0[i] + h1[i]` otherwise.
fn column_sum<R: Round>(shares: &Vec<RelinKeyShare<R>>, i: usize, which: u8, moduli: &Vec<u64>) -> (r: Poly)
    requires
        shares@.len() >= 1,
        forall|k: int| 0 <= k < shares@.len() ==> #[trigger] shares@[k]@.par == shares@[0]@.par,
        moduli@ == shares@[0]@.par.moduli,
        i < moduli@.len(),
    ensures
        r@ == poly_sum(column(shares@, i as int, which, moduli@), moduli@),
        fits(r@, shares@[0]@.par, 0),
{
    let first = &shares[0];
    proof {
        use_type_invariant(first);
    }
    let ghost par = first@.par;
    let ghost m = moduli@;
    let ghost d = par.degree;
    let ghost col = column(shares@, i as int, which, m);
    assert(views(first.h0@)[i as int] == first.h0@[i as int]@);
    assert(views(first.h1@)[i as int] == first.h1@[i as int]@);
    assert(level_moduli(par, 0) =~= m);
    assert(fits(first@.h0[i as int], par, 0));
    assert(fits(first@.h1[i as int], par, 0));
    let mut acc = if which == 0 {
        first.h0[i].duplicate()
    } else if which == 1 {
        first.h1[i].duplicate()
    } else {
        proof {
            lemma_ops_shaped(first@.h0[i as int], first@.h1[i as int], Seq::empty(), m, m.len(), d);
        }
        first.h0[i].add(&first.h1[i], moduli)
    };
    proof {
        if which != 0 && which != 1 {
            lemma_ops_shaped(first@.h0[i as int], first@.h1[i as int], Seq::empty(), m, m.len(), d);
        }
    }
    assert(col.subrange(0, 1) =~= seq![col[0]]);
    let mut k: usize = 1;
    while k < shares.len()
        invariant
            1 <= k <= shares@.len(),
            forall|j: int| 0 <= j < shares@.len() ==> #[trigger] shares@[j]@.par == par,
            par == shares@[0]@.par,
            params_ok(par),
            moduli@ == m,
            m == par.moduli,
            d == par.degree,
            i < m.len(),
            col == column(shares@, i as int, which, m),
            acc@ == poly_sum(col.subrange(0, k as int), m),
            shaped(acc@, m.len(), d),
        decreases shares.len() - k,
    {
        let sh = &shares[k];
        proof {
            use_type_invariant(sh);
            assert(sh@.par == par);
            assert(views(sh.h0@)[i as int] == sh.h0@[i as int]@);
            assert(views(sh.h1@)[i as int] == sh.h1@[i as int]@);
            assert(fits(sh@.h0[i as int], par, 0));
            assert(fits(sh@.h1[i as int], par, 0));
            lemma_sum_step(col, k as int, m);
            lemma_ops_shaped(sh@.h0[i as int], sh@.h1[i as int], Seq::empty(), m, m.len(), d);
            lemma_ops_shaped(acc@, col[k as int], Seq::empty(), m, m.len(), d);
        }
        if which == 0 {
            acc = acc.add(&sh.h0[i], moduli);
        } else if which == 1 {
            acc = acc.add(&sh.h1[i], moduli);
        } else {
            let mut t = sh.h0[i].add(&sh.h1[i], moduli);
            acc = acc.add(&t, moduli);
            t.zeroize();
        }
        k = k + 1;
    }
    assert(col.subrange(0, shares@.len() as int) =~= col);
    acc
}

/// Fails with `ParametersMismatch` unless every share has the parameters of the first.
fn check_agree<R: Round>(shares: &Vec<RelinKeyShare<R>>) -> (r: Result<(), Error>)
    requires
        shares@.len() >= 1,
    ensures
        r is Ok <==> forall|k: int| 0 <= k < shares@.len() ==> #[trigger] shares@[k]@.par == shares@[0]@.par,
        r is Err ==> r == Err::<(), Error>(Error::ParametersMismatch),
{
    let first = &shares[0];
    let mut k: usize = 1;
    while k < shares.len()
        invariant
            1 <= k <= shares@.len(),
            first == shares@[0],
            forall|j: int| 0 <= j < k ==> #[trigger] shares@[j]@.par == first@.par,
        decreases shares.len() - k,
    {
        if !shares[k].par.same(&first.par) {
            assert(shares@[k as int]@.par != shares@[0]@.par);
            return Err(Error::ParametersMismatch);
        }
        k = k + 1;
    }
    Ok(())
}

/// The column sums of `which` for every modulus.
fn column_sums<R: Round>(shares: &Vec<RelinKeyShare<R>>, which: u8) -> (r: Vec<Poly>)
    requires
        shares@.len() >= 1,
        forall|k: int| 0 <= k < shares@.len() ==> #[trigger] shares@[k]@.par == shares@[0]@.par,
    ensures
        views(r@).len() == shares@[0]@.par.moduli.len(),
        forall|i: int| 0 <= i < views(r@).len() ==> #[trigger] views(r@)[i] == poly_sum(
            column(shares@, i, which, shares@[0]@.par.moduli),
            shares@[0]@.par.moduli,
        ),
        per_modulus(views(r@), shares@[0]@.par),
{
    let moduli = shares[0].par.moduli();
    let mut r: Vec<Poly> = Vec::with_capacity(moduli.len());
    let mut i: usize = 0;
    while i < moduli.len()
        invariant
            shares@.len() >= 1,
            forall|k: int| 0 <= k < shares@.len() ==> #[trigger] shares@[k]@.par == shares@[0]@.par,
            moduli@ == shares@[0]@.par.moduli,
            i <= moduli@.len(),
            r@.len() == i,
            forall|j: int| 0 <= j < i ==> #[trigger] r@[j]@ == poly_sum(column(shares@, j, which, moduli@), moduli@),
            forall|j: int| 0 <= j < i ==> #[trigger] fits(r@[j]@, shares@[0]@.par, 0),
        decreases moduli.len() - i,
    {
        r.push(column_sum(shares, i, which, moduli));
        i = i + 1;
    }
    r
}

impl Aggregate for RelinKeyShare<R1> {
    type Output = RelinKeyShare<R1Aggregated>;

    open spec fn shares_agree(shares: Seq<Self>) -> bool {
        forall|k: int| 0 <= k < shares.len() ==> #[trigger] shares[k]@.par == shares[0]@.par
    }

    /// Entry-wise sums of the round-one shares.
    open spec fn aggregate_spec(shares: Seq<Self>, r: Result<RelinKeyShare<R1Aggregated>, Error>) -> bool {
        let m = shares[0]@.par.moduli;
        shares.len() > 0 && Self::shares_agree(shares) ==> (r matches Ok(a) && a@.par == shares[0]@.par
            && a@.round_one is None && a@.h0.len() == m.len() && a@.h1.len() == m.len()
            && (forall|i: int| 0 <= i < m.len() ==> #[trigger] a@.h0[i] == poly_sum(h0_column(shares, i), m))
            && (forall|i: int| 0 <= i < m.len() ==> #[trigger] a@.h1[i] == poly_sum(h1_column(shares, i), m)))
    }

    fn aggregate(shares: Vec<Self>) -> (r: Result<RelinKeyShare<R1Aggregated>, Error>) {
        if shares.len() == 0 {
            return Err(Error::TooFewValues(0, 1));
        }
        check_agree(&shares)?;
        let h0 = column_sums(&shares, 0);
        let h1 = column_sums(&shares, 1);
        let first = &shares[0];
        proof {
            use_type_invariant(first);
        }
        Ok(RelinKeyShare { par: first.par.duplicate(), h0, h1, last_round: None, _round: PhantomData })
    }
}

impl RelinKeyShare<R2> {
    fn new(sk_share: &SecretKey, u: &Poly, r1: &RelinKeyShare<R1Aggregated>, rng: &mut StdRng) -> (r: Result<Self, Error>)
        requires
            fits(u@, sk_share@.par, 0),
            reduced(u@, sk_share@.par.moduli),
            sk_share@.coeffs.len() <= sk_share@.par.degree,
        ensures
            sk_share@.par != r1@.par ==> r == Err::<Self, Error>(Error::ParametersMismatch) && *final(rng) == *old(rng),
            sk_share@.par == r1@.par ==> r is Ok,
            r matches Ok(sh) ==> sh@.par == r1@.par && sh@.round_one == Some((r1@.h0, r1@.h1)),
            r matches Ok(sh) ==> round_two_share(sh@, r1@, u@, secret_of(sk_share@)),
    {
        proof {
            use_type_invariant(r1);
        }
        if !sk_share.par().same(&r1.par) {
            return Err(Error::ParametersMismatch);
        }
        let h0 = Self::generate_h0(sk_share, r1.h0.as_slice(), rng);
        let h1 = Self::generate_h1(sk_share, u, r1.h1.as_slice(), rng);
        let link = r1.copy_unlinked();
        Ok(RelinKeyShare { par: r1.par.duplicate(), h0, h1, last_round: Some(Box::new(link)), _round: PhantomData })
    }

    /// `h0'[i] = r1_h0[i] * s + e_i`.
    fn generate_h0(sk_share: &SecretKey, r1_h0: &[Poly], rng: &mut StdRng) -> (r: Vec<Poly>)
        requires
            per_modulus(views(r1_h0@), sk_share@.par),
            sk_share@.coeffs.len() <= sk_share@.par.degree,
        ensures
            per_modulus(views(r@), sk_share@.par),
            r@.len() == r1_h0@.len(),
            forall|i: int| 0 <= i < r@.len() ==> #[trigger] noisy_fma(views(r@)[i], poly_reduce(views(r1_h0@)[i], sk_share@.par.moduli), secret_of(sk_share@), sk_share@.par),
    {
        let par = sk_share.par();
        let _ = par.moduli();
        let mut s = par.lift_at(0, sk_share.coeffs());
        assert(level_moduli(par@, 0) =~= par@.moduli);
        let h = products_with_noise(r1_h0, &s, par, rng);
        s.zeroize();
        h
    }

    /// `h1'[i] = r1_h1[i] * (u - s) + e'_i`.
    fn generate_h1(sk_share: &SecretKey, u: &Poly, r1_h1: &[Poly], rng: &mut StdRng) -> (r: Vec<Poly>)
        requires
            per_modulus(views(r1_h1@), sk_share@.par),
            fits(u@, sk_share@.par, 0),
            reduced(u@, sk_share@.par.moduli),
            sk_share@.coeffs.len() <= sk_share@.par.degree,
        ensures
            per_modulus(views(r@), sk_share@.par),
            r@.len() == r1_h1@.len(),
            forall|i: int| 0 <= i < r@.len() ==> #[trigger] noisy_fma(
                views(r@)[i],
                poly_reduce(views(r1_h1@)[i], sk_share@.par.moduli),
                poly_sub(u@, secret_of(sk_share@), sk_share@.par.moduli),
                sk_share@.par,
            ),
    {
        let par = sk_share.par();
        let moduli = par.moduli();
        let degree = par.degree();
        assert(level_moduli(par@, 0) =~= moduli@);
        let mut s = par.lift_at(0, sk_share.coeffs());
        let mut u_s = u.sub_secret(&s, par.context(0));
        s.zeroize();
        let h = products_with_noise(r1_h1, &u_s, par, rng);
        u_s.zeroize();
        h
    }
}

impl<'a, 'b> RelinKeyGenerator<'a, 'b> {
    /// This party's round-two share, built on the aggregate of round one,
    /// which the share keeps: `h0'[i] = r1.h0[i] * s + e_i` and
    /// `h1'[i] = r1.h1[i] * (u - s) + e'_i`.
    pub fn round_2(&self, r1: &RelinKeyShare<R1Aggregated>, rng: &mut StdRng) -> (r: Result<RelinKeyShare<R2>, Error>)
        ensures
            self.secret()@.par != r1@.par ==> r == Err::<RelinKeyShare<R2>, Error>(Error::ParametersMismatch)
                && *final(rng) == *old(rng),
            self.secret()@.par == r1@.par ==> r is Ok,
            r matches Ok(sh) ==> sh@.par == r1@.par && sh@.round_one == Some((r1@.h0, r1@.h1)),
            r matches Ok(sh) ==> round_two_share(sh@, r1@, self.mask(), secret_of(self.secret()@)),
    {
        proof {
            use_type_invariant(self);
        }
        RelinKeyShare::<R2>::new(self.sk_share, &self.u, r1, rng)
    }
}

impl Aggregate for RelinKeyShare<R2> {
    type Output = RelinearizationKey;

    open spec fn shares_agree(shares: Seq<Self>) -> bool {
        forall|k: int| 0 <= k < shares.len() ==> #[trigger] shares[k]@.par == shares[0]@.par
    }

    /// The key is `(c0[i], c1[i]) = (sum of h0'[i] + h1'[i], h1[i] of the
    /// aggregated round one)` at level 0; every share must carry the
    /// aggregated round one it was built on.
    open spec fn aggregate_spec(shares: Seq<Self>, r: Result<RelinearizationKey, Error>) -> bool {
        let m = shares[0]@.par.moduli;
        let linked = forall|k: int| 0 <= k < shares.len() ==> (#[trigger] shares[k]@.round_one) is Some;
        &&& shares.len() > 0 && Self::shares_agree(shares) && !linked ==> r
            == Err::<RelinearizationKey, Error>(Error::MissingRoundOne)
        &&& shares.len() > 0 && Self::shares_agree(shares) && linked ==> (r matches Ok(
            rk,
        ) && rk@.par == shares[0]@.par && rk@.ciphertext_level == 0 && rk@.ksk_level == 0
            && rk@.c1 == shares[0]@.round_one->Some_0.1 && rk@.c0.len() == m.len()
            && forall|i: int| 0 <= i < m.len() ==> #[trigger] rk@.c0[i] == poly_sum(pair_column(shares, i, m), m))
    }

    fn aggregate(shares: Vec<Self>) -> (r: Result<RelinearizationKey, Error>) {
        if shares.len() == 0 {
            return Err(Error::TooFewValues(0, 1));
        }
        check_agree(&shares)?;
        let mut k: usize = 0;
        while k < shares.len()
            invariant
                k <= shares@.len(),
                forall|j: int| 0 <= j < shares@.len() ==> #[trigger] shares@[j]@.par == shares@[0]@.par,
                forall|j: int| 0 <= j < k ==> (#[trigger] shares@[j]@.round_one) is Some,
            decreases shares.len() - k,
        {
            if shares[k].last_round.is_none() {
                assert(shares@[k as int]@.round_one is None);
                return Err(Error::MissingRoundOne);
            }
            k = k + 1;
        }
        let first = &shares[0];
        proof {
            use_type_invariant(first);
        }
        let r1 = match &first.last_round {
            Some(b) => b,
            None => {
                return Err(Error::MissingRoundOne);
            },
        };
        let c0 = column_sums(&shares, 2);
        let c1 = copy_polys(&r1.h1);
        let ksk = KeySwitchingKey::new(first.par.duplicate(), c0, c1, 0, 0);
        Ok(RelinearizationKey::new(ksk))
    }
}

} // verus!
