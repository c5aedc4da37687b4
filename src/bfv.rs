//! The single-party carriers that the protocols read and produce: parameters,
//! secret and public keys, ciphertexts and key-switching keys.
use vstd::prelude::*;
use crate::errors::Error;
use crate::math::{
    context_at_level, lift_secret, new_context, ntt_lift, reduced, sample_small, sample_uniform,
    small_noise, switch_down, switched_down, RingContext,
};
use crate::ring::{of_context, poly_reduce};
use rand::rngs::StdRng;
use crate::ring::{moduli_ok, shaped, Poly};

verus! {

/// What a parameter set fixes: ring degree, modulus chain, plaintext modulus
/// and the variance of sampled noise.
pub struct ParamsView {
    pub degree: nat,
    pub moduli: Seq<u64>,
    pub plaintext: u64,
    pub variance: nat,
}

/// One modulus switch of `p` from `level` to the next level, its slots first reduced.
pub open spec fn switch_step(p: Seq<Seq<u64>>, par: ParamsView, level: nat) -> Seq<Seq<u64>> {
    switched_down(level_moduli(par, level), par.degree, poly_reduce(p, level_moduli(par, level)))
}

/// `p` switched from level `from` down to level `to`, one level at a time.
pub open spec fn switch_to(p: Seq<Seq<u64>>, par: ParamsView, from: nat, to: nat) -> Seq<Seq<u64>>
    decreases to,
{
    if to <= from {
        p
    } else {
        switch_step(switch_to(p, par, from, (to - 1) as nat), par, (to - 1) as nat)
    }
}

/// A usable parameter set: a non-empty chain of moduli above one, a ring
/// degree of at least 8 and a noise variance in 1..=16.
pub open spec fn params_ok(p: ParamsView) -> bool {
    &&& p.moduli.len() >= 1
    &&& moduli_ok(p.moduli)
    &&& p.degree >= 8
    &&& 1 <= p.variance <= 16
    &&& p.plaintext >= 2
}

/// The moduli of the context at `level`: the chain without its last `level` moduli.
pub open spec fn level_moduli(p: ParamsView, level: nat) -> Seq<u64> {
    p.moduli.subrange(0, p.moduli.len() - level)
}

/// `x` is a ring element of the context at `level`.
pub open spec fn fits(x: Seq<Seq<u64>>, p: ParamsView, level: nat) -> bool {
    &&& level < p.moduli.len()
    &&& shaped(x, (p.moduli.len() - level) as nat, p.degree)
}

pub proof fn lemma_level_moduli_ok(p: ParamsView, level: nat)
    requires
        params_ok(p),
        level < p.moduli.len(),
    ensures
        moduli_ok(level_moduli(p, level)),
        level_moduli(p, level).len() == p.moduli.len() - level,
{
    let m = level_moduli(p, level);
    assert forall|i: int| 0 <= i < m.len() implies #[trigger] m[i] > 1 by {
        assert(m[i] == p.moduli[i]);
    }
}

/// Parameters of the BFV scheme, shared by every party of a protocol run.
pub struct BfvParameters {
    degree: usize,
    moduli: Vec<u64>,
    plaintext: u64,
    variance: usize,
    ctxs: Vec<RingContext>,
}

impl View for BfvParameters {
    type V = ParamsView;

    closed spec fn view(&self) -> ParamsView {
        ParamsView {
            degree: self.degree as nat,
            moduli: self.moduli@,
            plaintext: self.plaintext,
            variance: self.variance as nat,
        }
    }
}

impl BfvParameters {
    #[verifier::type_invariant]
    closed spec fn inv(self) -> bool {
        &&& params_ok(self@)
        &&& self.ctxs@.len() == self.moduli@.len()
        &&& forall|l: int| 0 <= l < self.ctxs@.len() ==> #[trigger] self.ctxs@[l].moduli_view() == level_moduli(
            self@,
            l as nat,
        ) && self.ctxs@[l].degree_view() == self.degree
    }

    /// Builds a parameter set; the ring layer must accept the moduli and the
    /// degree, and the variance must lie in 1..=16.
    pub fn new(degree: usize, moduli: Vec<u64>, plaintext: u64, variance: usize) -> (r: Result<BfvParameters, Error>)
        ensures
            r matches Ok(p) ==> p@ == (ParamsView {
                degree: degree as nat,
                moduli: moduli@,
                plaintext,
                variance: variance as nat,
            }),
            r matches Ok(p) ==> params_ok(p@),
            (1 <= variance <= 16 && plaintext >= 2) || r is Err,
    {
        if variance < 1 || variance > 16 || plaintext < 2 {
            return Err(Error::MathError(String::from_str("invalid variance or plaintext modulus")));
        }
        let ctx = new_context(&moduli, degree)?;
        let mut ctxs: Vec<RingContext> = Vec::with_capacity(moduli.len());
        let mut level: usize = 0;
        while level < moduli.len()
            invariant
                level <= moduli@.len(),
                ctxs@.len() == level,
                ctx.moduli_view() == moduli@,
                ctx.degree_view() == degree,
                forall|l: int| 0 <= l < level ==> #[trigger] ctxs@[l].moduli_view() == moduli@.subrange(
                    0,
                    moduli@.len() - l,
                ) && ctxs@[l].degree_view() == degree,
            decreases moduli.len() - level,
        {
            ctxs.push(context_at_level(&ctx, level));
            level = level + 1;
        }
        Ok(BfvParameters { degree, moduli, plaintext, variance, ctxs })
    }

    /// The ring context kept for `level`.
    pub closed spec fn ring_context(&self, level: int) -> RingContext {
        self.ctxs@[level]
    }

    /// The ring context at `level`.
    pub(crate) fn context(&self, level: usize) -> (r: &RingContext)
        requires
            level < self@.moduli.len(),
        ensures
            *r == self.ring_context(level as int),
            r.moduli_view() == level_moduli(self@, level as nat),
            r.degree_view() == self@.degree,
    {
        proof {
            use_type_invariant(self);
        }
        &self.ctxs[level]
    }

    /// The lift of the signed coefficients `coeffs` at `level`.
    pub(crate) fn lift_at(&self, level: usize, coeffs: &Vec<i64>) -> (r: Poly)
        requires
            level < self@.moduli.len(),
            coeffs@.len() <= self@.degree,
        ensures
            r@ == ntt_lift(level_moduli(self@, level as nat), self@.degree, coeffs@),
            fits(r@, self@, level as nat),
            of_context(r@, self.ring_context(level as int)),
            reduced(r@, level_moduli(self@, level as nat)),
    {
        proof {
            use_type_invariant(self);
            lemma_level_moduli_ok(self@, level as nat);
        }
        Poly::from_rows(lift_secret(self.context(level), coeffs))
    }

    /// Fresh small noise at `level`.
    pub(crate) fn noise_at(&self, level: usize, rng: &mut StdRng) -> (r: Poly)
        requires
            level < self@.moduli.len(),
        ensures
            small_noise(r@, level_moduli(self@, level as nat), self@.degree, self@.variance),
            fits(r@, self@, level as nat),
            of_context(r@, self.ring_context(level as int)),
            reduced(r@, level_moduli(self@, level as nat)),
    {
        proof {
            use_type_invariant(self);
            lemma_level_moduli_ok(self@, level as nat);
        }
        Poly::from_rows(sample_small(self.context(level), self.variance, rng))
    }

    /// `p` with every slot reduced: public data made ready for the
    /// constant-time operations at `level`.
    pub(crate) fn reduce_at(&self, level: usize, p: &Poly) -> (r: Poly)
        requires
            level < self@.moduli.len(),
            fits(p@, self@, level as nat),
        ensures
            r@ == poly_reduce(p@, level_moduli(self@, level as nat)),
            fits(r@, self@, level as nat),
            of_context(r@, self.ring_context(level as int)),
            reduced(r@, level_moduli(self@, level as nat)),
    {
        proof {
            use_type_invariant(self);
            lemma_level_moduli_ok(self@, level as nat);
        }
        let moduli = self.ctx_at_level(level).unwrap();
        let r = p.reduce(&moduli);
        proof {
            crate::ring::lemma_ops_shaped(p@, p@, Seq::empty(), moduli@, moduli@.len(), self@.degree);
        }
        assert(shaped(r@, moduli@.len(), self@.degree));
        r
    }

    /// A fresh uniform ring element at `level`.
    pub(crate) fn uniform_at(&self, level: usize, rng: &mut StdRng) -> (r: Poly)
        requires
            level < self@.moduli.len(),
        ensures
            fits(r@, self@, level as nat),
            reduced(r@, level_moduli(self@, level as nat)),
    {
        Poly::from_rows(sample_uniform(self.context(level), rng))
    }

    /// The ring degree.
    pub fn degree(&self) -> (r: usize)
        ensures
            r == self@.degree,
            params_ok(self@),
    {
        proof {
            use_type_invariant(self);
        }
        self.degree
    }

    /// The full modulus chain.
    pub fn moduli(&self) -> (r: &Vec<u64>)
        ensures
            r@ == self@.moduli,
            params_ok(self@),
    {
        proof {
            use_type_invariant(self);
        }
        &self.moduli
    }

    /// The plaintext modulus.
    pub fn plaintext(&self) -> (r: u64)
        ensures
            r == self@.plaintext,
    {
        self.plaintext
    }

    /// The variance of sampled noise.
    pub fn variance(&self) -> (r: usize)
        ensures
            r == self@.variance,
            params_ok(self@),
    {
        proof {
            use_type_invariant(self);
        }
        self.variance
    }

    /// The deepest level that has a context.
    pub fn max_level(&self) -> (r: usize)
        ensures
            r == self@.moduli.len() - 1,
    {
        proof {
            use_type_invariant(self);
        }
        self.moduli.len() - 1
    }

    /// The moduli of the context at `level`; fails when the chain is too short.
    pub fn ctx_at_level(&self, level: usize) -> (r: Result<Vec<u64>, Error>)
        ensures
            params_ok(self@),
            r matches Ok(m) ==> m@ == level_moduli(self@, level as nat) && moduli_ok(m@),
            r is Ok <==> level < self@.moduli.len(),
            r is Err ==> r == Err::<Vec<u64>, Error>(Error::InvalidLevel(level)),
    {
        proof {
            use_type_invariant(self);
        }
        if level >= self.moduli.len() {
            return Err(Error::InvalidLevel(level));
        }
        let n = self.moduli.len() - level;
        let mut m: Vec<u64> = Vec::with_capacity(n);
        let mut i: usize = 0;
        while i < n
            invariant
                n <= self.moduli@.len(),
                i <= n,
                m@ == self.moduli@.subrange(0, i as int),
            decreases n - i,
        {
            m.push(self.moduli[i]);
            i = i + 1;
            assert(m@ =~= self.moduli@.subrange(0, i as int));
        }
        proof {
            lemma_level_moduli_ok(self@, level as nat);
        }
        Ok(m)
    }

    /// Whether two parameter sets are the same.
    pub fn same(&self, other: &BfvParameters) -> (r: bool)
        ensures
            r == (self@ == other@),
    {
        if self.degree != other.degree || self.plaintext != other.plaintext
            || self.variance != other.variance || self.moduli.len() != other.moduli.len() {
            return false;
        }
        let mut i: usize = 0;
        while i < self.moduli.len()
            invariant
                self.moduli@.len() == other.moduli@.len(),
                i <= self.moduli@.len(),
                forall|k: int| 0 <= k < i ==> self.moduli@[k] == other.moduli@[k],
            decreases self.moduli.len() - i,
        {
            if self.moduli[i] != other.moduli[i] {
                return false;
            }
            i = i + 1;
        }
        assert(self.moduli@ =~= other.moduli@);
        true
    }

    /// An equal parameter set.
    pub fn duplicate(&self) -> (r: BfvParameters)
        ensures
            r@ == self@,
    {
        proof {
            use_type_invariant(self);
        }
        let mut m: Vec<u64> = Vec::with_capacity(self.moduli.len());
        let mut i: usize = 0;
        while i < self.moduli.len()
            invariant
                i <= self.moduli@.len(),
                m@ == self.moduli@.subrange(0, i as int),
            decreases self.moduli.len() - i,
        {
            m.push(self.moduli[i]);
            i = i + 1;
            assert(m@ =~= self.moduli@.subrange(0, i as int));
        }
        assert(m@ =~= self.moduli@);
        let mut ctxs: Vec<RingContext> = Vec::with_capacity(self.ctxs.len());
        let mut l: usize = 0;
        while l < self.ctxs.len()
            invariant
                l <= self.ctxs@.len(),
                ctxs@.len() == l,
                forall|k: int| 0 <= k < l ==> #[trigger] ctxs@[k].moduli_view() == self.ctxs@[k].moduli_view()
                    && ctxs@[k].degree_view() == self.ctxs@[k].degree_view(),
            decreases self.ctxs.len() - l,
        {
            ctxs.push(self.ctxs[l].duplicate());
            l = l + 1;
        }
        BfvParameters { degree: self.degree, moduli: m, plaintext: self.plaintext, variance: self.variance, ctxs }
    }
}


/// The views of a list of ring elements.
pub open spec fn views(c: Seq<Poly>) -> Seq<Seq<Seq<u64>>> {
    c.map_values(|p: Poly| p@)
}

/// A party's secret-key share: small signed coefficients in the ring.
pub struct SecretKey {
    par: BfvParameters,
    coeffs: Vec<i64>,
}

/// What a secret key holds.
pub struct SkView {
    pub par: ParamsView,
    pub coeffs: Seq<i64>,
}

impl View for SecretKey {
    type V = SkView;

    closed spec fn view(&self) -> SkView {
        SkView { par: self.par@, coeffs: self.coeffs@ }
    }
}

impl SecretKey {
    /// A secret key with the given coefficients.
    pub fn new(coeffs: Vec<i64>, par: &BfvParameters) -> (r: SecretKey)
        ensures
            r@ == (SkView { par: par@, coeffs: coeffs@ }),
    {
        SecretKey { par: par.duplicate(), coeffs }
    }

    /// The parameters the key belongs to.
    pub fn par(&self) -> (r: &BfvParameters)
        ensures
            r@ == self@.par,
    {
        &self.par
    }

    /// The signed coefficients.
    pub fn coeffs(&self) -> (r: &Vec<i64>)
        ensures
            r@ == self@.coeffs,
    {
        &self.coeffs
    }
}

/// What a ciphertext holds: its parameters, its level and its components.
pub struct CtView {
    pub par: ParamsView,
    pub level: nat,
    pub c: Seq<Seq<Seq<u64>>>,
}

/// At least two components, each a ring element of the context at `level`.
pub open spec fn ct_ok(v: CtView) -> bool {
    &&& params_ok(v.par)
    &&& v.level < v.par.moduli.len()
    &&& v.c.len() >= 2
    &&& forall|k: int| 0 <= k < v.c.len() ==> #[trigger] fits(v.c[k], v.par, v.level)
}

/// Components that form a ciphertext: at least two, all with the shape of the
/// first, whose row count names a context of `par`.
pub open spec fn components_ok(c: Seq<Seq<Seq<u64>>>, par: ParamsView) -> bool {
    &&& c.len() >= 2
    &&& 1 <= c[0].len() <= par.moduli.len()
    &&& forall|k: int| 0 <= k < c.len() ==> #[trigger] shaped(c[k], c[0].len(), par.degree)
}

/// A ciphertext of the BFV scheme.
pub struct Ciphertext {
    par: BfvParameters,
    level: usize,
    c: Vec<Poly>,
}

impl View for Ciphertext {
    type V = CtView;

    closed spec fn view(&self) -> CtView {
        CtView { par: self.par@, level: self.level as nat, c: views(self.c@) }
    }
}

impl Ciphertext {
    #[verifier::type_invariant]
    closed spec fn inv(self) -> bool {
        ct_ok(self@)
    }

    /// Builds a ciphertext from its components; its level follows from their
    /// number of rows.
    pub fn new(c: Vec<Poly>, par: &BfvParameters) -> (r: Result<Ciphertext, Error>)
        ensures
            r is Ok <==> components_ok(views(c@), par@),
            r matches Ok(ct) ==> ct@ == (CtView {
                par: par@,
                level: (par@.moduli.len() - views(c@)[0].len()) as nat,
                c: views(c@),
            }),
            r is Err ==> r == Err::<Ciphertext, Error>(Error::ShapeMismatch),
    {
        let n_all = par.moduli().len();
        let degree = par.degree();
        if c.len() < 2 {
            return Err(Error::ShapeMismatch);
        }
        let n = c[0].rows().len();
        assert(n == c@[0]@.len());
        if n == 0 || n > n_all {
            return Err(Error::ShapeMismatch);
        }
        let mut k: usize = 0;
        while k < c.len()
            invariant
                k <= c@.len(),
                n == views(c@)[0].len(),
                degree == par@.degree,
                forall|j: int| 0 <= j < k ==> #[trigger] shaped(c@[j]@, n as nat, degree as nat),
            decreases c.len() - k,
        {
            if !c[k].has_shape(n, degree) {
                assert(views(c@)[k as int] == c@[k as int]@);
                assert(!shaped(views(c@)[k as int], views(c@)[0].len(), par@.degree));
                assert(views(c@).len() == c@.len());
                return Err(Error::ShapeMismatch);
            }
            k = k + 1;
        }
        let ct = Ciphertext { par: par.duplicate(), level: n_all - n, c };
        assert forall|j: int| 0 <= j < ct@.c.len() implies #[trigger] fits(ct@.c[j], ct@.par, ct@.level) by {
            assert(shaped(ct.c@[j]@, n as nat, degree as nat));
        }
        assert(components_ok(views(ct.c@), par@)) by {
            assert forall|j: int| 0 <= j < ct.c@.len() implies #[trigger] shaped(views(ct.c@)[j], views(ct.c@)[0].len(), par@.degree) by {
                assert(shaped(ct.c@[j]@, n as nat, degree as nat));
            }
        }
        Ok(ct)
    }

    /// The parameters the ciphertext belongs to.
    pub fn par(&self) -> (r: &BfvParameters)
        ensures
            r@ == self@.par,
            ct_ok(self@),
    {
        proof {
            use_type_invariant(self);
        }
        &self.par
    }

    /// The level of the ciphertext.
    pub fn level(&self) -> (r: usize)
        ensures
            r == self@.level,
            ct_ok(self@),
    {
        proof {
            use_type_invariant(self);
        }
        self.level
    }

    /// The components.
    pub fn c(&self) -> (r: &Vec<Poly>)
        ensures
            views(r@) == self@.c,
            ct_ok(self@),
    {
        proof {
            use_type_invariant(self);
        }
        &self.c
    }

    /// An equal ciphertext.
    pub fn duplicate(&self) -> (r: Ciphertext)
        ensures
            r@ == self@,
    {
        proof {
            use_type_invariant(self);
        }
        let mut c: Vec<Poly> = Vec::with_capacity(self.c.len());
        let mut k: usize = 0;
        while k < self.c.len()
            invariant
                k <= self.c@.len(),
                c@.len() == k,
                forall|j: int| 0 <= j < k ==> #[trigger] c@[j]@ == self.c@[j]@,
            decreases self.c.len() - k,
        {
            c.push(self.c[k].duplicate());
            k = k + 1;
        }
        assert(views(c@) =~= views(self.c@));
        Ciphertext { par: self.par.duplicate(), level: self.level, c }
    }

    /// The same ciphertext one level down: every component is switched to the
    /// next smaller modulus chain.
    pub fn mod_switch_to_next_level(&self) -> (r: Result<Ciphertext, Error>)
        ensures
            self@.level + 1 >= self@.par.moduli.len() ==> r == Err::<Ciphertext, Error>(
                Error::InvalidLevel((self@.level + 1) as usize),
            ),
            self@.level + 1 < self@.par.moduli.len() ==> r is Ok,
            r matches Ok(ct) ==> ct@.par == self@.par && ct@.level == self@.level + 1
                && ct@.c.len() == self@.c.len()
                && forall|k: int| 0 <= k < ct@.c.len() ==> #[trigger] ct@.c[k] == switch_step(self@.c[k], self@.par, self@.level),
    {
        proof {
            use_type_invariant(self);
        }
        let n_all = self.par.moduli().len();
        if self.level >= n_all - 1 {
            return Err(Error::InvalidLevel(self.level + 1));
        }
        let next = self.level + 1;
        let ctx = self.par.context(self.level);
        let degree = self.par.degree();
        let moduli = self.par.ctx_at_level(self.level)?;
        let mut c: Vec<Poly> = Vec::with_capacity(self.c.len());
        let mut k: usize = 0;
        while k < self.c.len()
            invariant
                ct_ok(self@),
                next == self@.level + 1,
                next < self@.par.moduli.len(),
                k <= self.c@.len(),
                c@.len() == k,
                degree == self@.par.degree,
                moduli@ == level_moduli(self@.par, self@.level),
                moduli_ok(moduli@),
                ctx.moduli_view() == moduli@,
                ctx.degree_view() == degree,
                forall|j: int| 0 <= j < k ==> #[trigger] fits(c@[j]@, self@.par, next as nat),
                forall|j: int| 0 <= j < k ==> #[trigger] c@[j]@ == switch_step(self@.c[j], self@.par, self@.level),
            decreases self.c.len() - k,
        {
            assert(self.c@[k as int]@ == self@.c[k as int]);
            assert(fits(self@.c[k as int], self@.par, self@.level));
            let red = self.c[k].reduce(&moduli);
            let p = Poly::from_rows(switch_down(ctx, red.rows()));
            assert(level_moduli(self@.par, next as nat) =~= level_moduli(self@.par, self@.level).subrange(0, level_moduli(self@.par, self@.level).len() - 1));
            c.push(p);
            k = k + 1;
        }
        assert(views(c@).len() == self@.c.len());
        let ct = Ciphertext { par: self.par.duplicate(), level: next, c };
        Ok(ct)
    }
}

/// A collective public key: a two-component encryption of zero.
pub struct PublicKey {
    c: Ciphertext,
}

impl View for PublicKey {
    type V = CtView;

    closed spec fn view(&self) -> CtView {
        self.c@
    }
}

impl PublicKey {
    #[verifier::type_invariant]
    closed spec fn inv(self) -> bool {
        self.c@.c.len() == 2
    }

    /// The public key `(c[0], c[1])`; fails unless it has exactly two components.
    pub fn from_ciphertext(c: Ciphertext) -> (r: Result<PublicKey, Error>)
        ensures
            r is Ok <==> c@.c.len() == 2,
            r matches Ok(pk) ==> pk@ == c@,
            r is Err ==> r == Err::<PublicKey, Error>(Error::ShapeMismatch),
    {
        if c.c().len() != 2 {
            return Err(Error::ShapeMismatch);
        }
        Ok(PublicKey { c })
    }

    /// The key as a ciphertext.
    pub fn c(&self) -> (r: &Ciphertext)
        ensures
            r@ == self@,
            self@.c.len() == 2,
            ct_ok(self@),
    {
        proof {
            use_type_invariant(self);
            use_type_invariant(&self.c);
        }
        &self.c
    }

    /// The key advanced by modulus switches to `level`, which must not lie
    /// above the key's own level.
    pub fn switched_to_level(&self, level: usize) -> (r: Result<PublicKey, Error>)
        ensures
            r is Ok <==> self@.level <= level < self@.par.moduli.len(),
            r is Err ==> r == Err::<PublicKey, Error>(Error::InvalidLevel(level)),
            r matches Ok(pk) ==> pk@.par == self@.par && pk@.level == level && pk@.c.len() == 2
                && pk@.c[0] == switch_to(self@.c[0], self@.par, self@.level, level as nat)
                && pk@.c[1] == switch_to(self@.c[1], self@.par, self@.level, level as nat),
    {
        proof {
            use_type_invariant(self);
            use_type_invariant(&self.c);
        }
        if level < self.c.level() || level >= self.c.par().moduli().len() {
            return Err(Error::InvalidLevel(level));
        }
        let mut ct = self.c.duplicate();
        while ct.level() < level
            invariant
                ct@.par == self@.par,
                ct@.c.len() == 2,
                self@.level <= ct@.level <= level,
                level < self@.par.moduli.len(),
                ct@.c[0] == switch_to(self@.c[0], self@.par, self@.level, ct@.level),
                ct@.c[1] == switch_to(self@.c[1], self@.par, self@.level, ct@.level),
            decreases level - ct@.level,
        {
            let ghost prev = ct@;
            match ct.mod_switch_to_next_level() {
                Ok(next) => {
                    ct = next;
                },
                Err(e) => {
                    return Err(e);
                },
            }
            assert(ct@.c[0] == switch_step(prev.c[0], self@.par, prev.level));
            assert(ct@.c[1] == switch_step(prev.c[1], self@.par, prev.level));
        }
        Ok(PublicKey { c: ct })
    }
}

/// What key-switching material holds.
pub struct KskView {
    pub par: ParamsView,
    pub c0: Seq<Seq<Seq<u64>>>,
    pub c1: Seq<Seq<Seq<u64>>>,
    pub ciphertext_level: nat,
    pub ksk_level: nat,
}

/// Key-switching material: for each modulus `i`, the pair `(c0[i], c1[i])`.
pub struct KeySwitchingKey {
    par: BfvParameters,
    c0: Vec<Poly>,
    c1: Vec<Poly>,
    ciphertext_level: usize,
    ksk_level: usize,
}

impl View for KeySwitchingKey {
    type V = KskView;

    closed spec fn view(&self) -> KskView {
        KskView {
            par: self.par@,
            c0: views(self.c0@),
            c1: views(self.c1@),
            ciphertext_level: self.ciphertext_level as nat,
            ksk_level: self.ksk_level as nat,
        }
    }
}

impl KeySwitchingKey {
    pub(crate) fn new(par: BfvParameters, c0: Vec<Poly>, c1: Vec<Poly>, ciphertext_level: usize, ksk_level: usize) -> (r: KeySwitchingKey)
        ensures
            r@ == (KskView {
                par: par@,
                c0: views(c0@),
                c1: views(c1@),
                ciphertext_level: ciphertext_level as nat,
                ksk_level: ksk_level as nat,
            }),
    {
        KeySwitchingKey { par, c0, c1, ciphertext_level, ksk_level }
    }

    /// The parameters the key belongs to.
    pub fn par(&self) -> (r: &BfvParameters)
        ensures
            r@ == self@.par,
    {
        &self.par
    }

    /// The first components.
    pub fn c0(&self) -> (r: &Vec<Poly>)
        ensures
            views(r@) == self@.c0,
    {
        &self.c0
    }

    /// The second components.
    pub fn c1(&self) -> (r: &Vec<Poly>)
        ensures
            views(r@) == self@.c1,
    {
        &self.c1
    }

    /// The level of the ciphertexts the key applies to.
    pub fn ciphertext_level(&self) -> (r: usize)
        ensures
            r == self@.ciphertext_level,
    {
        self.ciphertext_level
    }

    /// The level of the key material.
    pub fn ksk_level(&self) -> (r: usize)
        ensures
            r == self@.ksk_level,
    {
        self.ksk_level
    }
}

/// A relinearization key: key-switching material from the square of the
/// secret to the secret.
pub struct RelinearizationKey {
    ksk: KeySwitchingKey,
}

impl View for RelinearizationKey {
    type V = KskView;

    closed spec fn view(&self) -> KskView {
        self.ksk@
    }
}

impl RelinearizationKey {
    pub(crate) fn new(ksk: KeySwitchingKey) -> (r: RelinearizationKey)
        ensures
            r@ == ksk@,
    {
        RelinearizationKey { ksk }
    }

    /// The key-switching material.
    pub fn ksk(&self) -> (r: &KeySwitchingKey)
        ensures
            r@ == self@,
    {
        &self.ksk
    }
}
} // verus!
