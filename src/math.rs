//! The ring layer: contexts, sampling, lifting into evaluation representation,
//! RNS reconstruction weights and modulus switching, all provided by `fhe_math`.
//!
//! Ring elements cross this boundary as residue rows, one per modulus. A
//! [`RingContext`] keeps an `fhe_math` context beside the moduli and degree it
//! was built for, so that the contracts can speak of them.
use vstd::prelude::*;
use crate::errors::Error;
use crate::ring::{moduli_ok, poly_add, poly_mul, poly_neg, poly_sub, shaped};
use fhe_math::rns::RnsContext;
use fhe_math::rq::traits::TryConvertFrom;
use fhe_math::rq::{Context, Poly, Representation};
use rand::rngs::StdRng;
use std::sync::Arc;
use zeroize::Zeroize;

verus! {

#[verifier::external_type_specification]
#[verifier::external_body]
pub struct ExStdRng(StdRng);

#[verifier::external_type_specification]
#[verifier::external_body]
pub struct ExContext(Context);

/// The slot `(i, j)` of `p` lies below the `i`-th modulus.
pub open spec fn reduced(p: Seq<Seq<u64>>, moduli: Seq<u64>) -> bool {
    forall|i: int, j: int| 0 <= i < p.len() && 0 <= j < p[i].len() ==> #[trigger] p[i][j] < moduli[i]
}

/// The evaluation representation of the polynomial with signed coefficients
/// `coeffs` (missing ones zero) in the ring of the given degree over the given moduli.
pub uninterp spec fn ntt_lift(moduli: Seq<u64>, degree: nat, coeffs: Seq<i64>) -> Seq<Seq<u64>>;

/// The evaluation representation of `p` after one modulus switch: division by
/// the last modulus with rounding, which then leaves the basis.
pub uninterp spec fn switched_down(moduli: Seq<u64>, degree: nat, p: Seq<Seq<u64>>) -> Seq<Seq<u64>>;

/// `e` is the lift of `degree` coefficients of absolute value at most `2 * variance`.
pub open spec fn small_noise(e: Seq<Seq<u64>>, moduli: Seq<u64>, degree: nat, variance: nat) -> bool {
    exists|c: Seq<i64>| #![trigger ntt_lift(moduli, degree, c)]
        c.len() == degree
        && (forall|k: int| 0 <= k < c.len() ==> -2 * variance <= #[trigger] c[k] <= 2 * variance)
        && e == ntt_lift(moduli, degree, c)
}

/// A ring context of `fhe_math` together with the moduli and degree it was built for.
pub struct RingContext {
    moduli: Vec<u64>,
    degree: usize,
    ctx: Arc<Context>,
}

impl RingContext {
    /// The moduli of the context.
    pub closed spec fn moduli_view(&self) -> Seq<u64> {
        self.moduli@
    }

    /// The ring degree of the context.
    pub closed spec fn degree_view(&self) -> nat {
        self.degree as nat
    }

    /// The same context.
    pub fn duplicate(&self) -> (r: RingContext)
        ensures
            r.moduli_view() == self.moduli_view(),
            r.degree_view() == self.degree_view(),
    {
        let mut m: Vec<u64> = Vec::with_capacity(self.moduli.len());
        let mut i: usize = 0;
        while i < self.moduli.len()
            invariant
                i <= self.moduli@.len(),
                m@ == self.moduli@.subrange(0, i as int),
            decreases self.moduli.len() - i,
        {
            m.push(self.moduli[i]);
            i = i + 1;
            assert(m@ =~= self.moduli@.subrange(0, i as int));
        }
        assert(m@ =~= self.moduli@);
        RingContext { moduli: m, degree: self.degree, ctx: share_context(&self.ctx) }
    }
}

/// Relies on `Arc::clone`: another handle on the same context.
#[verifier::external_body]
fn share_context(ctx: &Arc<Context>) -> Arc<Context> {
    Arc::clone(ctx)
}

/// Relies on `Context::new_arc`: it accepts only a non-empty list of distinct
/// primes above one that support an NTT of the given degree, a power of two
/// of at least 8.
#[verifier::external_body]
pub(crate) fn new_context(moduli: &Vec<u64>, degree: usize) -> (r: Result<RingContext, Error>)
    ensures
        r matches Ok(c) ==> c.moduli_view() == moduli@ && c.degree_view() == degree,
        r is Ok ==> moduli@.len() >= 1 && moduli_ok(moduli@) && degree >= 8,
        r is Err ==> r->Err_0 is MathError,
{
    let ctx = Context::new_arc(moduli.as_slice(), degree).map_err(|e| Error::MathError(e.to_string()))?;
    Ok(RingContext { moduli: moduli.clone(), degree, ctx })
}

/// Relies on `Context::context_at_level`: below the number of moduli it
/// succeeds, with the context built for the chain without its last `level` moduli.
#[verifier::external_body]
pub(crate) fn context_at_level(c: &RingContext, level: usize) -> (r: RingContext)
    requires
        level < c.moduli_view().len(),
    ensures
        r.moduli_view() == c.moduli_view().subrange(0, c.moduli_view().len() - level),
        r.degree_view() == c.degree_view(),
{
    let ctx = c.ctx.context_at_level(level).unwrap();
    RingContext { moduli: ctx.moduli().to_vec(), degree: c.degree, ctx }
}

/// Relies on `Poly::random` in `Representation::Ntt`: every slot of row `i` is
/// drawn uniformly below the `i`-th modulus of the context.
#[verifier::external_body]
pub(crate) fn sample_uniform(c: &RingContext, rng: &mut StdRng) -> (r: Vec<Vec<u64>>)
    ensures
        shaped(r@.map_values(|v: Vec<u64>| v@), c.moduli_view().len(), c.degree_view()),
        reduced(r@.map_values(|v: Vec<u64>| v@), c.moduli_view()),
{
    let p = Poly::random(&c.ctx, Representation::Ntt, rng);
    p.coefficients().outer_iter().map(|row| row.to_vec()).collect()
}

/// Relies on `Poly::small` in `Representation::Ntt`; the forward NTT ends
/// with a reducing butterfly, so every slot lies below its modulus. It draws `degree`
/// centered binomial coefficients of the given variance (`sample_vec_cbd`,
/// each of absolute value at most twice the variance) and lifts them as
/// `try_convert_from` does; it fails only for a variance outside 1..=16.
#[verifier::external_body]
pub(crate) fn sample_small(c: &RingContext, variance: usize, rng: &mut StdRng) -> (r: Vec<Vec<u64>>)
    requires
        1 <= variance <= 16,
    ensures
        shaped(r@.map_values(|v: Vec<u64>| v@), c.moduli_view().len(), c.degree_view()),
        small_noise(r@.map_values(|v: Vec<u64>| v@), c.moduli_view(), c.degree_view(), variance as nat),
        reduced(r@.map_values(|v: Vec<u64>| v@), c.moduli_view()),
{
    let p = Poly::small(&c.ctx, Representation::Ntt, variance, rng).unwrap();
    p.coefficients().outer_iter().map(|row| row.to_vec()).collect()
}

/// Relies on `Poly::try_convert_from` of at most `degree` signed coefficients
/// in `Representation::PowerBasis`, in constant time, then
/// `change_representation` to `Representation::Ntt`, whose last butterfly
/// reduces every slot below its modulus.
#[verifier::external_body]
pub(crate) fn lift_secret(c: &RingContext, coeffs: &Vec<i64>) -> (r: Vec<Vec<u64>>)
    requires
        coeffs@.len() <= c.degree_view(),
    ensures
        shaped(r@.map_values(|v: Vec<u64>| v@), c.moduli_view().len(), c.degree_view()),
        r@.map_values(|v: Vec<u64>| v@) == ntt_lift(c.moduli_view(), c.degree_view(), coeffs@),
        reduced(r@.map_values(|v: Vec<u64>| v@), c.moduli_view()),
{
    let mut p = Poly::try_convert_from(coeffs.as_slice(), &c.ctx, false, Representation::PowerBasis).unwrap();
    p.change_representation(Representation::Ntt);
    p.coefficients().outer_iter().map(|row| row.to_vec()).collect()
}

/// Relies on `RnsContext::get_garner` and `RnsContext::project`: the `i`-th
/// Garner weight is `(Q / q_i) * ((Q / q_i)^-1 mod q_i)`, so its residue is one
/// modulo `q_i` and zero modulo every other modulus. The moduli of a context
/// already passed `RnsContext::new`.
#[verifier::external_body]
pub(crate) fn garner_residues(c: &RingContext, i: usize) -> (r: Vec<u64>)
    requires
        i < c.moduli_view().len(),
    ensures
        r@.len() == c.moduli_view().len(),
        forall|j: int| 0 <= j < r@.len() ==> #[trigger] r@[j] == (if j == i { 1u64 } else { 0u64 }),
{
    let rns = RnsContext::new(c.moduli.as_slice()).unwrap();
    rns.project(rns.get_garner(i).unwrap())
}

/// Relies on `Poly::switch_down`, taken in `Representation::PowerBasis` between
/// two `change_representation` calls, on reduced slots.
#[verifier::external_body]
pub(crate) fn switch_down(c: &RingContext, rows: &Vec<Vec<u64>>) -> (r: Vec<Vec<u64>>)
    requires
        c.moduli_view().len() >= 2,
        shaped(rows@.map_values(|v: Vec<u64>| v@), c.moduli_view().len(), c.degree_view()),
        reduced(rows@.map_values(|v: Vec<u64>| v@), c.moduli_view()),
    ensures
        shaped(r@.map_values(|v: Vec<u64>| v@), (c.moduli_view().len() - 1) as nat, c.degree_view()),
        r@.map_values(|v: Vec<u64>| v@) == switched_down(c.moduli_view(), c.degree_view(), rows@.map_values(|v: Vec<u64>| v@)),
{
    let mut p = Poly::try_convert_from(rows.concat(), &c.ctx, false, Representation::Ntt).unwrap();
    p.change_representation(Representation::PowerBasis);
    p.switch_down().unwrap();
    p.change_representation(Representation::Ntt);
    p.coefficients().outer_iter().map(|row| row.to_vec()).collect()
}

/// Relies on `AddAssign<&Poly> for Poly` in `Representation::Ntt` with
/// variable-time computations disallowed: `Modulus::add_vec`, slot-wise
/// `(a + b) mod q` on reduced slots, in constant time.
#[verifier::external_body]
pub(crate) fn ct_add(c: &RingContext, a: &Vec<Vec<u64>>, b: &Vec<Vec<u64>>) -> (r: Vec<Vec<u64>>)
    requires
        shaped(a@.map_values(|v: Vec<u64>| v@), c.moduli_view().len(), c.degree_view()),
        shaped(b@.map_values(|v: Vec<u64>| v@), c.moduli_view().len(), c.degree_view()),
        reduced(a@.map_values(|v: Vec<u64>| v@), c.moduli_view()),
        reduced(b@.map_values(|v: Vec<u64>| v@), c.moduli_view()),
    ensures
        r@.map_values(|v: Vec<u64>| v@) == poly_add(a@.map_values(|v: Vec<u64>| v@), b@.map_values(|v: Vec<u64>| v@), c.moduli_view()),
{
    let mut p = Poly::try_convert_from(a.concat(), &c.ctx, false, Representation::Ntt).unwrap();
    p += &Poly::try_convert_from(b.concat(), &c.ctx, false, Representation::Ntt).unwrap();
    p.coefficients().outer_iter().map(|row| row.to_vec()).collect()
}

/// Relies on `SubAssign<&Poly> for Poly` in `Representation::Ntt` with
/// variable-time computations disallowed: `Modulus::sub_vec`, slot-wise
/// `(a - b) mod q` on reduced slots, in constant time.
#[verifier::external_body]
pub(crate) fn ct_sub(c: &RingContext, a: &Vec<Vec<u64>>, b: &Vec<Vec<u64>>) -> (r: Vec<Vec<u64>>)
    requires
        shaped(a@.map_values(|v: Vec<u64>| v@), c.moduli_view().len(), c.degree_view()),
        shaped(b@.map_values(|v: Vec<u64>| v@), c.moduli_view().len(), c.degree_view()),
        reduced(a@.map_values(|v: Vec<u64>| v@), c.moduli_view()),
        reduced(b@.map_values(|v: Vec<u64>| v@), c.moduli_view()),
    ensures
        r@.map_values(|v: Vec<u64>| v@) == poly_sub(a@.map_values(|v: Vec<u64>| v@), b@.map_values(|v: Vec<u64>| v@), c.moduli_view()),
{
    let mut p = Poly::try_convert_from(a.concat(), &c.ctx, false, Representation::Ntt).unwrap();
    p -= &Poly::try_convert_from(b.concat(), &c.ctx, false, Representation::Ntt).unwrap();
    p.coefficients().outer_iter().map(|row| row.to_vec()).collect()
}

/// Relies on `Neg for &Poly` in `Representation::Ntt` with variable-time
/// computations disallowed: `Modulus::neg_vec`, slot-wise `(q - a) mod q` on
/// reduced slots, in constant time.
#[verifier::external_body]
pub(crate) fn ct_neg(c: &RingContext, a: &Vec<Vec<u64>>) -> (r: Vec<Vec<u64>>)
    requires
        shaped(a@.map_values(|v: Vec<u64>| v@), c.moduli_view().len(), c.degree_view()),
        reduced(a@.map_values(|v: Vec<u64>| v@), c.moduli_view()),
    ensures
        r@.map_values(|v: Vec<u64>| v@) == poly_neg(a@.map_values(|v: Vec<u64>| v@), c.moduli_view()),
{
    let p = Poly::try_convert_from(a.concat(), &c.ctx, false, Representation::Ntt).unwrap();
    (-&p).coefficients().outer_iter().map(|row| row.to_vec()).collect()
}

/// Relies on `MulAssign<&Poly> for Poly` in `Representation::Ntt` with
/// variable-time computations disallowed: `Modulus::mul_vec`, slot-wise
/// `(a * b) mod q` by Barrett reduction on reduced slots, in constant time.
#[verifier::external_body]
pub(crate) fn ct_mul(c: &RingContext, a: &Vec<Vec<u64>>, b: &Vec<Vec<u64>>) -> (r: Vec<Vec<u64>>)
    requires
        shaped(a@.map_values(|v: Vec<u64>| v@), c.moduli_view().len(), c.degree_view()),
        shaped(b@.map_values(|v: Vec<u64>| v@), c.moduli_view().len(), c.degree_view()),
        reduced(a@.map_values(|v: Vec<u64>| v@), c.moduli_view()),
        reduced(b@.map_values(|v: Vec<u64>| v@), c.moduli_view()),
    ensures
        r@.map_values(|v: Vec<u64>| v@) == poly_mul(a@.map_values(|v: Vec<u64>| v@), b@.map_values(|v: Vec<u64>| v@), c.moduli_view()),
{
    let mut p = Poly::try_convert_from(a.concat(), &c.ctx, false, Representation::Ntt).unwrap();
    p *= &Poly::try_convert_from(b.concat(), &c.ctx, false, Representation::Ntt).unwrap();
    p.coefficients().outer_iter().map(|row| row.to_vec()).collect()
}

/// Relies on `Zeroize for Vec<Vec<u64>>`: every slot is overwritten with zero,
/// then the rows are cleared.
#[verifier::external_body]
pub(crate) fn wipe(rows: &mut Vec<Vec<u64>>)
    ensures
        final(rows)@.len() == 0,
{
    rows.zeroize()
}

} // verus!
