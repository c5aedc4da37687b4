//! Common random polynomials: public randomness that every party of a run uses
//! identically.
use vstd::prelude::*;
use crate::bfv::{fits, level_moduli, BfvParameters};
use crate::errors::Error;
use crate::math::reduced;
use crate::ring::Poly;
use rand::rngs::StdRng;

verus! {

/// A uniform ring element in evaluation representation at level 0.
pub fn generate_crp(par: &BfvParameters, rng: &mut StdRng) -> (r: Result<Poly, Error>)
    ensures
        r is Ok,
        r matches Ok(p) ==> fits(p@, par@, 0) && reduced(p@, par@.moduli),
{
    let _ = par.moduli();
    let r = generate_crp_leveled(par, 0, rng);
    assert(level_moduli(par@, 0) =~= par@.moduli);
    r
}

/// One uniform ring element at level 0 per modulus of the chain, as the
/// relinearization key protocol needs.
pub fn generate_crp_vec(par: &BfvParameters, rng: &mut StdRng) -> (r: Result<Vec<Poly>, Error>)
    ensures
        r is Ok,
        r matches Ok(v) ==> v@.len() == par@.moduli.len(),
        r matches Ok(v) ==> forall|i: int| 0 <= i < v@.len() ==> #[trigger] fits(v@[i]@, par@, 0),
        r matches Ok(v) ==> forall|i: int| 0 <= i < v@.len() ==> #[trigger] reduced(v@[i]@, par@.moduli),
{
    let n = par.moduli().len();
    let mut v: Vec<Poly> = Vec::with_capacity(n);
    let mut i: usize = 0;
    while i < n
        invariant
            n == par@.moduli.len(),
            i <= n,
            v@.len() == i,
            forall|k: int| 0 <= k < i ==> #[trigger] fits(v@[k]@, par@, 0),
            forall|k: int| 0 <= k < i ==> #[trigger] reduced(v@[k]@, par@.moduli),
            par@.moduli.len() >= 1,
        decreases n - i,
    {
        let p = generate_crp_leveled(par, 0, rng)?;
        assert(level_moduli(par@, 0) =~= par@.moduli);
        v.push(p);
        i = i + 1;
    }
    Ok(v)
}

/// A uniform ring element in evaluation representation at `level`; fails when
/// no context exists at that level.
pub fn generate_crp_leveled(par: &BfvParameters, level: usize, rng: &mut StdRng) -> (r: Result<Poly, Error>)
    ensures
        r is Ok <==> level < par@.moduli.len(),
        r is Err ==> r == Err::<Poly, Error>(Error::InvalidLevel(level)) && *final(rng) == *old(rng),
        r matches Ok(p) ==> fits(p@, par@, level as nat) && reduced(p@, level_moduli(par@, level as nat)),
{
    let n_all = par.moduli().len();
    if level >= n_all {
        return Err(Error::InvalidLevel(level));
    }
    Ok(par.uniform_at(level, rng))
}

} // verus!
