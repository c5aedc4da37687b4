//! Ring elements in evaluation (NTT) representation over an RNS basis.
//!
//! In evaluation representation the ring operations act slot by slot: each
//! residue row `i` is reduced modulo the `i`-th modulus, and addition,
//! subtraction, negation and multiplication are taken pointwise.
//!
//! The public operations here reduce with the `%` operator, whose running time
//! may depend on the operands; they serve public data such as shares being
//! aggregated. Every operation on secret-derived values goes through the
//! constant-time arithmetic of `fhe_math` (`mul_add`, `mul_add2`,
//! `neg_mul_add`, `mul_secret`, `sub_secret`), with variable-time
//! computations disallowed, and `keep_row` selects rows by public weights.
use vstd::prelude::*;
use vstd::arithmetic::div_mod::{lemma_add_mod_noop, lemma_mod_twice};
use crate::math::{ct_add, ct_mul, ct_neg, ct_sub, reduced, RingContext};

verus! {

/// A ring element in evaluation representation: one row of `degree` slots per
/// modulus of its context.
pub struct Poly {
    rows: Vec<Vec<u64>>,
}

impl View for Poly {
    type V = Seq<Seq<u64>>;

    closed spec fn view(&self) -> Seq<Seq<u64>> {
        self.rows@.map_values(|r: Vec<u64>| r@)
    }
}

/// `p` has one row per modulus and `degree` slots per row.
pub open spec fn shaped(p: Seq<Seq<u64>>, n_moduli: nat, degree: nat) -> bool {
    &&& p.len() == n_moduli
    &&& forall|i: int| 0 <= i < p.len() ==> #[trigger] p[i].len() == degree
}

/// Every modulus is usable as a divisor.
pub open spec fn moduli_ok(moduli: Seq<u64>) -> bool {
    forall|i: int| 0 <= i < moduli.len() ==> #[trigger] moduli[i] > 1
}

pub open spec fn add_mod(a: u64, b: u64, q: u64) -> u64 {
    ((a as int + b as int) % (q as int)) as u64
}

pub open spec fn sub_mod(a: u64, b: u64, q: u64) -> u64 {
    ((a as int % q as int + q as int - b as int % q as int) % (q as int)) as u64
}

pub open spec fn neg_mod(a: u64, q: u64) -> u64 {
    ((q as int - a as int % q as int) % (q as int)) as u64
}

pub open spec fn mul_mod(a: u64, b: u64, q: u64) -> u64 {
    ((a as int * b as int) % (q as int)) as u64
}

/// Slot-wise sum of two ring elements.
pub open spec fn poly_add(a: Seq<Seq<u64>>, b: Seq<Seq<u64>>, moduli: Seq<u64>) -> Seq<Seq<u64>> {
    Seq::new(a.len(), |i: int| Seq::new(a[i].len(), |j: int| add_mod(a[i][j], b[i][j], moduli[i])))
}

/// Slot-wise difference `a - b` of two ring elements.
pub open spec fn poly_sub(a: Seq<Seq<u64>>, b: Seq<Seq<u64>>, moduli: Seq<u64>) -> Seq<Seq<u64>> {
    Seq::new(a.len(), |i: int| Seq::new(a[i].len(), |j: int| sub_mod(a[i][j], b[i][j], moduli[i])))
}

/// Slot-wise product of two ring elements.
pub open spec fn poly_mul(a: Seq<Seq<u64>>, b: Seq<Seq<u64>>, moduli: Seq<u64>) -> Seq<Seq<u64>> {
    Seq::new(a.len(), |i: int| Seq::new(a[i].len(), |j: int| mul_mod(a[i][j], b[i][j], moduli[i])))
}

/// Additive inverse of a ring element.
pub open spec fn poly_neg(a: Seq<Seq<u64>>, moduli: Seq<u64>) -> Seq<Seq<u64>> {
    Seq::new(a.len(), |i: int| Seq::new(a[i].len(), |j: int| neg_mod(a[i][j], moduli[i])))
}

/// Every slot reduced modulo its row's modulus.
pub open spec fn poly_reduce(a: Seq<Seq<u64>>, moduli: Seq<u64>) -> Seq<Seq<u64>> {
    Seq::new(a.len(), |i: int| Seq::new(a[i].len(), |j: int| (a[i][j] % moduli[i]) as u64))
}

/// Row `i` of `a` multiplied by the scalar residue `w[i]`.
pub open spec fn poly_scale(a: Seq<Seq<u64>>, w: Seq<u64>, moduli: Seq<u64>) -> Seq<Seq<u64>> {
    Seq::new(a.len(), |i: int| Seq::new(a[i].len(), |j: int| mul_mod(w[i], a[i][j], moduli[i])))
}

fn add_slot(a: u64, b: u64, q: u64) -> (r: u64)
    requires
        q > 1,
    ensures
        r == add_mod(a, b, q),
{
    let s: u128 = a as u128 + b as u128;
    (s % (q as u128)) as u64
}

fn sub_slot(a: u64, b: u64, q: u64) -> (r: u64)
    requires
        q > 1,
    ensures
        r == sub_mod(a, b, q),
{
    let s: u128 = (a % q) as u128 + q as u128 - (b % q) as u128;
    (s % (q as u128)) as u64
}

fn neg_slot(a: u64, q: u64) -> (r: u64)
    requires
        q > 1,
    ensures
        r == neg_mod(a, q),
{
    let s: u64 = q - a % q;
    s % q
}

fn mul_slot(a: u64, b: u64, q: u64) -> (r: u64)
    requires
        q > 1,
    ensures
        r == mul_mod(a, b, q),
{
    let x: u128 = a as u128;
    let y: u128 = b as u128;
    assert(x * y <= 0xffff_ffff_ffff_ffffu128 * 0xffff_ffff_ffff_ffffu128) by (nonlinear_arith)
        requires
            x <= 0xffff_ffff_ffff_ffffu128,
            y <= 0xffff_ffff_ffff_ffffu128,
    ;
    let s: u128 = x * y;
    (s % (q as u128)) as u64
}

/// The operation applied slot by slot by [`combine`].
#[derive(Clone, Copy, PartialEq, Eq, Structural)]
enum SlotOp {
    Add,
    Sub,
    Mul,
}

spec fn slot_spec(op: SlotOp, a: u64, b: u64, q: u64) -> u64 {
    match op {
        SlotOp::Add => add_mod(a, b, q),
        SlotOp::Sub => sub_mod(a, b, q),
        SlotOp::Mul => mul_mod(a, b, q),
    }
}

spec fn combine_spec(op: SlotOp, a: Seq<Seq<u64>>, b: Seq<Seq<u64>>, moduli: Seq<u64>) -> Seq<Seq<u64>> {
    match op {
        SlotOp::Add => poly_add(a, b, moduli),
        SlotOp::Sub => poly_sub(a, b, moduli),
        SlotOp::Mul => poly_mul(a, b, moduli),
    }
}

fn slot(op: SlotOp, a: u64, b: u64, q: u64) -> (r: u64)
    requires
        q > 1,
    ensures
        r == slot_spec(op, a, b, q),
{
    match op {
        SlotOp::Add => add_slot(a, b, q),
        SlotOp::Sub => sub_slot(a, b, q),
        SlotOp::Mul => mul_slot(a, b, q),
    }
}

fn combine_rows(op: SlotOp, a: &Vec<u64>, b: &Vec<u64>, q: u64) -> (r: Vec<u64>)
    requires
        q > 1,
        a.len() == b.len(),
    ensures
        r@.len() == a@.len(),
        forall|j: int| 0 <= j < a@.len() ==> #[trigger] r@[j] == slot_spec(op, a@[j], b@[j], q),
{
    let mut r: Vec<u64> = Vec::with_capacity(a.len());
    let mut j: usize = 0;
    while j < a.len()
        invariant
            q > 1,
            a.len() == b.len(),
            j <= a.len(),
            r@.len() == j,
            forall|k: int| 0 <= k < j ==> #[trigger] r@[k] == slot_spec(op, a@[k], b@[k], q),
        decreases a.len() - j,
    {
        r.push(slot(op, a[j], b[j], q));
        j = j + 1;
    }
    r
}

fn combine(op: SlotOp, a: &Poly, b: &Poly, moduli: &Vec<u64>) -> (r: Poly)
    requires
        moduli_ok(moduli@),
        a@.len() == moduli@.len(),
        b@.len() == moduli@.len(),
        forall|i: int| 0 <= i < a@.len() ==> #[trigger] a@[i].len() == b@[i].len(),
    ensures
        r@ == combine_spec(op, a@, b@, moduli@),
{
    let mut rows: Vec<Vec<u64>> = Vec::with_capacity(a.rows.len());
    let mut i: usize = 0;
    while i < a.rows.len()
        invariant
            moduli_ok(moduli@),
            a@.len() == moduli@.len(),
            b@.len() == moduli@.len(),
            forall|k: int| 0 <= k < a@.len() ==> #[trigger] a@[k].len() == b@[k].len(),
            i <= a@.len(),
            rows@.len() == i,
            forall|k: int| 0 <= k < i ==> #[trigger] rows@[k]@ == combine_spec(op, a@, b@, moduli@)[k],
        decreases a@.len() - i,
    {
        assert(a.rows[i as int]@ == a@[i as int]);
        assert(b.rows[i as int]@ == b@[i as int]);
        assert(moduli@[i as int] > 1);
        let row = combine_rows(op, &a.rows[i], &b.rows[i], moduli[i]);
        assert(row@ =~= combine_spec(op, a@, b@, moduli@)[i as int]);
        rows.push(row);
        i = i + 1;
    }
    let r = Poly { rows };
    assert(r@ =~= combine_spec(op, a@, b@, moduli@));
    r
}

impl Poly {
    /// Builds a ring element from its residue rows, one per modulus.
    pub fn from_rows(rows: Vec<Vec<u64>>) -> (r: Poly)
        ensures
            r@ == rows@.map_values(|v: Vec<u64>| v@),
    {
        Poly { rows }
    }

    /// The residue rows, one per modulus.
    pub fn rows(&self) -> (r: &Vec<Vec<u64>>)
        ensures
            r@.map_values(|v: Vec<u64>| v@) == self@,
    {
        &self.rows
    }

    /// Slot-wise sum modulo each row's modulus.
    pub fn add(&self, other: &Poly, moduli: &Vec<u64>) -> (r: Poly)
        requires
            moduli_ok(moduli@),
            self@.len() == moduli@.len(),
            other@.len() == moduli@.len(),
            forall|i: int| 0 <= i < self@.len() ==> #[trigger] self@[i].len() == other@[i].len(),
        ensures
            r@ == poly_add(self@, other@, moduli@),
    {
        combine(SlotOp::Add, self, other, moduli)
    }

    /// Slot-wise difference modulo each row's modulus.
    pub fn sub(&self, other: &Poly, moduli: &Vec<u64>) -> (r: Poly)
        requires
            moduli_ok(moduli@),
            self@.len() == moduli@.len(),
            other@.len() == moduli@.len(),
            forall|i: int| 0 <= i < self@.len() ==> #[trigger] self@[i].len() == other@[i].len(),
        ensures
            r@ == poly_sub(self@, other@, moduli@),
    {
        combine(SlotOp::Sub, self, other, moduli)
    }

    /// Slot-wise product modulo each row's modulus.
    pub fn mul(&self, other: &Poly, moduli: &Vec<u64>) -> (r: Poly)
        requires
            moduli_ok(moduli@),
            self@.len() == moduli@.len(),
            other@.len() == moduli@.len(),
            forall|i: int| 0 <= i < self@.len() ==> #[trigger] self@[i].len() == other@[i].len(),
        ensures
            r@ == poly_mul(self@, other@, moduli@),
    {
        combine(SlotOp::Mul, self, other, moduli)
    }
}


fn scale_row(a: &Vec<u64>, w: u64, q: u64) -> (r: Vec<u64>)
    requires
        q > 1,
    ensures
        r@.len() == a@.len(),
        forall|j: int| 0 <= j < a@.len() ==> #[trigger] r@[j] == mul_mod(w, a@[j], q),
{
    let mut r: Vec<u64> = Vec::with_capacity(a.len());
    let mut j: usize = 0;
    while j < a.len()
        invariant
            q > 1,
            j <= a.len(),
            r@.len() == j,
            forall|k: int| 0 <= k < j ==> #[trigger] r@[k] == mul_mod(w, a@[k], q),
        decreases a.len() - j,
    {
        r.push(mul_slot(w, a[j], q));
        j = j + 1;
    }
    r
}

fn neg_row(a: &Vec<u64>, q: u64) -> (r: Vec<u64>)
    requires
        q > 1,
    ensures
        r@.len() == a@.len(),
        forall|j: int| 0 <= j < a@.len() ==> #[trigger] r@[j] == neg_mod(a@[j], q),
{
    let mut r: Vec<u64> = Vec::with_capacity(a.len());
    let mut j: usize = 0;
    while j < a.len()
        invariant
            q > 1,
            j <= a.len(),
            r@.len() == j,
            forall|k: int| 0 <= k < j ==> #[trigger] r@[k] == neg_mod(a@[k], q),
        decreases a.len() - j,
    {
        r.push(neg_slot(a[j], q));
        j = j + 1;
    }
    r
}

fn copy_row(a: &Vec<u64>) -> (r: Vec<u64>)
    ensures
        r@ == a@,
{
    let mut r: Vec<u64> = Vec::with_capacity(a.len());
    let mut j: usize = 0;
    while j < a.len()
        invariant
            j <= a.len(),
            r@ == a@.subrange(0, j as int),
        decreases a.len() - j,
    {
        r.push(a[j]);
        j = j + 1;
        assert(r@ =~= a@.subrange(0, j as int));
    }
    assert(r@ =~= a@);
    r
}

impl Poly {
    /// Slot-wise additive inverse.
    pub fn neg(&self, moduli: &Vec<u64>) -> (r: Poly)
        requires
            moduli_ok(moduli@),
            self@.len() == moduli@.len(),
        ensures
            r@ == poly_neg(self@, moduli@),
    {
        let mut rows: Vec<Vec<u64>> = Vec::with_capacity(self.rows.len());
        let mut i: usize = 0;
        while i < self.rows.len()
            invariant
                moduli_ok(moduli@),
                self@.len() == moduli@.len(),
                i <= self@.len(),
                rows@.len() == i,
                forall|k: int| 0 <= k < i ==> #[trigger] rows@[k]@ == poly_neg(self@, moduli@)[k],
            decreases self@.len() - i,
        {
            assert(self.rows[i as int]@ == self@[i as int]);
            assert(moduli@[i as int] > 1);
            let row = neg_row(&self.rows[i], moduli[i]);
            assert(row@ =~= poly_neg(self@, moduli@)[i as int]);
            rows.push(row);
            i = i + 1;
        }
        let r = Poly { rows };
        assert(r@ =~= poly_neg(self@, moduli@));
        r
    }

    /// Row `i` multiplied by the scalar residue `w[i]`.
    pub fn scale(&self, w: &Vec<u64>, moduli: &Vec<u64>) -> (r: Poly)
        requires
            moduli_ok(moduli@),
            self@.len() == moduli@.len(),
            w@.len() == moduli@.len(),
        ensures
            r@ == poly_scale(self@, w@, moduli@),
    {
        let mut rows: Vec<Vec<u64>> = Vec::with_capacity(self.rows.len());
        let mut i: usize = 0;
        while i < self.rows.len()
            invariant
                moduli_ok(moduli@),
                self@.len() == moduli@.len(),
                w@.len() == moduli@.len(),
                i <= self@.len(),
                rows@.len() == i,
                forall|k: int| 0 <= k < i ==> #[trigger] rows@[k]@ == poly_scale(self@, w@, moduli@)[k],
            decreases self@.len() - i,
        {
            assert(self.rows[i as int]@ == self@[i as int]);
            assert(moduli@[i as int] > 1);
            let row = scale_row(&self.rows[i], w[i], moduli[i]);
            assert(row@ =~= poly_scale(self@, w@, moduli@)[i as int]);
            rows.push(row);
            i = i + 1;
        }
        let r = Poly { rows };
        assert(r@ =~= poly_scale(self@, w@, moduli@));
        r
    }

    /// An equal ring element.
    pub fn duplicate(&self) -> (r: Poly)
        ensures
            r@ == self@,
    {
        let mut rows: Vec<Vec<u64>> = Vec::with_capacity(self.rows.len());
        let mut i: usize = 0;
        while i < self.rows.len()
            invariant
                i <= self@.len(),
                rows@.len() == i,
                forall|k: int| 0 <= k < i ==> #[trigger] rows@[k]@ == self@[k],
            decreases self@.len() - i,
        {
            assert(self.rows[i as int]@ == self@[i as int]);
            rows.push(copy_row(&self.rows[i]));
            i = i + 1;
        }
        let r = Poly { rows };
        assert(r@ =~= self@);
        r
    }

    /// Overwrites every slot with zero and releases the rows.
    pub fn zeroize(&mut self)
        ensures
            final(self)@.len() == 0,
    {
        crate::math::wipe(&mut self.rows);
        assert(self@.len() == 0);
    }

    /// Whether the element has `n_moduli` rows of `degree` slots.
    pub fn has_shape(&self, n_moduli: usize, degree: usize) -> (r: bool)
        ensures
            r == shaped(self@, n_moduli as nat, degree as nat),
    {
        if self.rows.len() != n_moduli {
            return false;
        }
        let mut i: usize = 0;
        while i < self.rows.len()
            invariant
                i <= self@.len(),
                forall|k: int| 0 <= k < i ==> #[trigger] self@[k].len() == degree,
            decreases self@.len() - i,
        {
            assert(self.rows[i as int]@ == self@[i as int]);
            if self.rows[i].len() != degree {
                return false;
            }
            i = i + 1;
        }
        true
    }
}


/// `x * y + e`, slot by slot.
pub open spec fn poly_fma(x: Seq<Seq<u64>>, y: Seq<Seq<u64>>, e: Seq<Seq<u64>>, moduli: Seq<u64>) -> Seq<Seq<u64>> {
    poly_add(poly_mul(x, y, moduli), e, moduli)
}

/// `x * y + z + e`, slot by slot.
pub open spec fn poly_fma2(
    x: Seq<Seq<u64>>,
    y: Seq<Seq<u64>>,
    z: Seq<Seq<u64>>,
    e: Seq<Seq<u64>>,
    moduli: Seq<u64>,
) -> Seq<Seq<u64>> {
    poly_add(poly_add(poly_mul(x, y, moduli), z, moduli), e, moduli)
}

/// `-(x * y) + e`, slot by slot.
pub open spec fn poly_neg_fma(x: Seq<Seq<u64>>, y: Seq<Seq<u64>>, e: Seq<Seq<u64>>, moduli: Seq<u64>) -> Seq<Seq<u64>> {
    poly_add(poly_neg(poly_mul(x, y, moduli), moduli), e, moduli)
}

/// The sum of a non-empty list of ring elements, added from the first to the last.
pub open spec fn poly_sum(ps: Seq<Seq<Seq<u64>>>, moduli: Seq<u64>) -> Seq<Seq<u64>>
    decreases ps.len(),
{
    if ps.len() <= 1 {
        ps[0]
    } else {
        poly_add(poly_sum(ps.drop_last(), moduli), ps.last(), moduli)
    }
}

/// The slot-wise operations keep the shape of their first operand.
pub proof fn lemma_ops_shaped(a: Seq<Seq<u64>>, b: Seq<Seq<u64>>, w: Seq<u64>, moduli: Seq<u64>, n: nat, d: nat)
    requires
        shaped(a, n, d),
    ensures
        shaped(poly_add(a, b, moduli), n, d),
        shaped(poly_sub(a, b, moduli), n, d),
        shaped(poly_mul(a, b, moduli), n, d),
        shaped(poly_neg(a, moduli), n, d),
        shaped(poly_scale(a, w, moduli), n, d),
{
}

/// A sum of ring elements of one shape has that shape.
pub proof fn lemma_sum_shaped(ps: Seq<Seq<Seq<u64>>>, moduli: Seq<u64>, n: nat, d: nat)
    requires
        ps.len() >= 1,
        forall|k: int| 0 <= k < ps.len() ==> #[trigger] shaped(ps[k], n, d),
    ensures
        shaped(poly_sum(ps, moduli), n, d),
    decreases ps.len(),
{
    if ps.len() > 1 {
        lemma_sum_shaped(ps.drop_last(), moduli, n, d);
        lemma_ops_shaped(poly_sum(ps.drop_last(), moduli), ps.last(), Seq::empty(), moduli, n, d);
    }
}

/// Adding the next element extends a running sum by one.
pub proof fn lemma_sum_step(ps: Seq<Seq<Seq<u64>>>, k: int, moduli: Seq<u64>)
    requires
        1 <= k < ps.len(),
    ensures
        poly_sum(ps.subrange(0, k + 1), moduli) == poly_add(poly_sum(ps.subrange(0, k), moduli), ps[k], moduli),
{
    assert(ps.subrange(0, k + 1).drop_last() =~= ps.subrange(0, k));
}

/// The results of the slot-wise operations are reduced.
pub proof fn lemma_ops_reduced(a: Seq<Seq<u64>>, b: Seq<Seq<u64>>, moduli: Seq<u64>)
    requires
        moduli_ok(moduli),
        a.len() <= moduli.len(),
    ensures
        reduced(poly_add(a, b, moduli), moduli),
        reduced(poly_sub(a, b, moduli), moduli),
        reduced(poly_mul(a, b, moduli), moduli),
        reduced(poly_neg(a, moduli), moduli),
{
    assert forall|i: int, j: int| 0 <= i < a.len() && 0 <= j < a[i].len() implies #[trigger] poly_add(a, b, moduli)[i][j] < moduli[i] by {
        assert(moduli[i] > 1);
    }
    assert forall|i: int, j: int| 0 <= i < a.len() && 0 <= j < a[i].len() implies #[trigger] poly_sub(a, b, moduli)[i][j] < moduli[i] by {
        assert(moduli[i] > 1);
    }
    assert forall|i: int, j: int| 0 <= i < a.len() && 0 <= j < a[i].len() implies #[trigger] poly_mul(a, b, moduli)[i][j] < moduli[i] by {
        assert(moduli[i] > 1);
    }
    assert forall|i: int, j: int| 0 <= i < a.len() && 0 <= j < a[i].len() implies #[trigger] poly_neg(a, moduli)[i][j] < moduli[i] by {
        assert(moduli[i] > 1);
    }
}

/// Whether `p` is a ring element of `c`: its shape, with every slot reduced.
pub open spec fn of_context(p: Seq<Seq<u64>>, c: RingContext) -> bool {
    &&& shaped(p, c.moduli_view().len(), c.degree_view())
    &&& reduced(p, c.moduli_view())
    &&& moduli_ok(c.moduli_view())
}

impl Poly {
    /// `self * y + e`, in constant time.
    pub(crate) fn mul_add(&self, y: &Poly, e: &Poly, c: &RingContext) -> (r: Poly)
        requires
            of_context(self@, *c),
            of_context(y@, *c),
            of_context(e@, *c),
        ensures
            r@ == poly_fma(self@, y@, e@, c.moduli_view()),
            of_context(r@, *c),
    {
        let m = Ghost(c.moduli_view());
        let mut t = Poly { rows: ct_mul(c, &self.rows, &y.rows) };
        proof {
            lemma_ops_reduced(self@, y@, m@);
            lemma_ops_shaped(self@, y@, Seq::empty(), m@, m@.len(), c.degree_view());
        }
        let r = Poly { rows: ct_add(c, &t.rows, &e.rows) };
        proof {
            lemma_ops_reduced(t@, e@, m@);
            lemma_ops_shaped(t@, e@, Seq::empty(), m@, m@.len(), c.degree_view());
        }
        t.zeroize();
        r
    }

    /// `self * y + z + e`, in constant time.
    pub(crate) fn mul_add2(&self, y: &Poly, z: &Poly, e: &Poly, c: &RingContext) -> (r: Poly)
        requires
            of_context(self@, *c),
            of_context(y@, *c),
            of_context(z@, *c),
            of_context(e@, *c),
        ensures
            r@ == poly_fma2(self@, y@, z@, e@, c.moduli_view()),
            of_context(r@, *c),
    {
        let m = Ghost(c.moduli_view());
        let mut t = Poly { rows: ct_mul(c, &self.rows, &y.rows) };
        proof {
            lemma_ops_reduced(self@, y@, m@);
            lemma_ops_shaped(self@, y@, Seq::empty(), m@, m@.len(), c.degree_view());
        }
        let mut u = Poly { rows: ct_add(c, &t.rows, &z.rows) };
        proof {
            lemma_ops_reduced(t@, z@, m@);
            lemma_ops_shaped(t@, z@, Seq::empty(), m@, m@.len(), c.degree_view());
        }
        t.zeroize();
        let r = Poly { rows: ct_add(c, &u.rows, &e.rows) };
        proof {
            lemma_ops_reduced(u@, e@, m@);
            lemma_ops_shaped(u@, e@, Seq::empty(), m@, m@.len(), c.degree_view());
        }
        u.zeroize();
        r
    }

    /// `-(self * y) + e`, in constant time.
    pub(crate) fn neg_mul_add(&self, y: &Poly, e: &Poly, c: &RingContext) -> (r: Poly)
        requires
            of_context(self@, *c),
            of_context(y@, *c),
            of_context(e@, *c),
        ensures
            r@ == poly_neg_fma(self@, y@, e@, c.moduli_view()),
            of_context(r@, *c),
    {
        let m = Ghost(c.moduli_view());
        let mut t = Poly { rows: ct_mul(c, &self.rows, &y.rows) };
        proof {
            lemma_ops_reduced(self@, y@, m@);
            lemma_ops_shaped(self@, y@, Seq::empty(), m@, m@.len(), c.degree_view());
        }
        let mut u = Poly { rows: ct_neg(c, &t.rows) };
        proof {
            lemma_ops_reduced(t@, t@, m@);
            lemma_ops_shaped(t@, t@, Seq::empty(), m@, m@.len(), c.degree_view());
        }
        t.zeroize();
        let r = Poly { rows: ct_add(c, &u.rows, &e.rows) };
        proof {
            lemma_ops_reduced(u@, e@, m@);
            lemma_ops_shaped(u@, e@, Seq::empty(), m@, m@.len(), c.degree_view());
        }
        u.zeroize();
        r
    }

    /// `self * y`, in constant time.
    pub(crate) fn mul_secret(&self, y: &Poly, c: &RingContext) -> (r: Poly)
        requires
            of_context(self@, *c),
            of_context(y@, *c),
        ensures
            r@ == poly_mul(self@, y@, c.moduli_view()),
            of_context(r@, *c),
    {
        let r = Poly { rows: ct_mul(c, &self.rows, &y.rows) };
        proof {
            lemma_ops_reduced(self@, y@, c.moduli_view());
            lemma_ops_shaped(self@, y@, Seq::empty(), c.moduli_view(), c.moduli_view().len(), c.degree_view());
        }
        r
    }

    /// `self - y`, in constant time.
    pub(crate) fn sub_secret(&self, y: &Poly, c: &RingContext) -> (r: Poly)
        requires
            of_context(self@, *c),
            of_context(y@, *c),
        ensures
            r@ == poly_sub(self@, y@, c.moduli_view()),
            of_context(r@, *c),
    {
        let r = Poly { rows: ct_sub(c, &self.rows, &y.rows) };
        proof {
            lemma_ops_reduced(self@, y@, c.moduli_view());
            lemma_ops_shaped(self@, y@, Seq::empty(), c.moduli_view(), c.moduli_view().len(), c.degree_view());
        }
        r
    }

    /// Row `i` kept and every other row zero: the product with the `i`-th
    /// Garner weight, whose residues are public ones and zeros.
    pub(crate) fn keep_row(&self, i: usize, w: &Vec<u64>, c: &RingContext) -> (r: Poly)
        requires
            of_context(self@, *c),
            w@.len() == self@.len(),
            forall|j: int| 0 <= j < w@.len() ==> #[trigger] w@[j] == (if j == i { 1u64 } else { 0u64 }),
        ensures
            r@ == poly_scale(self@, w@, c.moduli_view()),
            of_context(r@, *c),
    {
        let ghost m = c.moduli_view();
        let mut rows: Vec<Vec<u64>> = Vec::with_capacity(self.rows.len());
        let mut k: usize = 0;
        while k < self.rows.len()
            invariant
                of_context(self@, *c),
                m == c.moduli_view(),
                w@.len() == self@.len(),
                forall|j: int| 0 <= j < w@.len() ==> #[trigger] w@[j] == (if j == i { 1u64 } else { 0u64 }),
                k <= self@.len(),
                rows@.len() == k,
                forall|t: int| 0 <= t < k ==> #[trigger] rows@[t]@ == poly_scale(self@, w@, m)[t],
            decreases self@.len() - k,
        {
            assert(self.rows[k as int]@ == self@[k as int]);
            assert(m[k as int] > 1);
            let row = if k == i {
                copy_row(&self.rows[k])
            } else {
                let mut z: Vec<u64> = Vec::with_capacity(self.rows[k].len());
                let mut j: usize = 0;
                while j < self.rows[k].len()
                    invariant
                        k < self.rows@.len(),
                        j <= self.rows@[k as int]@.len(),
                        z@.len() == j,
                        forall|t: int| 0 <= t < j ==> #[trigger] z@[t] == 0u64,
                    decreases self.rows@[k as int]@.len() - j,
                {
                    z.push(0u64);
                    j = j + 1;
                }
                z
            };
            assert forall|j: int| 0 <= j < row@.len() implies #[trigger] row@[j] == poly_scale(self@, w@, m)[k as int][j] by {
                let x = self@[k as int][j];
                assert(x < m[k as int]);
                let q = m[k as int] as int;
                if k == i {
                    assert((1 * x as int) % q == x as int) by (nonlinear_arith)
                        requires
                            0 <= x < q,
                    ;
                } else {
                    assert((0 * x as int) % q == 0) by (nonlinear_arith)
                        requires
                            q > 1,
                    ;
                }
            }
            assert(row@ =~= poly_scale(self@, w@, m)[k as int]);
            rows.push(row);
            k = k + 1;
        }
        let r = Poly { rows };
        assert(r@ =~= poly_scale(self@, w@, m));
        proof {
            lemma_ops_shaped(self@, self@, w@, m, m.len(), c.degree_view());
            assert forall|a: int, b: int| 0 <= a < r@.len() && 0 <= b < r@[a].len() implies #[trigger] r@[a][b] < m[a] by {
                assert(m[a] > 1);
            }
        }
        r
    }
}

/// The integer sum of slot `(i, j)` over a list of ring elements.
pub open spec fn slot_total(ps: Seq<Seq<Seq<u64>>>, i: int, j: int) -> int
    decreases ps.len(),
{
    if ps.len() == 0 {
        0
    } else {
        slot_total(ps.drop_last(), i, j) + ps.last()[i][j] as int
    }
}

proof fn lemma_slot_total_append(a: Seq<Seq<Seq<u64>>>, b: Seq<Seq<Seq<u64>>>, i: int, j: int)
    ensures
        slot_total(a + b, i, j) == slot_total(a, i, j) + slot_total(b, i, j),
    decreases b.len(),
{
    if b.len() == 0 {
        assert(a + b =~= a);
    } else {
        assert((a + b).drop_last() =~= a + b.drop_last());
        lemma_slot_total_append(a, b.drop_last(), i, j);
    }
}

/// Slot `(i, j)` of a sum is the integer sum of the slots modulo `moduli[i]`;
/// it is reduced as soon as two elements were added.
pub proof fn lemma_sum_slot(ps: Seq<Seq<Seq<u64>>>, moduli: Seq<u64>, n: nat, d: nat, i: int, j: int)
    requires
        ps.len() >= 1,
        moduli_ok(moduli),
        moduli.len() == n,
        forall|k: int| 0 <= k < ps.len() ==> #[trigger] shaped(ps[k], n, d),
        0 <= i < n,
        0 <= j < d,
    ensures
        poly_sum(ps, moduli)[i][j] as int % moduli[i] as int == slot_total(ps, i, j) % moduli[i] as int,
        ps.len() >= 2 ==> poly_sum(ps, moduli)[i][j] as int == slot_total(ps, i, j) % moduli[i] as int,
    decreases ps.len(),
{
    let q = moduli[i] as int;
    assert(moduli[i] > 1);
    if ps.len() == 1 {
        assert(ps.drop_last().len() == 0);
        assert(slot_total(ps.drop_last(), i, j) == 0);
        assert(slot_total(ps, i, j) == ps.last()[i][j] as int);
        assert(ps.last() == ps[0]);
    } else {
        let front = ps.drop_last();
        assert forall|k: int| 0 <= k < front.len() implies #[trigger] shaped(front[k], n, d) by {
            assert(front[k] == ps[k]);
        }
        lemma_sum_slot(front, moduli, n, d, i, j);
        lemma_sum_shaped(front, moduli, n, d);
        assert(shaped(ps[ps.len() - 1], n, d));
        let x = poly_sum(front, moduli)[i][j] as int;
        let t = slot_total(front, i, j);
        let l = ps.last()[i][j] as int;
        assert(poly_sum(ps, moduli)[i][j] as int == (x + l) % q);
        lemma_add_mod_noop(x, l, q);
        lemma_add_mod_noop(t, l, q);
        lemma_mod_twice(x + l, q);
        assert(slot_total(ps, i, j) == t + l);
    }
}

/// Aggregation splits over any partition into a front and a back part: the
/// sum of all elements is the sum of the two partial sums. With
/// [`lemma_add_commutes`], every tree of partial sums, in any order of its
/// branches, yields the same element.
pub proof fn lemma_sum_split(a: Seq<Seq<Seq<u64>>>, b: Seq<Seq<Seq<u64>>>, moduli: Seq<u64>, n: nat, d: nat)
    requires
        a.len() >= 1,
        b.len() >= 1,
        moduli_ok(moduli),
        moduli.len() == n,
        forall|k: int| 0 <= k < a.len() ==> #[trigger] shaped(a[k], n, d),
        forall|k: int| 0 <= k < b.len() ==> #[trigger] shaped(b[k], n, d),
    ensures
        poly_sum(a + b, moduli) == poly_add(poly_sum(a, moduli), poly_sum(b, moduli), moduli),
{
    let ab = a + b;
    assert forall|k: int| 0 <= k < ab.len() implies #[trigger] shaped(ab[k], n, d) by {
        if k < a.len() {
            assert(ab[k] == a[k]);
        } else {
            assert(ab[k] == b[k - a.len()]);
        }
    }
    lemma_sum_shaped(ab, moduli, n, d);
    lemma_sum_shaped(a, moduli, n, d);
    lemma_sum_shaped(b, moduli, n, d);
    let lhs = poly_sum(ab, moduli);
    let rhs = poly_add(poly_sum(a, moduli), poly_sum(b, moduli), moduli);
    assert forall|i: int| 0 <= i < n implies #[trigger] lhs[i] =~= rhs[i] by {
        assert forall|j: int| 0 <= j < d implies #[trigger] lhs[i][j] == rhs[i][j] by {
            let q = moduli[i] as int;
            assert(moduli[i] > 1);
            lemma_sum_slot(ab, moduli, n, d, i, j);
            lemma_sum_slot(a, moduli, n, d, i, j);
            lemma_sum_slot(b, moduli, n, d, i, j);
            lemma_slot_total_append(a, b, i, j);
            let x = poly_sum(a, moduli)[i][j] as int;
            let y = poly_sum(b, moduli)[i][j] as int;
            let ta = slot_total(a, i, j);
            let tb = slot_total(b, i, j);
            lemma_add_mod_noop(x, y, q);
            lemma_add_mod_noop(ta, tb, q);
        }
        assert(lhs[i].len() == d && rhs[i].len() == d);
    }
    assert(lhs =~= rhs);
}

/// Adding two ring elements of one shape does not depend on their order.
pub proof fn lemma_add_commutes(a: Seq<Seq<u64>>, b: Seq<Seq<u64>>, moduli: Seq<u64>, n: nat, d: nat)
    requires
        shaped(a, n, d),
        shaped(b, n, d),
    ensures
        poly_add(a, b, moduli) == poly_add(b, a, moduli),
{
    let l = poly_add(a, b, moduli);
    let r = poly_add(b, a, moduli);
    assert forall|i: int| 0 <= i < n implies #[trigger] l[i] =~= r[i] by {}
    assert(l =~= r);
}

fn reduce_row(a: &Vec<u64>, q: u64) -> (r: Vec<u64>)
    requires
        q > 1,
    ensures
        r@.len() == a@.len(),
        forall|j: int| 0 <= j < a@.len() ==> #[trigger] r@[j] == (a@[j] % q) as u64,
{
    let mut r: Vec<u64> = Vec::with_capacity(a.len());
    let mut j: usize = 0;
    while j < a.len()
        invariant
            q > 1,
            j <= a.len(),
            r@.len() == j,
            forall|k: int| 0 <= k < j ==> #[trigger] r@[k] == (a@[k] % q) as u64,
        decreases a.len() - j,
    {
        r.push(a[j] % q);
        j = j + 1;
    }
    r
}

impl Poly {
    /// Every slot reduced modulo its row's modulus.
    pub fn reduce(&self, moduli: &Vec<u64>) -> (r: Poly)
        requires
            moduli_ok(moduli@),
            self@.len() == moduli@.len(),
        ensures
            r@ == poly_reduce(self@, moduli@),
            reduced(r@, moduli@),
    {
        let mut rows: Vec<Vec<u64>> = Vec::with_capacity(self.rows.len());
        let mut i: usize = 0;
        while i < self.rows.len()
            invariant
                moduli_ok(moduli@),
                self@.len() == moduli@.len(),
                i <= self@.len(),
                rows@.len() == i,
                forall|k: int| 0 <= k < i ==> #[trigger] rows@[k]@ == poly_reduce(self@, moduli@)[k],
            decreases self@.len() - i,
        {
            assert(self.rows[i as int]@ == self@[i as int]);
            assert(moduli@[i as int] > 1);
            let row = reduce_row(&self.rows[i], moduli[i]);
            assert(row@ =~= poly_reduce(self@, moduli@)[i as int]);
            rows.push(row);
            i = i + 1;
        }
        let r = Poly { rows };
        assert(r@ =~= poly_reduce(self@, moduli@));
        assert forall|i: int, j: int| 0 <= i < r@.len() && 0 <= j < r@[i].len() implies #[trigger] r@[i][j] < moduli@[i] by {
            assert(moduli@[i] > 1);
        }
        r
    }
}

} // verus!
