//! Conversion between additive and multiplicative shares of prime-field
//! elements for two-party computation, on top of an oblivious linear
//! evaluation with errors (OLEe).
//!
//! Each role's conversion is split at the points where it waits on the other
//! party: the caller runs the OLE and the channel, and hands what came back
//! to the role, which decides the outputs or the error.

use vstd::prelude::*;
use crate::a2m::{lemma_a2m_correct, masked_shares, unmasked_shares};
use crate::field::{Fp, fadd, fmul, fneg};
use crate::m2a::lemma_m2a_correct;
use crate::ole::ole_correlated;

pub mod a2m;
pub mod circuit;
pub mod error;
pub mod field;
pub mod m2a;
pub mod ole;

verus! {

/// Converting additive shares `x`, `y` to multiplicative shares `a`, `b` by
/// A2M, and those back by M2A to `x2`, `y2`, gives an additive sharing of the
/// same secret: `x2 + y2 == x + y` at every position.
pub proof fn lemma_round_trip(
    x: Seq<Fp>,
    y: Seq<Fp>,
    masks: Seq<Fp>,
    a: Seq<Fp>,
    c: Seq<Fp>,
    d: Seq<Fp>,
    m: Seq<Fp>,
    b: Seq<Fp>,
    c2: Seq<Fp>,
    d2: Seq<Fp>,
    x2: Seq<Fp>,
    y2: Seq<Fp>,
)
    requires
        x.len() == masks.len(),
        a.len() == masks.len(),
        forall|i: int| 0 <= i < masks.len() ==> #[trigger] fmul(masks[i]@, a[i]@) == 1,
        ole_correlated(masks, y, c, d),
        m.len() == x.len(),
        forall|i: int| 0 <= i < m.len() ==> #[trigger] m[i]@ == masked_shares(masks, x, c)[i],
        b.len() == d.len(),
        forall|i: int| 0 <= i < b.len() ==> #[trigger] b[i]@ == unmasked_shares(m, d)[i],
        ole_correlated(a, b, c2, d2),
        x2.len() == c2.len(),
        forall|i: int| 0 <= i < x2.len() ==> #[trigger] x2[i]@ == fneg(c2[i]@),
        y2 == d2,
    ensures
        x2.len() == x.len(),
        y2.len() == x.len(),
        forall|i: int| 0 <= i < x.len() ==> #[trigger] fadd(x2[i]@, y2[i]@) == fadd(x[i]@, y[i]@),
{
    lemma_a2m_correct(x, y, masks, a, c, d, m, b);
    lemma_m2a_correct(a, b, c2, d2, x2, y2);
    assert forall|i: int| 0 <= i < x.len() implies #[trigger] fadd(x2[i]@, y2[i]@) == fadd(x[i]@, y[i]@) by {
        assert(fadd(x2[i]@, y2[i]@) == fmul(a[i]@, b[i]@));
        assert(fmul(a[i]@, b[i]@) == fadd(x[i]@, y[i]@));
    }
}

} // verus!
