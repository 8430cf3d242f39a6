//! Multiplicative-to-additive (M2A) conversion, secure against semi-honest
//! parties only.
//!
//! The provider holds `a`, the evaluator `b`. An OLE between them gives `c`
//! and `d` with `a * b == -c + d`; the provider keeps `x = -c` and the
//! evaluator `y = d`, so that `x + y == a * b`.

use vstd::prelude::*;
use crate::error::{OLEError, ShareConversionError};
use crate::field::{Fp, fadd, fmul, fneg};
use crate::ole::{check_ole_output, ole_correlated, ole_failure};

verus! {

/// A provider which implements multiplicative-to-additive share conversion.
///
/// It takes the role of the function provider during OLE, which it holds.
pub struct M2AProvider<T> {
    provider: T,
}

impl<T> M2AProvider<T> {
    /// Creates a new M2A provider around an OLE provider.
    pub fn new(provider: T) -> (r: Self)
        ensures
            r.ole() == provider,
    {
        M2AProvider { provider }
    }

    /// The OLE provider held.
    pub closed spec fn ole(&self) -> T {
        self.provider
    }

    /// Gives the OLE provider back.
    pub fn into_inner(self) -> (r: T)
        ensures
            r == self.ole(),
    {
        self.provider
    }

    /// The OLE provider held, to run the OLE with.
    pub fn ole_mut(&mut self) -> (r: &mut T)
        ensures
            *r == old(self).ole(),
    {
        &mut self.provider
    }

    /// Converts the multiplicative shares `shares`, which went into the OLE,
    /// from the OLE's output `c`: on success the additive shares `-c`.
    pub fn convert(&self, shares: &Vec<Fp>, ole_output: Result<Vec<Fp>, OLEError>) -> (r: Result<Vec<Fp>, ShareConversionError>)
        ensures
            ole_failure(shares.len() as nat, ole_output) matches Some(e) ==> r == Err::<Vec<Fp>, ShareConversionError>(e),
            ole_failure(shares.len() as nat, ole_output) is None ==> (r matches Ok(x) && {
                &&& x@.len() == shares.len()
                &&& forall|i: int| 0 <= i < x@.len() ==> #[trigger] x@[i]@ == fneg(ole_output->Ok_0@[i]@)
            }),
    {
        let mut c: Vec<Fp> = match check_ole_output(shares.len(), ole_output) {
            Ok(c) => c,
            Err(e) => {
                return Err(e);
            },
        };
        let n: usize = c.len();
        let mut i: usize = 0;
        while i < n
            invariant
                c.len() == n,
                i <= n,
                forall|j: int| 0 <= j < i ==> #[trigger] c@[j]@ == fneg(ole_output->Ok_0@[j]@),
                forall|j: int| i <= j < n ==> #[trigger] c@[j] == ole_output->Ok_0@[j],
            decreases n - i,
        {
            let negated: Fp = c[i].neg();
            c.set(i, negated);
            i = i + 1;
        }
        Ok(c)
    }
}

/// An evaluator which implements multiplicative-to-additive share conversion.
///
/// It takes the role of the function evaluator during OLE, which it holds.
pub struct M2AEvaluator<T> {
    evaluator: T,
}

impl<T> M2AEvaluator<T> {
    /// Creates a new M2A evaluator around an OLE evaluator.
    pub fn new(evaluator: T) -> (r: Self)
        ensures
            r.ole() == evaluator,
    {
        M2AEvaluator { evaluator }
    }

    /// The OLE evaluator held.
    pub closed spec fn ole(&self) -> T {
        self.evaluator
    }

    /// Gives the OLE evaluator back.
    pub fn into_inner(self) -> (r: T)
        ensures
            r == self.ole(),
    {
        self.evaluator
    }

    /// The OLE evaluator held, to run the OLE with.
    pub fn ole_mut(&mut self) -> (r: &mut T)
        ensures
            *r == old(self).ole(),
    {
        &mut self.evaluator
    }

    /// Converts the multiplicative shares `shares`, which went into the OLE,
    /// from the OLE's output `d`: on success `d` itself, which already is the
    /// evaluator's additive share.
    pub fn convert(&self, shares: &Vec<Fp>, ole_output: Result<Vec<Fp>, OLEError>) -> (r: Result<Vec<Fp>, ShareConversionError>)
        ensures
            ole_failure(shares.len() as nat, ole_output) matches Some(e) ==> r == Err::<Vec<Fp>, ShareConversionError>(e),
            ole_failure(shares.len() as nat, ole_output) is None ==> r == Ok::<Vec<Fp>, ShareConversionError>(ole_output->Ok_0),
    {
        check_ole_output(shares.len(), ole_output)
    }
}

/// M2A is correct: when the provider's `a` and the evaluator's `b` went
/// through an OLE that gave `c` and `d`, the provider's output `x = -c` and
/// the evaluator's output `y = d` add up to `a * b` at every position.
pub proof fn lemma_m2a_correct(a: Seq<Fp>, b: Seq<Fp>, c: Seq<Fp>, d: Seq<Fp>, x: Seq<Fp>, y: Seq<Fp>)
    requires
        ole_correlated(a, b, c, d),
        x.len() == c.len(),
        forall|i: int| 0 <= i < x.len() ==> #[trigger] x[i]@ == fneg(c[i]@),
        y == d,
    ensures
        x.len() == a.len(),
        y.len() == a.len(),
        forall|i: int| 0 <= i < a.len() ==> #[trigger] fadd(x[i]@, y[i]@) == fmul(a[i]@, b[i]@),
{
    assert forall|i: int| 0 <= i < a.len() implies #[trigger] fadd(x[i]@, y[i]@) == fmul(a[i]@, b[i]@) by {
        assert(x[i]@ == fneg(c[i]@));
        assert(fmul(a[i]@, b[i]@) == fadd(fneg(c[i]@), d[i]@));
    }
}

} // verus!
