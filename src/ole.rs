//! The correlation that oblivious linear evaluation with errors (OLEe)
//! provides, and an ideal evaluation that produces it.

use vstd::prelude::*;
use crate::field::{Fp, fadd, fmul, fneg};
use crate::error::{OLEError, ShareConversionError};

verus! {

/// What a provider's inputs `u` and an evaluator's inputs `v` become through
/// an OLE: the provider receives `c` and the evaluator `d`, position by
/// position, with `u[i] * v[i] == -c[i] + d[i]`.
pub open spec fn ole_correlated(u: Seq<Fp>, v: Seq<Fp>, c: Seq<Fp>, d: Seq<Fp>) -> bool {
    &&& v.len() == u.len()
    &&& c.len() == u.len()
    &&& d.len() == u.len()
    &&& forall|i: int| 0 <= i < u.len() ==> #[trigger] fmul(u[i]@, v[i]@) == fadd(fneg(c[i]@), d[i]@)
}

/// The error that an OLE output meant for a batch of `n` elements gives, if
/// any: the OLE's own failure, or a count other than `n`.
pub open spec fn ole_failure(n: nat, output: Result<Vec<Fp>, OLEError>) -> Option<ShareConversionError> {
    match output {
        Err(e) => Some(ShareConversionError::OLE(e)),
        Ok(v) => if v.len() == n {
            None
        } else {
            Some(ShareConversionError::OLE(OLEError::LengthMismatch { expected: n as usize, actual: v.len() }))
        },
    }
}

/// Takes the OLE output for a batch of `n` elements, or the error it gives.
pub fn check_ole_output(n: usize, output: Result<Vec<Fp>, OLEError>) -> (r: Result<Vec<Fp>, ShareConversionError>)
    ensures
        ole_failure(n as nat, output) matches Some(e) ==> r == Err::<Vec<Fp>, ShareConversionError>(e),
        ole_failure(n as nat, output) is None ==> r == Ok::<Vec<Fp>, ShareConversionError>(output->Ok_0),
{
    match output {
        Err(e) => Err(ShareConversionError::OLE(e)),
        Ok(v) => if v.len() == n {
            Ok(v)
        } else {
            let actual: usize = v.len();
            Err(ShareConversionError::OLE(OLEError::LengthMismatch { expected: n, actual }))
        },
    }
}

/// Runs an ideal OLE between the provider's `u` and the evaluator's `v`: the
/// provider's output `c` is drawn at random and the evaluator's output is
/// `d = u * v + c`, position by position.
pub fn ideal_ole(u: &Vec<Fp>, v: &Vec<Fp>) -> (r: (Vec<Fp>, Vec<Fp>))
    requires
        u.len() == v.len(),
    ensures
        ole_correlated(u@, v@, r.0@, r.1@),
{
    let mut c: Vec<Fp> = Vec::new();
    let mut d: Vec<Fp> = Vec::new();
    let mut i: usize = 0;
    while i < u.len()
        invariant
            u.len() == v.len(),
            i <= u.len(),
            c.len() == i,
            d.len() == i,
            forall|j: int| 0 <= j < i ==> #[trigger] fmul(u@[j]@, v@[j]@) == fadd(fneg(c@[j]@), d@[j]@),
        decreases u.len() - i,
    {
        let ci: Fp = Fp::rand();
        let p: Fp = u[i].mul(v[i]);
        let di: Fp = p.add(ci);
        proof {
            crate::field::lemma_shift(u@[i as int]@, v@[i as int]@, ci@);
        }
        c.push(ci);
        d.push(di);
        i = i + 1;
    }
    (c, d)
}

} // verus!
