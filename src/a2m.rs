//! Additive-to-multiplicative (A2M) conversion, secure against semi-honest
//! parties only.
//!
//! The provider holds `x`, the evaluator `y`. The provider draws a nonzero
//! `ai` for each position; an OLE between the provider's `ai` and the
//! evaluator's `y` gives `c` and `d` with `ai * y == -c + d`. The provider
//! sends `m = ai * x - c` and keeps `a = ai^-1`; the evaluator keeps
//! `b = m + d = ai * (x + y)`, so that `a * b == x + y`.

use vstd::prelude::*;
use crate::error::{MessageError, OLEError, ShareConversionError};
use crate::field::{Fp, fadd, fmul, fneg, lemma_unmask};
use crate::ole::{check_ole_output, ole_correlated, ole_failure};

verus! {

/// The message of the A2M protocol, sent once by the provider.
#[derive(Clone, Debug)]
pub enum A2MMessage {
    /// Field elements sent by the provider.
    Message(Vec<Fp>),
}

/// The message that the provider sends: `ai * x - c` at each position.
pub open spec fn masked_shares(masks: Seq<Fp>, x: Seq<Fp>, c: Seq<Fp>) -> Seq<int> {
    Seq::new(x.len(), |i: int| fadd(fmul(masks[i]@, x[i]@), fneg(c[i]@)))
}

/// The evaluator's output: `m + d` at each position.
pub open spec fn unmasked_shares(m: Seq<Fp>, d: Seq<Fp>) -> Seq<int> {
    Seq::new(m.len(), |i: int| fadd(m[i]@, d[i]@))
}

/// The provider's state between drawing its masks and receiving the OLE
/// output: its additive shares, the masks `ai` that go into the OLE, and
/// their inverses, which become its multiplicative shares.
pub struct A2MRound {
    pub shares: Vec<Fp>,
    pub masks: Vec<Fp>,
    pub inverses: Vec<Fp>,
}

impl A2MRound {
    /// The masks are nonzero, each with its inverse, one per share.
    pub open spec fn wf(&self) -> bool {
        &&& self.masks.len() == self.shares.len()
        &&& self.inverses.len() == self.shares.len()
        &&& forall|i: int| 0 <= i < self.masks.len() ==> #[trigger] self.masks@[i]@ != 0
        &&& forall|i: int| 0 <= i < self.masks.len() ==> #[trigger] fmul(self.masks@[i]@, self.inverses@[i]@) == 1
    }

    /// What the provider hands to the OLE: its masks.
    pub fn ole_input(&self) -> (r: Vec<Fp>)
        ensures
            r@ == self.masks@,
    {
        self.masks.clone()
    }
}

/// A provider which implements additive-to-multiplicative share conversion.
///
/// It takes the role of the function provider during OLE, which it holds.
pub struct A2MProvider<T> {
    provider: T,
}

impl<T> A2MProvider<T> {
    /// Creates a new A2M provider around an OLE provider.
    pub fn new(provider: T) -> (r: Self)
        ensures
            r.ole() == provider,
    {
        A2MProvider { provider }
    }

    /// The OLE provider held.
    pub closed spec fn ole(&self) -> T {
        self.provider
    }

    /// Gives the OLE provider back.
    pub fn into_inner(self) -> (r: T)
        ensures
            r == self.ole(),
    {
        self.provider
    }

    /// The OLE provider held, to run the OLE with.
    pub fn ole_mut(&mut self) -> (r: &mut T)
        ensures
            *r == old(self).ole(),
    {
        &mut self.provider
    }

    /// Begins a conversion of the additive shares `shares`: draws a uniform
    /// nonzero mask for each position and pairs it with its inverse.
    pub fn start(&self, shares: Vec<Fp>) -> (r: A2MRound)
        ensures
            r.wf(),
            r.shares@ == shares@,
    {
        let n: usize = shares.len();
        let mut draws: Vec<Fp> = Vec::new();
        let mut i: usize = 0;
        while i < n
            invariant
                i <= n,
                draws.len() == i,
                forall|j: int| 0 <= j < i ==> #[trigger] draws@[j]@ != 0,
            decreases n - i,
        {
            draws.push(Fp::rand_nonzero());
            i = i + 1;
        }
        self.round_from_draws(shares, draws)
    }

    /// The provider's round for the additive shares `shares` with the
    /// nonzero masks `draws`: each mask is kept and paired with its inverse.
    pub fn round_from_draws(&self, shares: Vec<Fp>, draws: Vec<Fp>) -> (r: A2MRound)
        requires
            draws.len() == shares.len(),
            forall|j: int| 0 <= j < draws.len() ==> #[trigger] draws@[j]@ != 0,
        ensures
            r.wf(),
            r.shares@ == shares@,
            r.masks@ == draws@,
    {
        let n: usize = draws.len();
        let mut inverses: Vec<Fp> = Vec::new();
        let mut i: usize = 0;
        while i < n
            invariant
                n == draws.len(),
                i <= n,
                inverses.len() == i,
                forall|j: int| 0 <= j < n ==> #[trigger] draws@[j]@ != 0,
                forall|j: int| 0 <= j < i ==> #[trigger] fmul(draws@[j]@, inverses@[j]@) == 1,
            decreases n - i,
        {
            let inv: Fp = draws[i].inverse().unwrap();
            inverses.push(inv);
            i = i + 1;
        }
        A2MRound { shares, masks: draws, inverses }
    }

    /// Ends the provider's part once the OLE has answered: on success, the
    /// message to send to the evaluator and the multiplicative shares.
    pub fn finish(&self, round: A2MRound, ole_output: Result<Vec<Fp>, OLEError>) -> (r: Result<(A2MMessage, Vec<Fp>), ShareConversionError>)
        requires
            round.wf(),
        ensures
            ole_failure(round.shares.len() as nat, ole_output) matches Some(e) ==> r == Err::<(A2MMessage, Vec<Fp>), ShareConversionError>(e),
            ole_failure(round.shares.len() as nat, ole_output) is None ==> (r matches Ok((A2MMessage::Message(m), a)) && {
                &&& m@.len() == round.shares.len()
                &&& forall|i: int| 0 <= i < m@.len() ==> #[trigger] m@[i]@ == masked_shares(round.masks@, round.shares@, ole_output->Ok_0@)[i]
                &&& a@ == round.inverses@
            }),
    {
        let n: usize = round.shares.len();
        let c: Vec<Fp> = match check_ole_output(n, ole_output) {
            Ok(c) => c,
            Err(e) => {
                return Err(e);
            },
        };
        let mut m: Vec<Fp> = Vec::new();
        let mut i: usize = 0;
        while i < n
            invariant
                round.wf(),
                n == round.shares.len(),
                c.len() == n,
                i <= n,
                m.len() == i,
                forall|j: int| 0 <= j < i ==> #[trigger] m@[j]@ == masked_shares(round.masks@, round.shares@, c@)[j],
            decreases n - i,
        {
            let mi: Fp = round.masks[i].mul(round.shares[i]).add(c[i].neg());
            m.push(mi);
            i = i + 1;
        }
        Ok((A2MMessage::Message(m), round.inverses))
    }
}

/// An evaluator which implements additive-to-multiplicative share conversion.
///
/// It takes the role of the function evaluator during OLE, which it holds.
pub struct A2MEvaluator<T> {
    evaluator: T,
}

impl<T> A2MEvaluator<T> {
    /// Creates a new A2M evaluator around an OLE evaluator.
    pub fn new(evaluator: T) -> (r: Self)
        ensures
            r.ole() == evaluator,
    {
        A2MEvaluator { evaluator }
    }

    /// The OLE evaluator held.
    pub closed spec fn ole(&self) -> T {
        self.evaluator
    }

    /// Gives the OLE evaluator back.
    pub fn into_inner(self) -> (r: T)
        ensures
            r == self.ole(),
    {
        self.evaluator
    }

    /// The OLE evaluator held, to run the OLE with.
    pub fn ole_mut(&mut self) -> (r: &mut T)
        ensures
            *r == old(self).ole(),
    {
        &mut self.evaluator
    }

    /// Takes the OLE output `d` for the additive shares `shares`; the
    /// provider's message is to be received only on success.
    pub fn receive_ole(&self, shares: &Vec<Fp>, ole_output: Result<Vec<Fp>, OLEError>) -> (r: Result<Vec<Fp>, ShareConversionError>)
        ensures
            ole_failure(shares.len() as nat, ole_output) matches Some(e) ==> r == Err::<Vec<Fp>, ShareConversionError>(e),
            ole_failure(shares.len() as nat, ole_output) is None ==> r == Ok::<Vec<Fp>, ShareConversionError>(ole_output->Ok_0),
    {
        check_ole_output(shares.len(), ole_output)
    }

    /// Ends the evaluator's part from its OLE output `d` and what was
    /// received from the provider: on success, the multiplicative shares
    /// `m + d`.
    pub fn finish(&self, d: Vec<Fp>, received: Result<A2MMessage, ShareConversionError>) -> (r: Result<Vec<Fp>, ShareConversionError>)
        ensures
            received matches Err(e) ==> r == Err::<Vec<Fp>, ShareConversionError>(e),
            received matches Ok(A2MMessage::Message(m)) ==> {
                &&& m.len() != d.len() ==> r == Err::<Vec<Fp>, ShareConversionError>(
                    ShareConversionError::Message(MessageError::LengthMismatch { expected: d.len(), actual: m.len() }))
                &&& m.len() == d.len() ==> (r matches Ok(b) && b@.len() == d.len() && forall|i: int| 0 <= i < b@.len() ==> #[trigger] b@[i]@ == unmasked_shares(m@, d@)[i])
            },
    {
        let m: Vec<Fp> = match received {
            Err(e) => {
                return Err(e);
            },
            Ok(A2MMessage::Message(m)) => m,
        };
        if m.len() != d.len() {
            let expected: usize = d.len();
            let actual: usize = m.len();
            return Err(ShareConversionError::Message(MessageError::LengthMismatch { expected, actual }));
        }
        let n: usize = d.len();
        let mut b: Vec<Fp> = Vec::new();
        let mut i: usize = 0;
        while i < n
            invariant
                m.len() == n,
                d.len() == n,
                i <= n,
                b.len() == i,
                forall|j: int| 0 <= j < i ==> #[trigger] b@[j]@ == unmasked_shares(m@, d@)[j],
            decreases n - i,
        {
            b.push(m[i].add(d[i]));
            i = i + 1;
        }
        Ok(b)
    }
}

/// A2M is correct: when the provider drew the nonzero masks `masks` with
/// inverses `a` for its shares `x`, the OLE between `masks` and the
/// evaluator's shares `y` gave `c` and `d`, the provider sent `m = masks * x - c`
/// and the evaluator kept `b = m + d`, then `a * b == x + y` at every position.
pub proof fn lemma_a2m_correct(
    x: Seq<Fp>,
    y: Seq<Fp>,
    masks: Seq<Fp>,
    a: Seq<Fp>,
    c: Seq<Fp>,
    d: Seq<Fp>,
    m: Seq<Fp>,
    b: Seq<Fp>,
)
    requires
        x.len() == masks.len(),
        a.len() == masks.len(),
        forall|i: int| 0 <= i < masks.len() ==> #[trigger] fmul(masks[i]@, a[i]@) == 1,
        ole_correlated(masks, y, c, d),
        m.len() == x.len(),
        forall|i: int| 0 <= i < m.len() ==> #[trigger] m[i]@ == masked_shares(masks, x, c)[i],
        b.len() == d.len(),
        forall|i: int| 0 <= i < b.len() ==> #[trigger] b[i]@ == unmasked_shares(m, d)[i],
    ensures
        a.len() == x.len(),
        b.len() == x.len(),
        forall|i: int| 0 <= i < x.len() ==> #[trigger] fmul(a[i]@, b[i]@) == fadd(x[i]@, y[i]@),
{
    assert forall|i: int| 0 <= i < x.len() implies #[trigger] fmul(a[i]@, b[i]@) == fadd(x[i]@, y[i]@) by {
        assert(fmul(masks[i]@, a[i]@) == 1);
        assert(fmul(masks[i]@, y[i]@) == fadd(fneg(c[i]@), d[i]@));
        assert(m[i]@ == fadd(fmul(masks[i]@, x[i]@), fneg(c[i]@)));
        assert(b[i]@ == fadd(m[i]@, d[i]@));
        lemma_unmask(masks[i]@, a[i]@, x[i]@, y[i]@, c[i]@, d[i]@);
    }
}

} // verus!
