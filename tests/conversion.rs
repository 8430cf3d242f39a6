use rand::rngs::StdRng;
use rand::{Rng, SeedableRng};
use share_conversion::a2m::{A2MEvaluator, A2MMessage, A2MProvider};
use share_conversion::error::{MessageError, OLEError, ShareConversionError};
use share_conversion::field::{Fp, MODULUS};
use share_conversion::m2a::{M2AEvaluator, M2AProvider};
use share_conversion::ole::{check_ole_output, ideal_ole};

fn random_shares(rng: &mut StdRng, count: usize) -> Vec<Fp> {
    (0..count).map(|_| Fp::new(rng.gen())).collect()
}

fn run_a2m(x: &[Fp], y: &[Fp]) -> (Vec<Fp>, Vec<Fp>) {
    let provider = A2MProvider::new(());
    let evaluator = A2MEvaluator::new(());
    let round = provider.start(x.to_vec());
    let (c, d) = ideal_ole(&round.ole_input(), &y.to_vec());
    let (msg, a) = provider.finish(round, Ok(c)).unwrap();
    let d = evaluator.receive_ole(&y.to_vec(), Ok(d)).unwrap();
    let b = evaluator.finish(d, Ok(msg)).unwrap();
    (a, b)
}

fn run_m2a(a: &[Fp], b: &[Fp]) -> (Vec<Fp>, Vec<Fp>) {
    let provider = M2AProvider::new(());
    let evaluator = M2AEvaluator::new(());
    let (c, d) = ideal_ole(&a.to_vec(), &b.to_vec());
    let x = provider.convert(&a.to_vec(), Ok(c)).unwrap();
    let y = evaluator.convert(&b.to_vec(), Ok(d)).unwrap();
    (x, y)
}

#[test]
fn test_a2m() {
    let count = 12;
    let mut rng = StdRng::seed_from_u64(0);
    let add_shares_provider = random_shares(&mut rng, count);
    let add_shares_evaluator = random_shares(&mut rng, count);
    let (mul_shares_provider, mul_shares_evaluator) = run_a2m(&add_shares_provider, &add_shares_evaluator);
    assert_eq!(mul_shares_provider.len(), count);
    assert_eq!(mul_shares_evaluator.len(), count);
    for i in 0..count {
        let x = add_shares_provider[i];
        let y = add_shares_evaluator[i];
        assert_eq!(x.add(y), mul_shares_provider[i].mul(mul_shares_evaluator[i]));
    }
}

#[test]
fn test_m2a() {
    let count = 12;
    let mut rng = StdRng::seed_from_u64(0);
    let mul_shares_provider = random_shares(&mut rng, count);
    let mul_shares_evaluator = random_shares(&mut rng, count);
    let (add_shares_provider, add_shares_evaluator) = run_m2a(&mul_shares_provider, &mul_shares_evaluator);
    assert_eq!(add_shares_provider.len(), count);
    for i in 0..count {
        let a = mul_shares_provider[i];
        let b = mul_shares_evaluator[i];
        assert_eq!(add_shares_provider[i].add(add_shares_evaluator[i]), a.mul(b));
    }
}

#[test]
fn round_trip_keeps_the_secret() {
    let mut rng = StdRng::seed_from_u64(7);
    let x = random_shares(&mut rng, 5);
    let y = random_shares(&mut rng, 5);
    let (a, b) = run_a2m(&x, &y);
    let (x2, y2) = run_m2a(&a, &b);
    for i in 0..5 {
        assert_eq!(x2[i].add(y2[i]), x[i].add(y[i]));
    }
}

#[test]
fn empty_batch_gives_empty_outputs() {
    let (a, b) = run_a2m(&[], &[]);
    assert!(a.is_empty() && b.is_empty());
    let (x, y) = run_m2a(&[], &[]);
    assert!(x.is_empty() && y.is_empty());
}

#[test]
fn a2m_masks_are_nonzero_and_invertible() {
    let provider = A2MProvider::new(());
    let round = provider.start(vec![Fp::zero(); 64]);
    assert_eq!(round.masks.len(), 64);
    for i in 0..64 {
        assert!(!round.masks[i].is_zero());
        assert_eq!(round.masks[i].mul(round.inverses[i]), Fp::one());
    }
}

#[test]
fn a2m_message_is_masked_share_minus_ole_output() {
    let provider = A2MProvider::new(());
    let round = provider.start(vec![Fp::new(5), Fp::new(9)]);
    let masks = round.masks.clone();
    let inverses = round.inverses.clone();
    let c = vec![Fp::new(3), Fp::new(4)];
    let (msg, a) = provider.finish(round, Ok(c)).unwrap();
    let A2MMessage::Message(m) = msg;
    assert_eq!(m[0], masks[0].mul(Fp::new(5)).add(Fp::new(3).neg()));
    assert_eq!(m[1], masks[1].mul(Fp::new(9)).add(Fp::new(4).neg()));
    assert_eq!(a, inverses);
}

#[test]
fn a2m_provider_ole_failure() {
    let provider = A2MProvider::new(());
    let round = provider.start(vec![Fp::new(1), Fp::new(2)]);
    let r = provider.finish(round, Err(OLEError::Aborted(String::from("aborted"))));
    assert!(matches!(r, Err(ShareConversionError::OLE(OLEError::Aborted(_)))));
}

#[test]
fn a2m_provider_ole_length_mismatch() {
    let provider = A2MProvider::new(());
    let round = provider.start(vec![Fp::new(1), Fp::new(2)]);
    let r = provider.finish(round, Ok(vec![Fp::new(1)]));
    assert!(matches!(
        r,
        Err(ShareConversionError::OLE(OLEError::LengthMismatch { expected: 2, actual: 1 }))
    ));
}

#[test]
fn a2m_evaluator_ole_failure() {
    let evaluator = A2MEvaluator::new(());
    let r = evaluator.receive_ole(&vec![Fp::new(1)], Err(OLEError::Aborted(String::from("closed"))));
    assert_eq!(r, Err(ShareConversionError::OLE(OLEError::Aborted(String::from("closed")))));
}

#[test]
fn a2m_evaluator_io_failure() {
    let evaluator = A2MEvaluator::new(());
    let r = evaluator.finish(vec![Fp::new(1)], Err(ShareConversionError::Io(String::from("closed"))));
    assert_eq!(r, Err(ShareConversionError::Io(String::from("closed"))));
}

#[test]
fn a2m_evaluator_message_errors() {
    let evaluator = A2MEvaluator::new(());
    let r = evaluator.finish(
        vec![Fp::new(1)],
        Err(ShareConversionError::Message(MessageError::Malformed(String::from("bad")))),
    );
    assert!(matches!(r, Err(ShareConversionError::Message(MessageError::Malformed(_)))));
    let r = evaluator.finish(vec![Fp::new(1)], Ok(A2MMessage::Message(vec![Fp::new(1), Fp::new(2)])));
    assert_eq!(
        r,
        Err(ShareConversionError::Message(MessageError::LengthMismatch { expected: 1, actual: 2 }))
    );
}

#[test]
fn a2m_evaluator_adds_message_and_ole_output() {
    let evaluator = A2MEvaluator::new(());
    let r = evaluator
        .finish(vec![Fp::new(10), Fp::new(MODULUS - 1)], Ok(A2MMessage::Message(vec![Fp::new(5), Fp::new(3)])))
        .unwrap();
    assert_eq!(r, vec![Fp::new(15), Fp::new(2)]);
}

#[test]
fn m2a_outputs_and_failures() {
    let provider = M2AProvider::new(());
    let evaluator = M2AEvaluator::new(());
    let shares = vec![Fp::new(2), Fp::new(3)];
    let x = provider.convert(&shares, Ok(vec![Fp::new(1), Fp::zero()])).unwrap();
    assert_eq!(x, vec![Fp::new(MODULUS - 1), Fp::zero()]);
    let y = evaluator.convert(&shares, Ok(vec![Fp::new(7), Fp::new(8)])).unwrap();
    assert_eq!(y, vec![Fp::new(7), Fp::new(8)]);
    let e = provider.convert(&shares, Err(OLEError::Aborted(String::from("x"))));
    assert!(matches!(e, Err(ShareConversionError::OLE(OLEError::Aborted(_)))));
    let e = evaluator.convert(&shares, Ok(vec![]));
    assert!(matches!(
        e,
        Err(ShareConversionError::OLE(OLEError::LengthMismatch { expected: 2, actual: 0 }))
    ));
}

#[test]
fn ole_output_check() {
    assert_eq!(check_ole_output(1, Ok(vec![Fp::one()])), Ok(vec![Fp::one()]));
    assert!(check_ole_output(2, Ok(vec![Fp::one()])).is_err());
}

#[test]
fn ideal_ole_correlation() {
    let u = vec![Fp::new(3), Fp::new(0), Fp::new(MODULUS - 1)];
    let v = vec![Fp::new(4), Fp::new(9), Fp::new(2)];
    let (c, d) = ideal_ole(&u, &v);
    for i in 0..3 {
        assert_eq!(u[i].mul(v[i]), c[i].neg().add(d[i]));
    }
}

#[test]
fn round_from_draws_keeps_the_draws() {
    let provider = A2MProvider::new(());
    let draws = vec![Fp::new(2), Fp::new(MODULUS - 1), Fp::new(12345)];
    let round = provider.round_from_draws(vec![Fp::new(1), Fp::new(2), Fp::new(3)], draws.clone());
    assert_eq!(round.masks, draws);
    assert_eq!(round.inverses[0], Fp::new((MODULUS + 1) / 2));
    assert_eq!(round.inverses[1], Fp::new(MODULUS - 1));
    assert_eq!(round.masks[2].mul(round.inverses[2]), Fp::one());
}

#[test]
fn error_descriptions() {
    assert_eq!(ShareConversionError::Io(String::from("closed")).describe(), "closed");
    assert_eq!(ShareConversionError::OLE(OLEError::Aborted(String::from("abort"))).describe(), "abort");
    assert_eq!(
        ShareConversionError::Message(MessageError::Malformed(String::from("bad"))).describe(),
        "bad"
    );
}
