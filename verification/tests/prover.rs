use snarkvm_program::field::Field;
use snarkvm_program::prover::{read_job_results, synthesize, Index, LinearCombination, ProvingAssignment, ResultWrapper, SynthesisError, Variable};

fn f(v: u64) -> Field {
    Field::from_limbs(v, 0, 0, 0).unwrap()
}

#[test]
fn allocation_and_constraints() {
    let mut cs = ProvingAssignment::new();
    let one = cs.alloc_input(|| Ok(Field::one())).unwrap();
    assert_eq!(one, Variable { index: Index::Public(0) });
    let x = cs.alloc_private(|| Ok(f(3))).unwrap();
    assert_eq!(x, Variable { index: Index::Private(0) });
    let y = cs.alloc_input(|| Ok(f(9))).unwrap();
    assert_eq!(y, Variable { index: Index::Public(1) });
    assert_eq!(cs.alloc_private(|| Err(SynthesisError)), Err(SynthesisError));
    assert_eq!(cs.num_private_variables(), 1);
    assert_eq!(cs.num_public_variables(), 2);

    // x * x = y
    cs.enforce(
        |lc: LinearCombination| LinearCombination { terms: [lc.terms, vec![(x, Field::one())]].concat() },
        |lc: LinearCombination| LinearCombination { terms: [lc.terms, vec![(x, Field::one())]].concat() },
        |lc: LinearCombination| LinearCombination { terms: [lc.terms, vec![(y, Field::one())]].concat() },
    );
    assert_eq!(cs.num_constraints(), 1);
    assert!(!cs.is_in_setup_mode());
    // The assignment skips the constant one.
    assert_eq!(cs.witness_assignment(), vec![f(9), f(3)]);
}

#[test]
fn empty_assignment() {
    let cs = ProvingAssignment::new();
    assert!(cs.witness_assignment().is_empty());
    assert_eq!(cs.num_constraints(), 0);
}

#[test]
fn result_wrapper() {
    let a: ResultWrapper<u8, u16> = ResultWrapper::from_g1(3);
    assert_eq!(a.into_g1(), 3);
    let b: ResultWrapper<u8, u16> = ResultWrapper::from_g2(4);
    assert_eq!(b.into_g2(), 4);
    assert_eq!(LinearCombination::zero().terms.len(), 0);
}

#[test]
fn namespaces_and_root() {
    let mut cs = ProvingAssignment::new();
    cs.push_namespace();
    cs.get_root().alloc_private(|| Ok(f(5))).unwrap();
    cs.pop_namespace();
    assert_eq!(cs.num_private_variables(), 1);
    assert_eq!(cs.witness_assignment(), vec![f(5)]);
}

#[test]
fn job_results_are_read_in_order() {
    let results: Vec<ResultWrapper<u8, u16>> = vec![
        ResultWrapper::from_g1(1),
        ResultWrapper::from_g2(2),
        ResultWrapper::from_g1(3),
        ResultWrapper::from_g1(4),
    ];
    assert_eq!(read_job_results(false, &results, 0), (1, 2, 3, 4));
    // Without randomness no B is computed in the first group: one job fewer.
    let fewer: Vec<ResultWrapper<u8, u16>> =
        vec![ResultWrapper::from_g2(2), ResultWrapper::from_g1(3), ResultWrapper::from_g1(4)];
    assert_eq!(read_job_results(true, &fewer, 9), (9, 2, 3, 4));
}

#[test]
fn synthesis_starts_with_the_constant_one() {
    let cs = synthesize(|cs: &mut ProvingAssignment| {
        let x = cs.alloc_private(|| Ok(f(3)))?;
        let y = cs.alloc_input(|| Ok(f(9)))?;
        assert_eq!(y, Variable { index: Index::Public(1) });
        cs.enforce(
            |lc: LinearCombination| LinearCombination { terms: [lc.terms, vec![(x, Field::one())]].concat() },
            |lc: LinearCombination| LinearCombination { terms: [lc.terms, vec![(x, Field::one())]].concat() },
            |lc: LinearCombination| LinearCombination { terms: [lc.terms, vec![(y, Field::one())]].concat() },
        );
        Ok(())
    })
    .unwrap();
    assert_eq!(cs.num_public_variables(), 2);
    assert_eq!(cs.num_private_variables(), 1);
    assert_eq!(cs.num_constraints(), 1);
    assert_eq!(cs.witness_assignment(), vec![f(9), f(3)]);
}

#[test]
fn synthesis_passes_on_the_circuit_error() {
    let r = synthesize(|cs: &mut ProvingAssignment| {
        cs.alloc_private(|| Err(SynthesisError))?;
        Ok(())
    });
    assert!(matches!(r, Err(SynthesisError)));
}
