use plonkish::checker::MockProver;
use plonkish::checker::Violation;
use plonkish::fib::run_fibonacci;
use plonkish::fib::FiboChip;
use plonkish::fib::FibonacciCircuit;
use plonkish::field::Fp;
use plonkish::field::FieldOps;
use plonkish::field::FP_MODULUS;
use plonkish::layout::Error;
use plonkish::layout::Layouter;
use plonkish::system::ConstraintSystem;

#[test]
fn nine_rows_of_ones_reach_55() {
    let a = Fp::from_u64(1);
    let b = Fp::from_u64(1);
    let (cs, lay, last) = run_fibonacci(Some(a), Some(b), 7).unwrap();
    assert_eq!(last.val, Fp::from_u64(55));
    assert_eq!(lay.resolve(last.cell), Some(Fp::from_u64(55)));
    let inst: Vec<Vec<Fp>> = Vec::new();
    let prover = MockProver::run(&cs, &lay, &inst);
    assert!(prover.is_satisfied());
    assert_eq!(prover.violations.len(), 0);
}

#[test]
fn other_seeds_follow_the_recurrence() {
    let a = Fp::from_u64(3);
    let b = Fp::from_u64(4);
    // terms: 3, 4, 7, 11, 18, 29, 47
    let (cs, lay, last) = run_fibonacci(Some(a), Some(b), 4).unwrap();
    assert_eq!(last.val, Fp::from_u64(47));
    let inst: Vec<Vec<Fp>> = Vec::new();
    assert!(MockProver::run(&cs, &lay, &inst).is_satisfied());
}

#[test]
fn seed_row_alone_adds_the_seeds() {
    let (_, _, last) = run_fibonacci(Some(Fp::from_u64(20)), Some(Fp::from_u64(22)), 0).unwrap();
    assert_eq!(last.val, Fp::from_u64(42));
}

#[test]
fn recurrence_wraps_at_the_modulus() {
    let a = Fp::from_u64(FP_MODULUS - 1);
    let b = Fp::from_u64(1);
    let (cs, lay, last) = run_fibonacci(Some(a), Some(b), 0).unwrap();
    assert_eq!(last.val, Fp::zero());
    let inst: Vec<Vec<Fp>> = Vec::new();
    assert!(MockProver::run(&cs, &lay, &inst).is_satisfied());
}

#[test]
fn missing_witness_fails_with_synthesis() {
    assert_eq!(run_fibonacci::<Fp>(None, Some(Fp::from_u64(1)), 7).unwrap_err(), Error::Synthesis);
    assert_eq!(run_fibonacci::<Fp>(Some(Fp::from_u64(1)), None, 7).unwrap_err(), Error::Synthesis);
    let circuit = FibonacciCircuit { a: Some(Fp::from_u64(1)), b: Some(Fp::from_u64(1)), steps: 3 };
    let keygen = circuit.without_witnesses();
    let mut cs = ConstraintSystem::new();
    let config = FibonacciCircuit::<Fp>::configure(&mut cs);
    let lay: Layouter<Fp> = Layouter::new(&cs);
    assert_eq!(keygen.synthesize(&config, lay).unwrap_err(), Error::Synthesis);
}

#[test]
fn wrong_sum_is_reported_at_its_row() {
    let mut cs = ConstraintSystem::new();
    let config = FibonacciCircuit::<Fp>::configure(&mut cs);
    let chip = FiboChip::construct(config);
    let lay: Layouter<Fp> = Layouter::new(&cs);
    let mut region = lay.begin_region("broken row".to_string());
    region.enable_selector(chip.config.select, 0);
    region.assign_advice(chip.config.col_a, 0, Some(Fp::from_u64(1))).unwrap();
    region.assign_advice(chip.config.col_b, 0, Some(Fp::from_u64(1))).unwrap();
    // c = a + b + 1: the add gate must reject exactly this row
    region.assign_advice(chip.config.col_c, 0, Some(Fp::from_u64(3))).unwrap();
    let lay = region.finish();
    let inst: Vec<Vec<Fp>> = Vec::new();
    let prover = MockProver::run(&cs, &lay, &inst);
    assert!(!prover.is_satisfied());
    assert_eq!(prover.violations.len(), 1);
    assert_eq!(prover.violations[0], Violation::Constraint { gate: 0, row: 0 });
}

#[test]
fn disabled_selector_leaves_the_row_unchecked() {
    let mut cs = ConstraintSystem::new();
    let config = FibonacciCircuit::<Fp>::configure(&mut cs);
    let chip = FiboChip::construct(config);
    let lay: Layouter<Fp> = Layouter::new(&cs);
    let mut region = lay.begin_region("unchecked row".to_string());
    // same wrong values as the violation test, but the selector stays off
    region.assign_advice(chip.config.col_a, 0, Some(Fp::from_u64(1))).unwrap();
    region.assign_advice(chip.config.col_b, 0, Some(Fp::from_u64(1))).unwrap();
    region.assign_advice(chip.config.col_c, 0, Some(Fp::from_u64(3))).unwrap();
    let lay = region.finish();
    let inst: Vec<Vec<Fp>> = Vec::new();
    let prover = MockProver::run(&cs, &lay, &inst);
    assert!(prover.is_satisfied());
}

#[test]
fn flipped_selector_passes_only_a_coincidentally_valid_row() {
    // a row whose values do satisfy c = a + b passes whether or not the
    // selector is on; the checker only ever skips rows, it never adds
    // constraints
    let mut cs = ConstraintSystem::new();
    let config = FibonacciCircuit::<Fp>::configure(&mut cs);
    let chip = FiboChip::construct(config);
    for enable in [false, true] {
        let lay: Layouter<Fp> = Layouter::new(&cs);
        let mut region = lay.begin_region("valid row".to_string());
        if enable {
            region.enable_selector(chip.config.select, 0);
        }
        region.assign_advice(chip.config.col_a, 0, Some(Fp::from_u64(2))).unwrap();
        region.assign_advice(chip.config.col_b, 0, Some(Fp::from_u64(5))).unwrap();
        region.assign_advice(chip.config.col_c, 0, Some(Fp::from_u64(7))).unwrap();
        let lay = region.finish();
        let inst: Vec<Vec<Fp>> = Vec::new();
        assert!(MockProver::run(&cs, &lay, &inst).is_satisfied());
    }
}

#[test]
fn chained_rows_record_two_copies_each() {
    let a = Fp::from_u64(1);
    let b = Fp::from_u64(2);
    let (_, lay, _) = run_fibonacci(Some(a), Some(b), 3).unwrap();
    assert_eq!(lay.pairs.len(), 6);
    assert_eq!(lay.regions.len(), 4);
    assert_eq!(lay.regions[0].name, "first row".to_string());
    for k in 1..4 {
        assert_eq!(lay.regions[k].name, "next row".to_string());
        assert_eq!(lay.regions[k].start, k);
        assert_eq!(lay.regions[k].size, 1);
        // step k copies the previous row's middle and last cells into its
        // first two columns
        let (src_b, dst_a) = lay.pairs[2 * (k - 1)];
        let (src_c, dst_b) = lay.pairs[2 * (k - 1) + 1];
        assert_eq!(dst_a.row, k);
        assert_eq!(dst_b.row, k);
        assert_eq!(src_c.row, k - 1);
        assert_eq!(src_b.row, if k == 1 { 0 } else { k - 2 });
    }
    for p in &lay.pairs {
        assert_eq!(lay.resolve(p.0), lay.resolve(p.1));
        assert!(lay.resolve(p.0).is_some());
    }
}
