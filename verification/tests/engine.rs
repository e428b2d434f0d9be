use plonkish::checker::MockProver;
use plonkish::checker::Violation;
use plonkish::field::Fp;
use plonkish::field::FieldOps;
use plonkish::field::FP_MODULUS;
use plonkish::layout::Cell;
use plonkish::layout::Error;
use plonkish::layout::Layouter;
use plonkish::system::ColumnKind;
use plonkish::system::ConstraintSystem;
use plonkish::system::Expr;

#[test]
fn empty_circuit_is_satisfied() {
    let cs = ConstraintSystem::new();
    let lay: Layouter<Fp> = Layouter::new(&cs);
    let inst: Vec<Vec<Fp>> = Vec::new();
    let prover = MockProver::run(&cs, &lay, &inst);
    assert!(prover.is_satisfied());
    assert!(prover.violations.is_empty());
}

#[test]
fn field_arithmetic_is_modular() {
    let a = Fp::from_u64(FP_MODULUS - 1);
    let b = Fp::from_u64(2);
    assert_eq!(a.add(b).v, 1);
    assert_eq!(Fp::from_u64(FP_MODULUS).v, 0);
    assert_eq!(Fp::from_u64(3).mul(Fp::from_u64(5)).v, 15);
    let big = Fp::from_u64(FP_MODULUS - 1);
    assert_eq!(big.mul(big).v, 1);
    assert_eq!(Fp::from_u64(4).neg().v, FP_MODULUS - 4);
    assert_eq!(Fp::from_u64(0).neg().v, 0);
    assert_eq!(Fp::from_u64(9).add(Fp::from_u64(9).neg()), Fp::zero());
    assert_eq!(Fp::one().mul(Fp::from_u64(11)).v, 11);
    assert!(Fp::from_u64(7).eq_elem(&Fp::from_u64(7)));
    assert!(!Fp::from_u64(7).eq_elem(&Fp::from_u64(8)));
}

#[test]
fn missing_witness_is_synthesis_error() {
    let mut cs = ConstraintSystem::new();
    let col = cs.advice_column();
    let lay: Layouter<Fp> = Layouter::new(&cs);
    let mut region = lay.begin_region("r".to_string());
    let res = region.assign_advice(col, 0, None);
    assert_eq!(res.unwrap_err(), Error::Synthesis);
}

#[test]
fn conflicting_reassignment_is_rejected() {
    let mut cs = ConstraintSystem::new();
    let col = cs.advice_column();
    let lay: Layouter<Fp> = Layouter::new(&cs);
    let mut region = lay.begin_region("r".to_string());
    region.assign_advice(col, 0, Some(Fp::from_u64(4))).unwrap();
    let again = region.assign_advice(col, 0, Some(Fp::from_u64(5)));
    assert_eq!(again.unwrap_err(), Error::DoubleAssignment);
    let same = region.assign_advice(col, 0, Some(Fp::from_u64(4)));
    assert!(same.is_ok());
}

#[test]
fn copy_needs_equality_enabled() {
    let mut cs = ConstraintSystem::new();
    let src_col = cs.advice_column();
    let dst_col = cs.advice_column();
    let lay: Layouter<Fp> = Layouter::new(&cs);
    let mut region = lay.begin_region("r".to_string());
    let src = region.assign_advice(src_col, 0, Some(Fp::from_u64(6))).unwrap();
    let res = region.copy_advice(src.cell, dst_col, 1);
    assert_eq!(res.unwrap_err(), Error::ColumnNotEqualityEnabled);
}

#[test]
fn copy_propagates_the_source_value() {
    let mut cs = ConstraintSystem::new();
    let src_col = cs.advice_column();
    let dst_col = cs.advice_column();
    cs.enable_equality(src_col);
    cs.enable_equality(dst_col);
    let lay: Layouter<Fp> = Layouter::new(&cs);
    let mut region = lay.begin_region("source".to_string());
    let src = region.assign_advice(src_col, 0, Some(Fp::from_u64(42))).unwrap();
    let lay = region.finish();
    let mut region = lay.begin_region("copy".to_string());
    let dst = region.copy_advice(src.cell, dst_col, 0).unwrap();
    let lay = region.finish();
    assert_eq!(dst.val, Fp::from_u64(42));
    assert_eq!(lay.resolve(dst.cell), Some(Fp::from_u64(42)));
    let inst: Vec<Vec<Fp>> = Vec::new();
    let prover = MockProver::run(&cs, &lay, &inst);
    assert!(prover.is_satisfied());
}

#[test]
fn conflicting_copy_constraint_is_a_violation() {
    let mut cs = ConstraintSystem::new();
    let col = cs.advice_column();
    cs.enable_equality(col);
    let lay: Layouter<Fp> = Layouter::new(&cs);
    let mut region = lay.begin_region("two cells".to_string());
    let first = region.assign_advice(col, 0, Some(Fp::from_u64(1))).unwrap();
    let second = region.assign_advice(col, 1, Some(Fp::from_u64(2))).unwrap();
    let mut lay = region.finish();
    lay.record_equal(first.cell, second.cell).unwrap();
    let inst: Vec<Vec<Fp>> = Vec::new();
    let prover = MockProver::run(&cs, &lay, &inst);
    assert!(!prover.is_satisfied());
    assert_eq!(prover.violations.len(), 1);
    assert_eq!(
        prover.violations[0],
        Violation::CopyConstraint { left: first.cell, right: second.cell }
    );
}

#[test]
fn instance_cell_must_match_public_input() {
    let mut cs = ConstraintSystem::new();
    let adv = cs.advice_column();
    let pub_col = cs.allocate_column(ColumnKind::Instance);
    cs.enable_equality(adv);
    cs.enable_equality(pub_col);
    let lay: Layouter<Fp> = Layouter::new(&cs);
    let mut region = lay.begin_region("bind".to_string());
    let cell = region.assign_advice(adv, 0, Some(Fp::from_u64(5))).unwrap();
    let mut lay = region.finish();
    lay.record_equal(cell.cell, Cell { column: pub_col.index, row: 0 }).unwrap();

    let good = vec![vec![Fp::from_u64(5)]];
    let prover = MockProver::run(&cs, &lay, &good);
    assert!(prover.is_satisfied());

    let bad = vec![vec![Fp::from_u64(7)]];
    let prover = MockProver::run(&cs, &lay, &bad);
    assert!(!prover.is_satisfied());
    assert_eq!(prover.violations.len(), 1);
    assert!(matches!(prover.violations[0], Violation::PublicInput { .. }));
}

#[test]
fn regions_get_disjoint_row_blocks() {
    let mut cs = ConstraintSystem::new();
    let col = cs.advice_column();
    let lay: Layouter<Fp> = Layouter::new(&cs);
    let mut region = lay.begin_region("one".to_string());
    region.assign_advice(col, 0, Some(Fp::from_u64(1))).unwrap();
    region.assign_advice(col, 2, Some(Fp::from_u64(2))).unwrap();
    let lay = region.finish();
    let mut region = lay.begin_region("two".to_string());
    region.assign_advice(col, 1, Some(Fp::from_u64(3))).unwrap();
    let lay = region.finish();
    let mut region = lay.begin_region("three".to_string());
    region.assign_advice(col, 0, Some(Fp::from_u64(4))).unwrap();
    let lay = region.finish();
    assert_eq!(lay.regions.len(), 3);
    for i in 0..lay.regions.len() {
        for j in 0..lay.regions.len() {
            if i != j {
                let a = &lay.regions[i];
                let b = &lay.regions[j];
                let disjoint = a.start + a.size <= b.start || b.start + b.size <= a.start;
                assert!(disjoint);
            }
        }
    }
    // sizes: 3 (offsets 0 and 2), 2 (offset 1), 1 (offset 0)
    assert_eq!(lay.next_row, 6);
}

#[test]
fn fixed_cells_hold_circuit_constants() {
    let mut cs = ConstraintSystem::new();
    let col = cs.allocate_column(ColumnKind::Fixed);
    let lay: Layouter<Fp> = Layouter::new(&cs);
    let mut region = lay.begin_region("constants".to_string());
    let cell = region.assign_fixed(col, 0, Fp::from_u64(13)).unwrap();
    let clash = region.assign_fixed(col, 0, Fp::from_u64(14));
    assert_eq!(clash.unwrap_err(), Error::DoubleAssignment);
    let lay = region.finish();
    assert_eq!(lay.resolve(cell.cell), Some(Fp::from_u64(13)));
}

#[test]
fn expression_queries_follow_the_grid() {
    let mut cs = ConstraintSystem::new();
    let col = cs.advice_column();
    let sel = cs.selector();
    let lay: Layouter<Fp> = Layouter::new(&cs);
    let mut region = lay.begin_region("r".to_string());
    region.enable_selector(sel, 0);
    region.assign_advice(col, 0, Some(Fp::from_u64(9))).unwrap();
    let lay = region.finish();
    let inst: Vec<Vec<Fp>> = Vec::new();
    let q = Expr::ColumnQuery(col, 0);
    assert_eq!(plonkish::checker::eval(&q, &cs, &lay, &inst, 0), Some(Fp::from_u64(9)));
    let s = Expr::SelectorQuery(sel);
    assert_eq!(plonkish::checker::eval(&s, &cs, &lay, &inst, 0), Some(Fp::one()));
    assert_eq!(plonkish::checker::eval(&s, &cs, &lay, &inst, 1), Some(Fp::zero()));
    let missing = Expr::ColumnQuery(col, 1);
    assert_eq!(plonkish::checker::eval(&missing, &cs, &lay, &inst, 0), None);
    let sum = Expr::Sum(
        Box::new(Expr::ColumnQuery(col, 0)),
        Box::new(Expr::Neg(Box::new(Expr::ColumnQuery(col, 0)))),
    );
    assert_eq!(plonkish::checker::eval(&sum, &cs, &lay, &inst, 0), Some(Fp::zero()));
}
