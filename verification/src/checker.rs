//! The satisfiability checker (mock prover): evaluates every gate at every
//! row of the assigned grid, holds every recorded copy constraint to its
//! two values, and binds instance-column cells to the declared public
//! inputs.  It enumerates all violations rather than stopping at the
//! first; an empty report is exactly satisfaction.

use vstd::prelude::*;

use crate::field::FieldOps;
use crate::layout::Cell;
use crate::layout::Layouter;
use crate::system::ColumnKind;
use crate::system::ConstraintSystem;
use crate::system::Expr;

verus! {

/// One reason a witness grid fails the check, with enough locality to
/// diagnose it.
#[derive(Clone, Copy, Debug, PartialEq, Eq, Structural)]
pub enum Violation {
    /// A polynomial of gate `gate` (by registration order) did not
    /// evaluate to zero at row `row`, although that gate's selector is
    /// enabled there (or a cell it queries is missing).
    Constraint { gate: usize, row: usize },
    /// A recorded copy constraint whose two cells do not resolve to one
    /// value.
    CopyConstraint { left: Cell, right: Cell },
    /// A recorded copy constraint binding a cell to an instance column
    /// whose declared public input is missing or different.
    PublicInput { left: Cell, right: Cell },
}

/// The public-input tables as the specifications see them: one row
/// sequence per instance column, in allocation order.
pub open spec fn inst_view<F: FieldOps>(inst: Vec<Vec<F>>) -> Seq<Seq<F>> {
    inst@.map_values(|col: Vec<F>| col@)
}

/// How many instance columns were allocated before column `c`; the
/// position of `c`'s table among the public inputs.
pub open spec fn num_instance_before(cols: Seq<ColumnKind>, c: int) -> int
    decreases c,
{
    if c <= 0 {
        0
    } else {
        num_instance_before(cols, c - 1) + if cols[c - 1] is Instance {
            1int
        } else {
            0int
        }
    }
}

/// The value a cell carries for checking purposes: instance cells read
/// the declared public inputs, all other cells read the witness grid.
pub open spec fn cell_value<F: FieldOps>(
    cs: ConstraintSystem,
    lay: Layouter<F>,
    inst: Seq<Seq<F>>,
    c: int,
    r: int,
) -> Option<F> {
    if 0 <= c < cs.columns@.len() && cs.columns@[c] is Instance {
        let j = num_instance_before(cs.columns@, c);
        if j < inst.len() && 0 <= r < inst[j].len() {
            Some(inst[j][r])
        } else {
            None
        }
    } else {
        lay.value_at(c, r)
    }
}

/// The value of a gate expression at row `r`: a selector query is one
/// where enabled and zero elsewhere, a column query reads the cell at the
/// offset row, and `None` marks a missing required cell.
pub open spec fn eval_spec<F: FieldOps>(
    e: Expr,
    cs: ConstraintSystem,
    lay: Layouter<F>,
    inst: Seq<Seq<F>>,
    r: int,
) -> Option<F>
    decreases e,
{
    match e {
        Expr::SelectorQuery(s) => if lay.sel_on(s.index as int, r) {
            Some(F::one_spec())
        } else {
            Some(F::zero_spec())
        },
        Expr::ColumnQuery(c, rot) => {
            if 0 <= r + rot <= usize::MAX {
                cell_value(cs, lay, inst, c.index as int, r + rot)
            } else {
                None
            }
        },
        Expr::Sum(a, b) => match (eval_spec(*a, cs, lay, inst, r), eval_spec(*b, cs, lay, inst, r)) {
            (Some(x), Some(y)) => Some(x.add_spec(y)),
            _ => None,
        },
        Expr::Neg(a) => match eval_spec(*a, cs, lay, inst, r) {
            Some(x) => Some(x.neg_spec()),
            None => None,
        },
        Expr::Product(a, b) => match (
            eval_spec(*a, cs, lay, inst, r),
            eval_spec(*b, cs, lay, inst, r),
        ) {
            (Some(x), Some(y)) => Some(x.mul_spec(y)),
            _ => None,
        },
    }
}

/// Gate `g` holds at row `r`: wherever its selector is enabled, every one
/// of its polynomials evaluates to zero there.
pub open spec fn gate_ok<F: FieldOps>(
    cs: ConstraintSystem,
    lay: Layouter<F>,
    inst: Seq<Seq<F>>,
    g: int,
    r: int,
) -> bool {
    lay.sel_on(cs.gates@[g].selector.index as int, r) ==> forall|k: int|
        0 <= k < cs.gates@[g].polys@.len() ==> #[trigger] eval_spec(
            cs.gates@[g].polys@[k],
            cs,
            lay,
            inst,
            r,
        ) == Some(F::zero_spec())
}

/// A recorded copy constraint holds: both cells resolve to a value and
/// the two values are equal.
pub open spec fn pair_ok<F: FieldOps>(
    cs: ConstraintSystem,
    lay: Layouter<F>,
    inst: Seq<Seq<F>>,
    p: (Cell, Cell),
) -> bool {
    let vl = cell_value(cs, lay, inst, p.0.column as int, p.0.row as int);
    let vr = cell_value(cs, lay, inst, p.1.column as int, p.1.row as int);
    vl is Some && vr is Some && vl == vr
}

/// Whether a copy constraint touches an instance column, in which case a
/// failure is a public-input mismatch rather than a plain copy violation.
pub open spec fn pair_is_public(cs: ConstraintSystem, p: (Cell, Cell)) -> bool {
    ||| (p.0.column < cs.columns@.len() && cs.columns@[p.0.column as int] is Instance)
    ||| (p.1.column < cs.columns@.len() && cs.columns@[p.1.column as int] is Instance)
}

/// The violation a failing copy constraint is reported as.
pub open spec fn pair_violation(cs: ConstraintSystem, p: (Cell, Cell)) -> Violation {
    if pair_is_public(cs, p) {
        Violation::PublicInput { left: p.0, right: p.1 }
    } else {
        Violation::CopyConstraint { left: p.0, right: p.1 }
    }
}

/// The witness grid satisfies the circuit: every gate holds at every
/// assigned row, and every recorded copy constraint holds.
pub open spec fn satisfied<F: FieldOps>(
    cs: ConstraintSystem,
    lay: Layouter<F>,
    inst: Seq<Seq<F>>,
) -> bool {
    &&& forall|g: int, r: int|
        0 <= g < cs.gates@.len() && 0 <= r < lay.next_row ==> #[trigger] gate_ok::<F>(
            cs,
            lay,
            inst,
            g,
            r,
        )
    &&& forall|i: int|
        0 <= i < lay.pairs@.len() ==> #[trigger] pair_ok::<F>(cs, lay, inst, lay.pairs@[i])
}

/// What each reported violation asserts of the grid; the checker only
/// ever reports true ones.
pub open spec fn violation_holds<F: FieldOps>(
    cs: ConstraintSystem,
    lay: Layouter<F>,
    inst: Seq<Seq<F>>,
    v: Violation,
) -> bool {
    match v {
        Violation::Constraint { gate, row } => {
            &&& gate < cs.gates@.len()
            &&& row < lay.next_row
            &&& !gate_ok::<F>(cs, lay, inst, gate as int, row as int)
        },
        Violation::CopyConstraint { left, right } => {
            &&& lay.pairs@.contains((left, right))
            &&& !pair_ok::<F>(cs, lay, inst, (left, right))
            &&& !pair_is_public(cs, (left, right))
        },
        Violation::PublicInput { left, right } => {
            &&& lay.pairs@.contains((left, right))
            &&& !pair_ok::<F>(cs, lay, inst, (left, right))
            &&& pair_is_public(cs, (left, right))
        },
    }
}

/// A gate imposes nothing at a row where its selector is off: such a row
/// can only fail the check through some other gate or constraint.
pub proof fn lemma_selector_off_gate_ok<F: FieldOps>(
    cs: ConstraintSystem,
    lay: Layouter<F>,
    inst: Seq<Seq<F>>,
    g: int,
    r: int,
)
    requires
        !lay.sel_on(cs.gates@[g].selector.index as int, r),
    ensures
        gate_ok::<F>(cs, lay, inst, g, r),
{
}

/// A recorded copy constraint whose two cells resolve differently (or
/// not at all) makes the whole grid unsatisfiable.
pub proof fn lemma_conflicting_pair_unsatisfied<F: FieldOps>(
    cs: ConstraintSystem,
    lay: Layouter<F>,
    inst: Seq<Seq<F>>,
    i: int,
)
    requires
        0 <= i < lay.pairs@.len(),
        !pair_ok::<F>(cs, lay, inst, lay.pairs@[i]),
    ensures
        !satisfied::<F>(cs, lay, inst),
{
}

fn sel_on_exec<F: FieldOps>(lay: &Layouter<F>, s: usize, r: usize) -> (b: bool)
    ensures
        b == lay.sel_on(s as int, r as int),
{
    if s < lay.sel_rows.len() {
        let track = &lay.sel_rows[s];
        if r < track.len() {
            track[r]
        } else {
            false
        }
    } else {
        false
    }
}

fn count_instance_before(cs: &ConstraintSystem, c: usize) -> (j: usize)
    requires
        c <= cs.columns@.len(),
    ensures
        j == num_instance_before(cs.columns@, c as int),
        j <= c,
{
    let mut j: usize = 0;
    let mut i: usize = 0;
    while i < c
        invariant
            i <= c,
            c <= cs.columns@.len(),
            j == num_instance_before(cs.columns@, i as int),
            j <= i,
        decreases c - i,
    {
        if matches!(cs.columns[i], ColumnKind::Instance) {
            j = j + 1;
        }
        i = i + 1;
    }
    j
}

fn cell_value_exec<F: FieldOps>(
    cs: &ConstraintSystem,
    lay: &Layouter<F>,
    inst: &Vec<Vec<F>>,
    c: usize,
    r: usize,
) -> (v: Option<F>)
    ensures
        v == cell_value(*cs, *lay, inst_view(*inst), c as int, r as int),
{
    if c < cs.columns.len() && matches!(cs.columns[c], ColumnKind::Instance) {
        let j = count_instance_before(cs, c);
        if j < inst.len() {
            let table = &inst[j];
            if r < table.len() {
                Some(table[r])
            } else {
                None
            }
        } else {
            None
        }
    } else {
        self_resolve(lay, c, r)
    }
}

fn self_resolve<F: FieldOps>(lay: &Layouter<F>, c: usize, r: usize) -> (v: Option<F>)
    ensures
        v == lay.value_at(c as int, r as int),
{
    if c < lay.grid.len() {
        let col = &lay.grid[c];
        if r < col.len() {
            col[r]
        } else {
            None
        }
    } else {
        None
    }
}

/// Evaluates a gate expression at an absolute row, against the grid, the
/// selector assignment and the public inputs.
pub fn eval<F: FieldOps>(
    e: &Expr,
    cs: &ConstraintSystem,
    lay: &Layouter<F>,
    inst: &Vec<Vec<F>>,
    row: usize,
) -> (v: Option<F>)
    ensures
        v == eval_spec(*e, *cs, *lay, inst_view(*inst), row as int),
    decreases *e,
{
    match e {
        Expr::SelectorQuery(s) => {
            if sel_on_exec(lay, s.index, row) {
                Some(F::one())
            } else {
                Some(F::zero())
            }
        },
        Expr::ColumnQuery(c, rot) => {
            let t: i128 = row as i128 + *rot as i128;
            if 0 <= t && t <= usize::MAX as i128 {
                cell_value_exec(cs, lay, inst, c.index, t as usize)
            } else {
                None
            }
        },
        Expr::Sum(a, b) => {
            let va = eval(a, cs, lay, inst, row);
            let vb = eval(b, cs, lay, inst, row);
            match (va, vb) {
                (Some(x), Some(y)) => Some(x.add(y)),
                _ => None,
            }
        },
        Expr::Neg(a) => {
            let va = eval(a, cs, lay, inst, row);
            match va {
                Some(x) => Some(x.neg()),
                None => None,
            }
        },
        Expr::Product(a, b) => {
            let va = eval(a, cs, lay, inst, row);
            let vb = eval(b, cs, lay, inst, row);
            match (va, vb) {
                (Some(x), Some(y)) => Some(x.mul(y)),
                _ => None,
            }
        },
    }
}

/// When a sequence grows by one at the back, everything it contained it
/// still contains, and it contains the new element.
proof fn lemma_push_keeps_contains<T>(s: Seq<T>, x: T)
    ensures
        forall|y: T| s.contains(y) ==> #[trigger] s.push(x).contains(y),
        s.push(x).contains(x),
{
    assert forall|y: T| s.contains(y) implies #[trigger] s.push(x).contains(y) by {
        let i = choose|i: int| 0 <= i < s.len() && s[i] == y;
        assert(s.push(x)[i] == y);
    }
    assert(s.push(x)[s.len() as int] == x);
}

/// Every gate violation in `v` names a gate-row pair that the checker's
/// walk has not reached yet when it stands at gate `g`, row `r`; other
/// violation kinds are unconstrained.  This is what keeps the report free
/// of duplicate gate violations.
spec fn constraint_before(v: Violation, g: int, r: int) -> bool {
    match v {
        Violation::Constraint { gate, row } => gate < g || (gate == g && row < r),
        _ => true,
    }
}

/// Runs the whole check and reports every violation: every gate at every
/// assigned row, then every recorded copy constraint.  The report is
/// empty exactly when the grid satisfies the circuit; everything reported
/// is a true violation, and every violated gate row and failing copy
/// constraint is reported.
pub fn check<F: FieldOps>(
    cs: &ConstraintSystem,
    lay: &Layouter<F>,
    inst: &Vec<Vec<F>>,
) -> (vs: Vec<Violation>)
    ensures
        forall|i: int|
            0 <= i < vs@.len() ==> #[trigger] violation_holds::<F>(
                *cs,
                *lay,
                inst_view(*inst),
                vs@[i],
            ),
        forall|g: usize, r: usize|
            g < cs.gates@.len() && r < lay.next_row && !gate_ok::<F>(
                *cs,
                *lay,
                inst_view(*inst),
                g as int,
                r as int,
            ) ==> #[trigger] vs@.contains(Violation::Constraint { gate: g, row: r }),
        forall|i: int|
            0 <= i < lay.pairs@.len() && !pair_ok::<F>(
                *cs,
                *lay,
                inst_view(*inst),
                #[trigger] lay.pairs@[i],
            ) ==> vs@.contains(pair_violation(*cs, lay.pairs@[i])),
        forall|i: int, j: int|
            0 <= i < j < vs@.len() && vs@[i] is Constraint && vs@[j] is Constraint ==> vs@[i]
                != vs@[j],
        vs@.len() == 0 <==> satisfied::<F>(*cs, *lay, inst_view(*inst)),
{
    let ghost iv = inst_view(*inst);
    let mut vs: Vec<Violation> = Vec::new();
    let mut g: usize = 0;
    while g < cs.gates.len()
        invariant
            iv == inst_view(*inst),
            g <= cs.gates@.len(),
            forall|i: int|
                0 <= i < vs@.len() ==> #[trigger] violation_holds::<F>(*cs, *lay, iv, vs@[i]),
            forall|gg: usize, rr: usize|
                gg < g && rr < lay.next_row && !gate_ok::<F>(*cs, *lay, iv, gg as int, rr as int)
                    ==> #[trigger] vs@.contains(Violation::Constraint { gate: gg, row: rr }),
            forall|i: int| 0 <= i < vs@.len() ==> constraint_before(#[trigger] vs@[i], g as int, 0),
            forall|i: int, j: int|
                0 <= i < j < vs@.len() && vs@[i] is Constraint && vs@[j] is Constraint ==> vs@[i]
                    != vs@[j],
        decreases cs.gates@.len() - g,
    {
        let gate = &cs.gates[g];
        let mut r: usize = 0;
        while r < lay.next_row
            invariant
                iv == inst_view(*inst),
                g < cs.gates@.len(),
                gate == &cs.gates[g as int],
                r <= lay.next_row,
                forall|i: int|
                    0 <= i < vs@.len() ==> #[trigger] violation_holds::<F>(*cs, *lay, iv, vs@[i]),
                forall|gg: usize, rr: usize|
                    gg < g && rr < lay.next_row && !gate_ok::<F>(
                        *cs,
                        *lay,
                        iv,
                        gg as int,
                        rr as int,
                    ) ==> #[trigger] vs@.contains(Violation::Constraint { gate: gg, row: rr }),
                forall|rr: usize|
                    rr < r && !gate_ok::<F>(*cs, *lay, iv, g as int, rr as int) ==> #[trigger] vs@.contains(
                        Violation::Constraint { gate: g, row: rr },
                    ),
                forall|i: int|
                    0 <= i < vs@.len() ==> constraint_before(#[trigger] vs@[i], g as int, r as int),
                forall|i: int, j: int|
                    0 <= i < j < vs@.len() && vs@[i] is Constraint && vs@[j] is Constraint
                        ==> vs@[i] != vs@[j],
            decreases lay.next_row - r,
        {
            if sel_on_exec(lay, gate.selector.index, r) {
                let mut bad = false;
                let mut k: usize = 0;
                while k < gate.polys.len()
                    invariant
                        iv == inst_view(*inst),
                        g < cs.gates@.len(),
                        gate == &cs.gates[g as int],
                        k <= gate.polys@.len(),
                        r < lay.next_row,
                        lay.sel_on(cs.gates@[g as int].selector.index as int, r as int),
                        bad == exists|kk: int|
                            0 <= kk < k && #[trigger] eval_spec(
                                gate.polys@[kk],
                                *cs,
                                *lay,
                                iv,
                                r as int,
                            ) != Some(F::zero_spec()),
                    decreases gate.polys@.len() - k,
                {
                    let v = eval(&gate.polys[k], cs, lay, inst, r);
                    let is_zero = match v {
                        Some(x) => x.eq_elem(&F::zero()),
                        None => false,
                    };
                    proof {
                        assert(v == eval_spec(gate.polys@[k as int], *cs, *lay, iv, r as int));
                        match v {
                            Some(x) => {
                                assert(is_zero == (x == F::zero_spec()));
                            },
                            None => {
                                assert(!is_zero);
                            },
                        }
                        assert(is_zero <==> eval_spec(gate.polys@[k as int], *cs, *lay, iv, r as int)
                            == Some(F::zero_spec()));
                    }
                    if !is_zero {
                        bad = true;
                        proof {
                            assert(eval_spec(gate.polys@[k as int], *cs, *lay, iv, r as int)
                                != Some(F::zero_spec()));
                        }
                    }
                    k = k + 1;
                }
                if bad {
                    proof {
                        assert(!gate_ok::<F>(*cs, *lay, iv, g as int, r as int));
                        assert forall|i: int| 0 <= i < vs@.len() + 1 implies violation_holds::<F>(
                            *cs,
                            *lay,
                            iv,
                            vs@.push(Violation::Constraint { gate: g, row: r })[i],
                        ) by {
                            if i < vs@.len() {
                                assert(violation_holds::<F>(*cs, *lay, iv, vs@[i]));
                            }
                        }
                    }
                    let ghost vs0 = vs@;
                    vs.push(Violation::Constraint { gate: g, row: r });
                    proof {
                        lemma_push_keeps_contains::<Violation>(
                            vs0,
                            Violation::Constraint { gate: g, row: r },
                        );
                    }
                }
            } else {
                proof {
                    lemma_selector_off_gate_ok::<F>(*cs, *lay, iv, g as int, r as int);
                }
            }
            r = r + 1;
        }
        g = g + 1;
    }
    let mut i: usize = 0;
    while i < lay.pairs.len()
        invariant
            iv == inst_view(*inst),
            i <= lay.pairs@.len(),
            forall|j: int|
                0 <= j < vs@.len() ==> #[trigger] violation_holds::<F>(*cs, *lay, iv, vs@[j]),
            forall|gg: usize, rr: usize|
                gg < cs.gates@.len() && rr < lay.next_row && !gate_ok::<F>(
                    *cs,
                    *lay,
                    iv,
                    gg as int,
                    rr as int,
                ) ==> #[trigger] vs@.contains(Violation::Constraint { gate: gg, row: rr }),
            forall|j: int|
                0 <= j < i && !pair_ok::<F>(*cs, *lay, iv, #[trigger] lay.pairs@[j]) ==> vs@.contains(
                    pair_violation(*cs, lay.pairs@[j]),
                ),
            forall|j: int, k: int|
                0 <= j < k < vs@.len() && vs@[j] is Constraint && vs@[k] is Constraint ==> vs@[j]
                    != vs@[k],
        decreases lay.pairs@.len() - i,
    {
        let p = lay.pairs[i];
        let vl = cell_value_exec(cs, lay, inst, p.0.column, p.0.row);
        let vr = cell_value_exec(cs, lay, inst, p.1.column, p.1.row);
        let ok = match (vl, vr) {
            (Some(a), Some(b)) => a.eq_elem(&b),
            _ => false,
        };
        proof {
            assert((p.0, p.1) == p);
            assert(ok <==> pair_ok::<F>(*cs, *lay, iv, lay.pairs@[i as int]));
        }
        if !ok {
            let is_public = (p.0.column < cs.columns.len() && matches!(
                cs.columns[p.0.column],
                ColumnKind::Instance,
            )) || (p.1.column < cs.columns.len() && matches!(
                cs.columns[p.1.column],
                ColumnKind::Instance,
            ));
            let v = if is_public {
                Violation::PublicInput { left: p.0, right: p.1 }
            } else {
                Violation::CopyConstraint { left: p.0, right: p.1 }
            };
            proof {
                assert(lay.pairs@.contains(lay.pairs@[i as int]));
                assert(is_public == pair_is_public(*cs, p));
                assert(v == pair_violation(*cs, lay.pairs@[i as int]));
                assert(violation_holds::<F>(*cs, *lay, iv, v));
                assert(!(v is Constraint));
                assert forall|j: int| 0 <= j < vs@.len() + 1 implies violation_holds::<F>(
                    *cs,
                    *lay,
                    iv,
                    vs@.push(v)[j],
                ) by {
                    if j < vs@.len() {
                        assert(violation_holds::<F>(*cs, *lay, iv, vs@[j]));
                    } else {
                        assert(vs@.push(v)[j] == v);
                    }
                }
            }
            let ghost vs0 = vs@;
            vs.push(v);
            proof {
                lemma_push_keeps_contains::<Violation>(vs0, v);
            }
        }
        i = i + 1;
    }
    proof {
        if vs@.len() == 0 {
            assert forall|g2: int, r2: int|
                0 <= g2 < cs.gates@.len() && 0 <= r2 < lay.next_row implies #[trigger] gate_ok::<F>(
                *cs,
                *lay,
                iv,
                g2,
                r2,
            ) by {
                if !gate_ok::<F>(*cs, *lay, iv, g2, r2) {
                    assert(vs@.contains(
                        Violation::Constraint { gate: g2 as usize, row: r2 as usize },
                    ));
                }
            }
            assert forall|j: int| 0 <= j < lay.pairs@.len() implies #[trigger] pair_ok::<F>(
                *cs,
                *lay,
                iv,
                lay.pairs@[j],
            ) by {
                if !pair_ok::<F>(*cs, *lay, iv, lay.pairs@[j]) {
                    assert(vs@.contains(pair_violation(*cs, lay.pairs@[j])));
                }
            }
        } else {
            if satisfied::<F>(*cs, *lay, iv) {
                assert(violation_holds::<F>(*cs, *lay, iv, vs@[0]));
                match vs@[0] {
                    Violation::Constraint { gate, row } => {
                        assert(gate_ok::<F>(*cs, *lay, iv, gate as int, row as int));
                    },
                    Violation::CopyConstraint { left, right } => {
                        let j = choose|j: int|
                            0 <= j < lay.pairs@.len() && lay.pairs@[j] == (left, right);
                        assert(pair_ok::<F>(*cs, *lay, iv, lay.pairs@[j]));
                    },
                    Violation::PublicInput { left, right } => {
                        let j = choose|j: int|
                            0 <= j < lay.pairs@.len() && lay.pairs@[j] == (left, right);
                        assert(pair_ok::<F>(*cs, *lay, iv, lay.pairs@[j]));
                    },
                }
            }
        }
    }
    vs
}

/// The result of one satisfiability run: the full list of violations, in
/// the order the checker walks the circuit (gates by registration order,
/// each over all rows, then copy constraints in recording order).
#[derive(Debug)]
pub struct MockProver {
    pub violations: Vec<Violation>,
}

impl MockProver {
    /// Checks the assigned grid against every gate, copy constraint and
    /// public input, and records every violation found.
    pub fn run<F: FieldOps>(
        cs: &ConstraintSystem,
        lay: &Layouter<F>,
        instance: &Vec<Vec<F>>,
    ) -> (mp: MockProver)
        ensures
            forall|i: int|
                0 <= i < mp.violations@.len() ==> #[trigger] violation_holds::<F>(
                    *cs,
                    *lay,
                    inst_view(*instance),
                    mp.violations@[i],
                ),
            forall|g: usize, r: usize|
                g < cs.gates@.len() && r < lay.next_row && !gate_ok::<F>(
                    *cs,
                    *lay,
                    inst_view(*instance),
                    g as int,
                    r as int,
                ) ==> #[trigger] mp.violations@.contains(Violation::Constraint { gate: g, row: r }),
            forall|i: int|
                0 <= i < lay.pairs@.len() && !pair_ok::<F>(
                    *cs,
                    *lay,
                    inst_view(*instance),
                    #[trigger] lay.pairs@[i],
                ) ==> mp.violations@.contains(pair_violation(*cs, lay.pairs@[i])),
            forall|i: int, j: int|
                0 <= i < j < mp.violations@.len() && mp.violations@[i] is Constraint
                    && mp.violations@[j] is Constraint ==> mp.violations@[i] != mp.violations@[j],
            mp.violations@.len() == 0 <==> satisfied::<F>(*cs, *lay, inst_view(*instance)),
    {
        MockProver { violations: check(cs, lay, instance) }
    }

    /// Whether the run found no violation at all.
    pub fn is_satisfied(&self) -> (b: bool)
        ensures
            b <==> self.violations@.len() == 0,
    {
        self.violations.len() == 0
    }
}

} // verus!
