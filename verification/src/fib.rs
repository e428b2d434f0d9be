//! The reference circuit: a linear recurrence `c = a + b` enforced for a
//! run of rows.
//!
//! One gate checks `selector * (a + b - c)` over three advice columns of a
//! single row; consecutive rows are chained purely by copy constraints
//! (each step copies the previous row's middle and last cells into its
//! first two), so its gate never needs a row offset.  The chip assigns a
//! seed row and then one region per recurrence step; the driver at the
//! bottom runs configure, synthesize and returns a grid that provably
//! satisfies every gate and copy constraint.

use vstd::prelude::*;

use crate::field::FieldOps;
use crate::layout::AssignedCell;
use crate::layout::Cell;
use crate::layout::Error;
use crate::layout::Layouter;
use crate::system::Column;
use crate::system::ColumnKind;
use crate::system::ConstraintSystem;
use crate::system::Expr;
use crate::system::Gate;
use crate::system::Selector;
use crate::checker::cell_value;
use crate::checker::eval_spec;
use crate::checker::gate_ok;
use crate::checker::pair_ok;
use crate::checker::satisfied;

verus! {

/// The n-th term of the recurrence seeded by `a` and `b`:
/// term 0 is `a`, term 1 is `b`, and every later term is the sum of the
/// two before it.
pub open spec fn fib_val<F: FieldOps>(a: F, b: F, n: nat) -> F
    decreases n,
{
    if n == 0 {
        a
    } else if n == 1 {
        b
    } else {
        fib_val(a, b, (n - 2) as nat).add_spec(fib_val(a, b, (n - 1) as nat))
    }
}

/// Every term of the recurrence is well-formed when the seeds are.
pub proof fn lemma_fib_wf<F: FieldOps>(a: F, b: F, n: nat)
    requires
        a.wf(),
        b.wf(),
    ensures
        fib_val(a, b, n).wf(),
    decreases n,
{
    if n >= 2 {
        lemma_fib_wf(a, b, (n - 2) as nat);
        lemma_fib_wf(a, b, (n - 1) as nat);
        fib_val(a, b, (n - 2) as nat).lemma_add_wf(fib_val(a, b, (n - 1) as nat));
    }
}

/// The configuration the recurrence circuit needs: three advice columns
/// and that gate's selector.  Built once by `configure` and shared by
/// every later synthesis call.
#[derive(Clone, Copy, Debug, PartialEq, Eq, Structural)]
pub struct FiboConfig {
    pub col_a: Column,
    pub col_b: Column,
    pub col_c: Column,
    pub select: Selector,
}

impl FiboConfig {
    /// The configuration's handles denote distinct, equality-enabled
    /// advice columns and a selector of this constraint system.
    pub open spec fn wf(self, cs: ConstraintSystem) -> bool {
        &&& self.col_a.wf(cs)
        &&& self.col_b.wf(cs)
        &&& self.col_c.wf(cs)
        &&& self.col_a.kind == ColumnKind::Advice
        &&& self.col_b.kind == ColumnKind::Advice
        &&& self.col_c.kind == ColumnKind::Advice
        &&& self.col_a.index != self.col_b.index
        &&& self.col_a.index != self.col_c.index
        &&& self.col_b.index != self.col_c.index
        &&& self.select.wf(cs)
        &&& cs.eq_enabled@[self.col_a.index as int]
        &&& cs.eq_enabled@[self.col_b.index as int]
        &&& cs.eq_enabled@[self.col_c.index as int]
    }

    /// What the assignment operations need of a layouter: the handles
    /// point inside its grid, its selector tracks, and its equality
    /// flags.
    pub open spec fn live<F: FieldOps>(self, lay: Layouter<F>) -> bool {
        &&& self.col_a.index < lay.grid@.len()
        &&& self.col_b.index < lay.grid@.len()
        &&& self.col_c.index < lay.grid@.len()
        &&& self.col_a.kind == ColumnKind::Advice
        &&& self.col_b.kind == ColumnKind::Advice
        &&& self.col_c.kind == ColumnKind::Advice
        &&& self.col_a.index != self.col_b.index
        &&& self.col_a.index != self.col_c.index
        &&& self.col_b.index != self.col_c.index
        &&& self.select.index < lay.sel_rows@.len()
        &&& lay.eq_enabled@[self.col_a.index as int]
        &&& lay.eq_enabled@[self.col_b.index as int]
        &&& lay.eq_enabled@[self.col_c.index as int]
    }
}

/// The polynomial `selector * (a + b - c)` over the configuration's
/// columns, all queried at the current row.
pub open spec fn is_add_poly(e: Expr, cfg: FiboConfig) -> bool {
    match e {
        Expr::Product(s, sum) => {
            &&& match *s {
                Expr::SelectorQuery(sel) => sel == cfg.select,
                _ => false,
            }
            &&& match *sum {
                Expr::Sum(ab, negc) => {
                    &&& match *ab {
                        Expr::Sum(qa, qb) => {
                            &&& match *qa {
                                Expr::ColumnQuery(c, rot) => c == cfg.col_a && rot == 0,
                                _ => false,
                            }
                            &&& match *qb {
                                Expr::ColumnQuery(c, rot) => c == cfg.col_b && rot == 0,
                                _ => false,
                            }
                        },
                        _ => false,
                    }
                    &&& match *negc {
                        Expr::Neg(qc) => match *qc {
                            Expr::ColumnQuery(c, rot) => c == cfg.col_c && rot == 0,
                            _ => false,
                        },
                        _ => false,
                    }
                },
                _ => false,
            }
        },
        _ => false,
    }
}

/// The recurrence gate: guarded by the configuration's selector, with the
/// single polynomial `selector * (a + b - c)`.
pub open spec fn is_add_gate(g: Gate, cfg: FiboConfig) -> bool {
    &&& g.selector == cfg.select
    &&& g.polys@.len() == 1
    &&& is_add_poly(g.polys@[0], cfg)
}

/// At a row where the selector is enabled and the three columns hold
/// `a`, `b` and `c`, the recurrence polynomial evaluates to
/// `1 * ((a + b) + (-c))`.
pub proof fn lemma_add_poly_value<F: FieldOps>(
    e: Expr,
    cfg: FiboConfig,
    cs: ConstraintSystem,
    lay: Layouter<F>,
    inst: Seq<Seq<F>>,
    r: int,
    a: F,
    b: F,
    c: F,
)
    requires
        is_add_poly(e, cfg),
        cfg.wf(cs),
        0 <= r <= usize::MAX,
        lay.sel_on(cfg.select.index as int, r),
        lay.value_at(cfg.col_a.index as int, r) == Some(a),
        lay.value_at(cfg.col_b.index as int, r) == Some(b),
        lay.value_at(cfg.col_c.index as int, r) == Some(c),
    ensures
        eval_spec(e, cs, lay, inst, r) == Some(
            F::one_spec().mul_spec(a.add_spec(b).add_spec(c.neg_spec())),
        ),
{
    match e {
        Expr::Product(s, sum) => {
            assert(eval_spec(*s, cs, lay, inst, r) == Some(F::one_spec()));
            match *sum {
                Expr::Sum(ab, negc) => {
                    match *ab {
                        Expr::Sum(qa, qb) => {
                            assert(eval_spec(*qa, cs, lay, inst, r) == Some(a));
                            assert(eval_spec(*qb, cs, lay, inst, r) == Some(b));
                            assert(eval_spec(*ab, cs, lay, inst, r) == Some(a.add_spec(b)));
                        },
                        _ => {
                            assert(false);
                        },
                    }
                    match *negc {
                        Expr::Neg(qc) => {
                            assert(eval_spec(*qc, cs, lay, inst, r) == Some(c));
                            assert(eval_spec(*negc, cs, lay, inst, r) == Some(c.neg_spec()));
                        },
                        _ => {
                            assert(false);
                        },
                    }
                    assert(eval_spec(*sum, cs, lay, inst, r) == Some(
                        a.add_spec(b).add_spec(c.neg_spec()),
                    ));
                },
                _ => {
                    assert(false);
                },
            }
        },
        _ => {
            assert(false);
        },
    }
}

/// At a row where the selector is enabled and the three columns hold
/// `a`, `b` and `a + b`, the recurrence polynomial evaluates to zero.
pub proof fn lemma_add_poly_eval<F: FieldOps>(
    e: Expr,
    cfg: FiboConfig,
    cs: ConstraintSystem,
    lay: Layouter<F>,
    inst: Seq<Seq<F>>,
    r: int,
    a: F,
    b: F,
)
    requires
        is_add_poly(e, cfg),
        cfg.wf(cs),
        0 <= r <= usize::MAX,
        lay.sel_on(cfg.select.index as int, r),
        lay.value_at(cfg.col_a.index as int, r) == Some(a),
        lay.value_at(cfg.col_b.index as int, r) == Some(b),
        lay.value_at(cfg.col_c.index as int, r) == Some(a.add_spec(b)),
        a.wf(),
        b.wf(),
    ensures
        eval_spec(e, cs, lay, inst, r) == Some(F::zero_spec()),
{
    lemma_add_poly_value(e, cfg, cs, lay, inst, r, a, b, a.add_spec(b));
    a.lemma_add_wf(b);
    a.add_spec(b).lemma_add_neg_zero();
    F::lemma_zero_wf();
    F::zero_spec().lemma_one_mul();
}

/// An enabled selector makes the recurrence gate an equation and nothing
/// more: at a row where the selector is on and all three cells are
/// assigned, the polynomial vanishes exactly when the third cell is the
/// sum of the first two.  With the selector off the row is unconstrained,
/// so flipping a selector off lets a row pass only if its values happen
/// to satisfy the equation anyway.
pub proof fn lemma_add_gate_exact<F: FieldOps>(
    e: Expr,
    cfg: FiboConfig,
    cs: ConstraintSystem,
    lay: Layouter<F>,
    inst: Seq<Seq<F>>,
    r: int,
    a: F,
    b: F,
    c: F,
)
    requires
        is_add_poly(e, cfg),
        cfg.wf(cs),
        0 <= r <= usize::MAX,
        lay.sel_on(cfg.select.index as int, r),
        lay.value_at(cfg.col_a.index as int, r) == Some(a),
        lay.value_at(cfg.col_b.index as int, r) == Some(b),
        lay.value_at(cfg.col_c.index as int, r) == Some(c),
        a.wf(),
        b.wf(),
        c.wf(),
    ensures
        eval_spec(e, cs, lay, inst, r) == Some(F::zero_spec()) <==> c == a.add_spec(b),
{
    lemma_add_poly_value(e, cfg, cs, lay, inst, r, a, b, c);
    let x = a.add_spec(b).add_spec(c.neg_spec());
    a.lemma_add_wf(b);
    c.lemma_neg_wf();
    a.add_spec(b).lemma_add_wf(c.neg_spec());
    x.lemma_one_mul();
    if c == a.add_spec(b) {
        a.add_spec(b).lemma_add_neg_zero();
    } else {
        if F::one_spec().mul_spec(x) == F::zero_spec() {
            a.add_spec(b).lemma_add_neg_cancel(c);
            assert(false);
        }
    }
}

/// The reusable assignment logic of the recurrence circuit: one operation
/// for the seed row and one for each later step, both built from the
/// engine's primitives.
#[derive(Clone, Copy, Debug)]
pub struct FiboChip {
    pub config: FiboConfig,
}

impl FiboChip {
    /// Wraps an existing configuration.
    pub fn construct(config: FiboConfig) -> (chip: FiboChip)
        ensures
            chip.config == config,
    {
        FiboChip { config }
    }

    /// The configure phase: allocates the three advice columns and the
    /// selector, enables equality on all three columns, and registers the
    /// `add` gate `selector * (a + b - c)`.
    pub fn configure(cs: &mut ConstraintSystem) -> (config: FiboConfig)
        requires
            old(cs).wf(),
            old(cs).num_selectors < usize::MAX,
        ensures
            final(cs).wf(),
            config.wf(*final(cs)),
            final(cs).gates@.len() == old(cs).gates@.len() + 1,
            final(cs).gates@.subrange(0, old(cs).gates@.len() as int) == old(cs).gates@,
            is_add_gate(final(cs).gates@.last(), config),
            final(cs).gates@.last().name@ == "add"@,
            final(cs).columns@ == old(cs).columns@ + seq![
                ColumnKind::Advice,
                ColumnKind::Advice,
                ColumnKind::Advice,
            ],
            final(cs).eq_enabled@ == old(cs).eq_enabled@ + seq![true, true, true],
            final(cs).num_selectors == old(cs).num_selectors + 1,
            config.col_a.index == old(cs).columns@.len(),
            config.col_b.index == old(cs).columns@.len() + 1,
            config.col_c.index == old(cs).columns@.len() + 2,
            config.select.index == old(cs).num_selectors,
    {
        let col_a = cs.advice_column();
        let col_b = cs.advice_column();
        let col_c = cs.advice_column();
        let select = cs.selector();
        cs.enable_equality(col_a);
        cs.enable_equality(col_b);
        cs.enable_equality(col_c);
        let poly = Expr::Product(
            Box::new(Expr::SelectorQuery(select)),
            Box::new(
                Expr::Sum(
                    Box::new(
                        Expr::Sum(
                            Box::new(Expr::ColumnQuery(col_a, 0)),
                            Box::new(Expr::ColumnQuery(col_b, 0)),
                        ),
                    ),
                    Box::new(Expr::Neg(Box::new(Expr::ColumnQuery(col_c, 0)))),
                ),
            ),
        );
        let config = FiboConfig { col_a, col_b, col_c, select };
        proof {
            assert(is_add_poly(poly, config));
        }
        let mut polys: Vec<Expr> = Vec::new();
        polys.push(poly);
        proof {
            reveal_with_fuel(crate::system::Expr::wf, 8);
            assert(polys@[0].wf(*cs));
            assert forall|k: int| 0 <= k < polys@.len() implies #[trigger] polys@[k].wf(*cs) by {
                assert(k == 0);
            }
        }
        let gate_name = "add".to_string();
        proof {
            vstd::string::to_string_from_display_ensures_for_str("add", gate_name);
        }
        cs.create_gate(gate_name, select, polys);
        proof {
            assert(final(cs).columns@ =~= old(cs).columns@ + seq![
                ColumnKind::Advice,
                ColumnKind::Advice,
                ColumnKind::Advice,
            ]);
            assert(final(cs).eq_enabled@ =~= old(cs).eq_enabled@ + seq![true, true, true]);
        }
        config
    }

    /// Assigns the seed row: `a` and `b` into the first two columns and
    /// their sum into the third, with its gate's selector enabled.  Fails
    /// with `Synthesis` exactly when a seed value is absent.
    pub fn assign_first_row<F: FieldOps>(&self, lay: Layouter<F>, a: Option<F>, b: Option<F>) -> (res:
        Result<(Layouter<F>, AssignedCell<F>, AssignedCell<F>, AssignedCell<F>), Error>)
        requires
            lay.wf(),
            self.config.live(lay),
            lay.next_row < usize::MAX,
        ensures
            res is Ok <==> (a is Some && b is Some),
            res matches Err(e) ==> e == Error::Synthesis,
            res matches Ok(t) ==> ({
                let (l2, ca, cb, cc) = t;
                &&& l2.wf()
                &&& self.config.live(l2)
                &&& l2.next_row == lay.next_row + 1
                &&& l2.pairs@ == lay.pairs@
                &&& l2.regions@.len() == lay.regions@.len() + 1
                &&& l2.regions@.subrange(0, lay.regions@.len() as int) == lay.regions@
                &&& l2.regions@.last().name@ == "first row"@
                &&& l2.regions@.last().start == lay.next_row
                &&& l2.regions@.last().size == 1
                &&& a == Some(ca.val)
                &&& b == Some(cb.val)
                &&& cc.val == ca.val.add_spec(cb.val)
                &&& ca.cell == (Cell { column: self.config.col_a.index, row: lay.next_row })
                &&& cb.cell == (Cell { column: self.config.col_b.index, row: lay.next_row })
                &&& cc.cell == (Cell { column: self.config.col_c.index, row: lay.next_row })
                &&& l2.value_at(self.config.col_a.index as int, lay.next_row as int) == Some(ca.val)
                &&& l2.value_at(self.config.col_b.index as int, lay.next_row as int) == Some(cb.val)
                &&& l2.value_at(self.config.col_c.index as int, lay.next_row as int) == Some(cc.val)
                &&& forall|c: int, r: int|
                    !(r == lay.next_row && (c == self.config.col_a.index || c
                        == self.config.col_b.index || c == self.config.col_c.index))
                        ==> #[trigger] l2.value_at(c, r) == lay.value_at(c, r)
                &&& l2.sel_on(self.config.select.index as int, lay.next_row as int)
                &&& forall|s: int, r: int|
                    !(s == self.config.select.index && r == lay.next_row) ==> (#[trigger] l2.sel_on(
                        s,
                        r,
                    ) == lay.sel_on(s, r))
            }),
    {
        proof {
            assert(lay.grid@[self.config.col_a.index as int]@.len() <= lay.next_row);
            assert(lay.grid@[self.config.col_b.index as int]@.len() <= lay.next_row);
            assert(lay.grid@[self.config.col_c.index as int]@.len() <= lay.next_row);
            assert(lay.value_at(self.config.col_a.index as int, lay.next_row as int) is None);
            assert(lay.value_at(self.config.col_b.index as int, lay.next_row as int) is None);
            assert(lay.value_at(self.config.col_c.index as int, lay.next_row as int) is None);
        }
        let region_name = "first row".to_string();
        proof {
            vstd::string::to_string_from_display_ensures_for_str("first row", region_name);
        }
        let mut region = lay.begin_region(region_name);
        region.enable_selector(self.config.select, 0);
        let ghost st0 = region;
        let ra = region.assign_advice(self.config.col_a, 0, a);
        let ca = match ra {
            Ok(x) => x,
            Err(e) => {
                return Err(e);
            },
        };
        let ghost st_a = region;
        let rb = region.assign_advice(self.config.col_b, 0, b);
        let cb = match rb {
            Ok(x) => x,
            Err(e) => {
                return Err(e);
            },
        };
        let ghost st_b = region;
        let cval = ca.val.add(cb.val);
        let rc = region.assign_advice(self.config.col_c, 0, Some(cval));
        let cc = match rc {
            Ok(x) => x,
            Err(e) => {
                proof {
                    assert(false);
                }
                return Err(e);
            },
        };
        let ghost st_c = region;
        let l2 = region.finish();
        proof {
            let row = lay.next_row as int;
            let ia = self.config.col_a.index as int;
            let ib = self.config.col_b.index as int;
            let ic = self.config.col_c.index as int;
            assert(st_b.lay.value_at(ia, row) == st_a.lay.value_at(ia, row));
            assert(st_c.lay.value_at(ia, row) == st_b.lay.value_at(ia, row));
            assert(l2.value_at(ia, row) == st_c.lay.value_at(ia, row));
            assert(st_c.lay.value_at(ib, row) == st_b.lay.value_at(ib, row));
            assert(l2.value_at(ib, row) == st_c.lay.value_at(ib, row));
            assert(l2.value_at(ic, row) == st_c.lay.value_at(ic, row));
            assert(l2.sel_on(self.config.select.index as int, row) == st0.lay.sel_on(
                self.config.select.index as int,
                row,
            ));
            assert forall|s: int, r: int|
                !(s == self.config.select.index && r == row) implies #[trigger] l2.sel_on(s, r)
                == lay.sel_on(s, r) by {
                assert(st0.lay.sel_on(s, r) == lay.sel_on(s, r));
                assert(l2.sel_on(s, r) == st0.lay.sel_on(s, r));
            }
            assert forall|c: int, r: int| !(r == row && (c == ia || c == ib || c == ic)) implies #[trigger] l2.value_at(
                c,
                r,
            ) == lay.value_at(c, r) by {
                assert(st_a.lay.value_at(c, r) == lay.value_at(c, r));
                assert(st_b.lay.value_at(c, r) == st_a.lay.value_at(c, r));
                assert(st_c.lay.value_at(c, r) == st_b.lay.value_at(c, r));
                assert(l2.value_at(c, r) == st_c.lay.value_at(c, r));
            }
        }
        Ok((l2, ca, cb, cc))
    }

    /// Assigns one recurrence step: copies the previous row's middle and
    /// last cells into the new row's first two columns (recording the two
    /// copy constraints) and assigns their sum into the third, with the
    /// selector enabled.  Never fails when the previous cells hold values
    /// in equality-enabled columns.
    pub fn assign_row<F: FieldOps>(
        &self,
        lay: Layouter<F>,
        prev_b: &AssignedCell<F>,
        prev_c: &AssignedCell<F>,
    ) -> (res: Result<(Layouter<F>, AssignedCell<F>), Error>)
        requires
            lay.wf(),
            self.config.live(lay),
            lay.next_row < usize::MAX,
            lay.value_at(prev_b.cell.column as int, prev_b.cell.row as int) == Some(prev_b.val),
            lay.value_at(prev_c.cell.column as int, prev_c.cell.row as int) == Some(prev_c.val),
            lay.eq_enabled@[prev_b.cell.column as int],
            lay.eq_enabled@[prev_c.cell.column as int],
        ensures
            res is Ok,
            res matches Ok(t) ==> ({
                let (l2, cc) = t;
                &&& l2.wf()
                &&& self.config.live(l2)
                &&& l2.next_row == lay.next_row + 1
                &&& l2.regions@.len() == lay.regions@.len() + 1
                &&& l2.regions@.subrange(0, lay.regions@.len() as int) == lay.regions@
                &&& l2.regions@.last().name@ == "next row"@
                &&& l2.regions@.last().start == lay.next_row
                &&& l2.regions@.last().size == 1
                &&& cc.val == prev_b.val.add_spec(prev_c.val)
                &&& cc.cell == (Cell { column: self.config.col_c.index, row: lay.next_row })
                &&& l2.value_at(self.config.col_a.index as int, lay.next_row as int) == Some(
                    prev_b.val,
                )
                &&& l2.value_at(self.config.col_b.index as int, lay.next_row as int) == Some(
                    prev_c.val,
                )
                &&& l2.value_at(self.config.col_c.index as int, lay.next_row as int) == Some(cc.val)
                &&& forall|c: int, r: int|
                    !(r == lay.next_row && (c == self.config.col_a.index || c
                        == self.config.col_b.index || c == self.config.col_c.index))
                        ==> #[trigger] l2.value_at(c, r) == lay.value_at(c, r)
                &&& l2.sel_on(self.config.select.index as int, lay.next_row as int)
                &&& forall|s: int, r: int|
                    !(s == self.config.select.index && r == lay.next_row) ==> (#[trigger] l2.sel_on(
                        s,
                        r,
                    ) == lay.sel_on(s, r))
                &&& l2.pairs@ == lay.pairs@ + seq![
                    (prev_b.cell, Cell { column: self.config.col_a.index, row: lay.next_row }),
                    (prev_c.cell, Cell { column: self.config.col_b.index, row: lay.next_row }),
                ]
            }),
    {
        proof {
            assert(lay.grid@[self.config.col_a.index as int]@.len() <= lay.next_row);
            assert(lay.grid@[self.config.col_b.index as int]@.len() <= lay.next_row);
            assert(lay.grid@[self.config.col_c.index as int]@.len() <= lay.next_row);
            assert(lay.value_at(self.config.col_a.index as int, lay.next_row as int) is None);
            assert(lay.value_at(self.config.col_b.index as int, lay.next_row as int) is None);
            assert(lay.value_at(self.config.col_c.index as int, lay.next_row as int) is None);
        }
        let region_name = "next row".to_string();
        proof {
            vstd::string::to_string_from_display_ensures_for_str("next row", region_name);
        }
        let mut region = lay.begin_region(region_name);
        region.enable_selector(self.config.select, 0);
        let ghost st0 = region;
        let ra = region.copy_advice(prev_b.cell, self.config.col_a, 0);
        let ca = match ra {
            Ok(x) => x,
            Err(e) => {
                proof {
                    assert(false);
                }
                return Err(e);
            },
        };
        let ghost st_a = region;
        let rb = region.copy_advice(prev_c.cell, self.config.col_b, 0);
        let cb = match rb {
            Ok(x) => x,
            Err(e) => {
                proof {
                    assert(false);
                }
                return Err(e);
            },
        };
        let ghost st_b = region;
        let cval = ca.val.add(cb.val);
        let rc = region.assign_advice(self.config.col_c, 0, Some(cval));
        let cc = match rc {
            Ok(x) => x,
            Err(e) => {
                proof {
                    assert(false);
                }
                return Err(e);
            },
        };
        let ghost st_c = region;
        let l2 = region.finish();
        proof {
            let row = lay.next_row as int;
            let ia = self.config.col_a.index as int;
            let ib = self.config.col_b.index as int;
            let ic = self.config.col_c.index as int;
            assert(st_b.lay.value_at(ia, row) == st_a.lay.value_at(ia, row));
            assert(st_c.lay.value_at(ia, row) == st_b.lay.value_at(ia, row));
            assert(l2.value_at(ia, row) == st_c.lay.value_at(ia, row));
            assert(st_c.lay.value_at(ib, row) == st_b.lay.value_at(ib, row));
            assert(l2.value_at(ib, row) == st_c.lay.value_at(ib, row));
            assert(l2.value_at(ic, row) == st_c.lay.value_at(ic, row));
            assert(l2.sel_on(self.config.select.index as int, row) == st0.lay.sel_on(
                self.config.select.index as int,
                row,
            ));
            assert forall|s: int, r: int|
                !(s == self.config.select.index && r == row) implies #[trigger] l2.sel_on(s, r)
                == lay.sel_on(s, r) by {
                assert(st0.lay.sel_on(s, r) == lay.sel_on(s, r));
                assert(l2.sel_on(s, r) == st0.lay.sel_on(s, r));
            }
            assert forall|c: int, r: int| !(r == row && (c == ia || c == ib || c == ic)) implies #[trigger] l2.value_at(
                c,
                r,
            ) == lay.value_at(c, r) by {
                assert(st_a.lay.value_at(c, r) == lay.value_at(c, r));
                assert(st_b.lay.value_at(c, r) == st_a.lay.value_at(c, r));
                assert(st_c.lay.value_at(c, r) == st_b.lay.value_at(c, r));
                assert(l2.value_at(c, r) == st_c.lay.value_at(c, r));
            }
            assert(l2.pairs@ =~= lay.pairs@ + seq![
                (prev_b.cell, Cell { column: self.config.col_a.index, row: lay.next_row }),
                (prev_c.cell, Cell { column: self.config.col_b.index, row: lay.next_row }),
            ]);
        }
        Ok((l2, cc))
    }
}


/// The layouter holds exactly the first `rows` terms of the recurrence:
/// row `r` carries terms `r`, `r + 1` and `r + 2` in the three columns,
/// the selector is enabled at exactly those rows, and nothing else is
/// assigned.
pub open spec fn fib_rows_state<F: FieldOps>(
    cfg: FiboConfig,
    lay: Layouter<F>,
    a: F,
    b: F,
    rows: int,
) -> bool {
    &&& lay.next_row == rows
    &&& forall|r: int|
        0 <= r < rows ==> #[trigger] lay.value_at(cfg.col_a.index as int, r) == Some(
            fib_val(a, b, r as nat),
        )
    &&& forall|r: int|
        0 <= r < rows ==> #[trigger] lay.value_at(cfg.col_b.index as int, r) == Some(
            fib_val(a, b, (r + 1) as nat),
        )
    &&& forall|r: int|
        0 <= r < rows ==> #[trigger] lay.value_at(cfg.col_c.index as int, r) == Some(
            fib_val(a, b, (r + 2) as nat),
        )
    &&& forall|s: int, r: int|
        #[trigger] lay.sel_on(s, r) <==> (s == cfg.select.index && 0 <= r < rows)
    &&& forall|c: int, r: int|
        (#[trigger] lay.value_at(c, r)) is Some ==> ((c == cfg.col_a.index || c
            == cfg.col_b.index || c == cfg.col_c.index) && 0 <= r < rows)
}

/// A recorded copy constraint of the recurrence circuit: both cells sit
/// in the circuit's columns and resolve to one value.
pub open spec fn pair_linked<F: FieldOps>(cfg: FiboConfig, lay: Layouter<F>, p: (Cell, Cell)) -> bool {
    &&& (p.0.column == cfg.col_a.index || p.0.column == cfg.col_b.index || p.0.column
        == cfg.col_c.index)
    &&& (p.1.column == cfg.col_a.index || p.1.column == cfg.col_b.index || p.1.column
        == cfg.col_c.index)
    &&& lay.value_at(p.0.column as int, p.0.row as int) is Some
    &&& lay.value_at(p.0.column as int, p.0.row as int) == lay.value_at(
        p.1.column as int,
        p.1.row as int,
    )
}

/// The cell a recurrence step copies its first column from: the seed
/// row's middle cell for the first step, the previous step's last cell
/// afterwards.
pub open spec fn step_source_b(cfg: FiboConfig, k: int) -> Cell {
    if k == 1 {
        Cell { column: cfg.col_b.index, row: 0 }
    } else {
        Cell { column: cfg.col_c.index, row: (k - 2) as usize }
    }
}

/// The cell a recurrence step copies its second column from: the
/// previous row's last cell.
pub open spec fn step_source_c(cfg: FiboConfig, k: int) -> Cell {
    Cell { column: cfg.col_c.index, row: (k - 1) as usize }
}

/// Exactly the copy constraints the recurrence circuit records, in
/// order: for each step row `k` (the seed row is row 0), first the pair
/// binding its first column to `step_source_b(k)`, then the pair binding
/// its second column to `step_source_c(k)`.  Cross-region equality is
/// carried entirely by these pairs, never by gate row offsets.
pub open spec fn step_pairs_recorded(
    cfg: FiboConfig,
    pairs: Seq<(Cell, Cell)>,
    steps: int,
) -> bool {
    &&& pairs.len() == 2 * steps
    &&& forall|k: int|
        1 <= k <= steps ==> #[trigger] pairs[2 * (k - 1)] == (
            step_source_b(cfg, k),
            Cell { column: cfg.col_a.index, row: k as usize },
        )
    &&& forall|k: int|
        1 <= k <= steps ==> #[trigger] pairs[2 * (k - 1) + 1] == (
            step_source_c(cfg, k),
            Cell { column: cfg.col_b.index, row: k as usize },
        )
}

/// The recurrence circuit: the two seed values (absent during
/// key-generation-only passes) and the number of recurrence rows to
/// assign after the seed row.
#[derive(Clone, Copy, Debug)]
pub struct FibonacciCircuit<F: FieldOps> {
    pub a: Option<F>,
    pub b: Option<F>,
    pub steps: usize,
}

impl<F: FieldOps> FibonacciCircuit<F> {
    /// The same circuit with the witness removed, as key generation runs
    /// it.
    pub fn without_witnesses(&self) -> (c: FibonacciCircuit<F>)
        ensures
            c.a is None,
            c.b is None,
            c.steps == self.steps,
    {
        FibonacciCircuit { a: None, b: None, steps: self.steps }
    }

    /// The circuit's configure phase; pure registration, no witness
    /// access.
    pub fn configure(cs: &mut ConstraintSystem) -> (config: FiboConfig)
        requires
            old(cs).wf(),
            old(cs).num_selectors < usize::MAX,
        ensures
            final(cs).wf(),
            config.wf(*final(cs)),
            final(cs).gates@.len() == old(cs).gates@.len() + 1,
            final(cs).gates@.subrange(0, old(cs).gates@.len() as int) == old(cs).gates@,
            is_add_gate(final(cs).gates@.last(), config),
            final(cs).gates@.last().name@ == "add"@,
            final(cs).columns@ == old(cs).columns@ + seq![
                ColumnKind::Advice,
                ColumnKind::Advice,
                ColumnKind::Advice,
            ],
            final(cs).eq_enabled@ == old(cs).eq_enabled@ + seq![true, true, true],
            final(cs).num_selectors == old(cs).num_selectors + 1,
            config.col_a.index == old(cs).columns@.len(),
            config.col_b.index == old(cs).columns@.len() + 1,
            config.col_c.index == old(cs).columns@.len() + 2,
            config.select.index == old(cs).num_selectors,
    {
        FiboChip::configure(cs)
    }

    /// Drives the whole assignment: the seed region, then one region per
    /// recurrence step, each chained to the one before by two copy
    /// constraints.  Returns the grid and the final cell, whose value is
    /// term `steps + 2` of the recurrence; fails with `Synthesis` exactly
    /// when a seed value is absent.
    pub fn synthesize(&self, config: &FiboConfig, lay: Layouter<F>) -> (res: Result<
        (Layouter<F>, AssignedCell<F>),
        Error,
    >)
        requires
            lay.wf(),
            config.live(lay),
            lay.next_row == 0,
            lay.pairs@.len() == 0,
            forall|c: int, r: int| #[trigger] lay.value_at(c, r) is None,
            forall|s: int, r: int| !(#[trigger] lay.sel_on(s, r)),
            self.steps + 1 < usize::MAX,
        ensures
            res is Ok <==> (self.a is Some && self.b is Some),
            res matches Err(e) ==> e == Error::Synthesis,
            res matches Ok(t) ==> ({
                let (l2, last) = t;
                &&& self.a matches Some(av) && self.b matches Some(bv) && {
                    &&& fib_rows_state(*config, l2, av, bv, self.steps + 1)
                    &&& last.val == fib_val(av, bv, (self.steps + 2) as nat)
                }
                &&& last.cell == (Cell { column: config.col_c.index, row: self.steps })
                &&& l2.value_at(last.cell.column as int, last.cell.row as int) == Some(last.val)
                &&& l2.wf()
                &&& config.live(l2)
                &&& forall|i: int|
                    0 <= i < l2.pairs@.len() ==> pair_linked(*config, l2, #[trigger] l2.pairs@[i])
                &&& step_pairs_recorded(*config, l2.pairs@, self.steps as int)
            }),
    {
        let chip = FiboChip::construct(*config);
        let first = chip.assign_first_row(lay, self.a, self.b);
        let (mut cur, ca0, cb0, cc0) = match first {
            Ok(t) => t,
            Err(e) => {
                return Err(e);
            },
        };
        let ghost av = ca0.val;
        let ghost bv = cb0.val;
        let mut pb = cb0;
        let mut pc = cc0;
        proof {
            assert(fib_val(av, bv, 0) == av);
            assert(fib_val(av, bv, 1) == bv);
            assert(fib_val(av, bv, 2) == av.add_spec(bv));
            assert forall|s: int, r: int| #[trigger] cur.sel_on(s, r) <==> (s
                == config.select.index && 0 <= r < 1) by {
                if !(s == config.select.index && r == 0) {
                    assert(cur.sel_on(s, r) == lay.sel_on(s, r));
                }
            }
            assert forall|c: int, r: int| (#[trigger] cur.value_at(c, r)) is Some implies ((c
                == config.col_a.index || c == config.col_b.index || c == config.col_c.index) && 0
                <= r < 1) by {
                if !(r == 0 && (c == config.col_a.index || c == config.col_b.index || c
                    == config.col_c.index)) {
                    assert(cur.value_at(c, r) == lay.value_at(c, r));
                }
            }
            assert(fib_rows_state(*config, cur, av, bv, 1));
        }
        let mut i: usize = 0;
        while i < self.steps
            invariant
                self.steps + 1 < usize::MAX,
                i <= self.steps,
                chip.config == *config,
                self.a == Some(av),
                self.b == Some(bv),
                cur.wf(),
                config.live(cur),
                cur.next_row == i + 1,
                fib_rows_state(*config, cur, av, bv, i + 1),
                pb.val == fib_val(av, bv, (i + 1) as nat),
                pc.val == fib_val(av, bv, (i + 2) as nat),
                pb.cell == step_source_b(*config, i + 1),
                pc.cell == (Cell { column: config.col_c.index, row: i }),
                step_pairs_recorded(*config, cur.pairs@, i as int),
                cur.value_at(pb.cell.column as int, pb.cell.row as int) == Some(pb.val),
                cur.value_at(pc.cell.column as int, pc.cell.row as int) == Some(pc.val),
                forall|j: int|
                    0 <= j < cur.pairs@.len() ==> pair_linked(*config, cur, #[trigger] cur.pairs@[j]),
            decreases self.steps - i,
        {
            let ghost prev = cur;
            let step = chip.assign_row(cur, &pb, &pc);
            let (next, cc) = match step {
                Ok(t) => t,
                Err(e) => {
                    proof {
                        assert(false);
                    }
                    return Err(e);
                },
            };
            proof {
                let row = (i + 1) as int;
                assert(fib_val(av, bv, (i + 3) as nat) == fib_val(av, bv, (i + 1) as nat).add_spec(
                    fib_val(av, bv, (i + 2) as nat),
                ));
                assert forall|r: int|
                    0 <= r < row + 1 implies #[trigger] next.value_at(config.col_a.index as int, r)
                    == Some(fib_val(av, bv, r as nat)) by {
                    if r < row {
                        assert(next.value_at(config.col_a.index as int, r) == prev.value_at(
                            config.col_a.index as int,
                            r,
                        ));
                    }
                }
                assert forall|r: int|
                    0 <= r < row + 1 implies #[trigger] next.value_at(config.col_b.index as int, r)
                    == Some(fib_val(av, bv, (r + 1) as nat)) by {
                    if r < row {
                        assert(next.value_at(config.col_b.index as int, r) == prev.value_at(
                            config.col_b.index as int,
                            r,
                        ));
                    }
                }
                assert forall|r: int|
                    0 <= r < row + 1 implies #[trigger] next.value_at(config.col_c.index as int, r)
                    == Some(fib_val(av, bv, (r + 2) as nat)) by {
                    if r < row {
                        assert(next.value_at(config.col_c.index as int, r) == prev.value_at(
                            config.col_c.index as int,
                            r,
                        ));
                    }
                }
                assert forall|s: int, r: int| #[trigger] next.sel_on(s, r) <==> (s
                    == config.select.index && 0 <= r < row + 1) by {
                    if !(s == config.select.index && r == row) {
                        assert(next.sel_on(s, r) == prev.sel_on(s, r));
                    }
                }
                assert forall|c: int, r: int| (#[trigger] next.value_at(c, r)) is Some implies ((c
                    == config.col_a.index || c == config.col_b.index || c == config.col_c.index)
                    && 0 <= r < row + 1) by {
                    if !(r == row && (c == config.col_a.index || c == config.col_b.index || c
                        == config.col_c.index)) {
                        assert(next.value_at(c, r) == prev.value_at(c, r));
                    }
                }
                assert(fib_rows_state(*config, next, av, bv, row + 1));
                assert forall|j: int| 0 <= j < next.pairs@.len() implies pair_linked(
                    *config,
                    next,
                    #[trigger] next.pairs@[j],
                ) by {
                    if j < prev.pairs@.len() {
                        let p = prev.pairs@[j];
                        assert(pair_linked(*config, prev, p));
                        assert(next.pairs@[j] == p);
                        assert(next.value_at(p.0.column as int, p.0.row as int) == prev.value_at(
                            p.0.column as int,
                            p.0.row as int,
                        ));
                        assert(next.value_at(p.1.column as int, p.1.row as int) == prev.value_at(
                            p.1.column as int,
                            p.1.row as int,
                        ));
                    } else {
                        assert(next.value_at(pb.cell.column as int, pb.cell.row as int)
                            == prev.value_at(pb.cell.column as int, pb.cell.row as int));
                        assert(next.value_at(pc.cell.column as int, pc.cell.row as int)
                            == prev.value_at(pc.cell.column as int, pc.cell.row as int));
                        if j == prev.pairs@.len() {
                            assert(next.pairs@[j] == (
                                pb.cell,
                                Cell { column: config.col_a.index, row: (i + 1) as usize },
                            ));
                        } else {
                            assert(next.pairs@[j] == (
                                pc.cell,
                                Cell { column: config.col_b.index, row: (i + 1) as usize },
                            ));
                        }
                    }
                }
                assert(next.value_at(pc.cell.column as int, pc.cell.row as int) == prev.value_at(
                    pc.cell.column as int,
                    pc.cell.row as int,
                ));
                assert(next.pairs@.len() == 2 * (i + 1));
                assert forall|k: int| 1 <= k <= i + 1 implies #[trigger] next.pairs@[2 * (k - 1)]
                    == (
                    step_source_b(*config, k),
                    Cell { column: config.col_a.index, row: k as usize },
                ) by {
                    if k <= i {
                        assert(next.pairs@[2 * (k - 1)] == prev.pairs@[2 * (k - 1)]);
                        assert(prev.pairs@[2 * (k - 1)] == (
                            step_source_b(*config, k),
                            Cell { column: config.col_a.index, row: k as usize },
                        ));
                    } else {
                        assert(next.pairs@[2 * (k - 1)] == (
                            pb.cell,
                            Cell { column: config.col_a.index, row: (i + 1) as usize },
                        ));
                    }
                }
                assert forall|k: int| 1 <= k <= i + 1 implies #[trigger] next.pairs@[2 * (k - 1)
                    + 1] == (
                    step_source_c(*config, k),
                    Cell { column: config.col_b.index, row: k as usize },
                ) by {
                    if k <= i {
                        assert(next.pairs@[2 * (k - 1) + 1] == prev.pairs@[2 * (k - 1) + 1]);
                        assert(prev.pairs@[2 * (k - 1) + 1] == (
                            step_source_c(*config, k),
                            Cell { column: config.col_b.index, row: k as usize },
                        ));
                    } else {
                        assert(next.pairs@[2 * (k - 1) + 1] == (
                            pc.cell,
                            Cell { column: config.col_b.index, row: (i + 1) as usize },
                        ));
                    }
                }
                assert(step_pairs_recorded(*config, next.pairs@, (i + 1) as int));
            }
            cur = next;
            pb = pc;
            pc = cc;
            i = i + 1;
        }
        proof {
            assert(fib_rows_state(*config, cur, av, bv, self.steps + 1));
        }
        Ok((cur, pc))
    }
}

/// Builds the recurrence circuit, synthesizes the witness into a fresh
/// grid, and hands back the constraint system, the grid and the final
/// cell.  On success the final value is term `steps + 2` of the
/// recurrence and the grid satisfies every gate and copy constraint, for
/// any choice of public inputs (the circuit uses no instance column).
pub fn run_fibonacci<F: FieldOps>(a: Option<F>, b: Option<F>, steps: usize) -> (res: Result<
    (ConstraintSystem, Layouter<F>, AssignedCell<F>),
    Error,
>)
    requires
        steps + 1 < usize::MAX,
        a matches Some(x) ==> x.wf(),
        b matches Some(x) ==> x.wf(),
    ensures
        res is Ok <==> (a is Some && b is Some),
        res matches Err(e) ==> e == Error::Synthesis,
        res matches Ok(t) ==> ({
            let (cs, l2, last) = t;
            &&& cs.wf()
            &&& a matches Some(av) && b matches Some(bv) && {
                &&& last.val == fib_val(av, bv, (steps + 2) as nat)
                &&& l2.value_at(last.cell.column as int, last.cell.row as int) == Some(last.val)
                &&& last.cell.row == steps
                &&& l2.wf()
                &&& forall|inst: Seq<Seq<F>>| #[trigger] satisfied::<F>(cs, l2, inst)
            }
        }),
{
    let mut cs = ConstraintSystem::new();
    let config = FibonacciCircuit::<F>::configure(&mut cs);
    let lay: Layouter<F> = Layouter::new(&cs);
    let circuit = FibonacciCircuit { a, b, steps };
    let r = circuit.synthesize(&config, lay);
    match r {
        Err(e) => Err(e),
        Ok((l2, last)) => {
            proof {
                match (a, b) {
                    (Some(av), Some(bv)) => {
                        assert forall|inst: Seq<Seq<F>>| #[trigger] satisfied::<F>(
                            cs,
                            l2,
                            inst,
                        ) by {
                            assert forall|g: int, r2: int|
                                0 <= g < cs.gates@.len() && 0 <= r2 < l2.next_row implies #[trigger] gate_ok::<
                                F,
                            >(cs, l2, inst, g, r2) by {
                                assert(g == 0);
                                let gate = cs.gates@[0];
                                assert(is_add_gate(gate, config));
                                assert forall|k: int|
                                    0 <= k < gate.polys@.len() implies #[trigger] eval_spec(
                                    gate.polys@[k],
                                    cs,
                                    l2,
                                    inst,
                                    r2,
                                ) == Some(F::zero_spec()) by {
                                    assert(k == 0);
                                    let fa = fib_val(av, bv, r2 as nat);
                                    let fb = fib_val(av, bv, (r2 + 1) as nat);
                                    lemma_fib_wf(av, bv, r2 as nat);
                                    lemma_fib_wf(av, bv, (r2 + 1) as nat);
                                    assert(fib_val(av, bv, (r2 + 2) as nat) == fa.add_spec(fb));
                                    assert(l2.sel_on(config.select.index as int, r2));
                                    lemma_add_poly_eval(
                                        gate.polys@[0],
                                        config,
                                        cs,
                                        l2,
                                        inst,
                                        r2,
                                        fa,
                                        fb,
                                    );
                                }
                            }
                            assert forall|j: int|
                                0 <= j < l2.pairs@.len() implies #[trigger] pair_ok::<F>(
                                cs,
                                l2,
                                inst,
                                l2.pairs@[j],
                            ) by {
                                let p = l2.pairs@[j];
                                assert(pair_linked(config, l2, p));
                                assert(cs.columns@[p.0.column as int] == ColumnKind::Advice);
                                assert(cs.columns@[p.1.column as int] == ColumnKind::Advice);
                                assert(cell_value(cs, l2, inst, p.0.column as int, p.0.row as int)
                                    == l2.value_at(p.0.column as int, p.0.row as int));
                                assert(cell_value(cs, l2, inst, p.1.column as int, p.1.row as int)
                                    == l2.value_at(p.1.column as int, p.1.row as int));
                            }
                        }
                    },
                    _ => {
                        assert(false);
                    },
                }
            }
            Ok((cs, l2, last))
        },
    }
}

} // verus!
