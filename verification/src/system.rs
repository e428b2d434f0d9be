//! The configure-phase registry: typed columns, selectors, symbolic gate
//! expressions, and the constraint system that collects them.
//!
//! Everything here is created once, before any witness is assigned, and is
//! treated as immutable afterwards.  Gates are kept as expression trees
//! (sum / negation / product / selector query / column query at a row
//! offset) so the same representation can be evaluated, inspected or
//! printed by later passes.

use vstd::prelude::*;

verus! {

/// What a column holds: private witness values, circuit constants, or
/// public inputs.
#[derive(Clone, Copy, Debug, PartialEq, Eq, Structural)]
pub enum ColumnKind {
    Advice,
    Fixed,
    Instance,
}

/// A handle to an allocated column: its position in the allocation order
/// and its kind.  A column's kind never changes after allocation.
#[derive(Clone, Copy, Debug, PartialEq, Eq, Structural)]
pub struct Column {
    pub index: usize,
    pub kind: ColumnKind,
}

/// A handle to an allocated selector: a per-row boolean flag that toggles a
/// gate's enforcement.  Selectors default to "off" at every row.
#[derive(Clone, Copy, Debug, PartialEq, Eq, Structural)]
pub struct Selector {
    pub index: usize,
}

/// A symbolic polynomial over the circuit's columns and selectors,
/// evaluated row by row during the satisfiability check.  A column query
/// carries a row offset relative to the row under evaluation.
#[derive(Debug)]
pub enum Expr {
    /// Its gate's selector at the current row: one where enabled, zero
    /// elsewhere.
    SelectorQuery(Selector),
    /// The value of a column at (current row + offset).
    ColumnQuery(Column, i64),
    Sum(Box<Expr>, Box<Expr>),
    Neg(Box<Expr>),
    Product(Box<Expr>, Box<Expr>),
}

/// A named constraint: wherever `selector` is enabled, every polynomial in
/// `polys` must evaluate to zero.
#[derive(Debug)]
pub struct Gate {
    pub name: String,
    pub selector: Selector,
    pub polys: Vec<Expr>,
}

/// The registry populated during the configure phase: all allocated
/// columns and selectors, which columns may take part in copy constraints,
/// and all registered gates.
#[derive(Debug)]
pub struct ConstraintSystem {
    /// Kind of each allocated column, in allocation order.
    pub columns: Vec<ColumnKind>,
    /// Whether the column of the same index may take part in copy
    /// constraints.
    pub eq_enabled: Vec<bool>,
    /// Number of allocated selectors.
    pub num_selectors: usize,
    pub gates: Vec<Gate>,
}

impl Column {
    /// The handle denotes a column this system allocated, with the kind it
    /// was allocated at.
    pub open spec fn wf(self, cs: ConstraintSystem) -> bool {
        &&& self.index < cs.columns.len()
        &&& cs.columns[self.index as int] == self.kind
    }
}

impl Selector {
    pub open spec fn wf(self, cs: ConstraintSystem) -> bool {
        self.index < cs.num_selectors
    }
}

impl Expr {
    /// Every column and selector the expression queries was allocated by
    /// `cs`.
    pub open spec fn wf(self, cs: ConstraintSystem) -> bool
        decreases self,
    {
        match self {
            Expr::SelectorQuery(s) => s.wf(cs),
            Expr::ColumnQuery(c, _) => c.wf(cs),
            Expr::Sum(a, b) => a.wf(cs) && b.wf(cs),
            Expr::Neg(a) => a.wf(cs),
            Expr::Product(a, b) => a.wf(cs) && b.wf(cs),
        }
    }
}

impl Gate {
    pub open spec fn wf(self, cs: ConstraintSystem) -> bool {
        &&& self.selector.wf(cs)
        &&& forall|k: int| 0 <= k < self.polys.len() ==> #[trigger] self.polys[k].wf(cs)
    }
}

impl ConstraintSystem {
    /// Columns and equality flags are kept in step, and every registered
    /// gate refers only to allocated columns and selectors.
    pub open spec fn wf(self) -> bool {
        &&& self.eq_enabled.len() == self.columns.len()
        &&& forall|g: int| 0 <= g < self.gates.len() ==> #[trigger] self.gates[g].wf(self)
    }

    /// An empty registry: no columns, selectors or gates.
    pub fn new() -> (cs: ConstraintSystem)
        ensures
            cs.wf(),
            cs.columns@ =~= Seq::<ColumnKind>::empty(),
            cs.eq_enabled@ =~= Seq::<bool>::empty(),
            cs.num_selectors == 0,
            cs.gates@ =~= Seq::<Gate>::empty(),
    {
        ConstraintSystem {
            columns: Vec::new(),
            eq_enabled: Vec::new(),
            num_selectors: 0,
            gates: Vec::new(),
        }
    }

    /// Allocates a fresh column of the given kind.  The new column starts
    /// with equality disabled; nothing else changes.
    pub fn allocate_column(&mut self, kind: ColumnKind) -> (col: Column)
        requires
            old(self).wf(),
        ensures
            final(self).wf(),
            col.index == old(self).columns.len(),
            col.kind == kind,
            col.wf(*final(self)),
            final(self).columns@ == old(self).columns@.push(kind),
            final(self).eq_enabled@ == old(self).eq_enabled@.push(false),
            final(self).num_selectors == old(self).num_selectors,
            final(self).gates@ == old(self).gates@,
    {
        let index = self.columns.len();
        self.columns.push(kind);
        self.eq_enabled.push(false);
        assert forall|g: int| 0 <= g < self.gates.len() implies #[trigger] self.gates[g].wf(
            *self,
        ) by {
            let gate = self.gates[g];
            assert(gate.wf(*old(self)));
            lemma_gate_wf_grows(gate, *old(self), *self);
        }
        Column { index, kind }
    }

    /// Allocates a fresh advice (private witness) column.
    pub fn advice_column(&mut self) -> (col: Column)
        requires
            old(self).wf(),
        ensures
            final(self).wf(),
            col.index == old(self).columns.len(),
            col.kind == ColumnKind::Advice,
            col.wf(*final(self)),
            final(self).columns@ == old(self).columns@.push(ColumnKind::Advice),
            final(self).eq_enabled@ == old(self).eq_enabled@.push(false),
            final(self).num_selectors == old(self).num_selectors,
            final(self).gates@ == old(self).gates@,
    {
        self.allocate_column(ColumnKind::Advice)
    }

    /// Allocates a fresh selector.
    pub fn selector(&mut self) -> (sel: Selector)
        requires
            old(self).wf(),
            old(self).num_selectors < usize::MAX,
        ensures
            final(self).wf(),
            sel.index == old(self).num_selectors,
            sel.wf(*final(self)),
            final(self).num_selectors == old(self).num_selectors + 1,
            final(self).columns@ == old(self).columns@,
            final(self).eq_enabled@ == old(self).eq_enabled@,
            final(self).gates@ == old(self).gates@,
    {
        let index = self.num_selectors;
        self.num_selectors = self.num_selectors + 1;
        assert forall|g: int| 0 <= g < self.gates.len() implies #[trigger] self.gates[g].wf(
            *self,
        ) by {
            let gate = self.gates[g];
            assert(gate.wf(*old(self)));
            lemma_gate_wf_grows(gate, *old(self), *self);
        }
        Selector { index }
    }

    /// Marks a column as eligible for copy constraints.  Copy requests on
    /// columns not so marked are rejected at assignment time.
    pub fn enable_equality(&mut self, col: Column)
        requires
            old(self).wf(),
            col.wf(*old(self)),
        ensures
            final(self).wf(),
            final(self).eq_enabled@ == old(self).eq_enabled@.update(col.index as int, true),
            final(self).columns@ == old(self).columns@,
            final(self).num_selectors == old(self).num_selectors,
            final(self).gates@ == old(self).gates@,
    {
        self.eq_enabled.set(col.index, true);
        assert forall|g: int| 0 <= g < self.gates.len() implies #[trigger] self.gates[g].wf(
            *self,
        ) by {
            let gate = self.gates[g];
            assert(gate.wf(*old(self)));
            lemma_gate_wf_grows(gate, *old(self), *self);
        }
    }

    /// Registers a named gate: wherever `selector` is enabled, every
    /// expression in `polys` must evaluate to zero.
    pub fn create_gate(&mut self, name: String, selector: Selector, polys: Vec<Expr>)
        requires
            old(self).wf(),
            selector.wf(*old(self)),
            forall|k: int| 0 <= k < polys.len() ==> #[trigger] polys[k].wf(*old(self)),
        ensures
            final(self).wf(),
            final(self).gates.len() == old(self).gates.len() + 1,
            final(self).gates@.subrange(0, old(self).gates.len() as int) == old(self).gates@,
            final(self).gates@.last().name@ == name@,
            final(self).gates@.last().selector == selector,
            final(self).gates@.last().polys@ == polys@,
            final(self).columns@ == old(self).columns@,
            final(self).eq_enabled@ == old(self).eq_enabled@,
            final(self).num_selectors == old(self).num_selectors,
    {
        self.gates.push(Gate { name, selector, polys });
        assert(final(self).gates@.subrange(0, old(self).gates.len() as int) =~= old(self).gates@);
        assert forall|g: int| 0 <= g < self.gates.len() implies #[trigger] self.gates[g].wf(
            *self,
        ) by {
            if g < self.gates.len() - 1 {
                let gate = old(self).gates[g];
                assert(gate.wf(*old(self)));
                lemma_gate_wf_grows(gate, *old(self), *self);
            } else {
                lemma_gate_wf_grows(self.gates[g], *old(self), *self);
            }
        }
    }
}

/// Expression well-formedness only looks at column kinds, equality flags'
/// length and the selector count, so it survives any change that extends
/// the registry without retyping existing columns.
pub proof fn lemma_expr_wf_grows(e: Expr, pre: ConstraintSystem, post: ConstraintSystem)
    requires
        e.wf(pre),
        pre.columns@.is_prefix_of(post.columns@),
        pre.num_selectors <= post.num_selectors,
    ensures
        e.wf(post),
    decreases e,
{
    match e {
        Expr::SelectorQuery(_) => {},
        Expr::ColumnQuery(_, _) => {},
        Expr::Sum(a, b) => {
            lemma_expr_wf_grows(*a, pre, post);
            lemma_expr_wf_grows(*b, pre, post);
        },
        Expr::Neg(a) => {
            lemma_expr_wf_grows(*a, pre, post);
        },
        Expr::Product(a, b) => {
            lemma_expr_wf_grows(*a, pre, post);
            lemma_expr_wf_grows(*b, pre, post);
        },
    }
}

/// Gate well-formedness survives extension of the registry, as expression
/// well-formedness does.
pub proof fn lemma_gate_wf_grows(g: Gate, pre: ConstraintSystem, post: ConstraintSystem)
    requires
        g.wf(pre),
        pre.columns@.is_prefix_of(post.columns@),
        pre.num_selectors <= post.num_selectors,
    ensures
        g.wf(post),
{
    assert forall|k: int| 0 <= k < g.polys.len() implies #[trigger] g.polys[k].wf(post) by {
        lemma_expr_wf_grows(g.polys[k], pre, post);
    }
}

} // verus!
