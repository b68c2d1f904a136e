//! The dagger synthesizer: gate inversion.

use vstd::prelude::*;

use crate::expr::UnitaryExpression;
use crate::expr::UnitaryExpressionGenerator;
use crate::radices::QuditRadices;
use crate::radices::radix_prod;

verus! {

/// An arbitrary inverted gate.
///
/// Given any gate, `DaggerGate` takes the conjugate transpose (the
/// Hermitian adjoint) of the wrapped expression: every entry is
/// conjugated, then row and column roles are exchanged.  Dimension,
/// radices, name and parameter count all stay those of the inverted
/// gate.
#[derive(Clone, Debug, Hash, PartialEq, Eq)]
pub struct DaggerGate {
    expr: UnitaryExpression,
}

impl DaggerGate {
    /// The expression this value carries.
    pub closed spec fn expr_spec(&self) -> UnitaryExpression {
        self.expr
    }

    /// A dagger gate is well formed when its expression is.
    pub open spec fn wf(&self) -> bool {
        self.expr_spec().wf()
    }

    /// Builds the conjugate transpose of the given gate's expression.
    pub fn new<E: UnitaryExpressionGenerator>(gate: E) -> (g: Self)
        requires
            gate.gen_wf(),
        ensures
            g.wf(),
            g.expr_spec().spec_radices() == gate.gen_radices(),
            g.expr_spec().spec_name() == gate.gen_name(),
            g.expr_spec().spec_vars().len() == gate.gen_params(),
            g.expr_spec() matches UnitaryExpression::Transpose { inner }
                && (*inner) matches UnitaryExpression::Conjugate { inner: target }
                && target.wf() && target.spec_name() == gate.gen_name()
                && target.spec_radices() == gate.gen_radices()
                && target.spec_vars().len() == gate.gen_params()
                && gate.gen_matches(*target),
    {
        let target = gate.gen_expr();
        let expr = target.conjugate().transpose();
        DaggerGate { expr }
    }

    /// The number of free parameters: unchanged by inversion.
    pub fn num_params(&self) -> (n: usize)
        requires
            self.wf(),
        ensures
            n == self.expr_spec().spec_vars().len(),
    {
        self.expr.num_params()
    }

    /// The radices of the qudit system this gate acts on.
    pub fn radices(&self) -> (r: QuditRadices)
        requires
            self.wf(),
        ensures
            r@ == self.expr_spec().spec_radices(),
    {
        self.expr.radices()
    }

    /// The number of qudits this gate acts on.
    pub fn num_qudits(&self) -> (n: usize)
        requires
            self.wf(),
        ensures
            n == self.expr_spec().spec_radices().len(),
    {
        self.expr.num_qudits()
    }

    /// The dimension of this gate's unitary.
    pub fn dimension(&self) -> (d: usize)
        requires
            self.wf(),
        ensures
            d == radix_prod(self.expr_spec().spec_radices()),
    {
        self.expr.dimension()
    }
}

impl UnitaryExpressionGenerator for DaggerGate {
    open spec fn gen_wf(&self) -> bool {
        self.wf()
    }

    open spec fn gen_name(&self) -> Seq<char> {
        self.expr_spec().spec_name()
    }

    open spec fn gen_radices(&self) -> Seq<usize> {
        self.expr_spec().spec_radices()
    }

    open spec fn gen_params(&self) -> nat {
        self.expr_spec().spec_vars().len()
    }

    open spec fn gen_matches(&self, e: UnitaryExpression) -> bool {
        e.sim(self.expr_spec())
    }

    proof fn gen_matches_respects_sim(&self, a: UnitaryExpression, b: UnitaryExpression) {
        crate::expr::lemma_sim_sym(a, b);
        crate::expr::lemma_sim_trans(b, a, self.expr_spec());
    }

    fn gen_expr(&self) -> (e: UnitaryExpression) {
        let e = self.expr.clone();
        proof {
            crate::expr::lemma_sim_observables(e, self.expr);
        }
        e
    }
}

} // verus!
