//! Symbolic unitary-expression construction for qudit gates.
//!
//! Gates on systems of qudits (quantum subsystems of arbitrary radix) are
//! described by symbolic unitary matrices.  This crate builds and validates
//! those descriptions: elementary gates emit a closed-form formula, while
//! composed gates (controlled and daggered variants) are assembled from
//! identity, block-embedding, conjugation and transposition steps.  The
//! numerical evaluation of the finished expression is the job of an external
//! expression engine; this crate only constructs the expression and proves
//! the combinatorial invariants of that construction.

use vstd::prelude::*;

pub mod composed;
pub mod constant;
pub mod decimal;
pub mod expr;
pub mod parameterized;
pub mod radices;

pub use composed::control::ControlError;
pub use composed::control::ControlledGate;
pub use composed::dagger::DaggerGate;
pub use constant::h::HGate;
pub use constant::i::IGate;
pub use constant::swap::SwapGate;
pub use constant::x::XGate;
pub use expr::UnitaryExpression;
pub use expr::UnitaryExpressionGenerator;
pub use parameterized::p::PGate;
pub use parameterized::u3::U3Gate;
pub use radices::QuditRadices;

verus! {

/// The closed set of gate kinds.
///
/// Each variant owns one way of producing a unitary expression; the
/// controlled variant composes recursively over any expression, so
/// controlled and raw-expression gates can nest arbitrarily.
#[derive(Hash, PartialEq, Eq, Clone, Debug)]
pub enum Gate {
    HGate(HGate),
    PGate(PGate),
    XGate(XGate),
    U3Gate(U3Gate),
    Controlled(ControlledGate),
    Expression(UnitaryExpression),
}

impl Gate {
    /// A gate is well formed when its own description is.
    pub open spec fn wf(&self) -> bool {
        match self {
            Gate::HGate(g) => g.gen_wf(),
            Gate::PGate(g) => g.gen_wf(),
            Gate::XGate(g) => g.gen_wf(),
            Gate::U3Gate(g) => g.gen_wf(),
            Gate::Controlled(g) => g.wf(),
            Gate::Expression(e) => e.wf(),
        }
    }

    /// The Hadamard gate on one qudit of the given radix.
    #[allow(non_snake_case)]
    pub fn H(radix: usize) -> (g: Self)
        requires
            radix >= 2,
        ensures
            g.wf(),
            g matches Gate::HGate(h) && h.radix == radix,
    {
        Gate::HGate(HGate::new(radix))
    }

    /// The phase gate on one qudit of the given radix.
    #[allow(non_snake_case)]
    pub fn P(radix: usize) -> (g: Self)
        requires
            radix >= 2,
        ensures
            g.wf(),
            g matches Gate::PGate(p) && p.radix == radix,
    {
        Gate::PGate(PGate::new(radix))
    }

    /// The shift gate on one qudit of the given radix.
    #[allow(non_snake_case)]
    pub fn X(radix: usize) -> (g: Self)
        requires
            radix >= 2,
        ensures
            g.wf(),
            g matches Gate::XGate(x) && x.radix == radix,
    {
        Gate::XGate(XGate::new(radix))
    }

    /// The controlled-phase gate: a qubit phase gate controlled by one
    /// qubit activating on level one.
    #[allow(non_snake_case)]
    pub fn CP() -> (g: Self)
        ensures
            g.wf(),
            g matches Gate::Controlled(c) && c.expr_spec().spec_radices() == seq![
                2usize,
                2usize,
            ] && c.expr_spec().spec_vars().len() == 1
                && composed::control::controlled_expr_layout(
                c.expr_spec(),
                "P"@,
                seq![2usize],
                seq![2usize],
                seq![seq![1usize]],
            ) && (forall|k: int|
                0 <= k < c.expr_spec().embed_layers().len() ==> (PGate {
                    radix: 2,
                }).gen_matches((#[trigger] c.expr_spec().embed_layers()[k]).0)),
    {
        let target = PGate::new(2);
        let ghost target_spec = target;
        let mut radix_vec: Vec<usize> = Vec::new();
        radix_vec.push(2);
        proof {
            assert(radix_vec@ =~= seq![2usize]);
        }
        let control_radices = QuditRadices::new(radix_vec);
        let mut level_set: Vec<usize> = Vec::new();
        level_set.push(1);
        let mut control_levels: Vec<Vec<usize>> = Vec::new();
        control_levels.push(level_set);
        proof {
            assert(control_levels.deep_view()[0] == control_levels@[0]@);
            assert(control_levels@[0]@ =~= seq![1usize]);
            assert(control_levels.deep_view() =~= seq![seq![1usize]]);
        }
        let ghost cr_spec = control_radices@;
        let ghost cl_spec = control_levels.deep_view();
        let built = ControlledGate::new(target, control_radices, control_levels);
        proof {
            lemma_single_qubit_one_control_ok(built);
        }
        let c = built.unwrap();
        proof {
            assert(c.expr_spec().spec_radices() =~= seq![2usize, 2usize]);
            assert(target_spec == (PGate { radix: 2 }));
            assert(target_spec.gen_name() == "P"@);
            assert(target_spec.gen_radices() =~= seq![2usize]);
            assert(cr_spec =~= seq![2usize]);
            assert(cl_spec =~= seq![seq![1usize]]);
        }
        Gate::Controlled(c)
    }

    /// The controlled-X gate: a qubit shift gate controlled by one qubit
    /// activating on level one — the familiar CNOT.
    #[allow(non_snake_case)]
    pub fn CX() -> (g: Self)
        ensures
            g.wf(),
            g matches Gate::Controlled(c) && c.expr_spec().spec_radices() == seq![
                2usize,
                2usize,
            ] && c.expr_spec().spec_vars().len() == 0
                && composed::control::controlled_expr_layout(
                c.expr_spec(),
                "X"@,
                seq![2usize],
                seq![2usize],
                seq![seq![1usize]],
            ) && (forall|k: int|
                0 <= k < c.expr_spec().embed_layers().len() ==> (XGate {
                    radix: 2,
                }).gen_matches((#[trigger] c.expr_spec().embed_layers()[k]).0)),
    {
        let target = XGate::new(2);
        let ghost target_spec = target;
        let mut radix_vec: Vec<usize> = Vec::new();
        radix_vec.push(2);
        proof {
            assert(radix_vec@ =~= seq![2usize]);
        }
        let control_radices = QuditRadices::new(radix_vec);
        let mut level_set: Vec<usize> = Vec::new();
        level_set.push(1);
        let mut control_levels: Vec<Vec<usize>> = Vec::new();
        control_levels.push(level_set);
        proof {
            assert(control_levels.deep_view()[0] == control_levels@[0]@);
            assert(control_levels@[0]@ =~= seq![1usize]);
            assert(control_levels.deep_view() =~= seq![seq![1usize]]);
        }
        let ghost cr_spec = control_radices@;
        let ghost cl_spec = control_levels.deep_view();
        let built = ControlledGate::new(target, control_radices, control_levels);
        proof {
            lemma_single_qubit_one_control_ok(built);
        }
        let c = built.unwrap();
        proof {
            assert(c.expr_spec().spec_radices() =~= seq![2usize, 2usize]);
            assert(target_spec == (XGate { radix: 2 }));
            assert(target_spec.gen_name() == "X"@);
            assert(target_spec.gen_radices() =~= seq![2usize]);
            assert(cr_spec =~= seq![2usize]);
            assert(cl_spec =~= seq![seq![1usize]]);
        }
        Gate::Controlled(c)
    }

    /// The single-qubit U3 gate.
    #[allow(non_snake_case)]
    pub fn U3() -> (g: Self)
        ensures
            g.wf(),
            g matches Gate::U3Gate(_),
    {
        Gate::U3Gate(U3Gate)
    }

    /// The number of free parameters of this gate.
    pub fn num_params(&self) -> (n: usize)
        requires
            self.wf(),
        ensures
            n == self.gen_params(),
    {
        match self {
            Gate::HGate(_) => 0,
            Gate::XGate(_) => 0,
            Gate::U3Gate(_) => 3,
            Gate::PGate(g) => g.radix - 1,
            Gate::Controlled(g) => g.num_params(),
            Gate::Expression(e) => e.num_params(),
        }
    }
}

impl UnitaryExpressionGenerator for Gate {
    open spec fn gen_wf(&self) -> bool {
        self.wf()
    }

    open spec fn gen_name(&self) -> Seq<char> {
        match self {
            Gate::HGate(g) => g.gen_name(),
            Gate::PGate(g) => g.gen_name(),
            Gate::XGate(g) => g.gen_name(),
            Gate::U3Gate(g) => g.gen_name(),
            Gate::Controlled(g) => g.gen_name(),
            Gate::Expression(e) => e.spec_name(),
        }
    }

    open spec fn gen_radices(&self) -> Seq<usize> {
        match self {
            Gate::HGate(g) => g.gen_radices(),
            Gate::PGate(g) => g.gen_radices(),
            Gate::XGate(g) => g.gen_radices(),
            Gate::U3Gate(g) => g.gen_radices(),
            Gate::Controlled(g) => g.gen_radices(),
            Gate::Expression(e) => e.spec_radices(),
        }
    }

    open spec fn gen_params(&self) -> nat {
        match self {
            Gate::HGate(g) => g.gen_params(),
            Gate::PGate(g) => g.gen_params(),
            Gate::XGate(g) => g.gen_params(),
            Gate::U3Gate(g) => g.gen_params(),
            Gate::Controlled(g) => g.gen_params(),
            Gate::Expression(e) => e.spec_vars().len(),
        }
    }

    open spec fn gen_matches(&self, e: UnitaryExpression) -> bool {
        match self {
            Gate::HGate(g) => g.gen_matches(e),
            Gate::PGate(g) => g.gen_matches(e),
            Gate::XGate(g) => g.gen_matches(e),
            Gate::U3Gate(g) => g.gen_matches(e),
            Gate::Controlled(g) => g.gen_matches(e),
            Gate::Expression(stored) => e.sim(*stored),
        }
    }

    proof fn gen_matches_respects_sim(&self, a: UnitaryExpression, b: UnitaryExpression) {
        match self {
            Gate::HGate(g) => g.gen_matches_respects_sim(a, b),
            Gate::PGate(g) => g.gen_matches_respects_sim(a, b),
            Gate::XGate(g) => g.gen_matches_respects_sim(a, b),
            Gate::U3Gate(g) => g.gen_matches_respects_sim(a, b),
            Gate::Controlled(g) => g.gen_matches_respects_sim(a, b),
            Gate::Expression(stored) => {
                expr::lemma_sim_sym(a, b);
                expr::lemma_sim_trans(b, a, *stored);
            },
        }
    }

    fn gen_expr(&self) -> (e: UnitaryExpression) {
        match self {
            Gate::HGate(g) => g.gen_expr(),
            Gate::PGate(g) => g.gen_expr(),
            Gate::XGate(g) => g.gen_expr(),
            Gate::U3Gate(g) => g.gen_expr(),
            Gate::Controlled(g) => g.gen_expr(),
            Gate::Expression(e) => {
                let c = e.clone();
                proof {
                    expr::lemma_sim_observables(c, *e);
                }
                c
            },
        }
    }
}

/// A single-qubit control with the one-level activation set `{1}` and a
/// single-qubit target always validates: the level is in range, the set
/// is non-empty and duplicate-free, and the composite dimension is four.
proof fn lemma_single_qubit_one_control_ok(r: Result<ControlledGate, ControlError>)
    requires
        ({
            let cr = seq![2usize];
            let cl = seq![seq![1usize]];
            match r {
                Ok(g) => true,
                Err(ControlError::LengthMismatch) => !composed::control::lengths_match(cr, cl),
                Err(ControlError::EmptyLevelSet) => composed::control::lengths_match(cr, cl)
                    && composed::control::has_empty_set(cl),
                Err(ControlError::LevelOutOfRange) => composed::control::lengths_match(cr, cl)
                    && !composed::control::has_empty_set(cl)
                    && !composed::control::levels_in_range(cr, cl),
                Err(ControlError::DuplicateLevel) => composed::control::lengths_match(cr, cl)
                    && !composed::control::has_empty_set(cl)
                    && composed::control::levels_in_range(cr, cl)
                    && !composed::control::sets_distinct(cl),
                Err(ControlError::OverflowError) => radices::radix_prod(cr) * radices::radix_prod(
                    seq![2usize],
                ) > usize::MAX,
            }
        }),
    ensures
        r is Ok,
{
    let cr = seq![2usize];
    let cl = seq![seq![1usize]];
    assert(composed::control::lengths_match(cr, cl));
    assert(!composed::control::has_empty_set(cl)) by {
        if composed::control::has_empty_set(cl) {
            let w = choose|w: int| 0 <= w < cl.len() && #[trigger] cl[w].len() == 0;
        }
    }
    assert(composed::control::levels_in_range(cr, cl)) by {
        assert forall|i: int, j: int| 0 <= i < cl.len() && 0 <= j < cl[i].len() implies #[trigger]
            cl[i][j] < cr[i] by {
            assert(cl[0] == seq![1usize]);
            assert(cl[i][j] == 1);
            assert(cr[i] == 2);
        }
    }
    assert(composed::control::sets_distinct(cl));
    radices::lemma_radix_prod_singleton(2);
    assert(radices::radix_prod(cr) * radices::radix_prod(seq![2usize]) == 4) by (nonlinear_arith)
        requires
            radices::radix_prod(cr) == 2,
            radices::radix_prod(seq![2usize]) == 2,
    ;
}

} // verus!
