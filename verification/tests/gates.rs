//! Gate dispatch and the elementary gates.

use qudit_gates::Gate;
use qudit_gates::HGate;
use qudit_gates::IGate;
use qudit_gates::PGate;
use qudit_gates::SwapGate;
use qudit_gates::U3Gate;
use qudit_gates::UnitaryExpression;
use qudit_gates::UnitaryExpressionGenerator;
use qudit_gates::XGate;
use qudit_gates::decimal::usize_to_string;

#[test]
fn test_gate_param_counts() {
    assert_eq!(Gate::H(2).num_params(), 0);
    assert_eq!(Gate::X(3).num_params(), 0);
    assert_eq!(Gate::P(3).num_params(), 2);
    assert_eq!(Gate::U3().num_params(), 3);
    assert_eq!(Gate::CX().num_params(), 0);
    assert_eq!(Gate::CP().num_params(), 1);
}

#[test]
fn test_cx_gate_shape() {
    match Gate::CX() {
        Gate::Controlled(c) => {
            assert_eq!(c.dimension(), 4);
            assert_eq!(c.num_qudits(), 2);
            assert_eq!(c.gen_expr().name().as_str(), "Controlled(X)");
        },
        _ => panic!("expected a controlled gate"),
    }
}

#[test]
fn test_cp_gate_shape() {
    match Gate::CP() {
        Gate::Controlled(c) => {
            assert_eq!(c.dimension(), 4);
            assert_eq!(c.num_params(), 1);
            assert_eq!(c.gen_expr().name().as_str(), "Controlled(P)");
        },
        _ => panic!("expected a controlled gate"),
    }
}

#[test]
fn test_elementary_gate_expressions() {
    let h = HGate::new(3).gen_expr();
    assert_eq!(h.name().as_str(), "H");
    assert_eq!(h.dimension(), 3);
    assert_eq!(h.num_params(), 0);

    let i = IGate::new(4).gen_expr();
    assert_eq!(i.name().as_str(), "I");
    assert_eq!(i.dimension(), 4);

    let swap = SwapGate::new(3).gen_expr();
    assert_eq!(swap.name().as_str(), "Swap");
    assert_eq!(swap.num_qudits(), 2);
    assert_eq!(swap.dimension(), 9);

    let p = PGate::new(4).gen_expr();
    assert_eq!(p.name().as_str(), "P");
    assert_eq!(p.num_params(), 3);
    let vars = p.variables();
    assert_eq!(vars.len(), 3);
    assert_eq!(vars[0].as_str(), "θ0");
    assert_eq!(vars[1].as_str(), "θ1");
    assert_eq!(vars[2].as_str(), "θ2");

    let u3 = U3Gate.gen_expr();
    assert_eq!(u3.name().as_str(), "U3");
    assert_eq!(u3.num_params(), 3);
    assert_eq!(u3.dimension(), 2);
}

#[test]
fn test_x_gate_formula_source() {
    let x = XGate::new(2).gen_expr();
    match x {
        UnitaryExpression::Formula { ref source, .. } => {
            assert_eq!(source.as_str(), "utry X<2>(){[[0, 1, ],[1, 0, ],]}");
        },
        _ => panic!("expected a formula"),
    }
    let x3 = XGate::new(3).gen_expr();
    match x3 {
        UnitaryExpression::Formula { ref source, .. } => {
            assert_eq!(
                source.as_str(),
                "utry X<3>(){[[0, 0, 1, ],[1, 0, 0, ],[0, 1, 0, ],]}"
            );
        },
        _ => panic!("expected a formula"),
    }
}

#[test]
fn test_identity_gate_formula_source() {
    let i = IGate::new(2).gen_expr();
    match i {
        UnitaryExpression::Formula { ref source, .. } => {
            assert_eq!(source.as_str(), "utry I<2>(){[[1,0,],[0,1,],]}");
        },
        _ => panic!("expected a formula"),
    }
}

#[test]
fn test_h_gate_formula_source() {
    let h = HGate::new(2).gen_expr();
    match h {
        UnitaryExpression::Formula { ref source, .. } => {
            assert_eq!(
                source.as_str(),
                "utry H<2>(){[[1/sqrt(2), 1/sqrt(2)], [1/sqrt(2), ~1/sqrt(2)]]}"
            );
        },
        _ => panic!("expected a formula"),
    }
}

#[test]
fn test_p_gate_formula_source() {
    let p = PGate::new(2).gen_expr();
    match p {
        UnitaryExpression::Formula { ref source, ref variables, .. } => {
            assert_eq!(source.as_str(), "utry P<2>(θ0, ){[[1, 0, ],[0, e^(i*θ0), ],]}");
            assert_eq!(variables.len(), 1);
            assert_eq!(variables[0].as_str(), "θ0");
        },
        _ => panic!("expected a formula"),
    }
}

#[test]
fn test_decimal_rendering() {
    assert_eq!(usize_to_string(0).as_str(), "0");
    assert_eq!(usize_to_string(7).as_str(), "7");
    assert_eq!(usize_to_string(10).as_str(), "10");
    assert_eq!(usize_to_string(255).as_str(), "255");
    assert_eq!(usize_to_string(1234).as_str(), "1234");
}

#[test]
fn test_expression_gate_passthrough() {
    let expr = U3Gate.gen_expr();
    let gate = Gate::Expression(expr);
    assert_eq!(gate.num_params(), 3);
    let produced = gate.gen_expr();
    assert_eq!(produced.name().as_str(), "U3");
    assert_eq!(produced.num_params(), 3);
}
