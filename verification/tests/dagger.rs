//! Gate inversion.

use qudit_gates::DaggerGate;
use qudit_gates::PGate;
use qudit_gates::U3Gate;
use qudit_gates::UnitaryExpression;
use qudit_gates::UnitaryExpressionGenerator;

#[test]
fn test_dagger_is_conjugate_transpose() {
    let dagger = DaggerGate::new(U3Gate);
    let expr = dagger.gen_expr();
    match expr {
        UnitaryExpression::Transpose { inner } => match *inner {
            UnitaryExpression::Conjugate { inner } => match *inner {
                UnitaryExpression::Formula { ref name, .. } => {
                    assert_eq!(name.as_str(), "U3");
                },
                _ => panic!("expected the target formula innermost"),
            },
            _ => panic!("expected conjugation before transposition"),
        },
        _ => panic!("expected a transposition outermost"),
    }
}

#[test]
fn test_dagger_preserves_shape_and_params() {
    let dagger = DaggerGate::new(U3Gate);
    assert_eq!(dagger.dimension(), 2);
    assert_eq!(dagger.num_qudits(), 1);
    assert_eq!(dagger.num_params(), 3);
    let radices = dagger.radices();
    assert_eq!(radices.len(), 1);
    assert_eq!(radices.get(0), 2);

    let dagger = DaggerGate::new(PGate::new(4));
    assert_eq!(dagger.dimension(), 4);
    assert_eq!(dagger.num_params(), 3);
}

#[test]
fn test_double_dagger_structure() {
    // Applying the dagger twice wraps the original expression in two
    // conjugate-transpose pairs; shape and parameters are unchanged.
    let twice = DaggerGate::new(DaggerGate::new(PGate::new(3)));
    assert_eq!(twice.dimension(), 3);
    assert_eq!(twice.num_params(), 2);
    let expr = twice.gen_expr();
    match expr {
        UnitaryExpression::Transpose { inner } => match *inner {
            UnitaryExpression::Conjugate { inner } => match *inner {
                UnitaryExpression::Transpose { inner } => match *inner {
                    UnitaryExpression::Conjugate { inner } => {
                        assert!(matches!(*inner, UnitaryExpression::Formula { .. }));
                    },
                    _ => panic!("expected the inner conjugation"),
                },
                _ => panic!("expected the inner transposition"),
            },
            _ => panic!("expected the outer conjugation"),
        },
        _ => panic!("expected the outer transposition"),
    }
}
