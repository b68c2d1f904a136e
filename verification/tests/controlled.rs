//! Controlled-gate synthesis.

use qudit_gates::ControlError;
use qudit_gates::ControlledGate;
use qudit_gates::HGate;
use qudit_gates::PGate;
use qudit_gates::QuditRadices;
use qudit_gates::U3Gate;
use qudit_gates::UnitaryExpression;
use qudit_gates::UnitaryExpressionGenerator;
use qudit_gates::XGate;

#[test]
fn test_controlled_x_is_cnot_layout() {
    // One qubit control on level 1, target X on a qubit: the expression
    // is a 4x4 identity whose bottom-right 2x2 block is the X gate.
    let gate = ControlledGate::new(XGate::new(2), QuditRadices::new(vec![2]), vec![vec![1]])
        .unwrap();
    assert_eq!(gate.dimension(), 4);
    assert_eq!(gate.num_params(), 0);
    assert_eq!(gate.num_qudits(), 2);
    let expr = gate.gen_expr();
    match expr {
        UnitaryExpression::Embed { base, block, row, col } => {
            assert_eq!(row, 2);
            assert_eq!(col, 2);
            match *base {
                UnitaryExpression::Identity { ref name, ref radices } => {
                    assert_eq!(name.as_str(), "Controlled(X)");
                    assert_eq!(radices.len(), 2);
                    assert_eq!(radices.get(0), 2);
                    assert_eq!(radices.get(1), 2);
                },
                _ => panic!("expected an identity base"),
            }
            match *block {
                UnitaryExpression::Formula { ref name, .. } => {
                    assert_eq!(name.as_str(), "X");
                },
                _ => panic!("expected the target formula as the block"),
            }
        },
        _ => panic!("expected one embedded block"),
    }
}

#[test]
fn test_controlled_dimension_is_product() {
    let gate = ControlledGate::new(PGate::new(2), QuditRadices::new(vec![3]), vec![vec![2]])
        .unwrap();
    assert_eq!(gate.dimension(), 6);
    let gate = ControlledGate::new(
        HGate::new(2),
        QuditRadices::new(vec![2, 3]),
        vec![vec![1], vec![2]],
    )
        .unwrap();
    assert_eq!(gate.dimension(), 12);
}

#[test]
fn test_controlled_keeps_target_params() {
    let gate = ControlledGate::new(U3Gate, QuditRadices::new(vec![2]), vec![vec![1]]).unwrap();
    assert_eq!(gate.num_params(), 3);
    let gate = ControlledGate::new(PGate::new(4), QuditRadices::new(vec![3]), vec![vec![0, 2]])
        .unwrap();
    assert_eq!(gate.num_params(), 3);
}

#[test]
fn test_multi_level_control_offsets() {
    // Control qubit activating on both levels: the target is embedded at
    // every diagonal block, offsets 0 and 2 in order.
    let gate = ControlledGate::new(XGate::new(2), QuditRadices::new(vec![2]), vec![vec![0, 1]])
        .unwrap();
    let expr = gate.gen_expr();
    match expr {
        UnitaryExpression::Embed { base: outer_base, row, col, .. } => {
            assert_eq!(row, 2);
            assert_eq!(col, 2);
            match *outer_base {
                UnitaryExpression::Embed { base: inner_base, row, col, .. } => {
                    assert_eq!(row, 0);
                    assert_eq!(col, 0);
                    assert!(matches!(*inner_base, UnitaryExpression::Identity { .. }));
                },
                _ => panic!("expected two embedded blocks"),
            }
        },
        _ => panic!("expected two embedded blocks"),
    }
}

#[test]
fn test_qutrit_control_block_offset() {
    // A qutrit control activating on level 2 with a qubit target: the
    // block offset is 2 * dimension(target) = 4.
    let gate = ControlledGate::new(XGate::new(2), QuditRadices::new(vec![3]), vec![vec![2]])
        .unwrap();
    assert_eq!(gate.dimension(), 6);
    let expr = gate.gen_expr();
    match expr {
        UnitaryExpression::Embed { row, col, .. } => {
            assert_eq!(row, 4);
            assert_eq!(col, 4);
        },
        _ => panic!("expected one embedded block"),
    }
}

#[test]
fn test_controlled_name() {
    let gate = ControlledGate::new(HGate::new(3), QuditRadices::new(vec![2]), vec![vec![1]])
        .unwrap();
    let expr = gate.gen_expr();
    assert_eq!(expr.name().as_str(), "Controlled(H)");
}

#[test]
fn test_length_mismatch_is_rejected() {
    let r = ControlledGate::new(PGate::new(2), QuditRadices::new(vec![2, 3]), vec![vec![0]]);
    assert_eq!(r.unwrap_err(), ControlError::LengthMismatch);
}

#[test]
fn test_empty_level_set_is_rejected() {
    let r = ControlledGate::new(PGate::new(2), QuditRadices::new(vec![2]), vec![vec![]]);
    assert_eq!(r.unwrap_err(), ControlError::EmptyLevelSet);
}

#[test]
fn test_level_out_of_range_is_rejected() {
    let r = ControlledGate::new(PGate::new(2), QuditRadices::new(vec![2]), vec![vec![2]]);
    assert_eq!(r.unwrap_err(), ControlError::LevelOutOfRange);
}

#[test]
fn test_duplicate_level_is_rejected() {
    let r = ControlledGate::new(PGate::new(2), QuditRadices::new(vec![2]), vec![vec![0, 0]]);
    assert_eq!(r.unwrap_err(), ControlError::DuplicateLevel);
}

#[test]
fn test_composite_overflow_is_rejected() {
    let r = ControlledGate::new(
        PGate::new(2),
        QuditRadices::new(vec![usize::MAX, usize::MAX]),
        vec![vec![0], vec![1]],
    );
    assert_eq!(r.unwrap_err(), ControlError::OverflowError);
}

#[test]
fn test_zero_controls_degenerates_to_identity() {
    // With no control qudits the enumeration is empty, so nothing is
    // embedded: the expression stays the identity on the target's space.
    let gate = ControlledGate::new(XGate::new(2), QuditRadices::new(Vec::new()), Vec::new())
        .unwrap();
    assert_eq!(gate.dimension(), 2);
    assert_eq!(gate.num_params(), 0);
    let expr = gate.gen_expr();
    assert!(matches!(expr, UnitaryExpression::Identity { .. }));
}
