//! Symbolic expression operations.

use qudit_gates::QuditRadices;
use qudit_gates::UnitaryExpression;

#[test]
fn test_identity_expression() {
    let expr = UnitaryExpression::identity(
        String::from("Blank"),
        QuditRadices::new(vec![2, 2]),
    );
    assert_eq!(expr.name().as_str(), "Blank");
    assert_eq!(expr.dimension(), 4);
    assert_eq!(expr.num_qudits(), 2);
    assert_eq!(expr.num_params(), 0);
}

#[test]
fn test_embed_merges_parameter_names() {
    // Embedding merges the parameter names of the two expressions and
    // keeps one copy of each shared name.
    let left = UnitaryExpression::formula(
        String::from("L"),
        QuditRadices::new(vec![2]),
        vec![String::from("a"), String::from("b")],
        String::from("utry L<2>(a, b){}"),
    );
    let right = UnitaryExpression::formula(
        String::from("R"),
        QuditRadices::new(vec![2]),
        vec![String::from("b"), String::from("c")],
        String::from("utry R<2>(b, c){}"),
    );
    let base = UnitaryExpression::identity(String::from("Pair"), QuditRadices::new(vec![2, 2]));
    let combined = base.embed(left, 0, 0).embed(right, 2, 2);
    assert_eq!(combined.num_params(), 3);
    let vars = combined.variables();
    assert_eq!(vars[0].as_str(), "a");
    assert_eq!(vars[1].as_str(), "b");
    assert_eq!(vars[2].as_str(), "c");
}

#[test]
fn test_embed_same_block_shares_parameters() {
    let block = UnitaryExpression::formula(
        String::from("G"),
        QuditRadices::new(vec![2]),
        vec![String::from("a")],
        String::from("utry G<2>(a){}"),
    );
    let base = UnitaryExpression::identity(String::from("Big"), QuditRadices::new(vec![2, 2]));
    let combined = base.embed(block.clone(), 0, 0).embed(block, 2, 2);
    assert_eq!(combined.num_params(), 1);
}

#[test]
fn test_conjugate_transpose_keep_shape() {
    let block = UnitaryExpression::formula(
        String::from("G"),
        QuditRadices::new(vec![3]),
        vec![String::from("a")],
        String::from("utry G<3>(a){}"),
    );
    let turned = block.conjugate().transpose();
    assert_eq!(turned.dimension(), 3);
    assert_eq!(turned.num_params(), 1);
    assert_eq!(turned.name().as_str(), "G");
}

#[test]
fn test_clone_preserves_structure() {
    let block = UnitaryExpression::formula(
        String::from("G"),
        QuditRadices::new(vec![2]),
        vec![String::from("a")],
        String::from("utry G<2>(a){}"),
    );
    let base = UnitaryExpression::identity(String::from("Big"), QuditRadices::new(vec![2, 2]));
    let combined = base.embed(block, 2, 2);
    let copy = combined.clone();
    assert_eq!(copy, combined);
    assert_eq!(copy.num_params(), 1);
    assert_eq!(copy.dimension(), 4);
}
