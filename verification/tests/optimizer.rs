// The pass over single expressions: idempotence, per-operator bound rules,
// forced reductions, and the fatal paths.

use uint_optimizer::optimizer::Error;
use uint_optimizer::optimizer::UintOptimizer;
use uint_optimizer::zir::BooleanExpression;
use uint_optimizer::zir::FieldExpression;
use uint_optimizer::zir::UExpression;
use uint_optimizer::zir::UExpressionInner;
use uint_optimizer::zir::UMetadata;

// The number of bits of the modulus of the bn128 scalar field, the field
// this pass is typically instantiated at.
const FIELD_BITS: usize = 254;

fn meta(bitwidth: usize, should_reduce: bool) -> UMetadata {
    UMetadata { bitwidth: Some(bitwidth), should_reduce: Some(should_reduce) }
}

fn value(v: u128, range: usize) -> UExpression {
    UExpressionInner::Value(v).annotate(range)
}

fn annotated(v: u128, range: usize, bitwidth: usize, should_reduce: bool) -> UExpression {
    value(v, range).with_metadata(meta(bitwidth, should_reduce))
}

fn add(l: UExpression, r: UExpression, range: usize) -> UExpression {
    UExpressionInner::Add(Box::new(l), Box::new(r)).annotate(range)
}

#[test]
fn existing_metadata() {
    let build = || {
        UExpressionInner::Identifier("foo".into())
            .annotate(32)
            .with_metadata(UMetadata { bitwidth: Some(33), should_reduce: Some(false) })
    };
    let e = build();

    let optimizer: UintOptimizer = UintOptimizer::new(FIELD_BITS);

    let optimized = optimizer.fold_uint_expression(build()).unwrap();

    assert_eq!(e, optimized);
}

#[test]
fn value_gets_nominal_bound() {
    let optimizer = UintOptimizer::new(FIELD_BITS + 1);
    let folded = optimizer.fold_uint_expression(value(3, 8)).unwrap();
    assert_eq!(folded.metadata, Some(meta(8, false)));
    assert_eq!(folded.bitwidth, 8);
    assert!(matches!(folded.inner, UExpressionInner::Value(3)));
}

#[test]
fn add_of_fresh_values_grows_one_bit() {
    // max_bitwidth = 254: an 8-bit addition is far below capacity, so no
    // reduction is forced and the bound is max(8, 8) + 1 = 9.
    let optimizer = UintOptimizer::new(FIELD_BITS + 1);
    let folded = optimizer
        .fold_uint_expression(add(value(3, 8), value(3, 8), 8))
        .unwrap();
    assert_eq!(folded.metadata, Some(meta(9, false)));
    match &folded.inner {
        UExpressionInner::Add(l, r) => {
            assert_eq!(l.metadata, Some(meta(8, false)));
            assert_eq!(r.metadata, Some(meta(8, false)));
        }
        other => panic!("expected an addition, got {:?}", other),
    }
}

#[test]
fn addition_chain_reduces_at_capacity() {
    // A left-deep chain of 250 additions of 8-bit values.  The running
    // bound grows 9, 10, ... and would reach 8 + 247 = 255 > 254 at the
    // 247th addition: exactly there both operands are forced to reduce and
    // the bound restarts at range + 1 = 9, leaving 12 at the top.
    let optimizer = UintOptimizer::new(FIELD_BITS + 1);
    let mut e = value(1, 8);
    for _ in 0..250 {
        e = add(e, value(1, 8), 8);
    }
    let folded = optimizer.fold_uint_expression(e).unwrap();
    assert_eq!(folded.metadata, Some(meta(12, false)));

    // Walk down the left spine: 12, 11, 10, then the forced node at 9
    // whose own left operand kept its bound of 254 but is now flagged.
    let mut node = &folded;
    for expected in [12usize, 11, 10, 9] {
        assert_eq!(node.metadata.unwrap().bitwidth, Some(expected));
        node = match &node.inner {
            UExpressionInner::Add(l, _) => l,
            other => panic!("expected an addition, got {:?}", other),
        };
    }
    assert_eq!(node.metadata, Some(meta(254, true)));
}

#[test]
fn xor_forces_both_operands_canonical() {
    // c := a ^ b where a, b are unreduced 8-bit sums with bound 9: both
    // operands come out flagged and the node is canonical.
    let optimizer = UintOptimizer::new(FIELD_BITS + 1);
    let a = add(value(3, 8), value(3, 8), 8);
    let b = add(value(2, 8), value(2, 8), 8);
    let folded = optimizer
        .fold_uint_expression(UExpressionInner::Xor(Box::new(a), Box::new(b)).annotate(8))
        .unwrap();
    assert_eq!(folded.metadata, Some(meta(8, true)));
    match &folded.inner {
        UExpressionInner::Xor(l, r) => {
            assert_eq!(l.metadata, Some(meta(9, true)));
            assert_eq!(r.metadata, Some(meta(9, true)));
        }
        other => panic!("expected a xor, got {:?}", other),
    }
}

#[test]
fn and_or_force_both_operands_canonical() {
    let optimizer = UintOptimizer::new(FIELD_BITS + 1);
    let folded = optimizer
        .fold_uint_expression(
            UExpressionInner::And(Box::new(value(3, 8)), Box::new(value(5, 8))).annotate(8),
        )
        .unwrap();
    assert_eq!(folded.metadata, Some(meta(8, true)));
    match &folded.inner {
        UExpressionInner::And(l, r) => {
            assert_eq!(l.metadata, Some(meta(8, true)));
            assert_eq!(r.metadata, Some(meta(8, true)));
        }
        other => panic!("expected an and, got {:?}", other),
    }

    let folded = optimizer
        .fold_uint_expression(
            UExpressionInner::Or(Box::new(value(3, 8)), Box::new(value(5, 8))).annotate(8),
        )
        .unwrap();
    assert_eq!(folded.metadata, Some(meta(8, true)));
    match &folded.inner {
        UExpressionInner::Or(l, r) => {
            assert_eq!(l.metadata, Some(meta(8, true)));
            assert_eq!(r.metadata, Some(meta(8, true)));
        }
        other => panic!("expected an or, got {:?}", other),
    }
}

#[test]
fn not_forces_operand_canonical() {
    let optimizer = UintOptimizer::new(FIELD_BITS + 1);
    let folded = optimizer
        .fold_uint_expression(UExpressionInner::Not(Box::new(value(3, 8))).annotate(8))
        .unwrap();
    assert_eq!(folded.metadata, Some(meta(8, true)));
    match &folded.inner {
        UExpressionInner::Not(x) => assert_eq!(x.metadata, Some(meta(8, true))),
        other => panic!("expected a not, got {:?}", other),
    }
}

#[test]
fn mult_overflow_forces_reduction() {
    // Two maximally wide operands: 130 + 130 = 260 > 254, so both are
    // reduced and the product's bound is fixed at 2 * range = 16.
    let optimizer = UintOptimizer::new(FIELD_BITS + 1);
    let a = annotated(3, 8, 130, false);
    let b = annotated(5, 8, 130, false);
    let folded = optimizer
        .fold_uint_expression(UExpressionInner::Mult(Box::new(a), Box::new(b)).annotate(8))
        .unwrap();
    assert_eq!(folded.metadata, Some(meta(16, false)));
    match &folded.inner {
        UExpressionInner::Mult(l, r) => {
            assert_eq!(l.metadata, Some(meta(130, true)));
            assert_eq!(r.metadata, Some(meta(130, true)));
        }
        other => panic!("expected a multiplication, got {:?}", other),
    }
}

#[test]
fn mult_in_capacity_adds_bounds() {
    let optimizer = UintOptimizer::new(FIELD_BITS + 1);
    let a = annotated(3, 8, 100, false);
    let b = annotated(5, 8, 120, false);
    let folded = optimizer
        .fold_uint_expression(UExpressionInner::Mult(Box::new(a), Box::new(b)).annotate(8))
        .unwrap();
    assert_eq!(folded.metadata, Some(meta(220, false)));
}

#[test]
fn sub_follows_the_add_rule() {
    let optimizer = UintOptimizer::new(FIELD_BITS + 1);
    // In capacity: max(253, 8) + 1 = 254 is allowed, nothing is forced.
    let folded = optimizer
        .fold_uint_expression(
            UExpressionInner::Sub(
                Box::new(annotated(3, 8, 253, false)),
                Box::new(value(1, 8)),
            )
            .annotate(8),
        )
        .unwrap();
    assert_eq!(folded.metadata, Some(meta(254, false)));

    // Over capacity: max(254, 8) + 1 = 255 > 254 forces both operands and
    // the fallback bound range + 1 = 9.
    let folded = optimizer
        .fold_uint_expression(
            UExpressionInner::Sub(
                Box::new(annotated(3, 8, 254, false)),
                Box::new(value(1, 8)),
            )
            .annotate(8),
        )
        .unwrap();
    assert_eq!(folded.metadata, Some(meta(9, false)));
    match &folded.inner {
        UExpressionInner::Sub(l, r) => {
            assert_eq!(l.metadata, Some(meta(254, true)));
            assert_eq!(r.metadata, Some(meta(8, true)));
        }
        other => panic!("expected a subtraction, got {:?}", other),
    }
}

#[test]
fn reduced_operand_counts_at_nominal_width() {
    // An operand already marked for reduction contributes its nominal width
    // 8, not its recorded bound 200: max(8, 8) + 1 = 9.
    let optimizer = UintOptimizer::new(FIELD_BITS + 1);
    let folded = optimizer
        .fold_uint_expression(add(annotated(3, 8, 200, true), value(1, 8), 8))
        .unwrap();
    assert_eq!(folded.metadata, Some(meta(9, false)));
}

#[test]
fn if_else_takes_wider_branch_without_growth() {
    let optimizer = UintOptimizer::new(FIELD_BITS + 1);
    let folded = optimizer
        .fold_uint_expression(
            UExpressionInner::IfElse(
                Box::new(BooleanExpression::Identifier("c".into())),
                Box::new(annotated(3, 8, 9, false)),
                Box::new(annotated(5, 8, 200, true)),
            )
            .annotate(8),
        )
        .unwrap();
    // The flagged alternative counts at its nominal width 8, so the bound
    // is max(9, 8) = 9, with no extra bit.
    assert_eq!(folded.metadata, Some(meta(9, false)));
    match &folded.inner {
        UExpressionInner::IfElse(c, t, f) => {
            assert_eq!(**c, BooleanExpression::Identifier("c".into()));
            assert_eq!(t.metadata, Some(meta(9, false)));
            // No reduction is forced by the select itself.
            assert_eq!(f.metadata, Some(meta(200, true)));
        }
        other => panic!("expected a select, got {:?}", other),
    }
}

#[test]
fn shifts_force_operand_and_keep_amount() {
    let optimizer = UintOptimizer::new(FIELD_BITS + 1);
    let folded = optimizer
        .fold_uint_expression(
            UExpressionInner::LeftShift(
                Box::new(add(value(3, 8), value(1, 8), 8)),
                Box::new(FieldExpression::Number(2)),
            )
            .annotate(8),
        )
        .unwrap();
    assert_eq!(folded.metadata, Some(meta(8, true)));
    match &folded.inner {
        UExpressionInner::LeftShift(x, by) => {
            assert_eq!(x.metadata, Some(meta(9, true)));
            assert_eq!(**by, FieldExpression::Number(2));
        }
        other => panic!("expected a left shift, got {:?}", other),
    }

    let folded = optimizer
        .fold_uint_expression(
            UExpressionInner::RightShift(
                Box::new(value(3, 8)),
                Box::new(FieldExpression::Identifier("n".into())),
            )
            .annotate(8),
        )
        .unwrap();
    assert_eq!(folded.metadata, Some(meta(8, true)));
    match &folded.inner {
        UExpressionInner::RightShift(x, by) => {
            assert_eq!(x.metadata, Some(meta(8, true)));
            assert_eq!(**by, FieldExpression::Identifier("n".into()));
        }
        other => panic!("expected a right shift, got {:?}", other),
    }
}

#[test]
fn width_too_large_for_field_is_fatal() {
    let optimizer = UintOptimizer::new(FIELD_BITS + 1);
    // 200 >= 254 / 2, even though the value itself is annotated.
    let folded = optimizer.fold_uint_expression(annotated(1, 200, 200, false));
    assert_eq!(
        folded,
        Err(Error::FieldTooSmall { range: 200, max_bitwidth: 254 })
    );

    // The boundary: 127 >= 254 / 2 is rejected, 126 < 254 / 2 is accepted.
    assert_eq!(
        optimizer.fold_uint_expression(value(1, 127)),
        Err(Error::FieldTooSmall { range: 127, max_bitwidth: 254 })
    );
    assert!(optimizer.fold_uint_expression(value(1, 126)).is_ok());
}

#[test]
fn undefined_identifier_is_fatal() {
    let optimizer = UintOptimizer::new(FIELD_BITS + 1);
    let folded =
        optimizer.fold_uint_expression(UExpressionInner::Identifier("x".into()).annotate(8));
    assert_eq!(folded, Err(Error::UnresolvedIdentifier("x".into())));
}

#[test]
fn surviving_function_call_is_fatal() {
    let optimizer = UintOptimizer::new(FIELD_BITS + 1);
    let folded = optimizer.fold_uint_expression(
        UExpressionInner::FunctionCall("main".into(), Vec::new()).annotate(8),
    );
    assert_eq!(folded, Err(Error::UnexpectedFunctionCall));
}
