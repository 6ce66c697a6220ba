// Bound soundness checked by brute force: for a small tree, over all
// operand values in the nominal range, the value of every annotated node —
// evaluated the way the flattening stage consumes the annotations — stays
// below 2^bitwidth of its recorded bound.

use uint_optimizer::optimizer::UintOptimizer;
use uint_optimizer::zir::UExpression;
use uint_optimizer::zir::UExpressionInner;

// A deliberately small field: required_bits = 8 gives max_bitwidth = 7, so
// only 2-bit integers are supported and bound overflow is easy to reach.
const SMALL_FIELD_BITS: usize = 8;
const RANGE: usize = 2;

fn leaf(v: u128) -> UExpression {
    UExpressionInner::Value(v).annotate(RANGE)
}

// The bits an operand contributes when consumed by a node of width `range`.
fn effective_bits(e: &UExpression, range: usize) -> usize {
    let m = e.metadata.unwrap();
    if m.should_reduce == Some(true) {
        range
    } else {
        m.bitwidth.unwrap()
    }
}

// The value the consumer of `e` reads: reduced into canonical range when
// the annotation asks for it.
fn consumed(e: &UExpression) -> u128 {
    let v = node_value(e);
    if e.metadata.unwrap().should_reduce == Some(true) {
        v % (1u128 << e.bitwidth)
    } else {
        v
    }
}

// The value of `e` before any reduction.  A subtraction is materialised as
// a + 2^q - b with q covering the subtrahend, as the circuit does.
fn node_value(e: &UExpression) -> u128 {
    match &e.inner {
        UExpressionInner::Value(v) => *v,
        UExpressionInner::Add(l, r) => consumed(l) + consumed(r),
        UExpressionInner::Sub(l, r) => {
            let q = effective_bits(r, e.bitwidth);
            consumed(l) + (1u128 << q) - consumed(r)
        }
        UExpressionInner::Mult(l, r) => consumed(l) * consumed(r),
        UExpressionInner::Xor(l, r) => consumed(l) ^ consumed(r),
        other => panic!("operator not used in this tree: {:?}", other),
    }
}

// Every node's pre-reduction value stays below 2^bitwidth of its bound.
fn check_bounds(e: &UExpression) {
    let bound = e.metadata.unwrap().bitwidth.unwrap();
    assert!(node_value(e) < (1u128 << bound), "bound {} violated", bound);
    match &e.inner {
        UExpressionInner::Add(l, r)
        | UExpressionInner::Sub(l, r)
        | UExpressionInner::Mult(l, r)
        | UExpressionInner::Xor(l, r) => {
            check_bounds(l);
            check_bounds(r);
        }
        _ => {}
    }
}

#[test]
fn bounds_hold_under_brute_force() {
    // t = (m ^ e5) - f  with  m = (a + b + c) * d: the sum reaches bound 4,
    // the product 6, the xor forces both operands canonical, and the
    // subtraction grows one bit again.
    let optimizer = UintOptimizer::new(SMALL_FIELD_BITS);
    let domain: u128 = 1 << RANGE;
    for a in 0..domain {
        for b in 0..domain {
            for c in 0..domain {
                for d in 0..domain {
                    for e5 in 0..domain {
                        for f in 0..domain {
                            let sum = UExpressionInner::Add(
                                Box::new(
                                    UExpressionInner::Add(Box::new(leaf(a)), Box::new(leaf(b)))
                                        .annotate(RANGE),
                                ),
                                Box::new(leaf(c)),
                            )
                            .annotate(RANGE);
                            let product =
                                UExpressionInner::Mult(Box::new(sum), Box::new(leaf(d)))
                                    .annotate(RANGE);
                            let mixed =
                                UExpressionInner::Xor(Box::new(product), Box::new(leaf(e5)))
                                    .annotate(RANGE);
                            let top =
                                UExpressionInner::Sub(Box::new(mixed), Box::new(leaf(f)))
                                    .annotate(RANGE);
                            let folded = optimizer.fold_uint_expression(top).unwrap();
                            check_bounds(&folded);
                        }
                    }
                }
            }
        }
    }
}

#[test]
fn forced_reduction_bound_is_tight_under_brute_force() {
    // A chain long enough to exhaust the capacity of 7 bits: the bounds run
    // 3, 4, 5, 6, 7 and the sixth addition is forced back to 3.
    let optimizer = UintOptimizer::new(SMALL_FIELD_BITS);
    let domain: u128 = 1 << RANGE;
    for seed in 0..(1u128 << 14) {
        let mut vals = [0u128; 7];
        for (i, v) in vals.iter_mut().enumerate() {
            *v = (seed >> (2 * i)) % domain;
        }
        let mut e = leaf(vals[0]);
        for v in &vals[1..] {
            e = UExpressionInner::Add(Box::new(e), Box::new(leaf(*v))).annotate(RANGE);
        }
        let folded = optimizer.fold_uint_expression(e).unwrap();
        assert_eq!(folded.metadata.unwrap().bitwidth, Some(3));
        check_bounds(&folded);
    }
}
