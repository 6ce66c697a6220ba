//! The guarantees the pass gives its consumers, stated in one place and
//! proved against the spec fold that the executable walk is contracted to
//! compute.

use vstd::prelude::*;

use crate::optimizer::effective_bitwidth;
use crate::optimizer::force_reduce;
use crate::optimizer::fresh_metadata;
use crate::optimizer::spec_fold_return_list;
use crate::optimizer::spec_fold_uint;
use crate::optimizer::EnvModel;
use crate::optimizer::Error;
use crate::zir::Type;
use crate::zir::UExpression;
use crate::zir::UExpressionInner;
use crate::zir::ZirExpression;

verus! {

/// Idempotence: a node that already carries metadata — and passes the width
/// check, which the pass makes first — is returned unchanged: no field is
/// altered and no sub-tree is revisited.
pub proof fn lemma_fold_idempotent(env: EnvModel, max_bitwidth: usize, e: UExpression)
    requires
        e.bitwidth < max_bitwidth / 2,
        e.metadata is Some,
    ensures
        spec_fold_uint(env, max_bitwidth, e) == Ok::<UExpression, Error>(e),
{
}

/// Fatal path: a nominal width the field cannot support — `range` at least
/// `max_bitwidth / 2` — is rejected with the field-too-small error naming
/// the offending width and the capacity, before any propagation rule runs:
/// even a node that already carries metadata is rejected.
pub proof fn lemma_field_too_small(env: EnvModel, max_bitwidth: usize, e: UExpression)
    requires
        !(e.bitwidth < max_bitwidth / 2),
    ensures
        spec_fold_uint(env, max_bitwidth, e) == Err::<UExpression, Error>(
            Error::FieldTooSmall { range: e.bitwidth, max_bitwidth },
        ),
{
}

/// Fatal path: an identifier with no definition registered for its binding
/// is rejected with the unresolved-identifier error; one whose binding is
/// registered resolves to exactly the stored metadata.
pub proof fn lemma_identifier_lookup(env: EnvModel, max_bitwidth: usize, e: UExpression, id: String)
    requires
        e.bitwidth < max_bitwidth / 2,
        e.metadata is None,
        e.inner == UExpressionInner::Identifier(id),
    ensures
        !env.contains_key((id@, Type::Uint(e.bitwidth))) ==> spec_fold_uint(env, max_bitwidth, e)
            == Err::<UExpression, Error>(Error::UnresolvedIdentifier(id)),
        env.contains_key((id@, Type::Uint(e.bitwidth))) ==> spec_fold_uint(env, max_bitwidth, e)
            == Ok::<UExpression, Error>(
            UExpression {
                bitwidth: e.bitwidth,
                metadata: Some(env[(id@, Type::Uint(e.bitwidth))]),
                inner: UExpressionInner::Identifier(id),
            },
        ),
{
}

/// Fatal path: a function call surviving into the pass is rejected.
pub proof fn lemma_function_call_rejected(
    env: EnvModel,
    max_bitwidth: usize,
    e: UExpression,
    id: String,
    args: Vec<ZirExpression>,
)
    requires
        e.bitwidth < max_bitwidth / 2,
        e.metadata is None,
        e.inner == UExpressionInner::FunctionCall(id, args),
    ensures
        spec_fold_uint(env, max_bitwidth, e) == Err::<UExpression, Error>(
            Error::UnexpectedFunctionCall,
        ),
{
}

/// Overflow guarding for `Add` and `Sub`: when the naively propagated bound
/// `max(effL, effR) + 1` exceeds the field's capacity, both operands of the
/// rewritten node are marked for reduction and the node's bound is the
/// fallback `range + 1` — never the naive value.
pub proof fn lemma_addsub_overflow_guard(
    env: EnvModel,
    max_bitwidth: usize,
    e: UExpression,
    l: UExpression,
    r: UExpression,
)
    requires
        e.bitwidth < max_bitwidth / 2,
        e.metadata is None,
        e.inner == UExpressionInner::Add(Box::new(l), Box::new(r)) || e.inner
            == UExpressionInner::Sub(Box::new(l), Box::new(r)),
        spec_fold_uint(env, max_bitwidth, l) is Ok,
        spec_fold_uint(env, max_bitwidth, r) is Ok,
        ({
            let lf = spec_fold_uint(env, max_bitwidth, l).unwrap();
            let rf = spec_fold_uint(env, max_bitwidth, r).unwrap();
            let lw = effective_bitwidth(lf.metadata.unwrap(), e.bitwidth);
            let rw = effective_bitwidth(rf.metadata.unwrap(), e.bitwidth);
            (if lw >= rw {
                lw
            } else {
                rw
            }) + 1 > max_bitwidth
        }),
    ensures
        spec_fold_uint(env, max_bitwidth, e) is Ok,
        ({
            let lf = spec_fold_uint(env, max_bitwidth, l).unwrap();
            let rf = spec_fold_uint(env, max_bitwidth, r).unwrap();
            let out = spec_fold_uint(env, max_bitwidth, e).unwrap();
            &&& out.metadata == Some(fresh_metadata((e.bitwidth + 1) as usize, false))
            &&& (e.inner matches UExpressionInner::Add(_, _) ==> out.inner
                == UExpressionInner::Add(
                Box::new(force_reduce(lf)),
                Box::new(force_reduce(rf)),
            ))
            &&& (e.inner matches UExpressionInner::Sub(_, _) ==> out.inner
                == UExpressionInner::Sub(
                Box::new(force_reduce(lf)),
                Box::new(force_reduce(rf)),
            ))
            &&& force_reduce(lf).metadata.unwrap().should_reduce == Some(true)
            &&& force_reduce(rf).metadata.unwrap().should_reduce == Some(true)
        }),
{
}

/// Overflow guarding for `Mult`: when the naively propagated bound
/// `effL + effR` exceeds the field's capacity, both operands of the
/// rewritten node are marked for reduction and the node's bound is the
/// fallback `2 * range` — never the naive value.
pub proof fn lemma_mult_overflow_guard(
    env: EnvModel,
    max_bitwidth: usize,
    e: UExpression,
    l: UExpression,
    r: UExpression,
)
    requires
        e.bitwidth < max_bitwidth / 2,
        e.metadata is None,
        e.inner == UExpressionInner::Mult(Box::new(l), Box::new(r)),
        spec_fold_uint(env, max_bitwidth, l) is Ok,
        spec_fold_uint(env, max_bitwidth, r) is Ok,
        ({
            let lf = spec_fold_uint(env, max_bitwidth, l).unwrap();
            let rf = spec_fold_uint(env, max_bitwidth, r).unwrap();
            effective_bitwidth(lf.metadata.unwrap(), e.bitwidth) + effective_bitwidth(
                rf.metadata.unwrap(),
                e.bitwidth,
            ) > max_bitwidth
        }),
    ensures
        spec_fold_uint(env, max_bitwidth, e) is Ok,
        ({
            let lf = spec_fold_uint(env, max_bitwidth, l).unwrap();
            let rf = spec_fold_uint(env, max_bitwidth, r).unwrap();
            let out = spec_fold_uint(env, max_bitwidth, e).unwrap();
            &&& out.metadata == Some(fresh_metadata((2 * e.bitwidth) as usize, false))
            &&& out.inner == UExpressionInner::Mult(
                Box::new(force_reduce(lf)),
                Box::new(force_reduce(rf)),
            )
            &&& force_reduce(lf).metadata.unwrap().should_reduce == Some(true)
            &&& force_reduce(rf).metadata.unwrap().should_reduce == Some(true)
        }),
{
}

/// The node is marked for reduction.
pub open spec fn reduce_flagged(e: UExpression) -> bool {
    e.metadata matches Some(m) && m.should_reduce == Some(true)
}

/// Every bitwise and shift node in `e` has canonical shape: its integer
/// operands are marked for reduction, and the node itself carries
/// `bitwidth = range` and `should_reduce = true`.  The walk follows exactly
/// the integer operands the pass visits.
pub open spec fn canonical_ops_ok(e: UExpression) -> bool
    decreases e,
{
    &&& (match e.inner {
        UExpressionInner::Xor(l, r) => reduce_flagged(*l) && reduce_flagged(*r) && e.metadata
            == Some(fresh_metadata(e.bitwidth, true)),
        UExpressionInner::And(l, r) => reduce_flagged(*l) && reduce_flagged(*r) && e.metadata
            == Some(fresh_metadata(e.bitwidth, true)),
        UExpressionInner::Or(l, r) => reduce_flagged(*l) && reduce_flagged(*r) && e.metadata
            == Some(fresh_metadata(e.bitwidth, true)),
        UExpressionInner::Not(x) => reduce_flagged(*x) && e.metadata == Some(
            fresh_metadata(e.bitwidth, true),
        ),
        UExpressionInner::LeftShift(x, _) => reduce_flagged(*x) && e.metadata == Some(
            fresh_metadata(e.bitwidth, true),
        ),
        UExpressionInner::RightShift(x, _) => reduce_flagged(*x) && e.metadata == Some(
            fresh_metadata(e.bitwidth, true),
        ),
        _ => true,
    })
    &&& (match e.inner {
        UExpressionInner::Add(l, r) => canonical_ops_ok(*l) && canonical_ops_ok(*r),
        UExpressionInner::Sub(l, r) => canonical_ops_ok(*l) && canonical_ops_ok(*r),
        UExpressionInner::Mult(l, r) => canonical_ops_ok(*l) && canonical_ops_ok(*r),
        UExpressionInner::Xor(l, r) => canonical_ops_ok(*l) && canonical_ops_ok(*r),
        UExpressionInner::And(l, r) => canonical_ops_ok(*l) && canonical_ops_ok(*r),
        UExpressionInner::Or(l, r) => canonical_ops_ok(*l) && canonical_ops_ok(*r),
        UExpressionInner::Not(x) => canonical_ops_ok(*x),
        UExpressionInner::LeftShift(x, _) => canonical_ops_ok(*x),
        UExpressionInner::RightShift(x, _) => canonical_ops_ok(*x),
        UExpressionInner::IfElse(_, c, a) => canonical_ops_ok(*c) && canonical_ops_ok(*a),
        _ => true,
    })
}

/// The sub-trees of `e` that already carry metadata are canonical: they are
/// the output of a prior run, which this pass returns unchanged.
pub open spec fn annotated_parts_canonical(e: UExpression) -> bool
    decreases e,
{
    if e.metadata is Some {
        canonical_ops_ok(e)
    } else {
        match e.inner {
            UExpressionInner::Add(l, r) => annotated_parts_canonical(*l)
                && annotated_parts_canonical(*r),
            UExpressionInner::Sub(l, r) => annotated_parts_canonical(*l)
                && annotated_parts_canonical(*r),
            UExpressionInner::Mult(l, r) => annotated_parts_canonical(*l)
                && annotated_parts_canonical(*r),
            UExpressionInner::Xor(l, r) => annotated_parts_canonical(*l)
                && annotated_parts_canonical(*r),
            UExpressionInner::And(l, r) => annotated_parts_canonical(*l)
                && annotated_parts_canonical(*r),
            UExpressionInner::Or(l, r) => annotated_parts_canonical(*l)
                && annotated_parts_canonical(*r),
            UExpressionInner::Not(x) => annotated_parts_canonical(*x),
            UExpressionInner::LeftShift(x, _) => annotated_parts_canonical(*x),
            UExpressionInner::RightShift(x, _) => annotated_parts_canonical(*x),
            UExpressionInner::IfElse(_, c, a) => annotated_parts_canonical(*c)
                && annotated_parts_canonical(*a),
            _ => true,
        }
    }
}

/// Marking a node for reduction touches only its flag: the canonical-shape
/// invariant survives, and the node comes out flagged.
proof fn lemma_force_reduce_canonical(e: UExpression)
    requires
        canonical_ops_ok(e),
    ensures
        canonical_ops_ok(force_reduce(e)),
        reduce_flagged(force_reduce(e)),
{
}

/// Canonical-operator invariant: folding a tree whose annotated parts are
/// already canonical yields a tree in which every `Xor`, `And`, `Or`,
/// `Not`, `LeftShift` and `RightShift` node has its operands marked for
/// reduction and itself carries `bitwidth = range`, `should_reduce = true`.
pub proof fn lemma_fold_canonical_ops(env: EnvModel, max_bitwidth: usize, e: UExpression)
    requires
        annotated_parts_canonical(e),
        spec_fold_uint(env, max_bitwidth, e) is Ok,
    ensures
        canonical_ops_ok(spec_fold_uint(env, max_bitwidth, e).unwrap()),
    decreases e,
{
    if e.bitwidth < max_bitwidth / 2 && e.metadata is None {
        match e.inner {
            UExpressionInner::Add(l, r) => {
                lemma_fold_canonical_ops(env, max_bitwidth, *l);
                lemma_fold_canonical_ops(env, max_bitwidth, *r);
                lemma_force_reduce_canonical(spec_fold_uint(env, max_bitwidth, *l).unwrap());
                lemma_force_reduce_canonical(spec_fold_uint(env, max_bitwidth, *r).unwrap());
            },
            UExpressionInner::Sub(l, r) => {
                lemma_fold_canonical_ops(env, max_bitwidth, *l);
                lemma_fold_canonical_ops(env, max_bitwidth, *r);
                lemma_force_reduce_canonical(spec_fold_uint(env, max_bitwidth, *l).unwrap());
                lemma_force_reduce_canonical(spec_fold_uint(env, max_bitwidth, *r).unwrap());
            },
            UExpressionInner::Mult(l, r) => {
                lemma_fold_canonical_ops(env, max_bitwidth, *l);
                lemma_fold_canonical_ops(env, max_bitwidth, *r);
                lemma_force_reduce_canonical(spec_fold_uint(env, max_bitwidth, *l).unwrap());
                lemma_force_reduce_canonical(spec_fold_uint(env, max_bitwidth, *r).unwrap());
            },
            UExpressionInner::Xor(l, r) => {
                lemma_fold_canonical_ops(env, max_bitwidth, *l);
                lemma_fold_canonical_ops(env, max_bitwidth, *r);
                lemma_force_reduce_canonical(spec_fold_uint(env, max_bitwidth, *l).unwrap());
                lemma_force_reduce_canonical(spec_fold_uint(env, max_bitwidth, *r).unwrap());
            },
            UExpressionInner::And(l, r) => {
                lemma_fold_canonical_ops(env, max_bitwidth, *l);
                lemma_fold_canonical_ops(env, max_bitwidth, *r);
                lemma_force_reduce_canonical(spec_fold_uint(env, max_bitwidth, *l).unwrap());
                lemma_force_reduce_canonical(spec_fold_uint(env, max_bitwidth, *r).unwrap());
            },
            UExpressionInner::Or(l, r) => {
                lemma_fold_canonical_ops(env, max_bitwidth, *l);
                lemma_fold_canonical_ops(env, max_bitwidth, *r);
                lemma_force_reduce_canonical(spec_fold_uint(env, max_bitwidth, *l).unwrap());
                lemma_force_reduce_canonical(spec_fold_uint(env, max_bitwidth, *r).unwrap());
            },
            UExpressionInner::Not(x) => {
                lemma_fold_canonical_ops(env, max_bitwidth, *x);
                lemma_force_reduce_canonical(spec_fold_uint(env, max_bitwidth, *x).unwrap());
            },
            UExpressionInner::LeftShift(x, _) => {
                lemma_fold_canonical_ops(env, max_bitwidth, *x);
                lemma_force_reduce_canonical(spec_fold_uint(env, max_bitwidth, *x).unwrap());
            },
            UExpressionInner::RightShift(x, _) => {
                lemma_fold_canonical_ops(env, max_bitwidth, *x);
                lemma_force_reduce_canonical(spec_fold_uint(env, max_bitwidth, *x).unwrap());
            },
            UExpressionInner::IfElse(_, t, f) => {
                lemma_fold_canonical_ops(env, max_bitwidth, *t);
                lemma_fold_canonical_ops(env, max_bitwidth, *f);
            },
            _ => {},
        }
    }
}

/// Return-boundary invariant: every integer-kind expression among a folded
/// return statement's values is marked for reduction, whatever the
/// recursive rule alone would have produced.
pub proof fn lemma_return_boundary(env: EnvModel, max_bitwidth: usize, es: Seq<ZirExpression>)
    requires
        spec_fold_return_list(env, max_bitwidth, es) is Ok,
    ensures
        ({
            let out = spec_fold_return_list(env, max_bitwidth, es).unwrap();
            &&& out.len() == es.len()
            &&& forall|i: int|
                0 <= i < out.len() ==> ((#[trigger] out[i]) matches ZirExpression::Uint(u)
                    ==> u.metadata is Some && u.metadata.unwrap().should_reduce == Some(true))
        }),
    decreases es.len(),
{
    if es.len() > 0 {
        lemma_return_boundary(env, max_bitwidth, es.drop_first());
        let out = spec_fold_return_list(env, max_bitwidth, es).unwrap();
        let rest = spec_fold_return_list(env, max_bitwidth, es.drop_first()).unwrap();
        assert forall|i: int| 0 <= i < out.len() implies ((#[trigger] out[i])
            matches ZirExpression::Uint(u) ==> u.metadata is Some
            && u.metadata.unwrap().should_reduce == Some(true)) by {
            if i > 0 {
                assert(out[i] == rest[i - 1]);
            }
        }
    }
}

} // verus!
