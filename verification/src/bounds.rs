//! Soundness of the recorded bounds: an annotated tree whose metadata is
//! internally consistent really does evaluate below `2^bitwidth` at every
//! node, for every assignment of identifier values that respects the
//! recorded identifier bounds — and the trees the pass emits are consistent
//! in that sense.
//!
//! The evaluation here models how the flattening stage consumes the
//! annotations: an operand marked `should_reduce` is brought back into its
//! canonical range before use, a subtraction is offset by `2^q` with `q`
//! covering the subtrahend, and shifts wrap at the nominal width.

use vstd::arithmetic::div_mod::lemma_div_nonincreasing;
use vstd::arithmetic::div_mod::lemma_mod_bound;
use vstd::arithmetic::power2::lemma_pow2_adds;
use vstd::arithmetic::power2::lemma_pow2_pos;
use vstd::arithmetic::power2::lemma_pow2_strictly_increases;
use vstd::arithmetic::power2::lemma_pow2_unfold;
use vstd::arithmetic::power2::pow2;
use vstd::prelude::*;

use crate::laws::reduce_flagged;
use crate::optimizer::effective_bitwidth;
use crate::optimizer::env_resolved;
use crate::optimizer::force_reduce;
use crate::optimizer::spec_fold_uint;
use crate::optimizer::EnvModel;
use crate::zir::resolved;
use crate::zir::Type;
use crate::zir::BooleanExpression;
use crate::zir::FieldExpression;
use crate::zir::UExpression;
use crate::zir::UExpressionInner;

verus! {

/// Exclusive or, bit by bit, on naturals.
pub open spec fn bitxor_nat(a: nat, b: nat) -> nat
    decreases a + b,
{
    if a == 0 && b == 0 {
        0
    } else {
        2 * bitxor_nat(a / 2, b / 2) + (if (a % 2) != (b % 2) {
            1nat
        } else {
            0nat
        })
    }
}

/// Conjunction, bit by bit, on naturals.
pub open spec fn bitand_nat(a: nat, b: nat) -> nat
    decreases a + b,
{
    if a == 0 && b == 0 {
        0
    } else {
        2 * bitand_nat(a / 2, b / 2) + (if (a % 2) == 1 && (b % 2) == 1 {
            1nat
        } else {
            0nat
        })
    }
}

/// Disjunction, bit by bit, on naturals.
pub open spec fn bitor_nat(a: nat, b: nat) -> nat
    decreases a + b,
{
    if a == 0 && b == 0 {
        0
    } else {
        2 * bitor_nat(a / 2, b / 2) + (if (a % 2) == 1 || (b % 2) == 1 {
            1nat
        } else {
            0nat
        })
    }
}

/// A bitwise combination of two `n`-bit values fits in `n` bits.
proof fn lemma_bitxor_nat_bound(a: nat, b: nat, n: nat)
    requires
        a < pow2(n),
        b < pow2(n),
    ensures
        bitxor_nat(a, b) < pow2(n),
    decreases n,
{
    if n == 0 {
        assert(pow2(0) == 1) by {
            vstd::arithmetic::power2::lemma2_to64();
        }
    } else {
        lemma_pow2_unfold(n);
        lemma_bitxor_nat_bound(a / 2, b / 2, (n - 1) as nat);
    }
}

/// A bitwise combination of two `n`-bit values fits in `n` bits.
proof fn lemma_bitand_nat_bound(a: nat, b: nat, n: nat)
    requires
        a < pow2(n),
        b < pow2(n),
    ensures
        bitand_nat(a, b) < pow2(n),
    decreases n,
{
    if n == 0 {
        assert(pow2(0) == 1) by {
            vstd::arithmetic::power2::lemma2_to64();
        }
    } else {
        lemma_pow2_unfold(n);
        lemma_bitand_nat_bound(a / 2, b / 2, (n - 1) as nat);
    }
}

/// A bitwise combination of two `n`-bit values fits in `n` bits.
proof fn lemma_bitor_nat_bound(a: nat, b: nat, n: nat)
    requires
        a < pow2(n),
        b < pow2(n),
    ensures
        bitor_nat(a, b) < pow2(n),
    decreases n,
{
    if n == 0 {
        assert(pow2(0) == 1) by {
            vstd::arithmetic::power2::lemma2_to64();
        }
    } else {
        lemma_pow2_unfold(n);
        lemma_bitor_nat_bound(a / 2, b / 2, (n - 1) as nat);
    }
}

/// Powers of two are monotone.
proof fn lemma_pow2_le(a: nat, b: nat)
    requires
        a <= b,
    ensures
        pow2(a) <= pow2(b),
{
    if a < b {
        lemma_pow2_strictly_increases(a, b);
    }
}

/// The recorded bound of an annotated node, in bits.
pub open spec fn bound_of(e: UExpression) -> nat {
    e.metadata.unwrap().bitwidth.unwrap() as nat
}

/// The bits an operand of a node of nominal width `range` can occupy when
/// consumed.
pub open spec fn operand_cap(e: UExpression, range: usize) -> nat {
    effective_bitwidth(e.metadata.unwrap(), range) as nat
}

/// The value of the expression `e` before any reduction, under `sigma`
/// (identifier values, by name and nominal width), `phi` (shift amounts)
/// and `psi` (branch conditions).
pub open spec fn eval(
    e: UExpression,
    sigma: spec_fn(Seq<char>, usize) -> nat,
    phi: spec_fn(FieldExpression) -> nat,
    psi: spec_fn(BooleanExpression) -> bool,
) -> nat
    decreases e, 0int,
{
    let range = e.bitwidth;
    match e.inner {
        UExpressionInner::Value(v) => v as nat,
        UExpressionInner::Identifier(id) => sigma(id@, range),
        UExpressionInner::Add(l, r) => consumed_value(*l, sigma, phi, psi) + consumed_value(
            *r,
            sigma,
            phi,
            psi,
        ),
        UExpressionInner::Sub(l, r) => {
            // a - b is materialised as a + 2^q - b with q covering the
            // subtrahend, which keeps the difference non-negative.
            let q = operand_cap(*r, range);
            (consumed_value(*l, sigma, phi, psi) + pow2(q) - consumed_value(
                *r,
                sigma,
                phi,
                psi,
            )) as nat
        },
        UExpressionInner::Mult(l, r) => consumed_value(*l, sigma, phi, psi) * consumed_value(
            *r,
            sigma,
            phi,
            psi,
        ),
        UExpressionInner::Xor(l, r) => bitxor_nat(
            consumed_value(*l, sigma, phi, psi),
            consumed_value(*r, sigma, phi, psi),
        ),
        UExpressionInner::And(l, r) => bitand_nat(
            consumed_value(*l, sigma, phi, psi),
            consumed_value(*r, sigma, phi, psi),
        ),
        UExpressionInner::Or(l, r) => bitor_nat(
            consumed_value(*l, sigma, phi, psi),
            consumed_value(*r, sigma, phi, psi),
        ),
        UExpressionInner::Not(x) => (pow2(range as nat) - 1 - consumed_value(
            *x,
            sigma,
            phi,
            psi,
        ) % pow2(range as nat)) as nat,
        UExpressionInner::LeftShift(x, by) => (consumed_value(*x, sigma, phi, psi) * pow2(
            phi(*by),
        )) % pow2(range as nat),
        UExpressionInner::RightShift(x, by) => consumed_value(*x, sigma, phi, psi) / pow2(
            phi(*by),
        ),
        UExpressionInner::IfElse(c, t, f) => if psi(*c) {
            consumed_value(*t, sigma, phi, psi)
        } else {
            consumed_value(*f, sigma, phi, psi)
        },
        UExpressionInner::FunctionCall(_, _) => 0,
    }
}

/// The value of `e` as its consumer reads it: reduced into the canonical
/// range when the annotation asks for it, untouched otherwise.
pub open spec fn consumed_value(
    e: UExpression,
    sigma: spec_fn(Seq<char>, usize) -> nat,
    phi: spec_fn(FieldExpression) -> nat,
    psi: spec_fn(BooleanExpression) -> bool,
) -> nat
    decreases e, 1int,
{
    if e.metadata.unwrap().should_reduce == Some(true) {
        eval(e, sigma, phi, psi) % pow2(e.bitwidth as nat)
    } else {
        eval(e, sigma, phi, psi)
    }
}

/// The annotations in `e` are internally consistent under `sigma`: every
/// node is resolved, literals sit inside their nominal range, identifier
/// values respect the bound recorded at their use, operands carry the same
/// nominal width as their node, bitwise and shift operands are marked for
/// reduction, and every node's bound dominates what its operator can
/// produce from its operands' effective bounds.
pub open spec fn bounds_consistent(
    e: UExpression,
    sigma: spec_fn(Seq<char>, usize) -> nat,
) -> bool
    decreases e,
{
    let range = e.bitwidth;
    &&& e.metadata is Some
    &&& resolved(e.metadata.unwrap())
    &&& match e.inner {
        UExpressionInner::Value(v) => (v as nat) < pow2(range as nat) && bound_of(e)
            >= range as nat,
        UExpressionInner::Identifier(id) => sigma(id@, range) < pow2(bound_of(e)),
        UExpressionInner::Add(l, r) => {
            &&& l.bitwidth == range && r.bitwidth == range
            &&& bounds_consistent(*l, sigma) && bounds_consistent(*r, sigma)
            &&& bound_of(e) >= operand_cap(*l, range) + 1
            &&& bound_of(e) >= operand_cap(*r, range) + 1
        },
        UExpressionInner::Sub(l, r) => {
            &&& l.bitwidth == range && r.bitwidth == range
            &&& bounds_consistent(*l, sigma) && bounds_consistent(*r, sigma)
            &&& bound_of(e) >= operand_cap(*l, range) + 1
            &&& bound_of(e) >= operand_cap(*r, range) + 1
        },
        UExpressionInner::Mult(l, r) => {
            &&& l.bitwidth == range && r.bitwidth == range
            &&& bounds_consistent(*l, sigma) && bounds_consistent(*r, sigma)
            &&& bound_of(e) >= operand_cap(*l, range) + operand_cap(*r, range)
        },
        UExpressionInner::Xor(l, r) => {
            &&& l.bitwidth == range && r.bitwidth == range
            &&& bounds_consistent(*l, sigma) && bounds_consistent(*r, sigma)
            &&& reduce_flagged(*l) && reduce_flagged(*r)
            &&& bound_of(e) >= range as nat
        },
        UExpressionInner::And(l, r) => {
            &&& l.bitwidth == range && r.bitwidth == range
            &&& bounds_consistent(*l, sigma) && bounds_consistent(*r, sigma)
            &&& reduce_flagged(*l) && reduce_flagged(*r)
            &&& bound_of(e) >= range as nat
        },
        UExpressionInner::Or(l, r) => {
            &&& l.bitwidth == range && r.bitwidth == range
            &&& bounds_consistent(*l, sigma) && bounds_consistent(*r, sigma)
            &&& reduce_flagged(*l) && reduce_flagged(*r)
            &&& bound_of(e) >= range as nat
        },
        UExpressionInner::Not(x) => {
            &&& x.bitwidth == range
            &&& bounds_consistent(*x, sigma)
            &&& reduce_flagged(*x)
            &&& bound_of(e) >= range as nat
        },
        UExpressionInner::LeftShift(x, _) => {
            &&& x.bitwidth == range
            &&& bounds_consistent(*x, sigma)
            &&& reduce_flagged(*x)
            &&& bound_of(e) >= range as nat
        },
        UExpressionInner::RightShift(x, _) => {
            &&& x.bitwidth == range
            &&& bounds_consistent(*x, sigma)
            &&& reduce_flagged(*x)
            &&& bound_of(e) >= range as nat
        },
        UExpressionInner::IfElse(_, t, f) => {
            &&& t.bitwidth == range && f.bitwidth == range
            &&& bounds_consistent(*t, sigma) && bounds_consistent(*f, sigma)
            &&& bound_of(e) >= operand_cap(*t, range)
            &&& bound_of(e) >= operand_cap(*f, range)
        },
        UExpressionInner::FunctionCall(_, _) => false,
    }
}

/// Bound soundness: in a consistent tree, every node's value stays below
/// `2^bitwidth` of its recorded bound, and what its consumer reads stays
/// below `2^eff` of its effective bound — for every valuation of
/// identifiers, shift amounts and branch conditions.
pub proof fn lemma_bounds_sound(
    e: UExpression,
    sigma: spec_fn(Seq<char>, usize) -> nat,
    phi: spec_fn(FieldExpression) -> nat,
    psi: spec_fn(BooleanExpression) -> bool,
)
    requires
        bounds_consistent(e, sigma),
    ensures
        eval(e, sigma, phi, psi) < pow2(bound_of(e)),
        consumed_value(e, sigma, phi, psi) < pow2(operand_cap(e, e.bitwidth)),
    decreases e,
{
    let range = e.bitwidth;
    lemma_pow2_pos(range as nat);
    match e.inner {
        UExpressionInner::Value(_) => {
            lemma_pow2_le(range as nat, bound_of(e));
        },
        UExpressionInner::Identifier(_) => {},
        UExpressionInner::Add(l, r) => {
            lemma_bounds_sound(*l, sigma, phi, psi);
            lemma_bounds_sound(*r, sigma, phi, psi);
            lemma_pow2_le(operand_cap(*l, range), (bound_of(e) - 1) as nat);
            lemma_pow2_le(operand_cap(*r, range), (bound_of(e) - 1) as nat);
            lemma_pow2_unfold(bound_of(e));
        },
        UExpressionInner::Sub(l, r) => {
            lemma_bounds_sound(*l, sigma, phi, psi);
            lemma_bounds_sound(*r, sigma, phi, psi);
            lemma_pow2_le(operand_cap(*l, range), (bound_of(e) - 1) as nat);
            lemma_pow2_le(operand_cap(*r, range), (bound_of(e) - 1) as nat);
            lemma_pow2_unfold(bound_of(e));
        },
        UExpressionInner::Mult(l, r) => {
            lemma_bounds_sound(*l, sigma, phi, psi);
            lemma_bounds_sound(*r, sigma, phi, psi);
            let cl = consumed_value(*l, sigma, phi, psi);
            let cr = consumed_value(*r, sigma, phi, psi);
            let pl = pow2(operand_cap(*l, range));
            let pr = pow2(operand_cap(*r, range));
            lemma_pow2_pos(operand_cap(*l, range));
            lemma_pow2_pos(operand_cap(*r, range));
            assert(cl * cr < pl * pr) by (nonlinear_arith)
                requires
                    cl < pl,
                    cr < pr,
                    pl > 0,
                    pr > 0,
            ;
            lemma_pow2_adds(operand_cap(*l, range), operand_cap(*r, range));
            lemma_pow2_le(operand_cap(*l, range) + operand_cap(*r, range), bound_of(e));
        },
        UExpressionInner::Xor(l, r) => {
            lemma_bounds_sound(*l, sigma, phi, psi);
            lemma_bounds_sound(*r, sigma, phi, psi);
            lemma_bitxor_nat_bound(
                consumed_value(*l, sigma, phi, psi),
                consumed_value(*r, sigma, phi, psi),
                range as nat,
            );
            lemma_pow2_le(range as nat, bound_of(e));
        },
        UExpressionInner::And(l, r) => {
            lemma_bounds_sound(*l, sigma, phi, psi);
            lemma_bounds_sound(*r, sigma, phi, psi);
            lemma_bitand_nat_bound(
                consumed_value(*l, sigma, phi, psi),
                consumed_value(*r, sigma, phi, psi),
                range as nat,
            );
            lemma_pow2_le(range as nat, bound_of(e));
        },
        UExpressionInner::Or(l, r) => {
            lemma_bounds_sound(*l, sigma, phi, psi);
            lemma_bounds_sound(*r, sigma, phi, psi);
            lemma_bitor_nat_bound(
                consumed_value(*l, sigma, phi, psi),
                consumed_value(*r, sigma, phi, psi),
                range as nat,
            );
            lemma_pow2_le(range as nat, bound_of(e));
        },
        UExpressionInner::Not(x) => {
            lemma_bounds_sound(*x, sigma, phi, psi);
            lemma_mod_bound(
                consumed_value(*x, sigma, phi, psi) as int,
                pow2(range as nat) as int,
            );
            lemma_pow2_le(range as nat, bound_of(e));
        },
        UExpressionInner::LeftShift(x, by) => {
            lemma_bounds_sound(*x, sigma, phi, psi);
            lemma_mod_bound(
                (consumed_value(*x, sigma, phi, psi) * pow2(phi(*by))) as int,
                pow2(range as nat) as int,
            );
            lemma_pow2_le(range as nat, bound_of(e));
        },
        UExpressionInner::RightShift(x, by) => {
            lemma_bounds_sound(*x, sigma, phi, psi);
            lemma_pow2_pos(phi(*by));
            lemma_div_nonincreasing(
                consumed_value(*x, sigma, phi, psi) as int,
                pow2(phi(*by)) as int,
            );
            lemma_pow2_le(range as nat, bound_of(e));
        },
        UExpressionInner::IfElse(_, t, f) => {
            lemma_bounds_sound(*t, sigma, phi, psi);
            lemma_bounds_sound(*f, sigma, phi, psi);
            lemma_pow2_le(operand_cap(*t, range), bound_of(e));
            lemma_pow2_le(operand_cap(*f, range), bound_of(e));
        },
        UExpressionInner::FunctionCall(_, _) => {},
    }
    if e.metadata.unwrap().should_reduce == Some(true) {
        lemma_mod_bound(eval(e, sigma, phi, psi) as int, pow2(range as nat) as int);
    }
}

/// What the pass needs of its input for the emitted bounds to be sound:
/// sub-trees that already carry metadata are consistent (they are the
/// output of a prior run), and the fresh parts have literals inside their
/// nominal range, operands of the same nominal width as their node, and
/// identifier values respecting the bound stored in the environment for
/// their binding.
pub open spec fn foldable_consistent(
    env: EnvModel,
    e: UExpression,
    sigma: spec_fn(Seq<char>, usize) -> nat,
) -> bool
    decreases e,
{
    if e.metadata is Some {
        bounds_consistent(e, sigma)
    } else {
        let range = e.bitwidth;
        match e.inner {
            UExpressionInner::Value(v) => (v as nat) < pow2(range as nat),
            UExpressionInner::Identifier(id) => env.contains_key((id@, Type::Uint(range)))
                ==> sigma(id@, range) < pow2(
                env[(id@, Type::Uint(range))].bitwidth.unwrap() as nat,
            ),
            UExpressionInner::Add(l, r) => l.bitwidth == range && r.bitwidth == range
                && foldable_consistent(env, *l, sigma) && foldable_consistent(env, *r, sigma),
            UExpressionInner::Sub(l, r) => l.bitwidth == range && r.bitwidth == range
                && foldable_consistent(env, *l, sigma) && foldable_consistent(env, *r, sigma),
            UExpressionInner::Mult(l, r) => l.bitwidth == range && r.bitwidth == range
                && foldable_consistent(env, *l, sigma) && foldable_consistent(env, *r, sigma),
            UExpressionInner::Xor(l, r) => l.bitwidth == range && r.bitwidth == range
                && foldable_consistent(env, *l, sigma) && foldable_consistent(env, *r, sigma),
            UExpressionInner::And(l, r) => l.bitwidth == range && r.bitwidth == range
                && foldable_consistent(env, *l, sigma) && foldable_consistent(env, *r, sigma),
            UExpressionInner::Or(l, r) => l.bitwidth == range && r.bitwidth == range
                && foldable_consistent(env, *l, sigma) && foldable_consistent(env, *r, sigma),
            UExpressionInner::Not(x) => x.bitwidth == range && foldable_consistent(
                env,
                *x,
                sigma,
            ),
            UExpressionInner::LeftShift(x, _) => x.bitwidth == range && foldable_consistent(
                env,
                *x,
                sigma,
            ),
            UExpressionInner::RightShift(x, _) => x.bitwidth == range && foldable_consistent(
                env,
                *x,
                sigma,
            ),
            UExpressionInner::IfElse(_, t, f) => t.bitwidth == range && f.bitwidth == range
                && foldable_consistent(env, *t, sigma) && foldable_consistent(env, *f, sigma),
            UExpressionInner::FunctionCall(_, _) => true,
        }
    }
}

/// Marking a node for reduction touches only its flag: consistency of the
/// recorded bounds survives, and the node comes out flagged with the same
/// bound and width.
proof fn lemma_force_reduce_consistent(e: UExpression, sigma: spec_fn(Seq<char>, usize) -> nat)
    requires
        bounds_consistent(e, sigma),
    ensures
        bounds_consistent(force_reduce(e), sigma),
        reduce_flagged(force_reduce(e)),
        bound_of(force_reduce(e)) == bound_of(e),
        force_reduce(e).bitwidth == e.bitwidth,
{
}

/// A successful fold keeps the node's nominal width and annotates it.
proof fn lemma_fold_shape(env: EnvModel, max_bitwidth: usize, e: UExpression)
    requires
        spec_fold_uint(env, max_bitwidth, e) is Ok,
    ensures
        spec_fold_uint(env, max_bitwidth, e).unwrap().bitwidth == e.bitwidth,
        spec_fold_uint(env, max_bitwidth, e).unwrap().metadata is Some,
{
}

/// Bound consistency of the pass's output: folding a tree whose annotated
/// parts are consistent, over an environment of resolved entries, yields a
/// consistent tree — so by `lemma_bounds_sound` every bound the pass emits
/// is a true upper bound on the node's value.
#[verifier::rlimit(100)]
#[verifier::spinoff_prover]
pub proof fn lemma_fold_bounds_consistent(
    env: EnvModel,
    max_bitwidth: usize,
    e: UExpression,
    sigma: spec_fn(Seq<char>, usize) -> nat,
)
    requires
        env_resolved(env),
        foldable_consistent(env, e, sigma),
        spec_fold_uint(env, max_bitwidth, e) is Ok,
    ensures
        bounds_consistent(spec_fold_uint(env, max_bitwidth, e).unwrap(), sigma),
    decreases e,
{
    let range = e.bitwidth;
    if range < max_bitwidth / 2 && e.metadata is None {
        match e.inner {
            UExpressionInner::Add(l, r) => {
                lemma_fold_bounds_consistent(env, max_bitwidth, *l, sigma);
                lemma_fold_bounds_consistent(env, max_bitwidth, *r, sigma);
                lemma_fold_shape(env, max_bitwidth, *l);
                lemma_fold_shape(env, max_bitwidth, *r);
                lemma_force_reduce_consistent(
                    spec_fold_uint(env, max_bitwidth, *l).unwrap(),
                    sigma,
                );
                lemma_force_reduce_consistent(
                    spec_fold_uint(env, max_bitwidth, *r).unwrap(),
                    sigma,
                );
            },
            UExpressionInner::Sub(l, r) => {
                lemma_fold_bounds_consistent(env, max_bitwidth, *l, sigma);
                lemma_fold_bounds_consistent(env, max_bitwidth, *r, sigma);
                lemma_fold_shape(env, max_bitwidth, *l);
                lemma_fold_shape(env, max_bitwidth, *r);
                lemma_force_reduce_consistent(
                    spec_fold_uint(env, max_bitwidth, *l).unwrap(),
                    sigma,
                );
                lemma_force_reduce_consistent(
                    spec_fold_uint(env, max_bitwidth, *r).unwrap(),
                    sigma,
                );
            },
            UExpressionInner::Mult(l, r) => {
                lemma_fold_bounds_consistent(env, max_bitwidth, *l, sigma);
                lemma_fold_bounds_consistent(env, max_bitwidth, *r, sigma);
                lemma_fold_shape(env, max_bitwidth, *l);
                lemma_fold_shape(env, max_bitwidth, *r);
                lemma_force_reduce_consistent(
                    spec_fold_uint(env, max_bitwidth, *l).unwrap(),
                    sigma,
                );
                lemma_force_reduce_consistent(
                    spec_fold_uint(env, max_bitwidth, *r).unwrap(),
                    sigma,
                );
            },
            UExpressionInner::Xor(l, r) => {
                lemma_fold_bounds_consistent(env, max_bitwidth, *l, sigma);
                lemma_fold_bounds_consistent(env, max_bitwidth, *r, sigma);
                lemma_fold_shape(env, max_bitwidth, *l);
                lemma_fold_shape(env, max_bitwidth, *r);
                lemma_force_reduce_consistent(
                    spec_fold_uint(env, max_bitwidth, *l).unwrap(),
                    sigma,
                );
                lemma_force_reduce_consistent(
                    spec_fold_uint(env, max_bitwidth, *r).unwrap(),
                    sigma,
                );
            },
            UExpressionInner::And(l, r) => {
                lemma_fold_bounds_consistent(env, max_bitwidth, *l, sigma);
                lemma_fold_bounds_consistent(env, max_bitwidth, *r, sigma);
                lemma_fold_shape(env, max_bitwidth, *l);
                lemma_fold_shape(env, max_bitwidth, *r);
                lemma_force_reduce_consistent(
                    spec_fold_uint(env, max_bitwidth, *l).unwrap(),
                    sigma,
                );
                lemma_force_reduce_consistent(
                    spec_fold_uint(env, max_bitwidth, *r).unwrap(),
                    sigma,
                );
            },
            UExpressionInner::Or(l, r) => {
                lemma_fold_bounds_consistent(env, max_bitwidth, *l, sigma);
                lemma_fold_bounds_consistent(env, max_bitwidth, *r, sigma);
                lemma_fold_shape(env, max_bitwidth, *l);
                lemma_fold_shape(env, max_bitwidth, *r);
                lemma_force_reduce_consistent(
                    spec_fold_uint(env, max_bitwidth, *l).unwrap(),
                    sigma,
                );
                lemma_force_reduce_consistent(
                    spec_fold_uint(env, max_bitwidth, *r).unwrap(),
                    sigma,
                );
            },
            UExpressionInner::Not(x) => {
                lemma_fold_bounds_consistent(env, max_bitwidth, *x, sigma);
                lemma_fold_shape(env, max_bitwidth, *x);
                lemma_force_reduce_consistent(
                    spec_fold_uint(env, max_bitwidth, *x).unwrap(),
                    sigma,
                );
            },
            UExpressionInner::LeftShift(x, _) => {
                lemma_fold_bounds_consistent(env, max_bitwidth, *x, sigma);
                lemma_fold_shape(env, max_bitwidth, *x);
                lemma_force_reduce_consistent(
                    spec_fold_uint(env, max_bitwidth, *x).unwrap(),
                    sigma,
                );
            },
            UExpressionInner::RightShift(x, _) => {
                lemma_fold_bounds_consistent(env, max_bitwidth, *x, sigma);
                lemma_fold_shape(env, max_bitwidth, *x);
                lemma_force_reduce_consistent(
                    spec_fold_uint(env, max_bitwidth, *x).unwrap(),
                    sigma,
                );
            },
            UExpressionInner::IfElse(_, t, f) => {
                lemma_fold_bounds_consistent(env, max_bitwidth, *t, sigma);
                lemma_fold_bounds_consistent(env, max_bitwidth, *f, sigma);
                lemma_fold_shape(env, max_bitwidth, *t);
                lemma_fold_shape(env, max_bitwidth, *f);
            },
            _ => {},
        }
    }
}

/// Bound soundness, end to end: on any input the pass accepts, the value of
/// the rewritten tree stays below `2^bitwidth` of the bound recorded at its
/// root, for every valuation of identifiers, shift amounts and branch
/// conditions that respects the recorded identifier bounds.  Since
/// consistency is hereditary, `lemma_bounds_sound` gives the same for every
/// sub-tree of the output.
pub proof fn lemma_fold_output_bound(
    env: EnvModel,
    max_bitwidth: usize,
    e: UExpression,
    sigma: spec_fn(Seq<char>, usize) -> nat,
    phi: spec_fn(FieldExpression) -> nat,
    psi: spec_fn(BooleanExpression) -> bool,
)
    requires
        env_resolved(env),
        foldable_consistent(env, e, sigma),
        spec_fold_uint(env, max_bitwidth, e) is Ok,
    ensures
        eval(spec_fold_uint(env, max_bitwidth, e).unwrap(), sigma, phi, psi) < pow2(
            bound_of(spec_fold_uint(env, max_bitwidth, e).unwrap()),
        ),
{
    lemma_fold_bounds_consistent(env, max_bitwidth, e, sigma);
    lemma_bounds_sound(spec_fold_uint(env, max_bitwidth, e).unwrap(), sigma, phi, psi);
}

} // verus!
