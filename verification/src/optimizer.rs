//! The pass itself: a single bottom-up walk that annotates every
//! unsigned-integer expression with a bound on the bits its value can occupy
//! and decides where a reduction back into canonical range must happen.
//!
//! The behaviour of the executable walk is pinned down, node for node, by the
//! spec functions `spec_fold_uint`, `spec_fold_statement` and
//! `spec_fold_functions`; every public method's contract says that it
//! computes exactly those.

use vstd::prelude::*;

use crate::zir::expression_resolved;
use crate::zir::function_resolved;
use crate::zir::metadata_resolved;
use crate::zir::program_resolved;
use crate::zir::resolved;
use crate::zir::statement_model;
use crate::zir::statement_resolved;
use crate::zir::StatementModel;
use crate::zir::BooleanExpression;
use crate::zir::FieldExpression;
use crate::zir::Type;
use crate::zir::UExpression;
use crate::zir::UExpressionInner;
use crate::zir::UMetadata;
use crate::zir::Variable;
use crate::zir::ZirExpression;
use crate::zir::ZirFunction;
use crate::zir::ZirProgram;
use crate::zir::ZirStatement;

verus! {

/// A violated compiler invariant.  None of these is user-recoverable: each
/// reports a defect in the configuration or in an earlier pass.
#[derive(Clone, PartialEq, Eq, Debug)]
pub enum Error {
    /// The nominal width does not satisfy `range < max_bitwidth / 2`: the
    /// chosen field is too small to support even one operation on integers
    /// of this width.
    FieldTooSmall { range: usize, max_bitwidth: usize },
    /// An identifier was referenced before any definition bound it.
    UnresolvedIdentifier(String),
    /// Function calls must have been inlined away before this pass runs.
    UnexpectedFunctionCall,
}

/// The definition environment as the contracts see it: the metadata of the
/// most recent definition, keyed by binding identity (name and type).
pub type EnvModel = Map<(Seq<char>, Type), UMetadata>;

/// The bits an already-folded operand can occupy when its consumer reads it:
/// its nominal width if a reduction is pending, its recorded bound otherwise.
pub open spec fn effective_bitwidth(m: UMetadata, range: usize) -> usize
    recommends
        resolved(m),
{
    if m.should_reduce.unwrap() {
        range
    } else {
        m.bitwidth.unwrap()
    }
}

/// The node with a reduction forced upon it: the recorded bound is kept, the
/// flag is set.
pub open spec fn force_reduce(e: UExpression) -> UExpression
    recommends
        e.metadata is Some,
{
    UExpression {
        bitwidth: e.bitwidth,
        metadata: Some(
            UMetadata { bitwidth: e.metadata.unwrap().bitwidth, should_reduce: Some(true) },
        ),
        inner: e.inner,
    }
}

/// Resolved metadata for a node the pass has just computed a bound for.
pub open spec fn fresh_metadata(bitwidth: usize, should_reduce: bool) -> UMetadata {
    UMetadata { bitwidth: Some(bitwidth), should_reduce: Some(should_reduce) }
}

/// What folding an unsigned-integer expression returns, for every input the
/// pass accepts.
///
/// The order of the rules matches the pass: the width check is made first,
/// even for nodes that already carry metadata; an annotated node is then
/// returned unchanged; otherwise the operands are folded left to right (the
/// first error wins) and the operator's bound-propagation rule fires.
pub open spec fn spec_fold_uint(env: EnvModel, max_bitwidth: usize, e: UExpression) -> Result<
    UExpression,
    Error,
>
    decreases e,
{
    let range = e.bitwidth;
    if !(range < max_bitwidth / 2) {
        Err(Error::FieldTooSmall { range, max_bitwidth })
    } else if e.metadata is Some {
        Ok(e)
    } else {
        match e.inner {
            UExpressionInner::Value(v) => Ok(
                UExpression {
                    bitwidth: range,
                    metadata: Some(fresh_metadata(range, false)),
                    inner: UExpressionInner::Value(v),
                },
            ),
            UExpressionInner::Identifier(id) => if env.contains_key((id@, Type::Uint(range))) {
                Ok(
                    UExpression {
                        bitwidth: range,
                        metadata: Some(env[(id@, Type::Uint(range))]),
                        inner: UExpressionInner::Identifier(id),
                    },
                )
            } else {
                Err(Error::UnresolvedIdentifier(id))
            },
            UExpressionInner::Add(l, r) => match (
                spec_fold_uint(env, max_bitwidth, *l),
                spec_fold_uint(env, max_bitwidth, *r),
            ) {
                (Ok(lf), Ok(rf)) => Ok(
                    spec_arith_node(max_bitwidth, range, lf, rf, true, (range + 1) as usize),
                ),
                (Err(er), _) => Err(er),
                (_, Err(er)) => Err(er),
            },
            UExpressionInner::Sub(l, r) => match (
                spec_fold_uint(env, max_bitwidth, *l),
                spec_fold_uint(env, max_bitwidth, *r),
            ) {
                (Ok(lf), Ok(rf)) => Ok(
                    spec_arith_node(max_bitwidth, range, lf, rf, false, (range + 1) as usize),
                ),
                (Err(er), _) => Err(er),
                (_, Err(er)) => Err(er),
            },
            UExpressionInner::Mult(l, r) => match (
                spec_fold_uint(env, max_bitwidth, *l),
                spec_fold_uint(env, max_bitwidth, *r),
            ) {
                (Ok(lf), Ok(rf)) => Ok(spec_mult_node(max_bitwidth, range, lf, rf)),
                (Err(er), _) => Err(er),
                (_, Err(er)) => Err(er),
            },
            UExpressionInner::Xor(l, r) => match (
                spec_fold_uint(env, max_bitwidth, *l),
                spec_fold_uint(env, max_bitwidth, *r),
            ) {
                (Ok(lf), Ok(rf)) => Ok(
                    UExpression {
                        bitwidth: range,
                        metadata: Some(fresh_metadata(range, true)),
                        inner: UExpressionInner::Xor(
                            Box::new(force_reduce(lf)),
                            Box::new(force_reduce(rf)),
                        ),
                    },
                ),
                (Err(er), _) => Err(er),
                (_, Err(er)) => Err(er),
            },
            UExpressionInner::And(l, r) => match (
                spec_fold_uint(env, max_bitwidth, *l),
                spec_fold_uint(env, max_bitwidth, *r),
            ) {
                (Ok(lf), Ok(rf)) => Ok(
                    UExpression {
                        bitwidth: range,
                        metadata: Some(fresh_metadata(range, true)),
                        inner: UExpressionInner::And(
                            Box::new(force_reduce(lf)),
                            Box::new(force_reduce(rf)),
                        ),
                    },
                ),
                (Err(er), _) => Err(er),
                (_, Err(er)) => Err(er),
            },
            UExpressionInner::Or(l, r) => match (
                spec_fold_uint(env, max_bitwidth, *l),
                spec_fold_uint(env, max_bitwidth, *r),
            ) {
                (Ok(lf), Ok(rf)) => Ok(
                    UExpression {
                        bitwidth: range,
                        metadata: Some(fresh_metadata(range, true)),
                        inner: UExpressionInner::Or(
                            Box::new(force_reduce(lf)),
                            Box::new(force_reduce(rf)),
                        ),
                    },
                ),
                (Err(er), _) => Err(er),
                (_, Err(er)) => Err(er),
            },
            UExpressionInner::Not(x) => match spec_fold_uint(env, max_bitwidth, *x) {
                Ok(xf) => Ok(
                    UExpression {
                        bitwidth: range,
                        metadata: Some(fresh_metadata(range, true)),
                        inner: UExpressionInner::Not(Box::new(force_reduce(xf))),
                    },
                ),
                Err(er) => Err(er),
            },
            UExpressionInner::LeftShift(x, by) => match spec_fold_uint(env, max_bitwidth, *x) {
                Ok(xf) => Ok(
                    UExpression {
                        bitwidth: range,
                        metadata: Some(fresh_metadata(range, true)),
                        inner: UExpressionInner::LeftShift(Box::new(force_reduce(xf)), by),
                    },
                ),
                Err(er) => Err(er),
            },
            UExpressionInner::RightShift(x, by) => match spec_fold_uint(env, max_bitwidth, *x) {
                Ok(xf) => Ok(
                    UExpression {
                        bitwidth: range,
                        metadata: Some(fresh_metadata(range, true)),
                        inner: UExpressionInner::RightShift(Box::new(force_reduce(xf)), by),
                    },
                ),
                Err(er) => Err(er),
            },
            UExpressionInner::IfElse(c, t, f) => match (
                spec_fold_uint(env, max_bitwidth, *t),
                spec_fold_uint(env, max_bitwidth, *f),
            ) {
                (Ok(tf), Ok(ff)) => {
                    let tw = effective_bitwidth(tf.metadata.unwrap(), range);
                    let fw = effective_bitwidth(ff.metadata.unwrap(), range);
                    let w = if tw >= fw {
                        tw
                    } else {
                        fw
                    };
                    Ok(
                        UExpression {
                            bitwidth: range,
                            metadata: Some(fresh_metadata(w, false)),
                            inner: UExpressionInner::IfElse(c, Box::new(tf), Box::new(ff)),
                        },
                    )
                },
                (Err(er), _) => Err(er),
                (_, Err(er)) => Err(er),
            },
            UExpressionInner::FunctionCall(_, _) => Err(Error::UnexpectedFunctionCall),
        }
    }
}

/// The rewritten `Add` or `Sub` node built from its two folded operands.
/// Both grow the bound by one bit over the wider effective operand; when
/// that would pass the field's capacity, both operands are forced to reduce
/// and the bound falls back to `range + 1`.
pub open spec fn spec_arith_node(
    max_bitwidth: usize,
    range: usize,
    lf: UExpression,
    rf: UExpression,
    is_add: bool,
    fallback: usize,
) -> UExpression {
    let lw = effective_bitwidth(lf.metadata.unwrap(), range);
    let rw = effective_bitwidth(rf.metadata.unwrap(), range);
    let naive = (if lw >= rw {
        lw
    } else {
        rw
    }) + 1;
    let (lo, ro, m) = if naive > max_bitwidth {
        (force_reduce(lf), force_reduce(rf), fresh_metadata(fallback, false))
    } else {
        (lf, rf, fresh_metadata(naive as usize, false))
    };
    UExpression {
        bitwidth: range,
        metadata: Some(m),
        inner: if is_add {
            UExpressionInner::Add(Box::new(lo), Box::new(ro))
        } else {
            UExpressionInner::Sub(Box::new(lo), Box::new(ro))
        },
    }
}

/// The rewritten `Mult` node built from its two folded operands.  The bound
/// is the sum of the effective operand bounds; when that would pass the
/// field's capacity, both operands are forced to reduce and the bound falls
/// back to `2 * range`.
pub open spec fn spec_mult_node(
    max_bitwidth: usize,
    range: usize,
    lf: UExpression,
    rf: UExpression,
) -> UExpression {
    let lw = effective_bitwidth(lf.metadata.unwrap(), range);
    let rw = effective_bitwidth(rf.metadata.unwrap(), range);
    let naive = lw + rw;
    let (lo, ro, m) = if naive > max_bitwidth {
        (force_reduce(lf), force_reduce(rf), fresh_metadata((2 * range) as usize, false))
    } else {
        (lf, rf, fresh_metadata(naive as usize, false))
    };
    UExpression {
        bitwidth: range,
        metadata: Some(m),
        inner: UExpressionInner::Mult(Box::new(lo), Box::new(ro)),
    }
}

/// Every entry the environment holds is fully resolved.
pub open spec fn env_resolved(env: EnvModel) -> bool {
    forall|k: (Seq<char>, Type)| env.contains_key(k) ==> resolved(#[trigger] env[k])
}

/// The association list `entries`, read as a map: a later entry for the same
/// binding shadows an earlier one.
pub open spec fn env_map(entries: Seq<(Variable, UMetadata)>) -> EnvModel
    decreases entries.len(),
{
    if entries.len() == 0 {
        Map::empty()
    } else {
        let p = entries.last();
        env_map(entries.drop_last()).insert((p.0.name@, p.0.ty), p.1)
    }
}

proof fn lemma_env_map_last_match(entries: Seq<(Variable, UMetadata)>, i: int)
    requires
        0 <= i < entries.len(),
        forall|j: int|
            i < j < entries.len() ==> ((#[trigger] entries[j]).0.name@, entries[j].0.ty) != (
                entries[i].0.name@,
                entries[i].0.ty,
            ),
    ensures
        env_map(entries).contains_key((entries[i].0.name@, entries[i].0.ty)),
        env_map(entries)[(entries[i].0.name@, entries[i].0.ty)] == entries[i].1,
    decreases entries.len(),
{
    if i < entries.len() - 1 {
        assert(entries.drop_last()[i] == entries[i]);
        lemma_env_map_last_match(entries.drop_last(), i);
    }
}

proof fn lemma_env_map_no_match(entries: Seq<(Variable, UMetadata)>, k: (Seq<char>, Type))
    requires
        forall|j: int|
            0 <= j < entries.len() ==> ((#[trigger] entries[j]).0.name@, entries[j].0.ty) != k,
    ensures
        !env_map(entries).contains_key(k),
    decreases entries.len(),
{
    if entries.len() > 0 {
        lemma_env_map_no_match(entries.drop_last(), k);
    }
}

/// The pass: a definition environment plus the field's capacity, against
/// which every bound is checked.
pub struct UintOptimizer {
    ids: Vec<(Variable, UMetadata)>,
    max_bitwidth: usize,
}

impl UintOptimizer {
    /// The definition environment this instance has accumulated.
    pub closed spec fn env(self) -> EnvModel {
        env_map(self.ids@)
    }

    /// The largest bit-count a value may occupy: one less than the bits of
    /// the field's modulus, so that one extra bit of headroom per operation
    /// stays sound.
    pub closed spec fn spec_max_bitwidth(self) -> usize {
        self.max_bitwidth
    }

    /// Everything the environment holds is fully resolved metadata.
    pub open spec fn inv(self) -> bool {
        env_resolved(self.env())
    }

    /// A fresh pass over a field whose modulus needs `required_bits` bits.
    pub fn new(required_bits: usize) -> (r: UintOptimizer)
        requires
            required_bits >= 1,
        ensures
            r.env() == Map::<(Seq<char>, Type), UMetadata>::empty(),
            r.spec_max_bitwidth() == required_bits - 1,
            r.inv(),
    {
        UintOptimizer { ids: Vec::new(), max_bitwidth: required_bits - 1 }
    }

    /// The metadata of the most recent definition of the unsigned-integer
    /// binding `name` of width `width`, if any.
    fn lookup(&self, name: &String, width: usize) -> (r: Option<UMetadata>)
        ensures
            match r {
                Some(m) => self.env().contains_key((name@, Type::Uint(width))) && m == self.env()[(
                    name@,
                    Type::Uint(width),
                )],
                None => !self.env().contains_key((name@, Type::Uint(width))),
            },
    {
        let ghost key = (name@, Type::Uint(width));
        let mut i: usize = self.ids.len();
        while i > 0
            invariant
                i <= self.ids@.len(),
                key == (name@, Type::Uint(width)),
                forall|j: int|
                    i <= j < self.ids@.len() ==> ((#[trigger] self.ids@[j]).0.name@,
                    self.ids@[j].0.ty) != key,
            decreases i,
        {
            i = i - 1;
            let v = &self.ids[i].0;
            if v.name == *name && v.ty == Type::Uint(width) {
                proof {
                    assert((self.ids@[i as int].0.name@, self.ids@[i as int].0.ty) == key);
                    lemma_env_map_last_match(self.ids@, i as int);
                }
                return Some(self.ids[i].1);
            }
            proof {
                assert((self.ids@[i as int].0.name@, self.ids@[i as int].0.ty) != key);
            }
        }
        proof {
            lemma_env_map_no_match(self.ids@, key);
        }
        None
    }

    /// Record the metadata a definition just computed.  Only integer-kind
    /// definitions enter the environment.
    fn register(&mut self, a: Variable, e: &ZirExpression)
        requires
            *e matches ZirExpression::Uint(u) ==> u.metadata is Some && resolved(
                u.metadata.unwrap(),
            ),
        ensures
            final(self).env() == spec_register(old(self).env(), a, *e),
            final(self).spec_max_bitwidth() == old(self).spec_max_bitwidth(),
            old(self).inv() ==> final(self).inv(),
    {
        match e {
            ZirExpression::Uint(u) => {
                let m = u.metadata.unwrap();
                self.ids.push((a, m));
                proof {
                    assert(self.ids@.drop_last() =~= old(self).ids@);
                    assert(self.env() =~= old(self).env().insert((a.name@, a.ty), m));
                }
            },
            _ => {},
        }
    }
}

/// The bits a folded operand can occupy when consumed, per its annotation.
fn effective_width(m: UMetadata, range: usize) -> (r: usize)
    requires
        resolved(m),
    ensures
        r == effective_bitwidth(m, range),
{
    if m.should_reduce.unwrap() {
        range
    } else {
        m.bitwidth.unwrap()
    }
}

/// Force a pending reduction onto an already-folded node.
fn mark_for_reduction(e: UExpression) -> (r: UExpression)
    requires
        e.metadata is Some,
    ensures
        r == force_reduce(e),
{
    let UExpression { bitwidth, metadata, inner } = e;
    let m = metadata.unwrap();
    UExpression {
        bitwidth,
        metadata: Some(UMetadata { bitwidth: m.bitwidth, should_reduce: Some(true) }),
        inner,
    }
}

impl UintOptimizer {
    /// Fold one unsigned-integer expression: fold its operands bottom-up,
    /// then apply the operator's bound-propagation rule.  Computes exactly
    /// `spec_fold_uint`; in particular an already-annotated node is returned
    /// unchanged.
    pub fn fold_uint_expression(&self, e: UExpression) -> (r: Result<UExpression, Error>)
        requires
            self.inv(),
            metadata_resolved(e),
        ensures
            r == spec_fold_uint(self.env(), self.spec_max_bitwidth(), e),
            r matches Ok(o) ==> o.bitwidth == e.bitwidth && o.metadata is Some && resolved(
                o.metadata.unwrap(),
            ),
        decreases e,
    {
        let range = e.bitwidth;
        if !(range < self.max_bitwidth / 2) {
            return Err(Error::FieldTooSmall { range, max_bitwidth: self.max_bitwidth });
        }
        if e.metadata.is_some() {
            return Ok(e);
        }
        let UExpression { inner, .. } = e;
        match inner {
            UExpressionInner::Value(v) => Ok(
                UExpression {
                    bitwidth: range,
                    metadata: Some(
                        UMetadata { bitwidth: Some(range), should_reduce: Some(false) },
                    ),
                    inner: UExpressionInner::Value(v),
                },
            ),
            UExpressionInner::Identifier(id) => match self.lookup(&id, range) {
                Some(m) => Ok(
                    UExpression {
                        bitwidth: range,
                        metadata: Some(m),
                        inner: UExpressionInner::Identifier(id),
                    },
                ),
                None => Err(Error::UnresolvedIdentifier(id)),
            },
            UExpressionInner::Add(l, r) => {
                let lf = match self.fold_uint_expression(*l) {
                    Ok(x) => x,
                    Err(er) => return Err(er),
                };
                let rf = match self.fold_uint_expression(*r) {
                    Ok(x) => x,
                    Err(er) => return Err(er),
                };
                let lw = effective_width(lf.metadata.unwrap(), range);
                let rw = effective_width(rf.metadata.unwrap(), range);
                let mx = if lw >= rw {
                    lw
                } else {
                    rw
                };
                if mx >= self.max_bitwidth {
                    Ok(
                        UExpression {
                            bitwidth: range,
                            metadata: Some(
                                UMetadata {
                                    bitwidth: Some(range + 1),
                                    should_reduce: Some(false),
                                },
                            ),
                            inner: UExpressionInner::Add(
                                Box::new(mark_for_reduction(lf)),
                                Box::new(mark_for_reduction(rf)),
                            ),
                        },
                    )
                } else {
                    Ok(
                        UExpression {
                            bitwidth: range,
                            metadata: Some(
                                UMetadata { bitwidth: Some(mx + 1), should_reduce: Some(false) },
                            ),
                            inner: UExpressionInner::Add(Box::new(lf), Box::new(rf)),
                        },
                    )
                }
            },
            UExpressionInner::Sub(l, r) => {
                let lf = match self.fold_uint_expression(*l) {
                    Ok(x) => x,
                    Err(er) => return Err(er),
                };
                let rf = match self.fold_uint_expression(*r) {
                    Ok(x) => x,
                    Err(er) => return Err(er),
                };
                let lw = effective_width(lf.metadata.unwrap(), range);
                let rw = effective_width(rf.metadata.unwrap(), range);
                let mx = if lw >= rw {
                    lw
                } else {
                    rw
                };
                if mx >= self.max_bitwidth {
                    Ok(
                        UExpression {
                            bitwidth: range,
                            metadata: Some(
                                UMetadata {
                                    bitwidth: Some(range + 1),
                                    should_reduce: Some(false),
                                },
                            ),
                            inner: UExpressionInner::Sub(
                                Box::new(mark_for_reduction(lf)),
                                Box::new(mark_for_reduction(rf)),
                            ),
                        },
                    )
                } else {
                    Ok(
                        UExpression {
                            bitwidth: range,
                            metadata: Some(
                                UMetadata { bitwidth: Some(mx + 1), should_reduce: Some(false) },
                            ),
                            inner: UExpressionInner::Sub(Box::new(lf), Box::new(rf)),
                        },
                    )
                }
            },
            UExpressionInner::Mult(l, r) => {
                let lf = match self.fold_uint_expression(*l) {
                    Ok(x) => x,
                    Err(er) => return Err(er),
                };
                let rf = match self.fold_uint_expression(*r) {
                    Ok(x) => x,
                    Err(er) => return Err(er),
                };
                let lw = effective_width(lf.metadata.unwrap(), range);
                let rw = effective_width(rf.metadata.unwrap(), range);
                if (lw as u128) + (rw as u128) > (self.max_bitwidth as u128) {
                    Ok(
                        UExpression {
                            bitwidth: range,
                            metadata: Some(
                                UMetadata {
                                    bitwidth: Some(2 * range),
                                    should_reduce: Some(false),
                                },
                            ),
                            inner: UExpressionInner::Mult(
                                Box::new(mark_for_reduction(lf)),
                                Box::new(mark_for_reduction(rf)),
                            ),
                        },
                    )
                } else {
                    Ok(
                        UExpression {
                            bitwidth: range,
                            metadata: Some(
                                UMetadata { bitwidth: Some(lw + rw), should_reduce: Some(false) },
                            ),
                            inner: UExpressionInner::Mult(Box::new(lf), Box::new(rf)),
                        },
                    )
                }
            },
            UExpressionInner::Xor(l, r) => {
                let lf = match self.fold_uint_expression(*l) {
                    Ok(x) => x,
                    Err(er) => return Err(er),
                };
                let rf = match self.fold_uint_expression(*r) {
                    Ok(x) => x,
                    Err(er) => return Err(er),
                };
                Ok(
                    UExpression {
                        bitwidth: range,
                        metadata: Some(
                            UMetadata { bitwidth: Some(range), should_reduce: Some(true) },
                        ),
                        inner: UExpressionInner::Xor(
                            Box::new(mark_for_reduction(lf)),
                            Box::new(mark_for_reduction(rf)),
                        ),
                    },
                )
            },
            UExpressionInner::And(l, r) => {
                let lf = match self.fold_uint_expression(*l) {
                    Ok(x) => x,
                    Err(er) => return Err(er),
                };
                let rf = match self.fold_uint_expression(*r) {
                    Ok(x) => x,
                    Err(er) => return Err(er),
                };
                Ok(
                    UExpression {
                        bitwidth: range,
                        metadata: Some(
                            UMetadata { bitwidth: Some(range), should_reduce: Some(true) },
                        ),
                        inner: UExpressionInner::And(
                            Box::new(mark_for_reduction(lf)),
                            Box::new(mark_for_reduction(rf)),
                        ),
                    },
                )
            },
            UExpressionInner::Or(l, r) => {
                let lf = match self.fold_uint_expression(*l) {
                    Ok(x) => x,
                    Err(er) => return Err(er),
                };
                let rf = match self.fold_uint_expression(*r) {
                    Ok(x) => x,
                    Err(er) => return Err(er),
                };
                Ok(
                    UExpression {
                        bitwidth: range,
                        metadata: Some(
                            UMetadata { bitwidth: Some(range), should_reduce: Some(true) },
                        ),
                        inner: UExpressionInner::Or(
                            Box::new(mark_for_reduction(lf)),
                            Box::new(mark_for_reduction(rf)),
                        ),
                    },
                )
            },
            UExpressionInner::Not(x) => {
                let xf = match self.fold_uint_expression(*x) {
                    Ok(y) => y,
                    Err(er) => return Err(er),
                };
                Ok(
                    UExpression {
                        bitwidth: range,
                        metadata: Some(
                            UMetadata { bitwidth: Some(range), should_reduce: Some(true) },
                        ),
                        inner: UExpressionInner::Not(Box::new(mark_for_reduction(xf))),
                    },
                )
            },
            UExpressionInner::LeftShift(x, by) => {
                let xf = match self.fold_uint_expression(*x) {
                    Ok(y) => y,
                    Err(er) => return Err(er),
                };
                let by = self.fold_field_expression(*by);
                Ok(
                    UExpression {
                        bitwidth: range,
                        metadata: Some(
                            UMetadata { bitwidth: Some(range), should_reduce: Some(true) },
                        ),
                        inner: UExpressionInner::LeftShift(
                            Box::new(mark_for_reduction(xf)),
                            Box::new(by),
                        ),
                    },
                )
            },
            UExpressionInner::RightShift(x, by) => {
                let xf = match self.fold_uint_expression(*x) {
                    Ok(y) => y,
                    Err(er) => return Err(er),
                };
                let by = self.fold_field_expression(*by);
                Ok(
                    UExpression {
                        bitwidth: range,
                        metadata: Some(
                            UMetadata { bitwidth: Some(range), should_reduce: Some(true) },
                        ),
                        inner: UExpressionInner::RightShift(
                            Box::new(mark_for_reduction(xf)),
                            Box::new(by),
                        ),
                    },
                )
            },
            UExpressionInner::IfElse(c, t, f) => {
                let tf = match self.fold_uint_expression(*t) {
                    Ok(y) => y,
                    Err(er) => return Err(er),
                };
                let ff = match self.fold_uint_expression(*f) {
                    Ok(y) => y,
                    Err(er) => return Err(er),
                };
                let tw = effective_width(tf.metadata.unwrap(), range);
                let fw = effective_width(ff.metadata.unwrap(), range);
                let w = if tw >= fw {
                    tw
                } else {
                    fw
                };
                Ok(
                    UExpression {
                        bitwidth: range,
                        metadata: Some(
                            UMetadata { bitwidth: Some(w), should_reduce: Some(false) },
                        ),
                        inner: UExpressionInner::IfElse(c, Box::new(tf), Box::new(ff)),
                    },
                )
            },
            UExpressionInner::FunctionCall(..) => Err(Error::UnexpectedFunctionCall),
        }
    }

    /// Field expressions are outside the integer-bound scheme: the generic
    /// traversal rewrites them structurally, which is the identity here.
    pub fn fold_field_expression(&self, e: FieldExpression) -> (r: FieldExpression)
        ensures
            r == e,
    {
        e
    }

    /// Boolean expressions are outside the integer-bound scheme: the generic
    /// traversal rewrites them structurally, which is the identity here.
    pub fn fold_boolean_expression(&self, e: BooleanExpression) -> (r: BooleanExpression)
        ensures
            r == e,
    {
        e
    }
}

/// How a definition extends the environment: an integer-kind right-hand side
/// is recorded under the assignee's binding; any other kind is not.
pub open spec fn spec_register(env: EnvModel, a: Variable, e: ZirExpression) -> EnvModel {
    match e {
        ZirExpression::Uint(u) => env.insert((a.name@, a.ty), u.metadata.unwrap()),
        _ => env,
    }
}

/// What folding an expression of any kind returns: an integer-kind
/// expression goes through `spec_fold_uint`; the other kinds are outside
/// this pass and pass through unchanged.
pub open spec fn spec_fold_expression(env: EnvModel, max_bitwidth: usize, e: ZirExpression) -> Result<
    ZirExpression,
    Error,
> {
    match e {
        ZirExpression::Uint(u) => match spec_fold_uint(env, max_bitwidth, u) {
            Ok(u2) => Ok(ZirExpression::Uint(u2)),
            Err(er) => Err(er),
        },
        other => Ok(other),
    }
}

/// What folding one returned expression gives: an integer-kind value is
/// folded and then unconditionally marked for reduction — canonical form is
/// owed at the function boundary; other kinds pass through unchanged.
pub open spec fn spec_fold_return_expression(
    env: EnvModel,
    max_bitwidth: usize,
    e: ZirExpression,
) -> Result<ZirExpression, Error> {
    match e {
        ZirExpression::Uint(u) => match spec_fold_uint(env, max_bitwidth, u) {
            Ok(u2) => Ok(ZirExpression::Uint(force_reduce(u2))),
            Err(er) => Err(er),
        },
        other => Ok(other),
    }
}

/// Folding a whole return list, left to right; the first error wins.
pub open spec fn spec_fold_return_list(
    env: EnvModel,
    max_bitwidth: usize,
    es: Seq<ZirExpression>,
) -> Result<Seq<ZirExpression>, Error>
    decreases es.len(),
{
    if es.len() == 0 {
        Ok(Seq::empty())
    } else {
        match spec_fold_return_expression(env, max_bitwidth, es[0]) {
            Ok(e2) => match spec_fold_return_list(env, max_bitwidth, es.drop_first()) {
                Ok(rest) => Ok(seq![e2] + rest),
                Err(er) => Err(er),
            },
            Err(er) => Err(er),
        }
    }
}

/// What folding one statement returns: the environment afterwards and the
/// models of the statements that replace it.  A definition folds its
/// right-hand side and records integer-kind metadata under the assignee; a
/// return folds every returned value and forces it into canonical form;
/// every other statement is left to the generic traversal.
pub open spec fn spec_fold_statement(env: EnvModel, max_bitwidth: usize, s: ZirStatement) -> Result<
    (EnvModel, Seq<StatementModel>),
    Error,
> {
    match s {
        ZirStatement::Definition(a, e) => match spec_fold_expression(env, max_bitwidth, e) {
            Ok(e2) => Ok(
                (spec_register(env, a, e2), seq![StatementModel::Definition(a, e2)]),
            ),
            Err(er) => Err(er),
        },
        ZirStatement::Return(es) => match spec_fold_return_list(env, max_bitwidth, es@) {
            Ok(es2) => Ok((env, seq![StatementModel::Return(es2)])),
            Err(er) => Err(er),
        },
        other => Ok((env, seq![statement_model(other)])),
    }
}

/// Folding a statement list in order, threading the environment through.
/// The pair holds the environment reached when the fold stops — also on
/// error, where the second component carries the error instead of the
/// models.
pub open spec fn spec_fold_statements(env: EnvModel, max_bitwidth: usize, ss: Seq<ZirStatement>) -> (
    EnvModel,
    Result<Seq<StatementModel>, Error>,
)
    decreases ss.len(),
{
    if ss.len() == 0 {
        (env, Ok(Seq::empty()))
    } else {
        match spec_fold_statement(env, max_bitwidth, ss[0]) {
            Ok(step) => {
                let (env2, rest) = spec_fold_statements(step.0, max_bitwidth, ss.drop_first());
                (
                    env2,
                    match rest {
                        Ok(restv) => Ok(step.1 + restv),
                        Err(er) => Err(er),
                    },
                )
            },
            Err(er) => (env, Err(er)),
        }
    }
}

/// Folding a function list in order.  The environment is threaded across
/// function boundaries: bindings are globally unique in this representation,
/// so entries are never removed.
pub open spec fn spec_fold_functions(env: EnvModel, max_bitwidth: usize, fs: Seq<ZirFunction>) -> (
    EnvModel,
    Result<Seq<Seq<StatementModel>>, Error>,
)
    decreases fs.len(),
{
    if fs.len() == 0 {
        (env, Ok(Seq::empty()))
    } else {
        let (env1, r0) = spec_fold_statements(env, max_bitwidth, fs[0].statements@);
        match r0 {
            Ok(models0) => {
                let (env2, rrest) = spec_fold_functions(env1, max_bitwidth, fs.drop_first());
                (
                    env2,
                    match rrest {
                        Ok(rest) => Ok(seq![models0] + rest),
                        Err(er) => Err(er),
                    },
                )
            },
            Err(er) => (env1, Err(er)),
        }
    }
}

/// The models of a function's statements.
pub open spec fn function_models(g: ZirFunction) -> Seq<StatementModel> {
    g.statements@.map_values(|st: ZirStatement| statement_model(st))
}

/// `out` is `orig` rewritten: same name, same parameters, and its body's
/// models are exactly `body`.
pub open spec fn function_rewritten(orig: ZirFunction, out: ZirFunction, body: Seq<StatementModel>) -> bool {
    &&& out.id == orig.id
    &&& out.arguments == orig.arguments
    &&& function_models(out) == body
}

impl UintOptimizer {
    /// Fold an expression of any kind, as the definition and return hooks
    /// see it.  Computes exactly `spec_fold_expression`.
    pub fn fold_expression(&self, e: ZirExpression) -> (r: Result<ZirExpression, Error>)
        requires
            self.inv(),
            expression_resolved(e),
        ensures
            r == spec_fold_expression(self.env(), self.spec_max_bitwidth(), e),
            r matches Ok(o) ==> (o matches ZirExpression::Uint(u) ==> u.metadata is Some
                && resolved(u.metadata.unwrap())),
    {
        match e {
            ZirExpression::Uint(u) => match self.fold_uint_expression(u) {
                Ok(u2) => Ok(ZirExpression::Uint(u2)),
                Err(er) => Err(er),
            },
            other => Ok(other),
        }
    }

    /// Fold one statement.  A `Definition` folds its right-hand side and
    /// registers integer-kind metadata under the assignee; a `Return` folds
    /// every returned value and then unconditionally marks the integer-kind
    /// ones for reduction; everything else is left to the generic traversal.
    /// Computes exactly `spec_fold_statement`.
    #[verifier::loop_isolation(false)]
    pub fn fold_statement(&mut self, s: ZirStatement) -> (r: Result<Vec<ZirStatement>, Error>)
        requires
            old(self).inv(),
            statement_resolved(s),
        ensures
            final(self).spec_max_bitwidth() == old(self).spec_max_bitwidth(),
            final(self).inv(),
            match spec_fold_statement(old(self).env(), old(self).spec_max_bitwidth(), s) {
                Ok(step) => {
                    &&& r matches Ok(out)
                    &&& final(self).env() == step.0
                    &&& out@.map_values(|st: ZirStatement| statement_model(st)) == step.1
                },
                Err(er) => r == Err::<Vec<ZirStatement>, Error>(er) && final(self).env() == old(
                    self,
                ).env(),
            },
    {
        match s {
            ZirStatement::Definition(a, e) => {
                let e2 = match self.fold_expression(e) {
                    Ok(x) => x,
                    Err(er) => return Err(er),
                };
                let a2 = Variable { name: a.name.clone(), ty: a.ty };
                self.register(a2, &e2);
                let mut out: Vec<ZirStatement> = Vec::new();
                out.push(ZirStatement::Definition(a, e2));
                proof {
                    assert(out@.map_values(|st: ZirStatement| statement_model(st))
                        =~= seq![StatementModel::Definition(a, e2)]);
                }
                Ok(out)
            },
            ZirStatement::Return(es) => {
                let mut es = es;
                let ghost es0 = es@;
                let mut out: Vec<ZirExpression> = Vec::new();
                proof {
                    assert(out@ + spec_fold_return_list(
                        self.env(),
                        self.spec_max_bitwidth(),
                        es0,
                    ).unwrap() =~= spec_fold_return_list(
                        self.env(),
                        self.spec_max_bitwidth(),
                        es0,
                    ).unwrap());
                }
                while es.len() > 0
                    invariant
                        self == old(self),
                        self.inv(),
                        forall|i: int| 0 <= i < es@.len() ==> expression_resolved(
                            #[trigger] es@[i],
                        ),
                        spec_fold_return_list(self.env(), self.spec_max_bitwidth(), es0) == (
                        match spec_fold_return_list(self.env(), self.spec_max_bitwidth(), es@) {
                            Ok(rest) => Ok::<Seq<ZirExpression>, Error>(out@ + rest),
                            Err(er) => Err::<Seq<ZirExpression>, Error>(er),
                        }),
                    decreases es.len(),
                {
                    let ghost es_before = es@;
                    let ghost out_before = out@;
                    let head = es.remove(0);
                    match head {
                        ZirExpression::Uint(u) => {
                            let u2 = match self.fold_uint_expression(u) {
                                Ok(x) => x,
                                Err(er) => return Err(er),
                            };
                            out.push(ZirExpression::Uint(mark_for_reduction(u2)));
                        },
                        other => {
                            out.push(other);
                        },
                    }
                    proof {
                        assert(es@ =~= es_before.drop_first());
                        let mbw = self.spec_max_bitwidth();
                        let folded_head = spec_fold_return_expression(
                            self.env(),
                            mbw,
                            es_before[0],
                        );
                        assert(out@ =~= out_before.push(folded_head.unwrap()));
                        match spec_fold_return_list(self.env(), mbw, es@) {
                            Ok(rest) => {
                                assert(out_before + (seq![folded_head.unwrap()] + rest) =~= out@
                                    + rest);
                            },
                            Err(_) => {},
                        }
                    }
                }
                let mut outs: Vec<ZirStatement> = Vec::new();
                outs.push(ZirStatement::Return(out));
                proof {
                    let mbw = self.spec_max_bitwidth();
                    assert(out@ + Seq::<ZirExpression>::empty() =~= out@);
                    assert(spec_fold_return_list(self.env(), mbw, es0) == Ok::<
                        Seq<ZirExpression>,
                        Error,
                    >(out@));
                    assert(outs@.map_values(|st: ZirStatement| statement_model(st))
                        =~= seq![StatementModel::Return(out@)]);
                }
                Ok(outs)
            },
            ZirStatement::Assertion(b) => {
                let b = self.fold_boolean_expression(b);
                let mut out: Vec<ZirStatement> = Vec::new();
                out.push(ZirStatement::Assertion(b));
                proof {
                    assert(out@.map_values(|st: ZirStatement| statement_model(st))
                        =~= seq![StatementModel::Assertion(b)]);
                }
                Ok(out)
            },
        }
    }

    /// Fold a function's statements in order, threading the environment.
    #[verifier::loop_isolation(false)]
    pub fn fold_function(&mut self, f: ZirFunction) -> (r: Result<ZirFunction, Error>)
        requires
            old(self).inv(),
            function_resolved(f),
        ensures
            final(self).spec_max_bitwidth() == old(self).spec_max_bitwidth(),
            final(self).inv(),
            ({
                let step = spec_fold_statements(
                    old(self).env(),
                    old(self).spec_max_bitwidth(),
                    f.statements@,
                );
                &&& final(self).env() == step.0
                &&& match step.1 {
                    Ok(models) => r matches Ok(g) && g.id == f.id && g.arguments == f.arguments
                        && function_models(g) == models,
                    Err(er) => r == Err::<ZirFunction, Error>(er),
                }
            }),
    {
        let ZirFunction { id, arguments, statements } = f;
        let mut ss = statements;
        let ghost ss0 = ss@;
        let ghost env0 = self.env();
        let ghost mbw = self.spec_max_bitwidth();
        let mut out: Vec<ZirStatement> = Vec::new();
        proof {
            match spec_fold_statements(env0, mbw, ss0).1 {
                Ok(models) => {
                    assert(out@.map_values(|st: ZirStatement| statement_model(st)) + models
                        =~= models);
                },
                Err(_) => {},
            }
        }
        while ss.len() > 0
            invariant
                self.spec_max_bitwidth() == mbw,
                mbw == old(self).spec_max_bitwidth(),
                self.inv(),
                forall|i: int| 0 <= i < ss@.len() ==> statement_resolved(#[trigger] ss@[i]),
                spec_fold_statements(env0, mbw, ss0) == ({
                    let step = spec_fold_statements(self.env(), mbw, ss@);
                    (
                        step.0,
                        match step.1 {
                            Ok(rest) => Ok::<Seq<StatementModel>, Error>(
                                out@.map_values(|st: ZirStatement| statement_model(st)) + rest,
                            ),
                            Err(er) => Err::<Seq<StatementModel>, Error>(er),
                        },
                    )
                }),
            decreases ss.len(),
        {
            let ghost ss_before = ss@;
            let ghost out_before = out@;
            let ghost env_before = self.env();
            let head = ss.remove(0);
            let mut folded = match self.fold_statement(head) {
                Ok(x) => x,
                Err(er) => return Err(er),
            };
            out.append(&mut folded);
            proof {
                assert(ss@ =~= ss_before.drop_first());
                let step = spec_fold_statement(env_before, mbw, ss_before[0]);
                let models0 = step.unwrap().1;
                let f = |st: ZirStatement| statement_model(st);
                assert(out@.map_values(f) =~= out_before.map_values(f) + models0);
                match spec_fold_statements(self.env(), mbw, ss@).1 {
                    Ok(rest) => {
                        assert(out_before.map_values(f) + (models0 + rest) =~= out@.map_values(f)
                            + rest);
                    },
                    Err(_) => {},
                }
            }
        }
        proof {
            let f = |st: ZirStatement| statement_model(st);
            assert(out@.map_values(f) + Seq::<StatementModel>::empty() =~= out@.map_values(f));
        }
        Ok(ZirFunction { id, arguments, statements: out })
    }

    /// Fold a whole program: every function's statements in order, the
    /// environment persisting across function boundaries.
    #[verifier::loop_isolation(false)]
    pub fn fold_program(&mut self, p: ZirProgram) -> (r: Result<ZirProgram, Error>)
        requires
            old(self).inv(),
            program_resolved(p),
        ensures
            final(self).spec_max_bitwidth() == old(self).spec_max_bitwidth(),
            final(self).inv(),
            ({
                let step = spec_fold_functions(
                    old(self).env(),
                    old(self).spec_max_bitwidth(),
                    p.functions@,
                );
                &&& final(self).env() == step.0
                &&& match step.1 {
                    Ok(bodies) => {
                        &&& r matches Ok(q)
                        &&& q.functions@.len() == p.functions@.len()
                        &&& forall|i: int| 0 <= i < p.functions@.len() ==> function_rewritten(
                            p.functions@[i],
                            #[trigger] q.functions@[i],
                            bodies[i],
                        )
                    },
                    Err(er) => r == Err::<ZirProgram, Error>(er),
                }
            }),
    {
        let ZirProgram { functions } = p;
        let mut fs = functions;
        let ghost fs0 = fs@;
        let ghost env0 = self.env();
        let ghost mbw = self.spec_max_bitwidth();
        let mut out: Vec<ZirFunction> = Vec::new();
        proof {
            match spec_fold_functions(env0, mbw, fs0).1 {
                Ok(bodies) => {
                    assert(out@.map_values(|g: ZirFunction| function_models(g)) + bodies
                        =~= bodies);
                },
                Err(_) => {},
            }
        }
        while fs.len() > 0
            invariant
                self.spec_max_bitwidth() == mbw,
                mbw == old(self).spec_max_bitwidth(),
                self.inv(),
                forall|i: int| 0 <= i < fs@.len() ==> function_resolved(#[trigger] fs@[i]),
                out@.len() + fs@.len() == fs0.len(),
                fs@ =~= fs0.skip(out@.len() as int),
                forall|i: int| 0 <= i < out@.len() ==> (#[trigger] out@[i]).id == fs0[i].id
                    && out@[i].arguments == fs0[i].arguments,
                spec_fold_functions(env0, mbw, fs0) == ({
                    let step = spec_fold_functions(self.env(), mbw, fs@);
                    (
                        step.0,
                        match step.1 {
                            Ok(rest) => Ok::<Seq<Seq<StatementModel>>, Error>(
                                out@.map_values(|g: ZirFunction| function_models(g)) + rest,
                            ),
                            Err(er) => Err::<Seq<Seq<StatementModel>>, Error>(er),
                        },
                    )
                }),
            decreases fs.len(),
        {
            let ghost fs_before = fs@;
            let ghost out_before = out@;
            let ghost env_before = self.env();
            let head = fs.remove(0);
            let g = match self.fold_function(head) {
                Ok(x) => x,
                Err(er) => return Err(er),
            };
            out.push(g);
            proof {
                assert(fs@ =~= fs_before.drop_first());
                let step = spec_fold_statements(env_before, mbw, fs_before[0].statements@);
                let models0 = step.1.unwrap();
                let fm = |g: ZirFunction| function_models(g);
                assert(out@.map_values(fm) =~= out_before.map_values(fm) + seq![models0]);
                match spec_fold_functions(self.env(), mbw, fs@).1 {
                    Ok(rest) => {
                        assert(out_before.map_values(fm) + (seq![models0] + rest)
                            =~= out@.map_values(fm) + rest);
                    },
                    Err(_) => {},
                }
                assert(fs@ =~= fs0.skip(out@.len() as int));
            }
        }
        proof {
            let fm = |g: ZirFunction| function_models(g);
            assert(out@.map_values(fm) + Seq::<Seq<StatementModel>>::empty() =~= out@.map_values(
                fm,
            ));
            assert(fs0.skip(out@.len() as int) =~= fs@);
        }
        Ok(ZirProgram { functions: out })
    }

    /// Run the pass over a whole program, for a field whose modulus needs
    /// `required_bits` bits: fold every function's statement list in order
    /// with one fresh environment.
    pub fn optimize(required_bits: usize, p: ZirProgram) -> (r: Result<ZirProgram, Error>)
        requires
            required_bits >= 1,
            program_resolved(p),
        ensures
            ({
                let step = spec_fold_functions(
                    Map::empty(),
                    (required_bits - 1) as usize,
                    p.functions@,
                );
                match step.1 {
                    Ok(bodies) => {
                        &&& r matches Ok(q)
                        &&& q.functions@.len() == p.functions@.len()
                        &&& forall|i: int| 0 <= i < p.functions@.len() ==> function_rewritten(
                            p.functions@[i],
                            #[trigger] q.functions@[i],
                            bodies[i],
                        )
                    },
                    Err(er) => r == Err::<ZirProgram, Error>(er),
                }
            }),
    {
        let mut opt = UintOptimizer::new(required_bits);
        opt.fold_program(p)
    }
}

} // verus!
