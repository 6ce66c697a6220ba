// The statement hooks and the whole-program driver: definitions feed the
// environment, returns force canonical form, and the environment persists
// across function boundaries.

use uint_optimizer::optimizer::Error;
use uint_optimizer::optimizer::UintOptimizer;
use uint_optimizer::zir::BooleanExpression;
use uint_optimizer::zir::Type;
use uint_optimizer::zir::UExpression;
use uint_optimizer::zir::UExpressionInner;
use uint_optimizer::zir::UMetadata;
use uint_optimizer::zir::Variable;
use uint_optimizer::zir::ZirExpression;
use uint_optimizer::zir::ZirFunction;
use uint_optimizer::zir::ZirProgram;
use uint_optimizer::zir::ZirStatement;

const FIELD_BITS: usize = 254;

fn meta(bitwidth: usize, should_reduce: bool) -> UMetadata {
    UMetadata { bitwidth: Some(bitwidth), should_reduce: Some(should_reduce) }
}

fn value(v: u128, range: usize) -> UExpression {
    UExpressionInner::Value(v).annotate(range)
}

fn ident(name: &str, range: usize) -> UExpression {
    UExpressionInner::Identifier(name.into()).annotate(range)
}

fn add(l: UExpression, r: UExpression, range: usize) -> UExpression {
    UExpressionInner::Add(Box::new(l), Box::new(r)).annotate(range)
}

#[test]
fn definition_then_use_resolves_metadata() {
    // a := 3, then b := a + a: `a` resolves to bitwidth 8, no pending
    // reduction; the addition gets bound 9 and no reduction either.
    let mut optimizer = UintOptimizer::new(FIELD_BITS + 1);

    let def_a = ZirStatement::Definition(
        Variable::uint("a".into(), 8),
        ZirExpression::Uint(value(3, 8)),
    );
    let out = optimizer.fold_statement(def_a).unwrap();
    assert_eq!(out.len(), 1);
    match &out[0] {
        ZirStatement::Definition(a, ZirExpression::Uint(e)) => {
            assert_eq!(a, &Variable::uint("a".into(), 8));
            assert_eq!(e.metadata, Some(meta(8, false)));
        }
        other => panic!("expected a definition, got {:?}", other),
    }

    let def_b = ZirStatement::Definition(
        Variable::uint("b".into(), 8),
        ZirExpression::Uint(add(ident("a", 8), ident("a", 8), 8)),
    );
    let out = optimizer.fold_statement(def_b).unwrap();
    match &out[0] {
        ZirStatement::Definition(_, ZirExpression::Uint(e)) => {
            assert_eq!(e.metadata, Some(meta(9, false)));
            match &e.inner {
                UExpressionInner::Add(l, r) => {
                    assert_eq!(l.metadata, Some(meta(8, false)));
                    assert_eq!(r.metadata, Some(meta(8, false)));
                }
                other => panic!("expected an addition, got {:?}", other),
            }
        }
        other => panic!("expected a definition, got {:?}", other),
    }
}

#[test]
fn return_forces_canonical_form() {
    // return a + b where the addition alone would carry
    // should_reduce = false: the returned expression must be flagged.
    let mut optimizer = UintOptimizer::new(FIELD_BITS + 1);
    let ret = ZirStatement::Return(vec![ZirExpression::Uint(add(
        value(3, 8),
        value(4, 8),
        8,
    ))]);
    let out = optimizer.fold_statement(ret).unwrap();
    assert_eq!(out.len(), 1);
    match &out[0] {
        ZirStatement::Return(es) => {
            assert_eq!(es.len(), 1);
            match &es[0] {
                ZirExpression::Uint(e) => assert_eq!(e.metadata, Some(meta(9, true))),
                other => panic!("expected an integer expression, got {:?}", other),
            }
        }
        other => panic!("expected a return, got {:?}", other),
    }
}

#[test]
fn return_leaves_other_kinds_untouched() {
    let mut optimizer = UintOptimizer::new(FIELD_BITS + 1);
    let ret = ZirStatement::Return(vec![
        ZirExpression::Boolean(BooleanExpression::Value(true)),
        ZirExpression::Uint(value(3, 8)),
    ]);
    let out = optimizer.fold_statement(ret).unwrap();
    match &out[0] {
        ZirStatement::Return(es) => {
            assert_eq!(es.len(), 2);
            assert_eq!(es[0], ZirExpression::Boolean(BooleanExpression::Value(true)));
            match &es[1] {
                ZirExpression::Uint(e) => assert_eq!(e.metadata, Some(meta(8, true))),
                other => panic!("expected an integer expression, got {:?}", other),
            }
        }
        other => panic!("expected a return, got {:?}", other),
    }
}

#[test]
fn non_integer_definition_is_not_registered() {
    // b := true does not enter the environment, so a later integer use of
    // `b` is an unresolved reference.
    let mut optimizer = UintOptimizer::new(FIELD_BITS + 1);
    let def = ZirStatement::Definition(
        Variable { name: "b".into(), ty: Type::Boolean },
        ZirExpression::Boolean(BooleanExpression::Value(true)),
    );
    optimizer.fold_statement(def).unwrap();
    let folded = optimizer.fold_uint_expression(ident("b", 8));
    assert_eq!(folded, Err(Error::UnresolvedIdentifier("b".into())));
}

#[test]
fn binding_identity_includes_width() {
    // The binding is a name plus a declared width: defining a 8-bit `a`
    // does not resolve a 16-bit use of `a`.
    let mut optimizer = UintOptimizer::new(FIELD_BITS + 1);
    let def = ZirStatement::Definition(
        Variable::uint("a".into(), 8),
        ZirExpression::Uint(value(3, 8)),
    );
    optimizer.fold_statement(def).unwrap();
    assert!(optimizer.fold_uint_expression(ident("a", 8)).is_ok());
    assert_eq!(
        optimizer.fold_uint_expression(ident("a", 16)),
        Err(Error::UnresolvedIdentifier("a".into()))
    );
}

#[test]
fn assertion_passes_through() {
    let mut optimizer = UintOptimizer::new(FIELD_BITS + 1);
    let s = ZirStatement::Assertion(BooleanExpression::Identifier("c".into()));
    let out = optimizer.fold_statement(s).unwrap();
    assert_eq!(
        out,
        vec![ZirStatement::Assertion(BooleanExpression::Identifier("c".into()))]
    );
}

#[test]
fn optimize_annotates_a_whole_program() {
    // Two functions; the environment persists across the boundary, so the
    // second function still sees the binding of the first.
    let program = ZirProgram {
        functions: vec![
            ZirFunction {
                id: "setup".into(),
                arguments: vec![],
                statements: vec![ZirStatement::Definition(
                    Variable::uint("a".into(), 8),
                    ZirExpression::Uint(value(3, 8)),
                )],
            },
            ZirFunction {
                id: "main".into(),
                arguments: vec![],
                statements: vec![ZirStatement::Return(vec![ZirExpression::Uint(add(
                    ident("a", 8),
                    ident("a", 8),
                    8,
                ))])],
            },
        ],
    };

    let out = UintOptimizer::optimize(FIELD_BITS + 1, program).unwrap();
    assert_eq!(out.functions.len(), 2);
    assert_eq!(out.functions[0].id, "setup");
    assert_eq!(out.functions[1].id, "main");
    match &out.functions[1].statements[0] {
        ZirStatement::Return(es) => match &es[0] {
            ZirExpression::Uint(e) => assert_eq!(e.metadata, Some(meta(9, true))),
            other => panic!("expected an integer expression, got {:?}", other),
        },
        other => panic!("expected a return, got {:?}", other),
    }
}

#[test]
fn optimize_reports_the_first_fatal_error() {
    let program = ZirProgram {
        functions: vec![ZirFunction {
            id: "main".into(),
            arguments: vec![],
            statements: vec![ZirStatement::Definition(
                Variable::uint("b".into(), 8),
                ZirExpression::Uint(ident("missing", 8)),
            )],
        }],
    };
    assert_eq!(
        UintOptimizer::optimize(FIELD_BITS + 1, program),
        Err(Error::UnresolvedIdentifier("missing".into()))
    );
}

#[test]
fn optimize_twice_is_a_no_op() {
    // Running the optimizer again over its own output changes nothing: every
    // node already carries metadata and is returned unchanged.
    let build = || ZirProgram {
        functions: vec![ZirFunction {
            id: "main".into(),
            arguments: vec![],
            statements: vec![
                ZirStatement::Definition(
                    Variable::uint("a".into(), 8),
                    ZirExpression::Uint(value(3, 8)),
                ),
                ZirStatement::Return(vec![ZirExpression::Uint(add(
                    ident("a", 8),
                    ident("a", 8),
                    8,
                ))]),
            ],
        }],
    };
    let once = UintOptimizer::optimize(FIELD_BITS + 1, build()).unwrap();
    let again = UintOptimizer::optimize(
        FIELD_BITS + 1,
        UintOptimizer::optimize(FIELD_BITS + 1, build()).unwrap(),
    )
    .unwrap();
    assert_eq!(once, again);
}
