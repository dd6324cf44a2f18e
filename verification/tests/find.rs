use byoridb_executor::error::ErrorKind;
use byoridb_executor::expr::{Expression, Literal, UnaryOperator};
use byoridb_executor::find::{
    find_endpoint, find_strategy, FindPlan, FindType, PathAlgorithm, PathEnd, Vid,
};

fn plan(find_type: FindType, over: &str, weight: Option<&str>, bidirect: bool, upto: Option<u32>) -> FindPlan {
    FindPlan {
        find_type,
        from_vid: Expression::Literal(Literal::Int(1)),
        to_vid: Expression::Literal(Literal::Int(2)),
        over_edge: over.to_string(),
        weight_prop: weight.map(|w| w.to_string()),
        bidirect,
        upto_steps: upto,
    }
}

#[test]
fn test_find_upto_exceeding_max_go_steps_errors() {
    // FIND SHORTEST PATH FROM 1 TO 2 OVER follow UPTO 999 STEPS
    let p = plan(FindType::ShortestPath, "follow", None, false, Some(999));
    let err = find_strategy(&p, 20, 0).err().unwrap();
    assert_eq!(err.kind(), ErrorKind::InvalidOperation);
    let msg = err.message();
    assert!(msg.contains("UPTO"), "unexpected message: {}", msg);
    assert_eq!(msg, "Invalid operation: UPTO 999 STEPS exceeds the maximum of 20");
}

#[test]
fn test_find_weight_by_rejects_bidirect() {
    // FIND SHORTEST PATH FROM 1 TO 2 OVER follow WEIGHT BY cost BIDIRECT
    let p = plan(FindType::ShortestPath, "follow", Some("cost"), true, None);
    let err = find_strategy(&p, 20, 0).err().unwrap();
    assert_eq!(err.kind(), ErrorKind::InvalidOperation);
}

#[test]
fn weight_by_excludes_all_shortest_paths() {
    let p = plan(FindType::AllShortestPaths, "follow", Some("cost"), false, None);
    let err = find_strategy(&p, 20, 0).err().unwrap();
    assert_eq!(
        err.message(),
        "Invalid operation: WEIGHT BY cannot be combined with BIDIRECT or ALL SHORTEST PATHS"
    );
}

#[test]
fn strategies_follow_the_statement() {
    let s = find_strategy(&plan(FindType::ShortestPath, "follow", Some("cost"), false, None), 20, 0)
        .ok()
        .unwrap();
    assert!(matches!(&s.algorithm, PathAlgorithm::Weighted(w) if w == "cost"));
    assert_eq!(s.max_steps, 10);
    assert_eq!(s.edge_types, vec!["follow".to_string()]);

    let s = find_strategy(&plan(FindType::AllShortestPaths, "*", None, true, Some(4)), 20, 50)
        .ok()
        .unwrap();
    assert!(matches!(s.algorithm, PathAlgorithm::AllShortest(50)));
    assert!(s.edge_types.is_empty());
    assert_eq!(s.max_steps, 4);
    assert!(s.bidirect);

    // A zero cap lets any UPTO through.
    let s = find_strategy(&plan(FindType::ShortestPath, "e", None, false, Some(999)), 0, 0)
        .ok()
        .unwrap();
    assert!(matches!(s.algorithm, PathAlgorithm::Shortest));
    assert_eq!(s.max_steps, 999);
}

#[test]
fn endpoints_must_be_integer_or_string_constants() {
    assert!(matches!(
        find_endpoint(&Expression::Literal(Literal::Int(7)), PathEnd::From),
        Ok(Vid::Int(7))
    ));
    let neg = Expression::UnaryOp {
        op: UnaryOperator::Neg,
        operand: Box::new(Expression::Literal(Literal::Int(3))),
    };
    assert!(matches!(find_endpoint(&neg, PathEnd::To), Ok(Vid::Int(-3))));
    assert!(matches!(
        find_endpoint(&Expression::Literal(Literal::String("a".to_string())), PathEnd::To),
        Ok(Vid::String(s)) if s == "a"
    ));
    let err = find_endpoint(&Expression::Literal(Literal::Bool(true)), PathEnd::From).err().unwrap();
    assert_eq!(
        err.message(),
        "Invalid operation: Invalid FROM VID (must be an integer or string literal)"
    );
    let err = find_endpoint(&Expression::Identifier("x".to_string()), PathEnd::To).err().unwrap();
    assert_eq!(
        err.message(),
        "Invalid operation: Invalid TO VID (must be an integer or string literal)"
    );
}
