use regret::policy::{parse_expression, tokenize, BoolOp, CompareOp, Metric, PolicyError, Token};

#[test]
fn test_simple_expression() {
    let expr = parse_expression("regret_events >= 1").unwrap();
    assert_eq!(expr.first.metric, Metric::RegretEvents);
    assert_eq!(expr.first.op, CompareOp::Gte);
    assert_eq!(expr.first.value.parse::<f64>().unwrap(), 1.0);
    assert!(expr.rest.is_empty());
}

#[test]
fn test_and_expression() {
    let expr = parse_expression("regret_events >= 1 and max_score > 20").unwrap();
    assert_eq!(expr.first.metric, Metric::RegretEvents);
    assert_eq!(expr.rest.len(), 1);
    assert_eq!(expr.rest[0].0, BoolOp::And);
    assert_eq!(expr.rest[0].1.metric, Metric::MaxScore);
    assert_eq!(expr.rest[0].1.op, CompareOp::Gt);
    assert_eq!(expr.rest[0].1.value.parse::<f64>().unwrap(), 20.0);
}

#[test]
fn test_or_expression() {
    let expr = parse_expression("regret_events >= 5 or max_score > 50").unwrap();
    assert_eq!(expr.rest.len(), 1);
    assert_eq!(expr.rest[0].0, BoolOp::Or);
}

#[test]
fn test_invalid_expression() {
    assert!(parse_expression("").is_err());
    assert!(parse_expression("invalid_metric >= 1").is_err());
    assert!(parse_expression("regret_events").is_err());
    assert!(parse_expression("regret_events >=").is_err());
    assert!(parse_expression("regret_events >= abc").is_err());
}

#[test]
fn test_case_insensitive_bool_ops() {
    let expr = parse_expression("regret_events >= 1 AND max_score > 0").unwrap();
    assert_eq!(expr.rest[0].0, BoolOp::And);

    let expr = parse_expression("regret_events >= 1 OR max_score > 0").unwrap();
    assert_eq!(expr.rest[0].0, BoolOp::Or);
}

#[test]
fn and_stops_at_a_false_term() {
    let expr = parse_expression("regret_events >= 10 and max_score > 100").unwrap();
    assert!(!expr.combine_terms(&vec![false, true]));
    assert!(expr.combine_terms(&vec![true, true]));
    assert!(!expr.combine_terms(&vec![true, false]));
}

#[test]
fn or_stops_at_a_true_term() {
    let expr = parse_expression("regret_events >= 1 or max_score > 100").unwrap();
    assert!(expr.combine_terms(&vec![true, false]));
    assert!(!expr.combine_terms(&vec![false, false]));
}

#[test]
fn operators_combine_left_to_right() {
    let expr = parse_expression("regret_events > 1 or max_score > 2 and max_score < 3").unwrap();
    assert!(!expr.combine_terms(&vec![true, false, false]));
    assert!(!expr.combine_terms(&vec![false, true, false]));
    assert!(expr.combine_terms(&vec![false, true, true]));
}

#[test]
fn tokens_of_an_expression() {
    let tokens = tokenize("max_score!=2.5").unwrap();
    assert_eq!(tokens.len(), 3);
    assert!(matches!(tokens[0], Token::Metric(Metric::MaxScore)));
    assert!(matches!(tokens[1], Token::Op(CompareOp::Neq)));
    match &tokens[2] {
        Token::Number(n) => assert_eq!(n, "2.5"),
        _ => panic!("expected a number"),
    }
    assert!(matches!(tokenize("max_score ? 1"), Err(PolicyError::UnexpectedCharacter('?'))));
}

#[test]
fn metric_and_operator_names() {
    assert_eq!(Metric::from_str("events_per_100_commits"), Some(Metric::EventsPer100Commits));
    assert_eq!(Metric::from_str("nope"), None);
    assert_eq!(CompareOp::from_str("<="), Some(CompareOp::Lte));
    assert_eq!(CompareOp::from_str("=<"), None);
    assert_eq!(BoolOp::from_str("Or"), Some(BoolOp::Or));
}

#[test]
fn each_policy_error_has_its_input() {
    assert!(matches!(parse_expression(""), Err(PolicyError::EmptyExpression)));
    assert!(matches!(parse_expression("   "), Err(PolicyError::EmptyExpression)));
    match parse_expression("max_score > 1.2.3") {
        Err(PolicyError::InvalidNumber(n)) => assert_eq!(n, "1.2.3"),
        _ => panic!("expected an invalid number"),
    }
    match parse_expression("invalid_metric >= 1") {
        Err(PolicyError::UnknownIdentifier(w)) => assert_eq!(w, "invalid_metric"),
        _ => panic!("expected an unknown identifier"),
    }
    assert!(matches!(
        parse_expression("regret_events >= 1 max_score > 2"),
        Err(PolicyError::ExpectedBoolOp(Token::Metric(Metric::MaxScore)))
    ));
    assert!(matches!(
        parse_expression("and max_score > 2"),
        Err(PolicyError::ExpectedMetric(Some(Token::BoolOp(BoolOp::And))))
    ));
    assert!(matches!(parse_expression("regret_events >= 1 or"), Err(PolicyError::ExpectedMetric(None))));
    assert!(matches!(parse_expression("regret_events"), Err(PolicyError::ExpectedOperator(None))));
    assert!(matches!(
        parse_expression("regret_events max_score"),
        Err(PolicyError::ExpectedOperator(Some(Token::Metric(Metric::MaxScore))))
    ));
    assert!(matches!(parse_expression("regret_events >="), Err(PolicyError::ExpectedNumber(None))));
    assert!(matches!(
        parse_expression("regret_events >= <"),
        Err(PolicyError::ExpectedNumber(Some(Token::Op(CompareOp::Lt))))
    ));
}

#[test]
fn false_and_false_or_true_is_true() {
    let expr = parse_expression("regret_events >= 10 and max_score > 100 or max_score > 5").unwrap();
    assert!(expr.combine_terms(&vec![false, false, true]));
}

#[test]
fn tokenize_metric_comparison() {
    let tokens = tokenize("regret_events >= 1").unwrap();
    assert_eq!(tokens.len(), 3);
    assert!(matches!(tokens[0], Token::Metric(Metric::RegretEvents)));
    assert!(matches!(tokens[1], Token::Op(CompareOp::Gte)));
    match &tokens[2] {
        Token::Number(n) => assert_eq!(n, "1"),
        _ => panic!("expected a number"),
    }
}
