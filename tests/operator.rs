use js_compiler::operator::{
    AssignmentOperator, BinaryOperator, LogicalOperator, Operator, Precedence, UnaryOperator,
    UpdateOperator,
};

#[test]
fn mul_shall_have_precedence() {
    let mul = Operator::BinOp(BinaryOperator::Mul);
    let add = Operator::BinOp(BinaryOperator::Add);

    let as_precedence = Precedence::get_precedence(&mul, &add);

    assert_eq!(true, as_precedence)
}

#[test]
fn partial_precedence_table() {
    let add = Operator::BinOp(BinaryOperator::Add);
    let sub = Operator::BinOp(BinaryOperator::Sub);
    let lt = Operator::BinOp(BinaryOperator::LessThan);
    let md = Operator::BinOp(BinaryOperator::Mod);
    assert!(!Precedence::get_precedence(&add, &sub));
    assert!(!Precedence::get_precedence(&lt, &add));
    assert!(Precedence::get_precedence(&md, &md));
    assert!(Precedence::get_precedence(&Operator::UnaryOp(UnaryOperator::Minus), &add));
    assert!(!Precedence::get_precedence(&Operator::LeftParenthesis, &add));
    assert!(sub.is_left_associative());
    assert!(!add.is_left_associative());
}

#[test]
fn spellings_round_trip() {
    let bins = [
        BinaryOperator::Add,
        BinaryOperator::Sub,
        BinaryOperator::Div,
        BinaryOperator::Mul,
        BinaryOperator::Mod,
        BinaryOperator::LessThan,
        BinaryOperator::LessThanOrEq,
        BinaryOperator::GreaterThan,
        BinaryOperator::GreaterThanOrEq,
        BinaryOperator::NotEqual,
        BinaryOperator::StrictEqual,
    ];
    for op in bins.iter() {
        assert_eq!(BinaryOperator::from_str(op.as_str()), Some(*op));
    }
    assert_eq!(BinaryOperator::from_str("<="), Some(BinaryOperator::LessThanOrEq));
    assert_eq!(BinaryOperator::from_str("||"), None);
    assert_eq!(LogicalOperator::from_str("&&"), Some(LogicalOperator::And));
    assert_eq!(UnaryOperator::from_str("typeof"), Some(UnaryOperator::TypeOf));
    assert_eq!(UnaryOperator::Void.as_str(), "void");
    assert_eq!(UpdateOperator::from_str("--"), Some(UpdateOperator::Decrement));
    assert_eq!(AssignmentOperator::from_str("="), Some(AssignmentOperator::Assign));
    assert_eq!(AssignmentOperator::from_str("%="), Some(AssignmentOperator::ModAssign));
    assert_eq!(Operator::RightParenthesis.as_str(), ")");
    assert_eq!(Operator::AssignOp(AssignmentOperator::MulAssign).as_str(), "*=");
}
