use nepolish::parser::nepolish::{eval, parse, Node, Operator, Sankhya};

#[test]
fn test_parse() {
    let input = "+ १४ (* २३ ३४ ४५) (/ -१०० २ ३) (- २३ १)";
    let expected = Node::Expr {
        op: Operator::Add,
        children: vec![
            Node::Int(14),
            Node::Expr {
                op: Operator::Multiply,
                children: vec![Node::Int(23), Node::Int(34), Node::Int(45)],
            },
            Node::Expr {
                op: Operator::Divide,
                children: vec![Node::Int(-100), Node::Int(2), Node::Int(3)],
            },
            Node::Expr {
                op: Operator::Subtract,
                children: vec![Node::Int(23), Node::Int(1)],
            },
        ],
    };
    assert_eq!(parse(input).unwrap(), expected);
}

#[test]
fn test_eval() {
    let input = "+ (- -१४ ३४) (* २ ३४ -५) (/ १०० -२०)";
    let parsed = parse(input).unwrap();
    let result = eval(parsed).unwrap();
    assert_eq!(result, Sankhya(-393));
}
