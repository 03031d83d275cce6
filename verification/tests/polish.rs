use nepolish::parser::polish::{parse, Node, Operator};

#[test]
fn parser_test_parse() {
    let expected = Node::Expr {
        op: Operator::Add,
        children: vec![
            Node::Int(14),
            Node::Expr {
                op: Operator::Multiply,
                children: vec![Node::Int(23), Node::Int(34), Node::Int(45)],
            },
            Node::Expr {
                op: Operator::Divide,
                children: vec![Node::Int(100), Node::Int(2), Node::Int(3)],
            },
            Node::Expr {
                op: Operator::Subtract,
                children: vec![Node::Int(23), Node::Int(1)],
            },
        ],
    };
    assert_eq!(parse("+ 14 (* 23 34 45) (/ 100 2 3) (- 23 1)").unwrap(), expected);
}
