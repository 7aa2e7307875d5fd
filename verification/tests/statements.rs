use frontend_ast::{AssignOp, BinaryOp, BlockStmt, Expression, QName, Statement, VName};

fn local(name: &str) -> VName {
    VName { is_self: false, ident: name.to_string() }
}

fn member(name: &str) -> VName {
    VName { is_self: true, ident: name.to_string() }
}

fn set(name: &str, value: i64) -> Statement {
    Statement::Assign { left: local(name), op: AssignOp::Blocking, right: Expression::Int(value) }
}

fn read(name: &str) -> Expression {
    Expression::VName(local(name))
}

#[test]
fn empty_block() {
    assert_eq!(BlockStmt(vec![]).to_string(), "{}");
}

#[test]
fn empty_block_as_a_statement() {
    assert_eq!(Statement::Block(BlockStmt(vec![])).to_string(), "{}");
}

#[test]
fn blocking_assignment() {
    assert_eq!(set("x", 1).to_string(), "x = 1;");
}

#[test]
fn self_qualified_assignment() {
    let tree = Statement::Assign {
        left: member("counter"),
        op: AssignOp::NonBlocking,
        right: Expression::Binary {
            lhs: Box::new(Expression::VName(member("counter"))),
            op: BinaryOp::Plus,
            rhs: Box::new(Expression::Int(1)),
        },
    };
    assert_eq!(tree.to_string(), "self.counter <= self.counter + 1;");
}

#[test]
fn block_with_one_statement() {
    assert_eq!(BlockStmt(vec![set("x", 1)]).to_string(), "{\n\tx = 1;\n}");
}

#[test]
fn block_with_several_statements() {
    let block = BlockStmt(vec![set("x", 1), set("y", -2), set("z", 3)]);
    assert_eq!(block.to_string(), "{\n\tx = 1;\n\ty = -2;\n\tz = 3;\n}");
}

#[test]
fn block_statement_reads_as_the_block() {
    let direct = BlockStmt(vec![set("x", 1), set("y", 2)]).to_string();
    let wrapped = Statement::Block(BlockStmt(vec![set("x", 1), set("y", 2)])).to_string();
    assert_eq!(direct, wrapped);
}

#[test]
fn nested_block_indents_twice() {
    let inner = BlockStmt(vec![set("x", 1)]);
    let outer = BlockStmt(vec![Statement::Block(inner)]);
    assert_eq!(outer.to_string(), "{\n\t{\n\t\tx = 1;\n\t}\n}");
}

#[test]
fn block_nested_three_deep() {
    let innermost = BlockStmt(vec![set("x", 1)]);
    let middle = BlockStmt(vec![Statement::Block(innermost), set("y", 2)]);
    let outer = BlockStmt(vec![set("w", 0), Statement::Block(middle)]);
    assert_eq!(
        outer.to_string(),
        "{\n\tw = 0;\n\t{\n\t\t{\n\t\t\tx = 1;\n\t\t}\n\t\ty = 2;\n\t}\n}"
    );
}

#[test]
fn empty_block_inside_a_block() {
    let outer = BlockStmt(vec![Statement::Block(BlockStmt(vec![]))]);
    assert_eq!(outer.to_string(), "{\n\t{}\n}");
}

#[test]
fn conditional_without_else() {
    let tree = Statement::If {
        cond: read("ready"),
        true_case: BlockStmt(vec![set("x", 1)]),
        false_case: None,
    };
    assert_eq!(tree.to_string(), "if ready {\n\tx = 1;\n}");
}

#[test]
fn conditional_with_else() {
    let tree = Statement::If {
        cond: read("ready"),
        true_case: BlockStmt(vec![set("x", 1)]),
        false_case: Some(BlockStmt(vec![set("x", 0)])),
    };
    assert_eq!(tree.to_string(), "if ready {\n\tx = 1;\n} else {\n\tx = 0;\n}");
}

#[test]
fn conditional_with_empty_blocks() {
    let bare = Statement::If { cond: read("c"), true_case: BlockStmt(vec![]), false_case: None };
    assert_eq!(bare.to_string(), "if c {}");
    let both = Statement::If {
        cond: read("c"),
        true_case: BlockStmt(vec![]),
        false_case: Some(BlockStmt(vec![])),
    };
    assert_eq!(both.to_string(), "if c {} else {}");
}

#[test]
fn else_is_added_to_the_form_without_else() {
    let without = Statement::If {
        cond: read("c"),
        true_case: BlockStmt(vec![set("a", 1)]),
        false_case: None,
    };
    let with = Statement::If {
        cond: read("c"),
        true_case: BlockStmt(vec![set("a", 1)]),
        false_case: Some(BlockStmt(vec![set("b", 2)])),
    };
    let other = BlockStmt(vec![set("b", 2)]);
    assert_eq!(with.to_string(), format!("{} else {}", without.to_string(), other.to_string()));
}

#[test]
fn conditional_inside_a_block() {
    let inner = Statement::If {
        cond: read("c"),
        true_case: BlockStmt(vec![set("a", 1)]),
        false_case: Some(BlockStmt(vec![set("a", 2)])),
    };
    let block = BlockStmt(vec![inner, set("b", 3)]);
    assert_eq!(
        block.to_string(),
        "{\n\tif c {\n\t\ta = 1;\n\t} else {\n\t\ta = 2;\n\t}\n\tb = 3;\n}"
    );
}

#[test]
fn conditional_nested_in_conditional() {
    let inner = Statement::If {
        cond: read("b"),
        true_case: BlockStmt(vec![set("x", 1)]),
        false_case: None,
    };
    let outer =
        Statement::If { cond: read("a"), true_case: BlockStmt(vec![inner]), false_case: None };
    assert_eq!(outer.to_string(), "if a {\n\tif b {\n\t\tx = 1;\n\t}\n}");
}

#[test]
fn every_line_of_a_statement_is_indented() {
    let record = Expression::Constructor(
        QName::Name("P".to_string()),
        vec![("x".to_string(), Some(Expression::Int(1))), ("y".to_string(), None)],
    );
    let assign = Statement::Assign { left: local("p"), op: AssignOp::NonBlocking, right: record };
    assert_eq!(assign.to_string(), "p <= P {\n\tx: 1,\n\ty,\n};");
    let block = BlockStmt(vec![assign]);
    assert_eq!(block.to_string(), "{\n\tp <= P {\n\t\tx: 1,\n\t\ty,\n\t};\n}");
}

#[test]
fn newline_in_a_name_starts_an_indented_line() {
    let odd = Statement::Assign {
        left: local("a\nb"),
        op: AssignOp::Blocking,
        right: Expression::Int(1),
    };
    assert_eq!(BlockStmt(vec![odd]).to_string(), "{\n\ta\n\tb = 1;\n}");
}

#[test]
fn statement_is_appended_to_what_is_there() {
    let mut out = String::from("// step\n");
    set("x", 1).write_to(&mut out);
    BlockStmt(vec![]).write_to(&mut out);
    assert_eq!(out, "// step\nx = 1;{}");
}

#[test]
fn long_block() {
    let statements: Vec<Statement> = (0..300).map(|i| set("x", i)).collect();
    let mut expected = String::from("{\n");
    for i in 0..300 {
        expected.push_str(&format!("\tx = {};\n", i));
    }
    expected.push('}');
    assert_eq!(BlockStmt(statements).to_string(), expected);
}

#[test]
fn deeply_nested_blocks() {
    let depth = 60;
    let mut block = BlockStmt(vec![set("x", 1)]);
    for _ in 0..depth {
        block = BlockStmt(vec![Statement::Block(block)]);
    }
    let mut expected = String::new();
    for level in 0..=depth {
        expected.push_str(&"\t".repeat(level));
        expected.push_str("{\n");
    }
    expected.push_str(&"\t".repeat(depth + 1));
    expected.push_str("x = 1;\n");
    for level in (1..=depth).rev() {
        expected.push_str(&"\t".repeat(level));
        expected.push_str("}\n");
    }
    expected.push('}');
    assert_eq!(block.to_string(), expected);
}
