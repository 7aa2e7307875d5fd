use frontend_ast::{BinaryOp, Expression, Index, QName, UnaryOp, VName};

fn plain(name: &str) -> VName {
    VName { is_self: false, ident: name.to_string() }
}

fn own(name: &str) -> VName {
    VName { is_self: true, ident: name.to_string() }
}

fn lit(value: i64) -> Expression {
    Expression::Int(value)
}

fn named(name: &str) -> Expression {
    Expression::VName(plain(name))
}

fn scoped(path: &[&str]) -> QName {
    let mut name = QName::Name(path[0].to_string());
    for step in &path[1..] {
        name = QName::Sub(Box::new(name), step.to_string());
    }
    name
}

#[test]
fn variable_names() {
    assert_eq!(plain("x").to_string(), "x");
    assert_eq!(own("x").to_string(), "self.x");
    assert_eq!(plain("").to_string(), "");
    assert_eq!(own("").to_string(), "self.");
    assert_eq!(own("not an identifier").to_string(), "self.not an identifier");
}

#[test]
fn variable_name_is_appended_to_what_is_there() {
    let mut out = String::from("a.");
    own("b").write_to(&mut out);
    assert_eq!(out, "a.self.b");
}

#[test]
fn qualified_names() {
    assert_eq!(scoped(&["Foo"]).to_string(), "Foo");
    assert_eq!(scoped(&["Mod", "Foo"]).to_string(), "Mod::Foo");
    assert_eq!(scoped(&["a", "b", "c", "d"]).to_string(), "a::b::c::d");
    assert_eq!(scoped(&["", ""]).to_string(), "::");
}

#[test]
fn deeply_qualified_name() {
    let steps: Vec<String> = (0..200).map(|i| format!("s{}", i)).collect();
    let path: Vec<&str> = steps.iter().map(|s| s.as_str()).collect();
    assert_eq!(scoped(&path).to_string(), steps.join("::"));
}

#[test]
fn subscripts() {
    assert_eq!(Index::Single(3).to_string(), "3");
    assert_eq!(Index::Single(-3).to_string(), "-3");
    assert_eq!(Index::Range(0, 8).to_string(), "0..8");
    assert_eq!(Index::Range(i32::MIN, i32::MAX).to_string(), "-2147483648..2147483647");
}

#[test]
fn range_bounds_are_kept_as_given() {
    assert_eq!(Index::Range(8, 0).to_string(), "8..0");
    assert_eq!(Index::Range(5, 5).to_string(), "5..5");
    assert_eq!(Index::Range(-1, -9).to_string(), "-1..-9");
}

#[test]
fn integer_literals() {
    assert_eq!(lit(0).to_string(), "0");
    assert_eq!(lit(17).to_string(), "17");
    assert_eq!(lit(-17).to_string(), "-17");
    assert_eq!(lit(i64::MAX).to_string(), "9223372036854775807");
    assert_eq!(lit(i64::MIN).to_string(), "-9223372036854775808");
}

#[test]
fn variable_expressions() {
    assert_eq!(named("x").to_string(), "x");
    assert_eq!(Expression::VName(own("x")).to_string(), "self.x");
}

#[test]
fn call_without_arguments() {
    assert_eq!(Expression::Call(plain("f"), vec![]).to_string(), "f()");
    assert_eq!(Expression::Call(own("f"), vec![]).to_string(), "self.f()");
}

#[test]
fn call_with_arguments() {
    assert_eq!(Expression::Call(plain("f"), vec![lit(1)]).to_string(), "f(1)");
    assert_eq!(
        Expression::Call(plain("f"), vec![lit(1), named("x"), lit(-3)]).to_string(),
        "f(1, x, -3)"
    );
    assert_eq!(
        Expression::Call(plain("f"), vec![Expression::Call(plain("g"), vec![]), lit(2)])
            .to_string(),
        "f(g(), 2)"
    );
}

#[test]
fn empty_array() {
    assert_eq!(Expression::Array(vec![]).to_string(), "[]");
}

#[test]
fn array_has_no_trailing_separator() {
    assert_eq!(Expression::Array(vec![lit(1)]).to_string(), "[1]");
    assert_eq!(Expression::Array(vec![lit(1), lit(2)]).to_string(), "[1, 2]");
    assert_eq!(Expression::Array(vec![lit(1), lit(2), lit(3)]).to_string(), "[1, 2, 3]");
}

#[test]
fn nested_arrays() {
    let tree = Expression::Array(vec![
        Expression::Array(vec![]),
        Expression::Array(vec![lit(1), lit(2)]),
    ]);
    assert_eq!(tree.to_string(), "[[], [1, 2]]");
}

#[test]
fn constructor_without_fields() {
    assert_eq!(Expression::Constructor(scoped(&["Foo"]), vec![]).to_string(), "Foo {}");
    assert_eq!(Expression::Constructor(scoped(&["a", "Foo"]), vec![]).to_string(), "a::Foo {}");
}

#[test]
fn constructor_fields_each_end_with_a_comma() {
    let tree = Expression::Constructor(
        scoped(&["Point"]),
        vec![("x".to_string(), Some(lit(1))), ("y".to_string(), Some(lit(2)))],
    );
    assert_eq!(tree.to_string(), "Point {\n\tx: 1,\n\ty: 2,\n}");
}

#[test]
fn constructor_with_one_field() {
    let with_value =
        Expression::Constructor(scoped(&["P"]), vec![("x".to_string(), Some(named("a")))]);
    assert_eq!(with_value.to_string(), "P {\n\tx: a,\n}");
    let shorthand = Expression::Constructor(scoped(&["P"]), vec![("x".to_string(), None)]);
    assert_eq!(shorthand.to_string(), "P {\n\tx,\n}");
}

#[test]
fn nested_qualified_constructor() {
    let tree = Expression::Constructor(
        scoped(&["Mod", "Sub", "Rec"]),
        vec![("a".to_string(), None), ("b".to_string(), Some(lit(2)))],
    );
    assert_eq!(tree.to_string(), "Mod::Sub::Rec {\n\ta,\n\tb: 2,\n}");
}

#[test]
fn constructor_inside_a_field_is_not_indented_further() {
    let inner = Expression::Constructor(scoped(&["In"]), vec![("a".to_string(), Some(lit(1)))]);
    let outer = Expression::Constructor(
        scoped(&["Out"]),
        vec![("i".to_string(), Some(inner)), ("e".to_string(), Some(Expression::Array(vec![])))],
    );
    assert_eq!(outer.to_string(), "Out {\n\ti: In {\n\ta: 1,\n},\n\te: [],\n}");
}

#[test]
fn parentheses_are_kept() {
    assert_eq!(Expression::Sub(Box::new(lit(1))).to_string(), "(1)");
    assert_eq!(
        Expression::Sub(Box::new(Expression::Sub(Box::new(named("x"))))).to_string(),
        "((x))"
    );
}

#[test]
fn unary_operations() {
    let minus = Expression::Unary { op: UnaryOp::Minus, expr: Box::new(named("x")) };
    assert_eq!(minus.to_string(), "-x");
    let tilde = Expression::Unary { op: UnaryOp::Tilde, expr: Box::new(named("y")) };
    assert_eq!(tilde.to_string(), "~y");
    let plus = Expression::Unary { op: UnaryOp::Plus, expr: Box::new(lit(-1)) };
    assert_eq!(plus.to_string(), "+-1");
    let twice = Expression::Unary { op: UnaryOp::Minus, expr: Box::new(minus) };
    assert_eq!(twice.to_string(), "--x");
}

#[test]
fn binary_operations() {
    let each = [
        (BinaryOp::Plus, "a + b"),
        (BinaryOp::Minus, "a - b"),
        (BinaryOp::Star, "a * b"),
        (BinaryOp::Slash, "a / b"),
    ];
    for (op, expected) in each {
        let tree = Expression::Binary { lhs: Box::new(named("a")), op, rhs: Box::new(named("b")) };
        assert_eq!(tree.to_string(), expected);
    }
}

#[test]
fn binary_operations_get_no_parentheses_of_their_own() {
    let sum = Expression::Binary {
        lhs: Box::new(named("a")),
        op: BinaryOp::Plus,
        rhs: Box::new(named("b")),
    };
    let product =
        Expression::Binary { lhs: Box::new(sum), op: BinaryOp::Star, rhs: Box::new(named("c")) };
    assert_eq!(product.to_string(), "a + b * c");
}

#[test]
fn binary_operations_keep_the_parentheses_of_the_tree() {
    let sum = Expression::Binary {
        lhs: Box::new(named("a")),
        op: BinaryOp::Plus,
        rhs: Box::new(named("b")),
    };
    let product = Expression::Binary {
        lhs: Box::new(Expression::Sub(Box::new(sum))),
        op: BinaryOp::Star,
        rhs: Box::new(named("c")),
    };
    assert_eq!(product.to_string(), "(a + b) * c");
}

#[test]
fn indexed_access() {
    let single = Expression::Index { base: Box::new(named("v")), index: Index::Single(3) };
    assert_eq!(single.to_string(), "v[3]");
    let range = Expression::Index {
        base: Box::new(Expression::VName(own("v"))),
        index: Index::Range(0, 8),
    };
    assert_eq!(range.to_string(), "self.v[0..8]");
    let twice = Expression::Index { base: Box::new(single), index: Index::Range(2, 1) };
    assert_eq!(twice.to_string(), "v[3][2..1]");
}

#[test]
fn expression_is_appended_to_what_is_there() {
    let mut out = String::from("return ");
    Expression::Call(plain("f"), vec![lit(1), lit(2)]).write_to(&mut out);
    assert_eq!(out, "return f(1, 2)");
}

#[test]
fn long_argument_list() {
    let args: Vec<Expression> = (0..500).map(lit).collect();
    let expected: Vec<String> = (0..500).map(|i| i.to_string()).collect();
    assert_eq!(
        Expression::Call(plain("sum"), args).to_string(),
        format!("sum({})", expected.join(", "))
    );
}

#[test]
fn deeply_nested_parentheses() {
    let mut tree = lit(0);
    for _ in 0..300 {
        tree = Expression::Sub(Box::new(tree));
    }
    assert_eq!(tree.to_string(), format!("{}0{}", "(".repeat(300), ")".repeat(300)));
}
