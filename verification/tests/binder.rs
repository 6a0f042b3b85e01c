use databend_query::binder::BinaryOperator;
use databend_query::binder::BindContext;
use databend_query::binder::ColumnBinding;
use databend_query::binder::Expr;
use databend_query::binder::Identifier;
use databend_query::binder::Scalar;
use databend_query::binder::ScalarBinder;
use databend_query::binder::ScalarExpr;
use databend_query::binder::write_decimal;
use databend_query::datavalues::DataTypeImpl;
use databend_query::exception::ErrorCode;

fn ident(name: &str) -> Identifier {
    Identifier { name: name.to_string() }
}

fn column(name: &str) -> Expr {
    Expr::ColumnRef { table: None, column: ident(name) }
}

fn qualified(table: &str, name: &str) -> Expr {
    Expr::ColumnRef { table: Some(ident(table)), column: ident(name) }
}

fn binary(op: BinaryOperator, left: Expr, right: Expr) -> Expr {
    Expr::BinaryOp { op, left: Box::new(left), right: Box::new(right) }
}

fn context() -> BindContext {
    BindContext::create(vec![
        ColumnBinding {
            table_name: Some("t".to_string()),
            column_name: "a".to_string(),
            index: 0,
            data_type: DataTypeImpl::Int64,
            nullable: false,
        },
        ColumnBinding {
            table_name: Some("u".to_string()),
            column_name: "a".to_string(),
            index: 1,
            data_type: DataTypeImpl::String,
            nullable: true,
        },
        ColumnBinding {
            table_name: None,
            column_name: "b".to_string(),
            index: 2,
            data_type: DataTypeImpl::Boolean,
            nullable: false,
        },
    ])
}

fn a_of_t() -> Scalar {
    Scalar::ColumnRef { index: 0, data_type: DataTypeImpl::Int64, nullable: false }
}

fn a_of_u() -> Scalar {
    Scalar::ColumnRef { index: 1, data_type: DataTypeImpl::String, nullable: true }
}

#[test]
fn a_column_is_bound_to_the_first_that_answers() {
    let binder = ScalarBinder::new();
    let context = context();
    assert_eq!(binder.bind_expr(&column("a"), &context), Ok(a_of_t()));
    assert_eq!(binder.bind_expr(&qualified("u", "a"), &context), Ok(a_of_u()));
    assert_eq!(
        binder.bind_expr(&column("b"), &context),
        Ok(Scalar::ColumnRef { index: 2, data_type: DataTypeImpl::Boolean, nullable: false })
    );
}

#[test]
fn an_unknown_column_is_a_semantic_error() {
    let binder = ScalarBinder::new();
    let context = context();
    assert_eq!(
        binder.bind_expr(&column("c"), &context),
        Err(ErrorCode::SemanticError("column \"c\" doesn't exist".to_string()))
    );
    assert_eq!(
        binder.bind_expr(&qualified("v", "a"), &context),
        Err(ErrorCode::SemanticError("column \"a\" doesn't exist".to_string()))
    );
    assert_eq!(
        binder.bind_expr(&qualified("t", "b"), &context),
        Err(ErrorCode::SemanticError("column \"b\" doesn't exist".to_string()))
    );
    assert!(context.resolve_column(None, "a".to_string()).is_ok());
    assert_eq!(context.resolve_column(Some("u".to_string()), "a".to_string()).unwrap().index, 1);
}

#[test]
fn equality_is_bound_with_both_sides() {
    let binder = ScalarBinder::new();
    let context = context();
    let expr = binary(
        BinaryOperator::Eq,
        column("a"),
        binary(BinaryOperator::Eq, qualified("u", "a"), column("a")),
    );
    assert_eq!(
        binder.bind_expr(&expr, &context),
        Ok(Scalar::Equal {
            left: Box::new(a_of_t()),
            right: Box::new(Scalar::Equal { left: Box::new(a_of_u()), right: Box::new(a_of_t()) }),
        })
    );
}

#[test]
fn other_operators_are_not_implemented() {
    let binder = ScalarBinder::new();
    let context = context();
    assert_eq!(
        binder.bind_expr(&binary(BinaryOperator::Plus, column("a"), column("b")), &context),
        Err(ErrorCode::UnImplement("Unsupported binary operator: +".to_string()))
    );
    assert_eq!(
        binder.bind_expr(&binary(BinaryOperator::NotEq, column("a"), column("b")), &context),
        Err(ErrorCode::UnImplement("Unsupported binary operator: <>".to_string()))
    );
    assert_eq!(
        binder.bind_expr(&binary(BinaryOperator::And, column("a"), column("b")), &context),
        Err(ErrorCode::UnImplement("Unsupported binary operator: AND".to_string()))
    );
    assert_eq!(BinaryOperator::Gte.symbol(), ">=");
    assert_eq!(BinaryOperator::Eq.symbol(), "=");
}

#[test]
fn the_sides_are_bound_before_the_operator_is_looked_at() {
    let binder = ScalarBinder::new();
    let context = context();
    assert_eq!(
        binder.bind_expr(&binary(BinaryOperator::Plus, column("nope"), Expr::Literal(1)), &context),
        Err(ErrorCode::SemanticError("column \"nope\" doesn't exist".to_string()))
    );
    assert_eq!(
        binder.bind_expr(&binary(BinaryOperator::Plus, column("a"), Expr::Literal(1)), &context),
        Err(ErrorCode::UnImplement("Unsupported expr: Literal(1)".to_string()))
    );
    assert_eq!(
        binder.bind_expr(&binary(BinaryOperator::Eq, column("x"), column("y")), &context),
        Err(ErrorCode::SemanticError("column \"x\" doesn't exist".to_string()))
    );
}

#[test]
fn other_forms_are_not_implemented() {
    let binder = ScalarBinder::new();
    let context = context();
    assert_eq!(
        binder.bind_expr(&Expr::Literal(7), &context),
        Err(ErrorCode::UnImplement("Unsupported expr: Literal(7)".to_string()))
    );
    assert_eq!(
        binder.bind_expr(&Expr::Literal(5), &context),
        Err(ErrorCode::UnImplement(format!("Unsupported expr: {:?}", Expr::Literal(5))))
    );
    let is_null = Expr::IsNull { expr: Box::new(column("a")), not: true };
    assert_eq!(
        binder.bind_expr(&is_null, &context),
        Err(ErrorCode::UnImplement(
            "Unsupported expr: IsNull { expr: ColumnRef { table: None, column: Identifier { name: \"a\" } }, not: true }"
                .to_string()
        ))
    );
}

#[test]
fn an_expression_is_written_out_in_full() {
    let exprs = vec![
        Expr::Literal(0),
        Expr::Literal(9),
        Expr::Literal(10),
        Expr::Literal(1234567890),
        Expr::Literal(u64::MAX),
        column("a"),
        qualified("t", "some_column"),
        Expr::IsNull { expr: Box::new(Expr::Literal(3)), not: false },
        binary(
            BinaryOperator::Plus,
            binary(BinaryOperator::NotEq, qualified("t", "a"), Expr::Literal(42)),
            Expr::IsNull { expr: Box::new(column("b")), not: true },
        ),
        binary(BinaryOperator::Gte, column("x"), column("y")),
    ];
    for expr in &exprs {
        assert_eq!(expr.text(), format!("{:?}", expr));
    }
    assert_eq!(Expr::Literal(507).text(), "Literal(507)");
    assert_eq!(ident("a").name, "a");
    let mut out = "n = ".to_string();
    write_decimal(90210, &mut out);
    assert_eq!(out, "n = 90210");
    let mut out = String::new();
    ident("col").write_text(&mut out);
    assert_eq!(out, "Identifier { name: \"col\" }");
    for op in [
        BinaryOperator::Plus,
        BinaryOperator::Minus,
        BinaryOperator::Multiply,
        BinaryOperator::Divide,
        BinaryOperator::Gt,
        BinaryOperator::Lt,
        BinaryOperator::Gte,
        BinaryOperator::Lte,
        BinaryOperator::Eq,
        BinaryOperator::NotEq,
        BinaryOperator::And,
        BinaryOperator::Or,
    ] {
        assert_eq!(op.name(), format!("{:?}", op));
    }
}

#[test]
fn a_bound_expression_knows_its_type() {
    assert_eq!(a_of_t().data_type(), (DataTypeImpl::Int64, false));
    assert_eq!(a_of_u().data_type(), (DataTypeImpl::String, true));
    let both = Scalar::Equal { left: Box::new(a_of_t()), right: Box::new(a_of_t()) };
    assert_eq!(both.data_type(), (DataTypeImpl::Boolean, false));
    let mixed = Scalar::Equal { left: Box::new(both), right: Box::new(a_of_u()) };
    assert_eq!(mixed.data_type(), (DataTypeImpl::Boolean, true));
    assert!(!mixed.contains_aggregate());
    assert!(!mixed.contains_subquery());
}
