use airyc::error::AnalyzeError;
use airyc::expr::ExprShape;
use airyc::func::{AssignStmtNode, FuncFParamNode, FuncSignNode, LhsNode, SignParam};
use airyc::module::{Module, ScopeID, TextRange};
use airyc::parser::Parser;
use airyc::typenode::{PrimitType, TypeNode, TypeNodeKind};
use airyc::types::Ty;

fn tr(start: u32, end: u32) -> TextRange {
    TextRange { start, end }
}

fn module() -> Module {
    let (tree, _) = Parser::new("").parse();
    let mut m = Module::new(tree);
    m.file_id = 0;
    let g = m.new_scope(None, tr(0, 1000));
    m.global_scope = g;
    m.current_scope = g;
    m
}

fn prim(p: PrimitType) -> TypeNode {
    TypeNode { range: tr(0, 3), trimmed: tr(0, 3), is_const: false, kind: TypeNodeKind::Primitive(Some(p)) }
}

fn param(name: &str, at: u32, p: PrimitType) -> FuncFParamNode {
    FuncFParamNode { is_variadic: false, name: Some((name.to_string(), tr(at, at + 1))), ty: Some(prim(p)) }
}

#[test]
fn function_definition_round_trip() {
    let mut m = module();
    let f = m.new_function("f".to_string(), vec![], vec![], Ty::Void, false, false, tr(5, 50));
    m.function_map.push(("f".to_string(), f));
    m.enter_func_def(tr(5, 50));
    assert_eq!(m.current_scope, ScopeID(1));
    m.leave_func_f_param(&param("a", 8, PrimitType::I32));
    m.leave_func_f_param(&param("b", 12, PrimitType::Bool));
    m.leave_func_f_param(&FuncFParamNode { is_variadic: true, name: None, ty: None });
    assert_eq!(m.variables.len(), 2);
    let sign = FuncSignNode {
        name: Some("f".to_string()),
        params: Some(vec![
            SignParam { is_variadic: false, ident: Some("a".to_string()) },
            SignParam { is_variadic: false, ident: Some("b".to_string()) },
            SignParam { is_variadic: true, ident: None },
        ]),
        ret_type: Some(prim(PrimitType::I8)),
        has_block: true,
    };
    m.leave_func_sign(&sign);
    let func = &m.functions[0];
    assert_eq!(func.params.len(), 2);
    assert_eq!(func.meta_types[1].0, "b");
    assert!(matches!(func.meta_types[1].1, Ty::Bool));
    assert!(func.is_variadic);
    assert!(func.have_impl);
    assert!(matches!(func.ret_type, Ty::I8));
    assert!(matches!(m.current_function_ret_type, Some(Ty::I8)));
    m.leave_return_stmt(tr(30, 35), None);
    assert!(matches!(&m.semantic_errors[0], AnalyzeError::ReturnTypeMismatch { expected: Ty::I8, found: Ty::Void, .. }));
    m.leave_func_def();
    assert_eq!(m.current_scope, ScopeID(0));
    assert!(m.current_function_ret_type.is_none());
}

#[test]
fn parameter_errors() {
    let mut m = module();
    m.leave_func_f_param(&param("a", 8, PrimitType::I32));
    m.leave_func_f_param(&param("a", 9, PrimitType::I32));
    assert!(matches!(&m.semantic_errors[0], AnalyzeError::VariableDefined { name, range } if name == "a" && *range == tr(9, 10)));
    m.leave_func_f_param(&param("v", 10, PrimitType::Void));
    assert!(matches!(&m.semantic_errors[1], AnalyzeError::InvalidVoidUsage { range } if *range == tr(0, 3)));
}

#[test]
fn loops_break_and_continue() {
    let mut m = module();
    m.enter_break_stmt(tr(1, 6));
    m.enter_continue_stmt(tr(7, 15));
    assert!(matches!(&m.semantic_errors[0], AnalyzeError::BreakOutsideLoop { range } if *range == tr(1, 6)));
    assert!(matches!(&m.semantic_errors[1], AnalyzeError::ContinueOutsideLoop { .. }));
    m.enter_while_stmt();
    m.enter_break_stmt(tr(20, 25));
    m.enter_continue_stmt(tr(20, 25));
    assert_eq!(m.semantic_errors.len(), 2);
    m.leave_while_stmt();
    assert_eq!(m.loop_depth, 0);
}

#[test]
fn blocks_open_and_close_scopes() {
    let mut m = module();
    m.enter_block(tr(3, 9));
    assert_eq!(m.current_scope, ScopeID(1));
    assert_eq!(m.scopes[1].parent, Some(ScopeID(0)));
    m.leave_block();
    assert_eq!(m.current_scope, ScopeID(0));
}

#[test]
fn implementation_of_declared_function() {
    let mut m = module();
    let f = m.new_function(
        "g".to_string(),
        vec![airyc::module::VariableID(4)],
        vec![("x".to_string(), Ty::I32)],
        Ty::Bool,
        false,
        false,
        tr(5, 9),
    );
    m.function_map.push(("g".to_string(), f));
    m.enter_func_attach(tr(20, 40), &Some(("g".to_string(), tr(20, 21))));
    assert!(m.semantic_errors.is_empty());
    assert!(m.functions[0].have_impl);
    assert!(m.scopes[1].have_variable_def("x"));
    assert!(matches!(m.current_function_ret_type, Some(Ty::Bool)));
    m.leave_func_attach();
    m.enter_func_attach(tr(50, 60), &Some(("g".to_string(), tr(50, 51))));
    assert!(matches!(&m.semantic_errors[0], AnalyzeError::FunctionImplemented { name, .. } if name == "g"));
    m.enter_func_attach(tr(70, 80), &Some(("h".to_string(), tr(70, 71))));
    assert!(matches!(&m.semantic_errors[1], AnalyzeError::FunctionUndefined { name, .. } if name == "h"));
}

fn lhs(shape: ExprShape, name: Option<&str>) -> LhsNode {
    LhsNode { range: tr(0, 1), trimmed: tr(0, 1), shape, name: name.map(|n| (n.to_string(), tr(0, 1))) }
}

#[test]
fn assignments() {
    let mut m = module();
    m.leave_assign_stmt(&AssignStmtNode { lhs: Some(lhs(ExprShape::Other, None)), rhs: Some(tr(4, 5)) });
    assert!(matches!(&m.semantic_errors[0], AnalyzeError::NotALValue { range } if *range == tr(0, 1)));
    let mut m = module();
    m.leave_func_f_param(&FuncFParamNode {
        is_variadic: false,
        name: Some(("c".to_string(), tr(0, 1))),
        ty: Some(TypeNode { range: tr(0, 3), trimmed: tr(0, 3), is_const: true, kind: TypeNodeKind::Primitive(Some(PrimitType::I32)) }),
    });
    m.set_expr_type(tr(0, 1), Ty::Const(Box::new(Ty::I32)));
    m.set_expr_type(tr(4, 5), Ty::I32);
    m.leave_assign_stmt(&AssignStmtNode { lhs: Some(lhs(ExprShape::IndexVal, Some("c"))), rhs: Some(tr(4, 5)) });
    assert!(matches!(&m.semantic_errors[0], AnalyzeError::AssignToConst { name, .. } if name == "c"));
    let mut m = module();
    m.set_expr_type(tr(0, 1), Ty::Const(Box::new(Ty::I32)));
    m.leave_assign_stmt(&AssignStmtNode { lhs: Some(lhs(ExprShape::PostfixExpr, None)), rhs: Some(tr(4, 5)) });
    assert!(matches!(&m.semantic_errors[0], AnalyzeError::AssignToConst { name, .. } if name == "field"));
    let mut m = module();
    m.set_expr_type(tr(0, 1), Ty::I32);
    m.set_expr_type(tr(4, 5), Ty::Void);
    m.leave_assign_stmt(&AssignStmtNode { lhs: Some(lhs(ExprShape::UnaryExpr(Some(airyc::syntax_kind::SyntaxKind::STAR)), None)), rhs: Some(tr(4, 5)) });
    assert!(matches!(&m.semantic_errors[0], AnalyzeError::TypeMismatch { expected: Ty::I32, found: Ty::Void, range } if *range == tr(4, 5)));
}
