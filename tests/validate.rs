use starlark::syntax::{Argument, AstArgument, AstExpr, AstParameter, AstStmt, Expr, Parameter, Span, Spanned, Stmt};
use starlark::validate::{
    ArgumentDefinitionOrderError, ArgumentUseOrderError, Diagnostic, ValidateError,
};

fn sp(b: u32) -> Span {
    Span { begin: b, end: b + 1 }
}

fn name(n: &str, b: u32) -> Spanned<String> {
    Spanned::new(n.to_string(), sp(b))
}

fn ident(n: &str) -> AstExpr {
    Spanned::new(Expr::Identifier(name(n, 0)), sp(0))
}

fn pos(b: u32) -> AstArgument {
    Spanned::new(Argument::Positional(ident("x")), sp(b))
}

fn named(n: &str, b: u32) -> AstArgument {
    Spanned::new(Argument::Named(name(n, b + 100), ident("x")), sp(b))
}

fn star(b: u32) -> AstArgument {
    Spanned::new(Argument::ArgsArray(ident("x")), sp(b))
}

fn kwargs(b: u32) -> AstArgument {
    Spanned::new(Argument::KWArgsDict(ident("x")), sp(b))
}

fn call(args: Vec<AstArgument>) -> Result<(), Diagnostic<ArgumentDefinitionOrderError>> {
    Expr::check_call(ident("f"), args).map(|_| ())
}

#[test]
fn call_in_stage_order_is_accepted() {
    assert_eq!(Ok(()), call(vec![]));
    assert_eq!(Ok(()), call(vec![pos(0), pos(1), named("a", 2), named("b", 3), star(4), kwargs(5)]));
    assert_eq!(Ok(()), call(vec![star(0), kwargs(1)]));
    assert_eq!(Ok(()), call(vec![kwargs(0)]));
}

#[test]
fn call_returns_the_call_node() {
    let r = Expr::check_call(ident("f"), vec![pos(0)]).unwrap();
    match r {
        Expr::Call(f, args) => {
            assert!(matches!(f.node, Expr::Identifier(_)));
            assert_eq!(1, args.len());
        }
        _ => panic!("not a call"),
    }
}

#[test]
fn call_errors_name_the_first_offender() {
    assert_eq!(
        Err(Diagnostic { error: ArgumentDefinitionOrderError::PositionalThenNonPositional, span: sp(1) }),
        call(vec![named("a", 0), pos(1), pos(2)])
    );
    assert_eq!(
        Err(Diagnostic { error: ArgumentDefinitionOrderError::NamedArgumentAfterStars, span: sp(1) }),
        call(vec![star(0), named("a", 1)])
    );
    assert_eq!(
        Err(Diagnostic { error: ArgumentDefinitionOrderError::RepeatedNamed, span: sp(102) }),
        call(vec![named("a", 0), named("b", 1), named("a", 2)])
    );
    assert_eq!(
        Err(Diagnostic { error: ArgumentDefinitionOrderError::ArgsArrayAfterArgsOrKwargs, span: sp(1) }),
        call(vec![star(0), star(1)])
    );
    assert_eq!(
        Err(Diagnostic { error: ArgumentDefinitionOrderError::ArgsArrayAfterArgsOrKwargs, span: sp(1) }),
        call(vec![kwargs(0), star(1)])
    );
    assert_eq!(
        Err(Diagnostic { error: ArgumentDefinitionOrderError::MultipleKwargs, span: sp(1) }),
        call(vec![kwargs(0), kwargs(1)])
    );
}

fn normal(n: &str, b: u32) -> AstParameter {
    Spanned::new(Parameter::Normal(name(n, b)), sp(b))
}

fn dflt(n: &str, b: u32) -> AstParameter {
    Spanned::new(Parameter::WithDefaultValue(name(n, b), Box::new(ident("v"))), sp(b))
}

fn no_args(b: u32) -> AstParameter {
    Spanned::new(Parameter::NoArgs, sp(b))
}

fn args(n: &str, b: u32) -> AstParameter {
    Spanned::new(Parameter::Args(name(n, b)), sp(b))
}

fn kw(n: &str, b: u32) -> AstParameter {
    Spanned::new(Parameter::KWArgs(name(n, b)), sp(b))
}

fn pass() -> AstStmt {
    Spanned::new(Stmt::Pass, sp(0))
}

fn def(params: Vec<AstParameter>) -> Result<(), Diagnostic<ArgumentUseOrderError>> {
    Stmt::check_def(name("f", 0), params, None, pass()).map(|_| ())
}

#[test]
fn def_in_kind_order_is_accepted() {
    assert_eq!(Ok(()), def(vec![]));
    assert_eq!(Ok(()), def(vec![normal("a", 0), dflt("b", 1), args("c", 2), dflt("d", 3), kw("e", 4)]));
    assert_eq!(Ok(()), def(vec![normal("a", 0), no_args(1), dflt("d", 2)]));
}

#[test]
fn def_errors_name_the_first_offender() {
    assert_eq!(
        Err(Diagnostic { error: ArgumentUseOrderError::DuplicateParameterName, span: sp(1) }),
        def(vec![normal("a", 0), normal("a", 1)])
    );
    assert_eq!(
        Err(Diagnostic { error: ArgumentUseOrderError::PositionalThenNonPositional, span: sp(1) }),
        def(vec![dflt("a", 0), normal("b", 1)])
    );
    assert_eq!(
        Err(Diagnostic { error: ArgumentUseOrderError::PositionalThenNonPositional, span: sp(1) }),
        def(vec![args("a", 0), normal("b", 1)])
    );
    assert_eq!(
        Err(Diagnostic { error: ArgumentUseOrderError::DefaultParameterAfterStars, span: sp(1) }),
        def(vec![kw("a", 0), dflt("b", 1)])
    );
    assert_eq!(
        Err(Diagnostic { error: ArgumentUseOrderError::ArgsParameterAfterStars, span: sp(1) }),
        def(vec![args("a", 0), no_args(1)])
    );
    assert_eq!(
        Err(Diagnostic { error: ArgumentUseOrderError::ArgsParameterAfterStars, span: sp(1) }),
        def(vec![kw("a", 0), args("b", 1)])
    );
    assert_eq!(
        Err(Diagnostic { error: ArgumentUseOrderError::MultipleKwargs, span: sp(1) }),
        def(vec![kw("a", 0), kw("b", 1)])
    );
}

#[test]
fn def_checks_the_name_before_the_order() {
    assert_eq!(
        Err(Diagnostic { error: ArgumentUseOrderError::DuplicateParameterName, span: sp(1) }),
        def(vec![kw("a", 0), dflt("a", 1)])
    );
}

fn brk(b: u32) -> AstStmt {
    Spanned::new(Stmt::Break, sp(b))
}

fn cont(b: u32) -> AstStmt {
    Spanned::new(Stmt::Continue, sp(b))
}

fn block(stmts: Vec<AstStmt>) -> AstStmt {
    Spanned::new(Stmt::Statements(stmts), sp(0))
}

fn for_loop(body: AstStmt) -> AstStmt {
    Spanned::new(Stmt::For(ident("x"), ident("xs"), Box::new(body)), sp(0))
}

fn def_stmt(body: AstStmt) -> AstStmt {
    Spanned::new(Stmt::Def(name("g", 0), vec![], None, Box::new(body)), sp(0))
}

fn if_stmt(body: AstStmt) -> AstStmt {
    Spanned::new(Stmt::If(ident("c"), Box::new(body)), sp(0))
}

#[test]
fn break_and_continue_inside_a_loop_are_accepted() {
    let body = block(vec![pass(), if_stmt(brk(1)), cont(2)]);
    assert_eq!(Ok(()), Stmt::validate_break_continue(&for_loop(body)));
    let nested = for_loop(block(vec![for_loop(brk(1)), cont(2)]));
    assert_eq!(Ok(()), Stmt::validate_break_continue(&nested));
}

#[test]
fn break_and_continue_outside_a_loop_fail() {
    assert_eq!(
        Err(Diagnostic { error: ValidateError::BreakOutsideLoop, span: sp(3) }),
        Stmt::validate_break_continue(&block(vec![pass(), brk(3), cont(4)]))
    );
    assert_eq!(
        Err(Diagnostic { error: ValidateError::ContinueOutsideLoop, span: sp(4) }),
        Stmt::validate_break_continue(&if_stmt(cont(4)))
    );
}

#[test]
fn a_loop_does_not_reach_into_a_nested_def() {
    let s = for_loop(block(vec![def_stmt(block(vec![brk(7)]))]));
    assert_eq!(
        Err(Diagnostic { error: ValidateError::BreakOutsideLoop, span: sp(7) }),
        Stmt::validate_break_continue(&s)
    );
    let inner_loop = def_stmt(for_loop(cont(8)));
    assert_eq!(Ok(()), Stmt::validate_break_continue(&inner_loop));
    let else_branch = Spanned::new(Stmt::IfElse(ident("c"), Box::new(pass()), Box::new(cont(9))), sp(0));
    assert_eq!(
        Err(Diagnostic { error: ValidateError::ContinueOutsideLoop, span: sp(9) }),
        Stmt::validate_break_continue(&else_branch)
    );
}
