use bytevm::ast::{ArrayPattern, Ast, Expr, PathPattern, StandardArrayPattern, StandardPattern, Type};
use bytevm::expr_parser::parse_expr;
use bytevm::instr::{Instruction, InstructionAddress, StackOffset};
use bytevm::vm::{Recorder, VM};
use bytevm::input::{Input, ParseError};
use bytevm::parser::parse;
use bytevm::pattern_parser::{parse_array_pattern, parse_path_pattern, parse_standard_pattern};
use bytevm::type_parser::parse_type;

#[test]
fn let_should_parse() -> Result<(), ParseError> {
    let mut input = Input::new("let x = 5 in x");
    let result = parse_expr(&mut input)?;
    assert!( matches!( result, Expr::Let { .. } ) );
    Ok(())
}

#[test]
fn cons_should_parse_non_param_cons() -> Result<(), ParseError> {
    let mut input = Input::new("SomeCons");
    let result = parse_expr(&mut input)?;
    assert!( matches!( result, Expr::Cons { .. } ) );
    Ok(())
}

#[test]
fn cons_should_parse_params_cons() -> Result<(), ParseError> {
    let mut input = Input::new("SomeCons(1, 2, 3)");
    let result = parse_expr(&mut input)?;
    assert!( matches!( result, Expr::Cons { .. } ) );
    Ok(())
}

#[test]
fn lambda_should_parse_no_param_lambda() -> Result<(), ParseError> {
    let mut input = Input::new("|| 5");
    let result = parse_expr(&mut input)?;
    assert!( matches!( result, Expr::Lambda { .. } ) );
    Ok(())
}

#[test]
fn lambda_should_parse_no_type_param_lambda() -> Result<(), ParseError> {
    let mut input = Input::new("|x| x");
    let result = parse_expr(&mut input)?;
    assert!( matches!( result, Expr::Lambda { .. } ) );
    Ok(())
}

#[test]
fn lambda_should_parse_no_type_params_lambda() -> Result<(), ParseError> {
    let mut input = Input::new("|x, y, z| Cons(x, y, z)");
    let result = parse_expr(&mut input)?;
    assert!( matches!( result, Expr::Lambda { .. } ) );
    Ok(())
}

#[test]
fn lambda_should_parse_type_param_lambda() -> Result<(), ParseError> {
    let mut input = Input::new("|x : Type| x");
    let result = parse_expr(&mut input)?;
    assert!( matches!( result, Expr::Lambda { .. } ) );
    Ok(())
}

#[test]
fn lambda_should_parse_type_params_lambda() -> Result<(), ParseError> {
    let mut input = Input::new("|x : Type, y : Type, z : Number| x");
    let result = parse_expr(&mut input)?;
    assert!( matches!( result, Expr::Lambda { .. } ) );
    Ok(())
}

#[test]
fn lambda_should_parse_type_params_lambda_with_return_type() -> Result<(), ParseError> {
    let mut input = Input::new("|x : Type, y : Type, z : Number| -> Type x");
    let result = parse_expr(&mut input)?;
    assert!( matches!( result, Expr::Lambda { .. } ) );
    Ok(())
}

#[test]
fn lambda_should_parse_lambda_with_return_type() -> Result<(), ParseError> {
    let mut input = Input::new("|| -> Number 5");
    let result = parse_expr(&mut input)?;
    assert!( matches!( result, Expr::Lambda { .. } ) );
    Ok(())
}

#[test]
fn lambda_should_parse_lambda_with_fun_return_type() -> Result<(), ParseError> {
    let mut input = Input::new("|| -> fun(Number) -> Number |x| x");
    let result = parse_expr(&mut input)?;
    assert!( matches!( result, Expr::Lambda { .. } ) );
    Ok(())
}

#[test]
fn array_should_parse_empty_array() -> Result<(), ParseError> {
    let mut input = Input::new("[]");
    let result = parse_expr(&mut input)?;
    assert!( matches!( result, Expr::Array(_) ) );
    Ok(())
}

#[test]
fn array_should_parse_array_with_one_item() -> Result<(), ParseError> {
    let mut input = Input::new("[4]");
    let result = parse_expr(&mut input)?;
    assert!( matches!( result, Expr::Array(_) ) );
    Ok(())
}

#[test]
fn array_should_parse_array() -> Result<(), ParseError> {
    let mut input = Input::new("[4, 6, 7]");
    let result = parse_expr(&mut input)?;
    assert!( matches!( result, Expr::Array(_) ) );
    Ok(())
}

#[test]
fn should_parse_function() -> Result<(), ParseError> {
    let result = parse("
        fun name ( a : T, b : T ) -> Number = 8;
    ")?;

    assert_eq!( result.len(), 1 );
    assert!( matches!( result[0], Ast::FunDef { .. } ) );
    Ok(())
}

#[test]
fn should_parse_data() -> Result<(), ParseError> {
    let result = parse("
        data X = H(X, Number) | Nil;
    ")?;

    assert_eq!( result.len(), 1 );
    assert!( matches!( result[0], Ast::DataDef { .. } ) );
    Ok(())
}

#[test]
fn standard_pattern_var_should_parse() -> Result<(), ParseError> {
    let mut input = Input::new("a");
    let result = parse_standard_pattern(&mut input)?;
    assert!( matches!( result, StandardPattern::Variable(_) ) );
    Ok(())
}

#[test]
fn standard_pattern_number_should_parse() -> Result<(), ParseError> {
    let mut input = Input::new("100");
    let result = parse_standard_pattern(&mut input)?;
    assert!( matches!( result, StandardPattern::Number(_) ) );
    Ok(())
}

#[test]
fn standard_pattern_bool_should_parse() -> Result<(), ParseError> {
    let mut input = Input::new("true");
    let result = parse_standard_pattern(&mut input)?;
    assert!( matches!( result, StandardPattern::Bool(_) ) );
    Ok(())
}

#[test]
fn standard_pattern_cons_should_parse() -> Result<(), ParseError> {
    let mut input = Input::new("Cons(A, A)");
    let result = parse_standard_pattern(&mut input)?;
    assert!( matches!( result, StandardPattern::Cons { .. } ) );
    Ok(())
}

#[test]
fn standard_pattern_at_should_parse() -> Result<(), ParseError> {
    let mut input = Input::new("x @ Cons(A, A)");
    let result = parse_standard_pattern(&mut input)?;
    assert!( matches!( result, StandardPattern::At { .. } ) );
    Ok(())
}

#[test]
fn standard_pattern_at_should_parse_recursive() -> Result<(), ParseError> {
    let mut input = Input::new("x @ y @ Cons(A, A)");
    let result = parse_standard_pattern(&mut input)?;
    assert!( matches!( result, StandardPattern::At { .. } ) );
    Ok(())
}

#[test]
fn standard_pattern_wildcard_should_parse() -> Result<(), ParseError> {
    let mut input = Input::new("_");
    let result = parse_standard_pattern(&mut input)?;
    assert!( matches!( result, StandardPattern::Wildcard ) );
    Ok(())
}

#[test]
fn standard_pattern_if_should_parse() -> Result<(), ParseError> {
    let mut input = Input::new("x if true");
    let result = parse_standard_pattern(&mut input)?;
    assert!( matches!( result, StandardPattern::If {..} ) );
    Ok(())
}

#[test]
fn standard_pattern_standard_array_should_parse_empty() -> Result<(), ParseError> {
    let mut input = Input::new("[]");
    let result = parse_standard_pattern(&mut input)?;
    assert!( matches!( result, StandardPattern::StandardArray{..} ) );
    Ok(())
}

#[test]
fn standard_pattern_standard_array_should_parse() -> Result<(), ParseError> {
    let mut input = Input::new("[x, y, z]");
    let result = parse_standard_pattern(&mut input)?;
    assert!( matches!( result, StandardPattern::StandardArray{..} ) );
    Ok(())
}

#[test]
fn standard_pattern_standard_array_should_parse_with_rest() -> Result<(), ParseError> {
    let mut input = Input::new("[x, y, z | r]");
    let result = parse_standard_pattern(&mut input)?;
    assert!( matches!( result, StandardPattern::StandardArray{..} ) );
    Ok(())
}

#[test]
fn path_pattern_var_should_parse() -> Result<(), ParseError> {
    let mut input = Input::new("a");
    let result = parse_path_pattern(&mut input)?;
    assert!( matches!( result, PathPattern::Variable(_) ) );
    Ok(())
}

#[test]
fn path_pattern_number_should_parse() -> Result<(), ParseError> {
    let mut input = Input::new("100");
    let result = parse_path_pattern(&mut input)?;
    assert!( matches!( result, PathPattern::Number(_) ) );
    Ok(())
}

#[test]
fn path_pattern_bool_should_parse() -> Result<(), ParseError> {
    let mut input = Input::new("true");
    let result = parse_path_pattern(&mut input)?;
    assert!( matches!( result, PathPattern::Bool(_) ) );
    Ok(())
}

#[test]
fn path_pattern_cons_should_parse() -> Result<(), ParseError> {
    let mut input = Input::new("Cons(A, A)");
    let result = parse_path_pattern(&mut input)?;
    assert!( matches!( result, PathPattern::Cons { .. } ) );
    Ok(())
}

#[test]
fn path_pattern_at_should_parse() -> Result<(), ParseError> {
    let mut input = Input::new("x @ Cons(A, A)");
    let result = parse_path_pattern(&mut input)?;
    assert!( matches!( result, PathPattern::At { .. } ) );
    Ok(())
}

#[test]
fn path_pattern_at_should_parse_recursive() -> Result<(), ParseError> {
    let mut input = Input::new("x @ y @ Cons(A, A)");
    let result = parse_path_pattern(&mut input)?;
    assert!( matches!( result, PathPattern::At { .. } ) );
    Ok(())
}

#[test]
fn path_pattern_wildcard_should_parse() -> Result<(), ParseError> {
    let mut input = Input::new("_");
    let result = parse_path_pattern(&mut input)?;
    assert!( matches!( result, PathPattern::Wildcard ) );
    Ok(())
}

#[test]
fn path_pattern_next_should_parse() -> Result<(), ParseError> {
    let mut input = Input::new("!");
    let result = parse_path_pattern(&mut input)?;
    assert!( matches!( result, PathPattern::Next(None)) );
    Ok(())
}

#[test]
fn path_pattern_next_with_order_should_parse() -> Result<(), ParseError> {
    let mut input = Input::new("!2");
    let result = parse_path_pattern(&mut input)?;
    assert!( matches!( result, PathPattern::Next(Some(2)) ) );
    Ok(())
}

#[test]
fn path_pattern_and_should_parse() -> Result<(), ParseError> {
    let mut input = Input::new("&path:output");
    let result = parse_path_pattern(&mut input)?;
    assert!( matches!( result, PathPattern::And { .. } ) );
    Ok(())
}

#[test]
fn path_pattern_next_and_should_parse() -> Result<(), ParseError> {
    let mut input = Input::new("!&path:output");
    let result = parse_path_pattern(&mut input)?;
    assert!( matches!( result, PathPattern::NextAnd {..} ) );
    Ok(())
}

#[test]
fn path_pattern_next_and_with_order_should_parse() -> Result<(), ParseError> {
    let mut input = Input::new("!2&path:output");
    let result = parse_path_pattern(&mut input)?;
    assert!( matches!( result, PathPattern::NextAnd {..} ) );
    Ok(())
}

#[test]
fn path_pattern_if_should_parse() -> Result<(), ParseError> {
    let mut input = Input::new("x if true");
    let result = parse_path_pattern(&mut input)?;
    assert!( matches!( result, PathPattern::If {..} ) );
    Ok(())
}

#[test]
fn path_pattern_standard_array_should_parse_empty() -> Result<(), ParseError> {
    let mut input = Input::new("[]");
    let result = parse_path_pattern(&mut input)?;
    assert!( matches!( result, PathPattern::StandardArray{..} ) );
    Ok(())
}

#[test]
fn path_pattern_standard_array_should_parse() -> Result<(), ParseError> {
    let mut input = Input::new("[x, y, z, !]");
    let result = parse_path_pattern(&mut input)?;
    assert!( matches!( result, PathPattern::StandardArray{..} ) );
    Ok(())
}

#[test]
fn path_pattern_standard_array_should_parse_with_rest() -> Result<(), ParseError> {
    let mut input = Input::new("[x, y, z, ! | r]");
    let result = parse_path_pattern(&mut input)?;
    assert!( matches!( result, PathPattern::StandardArray{..} ) );
    Ok(())
}

#[test]
fn should_parse_fun_type() -> Result<(), ParseError> {
    let mut input = Input::new("fun (a, B, c) -> D");
    let result = parse_type(&mut input)?;
    assert!( matches!( result, Type::Fun { .. } ) );
    Ok(())
}

#[test]
fn should_parse_fun_type_with_no_params() -> Result<(), ParseError> {
    let mut input = Input::new("fun () -> D");
    let result = parse_type(&mut input)?;
    assert!( matches!( result, Type::Fun { .. } ) );
    Ok(())
}

#[test]
fn should_parse_index_type() -> Result<(), ParseError> {
    let mut input = Input::new("A<a, b, C>");
    let result = parse_type(&mut input)?;
    assert!( matches!( result, Type::Index { .. } ) );
    Ok(())
}

#[test]
fn should_parse_concrete_type() -> Result<(), ParseError> {
    let mut input = Input::new("A");
    let result = parse_type(&mut input)?;
    assert!( matches!( result, Type::Concrete(_) ) );
    Ok(())
}

#[test]
fn should_parse_generic_type() -> Result<(), ParseError> {
    let mut input = Input::new("a");
    let result = parse_type(&mut input)?;
    assert!( matches!( result, Type::Generic(_) ) );
    Ok(())
}

#[test]
fn should_parse_everything() -> Result<(), ParseError> {
    let mut input = Input::new("fun (A<fun(a) -> B>, [C<d>], [fun() -> X]) -> fun () -> X<a, b>");
    let result = parse_type(&mut input)?;
    assert!( matches!( result, Type::Fun {..} ) );
    Ok(())
}

#[test]
fn parse_of_only_junk_is_empty() {
    let result = parse("  # nothing here\n\t").unwrap();
    assert_eq!(result.len(), 0);
    let result = parse("").unwrap();
    assert_eq!(result.len(), 0);
}

#[test]
fn parse_reports_fatal_context_outward() {
    let e = parse("fun f(a : T) -> Number = ;").unwrap_err();
    match e {
        ParseError::Fatal(fs) => assert_eq!(fs, vec!["fun must have an expr".to_string()]),
        ParseError::Error => panic!("expected a fatal failure"),
    }
    let e = parse("data X = H(X, Number)").unwrap_err();
    match e {
        ParseError::Fatal(fs) => assert_eq!(
            fs,
            vec!["data definition must end with ;".to_string(), "data definition must have data defs".to_string()]
        ),
        ParseError::Error => panic!("expected a fatal failure"),
    }
}

#[test]
fn parse_reads_several_definitions_in_order() {
    let result = parse("data B = T | F; fun id(x : B) -> B = x; # done").unwrap();
    assert_eq!(result.len(), 2);
    assert!(matches!(&result[0], Ast::DataDef { name, cons_defs } if name == "B" && cons_defs.len() == 2));
    assert!(matches!(&result[1], Ast::FunDef { name, params, .. } if name == "id" && params.len() == 1));
}

#[test]
fn let_with_type_keeps_its_parts() {
    let mut input = Input::new("let x : Number = 5 in x");
    let result = parse_expr(&mut input).unwrap();
    match result {
        Expr::Let { name, t, value, expr } => {
            assert_eq!(name, "x");
            assert!(matches!(t, Some(Type::Concrete(n)) if n == "Number"));
            assert!(matches!(*value, Expr::Number(5)));
            assert!(matches!(*expr, Expr::Variable(v) if v == "x"));
        },
        _ => panic!("expected a let"),
    }
}

#[test]
fn index_type_holds_its_parameters() {
    let mut input = Input::new("A<a, [B]>");
    match parse_type(&mut input).unwrap() {
        Type::Index { name, params } => {
            assert_eq!(name, "A");
            assert_eq!(params.len(), 2);
            assert!(matches!(&params[0], Type::Generic(g) if g == "a"));
            assert!(matches!(&params[1], Type::Array(_)));
        },
        _ => panic!("expected an index type"),
    }
    let mut input = Input::new("A<a");
    assert!(matches!(parse_type(&mut input), Err(ParseError::Fatal(_))));
}

#[test]
fn array_patterns_parse() {
    let mut input = Input::new("[x, _ | r]");
    match parse_array_pattern(&mut input).unwrap() {
        ArrayPattern::StandardArray(StandardArrayPattern::Array { items, rest }) => {
            assert_eq!(items.len(), 2);
            assert!(matches!(&items[1], ArrayPattern::Wildcard));
            assert!(rest.is_some());
        },
        _ => panic!("expected an array pattern"),
    }
    let mut input = Input::new("n @ Cons(1, true) if x");
    match parse_array_pattern(&mut input).unwrap() {
        ArrayPattern::At { name, pattern } => {
            assert_eq!(name, "n");
            assert!(matches!(*pattern, ArrayPattern::If { .. }));
        },
        _ => panic!("expected an at pattern"),
    }
}

#[test]
fn path_next_carries_its_order() {
    let mut input = Input::new("!&p:o");
    match parse_path_pattern(&mut input).unwrap() {
        PathPattern::NextAnd { order, name, output } => {
            assert!(order.is_none());
            assert_eq!(name, "p");
            assert_eq!(output, "o");
        },
        _ => panic!("expected a next-and pattern"),
    }
    let mut input = Input::new("x @");
    assert!(matches!(parse_standard_pattern(&mut input), Err(ParseError::Fatal(_))));
    let _ = StandardPattern::Wildcard;
}

#[test]
fn atoms_parse_after_junk() {
    let mut input = Input::new("  # c\n  letter");
    assert!(matches!(parse_expr(&mut input).unwrap(), Expr::Variable(v) if v == "letter"));
    let mut input = Input::new(" 42 ");
    assert!(matches!(parse_expr(&mut input).unwrap(), Expr::Number(42)));
    assert_eq!(input.position(), 3);
    let mut input = Input::new("false");
    assert!(matches!(parse_expr(&mut input).unwrap(), Expr::Bool(false)));
    let mut input = Input::new(" funny");
    assert!(matches!(parse_type(&mut input).unwrap(), Type::Generic(g) if g == "funny"));
    let mut input = Input::new("Number ,");
    assert!(matches!(parse_type(&mut input).unwrap(), Type::Concrete(c) if c == "Number"));
    assert_eq!(input.position(), 7);
    let mut input = Input::new("7 , x");
    assert!(matches!(parse_path_pattern(&mut input).unwrap(), PathPattern::Number(7)));
    assert_eq!(input.position(), 2);
}

#[test]
fn parse_stops_where_no_definition_starts() {
    assert_eq!(parse("  function f").unwrap().len(), 0);
    let result = parse("data A = B; then more").unwrap();
    assert_eq!(result.len(), 1);
}

fn fatal_messages(e: ParseError) -> Vec<String> {
    match e {
        ParseError::Fatal(fs) => fs,
        ParseError::Error => panic!("expected a fatal failure"),
    }
}

#[test]
fn committed_constructs_report_their_messages() {
    let mut input = Input::new("[, x]");
    let e = parse_standard_pattern(&mut input).unwrap_err();
    assert_eq!(fatal_messages(e), vec!["standard array pattern must have patterns after [".to_string()]);
    let mut input = Input::new("fun -> A");
    let e = parse_type(&mut input).unwrap_err();
    assert_eq!(
        fatal_messages(e),
        vec!["fun type must have opening '('".to_string(), "fun type must have param list".to_string()]
    );
    assert_eq!(fatal_messages(parse("fun Name() -> A = 1;").unwrap_err()), vec!["fun must have a name".to_string()]);
    assert_eq!(fatal_messages(parse("data x = A;").unwrap_err()), vec!["data definition must have a name".to_string()]);
    assert_eq!(fatal_messages(parse("data X A;").unwrap_err()), vec!["data definition must have a =".to_string()]);
    let mut input = Input::new("]");
    assert!(matches!(parse_path_pattern(&mut input), Err(ParseError::Error)));
}

#[test]
fn constructors_and_lambdas_keep_their_parts() {
    let mut input = Input::new("Some x");
    match parse_expr(&mut input).unwrap() {
        Expr::Cons { name, params } => {
            assert_eq!(name, "Some");
            assert!(params.is_empty());
        },
        _ => panic!("expected a constructor"),
    }
    let mut input = Input::new("|| 1");
    assert!(matches!(parse_expr(&mut input).unwrap(), Expr::Lambda { params, .. } if params.is_empty()));
    let mut input = Input::new("[]");
    assert!(matches!(parse_path_pattern(&mut input).unwrap(), PathPattern::StandardArray(StandardArrayPattern::Empty)));
}

#[test]
fn type_lists_hold_their_types() {
    let mut input = Input::new("fun (a, B, c) -> D");
    match parse_type(&mut input).unwrap() {
        Type::Fun { input: params, output } => {
            assert_eq!(params.len(), 3);
            assert!(matches!(&params[0], Type::Generic(n) if n == "a"));
            assert!(matches!(&params[1], Type::Concrete(n) if n == "B"));
            assert!(matches!(&params[2], Type::Generic(n) if n == "c"));
            assert!(matches!(*output, Type::Concrete(n) if n == "D"));
        },
        _ => panic!("expected a function type"),
    }
    let mut input = Input::new("A<a, b, C>");
    match parse_type(&mut input).unwrap() {
        Type::Index { name, params } => {
            assert_eq!(name, "A");
            assert!(matches!(&params[..], [Type::Generic(x), Type::Generic(y), Type::Concrete(z)]
                if x == "a" && y == "b" && z == "C"));
        },
        _ => panic!("expected an index type"),
    }
}

#[test]
fn path_orders_and_guards_are_kept() {
    let mut input = Input::new("!2");
    assert!(matches!(parse_path_pattern(&mut input).unwrap(), PathPattern::Next(Some(2))));
    let mut input = Input::new("!2&path:output");
    assert!(matches!(parse_path_pattern(&mut input).unwrap(),
        PathPattern::NextAnd { order: Some(2), name, output } if name == "path" && output == "output"));
    let mut input = Input::new("x if true");
    match parse_path_pattern(&mut input).unwrap() {
        PathPattern::If { pattern, predicate } => {
            assert!(matches!(*pattern, PathPattern::Variable(x) if x == "x"));
            assert!(matches!(*predicate, Expr::Bool(true)));
        },
        _ => panic!("expected a guarded pattern"),
    }
    let mut input = Input::new("let x = 5 in x");
    assert!(matches!(parse_expr(&mut input).unwrap(), Expr::Let { t: None, .. }));
    let mut input = Input::new("|| -> Number 5");
    match parse_expr(&mut input).unwrap() {
        Expr::Lambda { params, return_type, expr } => {
            assert!(params.is_empty());
            assert!(matches!(return_type, Some(Type::Concrete(n)) if n == "Number"));
            assert!(matches!(*expr, Expr::Number(5)));
        },
        _ => panic!("expected a lambda"),
    }
}

#[test]
fn recorder_keeps_every_line() {
    let mut sys = Recorder::new();
    let mut vm = VM::new(
        vec![Instruction::ConsNumber(3), Instruction::PushReturnPointerToStack, Instruction::Print(StackOffset(0)),
            Instruction::Print(StackOffset(0)), Instruction::Exit],
        InstructionAddress(0),
    );
    assert_eq!(vm.run(&mut sys), Ok(()));
    assert_eq!(sys.prints, vec!["3".to_string(), "3".to_string()]);
}

#[test]
fn array_patterns_keep_items_and_rest() {
    let mut input = Input::new("[x, y, z | r]");
    match parse_standard_pattern(&mut input).unwrap() {
        StandardPattern::StandardArray(StandardArrayPattern::Array { items, rest }) => {
            assert!(matches!(&items[..], [StandardPattern::Variable(a), StandardPattern::Variable(b), StandardPattern::Variable(c)]
                if a == "x" && b == "y" && c == "z"));
            assert!(matches!(rest.as_deref(), Some(StandardPattern::Variable(r)) if r == "r"));
        },
        _ => panic!("expected an array pattern"),
    }
    let mut input = Input::new("[x, y, z, ! | r]");
    match parse_path_pattern(&mut input).unwrap() {
        PathPattern::StandardArray(StandardArrayPattern::Array { items, rest }) => {
            assert_eq!(items.len(), 4);
            assert!(matches!(&items[3], PathPattern::Next(None)));
            assert!(matches!(rest.as_deref(), Some(PathPattern::Variable(r)) if r == "r"));
        },
        _ => panic!("expected an array pattern"),
    }
    let mut input = Input::new("SomeCons(1, 2, 3)");
    match parse_expr(&mut input).unwrap() {
        Expr::Cons { name, params } => {
            assert_eq!(name, "SomeCons");
            assert!(matches!(&params[..], [Expr::Number(1), Expr::Number(2), Expr::Number(3)]));
        },
        _ => panic!("expected a constructor"),
    }
}

#[test]
fn definitions_keep_their_parts() {
    assert_eq!(fatal_messages(parse("fun name(a : T) = 8;").unwrap_err()), vec!["fun must have ->".to_string()]);
    let result = parse("fun name ( a : T, b : T ) -> Number = 8;").unwrap();
    match &result[0] {
        Ast::FunDef { name, params, return_type, expr } => {
            assert_eq!(name, "name");
            assert_eq!(params.len(), 2);
            assert_eq!(params[1].name, "b");
            assert!(matches!(&params[1].t, Some(Type::Concrete(t)) if t == "T"));
            assert!(matches!(return_type, Type::Concrete(t) if t == "Number"));
            assert!(matches!(expr, Expr::Number(8)));
        },
        _ => panic!("expected a function definition"),
    }
    let result = parse("data X = H(X, Number) | Nil;").unwrap();
    match &result[0] {
        Ast::DataDef { name, cons_defs } => {
            assert_eq!(name, "X");
            assert_eq!(cons_defs.len(), 2);
            assert_eq!(cons_defs[0].name, "H");
            assert_eq!(cons_defs[0].params.len(), 2);
            assert_eq!(cons_defs[1].name, "Nil");
            assert!(cons_defs[1].params.is_empty());
        },
        _ => panic!("expected a data definition"),
    }
}

#[test]
fn trailing_comma_in_array_pattern_is_fatal() {
    let mut input = Input::new("[x, ]");
    let e = parse_standard_pattern(&mut input).unwrap_err();
    assert_eq!(fatal_messages(e), vec!["standard array pattern must have patterns after [".to_string()]);
    let mut input = Input::new("[x, !, ]");
    let e = parse_path_pattern(&mut input).unwrap_err();
    assert_eq!(fatal_messages(e), vec!["standard array pattern must have patterns after [".to_string()]);
}
