use calc::evaluator::{classify, describe, Statement};
use calc::number::{factorial, sqrt, to_bool, to_calc_num, wrapping_pow};
use calc::operator::{
    op_associative, op_precedence, Associativity, BinaryOp, Operator, PostfixOp, PrefixOp,
};
use calc::text::decimal_text;
use calc::tree::apply_binary;
use calc::{
    eval, evaluate, generate_ast, get_vars, is_parens_correct, lexer, shunting_yard_algorithm,
    CalcError, CalcNumber, Expr, Token, VarStore,
};

fn value_of(text: &str) -> u32 {
    evaluate(&mut VarStore::new(), text).unwrap().0
}

fn error_of(text: &str) -> CalcError {
    evaluate(&mut VarStore::new(), text).unwrap_err()
}

fn plus(at: usize) -> Token {
    Token::Op(Operator::Binary(BinaryOp::Plus), at)
}

fn number(n: u32, at: usize) -> Token {
    Token::Number(CalcNumber(n), at)
}

fn leaf(n: u32) -> Box<Expr> {
    Box::new(Expr::Literal(CalcNumber(n)))
}

#[test]
fn digits_and_whitespace_spell_one_number() {
    assert_eq!(110200, value_of("1  10 200"));
    assert_eq!(12, value_of("1\t2"));
    assert_eq!(7, value_of("   7   "));
    assert_eq!(12, value_of("0 0 1 2"));
}

#[test]
fn nesting_around_a_number_is_ignored() {
    assert_eq!(12, value_of("((1 2))"));
    assert_eq!(5, value_of("()((5))()"));
    assert_eq!(42, value_of(" ( ( 4 2 ) ) "));
}

#[test]
fn a_number_literal_wraps_modulo_two_to_the_32() {
    assert_eq!(4294967295, value_of("4294967295"));
    assert_eq!(0, value_of("4294967296"));
    assert_eq!(1, value_of("4294967297"));
    assert_eq!(3567587328, value_of("1000000000000"));
}

#[test]
fn the_last_operand_wins_where_several_stand_side_by_side() {
    assert_eq!(2, value_of("(1)(2)"));
    assert_eq!(2, value_of("1(2)"));
}

#[test]
fn division_by_zero_reports_the_operator() {
    assert_eq!(CalcError::DivideByZero { offset: 1 }, error_of("1/0"));
    assert_eq!(CalcError::DivideByZero { offset: 3 }, error_of("10 % (2-2)"));
    let failure = eval(&mut VarStore::new(), "1/0".to_string()).unwrap_err();
    assert_eq!("Divided by zero", failure.0);
    assert_eq!(Some(1), failure.1);
}

#[test]
fn one_of_two_failing_operands_is_reported() {
    let failure = error_of("(1/0)+(2%0)");
    assert!(
        failure == CalcError::DivideByZero { offset: 2 }
            || failure == CalcError::DivideByZero { offset: 8 }
    );
    assert_eq!(CalcError::DivideByZero { offset: 8 }, error_of("(1/1)+(2%0)"));
}

#[test]
fn unbalanced_parentheses_are_reported_before_anything_else() {
    assert_eq!(CalcError::UnbalancedParenthesis, error_of("("));
    assert_eq!(CalcError::UnbalancedParenthesis, error_of("())"));
    assert_eq!(CalcError::UnbalancedParenthesis, error_of(")("));
    assert_eq!(CalcError::UnbalancedParenthesis, error_of("$ ("));
    assert_eq!(CalcError::UnbalancedParenthesis, error_of("a = (1"));
    let failure = eval(&mut VarStore::new(), "(".to_string()).unwrap_err();
    assert_eq!("Wrong parenthesis found", failure.0);
    assert_eq!(None, failure.1);
}

#[test]
fn balance_check_counts_nesting() {
    assert!(is_parens_correct(""));
    assert!(is_parens_correct("abc"));
    assert!(is_parens_correct("(()())"));
    assert!(!is_parens_correct("(()"));
    assert!(!is_parens_correct("())("));
    assert!(!is_parens_correct(")"));
}

#[test]
fn nothing_to_evaluate_is_no_result() {
    assert_eq!(CalcError::NoResult, error_of("()"));
    assert_eq!(CalcError::NoResult, error_of(""));
    assert_eq!(CalcError::NoResult, error_of("   "));
    let failure = eval(&mut VarStore::new(), "()".to_string()).unwrap_err();
    assert_eq!("No Result", failure.0);
    assert_eq!(None, failure.1);
}

#[test]
fn an_operator_without_operand_reports_its_offset() {
    assert_eq!(CalcError::MissingOperand { offset: 2 }, error_of("()+1"));
    assert_eq!(CalcError::MissingOperand { offset: 1 }, error_of("1+"));
    assert_eq!(CalcError::MissingOperand { offset: 0 }, error_of("!"));
    assert_eq!(CalcError::MissingOperand { offset: 2 }, error_of("  @"));
    let failure = eval(&mut VarStore::new(), "()+1".to_string()).unwrap_err();
    assert_eq!("Argumentum is missing", failure.0);
    assert_eq!(Some(2), failure.1);
}

#[test]
fn unknown_tokens_are_named_with_their_offset() {
    assert_eq!(CalcError::UnknownToken { offset: 4, len: 1 }, error_of("1 + $"));
    assert_eq!(CalcError::UnknownToken { offset: 2, len: 3 }, error_of("1+abc"));
    assert_eq!(CalcError::UnknownToken { offset: 0, len: 1 }, error_of("x"));
    assert_eq!(CalcError::UnknownToken { offset: 1, len: 1 }, error_of("1=2"));
    assert_eq!(CalcError::UnknownToken { offset: 2, len: 1 }, error_of("1 é 2"));
    let failure = eval(&mut VarStore::new(), "1+abc*2".to_string()).unwrap_err();
    assert_eq!("abc: Token cannot be parsed", failure.0);
    assert_eq!(Some(2), failure.1);
    let failure = eval(&mut VarStore::new(), "é".to_string()).unwrap_err();
    assert_eq!("é: Token cannot be parsed", failure.0);
    assert_eq!(Some(0), failure.1);
}

#[test]
fn lexing_stops_at_the_first_unknown_token() {
    assert_eq!(CalcError::UnknownToken { offset: 0, len: 1 }, error_of("$ 1/0 #"));
}

#[test]
fn subtraction_groups_to_the_left() {
    assert_eq!(4, value_of("10-4-2"));
    assert_eq!(8, value_of("10-(4-2)"));
    assert_eq!(4, value_of("16/2/2"));
    assert_eq!(1, value_of("7%4%2"));
}

#[test]
fn operands_keep_their_sides() {
    assert_eq!(4294967290, value_of("4-10"));
    assert_eq!(0, value_of("4/10"));
    assert_eq!(4, value_of("4%10"));
    assert_eq!(1, value_of("4<10"));
    assert_eq!(0, value_of("4>10"));
}

#[test]
fn precedence_orders_the_operators() {
    assert_eq!(16, value_of("5*3+10-18/2"));
    assert_eq!(14, value_of("2+3*4"));
    assert_eq!(1, value_of("1+1==2"));
    assert_eq!(1, value_of("1 || 0 && 0"));
    assert_eq!(18, value_of("2*3**2"));
    assert_eq!(36, value_of("3!**2"));
    assert_eq!(720, value_of("3!!"));
    assert_eq!(1, value_of("~5==0"));
}

#[test]
fn power_groups_to_the_right() {
    assert_eq!(512, value_of("2**3**2"));
    assert_eq!(256, value_of("2**2**3"));
    assert_eq!(64, value_of("(2**2)**3"));
}

#[test]
fn products_and_powers_wrap_silently() {
    assert_eq!(0, value_of("65536*65536"));
    assert_eq!(4086065549, value_of("12345*678901"));
    assert_eq!(0, value_of("2**32"));
    assert_eq!(1, value_of("2**33+1"));
    assert_eq!(689956897, value_of("3**40"));
    assert_eq!(3263197927, value_of("7**77"));
    assert_eq!(1, value_of("0**0"));
    assert_eq!(0, value_of("0**5"));
}

#[test]
fn sums_and_differences_wrap_silently() {
    assert_eq!(0, value_of("4294967295+1"));
    assert_eq!(4294967295, value_of("0-1"));
    assert_eq!(4294967294, value_of("4294967295+4294967295"));
}

#[test]
fn factorial_is_a_wrapping_product() {
    assert_eq!(CalcNumber(1), factorial(CalcNumber(0)));
    assert_eq!(CalcNumber(1), factorial(CalcNumber(1)));
    assert_eq!(CalcNumber(120), factorial(CalcNumber(5)));
    assert_eq!(CalcNumber(1932053504), factorial(CalcNumber(13)));
    assert_eq!(CalcNumber(2147483648), factorial(CalcNumber(33)));
    assert_eq!(CalcNumber(0), factorial(CalcNumber(34)));
    assert_eq!(CalcNumber(0), factorial(CalcNumber(4294967295)));
}

#[test]
fn square_root_is_the_floor_of_the_real_root() {
    assert_eq!(CalcNumber(0), sqrt(CalcNumber(0)));
    assert_eq!(CalcNumber(1), sqrt(CalcNumber(1)));
    assert_eq!(CalcNumber(1), sqrt(CalcNumber(3)));
    assert_eq!(CalcNumber(2), sqrt(CalcNumber(4)));
    assert_eq!(CalcNumber(3), sqrt(CalcNumber(15)));
    assert_eq!(CalcNumber(4), sqrt(CalcNumber(16)));
    assert_eq!(CalcNumber(65535), sqrt(CalcNumber(4294836225)));
    assert_eq!(CalcNumber(65534), sqrt(CalcNumber(4294836224)));
    assert_eq!(CalcNumber(65535), sqrt(CalcNumber(4294967295)));
}

#[test]
fn power_by_squaring_matches_repeated_multiplication() {
    assert_eq!(CalcNumber(1), wrapping_pow(CalcNumber(5), CalcNumber(0)));
    assert_eq!(CalcNumber(5), wrapping_pow(CalcNumber(5), CalcNumber(1)));
    assert_eq!(CalcNumber(1024), wrapping_pow(CalcNumber(2), CalcNumber(10)));
    assert_eq!(CalcNumber(268435456), wrapping_pow(CalcNumber(16), CalcNumber(7)));
    assert_eq!(CalcNumber(1), wrapping_pow(CalcNumber(1), CalcNumber(4294967295)));
    assert_eq!(CalcNumber(0), wrapping_pow(CalcNumber(2), CalcNumber(4294967295)));
}

#[test]
fn truth_values_are_zero_and_one() {
    assert!(!to_bool(CalcNumber(0)));
    assert!(to_bool(CalcNumber(1)));
    assert!(to_bool(CalcNumber(4294967295)));
    assert_eq!(CalcNumber(1), to_calc_num(true));
    assert_eq!(CalcNumber(0), to_calc_num(false));
}

#[test]
fn binary_operators_apply_to_numbers() {
    let a = CalcNumber(12);
    let b = CalcNumber(10);
    assert_eq!(Ok(CalcNumber(8)), apply_binary(BinaryOp::BitAnd, 0, a, b));
    assert_eq!(Ok(CalcNumber(14)), apply_binary(BinaryOp::BitOr, 0, a, b));
    assert_eq!(Ok(CalcNumber(6)), apply_binary(BinaryOp::BitXor, 0, a, b));
    assert_eq!(Ok(CalcNumber(1)), apply_binary(BinaryOp::And, 0, a, b));
    assert_eq!(Ok(CalcNumber(0)), apply_binary(BinaryOp::Xor, 0, a, b));
    assert_eq!(Ok(CalcNumber(1)), apply_binary(BinaryOp::Or, 0, a, CalcNumber(0)));
    assert_eq!(Ok(CalcNumber(1)), apply_binary(BinaryOp::Div, 0, a, b));
    assert_eq!(Ok(CalcNumber(2)), apply_binary(BinaryOp::Mod, 0, a, b));
    assert_eq!(
        Err(CalcError::DivideByZero { offset: 9 }),
        apply_binary(BinaryOp::Mod, 9, a, CalcNumber(0))
    );
    assert_eq!(Ok(CalcNumber(1)), apply_binary(BinaryOp::NotEqual, 0, a, b));
    assert_eq!(Ok(CalcNumber(1)), apply_binary(BinaryOp::Ge, 0, a, a));
    assert_eq!(Ok(CalcNumber(0)), apply_binary(BinaryOp::Le, 0, a, b));
}

#[test]
fn precedence_table() {
    assert_eq!(7, op_precedence(Operator::Postfix(PostfixOp::Factorial)));
    assert_eq!(6, op_precedence(Operator::Binary(BinaryOp::Pow)));
    assert_eq!(6, op_precedence(Operator::Prefix(PrefixOp::Sqrt)));
    assert_eq!(5, op_precedence(Operator::Binary(BinaryOp::Mod)));
    assert_eq!(4, op_precedence(Operator::Binary(BinaryOp::Minus)));
    assert_eq!(3, op_precedence(Operator::Binary(BinaryOp::Le)));
    assert_eq!(3, op_precedence(Operator::Prefix(PrefixOp::Not)));
    assert_eq!(2, op_precedence(Operator::Binary(BinaryOp::BitAnd)));
    assert_eq!(1, op_precedence(Operator::Binary(BinaryOp::Xor)));
    assert_eq!(Associativity::Right, op_associative(Operator::Binary(BinaryOp::Pow)));
    assert_eq!(Associativity::Right, op_associative(Operator::Prefix(PrefixOp::Sqrt)));
    assert_eq!(Associativity::Right, op_associative(Operator::Prefix(PrefixOp::Not)));
    assert_eq!(Associativity::Left, op_associative(Operator::Binary(BinaryOp::Minus)));
    assert_eq!(Associativity::Left, op_associative(Operator::Postfix(PostfixOp::Factorial)));
}

#[test]
fn tokens_carry_the_offsets_of_the_text() {
    let vars = VarStore::new();
    assert_eq!(Ok(vec![number(1, 0), plus(2), number(2, 4)]), lexer("1 + 2", 0, &vars));
    assert_eq!(Ok(vec![number(12, 1), plus(6), number(3, 7)]), lexer(" 1 2  +3", 0, &vars));
    assert_eq!(Ok(vec![plus(2), number(2, 4)]), lexer("1 + 2", 1, &vars));
    assert_eq!(Ok(vec![]), lexer("1 + 2", 5, &vars));
    assert_eq!(Ok(vec![]), lexer("1 + 2", 50, &vars));
}

#[test]
fn two_character_operators_are_read_whole() {
    let vars = VarStore::new();
    let binary = |op: BinaryOp, at: usize| Token::Op(Operator::Binary(op), at);
    assert_eq!(
        Ok(vec![
            binary(BinaryOp::Pow, 0),
            binary(BinaryOp::Mul, 2),
            binary(BinaryOp::Or, 3),
            binary(BinaryOp::BitOr, 5),
            binary(BinaryOp::And, 6),
            binary(BinaryOp::BitAnd, 8),
            binary(BinaryOp::Xor, 9),
            binary(BinaryOp::BitXor, 11),
        ]),
        lexer("***|||&&&^^^", 0, &vars)
    );
    assert_eq!(
        Ok(vec![
            binary(BinaryOp::Equal, 0),
            binary(BinaryOp::NotEqual, 2),
            Token::Op(Operator::Prefix(PrefixOp::Not), 4),
            binary(BinaryOp::Ge, 5),
            binary(BinaryOp::Gt, 7),
            binary(BinaryOp::Le, 8),
            binary(BinaryOp::Lt, 10),
        ]),
        lexer("==~=~>=><=<", 0, &vars)
    );
    assert_eq!(
        Ok(vec![
            Token::LParen(0),
            Token::Op(Operator::Prefix(PrefixOp::Sqrt), 1),
            Token::Op(Operator::Postfix(PostfixOp::Factorial), 2),
            binary(BinaryOp::Div, 3),
            binary(BinaryOp::Mod, 4),
            binary(BinaryOp::Minus, 5),
            Token::RParen(6),
        ]),
        lexer("(@!/%-)", 0, &vars)
    );
    assert_eq!(Err(CalcError::UnknownToken { offset: 2, len: 1 }), lexer("===", 0, &vars));
}

#[test]
fn postfix_order_follows_precedence_and_grouping() {
    let times = Token::Op(Operator::Binary(BinaryOp::Mul), 3);
    assert_eq!(
        vec![number(1, 0), number(2, 2), number(3, 4), times.clone(), plus(1)],
        shunting_yard_algorithm(vec![number(1, 0), plus(1), number(2, 2), times.clone(), number(3, 4)])
    );
    assert_eq!(
        vec![number(1, 1), number(2, 3), plus(2), number(3, 6), Token::Op(Operator::Binary(BinaryOp::Mul), 5)],
        shunting_yard_algorithm(vec![
            Token::LParen(0),
            number(1, 1),
            plus(2),
            number(2, 3),
            Token::RParen(4),
            Token::Op(Operator::Binary(BinaryOp::Mul), 5),
            number(3, 6),
        ])
    );
    assert_eq!(
        vec![number(1, 1), Token::LParen(0)],
        shunting_yard_algorithm(vec![Token::LParen(0), number(1, 1)])
    );
    assert_eq!(Vec::<Token>::new(), shunting_yard_algorithm(vec![]));
}

#[test]
fn the_operand_popped_first_is_the_right_one() {
    let minus = Token::Op(Operator::Binary(BinaryOp::Minus), 2);
    assert_eq!(
        Ok(Expr::Binary { op: BinaryOp::Minus, offset: 2, left: leaf(10), right: leaf(4) }),
        generate_ast(vec![number(10, 0), number(4, 3), minus])
    );
}

#[test]
fn unary_operators_wrap_the_top_of_the_stack() {
    assert_eq!(
        Ok(Expr::Postfix { op: PostfixOp::Factorial, offset: 1, operand: leaf(3) }),
        generate_ast(vec![number(3, 0), Token::Op(Operator::Postfix(PostfixOp::Factorial), 1)])
    );
    assert_eq!(
        Ok(Expr::Prefix { op: PrefixOp::Sqrt, offset: 0, operand: leaf(9) }),
        generate_ast(vec![number(9, 1), Token::Op(Operator::Prefix(PrefixOp::Sqrt), 0)])
    );
    assert_eq!(
        Ok(Expr::Reference(leaf(9))),
        generate_ast(vec![Token::Reference(Expr::Literal(CalcNumber(9)), 0)])
    );
    assert_eq!(Ok(Expr::Literal(CalcNumber(2))), generate_ast(vec![number(1, 0), number(2, 2)]));
    assert_eq!(Err(CalcError::NoResult), generate_ast(vec![Token::LParen(0), Token::RParen(1)]));
    assert_eq!(
        Err(CalcError::MissingOperand { offset: 1 }),
        generate_ast(vec![number(1, 0), plus(1), plus(2)])
    );
}

#[test]
fn trees_evaluate_and_copy() {
    let tree = Expr::Binary {
        op: BinaryOp::Div,
        offset: 7,
        left: leaf(9),
        right: Box::new(Expr::Reference(leaf(0))),
    };
    assert_eq!(Err(CalcError::DivideByZero { offset: 7 }), tree.eval());
    assert_eq!(tree, tree.clone());
    let root = Expr::Prefix { op: PrefixOp::Not, offset: 0, operand: leaf(0) };
    assert_eq!(Ok(CalcNumber(1)), root.eval());
}

#[test]
fn lines_are_told_apart() {
    assert_eq!(Statement::Plain, classify(""));
    assert_eq!(Statement::Plain, classify("1+a"));
    assert_eq!(Statement::Plain, classify("a+1"));
    assert_eq!(Statement::Plain, classify("a==1"));
    assert_eq!(Statement::Plain, classify("a b"));
    assert_eq!(Statement::Read { name_end: 3 }, classify("ab1"));
    assert_eq!(Statement::Read { name_end: 1 }, classify("a  "));
    assert_eq!(Statement::Assign { name_end: 1, start: 2 }, classify("a=1"));
    assert_eq!(Statement::Assign { name_end: 5, start: 7 }, classify("asd09 = 3"));
    assert_eq!(Statement::Assign { name_end: 1, start: 2 }, classify("a="));
    assert_eq!(Statement::Assign { name_end: 1, start: 3 }, classify("a = =1"));
}

#[test]
fn variables_are_bound_and_used() {
    let mut vars = VarStore::new();
    assert_eq!(Ok(CalcNumber(2)), evaluate(&mut vars, "a=(2+3)-3"));
    assert_eq!(Ok(CalcNumber(5)), evaluate(&mut vars, "1+a*2"));
    assert_eq!(Ok(CalcNumber(2)), evaluate(&mut vars, "a"));
    assert_eq!(Some(CalcNumber(2)), vars.get_result("a"));
    assert_eq!(None, vars.get_result("b"));
    assert_eq!(1, vars.len());
    let tokens = lexer("a", 0, &vars).unwrap();
    assert_eq!(vec![Token::Reference(vars.get_expr("a").unwrap(), 0)], tokens);
}

#[test]
fn a_captured_tree_does_not_follow_its_variable() {
    let mut vars = VarStore::new();
    assert_eq!(Ok(CalcNumber(2)), evaluate(&mut vars, "a = 2"));
    assert_eq!(Ok(CalcNumber(7)), evaluate(&mut vars, "b = a + 5"));
    let captured = vars.get_expr("b").unwrap();
    assert_eq!(Ok(CalcNumber(100)), evaluate(&mut vars, "a = 100"));
    assert_eq!(Ok(CalcNumber(7)), evaluate(&mut vars, "b"));
    assert_eq!(Ok(CalcNumber(7)), evaluate(&mut vars, "b + 0"));
    assert_eq!(Some(captured), vars.get_expr("b"));
    assert_eq!(Ok(CalcNumber(107)), evaluate(&mut vars, "a + b"));
    assert_eq!(2, vars.len());
}

#[test]
fn a_variable_may_be_bound_in_terms_of_itself() {
    let mut vars = VarStore::new();
    assert_eq!(Ok(CalcNumber(3)), evaluate(&mut vars, "n = 3"));
    assert_eq!(Ok(CalcNumber(4)), evaluate(&mut vars, "n = n + 1"));
    assert_eq!(Ok(CalcNumber(4)), evaluate(&mut vars, "n"));
    assert_eq!(vec!["n:  n + 1 => 4".to_string()], get_vars(&vars));
}

#[test]
fn a_failed_assignment_binds_nothing() {
    let mut vars = VarStore::new();
    assert_eq!(Err(CalcError::DivideByZero { offset: 5 }), evaluate(&mut vars, "a = 1/0"));
    assert_eq!(0, vars.len());
    assert_eq!(Ok(CalcNumber(5)), evaluate(&mut vars, "a = 5"));
    assert_eq!(Err(CalcError::MissingOperand { offset: 5 }), evaluate(&mut vars, "a = 1+"));
    assert_eq!(Err(CalcError::UnknownToken { offset: 4, len: 1 }), evaluate(&mut vars, "a = b"));
    assert_eq!(Err(CalcError::NoResult), evaluate(&mut vars, "a ="));
    assert_eq!(Ok(CalcNumber(5)), evaluate(&mut vars, "a"));
    assert_eq!(vec!["a:  5 => 5".to_string()], get_vars(&vars));
}

#[test]
fn a_doubled_equals_sign_is_a_comparison() {
    let mut vars = VarStore::new();
    assert_eq!(Ok(CalcNumber(2)), evaluate(&mut vars, "a=2"));
    assert_eq!(Ok(CalcNumber(1)), evaluate(&mut vars, "a==2"));
    assert_eq!(Ok(CalcNumber(0)), evaluate(&mut vars, "a == 3"));
    assert_eq!(Ok(CalcNumber(2)), evaluate(&mut vars, "a"));
    assert_eq!(Err(CalcError::UnknownToken { offset: 4, len: 1 }), evaluate(&mut vars, "a = = 2"));
}

#[test]
fn bindings_are_listed_in_the_order_of_their_names() {
    let mut vars = VarStore::new();
    assert_eq!(Vec::<String>::new(), get_vars(&vars));
    evaluate(&mut vars, "a=(2+3)-3").unwrap();
    evaluate(&mut vars, "asd09 = 3*(1+2+3)").unwrap();
    evaluate(&mut vars, "a=4294967295").unwrap();
    assert_eq!(
        vec!["a: 4294967295 => 4294967295".to_string(), "asd09:  3*(1+2+3) => 18".to_string()],
        get_vars(&vars)
    );
}

#[test]
fn numbers_are_written_in_decimal() {
    assert_eq!("0", decimal_text(0));
    assert_eq!("7", decimal_text(7));
    assert_eq!("10", decimal_text(10));
    assert_eq!("4294967295", decimal_text(4294967295));
}

#[test]
fn errors_are_put_in_words() {
    assert_eq!("Wrong parenthesis found", describe(CalcError::UnbalancedParenthesis, ""));
    assert_eq!("Divided by zero", describe(CalcError::DivideByZero { offset: 0 }, ""));
    assert_eq!("No Result", describe(CalcError::NoResult, ""));
    assert_eq!("Argumentum is missing", describe(CalcError::MissingOperand { offset: 0 }, ""));
    assert_eq!(
        "bc: Token cannot be parsed",
        describe(CalcError::UnknownToken { offset: 1, len: 2 }, "abcd")
    );
    assert_eq!(
        ": Token cannot be parsed",
        describe(CalcError::UnknownToken { offset: 3, len: 2 }, "abcd")
    );
    assert_eq!(
        ": Token cannot be parsed",
        describe(CalcError::UnknownToken { offset: usize::MAX, len: 2 }, "abcd")
    );
    assert_eq!(Some(3), CalcError::UnknownToken { offset: 3, len: 2 }.offset());
    assert_eq!(None, CalcError::NoResult.offset());
}
