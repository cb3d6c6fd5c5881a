use easyparse::{
    alphanumeric, assignment, between, char, choice, digit, evaluate, evaluate_checked,
    expression, factor, identifier, letter, many, many1, number, optional, parse_and_evaluate,
    parse_and_evaluate_checked, parse_error, primary, satisfy, skip_whitespace, statement, string,
    term, whitespace, BinOp, Context, DigitsToNumber, Expr, JoinChars, Mapper, ParseError, Parser,
};

fn err(message: &str) -> ParseError {
    ParseError { message: message.to_string(), position: 0 }
}

fn num(n: i32) -> Box<Expr> {
    Box::new(Expr::Number(n))
}

fn bin(op: BinOp, left: Box<Expr>, right: Box<Expr>) -> Box<Expr> {
    Box::new(Expr::BinaryOp { op, left, right })
}

#[test]
fn char_error_messages() {
    assert_eq!(char('a').parse("xyz"), Err(err("Expected 'a', found 'x'")));
    assert_eq!(char('a').parse(""), Err(err("Expected 'a', found EOF")));
    assert_eq!(char('é').parse("éa"), Ok(('é', "a")));
}

#[test]
fn string_error_message_and_unicode() {
    assert_eq!(string("hello").parse("help"), Err(err("Expected 'hello'")));
    assert_eq!(string("hé").parse("héllo"), Ok(("hé".to_string(), "llo")));
    assert_eq!(string("").parse("abc"), Ok(("".to_string(), "abc")));
}

#[test]
fn satisfy_with_a_closure() {
    let parser = satisfy(|c: char| c == 'x');
    assert_eq!(parser.parse("xy"), Ok(('x', "y")));
    assert_eq!(parser.parse("yx"), Err(err("Character doesn't satisfy predicate")));
    assert_eq!(parser.parse(""), Err(err("Unexpected EOF")));
}

#[test]
fn character_classes() {
    assert_eq!(letter().parse("é1"), Ok(('é', "1")));
    assert!(letter().parse("1a").is_err());
    assert_eq!(alphanumeric().parse("7x"), Ok(('7', "x")));
    assert!(alphanumeric().parse("_x").is_err());
    assert_eq!(whitespace().parse("\tx"), Ok(('\t', "x")));
    assert!(whitespace().parse("x").is_err());
    assert_eq!(digit().parse("9"), Ok(('9', "")));
    assert!(digit().parse("٣").is_err());
}

#[test]
fn skip_whitespace_skips_exactly_leading_whitespace() {
    assert_eq!(skip_whitespace().parse("  \n\t x y"), Ok(((), "x y")));
    assert_eq!(skip_whitespace().parse("x"), Ok(((), "x")));
    assert_eq!(skip_whitespace().parse(""), Ok(((), "")));
}

#[test]
fn number_reads_the_whole_run_of_digits() {
    assert_eq!(number().parse("007x"), Ok((7, "x")));
    assert_eq!(number().parse("2147483647"), Ok((2147483647, "")));
    assert_eq!(number().parse("2147483648"), Ok((0, "")));
    assert_eq!(number().parse("99999999999+1"), Ok((0, "+1")));
    assert_eq!(number().parse("x1"), Err(err("Character doesn't satisfy predicate")));
    assert_eq!(number().parse(""), Err(err("Unexpected EOF")));
}

#[test]
fn digits_to_number_mapping() {
    assert_eq!(DigitsToNumber.apply(vec!['1', '2']), 12);
    assert_eq!(DigitsToNumber.apply(vec!['1', 'a']), 0);
    assert_eq!(DigitsToNumber.apply(vec![]), 0);
}

#[test]
fn join_chars_mapping() {
    assert_eq!(JoinChars.apply(('a', vec!['b', 'c'])), "abc".to_string());
    assert_eq!(JoinChars.apply(('z', vec![])), "z".to_string());
}

#[test]
fn between_keeps_the_middle_value() {
    let parser = between(char('('), char(')'), number());
    assert_eq!(parser.parse("(42)rest"), Ok((42, "rest")));
    assert_eq!(parser.parse("(42"), Err(err("Expected ')', found EOF")));
    assert_eq!(parser.parse("42)"), Err(err("Expected '(', found '4'")));
    // between agrees with a sequence that keeps the middle value
    let sequence = easyparse::combinators::seq(char('('), easyparse::combinators::seq(number(), char(')')));
    assert_eq!(sequence.parse("(42)rest"), Ok((('(', (42, ')')), "rest")));
}

#[test]
fn many_of_satisfy_reads_the_longest_prefix() {
    assert_eq!(many(digit()).parse("12ab"), Ok((vec!['1', '2'], "ab")));
    assert_eq!(many(digit()).parse("ab"), Ok((vec![], "ab")));
}

#[test]
fn many1_is_many_with_at_least_one_value() {
    assert_eq!(many1(digit()).parse("12ab"), many(digit()).parse("12ab"));
    assert_eq!(many1(digit()).parse("ab"), Err(err("Character doesn't satisfy predicate")));
}

#[test]
fn many_and_optional_never_fail() {
    assert_eq!(optional(digit()).parse(""), Ok((None, "")));
    assert_eq!(optional(digit()).parse("5"), Ok((Some('5'), "")));
    assert!(many(char('z')).parse("abc").is_ok());
}

#[test]
fn choice_is_associative() {
    for input in ["abc", "bcd", "cde", "xyz", ""] {
        let left = choice(char('a'), choice(char('b'), char('c')));
        let right = choice(choice(char('a'), char('b')), char('c'));
        assert_eq!(left.parse(input), right.parse(input));
    }
}

#[test]
fn seq_is_associative_up_to_grouping() {
    for input in ["abcd", "abx", "ax", ""] {
        let left = easyparse::combinators::seq(char('a'), easyparse::combinators::seq(char('b'), char('c')))
            .parse(input);
        let right = easyparse::combinators::seq(easyparse::combinators::seq(char('a'), char('b')), char('c'))
            .parse(input);
        match (left, right) {
            (Ok(((x, (y, z)), r1)), Ok((((x2, y2), z2), r2))) => {
                assert_eq!((x, y, z, r1), (x2, y2, z2, r2));
            }
            (Err(e1), Err(e2)) => assert_eq!(e1, e2),
            _ => panic!("the two groupings disagree"),
        }
    }
}

#[test]
fn identifier_rules() {
    assert_eq!(identifier().parse("a1_b c"), Ok(("a1_b".to_string(), " c")));
    assert!(identifier().parse("1abc").is_err());
    assert_eq!(identifier().parse("_"), Ok(("_".to_string(), "")));
}

#[test]
fn grammar_parsers() {
    assert_eq!(
        primary().parse("( 1 + 2 )*3"),
        Ok((*bin(BinOp::Add, num(1), num(2)), "*3"))
    );
    assert_eq!(
        factor().parse("2 * 3 + 1"),
        Ok((*bin(BinOp::Multiply, num(2), num(3)), "+ 1"))
    );
    assert_eq!(term().parse("1 - 2 x"), Ok((*bin(BinOp::Subtract, num(1), num(2)), "x")));
    assert_eq!(expression().parse("7"), Ok((Expr::Number(7), "")));
    assert_eq!(
        assignment().parse("y = 2"),
        Ok((Expr::Assignment { var: "y".to_string(), expr: num(2) }, ""))
    );
    assert_eq!(assignment().parse("y + 2"), Err(err("Expected '=', found '+'")));
    assert_eq!(statement().parse("  1 + 2   ;"), Ok((*bin(BinOp::Add, num(1), num(2)), ";")));
}

#[test]
fn operators_group_to_the_left() {
    let result = parse_and_evaluate("10 - 3 - 2");
    let expected = bin(BinOp::Subtract, bin(BinOp::Subtract, num(10), num(3)), num(2));
    assert_eq!(result, Ok((*expected, 5)));
    let result = parse_and_evaluate("24 / 4 / 2");
    let expected = bin(BinOp::Divide, bin(BinOp::Divide, num(24), num(4)), num(2));
    assert_eq!(result, Ok((*expected, 3)));
}

#[test]
fn parentheses_and_division() {
    assert_eq!(parse_and_evaluate("(5 + 3) * 2").unwrap().1, 16);
    assert_eq!(parse_and_evaluate("7 / 2").unwrap().1, 3);
    assert_eq!(parse_and_evaluate("(0 - 7) / 2").unwrap().1, -3);
}

#[test]
fn parse_and_evaluate_errors() {
    assert_eq!(
        parse_and_evaluate("3 4"),
        Err("Unexpected input after expression: '4'".to_string())
    );
    assert_eq!(parse_and_evaluate(""), Err("Expected '(', found EOF".to_string()));
    assert_eq!(parse_and_evaluate("+"), Err("Expected '(', found '+'".to_string()));
    assert_eq!(parse_and_evaluate("(1"), Err("Expected ')', found EOF".to_string()));
    assert_eq!(parse_and_evaluate("y + 1"), Err("Undefined variable: y".to_string()));
}

#[test]
fn leading_whitespace_does_not_matter() {
    assert_eq!(parse_and_evaluate("   x = 3"), parse_and_evaluate("x = 3"));
    assert_eq!(parse_and_evaluate("\n 2 * 3"), parse_and_evaluate("2 * 3"));
}

#[test]
fn read_after_assignment() {
    let mut context = Context::new();
    let assign = Expr::Assignment { var: "x".to_string(), expr: num(5) };
    assert_eq!(evaluate(&assign, &mut context), Ok(5));
    assert_eq!(evaluate(&Expr::Variable("x".to_string()), &mut context), Ok(5));
    assert_eq!(context.get("x"), Some(5));
}

#[test]
fn context_read_after_write() {
    let mut context = Context::new();
    context.insert("a".to_string(), 1);
    context.insert("b".to_string(), 2);
    context.insert("a".to_string(), 3);
    assert_eq!(context.get("a"), Some(3));
    assert_eq!(context.get("b"), Some(2));
    assert_eq!(context.get("c"), None);
}

#[test]
fn expressions_without_assignment_keep_the_context() {
    let mut context = Context::new();
    context.insert("x".to_string(), 4);
    let expr = bin(BinOp::Multiply, Box::new(Expr::Variable("x".to_string())), num(3));
    assert_eq!(evaluate(&expr, &mut context), Ok(12));
    assert_eq!(context.get("x"), Some(4));
    assert_eq!(context.get("y"), None);
}

#[test]
fn overflow_is_reported_by_the_checked_forms() {
    assert_eq!(parse_and_evaluate_checked("2147483647 + 1"), None);
    assert_eq!(parse_and_evaluate_checked("65536 * 65536"), None);
    assert_eq!(parse_and_evaluate_checked("1 + 1"), Some(parse_and_evaluate("1 + 1")));
    assert_eq!(
        parse_and_evaluate_checked("1 +"),
        Some(Err("Expected '(', found EOF".to_string()))
    );
    let min = bin(BinOp::Subtract, bin(BinOp::Subtract, num(0), num(2147483647)), num(1));
    let mut context = Context::new();
    assert_eq!(evaluate_checked(&min, &mut context), Some(Ok(i32::MIN)));
    let overflow = bin(BinOp::Divide, min, bin(BinOp::Subtract, num(0), num(1)));
    assert_eq!(evaluate_checked(&overflow, &mut context), None);
    let by_zero = bin(BinOp::Divide, num(1), num(0));
    assert_eq!(evaluate_checked(&by_zero, &mut context), Some(Err("Division by zero".to_string())));
}

#[test]
fn parse_error_and_its_description() {
    let e = parse_error("oops", "input");
    assert_eq!(e, err("oops"));
    assert_eq!(e.describe(), "Parse error at position 0: oops".to_string());
    let e = ParseError { message: "m".to_string(), position: 1203 };
    assert_eq!(e.describe(), "Parse error at position 1203: m".to_string());
}

#[test]
fn cloned_expressions_are_equal() {
    let expr = Expr::Assignment {
        var: "v".to_string(),
        expr: bin(BinOp::Add, num(1), Box::new(Expr::Variable("w".to_string()))),
    };
    assert_eq!(expr.clone(), expr);
}

#[test]
fn precedence_and_left_grouping_without_parentheses() {
    let result = parse_and_evaluate("2 * 3 - 8 / 2 / 2 + 1");
    let product1 = bin(BinOp::Multiply, num(2), num(3));
    let product2 = bin(BinOp::Divide, bin(BinOp::Divide, num(8), num(2)), num(2));
    let expected = bin(BinOp::Add, bin(BinOp::Subtract, product1, product2), num(1));
    assert_eq!(result, Ok((*expected, 5)));
}

#[test]
fn readme_examples() {
    assert_eq!(char('a').parse("abc"), Ok(('a', "bc")));
    assert_eq!(number().parse("123"), Ok((123, "")));
    let parser = easyparse::combinators::seq(char('('), easyparse::combinators::seq(number(), char(')')));
    assert_eq!(parser.parse("(42)"), Ok((('(', (42, ')')), "")));
    assert_eq!(parse_and_evaluate("3 + 4 * 2").unwrap().1, 11);
    assert_eq!(parse_and_evaluate("x = 42").unwrap().1, 42);
    assert_eq!(parse_and_evaluate("(10 + 5) / 3").unwrap().1, 5);
}
