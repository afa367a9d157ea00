use wahlbergdown::interpreter::parser::{Definition, Expr, Ident};
use wahlbergdown::interpreter::{
    ArithOp, Error, EvalError, Function, Interpreter, Value, Values,
};
use wahlbergdown::interpreter::lexer::{LexError, Token};
use wahlbergdown::interpreter::parser::ParseError;
use wahlbergdown::parser::Code;

fn code(text: &str) -> Code {
    Code(text.to_string())
}

fn eval(interpreter: &mut Interpreter, text: &str) -> Result<Value, Error> {
    interpreter.expr(code(text))
}

fn eval_fresh(text: &str) -> Result<Value, Error> {
    eval(&mut Interpreter::new(), text)
}

fn define(interpreter: &mut Interpreter, text: &str) {
    assert_eq!(interpreter.definition(code(text)), Ok(()));
}

#[test]
fn sum_of_three() {
    assert_eq!(eval_fresh("(+ 1 2 3)"), Ok(Value::Int(6)));
}

#[test]
fn literals_evaluate_to_themselves() {
    assert_eq!(eval_fresh("5"), Ok(Value::Int(5)));
    assert_eq!(eval_fresh("nil"), Ok(Value::Nil));
}

#[test]
fn unbound_name_is_nil() {
    assert_eq!(eval_fresh("nobody"), Ok(Value::Nil));
}

#[test]
fn subtraction_of_one_and_of_none() {
    assert_eq!(eval_fresh("(- 10)"), Ok(Value::Int(10)));
    assert_eq!(eval_fresh("(- )"), Ok(Value::Int(0)));
    assert_eq!(eval_fresh("(- 10 3 2)"), Ok(Value::Int(5)));
    assert_eq!(eval_fresh("(- 3 10)"), Ok(Value::Int(-7)));
}

#[test]
fn empty_folds_have_their_identity() {
    assert_eq!(eval_fresh("(+)"), Ok(Value::Int(0)));
    assert_eq!(eval_fresh("(*)"), Ok(Value::Int(1)));
    assert_eq!(eval_fresh("(-)"), Ok(Value::Int(0)));
    assert_eq!(eval_fresh("(/)"), Ok(Value::Int(1)));
}

#[test]
fn product_and_quotient() {
    assert_eq!(eval_fresh("(* 2 3 4)"), Ok(Value::Int(24)));
    assert_eq!(eval_fresh("(* 7)"), Ok(Value::Int(7)));
    assert_eq!(eval_fresh("(/ 100 5 2)"), Ok(Value::Int(10)));
    assert_eq!(eval_fresh("(/ 9)"), Ok(Value::Int(9)));
    assert_eq!(eval_fresh("(/ 7 2)"), Ok(Value::Int(3)));
}

#[test]
fn division_rounds_toward_zero() {
    assert_eq!(eval_fresh("(/ (- 0 7) 2)"), Ok(Value::Int(-3)));
    assert_eq!(eval_fresh("(/ 7 (- 0 2))"), Ok(Value::Int(-3)));
    assert_eq!(eval_fresh("(/ (- 0 7) (- 0 2))"), Ok(Value::Int(3)));
    assert_eq!(ArithOp::Div.eval(-7, 2), Ok(-3));
    assert_eq!(ArithOp::Div.eval(-1, 2), Ok(0));
}

#[test]
fn non_integer_operand_makes_nil() {
    assert_eq!(eval_fresh("(+ 1 nil 2)"), Ok(Value::Nil));
    assert_eq!(eval_fresh("(* nil)"), Ok(Value::Nil));
    assert_eq!(eval_fresh("(- 1 unbound)"), Ok(Value::Nil));
    assert_eq!(eval_fresh("(/ nil 0)"), Ok(Value::Nil));
}

#[test]
fn operands_after_a_nil_are_not_evaluated() {
    assert_eq!(eval_fresh("(+ nil (/ 1 0))"), Ok(Value::Nil));
    assert_eq!(
        eval_fresh("(+ (/ 1 0) nil)"),
        Err(Error::Eval(EvalError::DivisionByZero))
    );
}

#[test]
fn if_takes_one_branch() {
    assert_eq!(eval_fresh("(if 0 1 2)"), Ok(Value::Int(2)));
    assert_eq!(eval_fresh("(if 5 1 2)"), Ok(Value::Int(1)));
    assert_eq!(eval_fresh("(if nil 1 2)"), Ok(Value::Int(2)));
    assert_eq!(eval_fresh("(if (- 0 1) 1 2)"), Ok(Value::Int(1)));
}

#[test]
fn untaken_branch_is_not_evaluated() {
    assert_eq!(eval_fresh("(if 0 (/ 1 0) 2)"), Ok(Value::Int(2)));
    assert_eq!(eval_fresh("(if 5 1 (/ 1 0))"), Ok(Value::Int(1)));
    assert_eq!(
        eval_fresh("(if 5 (/ 1 0) 2)"),
        Err(Error::Eval(EvalError::DivisionByZero))
    );
    let mut interpreter = Interpreter::new();
    define(&mut interpreter, "forever is fn() (forever)");
    assert_eq!(eval(&mut interpreter, "(if 0 (forever) 2)"), Ok(Value::Int(2)));
    assert_eq!(eval(&mut interpreter, "(if 1 2 (forever))"), Ok(Value::Int(2)));
}

#[test]
fn if_with_missing_arguments() {
    assert_eq!(eval_fresh("(if)"), Ok(Value::Nil));
    assert_eq!(eval_fresh("(if 1)"), Ok(Value::Nil));
    assert_eq!(eval_fresh("(if 1 7)"), Ok(Value::Int(7)));
    assert_eq!(eval_fresh("(if 0 7)"), Ok(Value::Nil));
    assert_eq!(eval_fresh("(if 0 7 8 9)"), Ok(Value::Int(8)));
}

#[test]
fn truthiness() {
    assert!(Value::Int(1).truthy());
    assert!(Value::Int(-1).truthy());
    assert!(!Value::Int(0).truthy());
    assert!(!Value::Nil.truthy());
}

#[test]
fn definition_binds_a_value() {
    let mut interpreter = Interpreter::new();
    define(&mut interpreter, "x is (+ 1 1)");
    assert_eq!(eval(&mut interpreter, "x"), Ok(Value::Int(2)));
}

#[test]
fn last_definition_wins() {
    let mut interpreter = Interpreter::new();
    define(&mut interpreter, "x is (+ 1 1)");
    define(&mut interpreter, "x is 99");
    assert_eq!(eval(&mut interpreter, "x"), Ok(Value::Int(99)));
    define(&mut interpreter, "x is nil");
    assert_eq!(eval(&mut interpreter, "x"), Ok(Value::Nil));
}

#[test]
fn definition_is_evaluated_when_it_is_made() {
    let mut interpreter = Interpreter::new();
    define(&mut interpreter, "x is 1");
    define(&mut interpreter, "y is (+ x 1)");
    define(&mut interpreter, "x is 10");
    assert_eq!(eval(&mut interpreter, "y"), Ok(Value::Int(2)));
}

#[test]
fn user_function_doubles() {
    let mut interpreter = Interpreter::new();
    define(&mut interpreter, "double is fn(n) (+ n n)");
    assert_eq!(eval(&mut interpreter, "(double 21)"), Ok(Value::Int(42)));
}

#[test]
fn missing_argument_is_nil() {
    let mut interpreter = Interpreter::new();
    define(&mut interpreter, "double is fn(n) (+ n n)");
    assert_eq!(eval(&mut interpreter, "(double)"), Ok(Value::Nil));
    define(&mut interpreter, "second is fn(a b) b");
    assert_eq!(eval(&mut interpreter, "(second 1)"), Ok(Value::Nil));
    assert_eq!(eval(&mut interpreter, "(second 1 2)"), Ok(Value::Int(2)));
}

#[test]
fn excess_arguments_are_ignored_but_evaluated() {
    let mut interpreter = Interpreter::new();
    define(&mut interpreter, "first is fn(a) a");
    assert_eq!(eval(&mut interpreter, "(first 1 2 3)"), Ok(Value::Int(1)));
    assert_eq!(
        eval(&mut interpreter, "(first 1 (/ 1 0))"),
        Err(Error::Eval(EvalError::DivisionByZero))
    );
}

#[test]
fn unknown_function_is_nil() {
    assert_eq!(eval_fresh("(nobody 1 2)"), Ok(Value::Nil));
    assert_eq!(
        eval_fresh("(nobody (/ 1 0))"),
        Err(Error::Eval(EvalError::DivisionByZero))
    );
}

#[test]
fn function_body_does_not_see_outer_bindings() {
    let mut interpreter = Interpreter::new();
    define(&mut interpreter, "x is 5");
    define(&mut interpreter, "peek is fn() x");
    assert_eq!(eval(&mut interpreter, "(peek)"), Ok(Value::Nil));
    define(&mut interpreter, "pass is fn(x) x");
    assert_eq!(eval(&mut interpreter, "(pass x)"), Ok(Value::Int(5)));
    assert_eq!(eval(&mut interpreter, "x"), Ok(Value::Int(5)));
}

#[test]
fn parameters_do_not_leak() {
    let mut interpreter = Interpreter::new();
    define(&mut interpreter, "id is fn(n) n");
    assert_eq!(eval(&mut interpreter, "(id 3)"), Ok(Value::Int(3)));
    assert_eq!(eval(&mut interpreter, "n"), Ok(Value::Nil));
}

#[test]
fn repeated_parameter_takes_its_last_argument() {
    let mut interpreter = Interpreter::new();
    define(&mut interpreter, "twice is fn(a a) a");
    assert_eq!(eval(&mut interpreter, "(twice 1 2)"), Ok(Value::Int(2)));
    assert_eq!(eval(&mut interpreter, "(twice 1)"), Ok(Value::Nil));
}

#[test]
fn functions_and_variables_have_separate_names() {
    let mut interpreter = Interpreter::new();
    define(&mut interpreter, "f is 3");
    define(&mut interpreter, "f is fn() 4");
    assert_eq!(eval(&mut interpreter, "f"), Ok(Value::Int(3)));
    assert_eq!(eval(&mut interpreter, "(f)"), Ok(Value::Int(4)));
}

#[test]
fn function_can_be_redefined() {
    let mut interpreter = Interpreter::new();
    define(&mut interpreter, "f is fn() 1");
    define(&mut interpreter, "f is fn() 2");
    assert_eq!(eval(&mut interpreter, "(f)"), Ok(Value::Int(2)));
}

#[test]
fn operators_cannot_be_redefined() {
    let mut interpreter = Interpreter::new();
    define(&mut interpreter, "if is fn(a) 7");
    assert_eq!(eval(&mut interpreter, "(if 1 2 3)"), Ok(Value::Int(2)));
}

#[test]
fn recursion_terminates_through_if() {
    let mut interpreter = Interpreter::new();
    define(
        &mut interpreter,
        "sum is fn(n) (if n (+ n (sum (- n 1))) 0)",
    );
    assert_eq!(eval(&mut interpreter, "(sum 0)"), Ok(Value::Int(0)));
    assert_eq!(eval(&mut interpreter, "(sum 4)"), Ok(Value::Int(10)));
    assert_eq!(eval(&mut interpreter, "(sum 100)"), Ok(Value::Int(5050)));
}

#[test]
fn deep_recursion_has_a_value() {
    let mut interpreter = Interpreter::new();
    define(
        &mut interpreter,
        "down is fn(n) (if n (down (- n 1)) 0)",
    );
    assert_eq!(eval(&mut interpreter, "(down 256)"), Ok(Value::Int(0)));
    assert_eq!(eval(&mut interpreter, "(down 300)"), Ok(Value::Int(0)));
    define(&mut interpreter, "x is (down 256)");
    assert_eq!(eval(&mut interpreter, "x"), Ok(Value::Int(0)));
}

#[test]
fn nesting_beyond_a_set_limit_is_an_error() {
    let mut interpreter = Interpreter::with_max_depth(8);
    define(&mut interpreter, "forever is fn() (forever)");
    assert_eq!(
        eval(&mut interpreter, "(forever)"),
        Err(Error::Eval(EvalError::DepthExceeded))
    );
    define(
        &mut interpreter,
        "down is fn(n) (if n (down (- n 1)) 0)",
    );
    assert_eq!(eval(&mut interpreter, "(down 7)"), Ok(Value::Int(0)));
    assert_eq!(
        eval(&mut interpreter, "(down 8)"),
        Err(Error::Eval(EvalError::DepthExceeded))
    );
    assert_eq!(
        interpreter.definition(code("x is (down 8)")),
        Err(Error::Eval(EvalError::DepthExceeded))
    );
    assert_eq!(eval(&mut interpreter, "x"), Ok(Value::Nil));
    assert_eq!(eval(&mut interpreter, "(+ 1 2)"), Ok(Value::Int(3)));
}

#[test]
fn limit_of_zero_allows_no_user_call() {
    let mut interpreter = Interpreter::with_max_depth(0);
    define(&mut interpreter, "seven is fn() 7");
    assert_eq!(
        eval(&mut interpreter, "(seven)"),
        Err(Error::Eval(EvalError::DepthExceeded))
    );
    assert_eq!(eval(&mut interpreter, "(nobody)"), Ok(Value::Nil));
    assert_eq!(eval(&mut interpreter, "(+ 3 4)"), Ok(Value::Int(7)));
}

#[test]
fn a_sufficient_limit_does_not_change_the_result() {
    let mut low = Interpreter::with_max_depth(5);
    let mut high = Interpreter::new();
    for interpreter in [&mut low, &mut high] {
        define(interpreter, "sum is fn(n) (if n (+ n (sum (- n 1))) 0)");
        assert_eq!(eval(interpreter, "(sum 4)"), Ok(Value::Int(10)));
    }
}

#[test]
fn state_survives_a_failed_call() {
    let mut interpreter = Interpreter::new();
    define(&mut interpreter, "x is 5");
    define(&mut interpreter, "bad is fn(x) (/ x 0)");
    assert_eq!(
        eval(&mut interpreter, "(bad 1)"),
        Err(Error::Eval(EvalError::DivisionByZero))
    );
    assert_eq!(eval(&mut interpreter, "x"), Ok(Value::Int(5)));
}

#[test]
fn division_by_zero_is_an_error() {
    assert_eq!(
        eval_fresh("(/ 1 0)"),
        Err(Error::Eval(EvalError::DivisionByZero))
    );
    assert_eq!(eval_fresh("(/ 0)"), Ok(Value::Int(0)));
    assert_eq!(
        eval_fresh("(/ 0 0)"),
        Err(Error::Eval(EvalError::DivisionByZero))
    );
    assert_eq!(
        ArithOp::Div.eval(1, 0),
        Err(EvalError::DivisionByZero)
    );
}

#[test]
fn overflow_is_an_error() {
    assert_eq!(
        eval_fresh("(+ 9223372036854775807 1)"),
        Err(Error::Eval(EvalError::Overflow))
    );
    assert_eq!(
        eval_fresh("(* 9223372036854775807 2)"),
        Err(Error::Eval(EvalError::Overflow))
    );
    assert_eq!(
        eval_fresh("(- (- 0 9223372036854775807) 2)"),
        Err(Error::Eval(EvalError::Overflow))
    );
    assert_eq!(
        eval_fresh("(- (- 0 9223372036854775807) 1)"),
        Ok(Value::Int(i64::MIN))
    );
    assert_eq!(ArithOp::Div.eval(i64::MIN, -1), Err(EvalError::Overflow));
    assert_eq!(ArithOp::Mul.eval(i64::MIN, -1), Err(EvalError::Overflow));
    assert_eq!(ArithOp::Add.eval(i64::MAX, 0), Ok(i64::MAX));
    assert_eq!(ArithOp::Sub.eval(5, 7), Ok(-2));
}

#[test]
fn failed_value_definition_binds_nothing() {
    let mut interpreter = Interpreter::new();
    define(&mut interpreter, "x is 1");
    assert_eq!(
        interpreter.definition(code("x is (/ 1 0)")),
        Err(Error::Eval(EvalError::DivisionByZero))
    );
    assert_eq!(eval(&mut interpreter, "x"), Ok(Value::Int(1)));
}

#[test]
fn parse_errors_surface() {
    let mut interpreter = Interpreter::new();
    assert_eq!(
        eval(&mut interpreter, "(+ 1"),
        Err(Error::Parse(ParseError::UnexpectedEof))
    );
    assert_eq!(
        eval(&mut interpreter, "1 2"),
        Err(Error::Parse(ParseError::UnexpectedToken(Token::Int(2))))
    );
    assert_eq!(
        eval(&mut interpreter, "1 # 2"),
        Err(Error::Parse(ParseError::Lex(LexError::UnexpectedChar('#'))))
    );
    assert_eq!(
        interpreter.definition(code("x 1")),
        Err(Error::Parse(ParseError::UnexpectedToken(Token::Int(1))))
    );
    assert_eq!(
        interpreter.definition(code("(+ 1 2)")),
        Err(Error::Parse(ParseError::UnexpectedToken(Token::OpenParens)))
    );
}

#[test]
fn evaluation_is_repeatable() {
    let mut interpreter = Interpreter::new();
    define(&mut interpreter, "x is 4");
    define(&mut interpreter, "sq is fn(n) (* n n)");
    let first = eval(&mut interpreter, "(+ x (sq x) (if x 1 2))");
    let second = eval(&mut interpreter, "(+ x (sq x) (if x 1 2))");
    assert_eq!(first, Ok(Value::Int(21)));
    assert_eq!(first, second);
}

#[test]
fn interpreters_are_independent() {
    let mut one = Interpreter::new();
    let mut other = Interpreter::new();
    define(&mut one, "x is 1");
    assert_eq!(eval(&mut other, "x"), Ok(Value::Nil));
    assert_eq!(eval(&mut one, "x"), Ok(Value::Int(1)));
}

#[test]
fn syntax_trees_evaluate_directly() {
    let mut interpreter = Interpreter::new();
    let sum = Expr::Call(
        Ident("+".to_string()),
        vec![Expr::Int(1), Expr::Int(2), Expr::Int(3)],
    );
    assert_eq!(interpreter.eval_expr(&sum), Ok(Value::Int(6)));
    assert_eq!(
        interpreter.eval_definition(Definition::Value(Ident("x".to_string()), sum)),
        Ok(())
    );
    assert_eq!(
        interpreter.eval_expr(&Expr::Ident(Ident("x".to_string()))),
        Ok(Value::Int(6))
    );
}

#[test]
fn scopes_stack() {
    let x = Ident("x".to_string());
    let mut values = Values::new();
    assert_eq!(values.get(&x), Value::Nil);
    values.put(Ident("x".to_string()), Value::Int(1));
    assert_eq!(values.get(&x), Value::Int(1));
    values.enter();
    assert_eq!(values.get(&x), Value::Nil);
    values.put(Ident("x".to_string()), Value::Int(2));
    assert_eq!(values.get(&x), Value::Int(2));
    values.exit();
    assert_eq!(values.get(&x), Value::Int(1));
    values.exit();
    assert_eq!(values.get(&x), Value::Int(1));
}

#[test]
fn values_have_their_text() {
    assert_eq!(Value::Int(42).to_string(), "42");
    assert_eq!(Value::Int(0).to_string(), "0");
    assert_eq!(Value::Int(-7).to_string(), "-7");
    assert_eq!(Value::Int(i64::MIN).to_string(), "-9223372036854775808");
    assert_eq!(Value::Nil.to_string(), "nil");
}

#[test]
fn results_render_into_the_document() {
    let mut interpreter = Interpreter::new();
    define(&mut interpreter, "double is fn(n) (+ n n)");
    let value = eval(&mut interpreter, "(double 21)").unwrap();
    assert_eq!(value.to_string(), "42");
    let nothing = eval(&mut interpreter, "(double)").unwrap();
    assert_eq!(nothing.to_string(), "nil");
}

#[test]
fn errors_have_messages() {
    assert_eq!(EvalError::DivisionByZero.to_string(), "division by zero");
    assert_eq!(EvalError::Overflow.to_string(), "integer overflow");
    assert_eq!(EvalError::DepthExceeded.to_string(), "call depth exceeded");
    assert_eq!(
        Error::Eval(EvalError::Overflow).to_string(),
        "integer overflow"
    );
    assert_eq!(
        Error::Parse(ParseError::UnexpectedEof).to_string(),
        "unexpected EOF"
    );
    assert_eq!(
        eval_fresh("(+ 1 2").unwrap_err().to_string(),
        "unexpected EOF"
    );
    assert_eq!(
        eval_fresh("1 is").unwrap_err().to_string(),
        "unexpected token is"
    );
    assert_eq!(
        Error::Eval(EvalError::Overflow).clone(),
        Error::Eval(EvalError::Overflow)
    );
}

#[test]
fn functions_can_be_copied() {
    let function = Function {
        args: vec![Ident("n".to_string())],
        body: Expr::Ident(Ident("n".to_string())),
    };
    let copy = function.clone();
    assert_eq!(copy.args, function.args);
    assert_eq!(copy.body, function.body);
}
