//! The expression language: tokens, syntax trees and their evaluation.
//!
//! An [`Interpreter`] keeps the variables and functions that definitions have
//! bound so far. Evaluation never fails on a name that is not bound, on an
//! operand that is not an integer or on a wrong number of arguments: such an
//! expression is `nil`. It does fail, with an [`EvalError`], on a result that
//! does not fit in an `i64` and on a division by zero. Calls of user
//! functions may nest as deep as a `usize` counts, unless the caller sets a
//! lower limit; only beyond the limit is the nesting an error.

pub mod grammar;
pub mod lexer;
pub mod parser;
pub mod semantics;

use crate::interpreter::lexer::{tokens, Lexer};
use crate::interpreter::parser::{
    clone_idents, exprs_view, idents_view, lemma_call_view, Definition, Expr, Ident, ParseError,
    Parser,
};
use crate::interpreter::semantics::{
    apply, bind, eval, eval_args, eval_call, fold, lemma_eval_args_ends, lemma_fold_ends, lookup,
    ErrorModel, Folded, FuncsModel, FunctionModel, InterpreterModel, Outcome, ScopeModel,
};
use crate::parser::Code;
use crate::text::{decimal_text, push_decimal_text};
use vstd::hash_map::StringHashMap;
use vstd::prelude::*;
use vstd::string::StringExecFns;

verus! {

/// A value of the language.
#[derive(Clone, Copy, Debug, PartialEq, Eq)]
pub enum Value {
    Int(i64),
    Nil,
}

impl Value {
    /// Whether the value counts as true: any integer but zero.
    pub open spec fn is_truthy(self) -> bool {
        match self {
            Value::Int(x) => x != 0,
            Value::Nil => false,
        }
    }

    /// Whether the value counts as true: any integer but zero.
    pub fn truthy(&self) -> (b: bool)
        ensures
            b == self.is_truthy(),
    {
        match self {
            Value::Int(x) => *x != 0,
            Value::Nil => false,
        }
    }

    /// The text of the value: an integer in decimal, `nil` as the word `nil`.
    pub open spec fn text(self) -> Seq<char> {
        match self {
            Value::Int(i) => decimal_text(i as int),
            Value::Nil => "nil"@,
        }
    }

    /// The text of the value: an integer in decimal, `nil` as the word `nil`.
    pub fn to_string(&self) -> (text: String)
        ensures
            text@ == self.text(),
    {
        match self {
            Value::Nil => String::from_str("nil"),
            Value::Int(i) => {
                let mut text = String::new();
                push_decimal_text(&mut text, *i);
                text
            },
        }
    }
}

/// Why an evaluation has no value.
#[derive(Clone, Copy, Debug, PartialEq, Eq)]
pub enum EvalError {
    /// The divisor of `/` is zero.
    DivisionByZero,
    /// An arithmetic result does not fit in an `i64`.
    Overflow,
    /// Calls of user functions nest deeper than the limit.
    DepthExceeded,
}

impl EvalError {
    /// What the error says.
    pub open spec fn message(self) -> Seq<char> {
        match self {
            EvalError::DivisionByZero => "division by zero"@,
            EvalError::Overflow => "integer overflow"@,
            EvalError::DepthExceeded => "call depth exceeded"@,
        }
    }

    /// What the error says.
    pub fn to_string(&self) -> (text: String)
        ensures
            text@ == self.message(),
    {
        match self {
            EvalError::DivisionByZero => String::from_str("division by zero"),
            EvalError::Overflow => String::from_str("integer overflow"),
            EvalError::DepthExceeded => String::from_str("call depth exceeded"),
        }
    }
}

/// The arithmetic operators.
#[derive(Clone, Copy, Debug, PartialEq, Eq)]
pub enum ArithOp {
    Add,
    Mul,
    Sub,
    Div,
}

impl ArithOp {
    /// The result of the operator on `a` and `b` in 64 bits.
    pub fn eval(self, a: i64, b: i64) -> (r: Result<i64, EvalError>)
        ensures
            r == self.apply(a, b),
    {
        let checked = match self {
            ArithOp::Add => a.checked_add(b),
            ArithOp::Mul => a.checked_mul(b),
            ArithOp::Sub => a.checked_sub(b),
            ArithOp::Div => {
                if b == 0 {
                    return Err(EvalError::DivisionByZero);
                }
                a.checked_div(b)
            },
        };
        match checked {
            Some(v) => Ok(v),
            None => Err(EvalError::Overflow),
        }
    }
}

/// A user function: the names of its parameters and its body.
#[derive(Debug)]
pub struct Function {
    pub args: Vec<Ident>,
    pub body: Expr,
}

impl Clone for Function {
    fn clone(&self) -> (copy: Self)
        ensures
            copy@ == self@,
    {
        Function { args: clone_idents(&self.args), body: self.body.clone() }
    }
}

impl View for Function {
    type V = FunctionModel;

    open spec fn view(&self) -> FunctionModel {
        FunctionModel { params: idents_view(self.args@), body: self.body@ }
    }
}

/// The function table that a map of functions stands for.
pub open spec fn funcs_view(funcs: Map<Seq<char>, Function>) -> FuncsModel {
    funcs.map_values(|f: Function| f@)
}

/// The scopes of an interpreter, innermost last: the top-level scope, which is
/// always there, and above it the scopes of the calls that are under way.
pub struct Values {
    top: StringHashMap<Value>,
    calls: Vec<StringHashMap<Value>>,
}

impl View for Values {
    type V = Seq<ScopeModel>;

    closed spec fn view(&self) -> Seq<ScopeModel> {
        seq![self.top@] + Seq::new(self.calls.len() as nat, |i: int| self.calls[i]@)
    }
}

impl Values {
    /// The top-level scope alone, with nothing bound in it.
    pub fn new() -> (values: Self)
        ensures
            values@ == seq![Map::<Seq<char>, Value>::empty()],
    {
        let values = Values { top: StringHashMap::new(), calls: Vec::new() };
        assert(values@ =~= seq![Map::<Seq<char>, Value>::empty()]);
        values
    }

    /// Leaves the innermost scope, unless it is the only one.
    pub fn exit(&mut self)
        ensures
            old(self)@.len() > 1 ==> final(self)@ == old(self)@.drop_last(),
            old(self)@.len() <= 1 ==> final(self)@ == old(self)@,
    {
        if self.calls.len() > 0 {
            self.calls.pop();
            assert(self@ =~= old(self)@.drop_last());
        }
    }

    /// Enters a new scope, with nothing bound in it.
    pub fn enter(&mut self)
        ensures
            final(self)@ == old(self)@.push(Map::<Seq<char>, Value>::empty()),
    {
        self.calls.push(StringHashMap::new());
        assert(self@ =~= old(self)@.push(Map::<Seq<char>, Value>::empty()));
    }

    /// Binds `ident` to `value` in the innermost scope, over any earlier binding.
    pub fn put(&mut self, ident: Ident, value: Value)
        ensures
            final(self)@ == old(self)@.update(
                old(self)@.len() - 1,
                old(self)@.last().insert(ident@, value),
            ),
    {
        match self.calls.pop() {
            Some(scope) => {
                let mut scope = scope;
                scope.insert(ident.0, value);
                self.calls.push(scope);
            },
            None => {
                self.top.insert(ident.0, value);
            },
        }
        assert(self@ =~= old(self)@.update(
            old(self)@.len() - 1,
            old(self)@.last().insert(ident@, value),
        ));
    }

    /// The value of `ident` in the innermost scope; `nil` if it is not bound there.
    pub fn get(&self, ident: &Ident) -> (value: Value)
        ensures
            value == lookup(self@.last(), ident@),
    {
        let scope = if self.calls.len() > 0 {
            &self.calls[self.calls.len() - 1]
        } else {
            &self.top
        };
        match scope.get(ident.0.as_str()) {
            Some(value) => *value,
            None => Value::Nil,
        }
    }
}

/// Why a snippet has no result.
#[derive(Debug, PartialEq)]
pub enum Error {
    /// The snippet does not parse.
    Parse(ParseError),
    /// The snippet parses, and its evaluation fails.
    Eval(EvalError),
}

impl Clone for Error {
    fn clone(&self) -> (copy: Self)
        ensures
            copy@ == self@,
    {
        match self {
            Error::Parse(e) => Error::Parse(e.clone()),
            Error::Eval(e) => Error::Eval(*e),
        }
    }
}

impl Error {
    /// What the error says.
    pub fn to_string(&self) -> (text: String)
        ensures
            text@ == self@.message(),
    {
        match self {
            Error::Parse(e) => e.to_string(),
            Error::Eval(e) => e.to_string(),
        }
    }
}

impl View for Error {
    type V = ErrorModel;

    open spec fn view(&self) -> ErrorModel {
        match self {
            Error::Parse(e) => ErrorModel::Parse(e@),
            Error::Eval(e) => ErrorModel::Eval(*e),
        }
    }
}

/// The mathematical value of the result of an expression snippet.
pub open spec fn value_result_view(r: Result<Value, Error>) -> Result<Value, ErrorModel> {
    match r {
        Ok(value) => Ok(value),
        Err(e) => Err(e@),
    }
}

/// The mathematical value of the result of a definition snippet.
pub open spec fn unit_result_view(r: Result<(), Error>) -> Result<(), ErrorModel> {
    match r {
        Ok(_) => Ok(()),
        Err(e) => Err(e@),
    }
}

/// A parser over the snippet `code`.
pub fn new_parser(code: &Code) -> (parser: Parser)
    ensures
        parser@ == tokens(code@),
{
    Parser::new(Lexer::new(code.0.as_str()))
}

/// An interpreter: the bindings and the functions that definitions have made.
pub struct Interpreter {
    values: Values,
    funcs: StringHashMap<Function>,
    max_depth: usize,
}

impl View for Interpreter {
    type V = InterpreterModel;

    closed spec fn view(&self) -> InterpreterModel {
        InterpreterModel {
            scope: self.values@.last(),
            funcs: funcs_view(self.funcs@),
            depth: self.max_depth as nat,
        }
    }
}

impl Interpreter {
    /// An interpreter in which nothing is defined, and in which calls of user
    /// functions may nest as deep as a `usize` counts.
    pub fn new() -> (interpreter: Self)
        ensures
            interpreter@ == (InterpreterModel {
                scope: Map::empty(),
                funcs: Map::empty(),
                depth: usize::MAX as nat,
            }),
    {
        Self::with_max_depth(usize::MAX)
    }

    /// An interpreter in which nothing is defined, and in which calls of user
    /// functions may nest `max_depth` deep.
    pub fn with_max_depth(max_depth: usize) -> (interpreter: Self)
        ensures
            interpreter@ == (InterpreterModel {
                scope: Map::empty(),
                funcs: Map::empty(),
                depth: max_depth as nat,
            }),
    {
        let interpreter = Interpreter {
            values: Values::new(),
            funcs: StringHashMap::new(),
            max_depth,
        };
        assert(interpreter@.funcs =~= Map::<Seq<char>, FunctionModel>::empty());
        interpreter
    }

    /// Folds the arithmetic operator `op` over the arguments `args`.
    pub fn accumulate(
        funcs: &StringHashMap<Function>,
        values: &mut Values,
        op: ArithOp,
        args: &Vec<Expr>,
        depth: usize,
    ) -> (r: Outcome)
        ensures
            final(values)@ == old(values)@,
            r == match fold(
                funcs_view(funcs@),
                old(values)@.last(),
                op,
                exprs_view(args@),
                args.len() as nat,
                depth as nat,
            ) {
                Err(e) => Err::<Value, EvalError>(e),
                Ok(folded) => Ok(folded.value(op)),
            },
        decreases 2 * depth + 1, args, 0nat,
    {
        let ghost table = funcs_view(funcs@);
        let ghost scope = values@.last();
        let ghost models = exprs_view(args@);
        let mut acc: Option<i64> = None;
        let mut i: usize = 0;
        while i < args.len()
            invariant
                i <= args.len(),
                values@ == old(values)@,
                table == funcs_view(funcs@),
                scope == old(values)@.last(),
                models == exprs_view(args@),
                fold(table, scope, op, models, i as nat, depth as nat) == Ok::<Folded, EvalError>(
                    match acc {
                        None => Folded::Empty,
                        Some(a) => Folded::Acc(a),
                    },
                ),
            decreases args.len() - i,
        {
            let value = Self::eval_in(funcs, values, &args[i], depth);
            proof {
                assert(models[i as int] == args[i as int]@);
                if value is Err || value == Ok::<Value, EvalError>(Value::Nil) {
                    lemma_fold_ends(
                        table,
                        scope,
                        op,
                        models,
                        (i + 1) as nat,
                        args.len() as nat,
                        depth as nat,
                    );
                }
            }
            match value {
                Err(e) => {
                    return Err(e);
                },
                Ok(Value::Nil) => {
                    return Ok(Value::Nil);
                },
                Ok(Value::Int(v)) => {
                    match acc {
                        None => {
                            acc = Some(v);
                        },
                        Some(a) => match op.eval(a, v) {
                            Err(e) => {
                                proof {
                                    lemma_fold_ends(
                                        table,
                                        scope,
                                        op,
                                        models,
                                        (i + 1) as nat,
                                        args.len() as nat,
                                        depth as nat,
                                    );
                                }
                                return Err(e);
                            },
                            Ok(next) => {
                                acc = Some(next);
                            },
                        },
                    }
                },
            }
            i = i + 1;
        }
        match acc {
            None => Ok(
                Value::Int(
                    match op {
                        ArithOp::Add | ArithOp::Sub => 0,
                        ArithOp::Mul | ArithOp::Div => 1,
                    },
                ),
            ),
            Some(a) => Ok(Value::Int(a)),
        }
    }

    /// Calls the user function `ident` on the argument values `arg_values`.
    pub fn function_call(
        funcs: &StringHashMap<Function>,
        values: &mut Values,
        ident: &Ident,
        arg_values: &Vec<Value>,
        depth: usize,
    ) -> (r: Outcome)
        ensures
            final(values)@ == old(values)@,
            r == apply(funcs_view(funcs@), ident@, arg_values@, depth as nat),
        decreases 2 * depth, arg_values, 0nat,
    {
        match funcs.get(ident.0.as_str()) {
            None => Ok(Value::Nil),
            Some(function) => {
                if depth == 0 {
                    return Err(EvalError::DepthExceeded);
                }
                let ghost params = function@.params;
                values.enter();
                let mut i: usize = 0;
                while i < function.args.len()
                    invariant
                        i <= function.args.len(),
                        params == idents_view(function.args@),
                        values@ == old(values)@.push(bind(params.take(i as int), arg_values@)),
                    decreases function.args.len() - i,
                {
                    let value = if i < arg_values.len() {
                        arg_values[i]
                    } else {
                        Value::Nil
                    };
                    let name = function.args[i].clone();
                    proof {
                        assert(params.take(i + 1).drop_last() =~= params.take(i as int));
                        assert(name@ == params[i as int]);
                    }
                    values.put(name, value);
                    assert(values@ =~= old(values)@.push(
                        bind(params.take(i + 1), arg_values@),
                    ));
                    i = i + 1;
                }
                assert(params.take(i as int) =~= params);
                let r = Self::eval_in(funcs, values, &function.body, depth - 1);
                values.exit();
                assert(values@ =~= old(values)@);
                r
            },
        }
    }

    /// Evaluates the call of `ident` on `args`.
    pub fn call(
        funcs: &StringHashMap<Function>,
        values: &mut Values,
        ident: &Ident,
        args: &Vec<Expr>,
        depth: usize,
    ) -> (r: Outcome)
        ensures
            final(values)@ == old(values)@,
            r == eval_call(
                funcs_view(funcs@),
                old(values)@.last(),
                ident@,
                exprs_view(args@),
                depth as nat,
            ),
        decreases 2 * depth + 1, args, args.len() + 1,
    {
        let ghost table = funcs_view(funcs@);
        let ghost scope = values@.last();
        let ghost models = exprs_view(args@);
        let name = ident.0.as_str();
        if name.eq("+") {
            Self::accumulate(funcs, values, ArithOp::Add, args, depth)
        } else if name.eq("*") {
            Self::accumulate(funcs, values, ArithOp::Mul, args, depth)
        } else if name.eq("-") {
            Self::accumulate(funcs, values, ArithOp::Sub, args, depth)
        } else if name.eq("/") {
            Self::accumulate(funcs, values, ArithOp::Div, args, depth)
        } else if name.eq("if") {
            let condition = if args.len() > 0 {
                assert(models[0] == args[0]@);
                match Self::eval_in(funcs, values, &args[0], depth) {
                    Err(e) => {
                        return Err(e);
                    },
                    Ok(value) => value,
                }
            } else {
                Value::Nil
            };
            let branch: usize = if condition.truthy() {
                1
            } else {
                2
            };
            if branch < args.len() {
                assert(models[branch as int] == args[branch as int]@);
                Self::eval_in(funcs, values, &args[branch], depth)
            } else {
                Ok(Value::Nil)
            }
        } else {
            let mut arg_values: Vec<Value> = Vec::new();
            let mut i: usize = 0;
            while i < args.len()
                invariant
                    i <= args.len(),
                    values@ == old(values)@,
                    table == funcs_view(funcs@),
                    scope == old(values)@.last(),
                    models == exprs_view(args@),
                    ArithOp::named(ident@) is None,
                    ident@ != "if"@,
                    eval_args(table, scope, models, i as nat, depth as nat) == Ok::<
                        Seq<Value>,
                        EvalError,
                    >(arg_values@),
                decreases args.len() - i,
            {
                assert(models[i as int] == args[i as int]@);
                match Self::eval_in(funcs, values, &args[i], depth) {
                    Err(e) => {
                        proof {
                            lemma_eval_args_ends(
                                table,
                                scope,
                                models,
                                (i + 1) as nat,
                                args.len() as nat,
                                depth as nat,
                            );
                        }
                        return Err(e);
                    },
                    Ok(value) => {
                        arg_values.push(value);
                    },
                }
                i = i + 1;
            }
            Self::function_call(funcs, values, ident, &arg_values, depth)
        }
    }

    /// Evaluates `expr` with the functions `funcs` in the innermost scope of
    /// `values`, where calls of user functions may nest `depth` deep.
    pub fn eval_in(
        funcs: &StringHashMap<Function>,
        values: &mut Values,
        expr: &Expr,
        depth: usize,
    ) -> (r: Outcome)
        ensures
            final(values)@ == old(values)@,
            r == eval(funcs_view(funcs@), old(values)@.last(), expr@, depth as nat),
        decreases 2 * depth + 1, expr, 0nat,
    {
        match expr {
            Expr::Nil => Ok(Value::Nil),
            Expr::Int(i) => Ok(Value::Int(*i)),
            Expr::Ident(name) => Ok(values.get(name)),
            Expr::Call(head, args) => {
                proof {
                    lemma_call_view(*expr);
                }
                Self::call(funcs, values, head, args, depth)
            },
        }
    }

    /// Evaluates `expr` in the present state, which stays as it is.
    pub fn eval_expr(&mut self, expr: &Expr) -> (r: Outcome)
        ensures
            final(self)@ == old(self)@,
            r == old(self)@.value_of(expr@),
    {
        Self::eval_in(&self.funcs, &mut self.values, expr, self.max_depth)
    }

    /// Carries out the definition `def`. Where the evaluation of its
    /// expression fails, the state stays as it is.
    pub fn eval_definition(&mut self, def: Definition) -> (r: Result<(), EvalError>)
        ensures
            match old(self)@.define(def@) {
                Err(e) => r == Err::<(), EvalError>(e) && final(self)@ == old(self)@,
                Ok(next) => r is Ok && final(self)@ == next,
            },
    {
        match def {
            Definition::Value(name, expr) => {
                match self.eval_expr(&expr) {
                    Err(e) => Err(e),
                    Ok(value) => {
                        self.values.put(name, value);
                        Ok(())
                    },
                }
            },
            Definition::Func(name, args, body) => {
                let function = Function { args, body };
                self.funcs.insert(name.0, function);
                assert(funcs_view(self.funcs@) =~= funcs_view(old(self).funcs@).insert(
                    name@,
                    function@,
                ));
                Ok(())
            },
        }
    }

    /// Runs the snippet `code` as a definition.
    pub fn definition(&mut self, code: Code) -> (r: Result<(), Error>)
        ensures
            old(self)@.definition_yields(code@, unit_result_view(r), final(self)@),
    {
        let mut parser = new_parser(&code);
        match parser.top_level_definition() {
            Err(e) => Err(Error::Parse(e)),
            Ok(def) => match self.eval_definition(def) {
                Err(e) => Err(Error::Eval(e)),
                Ok(_) => Ok(()),
            },
        }
    }

    /// Runs the snippet `code` as an expression. The state stays as it is.
    pub fn expr(&mut self, code: Code) -> (r: Result<Value, Error>)
        ensures
            old(self)@.expr_yields(code@, value_result_view(r), final(self)@),
    {
        let mut parser = new_parser(&code);
        match parser.top_level_expr() {
            Err(e) => Err(Error::Parse(e)),
            Ok(expr) => match self.eval_expr(&expr) {
                Err(e) => Err(Error::Eval(e)),
                Ok(value) => Ok(value),
            },
        }
    }
}

} // verus!
