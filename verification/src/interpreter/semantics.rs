//! What expressions and definitions mean: the value of an expression in a
//! scope, the state that a definition leaves, and the laws that follow.

use crate::interpreter::lexer::tokens;
use crate::interpreter::parser::{
    parse_top_level_definition, parse_top_level_expr, DefinitionModel, ExprModel, ParseErrorModel,
};
use crate::interpreter::{ArithOp, EvalError, Value};
use vstd::prelude::*;

verus! {

/// The mathematical value of a [`Function`].
pub struct FunctionModel {
    pub params: Seq<Seq<char>>,
    pub body: ExprModel,
}

/// A scope: the values of the names bound in it.
pub type ScopeModel = Map<Seq<char>, Value>;

/// The function table: the functions by name.
pub type FuncsModel = Map<Seq<char>, FunctionModel>;

/// What an evaluation yields.
pub type Outcome = Result<Value, EvalError>;

/// The value of `name` in `scope`: `nil` if it is not bound there.
pub open spec fn lookup(scope: ScopeModel, name: Seq<char>) -> Value {
    if scope.contains_key(name) {
        scope[name]
    } else {
        Value::Nil
    }
}

/// The quotient of `a` by `b` rounded toward zero.
pub open spec fn truncated_quotient(a: int, b: int) -> int {
    let q = (if a < 0 { -a } else { a }) / (if b < 0 { -b } else { b });
    if (a < 0) == (b < 0) {
        q
    } else {
        -q
    }
}

impl ArithOp {
    /// The operator that a call with the head `name` applies, if any.
    pub open spec fn named(name: Seq<char>) -> Option<ArithOp> {
        if name == "+"@ {
            Some(ArithOp::Add)
        } else if name == "*"@ {
            Some(ArithOp::Mul)
        } else if name == "-"@ {
            Some(ArithOp::Sub)
        } else if name == "/"@ {
            Some(ArithOp::Div)
        } else {
            None
        }
    }

    /// The value of a call without arguments.
    pub open spec fn identity(self) -> i64 {
        match self {
            ArithOp::Add | ArithOp::Sub => 0,
            ArithOp::Mul | ArithOp::Div => 1,
        }
    }

    /// The exact result of the operator on `a` and `b`, for a divisor other than zero.
    pub open spec fn exact(self, a: int, b: int) -> int {
        match self {
            ArithOp::Add => a + b,
            ArithOp::Mul => a * b,
            ArithOp::Sub => a - b,
            ArithOp::Div => truncated_quotient(a, b),
        }
    }

    /// The result of the operator on `a` and `b` in 64 bits.
    pub open spec fn apply(self, a: i64, b: i64) -> Result<i64, EvalError> {
        if self == ArithOp::Div && b == 0 {
            Err(EvalError::DivisionByZero)
        } else if i64::MIN <= self.exact(a as int, b as int) <= i64::MAX {
            Ok(self.exact(a as int, b as int) as i64)
        } else {
            Err(EvalError::Overflow)
        }
    }
}

/// The state of an arithmetic fold over the arguments of a call.
pub enum Folded {
    /// No argument has been read.
    Empty,
    /// The arguments read so far are integers, and this is what they amount to.
    Acc(i64),
    /// An argument was not an integer; the arguments after it are not evaluated.
    Nil,
}

impl Folded {
    /// The value of the call when all its arguments have been folded.
    pub open spec fn value(self, op: ArithOp) -> Value {
        match self {
            Folded::Empty => Value::Int(op.identity()),
            Folded::Acc(acc) => Value::Int(acc),
            Folded::Nil => Value::Nil,
        }
    }
}

/// The scope of a call: each parameter bound to the argument at its place, or
/// to `nil` where there is none. Where a name occurs twice, its last place counts.
pub open spec fn bind(params: Seq<Seq<char>>, values: Seq<Value>) -> ScopeModel
    decreases params.len(),
{
    if params.len() == 0 {
        Map::empty()
    } else {
        let last = params.len() - 1;
        bind(params.drop_last(), values).insert(
            params[last],
            if last < values.len() {
                values[last]
            } else {
                Value::Nil
            },
        )
    }
}

/// The value of the expression `e` where the variables are those of `scope`
/// and calls of user functions may nest `depth` deep.
pub open spec fn eval(funcs: FuncsModel, scope: ScopeModel, e: ExprModel, depth: nat) -> Outcome
    decreases 2 * depth + 1, e, 0nat,
{
    match e {
        ExprModel::Nil => Ok(Value::Nil),
        ExprModel::Int(i) => Ok(Value::Int(i)),
        ExprModel::Ident(name) => Ok(lookup(scope, name)),
        ExprModel::Call(head, args) => eval_call(funcs, scope, head, args, depth),
    }
}

/// The value of a call: of an arithmetic operator, of `if`, or of a user function.
///
/// `if` evaluates its first argument and then only the second, where that
/// value is true, or only the third, where it is not; an argument that is
/// missing counts as `nil`.
pub open spec fn eval_call(
    funcs: FuncsModel,
    scope: ScopeModel,
    head: Seq<char>,
    args: Seq<ExprModel>,
    depth: nat,
) -> Outcome
    decreases 2 * depth + 1, args, args.len() + 1,
{
    if ArithOp::named(head) is Some {
        let op = ArithOp::named(head)->0;
        match fold(funcs, scope, op, args, args.len(), depth) {
            Err(e) => Err(e),
            Ok(folded) => Ok(folded.value(op)),
        }
    } else if head == "if"@ {
        let condition = if 0 < args.len() {
            eval(funcs, scope, args[0], depth)
        } else {
            Ok(Value::Nil)
        };
        match condition {
            Err(e) => Err(e),
            Ok(c) => {
                let branch: int = if c.is_truthy() {
                    1
                } else {
                    2
                };
                if branch < args.len() {
                    eval(funcs, scope, args[branch], depth)
                } else {
                    Ok(Value::Nil)
                }
            },
        }
    } else {
        match eval_args(funcs, scope, args, args.len(), depth) {
            Err(e) => Err(e),
            Ok(values) => apply(funcs, head, values, depth),
        }
    }
}

/// The fold of `op` over the first `n` arguments, from left to right. The
/// first integer starts the fold; an argument that is not an integer ends it.
pub open spec fn fold(
    funcs: FuncsModel,
    scope: ScopeModel,
    op: ArithOp,
    args: Seq<ExprModel>,
    n: nat,
    depth: nat,
) -> Result<Folded, EvalError>
    decreases 2 * depth + 1, args, n,
{
    if n == 0 || n > args.len() {
        Ok(Folded::Empty)
    } else {
        match fold(funcs, scope, op, args, (n - 1) as nat, depth) {
            Err(e) => Err(e),
            Ok(Folded::Nil) => Ok(Folded::Nil),
            Ok(before) => match eval(funcs, scope, args[n - 1], depth) {
                Err(e) => Err(e),
                Ok(Value::Nil) => Ok(Folded::Nil),
                Ok(Value::Int(v)) => match before {
                    Folded::Acc(acc) => match op.apply(acc, v) {
                        Err(e) => Err(e),
                        Ok(next) => Ok(Folded::Acc(next)),
                    },
                    _ => Ok(Folded::Acc(v)),
                },
            },
        }
    }
}

/// The values of the first `n` arguments, evaluated from left to right.
pub open spec fn eval_args(
    funcs: FuncsModel,
    scope: ScopeModel,
    args: Seq<ExprModel>,
    n: nat,
    depth: nat,
) -> Result<Seq<Value>, EvalError>
    decreases 2 * depth + 1, args, n,
{
    if n == 0 || n > args.len() {
        Ok(Seq::empty())
    } else {
        match eval_args(funcs, scope, args, (n - 1) as nat, depth) {
            Err(e) => Err(e),
            Ok(before) => match eval(funcs, scope, args[n - 1], depth) {
                Err(e) => Err(e),
                Ok(v) => Ok(before.push(v)),
            },
        }
    }
}

/// The value of the user function `name` on the argument values `values`: of
/// its body in a scope that holds its parameters and nothing else. A name
/// that is no function yields `nil`.
pub open spec fn apply(funcs: FuncsModel, name: Seq<char>, values: Seq<Value>, depth: nat) -> Outcome
    decreases 2 * depth, values, 0nat,
{
    if !funcs.contains_key(name) {
        Ok(Value::Nil)
    } else if depth == 0 {
        Err(EvalError::DepthExceeded)
    } else {
        eval(funcs, bind(funcs[name].params, values), funcs[name].body, (depth - 1) as nat)
    }
}

/// An error or a `nil` ends an arithmetic fold: the arguments after it do not count.
pub proof fn lemma_fold_ends(
    funcs: FuncsModel,
    scope: ScopeModel,
    op: ArithOp,
    args: Seq<ExprModel>,
    i: nat,
    n: nat,
    depth: nat,
)
    requires
        i <= n <= args.len(),
        fold(funcs, scope, op, args, i, depth) is Err || fold(funcs, scope, op, args, i, depth)
            == Ok::<Folded, EvalError>(Folded::Nil),
    ensures
        fold(funcs, scope, op, args, n, depth) == fold(funcs, scope, op, args, i, depth),
    decreases n,
{
    if i < n {
        lemma_fold_ends(funcs, scope, op, args, i, (n - 1) as nat, depth);
    }
}

/// An error ends the evaluation of the arguments of a call.
pub proof fn lemma_eval_args_ends(
    funcs: FuncsModel,
    scope: ScopeModel,
    args: Seq<ExprModel>,
    i: nat,
    n: nat,
    depth: nat,
)
    requires
        i <= n <= args.len(),
        eval_args(funcs, scope, args, i, depth) is Err,
    ensures
        eval_args(funcs, scope, args, n, depth) == eval_args(funcs, scope, args, i, depth),
    decreases n,
{
    if i < n {
        lemma_eval_args_ends(funcs, scope, args, i, (n - 1) as nat, depth);
    }
}

/// The mathematical value of an [`Error`].
pub enum ErrorModel {
    Parse(ParseErrorModel),
    Eval(EvalError),
}

impl ErrorModel {
    /// What the error says.
    pub open spec fn message(self) -> Seq<char> {
        match self {
            ErrorModel::Parse(e) => e.message(),
            ErrorModel::Eval(e) => e.message(),
        }
    }
}

/// The state of an interpreter: the top-level scope, the function table, and
/// how deep calls of user functions may nest.
pub struct InterpreterModel {
    pub scope: ScopeModel,
    pub funcs: FuncsModel,
    pub depth: nat,
}

impl InterpreterModel {
    /// The value of `expr` in this state.
    pub open spec fn value_of(self, expr: ExprModel) -> Outcome {
        eval(self.funcs, self.scope, expr, self.depth)
    }

    /// The state after the definition `def`, or the error that leaves the
    /// state as it is. A value definition evaluates its expression now and
    /// binds the name to the value; a function definition stores the function
    /// and evaluates nothing. Either replaces what the name was bound to.
    pub open spec fn define(self, def: DefinitionModel) -> Result<InterpreterModel, EvalError> {
        match def {
            DefinitionModel::Value(name, expr) => match self.value_of(expr) {
                Err(e) => Err(e),
                Ok(value) => Ok(InterpreterModel { scope: self.scope.insert(name, value), ..self }),
            },
            DefinitionModel::Func(name, params, body) => Ok(
                InterpreterModel {
                    funcs: self.funcs.insert(name, FunctionModel { params, body }),
                    ..self
                },
            ),
        }
    }

    /// The result of the snippet `code`, read as an expression.
    pub open spec fn run_expr(self, code: Seq<char>) -> Result<Value, ErrorModel> {
        match parse_top_level_expr(tokens(code)).0 {
            Err(e) => Err(ErrorModel::Parse(e)),
            Ok(expr) => match self.value_of(expr) {
                Err(e) => Err(ErrorModel::Eval(e)),
                Ok(value) => Ok(value),
            },
        }
    }

    /// The state after the snippet `code`, read as a definition.
    pub open spec fn run_definition(self, code: Seq<char>) -> Result<InterpreterModel, ErrorModel> {
        match parse_top_level_definition(tokens(code)).0 {
            Err(e) => Err(ErrorModel::Parse(e)),
            Ok(def) => match self.define(def) {
                Err(e) => Err(ErrorModel::Eval(e)),
                Ok(next) => Ok(next),
            },
        }
    }

    /// Whether running the snippet `code` as an expression in this state gives
    /// `result` and leaves the state `after`: the state it was.
    pub open spec fn expr_yields(
        self,
        code: Seq<char>,
        result: Result<Value, ErrorModel>,
        after: InterpreterModel,
    ) -> bool {
        after == self && result == self.run_expr(code)
    }

    /// Whether running the snippet `code` as a definition in this state gives
    /// `result` and leaves the state `after`: the state it was, where the
    /// snippet fails.
    pub open spec fn definition_yields(
        self,
        code: Seq<char>,
        result: Result<(), ErrorModel>,
        after: InterpreterModel,
    ) -> bool {
        match self.run_definition(code) {
            Err(e) => result == Err::<(), ErrorModel>(e) && after == self,
            Ok(next) => result is Ok && after == next,
        }
    }
}

/// The limit on nesting matters only where it is reached: an evaluation that
/// does not end in `DepthExceeded` has the same result under every higher
/// limit.
pub proof fn lemma_depth_suffices(
    funcs: FuncsModel,
    scope: ScopeModel,
    e: ExprModel,
    depth: nat,
    more: nat,
)
    requires
        depth <= more,
        eval(funcs, scope, e, depth) != Err::<Value, EvalError>(EvalError::DepthExceeded),
    ensures
        eval(funcs, scope, e, more) == eval(funcs, scope, e, depth),
    decreases 2 * depth + 1, e, 0nat,
{
    match e {
        ExprModel::Call(head, args) => {
            lemma_depth_suffices_call(funcs, scope, head, args, depth, more);
        },
        _ => {},
    }
}

/// A call that does not end in `DepthExceeded` has the same value under every
/// higher limit.
pub proof fn lemma_depth_suffices_call(
    funcs: FuncsModel,
    scope: ScopeModel,
    head: Seq<char>,
    args: Seq<ExprModel>,
    depth: nat,
    more: nat,
)
    requires
        depth <= more,
        eval_call(funcs, scope, head, args, depth) != Err::<Value, EvalError>(
            EvalError::DepthExceeded,
        ),
    ensures
        eval_call(funcs, scope, head, args, more) == eval_call(funcs, scope, head, args, depth),
    decreases 2 * depth + 1, args, args.len() + 1,
{
    if ArithOp::named(head) is Some {
        lemma_depth_suffices_fold(
            funcs,
            scope,
            ArithOp::named(head)->0,
            args,
            args.len(),
            depth,
            more,
        );
    } else if head == "if"@ {
        if 0 < args.len() {
            lemma_depth_suffices(funcs, scope, args[0], depth, more);
        }
        let condition = if 0 < args.len() {
            eval(funcs, scope, args[0], depth)
        } else {
            Ok(Value::Nil)
        };
        if condition is Ok {
            let branch: int = if condition->Ok_0.is_truthy() {
                1
            } else {
                2
            };
            if branch < args.len() {
                lemma_depth_suffices(funcs, scope, args[branch], depth, more);
            }
        }
    } else {
        lemma_depth_suffices_args(funcs, scope, args, args.len(), depth, more);
        let values = eval_args(funcs, scope, args, args.len(), depth);
        if values is Ok {
            lemma_depth_suffices_apply(funcs, head, values->Ok_0, depth, more);
        }
    }
}

/// A fold that does not end in `DepthExceeded` is the same under every higher limit.
pub proof fn lemma_depth_suffices_fold(
    funcs: FuncsModel,
    scope: ScopeModel,
    op: ArithOp,
    args: Seq<ExprModel>,
    n: nat,
    depth: nat,
    more: nat,
)
    requires
        depth <= more,
        fold(funcs, scope, op, args, n, depth) != Err::<Folded, EvalError>(
            EvalError::DepthExceeded,
        ),
    ensures
        fold(funcs, scope, op, args, n, more) == fold(funcs, scope, op, args, n, depth),
    decreases 2 * depth + 1, args, n,
{
    if 0 < n <= args.len() {
        let before = fold(funcs, scope, op, args, (n - 1) as nat, depth);
        lemma_depth_suffices_fold(funcs, scope, op, args, (n - 1) as nat, depth, more);
        if before is Ok && before != Ok::<Folded, EvalError>(Folded::Nil) {
            lemma_depth_suffices(funcs, scope, args[n - 1], depth, more);
        }
    }
}

/// Arguments whose evaluation does not end in `DepthExceeded` have the same
/// values under every higher limit.
pub proof fn lemma_depth_suffices_args(
    funcs: FuncsModel,
    scope: ScopeModel,
    args: Seq<ExprModel>,
    n: nat,
    depth: nat,
    more: nat,
)
    requires
        depth <= more,
        eval_args(funcs, scope, args, n, depth) != Err::<Seq<Value>, EvalError>(
            EvalError::DepthExceeded,
        ),
    ensures
        eval_args(funcs, scope, args, n, more) == eval_args(funcs, scope, args, n, depth),
    decreases 2 * depth + 1, args, n,
{
    if 0 < n <= args.len() {
        let before = eval_args(funcs, scope, args, (n - 1) as nat, depth);
        lemma_depth_suffices_args(funcs, scope, args, (n - 1) as nat, depth, more);
        if before is Ok {
            lemma_depth_suffices(funcs, scope, args[n - 1], depth, more);
        }
    }
}

/// A call of a user function that does not end in `DepthExceeded` has the
/// same value under every higher limit.
pub proof fn lemma_depth_suffices_apply(
    funcs: FuncsModel,
    name: Seq<char>,
    values: Seq<Value>,
    depth: nat,
    more: nat,
)
    requires
        depth <= more,
        apply(funcs, name, values, depth) != Err::<Value, EvalError>(EvalError::DepthExceeded),
    ensures
        apply(funcs, name, values, more) == apply(funcs, name, values, depth),
    decreases 2 * depth, values, 0nat,
{
    if funcs.contains_key(name) {
        lemma_depth_suffices(
            funcs,
            bind(funcs[name].params, values),
            funcs[name].body,
            (depth - 1) as nat,
            (more - 1) as nat,
        );
    }
}

/// A definition binds its name to the value that its expression has when the
/// definition is made, whatever the name was bound to before: the name then
/// evaluates to that value, and every other name to what it did.
pub proof fn lemma_definition_binds(state: InterpreterModel, name: Seq<char>, expr: ExprModel)
    requires
        state.value_of(expr) is Ok,
    ensures
        state.define(DefinitionModel::Value(name, expr)) is Ok,
        state.define(DefinitionModel::Value(name, expr))->Ok_0.value_of(ExprModel::Ident(name))
            == state.value_of(expr),
        forall|other: Seq<char>|
            other != name ==> #[trigger] state.define(
                DefinitionModel::Value(name, expr),
            )->Ok_0.value_of(ExprModel::Ident(other)) == state.value_of(ExprModel::Ident(other)),
{
}

/// A definition whose expression fails binds nothing.
pub proof fn lemma_failed_definition(state: InterpreterModel, name: Seq<char>, expr: ExprModel)
    requires
        state.value_of(expr) is Err,
    ensures
        state.define(DefinitionModel::Value(name, expr)) == Err::<InterpreterModel, EvalError>(
            state.value_of(expr)->Err_0,
        ),
{
}

/// Evaluation reads the state and does not change it: an expression that is
/// run twice, with no definition in between, has the same result both times,
/// and the state after the two runs is the state before them.
pub proof fn lemma_expr_repeatable(
    state: InterpreterModel,
    code: Seq<char>,
    first: Result<Value, ErrorModel>,
    between: InterpreterModel,
    second: Result<Value, ErrorModel>,
    after: InterpreterModel,
)
    requires
        state.expr_yields(code, first, between),
        between.expr_yields(code, second, after),
    ensures
        first == second,
        after == state,
{
}

/// A sum that starts from 0 and a product that starts from 1 are what the fold
/// makes of them: the first integer, taken as it is, is what `+` makes of 0
/// and that integer, and what `*` makes of 1 and it.
pub proof fn lemma_identity_is_neutral(op: ArithOp, v: i64)
    requires
        op == ArithOp::Add || op == ArithOp::Mul,
    ensures
        op.apply(op.identity(), v) == Ok::<i64, EvalError>(v),
{
}

/// The name of each arithmetic operator.
pub open spec fn operator_name(op: ArithOp) -> Seq<char> {
    match op {
        ArithOp::Add => "+"@,
        ArithOp::Mul => "*"@,
        ArithOp::Sub => "-"@,
        ArithOp::Div => "/"@,
    }
}

/// Each arithmetic operator is called by its own name.
pub proof fn lemma_operator_names(op: ArithOp)
    ensures
        ArithOp::named(operator_name(op)) == Some(op),
{
    reveal_strlit("+");
    reveal_strlit("*");
    reveal_strlit("-");
    reveal_strlit("/");
    assert("+"@[0] == '+' && "*"@[0] == '*' && "-"@[0] == '-' && "/"@[0] == '/');
}

/// An arithmetic operator without arguments has its identity as value: 0 for
/// `+` and `-`, 1 for `*` and `/`.
pub proof fn lemma_operator_of_nothing(
    funcs: FuncsModel,
    scope: ScopeModel,
    op: ArithOp,
    depth: nat,
)
    ensures
        eval_call(funcs, scope, operator_name(op), Seq::empty(), depth) == Ok::<Value, EvalError>(
            Value::Int(op.identity()),
        ),
{
    lemma_operator_names(op);
}

/// An arithmetic operator on one argument has the value of that argument.
pub proof fn lemma_operator_of_one(
    funcs: FuncsModel,
    scope: ScopeModel,
    op: ArithOp,
    arg: ExprModel,
    depth: nat,
)
    ensures
        eval_call(funcs, scope, operator_name(op), seq![arg], depth) == eval(
            funcs,
            scope,
            arg,
            depth,
        ),
{
    lemma_operator_names(op);
    let args = seq![arg];
    assert(args[0] == arg);
    assert(fold(funcs, scope, op, args, 0, depth) == Ok::<Folded, EvalError>(Folded::Empty));
    assert(fold(funcs, scope, op, args, 1, depth) == match eval(funcs, scope, arg, depth) {
        Err(e) => Err::<Folded, EvalError>(e),
        Ok(Value::Nil) => Ok(Folded::Nil),
        Ok(Value::Int(v)) => Ok(Folded::Acc(v)),
    });
}

/// `if` is none of the arithmetic operators.
pub proof fn lemma_if_is_no_operator()
    ensures
        ArithOp::named("if"@) is None,
{
    reveal_strlit("if");
    reveal_strlit("+");
    reveal_strlit("*");
    reveal_strlit("-");
    reveal_strlit("/");
    assert("if"@.len() == 2);
    assert("+"@.len() == 1 && "*"@.len() == 1 && "-"@.len() == 1 && "/"@.len() == 1);
}

/// `if` evaluates one branch only: where the condition is true, the value of
/// the call is that of the second argument, whatever the third is, and where
/// it is not, that of the third, whatever the second is.
pub proof fn lemma_if_takes_one_branch(
    funcs: FuncsModel,
    scope: ScopeModel,
    condition: ExprModel,
    then_branch: ExprModel,
    else_branch: ExprModel,
    depth: nat,
)
    requires
        eval(funcs, scope, condition, depth) is Ok,
    ensures
        eval_call(funcs, scope, "if"@, seq![condition, then_branch, else_branch], depth) == if eval(
            funcs,
            scope,
            condition,
            depth,
        )->Ok_0.is_truthy() {
            eval(funcs, scope, then_branch, depth)
        } else {
            eval(funcs, scope, else_branch, depth)
        },
{
    lemma_if_is_no_operator();
    let args = seq![condition, then_branch, else_branch];
    assert(args[0] == condition && args[1] == then_branch && args[2] == else_branch);
}

/// A call binds its parameters and nothing else: a name that is no parameter
/// is `nil` in the scope of the call, whatever it is bound to outside.
pub proof fn lemma_bind_only_params(params: Seq<Seq<char>>, values: Seq<Value>, name: Seq<char>)
    requires
        !params.contains(name),
    ensures
        !bind(params, values).contains_key(name),
        lookup(bind(params, values), name) == Value::Nil,
    decreases params.len(),
{
    if params.len() > 0 {
        let front = params.drop_last();
        assert(params.last() != name);
        assert forall|k: int| 0 <= k < front.len() implies front[k] != name by {
            assert(front[k] == params[k]);
        }
        lemma_bind_only_params(front, values, name);
    }
}

/// A call binds the parameter at place `i`, where its name does not occur
/// again later in the list, to the argument at that place, or to `nil` where
/// the arguments end before it. Arguments beyond the parameters bind nothing.
pub proof fn lemma_bind_lookup(params: Seq<Seq<char>>, values: Seq<Value>, i: int)
    requires
        0 <= i < params.len(),
        forall|j: int| i < j < params.len() ==> params[j] != params[i],
    ensures
        lookup(bind(params, values), params[i]) == if i < values.len() {
            values[i]
        } else {
            Value::Nil
        },
    decreases params.len(),
{
    let last = params.len() - 1;
    if i < last {
        let front = params.drop_last();
        assert(params[last] != params[i]);
        assert(front[i] == params[i]);
        assert forall|j: int| i < j < front.len() implies front[j] != front[i] by {
            assert(front[j] == params[j]);
        }
        lemma_bind_lookup(front, values, i);
    }
}

} // verus!
