//! What evaluation means: the result and the environment that each form gives,
//! as functions of the form, the environment before, and the depth left.

use crate::env::{Scope, bind, enter, leave, lookup};
use crate::lexer::tokenize_spec;
use crate::parser::{Value, debug_text, parse_spec, parser_error_text, render};
use crate::stdlib::{Outcome, native_spec};
use crate::text::nat_text;
use vstd::prelude::*;

verus! {

/// The result of evaluating a form, with the environment it leaves.
pub struct Evaluation {
    pub result: Outcome,
    pub env: Seq<Scope>,
}

/// The results of evaluating several forms in turn, with the environment they leave.
pub struct Evaluations {
    pub result: Result<Seq<Value>, Seq<char>>,
    pub env: Seq<Scope>,
}

/// An evaluation that gave a value.
pub open spec fn done(env: Seq<Scope>, v: Value) -> Evaluation {
    Evaluation { result: Ok(v), env }
}

/// An evaluation that failed.
pub open spec fn fail(env: Seq<Scope>, message: Seq<char>) -> Evaluation {
    Evaluation { result: Err(message), env }
}

/// The error of an evaluation that would nest calls deeper than allowed.
pub open spec fn depth_error() -> Seq<char> {
    "Maximum evaluation depth exceeded"@
}

/// The error of an arithmetic result outside the signed 64-bit range.
pub open spec fn overflow_error() -> Seq<char> {
    "Integer overflow"@
}

/// The error of a symbol that no scope binds.
pub open spec fn unbound_symbol_error(name: Seq<char>) -> Seq<char> {
    "Unbound symbol: "@ + name
}

/// The error of a call by a name that no scope binds.
pub open spec fn undefined_function_error(name: Seq<char>) -> Seq<char> {
    "Function not defined: "@ + name
}

/// The error of a call by a name that is bound to a value that cannot be called.
pub open spec fn not_a_function_error(name: Seq<char>) -> Seq<char> {
    "Not a function: "@ + name
}

/// Whether a symbol names a binary operator.
pub open spec fn is_operator(s: Seq<char>) -> bool {
    s == "+"@ || s == "-"@ || s == "*"@ || s == "/"@ || s == "<"@ || s == ">"@ || s == "="@ || s
        == "!="@
}

/// The quotient of two integers, rounded toward zero.
pub open spec fn truncated_quotient(a: int, b: int) -> int
    recommends
        b != 0,
{
    if a >= 0 && b > 0 {
        a / b
    } else if a < 0 && b > 0 {
        -((-a) / b)
    } else if a >= 0 && b < 0 {
        -(a / (-b))
    } else {
        (-a) / (-b)
    }
}

/// An integer result, where it fits the signed 64-bit range.
pub open spec fn integer_result(x: int) -> Outcome {
    if i64::MIN <= x <= i64::MAX {
        Ok(Value::Integer(x as i64))
    } else {
        Err(overflow_error())
    }
}

/// What a binary operator gives for two integers.
pub open spec fn operate(op: Seq<char>, a: i64, b: i64) -> Outcome {
    if op == "+"@ {
        integer_result(a + b)
    } else if op == "-"@ {
        integer_result(a - b)
    } else if op == "*"@ {
        integer_result(a * b)
    } else if op == "/"@ {
        if b == 0 {
            Err("Division by zero"@)
        } else {
            integer_result(truncated_quotient(a as int, b as int))
        }
    } else if op == "<"@ {
        Ok(Value::Bool(a < b))
    } else if op == ">"@ {
        Ok(Value::Bool(a > b))
    } else if op == "="@ {
        Ok(Value::Bool(a == b))
    } else if op == "!="@ {
        Ok(Value::Bool(a != b))
    } else {
        Err("Invalid infix operator: "@ + op)
    }
}

/// What a binary operator gives for two evaluated operands: both must be
/// integers, and the left one is looked at first. The error shows the operand
/// that is none.
pub open spec fn apply_operator(op: Seq<char>, left: Value, right: Value) -> Outcome {
    match left {
        Value::Integer(a) => match right {
            Value::Integer(b) => operate(op, a, b),
            _ => Err("Right operand must be an integer "@ + debug_text(right)),
        },
        _ => Err("Left operand must be an integer "@ + debug_text(left)),
    }
}

/// The names of the first `n` parameters, where each of them is a symbol.
pub open spec fn symbol_names(params: Seq<Value>, n: nat) -> Option<Seq<Seq<char>>>
    decreases n,
{
    if n == 0 || n > params.len() {
        Some(Seq::empty())
    } else {
        match (symbol_names(params, (n - 1) as nat), params[n - 1]) {
            (Some(names), Value::Symbol(name)) => Some(names.push(name)),
            _ => None,
        }
    }
}

/// What is wrong with one binding of a list of bindings, if anything: it must be
/// a list of two elements, the first of them a symbol.
pub open spec fn binding_fault(binding: Value) -> Option<Seq<char>> {
    match binding {
        Value::List(pair) => if pair.len() != 2 {
            Some("Invalid syntax, expected a list of 2 elements, got "@ + nat_text(pair.len()))
        } else {
            match pair[0] {
                Value::Symbol(_) => None,
                other => Some(render(other) + " is a invalid symbol to let assignment"@),
            }
        },
        other => Some("Invalid syntax, expected a list, got "@ + render(other)),
    }
}

/// What is wrong with the first faulty binding from index `k` on, if any is.
pub open spec fn first_binding_fault(bindings: Seq<Value>, k: nat) -> Option<Seq<char>>
    decreases bindings.len() - k,
{
    if k >= bindings.len() {
        None
    } else {
        match binding_fault(bindings[k as int]) {
            Some(fault) => Some(fault),
            None => first_binding_fault(bindings, k + 1),
        }
    }
}

/// The error of a `let` that has not exactly a name and a value after it. With
/// nothing after it, it lacks its arguments; with a name alone, it lacks the
/// value; with a list of bindings alone, the first faulty binding is named.
pub open spec fn let_arity_error(items: Seq<Value>) -> Seq<char> {
    if items.len() == 1 {
        "Expect at least one argument for let, got 0"@
    } else if items.len() == 2 {
        match items[1] {
            Value::Symbol(name) => "Invalid syntax, there is no value to assign to "@ + name,
            Value::List(bindings) => match first_binding_fault(bindings, 0) {
                Some(fault) => fault,
                None => "Invalid number of arguments for let"@,
            },
            _ => "Invalid number of arguments for let"@,
        }
    } else {
        "Invalid number of arguments for let"@
    }
}

/// A value as it is bound by `let`: a lambda becomes a named function.
pub open spec fn as_function(v: Value) -> Value {
    match v {
        Value::Lambda(params, body) => Value::Function(params, body),
        _ => v,
    }
}

/// The environment after the first `n` parameters were bound, in order, to the
/// values at their places.
pub open spec fn bind_all(env: Seq<Scope>, params: Seq<Seq<char>>, values: Seq<Value>, n: nat) -> Seq<
    Scope,
>
    decreases n,
{
    if n == 0 || n > params.len() || n > values.len() {
        env
    } else {
        bind(bind_all(env, params, values, (n - 1) as nat), params[n - 1], values[n - 1])
    }
}

/// What a symbol evaluates to: `true` and `false` are the two truth values, any
/// other name stands for the value it is bound to.
pub open spec fn eval_symbol(env: Seq<Scope>, name: Seq<char>) -> Evaluation {
    if name == "true"@ {
        done(env, Value::Bool(true))
    } else if name == "false"@ {
        done(env, Value::Bool(false))
    } else {
        match lookup(env, name) {
            Some(v) => done(env, v),
            None => fail(env, unbound_symbol_error(name)),
        }
    }
}

/// What `(defun name (params) (body))` does: it binds a function to the name.
pub open spec fn eval_function(env: Seq<Scope>, items: Seq<Value>) -> Evaluation {
    if items.len() != 4 {
        fail(env, "Invalid number of arguments for defun"@)
    } else {
        match items[1] {
            Value::Symbol(name) => match items[2] {
                Value::List(params) => match symbol_names(params, params.len()) {
                    None => fail(env, "Invalid defun parameter"@),
                    Some(names) => match items[3] {
                        Value::List(body) => Evaluation {
                            result: Ok(Value::Void),
                            env: bind(env, name, Value::Function(names, body)),
                        },
                        _ => fail(env, "Invalid defun"@),
                    },
                },
                _ => fail(env, "Invalid defun"@),
            },
            _ => fail(env, "Invalid defun"@),
        }
    }
}

/// What `(lambda (params) (body))` gives: the anonymous function, unevaluated.
pub open spec fn eval_lambda(env: Seq<Scope>, items: Seq<Value>) -> Evaluation {
    if items.len() != 3 {
        fail(env, "Invalid number of arguments for lambda"@)
    } else {
        match items[1] {
            Value::List(params) => match symbol_names(params, params.len()) {
                None => fail(env, "Invalid lambda parameter"@),
                Some(names) => match items[2] {
                    Value::List(body) => done(env, Value::Lambda(names, body)),
                    _ => fail(env, "Invalid lambda"@),
                },
            },
            _ => fail(env, "Invalid lambda"@),
        }
    }
}

/// What a value evaluates to. A list is evaluated as a form; where that gives a
/// list again, this list is evaluated as a form once more, one level deeper.
pub open spec fn eval_value(env: Seq<Scope>, v: Value, depth: nat) -> Evaluation
    decreases depth, v, 0nat,
{
    match v {
        Value::List(items) => {
            let first = eval_form(env, items, depth);
            match first.result {
                Ok(Value::List(again)) => if depth == 0 {
                    fail(first.env, depth_error())
                } else {
                    eval_form(first.env, again, (depth - 1) as nat)
                },
                _ => first,
            }
        },
        Value::Symbol(name) => eval_symbol(env, name),
        Value::Function(_, _) => done(env, Value::Void),
        _ => done(env, v),
    }
}

/// What a list means as a form, which its first element decides.
pub open spec fn eval_form(env: Seq<Scope>, items: Seq<Value>, depth: nat) -> Evaluation
    decreases depth, items, items.len() + 2,
{
    if items.len() == 0 {
        done(env, Value::List(Seq::empty()))
    } else {
        match items[0] {
            Value::Symbol(head) => if is_operator(head) {
                eval_binary_op(env, items, depth)
            } else if head == "let"@ {
                eval_let(env, items, depth)
            } else if head == "defun"@ {
                eval_function(env, items)
            } else if head == "if"@ {
                eval_if(env, items, depth)
            } else if head == "lambda"@ {
                eval_lambda(env, items)
            } else {
                eval_func_call(env, head, items, depth)
            },
            Value::Lambda(params, body) => eval_call(
                env,
                params,
                body,
                items,
                depth,
                "Invalid number of arguments for lambda"@,
            ),
            _ => {
                let all = eval_each(env, items, 0, Seq::empty(), depth, false);
                match all.result {
                    Ok(values) => done(all.env, Value::List(values)),
                    Err(e) => fail(all.env, e),
                }
            },
        }
    }
}

/// What `(op left right)` gives: both operands are evaluated, the left one first,
/// then the operator is applied.
pub open spec fn eval_binary_op(env: Seq<Scope>, items: Seq<Value>, depth: nat) -> Evaluation
    decreases depth, items, items.len() + 1,
{
    if items.len() != 3 {
        fail(env, "Invalid number of arguments for binary operation"@)
    } else {
        let left = eval_value(env, items[1], depth);
        match left.result {
            Err(_) => left,
            Ok(l) => {
                let right = eval_value(left.env, items[2], depth);
                match right.result {
                    Err(_) => right,
                    Ok(r) => match items[0] {
                        Value::Symbol(op) => Evaluation {
                            result: apply_operator(op, l, r),
                            env: right.env,
                        },
                        _ => fail(right.env, "Operator must be a symbol"@),
                    },
                }
            },
        }
    }
}

/// What `(let name value)` does: it binds the evaluated value to the name in the
/// current scope, a lambda as a named function, and gives nothing. Any other
/// number of elements is an error, and so is a name that is no symbol.
pub open spec fn eval_let(env: Seq<Scope>, items: Seq<Value>, depth: nat) -> Evaluation
    decreases depth, items, items.len() + 1,
{
    if items.len() != 3 {
        fail(env, let_arity_error(items))
    } else {
        match items[1] {
            Value::Symbol(name) => {
                let value = eval_value(env, items[2], depth);
                match value.result {
                    Err(_) => value,
                    Ok(v) => Evaluation {
                        result: Ok(Value::Void),
                        env: bind(value.env, name, as_function(v)),
                    },
                }
            },
            _ => fail(env, "Invalid let"@),
        }
    }
}

/// What `(if condition then else)` gives: the branch that the condition chooses;
/// the other branch is not evaluated.
pub open spec fn eval_if(env: Seq<Scope>, items: Seq<Value>, depth: nat) -> Evaluation
    decreases depth, items, items.len() + 1,
{
    if items.len() != 4 {
        fail(env, "Invalid number of arguments for if"@)
    } else {
        let condition = eval_value(env, items[1], depth);
        match condition.result {
            Err(_) => condition,
            Ok(Value::Bool(b)) => if b {
                eval_value(condition.env, items[2], depth)
            } else {
                eval_value(condition.env, items[3], depth)
            },
            Ok(_) => fail(condition.env, "Invalid condition"@),
        }
    }
}

/// What `(name args..)` gives, where the name is no special form: the call of the
/// function or of the native function that the name is bound to.
pub open spec fn eval_func_call(env: Seq<Scope>, name: Seq<char>, items: Seq<Value>, depth: nat) -> Evaluation
    decreases depth, items, items.len() + 1,
{
    match lookup(env, name) {
        None => fail(env, undefined_function_error(name)),
        Some(Value::Function(params, body)) => eval_call(
            env,
            params,
            body,
            items,
            depth,
            "Invalid number of arguments for function"@,
        ),
        Some(Value::SysCall(_, func)) => {
            let args = eval_each(env, items, 1, Seq::empty(), depth, true);
            match args.result {
                Ok(values) => Evaluation { result: native_spec(func, values), env: args.env },
                Err(e) => fail(args.env, e),
            }
        },
        Some(_) => fail(env, not_a_function_error(name)),
    }
}

/// The call of a function on the arguments `items[1..]`: as many as it has
/// parameters, evaluated in the caller's environment; then the body is evaluated
/// as a list in a new scope that binds the parameters, one level deeper, and the
/// scope is left whether the body failed or not.
pub open spec fn eval_call(
    env: Seq<Scope>,
    params: Seq<Seq<char>>,
    body: Seq<Value>,
    items: Seq<Value>,
    depth: nat,
    arity_error: Seq<char>,
) -> Evaluation
    decreases depth, items, items.len() + 0,
{
    if items.len() == 0 || params.len() != items.len() - 1 {
        fail(env, arity_error)
    } else {
        let args = eval_each(env, items, 1, Seq::empty(), depth, true);
        match args.result {
            Err(e) => fail(args.env, e),
            Ok(values) => if depth == 0 {
                fail(args.env, depth_error())
            } else {
                let inner = bind_all(enter(args.env), params, values, params.len());
                let out = eval_value(inner, Value::List(body), (depth - 1) as nat);
                Evaluation { result: out.result, env: leave(out.env) }
            },
        }
    }
}

/// How many of `len` places are left from index `i` on.
pub open spec fn remaining(len: nat, i: nat) -> nat {
    if i < len {
        (len - i) as nat
    } else {
        0
    }
}

/// The values of the forms from index `i` on, evaluated in turn and appended to
/// `acc`, up to the first that fails. With `keep_void` unset, a form that gives
/// nothing adds nothing.
pub open spec fn eval_each(
    env: Seq<Scope>,
    items: Seq<Value>,
    i: nat,
    acc: Seq<Value>,
    depth: nat,
    keep_void: bool,
) -> Evaluations
    decreases depth, items, remaining(items.len(), i),
{
    if i >= items.len() {
        Evaluations { result: Ok(acc), env }
    } else {
        let one = eval_value(env, items[i as int], depth);
        match one.result {
            Err(e) => Evaluations { result: Err(e), env: one.env },
            Ok(v) => eval_each(
                one.env,
                items,
                i + 1,
                if v is Void && !keep_void {
                    acc
                } else {
                    acc.push(v)
                },
                depth,
                keep_void,
            ),
        }
    }
}

/// What a source text evaluates to: the text of the parse error where it does
/// not parse, else what its value evaluates to.
pub open spec fn eval_text(env: Seq<Scope>, text: Seq<char>, depth: nat) -> Evaluation {
    match parse_spec(tokenize_spec(text)) {
        Err(e) => fail(env, parser_error_text(e)),
        Ok(v) => eval_value(env, v, depth),
    }
}

} // verus!
