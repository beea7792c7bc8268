//! Laws of evaluation, proved from the meaning of the forms.

use crate::env::{Scope, bind, enter, lookup};
use crate::parser::{Value, render};
use crate::semantics::{
    as_function, bind_all, done, eval_binary_op, eval_call, eval_each, eval_form, eval_func_call,
    eval_function, eval_if, eval_let, eval_text, eval_value, fail, is_operator, remaining,
    symbol_names, truncated_quotient,
};
use crate::syntax_laws::{is_syntax, law_round_trip};
use vstd::prelude::*;

verus! {

/// Whether a symbol names a special form.
pub open spec fn is_special_form(s: Seq<char>) -> bool {
    s == "let"@ || s == "defun"@ || s == "if"@ || s == "lambda"@
}

/// The names of the operators and of the special forms are all different.
pub proof fn lemma_names_differ()
    ensures
        !is_operator("let"@),
        !is_operator("defun"@),
        !is_operator("if"@),
        !is_operator("lambda"@),
        "+"@ != "-"@,
        "+"@ != "*"@,
        "+"@ != "/"@,
        "-"@ != "*"@,
        "-"@ != "/"@,
        "*"@ != "/"@,
        "let"@ != "defun"@,
        "let"@ != "if"@,
        "let"@ != "lambda"@,
        "defun"@ != "if"@,
        "defun"@ != "lambda"@,
        "if"@ != "lambda"@,
{
    reveal_strlit("+");
    reveal_strlit("-");
    reveal_strlit("*");
    reveal_strlit("/");
    reveal_strlit("<");
    reveal_strlit(">");
    reveal_strlit("=");
    reveal_strlit("!=");
    reveal_strlit("let");
    reveal_strlit("defun");
    reveal_strlit("if");
    reveal_strlit("lambda");
    assert("let"@.len() == 3 && "defun"@.len() == 5 && "if"@.len() == 2 && "lambda"@.len() == 6);
    assert("-"@[0] != "/"@[0]);
    assert("*"@[0] != "/"@[0]);
    assert("if"@[0] != "!="@[0]);
}

/// Whether a symbol names one of the four arithmetic operators.
pub open spec fn is_arithmetic_operator(op: Seq<char>) -> bool {
    op == "+"@ || op == "-"@ || op == "*"@ || op == "/"@
}

/// Whether a value is an arithmetic expression: an integer literal, or a list of
/// an arithmetic operator and two arithmetic expressions.
pub open spec fn is_arithmetic(v: Value) -> bool
    decreases v,
{
    match v {
        Value::Integer(_) => true,
        Value::List(items) => items.len() == 3 && (match items[0] {
            Value::Symbol(op) => is_arithmetic_operator(op),
            _ => false,
        }) && is_arithmetic(items[1]) && is_arithmetic(items[2]),
        _ => false,
    }
}

/// What an arithmetic operator gives for two integers: the sum, the difference,
/// the product or the quotient rounded toward zero, where it lies in the signed
/// 64-bit range; a division by zero and a result out of range are errors.
pub open spec fn combine(op: Seq<char>, a: int, b: int) -> Result<int, Seq<char>> {
    if op == "/"@ && b == 0 {
        Err("Division by zero"@)
    } else {
        let x = if op == "+"@ {
            a + b
        } else if op == "-"@ {
            a - b
        } else if op == "*"@ {
            a * b
        } else {
            truncated_quotient(a, b)
        };
        if i64::MIN <= x <= i64::MAX {
            Ok(x)
        } else {
            Err("Integer overflow"@)
        }
    }
}

/// The value of an arithmetic expression as a binary tree: the left operand
/// first, then the right one, then the operator; the first error ends it.
pub open spec fn arithmetic_result(v: Value) -> Result<int, Seq<char>>
    decreases v,
{
    match v {
        Value::Integer(n) => Ok(n as int),
        Value::List(items) => if items.len() == 3 {
            match arithmetic_result(items[1]) {
                Err(e) => Err(e),
                Ok(a) => match arithmetic_result(items[2]) {
                    Err(e) => Err(e),
                    Ok(b) => match items[0] {
                        Value::Symbol(op) => combine(op, a, b),
                        _ => Err(Seq::empty()),
                    },
                },
            }
        } else {
            Err(Seq::empty())
        },
        _ => Err(Seq::empty()),
    }
}

/// An arithmetic expression over integer literals evaluates, in every
/// environment and at every depth, to the value of its expression tree, and
/// leaves the environment as it was.
pub proof fn law_arithmetic(env: Seq<Scope>, v: Value, depth: nat)
    requires
        is_arithmetic(v),
    ensures
        eval_value(env, v, depth).env == env,
        match arithmetic_result(v) {
            Ok(x) => i64::MIN <= x <= i64::MAX && eval_value(env, v, depth).result == Ok::<
                Value,
                Seq<char>,
            >(Value::Integer(x as i64)),
            Err(e) => eval_value(env, v, depth).result == Err::<Value, Seq<char>>(e),
        },
    decreases v,
{
    match v {
        Value::List(items) => {
            lemma_names_differ();
            law_arithmetic(env, items[1], depth);
            law_arithmetic(env, items[2], depth);
        },
        _ => {},
    }
}

/// The four arithmetic operators are symbols as the parser builds them.
pub proof fn lemma_operators_are_syntax()
    ensures
        is_syntax(Value::Symbol("+"@)),
        is_syntax(Value::Symbol("-"@)),
        is_syntax(Value::Symbol("*"@)),
        is_syntax(Value::Symbol("/"@)),
{
    reveal_strlit("+");
    reveal_strlit("-");
    reveal_strlit("*");
    reveal_strlit("/");
}

/// An arithmetic expression is syntax as the parser builds it.
pub proof fn lemma_arithmetic_is_syntax(v: Value)
    requires
        is_arithmetic(v),
    ensures
        is_syntax(v),
    decreases v,
{
    match v {
        Value::List(items) => {
            lemma_operators_are_syntax();
            lemma_arithmetic_is_syntax(items[1]);
            lemma_arithmetic_is_syntax(items[2]);
        },
        _ => {},
    }
}

/// A program that is the text of an arithmetic expression over integer literals
/// evaluates to the value of the expression tree, in every environment and at
/// every depth, and leaves the environment as it was.
pub proof fn law_arithmetic_program(env: Seq<Scope>, v: Value, depth: nat)
    requires
        is_arithmetic(v),
    ensures
        eval_text(env, render(v), depth).env == env,
        match arithmetic_result(v) {
            Ok(x) => i64::MIN <= x <= i64::MAX && eval_text(env, render(v), depth).result == Ok::<
                Value,
                Seq<char>,
            >(Value::Integer(x as i64)),
            Err(e) => eval_text(env, render(v), depth).result == Err::<Value, Seq<char>>(e),
        },
{
    lemma_arithmetic_is_syntax(v);
    law_round_trip(v);
    law_arithmetic(env, v, depth);
}

/// The program `(/ x 0)` fails with the message "Division by zero" for every
/// integer `x`, in every environment and at every depth.
pub proof fn law_division_by_zero_program(env: Seq<Scope>, x: i64, depth: nat)
    ensures
        eval_text(
            env,
            render(Value::List(seq![Value::Symbol("/"@), Value::Integer(x), Value::Integer(0)])),
            depth,
        ) == fail(env, "Division by zero"@),
{
    let form = Value::List(seq![Value::Symbol("/"@), Value::Integer(x), Value::Integer(0)]);
    let items = seq![Value::Symbol("/"@), Value::Integer(x), Value::Integer(0)];
    lemma_operators_are_syntax();
    assert forall|i: int| 0 <= i < items.len() implies is_syntax(#[trigger] items[i]) by {}
    law_round_trip(form);
    law_division_by_zero(env, x, depth);
}

/// Dividing any integer by zero fails with the message "Division by zero", in
/// every environment and at every depth, and leaves the environment as it was.
pub proof fn law_division_by_zero(env: Seq<Scope>, x: i64, depth: nat)
    ensures
        eval_value(
            env,
            Value::List(seq![Value::Symbol("/"@), Value::Integer(x), Value::Integer(0)]),
            depth,
        ) == fail(env, "Division by zero"@),
{
    lemma_names_differ();
    let items = seq![Value::Symbol("/"@), Value::Integer(x), Value::Integer(0)];
    assert(eval_binary_op(env, items, depth) == fail(env, "Division by zero"@));
}

/// A symbol that no scope binds, other than `true` and `false`, fails to evaluate
/// with "Unbound symbol: " and its name.
pub proof fn law_unbound_symbol(env: Seq<Scope>, name: Seq<char>, depth: nat)
    requires
        lookup(env, name) is None,
        name != "true"@,
        name != "false"@,
    ensures
        eval_value(env, Value::Symbol(name), depth) == fail(env, "Unbound symbol: "@ + name),
{
}

/// A call by a name that no scope binds, the name being neither an operator nor
/// a special form, fails with "Function not defined: " and the name.
pub proof fn law_undefined_function(env: Seq<Scope>, name: Seq<char>, items: Seq<Value>, depth: nat)
    requires
        items.len() > 0,
        items[0] == Value::Symbol(name),
        !is_operator(name),
        !is_special_form(name),
        lookup(env, name) is None,
    ensures
        eval_value(env, Value::List(items), depth) == fail(
            env,
            "Function not defined: "@ + name,
        ),
{
}

/// A program that is one word, a symbol that no scope binds, fails with
/// "Unbound symbol: " and the word.
pub proof fn law_unbound_symbol_program(env: Seq<Scope>, name: Seq<char>, depth: nat)
    requires
        is_syntax(Value::Symbol(name)),
        lookup(env, name) is None,
        name != "true"@,
        name != "false"@,
    ensures
        eval_text(env, name, depth) == fail(env, "Unbound symbol: "@ + name),
{
    law_round_trip(Value::Symbol(name));
}

/// A program that is a call by a name that no scope binds, the name being
/// neither an operator nor a special form, fails with "Function not defined: "
/// and the name, whatever the arguments are.
pub proof fn law_undefined_function_program(
    env: Seq<Scope>,
    name: Seq<char>,
    items: Seq<Value>,
    depth: nat,
)
    requires
        is_syntax(Value::List(items)),
        items.len() > 0,
        items[0] == Value::Symbol(name),
        !is_operator(name),
        !is_special_form(name),
        lookup(env, name) is None,
    ensures
        eval_text(env, render(Value::List(items)), depth) == fail(
            env,
            "Function not defined: "@ + name,
        ),
{
    law_round_trip(Value::List(items));
}

/// Whether `after` has the scopes of `before`, all but the current one unchanged.
pub open spec fn same_outer_scopes(before: Seq<Scope>, after: Seq<Scope>) -> bool {
    after.len() == before.len() && after.drop_last() == before.drop_last()
}

/// Binding a name changes the current scope alone.
pub proof fn lemma_bind_outer(env: Seq<Scope>, name: Seq<char>, v: Value)
    requires
        env.len() > 0,
    ensures
        same_outer_scopes(env, bind(env, name, v)),
{
    assert(bind(env, name, v).drop_last() =~= env.drop_last());
}

/// Binding parameters changes the current scope alone.
pub proof fn lemma_bind_all_outer(env: Seq<Scope>, params: Seq<Seq<char>>, values: Seq<Value>, n: nat)
    requires
        env.len() > 0,
    ensures
        same_outer_scopes(env, bind_all(env, params, values, n)),
    decreases n,
{
    if 0 < n <= params.len() && n <= values.len() {
        lemma_bind_all_outer(env, params, values, (n - 1) as nat);
        lemma_bind_outer(
            bind_all(env, params, values, (n - 1) as nat),
            params[n - 1],
            values[n - 1],
        );
    }
}

/// Evaluating a value changes the current scope alone.
pub proof fn lemma_value_outer(env: Seq<Scope>, v: Value, depth: nat)
    requires
        env.len() > 0,
    ensures
        same_outer_scopes(env, eval_value(env, v, depth).env),
    decreases depth, v, 0nat,
{
    match v {
        Value::List(items) => {
            lemma_form_outer(env, items, depth);
            let first = eval_form(env, items, depth);
            match first.result {
                Ok(Value::List(again)) => {
                    if depth > 0 {
                        lemma_form_outer(first.env, again, (depth - 1) as nat);
                    }
                },
                _ => {},
            }
        },
        _ => {},
    }
}

/// Evaluating a form changes the current scope alone.
pub proof fn lemma_form_outer(env: Seq<Scope>, items: Seq<Value>, depth: nat)
    requires
        env.len() > 0,
    ensures
        same_outer_scopes(env, eval_form(env, items, depth).env),
    decreases depth, items, items.len() + 2,
{
    if items.len() > 0 {
        match items[0] {
            Value::Symbol(head) => {
                if is_operator(head) {
                    lemma_binary_op_outer(env, items, depth);
                } else if head == "let"@ {
                    lemma_let_outer(env, items, depth);
                } else if head == "defun"@ {
                    lemma_function_outer(env, items);
                } else if head == "if"@ {
                    lemma_if_outer(env, items, depth);
                } else if head != "lambda"@ {
                    lemma_func_call_outer(env, head, items, depth);
                }
            },
            Value::Lambda(params, body) => {
                lemma_call_outer(
                    env,
                    params,
                    body,
                    items,
                    depth,
                    "Invalid number of arguments for lambda"@,
                );
            },
            _ => {
                lemma_each_outer(env, items, 0, Seq::empty(), depth, false);
            },
        }
    }
}

/// Defining a function changes the current scope alone.
pub proof fn lemma_function_outer(env: Seq<Scope>, items: Seq<Value>)
    requires
        env.len() > 0,
    ensures
        same_outer_scopes(env, eval_function(env, items).env),
{
    let after = eval_function(env, items).env;
    if after != env {
        match items[1] {
            Value::Symbol(name) => match items[2] {
                Value::List(params) => match symbol_names(params, params.len()) {
                    Some(names) => match items[3] {
                        Value::List(body) => {
                            lemma_bind_outer(env, name, Value::Function(names, body));
                        },
                        _ => {},
                    },
                    None => {},
                },
                _ => {},
            },
            _ => {},
        }
    }
}

/// Applying a binary operator changes the current scope alone.
pub proof fn lemma_binary_op_outer(env: Seq<Scope>, items: Seq<Value>, depth: nat)
    requires
        env.len() > 0,
    ensures
        same_outer_scopes(env, eval_binary_op(env, items, depth).env),
    decreases depth, items, items.len() + 1,
{
    if items.len() == 3 {
        lemma_value_outer(env, items[1], depth);
        let left = eval_value(env, items[1], depth);
        if left.result is Ok {
            lemma_value_outer(left.env, items[2], depth);
        }
    }
}

/// `let` changes the current scope alone.
pub proof fn lemma_let_outer(env: Seq<Scope>, items: Seq<Value>, depth: nat)
    requires
        env.len() > 0,
    ensures
        same_outer_scopes(env, eval_let(env, items, depth).env),
    decreases depth, items, items.len() + 1,
{
    if items.len() == 3 {
        match items[1] {
            Value::Symbol(name) => {
                lemma_value_outer(env, items[2], depth);
                let value = eval_value(env, items[2], depth);
                match value.result {
                    Ok(v) => {
                        lemma_bind_outer(value.env, name, as_function(v));
                    },
                    Err(_) => {},
                }
            },
            _ => {},
        }
    }
}

/// `if` changes the current scope alone.
pub proof fn lemma_if_outer(env: Seq<Scope>, items: Seq<Value>, depth: nat)
    requires
        env.len() > 0,
    ensures
        same_outer_scopes(env, eval_if(env, items, depth).env),
    decreases depth, items, items.len() + 1,
{
    if items.len() == 4 {
        lemma_value_outer(env, items[1], depth);
        let condition = eval_value(env, items[1], depth);
        match condition.result {
            Ok(Value::Bool(b)) => {
                if b {
                    lemma_value_outer(condition.env, items[2], depth);
                } else {
                    lemma_value_outer(condition.env, items[3], depth);
                }
            },
            _ => {},
        }
    }
}

/// A call by name changes the current scope alone.
pub proof fn lemma_func_call_outer(env: Seq<Scope>, name: Seq<char>, items: Seq<Value>, depth: nat)
    requires
        env.len() > 0,
    ensures
        same_outer_scopes(env, eval_func_call(env, name, items, depth).env),
    decreases depth, items, items.len() + 1,
{
    match lookup(env, name) {
        Some(Value::Function(params, body)) => {
            lemma_call_outer(
                env,
                params,
                body,
                items,
                depth,
                "Invalid number of arguments for function"@,
            );
        },
        Some(Value::SysCall(_, _)) => {
            lemma_each_outer(env, items, 1, Seq::empty(), depth, true);
        },
        _ => {},
    }
}

/// Evaluating forms in turn changes the current scope alone.
pub proof fn lemma_each_outer(
    env: Seq<Scope>,
    items: Seq<Value>,
    i: nat,
    acc: Seq<Value>,
    depth: nat,
    keep_void: bool,
)
    requires
        env.len() > 0,
    ensures
        same_outer_scopes(env, eval_each(env, items, i, acc, depth, keep_void).env),
    decreases depth, items, remaining(items.len(), i),
{
    if i < items.len() {
        lemma_value_outer(env, items[i as int], depth);
        let one = eval_value(env, items[i as int], depth);
        match one.result {
            Ok(v) => {
                lemma_each_outer(
                    one.env,
                    items,
                    i + 1,
                    if v is Void && !keep_void {
                        acc
                    } else {
                        acc.push(v)
                    },
                    depth,
                    keep_void,
                );
            },
            Err(_) => {},
        }
    }
}

/// A call changes the current scope alone, and no more than the evaluation of
/// its arguments did.
pub proof fn lemma_call_outer(
    env: Seq<Scope>,
    params: Seq<Seq<char>>,
    body: Seq<Value>,
    items: Seq<Value>,
    depth: nat,
    arity_error: Seq<char>,
)
    requires
        env.len() > 0,
    ensures
        same_outer_scopes(env, eval_call(env, params, body, items, depth, arity_error).env),
        eval_call(env, params, body, items, depth, arity_error).env == if items.len() == 0
            || params.len() != items.len() - 1 {
            env
        } else {
            eval_each(env, items, 1, Seq::empty(), depth, true).env
        },
    decreases depth, items, items.len() + 0,
{
    if items.len() > 0 && params.len() == items.len() - 1 {
        lemma_each_outer(env, items, 1, Seq::empty(), depth, true);
        let args = eval_each(env, items, 1, Seq::empty(), depth, true);
        match args.result {
            Ok(values) => {
                if depth > 0 {
                    let inner = bind_all(enter(args.env), params, values, params.len());
                    lemma_bind_all_outer(enter(args.env), params, values, params.len());
                    assert(enter(args.env).drop_last() =~= args.env);
                    lemma_value_outer(inner, Value::List(body), (depth - 1) as nat);
                }
            },
            Err(_) => {},
        }
    }
}

/// In an environment with a current scope, a name that was just bound is found
/// with the value it was bound to, and every other name as before.
pub proof fn lemma_lookup_bound(env: Seq<Scope>, name: Seq<char>, v: Value, other: Seq<char>)
    requires
        env.len() > 0,
    ensures
        lookup(bind(env, name, v), other) == if other == name {
            Some(v)
        } else {
            lookup(env, other)
        },
{
    assert(bind(env, name, v).drop_last() =~= env.drop_last());
}

/// A scope just entered binds nothing: every name is found as before.
pub proof fn lemma_lookup_entered(env: Seq<Scope>, name: Seq<char>)
    ensures
        lookup(enter(env), name) == lookup(env, name),
{
    assert(enter(env).drop_last() =~= env);
}

/// The place of the last of the first `n` parameters that has the given name.
pub open spec fn last_parameter(params: Seq<Seq<char>>, name: Seq<char>, n: nat) -> Option<int>
    decreases n,
{
    if n == 0 || n > params.len() {
        None
    } else if params[n - 1] == name {
        Some(n - 1)
    } else {
        last_parameter(params, name, (n - 1) as nat)
    }
}

/// Inside a call, a name that is a parameter stands for its argument, and any
/// other name for what it stood for at the place of the call.
pub proof fn law_parameters_shadow(
    env: Seq<Scope>,
    params: Seq<Seq<char>>,
    values: Seq<Value>,
    n: nat,
    name: Seq<char>,
)
    requires
        n <= params.len(),
        n <= values.len(),
    ensures
        lookup(bind_all(enter(env), params, values, n), name) == match last_parameter(
            params,
            name,
            n,
        ) {
            Some(i) => Some(values[i]),
            None => lookup(env, name),
        },
    decreases n,
{
    if n == 0 {
        lemma_lookup_entered(env, name);
    } else {
        law_parameters_shadow(env, params, values, (n - 1) as nat, name);
        let before = bind_all(enter(env), params, values, (n - 1) as nat);
        lemma_bind_all_outer(enter(env), params, values, (n - 1) as nat);
        lemma_lookup_bound(before, params[n - 1], values[n - 1], name);
    }
}

/// Lexical scoping of calls. A call of a function with as many arguments as
/// parameters leaves the environment exactly as the evaluation of the arguments,
/// in the caller's environment, left it: what the body bound, parameters
/// included, is invisible once the call has returned, whether it failed or not.
pub proof fn law_call_restores_scope(
    env: Seq<Scope>,
    params: Seq<Seq<char>>,
    body: Seq<Value>,
    items: Seq<Value>,
    depth: nat,
    arity_error: Seq<char>,
    name: Seq<char>,
)
    requires
        env.len() > 0,
        items.len() > 0,
        params.len() == items.len() - 1,
    ensures
        eval_call(env, params, body, items, depth, arity_error).env == eval_each(
            env,
            items,
            1,
            Seq::empty(),
            depth,
            true,
        ).env,
        lookup(eval_call(env, params, body, items, depth, arity_error).env, name) == lookup(
            eval_each(env, items, 1, Seq::empty(), depth, true).env,
            name,
        ),
{
    lemma_call_outer(env, params, body, items, depth, arity_error);
}

/// No evaluation enters or leaves a scope for good, nor touches a scope other
/// than the current one.
pub proof fn law_evaluation_keeps_outer_scopes(env: Seq<Scope>, v: Value, depth: nat)
    requires
        env.len() > 0,
    ensures
        eval_value(env, v, depth).env.len() == env.len(),
        eval_value(env, v, depth).env.drop_last() == env.drop_last(),
{
    lemma_value_outer(env, v, depth);
}

/// `(let name e)` gives nothing and binds the name: where `e` evaluates to a
/// value, the symbol `name` evaluates afterwards to that value (a lambda as the
/// named function it was bound as), at any depth.
pub proof fn law_let_then_symbol(env: Seq<Scope>, name: Seq<char>, e: Value, depth: nat, later: nat)
    requires
        env.len() > 0,
        name != "true"@,
        name != "false"@,
        eval_value(env, e, depth).result is Ok,
    ensures
        ({
            let bound = eval_value(
                env,
                Value::List(seq![Value::Symbol("let"@), Value::Symbol(name), e]),
                depth,
            );
            let v = eval_value(env, e, depth).result->Ok_0;
            &&& bound.result == Ok::<Value, Seq<char>>(Value::Void)
            &&& bound.env == bind(eval_value(env, e, depth).env, name, as_function(v))
            &&& eval_value(bound.env, Value::Symbol(name), later) == done(
                bound.env,
                as_function(v),
            )
        }),
{
    lemma_names_differ();
    let value = eval_value(env, e, depth);
    let v = value.result->Ok_0;
    lemma_value_outer(env, e, depth);
}

/// In a program of two forms, `(let name e)` followed by `name`, the first form
/// adds nothing to the results and the second adds the value that `e` gave.
pub proof fn law_let_then_symbol_in_sequence(env: Seq<Scope>, name: Seq<char>, e: Value, depth: nat)
    requires
        env.len() > 0,
        name != "true"@,
        name != "false"@,
        eval_value(env, e, depth).result is Ok,
    ensures
        ({
            let program = seq![
                Value::List(seq![Value::Symbol("let"@), Value::Symbol(name), e]),
                Value::Symbol(name),
            ];
            let v = as_function(eval_value(env, e, depth).result->Ok_0);
            let all = eval_each(env, program, 0, Seq::empty(), depth, false);
            &&& all.env == bind(eval_value(env, e, depth).env, name, v)
            &&& all.result == Ok::<Seq<Value>, Seq<char>>(
                if v is Void {
                    Seq::empty()
                } else {
                    seq![v]
                },
            )
        }),
{
    law_let_then_symbol(env, name, e, depth, depth);
    let form = Value::List(seq![Value::Symbol("let"@), Value::Symbol(name), e]);
    let program = seq![form, Value::Symbol(name)];
    let bound = eval_value(env, form, depth);
    let v = as_function(eval_value(env, e, depth).result->Ok_0);
    let second = eval_each(bound.env, program, 1, Seq::empty(), depth, false);
    let acc = if v is Void {
        Seq::<Value>::empty()
    } else {
        Seq::<Value>::empty().push(v)
    };
    assert(second == eval_each(bound.env, program, 2, acc, depth, false));
}

} // verus!
