//! The evaluator: it walks a value tree and carries out what the forms mean.

use crate::env::{Env, Scope, bind};
use crate::lexer::Token;
use crate::parser::{
    Object, Value, clone_objects, lemma_objects_view, lemma_objects_view_empty,
    lemma_objects_view_push, names_view, objects_view, render,
};
use crate::semantics::{
    Evaluation, apply_operator, bind_all, eval_binary_op, eval_call, eval_each, eval_form,
    eval_func_call, eval_function, eval_if, eval_lambda, eval_let, eval_symbol, eval_text,
    eval_value, first_binding_fault, is_operator, let_arity_error, operate, overflow_error,
    remaining, symbol_names,
};
use crate::stdlib::outcome_view;
use crate::syscall::{Native, SysCallWrapper};
use crate::text::{push_nat, same_text};
use vstd::prelude::*;
use vstd::string::StringExecFns;

verus! {

/// How deep calls, and lists evaluated once more, may nest unless told otherwise.
pub const DEFAULT_DEPTH: usize = 256;

/// Whether a result and an environment are those of an evaluation.
pub open spec fn agrees(r: Result<Object, String>, env: Seq<Scope>, e: Evaluation) -> bool {
    outcome_view(r) == e.result && env == e.env
}

/// The environment after the standard library was registered in its current scope.
pub open spec fn with_stdlib(env: Seq<Scope>) -> Seq<Scope> {
    bind(
        bind(
            bind(env, "str"@, Value::SysCall("str"@, Native::ToStr)),
            "concatenate"@,
            Value::SysCall("concatenate"@, Native::Concat),
        ),
        "first"@,
        Value::SysCall("first"@, Native::First),
    )
}

/// An interpreter with the environment that its evaluations share.
pub struct Evaluator {
    pub env: Env,
}

/// The names of the values, where each of them is a symbol.
pub fn symbol_list(params: &Vec<Object>) -> (r: Option<Vec<String>>)
    ensures
        match r {
            Some(names) => symbol_names(objects_view(*params), params.len() as nat) == Some(
                names_view(names),
            ),
            None => symbol_names(objects_view(*params), params.len() as nat) is None,
        },
{
    let ghost views = objects_view(*params);
    let mut names: Vec<String> = Vec::new();
    let mut i: usize = 0;
    while i < params.len()
        invariant
            i <= params.len(),
            views == objects_view(*params),
            views.len() == params.len(),
            forall|j: int| 0 <= j < params.len() ==> views[j] == (#[trigger] params[j])@,
            symbol_names(views, i as nat) == Some(names_view(names)),
        decreases params.len() - i,
    {
        match &params[i] {
            Object::Symbol(s) => {
                names.push(s.clone());
            },
            _ => {
                proof {
                    lemma_symbol_names_none(views, (i + 1) as nat, views.len());
                }
                return None;
            },
        }
        i += 1;
    }
    Some(names)
}

/// Once a parameter is no symbol, no longer run of parameters has names.
pub proof fn lemma_symbol_names_none(params: Seq<Value>, n: nat, m: nat)
    requires
        n <= m <= params.len(),
        symbol_names(params, n) is None,
    ensures
        symbol_names(params, m) is None,
    decreases m,
{
    if n < m {
        lemma_symbol_names_none(params, n, (m - 1) as nat);
    }
}

/// Whether a name is that of a binary operator.
pub fn is_operator_name(name: &str) -> (r: bool)
    ensures
        r == is_operator(name@),
{
    same_text(name, "+") || same_text(name, "-") || same_text(name, "*") || same_text(name, "/")
        || same_text(name, "<") || same_text(name, ">") || same_text(name, "=") || same_text(
        name,
        "!=",
    )
}

/// An integer result, where the checked operation gave one.
fn checked_result(value: Option<i64>) -> (r: Result<Object, String>)
    ensures
        match value {
            Some(v) => outcome_view(r) == Ok::<Value, Seq<char>>(Value::Integer(v)),
            None => outcome_view(r) == Err::<Value, Seq<char>>(overflow_error()),
        },
{
    match value {
        Some(v) => Ok(Object::Integer(v)),
        None => Err(String::from_str("Integer overflow")),
    }
}

/// Applies a binary operator to two integers.
pub fn operate_on(op: &str, a: i64, b: i64) -> (r: Result<Object, String>)
    ensures
        outcome_view(r) == operate(op@, a, b),
{
    if same_text(op, "+") {
        checked_result(a.checked_add(b))
    } else if same_text(op, "-") {
        checked_result(a.checked_sub(b))
    } else if same_text(op, "*") {
        checked_result(a.checked_mul(b))
    } else if same_text(op, "/") {
        if b == 0 {
            Err(String::from_str("Division by zero"))
        } else {
            checked_result(a.checked_div(b))
        }
    } else if same_text(op, "<") {
        Ok(Object::Bool(a < b))
    } else if same_text(op, ">") {
        Ok(Object::Bool(a > b))
    } else if same_text(op, "=") {
        Ok(Object::Bool(a == b))
    } else if same_text(op, "!=") {
        Ok(Object::Bool(a != b))
    } else {
        let mut message = String::from_str("Invalid infix operator: ");
        message.append(op);
        Err(message)
    }
}

/// Applies a binary operator to two evaluated operands.
pub fn apply_operator_to(op: &str, left: &Object, right: &Object) -> (r: Result<Object, String>)
    ensures
        outcome_view(r) == apply_operator(op@, left@, right@),
{
    match left {
        Object::Integer(a) => match right {
            Object::Integer(b) => operate_on(op, *a, *b),
            _ => {
                let mut message = String::from_str("Right operand must be an integer ");
                right.push_debug(&mut message);
                Err(message)
            },
        },
        _ => {
            let mut message = String::from_str("Left operand must be an integer ");
            left.push_debug(&mut message);
            Err(message)
        },
    }
}

/// The error text for the first faulty binding of a list of bindings, if any is
/// faulty.
pub fn binding_fault_message(bindings: &Vec<Object>) -> (r: Option<String>)
    ensures
        match r {
            Some(fault) => first_binding_fault(objects_view(*bindings), 0) == Some(fault@),
            None => first_binding_fault(objects_view(*bindings), 0) is None,
        },
{
    let ghost views = objects_view(*bindings);
    let mut i: usize = 0;
    while i < bindings.len()
        invariant
            i <= bindings.len(),
            views == objects_view(*bindings),
            views.len() == bindings.len(),
            forall|j: int| 0 <= j < bindings.len() ==> views[j] == (#[trigger] bindings[j])@,
            first_binding_fault(views, i as nat) == first_binding_fault(views, 0),
        decreases bindings.len() - i,
    {
        assert(views[i as int] == bindings[i as int]@);
        match &bindings[i] {
            Object::List(pair) => {
                proof {
                    lemma_objects_view(*pair);
                }
                if pair.len() != 2 {
                    let mut message = String::from_str(
                        "Invalid syntax, expected a list of 2 elements, got ",
                    );
                    push_nat(pair.len() as u64, &mut message);
                    return Some(message);
                }
                match &pair[0] {
                    Object::Symbol(_) => {},
                    other => {
                        let mut message = String::new();
                        other.push_text(&mut message);
                        message.append(" is a invalid symbol to let assignment");
                        assert(message@ =~= render(other@)
                            + " is a invalid symbol to let assignment"@);
                        return Some(message);
                    },
                }
            },
            other => {
                let mut message = String::from_str("Invalid syntax, expected a list, got ");
                other.push_text(&mut message);
                return Some(message);
            },
        }
        i += 1;
    }
    None
}

/// The error text of a `let` that has not exactly a name and a value after it.
pub fn let_arity_message(list: &Vec<Object>) -> (message: String)
    ensures
        message@ == let_arity_error(objects_view(*list)),
{
    if list.len() == 1 {
        String::from_str("Expect at least one argument for let, got 0")
    } else if list.len() == 2 {
        match &list[1] {
            Object::Symbol(name) => {
                let mut message = String::from_str(
                    "Invalid syntax, there is no value to assign to ",
                );
                message.append(name.as_str());
                message
            },
            Object::List(bindings) => match binding_fault_message(bindings) {
                Some(fault) => fault,
                None => String::from_str("Invalid number of arguments for let"),
            },
            _ => String::from_str("Invalid number of arguments for let"),
        }
    } else {
        String::from_str("Invalid number of arguments for let")
    }
}

impl Evaluator {
    /// An interpreter with an empty environment, or with the standard library in it.
    pub fn new(with_stdlib: bool) -> (ev: Self)
        ensures
            ev.env@ == if with_stdlib {
                self::with_stdlib(seq![Map::<Seq<char>, Value>::empty()])
            } else {
                seq![Map::<Seq<char>, Value>::empty()]
            },
    {
        let mut ev = Evaluator { env: Env::new() };
        if with_stdlib {
            ev.add_stdlib();
        }
        ev
    }

    /// Registers the native functions `str`, `concatenate` and `first`.
    pub fn add_stdlib(&mut self)
        ensures
            final(self).env@ == with_stdlib(old(self).env@),
    {
        self.env.set("str", Object::SysCall(SysCallWrapper::new("str", Native::ToStr)));
        self.env.set(
            "concatenate",
            Object::SysCall(SysCallWrapper::new("concatenate", Native::Concat)),
        );
        self.env.set("first", Object::SysCall(SysCallWrapper::new("first", Native::First)));
    }

    /// Evaluates a source text: tokenizes it, parses it, and evaluates its value.
    pub fn eval(&mut self, statement: &str) -> (r: Result<Object, String>)
        ensures
            agrees(r, final(self).env@, eval_text(old(self).env@, statement@, DEFAULT_DEPTH as nat)),
    {
        self.eval_within(statement, DEFAULT_DEPTH)
    }

    /// Evaluates a source text, with calls nesting at most `depth` deep.
    pub fn eval_within(&mut self, statement: &str, depth: usize) -> (r: Result<Object, String>)
        ensures
            agrees(r, final(self).env@, eval_text(old(self).env@, statement@, depth as nat)),
    {
        let tokens = Token::tokenize(statement);
        match Object::from_tokens(tokens) {
            Ok(parsed) => self.eval_obj(&parsed, depth),
            Err(e) => Err(e.to_string()),
        }
    }

    /// Evaluates a value.
    pub fn eval_obj(&mut self, obj: &Object, depth: usize) -> (r: Result<Object, String>)
        ensures
            agrees(r, final(self).env@, eval_value(old(self).env@, obj@, depth as nat)),
        decreases depth, obj, 0nat,
    {
        match obj {
            Object::List(list) => {
                let result = self.eval_list(list, depth);
                match result {
                    Ok(Object::List(result_list)) => {
                        if depth == 0 {
                            Err(String::from_str("Maximum evaluation depth exceeded"))
                        } else {
                            self.eval_list(&result_list, depth - 1)
                        }
                    },
                    other => other,
                }
            },
            Object::Symbol(s) => self.eval_symbol(s.as_str()),
            Object::Function(_, _) => Ok(Object::Void),
            _ => Ok(obj.clone()),
        }
    }

    /// Evaluates a list as a form.
    pub fn eval_list(&mut self, list: &Vec<Object>, depth: usize) -> (r: Result<Object, String>)
        ensures
            agrees(r, final(self).env@, eval_form(old(self).env@, objects_view(*list), depth as nat)),
        decreases depth, list, list.len() + 2,
    {
        if list.len() == 0 {
            let empty: Vec<Object> = Vec::new();
            proof {
                lemma_objects_view_empty(empty);
            }
            return Ok(Object::List(empty));
        }
        match &list[0] {
            Object::Symbol(s) => {
                let head = s.as_str();
                if is_operator_name(head) {
                    self.eval_binary_op(list, depth)
                } else if same_text(head, "let") {
                    self.eval_let(list, depth)
                } else if same_text(head, "defun") {
                    self.eval_function(list)
                } else if same_text(head, "if") {
                    self.eval_if(list, depth)
                } else if same_text(head, "lambda") {
                    self.eval_lambda(list)
                } else {
                    self.eval_func_call(head, list, depth)
                }
            },
            Object::Lambda(params, body) => self.eval_anon_func_call(params, body, list, depth),
            _ => {
                match self.eval_each(list, 0, depth, false) {
                    Ok(values) => Ok(Object::List(values)),
                    Err(e) => Err(e),
                }
            },
        }
    }

    /// Evaluates the forms from index `from` on, in turn, up to the first that fails.
    pub fn eval_each(&mut self, items: &Vec<Object>, from: usize, depth: usize, keep_void: bool) -> (r:
        Result<Vec<Object>, String>)
        ensures
            final(self).env@ == eval_each(
                old(self).env@,
                objects_view(*items),
                from as nat,
                Seq::empty(),
                depth as nat,
                keep_void,
            ).env,
            match r {
                Ok(values) => eval_each(
                    old(self).env@,
                    objects_view(*items),
                    from as nat,
                    Seq::empty(),
                    depth as nat,
                    keep_void,
                ).result == Ok::<Seq<Value>, Seq<char>>(objects_view(values)) && (keep_void
                    ==> values.len() == remaining(items.len() as nat, from as nat)),
                Err(e) => eval_each(
                    old(self).env@,
                    objects_view(*items),
                    from as nat,
                    Seq::empty(),
                    depth as nat,
                    keep_void,
                ).result == Err::<Seq<Value>, Seq<char>>(e@),
            },
        decreases depth, items, remaining(items.len() as nat, from as nat),
    {
        let ghost views = objects_view(*items);
        let ghost start = self.env@;
        let mut values: Vec<Object> = Vec::new();
        proof {
            lemma_objects_view_empty(values);
        }
        let mut i: usize = from;
        while i < items.len()
            invariant
                from <= i,
                i <= items.len() || i == from,
                start == old(self).env@,
                views == objects_view(*items),
                views.len() == items.len(),
                forall|j: int| 0 <= j < items.len() ==> views[j] == (#[trigger] items[j])@,
                eval_each(self.env@, views, i as nat, objects_view(values), depth as nat, keep_void)
                    == eval_each(start, views, from as nat, Seq::empty(), depth as nat, keep_void),
                keep_void ==> values.len() == i - from,
            decreases items.len() - i,
        {
            match self.eval_obj(&items[i], depth) {
                Err(e) => {
                    return Err(e);
                },
                Ok(value) => {
                    let is_void = match value {
                        Object::Void => true,
                        _ => false,
                    };
                    if keep_void || !is_void {
                        let ghost before = values;
                        values.push(value);
                        proof {
                            lemma_objects_view_push(before, values, value);
                        }
                    }
                },
            }
            i += 1;
        }
        Ok(values)
    }

    /// Evaluates a symbol.
    pub fn eval_symbol(&self, symbol: &str) -> (r: Result<Object, String>)
        ensures
            agrees(r, self.env@, eval_symbol(self.env@, symbol@)),
    {
        if same_text(symbol, "true") {
            return Ok(Object::Bool(true));
        }
        if same_text(symbol, "false") {
            return Ok(Object::Bool(false));
        }
        match self.env.get(symbol) {
            Some(value) => Ok(value),
            None => {
                let mut message = String::from_str("Unbound symbol: ");
                message.append(symbol);
                Err(message)
            },
        }
    }

    /// Evaluates `(op left right)`.
    pub fn eval_binary_op(&mut self, list: &Vec<Object>, depth: usize) -> (r: Result<Object, String>)
        ensures
            agrees(
                r,
                final(self).env@,
                eval_binary_op(old(self).env@, objects_view(*list), depth as nat),
            ),
        decreases depth, list, list.len() + 1,
    {
        if list.len() != 3 {
            return Err(String::from_str("Invalid number of arguments for binary operation"));
        }
        let left = match self.eval_obj(&list[1], depth) {
            Ok(value) => value,
            Err(e) => {
                return Err(e);
            },
        };
        let right = match self.eval_obj(&list[2], depth) {
            Ok(value) => value,
            Err(e) => {
                return Err(e);
            },
        };
        match &list[0] {
            Object::Symbol(op) => apply_operator_to(op.as_str(), &left, &right),
            _ => Err(String::from_str("Operator must be a symbol")),
        }
    }

    /// Evaluates `(let name value)`.
    pub fn eval_let(&mut self, list: &Vec<Object>, depth: usize) -> (r: Result<Object, String>)
        ensures
            agrees(r, final(self).env@, eval_let(old(self).env@, objects_view(*list), depth as nat)),
        decreases depth, list, list.len() + 1,
    {
        if list.len() != 3 {
            return Err(let_arity_message(list));
        }
        match &list[1] {
            Object::Symbol(name) => {
                let value = match self.eval_obj(&list[2], depth) {
                    Ok(value) => value,
                    Err(e) => {
                        return Err(e);
                    },
                };
                let bound = match value {
                    Object::Lambda(params, body) => Object::Function(params, body),
                    other => other,
                };
                self.env.set(name.as_str(), bound);
                Ok(Object::Void)
            },
            _ => Err(String::from_str("Invalid let")),
        }
    }

    /// Evaluates `(defun name (params) (body))`.
    pub fn eval_function(&mut self, list: &Vec<Object>) -> (r: Result<Object, String>)
        ensures
            agrees(r, final(self).env@, eval_function(old(self).env@, objects_view(*list))),
    {
        if list.len() != 4 {
            return Err(String::from_str("Invalid number of arguments for defun"));
        }
        match &list[1] {
            Object::Symbol(func_name) => {
                let params = match &list[2] {
                    Object::List(params) => match symbol_list(params) {
                        Some(names) => names,
                        None => {
                            return Err(String::from_str("Invalid defun parameter"));
                        },
                    },
                    _ => {
                        return Err(String::from_str("Invalid defun"));
                    },
                };
                let body = match &list[3] {
                    Object::List(body) => clone_objects(body),
                    _ => {
                        return Err(String::from_str("Invalid defun"));
                    },
                };
                self.env.set(func_name.as_str(), Object::Function(params, body));
                Ok(Object::Void)
            },
            _ => Err(String::from_str("Invalid defun")),
        }
    }

    /// Evaluates `(if condition then else)`.
    pub fn eval_if(&mut self, list: &Vec<Object>, depth: usize) -> (r: Result<Object, String>)
        ensures
            agrees(r, final(self).env@, eval_if(old(self).env@, objects_view(*list), depth as nat)),
        decreases depth, list, list.len() + 1,
    {
        if list.len() != 4 {
            return Err(String::from_str("Invalid number of arguments for if"));
        }
        let condition = match self.eval_obj(&list[1], depth) {
            Ok(value) => value,
            Err(e) => {
                return Err(e);
            },
        };
        match condition {
            Object::Bool(b) => {
                if b {
                    self.eval_obj(&list[2], depth)
                } else {
                    self.eval_obj(&list[3], depth)
                }
            },
            _ => Err(String::from_str("Invalid condition")),
        }
    }

    /// Evaluates `(lambda (params) (body))`.
    pub fn eval_lambda(&self, list: &Vec<Object>) -> (r: Result<Object, String>)
        ensures
            agrees(r, self.env@, eval_lambda(self.env@, objects_view(*list))),
    {
        if list.len() != 3 {
            return Err(String::from_str("Invalid number of arguments for lambda"));
        }
        let params = match &list[1] {
            Object::List(params) => match symbol_list(params) {
                Some(names) => names,
                None => {
                    return Err(String::from_str("Invalid lambda parameter"));
                },
            },
            _ => {
                return Err(String::from_str("Invalid lambda"));
            },
        };
        let body = match &list[2] {
            Object::List(body) => clone_objects(body),
            _ => {
                return Err(String::from_str("Invalid lambda"));
            },
        };
        Ok(Object::Lambda(params, body))
    }

    /// Evaluates `(name args..)`, a call by name.
    pub fn eval_func_call(&mut self, func_name: &str, list: &Vec<Object>, depth: usize) -> (r: Result<
        Object,
        String,
    >)
        ensures
            agrees(
                r,
                final(self).env@,
                eval_func_call(old(self).env@, func_name@, objects_view(*list), depth as nat),
            ),
        decreases depth, list, list.len() + 1,
    {
        match self.env.get(func_name) {
            None => {
                let mut message = String::from_str("Function not defined: ");
                message.append(func_name);
                Err(message)
            },
            Some(Object::Function(params, body)) => self.eval_call(
                &params,
                &body,
                list,
                depth,
                "Invalid number of arguments for function",
            ),
            Some(Object::SysCall(sys_call)) => {
                match self.eval_each(list, 1, depth, true) {
                    Ok(args) => sys_call.run(&args),
                    Err(e) => Err(e),
                }
            },
            Some(_) => {
                let mut message = String::from_str("Not a function: ");
                message.append(func_name);
                Err(message)
            },
        }
    }

    /// Evaluates a list whose first element is an anonymous function: its call.
    pub fn eval_anon_func_call(
        &mut self,
        params: &Vec<String>,
        body: &Vec<Object>,
        list: &Vec<Object>,
        depth: usize,
    ) -> (r: Result<Object, String>)
        ensures
            agrees(
                r,
                final(self).env@,
                eval_call(
                    old(self).env@,
                    names_view(*params),
                    objects_view(*body),
                    objects_view(*list),
                    depth as nat,
                    "Invalid number of arguments for lambda"@,
                ),
            ),
        decreases depth, list, list.len() + 1,
    {
        self.eval_call(params, body, list, depth, "Invalid number of arguments for lambda")
    }

    /// Calls a function on the arguments `list[1..]`.
    pub fn eval_call(
        &mut self,
        params: &Vec<String>,
        body: &Vec<Object>,
        list: &Vec<Object>,
        depth: usize,
        arity_error: &str,
    ) -> (r: Result<Object, String>)
        ensures
            agrees(
                r,
                final(self).env@,
                eval_call(
                    old(self).env@,
                    names_view(*params),
                    objects_view(*body),
                    objects_view(*list),
                    depth as nat,
                    arity_error@,
                ),
            ),
        decreases depth, list, list.len() + 0,
    {
        if list.len() == 0 || params.len() != list.len() - 1 {
            return Err(String::from_str(arity_error));
        }
        let values = match self.eval_each(list, 1, depth, true) {
            Ok(values) => values,
            Err(e) => {
                return Err(e);
            },
        };
        if depth == 0 {
            return Err(String::from_str("Maximum evaluation depth exceeded"));
        }
        self.env.push_scope();
        self.bind_params(params, &values);
        let body_form = Object::List(clone_objects(body));
        let result = self.eval_obj(&body_form, depth - 1);
        self.env.remove_scope();
        result
    }

    /// Binds each parameter, in order, to the value at its place.
    pub fn bind_params(&mut self, params: &Vec<String>, values: &Vec<Object>)
        requires
            params.len() == values.len(),
        ensures
            final(self).env@ == bind_all(
                old(self).env@,
                names_view(*params),
                objects_view(*values),
                params.len() as nat,
            ),
    {
        let ghost start = self.env@;
        let mut i: usize = 0;
        while i < params.len()
            invariant
                i <= params.len(),
                params.len() == values.len(),
                objects_view(*values).len() == values.len(),
                forall|j: int|
                    0 <= j < values.len() ==> objects_view(*values)[j] == (#[trigger] values[j])@,
                self.env@ == bind_all(
                    start,
                    names_view(*params),
                    objects_view(*values),
                    i as nat,
                ),
            decreases params.len() - i,
        {
            self.env.set(params[i].as_str(), values[i].clone());
            i += 1;
        }
    }
}

} // verus!
