//! The native functions of the standard library.

use crate::parser::{Object, Value, lemma_objects_view, objects_view, render};
use crate::syscall::Native;
use crate::text::{int_text, int_to_string, nat_text, push_nat};
use vstd::prelude::*;
use vstd::string::StringExecFns;

verus! {

/// The model of what a native function or an evaluation gives back: a value, or
/// the text of an error.
pub type Outcome = Result<Value, Seq<char>>;

/// The model of a result.
pub open spec fn outcome_view(r: Result<Object, String>) -> Outcome {
    match r {
        Ok(v) => Ok(v@),
        Err(e) => Err(e@),
    }
}

/// The error of a native function that takes one argument and got `n`.
pub open spec fn one_argument_error(n: nat) -> Seq<char> {
    "Expected 1 argument, found "@ + nat_text(n)
}

/// What `to_str` gives: a string as it is, an integer as its decimal text, an
/// error for any other value or number of arguments.
pub open spec fn to_str_spec(args: Seq<Value>) -> Outcome {
    if args.len() != 1 {
        Err(one_argument_error(args.len()))
    } else {
        match args[0] {
            Value::Str(s) => Ok(Value::Str(s)),
            Value::Integer(n) => Ok(Value::Str(int_text(n as int))),
            other => Err("Invalid argument '"@ + render(other) + "', cannot convert to str"@),
        }
    }
}

/// The texts of the first `n` arguments joined, or the error for the first of
/// them that is no string.
pub open spec fn joined(args: Seq<Value>, n: nat) -> Result<Seq<char>, Seq<char>>
    decreases n,
{
    if n == 0 || n > args.len() {
        Ok(Seq::empty())
    } else {
        match joined(args, (n - 1) as nat) {
            Err(e) => Err(e),
            Ok(text) => match args[n - 1] {
                Value::Str(s) => Ok(text + s),
                other => Err("Invalid value "@ + render(other) + ", it isnt a str"@),
            },
        }
    }
}

/// What `concat_str` gives: its string arguments joined in order, an error where
/// there is no argument or one is no string.
pub open spec fn concat_str_spec(args: Seq<Value>) -> Outcome {
    if args.len() == 0 {
        Err("Expected at least 1 argument, found 0"@)
    } else {
        match joined(args, args.len()) {
            Ok(text) => Ok(Value::Str(text)),
            Err(e) => Err(e),
        }
    }
}

/// What `list_take_first` gives: the first element of its one argument, a list
/// that is not empty; an error otherwise.
pub open spec fn list_take_first_spec(args: Seq<Value>) -> Outcome {
    if args.len() != 1 {
        Err(one_argument_error(args.len()))
    } else {
        match args[0] {
            Value::List(items) => if items.len() == 0 {
                Err("Cannot take first element of empty list"@)
            } else {
                Ok(items[0])
            },
            other => Err(render(other) + " is not a List"@),
        }
    }
}

/// The printable forms of the values from index `k` on, one after the other with
/// nothing between them.
pub open spec fn shown_from(args: Seq<Value>, k: nat) -> Seq<char>
    decreases args.len() - k,
{
    if k >= args.len() {
        Seq::empty()
    } else {
        render(args[k as int]) + shown_from(args, k + 1)
    }
}

/// What a native function gives for its arguments.
pub open spec fn native_spec(func: Native, args: Seq<Value>) -> Outcome {
    match func {
        Native::ToStr => to_str_spec(args),
        Native::Concat => concat_str_spec(args),
        Native::First => list_take_first_spec(args),
    }
}

/// The error text of a native function that takes one argument and got `n`.
fn one_argument_message(n: usize) -> (s: String)
    ensures
        s@ == one_argument_error(n as nat),
{
    let mut s = String::from_str("Expected 1 argument, found ");
    push_nat(n as u64, &mut s);
    s
}

/// Converts its one argument, a string or an integer, to a string.
pub fn to_str(objs: &Vec<Object>) -> (r: Result<Object, String>)
    ensures
        outcome_view(r) == to_str_spec(objects_view(*objs)),
{
    if objs.len() == 1 {
        to_str_obj(&objs[0])
    } else {
        Err(one_argument_message(objs.len()))
    }
}

/// Converts a string or an integer to a string.
pub fn to_str_obj(obj: &Object) -> (r: Result<Object, String>)
    ensures
        outcome_view(r) == to_str_spec(seq![obj@]),
{
    match obj {
        Object::String(s) => Ok(Object::String(s.clone())),
        Object::Integer(i) => Ok(Object::String(int_to_string(*i))),
        _ => {
            let mut message = String::from_str("Invalid argument '");
            obj.push_text(&mut message);
            message.append("', cannot convert to str");
            Err(message)
        },
    }
}

/// Joins its arguments, which are all strings and at least one.
pub fn concat_str(objs: &Vec<Object>) -> (r: Result<Object, String>)
    ensures
        outcome_view(r) == concat_str_spec(objects_view(*objs)),
{
    let ghost args = objects_view(*objs);
    if objs.len() == 0 {
        return Err(String::from_str("Expected at least 1 argument, found 0"));
    }
    let mut result = String::new();
    let mut i: usize = 0;
    while i < objs.len()
        invariant
            i <= objs.len(),
            args == objects_view(*objs),
            args.len() == objs.len(),
            forall|j: int| 0 <= j < objs.len() ==> args[j] == (#[trigger] objs[j])@,
            joined(args, i as nat) == Ok::<Seq<char>, Seq<char>>(result@),
        decreases objs.len() - i,
    {
        match &objs[i] {
            Object::String(s) => {
                result.append(s.as_str());
            },
            other => {
                let mut message = String::from_str("Invalid value ");
                other.push_text(&mut message);
                message.append(", it isnt a str");
                proof {
                    lemma_joined_error(args, (i + 1) as nat, args.len());
                }
                return Err(message);
            },
        }
        i += 1;
    }
    Ok(Object::String(result))
}

/// Once joining fails on the first `n` arguments, it fails in the same way on more.
pub proof fn lemma_joined_error(args: Seq<Value>, n: nat, m: nat)
    requires
        n <= m <= args.len(),
        joined(args, n) is Err,
    ensures
        joined(args, m) == joined(args, n),
    decreases m,
{
    if n < m {
        lemma_joined_error(args, n, (m - 1) as nat);
    }
}

/// Gives the first element of its one argument, a list that is not empty.
pub fn list_take_first(objs: &Vec<Object>) -> (r: Result<Object, String>)
    ensures
        outcome_view(r) == list_take_first_spec(objects_view(*objs)),
{
    if objs.len() != 1 {
        return Err(one_argument_message(objs.len()));
    }
    match &objs[0] {
        Object::List(list) => {
            proof {
                lemma_objects_view(*list);
            }
            if list.len() == 0 {
                return Err(String::from_str("Cannot take first element of empty list"));
            }
            Ok(list[0].clone())
        },
        other => {
            let mut message = String::new();
            other.push_text(&mut message);
            message.append(" is not a List");
            Err(message)
        },
    }
}

/// The text that printing the values writes: their printable forms, one after
/// the other with nothing between them.
pub fn print_text(objs: &Vec<Object>) -> (text: String)
    ensures
        text@ == shown_from(objects_view(*objs), 0),
{
    let ghost args = objects_view(*objs);
    let mut text = String::new();
    let mut i: usize = 0;
    while i < objs.len()
        invariant
            i <= objs.len(),
            args == objects_view(*objs),
            args.len() == objs.len(),
            forall|j: int| 0 <= j < objs.len() ==> args[j] == (#[trigger] objs[j])@,
            text@ + shown_from(args, i as nat) == shown_from(args, 0),
        decreases objs.len() - i,
    {
        objs[i].push_text(&mut text);
        i += 1;
    }
    text
}

} // verus!
