//! Native functions that evaluated programs call by a registered name.

use crate::parser::{Object, objects_view};
use crate::stdlib::{concat_str, list_take_first, native_spec, outcome_view, to_str};
use vstd::prelude::*;
use vstd::std_specs::cmp::PartialEqSpecImpl;
use vstd::string::StringExecFns;

verus! {

/// The native functions that can stand behind a registered name.
#[derive(Debug, Clone, Copy, PartialEq, Eq, Structural)]
pub enum Native {
    /// Converts its one argument to a string.
    ToStr,
    /// Joins its string arguments.
    Concat,
    /// Gives the first element of its one list argument.
    First,
}

/// A native function under the name it is registered by.
#[derive(Debug)]
pub struct SysCallWrapper {
    pub name: String,
    pub func: Native,
}

/// Two wrappers are equal when their names are: the function behind the name is
/// not compared.
impl PartialEq for SysCallWrapper {
    fn eq(&self, other: &Self) -> (r: bool) {
        self.name == other.name
    }
}

impl PartialEqSpecImpl for SysCallWrapper {
    open spec fn obeys_eq_spec() -> bool {
        true
    }

    open spec fn eq_spec(&self, other: &Self) -> bool {
        self.name@ == other.name@
    }
}

/// A copy of a wrapper has the same name and the same function.
impl Clone for SysCallWrapper {
    fn clone(&self) -> (r: Self)
        ensures
            r.name@ == self.name@,
            r.func == self.func,
    {
        SysCallWrapper { name: self.name.clone(), func: self.func }
    }
}

/// The printable form of a native function: its name, marked as built in.
pub open spec fn syscall_text(name: Seq<char>) -> Seq<char> {
    "<std::"@ + name + seq!['>']
}

impl SysCallWrapper {
    /// The printable form of the wrapper, which shows the name alone.
    pub fn to_string(&self) -> (s: String)
        ensures
            s@ == syscall_text(self.name@),
    {
        let mut s = String::from_str("<std::");
        s.append(self.name.as_str());
        s.push('>');
        s
    }

    /// Registers a native function under a name.
    pub fn new(name: &str, func: Native) -> (w: Self)
        ensures
            w.name@ == name@,
            w.func == func,
    {
        SysCallWrapper { name: String::from_str(name), func }
    }

    /// Calls the native function on the arguments, which are already evaluated.
    pub fn run(&self, args: &Vec<Object>) -> (r: Result<Object, String>)
        ensures
            outcome_view(r) == native_spec(self.func, objects_view(*args)),
    {
        match self.func {
            Native::ToStr => to_str(args),
            Native::Concat => concat_str(args),
            Native::First => list_take_first(args),
        }
    }
}

} // verus!
