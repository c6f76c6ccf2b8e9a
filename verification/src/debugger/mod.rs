//! The debugger's data: its states, breakpoints, stack frames, variables,
//! events and launch configuration.

use vstd::prelude::*;

pub mod breakpoints;
pub mod cargo;
pub mod rust_project;
pub mod session;
pub mod ui;

verus! {

/// Where a debugging session is.
#[derive(Debug, Clone, Copy, PartialEq, Eq, Structural)]
pub enum DebuggerState {
    Stopped,
    Running,
    Paused,
    Exited,
}

/// A breakpoint: its id, location, whether it is enabled, how often it was
/// hit, and an optional condition.
#[derive(Debug)]
pub struct Breakpoint {
    pub id: u32,
    pub file: String,
    pub line: u32,
    pub enabled: bool,
    pub hit_count: u32,
    pub condition: Option<String>,
}

impl Clone for Breakpoint {
    fn clone(&self) -> (r: Self)
        ensures
            r == *self,
    {
        Breakpoint {
            id: self.id,
            file: self.file.clone(),
            line: self.line,
            enabled: self.enabled,
            hit_count: self.hit_count,
            condition: self.condition.clone(),
        }
    }
}

/// A frame of the call stack.
#[derive(Debug)]
pub struct StackFrame {
    pub level: u32,
    pub function: String,
    pub file: Option<String>,
    pub line: Option<u32>,
    pub address: String,
}

impl Clone for StackFrame {
    fn clone(&self) -> (r: Self)
        ensures
            r == *self,
    {
        StackFrame {
            level: self.level,
            function: self.function.clone(),
            file: self.file.clone(),
            line: self.line,
            address: self.address.clone(),
        }
    }
}

/// A variable shown by the debugger, with its members.
#[derive(Debug)]
pub struct Variable {
    pub name: String,
    pub value: String,
    pub var_type: String,
    pub children: Vec<Variable>,
}

/// What the debugger reports.
#[derive(Debug)]
#[allow(inconsistent_fields)]
pub enum DebugEvent {
    Started,
    Stopped { reason: String, file: Option<String>, line: Option<u32> },
    Continued,
    Exited { exit_code: i32 },
    BreakpointHit { id: u32, file: String, line: u32 },
    Output { text: String },
    Error { message: String },
}

/// How to launch the program under the debugger.
#[derive(Debug)]
pub struct DebugConfig {
    pub program: String,
    pub args: Vec<String>,
    pub working_dir: String,
    pub env_vars: Vec<(String, String)>,
    pub stop_on_entry: bool,
}

impl DebugConfig {
    /// The same configuration, compared through the views of its lists.
    pub open spec fn same(self, other: Self) -> bool {
        &&& self.program == other.program
        &&& self.args@ == other.args@
        &&& self.working_dir == other.working_dir
        &&& self.env_vars@ == other.env_vars@
        &&& self.stop_on_entry == other.stop_on_entry
    }
}

impl Clone for DebugConfig {
    fn clone(&self) -> (r: Self)
        ensures
            r.same(*self),
    {
        proof {
            crate::extensions::lemma_string_clone_is_copy();
        }
        DebugConfig {
            program: self.program.clone(),
            args: crate::extensions::clone_vec(&self.args),
            working_dir: self.working_dir.clone(),
            env_vars: clone_pairs(&self.env_vars),
            stop_on_entry: self.stop_on_entry,
        }
    }
}

fn clone_pairs(v: &Vec<(String, String)>) -> (r: Vec<(String, String)>)
    ensures
        r@ == v@,
{
    let mut r: Vec<(String, String)> = Vec::new();
    for i in 0..v.len()
        invariant
            r@ == v@.take(i as int),
    {
        r.push((v[i].0.clone(), v[i].1.clone()));
        assert(r@ =~= v@.take(i + 1));
    }
    assert(v@.take(v@.len() as int) =~= v@);
    r
}

impl Default for DebugConfig {
    /// No program, arguments, directory or environment; the program stops
    /// on entry.
    fn default() -> (r: Self)
        ensures
            r.program@.len() == 0,
            r.args@.len() == 0,
            r.working_dir@.len() == 0,
            r.env_vars@.len() == 0,
            r.stop_on_entry,
    {
        DebugConfig {
            program: String::new(),
            args: Vec::new(),
            working_dir: String::new(),
            env_vars: Vec::new(),
            stop_on_entry: true,
        }
    }
}

} // verus!
