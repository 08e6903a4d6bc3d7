use vstd::prelude::*;

use crate::env::{Env, SymbolTableStack};

verus! {

/// The environment of a running program: its scopes.
#[derive(Debug)]
pub struct ProcessEnv {
    pub symbol_table: SymbolTableStack,
}

/// The programs that are running, in the order they were started.
#[derive(Debug)]
pub struct RunningProcesses {
    pub processes: Vec<RunningProcess>,
}

/// A running program: its name and its environment.
#[derive(Debug)]
pub struct RunningProcess {
    pub name: String,
    pub process: ProcessEnv,
}

/// The program table holds a program of this name.
pub open spec fn process_declared(env: &Env, name: Seq<char>) -> bool {
    exists|i: int| 0 <= i < env.process_table.processes@.len() && #[trigger] env.process_table.processes@[i]@ == name
}

impl RunningProcesses {
    /// No running program.
    pub fn new() -> (r: Self)
        ensures
            r.processes@.len() == 0,
    {
        Self { processes: Vec::new() }
    }

    /// Starts the program `identifier`: a program that the table does not
    /// hold is an error; otherwise it is added to the running programs, with
    /// the global scope as its only scope.
    pub fn insert(&mut self, identifier: String, env: &Env) -> (r: Result<(), String>)
        ensures
            r is Ok <==> process_declared(env, identifier@),
            r matches Err(m) ==> m@ == "Process "@ + identifier@ + " not found"@
                && final(self).processes@ == old(self).processes@,
            r is Ok ==> {
                &&& final(self).processes@.len() == old(self).processes@.len() + 1
                &&& final(self).processes@.drop_last() == old(self).processes@
                &&& final(self).processes@.last().name == identifier
                &&& final(self).processes@.last().process.symbol_table.tables@.len() == 1
                &&& final(self).processes@.last().process.symbol_table.tables@[0].symbols@
                    == env.global_table.symbols@
            },
    {
        let names = &env.process_table.processes;
        let mut found = false;
        let mut i: usize = 0;
        while i < names.len()
            invariant
                names@ == env.process_table.processes@,
                i <= names@.len(),
                found <==> exists|k: int| 0 <= k < i && #[trigger] names@[k]@ == identifier@,
            decreases names@.len() - i,
        {
            if names[i] == identifier {
                found = true;
            }
            i = i + 1;
        }
        if !found {
            let mut m = String::from_str("Process ");
            m.append(identifier.as_str());
            m.append(" not found");
            return Err(m);
        }
        let symbol_table = SymbolTableStack::new(&env.global_table);
        self.processes.push(RunningProcess::new(identifier, ProcessEnv { symbol_table }));
        proof {
            assert(self.processes@.drop_last() =~= old(self).processes@);
        }
        Ok(())
    }
}

impl RunningProcess {
    /// A running program of a name, with its environment.
    pub fn new(name: String, process: ProcessEnv) -> (r: Self)
        ensures
            r.name == name,
            r.process == process,
    {
        Self { name, process }
    }
}

} // verus!
