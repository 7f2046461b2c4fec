//! Finding a process, and a module inside it, by name in the lists that a
//! snapshot of the system gives.
use vstd::prelude::*;

verus! {

use crate::error::Error;

/// A process seen in a snapshot: its executable's file name and its PID.
#[derive(Debug)]
pub struct ProcessEntry {
    pub exe_file: String,
    pub pid: u32,
}

/// A module seen in a snapshot of a process: its name, the address it is
/// loaded at and its size.
#[derive(Debug)]
pub struct ModuleEntry {
    pub module: String,
    pub base_address: usize,
    pub base_size: u32,
}

/// Whether `k` is the first position of `names` that holds `name`.
pub open spec fn is_first_match(names: Seq<Seq<char>>, name: Seq<char>, k: int) -> bool {
    &&& 0 <= k < names.len()
    &&& names[k] == name
    &&& forall|j: int| 0 <= j < k ==> names[j] != name
}

/// The executable names of `processes`.
pub open spec fn exe_names(processes: Seq<ProcessEntry>) -> Seq<Seq<char>> {
    processes.map_values(|p: ProcessEntry| p.exe_file@)
}

/// The module names of `modules`.
pub open spec fn module_names(modules: Seq<ModuleEntry>) -> Seq<Seq<char>> {
    modules.map_values(|m: ModuleEntry| m.module@)
}

/// The PID of the first process whose executable is `name`; fails with
/// `ProcessNotFound` when there is none.
pub fn find_pid(processes: &Vec<ProcessEntry>, name: &str) -> (r: Result<u32, Error>)
    ensures
        r matches Ok(pid) ==> exists|k: int|
            is_first_match(exe_names(processes@), name@, k) && pid == processes@[k].pid,
        r is Err <==> !exe_names(processes@).contains(name@),
        r matches Err(e) ==> e matches Error::ProcessNotFound(s) && s@ == name@,
{
    let target: String = name.to_owned();
    let n = processes.len();
    let mut i: usize = 0;
    while i < n
        invariant
            n == processes@.len(),
            i <= n,
            target@ == name@,
            forall|j: int| 0 <= j < i ==> exe_names(processes@)[j] != name@,
        decreases n - i,
    {
        if processes[i].exe_file == target {
            assert(is_first_match(exe_names(processes@), name@, i as int));
            return Ok(processes[i].pid);
        }
        i = i + 1;
    }
    proof {
        if exe_names(processes@).contains(name@) {
            let k = choose|k: int| 0 <= k < n && exe_names(processes@)[k] == name@;
            assert(exe_names(processes@)[k] != name@);
        }
    }
    Err(Error::ProcessNotFound(target))
}

/// The address and size of the first module named `name`; fails with
/// `ModuleNotFound` when there is none.
pub fn find_module(modules: &Vec<ModuleEntry>, name: &str, pid: u32) -> (r: Result<
    (usize, u32),
    Error,
>)
    ensures
        r matches Ok((base, size)) ==> exists|k: int|
            is_first_match(module_names(modules@), name@, k) && base == modules@[k].base_address
                && size == modules@[k].base_size,
        r is Err <==> !module_names(modules@).contains(name@),
        r matches Err(e) ==> e matches Error::ModuleNotFound(s, p) && s@ == name@ && p == pid,
{
    let target: String = name.to_owned();
    let n = modules.len();
    let mut i: usize = 0;
    while i < n
        invariant
            n == modules@.len(),
            i <= n,
            target@ == name@,
            forall|j: int| 0 <= j < i ==> module_names(modules@)[j] != name@,
        decreases n - i,
    {
        if modules[i].module == target {
            assert(is_first_match(module_names(modules@), name@, i as int));
            return Ok((modules[i].base_address, modules[i].base_size));
        }
        i = i + 1;
    }
    proof {
        if module_names(modules@).contains(name@) {
            let k = choose|k: int| 0 <= k < n && module_names(modules@)[k] == name@;
            assert(module_names(modules@)[k] != name@);
        }
    }
    Err(Error::ModuleNotFound(target, pid))
}

} // verus!
