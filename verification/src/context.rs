//! The paths a run of the tool works with.

use vstd::prelude::*;

verus! {

/// The input file and the output directory of a run.
#[derive(Debug)]
pub struct ContextManager {
    pub in_file: String,
    pub out_dir: String,
}

impl ContextManager {
    /// Takes the input file from `args[1]` and the output directory from `args[2]`, where
    /// `args[0]` is the program's name. Preparing the directory is left to the caller.
    pub fn new(args: Vec<String>) -> (r: Self)
        requires
            args.len() >= 3,
        ensures
            r.in_file@ == args[1]@,
            r.out_dir@ == args[2]@,
    {
        let in_file = args[1].clone();
        let out_dir = args[2].clone();
        ContextManager { in_file, out_dir }
    }
}

} // verus!
