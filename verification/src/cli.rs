use vstd::prelude::*;

verus! {

/// The command line of the interpreter: the path of the program to run.
#[derive(Debug)]
pub struct Arg {
    pub path: String,
}

impl Arg {
    /// The command line that names `path`.
    pub fn new(path: String) -> (r: Arg)
        ensures
            r.path@ == path@,
    {
        Arg { path }
    }
}

} // verus!
