use vstd::prelude::*;

verus! {

/// The run's verbosity: unset until first set or first read, then fixed for good.
#[derive(Debug)]
pub struct VerboseFlag {
    pub state: Option<bool>,
}

impl VerboseFlag {
    /// A flag that is not set yet.
    pub fn new() -> (r: VerboseFlag)
        ensures
            r.state is None,
    {
        VerboseFlag { state: None }
    }
}

/// Turns verbose output on, unless the flag is already fixed (set or read), in
/// which case it keeps its value.
pub fn set_verbose(flag: &mut VerboseFlag)
    ensures
        old(flag).state is None ==> final(flag).state == Some(true),
        old(flag).state is Some ==> final(flag).state == old(flag).state,
{
    if flag.state.is_none() {
        flag.state = Some(true);
    }
}

/// Whether verbose output is on; a flag read before it is set is fixed to off.
pub fn is_verbose(flag: &mut VerboseFlag) -> (r: bool)
    ensures
        old(flag).state is None ==> !r && final(flag).state == Some(false),
        old(flag).state matches Some(b) ==> r == b && final(flag).state == old(flag).state,
{
    match flag.state {
        Some(b) => b,
        None => {
            flag.state = Some(false);
            false
        },
    }
}

} // verus!
