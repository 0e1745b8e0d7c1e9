use vstd::prelude::*;

verus! {

/// The address both responders bind to when none is given: the standard
/// daytime port on the loopback interface.
pub fn default_address() -> (r: String)
    ensures
        r@ == "127.0.0.1:13"@,
{
    "127.0.0.1:13".to_owned()
}

} // verus!
