use vstd::prelude::*;

verus! {

/// An error of this library: a message saying what failed.
#[derive(Debug)]
pub struct RtpsError {
    details: String,
}

impl RtpsError {
    pub fn new(msg: &str) -> (r: RtpsError)
        ensures
            r.details() == msg@,
    {
        RtpsError { details: msg.to_owned() }
    }

    /// The message.
    pub closed spec fn details(&self) -> Seq<char> {
        self.details@
    }

    /// The message.
    pub fn description(&self) -> (r: &str)
        ensures
            r@ == self.details(),
    {
        self.details.as_str()
    }
}

} // verus!
