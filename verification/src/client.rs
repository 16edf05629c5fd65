//! The client-side stop flag, checked once per poll iteration by the
//! client's connection loop; the I/O layer shares it between the user
//! interface and the loop.
use vstd::prelude::*;

verus! {

pub struct ClientStop {
    should_stop: bool,
}

impl ClientStop {
    pub closed spec fn spec_should_stop(&self) -> bool {
        self.should_stop
    }

    pub fn new() -> (r: Self)
        ensures
            !r.spec_should_stop(),
    {
        ClientStop { should_stop: false }
    }

    /// Requests that the client loop exit at its next poll iteration.
    pub fn stop(&mut self)
        ensures
            final(self).spec_should_stop(),
    {
        self.should_stop = true;
    }

    /// Checked once per poll iteration: true means exit now.
    pub fn should_stop(&self) -> (r: bool)
        ensures
            r == self.spec_should_stop(),
    {
        self.should_stop
    }
}

} // verus!
