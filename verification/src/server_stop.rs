//! The shutdown coordinator: one stop flag per server thread, and the
//! handle that flips them all.
//!
//! Every server thread checks its flag once per poll iteration and exits
//! as soon as the flag is set, so shutdown latency is bounded by one poll
//! timeout plus the work of the iteration in progress. The I/O layer
//! shares each flag between the signalling thread and its owner; the flag
//! logic itself is here: once `stop` has run, every subsequent
//! `should_stop` answers true, and nothing ever clears a flag.
use vstd::prelude::*;

verus! {

/// The stop flag of one server thread.
pub struct ServerThreadStop {
    should_stop: bool,
}

impl ServerThreadStop {
    pub closed spec fn spec_should_stop(&self) -> bool {
        self.should_stop
    }

    pub fn new() -> (r: Self)
        ensures
            !r.spec_should_stop(),
    {
        ServerThreadStop { should_stop: false }
    }

    /// Requests that the owning thread exit at its next poll iteration.
    pub fn stop(&mut self)
        ensures
            final(self).spec_should_stop(),
    {
        self.should_stop = true;
    }

    /// Checked once per poll iteration: true means exit now.
    pub fn should_stop(&self) -> (r: bool)
        ensures
            r == self.spec_should_stop(),
    {
        self.should_stop
    }
}

/// The server-wide stop handle: the accept thread's flag and one flag per
/// connection thread.
pub struct ServerStop {
    server_thread_stops: Vec<ServerThreadStop>,
}

impl ServerStop {
    pub closed spec fn flags(&self) -> Seq<ServerThreadStop> {
        self.server_thread_stops@
    }

    pub fn new(server_thread_stops: Vec<ServerThreadStop>) -> (r: Self)
        ensures
            r.flags() == server_thread_stops@,
    {
        ServerStop { server_thread_stops }
    }

    /// Sets every thread's flag. After this call each thread's next
    /// `should_stop` check answers true, so every poll loop exits within
    /// one poll timeout plus the iteration in progress.
    pub fn stop(&mut self)
        ensures
            final(self).flags().len() == old(self).flags().len(),
            forall|i: int|
                0 <= i < final(self).flags().len() ==> (#[trigger] final(self).flags()[i]).spec_should_stop(),
    {
        let len: usize = self.server_thread_stops.len();
        let mut i: usize = 0;
        while i < len
            invariant
                i <= len,
                len == self.server_thread_stops@.len(),
                forall|j: int|
                    0 <= j < i ==> (#[trigger] self.server_thread_stops@[j]).spec_should_stop(),
            decreases len - i,
        {
            let flag = &mut self.server_thread_stops[i];
            flag.stop();
            i = i + 1;
        }
    }

    /// Whether every thread's flag is set; once `stop` has run this stays
    /// true, so each thread's next flag check makes it exit its loop.
    pub fn all_stopped(&self) -> (r: bool)
        ensures
            r == forall|i: int|
                0 <= i < self.flags().len() ==> (#[trigger] self.flags()[i]).spec_should_stop(),
    {
        let len: usize = self.server_thread_stops.len();
        let mut i: usize = 0;
        while i < len
            invariant
                i <= len,
                len == self.server_thread_stops@.len(),
                forall|j: int|
                    0 <= j < i ==> (#[trigger] self.server_thread_stops@[j]).spec_should_stop(),
            decreases len - i,
        {
            if !self.server_thread_stops[i].should_stop() {
                proof {
                    assert(!self.flags()[i as int].spec_should_stop());
                }
                return false;
            }
            i = i + 1;
        }
        true
    }
}

} // verus!
