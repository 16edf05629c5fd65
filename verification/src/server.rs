//! The dispatcher's decisions: round-robin placement of accepted
//! connections and the fan-out of bus events to every connection thread.
//!
//! The accept thread itself -- the listening socket, the poller, the
//! channels to the workers -- is I/O-layer work. What it decides is here:
//! which worker receives the next accepted connection, and that one
//! drained event means one delivery to every worker's table.
use crate::connection::ConnectionView;
use crate::connection_thread::delivered;
use crate::connection_thread::ConnectionTable;
use crate::event::PrivateChatMessageEvent;
use crate::message::Message;
use vstd::arithmetic::div_mod::lemma_mod_self_0;
use vstd::arithmetic::div_mod::lemma_small_mod;
use vstd::prelude::*;

verus! {

/// The poller token of the listening socket on the accept thread.
pub const SERVER_SOCKET_TOKEN: u64 = 0;

/// The accept thread's waker token, signalled by workers that produced
/// events.
pub const WAKER_TOKEN_BROADCAST: u64 = 1;

/// Round robin: the worker after `current` among `thread_amount` workers.
pub fn next_thread(current: usize, thread_amount: usize) -> (r: usize)
    requires
        thread_amount > 0,
        current < thread_amount,
    ensures
        r == (current + 1) as int % thread_amount as int,
        r < thread_amount,
{
    let next = current + 1;
    if next >= thread_amount {
        proof {
            assert(next == thread_amount);
            lemma_mod_self_0(thread_amount as int);
        }
        0
    } else {
        proof {
            lemma_small_mod(next as nat, thread_amount as nat);
        }
        next
    }
}

/// The connection tables of every worker plus the round-robin cursor: the
/// decision state of the accept/dispatch loop.
pub struct ServerCore {
    workers: Vec<ConnectionTable>,
    next_thread: usize,
}

impl ServerCore {
    pub closed spec fn spec_workers(&self) -> Seq<ConnectionTable> {
        self.workers@
    }

    pub closed spec fn spec_next_thread(&self) -> usize {
        self.next_thread
    }

    pub closed spec fn wf(&self) -> bool {
        &&& forall|w: int|
            0 <= w < self.workers@.len() ==> (#[trigger] self.workers@[w]).wf()
        &&& (self.workers@.len() > 0 ==> self.next_thread < self.workers@.len())
        &&& (self.workers@.len() == 0 ==> self.next_thread == 0)
    }

    pub fn new(connection_thread_amount: usize) -> (r: Self)
        ensures
            r.wf(),
            r.spec_workers().len() == connection_thread_amount,
            r.spec_next_thread() == 0,
            forall|w: int|
                0 <= w < connection_thread_amount ==> (#[trigger] r.spec_workers()[w]).spec_len()
                    == 0 && r.spec_workers()[w].spec_next_token()
                    == crate::connection_thread::FIRST_CONNECTION_TOKEN,
    {
        let mut workers: Vec<ConnectionTable> = Vec::new();
        let mut i: usize = 0;
        while i < connection_thread_amount
            invariant
                i <= connection_thread_amount,
                workers@.len() == i,
                forall|w: int|
                    0 <= w < i ==> (#[trigger] workers@[w]).wf() && workers@[w].spec_len() == 0
                        && workers@[w].spec_next_token()
                        == crate::connection_thread::FIRST_CONNECTION_TOKEN,
            decreases connection_thread_amount - i,
        {
            workers.push(ConnectionTable::new());
            i = i + 1;
        }
        ServerCore { workers, next_thread: 0 }
    }

    pub fn worker_count(&self) -> (r: usize)
        ensures
            r == self.spec_workers().len(),
    {
        self.workers.len()
    }

    /// Places one accepted connection: the worker at the round-robin
    /// cursor registers it under a fresh token, and the cursor advances.
    /// With no workers configured the connection is dropped.
    pub fn dispatch_new_connection(&mut self) -> (r: Option<(usize, u64)>)
        requires
            old(self).wf(),
            forall|w: int|
                0 <= w < old(self).spec_workers().len() ==> (#[trigger] old(self).spec_workers()[w]).spec_next_token() < u64::MAX,
        ensures
            final(self).wf(),
            final(self).spec_workers().len() == old(self).spec_workers().len(),
            match r {
                Some(p) => {
                    let w = p.0 as int;
                    &&& p.0 == old(self).spec_next_thread()
                    &&& w < old(self).spec_workers().len()
                    &&& final(self).spec_next_thread() as int == (p.0 + 1) as int % old(self).spec_workers().len() as int
                    &&& p.1 == old(self).spec_workers()[w].spec_next_token()
                    &&& final(self).spec_workers()[w].spec_len() == old(self).spec_workers()[w].spec_len() + 1
                    &&& final(self).spec_workers()[w].token_at(
                        old(self).spec_workers()[w].spec_len() as int,
                    ) == p.1
                    &&& final(self).spec_workers()[w].view_at(
                        old(self).spec_workers()[w].spec_len() as int,
                    ) == (ConnectionView {
                        in_buf: Seq::<u8>::empty(),
                        user: None::<Seq<char>>,
                        out_stream: Seq::<u8>::empty(),
                        interest: false,
                    })
                    &&& forall|i: int|
                        0 <= i < old(self).spec_workers()[w].spec_len() ==> final(self).spec_workers()[w].token_at(i) == old(self).spec_workers()[w].token_at(i)
                            && final(self).spec_workers()[w].view_at(i) == old(self).spec_workers()[w].view_at(i)
                    &&& forall|v: int|
                        0 <= v < old(self).spec_workers().len() && v != w ==> final(self).spec_workers()[v] == old(self).spec_workers()[v]
                },
                None => old(self).spec_workers().len() == 0 && *final(self) == *old(self),
            },
    {
        let amount = self.workers.len();
        if amount == 0 {
            return None;
        }
        let w = self.next_thread;
        let worker = &mut self.workers[w];
        let token = worker.register_connection();
        self.next_thread = next_thread(w, amount);
        Some((w, token))
    }

    /// The fan-out of one global event: every worker delivers the same
    /// pre-encoded frame to every one of its connections.
    pub fn fan_out_global(&mut self, message: &Message)
        requires
            old(self).wf(),
            message.number <= crate::codec::MAX_MESSAGE_NUMBER,
        ensures
            final(self).wf(),
            final(self).spec_next_thread() == old(self).spec_next_thread(),
            final(self).spec_workers().len() == old(self).spec_workers().len(),
            forall|w: int|
                0 <= w < old(self).spec_workers().len() ==> {
                    let t0 = old(self).spec_workers()[w];
                    let t1 = #[trigger] final(self).spec_workers()[w];
                    t1.spec_len() == t0.spec_len() && forall|j: int|
                        0 <= j < t0.spec_len() ==> t1.token_at(j) == t0.token_at(j) && delivered(
                            t0.view_at(j),
                            t1.view_at(j),
                            message.frame_bytes(),
                        )
                },
    {
        let amount = self.workers.len();
        let mut w: usize = 0;
        while w < amount
            invariant
                w <= amount,
                amount == self.workers@.len(),
                amount == old(self).spec_workers().len(),
                self.next_thread == old(self).spec_next_thread(),
                self.wf(),
                message.number <= crate::codec::MAX_MESSAGE_NUMBER,
                forall|v: int|
                    0 <= v < w ==> {
                        let t0 = old(self).spec_workers()[v];
                        let t1 = #[trigger] self.workers@[v];
                        t1.spec_len() == t0.spec_len() && forall|j: int|
                            0 <= j < t0.spec_len() ==> t1.token_at(j) == t0.token_at(j)
                                && delivered(
                                t0.view_at(j),
                                t1.view_at(j),
                                message.frame_bytes(),
                            )
                    },
                forall|v: int| w <= v < amount ==> self.workers@[v] == old(self).spec_workers()[v],
            decreases amount - w,
        {
            let worker = &mut self.workers[w];
            worker.deliver_global(message);
            w = w + 1;
        }
    }

    /// The fan-out of one private event: every worker delivers the
    /// pre-encoded frame to each of its connections logged in as the
    /// recipient; all other connections are untouched.
    pub fn fan_out_private(&mut self, event: &PrivateChatMessageEvent, message: &Message)
        requires
            old(self).wf(),
            message.number <= crate::codec::MAX_MESSAGE_NUMBER,
        ensures
            final(self).wf(),
            final(self).spec_next_thread() == old(self).spec_next_thread(),
            final(self).spec_workers().len() == old(self).spec_workers().len(),
            forall|w: int|
                0 <= w < old(self).spec_workers().len() ==> {
                    let t0 = old(self).spec_workers()[w];
                    let t1 = #[trigger] final(self).spec_workers()[w];
                    t1.spec_len() == t0.spec_len() && forall|j: int|
                        0 <= j < t0.spec_len() ==> t1.token_at(j) == t0.token_at(j) && if t0.view_at(
                            j,
                        ).user == Some(event.to_user_name@) {
                            delivered(t0.view_at(j), t1.view_at(j), message.frame_bytes())
                        } else {
                            t1.view_at(j) == t0.view_at(j)
                        }
                },
    {
        let amount = self.workers.len();
        let mut w: usize = 0;
        while w < amount
            invariant
                w <= amount,
                amount == self.workers@.len(),
                amount == old(self).spec_workers().len(),
                self.next_thread == old(self).spec_next_thread(),
                self.wf(),
                message.number <= crate::codec::MAX_MESSAGE_NUMBER,
                forall|v: int|
                    0 <= v < w ==> {
                        let t0 = old(self).spec_workers()[v];
                        let t1 = #[trigger] self.workers@[v];
                        t1.spec_len() == t0.spec_len() && forall|j: int|
                            0 <= j < t0.spec_len() ==> t1.token_at(j) == t0.token_at(j)
                                && if t0.view_at(j).user == Some(event.to_user_name@) {
                                delivered(t0.view_at(j), t1.view_at(j), message.frame_bytes())
                            } else {
                                t1.view_at(j) == t0.view_at(j)
                            }
                    },
                forall|v: int| w <= v < amount ==> self.workers@[v] == old(self).spec_workers()[v],
            decreases amount - w,
        {
            let worker = &mut self.workers[w];
            worker.deliver_private(event, message);
            w = w + 1;
        }
    }

    /// Borrows worker `w`'s table, so its connections can be driven
    /// directly.
    pub fn worker_mut(&mut self, w: usize) -> (r: &mut ConnectionTable)
        requires
            old(self).wf(),
            w < old(self).spec_workers().len(),
        ensures
            *r == old(self).spec_workers()[w as int],
            final(self).spec_workers() == old(self).spec_workers().update(w as int, *final(r)),
            final(self).spec_next_thread() == old(self).spec_next_thread(),
            final(r).wf() ==> final(self).wf(),
    {
        let r = &mut self.workers[w];
        r
    }
}

} // verus!
