//! The state a connection thread owns: its table of live connections,
//! keyed by poller token, and the routing of fan-out events onto them.
//!
//! The thread itself -- the poller, the channels and the loop -- lives in
//! the I/O layer. That loop looks a token up when the poller reports it,
//! drives the matching connection's read and flush cycles, registers the
//! sockets that the dispatcher hands over under fresh tokens, and delivers
//! every event drained from the bus through [`ConnectionTable::deliver_global`]
//! and [`ConnectionTable::deliver_private`].
use crate::connection::spec_on_data;
use crate::connection::Connection;
use crate::connection::ConnectionView;
use crate::connection::FlushStatus;
use crate::event::BusEvent;
use crate::event::PrivateChatMessageEvent;
use crate::message::Message;
use vstd::prelude::*;

verus! {

/// The poller token that wakes a connection thread for channel work.
pub const WAKER_TOKEN: u64 = 0;

/// Connection tokens start here; 0 and 1 are reserved.
pub const FIRST_CONNECTION_TOKEN: u64 = 2;

pub struct ConnectionTable {
    connections: Vec<(u64, Connection)>,
    next_token: u64,
}


/// How many of the given connections are logged in under `name`.
pub open spec fn spec_count_user(views: Seq<ConnectionView>, name: Seq<char>) -> nat
    decreases views.len(),
{
    if views.len() == 0 {
        0
    } else {
        spec_count_user(views.drop_last(), name) + if views.last().user == Some(name) {
            1nat
        } else {
            0nat
        }
    }
}

/// One connection's state was extended at the tail of its outbound stream
/// by `frame`, everything else unchanged.
pub open spec fn delivered(c0: ConnectionView, c1: ConnectionView, frame: Seq<u8>) -> bool {
    c1 == (ConnectionView { out_stream: c0.out_stream + frame, ..c0 })
}

impl ConnectionTable {
    pub closed spec fn spec_len(&self) -> nat {
        self.connections@.len()
    }

    pub closed spec fn token_at(&self, i: int) -> u64 {
        self.connections@[i].0
    }

    pub closed spec fn view_at(&self, i: int) -> ConnectionView {
        self.connections@[i].1@
    }

    pub closed spec fn spec_next_token(&self) -> u64 {
        self.next_token
    }

    /// Every connection is well formed, every token is below the next
    /// fresh token, and tokens never collide.
    pub closed spec fn wf(&self) -> bool {
        &&& FIRST_CONNECTION_TOKEN <= self.next_token
        &&& forall|i: int|
            0 <= i < self.connections@.len() ==> (#[trigger] self.connections@[i]).1.wf()
        &&& forall|i: int|
            0 <= i < self.connections@.len() ==> (#[trigger] self.connections@[i]).0
                < self.next_token
        &&& forall|i: int, j: int|
            0 <= i < j < self.connections@.len() ==> (#[trigger] self.connections@[i]).0 != (
            #[trigger] self.connections@[j]).0
    }

    pub fn new() -> (r: Self)
        ensures
            r.wf(),
            r.spec_len() == 0,
            r.spec_next_token() == FIRST_CONNECTION_TOKEN,
    {
        ConnectionTable { connections: Vec::new(), next_token: FIRST_CONNECTION_TOKEN }
    }

    pub fn len(&self) -> (r: usize)
        ensures
            r == self.spec_len(),
    {
        self.connections.len()
    }

    /// The token the next registered connection will get.
    pub fn next_token(&self) -> (r: u64)
        ensures
            r == self.spec_next_token(),
    {
        self.next_token
    }

    /// Registers a newly accepted connection under a fresh token, which is
    /// returned so the I/O layer can register the socket with its poller.
    pub fn register_connection(&mut self) -> (token: u64)
        requires
            old(self).wf(),
            old(self).spec_next_token() < u64::MAX,
        ensures
            final(self).wf(),
            token == old(self).spec_next_token(),
            final(self).spec_next_token() == token + 1,
            final(self).spec_len() == old(self).spec_len() + 1,
            final(self).token_at(old(self).spec_len() as int) == token,
            final(self).view_at(old(self).spec_len() as int) == (ConnectionView {
                in_buf: Seq::<u8>::empty(),
                user: None::<Seq<char>>,
                out_stream: Seq::<u8>::empty(),
                interest: false,
            }),
            forall|i: int|
                0 <= i < old(self).spec_len() ==> final(self).token_at(i) == old(self).token_at(i)
                    && final(self).view_at(i) == old(self).view_at(i),
            forall|i: int| 0 <= i < old(self).spec_len() ==> old(self).token_at(i) != token,
    {
        let token = self.next_token;
        let connection = Connection::new();
        self.connections.push((token, connection));
        self.next_token = self.next_token + 1;
        token
    }

    /// Looks a poller token up. `None` means the token belongs to no live
    /// connection (a sporadic event, safely ignored).
    pub fn find(&self, token: u64) -> (r: Option<usize>)
        requires
            self.wf(),
        ensures
            match r {
                Some(i) => i < self.spec_len() && self.token_at(i as int) == token,
                None => forall|j: int| 0 <= j < self.spec_len() ==> self.token_at(j) != token,
            },
    {
        let len: usize = self.connections.len();
        let mut i: usize = 0;
        while i < len
            invariant
                i <= len,
                len == self.connections@.len(),
                forall|j: int| 0 <= j < i ==> (#[trigger] self.connections@[j]).0 != token,
            decreases len - i,
        {
            if self.connections[i].0 == token {
                return Some(i);
            }
            i = i + 1;
        }
        None
    }

    /// Feeds bytes read from connection `i`'s socket through its decoder
    /// and handlers; emitted events are appended to `events`, and the
    /// result says whether the connection must be closed.
    pub fn on_data_at(&mut self, i: usize, data: &[u8], events: &mut Vec<BusEvent>) -> (close:
        bool)
        requires
            old(self).wf(),
            i < old(self).spec_len(),
        ensures
            final(self).wf(),
            final(self).spec_len() == old(self).spec_len(),
            final(self).spec_next_token() == old(self).spec_next_token(),
            !close ==> final(self).view_at(i as int).in_buf.len()
                < crate::codec::MAX_PACKET_SIZE as nat,
            ({
                let r = spec_on_data(old(self).view_at(i as int), data@);
                close == !r.0 && final(self).view_at(i as int) == r.1 && crate::event::event_views(
                    final(events)@,
                ) == crate::event::event_views(old(events)@) + r.2
            }),
            forall|j: int|
                0 <= j < old(self).spec_len() && j != i ==> final(self).token_at(j) == old(self).token_at(j) && final(self).view_at(j) == old(self).view_at(j),
            final(self).token_at(i as int) == old(self).token_at(i as int),
    {
        let entry = &mut self.connections[i];
        entry.1.on_data(data, events)
    }

    /// Stages the next outbound frame of connection `i`; see
    /// [`Connection::flush_prepare`].
    pub fn flush_prepare_at(&mut self, i: usize) -> (r: FlushStatus)
        requires
            old(self).wf(),
            i < old(self).spec_len(),
        ensures
            final(self).wf(),
            final(self).spec_len() == old(self).spec_len(),
            final(self).spec_next_token() == old(self).spec_next_token(),
            ({
                let c0 = old(self).view_at(i as int);
                let c1 = final(self).view_at(i as int);
                c1.in_buf == c0.in_buf && c1.user == c0.user && match r {
                    FlushStatus::Ready => c1 == (ConnectionView { interest: c1.interest, ..c0 })
                        && c1.interest == c0.interest,
                    FlushStatus::Idle { disarm } => c1 == (ConnectionView {
                        interest: false,
                        ..c0
                    }) && c0.out_stream.len() == 0 && disarm == c0.interest,
                    FlushStatus::Oversized => c0.out_stream.len() > 0,
                }
            }),
            r is Oversized <==> old(self).pending_at_spec(i as int).len() == 0 && old(
                self,
            ).queue_at_spec(i as int).len() > 0 && old(self).queue_at_spec(
                i as int,
            )[0].message@.len() > crate::codec::MAX_PAYLOAD as nat,
            forall|j: int|
                0 <= j < old(self).spec_len() && j != i ==> final(self).token_at(j) == old(self).token_at(j) && final(self).view_at(j) == old(self).view_at(j),
            final(self).token_at(i as int) == old(self).token_at(i as int),
    {
        let entry = &mut self.connections[i];
        entry.1.flush_prepare()
    }

    /// The staged bytes of connection `i` that the socket should accept
    /// next.
    pub fn pending_at(&self, i: usize) -> (r: &[u8])
        requires
            self.wf(),
            i < self.spec_len(),
        ensures
            r@ == self.pending_at_spec(i as int),
            r@.len() <= self.view_at(i as int).out_stream.len(),
            r@ == self.view_at(i as int).out_stream.subrange(0, r@.len() as int),
    {
        let entry = &self.connections[i];
        entry.1.pending()
    }

    /// The staged chunk of connection `i`: what `pending_at` returns.
    pub closed spec fn pending_at_spec(&self, i: int) -> Seq<u8> {
        self.connections@[i].1.spec_pending()
    }

    /// The queued messages of connection `i` behind its frame in flight.
    pub closed spec fn queue_at_spec(&self, i: int) -> Seq<crate::message::Message> {
        self.connections@[i].1.spec_queue()
    }

    /// Records that connection `i`'s socket accepted `n` bytes: the first
    /// `n` owed bytes are gone. The result says whether write interest was
    /// just armed (re-register the socket read+write).
    pub fn flush_wrote_at(&mut self, i: usize, n: usize) -> (arm: bool)
        requires
            old(self).wf(),
            i < old(self).spec_len(),
            n <= old(self).pending_at_spec(i as int).len(),
        ensures
            final(self).wf(),
            final(self).spec_len() == old(self).spec_len(),
            final(self).spec_next_token() == old(self).spec_next_token(),
            ({
                let c0 = old(self).view_at(i as int);
                let c1 = final(self).view_at(i as int);
                c1.in_buf == c0.in_buf && c1.user == c0.user && c1.out_stream == c0.out_stream.skip(
                    n as int,
                ) && c1.interest == (c0.interest || final(self).pending_at_spec(i as int).len() > 0)
                    && arm == (final(self).pending_at_spec(i as int).len() > 0 && !c0.interest)
            }),
            forall|j: int|
                0 <= j < old(self).spec_len() && j != i ==> final(self).token_at(j) == old(self).token_at(j) && final(self).view_at(j) == old(self).view_at(j),
            final(self).token_at(i as int) == old(self).token_at(i as int),
    {
        let entry = &mut self.connections[i];
        entry.1.flush_wrote(n)
    }

    /// Records that connection `i`'s socket signalled "would block": write
    /// interest is armed; the result says whether a re-register is needed.
    pub fn flush_blocked_at(&mut self, i: usize) -> (arm: bool)
        requires
            old(self).wf(),
            i < old(self).spec_len(),
        ensures
            final(self).wf(),
            final(self).spec_len() == old(self).spec_len(),
            final(self).spec_next_token() == old(self).spec_next_token(),
            final(self).view_at(i as int) == (ConnectionView {
                interest: true,
                ..old(self).view_at(i as int)
            }),
            arm == !old(self).view_at(i as int).interest,
            forall|j: int|
                0 <= j < old(self).spec_len() && j != i ==> final(self).token_at(j) == old(self).token_at(j) && final(self).view_at(j) == old(self).view_at(j),
            final(self).token_at(i as int) == old(self).token_at(i as int),
    {
        let entry = &mut self.connections[i];
        entry.1.flush_blocked()
    }

    /// How many live connections are logged in under `name`: the number
    /// of recipients a private message to `name` will reach.
    pub fn count_user(&self, name: &String) -> (r: usize)
        requires
            self.wf(),
        ensures
            r as nat == spec_count_user(self.entries_view(), name@),
    {
        let len: usize = self.connections.len();
        let mut count: usize = 0;
        let mut i: usize = 0;
        proof {
            assert(self.entries_view().subrange(0, 0) =~= Seq::<ConnectionView>::empty());
        }
        while i < len
            invariant
                i <= len,
                count <= i,
                len == self.connections@.len(),
                count as nat == spec_count_user(self.entries_view().subrange(0, i as int), name@),
            decreases len - i,
        {
            let matches = self.connections[i].1.is_user(name);
            proof {
                let pre = self.entries_view().subrange(0, i as int);
                assert(self.entries_view().subrange(0, i + 1).drop_last() =~= pre);
                assert(self.entries_view().subrange(0, i + 1).last() == self.view_at(i as int));
            }
            if matches {
                count = count + 1;
            }
            i = i + 1;
        }
        proof {
            assert(self.entries_view().subrange(0, len as int) =~= self.entries_view());
        }
        count
    }

    /// The connection views in table order.
    pub closed spec fn entries_view(&self) -> Seq<ConnectionView> {
        self.connections@.map_values(|e: (u64, Connection)| e.1@)
    }

    /// Removes connection `i` after a close verdict; the connections after
    /// it move up one place, order otherwise preserved.
    pub fn remove_at(&mut self, i: usize)
        requires
            old(self).wf(),
            i < old(self).spec_len(),
        ensures
            final(self).wf(),
            final(self).spec_len() == old(self).spec_len() - 1,
            final(self).spec_next_token() == old(self).spec_next_token(),
            forall|j: int|
                0 <= j < i ==> final(self).token_at(j) == old(self).token_at(j) && final(self).view_at(j) == old(self).view_at(j),
            forall|j: int|
                i <= j < final(self).spec_len() ==> final(self).token_at(j) == old(self).token_at(
                    j + 1,
                ) && final(self).view_at(j) == old(self).view_at(j + 1),
    {
        let _ = self.connections.remove(i);
    }

    /// Delivers one pre-encoded broadcast to every connection of this
    /// table: each outbound stream grows at the tail by the same frame, in
    /// table order, and nothing else changes.
    pub fn deliver_global(&mut self, message: &Message)
        requires
            old(self).wf(),
            message.number <= crate::codec::MAX_MESSAGE_NUMBER,
        ensures
            final(self).wf(),
            final(self).spec_len() == old(self).spec_len(),
            final(self).spec_next_token() == old(self).spec_next_token(),
            forall|j: int|
                0 <= j < old(self).spec_len() ==> final(self).token_at(j) == old(self).token_at(j)
                    && delivered(
                    old(self).view_at(j),
                    final(self).view_at(j),
                    message.frame_bytes(),
                ),
    {
        let len: usize = self.connections.len();
        let mut i: usize = 0;
        while i < len
            invariant
                i <= len,
                len == self.connections@.len(),
                self.wf(),
                self.spec_next_token() == old(self).spec_next_token(),
                len == old(self).spec_len(),
                message.number <= crate::codec::MAX_MESSAGE_NUMBER,
                forall|j: int|
                    0 <= j < i ==> self.token_at(j) == old(self).token_at(j) && delivered(
                        old(self).view_at(j),
                        self.view_at(j),
                        message.frame_bytes(),
                    ),
                forall|j: int|
                    i <= j < len ==> self.connections@[j] == old(self).connections@[j],
            decreases len - i,
        {
            let copy = message.clone();
            let entry = &mut self.connections[i];
            entry.1.enqueue(copy);
            proof {
                assert(self.connections@[i as int].0 == old(self).connections@[i as int].0);
                assert(delivered(
                    old(self).view_at(i as int),
                    self.view_at(i as int),
                    message.frame_bytes(),
                ));
            }
            i = i + 1;
        }
    }

    /// Delivers one pre-encoded private message to every connection whose
    /// user name equals the event's recipient (each of them, if several
    /// share the name); every other connection is untouched.
    pub fn deliver_private(&mut self, event: &PrivateChatMessageEvent, message: &Message)
        requires
            old(self).wf(),
            message.number <= crate::codec::MAX_MESSAGE_NUMBER,
        ensures
            final(self).wf(),
            final(self).spec_len() == old(self).spec_len(),
            final(self).spec_next_token() == old(self).spec_next_token(),
            forall|j: int|
                0 <= j < old(self).spec_len() ==> final(self).token_at(j) == old(self).token_at(j)
                    && if old(self).view_at(j).user == Some(event.to_user_name@) {
                    delivered(old(self).view_at(j), final(self).view_at(j), message.frame_bytes())
                } else {
                    final(self).view_at(j) == old(self).view_at(j)
                },
    {
        let len: usize = self.connections.len();
        let mut i: usize = 0;
        while i < len
            invariant
                i <= len,
                len == self.connections@.len(),
                self.wf(),
                self.spec_next_token() == old(self).spec_next_token(),
                len == old(self).spec_len(),
                message.number <= crate::codec::MAX_MESSAGE_NUMBER,
                forall|j: int|
                    0 <= j < i ==> self.token_at(j) == old(self).token_at(j) && if old(self).view_at(j).user == Some(event.to_user_name@) {
                        delivered(
                            old(self).view_at(j),
                            self.view_at(j),
                            message.frame_bytes(),
                        )
                    } else {
                        self.view_at(j) == old(self).view_at(j)
                    },
                forall|j: int|
                    i <= j < len ==> self.connections@[j] == old(self).connections@[j],
            decreases len - i,
        {
            let matches = self.connections[i].1.is_user(&event.to_user_name);
            if matches {
                let copy = message.clone();
                let entry = &mut self.connections[i];
                entry.1.enqueue(copy);
            }
            i = i + 1;
        }
    }
}

/// FIFO per connection across deliveries: when a connection receives
/// frame `a` and later frame `b` (each appended at the tail of its owed
/// stream, as `deliver_global` and `deliver_private` ensure), its owed
/// stream holds `a` before `b`; since writes consume only the front of
/// the stream, the socket sees `a`'s bytes before `b`'s.
pub proof fn lemma_deliveries_in_order(
    c0: ConnectionView,
    c1: ConnectionView,
    c2: ConnectionView,
    a: Seq<u8>,
    b: Seq<u8>,
)
    requires
        delivered(c0, c1, a),
        delivered(c1, c2, b),
    ensures
        c2 == (ConnectionView { out_stream: c0.out_stream + a + b, ..c0 }),
        c2.out_stream.subrange(
            c0.out_stream.len() as int,
            ((c0.out_stream.len() + a.len()) as int) as int,
        ) == a,
        c2.out_stream.subrange(
            ((c0.out_stream.len() + a.len()) as int) as int,
            c2.out_stream.len() as int,
        ) == b,
{
    assert(c2.out_stream =~= c0.out_stream + a + b);
    assert(c2.out_stream.subrange(c0.out_stream.len() as int, (c0.out_stream.len() + a.len()) as int)
        =~= a);
    assert(c2.out_stream.subrange(((c0.out_stream.len() + a.len()) as int) as int, c2.out_stream.len() as int)
        =~= b);
}


} // verus!
