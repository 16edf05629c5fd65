//! Per-connection protocol state: the inbound decode pipeline, the message
//! handlers, and the outbound queue with its write cursor and write
//! interest flag.
//!
//! The connection owns no socket. The I/O layer reads bytes and hands them
//! to [`Connection::on_data`], which decodes frames, dispatches the
//! handlers, and reports the events to fan out and whether the connection
//! must close. For writing, the I/O layer drives the flush cycle:
//! [`Connection::flush_prepare`] stages the next frame, the layer writes
//! [`Connection::pending`] to the socket and reports the outcome through
//! [`Connection::flush_wrote`] or [`Connection::flush_blocked`], which keep
//! the write-interest flag consistent with the queue.
use crate::codec::spec_frame;
use crate::codec::Frame;
use crate::codec::FrameView;
use crate::codec::MAX_PACKET_SIZE;
use crate::codec::MAX_PAYLOAD;
use crate::event::event_views;
use crate::event::BusEvent;
use crate::event::BusEventView;
use crate::event::PrivateChatMessageEvent;
use crate::message::Message;
use crate::message_factory::frame_views;
use crate::message_factory::MessageFactory;
use crate::messages::spec_parse_message;
use crate::messages::spec_payload;
use crate::messages::ChatMessage;
use crate::messages::ChatMessageView;
use crate::messages::GlobalChatMessage;
use crate::messages::LoginMessage;
use crate::messages::PingMessage;
use crate::messages::PrivateChatMessage;
use crate::messages::PublishGlobalChatMessage;
use crate::messages::PublishPrivateChatMessage;
use std::collections::VecDeque;
use vstd::prelude::*;

verus! {

/// The model of one connection: the unconsumed inbound bytes, the
/// authenticated user, the outbound byte stream still owed to the socket,
/// and whether write interest is armed.
pub ghost struct ConnectionView {
    pub in_buf: Seq<u8>,
    pub user: Option<Seq<char>>,
    pub out_stream: Seq<u8>,
    pub interest: bool,
}

/// The frames of the queued messages, flattened in queue order.
pub open spec fn queued_bytes(q: Seq<Message>) -> Seq<u8>
    decreases q.len(),
{
    if q.len() == 0 {
        Seq::empty()
    } else {
        q[0].frame_bytes() + queued_bytes(q.drop_first())
    }
}

pub proof fn lemma_queued_bytes_snoc(q: Seq<Message>, m: Message)
    ensures
        queued_bytes(q.push(m)) == queued_bytes(q) + m.frame_bytes(),
    decreases q.len(),
{
    if q.len() == 0 {
        assert(q.push(m)[0] == m);
        assert(q.push(m).drop_first() =~= Seq::<Message>::empty());
        assert(queued_bytes(Seq::<Message>::empty()) == Seq::<u8>::empty());
        assert(queued_bytes(q.push(m)) =~= queued_bytes(q) + m.frame_bytes());
    } else {
        assert(q.push(m)[0] == q[0]);
        assert(q.push(m).drop_first() =~= q.drop_first().push(m));
        lemma_queued_bytes_snoc(q.drop_first(), m);
        assert(queued_bytes(q.push(m)) =~= queued_bytes(q) + m.frame_bytes());
    }
}

pub struct Connection {
    factory: MessageFactory,
    pub user_name: Option<String>,
    message_queue: VecDeque<Message>,
    out_buffer: Vec<u8>,
    out_buffer_pos: usize,
    send_interest: bool,
}

/// What `flush_prepare` found: bytes staged and ready to write, nothing
/// left to send (with whether write interest was just disarmed and must be
/// deregistered), or a queued frame whose payload exceeds MAX_PAYLOAD,
/// which is fatal for the connection.
pub enum FlushStatus {
    Ready,
    Idle { disarm: bool },
    Oversized,
}

impl View for Connection {
    type V = ConnectionView;

    open spec fn view(&self) -> ConnectionView {
        ConnectionView {
            in_buf: self.spec_in_buf(),
            user: self.spec_user(),
            out_stream: self.spec_out_stream(),
            interest: self.spec_interest(),
        }
    }
}

impl Connection {
    pub closed spec fn spec_in_buf(&self) -> Seq<u8> {
        self.factory.buf()
    }

    pub closed spec fn spec_user(&self) -> Option<Seq<char>> {
        match self.user_name {
            Some(u) => Some(u@),
            None => None,
        }
    }

    /// The bytes already staged in the out buffer past the write cursor.
    pub closed spec fn spec_pending(&self) -> Seq<u8> {
        self.out_buffer@.skip(self.out_buffer_pos as int)
    }

    /// Every byte still owed to the socket: the staged remainder of the
    /// frame in flight, then the queued frames in FIFO order.
    pub closed spec fn spec_out_stream(&self) -> Seq<u8> {
        self.spec_pending() + queued_bytes(self.message_queue@)
    }

    pub closed spec fn spec_interest(&self) -> bool {
        self.send_interest
    }

    /// The encoded messages still queued behind the frame in flight.
    pub closed spec fn spec_queue(&self) -> Seq<Message> {
        self.message_queue@
    }

    /// The inbound cursor stays within the packet bound, the write cursor
    /// within the staged frame, and every queued message number fits the
    /// 3-byte header field.
    pub closed spec fn wf(&self) -> bool {
        &&& self.factory.wf()
        &&& self.out_buffer_pos <= self.out_buffer@.len()
        &&& forall|i: int|
            0 <= i < self.message_queue@.len() ==> (#[trigger] self.message_queue@[i]).number
                <= crate::codec::MAX_MESSAGE_NUMBER
    }

    pub fn new() -> (r: Self)
        ensures
            r.wf(),
            r@ == (ConnectionView {
                in_buf: Seq::<u8>::empty(),
                user: None::<Seq<char>>,
                out_stream: Seq::<u8>::empty(),
                interest: false,
            }),
    {
        let r = Connection {
            factory: MessageFactory::new(),
            user_name: None,
            message_queue: VecDeque::new(),
            out_buffer: Vec::new(),
            out_buffer_pos: 0,
            send_interest: false,
        };
        proof {
            assert(r.spec_pending() =~= Seq::<u8>::empty());
            assert(r.spec_out_stream() =~= Seq::<u8>::empty());
        }
        r
    }

    /// Appends one encoded message to the outbound queue: the owed byte
    /// stream grows at the tail by exactly that message's frame, and
    /// nothing else changes. The actual socket writes are driven through
    /// the flush cycle.
    pub fn enqueue(&mut self, message: Message)
        requires
            old(self).wf(),
            message.number <= crate::codec::MAX_MESSAGE_NUMBER,
        ensures
            final(self).wf(),
            final(self)@ == (ConnectionView {
                out_stream: old(self)@.out_stream + message.frame_bytes(),
                ..old(self)@
            }),
            final(self).spec_queue() == old(self).spec_queue().push(message),
            final(self).spec_pending() == old(self).spec_pending(),
    {
        let ghost q0 = self.message_queue@;
        self.message_queue.push_back(message);
        proof {
            lemma_queued_bytes_snoc(q0, message);
            assert(self.spec_out_stream() =~= old(self).spec_out_stream() + message.frame_bytes());
        }
    }

    /// Stages the next frame if none is in flight. `Ready` means
    /// `pending()` is nonempty and may be written; `Idle` means the queue
    /// is drained (and says whether write interest was just disarmed, in
    /// which case the socket must be re-registered read-only); `Oversized`
    /// means the frame at the head cannot be encoded, which closes the
    /// connection.
    pub fn flush_prepare(&mut self) -> (r: FlushStatus)
        requires
            old(self).wf(),
        ensures
            final(self).wf(),
            final(self)@.in_buf == old(self)@.in_buf,
            final(self)@.user == old(self)@.user,
            match r {
                FlushStatus::Ready => final(self)@ == (ConnectionView {
                    interest: final(self)@.interest,
                    ..old(self)@
                }) && final(self).spec_pending().len() > 0 && final(self)@.interest == old(
                    self,
                )@.interest,
                FlushStatus::Idle { disarm } => final(self)@ == (ConnectionView {
                    interest: false,
                    ..old(self)@
                }) && old(self)@.out_stream.len() == 0 && disarm == old(self)@.interest,
                FlushStatus::Oversized => old(self)@.out_stream.len() > 0,
            },
            r is Oversized <==> old(self).spec_pending().len() == 0 && old(
                self,
            ).spec_queue().len() > 0 && old(self).spec_queue()[0].message@.len()
                > MAX_PAYLOAD as nat,
    {
        if self.out_buffer_pos < self.out_buffer.len() {
            return FlushStatus::Ready;
        }
        let ghost q0 = self.message_queue@;
        proof {
            assert(self.spec_pending() =~= Seq::<u8>::empty());
        }
        match self.message_queue.pop_front() {
            None => {
                let disarm = self.send_interest;
                self.send_interest = false;
                proof {
                    assert(queued_bytes(q0) == Seq::<u8>::empty());
                    assert(old(self)@.out_stream =~= Seq::<u8>::empty());
                }
                FlushStatus::Idle { disarm }
            },
            Some(message) => {
                proof {
                    assert(q0[0] == message);
                    crate::codec::lemma_spec_dec_digits(message.number as nat);
                    crate::codec::lemma_spec_dec_digits(message.message@.len() as nat);
                    assert(message.frame_bytes().len() >= 16);
                    assert(old(self)@.out_stream.len() > 0);
                }
                match crate::codec::encode_frame(message.number, message.message.as_slice()) {
                    Some(frame) => {
                        self.out_buffer = frame;
                        self.out_buffer_pos = 0;
                        proof {
                            assert(self.spec_pending() =~= message.frame_bytes());
                            assert(self.message_queue@ =~= q0.drop_first());
                            assert(self.spec_out_stream() =~= old(self).spec_out_stream());
                            assert(self.spec_pending().len() > 0);
                        }
                        FlushStatus::Ready
                    },
                    None => FlushStatus::Oversized,
                }
            },
        }
    }

    /// The staged bytes still to be written: the front of the owed stream.
    pub fn pending(&self) -> (r: &[u8])
        requires
            self.wf(),
        ensures
            r@ == self.spec_pending(),
            r@.len() <= self@.out_stream.len(),
            r@ == self@.out_stream.subrange(0, r@.len() as int),
    {
        proof {
            assert(self.spec_pending() =~= self.out_buffer@.subrange(
                self.out_buffer_pos as int,
                self.out_buffer@.len() as int,
            ));
            assert(self.spec_pending() =~= self.spec_out_stream().subrange(
                0,
                self.spec_pending().len() as int,
            ));
        }
        &self.out_buffer.as_slice()[self.out_buffer_pos..self.out_buffer.len()]
    }

    /// Records that the socket accepted `n` bytes: exactly the first `n`
    /// owed bytes are gone. On a partial write of the staged frame, write
    /// interest is armed; the result says whether the socket must be
    /// re-registered read+write.
    pub fn flush_wrote(&mut self, n: usize) -> (arm: bool)
        requires
            old(self).wf(),
            n <= old(self).spec_pending().len(),
        ensures
            final(self).wf(),
            final(self)@.in_buf == old(self)@.in_buf,
            final(self)@.user == old(self)@.user,
            final(self)@.out_stream == old(self)@.out_stream.skip(n as int),
            final(self)@.interest == (old(self)@.interest || final(self).spec_pending().len() > 0),
            arm == (final(self).spec_pending().len() > 0 && !old(self)@.interest),
    {
        let ghost pend0 = self.spec_pending();
        let buf_len: usize = self.out_buffer.len();
        self.out_buffer_pos = self.out_buffer_pos + n;
        if self.out_buffer_pos == buf_len {
            self.out_buffer.clear();
            self.out_buffer_pos = 0;
            proof {
                assert(self.spec_pending() =~= Seq::<u8>::empty());
                assert(self.spec_pending() =~= pend0.skip(n as int));
                assert(self.spec_out_stream() =~= old(self).spec_out_stream().skip(n as int));
            }
            false
        } else {
            proof {
                assert(self.spec_pending() =~= pend0.skip(n as int));
                assert(self.spec_out_stream() =~= old(self).spec_out_stream().skip(n as int));
            }
            let arm = !self.send_interest;
            self.send_interest = true;
            arm
        }
    }

    /// Whether this connection is logged in under exactly `name`.
    pub fn is_user(&self, name: &String) -> (r: bool)
        ensures
            r == (self@.user == Some(name@)),
    {
        match &self.user_name {
            Some(u) => *u == *name,
            None => false,
        }
    }

    /// Records that the socket signalled "would block" while bytes are
    /// staged: nothing was consumed, write interest is armed, and the
    /// result says whether the socket must be re-registered read+write.
    pub fn flush_blocked(&mut self) -> (arm: bool)
        requires
            old(self).wf(),
        ensures
            final(self).wf(),
            final(self)@ == (ConnectionView { interest: true, ..old(self)@ }),
            arm == !old(self)@.interest,
    {
        let arm = !self.send_interest;
        self.send_interest = true;
        arm
    }
}

/// The effect of one parsed message on a connection: what the new state
/// is and which events go out on the bus.
pub open spec fn spec_handle(c: ConnectionView, m: ChatMessageView) -> (
    ConnectionView,
    Seq<BusEventView>,
) {
    match m {
        ChatMessageView::Ping { nonce, reply } => {
            if !reply {
                let reply_payload = spec_payload(
                    ChatMessageView::Ping { nonce, reply: true },
                );
                (
                    ConnectionView { out_stream: c.out_stream + spec_frame(0, reply_payload), ..c },
                    Seq::empty(),
                )
            } else {
                (c, Seq::empty())
            }
        },
        ChatMessageView::Login { user_name } => (
            ConnectionView { user: Some(user_name), ..c },
            Seq::empty(),
        ),
        ChatMessageView::PublishGlobal { message } => {
            match c.user {
                Some(u) => (c, seq![BusEventView::Global { user_name: u, message }]),
                None => (c, Seq::empty()),
            }
        },
        ChatMessageView::Global { .. } => (c, Seq::empty()),
        ChatMessageView::PublishPrivate { to_user_name, message } => {
            match c.user {
                Some(u) => (
                    c,
                    seq![
                        BusEventView::Private {
                            from_user_name: u,
                            to_user_name: to_user_name,
                            message: message,
                        },
                    ],
                ),
                None => (c, Seq::empty()),
            }
        },
        ChatMessageView::Private { .. } => (c, Seq::empty()),
    }
}

/// Handling a run of decoded frames in order: parsing stops at the first
/// frame whose payload is not a well-formed message (the connection is
/// then closed), but the effects of the frames before it stand.
pub open spec fn spec_handle_frames(c: ConnectionView, fs: Seq<FrameView>) -> (
    bool,
    ConnectionView,
    Seq<BusEventView>,
)
    decreases fs.len(),
{
    if fs.len() == 0 {
        (true, c, Seq::empty())
    } else {
        match spec_parse_message(fs[0].number, fs[0].payload) {
            None => (false, c, Seq::empty()),
            Some(m) => {
                let h = spec_handle(c, m);
                let r = spec_handle_frames(h.0, fs.drop_first());
                (r.0, r.1, h.1 + r.2)
            },
        }
    }
}

/// The effect of one buffer-sized slice of received bytes: append it to
/// the inbound buffer, decode every complete frame, and handle each in
/// order. The first component is false when the connection must close.
/// (Opaque: reason about it through `spec_decode` and
/// `spec_handle_frames` by revealing it.)
#[verifier::opaque]
pub open spec fn spec_on_chunk(c: ConnectionView, chunk: Seq<u8>) -> (
    bool,
    ConnectionView,
    Seq<BusEventView>,
) {
    let d = crate::codec::spec_decode(c.in_buf + chunk);
    let h = spec_handle_frames(ConnectionView { in_buf: d.1, ..c }, d.0);
    (d.2 && h.0, h.1, h.2)
}

/// The effect of one read of any size: the bytes are taken in
/// buffer-sized slices, each decoded and handled before the next slice is
/// taken. A clean decode always leaves less than a packet of undecoded
/// tail, so a read of any length fits slice by slice; the connection
/// closes only on a framing or payload error -- or, degenerately, when
/// the buffer is already full with no complete frame in it, which is the
/// inbound cursor trying to pass the packet bound.
pub open spec fn spec_on_data(c: ConnectionView, data: Seq<u8>) -> (
    bool,
    ConnectionView,
    Seq<BusEventView>,
)
    decreases data.len(),
{
    if c.in_buf.len() + data.len() <= MAX_PACKET_SIZE as nat {
        spec_on_chunk(c, data)
    } else if c.in_buf.len() >= MAX_PACKET_SIZE as nat {
        (false, c, Seq::empty())
    } else {
        let take = MAX_PACKET_SIZE as nat - c.in_buf.len();
        let r1 = spec_on_chunk(c, data.take(take as int));
        if !r1.0 {
            (false, r1.1, r1.2)
        } else {
            let r2 = spec_on_data(r1.1, data.skip(take as int));
            (r2.0, r2.1, r1.2 + r2.2)
        }
    }
}

/// Handling frames never touches the inbound buffer: only the decoder
/// consumes it.
pub proof fn lemma_handle_frames_in_buf(c: ConnectionView, fs: Seq<FrameView>)
    ensures
        spec_handle_frames(c, fs).1.in_buf == c.in_buf,
    decreases fs.len(),
{
    if fs.len() > 0 {
        match spec_parse_message(fs[0].number, fs[0].payload) {
            None => {},
            Some(m) => {
                let h = spec_handle(c, m);
                assert(h.0.in_buf == c.in_buf);
                lemma_handle_frames_in_buf(h.0, fs.drop_first());
            },
        }
    }
}

impl PingMessage {
    /// A ping that asks for a reply gets the same nonce back with the
    /// reply flag set, queued directly on this connection; a reply ping is
    /// consumed silently.
    pub fn process(self, connection: &mut Connection) -> (r: Option<BusEvent>)
        requires
            old(connection).wf(),
        ensures
            final(connection).wf(),
            r is None,
            ({
                let h = spec_handle(
                    old(connection)@,
                    ChatMessageView::Ping { nonce: self.nonce as nat, reply: self.reply },
                );
                final(connection)@ == h.0
            }),
    {
        if !self.reply {
            let reply = PingMessage { nonce: self.nonce, reply: true };
            let message = Message::new(&ChatMessage::Ping(reply));
            connection.enqueue(message);
        }
        None
    }
}

impl LoginMessage {
    /// Login records the self-asserted user name on the connection.
    pub fn process(self, connection: &mut Connection) -> (r: Option<BusEvent>)
        requires
            old(connection).wf(),
        ensures
            final(connection).wf(),
            r is None,
            ({
                let h = spec_handle(
                    old(connection)@,
                    ChatMessageView::Login { user_name: self.user_name@ },
                );
                final(connection)@ == h.0
            }),
    {
        connection.user_name = Some(self.user_name);
        None
    }
}

impl PublishGlobalChatMessage {
    /// A publish from a logged-in connection becomes a global event under
    /// the sender's name; before login it is dropped silently.
    pub fn process(self, connection: &mut Connection) -> (r: Option<BusEvent>)
        requires
            old(connection).wf(),
        ensures
            final(connection).wf(),
            final(connection)@ == old(connection)@,
            ({
                let h = spec_handle(
                    old(connection)@,
                    ChatMessageView::PublishGlobal { message: self.message@ },
                );
                event_views(match r {
                    Some(e) => seq![e],
                    None => Seq::<BusEvent>::empty(),
                }) == h.1
            }),
    {
        match &connection.user_name {
            Some(user_name) => {
                let ev = BusEvent::Global(
                    GlobalChatMessage { user_name: user_name.clone(), message: self.message },
                );
                proof {
                    assert(event_views(seq![ev]) =~= seq![ev@]);
                }
                Some(ev)
            },
            None => {
                proof {
                    assert(event_views(Seq::<BusEvent>::empty())
                        =~= Seq::<BusEventView>::empty());
                }
                None
            },
        }
    }
}

impl GlobalChatMessage {
    /// A server-to-client broadcast is not meaningful inbound; the server
    /// ignores it.
    pub fn process(self, connection: &mut Connection) -> (r: Option<BusEvent>)
        requires
            old(connection).wf(),
        ensures
            final(connection).wf(),
            final(connection)@ == old(connection)@,
            r is None,
    {
        None
    }
}

impl PublishPrivateChatMessage {
    /// A private publish from a logged-in connection becomes a private
    /// event from the sender to the named recipient; before login it is
    /// dropped silently.
    pub fn process(self, connection: &mut Connection) -> (r: Option<BusEvent>)
        requires
            old(connection).wf(),
        ensures
            final(connection).wf(),
            final(connection)@ == old(connection)@,
            ({
                let h = spec_handle(
                    old(connection)@,
                    ChatMessageView::PublishPrivate {
                        to_user_name: self.to_user_name@,
                        message: self.message@,
                    },
                );
                event_views(match r {
                    Some(e) => seq![e],
                    None => Seq::<BusEvent>::empty(),
                }) == h.1
            }),
    {
        match &connection.user_name {
            Some(user_name) => {
                let ev = BusEvent::Private(
                    PrivateChatMessageEvent {
                        from_user_name: user_name.clone(),
                        to_user_name: self.to_user_name,
                        message: self.message,
                    },
                );
                proof {
                    assert(event_views(seq![ev]) =~= seq![ev@]);
                }
                Some(ev)
            },
            None => {
                proof {
                    assert(event_views(Seq::<BusEvent>::empty())
                        =~= Seq::<BusEventView>::empty());
                }
                None
            },
        }
    }
}

impl PrivateChatMessage {
    /// A server-to-client private delivery is not meaningful inbound; the
    /// server ignores it.
    pub fn process(self, connection: &mut Connection) -> (r: Option<BusEvent>)
        requires
            old(connection).wf(),
        ensures
            final(connection).wf(),
            final(connection)@ == old(connection)@,
            r is None,
    {
        None
    }
}

impl Connection {
    /// Dispatches one parsed message to its handler, appending any emitted
    /// event.
    fn handle(&mut self, msg: ChatMessage, events: &mut Vec<BusEvent>)
        requires
            old(self).wf(),
        ensures
            final(self).wf(),
            ({
                let h = spec_handle(old(self)@, msg@);
                final(self)@ == h.0 && event_views(final(events)@) == event_views(old(events)@)
                    + h.1
            }),
    {
        let ghost ev0 = events@;
        let emitted = match msg {
            ChatMessage::Ping(m) => m.process(self),
            ChatMessage::Login(m) => m.process(self),
            ChatMessage::PublishGlobal(m) => m.process(self),
            ChatMessage::Global(m) => m.process(self),
            ChatMessage::PublishPrivate(m) => m.process(self),
            ChatMessage::Private(m) => m.process(self),
        };
        match emitted {
            Some(e) => {
                events.push(e);
                proof {
                    assert(event_views(events@) =~= event_views(ev0) + event_views(seq![e]));
                    assert(event_views(seq![e]) =~= seq![e@]);
                }
            },
            None => {
                proof {
                    assert(event_views(events@) =~= event_views(ev0) + Seq::<
                        BusEventView,
                    >::empty());
                }
            },
        }
    }

    /// Handles decoded frames in order, stopping at the first frame whose
    /// payload does not parse; returns false in that case, which closes
    /// the connection.
    #[verifier::rlimit(100)]
    fn handle_frames(&mut self, frames: Vec<Frame>, events: &mut Vec<BusEvent>) -> (ok: bool)
        requires
            old(self).wf(),
        ensures
            final(self).wf(),
            ({
                let h = spec_handle_frames(old(self)@, frame_views(frames@));
                ok == h.0 && final(self)@ == h.1 && event_views(final(events)@) == event_views(
                    old(events)@,
                ) + h.2
            }),
    {
        let ghost fvs = frame_views(frames@);
        let ghost ev0 = events@;
        let ghost mut emitted = Seq::<BusEventView>::empty();
        let mut i: usize = 0;
        let len: usize = frames.len();
        proof {
            assert(fvs.skip(0) =~= fvs);
            assert(event_views(events@) =~= event_views(ev0) + emitted);
        }
        while i < len
            invariant
                i <= len,
                len == frames@.len(),
                fvs == frame_views(frames@),
                ev0 == old(events)@,
                self.wf(),
                event_views(events@) == event_views(ev0) + emitted,
                ({
                    let g = spec_handle_frames(old(self)@, fvs);
                    let r = spec_handle_frames(self@, fvs.skip(i as int));
                    g.0 == r.0 && g.1 == r.1 && g.2 == emitted + r.2
                }),
            decreases len - i,
        {
            let frame = &frames[i];
            proof {
                assert(fvs[i as int] == frames@[i as int]@);
                assert(fvs.skip(i as int)[0] == fvs[i as int]);
                assert(fvs.skip(i as int).drop_first() =~= fvs.skip(i as int + 1));
            }
            let ghost pre = self@;
            let msg = match crate::messages::parse_message(frame.number, frame.payload.as_slice()) {
                Some(m) => m,
                None => {
                    proof {
                        assert(spec_parse_message(
                            fvs.skip(i as int)[0].number,
                            fvs.skip(i as int)[0].payload,
                        ) is None);
                        assert(spec_handle_frames(self@, fvs.skip(i as int)) == (
                            false,
                            self@,
                            Seq::<BusEventView>::empty(),
                        ));
                        assert(emitted + Seq::<BusEventView>::empty() =~= emitted);
                    }
                    return false;
                },
            };
            self.handle(msg, events);
            i = i + 1;
            proof {
                let h = spec_handle(pre, msg@);
                let ghost emitted_old = emitted;
                emitted = emitted + h.1;
                assert(event_views(events@) =~= event_views(ev0) + emitted);
                let r_new = spec_handle_frames(self@, fvs.skip(i as int));
                assert(emitted_old + (h.1 + r_new.2) =~= emitted + r_new.2);
            }
        }
        proof {
            assert(fvs.skip(len as int) =~= Seq::<FrameView>::empty());
            assert(emitted + Seq::<BusEventView>::empty() =~= emitted);
        }
        true
    }

    /// Feeds bytes read from the socket through the decoder and the
    /// message handlers. The read may be any size: it is consumed in
    /// buffer-sized slices, decoding between slices, so frames batched
    /// into one large read never overflow the inbound buffer. Events to
    /// fan out are appended to `events`; the result is true when the
    /// connection must be closed (framing error or unparseable payload).
    #[verifier::rlimit(100)]
    pub fn on_data(&mut self, data: &[u8], events: &mut Vec<BusEvent>) -> (close: bool)
        requires
            old(self).wf(),
        ensures
            final(self).wf(),
            final(self)@.in_buf.len() <= MAX_PACKET_SIZE as nat,
            !close ==> final(self)@.in_buf.len() < MAX_PACKET_SIZE as nat,
            ({
                let r = spec_on_data(old(self)@, data@);
                close == !r.0 && final(self)@ == r.1 && event_views(final(events)@) == event_views(
                    old(events)@,
                ) + r.2
            }),
    {
        let ghost ev0 = events@;
        let ghost mut emitted = Seq::<BusEventView>::empty();
        let len: usize = data.len();
        let mut offset: usize = 0;
        proof {
            assert(data@.skip(0) =~= data@);
            assert(event_views(events@) =~= event_views(ev0) + emitted);
        }
        loop
            invariant
                offset <= len,
                len == data@.len(),
                ev0 == old(events)@,
                self.wf(),
                event_views(events@) == event_views(ev0) + emitted,
                ({
                    let g = spec_on_data(old(self)@, data@);
                    let r = spec_on_data(self@, data@.skip(offset as int));
                    g.0 == r.0 && g.1 == r.1 && g.2 == emitted + r.2
                }),
            decreases len - offset,
        {
            let remaining = len - offset;
            let capacity = self.factory.remaining_capacity();
            let ghost pre = self@;
            if capacity == 0 && remaining > 0 {
                // the buffer is full with no complete frame in it: the
                // peer has overrun the packet bound
                proof {
                    assert(emitted + Seq::<BusEventView>::empty() =~= emitted);
                }
                return true;
            }
            let take = if remaining <= capacity {
                remaining
            } else {
                capacity
            };
            let chunk = &data[offset..offset + take];
            proof {
                assert(chunk@ =~= data@.skip(offset as int).take(take as int));
                if remaining <= capacity {
                    assert(chunk@ =~= data@.skip(offset as int));
                }
            }
            let ghost emitted_old = emitted;
            let chunk_close = self.on_chunk(chunk, events);
            proof {
                let r1 = spec_on_chunk(pre, chunk@);
                emitted = emitted + r1.2;
                assert(event_views(events@) =~= event_views(ev0) + emitted);
            }
            if chunk_close {
                return true;
            }
            if take == remaining {
                return false;
            }
            offset = offset + take;
            proof {
                let r1 = spec_on_chunk(pre, chunk@);
                let r2 = spec_on_data(self@, data@.skip(offset as int));
                assert(data@.skip(offset - take).skip(take as int) =~= data@.skip(offset as int));
                assert(emitted_old + (r1.2 + r2.2) =~= emitted + r2.2);
            }
        }
    }

    /// One buffer-sized slice: append, decode, dispatch.
    fn on_chunk(&mut self, data: &[u8], events: &mut Vec<BusEvent>) -> (close: bool)
        requires
            old(self).wf(),
            old(self)@.in_buf.len() + data@.len() <= MAX_PACKET_SIZE as nat,
        ensures
            final(self).wf(),
            !close ==> final(self)@.in_buf.len() < MAX_PACKET_SIZE as nat,
            ({
                let r = spec_on_chunk(old(self)@, data@);
                close == !r.0 && final(self)@ == r.1 && event_views(final(events)@) == event_views(
                    old(events)@,
                ) + r.2
            }),
    {
        proof {
            reveal(spec_on_chunk);
        }
        let pushed = self.factory_push(data);
        proof {
            assert(pushed);
        }
        let mut frames: Vec<Frame> = Vec::new();
        let decode_ok = self.factory_decode(&mut frames);
        proof {
            assert(frame_views(frames@) =~= Seq::<FrameView>::empty() + frame_views(frames@));
            if decode_ok {
                crate::codec::lemma_decode_rest_bound(old(self)@.in_buf + data@);
            }
            lemma_handle_frames_in_buf(self@, frame_views(frames@));
        }
        let handle_ok = self.handle_frames(frames, events);
        !decode_ok || !handle_ok
    }

    /// Appends freshly read bytes to the inbound buffer; false on
    /// overflow.
    fn factory_push(&mut self, data: &[u8]) -> (ok: bool)
        requires
            old(self).wf(),
        ensures
            final(self).wf(),
            ok == (old(self)@.in_buf.len() + data@.len() <= MAX_PACKET_SIZE as nat),
            ok ==> final(self)@ == (ConnectionView {
                in_buf: old(self)@.in_buf + data@,
                ..old(self)@
            }),
            !ok ==> final(self)@ == old(self)@,
    {
        self.factory.push(data)
    }

    /// Extracts every complete frame from the inbound buffer.
    fn factory_decode(&mut self, frames: &mut Vec<Frame>) -> (ok: bool)
        requires
            old(self).wf(),
        ensures
            final(self).wf(),
            ok == crate::codec::spec_decode(old(self)@.in_buf).2,
            frame_views(final(frames)@) == frame_views(old(frames)@) + crate::codec::spec_decode(
                old(self)@.in_buf,
            ).0,
            final(self)@ == (ConnectionView {
                in_buf: crate::codec::spec_decode(old(self)@.in_buf).1,
                ..old(self)@
            }),
    {
        self.factory.decode(frames)
    }
}


/// A framing error closes the connection whatever follows: on a
/// connection whose inbound buffer is empty, a read whose first 16 bytes
/// are not a valid header (wrong magic, malformed field, payload length
/// out of range) yields the close verdict, dispatches nothing, emits
/// nothing, and queues nothing back -- for every tail behind the bad
/// header.
pub proof fn lemma_bad_header_closes(c: ConnectionView, data: Seq<u8>)
    requires
        c.in_buf == Seq::<u8>::empty(),
        16 <= data.len(),
        crate::codec::spec_parse_header(data.take(16)) is None,
    ensures
        !spec_on_data(c, data).0,
        spec_on_data(c, data).2 == Seq::<BusEventView>::empty(),
        spec_on_data(c, data).1.user == c.user,
        spec_on_data(c, data).1.out_stream == c.out_stream,
{
    reveal(spec_on_chunk);
    let slice = if data.len() <= MAX_PACKET_SIZE as nat {
        data
    } else {
        data.take(MAX_PACKET_SIZE as int)
    };
    assert(c.in_buf + slice =~= slice);
    assert(slice.subrange(0, 8) =~= data.take(16).subrange(0, 8));
    assert(slice.subrange(8, 11) =~= data.take(16).subrange(8, 11));
    assert(slice.subrange(11, 16) =~= data.take(16).subrange(11, 16));
    assert(crate::codec::spec_parse_header(slice) is None);
    assert(crate::codec::spec_decode(slice) == (Seq::<FrameView>::empty(), slice, false));
    let c1 = ConnectionView { in_buf: slice, ..c };
    assert(spec_handle_frames(c1, Seq::<FrameView>::empty()) == (
        true,
        c1,
        Seq::<BusEventView>::empty(),
    ));
    assert(spec_on_chunk(c, slice) == (false, c1, Seq::<BusEventView>::empty()));
}

/// No cross-talk before authentication: on a connection that has not
/// logged in, any run of frames that contains no Login produces no events
/// at all, and the connection stays unauthenticated. In particular a
/// PublishGlobal or PublishPrivate sent before Login has no observable
/// fan-out.
pub proof fn lemma_unauthenticated_no_fanout(c: ConnectionView, fs: Seq<FrameView>)
    requires
        c.user is None,
        forall|i: int|
            0 <= i < fs.len() ==> !(#[trigger] spec_parse_message(
                fs[i].number,
                fs[i].payload,
            ) matches Some(ChatMessageView::Login { .. })),
    ensures
        spec_handle_frames(c, fs).2 == Seq::<BusEventView>::empty(),
        spec_handle_frames(c, fs).1.user is None,
    decreases fs.len(),
{
    if fs.len() > 0 {
        assert(!(spec_parse_message(fs[0].number, fs[0].payload) matches Some(
            ChatMessageView::Login { .. },
        )));
        match spec_parse_message(fs[0].number, fs[0].payload) {
            None => {},
            Some(m) => {
                let h = spec_handle(c, m);
                assert(h.0.user is None);
                assert(h.1 == Seq::<BusEventView>::empty());
                assert forall|i: int| 0 <= i < fs.drop_first().len() implies !(
                #[trigger] spec_parse_message(
                    fs.drop_first()[i].number,
                    fs.drop_first()[i].payload,
                ) matches Some(ChatMessageView::Login { .. })) by {
                    assert(fs.drop_first()[i] == fs[i + 1]);
                }
                lemma_unauthenticated_no_fanout(h.0, fs.drop_first());
                assert(spec_handle_frames(c, fs).2 =~= Seq::<BusEventView>::empty());
            },
        }
    }
}


} // verus!
