//! The streaming frame decoder.
//!
//! A `MessageFactory` owns the inbound buffer of one connection. Bytes read
//! from the socket are appended with [`MessageFactory::push`]; a call to
//! [`MessageFactory::decode`] then consumes every complete frame at the
//! front of the buffer and keeps the partial tail for the next read. The
//! buffer never grows past `MAX_PACKET_SIZE`: a sender that crosses that
//! bound without completing a frame has committed a framing error.
use crate::codec::spec_decode;
use crate::codec::spec_parse_header;
use crate::codec::Frame;
use crate::codec::FrameView;
use crate::codec::HEADER_SIZE;
use crate::codec::MAX_PACKET_SIZE;
use crate::codec::MAX_PAYLOAD;
use vstd::prelude::*;
use vstd::slice::slice_to_vec;

verus! {

/// The views of a sequence of decoded frames.
pub open spec fn frame_views(s: Seq<Frame>) -> Seq<FrameView> {
    s.map_values(|f: Frame| f@)
}

#[derive(PartialEq, Eq, Structural)]
pub enum MessageFactoryState {
    WaitingForHeader,
    HeaderSuccessfulRead,
    WaitingForPayload,
    PayloadSuccessfulRead,
}

pub struct MessageFactory {
    buffer: Vec<u8>,
    state: MessageFactoryState,
    message_number: usize,
    payload_size: usize,
}

impl MessageFactory {
    /// The bytes received and not yet consumed as complete frames.
    pub closed spec fn buf(&self) -> Seq<u8> {
        self.buffer@
    }

    /// The inbound write cursor never exceeds HEADER_SIZE + MAX_PAYLOAD.
    pub open spec fn wf(&self) -> bool {
        self.buf().len() <= MAX_PACKET_SIZE as nat
    }

    pub fn new() -> (r: Self)
        ensures
            r.wf(),
            r.buf() == Seq::<u8>::empty(),
    {
        MessageFactory {
            buffer: Vec::new(),
            state: MessageFactoryState::WaitingForHeader,
            message_number: 0,
            payload_size: 0,
        }
    }

    /// How many more bytes fit before the buffer bound is reached.
    pub fn remaining_capacity(&self) -> (r: usize)
        requires
            self.wf(),
        ensures
            r as nat == MAX_PACKET_SIZE as nat - self.buf().len(),
    {
        MAX_PACKET_SIZE - self.buffer.len()
    }

    /// Appends newly read bytes. Fails exactly when the bytes would push
    /// the write cursor past the buffer capacity, which is a framing error
    /// fatal to the connection.
    pub fn push(&mut self, data: &[u8]) -> (ok: bool)
        requires
            old(self).wf(),
        ensures
            final(self).wf(),
            ok == (old(self).buf().len() + data@.len() <= MAX_PACKET_SIZE as nat),
            ok ==> final(self).buf() == old(self).buf() + data@,
            !ok ==> final(self).buf() == old(self).buf(),
    {
        if data.len() > MAX_PACKET_SIZE - self.buffer.len() {
            return false;
        }
        self.buffer.extend_from_slice(data);
        proof {
            assert(self.buffer@ =~= old(self).buffer@ + data@);
        }
        true
    }

    /// Reads one decimal header field from `buffer[start..end]`.
    fn get_usize(&self, start: usize, end: usize) -> (r: Option<usize>)
        requires
            start <= end <= self.buf().len(),
            end - start <= 5,
        ensures
            match r {
                Some(v) => crate::codec::spec_field_value(
                    self.buf().subrange(start as int, end as int),
                ) == Some(v as nat) && v < 100000,
                None => crate::codec::spec_field_value(
                    self.buf().subrange(start as int, end as int),
                ) is None,
            },
    {
        crate::codec::field_value(&self.buffer.as_slice()[start..end])
    }

    /// Examines the front of the buffer for a frame header. Keeps waiting
    /// when fewer than HEADER_SIZE bytes are buffered; fails on a bad
    /// header (wrong magic, malformed numeric field, payload length
    /// outside 1..=MAX_PAYLOAD).
    fn decode_header(&mut self) -> (ok: bool)
        requires
            old(self).wf(),
        ensures
            final(self).wf(),
            final(self).buf() == old(self).buf(),
            old(self).buf().len() < HEADER_SIZE as nat ==> ok && final(self).state
                == MessageFactoryState::WaitingForHeader,
            old(self).buf().len() >= HEADER_SIZE as nat ==> match spec_parse_header(
                old(self).buf(),
            ) {
                Some((num, len)) => ok && final(self).state
                    == MessageFactoryState::HeaderSuccessfulRead && final(self).message_number
                    == num && final(self).payload_size == len && 1 <= len <= MAX_PAYLOAD as nat,
                None => !ok,
            },
    {
        if self.buffer.len() < HEADER_SIZE {
            self.state = MessageFactoryState::WaitingForHeader;
            return true;
        }
        // check the magic "RustChat"
        if self.buffer[0] != 82 || self.buffer[1] != 117 || self.buffer[2] != 115 || self.buffer[3]
            != 116 || self.buffer[4] != 67 || self.buffer[5] != 104 || self.buffer[6] != 97
            || self.buffer[7] != 116 {
            proof {
                let m = crate::codec::magic_bytes();
                let sub = self.buf().subrange(0, 8);
                assert(sub[0] == self.buf()[0] && sub[1] == self.buf()[1] && sub[2] == self.buf()[2]
                    && sub[3] == self.buf()[3] && sub[4] == self.buf()[4] && sub[5] == self.buf()[5]
                    && sub[6] == self.buf()[6] && sub[7] == self.buf()[7]);
                assert(sub != m);
            }
            return false;
        }
        proof {
            assert(self.buf().subrange(0, 8) =~= crate::codec::magic_bytes());
        }
        // message number then payload size
        match self.get_usize(8, 11) {
            Some(message_number) => {
                self.message_number = message_number;
            },
            None => {
                return false;
            },
        }
        match self.get_usize(11, 16) {
            Some(payload_size) => {
                self.payload_size = payload_size;
            },
            None => {
                return false;
            },
        }
        if self.payload_size == 0 || self.payload_size > MAX_PAYLOAD {
            return false;
        }
        self.state = MessageFactoryState::HeaderSuccessfulRead;
        true
    }

    /// With a parsed header at the buffer front, waits until the payload is
    /// complete, then appends the frame to `frames` and drops the consumed
    /// bytes from the front of the buffer.
    fn decode_payload(&mut self, frames: &mut Vec<Frame>) -> (complete: bool)
        requires
            old(self).wf(),
            old(self).buf().len() >= HEADER_SIZE as nat,
            spec_parse_header(old(self).buf()) == Some(
                (old(self).message_number as nat, old(self).payload_size as nat),
            ),
        ensures
            final(self).wf(),
            final(self).message_number == old(self).message_number,
            final(self).payload_size == old(self).payload_size,
            complete == (old(self).buf().len() >= HEADER_SIZE as nat
                + old(self).payload_size as nat),
            !complete ==> final(self).state == MessageFactoryState::WaitingForPayload && final(self).buf() == old(self).buf() && final(frames)@ == old(frames)@,
            complete ==> final(self).state == MessageFactoryState::PayloadSuccessfulRead && final(self).buf() == old(self).buf().skip(
                HEADER_SIZE as int + old(self).payload_size as int,
            ) && frame_views(final(frames)@) == frame_views(old(frames)@).push(
                FrameView {
                    number: old(self).message_number as nat,
                    payload: old(self).buf().subrange(
                        HEADER_SIZE as int,
                        HEADER_SIZE as int + old(self).payload_size as int,
                    ),
                },
            ),
    {
        let end: usize = HEADER_SIZE + self.payload_size;
        if self.buffer.len() < end {
            self.state = MessageFactoryState::WaitingForPayload;
            return false;
        }
        let payload: Vec<u8> = slice_to_vec(&self.buffer.as_slice()[HEADER_SIZE..end]);
        let frame = Frame { number: self.message_number, payload };
        frames.push(frame);
        self.buffer = slice_to_vec(&self.buffer.as_slice()[end..self.buffer.len()]);
        self.state = MessageFactoryState::PayloadSuccessfulRead;
        proof {
            assert(self.buf() =~= old(self).buf().skip(
                HEADER_SIZE as int + old(self).payload_size as int,
            ));
            assert(frame_views(frames@) =~= frame_views(old(frames)@).push(
                FrameView {
                    number: old(self).message_number as nat,
                    payload: old(self).buf().subrange(
                        HEADER_SIZE as int,
                        HEADER_SIZE as int + old(self).payload_size as int,
                    ),
                },
            ));
        }
        true
    }

    /// Consumes every complete frame at the front of the buffer, appending
    /// each to `frames` in stream order, and keeps the incomplete tail.
    /// Returns false on a framing error, which is fatal to the connection.
    pub fn decode(&mut self, frames: &mut Vec<Frame>) -> (ok: bool)
        requires
            old(self).wf(),
        ensures
            final(self).wf(),
            ok == spec_decode(old(self).buf()).2,
            frame_views(final(frames)@) == frame_views(old(frames)@) + spec_decode(
                old(self).buf(),
            ).0,
            final(self).buf() == spec_decode(old(self).buf()).1,
    {
        let ghost orig = self.buf();
        let ghost orig_frames = frame_views(frames@);
        proof {
            assert(frame_views(frames@) =~= orig_frames + Seq::<FrameView>::empty());
        }
        loop
            invariant
                self.wf(),
                orig == old(self).buf(),
                orig_frames == frame_views(old(frames)@),
                spec_decode(orig).0 == frame_views(frames@).skip(orig_frames.len() as int)
                    + spec_decode(self.buf()).0,
                frame_views(frames@).subrange(0, orig_frames.len() as int) == orig_frames,
                frame_views(frames@).len() >= orig_frames.len(),
                spec_decode(orig).1 == spec_decode(self.buf()).1,
                spec_decode(orig).2 == spec_decode(self.buf()).2,
            decreases self.buf().len(),
        {
            let ghost pre = self.buf();
            let ghost pre_frames = frame_views(frames@);
            if !self.decode_header() {
                proof {
                    assert(pre.len() >= HEADER_SIZE as nat);
                    assert(spec_parse_header(pre) is None);
                    assert(!spec_decode(pre).2);
                    assert(frame_views(frames@) =~= orig_frames + (frame_views(frames@).skip(
                        orig_frames.len() as int,
                    ) + spec_decode(pre).0));
                }
                return false;
            }
            if self.buffer.len() < HEADER_SIZE {
                proof {
                    assert(spec_decode(pre).0 =~= Seq::<FrameView>::empty());
                    assert(frame_views(frames@) =~= orig_frames + (frame_views(frames@).skip(
                        orig_frames.len() as int,
                    ) + spec_decode(pre).0));
                }
                return true;
            }
            if !self.decode_payload(frames) {
                proof {
                    assert(spec_decode(pre).0 =~= Seq::<FrameView>::empty());
                    assert(frame_views(frames@) =~= orig_frames + (frame_views(frames@).skip(
                        orig_frames.len() as int,
                    ) + spec_decode(pre).0));
                }
                return true;
            }
            proof {
                let num = spec_parse_header(pre)->Some_0.0;
                let len = spec_parse_header(pre)->Some_0.1;
                let f = FrameView {
                    number: num,
                    payload: pre.subrange(16, 16 + len as int),
                };
                assert(spec_decode(pre).0 == seq![f] + spec_decode(pre.skip(16 + len as int)).0);
                assert(frame_views(frames@).skip(orig_frames.len() as int) =~= pre_frames.skip(
                    orig_frames.len() as int,
                ).push(f));
                assert(pre_frames.skip(orig_frames.len() as int).push(f) + spec_decode(
                    self.buf(),
                ).0 =~= pre_frames.skip(orig_frames.len() as int) + (seq![f] + spec_decode(
                    self.buf(),
                ).0));
                assert(frame_views(frames@).subrange(0, orig_frames.len() as int) =~= orig_frames);
            }
        }
    }
}

} // verus!
