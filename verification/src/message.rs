//! An encoded message: the serialized payload bytes plus the message type
//! number, pre-built once so that broadcast copies share the same bytes
//! instead of re-serializing per recipient.
use crate::codec::spec_frame;
use crate::messages::spec_number;
use crate::messages::spec_payload;
use crate::messages::ChatMessage;
use vstd::prelude::*;

verus! {

pub struct Message {
    pub message: Vec<u8>,
    pub number: u32,
}

impl Message {
    /// Serializes a catalog message once: the payload bytes are its
    /// canonical JSON encoding and the number its wire number.
    pub fn new(message: &ChatMessage) -> (r: Self)
        ensures
            r.message@ == spec_payload(message@),
            r.number as nat == spec_number(message@),
            r.number <= 5,
    {
        Message { message: message.to_payload(), number: message.number() }
    }

    /// The full frame this message occupies on the wire.
    pub open spec fn frame_bytes(&self) -> Seq<u8> {
        spec_frame(self.number as nat, self.message@)
    }
}

impl Clone for Message {
    fn clone(&self) -> (r: Self)
        ensures
            r.message@ == self.message@,
            r.number == self.number,
            r.frame_bytes() == self.frame_bytes(),
    {
        let message = self.message.clone();
        proof {
            assert(message@ =~= self.message@);
        }
        Message { message, number: self.number }
    }
}

} // verus!
