//! Chat events on the fan-out bus.
//!
//! A worker that handles a publish turns it into an event; the dispatcher
//! forwards a copy of each event to every worker, which delivers it to its
//! matching local connections.
use crate::messages::GlobalChatMessage;
use vstd::prelude::*;

verus! {

/// A private message in flight: who sent it, whom it is for, and the text.
pub struct PrivateChatMessageEvent {
    pub from_user_name: String,
    pub to_user_name: String,
    pub message: String,
}

impl Clone for PrivateChatMessageEvent {
    fn clone(&self) -> (r: Self)
        ensures
            r == self,
    {
        PrivateChatMessageEvent {
            from_user_name: self.from_user_name.clone(),
            to_user_name: self.to_user_name.clone(),
            message: self.message.clone(),
        }
    }
}

/// The model of an event on the bus.
pub ghost enum BusEventView {
    Global { user_name: Seq<char>, message: Seq<char> },
    Private { from_user_name: Seq<char>, to_user_name: Seq<char>, message: Seq<char> },
}

/// One event on the fan-out bus: a global broadcast or a private message.
pub enum BusEvent {
    Global(GlobalChatMessage),
    Private(PrivateChatMessageEvent),
}

impl View for BusEvent {
    type V = BusEventView;

    open spec fn view(&self) -> BusEventView {
        match self {
            BusEvent::Global(m) => BusEventView::Global {
                user_name: m.user_name@,
                message: m.message@,
            },
            BusEvent::Private(e) => BusEventView::Private {
                from_user_name: e.from_user_name@,
                to_user_name: e.to_user_name@,
                message: e.message@,
            },
        }
    }
}

/// The views of a list of emitted events.
pub open spec fn event_views(s: Seq<BusEvent>) -> Seq<BusEventView> {
    s.map_values(|e: BusEvent| e@)
}

} // verus!
