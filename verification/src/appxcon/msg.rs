//! Protocol messages of approximate agreement, the events that a node
//! handles, and the actions that its handlers ask for.

use vstd::prelude::*;
use crate::types::{Replica, Msg, MsgView};

verus! {

/// A protocol message.
pub enum ProtMsg {
    /// The start of a reliable broadcast by its originator.
    RBCInit(Msg, Replica),
    /// An ECHO for the broadcast of the originator, sent by the last node.
    ECHO(Msg, Replica, Replica),
    /// A READY for the broadcast of the originator, sent by the last node.
    READY(Msg, Replica, Replica),
    /// The broadcasts that a node accepted first, the node, and the round.
    WITNESS(Vec<Replica>, Replica, u64),
}

pub enum ProtMsgView {
    RBCInit(MsgView, Replica),
    ECHO(MsgView, Replica, Replica),
    READY(MsgView, Replica, Replica),
    WITNESS(Seq<Replica>, Replica, u64),
}

impl View for ProtMsg {
    type V = ProtMsgView;

    open spec fn view(&self) -> ProtMsgView {
        match self {
            ProtMsg::RBCInit(m, r) => ProtMsgView::RBCInit(m@, *r),
            ProtMsg::ECHO(m, o, s) => ProtMsgView::ECHO(m@, *o, *s),
            ProtMsg::READY(m, o, s) => ProtMsgView::READY(m@, *o, *s),
            ProtMsg::WITNESS(v, s, r) => ProtMsgView::WITNESS(v@, *s, *r),
        }
    }
}

/// An event that a node handles: a message it received, or one of its own
/// steps that a handler asked for.
pub enum Event {
    RbcInit(Msg),
    Echo(Msg, Replica),
    Ready(Msg, Replica),
    Witness(Vec<Replica>, u64, Replica),
    CheckWitnesses(u64),
}

pub enum EventView {
    RbcInit(MsgView),
    Echo(MsgView, Replica),
    Ready(MsgView, Replica),
    Witness(Seq<Replica>, u64, Replica),
    CheckWitnesses(u64),
}

impl View for Event {
    type V = EventView;

    open spec fn view(&self) -> EventView {
        match self {
            Event::RbcInit(m) => EventView::RbcInit(m@),
            Event::Echo(m, s) => EventView::Echo(m@, *s),
            Event::Ready(m, s) => EventView::Ready(m@, *s),
            Event::Witness(v, r, s) => EventView::Witness(v@, *r, *s),
            Event::CheckWitnesses(r) => EventView::CheckWitnesses(*r),
        }
    }
}

/// What a handler asks of the node, to be done in order: send a message to
/// all other nodes, handle one of its own events at once (before the actions
/// that follow), or report the final value to the synchronizer.
pub enum Action {
    Broadcast(ProtMsg),
    Deliver(Event),
    Completed(u64),
}

pub enum ActionView {
    Broadcast(ProtMsgView),
    Deliver(EventView),
    Completed(u64),
}

impl View for Action {
    type V = ActionView;

    open spec fn view(&self) -> ActionView {
        match self {
            Action::Broadcast(m) => ActionView::Broadcast(m@),
            Action::Deliver(e) => ActionView::Deliver(e@),
            Action::Completed(v) => ActionView::Completed(*v),
        }
    }
}

/// The views of a list of actions.
pub open spec fn actions_view(a: Seq<Action>) -> Seq<ActionView> {
    a.map_values(|x: Action| x@)
}

} // verus!
