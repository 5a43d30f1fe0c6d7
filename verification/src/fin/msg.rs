//! The messages of FIN that carry no signature, the events a node handles,
//! and the actions its handlers ask for.

use vstd::prelude::*;
use crate::types::{Replica, Val, Round, Msg, MsgView};

verus! {

/// A protocol message of FIN. The messages that carry a partial signature
/// (for the leader election and for the coin) are built by the caller.
pub enum FinMsg {
    /// The start of a reliable broadcast by its originator.
    RBCInit(Msg, Replica),
    /// An ECHO for the broadcast of the originator, sent by the last node.
    ECHO(Msg, Replica, Replica),
    /// A READY for the broadcast of the originator, sent by the last node.
    READY(Msg, Replica, Replica),
    /// ECHO1 of binary agreement: value, sender, leader round, agreement round.
    FinBinAAEcho(Val, Replica, Round, Round),
    /// ECHO2 of binary agreement.
    FinBinAAEcho2(Val, Replica, Round, Round),
    /// ECHO3 of binary agreement.
    FinBinAAEcho3(Val, Replica, Round, Round),
}

pub enum FinMsgView {
    RBCInit(MsgView, Replica),
    ECHO(MsgView, Replica, Replica),
    READY(MsgView, Replica, Replica),
    FinBinAAEcho(Val, Replica, Round, Round),
    FinBinAAEcho2(Val, Replica, Round, Round),
    FinBinAAEcho3(Val, Replica, Round, Round),
}

impl View for FinMsg {
    type V = FinMsgView;

    open spec fn view(&self) -> FinMsgView {
        match self {
            FinMsg::RBCInit(m, r) => FinMsgView::RBCInit(m@, *r),
            FinMsg::ECHO(m, o, s) => FinMsgView::ECHO(m@, *o, *s),
            FinMsg::READY(m, o, s) => FinMsgView::READY(m@, *o, *s),
            FinMsg::FinBinAAEcho(v, s, l, b) => FinMsgView::FinBinAAEcho(*v, *s, *l, *b),
            FinMsg::FinBinAAEcho2(v, s, l, b) => FinMsgView::FinBinAAEcho2(*v, *s, *l, *b),
            FinMsg::FinBinAAEcho3(v, s, l, b) => FinMsgView::FinBinAAEcho3(*v, *s, *l, *b),
        }
    }
}

/// An event that a node handles: a message it received (a partial signature
/// of the coin with the result of checking it), a coin that the caller
/// combined, or one of the node's own steps that a handler asked for.
pub enum Event {
    RbcInit(Msg, Replica),
    Echo(Msg, Replica, Replica),
    Ready(Msg, Replica, Replica),
    /// Adds the witnesses that the accepted broadcasts now cover.
    UpdateWitnesses,
    BaaEcho(Val, Replica, Round, Round),
    BaaEcho2(Val, Replica, Round, Round),
    BaaEcho3(Val, Replica, Round, Round),
    /// A serialized partial signature, whether it verified, its sender, the
    /// leader round and the agreement round.
    PartialSig(Vec<u8>, bool, Replica, Round, Round),
    /// The coin of a leader round and agreement round.
    Coin(Round, Round, bool),
    /// This node moves to the given agreement round.
    BaaRound(Round),
    /// This node moves to the given leader round.
    LeaderRound(Round),
}

pub enum EventView {
    RbcInit(MsgView, Replica),
    Echo(MsgView, Replica, Replica),
    Ready(MsgView, Replica, Replica),
    UpdateWitnesses,
    BaaEcho(Val, Replica, Round, Round),
    BaaEcho2(Val, Replica, Round, Round),
    BaaEcho3(Val, Replica, Round, Round),
    PartialSig(Seq<u8>, bool, Replica, Round, Round),
    Coin(Round, Round, bool),
    BaaRound(Round),
    LeaderRound(Round),
}

impl View for Event {
    type V = EventView;

    open spec fn view(&self) -> EventView {
        match self {
            Event::RbcInit(m, r) => EventView::RbcInit(m@, *r),
            Event::Echo(m, o, s) => EventView::Echo(m@, *o, *s),
            Event::Ready(m, o, s) => EventView::Ready(m@, *o, *s),
            Event::UpdateWitnesses => EventView::UpdateWitnesses,
            Event::BaaEcho(v, s, l, b) => EventView::BaaEcho(*v, *s, *l, *b),
            Event::BaaEcho2(v, s, l, b) => EventView::BaaEcho2(*v, *s, *l, *b),
            Event::BaaEcho3(v, s, l, b) => EventView::BaaEcho3(*v, *s, *l, *b),
            Event::PartialSig(p, ok, s, l, b) => EventView::PartialSig(p@, *ok, *s, *l, *b),
            Event::Coin(l, b, c) => EventView::Coin(*l, *b, *c),
            Event::BaaRound(b) => EventView::BaaRound(*b),
            Event::LeaderRound(l) => EventView::LeaderRound(*l),
        }
    }
}

/// What a handler asks of the node, to be done in order.
pub enum Action {
    /// Send the message to all other nodes.
    Broadcast(FinMsg),
    /// Handle one of the node's own events at once, before what follows.
    Deliver(Event),
    /// Sign the coin of the leader round and agreement round, store the
    /// partial signature under this node's id, send it to all other nodes,
    /// and then do what `Aggregate` does.
    SignCoin(Round, Round),
    /// Once the round holds `f + 1` partial signatures, combine them and
    /// deliver the coin they give as `Event::Coin`.
    Aggregate(Round, Round),
    /// Start the election of the leader of the given leader round.
    ElectLeader(Round),
    /// Report the value agreed on to the synchronizer.
    Completed(Val),
}

pub enum ActionView {
    Broadcast(FinMsgView),
    Deliver(EventView),
    SignCoin(Round, Round),
    Aggregate(Round, Round),
    ElectLeader(Round),
    Completed(Val),
}

impl View for Action {
    type V = ActionView;

    open spec fn view(&self) -> ActionView {
        match self {
            Action::Broadcast(m) => ActionView::Broadcast(m@),
            Action::Deliver(e) => ActionView::Deliver(e@),
            Action::SignCoin(l, b) => ActionView::SignCoin(*l, *b),
            Action::Aggregate(l, b) => ActionView::Aggregate(*l, *b),
            Action::ElectLeader(l) => ActionView::ElectLeader(*l),
            Action::Completed(v) => ActionView::Completed(*v),
        }
    }
}

/// The views of a list of actions.
pub open spec fn actions_view(a: Seq<Action>) -> Seq<ActionView> {
    a.map_values(|x: Action| x@)
}

} // verus!
