//! The inbound side of a monitor's connection: the registration handshake,
//! then the dispatch of what the monitor sends.
use vstd::prelude::*;
use crate::backend::Size;
use crate::inventory::InventoryReport;

verus! {

/// A message from the monitor.
#[derive(Debug, Clone)]
pub enum CCTweakedMonitorInputEvent {
    /// The monitor changed size.
    MonitorResize(Size),
    /// The handshake: the monitor's size, and the agent whose inventory it
    /// shows.
    InventoryRegister { size: Size, computer_id: i64, common_name: String },
    /// An inventory snapshot.
    InventoryReport(InventoryReport),
}

/// What arrives on the connection.
#[derive(Debug, Clone)]
pub enum InboundMessage {
    /// A text message that decoded to an event.
    Event(CCTweakedMonitorInputEvent),
    /// A text message that did not decode.
    Malformed,
    /// A binary message.
    Binary,
    /// A close message, the end of the stream, or a reset.
    Closed,
}

/// Where a connection stands.
#[derive(Debug, Clone, Copy, PartialEq, Eq, Structural)]
pub enum SessionPhase {
    AwaitingRegistration,
    Registered,
    Closed,
}

/// What to do about an inbound message.
#[derive(Debug, Clone)]
pub enum SessionAction {
    /// Start the session: make a backend of this size and report on this
    /// agent.
    Register { size: Size, computer_id: i64, common_name: String },
    /// Give the backend the new size.
    Resize(Size),
    /// Hand the snapshot to the aggregator.
    Forward(InventoryReport),
    /// Nothing to do; the message is logged and dropped.
    Ignore,
    /// The monitor broke the protocol: close the session, giving the reason.
    Close(String),
    /// The connection is over: stop reading.
    Exit,
}

/// Reads a monitor's messages: the first must register, the later ones
/// resize the monitor or carry inventory snapshots.
pub struct MonitorInputHandler {
    phase: SessionPhase,
}

impl MonitorInputHandler {
    /// Where the connection stands.
    pub closed spec fn phase(&self) -> SessionPhase {
        self.phase
    }

    /// A handler waiting for the registration.
    pub fn new() -> (r: Self)
        ensures
            r.phase() == SessionPhase::AwaitingRegistration,
    {
        MonitorInputHandler { phase: SessionPhase::AwaitingRegistration }
    }

    /// Where the connection stands.
    pub fn current_phase(&self) -> (r: SessionPhase)
        ensures
            r == self.phase(),
    {
        self.phase
    }

    /// Decides what to do about `msg`. Before the registration, anything
    /// else closes the session with the reason "expected registration". After
    /// it, resizes and snapshots are passed on, binary messages and repeated
    /// registrations ignored, and an undecodable message closes the session.
    /// The end of the connection stops the reading in any phase; once
    /// closed, everything is ignored.
    pub fn handle_inbound(&mut self, msg: InboundMessage) -> (r: SessionAction)
        ensures
            msg is Closed ==> r is Exit && final(self).phase() == SessionPhase::Closed,
            !(msg is Closed) && old(self).phase() == SessionPhase::Closed ==> r is Ignore
                && final(self).phase() == SessionPhase::Closed,
            !(msg is Closed) && old(self).phase() == SessionPhase::AwaitingRegistration ==> match msg {
                InboundMessage::Event(
                    CCTweakedMonitorInputEvent::InventoryRegister { size, computer_id, common_name },
                ) => (r == SessionAction::Register { size, computer_id, common_name })
                    && final(self).phase() == SessionPhase::Registered,
                _ => r matches SessionAction::Close(reason) && reason@ == "expected registration"@
                    && final(self).phase() == SessionPhase::Closed,
            },
            !(msg is Closed) && old(self).phase() == SessionPhase::Registered ==> match msg {
                InboundMessage::Event(CCTweakedMonitorInputEvent::MonitorResize(size)) => r
                    == SessionAction::Resize(size) && final(self).phase() == SessionPhase::Registered,
                InboundMessage::Event(CCTweakedMonitorInputEvent::InventoryReport(report)) => r
                    == SessionAction::Forward(report) && final(self).phase() == SessionPhase::Registered,
                InboundMessage::Event(CCTweakedMonitorInputEvent::InventoryRegister { .. })
                | InboundMessage::Binary => r is Ignore && final(self).phase() == SessionPhase::Registered,
                InboundMessage::Malformed => r matches SessionAction::Close(reason) && reason@
                    == "malformed message"@ && final(self).phase() == SessionPhase::Closed,
                InboundMessage::Closed => true,
            },
    {
        if let InboundMessage::Closed = msg {
            self.phase = SessionPhase::Closed;
            return SessionAction::Exit;
        }
        match self.phase {
            SessionPhase::Closed => SessionAction::Ignore,
            SessionPhase::AwaitingRegistration => match msg {
                InboundMessage::Event(
                    CCTweakedMonitorInputEvent::InventoryRegister { size, computer_id, common_name },
                ) => {
                    self.phase = SessionPhase::Registered;
                    SessionAction::Register { size, computer_id, common_name }
                },
                _ => {
                    self.phase = SessionPhase::Closed;
                    SessionAction::Close(String::from_str("expected registration"))
                },
            },
            SessionPhase::Registered => match msg {
                InboundMessage::Event(CCTweakedMonitorInputEvent::MonitorResize(size)) => {
                    SessionAction::Resize(size)
                },
                InboundMessage::Event(CCTweakedMonitorInputEvent::InventoryReport(report)) => {
                    SessionAction::Forward(report)
                },
                InboundMessage::Malformed => {
                    self.phase = SessionPhase::Closed;
                    SessionAction::Close(String::from_str("malformed message"))
                },
                _ => SessionAction::Ignore,
            },
        }
    }
}

} // verus!
