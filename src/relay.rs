use vstd::prelude::*;

verus! {

/// What the relay loop can observe next.
pub enum RelayEvent {
    /// A message from the connection with this id.
    Message(u32, String),
    /// The stop signal.
    Stop,
    /// The shared inbound queue has no writer left.
    Closed,
}

/// What the relay loop does about an event.
pub enum RelayAction {
    /// Send the payload to the connection with this id, then wait for the next event.
    Forward(u32, String),
    /// Leave the loop.
    Exit,
    /// The bus is gone, which cannot happen while it is running: give up.
    Fatal,
}

/// Where the routing policy sends a message from `source`: back to `source` itself.
pub open spec fn spec_destination(source: u32) -> u32 {
    source
}

/// Where the routing policy sends a message from `source`.
pub fn destination(source: u32) -> (r: u32)
    ensures
        r == spec_destination(source),
{
    source
}

/// The relay loop's step: a message is forwarded, as it is, to its destination; the stop
/// signal ends the loop; a closed inbound queue is fatal.
pub fn next_action(event: RelayEvent) -> (r: RelayAction)
    ensures
        match event {
            RelayEvent::Message(source, payload) => r matches RelayAction::Forward(to, p) && to
                == spec_destination(source) && p@ == payload@,
            RelayEvent::Stop => r is Exit,
            RelayEvent::Closed => r is Fatal,
        },
{
    match event {
        RelayEvent::Message(source, payload) => RelayAction::Forward(destination(source), payload),
        RelayEvent::Stop => RelayAction::Exit,
        RelayEvent::Closed => RelayAction::Fatal,
    }
}

/// What a relay connection's bridge can observe next.
pub enum BridgeEvent {
    /// A text frame from the client.
    Text(String),
    /// A frame of another kind from the client.
    OtherFrame,
    /// Reading from the client failed.
    ReadFailed,
    /// The client's stream ended.
    ReadEnded,
    /// A payload for the client from the connection's outbound queue.
    Outbound(String),
    /// The outbound queue was closed while the connection was still registered.
    OutboundClosed,
}

/// What the bridge does about an event.
pub enum BridgeAction {
    /// Put the message on the shared inbound queue; stop if that fails.
    Forward(u32, String),
    /// Nothing; wait for the next event.
    Ignore,
    /// Write the payload to the client as a text frame; stop if that fails.
    Write(String),
    /// Leave the loop, deregister, and close the stream.
    Stop,
}

/// The bridge's step for the connection `id`: text frames go to the shared inbound queue as
/// messages from `id`, other frames are ignored, outbound payloads are written to the client,
/// and a failed read, the end of the stream or a closed outbound queue ends the bridge.
pub fn bridge_step(id: u32, event: BridgeEvent) -> (r: BridgeAction)
    ensures
        match event {
            BridgeEvent::Text(data) => r matches BridgeAction::Forward(from, p) && from == id && p@
                == data@,
            BridgeEvent::OtherFrame => r is Ignore,
            BridgeEvent::Outbound(data) => r matches BridgeAction::Write(p) && p@ == data@,
            _ => r is Stop,
        },
{
    match event {
        BridgeEvent::Text(data) => BridgeAction::Forward(id, data),
        BridgeEvent::OtherFrame => BridgeAction::Ignore,
        BridgeEvent::Outbound(data) => BridgeAction::Write(data),
        BridgeEvent::ReadFailed => BridgeAction::Stop,
        BridgeEvent::ReadEnded => BridgeAction::Stop,
        BridgeEvent::OutboundClosed => BridgeAction::Stop,
    }
}

/// What the relay loop sends for inbound messages taken in this order: each message, in turn,
/// to its destination.
pub open spec fn spec_deliveries(inbound: Seq<(u32, Seq<char>)>) -> Seq<(u32, Seq<char>)> {
    inbound.map_values(|m: (u32, Seq<char>)| (spec_destination(m.0), m.1))
}

/// The payloads, in order, of the messages in `msgs` that belong to connection `id`.
pub open spec fn payloads_of(msgs: Seq<(u32, Seq<char>)>, id: u32) -> Seq<Seq<char>>
    decreases msgs.len(),
{
    if msgs.len() == 0 {
        Seq::empty()
    } else {
        let rest = payloads_of(msgs.drop_last(), id);
        if msgs.last().0 == id {
            rest.push(msgs.last().1)
        } else {
            rest
        }
    }
}

/// Whatever the interleaving of the connections' messages in the inbound queue, what the relay
/// loop delivers to a connection is exactly the payloads that connection sent, in the order it
/// sent them: its own messages keep their order, and nothing sent by another connection reaches
/// it.
pub proof fn lemma_delivery_per_sender(inbound: Seq<(u32, Seq<char>)>, id: u32)
    ensures
        payloads_of(spec_deliveries(inbound), id) == payloads_of(inbound, id),
    decreases inbound.len(),
{
    if inbound.len() > 0 {
        lemma_delivery_per_sender(inbound.drop_last(), id);
        assert(spec_deliveries(inbound).drop_last() =~= spec_deliveries(inbound.drop_last()));
    }
}

} // verus!
