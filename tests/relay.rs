use std::collections::HashSet;
use settlers_server::communicator::Communicator;
use settlers_server::relay::{
    bridge_step, destination, next_action, BridgeAction, BridgeEvent, RelayAction, RelayEvent,
};

fn forward_all(bus: &Communicator, inbound: &mut settlers_server::communicator::Receiver) {
    while let Ok((id, data)) = inbound.try_recv() {
        match next_action(RelayEvent::Message(id, data)) {
            RelayAction::Forward(to, payload) => assert!(bus.send(to, payload)),
            _ => panic!("a message is forwarded"),
        }
    }
}

#[test]
fn registered_ids_are_distinct() {
    let (mut bus, _inbound) = Communicator::new();
    let mut ids = HashSet::new();
    let mut held = Vec::new();
    for _ in 0..200 {
        let (id, _, rx) = bus.add().unwrap();
        assert!(ids.insert(id));
        held.push((id, rx));
    }
    assert_eq!(bus.len(), 200);
    let (first, _) = held.remove(0);
    bus.remove(first);
    assert_eq!(bus.len(), 199);
    let (id, _, _) = bus.add().unwrap();
    assert!(held.iter().all(|(other, _)| *other != id));
}

#[test]
fn send_after_remove_fails() {
    let (mut bus, _inbound) = Communicator::new();
    let (id, _, mut rx) = bus.add().unwrap();
    assert!(bus.contains(id));
    assert!(bus.send(id, "one".to_string()));
    assert_eq!(rx.try_recv().unwrap(), "one");
    bus.remove(id);
    assert!(!bus.contains(id));
    assert!(!bus.send(id, "two".to_string()));
    bus.remove(id);
    assert_eq!(bus.len(), 0);
}

#[test]
fn send_to_unknown_or_closed_fails() {
    let (mut bus, _inbound) = Communicator::new();
    let (id, _, rx) = bus.add().unwrap();
    assert!(!bus.send(id.wrapping_add(1), "x".to_string()));
    drop(rx);
    assert!(!bus.send(id, "x".to_string()));
}

#[test]
fn relay_step_decisions() {
    assert_eq!(destination(7), 7);
    match next_action(RelayEvent::Message(3, "hi".to_string())) {
        RelayAction::Forward(to, p) => {
            assert_eq!(to, 3);
            assert_eq!(p, "hi");
        },
        _ => panic!("a message is forwarded"),
    }
    assert!(matches!(next_action(RelayEvent::Stop), RelayAction::Exit));
    assert!(matches!(next_action(RelayEvent::Closed), RelayAction::Fatal));
}

#[test]
fn messages_of_one_sender_keep_their_order() {
    let (mut bus, mut inbound) = Communicator::new();
    let (a, a_tx, mut a_rx) = bus.add().unwrap();
    let (b, b_tx, mut b_rx) = bus.add().unwrap();
    a_tx.send((a, "1".to_string())).unwrap();
    b_tx.send((b, "x".to_string())).unwrap();
    a_tx.send((a, "2".to_string())).unwrap();
    b_tx.send((b, "y".to_string())).unwrap();
    a_tx.send((a, "3".to_string())).unwrap();
    forward_all(&bus, &mut inbound);
    let got_a: Vec<String> = std::iter::from_fn(|| a_rx.try_recv().ok()).collect();
    let got_b: Vec<String> = std::iter::from_fn(|| b_rx.try_recv().ok()).collect();
    assert_eq!(got_a, vec!["1", "2", "3"]);
    assert_eq!(got_b, vec!["x", "y"]);
}

#[test]
fn ping_is_echoed_before_anything_else() {
    let (mut bus, mut inbound) = Communicator::new();
    let (a, a_tx, mut a_rx) = bus.add().unwrap();
    let (b, b_tx, _b_rx) = bus.add().unwrap();
    a_tx.send((a, "ping".to_string())).unwrap();
    b_tx.send((b, "unrelated".to_string())).unwrap();
    forward_all(&bus, &mut inbound);
    assert_eq!(a_rx.try_recv().unwrap(), "ping");
    assert!(a_rx.try_recv().is_err());
}

#[test]
fn bridge_step_decisions() {
    match bridge_step(9, BridgeEvent::Text("hello".to_string())) {
        BridgeAction::Forward(from, p) => {
            assert_eq!(from, 9);
            assert_eq!(p, "hello");
        },
        _ => panic!("a text frame is forwarded"),
    }
    match bridge_step(9, BridgeEvent::Outbound("back".to_string())) {
        BridgeAction::Write(p) => assert_eq!(p, "back"),
        _ => panic!("an outbound payload is written"),
    }
    assert!(matches!(bridge_step(9, BridgeEvent::OtherFrame), BridgeAction::Ignore));
    assert!(matches!(bridge_step(9, BridgeEvent::ReadFailed), BridgeAction::Stop));
    assert!(matches!(bridge_step(9, BridgeEvent::ReadEnded), BridgeAction::Stop));
    assert!(matches!(bridge_step(9, BridgeEvent::OutboundClosed), BridgeAction::Stop));
}
