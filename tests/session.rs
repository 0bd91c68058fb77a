use rustserver::backend::Size;
use rustserver::inventory::{InventoryReport, InventoryType};
use rustserver::session::{CCTweakedMonitorInputEvent, InboundMessage, MonitorInputHandler, SessionAction, SessionPhase};

fn register() -> InboundMessage {
    InboundMessage::Event(CCTweakedMonitorInputEvent::InventoryRegister {
        size: Size { width: 10, height: 20 },
        computer_id: 0,
        common_name: "123".to_string(),
    })
}

#[test]
fn registration_starts_the_session() {
    let mut h = MonitorInputHandler::new();
    assert_eq!(h.current_phase(), SessionPhase::AwaitingRegistration);
    match h.handle_inbound(register()) {
        SessionAction::Register { size, computer_id, common_name } => {
            assert_eq!(size, Size { width: 10, height: 20 });
            assert_eq!(computer_id, 0);
            assert_eq!(common_name, "123");
        }
        other => panic!("unexpected {:?}", other),
    }
    assert_eq!(h.current_phase(), SessionPhase::Registered);
}

#[test]
fn anything_before_registration_closes() {
    let mut h = MonitorInputHandler::new();
    let r = h.handle_inbound(InboundMessage::Event(CCTweakedMonitorInputEvent::MonitorResize(Size { width: 1, height: 2 })));
    assert!(matches!(r, SessionAction::Close(ref reason) if reason == "expected registration"));
    assert_eq!(h.current_phase(), SessionPhase::Closed);
    assert!(matches!(h.handle_inbound(register()), SessionAction::Ignore));
}

#[test]
fn registered_session_dispatches_messages() {
    let mut h = MonitorInputHandler::new();
    h.handle_inbound(register());
    let r = h.handle_inbound(InboundMessage::Event(CCTweakedMonitorInputEvent::MonitorResize(Size { width: 39, height: 19 })));
    assert!(matches!(r, SessionAction::Resize(Size { width: 39, height: 19 })));
    let snapshot = InventoryReport {
        common_name: "c".to_string(),
        computer_id: 0,
        inventory: vec![],
        peripheral_name: "p".to_string(),
        inventory_type: InventoryType::Storage,
    };
    assert!(matches!(
        h.handle_inbound(InboundMessage::Event(CCTweakedMonitorInputEvent::InventoryReport(snapshot))),
        SessionAction::Forward(r) if r.peripheral_name == "p"
    ));
    assert!(matches!(h.handle_inbound(InboundMessage::Binary), SessionAction::Ignore));
    assert!(matches!(h.handle_inbound(register()), SessionAction::Ignore));
    assert_eq!(h.current_phase(), SessionPhase::Registered);
    assert!(matches!(h.handle_inbound(InboundMessage::Closed), SessionAction::Exit));
    assert_eq!(h.current_phase(), SessionPhase::Closed);
}

#[test]
fn malformed_message_closes_the_session() {
    let mut h = MonitorInputHandler::new();
    h.handle_inbound(register());
    assert!(matches!(h.handle_inbound(InboundMessage::Malformed), SessionAction::Close(ref reason) if reason == "malformed message"));
    assert_eq!(h.current_phase(), SessionPhase::Closed);
}
