use ironfoil_core::sphaira::{PACKET_SIZE, RESULT_ERROR};
use ironfoil_core::usb::{cancel_check, current_file_name_event, CancelCheck};
use ironfoil_core::{InstallProgressEvent, UsbProtocol};

#[test]
fn file_name_events() {
    match current_file_name_event("/games/dir/Zelda.nsp") {
        Some(InstallProgressEvent::CurrentFileName(n)) => assert_eq!(n, "Zelda.nsp"),
        other => panic!("unexpected {:?}", other),
    }
    assert!(current_file_name_event("/games/..").is_none());
    assert!(current_file_name_event("/").is_none());
}

#[test]
fn cancelling_transfer_loops() {
    assert!(matches!(cancel_check(UsbProtocol::TinFoil, false), CancelCheck::Continue));
    assert!(matches!(cancel_check(UsbProtocol::Sphaira, false), CancelCheck::Continue));
    assert!(matches!(cancel_check(UsbProtocol::TinFoil, true), CancelCheck::Stop { reply: None }));
    match cancel_check(UsbProtocol::Sphaira, true) {
        CancelCheck::Stop { reply: Some(packet) } => {
            assert_eq!(packet.len(), PACKET_SIZE);
            assert_eq!(u32::from_le_bytes(packet[4..8].try_into().unwrap()), RESULT_ERROR);
            assert_eq!(&packet[8..20], &[0u8; 12]);
        }
        _ => panic!("Sphaira is answered on cancel"),
    }
}
