use ironfoil_core::rcm::{
    create_rcm_payload, is_rcm_device, is_rcm_payload_path, payload_injected, usb_write_plan,
    TriggerOutcome, INTERMEZZO, INTERMEZZO_LOCATION, PACKET_SIZE, RCM_LENGTH,
};

#[test]
fn rcm_payload_layout() {
    let payload = [0xaau8, 0xbb, 0xcc];
    let out = create_rcm_payload(&payload).unwrap();
    assert_eq!(out.len() % PACKET_SIZE as usize, 0);
    assert_eq!(out.len(), 0x11000);
    assert_eq!(&out[..4], &RCM_LENGTH.to_le_bytes());
    assert!(out[4..0x2a8].iter().all(|&b| b == 0));
    for i in 0..0x3c00usize {
        assert_eq!(&out[0x2a8 + 4 * i..0x2a8 + 4 * i + 4], &INTERMEZZO_LOCATION.to_le_bytes());
    }
    assert_eq!(&out[0xf2a8..0xf2a8 + 92], &INTERMEZZO);
    assert!(out[0xf2a8 + 92..0x102a8].iter().all(|&b| b == 0));
    assert_eq!(&out[0x102a8..0x102ab], &payload);
    assert!(out[0x102ab..].iter().all(|&b| b == 0));
}

#[test]
fn rcm_payload_rounds_up_to_packets() {
    let fits = vec![1u8; 0x1000 - 0x2a8];
    assert_eq!(create_rcm_payload(&fits).unwrap().len(), 0x11000);
    let one_more = vec![1u8; 0x1000 - 0x2a8 + 1];
    assert_eq!(create_rcm_payload(&one_more).unwrap().len(), 0x12000);
    assert_eq!(create_rcm_payload(&[]).unwrap().len(), 0x11000);
}

#[test]
fn rcm_write_plan_is_odd() {
    assert_eq!(usb_write_plan(0x11000), (17, false));
    assert_eq!(usb_write_plan(0x12000), (18, true));
    assert_eq!(usb_write_plan(0x1001), (2, true));
}

#[test]
fn rcm_payload_paths() {
    assert!(is_rcm_payload_path("hekate.bin"));
    assert!(is_rcm_payload_path("/a/b/fusee.bin"));
    assert!(!is_rcm_payload_path("payload.BIN"));
    assert!(!is_rcm_payload_path("payload"));
    assert!(!is_rcm_payload_path(".bin"));
}

#[test]
fn rcm_device_and_trigger() {
    assert!(is_rcm_device(0x0955));
    assert!(!is_rcm_device(0x057e));
    assert!(payload_injected(TriggerOutcome::Cancelled));
    assert!(!payload_injected(TriggerOutcome::Failed));
    assert!(!payload_injected(TriggerOutcome::ReadData));
}
