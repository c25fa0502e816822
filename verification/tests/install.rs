use ironfoil_core::staging::{
    install_outcome, install_target, pick_request, InstallOutcome, InstallTarget,
    InstallThreadEnd, InstallType, Pick, PickRequest, StartInstallError,
};
use ironfoil_core::UsbProtocol;

#[test]
fn picked_file_is_staged_as_is() {
    match pick_request(Pick::File("/g/a.nsp".to_string())) {
        PickRequest::Stage(paths) => assert_eq!(paths, vec!["/g/a.nsp".to_string()]),
        PickRequest::Walk { .. } => panic!("a file is not walked"),
    }
}

#[test]
fn picked_folder_is_walked() {
    match pick_request(Pick::Folder { path: "/g".to_string(), recurse: false }) {
        PickRequest::Walk { path, max_depth } => {
            assert_eq!(path, "/g");
            assert_eq!(max_depth, 1);
        }
        PickRequest::Stage(_) => panic!("a folder is walked"),
    }
    match pick_request(Pick::Folder { path: "/g".to_string(), recurse: true }) {
        PickRequest::Walk { max_depth, .. } => assert_eq!(max_depth, usize::MAX),
        PickRequest::Stage(_) => panic!("a folder is walked"),
    }
}

#[test]
fn network_install_needs_target_ip() {
    assert_eq!(
        install_target(InstallType::Network, None),
        Err(StartInstallError::InvalidTargetIp)
    );
    assert_eq!(
        install_target(InstallType::Network, Some([192, 168, 1, 20])),
        Ok(InstallTarget::Network { target_ip: [192, 168, 1, 20] })
    );
    assert_eq!(
        install_target(InstallType::Usb { protocol: UsbProtocol::Sphaira }, None),
        Ok(InstallTarget::Usb { protocol: UsbProtocol::Sphaira })
    );
}

#[test]
fn ended_install_outcomes() {
    assert_eq!(install_outcome(true, None), Some(InstallOutcome::Cancelled));
    assert_eq!(install_outcome(true, Some(InstallThreadEnd::Failed)), Some(InstallOutcome::Cancelled));
    assert_eq!(install_outcome(false, None), None);
    assert_eq!(install_outcome(false, Some(InstallThreadEnd::Succeeded)), Some(InstallOutcome::Completed));
    assert_eq!(install_outcome(false, Some(InstallThreadEnd::Failed)), Some(InstallOutcome::Failed));
    assert_eq!(install_outcome(false, Some(InstallThreadEnd::Panicked)), Some(InstallOutcome::Crashed));
}
