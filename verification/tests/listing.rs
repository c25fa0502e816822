use ironfoil_core::listing::{paths_listing, paths_with_newlines_length};
use ironfoil_core::usb::{all_files_length_bytes, is_switch_device};

#[test]
fn announced_length_is_listing_length() {
    let paths = vec!["x.nsp".to_string(), "é/ü.nsz".to_string(), String::new()];
    let listing = paths_listing(&paths);
    assert_eq!(listing, "x.nsp\né/ü.nsz\n\n".as_bytes());
    assert_eq!(paths_with_newlines_length(&paths), Some(listing.len() as u32));
}

#[test]
fn empty_listing() {
    let paths: Vec<String> = Vec::new();
    assert!(paths_listing(&paths).is_empty());
    assert_eq!(paths_with_newlines_length(&paths), Some(0));
}

#[test]
fn total_length_of_files() {
    assert_eq!(all_files_length_bytes(&[1, 2, 3]), Some(6));
    assert_eq!(all_files_length_bytes(&[]), Some(0));
    assert_eq!(all_files_length_bytes(&[u64::MAX, 1]), None);
}

#[test]
fn switch_device_ids() {
    assert!(is_switch_device(0x057e, 0x3000));
    assert!(!is_switch_device(0x057e, 0x3001));
    assert!(!is_switch_device(0x0955, 0x3000));
}
