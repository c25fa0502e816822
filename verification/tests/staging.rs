use ironfoil_core::paths::extension_is_game_backup;
use ironfoil_core::rcm::extension_is_bin;
use ironfoil_core::paths::{is_game_backup, max_walk_depth, select_game_paths, GamePathsError, PickedPath, WalkedEntry, GAME_BACKUP_EXTENSIONS};

fn walked(entries: &[(Option<&str>, usize)]) -> Vec<WalkedEntry> {
    entries.iter().map(|(p, d)| WalkedEntry { path: p.map(str::to_string), depth: *d }).collect()
}
use ironfoil_core::progress::InstallProgress;
use ironfoil_core::staging::{InstallType, StagedFiles};
use ironfoil_core::{InstallProgressEvent, UsbProtocol};

fn staged(names: &[(&str, u64)]) -> StagedFiles {
    let mut s = StagedFiles::new();
    assert!(s.extend_unique(names.iter().map(|(p, n)| (p.to_string(), *n)).collect()));
    s
}

#[test]
fn extend_unique_skips_staged_paths() {
    let mut s = staged(&[("/a.nsp", 10), ("/b.nsp", 20)]);
    assert!(s.extend_unique(vec![("/a.nsp".to_string(), 99), ("/c.nsp".to_string(), 5), ("/c.nsp".to_string(), 7)]));
    assert_eq!(s.count(), 3);
    assert_eq!(s.path(2), "/c.nsp");
    assert_eq!(s.file_size(2), 5);
    assert_eq!(s.total_file_size(), 35);
    assert!(s.is_selected(2));
}

#[test]
fn extend_unique_refuses_overflow() {
    let mut s = staged(&[("/a.nsp", u64::MAX)]);
    assert!(!s.extend_unique(vec![("/b.nsp".to_string(), 1)]));
    assert_eq!(s.count(), 1);
    assert_eq!(s.total_file_size(), u64::MAX);
    // A path already staged adds nothing, so no overflow.
    assert!(s.extend_unique(vec![("/a.nsp".to_string(), 1)]));
}

#[test]
fn selection() {
    let mut s = staged(&[("/a.nsp", 10), ("/b.nsp", 20), ("/c.nsp", 30)]);
    assert!(s.has_any_selected());
    assert_eq!(s.selected_count(), 3);
    s.deselect_all();
    assert!(!s.has_any_selected());
    assert_eq!(s.selected_count(), 0);
    s.set_selected(1, true);
    assert_eq!(s.selected_size(), 20);
    assert_eq!(s.selected_paths(), vec!["/b.nsp".to_string()]);
    s.remove_selected();
    assert_eq!(s.count(), 2);
    assert_eq!(s.total_file_size(), 40);
    assert!(!s.has_any_selected());
    s.select_all();
    assert_eq!(s.selected_count(), 2);
    assert!(s.contains(&"/c.nsp".to_string()));
    assert!(!s.contains(&"/b.nsp".to_string()));
    assert!(!s.is_empty());
}

#[test]
fn human_sizes() {
    let mut s = staged(&[("/a.nsp", 1024), ("/b.nsp", 1536)]);
    s.set_selected(1, false);
    assert_eq!(s.selected_human_size(), "1 KiB");
    assert_eq!(s.human_size(), "2.50 KiB");
}

#[test]
fn install_type_labels() {
    assert_eq!(InstallType::default().as_str(), "🔌 USB (Awoo, CyberFoil, etc.)");
    assert_eq!(InstallType::Usb { protocol: UsbProtocol::Sphaira }.as_str(), "🔌 USB (Sphaira)");
    assert_eq!(InstallType::Network.as_str(), "🖧 Network");
    assert_eq!(UsbProtocol::default(), UsbProtocol::TinFoil);
}

#[test]
fn progress_events() {
    let mut p = InstallProgress::default();
    p.apply(InstallProgressEvent::AllFilesLengthBytes(100));
    p.apply(InstallProgressEvent::CurrentFileName("a.nsp".to_string()));
    p.apply(InstallProgressEvent::CurrentFileLengthBytes(40));
    p.apply(InstallProgressEvent::CurrentFileOffsetBytes(20));
    p.apply(InstallProgressEvent::AllFilesOffsetBytes(20));
    assert_eq!(p.all_files_length_bytes, 100);
    assert_eq!(p.current_file_name, "a.nsp");
    assert_eq!(p.current_file_length_bytes, 40);
    assert_eq!(p.current_file_offset_bytes, 20);
    assert_eq!(p.all_files_offset_bytes, 20);
    assert!(!p.ended);
    p.apply(InstallProgressEvent::Ended);
    assert!(p.ended);
    assert_eq!(p.all_files_offset_bytes, 20);
}

#[test]
fn game_backup_extensions() {
    assert_eq!(GAME_BACKUP_EXTENSIONS, ["nsp", "xci", "nsz"]);
    assert!(is_game_backup("/x/y.nsp"));
    assert!(is_game_backup("y.xci"));
    assert!(is_game_backup("y.tar.nsz"));
    assert!(!is_game_backup("y.NSP"));
    assert!(!is_game_backup("nsp"));
    assert!(!is_game_backup(".nsp"));
    assert!(!is_game_backup("y.nsp.txt"));
}

#[test]
fn picked_paths() {
    assert_eq!(select_game_paths(PickedPath::Missing, false), Err(GamePathsError::DoesNotExist));
    let entries = walked(&[(Some("/d"), 0), (None, 1), (Some("/d/a.nsp"), 1), (Some("/d/readme.txt"), 1), (Some("/d/b.xci"), 1)]);
    assert_eq!(
        select_game_paths(PickedPath::Directory { entries, cancelled: false }, false),
        Ok(vec!["/d/a.nsp".to_string(), "/d/b.xci".to_string()])
    );
    assert_eq!(
        select_game_paths(PickedPath::Directory { entries: walked(&[(Some("/d"), 0)]), cancelled: false }, true),
        Err(GamePathsError::NoGameBackupsFound)
    );
    assert_eq!(
        select_game_paths(PickedPath::Directory { entries: vec![], cancelled: true }, false),
        Ok(vec![])
    );
    assert_eq!(
        select_game_paths(PickedPath::NotDirectory(Some("/x.nsz".to_string())), true),
        Ok(vec!["/x.nsz".to_string()])
    );
    assert_eq!(
        select_game_paths(PickedPath::NotDirectory(Some("/x.txt".to_string())), false),
        Err(GamePathsError::NeitherDirectoryNorGameBackup)
    );
    assert_eq!(
        select_game_paths(PickedPath::NotDirectory(None), false),
        Err(GamePathsError::NeitherDirectoryNorGameBackup)
    );
    assert_eq!(max_walk_depth(true), usize::MAX);
    assert_eq!(max_walk_depth(false), 1);
}

#[test]
fn extension_checks() {
    assert!(extension_is_game_backup(&Some("nsz".to_string())));
    assert!(!extension_is_game_backup(&Some("zip".to_string())));
    assert!(!extension_is_game_backup(&None));
    assert!(extension_is_bin(&Some("bin".to_string())));
    assert!(!extension_is_bin(&Some("bi".to_string())));
    assert!(!extension_is_bin(&None));
}

#[test]
fn extend_unique_twice_changes_nothing() {
    let new = vec![("/a.nsp".to_string(), 10), ("/b.xci".to_string(), 20), ("/a.nsp".to_string(), 30)];
    let mut s = StagedFiles::new();
    assert!(s.extend_unique(new.clone()));
    let before: Vec<(String, u64, bool)> =
        (0..s.count()).map(|i| (s.path(i).clone(), s.file_size(i), s.is_selected(i))).collect();
    let total = s.total_file_size();
    assert!(s.extend_unique(new));
    let after: Vec<(String, u64, bool)> =
        (0..s.count()).map(|i| (s.path(i).clone(), s.file_size(i), s.is_selected(i))).collect();
    assert_eq!(before, after);
    assert_eq!(s.total_file_size(), total);
}

#[test]
fn extend_unique_same_path_twice_stages_once() {
    let mut s = staged(&[("/x.nsp", 1)]);
    assert!(s.extend_unique(vec![("/p.nsp".to_string(), 5), ("/p.nsp".to_string(), 6)]));
    assert_eq!(s.count(), 2);
    assert_eq!(s.path(1), "/p.nsp");
    assert_eq!(s.file_size(1), 5);
    assert_eq!(s.total_file_size(), 6);
}

#[test]
fn extend_unique_appends_in_order_after_old_files() {
    let mut s = staged(&[("/b.nsp", 2), ("/a.nsp", 1)]);
    s.set_selected(0, false);
    assert!(s.extend_unique(vec![
        ("/d.nsp".to_string(), 4),
        ("/a.nsp".to_string(), 9),
        ("/c.nsp".to_string(), 3),
    ]));
    let paths: Vec<&str> = (0..s.count()).map(|i| s.path(i).as_str()).collect();
    assert_eq!(paths, vec!["/b.nsp", "/a.nsp", "/d.nsp", "/c.nsp"]);
    assert!(!s.is_selected(0));
    assert!(s.is_selected(2) && s.is_selected(3));
    assert_eq!(s.total_file_size(), 2 + 1 + 4 + 3);
}

#[test]
fn deeper_walk_finds_what_shallow_walk_finds() {
    let tree = || walked(&[(Some("/d"), 0), (Some("/d/a.nsp"), 1), (Some("/d/sub"), 1), (Some("/d/sub/b.xci"), 2)]);
    let a = select_game_paths(PickedPath::Directory { entries: tree(), cancelled: false }, false).unwrap();
    let b = select_game_paths(PickedPath::Directory { entries: tree(), cancelled: false }, true).unwrap();
    assert_eq!(a, vec!["/d/a.nsp".to_string()]);
    assert!(a.iter().all(|p| b.contains(p)));
    assert_eq!(b.len(), 2);
    let only_deep = || walked(&[(Some("/d"), 0), (Some("/d/sub"), 1), (Some("/d/sub/b.xci"), 2)]);
    assert_eq!(
        select_game_paths(PickedPath::Directory { entries: only_deep(), cancelled: false }, false),
        Err(GamePathsError::NoGameBackupsFound)
    );
    assert_eq!(
        select_game_paths(PickedPath::Directory { entries: only_deep(), cancelled: false }, true),
        Ok(vec!["/d/sub/b.xci".to_string()])
    );
}
