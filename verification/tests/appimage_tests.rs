use linuxboy::appimage::{is_wanted_shortcut_name, AppImageBuilder};
use linuxboy::capsule::InstallState;

#[test]
fn image_records_point_into_the_game_directory() {
    let b = AppImageBuilder::new(b"/src/Hero".to_vec(), b"/out".to_vec(), b"Hero".to_vec());
    let m = b.create_metadata(b"Hero.exe", b"-windowed");
    assert_eq!(m.name, b"Hero".to_vec());
    assert_eq!(m.executables.main.path, b"game/Hero.exe".to_vec());
    assert_eq!(m.executables.main.args, b"-windowed".to_vec());
    assert_eq!(m.install_state, InstallState::Installed);
}

#[test]
fn shortcut_lists_do_not_change_the_record() {
    let b = AppImageBuilder::new(b"/src/Hero".to_vec(), b"/out".to_vec(), b"Hero".to_vec());
    let shortcuts = vec![b"Hero.lnk".to_vec()];
    let m = b.create_metadata_with_shortcuts(b"Hero.exe", b"", &shortcuts);
    assert_eq!(m.executables.main.path, b"game/Hero.exe".to_vec());
}

#[test]
fn unwanted_shortcuts_are_filtered() {
    assert!(is_wanted_shortcut_name(b"Hero.lnk"));
    assert!(!is_wanted_shortcut_name(b"Uninstall Hero.lnk"));
    assert!(!is_wanted_shortcut_name(b"ReadMe.lnk"));
    assert!(!is_wanted_shortcut_name(b"Hero Website.lnk"));
}
