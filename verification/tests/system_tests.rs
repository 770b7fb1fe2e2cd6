use linuxboy::paths::{
    file_name, file_stem, has_extension, is_exe_file, parent_dir, path_contains_case_insensitive,
    path_within_dir, trim_input, windows_path_to_host,
};
use linuxboy::system::{
    deb_arch, is_runtime_entry_name, mesa_packages, os_release_value, parse_os_release,
    select_umu_asset, vulkan_packages, SystemCheck, SystemStatus, UmuAsset,
};

#[test]
fn all_probes_green_means_ready() {
    let c = SystemCheck::check(true, true, true);
    assert_eq!(c.status, SystemStatus::AllInstalled);
    assert!(c.missing_apt_packages.is_empty());
    assert_eq!(c.status_message(), b"System Ready".to_vec());
}

#[test]
fn half_ready_machines_are_partial() {
    let c = SystemCheck::check(true, true, false);
    assert_eq!(c.status, SystemStatus::PartiallyInstalled);
    assert_eq!(c.status_message(), b"Setup Incomplete".to_vec());

    let c = SystemCheck::check(false, false, true);
    assert_eq!(c.status, SystemStatus::PartiallyInstalled);
    assert_eq!(c.missing_apt_packages.len(), 9);
}

#[test]
fn nothing_installed_lists_every_package() {
    let c = SystemCheck::check(false, false, false);
    assert_eq!(c.status, SystemStatus::NothingInstalled);
    assert_eq!(c.status_message(), b"Setup Required".to_vec());
    assert_eq!(c.missing_apt_packages[0], b"vulkan-tools".to_vec());
    assert_eq!(c.missing_apt_packages.len(), 9);
}

#[test]
fn config_directories_hang_off_the_home() {
    assert_eq!(SystemCheck::get_linuxboy_dir(b"/home/me"), b"/home/me/.linuxboy".to_vec());
    assert_eq!(
        SystemCheck::get_runtimes_dir(b"/home/me"),
        b"/home/me/.linuxboy/runtimes".to_vec()
    );
}

#[test]
fn runtime_entries_follow_either_convention() {
    assert!(is_runtime_entry_name(b"GE-Proton9-2"));
    assert!(is_runtime_entry_name(b"proton-ge-8-32"));
    assert!(is_runtime_entry_name(b"Proton-GE-old"));
    assert!(!is_runtime_entry_name(b"cache"));
}

#[test]
fn package_lists_are_fixed() {
    assert_eq!(vulkan_packages().len(), 3);
    assert_eq!(mesa_packages().len(), 6);
    assert_eq!(mesa_packages()[4], b"libglx-mesa0:amd64".to_vec());
}

#[test]
fn debian_architectures() {
    assert_eq!(deb_arch(b"x86_64"), Some(b"amd64".to_vec()));
    assert_eq!(deb_arch(b"aarch64"), Some(b"arm64".to_vec()));
    assert_eq!(deb_arch(b"arm"), Some(b"armhf".to_vec()));
    assert_eq!(deb_arch(b"riscv64"), None);
}

fn umu_asset(name: &[u8]) -> UmuAsset {
    UmuAsset {
        name: name.to_vec(),
        browser_download_url: b"https://example.invalid/a".to_vec(),
        size: 1,
    }
}

#[test]
fn launcher_assets_prefer_the_exact_build() {
    let assets = vec![
        umu_asset(b"umu-launcher-1.2_all_debian-12.deb"),
        umu_asset(b"python3-umu-launcher-1.2_amd64_debian-12.deb"),
    ];
    assert_eq!(select_umu_asset(&assets, b"12", b"amd64"), Some(1));

    let only_fallback = vec![umu_asset(b"umu-launcher-1.2_all_debian-12.deb")];
    assert_eq!(select_umu_asset(&only_fallback, b"12", b"amd64"), Some(0));

    let nothing = vec![umu_asset(b"umu-launcher-1.2_all_debian-11.deb")];
    assert_eq!(select_umu_asset(&nothing, b"12", b"amd64"), None);
}

#[test]
fn windows_paths_map_into_the_prefix() {
    assert_eq!(
        windows_path_to_host(b"/pfx", b"C:\\Games\\Foo\\Bar.exe"),
        Some(b"/pfx/drive_c/Games/Foo/Bar.exe".to_vec())
    );
    assert_eq!(
        windows_path_to_host(b"/pfx", b"\"c:/Games/Baz.exe\""),
        Some(b"/pfx/drive_c/Games/Baz.exe".to_vec())
    );
    assert_eq!(windows_path_to_host(b"/pfx", b"D:\\Games\\Foo.exe"), None);
    assert_eq!(windows_path_to_host(b"/pfx", b"x"), None);
}

#[test]
fn path_helpers_work_bytewise() {
    assert_eq!(file_name(b"/a/b/Game.exe"), b"Game.exe".to_vec());
    assert_eq!(file_stem(b"Game.exe"), b"Game".to_vec());
    assert_eq!(file_stem(b"archive.tar.gz"), b"archive.tar".to_vec());
    assert_eq!(file_stem(b".hidden"), b".hidden".to_vec());
    assert!(is_exe_file(b"/a/b/Game.EXE"));
    assert!(!is_exe_file(b"/a/b/Game.txt"));
    assert!(!is_exe_file(b"/a/b/exe"));
    assert!(has_extension(b"/a/b/Hero.LNK", b"lnk"));
    assert!(!has_extension(b"/a/b/Hero.exe", b"lnk"));
    assert!(path_contains_case_insensitive(b"/a/Windows/b", b"windows"));
    assert!(path_within_dir(b"/games/Hero/bin/h.exe", b"/games/Hero"));
    assert!(!path_within_dir(b"/games/Heroic/bin/h.exe", b"/games/Hero"));
    // Quotes are stripped first, then whitespace.
    assert_eq!(trim_input(b"\"  quoted  \""), b"quoted".to_vec());
}

#[test]
fn release_files_parse_line_by_line() {
    let contents = b"# comment line\nNAME=\"Debian GNU/Linux\"\n\nVERSION_ID=\"12\"\nBROKEN LINE\nID=debian";
    let pairs = parse_os_release(contents);
    assert_eq!(pairs.len(), 3);
    assert_eq!(pairs[0], (b"NAME".to_vec(), b"Debian GNU/Linux".to_vec()));
    assert_eq!(pairs[1], (b"VERSION_ID".to_vec(), b"12".to_vec()));
    assert_eq!(pairs[2], (b"ID".to_vec(), b"debian".to_vec()));
    assert_eq!(os_release_value(&pairs, b"VERSION_ID"), Some(b"12".to_vec()));
    assert_eq!(os_release_value(&pairs, b"PRETTY_NAME"), None);
}

#[test]
fn later_release_entries_win() {
    let pairs = parse_os_release(b"ID=one\nID=two");
    assert_eq!(os_release_value(&pairs, b"ID"), Some(b"two".to_vec()));
}

#[test]
fn parent_directories_split_at_the_last_separator() {
    assert_eq!(parent_dir(b"/a/b/Game.exe"), Some(b"/a/b".to_vec()));
    assert_eq!(parent_dir(b"Game.exe"), None);
}
