use linuxboy::capsule::{
    default_game_name_for_path, home_path_for, is_generic_container_name,
    is_generic_installer_stem, plan_existing_game, plan_installer_capsule, prefix_path_for,
    resolve_relative_game_folder, sanitize_name, unique_name, AddGameMode, Capsule, CapsuleError,
    CapsuleMetadata, InstallState,
};

#[test]
fn default_records_start_installing() {
    let m = CapsuleMetadata::default_named(b"Hero".to_vec());
    assert_eq!(m.name, b"Hero".to_vec());
    assert_eq!(m.install_state, InstallState::Installing);
    assert!(m.executables.main.path.is_empty());
    assert_eq!(m.executables.main.label, b"Launch".to_vec());
    assert!(m.redistributables_installed.is_empty());
}

#[test]
fn home_paths_follow_the_layout() {
    assert_eq!(Capsule::get_home_path(b"/games/Hero.AppImage"), b"/games/Hero.AppImage.home".to_vec());
    assert_eq!(home_path_for(b"/games/Hero", b"Hero"), b"/games/Hero/Hero.AppImage.home".to_vec());
    assert_eq!(
        prefix_path_for(b"/games/Hero", b"Hero"),
        b"/games/Hero/Hero.AppImage.home/prefix".to_vec()
    );
}

#[test]
fn names_are_sanitized() {
    assert_eq!(sanitize_name(b"  He/ro\\X  "), b"He_ro_X".to_vec());
    // Surrounding whitespace survives when non-whitespace control bytes
    // shield it from the trim; the control bytes themselves are dropped.
    assert_eq!(sanitize_name(b"\x01\x02   \x03"), b"   ".to_vec());
    assert_eq!(sanitize_name(b"  \x01trim\x02  "), b"trim".to_vec());
    assert_eq!(sanitize_name(b"Plain Name"), b"Plain Name".to_vec());
}

#[test]
fn generic_stems_and_containers_are_recognized() {
    assert!(is_generic_installer_stem(b"setup"));
    assert!(is_generic_installer_stem(b"Setup-X64"));
    assert!(is_generic_installer_stem(b"GOG Installer"));
    assert!(!is_generic_installer_stem(b"HeroQuest"));
    assert!(is_generic_container_name(b"Downloads"));
    assert!(!is_generic_container_name(b"HeroQuest"));
}

#[test]
fn default_names_prefer_meaningful_parents() {
    assert_eq!(
        default_game_name_for_path(AddGameMode::Installer, b"/home/me/HeroQuest/setup.exe"),
        Some(b"HeroQuest".to_vec())
    );
    assert_eq!(
        default_game_name_for_path(AddGameMode::Installer, b"/home/me/Downloads/setup.exe"),
        None
    );
    assert_eq!(
        default_game_name_for_path(AddGameMode::Installer, b"/home/me/Downloads/HeroQuest.exe"),
        Some(b"HeroQuest".to_vec())
    );
    assert_eq!(
        default_game_name_for_path(AddGameMode::Existing, b"/home/me/Downloads/hero.exe"),
        Some(b"hero".to_vec())
    );
}

#[test]
fn relative_folders_fall_back_to_the_name() {
    assert_eq!(resolve_relative_game_folder(b"Hero", b"  my/dir  "), b"my/dir".to_vec());
    assert_eq!(resolve_relative_game_folder(b"Hero", b"   "), b"Hero".to_vec());
    assert_eq!(resolve_relative_game_folder(b"Hero", b"/abs/path"), b"Hero".to_vec());
}

#[test]
fn unique_names_count_upward() {
    let taken: Vec<Vec<u8>> = vec![b"Hero".to_vec(), b"Hero-1".to_vec()];
    assert_eq!(unique_name(b"Hero", &taken), b"Hero-2".to_vec());
    let free: Vec<Vec<u8>> = Vec::new();
    assert_eq!(unique_name(b"Hero", &free), b"Hero".to_vec());
}

#[test]
fn dependency_bookkeeping() {
    let mut m = CapsuleMetadata::default_named(b"Hero".to_vec());
    m.install_vcredist = true;
    assert!(m.should_prompt_dependencies());
    m.record_dependencies(&vec![b"vcredist".to_vec(), b"vcredist".to_vec()]);
    assert_eq!(m.redistributables_installed, vec![b"vcredist".to_vec()]);
    assert!(!m.should_prompt_dependencies());
    assert!(m.is_dependency_installed(b"vcredist"));
    assert!(!m.is_dependency_installed(b"dxweb"));
}

#[test]
fn settings_mark_installed_only_with_an_executable() {
    let mut m = CapsuleMetadata::default_named(b"Hero".to_vec());
    m.apply_settings(
        b"   ".to_vec(),
        None,
        None,
        false,
        false,
        false,
        false,
        Vec::new(),
        Vec::new(),
        Vec::new(),
    );
    assert_eq!(m.install_state, InstallState::Installing);
    m.apply_settings(
        b"/c/G/hero.exe".to_vec(),
        Some(b"umu-1".to_vec()),
        None,
        false,
        false,
        false,
        false,
        Vec::new(),
        Vec::new(),
        Vec::new(),
    );
    assert_eq!(m.install_state, InstallState::Installed);
    assert_eq!(m.executables.main.path, b"/c/G/hero.exe".to_vec());

    let mut m2 = CapsuleMetadata::default_named(b"Hero".to_vec());
    m2.mark_install_complete();
    assert_eq!(m2.install_state, InstallState::Installed);
}

#[test]
fn installer_capsules_remember_their_source() {
    let m = plan_installer_capsule(
        b"Hero",
        b"/games/Hero",
        b"/downloads/setup.exe",
        Some(b"umu-1".to_vec()),
        None,
    );
    assert_eq!(m.name, b"Hero".to_vec());
    assert_eq!(m.install_state, InstallState::Installing);
    assert_eq!(m.installer_path, Some(b"/downloads/setup.exe".to_vec()));
    assert_eq!(
        m.game_dir,
        Some(b"/games/Hero/Hero.AppImage.home/prefix/games/Hero".to_vec())
    );
}

#[test]
fn adopting_a_game_reroots_the_executable() {
    let plan = plan_existing_game(
        b"Hero",
        b"/games/Hero/Hero.AppImage.home/prefix/games/Hero",
        b"/home/me/old-hero",
        b"/home/me/old-hero/bin/hero.exe",
        None,
        Some(b"gog".to_vec()),
    )
    .unwrap();
    assert_eq!(plan.relative_exe, b"bin/hero.exe".to_vec());
    assert_eq!(
        plan.new_exe_path,
        b"/games/Hero/Hero.AppImage.home/prefix/games/Hero/bin/hero.exe".to_vec()
    );
    assert_eq!(plan.metadata.install_state, InstallState::Installed);
    assert_eq!(plan.metadata.store, Some(b"gog".to_vec()));
}

#[test]
fn an_executable_outside_the_source_is_rejected() {
    let r = plan_existing_game(
        b"Hero",
        b"/games/Hero/dest",
        b"/home/me/old-hero",
        b"/home/me/elsewhere/hero.exe",
        None,
        None,
    );
    match r {
        Ok(_) => panic!("an executable outside the source folder must be rejected"),
        Err(e) => assert_eq!(e, CapsuleError::ExecutableOutsideSource),
    }
}

#[test]
fn resolver_guess_is_recorded() {
    let mut m = CapsuleMetadata::default_named(b"Hero".to_vec());
    m.set_main_executable(
        b"/c/G/hero.exe".to_vec(),
        Some(b"/c/users/me/Desktop/Hero.lnk".to_vec()),
    );
    assert_eq!(m.executables.main.path, b"/c/G/hero.exe".to_vec());
    assert_eq!(
        m.executables.main.original_shortcut,
        Some(b"/c/users/me/Desktop/Hero.lnk".to_vec())
    );
}
