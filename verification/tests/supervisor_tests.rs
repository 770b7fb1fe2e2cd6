use linuxboy::capsule::CapsuleMetadata;
use linuxboy::supervisor::{
    build_env, dep_name, dependency_tasks, disable_xalia, dx_extract_args, dx_host_temp_dir,
    dx_install_args, dx_temp_dir_name, dx_windows_temp_dir, game_command_args, preflight_args,
    track_step, DepKind, Registry, Track, TrackError, TrackEvent, TrackState,
};

#[test]
fn track_lifecycle_steps() {
    assert_eq!(track_step(TrackState::Idle, TrackEvent::Spawned), Ok(TrackState::Running));
    assert_eq!(
        track_step(TrackState::Running, TrackEvent::Finished(true)),
        Ok(TrackState::Completed(true))
    );
    assert_eq!(track_step(TrackState::Running, TrackEvent::Kill), Ok(TrackState::Completed(false)));
    assert_eq!(
        track_step(TrackState::Idle, TrackEvent::Kill),
        Err(TrackError::InvalidTransition)
    );
    assert_eq!(
        track_step(TrackState::Completed(true), TrackEvent::Spawned),
        Err(TrackError::InvalidTransition)
    );
}

#[test]
fn spawning_tracks_exactly_one_group() {
    let mut reg = Registry::new();
    reg.on_started(Track::Install, 7, 4242);
    assert!(reg.is_active(Track::Install, 7));
    assert!(!reg.is_active(Track::Play, 7));
    assert_eq!(reg.lookup(Track::Install, 7), Some(4242));
    assert_eq!(reg.installs.len(), 1);

    // A second spawn for the same capsule replaces the entry instead of
    // adding one.
    reg.on_started(Track::Install, 7, 4343);
    assert_eq!(reg.installs.len(), 1);
    assert_eq!(reg.lookup(Track::Install, 7), Some(4343));
}

#[test]
fn killing_removes_the_entry_and_stale_completions_change_nothing() {
    let mut reg = Registry::new();
    reg.on_started(Track::Install, 7, 4242);
    assert_eq!(reg.kill(Track::Install, 7), Some(4242));
    assert!(!reg.is_active(Track::Install, 7));

    // The natural completion arrives later; the key is no longer
    // tracked and the registry stays as it is.
    reg.on_finished(Track::Install, 7);
    assert!(!reg.is_active(Track::Install, 7));
    assert_eq!(reg.installs.len(), 0);

    assert_eq!(reg.kill(Track::Install, 7), None);
}

#[test]
fn tracks_are_independent() {
    let mut reg = Registry::new();
    reg.on_started(Track::Install, 7, 100);
    reg.on_started(Track::Play, 7, 200);
    assert_eq!(reg.lookup(Track::Install, 7), Some(100));
    assert_eq!(reg.lookup(Track::Play, 7), Some(200));
    reg.on_finished(Track::Play, 7);
    assert!(reg.is_active(Track::Install, 7));
    assert!(!reg.is_active(Track::Play, 7));
}

#[test]
fn base_environment_uses_defaults_for_missing_identity() {
    let m = CapsuleMetadata::default_named(b"Hero".to_vec());
    let env = build_env(b"/pfx", b"/rt/GE-Proton9-2", &m);
    assert_eq!(env[0], (b"WINEPREFIX".to_vec(), b"/pfx".to_vec()));
    assert_eq!(env[1], (b"PROTONPATH".to_vec(), b"/rt/GE-Proton9-2".to_vec()));
    assert_eq!(env[2], (b"GAMEID".to_vec(), b"umu-default".to_vec()));
    assert_eq!(env[3], (b"STORE".to_vec(), b"none".to_vec()));
    assert_eq!(env[4], (b"PROTON_USE_XALIA".to_vec(), b"0".to_vec()));
    assert_eq!(env.len(), 5);
}

#[test]
fn base_environment_carries_identity_and_overrides() {
    let mut m = CapsuleMetadata::default_named(b"Hero".to_vec());
    m.game_id = Some(b"  umu-77  ".to_vec());
    m.store = Some(b"gog".to_vec());
    m.xalia_enabled = true;
    m.protonfixes_disable = true;
    m.env_vars = vec![
        (b" DXVK_HUD ".to_vec(), b"fps".to_vec()),
        (b"   ".to_vec(), b"dropped".to_vec()),
    ];
    let env = build_env(b"/pfx", b"/rt", &m);
    assert_eq!(env[2], (b"GAMEID".to_vec(), b"umu-77".to_vec()));
    assert_eq!(env[3], (b"STORE".to_vec(), b"gog".to_vec()));
    assert_eq!(env[4], (b"PROTON_USE_XALIA".to_vec(), b"1".to_vec()));
    assert_eq!(env[5], (b"PROTONFIXES_DISABLE".to_vec(), b"1".to_vec()));
    assert_eq!(env[6], (b"DXVK_HUD".to_vec(), b"fps".to_vec()));
    assert_eq!(env.len(), 7);
}

#[test]
fn installer_runs_disable_ui_automation() {
    let m = CapsuleMetadata::default_named(b"Hero".to_vec());
    let env = disable_xalia(build_env(b"/pfx", b"/rt", &m));
    assert_eq!(env.last().unwrap(), &(b"PROTON_USE_XALIA".to_vec(), b"0".to_vec()));
}

#[test]
fn game_arguments_carry_fixes_flags() {
    let mut m = CapsuleMetadata::default_named(b"Hero".to_vec());
    m.executables.main.path = b"/c/Games/Hero/Hero.exe".to_vec();
    m.executables.main.args = b"  -windowed -skipintro  ".to_vec();
    m.protonfixes_tricks = vec![b"corefonts".to_vec()];
    m.protonfixes_replace_cmds = vec![b"a=b".to_vec()];
    m.protonfixes_dxvk_sets = vec![b"hud=1".to_vec()];
    let args = game_command_args(&m);
    assert_eq!(
        args,
        vec![
            b"/c/Games/Hero/Hero.exe".to_vec(),
            b"-windowed".to_vec(),
            b"-skipintro".to_vec(),
            b"-pf_tricks=corefonts".to_vec(),
            b"-pf_replace_cmd=a=b".to_vec(),
            b"-pf_dxvk_set=hud=1".to_vec(),
        ]
    );
}

#[test]
fn preflight_is_a_harmless_command() {
    assert_eq!(preflight_args(), vec![b"cmd".to_vec(), b"/c".to_vec(), b"exit".to_vec()]);
}

#[test]
fn dependency_tasks_respect_selection_cache_and_force() {
    let mut m = CapsuleMetadata::default_named(b"Hero".to_vec());
    assert_eq!(dependency_tasks(&m, true, true, false, true, true), vec![
        DepKind::Vcredist,
        DepKind::Dxweb,
    ]);
    assert_eq!(dependency_tasks(&m, true, false, false, true, true), vec![DepKind::Vcredist]);
    assert_eq!(dependency_tasks(&m, true, true, false, false, true), vec![DepKind::Dxweb]);

    m.redistributables_installed = vec![b"vcredist".to_vec()];
    assert_eq!(dependency_tasks(&m, true, true, false, true, true), vec![DepKind::Dxweb]);
    assert_eq!(dependency_tasks(&m, true, true, true, true, true), vec![
        DepKind::Vcredist,
        DepKind::Dxweb,
    ]);

    assert_eq!(dep_name(DepKind::Vcredist), b"vcredist".to_vec());
    assert_eq!(dep_name(DepKind::Dxweb), b"dxweb".to_vec());
}

#[test]
fn directx_scratch_commands_are_exact() {
    let dirname = dx_temp_dir_name(12345);
    assert_eq!(dirname, b"linuxboy-dxredist-12345".to_vec());
    assert_eq!(
        dx_host_temp_dir(b"/pfx", &dirname),
        b"/pfx/drive_c/linuxboy-temp/linuxboy-dxredist-12345".to_vec()
    );
    let wtmp = dx_windows_temp_dir(&dirname);
    assert_eq!(wtmp, b"C:\\\\linuxboy-temp\\\\linuxboy-dxredist-12345".to_vec());
    assert_eq!(
        dx_extract_args(b"/cache/dxweb.exe", &wtmp),
        vec![
            b"/cache/dxweb.exe".to_vec(),
            b"/Q".to_vec(),
            b"/T:C:\\\\linuxboy-temp\\\\linuxboy-dxredist-12345".to_vec(),
            b"/C".to_vec(),
        ]
    );
    assert_eq!(
        dx_install_args(b"/tmpdir/DXSETUP.exe"),
        vec![b"/tmpdir/DXSETUP.exe".to_vec(), b"/silent".to_vec()]
    );
}
