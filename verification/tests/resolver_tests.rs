use linuxboy::resolver::{
    drive_c_root, filter_and_score, is_ignored_exe, pick_best, preferred_search_roots,
    score_exe_candidate, shortcut_roots,
};

#[test]
fn exact_blocklist_names_are_ignored() {
    assert!(is_ignored_exe(b"/c/Program Files/Game/uninstall.exe"));
    assert!(is_ignored_exe(b"/c/G/Setup.EXE"));
    assert!(is_ignored_exe(b"/c/windows-like/CMD.exe"));
    assert!(!is_ignored_exe(b"/c/Program Files/Game/game.exe"));
}

#[test]
fn uninstaller_prefixes_and_redists_are_ignored() {
    assert!(is_ignored_exe(b"/c/G/unins000.exe"));
    assert!(is_ignored_exe(b"/c/G/MyUninstaller.exe"));
    assert!(is_ignored_exe(b"/c/G/vcredist_x64.exe"));
    assert!(is_ignored_exe(b"/c/G/some_redist_pack.exe"));
}

#[test]
fn system_directories_are_ignored() {
    assert!(is_ignored_exe(b"/pfx/drive_c/windows/explorer2.exe"));
    assert!(is_ignored_exe(b"/pfx/drive_c/Windows/System32/calc.exe"));
    assert!(is_ignored_exe(b"/pfx/drive_c/WINDOWS/SysWOW64/thing.exe"));
    assert!(!is_ignored_exe(b"/pfx/drive_c/Games/win-adjacent/thing.exe"));
}

#[test]
fn blocked_candidates_never_win() {
    let paths = vec![
        b"/c/Game/uninstall.exe".to_vec(),
        b"/c/Game/vcredist_x64.exe".to_vec(),
        b"/c/Game/system32/inner.exe".to_vec(),
        b"/c/Game/hero.exe".to_vec(),
    ];
    let cands = filter_and_score(&paths, &None, b"Hero", &None);
    // Only the real game survives the filter, whatever the scores.
    assert_eq!(cands.len(), 1);
    assert_eq!(cands[0].path, b"/c/Game/hero.exe".to_vec());
    let best = pick_best(&cands).unwrap();
    assert_eq!(cands[best].path, b"/c/Game/hero.exe".to_vec());
}

#[test]
fn shortcut_discovery_scores_at_least_twenty_higher() {
    let with = score_exe_candidate(
        b"/c/Game/thing.exe",
        &Some(b"/c/users/me/Desktop/Unrelated.lnk".to_vec()),
        b"Some Game",
        &None,
        true,
    );
    let without = score_exe_candidate(b"/c/Game/thing.exe", &None, b"Some Game", &None, true);
    assert!(with >= without + 20);
}

#[test]
fn scoring_matches_the_formula() {
    // A regular file (+100) whose stem equals the title (+40), found via
    // a shortcut (+20) whose own stem also equals the title (+25),
    // inside the declared game directory (+30), with no penalties.
    let score = score_exe_candidate(
        b"/c/Games/Hero/Hero.exe",
        &Some(b"/c/users/me/Desktop/Hero.lnk".to_vec()),
        b"Hero",
        &Some(b"/c/Games/Hero".to_vec()),
        true,
    );
    assert_eq!(score, 100 + 20 + 40 + 25 + 30);
}

#[test]
fn penalties_accumulate_per_keyword() {
    // "launcher" (-15) and "setup" (-25) both occur in the path.
    let score = score_exe_candidate(b"/c/setup/launcher.exe", &None, b"", &None, true);
    assert_eq!(score, 100 - 15 - 25);
}

#[test]
fn first_best_candidate_wins_ties() {
    let paths = vec![
        b"/c/Game/alpha.exe".to_vec(),
        b"/c/Game/beta.exe".to_vec(),
    ];
    let cands = filter_and_score(&paths, &None, b"Unmatched Title", &None);
    assert_eq!(cands.len(), 2);
    assert_eq!(cands[0].score, cands[1].score);
    assert_eq!(pick_best(&cands), Some(0));
}

#[test]
fn no_candidates_no_winner() {
    let cands = filter_and_score(&Vec::new(), &None, b"Hero", &None);
    assert_eq!(pick_best(&cands), None);
}

#[test]
fn shortcut_roots_cover_every_profile() {
    let users = vec![b"alice".to_vec(), b"bob".to_vec()];
    let roots = shortcut_roots(b"/pfx", &users);
    assert_eq!(
        roots,
        vec![
            b"/pfx/drive_c/users/alice/Desktop".to_vec(),
            b"/pfx/drive_c/users/alice/Start Menu".to_vec(),
            b"/pfx/drive_c/users/alice/Start Menu/Programs".to_vec(),
            b"/pfx/drive_c/users/bob/Desktop".to_vec(),
            b"/pfx/drive_c/users/bob/Start Menu".to_vec(),
            b"/pfx/drive_c/users/bob/Start Menu/Programs".to_vec(),
        ]
    );
}

#[test]
fn search_roots_start_with_the_declared_game_directory() {
    let roots = preferred_search_roots(b"/pfx", &Some(b"/pfx/games/Hero".to_vec()));
    assert_eq!(roots[0], b"/pfx/games/Hero".to_vec());
    assert_eq!(roots[1], b"/pfx/drive_c/Program Files".to_vec());
    assert_eq!(roots.len(), 5);
    let bare = preferred_search_roots(b"/pfx", &None);
    assert_eq!(bare.len(), 4);
    assert_eq!(drive_c_root(b"/pfx"), b"/pfx/drive_c".to_vec());
}
