use linuxboy::runtime::{
    download_phase_permille, ExtractLayout, GitHubAsset, ProtonRelease, RuntimeError,
    RuntimeManager,
};

fn release(tag: &[u8], asset_names: &[&[u8]]) -> ProtonRelease {
    ProtonRelease {
        tag_name: tag.to_vec(),
        name: tag.to_vec(),
        published_at: b"2024-01-01T00:00:00Z".to_vec(),
        assets: asset_names
            .iter()
            .map(|n| GitHubAsset {
                name: n.to_vec(),
                browser_download_url: b"https://example.invalid/a".to_vec(),
                size: 42,
            })
            .collect(),
    }
}

#[test]
fn latest_release_is_the_first() {
    let releases = vec![release(b"GE-Proton9-2", &[]), release(b"GE-Proton9-1", &[])];
    let latest = RuntimeManager::get_latest_release(releases).unwrap();
    assert_eq!(latest.tag_name, b"GE-Proton9-2".to_vec());
    assert_eq!(
        RuntimeManager::get_latest_release(Vec::new()).unwrap_err(),
        RuntimeError::NoReleases
    );
}

#[test]
fn asset_selection_goes_by_suffix() {
    let rel = release(
        b"GE-Proton9-2",
        &[b"GE-Proton9-2.sha512sum", b"GE-Proton9-2.tar.gz", b"other.tar.gz"],
    );
    assert_eq!(RuntimeManager::find_targz_asset(&rel), Some(1));
    assert_eq!(RuntimeManager::find_checksum_asset(&rel), Some(0));
    let none = release(b"GE-Proton9-2", &[b"notes.txt"]);
    assert_eq!(RuntimeManager::find_targz_asset(&none), None);
}

#[test]
fn sha256_digest_is_the_known_one() {
    let mgr = RuntimeManager::new(b"/rt".to_vec());
    let hex = mgr.calculate_sha256(b"abc");
    assert_eq!(
        hex,
        b"ba7816bf8f01cfea414140de5dae2223b00361a396177a9cb410ff61f20015ad".to_vec()
    );
}

#[test]
fn checksums_compare_case_insensitively() {
    let mgr = RuntimeManager::new(b"/rt".to_vec());
    assert!(mgr.verify_checksum(
        b"abc",
        b"BA7816BF8F01CFEA414140DE5DAE2223B00361A396177A9CB410FF61F20015AD"
    ));
    assert!(!mgr.verify_checksum(b"abc", b"deadbeef"));
}

#[test]
fn listing_keeps_only_runtime_names() {
    let mgr = RuntimeManager::new(b"/rt".to_vec());
    let entries = vec![
        b"GE-Proton9-1".to_vec(),
        b"cache".to_vec(),
        b"GE-Proton9-10".to_vec(),
    ];
    let names = mgr.list_installed(&entries);
    assert_eq!(names, vec![b"GE-Proton9-1".to_vec(), b"GE-Proton9-10".to_vec()]);
}

#[test]
fn latest_installed_is_the_lexicographic_maximum() {
    let mgr = RuntimeManager::new(b"/rt".to_vec());
    let entries = vec![
        b"GE-Proton9-1".to_vec(),
        b"GE-Proton9-7".to_vec(),
        b"GE-Proton9-10".to_vec(),
        b"unrelated".to_vec(),
    ];
    // Plain lexicographic order: "GE-Proton9-7" beats "GE-Proton9-10".
    assert_eq!(mgr.latest_installed(&entries), Some(b"/rt/GE-Proton9-7".to_vec()));
    assert_eq!(mgr.latest_installed(&vec![b"cache".to_vec()]), None);
}

#[test]
fn version_paths_and_presence() {
    let mgr = RuntimeManager::new(b"/rt".to_vec());
    assert_eq!(mgr.get_proton_path(b"GE-Proton9-1"), b"/rt/GE-Proton9-1".to_vec());
    let entries = vec![b"GE-Proton9-1".to_vec()];
    assert!(mgr.is_installed(&entries, b"GE-Proton9-1"));
    assert!(!mgr.is_installed(&entries, b"GE-Proton9-2"));
}

#[test]
fn cache_plans_follow_the_rules() {
    let plan = RuntimeManager::cache_plan(false, Some(100), None, Some(100));
    assert!(!plan.need_download);
    assert_eq!(plan.resume_bytes, 0);

    let plan = RuntimeManager::cache_plan(false, Some(90), None, Some(100));
    assert!(plan.need_download);
    assert_eq!(plan.resume_bytes, 90);

    let plan = RuntimeManager::cache_plan(false, None, Some(40), Some(100));
    assert!(plan.need_download);
    assert_eq!(plan.resume_bytes, 40);

    let plan = RuntimeManager::cache_plan(true, Some(100), Some(40), Some(100));
    assert!(plan.evict_cached && plan.evict_partial);
    assert!(plan.need_download);
    assert_eq!(plan.resume_bytes, 0);
}

#[test]
fn staging_directories_are_named_after_the_tag() {
    let mgr = RuntimeManager::new(b"/rt".to_vec());
    assert_eq!(mgr.staging_dir(b"GE-Proton9-2"), b"/rt/.staging-GE-Proton9-2".to_vec());
}

#[test]
fn install_twice_without_reinstall_changes_nothing() {
    let mgr = RuntimeManager::new(b"/rt".to_vec());
    let rel = release(b"GE-Proton9-2", &[b"GE-Proton9-2.tar.gz"]);
    let layout = ExtractLayout { has_tag_dir: true, first_subdir: None };

    let first = mgr.run_install(&rel, false, Vec::new(), &layout).unwrap();
    assert_eq!(first.name, b"GE-Proton9-2".to_vec());
    assert_eq!(first.path, b"/rt/GE-Proton9-2".to_vec());
    assert!(!first.already && !first.replaced);

    let second = mgr.run_install(&rel, false, first.installed.clone(), &layout).unwrap();
    assert!(second.already && !second.replaced);
    assert_eq!(second.path, first.path);
    assert_eq!(second.installed, first.installed);
}

#[test]
fn reinstall_replaces_the_existing_directory() {
    let mgr = RuntimeManager::new(b"/rt".to_vec());
    let rel = release(b"GE-Proton9-2", &[b"GE-Proton9-2.tar.gz"]);
    let layout = ExtractLayout { has_tag_dir: true, first_subdir: None };
    let installed = vec![b"GE-Proton9-2".to_vec()];
    let out = mgr.run_install(&rel, true, installed, &layout).unwrap();
    assert!(out.replaced && !out.already);
    assert_eq!(out.installed, vec![b"GE-Proton9-2".to_vec()]);
}

#[test]
fn extraction_roots_resolve_in_order() {
    let mgr = RuntimeManager::new(b"/rt".to_vec());
    let rel = release(b"GE-Proton9-2", &[b"GE-Proton9-2.tar.gz"]);
    let by_subdir = ExtractLayout {
        has_tag_dir: false,
        first_subdir: Some(b"GE-Proton9-2-payload".to_vec()),
    };
    let out = mgr.run_install(&rel, false, Vec::new(), &by_subdir).unwrap();
    assert_eq!(out.name, b"GE-Proton9-2-payload".to_vec());

    let bare = ExtractLayout { has_tag_dir: false, first_subdir: None };
    let out = mgr.run_install(&rel, false, Vec::new(), &bare).unwrap();
    assert_eq!(out.name, b"GE-Proton9-2".to_vec());
}

#[test]
fn installing_without_an_archive_asset_fails() {
    let mgr = RuntimeManager::new(b"/rt".to_vec());
    let rel = release(b"GE-Proton9-2", &[b"notes.sha512sum"]);
    let layout = ExtractLayout { has_tag_dir: true, first_subdir: None };
    let err = mgr.run_install(&rel, false, Vec::new(), &layout).unwrap_err();
    assert_eq!(err, RuntimeError::NoArchiveAsset);
}

#[test]
fn download_progress_scales_into_the_download_span() {
    assert_eq!(download_phase_permille(0, 100), 0);
    assert_eq!(download_phase_permille(50, 100), 450);
    assert_eq!(download_phase_permille(100, 100), 900);
    assert_eq!(download_phase_permille(1, 3), 300);
}
