use linuxboy::catalog::{
    find_umu_matches, key_eq, normalize_words, score_acronym, score_match, UmuDatabase, UmuEntry,
};

fn entry(title: &[u8], umu_id: &[u8], store: &[u8]) -> UmuEntry {
    UmuEntry {
        title: Some(title.to_vec()),
        umu_id: Some(umu_id.to_vec()),
        acronym: None,
        codename: None,
        store: Some(store.to_vec()),
        exe_string: None,
        notes: None,
    }
}

#[test]
fn titles_normalize_to_the_same_key() {
    assert_eq!(UmuDatabase::normalize_title(b"Half-Life 2"), b"halflife2".to_vec());
    assert_eq!(UmuDatabase::normalize_title(b"halflife2"), b"halflife2".to_vec());
}

#[test]
fn words_fold_to_lower_case_alphanumerics() {
    assert_eq!(
        normalize_words(b"Half-Life 2: Episode One"),
        vec![b"half".to_vec(), b"life".to_vec(), b"2".to_vec(), b"episode".to_vec(), b"one".to_vec()],
    );
}

#[test]
fn match_scores_follow_the_ladder() {
    assert_eq!(score_match(b"Half Life 2", b"Half-Life 2"), Some(0));
    assert_eq!(score_match(b"Half Life 2", b"Half-Life 2: Episode One"), Some(1));
    assert_eq!(score_match(b"episode half", b"Half-Life 2: Episode One"), Some(2));
    assert_eq!(score_match(b"the Half-Life 2 bundle", b"Half-Life 2"), Some(3));
    assert_eq!(score_match(b"totally different", b"Half-Life 2"), None);
    assert_eq!(score_match(b"", b"Half-Life 2"), None);
}

#[test]
fn short_candidates_never_match_in_reverse() {
    // The candidate is contained in the query but is shorter than four
    // characters once normalized.
    assert_eq!(score_match(b"abcdef", b"abc"), None);
}

#[test]
fn acronym_scores() {
    assert_eq!(score_acronym(b"hl2", b"HL2"), Some(0));
    assert_eq!(score_acronym(b"play hl2 now", b"HL2"), Some(2));
    assert_eq!(score_acronym(b"play hl now", b"HL"), None);
}

#[test]
fn exact_match_sorts_before_substring_match() {
    let entries = vec![
        entry(b"Half-Life 2: Episode One", b"umu-100", b"steam"),
        entry(b"Half-Life 2", b"umu-200", b"steam"),
    ];
    let matches = find_umu_matches(b"Half Life 2", &entries);
    assert_eq!(matches.len(), 2);
    assert_eq!(matches[0].score, 0);
    assert_eq!(matches[0].entry.title, Some(b"Half-Life 2".to_vec()));
    assert_eq!(matches[1].score, 1);
    assert_eq!(matches[1].entry.title, Some(b"Half-Life 2: Episode One".to_vec()));
}

#[test]
fn duplicate_identities_are_dropped() {
    let entries = vec![
        entry(b"Half-Life 2", b"umu-1", b"steam"),
        entry(b"Half-Life 2 (retail)", b"umu-1", b"steam"),
        entry(b"Half-Life 2", b"umu-1", b"gog"),
    ];
    let matches = find_umu_matches(b"Half Life 2", &entries);
    assert_eq!(matches.len(), 2);
    for i in 0..matches.len() {
        for j in (i + 1)..matches.len() {
            assert!(!key_eq(&matches[i].entry, &matches[j].entry));
        }
    }
}

#[test]
fn an_acronym_can_improve_an_entry_score() {
    let mut e = entry(b"Grand Strategy Ultimate", b"umu-9", b"gog");
    e.acronym = Some(b"GSU".to_vec());
    let entries = vec![e];
    let matches = find_umu_matches(b"gsu", &entries);
    assert_eq!(matches.len(), 1);
    assert_eq!(matches[0].score, 0);
}

#[test]
fn results_are_capped_at_twenty() {
    let mut entries = Vec::new();
    for i in 0..30u32 {
        let id = format!("umu-{}", i);
        entries.push(entry(b"Half-Life 2", id.as_bytes(), b"steam"));
    }
    let matches = find_umu_matches(b"Half Life 2", &entries);
    assert_eq!(matches.len(), 20);
}

#[test]
fn blank_queries_match_nothing() {
    let entries = vec![entry(b"Half-Life 2", b"umu-1", b"steam")];
    assert!(find_umu_matches(b"!!! ???", &entries).is_empty());
}

#[test]
fn load_or_fetch_prefers_fresh_entries() {
    let fresh = vec![entry(b"A", b"1", b"s")];
    let (r, write_cache) = UmuDatabase::load_or_fetch(Ok(fresh), None);
    assert!(write_cache);
    assert_eq!(r.unwrap().len(), 1);
}

#[test]
fn load_or_fetch_falls_back_to_the_cache() {
    let cache = vec![entry(b"A", b"1", b"s"), entry(b"B", b"2", b"s")];
    let (r, write_cache) = UmuDatabase::load_or_fetch(Err(b"offline".to_vec()), Some(cache));
    assert!(!write_cache);
    assert_eq!(r.unwrap().len(), 2);
}

#[test]
fn load_or_fetch_reports_the_fetch_error_without_a_cache() {
    let (r, write_cache) = UmuDatabase::load_or_fetch(Err(b"offline".to_vec()), None);
    assert!(!write_cache);
    assert_eq!(r.unwrap_err(), b"offline".to_vec());
}
