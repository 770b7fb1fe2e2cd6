use linuxboy::scanner::{
    contains_http_url, extract_ascii_sequences, extract_utf16le_sequences,
    extract_windows_exe_paths, extract_windows_paths_from_text,
};

fn utf16le(bytes: &[u8]) -> Vec<u8> {
    let mut out = Vec::new();
    for &b in bytes {
        out.push(b);
        out.push(0);
    }
    out
}

#[test]
fn ascii_runs_need_six_bytes() {
    let buf = b"\x01abcde\x01abcdef\x01";
    let runs = extract_ascii_sequences(buf);
    assert_eq!(runs, vec![b"abcdef".to_vec()]);
}

#[test]
fn ascii_run_at_end_is_kept() {
    let runs = extract_ascii_sequences(b"\x00trailing run");
    assert_eq!(runs, vec![b"trailing run".to_vec()]);
}

#[test]
fn utf16_runs_decode_low_bytes() {
    let mut buf = vec![0x01u8, 0x02];
    buf.extend_from_slice(&utf16le(b"Hello There"));
    buf.push(0);
    buf.push(0);
    let runs = extract_utf16le_sequences(&buf);
    assert_eq!(runs, vec![b"Hello There".to_vec()]);
}

#[test]
fn exe_path_found_in_plain_text() {
    let found = extract_windows_paths_from_text(b"run C:\\Games\\Foo\\Bar.EXE now");
    assert_eq!(found, vec![b"C:\\Games\\Foo\\Bar.EXE".to_vec()]);
}

#[test]
fn exe_path_cut_after_extension() {
    let found = extract_windows_paths_from_text(b"C:\\G\\a.exe trailing words");
    assert_eq!(found, vec![b"C:\\G\\a.exe".to_vec()]);
}

#[test]
fn path_without_exe_is_dropped() {
    let found = extract_windows_paths_from_text(b"C:\\Games\\Foo\\Bar.txt");
    assert!(found.is_empty());
}

#[test]
fn scanning_ascii_blob_finds_the_path() {
    let mut buf = vec![0x01u8, 0x02, 0x03];
    buf.extend_from_slice(b"C:\\Games\\Foo\\Bar.EXE");
    buf.push(0x01);
    let paths = extract_windows_exe_paths(&buf);
    assert_eq!(paths, vec![b"C:\\Games\\Foo\\Bar.EXE".to_vec()]);
}

#[test]
fn scanning_utf16_blob_finds_the_same_path() {
    let mut buf = vec![0x01u8];
    buf.extend_from_slice(&utf16le(b"C:\\Games\\Foo\\Bar.EXE"));
    buf.push(0x01);
    let paths = extract_windows_exe_paths(&buf);
    assert_eq!(paths, vec![b"C:\\Games\\Foo\\Bar.EXE".to_vec()]);
}

#[test]
fn duplicate_paths_are_deduplicated_and_sorted() {
    let mut buf = Vec::new();
    buf.extend_from_slice(b"C:\\b\\Two.exe");
    buf.push(0);
    buf.extend_from_slice(b"C:\\a\\One.exe");
    buf.push(0);
    // The same path again, recovered through the 16-bit decoding.
    buf.extend_from_slice(&utf16le(b"C:\\a\\One.exe"));
    buf.push(0);
    let paths = extract_windows_exe_paths(&buf);
    assert_eq!(paths, vec![b"C:\\a\\One.exe".to_vec(), b"C:\\b\\Two.exe".to_vec()]);
}

#[test]
fn url_shortcuts_are_detected_case_insensitively() {
    assert!(contains_http_url(b"\x01open HTTPS://example.com in a browser\x01"));
    assert!(contains_http_url(&utf16le(b"link http://example.com here")));
    assert!(!contains_http_url(b"\x01no links in this one, only text\x01"));
}
