use voice_memos::watch::{launchd_plist, watcher_line, PLIST_LABEL};

#[test]
fn plist_names_label_program_and_paths() {
    let p = launchd_plist("/usr/local/bin/voice-memos", "/Users/me/Recordings", "/Users/me/out/launchd.log");
    assert!(p.starts_with("<?xml version=\"1.0\" encoding=\"UTF-8\"?>\n"));
    assert!(p.contains(&format!("<string>{PLIST_LABEL}</string>")));
    assert!(p.contains("<string>/usr/local/bin/voice-memos</string>\n        <string>extract</string>"));
    assert!(p.contains("<key>WatchPaths</key>\n    <array>\n        <string>/Users/me/Recordings</string>"));
    assert_eq!(p.matches("<string>/Users/me/out/launchd.log</string>").count(), 2);
    assert!(p.ends_with("<false/>\n</dict>\n</plist>"));
}

#[test]
fn watcher_line_finds_first_mention() {
    let out = "PID\tStatus\tLabel\r\n-\t0\tcom.apple.x\r\n123\t0\tcom.karbassi.voice-memos\r\nlast com.karbassi.voice-memos";
    assert_eq!(watcher_line(out), Some("123\t0\tcom.karbassi.voice-memos".to_string()));
    assert_eq!(watcher_line("a\nb\n"), None);
    assert_eq!(watcher_line("x com.karbassi.voice-memos\r"), Some("x com.karbassi.voice-memos\r".to_string()));
}
