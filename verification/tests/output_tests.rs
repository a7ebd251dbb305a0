use voice_memos::output::{
    build_list_entry, filter_json_fields, format_dry_run_human, format_extract_human, format_list_human,
    format_show_human, ndjson_lines, try_filter_json_fields, DryRunEntry, DryRunResult, ExtractResult, ListEntry,
    OutputFormat, ShowEntry,
};
use voice_memos::state::ProcessedEntry;

// --- OutputFormat ---

#[test]
fn output_format_from_none() {
    assert_eq!(OutputFormat::from_str_opt(None), OutputFormat::Human);
}

#[test]
fn output_format_from_json() {
    assert_eq!(OutputFormat::from_str_opt(Some("json")), OutputFormat::Json);
}

#[test]
fn output_format_from_unknown() {
    assert_eq!(OutputFormat::from_str_opt(Some("xml")), OutputFormat::Human);
}

// --- build_list_entry ---

#[test]
fn build_list_entry_pending() {
    let entry = build_list_entry("uuid-1", "2024-01-15 10:30", 125.0f64 as u64, "My Memo", None, None, false);
    assert_eq!(entry.uuid, "uuid-1");
    assert_eq!(entry.status, "pending");
    assert_eq!(entry.duration, "2m05s");
    assert!(entry.method.is_none());
    assert!(entry.words.is_none());
}

#[test]
fn build_list_entry_processed_tsrp() {
    let pe = ProcessedEntry {
        date: "2024-01-15 10:30".to_string(),
        title: "My Memo".to_string(),
        method: "tsrp".to_string(),
        words: 42,
        output: Some("2024-01-15-my-memo.md".to_string()),
    };
    let entry = build_list_entry("uuid-1", "2024-01-15 10:30", 125.0f64 as u64, "My Memo", Some(&pe), None, false);
    assert_eq!(entry.status, "done");
    assert_eq!(entry.method, Some("tsrp".to_string()));
    assert_eq!(entry.words, Some(42));
    assert_eq!(entry.file, Some("2024-01-15-my-memo.md".to_string()));
}

#[test]
fn build_list_entry_no_transcript() {
    let pe = ProcessedEntry {
        date: "2024-01-15 10:30".to_string(),
        title: "My Memo".to_string(),
        method: "no-transcript".to_string(),
        words: 0,
        output: None,
    };
    let entry = build_list_entry("uuid-1", "2024-01-15 10:30", 125.0f64 as u64, "My Memo", Some(&pe), None, false);
    assert_eq!(entry.status, "needs-whisply");
}

#[test]
fn build_list_entry_failed_is_pending() {
    let pe = ProcessedEntry {
        date: "d".to_string(),
        title: "t".to_string(),
        method: "failed".to_string(),
        words: 0,
        output: None,
    };
    let entry = build_list_entry("u", "d", 3661, "t", Some(&pe), None, false);
    assert_eq!(entry.status, "pending");
    assert_eq!(entry.duration, "1h01m01s");
    assert!(entry.file.is_none());
}

// --- format_list_human ---

fn pending_entry(title: &str) -> ListEntry {
    ListEntry {
        uuid: "uuid-1".to_string(),
        date: "2024-01-15 10:30".to_string(),
        duration: "2m05s".to_string(),
        title: title.to_string(),
        status: "pending".to_string(),
        method: None,
        words: None,
        file: None,
        folder: None,
        evicted: false,
    }
}

#[test]
fn format_list_human_contains_header() {
    let entries = vec![pending_entry("My Memo")];
    let output = format_list_human(&entries);
    assert!(output.contains("Date"));
    assert!(output.contains("My Memo"));
}

#[test]
fn format_list_human_exact_rows() {
    let done = ListEntry {
        uuid: "u2".to_string(),
        date: "2024-01-16 11:00".to_string(),
        duration: "1h01m01s".to_string(),
        title: "x".repeat(50),
        status: "done".to_string(),
        method: Some("tsrp".to_string()),
        words: Some(42),
        file: Some("f.md".to_string()),
        folder: None,
        evicted: false,
    };
    let output = format_list_human(&[pending_entry("My Memo"), done]);
    let lines: Vec<&str> = output.lines().collect();
    assert_eq!(lines.len(), 4);
    assert_eq!(lines[0], format!("{:<20} {:>8}   {:<16} {:>5}   Title", "Date", "Duration", "Status", "Words"));
    assert_eq!(lines[1], "\u{2500}".repeat(80));
    assert_eq!(lines[2], format!("{:<20} {:>8}   {:<16} {:>5}   {}", "2024-01-15 10:30", "2m05s", "\u{25CB} pending", "\u{2014}", "My Memo"));
    assert_eq!(lines[3], format!("{:<20} {:>8}   {:<16} {:>5}   {}", "2024-01-16 11:00", "1h01m01s", "\u{2713} tsrp", "42", "x".repeat(35)));
}

#[test]
fn build_list_entry_carries_folder_and_eviction() {
    let entry = build_list_entry("u", "d", 60, "t", None, Some("Work"), true);
    assert_eq!(entry.folder, Some("Work".to_string()));
    assert!(entry.evicted);
    assert_eq!(entry.status, "pending");
}

#[test]
fn format_list_human_shows_folder_and_icloud_only() {
    let mut in_folder = pending_entry("My Memo");
    in_folder.folder = Some("Work".to_string());
    let mut evicted = pending_entry("Gone");
    evicted.evicted = true;
    let output = format_list_human(&[in_folder, evicted]);
    let lines: Vec<&str> = output.lines().collect();
    assert_eq!(lines[2], format!("{:<20} {:>8}   {:<16} {:>5}   {}", "2024-01-15 10:30", "2m05s", "\u{25CB} pending", "\u{2014}", "My Memo [Work]"));
    assert_eq!(lines[3], format!("{:<20} {:>8}   {:<16} {:>5}   {}", "2024-01-15 10:30", "2m05s", "\u{2601} iCloud-only", "\u{2014}", "Gone"));
}

#[test]
fn format_show_human_shows_folder() {
    let mut e = show_entry("Hi".to_string());
    e.folder = Some("Work".to_string());
    let rule = "=".repeat(70);
    assert_eq!(format_show_human(&[e]), format!("\n{rule}\nMy Memo [Work]  (2024-01-15 10:30, 2m05s, 1000 words)\n{rule}\nHi\n"));
}

#[test]
fn format_dry_run_human_shows_folder_and_icloud_only() {
    let result = DryRunResult {
        total: 1,
        recordings: vec![DryRunEntry {
            uuid: "uuid-1".to_string(),
            title: "Away".to_string(),
            date: "2024-01-15 10:30".to_string(),
            duration: "1m00s".to_string(),
            has_tsrp: false,
            folder: Some("Trips".to_string()),
            evicted: true,
        }],
    };
    assert_eq!(
        format_dry_run_human(&result),
        "Dry run: 1 recording(s) would be processed\n\n  2024-01-15 10:30 Away [Trips] (1m00s, iCloud-only)\n"
    );
}

// --- format_show_human ---

fn show_entry(transcript: String) -> ShowEntry {
    ShowEntry {
        uuid: "uuid-1".to_string(),
        date: "2024-01-15 10:30".to_string(),
        duration: "2m05s".to_string(),
        title: "My Memo".to_string(),
        words: 1000,
        file: "test.md".to_string(),
        transcript,
        folder: None,
    }
}

#[test]
fn format_show_human_truncates_long_transcripts() {
    let long_text = "word ".repeat(1000);
    let entries = vec![show_entry(long_text)];
    let output = format_show_human(&entries);
    assert!(output.contains("truncated"));
}

#[test]
fn format_show_human_exact_layout() {
    let rule = "=".repeat(70);
    let short = format_show_human(&[show_entry("Hello world".to_string())]);
    assert_eq!(short, format!("\n{rule}\nMy Memo  (2024-01-15 10:30, 2m05s, 1000 words)\n{rule}\nHello world\n"));
    let long = format_show_human(&[show_entry("ab".repeat(2000))]);
    assert!(long.ends_with(&format!("{}\n\n... [1000 chars truncated, see test.md]\n", "ab".repeat(1500))));
    assert_eq!(format_show_human(&[]), "No transcripts available. Run `voice-memos extract` first.\n");
}

// --- extract / dry run ---

#[test]
fn format_extract_human_summary() {
    let result = ExtractResult { extracted: 2, skipped: 1, evicted: 0, needs_whisply: 3, files: vec![] };
    let output = format_extract_human(&result);
    assert!(output.contains("2 extracted"));
    assert!(output.contains("1 skipped"));
    assert!(output.contains("3 need --all"));
    assert_eq!(output, "Done: 2 extracted, 1 skipped, 3 need --all for whisply");
}

#[test]
fn format_dry_run_human_shows_count() {
    let result = DryRunResult {
        total: 1,
        recordings: vec![DryRunEntry {
            uuid: "uuid-1".to_string(),
            title: "Test Memo".to_string(),
            date: "2024-01-15 10:30".to_string(),
            duration: "1m00s".to_string(),
            has_tsrp: true,
            folder: None,
            evicted: false,
        }],
    };
    let output = format_dry_run_human(&result);
    assert!(output.contains("1 recording(s) would be processed"));
    assert!(output.contains("Test Memo"));
    assert!(output.contains("tsrp available"));
    assert_eq!(output, "Dry run: 1 recording(s) would be processed\n\n  2024-01-15 10:30 Test Memo (1m00s, tsrp available)\n");
}

#[test]
fn format_dry_run_human_shows_needs_whisply() {
    let result = DryRunResult {
        total: 1,
        recordings: vec![DryRunEntry {
            uuid: "uuid-1".to_string(),
            title: "No Tsrp".to_string(),
            date: "2024-01-15 10:30".to_string(),
            duration: "3m00s".to_string(),
            has_tsrp: false,
            folder: None,
            evicted: false,
        }],
    };
    let output = format_dry_run_human(&result);
    assert!(output.contains("needs whisply"));
}

// --- filter_json_fields ---

#[test]
fn filter_json_fields_array() {
    let json = r#"[{"uuid":"1","title":"A","date":"2024-01-15","words":42}]"#;
    let filtered = filter_json_fields(json, &["title".to_string(), "words".to_string()]);
    let parsed: serde_json::Value = serde_json::from_str(&filtered).unwrap();
    assert_eq!(parsed[0]["title"], "A");
    assert_eq!(parsed[0]["words"], 42);
    assert!(parsed[0].get("uuid").is_none());
    assert!(parsed[0].get("date").is_none());
}

#[test]
fn filter_json_fields_object() {
    let json = r#"{"extracted":2,"skipped":1,"files":[]}"#;
    let filtered = filter_json_fields(json, &["extracted".to_string()]);
    let parsed: serde_json::Value = serde_json::from_str(&filtered).unwrap();
    assert_eq!(parsed["extracted"], 2);
    assert!(parsed.get("skipped").is_none());
}

#[test]
fn filter_json_fields_empty_fields_returns_all() {
    let json = r#"{"a":1,"b":2}"#;
    let filtered = filter_json_fields(json, &[]);
    let parsed: serde_json::Value = serde_json::from_str(&filtered).unwrap();
    assert_eq!(parsed["a"], 1);
    assert_eq!(parsed["b"], 2);
}

#[test]
fn filter_json_fields_keeps_non_objects_and_pretty_prints() {
    let json = r#"[1,{"a":1,"b":2},"x"]"#;
    let filtered = filter_json_fields(json, &["b".to_string(), "zz".to_string()]);
    assert_eq!(filtered, "[\n  1,\n  {\n    \"b\": 2\n  },\n  \"x\"\n]");
    assert_eq!(filter_json_fields("5", &["a".to_string()]), "5");
    assert_eq!(filter_json_fields("not json", &[]), "not json");
}

#[test]
fn try_filter_json_fields_reports_invalid_json() {
    assert!(try_filter_json_fields("not json", &["a".to_string()]).is_none());
    assert_eq!(try_filter_json_fields("{\"a\":1}", &["a".to_string()]).unwrap(), "{\n  \"a\": 1\n}");
}

// --- NDJSON ---

#[test]
fn ndjson_lines_one_per_line() {
    let out = ndjson_lines(&vec!["{\"a\":1}".to_string(), "{\"b\":2}".to_string()]);
    assert_eq!(out, "{\"a\":1}\n{\"b\":2}\n");
    assert_eq!(ndjson_lines(&vec![]), "\n");
}
