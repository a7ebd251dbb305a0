use voice_memos::memos::{
    after_embedded, after_file_check, after_whisply, after_write, build_dry_run, clean_output, first_step,
    list_entries, record_outcome, recording_title, resolve_output_mode, select_pending, show_entries,
    transcript_body, transcript_document, transcript_file, transcript_file_name, transcript_file_stem,
    ExtractRun, Method, Outcome, OutputMode, RecordingInfo, Step,
};
use voice_memos::output::ExtractResult;
use voice_memos::state::{ProcessedEntry, State};

fn rec(uuid: &str, title: &str, folder: Option<&str>, evicted: bool) -> RecordingInfo {
    RecordingInfo {
        uuid: uuid.to_string(),
        title: title.to_string(),
        path: format!("{uuid}.m4a"),
        duration_secs: 125,
        date_time: "2024-01-15 10:30".to_string(),
        day: "2024-01-15".to_string(),
        folder: folder.map(|f| f.to_string()),
        evicted,
    }
}

fn entry(method: &str, output: Option<&str>) -> ProcessedEntry {
    ProcessedEntry {
        date: "2024-01-15 10:30".to_string(),
        title: "t".to_string(),
        method: method.to_string(),
        words: 7,
        output: output.map(|o| o.to_string()),
    }
}

fn empty_run() -> ExtractRun {
    ExtractRun {
        state: State::new(),
        result: ExtractResult { extracted: 0, skipped: 0, evicted: 0, needs_whisply: 0, files: vec![] },
    }
}

#[test]
fn title_falls_back_to_label_then_untitled() {
    assert_eq!(recording_title(Some("Walk".to_string()), Some("Home".to_string())), "Walk");
    assert_eq!(recording_title(Some(String::new()), Some("Home".to_string())), "Home");
    assert_eq!(recording_title(None, Some(String::new())), "");
    assert_eq!(recording_title(None, None), "Untitled");
}

#[test]
fn select_pending_skips_processed_unless_forced() {
    let recs = vec![rec("a", "A", Some("Work"), false), rec("b", "B", None, false), rec("c", "C", Some("Work"), true)];
    let mut state = State::new();
    state.processed.insert("a".to_string(), entry("tsrp", Some("a.md")));
    assert_eq!(select_pending(&recs, &state, false, None), vec![1, 2]);
    assert_eq!(select_pending(&recs, &state, true, None), vec![0, 1, 2]);
    assert_eq!(select_pending(&recs, &state, true, Some("Work")), vec![0, 2]);
    assert_eq!(select_pending(&recs, &state, false, Some("Home")), Vec::<usize>::new());
}

#[test]
fn extraction_steps_follow_the_fallback_rules() {
    assert!(matches!(first_step(&rec("a", "A", None, true)), Step::Finish(Outcome::Evicted)));
    assert!(matches!(first_step(&rec("a", "A", None, false)), Step::CheckFile));
    assert!(matches!(after_file_check(false), Step::Finish(Outcome::FileMissing)));
    assert!(matches!(after_file_check(true), Step::ReadEmbedded));
    assert!(matches!(after_embedded(None, false), Step::Finish(Outcome::NoTranscript)));
    assert!(matches!(after_embedded(None, true), Step::RunWhisply));
    match after_embedded(Some("hi".to_string()), false) {
        Step::Write { text, method } => {
            assert_eq!(text, "hi");
            assert!(method == Method::Tsrp);
        }
        _ => panic!("expected a write"),
    }
    assert!(matches!(after_whisply(None), Step::Finish(Outcome::Failed)));
    assert!(matches!(after_whisply(Some("x".to_string())), Step::Write { method: Method::Whisply, .. }));
    match after_write("one two  three", Method::Whisply, "f.md".to_string()) {
        Outcome::Extracted { method, words, file } => {
            assert!(method == Method::Whisply);
            assert_eq!(words, 3);
            assert_eq!(file, "f.md");
        }
        _ => panic!("expected extracted"),
    }
}

#[test]
fn record_outcome_counts_and_records() {
    let mut run = empty_run();
    let r = rec("u1", "A very long title that goes on and on and on", None, false);
    assert_eq!(
        record_outcome(&mut run, &r, Outcome::Extracted { method: Method::Tsrp, words: 12, file: "x.md".to_string() }).unwrap(),
        "  tsrp A very long title that goes on and on an \u{2014} 12 words \u{2192} x.md"
    );
    assert_eq!(record_outcome(&mut run, &rec("u2", "B", None, false), Outcome::NoTranscript), None);
    assert_eq!(
        record_outcome(&mut run, &rec("u3", "C", None, false), Outcome::Failed).unwrap(),
        "  SKIP C \u{2014} no transcript available"
    );
    assert_eq!(
        record_outcome(&mut run, &rec("u4", "D", None, false), Outcome::FileMissing).unwrap(),
        "  SKIP D \u{2014} file not found"
    );
    assert_eq!(
        record_outcome(&mut run, &rec("u5", "E", None, true), Outcome::Evicted).unwrap(),
        "  SKIP E \u{2014} iCloud-only (evicted)"
    );
    assert_eq!(run.result.extracted, 1);
    assert_eq!(run.result.needs_whisply, 1);
    assert_eq!(run.result.skipped, 2);
    assert_eq!(run.result.evicted, 1);
    assert_eq!(run.result.files.len(), 1);
    assert_eq!(run.result.files[0].words, 12);
    assert_eq!(run.result.files[0].folder, None);
    assert_eq!(run.state.processed.len(), 3);
    assert_eq!(run.state.processed.get("u1").unwrap().output, Some("x.md".to_string()));
    assert_eq!(run.state.processed.get("u2").unwrap().method, "no-transcript");
    assert_eq!(run.state.processed.get("u3").unwrap().method, "failed");
    assert!(!run.state.processed.contains_key("u4"));
    assert!(!run.state.processed.contains_key("u5"));
    // Handled recordings are not taken again without --force.
    let recs = vec![rec("u1", "A", None, false), rec("u4", "D", None, false), rec("u5", "E", None, true)];
    assert_eq!(select_pending(&recs, &run.state, false, None), vec![1, 2]);
}

#[test]
fn list_entries_follow_folder_and_state() {
    let recs = vec![rec("a", "A", Some("Work"), false), rec("b", "B", None, false)];
    let mut state = State::new();
    state.processed.insert("a".to_string(), entry("whisply", Some("a.md")));
    let all = list_entries(&recs, &state, None);
    assert_eq!(all.len(), 2);
    assert_eq!(all[0].status, "done");
    assert_eq!(all[0].method, Some("whisply".to_string()));
    assert_eq!(all[1].status, "pending");
    let work = list_entries(&recs, &state, Some("Work"));
    assert_eq!(work.len(), 1);
    assert_eq!(work[0].uuid, "a");
    assert_eq!(work[0].folder, Some("Work".to_string()));
    assert!(!work[0].evicted);
}

#[test]
fn dry_run_lists_evicted_and_readable_recordings() {
    let recs = vec![rec("a", "A", None, true), rec("b", "B", None, false), rec("c", "C", None, false)];
    let result = build_dry_run(&recs, &vec![0, 1, 2], &vec![None, None, Some(true)]);
    assert_eq!(result.total, 2);
    assert_eq!(result.recordings[0].uuid, "a");
    assert!(!result.recordings[0].has_tsrp);
    assert!(result.recordings[0].evicted);
    assert_eq!(result.recordings[1].uuid, "c");
    assert!(!result.recordings[1].evicted);
    assert!(result.recordings[1].has_tsrp);
    assert_eq!(result.recordings[1].duration, "2m05s");
}

#[test]
fn transcript_file_round_trip() {
    let r = rec("a", "My Voice Memo!", None, false);
    let stem = transcript_file_stem(&r);
    assert_eq!(stem, "2024-01-15-my-voice-memo");
    assert_eq!(transcript_file_name(&stem, 1), "2024-01-15-my-voice-memo.md");
    assert_eq!(transcript_file_name(&stem, 2), "2024-01-15-my-voice-memo-2.md");
    assert_eq!(transcript_file_stem(&rec("b", "!!!", None, false)), "2024-01-15-untitled");
    let doc = transcript_document(&r, "Hello there world", Method::Tsrp);
    assert_eq!(
        doc,
        "---\ndate: 2024-01-15 10:30\nduration: 2m05s\nlocation: My Voice Memo!\nsource: tsrp\nwords: 3\nfile: a.m4a\n---\n\nHello there world\n"
    );
    assert_eq!(transcript_body(&doc), "Hello there world");
    assert_eq!(transcript_body("no front matter"), "no front matter");
    assert_eq!(transcript_body("---\nunclosed"), "---\nunclosed");
}

#[test]
fn show_entries_take_the_first_readable() {
    let recs = vec![rec("a", "A", None, false), rec("b", "B", None, false), rec("c", "C", None, false)];
    let mut state = State::new();
    state.processed.insert("a".to_string(), entry("tsrp", Some("a.md")));
    state.processed.insert("b".to_string(), entry("no-transcript", None));
    state.processed.insert("c".to_string(), entry("tsrp", Some("c.md")));
    assert_eq!(transcript_file(&state, &recs[0]), Some("a.md".to_string()));
    assert_eq!(transcript_file(&state, &recs[1]), None);
    let texts = vec![Some("---\nx: y\n---\n\n one two \n".to_string()), None, Some("plain".to_string())];
    let shown = show_entries(&recs, &state, &texts, 5);
    assert_eq!(shown.len(), 2);
    assert_eq!(shown[0].transcript, "one two");
    assert_eq!(shown[0].words, 2);
    assert_eq!(shown[0].file, "a.md");
    assert_eq!(shown[1].transcript, "plain");
    assert_eq!(show_entries(&recs, &state, &texts, 1).len(), 1);
    assert_eq!(show_entries(&recs, &state, &texts, 0).len(), 0);
}

#[test]
fn output_mode_precedence() {
    assert!(resolve_output_mode(Some(OutputMode::Json), Some("ndjson"), false) == OutputMode::Json);
    assert!(resolve_output_mode(None, Some("NDJSON"), true) == OutputMode::Ndjson);
    assert!(resolve_output_mode(None, Some("Json"), true) == OutputMode::Json);
    assert!(resolve_output_mode(None, Some("yaml"), false) == OutputMode::Human);
    assert!(resolve_output_mode(None, None, false) == OutputMode::Ndjson);
    assert!(resolve_output_mode(None, None, true) == OutputMode::Human);
}

#[test]
fn clean_output_trims_and_drops_blank() {
    assert_eq!(clean_output("  token\n"), Some("token".to_string()));
    assert_eq!(clean_output(" \n\t "), None);
}
