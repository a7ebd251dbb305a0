//! The decisions of the commands: which recordings to handle, what each extraction
//! step leads to, and what is recorded and reported for each recording.
use vstd::prelude::*;
use crate::format::{duration_text, format_duration, lowercase_text, slug_of, slugify, to_lowercase};
use crate::output::{
    build_list_entry, list_entry_matches, opt_str, opt_text, prefix_chars, DryRunEntry, DryRunResult, ExtractResult, ExtractedFile,
    ListEntry, ShowEntry,
};
use crate::state::{ProcessedEntry, State};
use crate::text::{
    chars_of, contains_text, count_words, decimal, digit_char, find_from, occurs_at, push_chars, push_decimal, push_str, same_text,
    string_of, trim, trim_chars, word_count, all_whitespace, lemma_trim_keeps_words, lemma_trim_surrounded,
};

verus! {

broadcast use vstd::string::group_string_axioms;

/// A recording as read from the Voice Memos database, with its date already
/// rendered in local time.
pub struct RecordingInfo {
    pub uuid: String,
    pub title: String,
    /// The file name of the audio, relative to the recordings directory.
    pub path: String,
    /// The length of the recording in whole seconds.
    pub duration_secs: u64,
    /// The recording date as `YYYY-MM-DD HH:MM`.
    pub date_time: String,
    /// The recording date as `YYYY-MM-DD`.
    pub day: String,
    pub folder: Option<String>,
    /// The audio lives only in iCloud.
    pub evicted: bool,
}

/// The title shown for a recording: its own title unless that is missing or empty,
/// else its custom label, else `Untitled`.
pub open spec fn title_of(title: Option<Seq<char>>, custom_label: Option<Seq<char>>) -> Seq<char> {
    if title matches Some(t) && t.len() > 0 {
        title->0
    } else {
        match custom_label {
            Some(l) => l,
            None => "Untitled"@,
        }
    }
}

/// Picks the title shown for a recording from its database columns.
pub fn recording_title(title: Option<String>, custom_label: Option<String>) -> (r: String)
    ensures
        r@ == title_of(opt_text(title), opt_text(custom_label)),
{
    match title {
        Some(t) => if !t.as_str().is_empty() {
            return t;
        },
        None => {},
    }
    match custom_label {
        Some(l) => l,
        None => "Untitled".to_string(),
    }
}

/// The recording is in `folder`, or no folder was asked for.
pub open spec fn in_folder(rec: RecordingInfo, folder: Option<Seq<char>>) -> bool {
    match folder {
        None => true,
        Some(f) => opt_text(rec.folder) == Some(f),
    }
}

fn in_folder_exec(rec: &RecordingInfo, folder: Option<&str>) -> (r: bool)
    ensures
        r == in_folder(*rec, opt_str(folder)),
{
    match folder {
        None => true,
        Some(f) => match &rec.folder {
            Some(g) => same_text(g.as_str(), f),
            None => false,
        },
    }
}

/// An extraction takes a recording in the folder asked for that has no processing
/// record yet, or any such recording when forced.
pub open spec fn is_pending(rec: RecordingInfo, processed: Map<Seq<char>, ProcessedEntry>, force: bool, folder: Option<Seq<char>>) -> bool {
    in_folder(rec, folder) && (force || !processed.contains_key(rec.uuid@))
}

/// The positions in `recs` of the recordings an extraction takes, in order.
pub open spec fn pending_positions(
    recs: Seq<RecordingInfo>,
    processed: Map<Seq<char>, ProcessedEntry>,
    force: bool,
    folder: Option<Seq<char>>,
) -> Seq<usize>
    decreases recs.len(),
{
    if recs.len() == 0 {
        seq![]
    } else {
        let before = pending_positions(recs.drop_last(), processed, force, folder);
        if is_pending(recs.last(), processed, force, folder) {
            before.push((recs.len() - 1) as usize)
        } else {
            before
        }
    }
}

/// The positions in `recs` of the recordings an extraction takes.
pub fn select_pending(recs: &Vec<RecordingInfo>, state: &State, force: bool, folder: Option<&str>) -> (r: Vec<usize>)
    ensures
        r@ == pending_positions(recs@, state.processed@, force, opt_str(folder)),
{
    let mut r: Vec<usize> = Vec::new();
    for i in 0..recs.len()
        invariant
            r@ == pending_positions(recs@.take(i as int), state.processed@, force, opt_str(folder)),
    {
        let rec = &recs[i];
        assert(recs@.take(i + 1).drop_last() == recs@.take(i as int));
        assert(recs@.take(i + 1).last() == recs@[i as int]);
        if in_folder_exec(rec, folder) && (force || !state.processed.contains_key(rec.uuid.as_str())) {
            r.push(i);
        }
    }
    assert(recs@.take(recs.len() as int) == recs@);
    r
}

/// An extraction takes exactly the recordings whose folder is the one asked for
/// (by name, character for character; any recording when no folder is asked for) and
/// that have no processing record, or all such recordings when forced. Their positions
/// come in increasing order, each once. (The recordings are held in memory, so there
/// are no more of them than a `usize` counts.)
pub proof fn lemma_pending_positions_exact(
    recs: Seq<RecordingInfo>,
    processed: Map<Seq<char>, ProcessedEntry>,
    force: bool,
    folder: Option<Seq<char>>,
)
    requires
        recs.len() <= usize::MAX,
    ensures
        ({
            let ps = pending_positions(recs, processed, force, folder);
            &&& forall|j: int| 0 <= j < ps.len() ==> {
                let k = #[trigger] ps[j] as int;
                &&& 0 <= k < recs.len()
                &&& (folder matches Some(f) ==> recs[k].folder matches Some(g) && g@ == f)
                &&& (force || !processed.contains_key(recs[k].uuid@))
            }
            &&& forall|k: int| 0 <= k < recs.len()
                && (folder matches Some(f) ==> recs[k].folder matches Some(g) && g@ == f)
                && (force || !processed.contains_key(recs[k].uuid@))
                ==> exists|j: int| 0 <= j < ps.len() && #[trigger] ps[j] as int == k
            &&& forall|i: int, j: int| 0 <= i < j < ps.len() ==> ps[i] < ps[j]
        }),
    decreases recs.len(),
{
    let ps = pending_positions(recs, processed, force, folder);
    if recs.len() > 0 {
        let n = recs.len() - 1;
        let front = recs.drop_last();
        lemma_pending_positions_exact(front, processed, force, folder);
        let before = pending_positions(front, processed, force, folder);
        assert forall|k: int| 0 <= k < n implies front[k] == recs[k] by {}
        assert forall|j: int| 0 <= j < before.len() implies (before[j] as int) < n by {}
        let wanted = (folder matches Some(f) ==> recs[n].folder matches Some(g) && g@ == f)
            && (force || !processed.contains_key(recs[n].uuid@));
        assert(is_pending(recs[n], processed, force, folder) == wanted);
        assert(recs.last() == recs[n]);
        if wanted {
            assert(ps == before.push(n as usize));
        } else {
            assert(ps == before);
        }
        assert forall|j: int| 0 <= j < ps.len() implies {
            let k = #[trigger] ps[j] as int;
            &&& 0 <= k < recs.len()
            &&& (folder matches Some(f) ==> recs[k].folder matches Some(g) && g@ == f)
            &&& (force || !processed.contains_key(recs[k].uuid@))
        } by {
            if j < before.len() {
                assert(ps[j] == before[j]);
                assert(front[before[j] as int] == recs[before[j] as int]);
            }
        }
        assert forall|k: int| 0 <= k < recs.len()
            && (folder matches Some(f) ==> recs[k].folder matches Some(g) && g@ == f)
            && (force || !processed.contains_key(recs[k].uuid@))
            implies exists|j: int| 0 <= j < ps.len() && #[trigger] ps[j] as int == k by {
            if k < n {
                assert(front[k] == recs[k]);
                let j = choose|j: int| 0 <= j < before.len() && #[trigger] before[j] as int == k;
                assert(ps[j] == before[j]);
            } else {
                assert(wanted);
                assert(ps[before.len() as int] as int == n);
            }
        }
    }
}

/// The recordings in `folder` (all of them when none is asked for), in order.
pub open spec fn in_folder_seq(recs: Seq<RecordingInfo>, folder: Option<Seq<char>>) -> Seq<RecordingInfo>
    decreases recs.len(),
{
    if recs.len() == 0 {
        seq![]
    } else {
        let before = in_folder_seq(recs.drop_last(), folder);
        if in_folder(recs.last(), folder) { before.push(recs.last()) } else { before }
    }
}

/// `list` with a folder asked for shows exactly the recordings whose folder has that
/// name, character for character (every recording when no folder is asked for): each
/// such recording is listed, and each listed recording is one of them.
pub proof fn lemma_in_folder_seq_exact(recs: Seq<RecordingInfo>, folder: Option<Seq<char>>)
    ensures
        forall|j: int| 0 <= j < in_folder_seq(recs, folder).len() ==>
            (folder matches Some(f) ==> #[trigger] in_folder_seq(recs, folder)[j].folder matches Some(g) && g@ == f)
            && exists|k: int| 0 <= k < recs.len() && recs[k] == in_folder_seq(recs, folder)[j],
        forall|k: int| #![trigger recs[k]] 0 <= k < recs.len() && (folder matches Some(f) ==> recs[k].folder matches Some(g) && g@ == f)
            ==> exists|j: int| 0 <= j < in_folder_seq(recs, folder).len() && #[trigger] in_folder_seq(recs, folder)[j] == recs[k],
    decreases recs.len(),
{
    let out = in_folder_seq(recs, folder);
    if recs.len() > 0 {
        let n = recs.len() - 1;
        let front = recs.drop_last();
        lemma_in_folder_seq_exact(front, folder);
        let before = in_folder_seq(front, folder);
        let wanted = folder matches Some(f) ==> recs[n].folder matches Some(g) && g@ == f;
        assert(in_folder(recs[n], folder) == wanted);
        assert(recs.last() == recs[n]);
        if wanted {
            assert(out == before.push(recs[n]));
        } else {
            assert(out == before);
        }
        assert forall|j: int| 0 <= j < out.len() implies
            (folder matches Some(f) ==> #[trigger] out[j].folder matches Some(g) && g@ == f)
            && exists|k: int| 0 <= k < recs.len() && recs[k] == out[j] by {
            if j < before.len() {
                assert(out[j] == before[j]);
                let k = choose|k: int| 0 <= k < front.len() && front[k] == before[j];
                assert(recs[k] == front[k]);
            } else {
                assert(out[j] == recs[n]);
            }
        }
        assert forall|k: int| #![trigger recs[k]] 0 <= k < recs.len() && (folder matches Some(f) ==> recs[k].folder matches Some(g) && g@ == f)
            implies exists|j: int| 0 <= j < out.len() && #[trigger] out[j] == recs[k] by {
            if k < n {
                assert(front[k] == recs[k]);
                let j = choose|j: int| 0 <= j < before.len() && #[trigger] before[j] == front[k];
                assert(out[j] == before[j]);
            } else {
                assert(out[before.len() as int] == recs[k]);
            }
        }
    }
}

/// The processing record of `rec`, if it has one.
pub open spec fn record_of(processed: Map<Seq<char>, ProcessedEntry>, rec: RecordingInfo) -> Option<ProcessedEntry> {
    if processed.contains_key(rec.uuid@) { Some(processed[rec.uuid@]) } else { None }
}

/// `e` is the list entry of `rec` given the processing record `processed`.
pub open spec fn lists(e: ListEntry, rec: RecordingInfo, processed: Map<Seq<char>, ProcessedEntry>) -> bool {
    list_entry_matches(e, rec.uuid@, rec.date_time@, rec.duration_secs as nat, rec.title@, record_of(processed, rec),
        opt_text(rec.folder), rec.evicted)
}

/// The `list` entries: one for each recording in the folder asked for, in order,
/// with its status taken from the processing record.
pub fn list_entries(recs: &Vec<RecordingInfo>, state: &State, folder: Option<&str>) -> (r: Vec<ListEntry>)
    ensures
        r@.len() == in_folder_seq(recs@, opt_str(folder)).len(),
        forall|k: int| 0 <= k < r@.len() ==> lists(r@[k], in_folder_seq(recs@, opt_str(folder))[k], state.processed@),
{
    let ghost f = opt_str(folder);
    let ghost m = state.processed@;
    let mut r: Vec<ListEntry> = Vec::new();
    for i in 0..recs.len()
        invariant
            f == opt_str(folder),
            m == state.processed@,
            r@.len() == in_folder_seq(recs@.take(i as int), f).len(),
            forall|k: int| 0 <= k < r@.len() ==> lists(r@[k], in_folder_seq(recs@.take(i as int), f)[k], m),
    {
        let rec = &recs[i];
        let ghost prev = in_folder_seq(recs@.take(i as int), f);
        let ghost before = r@;
        assert(recs@.take(i + 1).drop_last() == recs@.take(i as int));
        assert(recs@.take(i + 1).last() == recs@[i as int]);
        if in_folder_exec(rec, folder) {
            let got = state.processed.get(rec.uuid.as_str());
            assert(match got { Some(x) => Some(*x), None => None } == record_of(m, *rec));
            let e = build_list_entry(
                rec.uuid.as_str(),
                rec.date_time.as_str(),
                rec.duration_secs,
                rec.title.as_str(),
                got,
                match &rec.folder {
                    Some(f) => Some(f.as_str()),
                    None => None,
                },
                rec.evicted,
            );
            assert(lists(e, *rec, m));
            r.push(e);
            let ghost next = in_folder_seq(recs@.take(i + 1), f);
            assert(next == prev.push(recs@[i as int]));
            assert forall|k: int| 0 <= k < r@.len() implies lists(r@[k], next[k], m) by {
                if k < prev.len() {
                    assert(next[k] == prev[k]);
                    assert(r@[k] == before[k]);
                }
            }
        } else {
            assert(in_folder_seq(recs@.take(i + 1), f) == prev);
        }
    }
    assert(recs@.take(recs.len() as int) == recs@);
    r
}

/// How a transcript was obtained.
#[derive(Clone, Copy, PartialEq, Eq, Structural)]
pub enum Method {
    /// Read from the `tsrp` atom embedded in the recording.
    Tsrp,
    /// Produced by running `whisply` on the audio.
    Whisply,
}

/// The name of a method as it is recorded and shown.
pub open spec fn method_text(m: Method) -> Seq<char> {
    match m {
        Method::Tsrp => "tsrp"@,
        Method::Whisply => "whisply"@,
    }
}

impl Method {
    /// The name of the method as it is recorded and shown.
    pub fn name(&self) -> (r: &'static str)
        ensures
            r@ == method_text(*self),
    {
        match self {
            Method::Tsrp => "tsrp",
            Method::Whisply => "whisply",
        }
    }
}

/// How the extraction of one recording ended.
pub enum Outcome {
    /// The audio lives only in iCloud.
    Evicted,
    /// The audio file is not there.
    FileMissing,
    /// No embedded transcript, and no fallback was asked for.
    NoTranscript,
    /// Neither the embedded transcript nor the fallback gave any text.
    Failed,
    /// A transcript of `words` words was written to `file`.
    Extracted { method: Method, words: usize, file: String },
}

/// What to do next for one recording.
pub enum Step {
    /// See whether the audio file exists.
    CheckFile,
    /// Read the embedded transcript from the audio file.
    ReadEmbedded,
    /// Transcribe the audio with `whisply`.
    RunWhisply,
    /// Write `text`, obtained by `method`, to a transcript file.
    Write { text: String, method: Method },
    /// Stop with this outcome.
    Finish(Outcome),
}

/// The first step for a recording: an iCloud-only recording is finished at once.
pub fn first_step(rec: &RecordingInfo) -> (r: Step)
    ensures
        rec.evicted ==> r matches Step::Finish(Outcome::Evicted),
        !rec.evicted ==> r matches Step::CheckFile,
{
    if rec.evicted { Step::Finish(Outcome::Evicted) } else { Step::CheckFile }
}

/// The step after looking for the audio file.
pub fn after_file_check(exists: bool) -> (r: Step)
    ensures
        exists ==> r matches Step::ReadEmbedded,
        !exists ==> r matches Step::Finish(Outcome::FileMissing),
{
    if exists { Step::ReadEmbedded } else { Step::Finish(Outcome::FileMissing) }
}

/// The step after reading the embedded transcript: write it when there is one; else
/// fall back to `whisply` when `all` asks for it, or finish without a transcript.
pub fn after_embedded(text: Option<String>, all: bool) -> (r: Step)
    ensures
        match text {
            Some(t) => r matches Step::Write { text: w, method: Method::Tsrp } && w@ == t@,
            None => if all { r matches Step::RunWhisply } else { r matches Step::Finish(Outcome::NoTranscript) },
        },
{
    match text {
        Some(t) => Step::Write { text: t, method: Method::Tsrp },
        None => if all { Step::RunWhisply } else { Step::Finish(Outcome::NoTranscript) },
    }
}

/// The step after running `whisply`: write its text, or finish as failed.
pub fn after_whisply(text: Option<String>) -> (r: Step)
    ensures
        match text {
            Some(t) => r matches Step::Write { text: w, method: Method::Whisply } && w@ == t@,
            None => r matches Step::Finish(Outcome::Failed),
        },
{
    match text {
        Some(t) => Step::Write { text: t, method: Method::Whisply },
        None => Step::Finish(Outcome::Failed),
    }
}

/// The outcome once `text`, obtained by `method`, was written to `file`.
pub fn after_write(text: &str, method: Method, file: String) -> (r: Outcome)
    ensures
        r matches Outcome::Extracted { method: m, words: n, file: f }
            && m == method && n == word_count(text@) && f@ == file@,
{
    let words = count_words(&chars_of(text));
    Outcome::Extracted { method, words, file }
}

/// An extraction in progress: the processing record and the tally.
pub struct ExtractRun {
    pub state: State,
    pub result: ExtractResult,
}

/// `e` records, by their text, the date, title, method, word count and file given.
pub open spec fn records(e: ProcessedEntry, date: Seq<char>, title: Seq<char>, method: Seq<char>, words: nat, output: Option<Seq<char>>) -> bool {
    &&& e.date@ == date
    &&& e.title@ == title
    &&& e.method@ == method
    &&& e.words == words
    &&& opt_text(e.output) == output
}

/// The report line `  SKIP <title> — <why>`, with the title cut to 40 characters.
pub open spec fn skip_line(title: Seq<char>, why: Seq<char>) -> Seq<char> {
    "  SKIP "@ + prefix_chars(title, 40) + " \u{2014} "@ + why
}

/// The report line for a transcript written: method, title, words and file.
pub open spec fn extracted_line(method: Seq<char>, title: Seq<char>, words: nat, file: Seq<char>) -> Seq<char> {
    "  "@ + method + " "@ + prefix_chars(title, 40) + " \u{2014} "@ + decimal(words) + " words \u{2192} "@ + file
}

/// The counters of a run hold room for one more.
pub open spec fn has_room(run: ExtractRun) -> bool {
    &&& run.result.extracted < usize::MAX
    &&& run.result.skipped < usize::MAX
    &&& run.result.needs_whisply < usize::MAX
    &&& run.result.evicted < usize::MAX
}

/// The sum of the counters of a run.
pub open spec fn counted(run: ExtractRun) -> int {
    run.result.extracted + run.result.skipped + run.result.needs_whisply + run.result.evicted
}

/// The processing record of `after` is that of `before` with `uuid` (re)recorded.
pub open spec fn records_only(before: Map<Seq<char>, ProcessedEntry>, after: Map<Seq<char>, ProcessedEntry>, uuid: Seq<char>) -> bool {
    after.contains_key(uuid) && after == before.insert(uuid, after[uuid])
}

fn cut_title(title: &str) -> (r: Vec<char>)
    ensures
        r@ == prefix_chars(title@, 40),
{
    let v = chars_of(title);
    let mut r: Vec<char> = Vec::new();
    let m = if v.len() > 40 { 40 } else { v.len() };
    for i in 0..m
        invariant
            v@ == title@,
            m <= v@.len(),
            r@ == v@.take(i as int),
    {
        r.push(v[i]);
        assert(v@.take(i + 1) == v@.take(i as int).push(v@[i as int]));
    }
    assert(v@.take(v@.len() as int) == v@);
    r
}

fn skip_text(title: &str, why: &str) -> (r: String)
    ensures
        r@ == skip_line(title@, why@),
{
    let mut out = String::new();
    push_str(&mut out, "  SKIP ");
    push_chars(&mut out, &cut_title(title));
    push_str(&mut out, " \u{2014} ");
    push_str(&mut out, why);
    out
}

/// Takes the outcome for `rec` into the run: counts it, records it in the processing
/// record unless the audio was not there to read, keeps the file written, and returns
/// the line that reports it in a terminal, if any.
pub fn record_outcome(run: &mut ExtractRun, rec: &RecordingInfo, outcome: Outcome) -> (line: Option<String>)
    requires
        has_room(*old(run)),
    ensures
        counted(*final(run)) == counted(*old(run)) + 1,
        match outcome {
            Outcome::Evicted => {
                &&& final(run).result.evicted == old(run).result.evicted + 1
                &&& final(run).result.extracted == old(run).result.extracted
                &&& final(run).result.skipped == old(run).result.skipped
                &&& final(run).result.needs_whisply == old(run).result.needs_whisply
                &&& final(run).result.files@ == old(run).result.files@
                &&& final(run).state.processed@ == old(run).state.processed@
                &&& line matches Some(l) && l@ == skip_line(rec.title@, "iCloud-only (evicted)"@)
            },
            Outcome::FileMissing => {
                &&& final(run).result.evicted == old(run).result.evicted
                &&& final(run).result.extracted == old(run).result.extracted
                &&& final(run).result.skipped == old(run).result.skipped + 1
                &&& final(run).result.needs_whisply == old(run).result.needs_whisply
                &&& final(run).result.files@ == old(run).result.files@
                &&& final(run).state.processed@ == old(run).state.processed@
                &&& line matches Some(l) && l@ == skip_line(rec.title@, "file not found"@)
            },
            Outcome::NoTranscript => {
                &&& final(run).result.evicted == old(run).result.evicted
                &&& final(run).result.extracted == old(run).result.extracted
                &&& final(run).result.skipped == old(run).result.skipped
                &&& final(run).result.needs_whisply == old(run).result.needs_whisply + 1
                &&& final(run).result.files@ == old(run).result.files@
                &&& records_only(old(run).state.processed@, final(run).state.processed@, rec.uuid@)
                &&& records(final(run).state.processed@[rec.uuid@], rec.date_time@, rec.title@, "no-transcript"@, 0, None)
                &&& line is None
            },
            Outcome::Failed => {
                &&& final(run).result.evicted == old(run).result.evicted
                &&& final(run).result.extracted == old(run).result.extracted
                &&& final(run).result.skipped == old(run).result.skipped + 1
                &&& final(run).result.needs_whisply == old(run).result.needs_whisply
                &&& final(run).result.files@ == old(run).result.files@
                &&& records_only(old(run).state.processed@, final(run).state.processed@, rec.uuid@)
                &&& records(final(run).state.processed@[rec.uuid@], rec.date_time@, rec.title@, "failed"@, 0, None)
                &&& line matches Some(l) && l@ == skip_line(rec.title@, "no transcript available"@)
            },
            Outcome::Extracted { method, words, file } => {
                &&& final(run).result.evicted == old(run).result.evicted
                &&& final(run).result.extracted == old(run).result.extracted + 1
                &&& final(run).result.skipped == old(run).result.skipped
                &&& final(run).result.needs_whisply == old(run).result.needs_whisply
                &&& final(run).result.files@.len() == old(run).result.files@.len() + 1
                &&& final(run).result.files@.drop_last() == old(run).result.files@
                &&& ({
                    let f = final(run).result.files@.last();
                    f.uuid@ == rec.uuid@ && f.title@ == rec.title@ && f.method@ == method_text(method)
                        && f.words == words && f.file@ == file@ && opt_text(f.folder) == opt_text(rec.folder)
                })
                &&& records_only(old(run).state.processed@, final(run).state.processed@, rec.uuid@)
                &&& records(final(run).state.processed@[rec.uuid@], rec.date_time@, rec.title@, method_text(method),
                    words as nat, Some(file@))
                &&& line matches Some(l) && l@ == extracted_line(method_text(method), rec.title@, words as nat, file@)
            },
        },
{
    match outcome {
        Outcome::Evicted => {
            run.result.evicted = run.result.evicted + 1;
            Some(skip_text(rec.title.as_str(), "iCloud-only (evicted)"))
        },
        Outcome::FileMissing => {
            run.result.skipped = run.result.skipped + 1;
            Some(skip_text(rec.title.as_str(), "file not found"))
        },
        Outcome::NoTranscript => {
            let entry = ProcessedEntry {
                date: rec.date_time.clone(),
                title: rec.title.clone(),
                method: "no-transcript".to_string(),
                words: 0,
                output: None,
            };
            run.state.processed.insert(rec.uuid.clone(), entry);
            run.result.needs_whisply = run.result.needs_whisply + 1;
            None
        },
        Outcome::Failed => {
            let entry = ProcessedEntry {
                date: rec.date_time.clone(),
                title: rec.title.clone(),
                method: "failed".to_string(),
                words: 0,
                output: None,
            };
            run.state.processed.insert(rec.uuid.clone(), entry);
            run.result.skipped = run.result.skipped + 1;
            Some(skip_text(rec.title.as_str(), "no transcript available"))
        },
        Outcome::Extracted { method, words, file } => {
            let mut l = String::new();
            push_str(&mut l, "  ");
            push_str(&mut l, method.name());
            push_str(&mut l, " ");
            push_chars(&mut l, &cut_title(rec.title.as_str()));
            push_str(&mut l, " \u{2014} ");
            push_decimal(&mut l, words as u64);
            push_str(&mut l, " words \u{2192} ");
            push_str(&mut l, file.as_str());
            run.result.files.push(ExtractedFile {
                uuid: rec.uuid.clone(),
                title: rec.title.clone(),
                method: method.name().to_string(),
                words,
                file: file.clone(),
                folder: rec.folder.clone(),
            });
            let entry = ProcessedEntry {
                date: rec.date_time.clone(),
                title: rec.title.clone(),
                method: method.name().to_string(),
                words,
                output: Some(file),
            };
            run.state.processed.insert(rec.uuid.clone(), entry);
            run.result.extracted = run.result.extracted + 1;
            Some(l)
        },
    }
}

/// Once an outcome is recorded for a recording (anything but an iCloud-only or a
/// missing file), a later extraction does not take it again unless forced.
pub proof fn lemma_recorded_not_pending(
    before: Map<Seq<char>, ProcessedEntry>,
    after: Map<Seq<char>, ProcessedEntry>,
    rec: RecordingInfo,
    folder: Option<Seq<char>>,
)
    requires
        records_only(before, after, rec.uuid@),
    ensures
        !is_pending(rec, after, false, folder),
{
}

/// An outcome recorded for one recording leaves the other recordings as they were:
/// one pending before is pending after.
pub proof fn lemma_others_stay_pending(
    before: Map<Seq<char>, ProcessedEntry>,
    after: Map<Seq<char>, ProcessedEntry>,
    rec: RecordingInfo,
    other: RecordingInfo,
    force: bool,
    folder: Option<Seq<char>>,
)
    requires
        records_only(before, after, rec.uuid@),
        other.uuid@ != rec.uuid@,
    ensures
        is_pending(other, after, force, folder) == is_pending(other, before, force, folder),
{
}

/// The dry-run entry `e` describes `rec`, with `has_tsrp` as given.
pub open spec fn describes(e: DryRunEntry, rec: RecordingInfo, has_tsrp: bool) -> bool {
    &&& e.uuid@ == rec.uuid@
    &&& e.title@ == rec.title@
    &&& e.date@ == rec.date_time@
    &&& e.duration@ == duration_text(rec.duration_secs as nat)
    &&& e.has_tsrp == has_tsrp
    &&& opt_text(e.folder) == opt_text(rec.folder)
    &&& e.evicted == rec.evicted
}

/// The recordings a dry run lists, each with whether it has an embedded transcript:
/// of the picked recordings, an iCloud-only one is listed without one, and another is
/// listed only when its file could be read (`probe` is then `Some`).
pub open spec fn dry_run_rows(picked: Seq<RecordingInfo>, probes: Seq<Option<bool>>) -> Seq<(RecordingInfo, bool)>
    decreases picked.len(),
{
    if picked.len() == 0 {
        seq![]
    } else {
        let before = dry_run_rows(picked.drop_last(), probes.take(picked.len() - 1));
        let rec = picked.last();
        let probe = probes[picked.len() - 1];
        if rec.evicted {
            before.push((rec, false))
        } else {
            match probe {
                Some(has) => before.push((rec, has)),
                None => before,
            }
        }
    }
}

/// How many of the picked recordings a dry run lists: those that live only in iCloud
/// and those whose file could be read.
pub open spec fn previewable_count(picked: Seq<RecordingInfo>, probes: Seq<Option<bool>>) -> nat
    decreases picked.len(),
{
    if picked.len() == 0 {
        0
    } else {
        let n = picked.len() - 1;
        previewable_count(picked.drop_last(), probes.take(n))
            + if picked[n].evicted || probes[n] is Some { 1nat } else { 0nat }
    }
}

/// The rows of a dry run are those of the recordings picked before the last, followed
/// by a row for the last one when it lives only in iCloud or its file could be read.
proof fn lemma_dry_run_rows_step(picked: Seq<RecordingInfo>, probes: Seq<Option<bool>>)
    requires
        probes.len() == picked.len(),
        picked.len() > 0,
    ensures
        ({
            let n = picked.len() - 1;
            let before = dry_run_rows(picked.drop_last(), probes.take(n));
            let rows = dry_run_rows(picked, probes);
            &&& picked[n].evicted ==> rows == before.push((picked[n], false))
            &&& !picked[n].evicted && probes[n] is Some ==> rows == before.push((picked[n], probes[n]->0))
            &&& !picked[n].evicted && probes[n] is None ==> rows == before
        }),
{
}

/// A dry run has a row for each picked recording that lives only in iCloud and for
/// each other picked recording whose file could be read, and no other rows.
pub proof fn lemma_dry_run_count(picked: Seq<RecordingInfo>, probes: Seq<Option<bool>>)
    requires
        probes.len() == picked.len(),
    ensures
        dry_run_rows(picked, probes).len() == previewable_count(picked, probes),
    decreases picked.len(),
{
    if picked.len() > 0 {
        let n = picked.len() - 1;
        lemma_dry_run_count(picked.drop_last(), probes.take(n));
        lemma_dry_run_rows_step(picked, probes);
    }
}

/// Every picked recording that lives only in iCloud is listed, with no embedded
/// transcript; every other picked recording whose file could be read is listed with
/// what the probe of its file found.
pub proof fn lemma_dry_run_lists_previewable(picked: Seq<RecordingInfo>, probes: Seq<Option<bool>>, k: int)
    requires
        probes.len() == picked.len(),
        0 <= k < picked.len(),
        picked[k].evicted || probes[k] is Some,
    ensures
        exists|j: int| 0 <= j < dry_run_rows(picked, probes).len()
            && #[trigger] dry_run_rows(picked, probes)[j]
                == (picked[k], if picked[k].evicted { false } else { probes[k]->0 }),
    decreases picked.len(),
{
    let n = picked.len() - 1;
    let fp = picked.drop_last();
    let fq = probes.take(n);
    let rows = dry_run_rows(picked, probes);
    let before = dry_run_rows(fp, fq);
    lemma_dry_run_rows_step(picked, probes);
    let want = (picked[k], if picked[k].evicted { false } else { probes[k]->0 });
    if k < n {
        assert(fp[k] == picked[k]);
        assert(fq[k] == probes[k]);
        lemma_dry_run_lists_previewable(fp, fq, k);
        let j = choose|j: int| 0 <= j < before.len() && #[trigger] before[j]
            == (fp[k], if fp[k].evicted { false } else { fq[k]->0 });
        assert(rows[j] == want);
    } else {
        assert(rows[before.len() as int] == want);
    }
}

/// Every row of a dry run is that of a picked recording: one that lives only in iCloud,
/// shown without an embedded transcript, or one whose file could be read, shown with
/// what the probe found.
pub proof fn lemma_dry_run_rows_from_picked(picked: Seq<RecordingInfo>, probes: Seq<Option<bool>>, j: int)
    requires
        probes.len() == picked.len(),
        0 <= j < dry_run_rows(picked, probes).len(),
    ensures
        exists|k: int| 0 <= k < picked.len() && #[trigger] picked[k] == dry_run_rows(picked, probes)[j].0
            && (if picked[k].evicted {
                dry_run_rows(picked, probes)[j].1 == false
            } else {
                probes[k] == Some(dry_run_rows(picked, probes)[j].1)
            }),
    decreases picked.len(),
{
    let n = picked.len() - 1;
    let fp = picked.drop_last();
    let fq = probes.take(n);
    let rows = dry_run_rows(picked, probes);
    let before = dry_run_rows(fp, fq);
    lemma_dry_run_rows_step(picked, probes);
    if j < before.len() {
        assert(rows[j] == before[j]);
        lemma_dry_run_rows_from_picked(fp, fq, j);
        let k = choose|k: int| 0 <= k < fp.len() && #[trigger] fp[k] == before[j].0
            && (if fp[k].evicted { before[j].1 == false } else { fq[k] == Some(before[j].1) });
        assert(fp[k] == picked[k] && fq[k] == probes[k]);
    } else {
        assert(picked[n] == rows[j].0);
    }
}

/// The recordings at `positions` in `recs`, in that order.
pub open spec fn at_positions(recs: Seq<RecordingInfo>, positions: Seq<usize>) -> Seq<RecordingInfo> {
    positions.map_values(|i: usize| recs[i as int])
}

fn dry_entry(rec: &RecordingInfo, has_tsrp: bool) -> (e: DryRunEntry)
    ensures
        describes(e, *rec, has_tsrp),
{
    DryRunEntry {
        uuid: rec.uuid.clone(),
        title: rec.title.clone(),
        date: rec.date_time.clone(),
        duration: format_duration(rec.duration_secs),
        has_tsrp,
        folder: rec.folder.clone(),
        evicted: rec.evicted,
    }
}

/// `e` is the dry-run entry of `row`.
pub open spec fn describes_row(e: DryRunEntry, row: (RecordingInfo, bool)) -> bool {
    describes(e, row.0, row.1)
}

/// What an extraction would do with the recordings at `picked`: `probes[k]` tells
/// whether the audio of the `k`-th picked recording holds a `tsrp` atom, or is `None`
/// when its file could not be read.
pub fn build_dry_run(recs: &Vec<RecordingInfo>, picked: &Vec<usize>, probes: &Vec<Option<bool>>) -> (r: DryRunResult)
    requires
        probes@.len() == picked@.len(),
        forall|k: int| 0 <= k < picked@.len() ==> picked@[k] < recs@.len(),
    ensures
        r.total == r.recordings@.len(),
        r.recordings@.len() == dry_run_rows(at_positions(recs@, picked@), probes@).len(),
        forall|k: int| 0 <= k < r.recordings@.len() ==>
            describes_row(r.recordings@[k], dry_run_rows(at_positions(recs@, picked@), probes@)[k]),
{
    let ghost all = at_positions(recs@, picked@);
    let mut out: Vec<DryRunEntry> = Vec::new();
    for i in 0..picked.len()
        invariant
            probes@.len() == picked@.len(),
            forall|k: int| 0 <= k < picked@.len() ==> picked@[k] < recs@.len(),
            all == at_positions(recs@, picked@),
            out@.len() == dry_run_rows(all.take(i as int), probes@.take(i as int)).len(),
            forall|k: int| 0 <= k < out@.len() ==>
                describes_row(out@[k], dry_run_rows(all.take(i as int), probes@.take(i as int))[k]),
    {
        let rec = &recs[picked[i]];
        let ghost prev = dry_run_rows(all.take(i as int), probes@.take(i as int));
        let ghost before = out@;
        assert(all.take(i + 1).drop_last() == all.take(i as int));
        assert(probes@.take(i + 1).take(i as int) == probes@.take(i as int));
        assert(all.take(i + 1).last() == *rec);
        assert(probes@.take(i + 1)[i as int] == probes@[i as int]);
        let ghost next = dry_run_rows(all.take(i + 1), probes@.take(i + 1));
        let has: Option<bool> = if rec.evicted { Some(false) } else { probes[i] };
        match has {
            Some(h) => {
                assert(next == prev.push((*rec, h)));
                out.push(dry_entry(rec, h));
                assert forall|k: int| 0 <= k < out@.len() implies describes_row(out@[k], next[k]) by {
                    if k < before.len() {
                        assert(next[k] == prev[k]);
                        assert(out@[k] == before[k]);
                    }
                }
            },
            None => {
                assert(next == prev);
            },
        }
    }
    assert(all.take(picked.len() as int) == all);
    assert(probes@.take(picked.len() as int) == probes@);
    let total = out.len();
    DryRunResult { total, recordings: out }
}

/// The transcript file of `rec` according to the processing record, if one was written.
pub open spec fn transcript_file_of(processed: Map<Seq<char>, ProcessedEntry>, rec: RecordingInfo) -> Option<Seq<char>> {
    match record_of(processed, rec) {
        Some(e) => opt_text(e.output),
        None => None,
    }
}

/// The transcript file written for `rec`, if any.
pub fn transcript_file(state: &State, rec: &RecordingInfo) -> (r: Option<String>)
    ensures
        opt_text(r) == transcript_file_of(state.processed@, *rec),
{
    match state.processed.get(rec.uuid.as_str()) {
        Some(e) => match &e.output {
            Some(o) => Some(o.clone()),
            None => None,
        },
        None => None,
    }
}

/// The three dashes that open and close the front matter of a transcript file.
pub open spec fn dashes() -> Seq<char> {
    seq!['-', '-', '-']
}

/// `p` is the first place at or after 3 where the closing dashes stand in `c`.
pub open spec fn closing_dashes_at(c: Seq<char>, p: int) -> bool {
    &&& 3 <= p
    &&& occurs_at(c, dashes(), p)
    &&& forall|q: int| 3 <= q < p ==> !occurs_at(c, dashes(), q)
}

/// The text of a transcript file without its front matter: when the file starts with
/// `---`, what follows the next `---`, trimmed (the whole file if there is no next
/// `---`); a file without front matter is all text.
pub open spec fn body_of(c: Seq<char>) -> Seq<char> {
    if c.len() >= 3 && c.take(3) == dashes() {
        if exists|p: int| closing_dashes_at(c, p) {
            let p = choose|p: int| closing_dashes_at(c, p);
            trim(c.skip(p + 3))
        } else {
            c
        }
    } else {
        c
    }
}

/// The text of a transcript file without its front matter.
pub fn transcript_body(content: &str) -> (r: String)
    ensures
        r@ == body_of(content@),
{
    let c = chars_of(content);
    if c.len() >= 3 && c[0] == '-' && c[1] == '-' && c[2] == '-' {
        assert(c@.take(3) =~= dashes());
        let d: Vec<char> = vec!['-', '-', '-'];
        assert(d@ == dashes());
        match find_from(&c, &d, 3) {
            Some(p) => {
                assert(closing_dashes_at(c@, p as int));
                proof {
                    let q = choose|q: int| closing_dashes_at(c@, q);
                    assert(q == p as int) by {
                        if q < p as int {
                            assert(!occurs_at(c@, dashes(), q));
                        } else if q > p as int {
                            assert(!occurs_at(c@, dashes(), p as int));
                        }
                    }
                }
                let mut rest: Vec<char> = Vec::new();
                let mut i = p + 3;
                while i < c.len()
                    invariant
                        p + 3 <= i <= c@.len(),
                        rest@ == c@.subrange(p + 3, i as int),
                    decreases c.len() - i,
                {
                    rest.push(c[i]);
                    i = i + 1;
                }
                assert(rest@ == c@.skip(p + 3));
                string_of(&trim_chars(&rest))
            },
            None => content.to_string(),
        }
    } else {
        if c.len() >= 3 {
            assert(c@.take(3)[0] == c@[0]);
            assert(c@.take(3)[1] == c@[1]);
            assert(c@.take(3)[2] == c@[2]);
        }
        content.to_string()
    }
}

/// The transcripts `show` can display, in order: for each recording with a transcript
/// file whose text could be read (`texts[i]`), the recording, the file, and the text
/// without its front matter.
pub open spec fn readable_transcripts(
    recs: Seq<RecordingInfo>,
    processed: Map<Seq<char>, ProcessedEntry>,
    texts: Seq<Option<String>>,
) -> Seq<(RecordingInfo, Seq<char>, Seq<char>)>
    decreases recs.len(),
{
    if recs.len() == 0 {
        seq![]
    } else {
        let n = recs.len() - 1;
        let before = readable_transcripts(recs.drop_last(), processed, texts.take(n));
        let rec = recs.last();
        match (transcript_file_of(processed, rec), texts[n]) {
            (Some(f), Some(c)) => before.push((rec, f, body_of(c@))),
            _ => before,
        }
    }
}

/// `e` shows the transcript of `item`: the recording, its file, and its text.
pub open spec fn shows(e: ShowEntry, item: (RecordingInfo, Seq<char>, Seq<char>)) -> bool {
    let (rec, file, body) = item;
    &&& e.uuid@ == rec.uuid@
    &&& e.date@ == rec.date_time@
    &&& e.duration@ == duration_text(rec.duration_secs as nat)
    &&& e.title@ == rec.title@
    &&& e.words == word_count(body)
    &&& e.file@ == file
    &&& e.transcript@ == body
    &&& opt_text(e.folder) == opt_text(rec.folder)
}

/// The entry of `show` for a recording whose transcript file `file` holds `content`.
pub fn show_entry(rec: &RecordingInfo, file: String, content: &str) -> (e: ShowEntry)
    ensures
        shows(e, (*rec, file@, body_of(content@))),
{
    let body = transcript_body(content);
    let words = count_words(&chars_of(body.as_str()));
    ShowEntry {
        uuid: rec.uuid.clone(),
        date: rec.date_time.clone(),
        duration: format_duration(rec.duration_secs),
        title: rec.title.clone(),
        words,
        file,
        transcript: body,
        folder: rec.folder.clone(),
    }
}

/// The entries of `show`: the first `limit` transcripts that can be displayed, where
/// `texts[i]` is the content of the transcript file of `recs[i]` (`None` when there
/// is no such file or it could not be read).
pub fn show_entries(recs: &Vec<RecordingInfo>, state: &State, texts: &Vec<Option<String>>, limit: usize) -> (r: Vec<ShowEntry>)
    requires
        texts@.len() == recs@.len(),
    ensures
        ({
            let all = readable_transcripts(recs@, state.processed@, texts@);
            &&& r@.len() == if all.len() < limit { all.len() } else { limit as nat }
            &&& forall|k: int| 0 <= k < r@.len() ==> shows(r@[k], all[k])
        }),
{
    let ghost m = state.processed@;
    let mut out: Vec<ShowEntry> = Vec::new();
    let mut i: usize = 0;
    while i < recs.len() && out.len() < limit
        invariant
            texts@.len() == recs@.len(),
            m == state.processed@,
            i <= recs@.len(),
            out@.len() <= limit,
            out@.len() == readable_transcripts(recs@.take(i as int), m, texts@.take(i as int)).len(),
            forall|k: int| 0 <= k < out@.len() ==>
                shows(out@[k], readable_transcripts(recs@.take(i as int), m, texts@.take(i as int))[k]),
        decreases recs.len() - i,
    {
        let rec = &recs[i];
        let ghost prev = readable_transcripts(recs@.take(i as int), m, texts@.take(i as int));
        let ghost before = out@;
        assert(recs@.take(i + 1).drop_last() == recs@.take(i as int));
        assert(texts@.take(i + 1).take(i as int) == texts@.take(i as int));
        assert(recs@.take(i + 1).last() == *rec);
        assert(texts@.take(i + 1)[i as int] == texts@[i as int]);
        let ghost next = readable_transcripts(recs@.take(i + 1), m, texts@.take(i + 1));
        match (transcript_file(state, rec), &texts[i]) {
            (Some(f), Some(c)) => {
                assert(next == prev.push((*rec, f@, body_of(c@))));
                out.push(show_entry(rec, f, c.as_str()));
                assert forall|k: int| 0 <= k < out@.len() implies shows(out@[k], next[k]) by {
                    if k < before.len() {
                        assert(next[k] == prev[k]);
                        assert(out@[k] == before[k]);
                    }
                }
            },
            (f, c) => {
                assert(next == prev);
            },
        }
        i = i + 1;
    }
    proof {
        let all = readable_transcripts(recs@, m, texts@);
        lemma_readable_prefix(recs@, m, texts@, i as int);
        if i == recs@.len() {
            assert(recs@.take(i as int) == recs@);
            assert(texts@.take(i as int) == texts@);
        }
    }
    out
}

/// The transcripts readable from a prefix of the recordings are a prefix of those
/// readable from all of them.
proof fn lemma_readable_prefix(
    recs: Seq<RecordingInfo>,
    processed: Map<Seq<char>, ProcessedEntry>,
    texts: Seq<Option<String>>,
    i: int,
)
    requires
        texts.len() == recs.len(),
        0 <= i <= recs.len(),
    ensures
        ({
            let part = readable_transcripts(recs.take(i), processed, texts.take(i));
            let all = readable_transcripts(recs, processed, texts);
            &&& part.len() <= all.len()
            &&& forall|k: int| 0 <= k < part.len() ==> part[k] == all[k]
        }),
    decreases recs.len() - i,
{
    if i < recs.len() {
        lemma_readable_prefix(recs, processed, texts, i + 1);
        assert(recs.take(i + 1).drop_last() == recs.take(i));
        assert(texts.take(i + 1).take(i) == texts.take(i));
    } else {
        assert(recs.take(i) == recs);
        assert(texts.take(i) == texts);
    }
}

/// The stem of a transcript file name: the day, a hyphen, and the slug of the title
/// (`untitled` when the slug is empty).
pub open spec fn file_stem(day: Seq<char>, title: Seq<char>) -> Seq<char> {
    day + "-"@ + if slug_of(title).len() == 0 { "untitled"@ } else { slug_of(title) }
}

/// The `n`-th candidate name for a transcript file: `<stem>.md` first, then
/// `<stem>-2.md`, `<stem>-3.md`, and so on.
pub open spec fn file_name(stem: Seq<char>, n: nat) -> Seq<char> {
    if n == 1 { stem + ".md"@ } else { stem + "-"@ + decimal(n) + ".md"@ }
}

proof fn lemma_digit_char_injective(a: nat, b: nat)
    requires
        a < 10,
        b < 10,
        digit_char(a) == digit_char(b),
    ensures
        a == b,
{
}

proof fn lemma_decimal_injective(a: nat, b: nat)
    requires
        decimal(a) == decimal(b),
    ensures
        a == b,
    decreases a + b,
{
    if a < 10 && b < 10 {
        assert(decimal(a)[0] == digit_char(a));
        assert(decimal(b)[0] == digit_char(b));
        lemma_digit_char_injective(a, b);
    } else if a < 10 {
        lemma_decimal_long(b);
    } else if b < 10 {
        lemma_decimal_long(a);
    } else {
        let da = decimal(a);
        let db = decimal(b);
        assert(da.last() == digit_char(a % 10));
        assert(db.last() == digit_char(b % 10));
        lemma_digit_char_injective(a % 10, b % 10);
        assert(da.drop_last() =~= decimal(a / 10));
        assert(db.drop_last() =~= decimal(b / 10));
        lemma_decimal_injective(a / 10, b / 10);
    }
}

proof fn lemma_decimal_long(n: nat)
    ensures
        decimal(n).len() >= 1,
        n >= 10 ==> decimal(n).len() >= 2,
    decreases n,
{
    if n >= 10 {
        lemma_decimal_long(n / 10);
    }
}

/// Two different candidate numbers give two different file names for one stem, so
/// trying the candidates in turn never comes back to a name already found taken.
pub proof fn lemma_file_names_distinct(stem: Seq<char>, a: nat, b: nat)
    requires
        a >= 1,
        b >= 1,
        a != b,
    ensures
        file_name(stem, a) != file_name(stem, b),
{
    reveal_strlit(".md");
    reveal_strlit("-");
    let na = file_name(stem, a);
    let nb = file_name(stem, b);
    if na == nb {
        if a != 1 && b != 1 {
            let k = stem.len() + 1;
            assert(na.subrange(k as int, na.len() - 3) =~= decimal(a));
            assert(nb.subrange(k as int, nb.len() - 3) =~= decimal(b));
            lemma_decimal_injective(a, b);
        } else {
            let n = if a == 1 { b } else { a };
            lemma_decimal_long(n);
            assert(file_name(stem, 1).len() == stem.len() + 3);
            assert(file_name(stem, n).len() == stem.len() + 4 + decimal(n).len());
        }
    }
}

/// The stem of the transcript file name of `rec`.
pub fn transcript_file_stem(rec: &RecordingInfo) -> (r: String)
    ensures
        r@ == file_stem(rec.day@, rec.title@),
{
    let slug = slugify(rec.title.as_str());
    let mut out = rec.day.clone();
    push_str(&mut out, "-");
    if slug.as_str().is_empty() {
        push_str(&mut out, "untitled");
    } else {
        push_str(&mut out, slug.as_str());
    }
    out
}

/// The `n`-th candidate name for a transcript file with stem `stem`; the caller moves
/// on to the next while a file of that name exists.
pub fn transcript_file_name(stem: &str, n: u32) -> (r: String)
    ensures
        r@ == file_name(stem@, n as nat),
{
    let mut out = stem.to_string();
    if n != 1 {
        push_str(&mut out, "-");
        push_decimal(&mut out, n as u64);
    }
    push_str(&mut out, ".md");
    out
}

/// A transcript file: front matter with the date, duration, title, method, word count
/// and audio file of the recording, then the transcript.
pub open spec fn document(rec: RecordingInfo, transcript: Seq<char>, method: Seq<char>) -> Seq<char> {
    "---\ndate: "@ + rec.date_time@ + "\nduration: "@ + duration_text(rec.duration_secs as nat)
        + "\nlocation: "@ + rec.title@ + "\nsource: "@ + method + "\nwords: "@ + decimal(word_count(transcript))
        + "\nfile: "@ + rec.path@ + "\n---\n\n"@ + transcript + "\n"@
}

/// The content of the transcript file for `rec`.
pub fn transcript_document(rec: &RecordingInfo, transcript: &str, method: Method) -> (r: String)
    ensures
        r@ == document(*rec, transcript@, method_text(method)),
{
    let words = count_words(&chars_of(transcript));
    let mut out = String::new();
    push_str(&mut out, "---\ndate: ");
    push_str(&mut out, rec.date_time.as_str());
    push_str(&mut out, "\nduration: ");
    let d = format_duration(rec.duration_secs);
    push_str(&mut out, d.as_str());
    push_str(&mut out, "\nlocation: ");
    push_str(&mut out, rec.title.as_str());
    push_str(&mut out, "\nsource: ");
    push_str(&mut out, method.name());
    push_str(&mut out, "\nwords: ");
    push_decimal(&mut out, words as u64);
    push_str(&mut out, "\nfile: ");
    push_str(&mut out, rec.path.as_str());
    push_str(&mut out, "\n---\n\n");
    push_str(&mut out, transcript);
    push_str(&mut out, "\n");
    out
}

/// Text produced by an outside tool: trimmed, and `None` when nothing is left.
pub open spec fn cleaned(s: Seq<char>) -> Option<Seq<char>> {
    if trim(s).len() == 0 { None } else { Some(trim(s)) }
}

/// Trims text produced by an outside tool (a token, a transcript); `None` when blank.
pub fn clean_output(s: &str) -> (r: Option<String>)
    ensures
        opt_text(r) == cleaned(s@),
{
    let t = trim_chars(&chars_of(s));
    if t.len() == 0 { None } else { Some(string_of(&t)) }
}

/// How command output is printed.
#[derive(Clone, Copy, PartialEq, Eq, Structural)]
pub enum OutputMode {
    Human,
    Json,
    Ndjson,
}

/// The mode named by the `OUTPUT_FORMAT` setting: `json`, `ndjson` or `human` in any
/// case; anything else means human.
pub open spec fn mode_named(v: Seq<char>) -> OutputMode {
    if lowercase_text(v) == "json"@ {
        OutputMode::Json
    } else if lowercase_text(v) == "ndjson"@ {
        OutputMode::Ndjson
    } else {
        OutputMode::Human
    }
}

/// The output mode: the one asked for on the command line; else the one the
/// `OUTPUT_FORMAT` setting names; else NDJSON when output goes to a pipe; else human.
pub open spec fn output_mode(explicit: Option<OutputMode>, setting: Option<Seq<char>>, to_terminal: bool) -> OutputMode {
    match explicit {
        Some(m) => m,
        None => match setting {
            Some(v) => mode_named(v),
            None => if to_terminal { OutputMode::Human } else { OutputMode::Ndjson },
        },
    }
}

/// Decides how output is printed.
pub fn resolve_output_mode(explicit: Option<OutputMode>, setting: Option<&str>, to_terminal: bool) -> (r: OutputMode)
    ensures
        r == output_mode(explicit, opt_str(setting), to_terminal),
{
    match explicit {
        Some(m) => m,
        None => match setting {
            Some(v) => {
                let lower = to_lowercase(v);
                if same_text(lower.as_str(), "json") {
                    OutputMode::Json
                } else if same_text(lower.as_str(), "ndjson") {
                    OutputMode::Ndjson
                } else {
                    OutputMode::Human
                }
            },
            None => if to_terminal { OutputMode::Human } else { OutputMode::Ndjson },
        },
    }
}

/// No character of `s` is a dash.
pub open spec fn dash_free(s: Seq<char>) -> bool {
    forall|i: int| 0 <= i < s.len() ==> s[i] != '-'
}

proof fn lemma_dash_free_no_dashes(s: Seq<char>)
    requires
        dash_free(s),
    ensures
        !contains_text(s, dashes()),
{
    assert forall|i: int| !occurs_at(s, dashes(), i) by {
        if occurs_at(s, dashes(), i) {
            assert(s.subrange(i, i + 3)[0] == '-');
        }
    }
}

/// Joining two texts without three dashes makes none, when a non-dash stands at the seam.
proof fn lemma_no_dashes_concat(x: Seq<char>, y: Seq<char>)
    requires
        !contains_text(x, dashes()),
        !contains_text(y, dashes()),
        (x.len() > 0 && x.last() != '-') || (y.len() > 0 && y[0] != '-'),
    ensures
        !contains_text(x + y, dashes()),
{
    let z = x + y;
    assert forall|i: int| !occurs_at(z, dashes(), i) by {
        if occurs_at(z, dashes(), i) {
            let w = z.subrange(i, i + 3);
            assert(w[0] == '-' && w[1] == '-' && w[2] == '-');
            if i + 3 <= x.len() {
                assert(x.subrange(i, i + 3) =~= w);
                assert(occurs_at(x, dashes(), i));
            } else if i >= x.len() {
                assert(y.subrange(i - x.len(), i - x.len() + 3) =~= w);
                assert(occurs_at(y, dashes(), i - x.len()));
            } else {
                assert(z[x.len() - 1] == '-');
                assert(z[x.len() as int] == '-');
            }
        }
    }
}

proof fn lemma_decimal_dash_free(n: nat)
    ensures
        dash_free(decimal(n)),
    decreases n,
{
    if n >= 10 {
        lemma_decimal_dash_free(n / 10);
    }
}

proof fn lemma_duration_dash_free(t: nat)
    ensures
        dash_free(duration_text(t)),
{
    let s = t % 60;
    let m = (t / 60) % 60;
    let h = t / 3600;
    lemma_decimal_dash_free(h);
    lemma_decimal_dash_free(m);
    lemma_decimal_dash_free(s);
    assert(dash_free(crate::text::two_digits(m)));
    assert(dash_free(crate::text::two_digits(s)));
}

/// The front matter of a transcript file between its opening and closing dashes.
pub open spec fn front_matter(rec: RecordingInfo, transcript: Seq<char>, method: Seq<char>) -> Seq<char> {
    "\ndate: "@ + rec.date_time@ + "\nduration: "@ + duration_text(rec.duration_secs as nat) + "\nlocation: "@
        + rec.title@ + "\nsource: "@ + method + "\nwords: "@ + decimal(word_count(transcript)) + "\nfile: "@
        + rec.path@ + "\n"@
}

proof fn lemma_document_shape(rec: RecordingInfo, transcript: Seq<char>, method: Seq<char>)
    ensures
        document(rec, transcript, method)
            == dashes() + front_matter(rec, transcript, method) + dashes() + (seq!['\n', '\n'] + transcript + seq!['\n']),
{
    reveal_strlit("---\ndate: ");
    reveal_strlit("\ndate: ");
    reveal_strlit("\n---\n\n");
    reveal_strlit("\n");
    assert("---\ndate: "@ =~= dashes() + "\ndate: "@);
    assert("\n---\n\n"@ =~= "\n"@ + dashes() + seq!['\n', '\n']);
    assert(document(rec, transcript, method)
        =~= dashes() + front_matter(rec, transcript, method) + dashes() + (seq!['\n', '\n'] + transcript + seq!['\n']));
}

proof fn lemma_front_matter_no_dashes(rec: RecordingInfo, transcript: Seq<char>, method: Method)
    requires
        !contains_text(rec.date_time@, dashes()),
        !contains_text(rec.title@, dashes()),
        !contains_text(rec.path@, dashes()),
    ensures
        !contains_text(front_matter(rec, transcript, method_text(method)), dashes()),
        front_matter(rec, transcript, method_text(method)).last() == '\n',
{
    reveal_strlit("\ndate: ");
    reveal_strlit("\nduration: ");
    reveal_strlit("\nlocation: ");
    reveal_strlit("\nsource: ");
    reveal_strlit("\nwords: ");
    reveal_strlit("\nfile: ");
    reveal_strlit("\n");
    reveal_strlit("tsrp");
    reveal_strlit("whisply");
    let date = rec.date_time@;
    let dur = duration_text(rec.duration_secs as nat);
    let m = method_text(method);
    let words = decimal(word_count(transcript));
    lemma_duration_dash_free(rec.duration_secs as nat);
    lemma_decimal_dash_free(word_count(transcript));
    lemma_dash_free_no_dashes(dur);
    lemma_dash_free_no_dashes(words);
    lemma_dash_free_no_dashes(m);
    lemma_dash_free_no_dashes("\ndate: "@);
    lemma_dash_free_no_dashes("\nduration: "@);
    lemma_dash_free_no_dashes("\nlocation: "@);
    lemma_dash_free_no_dashes("\nsource: "@);
    lemma_dash_free_no_dashes("\nwords: "@);
    lemma_dash_free_no_dashes("\nfile: "@);
    lemma_dash_free_no_dashes("\n"@);
    let p1 = "\ndate: "@ + date;
    lemma_no_dashes_concat("\ndate: "@, date);
    let p2 = p1 + "\nduration: "@;
    lemma_no_dashes_concat(p1, "\nduration: "@);
    let p3 = p2 + dur;
    lemma_no_dashes_concat(p2, dur);
    let p4 = p3 + "\nlocation: "@;
    lemma_no_dashes_concat(p3, "\nlocation: "@);
    let p5 = p4 + rec.title@;
    lemma_no_dashes_concat(p4, rec.title@);
    let p6 = p5 + "\nsource: "@;
    lemma_no_dashes_concat(p5, "\nsource: "@);
    let p7 = p6 + m;
    lemma_no_dashes_concat(p6, m);
    let p8 = p7 + "\nwords: "@;
    lemma_no_dashes_concat(p7, "\nwords: "@);
    let p9 = p8 + words;
    lemma_no_dashes_concat(p8, words);
    let p10 = p9 + "\nfile: "@;
    lemma_no_dashes_concat(p9, "\nfile: "@);
    let p11 = p10 + rec.path@;
    lemma_no_dashes_concat(p10, rec.path@);
    lemma_no_dashes_concat(p11, "\n"@);
}

/// Text framed by dashes as a transcript file frames it reads back as the text after
/// the frame, trimmed, when the framed part holds no three dashes and ends a line.
proof fn lemma_body_of_framed(middle: Seq<char>, tail: Seq<char>)
    requires
        !contains_text(middle, dashes()),
        middle.len() > 0,
        middle.last() == '\n',
    ensures
        body_of(dashes() + middle + dashes() + tail) == trim(tail),
{
    let doc = dashes() + middle + dashes() + tail;
    let p: int = 3 + middle.len() as int;
    assert(doc.subrange(p, p + 3) =~= dashes());
    assert(occurs_at(doc, dashes(), p));
    assert forall|q: int| 3 <= q < p implies !occurs_at(doc, dashes(), q) by {
        if q + 3 <= p {
            assert(doc.subrange(q, q + 3) =~= middle.subrange(q - 3, q));
            if occurs_at(doc, dashes(), q) {
                assert(occurs_at(middle, dashes(), q - 3));
            }
        } else {
            assert(doc[p - 1] == '\n');
            if occurs_at(doc, dashes(), q) {
                assert(doc.subrange(q, q + 3)[p - 1 - q] == doc[p - 1]);
            }
        }
    }
    assert(closing_dashes_at(doc, p));
    let c = choose|c: int| closing_dashes_at(doc, c);
    assert(c == p) by {
        if c < p {
            assert(!occurs_at(doc, dashes(), c));
        } else if c > p {
            assert(!occurs_at(doc, dashes(), p));
        }
    }
    assert(doc.take(3) =~= dashes());
    assert(doc.skip(p + 3) =~= tail);
}

/// What `show` reads back of what an extraction wrote: the text of a transcript file,
/// without its front matter, is the transcript trimmed, provided the recording's date,
/// title and audio file name hold no `---` (which would end the front matter early).
pub proof fn lemma_document_reads_back(rec: RecordingInfo, transcript: Seq<char>, method: Method)
    requires
        !contains_text(rec.date_time@, dashes()),
        !contains_text(rec.title@, dashes()),
        !contains_text(rec.path@, dashes()),
    ensures
        body_of(document(rec, transcript, method_text(method))) == trim(transcript),
{
    let m = method_text(method);
    lemma_document_shape(rec, transcript, m);
    lemma_front_matter_no_dashes(rec, transcript, method);
    lemma_body_of_framed(front_matter(rec, transcript, m), seq!['\n', '\n'] + transcript + seq!['\n']);
    assert(all_whitespace(seq!['\n', '\n']));
    assert(all_whitespace(seq!['\n']));
    lemma_trim_surrounded(seq!['\n', '\n'], transcript, seq!['\n']);
}

/// `show` counts as many words in a transcript file as the extraction that wrote it
/// recorded (same conditions as `lemma_document_reads_back`).
pub proof fn lemma_document_word_count(rec: RecordingInfo, transcript: Seq<char>, method: Method)
    requires
        !contains_text(rec.date_time@, dashes()),
        !contains_text(rec.title@, dashes()),
        !contains_text(rec.path@, dashes()),
    ensures
        word_count(body_of(document(rec, transcript, method_text(method)))) == word_count(transcript),
{
    lemma_document_reads_back(rec, transcript, method);
    lemma_trim_keeps_words(transcript);
}

} // verus!
