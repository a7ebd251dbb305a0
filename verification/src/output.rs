//! Output records and their human-readable renderings.
use vstd::prelude::*;
use vstd::string::StringSliceAdditionalSpecFns;
use vstd::utf8::{decode_utf8, encode_utf8, is_char_boundary};
use crate::format::{duration_text, format_duration};
use crate::json::{
    array_value, as_array, as_object, clone_value, json_object, json_parse_text, json_pretty, json_tree,
    map_get, map_insert, map_new, object_value, parse_json_text, to_pretty, trees_of, JsonObject, JsonTree,
};
use crate::state::ProcessedEntry;
use crate::text::{
    chars_of, decimal, pad_left, pad_right, push_char, push_chars, push_decimal, push_padded_left,
    push_padded_right, push_repeat, push_str, repeat_char, same_text,
};

verus! {

broadcast use vstd::string::group_string_axioms;

/// How results are printed.
#[derive(Debug, Clone, Copy, PartialEq, Eq, Structural)]
pub enum OutputFormat {
    Human,
    Json,
}

impl OutputFormat {
    /// `json` selects JSON; anything else, or nothing, selects the human format.
    pub fn from_str_opt(s: Option<&str>) -> (r: Self)
        ensures
            r == (if s matches Some(t) && t@ == "json"@ { OutputFormat::Json } else { OutputFormat::Human }),
    {
        match s {
            Some(t) => if same_text(t, "json") { OutputFormat::Json } else { OutputFormat::Human },
            None => OutputFormat::Human,
        }
    }
}

/// A recording that an extraction would process.
pub struct DryRunEntry {
    pub uuid: String,
    pub title: String,
    pub date: String,
    pub duration: String,
    pub has_tsrp: bool,
    /// The Voice Memos folder of the recording, if it is in one.
    pub folder: Option<String>,
    /// The audio lives only in iCloud.
    pub evicted: bool,
}

/// What an extraction would process.
pub struct DryRunResult {
    pub total: usize,
    pub recordings: Vec<DryRunEntry>,
}

/// One transcript written by an extraction.
pub struct ExtractedFile {
    pub uuid: String,
    pub title: String,
    pub method: String,
    pub words: usize,
    pub file: String,
    /// The Voice Memos folder of the recording, if it is in one.
    pub folder: Option<String>,
}

/// The tally of an extraction.
pub struct ExtractResult {
    pub extracted: usize,
    pub skipped: usize,
    /// Recordings left alone because their audio lives only in iCloud.
    pub evicted: usize,
    pub needs_whisply: usize,
    pub files: Vec<ExtractedFile>,
}

/// The title of a recording followed by its folder in brackets, when it is in one.
pub open spec fn folder_tag(folder: Option<Seq<char>>) -> Seq<char> {
    match folder {
        Some(f) => " ["@ + f + "]"@,
        None => seq![],
    }
}

/// Appends ` [<folder>]` to `out` when there is a folder.
fn push_folder_tag(out: &mut String, folder: &Option<String>)
    ensures
        final(out)@ == old(out)@ + folder_tag(opt_text(*folder)),
{
    match folder {
        Some(f) => {
            push_str(out, " [");
            push_str(out, f.as_str());
            push_str(out, "]");
        },
        None => {
            assert(old(out)@ + seq![] =~= old(out)@);
        },
    }
}

/// What a dry run says of a recording's transcript: none to be had while the audio
/// lives only in iCloud, else whether one is embedded.
pub open spec fn dry_run_status(e: DryRunEntry) -> Seq<char> {
    if e.evicted {
        "iCloud-only"@
    } else if e.has_tsrp {
        "tsrp available"@
    } else {
        "needs whisply"@
    }
}

/// The line of a dry run for one recording; the title is followed by its folder.
pub open spec fn dry_run_line(e: DryRunEntry) -> Seq<char> {
    "  "@ + e.date@ + " "@ + e.title@ + folder_tag(opt_text(e.folder)) + " ("@ + e.duration@ + ", "@
        + dry_run_status(e) + ")\n"@
}

/// The lines of a dry run for `es`, in order.
pub open spec fn dry_run_lines(es: Seq<DryRunEntry>) -> Seq<char>
    decreases es.len(),
{
    if es.len() == 0 { seq![] } else { dry_run_lines(es.drop_last()) + dry_run_line(es.last()) }
}

/// The human rendering of a dry run: the count, a blank line, a line per recording.
pub open spec fn dry_run_text(r: DryRunResult) -> Seq<char> {
    "Dry run: "@ + decimal(r.total as nat) + " recording(s) would be processed\n\n"@
        + dry_run_lines(r.recordings@)
}

/// Renders a dry run for a terminal.
pub fn format_dry_run_human(result: &DryRunResult) -> (r: String)
    ensures
        r@ == dry_run_text(*result),
{
    let mut out = String::new();
    push_str(&mut out, "Dry run: ");
    push_decimal(&mut out, result.total as u64);
    push_str(&mut out, " recording(s) would be processed\n\n");
    let ghost head = out@;
    for i in 0..result.recordings.len()
        invariant
            head == "Dry run: "@ + decimal(result.total as nat) + " recording(s) would be processed\n\n"@,
            out@ == head + dry_run_lines(result.recordings@.take(i as int)),
    {
        let line = dry_run_row(&result.recordings[i]);
        let ghost before = out@;
        push_str(&mut out, line.as_str());
        assert(result.recordings@.take(i + 1).drop_last() == result.recordings@.take(i as int));
        assert(out@ =~= head + dry_run_lines(result.recordings@.take(i + 1)));
    }
    assert(result.recordings@.take(result.recordings.len() as int) == result.recordings@);
    out
}

/// The dry-run line for one recording.
fn dry_run_row(e: &DryRunEntry) -> (r: String)
    ensures
        r@ == dry_run_line(*e),
{
    let mut out = String::new();
    push_str(&mut out, "  ");
    push_str(&mut out, e.date.as_str());
    push_str(&mut out, " ");
    push_str(&mut out, e.title.as_str());
    push_folder_tag(&mut out, &e.folder);
    push_str(&mut out, " (");
    push_str(&mut out, e.duration.as_str());
    push_str(&mut out, ", ");
    if e.evicted {
        push_str(&mut out, "iCloud-only");
    } else if e.has_tsrp {
        push_str(&mut out, "tsrp available");
    } else {
        push_str(&mut out, "needs whisply");
    }
    push_str(&mut out, ")\n");
    out
}

/// The one-line summary of an extraction.
pub open spec fn extract_text(r: ExtractResult) -> Seq<char> {
    "Done: "@ + decimal(r.extracted as nat) + " extracted, "@ + decimal(r.skipped as nat)
        + " skipped, "@ + decimal(r.needs_whisply as nat) + " need --all for whisply"@
}

/// Renders the summary of an extraction for a terminal.
pub fn format_extract_human(result: &ExtractResult) -> (r: String)
    ensures
        r@ == extract_text(*result),
{
    let mut out = String::new();
    push_str(&mut out, "Done: ");
    push_decimal(&mut out, result.extracted as u64);
    push_str(&mut out, " extracted, ");
    push_decimal(&mut out, result.skipped as u64);
    push_str(&mut out, " skipped, ");
    push_decimal(&mut out, result.needs_whisply as u64);
    push_str(&mut out, " need --all for whisply");
    out
}

/// A recording as the `list` command shows it. (The JSON form also carries the
/// duration in seconds; the caller adds it.)
pub struct ListEntry {
    pub uuid: String,
    pub date: String,
    pub duration: String,
    pub title: String,
    pub status: String,
    pub method: Option<String>,
    pub words: Option<usize>,
    pub file: Option<String>,
    /// The Voice Memos folder of the recording, if it is in one.
    pub folder: Option<String>,
    /// The audio lives only in iCloud.
    pub evicted: bool,
}

/// The view of an optional string.
pub open spec fn opt_text(o: Option<String>) -> Option<Seq<char>> {
    match o {
        Some(s) => Some(s@),
        None => None,
    }
}

/// The status of a recording with processing record `processed`: `done` after a
/// transcript was written (by `tsrp` or `whisply`), `needs-whisply` when it had no
/// embedded transcript, else `pending`.
pub open spec fn list_status(processed: Option<ProcessedEntry>) -> Seq<char> {
    if is_transcribed(processed) {
        "done"@
    } else if processed matches Some(e) && e.method@ == "no-transcript"@ {
        "needs-whisply"@
    } else {
        "pending"@
    }
}

/// A transcript was written for the recording, by `tsrp` or by `whisply`.
pub open spec fn is_transcribed(processed: Option<ProcessedEntry>) -> bool {
    processed matches Some(e) && (e.method@ == "tsrp"@ || e.method@ == "whisply"@)
}

/// The list entry for a recording, as `build_list_entry` builds it.
pub open spec fn list_entry_matches(
    r: ListEntry,
    uuid: Seq<char>,
    date: Seq<char>,
    duration_secs: nat,
    title: Seq<char>,
    processed: Option<ProcessedEntry>,
    folder: Option<Seq<char>>,
    evicted: bool,
) -> bool {
    &&& opt_text(r.folder) == folder
    &&& r.evicted == evicted
    &&& r.uuid@ == uuid
    &&& r.date@ == date
    &&& r.duration@ == duration_text(duration_secs)
    &&& r.title@ == title
    &&& r.status@ == list_status(processed)
    &&& if is_transcribed(processed) {
        let e = processed->0;
        &&& opt_text(r.method) == Some(e.method@)
        &&& r.words == Some(e.words)
        &&& opt_text(r.file) == opt_text(e.output)
    } else {
        &&& r.method is None
        &&& r.words is None
        &&& r.file is None
    }
}

/// The view of an optional borrowed string.
pub open spec fn opt_str(o: Option<&str>) -> Option<Seq<char>> {
    match o {
        Some(s) => Some(s@),
        None => None,
    }
}

fn owned(o: Option<&str>) -> (r: Option<String>)
    ensures
        opt_text(r) == opt_str(o),
{
    match o {
        Some(s) => Some(s.to_string()),
        None => None,
    }
}

/// The list entry for a recording: its id, date, duration (given in whole seconds),
/// title, status from its processing record, folder, and whether it is iCloud-only.
pub fn build_list_entry(
    uuid: &str,
    date: &str,
    duration_secs: u64,
    title: &str,
    processed: Option<&ProcessedEntry>,
    folder: Option<&str>,
    evicted: bool,
) -> (r: ListEntry)
    ensures
        list_entry_matches(r, uuid@, date@, duration_secs as nat, title@, match processed {
            Some(e) => Some(*e),
            None => None,
        }, opt_str(folder), evicted),
{
    let duration = format_duration(duration_secs);
    match processed {
        Some(e) => {
            if same_text(e.method.as_str(), "tsrp") || same_text(e.method.as_str(), "whisply") {
                let r = ListEntry {
                    uuid: uuid.to_string(),
                    date: date.to_string(),
                    duration,
                    title: title.to_string(),
                    status: "done".to_string(),
                    method: Some(e.method.clone()),
                    words: Some(e.words),
                    file: match &e.output {
                        Some(o) => Some(o.clone()),
                        None => None,
                    },
                    folder: owned(folder),
                    evicted,
                };
                return r;
            }
            if same_text(e.method.as_str(), "no-transcript") {
                return ListEntry {
                    uuid: uuid.to_string(),
                    date: date.to_string(),
                    duration,
                    title: title.to_string(),
                    status: "needs-whisply".to_string(),
                    method: None,
                    words: None,
                    file: None,
                    folder: owned(folder),
                    evicted,
                };
            }
        },
        None => {},
    }
    ListEntry {
        uuid: uuid.to_string(),
        date: date.to_string(),
        duration,
        title: title.to_string(),
        status: "pending".to_string(),
        method: None,
        words: None,
        file: None,
        folder: owned(folder),
        evicted,
    }
}

/// The status column of a list row: `iCloud-only` for a recording whose audio lives
/// only in iCloud, else its processing status.
pub open spec fn status_display(e: ListEntry) -> Seq<char> {
    if e.evicted {
        "\u{2601} iCloud-only"@
    } else if e.status@ == "done"@ {
        "\u{2713} "@ + match opt_text(e.method) { Some(m) => m, None => seq![] }
    } else if e.status@ == "needs-whisply"@ {
        "\u{25CB} needs --all"@
    } else {
        "\u{25CB} pending"@
    }
}

/// The status cell of the list table tells a recording's state: `iCloud-only` when
/// its audio lives only in iCloud; otherwise a check mark and the method once a
/// transcript was written, a request for `--all` when the recording had no embedded
/// transcript, and `pending` for anything else. A recording that needs `--all` never
/// shows the same cell as a pending one or a transcribed one.
pub proof fn lemma_status_cells(e: ListEntry, other: ListEntry)
    ensures
        e.evicted ==> status_display(e) == "\u{2601} iCloud-only"@,
        !e.evicted && e.status@ == "done"@ ==> status_display(e).take(2) == "\u{2713} "@,
        !e.evicted && e.status@ == "needs-whisply"@ ==> status_display(e) == "\u{25CB} needs --all"@,
        !e.evicted && e.status@ != "done"@ && e.status@ != "needs-whisply"@
            ==> status_display(e) == "\u{25CB} pending"@,
        !e.evicted && e.status@ == "needs-whisply"@ && !other.evicted && other.status@ != "needs-whisply"@
            ==> status_display(e) != status_display(other),
{
    reveal_strlit("\u{2713} ");
    reveal_strlit("\u{25CB} needs --all");
    reveal_strlit("\u{25CB} pending");
    reveal_strlit("done");
    reveal_strlit("needs-whisply");
    assert("needs-whisply"@.len() == 13);
    assert("done"@.len() == 4);
    assert("\u{25CB} needs --all"@[0] == '\u{25CB}');
    assert("\u{25CB} needs --all"@[2] == 'n');
    assert("\u{25CB} pending"@[2] == 'p');
    if !e.evicted && e.status@ == "done"@ {
        let m = match opt_text(e.method) { Some(m) => m, None => seq![] };
        assert(("\u{2713} "@ + m).take(2) =~= "\u{2713} "@);
    }
    if !e.evicted && e.status@ == "needs-whisply"@ && !other.evicted && other.status@ != "needs-whisply"@ {
        if other.status@ == "done"@ {
            assert(status_display(other)[0] == '\u{2713}');
        } else {
            assert(status_display(other)[2] == 'p');
        }
        assert(status_display(e)[0] == '\u{25CB}');
        assert(status_display(e)[2] == 'n');
    }
}

/// The word-count column of a list row: the count, or a dash when there is none.
pub open spec fn words_display(words: Option<usize>) -> Seq<char> {
    match words {
        Some(w) => decimal(w as nat),
        None => "\u{2014}"@,
    }
}

/// At most the first `n` characters of `s`.
pub open spec fn prefix_chars(s: Seq<char>, n: nat) -> Seq<char> {
    if s.len() > n { s.take(n as int) } else { s }
}

/// The header of the list table.
pub open spec fn list_header() -> Seq<char> {
    pad_right("Date"@, 20) + " "@ + pad_left("Duration"@, 8) + "   "@ + pad_right("Status"@, 16) + " "@
        + pad_left("Words"@, 5) + "   Title\n"@
}

/// The rule under the header: eighty box-drawing dashes.
pub open spec fn list_rule() -> Seq<char> {
    repeat_char('\u{2500}', 80) + "\n"@
}

/// The row of the list table for `e`; the title is cut to 35 characters and followed
/// by the folder in brackets.
pub open spec fn list_row(e: ListEntry) -> Seq<char> {
    pad_right(e.date@, 20) + " "@ + pad_left(e.duration@, 8) + "   "@ + pad_right(status_display(e), 16) + " "@
        + pad_left(words_display(e.words), 5) + "   "@ + prefix_chars(e.title@, 35) + folder_tag(opt_text(e.folder))
        + "\n"@
}

/// The rows of the list table for `es`, in order.
pub open spec fn list_rows(es: Seq<ListEntry>) -> Seq<char>
    decreases es.len(),
{
    if es.len() == 0 { seq![] } else { list_rows(es.drop_last()) + list_row(es.last()) }
}

/// At most the first `n` characters of `v`.
fn prefix_of(v: &Vec<char>, n: usize) -> (r: Vec<char>)
    ensures
        r@ == prefix_chars(v@, n as nat),
{
    let mut r: Vec<char> = Vec::new();
    let m = if v.len() > n { n } else { v.len() };
    for i in 0..m
        invariant
            m <= v@.len(),
            r@ == v@.take(i as int),
    {
        r.push(v[i]);
        assert(v@.take(i + 1) == v@.take(i as int).push(v@[i as int]));
    }
    assert(v@.take(v@.len() as int) == v@);
    r
}

fn status_column(e: &ListEntry) -> (r: Vec<char>)
    ensures
        r@ == status_display(*e),
{
    if e.evicted {
        chars_of("\u{2601} iCloud-only")
    } else if same_text(e.status.as_str(), "done") {
        let mut t = String::new();
        push_str(&mut t, "\u{2713} ");
        match &e.method {
            Some(m) => push_str(&mut t, m.as_str()),
            None => {},
        }
        proof {
            if e.method is None {
                assert(t@ == "\u{2713} "@ + Seq::<char>::empty());
            }
        }
        chars_of(t.as_str())
    } else if same_text(e.status.as_str(), "needs-whisply") {
        chars_of("\u{25CB} needs --all")
    } else {
        chars_of("\u{25CB} pending")
    }
}

fn words_column(words: Option<usize>) -> (r: Vec<char>)
    ensures
        r@ == words_display(words),
{
    match words {
        Some(w) => crate::text::decimal_of(w as u64),
        None => chars_of("\u{2014}"),
    }
}

/// The table row for one entry.
fn list_row_text(e: &ListEntry) -> (r: String)
    ensures
        r@ == list_row(*e),
{
    let mut out = String::new();
    push_padded_right(&mut out, &chars_of(e.date.as_str()), 20);
    push_str(&mut out, " ");
    push_padded_left(&mut out, &chars_of(e.duration.as_str()), 8);
    push_str(&mut out, "   ");
    push_padded_right(&mut out, &status_column(e), 16);
    push_str(&mut out, " ");
    push_padded_left(&mut out, &words_column(e.words), 5);
    push_str(&mut out, "   ");
    push_chars(&mut out, &prefix_of(&chars_of(e.title.as_str()), 35));
    push_folder_tag(&mut out, &e.folder);
    push_str(&mut out, "\n");
    out
}

/// Renders the recording list as a table for a terminal.
pub fn format_list_human(entries: &[ListEntry]) -> (r: String)
    ensures
        r@ == list_header() + list_rule() + list_rows(entries@),
{
    let mut out = String::new();
    push_padded_right(&mut out, &chars_of("Date"), 20);
    push_str(&mut out, " ");
    push_padded_left(&mut out, &chars_of("Duration"), 8);
    push_str(&mut out, "   ");
    push_padded_right(&mut out, &chars_of("Status"), 16);
    push_str(&mut out, " ");
    push_padded_left(&mut out, &chars_of("Words"), 5);
    push_str(&mut out, "   Title\n");
    push_repeat(&mut out, '\u{2500}', 80);
    push_str(&mut out, "\n");
    let ghost head = out@;
    assert(head == list_header() + list_rule());
    for i in 0..entries.len()
        invariant
            head == list_header() + list_rule(),
            out@ == head + list_rows(entries@.take(i as int)),
    {
        let row = list_row_text(&entries[i]);
        push_str(&mut out, row.as_str());
        assert(entries@.take(i + 1).drop_last() == entries@.take(i as int));
        assert(out@ =~= head + list_rows(entries@.take(i + 1)));
    }
    assert(entries@.take(entries.len() as int) == entries@);
    out
}

/// A transcript as the `show` command shows it. (The JSON form also carries the
/// duration in seconds; the caller adds it.)
pub struct ShowEntry {
    pub uuid: String,
    pub date: String,
    pub duration: String,
    pub title: String,
    pub words: usize,
    pub file: String,
    pub transcript: String,
    /// The Voice Memos folder of the recording, if it is in one.
    pub folder: Option<String>,
}

/// The most bytes of a transcript shown in a terminal.
pub const SHOW_MAX_BYTES: usize = 3000;

/// A transcript can be cut at 3000 bytes without splitting a character, or needs no
/// cut (and its length in bytes fits in a `usize`, as that of any string in memory does).
pub open spec fn cuttable(t: Seq<char>) -> bool {
    &&& encode_utf8(t).len() <= usize::MAX
    &&& encode_utf8(t).len() > 3000 ==> is_char_boundary(encode_utf8(t), 3000)
}

/// The transcript part of a show block: the whole text, or its first 3000 bytes and
/// a note of how many bytes were left out and where the full text is.
pub open spec fn show_body(e: ShowEntry) -> Seq<char> {
    let bytes = encode_utf8(e.transcript@);
    if bytes.len() > 3000 {
        decode_utf8(bytes.subrange(0, 3000)) + "\n"@ + "\n... ["@ + decimal((bytes.len() - 3000) as nat)
            + " chars truncated, see "@ + e.file@ + "]\n"@
    } else {
        e.transcript@ + "\n"@
    }
}

/// The block for one transcript: a rule, the title line (with the folder after the
/// title), a rule, the text.
pub open spec fn show_block(e: ShowEntry) -> Seq<char> {
    "\n"@ + repeat_char('=', 70) + "\n"@ + e.title@ + folder_tag(opt_text(e.folder)) + "  ("@ + e.date@ + ", "@ + e.duration@ + ", "@
        + decimal(e.words as nat) + " words)\n"@ + repeat_char('=', 70) + "\n"@ + show_body(e)
}

/// The blocks for `es`, in order.
pub open spec fn show_blocks(es: Seq<ShowEntry>) -> Seq<char>
    decreases es.len(),
{
    if es.len() == 0 { seq![] } else { show_blocks(es.drop_last()) + show_block(es.last()) }
}

/// The human rendering of `es`; a hint to run an extraction when there are none.
pub open spec fn show_text(es: Seq<ShowEntry>) -> Seq<char> {
    if es.len() == 0 {
        "No transcripts available. Run `voice-memos extract` first.\n"@
    } else {
        show_blocks(es)
    }
}

fn show_block_text(e: &ShowEntry) -> (r: String)
    requires
        cuttable(e.transcript@),
    ensures
        r@ == show_block(*e),
{
    let mut out = String::new();
    push_str(&mut out, "\n");
    push_repeat(&mut out, '=', 70);
    push_str(&mut out, "\n");
    push_str(&mut out, e.title.as_str());
    push_folder_tag(&mut out, &e.folder);
    push_str(&mut out, "  (");
    push_str(&mut out, e.date.as_str());
    push_str(&mut out, ", ");
    push_str(&mut out, e.duration.as_str());
    push_str(&mut out, ", ");
    push_decimal(&mut out, e.words as u64);
    push_str(&mut out, " words)\n");
    push_repeat(&mut out, '=', 70);
    push_str(&mut out, "\n");
    let body = show_body_text(e);
    push_str(&mut out, body.as_str());
    out
}

fn show_body_text(e: &ShowEntry) -> (r: String)
    requires
        cuttable(e.transcript@),
    ensures
        r@ == show_body(*e),
{
    let mut out = String::new();
    let t = e.transcript.as_str();
    let n = t.len();
    assert(t.spec_bytes() == encode_utf8(e.transcript@));
    assert(n == encode_utf8(e.transcript@).len());
    if n > SHOW_MAX_BYTES {
        let (head, _rest) = t.split_at(SHOW_MAX_BYTES);
        proof {
            broadcast use vstd::utf8::encode_utf8_decode_utf8;
            assert(head.spec_bytes() == encode_utf8(head@));
            assert(decode_utf8(encode_utf8(head@)) == head@);
            assert(head@ == decode_utf8(encode_utf8(e.transcript@).subrange(0, 3000)));
        }
        push_str(&mut out, head);
        push_str(&mut out, "\n");
        push_str(&mut out, "\n... [");
        push_decimal(&mut out, (n - SHOW_MAX_BYTES) as u64);
        push_str(&mut out, " chars truncated, see ");
        push_str(&mut out, e.file.as_str());
        push_str(&mut out, "]\n");
        assert(out@ == show_body(*e));
    } else {
        push_str(&mut out, t);
        push_str(&mut out, "\n");
    }
    out
}

/// Renders transcripts for a terminal, cutting each to its first 3000 bytes.
pub fn format_show_human(entries: &[ShowEntry]) -> (r: String)
    requires
        forall|i: int| 0 <= i < entries@.len() ==> cuttable(#[trigger] entries@[i].transcript@),
    ensures
        r@ == show_text(entries@),
{
    let mut out = String::new();
    for i in 0..entries.len()
        invariant
            forall|j: int| 0 <= j < entries@.len() ==> cuttable(#[trigger] entries@[j].transcript@),
            out@ == show_blocks(entries@.take(i as int)),
    {
        let block = show_block_text(&entries[i]);
        push_str(&mut out, block.as_str());
        assert(entries@.take(i + 1).drop_last() == entries@.take(i as int));
    }
    assert(entries@.take(entries.len() as int) == entries@);
    if entries.len() == 0 {
        push_str(&mut out, "No transcripts available. Run `voice-memos extract` first.\n");
    }
    out
}

/// The NDJSON framing of serialized records: one per line, each line ended by a
/// newline; no records give a single newline.
pub open spec fn ndjson_text(lines: Seq<Seq<char>>) -> Seq<char> {
    if lines.len() == 0 { "\n"@ } else { lines_text(lines) }
}

/// Each of `lines` followed by a newline.
pub open spec fn lines_text(lines: Seq<Seq<char>>) -> Seq<char>
    decreases lines.len(),
{
    if lines.len() == 0 { seq![] } else { lines_text(lines.drop_last()) + lines.last() + "\n"@ }
}

/// Frames serialized records as NDJSON: joined by newlines, with a final newline.
pub fn ndjson_lines(records: &Vec<String>) -> (r: String)
    ensures
        r@ == ndjson_text(records@.map_values(|s: String| s@)),
{
    let ghost ls = records@.map_values(|s: String| s@);
    let mut out = String::new();
    for i in 0..records.len()
        invariant
            ls == records@.map_values(|s: String| s@),
            out@ == lines_text(ls.take(i as int)),
    {
        push_str(&mut out, records[i].as_str());
        push_str(&mut out, "\n");
        assert(ls.take(i + 1).drop_last() == ls.take(i as int));
        assert(out@ =~= lines_text(ls.take(i + 1)));
    }
    assert(ls.take(records.len() as int) == ls);
    if records.len() == 0 {
        push_str(&mut out, "\n");
    }
    out
}

/// The names asked for, as text.
pub open spec fn field_names(fields: Seq<String>) -> Seq<Seq<char>> {
    fields.map_values(|f: String| f@)
}

/// The entries of `m` whose key is one of `names`.
pub open spec fn keep_fields(m: Map<Seq<char>, JsonTree>, names: Seq<Seq<char>>) -> Map<Seq<char>, JsonTree> {
    m.restrict(names.to_set())
}

/// An object cut down to `names`; any other document unchanged.
pub open spec fn filter_item(t: JsonTree, names: Seq<Seq<char>>) -> JsonTree {
    match t {
        JsonTree::Object(m) => JsonTree::Object(keep_fields(m, names)),
        _ => t,
    }
}

/// A document cut down to `names`: an object keeps only those keys; in an array,
/// every object item does; any other document is unchanged.
pub open spec fn filter_tree(t: JsonTree, names: Seq<Seq<char>>) -> JsonTree {
    match t {
        JsonTree::Array(items) => JsonTree::Array(items.map_values(|i: JsonTree| filter_item(i, names))),
        JsonTree::Object(m) => JsonTree::Object(keep_fields(m, names)),
        _ => t,
    }
}

/// The output of `filter_json_fields`: the text itself when no field is named, else the
/// pretty-printed document cut down to the named fields.
pub open spec fn filtered_json(json: Seq<char>, names: Seq<Seq<char>>) -> Option<Seq<char>> {
    if names.len() == 0 {
        Some(json)
    } else {
        match json_parse_text(json) {
            Some(doc) => Some(json_pretty(filter_tree(doc, names))),
            None => None,
        }
    }
}

/// A copy of the object `obj` with only the entries named in `fields`.
fn filter_object(obj: &JsonObject, fields: &[String]) -> (r: serde_json::Value)
    ensures
        json_tree(r) == JsonTree::Object(keep_fields(json_object(*obj), field_names(fields@))),
{
    let ghost m = json_object(*obj);
    let ghost names = field_names(fields@);
    let mut kept = map_new();
    for i in 0..fields.len()
        invariant
            m == json_object(*obj),
            names == field_names(fields@),
            json_object(kept) == keep_fields(m, names.take(i as int)),
    {
        let ghost before = json_object(kept);
        let f = &fields[i];
        let ghost t0 = names.take(i as int);
        let ghost t1 = names.take(i + 1);
        assert(t1 == t0.push(f@));
        assert forall|k: Seq<char>| t1.to_set().contains(k) <==> (t0.to_set().contains(k) || k == f@) by {
            if t1.contains(k) && k != f@ {
                let j = choose|j: int| 0 <= j < t1.len() && #[trigger] t1[j] == k;
                assert(t0[j] == k);
            }
            if t0.contains(k) {
                let j = choose|j: int| 0 <= j < t0.len() && #[trigger] t0[j] == k;
                assert(t1[j] == k);
            }
            if k == f@ {
                assert(t1[i as int] == k);
            }
        }
        match map_get(obj, f.as_str()) {
            Some(v) => {
                map_insert(&mut kept, f.clone(), clone_value(v));
                assert(json_object(kept) =~= keep_fields(m, names.take(i + 1)));
            },
            None => {
                assert(json_object(kept) =~= keep_fields(m, names.take(i + 1)));
            },
        }
    }
    assert(names.take(fields.len() as int) == names);
    object_value(kept)
}

/// The document `doc` cut down to the named fields.
fn filter_value(doc: &serde_json::Value, fields: &[String]) -> (r: serde_json::Value)
    ensures
        json_tree(r) == filter_tree(json_tree(*doc), field_names(fields@)),
{
    let ghost names = field_names(fields@);
    match as_array(doc) {
        Some(items) => {
            let ghost trees = trees_of(items@);
            let mut out: Vec<serde_json::Value> = Vec::new();
            for i in 0..items.len()
                invariant
                    trees == trees_of(items@),
                    names == field_names(fields@),
                    out@.len() == i,
                    trees_of(out@) == trees.take(i as int).map_values(|t: JsonTree| filter_item(t, names)),
            {
                assert(trees[i as int] == json_tree(items@[i as int]));
                let item = match as_object(&items[i]) {
                    Some(o) => filter_object(o, fields),
                    None => clone_value(&items[i]),
                };
                assert(json_tree(item) == filter_item(trees[i as int], names));
                let ghost prev = out@;
                out.push(item);
                assert(trees_of(out@) =~= trees.take(i + 1).map_values(|t: JsonTree| filter_item(t, names))) by {
                    assert(out@ == prev.push(item));
                    assert forall|j: int| 0 <= j < i + 1 implies #[trigger] trees_of(out@)[j]
                        == filter_item(trees.take(i + 1)[j], names) by {
                        if j < i {
                            assert(trees_of(out@)[j] == json_tree(prev[j]));
                            assert(trees_of(prev)[j] == json_tree(prev[j]));
                            assert(trees.take(i as int)[j] == trees.take(i + 1)[j]);
                        }
                    }
                }
            }
            assert(trees.take(items.len() as int) == trees);
            array_value(out)
        },
        None => match as_object(doc) {
            Some(o) => filter_object(o, fields),
            None => clone_value(doc),
        },
    }
}

/// Cuts JSON output down to the named fields, for callers that asked for only some.
/// The text is returned as it is when no field is named; otherwise it must be JSON.
pub fn filter_json_fields(json: &str, fields: &[String]) -> (r: String)
    requires
        fields@.len() > 0 ==> json_parse_text(json@) is Some,
    ensures
        filtered_json(json@, field_names(fields@)) == Some(r@),
{
    if fields.len() == 0 {
        return json.to_string();
    }
    match parse_json_text(json) {
        Some(doc) => {
            let filtered = filter_value(&doc, fields);
            to_pretty(&filtered)
        },
        None => String::new(),
    }
}

/// Cuts JSON output down to the named fields; `None` when fields are named and the
/// text is not JSON.
pub fn try_filter_json_fields(json: &str, fields: &[String]) -> (r: Option<String>)
    ensures
        match r {
            Some(s) => filtered_json(json@, field_names(fields@)) == Some(s@),
            None => filtered_json(json@, field_names(fields@)) is None,
        },
{
    if fields.len() > 0 && parse_json_text(json).is_none() {
        return None;
    }
    Some(filter_json_fields(json, fields))
}

} // verus!
