//! The launchd agent that runs an extraction whenever the recordings change.
use vstd::prelude::*;
use crate::text::{chars_of, contains_text, find_from, occurs_at, push_str, string_of};

verus! {

broadcast use vstd::string::group_string_axioms;

/// The launchd label of the agent.
pub const PLIST_LABEL: &'static str = "com.karbassi.voice-memos";

/// The property list of the agent: run `<exe> extract` whenever `watch_dir` changes,
/// logging to `log`.
pub open spec fn plist_text(exe: Seq<char>, watch_dir: Seq<char>, log: Seq<char>) -> Seq<char> {
    "<?xml version=\"1.0\" encoding=\"UTF-8\"?>\n<!DOCTYPE plist PUBLIC \"-//Apple//DTD PLIST 1.0//EN\" \"http://www.apple.com/DTDs/PropertyList-1.0.dtd\">\n<plist version=\"1.0\">\n<dict>\n    <key>Label</key>\n    <string>"@
        + PLIST_LABEL@
        + "</string>\n    <key>ProgramArguments</key>\n    <array>\n        <string>"@
        + exe
        + "</string>\n        <string>extract</string>\n    </array>\n    <key>WatchPaths</key>\n    <array>\n        <string>"@
        + watch_dir
        + "</string>\n    </array>\n    <key>StandardOutPath</key>\n    <string>"@
        + log
        + "</string>\n    <key>StandardErrorPath</key>\n    <string>"@
        + log
        + "</string>\n    <key>RunAtLoad</key>\n    <false/>\n</dict>\n</plist>"@
}

/// The property list of the agent that runs `exe extract` when `watch_dir` changes.
pub fn launchd_plist(exe: &str, watch_dir: &str, log: &str) -> (r: String)
    ensures
        r@ == plist_text(exe@, watch_dir@, log@),
{
    let mut out = String::new();
    push_str(&mut out, "<?xml version=\"1.0\" encoding=\"UTF-8\"?>\n<!DOCTYPE plist PUBLIC \"-//Apple//DTD PLIST 1.0//EN\" \"http://www.apple.com/DTDs/PropertyList-1.0.dtd\">\n<plist version=\"1.0\">\n<dict>\n    <key>Label</key>\n    <string>");
    push_str(&mut out, PLIST_LABEL);
    push_str(&mut out, "</string>\n    <key>ProgramArguments</key>\n    <array>\n        <string>");
    push_str(&mut out, exe);
    push_str(&mut out, "</string>\n        <string>extract</string>\n    </array>\n    <key>WatchPaths</key>\n    <array>\n        <string>");
    push_str(&mut out, watch_dir);
    push_str(&mut out, "</string>\n    </array>\n    <key>StandardOutPath</key>\n    <string>");
    push_str(&mut out, log);
    push_str(&mut out, "</string>\n    <key>StandardErrorPath</key>\n    <string>");
    push_str(&mut out, log);
    push_str(&mut out, "</string>\n    <key>RunAtLoad</key>\n    <false/>\n</dict>\n</plist>");
    out
}

/// The pieces of `s` between newlines (one more than there are newlines).
pub open spec fn segments(s: Seq<char>) -> Seq<Seq<char>>
    decreases s.len(),
{
    if s.len() == 0 {
        seq![seq![]]
    } else {
        let p = segments(s.drop_last());
        if s.last() == '\n' {
            p.push(seq![])
        } else {
            p.update(p.len() - 1, p.last().push(s.last()))
        }
    }
}

/// The `k`-th line of `s` as `str::lines` gives it: a piece ended by a newline loses a
/// carriage return before that newline.
pub open spec fn line_at(s: Seq<char>, k: int) -> Seq<char> {
    let segs = segments(s);
    let seg = segs[k];
    if k < segs.len() - 1 && seg.len() > 0 && seg.last() == '\r' { seg.drop_last() } else { seg }
}

/// The first line of `s` that mentions the agent's label, if any.
pub open spec fn watcher_line_of(s: Seq<char>) -> Option<Seq<char>> {
    if exists|k: int| 0 <= k < segments(s).len() && contains_text(#[trigger] line_at(s, k), PLIST_LABEL@) {
        let k = choose|k: int| 0 <= k < segments(s).len() && contains_text(#[trigger] line_at(s, k), PLIST_LABEL@)
            && forall|j: int| 0 <= j < k ==> !contains_text(line_at(s, j), PLIST_LABEL@);
        Some(line_at(s, k))
    } else {
        None
    }
}

proof fn lemma_segments_nonempty(s: Seq<char>)
    ensures
        segments(s).len() >= 1,
    decreases s.len(),
{
    if s.len() > 0 {
        lemma_segments_nonempty(s.drop_last());
    }
}

fn mentions_label(line: &Vec<char>, label: &Vec<char>) -> (r: bool)
    ensures
        r == contains_text(line@, label@),
{
    match find_from(line, label, 0) {
        Some(i) => {
            assert(occurs_at(line@, label@, i as int));
            true
        },
        None => false,
    }
}

/// The pieces of a prefix of `s`, all but its last, are pieces of `s`.
proof fn lemma_segments_prefix(s: Seq<char>, i: int)
    requires
        0 <= i <= s.len(),
    ensures
        segments(s.take(i)).len() <= segments(s).len(),
        forall|k: int| 0 <= k < segments(s.take(i)).len() - 1 ==> segments(s)[k] == #[trigger] segments(s.take(i))[k],
    decreases s.len() - i,
{
    lemma_segments_nonempty(s.take(i));
    if i < s.len() {
        lemma_segments_prefix(s, i + 1);
        assert(s.take(i + 1).drop_last() == s.take(i));
        let a = segments(s.take(i));
        let b = segments(s.take(i + 1));
        assert forall|k: int| 0 <= k < a.len() - 1 implies segments(s)[k] == #[trigger] a[k] by {
            assert(b[k] == a[k]);
        }
    } else {
        assert(s.take(i) == s);
    }
}

/// `k` is the first line of `s` that mentions the label.
pub open spec fn first_mention(s: Seq<char>, k: int) -> bool {
    &&& 0 <= k < segments(s).len()
    &&& contains_text(line_at(s, k), PLIST_LABEL@)
    &&& forall|j: int| 0 <= j < k ==> !contains_text(line_at(s, j), PLIST_LABEL@)
}

proof fn lemma_first_mention(s: Seq<char>, k: int)
    requires
        first_mention(s, k),
    ensures
        watcher_line_of(s) == Some(line_at(s, k)),
{
    let c = choose|c: int| 0 <= c < segments(s).len() && contains_text(#[trigger] line_at(s, c), PLIST_LABEL@)
        && forall|j: int| 0 <= j < c ==> !contains_text(line_at(s, j), PLIST_LABEL@);
    assert(c == k) by {
        if c < k {
            assert(!contains_text(line_at(s, c), PLIST_LABEL@));
        } else if c > k {
            assert(!contains_text(line_at(s, k), PLIST_LABEL@));
        }
    }
}

/// Finds the line of `launchctl list` output that shows the agent.
pub fn watcher_line(output: &str) -> (r: Option<String>)
    ensures
        match r {
            Some(l) => watcher_line_of(output@) == Some(l@),
            None => watcher_line_of(output@) is None,
        },
{
    let s = chars_of(output);
    let label = chars_of(PLIST_LABEL);
    let mut cur: Vec<char> = Vec::new();
    let mut i: usize = 0;
    while i < s.len()
        invariant
            s@ == output@,
            label@ == PLIST_LABEL@,
            i <= s@.len(),
            cur@ == segments(s@.take(i as int)).last(),
            segments(s@.take(i as int)).len() >= 1,
            forall|j: int| 0 <= j < segments(s@.take(i as int)).len() - 1 ==>
                !contains_text(#[trigger] line_at(s@.take(i as int), j), PLIST_LABEL@),
        decreases s.len() - i,
    {
        let ghost t = s@.take(i as int);
        let ghost t1 = s@.take(i + 1);
        assert(t1.drop_last() == t);
        assert(t1.last() == s@[i as int]);
        if s[i] == '\n' {
            let mut line = cur;
            if line.len() > 0 && line[line.len() - 1] == '\r' {
                line.pop();
            }
            let ghost k = segments(t).len() - 1;
            assert(line@ == line_at(t1, k));
            if mentions_label(&line, &label) {
                proof {
                    lemma_segments_prefix(s@, i + 1);
                    lemma_segments_prefix(s@, i as int);
                    lemma_segments_nonempty(s@);
                    assert(segments(t1).len() == k + 2);
                    assert(line_at(s@, k) == line_at(t1, k));
                    assert forall|j: int| 0 <= j < k implies !contains_text(line_at(s@, j), PLIST_LABEL@) by {
                        assert(segments(s@)[j] == segments(t)[j]);
                        assert(line_at(s@, j) == line_at(t, j));
                    }
                    lemma_first_mention(s@, k);
                }
                return Some(string_of(&line));
            }
            cur = Vec::new();
            assert forall|j: int| 0 <= j < segments(t1).len() - 1 implies !contains_text(#[trigger] line_at(t1, j), PLIST_LABEL@) by {
                if j < k {
                    assert(line_at(t1, j) == line_at(t, j));
                }
            }
        } else {
            cur.push(s[i]);
            assert forall|j: int| 0 <= j < segments(t1).len() - 1 implies !contains_text(#[trigger] line_at(t1, j), PLIST_LABEL@) by {
                assert(line_at(t1, j) == line_at(t, j));
            }
        }
        i = i + 1;
    }
    assert(s@.take(i as int) == s@);
    let ghost last = segments(s@).len() - 1;
    if mentions_label(&cur, &label) {
        proof {
            assert(line_at(s@, last) == cur@);
            lemma_first_mention(s@, last);
        }
        return Some(string_of(&cur));
    }
    proof {
        assert forall|k: int| 0 <= k < segments(s@).len() implies !contains_text(#[trigger] line_at(s@, k), PLIST_LABEL@) by {
            if k == last {
                assert(line_at(s@, last) == cur@);
            }
        }
    }
    None
}

} // verus!
