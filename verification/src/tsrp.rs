//! Locating the `tsrp` transcript atom in an m4a file and reading its JSON payload.
use vstd::prelude::*;
use crate::json::{as_array, as_object, as_str, json_parse_bytes, json_tree, map_get, parse_json_bytes, trees_of, JsonTree};
use crate::text::{chars_of, push_str, string_of, trim, trim_chars};

verus! {

/// The four bytes `t`, `s`, `r`, `p` that name a transcript atom.
pub open spec fn is_marker_at(data: Seq<u8>, i: int) -> bool {
    &&& 0 <= i
    &&& i + 4 <= data.len()
    &&& data[i] == 0x74u8
    &&& data[i + 1] == 0x73u8
    &&& data[i + 2] == 0x72u8
    &&& data[i + 3] == 0x70u8
}

/// `i` is where the marker first occurs in `data`.
pub open spec fn is_first_marker(data: Seq<u8>, i: int) -> bool {
    &&& is_marker_at(data, i)
    &&& forall|j: int| 0 <= j < i ==> !is_marker_at(data, j)
}

/// The marker occurs somewhere in `data`.
pub open spec fn has_marker(data: Seq<u8>) -> bool {
    exists|i: int| is_marker_at(data, i)
}

/// The big-endian 32-bit number held by the four bytes of `data` starting at `i`.
pub open spec fn be_u32_at(data: Seq<u8>, i: int) -> int {
    data[i] * 16777216 + data[i + 1] * 65536 + data[i + 2] * 256 + data[i + 3]
}

/// The payload of the atom whose marker stands at `idx`: the atom starts four bytes
/// before the marker with its big-endian size, which counts the size field and the
/// marker. There is none when the size field does not fit before the marker, when
/// the size is below 8, or when the atom runs past the end of `data`.
pub open spec fn atom_payload(data: Seq<u8>, idx: int) -> Option<Seq<u8>> {
    if idx < 4 {
        None
    } else {
        let size = be_u32_at(data, idx - 4);
        if size < 8 || idx - 4 + size > data.len() {
            None
        } else {
            Some(data.subrange(idx + 4, idx - 4 + size))
        }
    }
}

/// Whether the marker stands at `i` (which is at most `data.len() - 4`).
fn marker_at(data: &[u8], i: usize) -> (r: bool)
    requires
        i + 4 <= data@.len(),
    ensures
        r == is_marker_at(data@, i as int),
{
    data[i] == 0x74u8 && data[i + 1] == 0x73u8 && data[i + 2] == 0x72u8 && data[i + 3] == 0x70u8
}

/// Position of the first marker in `data`, if any.
fn first_marker(data: &[u8]) -> (r: Option<usize>)
    ensures
        r matches Some(i) ==> is_first_marker(data@, i as int),
        r is None ==> !has_marker(data@),
{
    if data.len() < 4 {
        return None;
    }
    let end = data.len() - 3;
    for i in 0..end
        invariant
            end + 3 == data@.len(),
            forall|j: int| 0 <= j < i ==> !is_marker_at(data@, j),
    {
        if marker_at(data, i) {
            return Some(i);
        }
    }
    None
}

/// The payload of the first `tsrp` atom in `data`: the atom of the first marker,
/// if that atom is well formed; none when there is no marker.
pub open spec fn tsrp_payload(data: Seq<u8>) -> Option<Seq<u8>> {
    if exists|i: int| is_first_marker(data, i) {
        atom_payload(data, choose|i: int| is_first_marker(data, i))
    } else {
        None
    }
}

/// There is at most one first marker.
proof fn lemma_first_marker_unique(data: Seq<u8>, i: int, k: int)
    requires
        is_first_marker(data, i),
        is_first_marker(data, k),
    ensures
        i == k,
{
    if k < i {
        assert(!is_marker_at(data, k));
    } else if k > i {
        assert(!is_marker_at(data, i));
    }
}

/// The view of an optional byte slice.
pub open spec fn opt_bytes(o: Option<&[u8]>) -> Option<Seq<u8>> {
    match o {
        Some(p) => Some(p@),
        None => None,
    }
}

/// Finds the first `tsrp` atom in `data` and returns its payload: the bytes after
/// the marker up to the end of the atom as its size field gives it.
pub fn find_tsrp(data: &[u8]) -> (r: Option<&[u8]>)
    ensures
        opt_bytes(r) == tsrp_payload(data@),
        !has_marker(data@) ==> r is None,
{
    let idx = match first_marker(data) {
        Some(i) => i,
        None => {
            assert(forall|i: int| !is_first_marker(data@, i));
            return None;
        },
    };
    proof {
        let k = choose|k: int| is_first_marker(data@, k);
        lemma_first_marker_unique(data@, idx as int, k);
    }
    if idx < 4 {
        return None;
    }
    let atom_start = idx - 4;
    let size: u64 = (data[atom_start] as u64) * 16777216 + (data[atom_start + 1] as u64) * 65536
        + (data[atom_start + 2] as u64) * 256 + (data[atom_start + 3] as u64);
    assert(size == be_u32_at(data@, atom_start as int));
    if size < 8 || size > (data.len() - atom_start) as u64 {
        return None;
    }
    let end = atom_start + size as usize;
    Some(&data[idx + 4..end])
}

/// `n` as four big-endian bytes (for `n` below 2^32).
pub open spec fn be_bytes(n: nat) -> Seq<u8> {
    seq![(n / 16777216) as u8, ((n / 65536) % 256) as u8, ((n / 256) % 256) as u8, (n % 256) as u8]
}

/// A `tsrp` atom holding `payload`: its size (eight header bytes plus the payload),
/// the marker, and the payload.
pub open spec fn tsrp_atom(payload: Seq<u8>) -> Seq<u8> {
    be_bytes(8 + payload.len()) + seq![0x74u8, 0x73u8, 0x72u8, 0x70u8] + payload
}

proof fn lemma_be_bytes(n: nat)
    requires
        n < 4294967296,
    ensures
        be_bytes(n).len() == 4,
        be_bytes(n)[0] * 16777216 + be_bytes(n)[1] * 65536 + be_bytes(n)[2] * 256 + be_bytes(n)[3] == n,
{
    let a = n / 16777216;
    let b = (n / 65536) % 256;
    let c = (n / 256) % 256;
    let d = n % 256;
    assert(a < 256 && a * 16777216 + b * 65536 + c * 256 + d == n) by (nonlinear_arith)
        requires
            n < 4294967296,
            a == n / 16777216,
            b == (n / 65536) % 256,
            c == (n / 256) % 256,
            d == n % 256,
    ;
}

/// A well-formed atom is read back: in data made of a prefix, a `tsrp` atom and any
/// suffix, where the marker does not already occur before the atom's own,
/// `find_tsrp` finds the atom's marker first and gives back exactly its payload.
pub proof fn lemma_atom_read_back(prefix: Seq<u8>, payload: Seq<u8>, suffix: Seq<u8>)
    requires
        8 + payload.len() < 4294967296,
        forall|j: int| 0 <= j < prefix.len() + 4 ==> !is_marker_at(prefix + tsrp_atom(payload) + suffix, j),
    ensures
        tsrp_payload(prefix + tsrp_atom(payload) + suffix) == Some(payload),
{
    let data = prefix + tsrp_atom(payload) + suffix;
    let p = prefix.len() as int;
    let n = (8 + payload.len()) as nat;
    lemma_be_bytes(n);
    let atom = tsrp_atom(payload);
    assert(atom.len() == 8 + payload.len());
    assert forall|k: int| 0 <= k < atom.len() implies data[p + k] == atom[k] by {}
    assert(data[p + 4] == 0x74u8);
    assert(data[p + 5] == 0x73u8);
    assert(data[p + 6] == 0x72u8);
    assert(data[p + 7] == 0x70u8);
    assert(is_marker_at(data, p + 4));
    assert(be_u32_at(data, p) == n) by {
        assert(data[p] == be_bytes(n)[0]);
        assert(data[p + 1] == be_bytes(n)[1]);
        assert(data[p + 2] == be_bytes(n)[2]);
        assert(data[p + 3] == be_bytes(n)[3]);
    }
    assert(data.subrange(p + 8, p + n) =~= payload) by {
        assert forall|k: int| 0 <= k < payload.len() implies data.subrange(p + 8, p + n)[k] == payload[k] by {
            assert(data[p + 8 + k] == atom[8 + k]);
        }
    }
    assert(is_first_marker(data, p + 4));
    let c = choose|c: int| is_first_marker(data, c);
    lemma_first_marker_unique(data, p + 4, c);
}

/// The text runs of a transcript document: the array under `attributedString`, or
/// the array under `runs` when `attributedString` is an object.
pub open spec fn transcript_runs(doc: JsonTree) -> Option<Seq<JsonTree>> {
    match doc {
        JsonTree::Object(m) => if m.contains_key("attributedString"@) {
            match m["attributedString"@] {
                JsonTree::Object(inner) => if inner.contains_key("runs"@) {
                    match inner["runs"@] {
                        JsonTree::Array(items) => Some(items),
                        _ => None,
                    }
                } else {
                    None
                },
                JsonTree::Array(items) => Some(items),
                _ => None,
            }
        } else {
            None
        },
        _ => None,
    }
}

/// The string runs of `runs` put together in order; runs that are not strings are skipped.
pub open spec fn runs_text(runs: Seq<JsonTree>) -> Seq<char>
    decreases runs.len(),
{
    if runs.len() == 0 {
        seq![]
    } else {
        runs_text(runs.drop_last()) + match runs.last() {
            JsonTree::Str(s) => s,
            _ => seq![],
        }
    }
}

/// Putting runs together is concatenation: the runs of two lists give the text of
/// the first followed by the text of the second.
pub proof fn lemma_runs_text_concat(a: Seq<JsonTree>, b: Seq<JsonTree>)
    ensures
        runs_text(a + b) == runs_text(a) + runs_text(b),
    decreases b.len(),
{
    if b.len() == 0 {
        assert(a + b =~= a);
        assert(runs_text(a) + seq![] =~= runs_text(a));
    } else {
        lemma_runs_text_concat(a, b.drop_last());
        assert((a + b).drop_last() =~= a + b.drop_last());
        assert((a + b).last() == b.last());
    }
}

/// Each string run gives exactly its own characters, whatever they are (spaces and
/// line breaks included), and a run that is not a string gives none: appending a run
/// appends its text.
pub proof fn lemma_runs_text_one_run(runs: Seq<JsonTree>, s: Seq<char>, other: JsonTree)
    ensures
        runs_text(runs.push(JsonTree::Str(s))) == runs_text(runs) + s,
        !(other is Str) ==> runs_text(runs.push(other)) == runs_text(runs),
        runs_text(seq![JsonTree::Str(s)]) == s,
{
    assert(runs.push(JsonTree::Str(s)).drop_last() =~= runs);
    assert(runs.push(other).drop_last() =~= runs);
    assert(seq![JsonTree::Str(s)].drop_last() =~= Seq::<JsonTree>::empty());
    assert(runs_text(runs) + seq![] =~= runs_text(runs));
    let one = seq![JsonTree::Str(s)];
    assert(one.last() == JsonTree::Str(s));
    assert(runs_text(one.drop_last()) == Seq::<char>::empty());
    assert(Seq::<char>::empty() + s =~= s);
}

/// The transcript a document holds: its runs put together and trimmed, or none when
/// the document has no runs or the text is blank.
pub open spec fn transcript_of_tree(doc: JsonTree) -> Option<Seq<char>> {
    match transcript_runs(doc) {
        None => None,
        Some(runs) => {
            let text = trim(runs_text(runs));
            if text.len() == 0 { None } else { Some(text) }
        },
    }
}

/// The transcript held by the payload of a `tsrp` atom, read as JSON.
pub open spec fn transcript_of_payload(payload: Seq<u8>) -> Option<Seq<char>> {
    match json_parse_bytes(payload) {
        None => None,
        Some(doc) => transcript_of_tree(doc),
    }
}

/// The transcript held by a parsed transcript document.
pub fn transcript_from_json(doc: &serde_json::Value) -> (r: Option<String>)
    ensures
        match r {
            Some(t) => transcript_of_tree(json_tree(*doc)) == Some(t@),
            None => transcript_of_tree(json_tree(*doc)) is None,
        },
{
    let obj = match as_object(doc) {
        Some(o) => o,
        None => return None,
    };
    let astr = match map_get(obj, "attributedString") {
        Some(a) => a,
        None => return None,
    };
    let runs = match as_object(astr) {
        Some(inner) => match map_get(inner, "runs") {
            Some(r) => match as_array(r) {
                Some(items) => items,
                None => return None,
            },
            None => return None,
        },
        None => match as_array(astr) {
            Some(items) => items,
            None => return None,
        },
    };
    let ghost trees = trees_of(runs@);
    assert(transcript_runs(json_tree(*doc)) == Some(trees));
    let mut text = String::new();
    for i in 0..runs.len()
        invariant
            trees == trees_of(runs@),
            text@ == runs_text(trees.take(i as int)),
    {
        assert(trees.take(i + 1).drop_last() == trees.take(i as int));
        match as_str(&runs[i]) {
            Some(s) => push_str(&mut text, s),
            None => {
                assert(text@ == text@ + Seq::<char>::empty());
            },
        }
        assert(text@ =~= runs_text(trees.take(i + 1)));
    }
    assert(trees.take(runs.len() as int) == trees);
    let trimmed = trim_chars(&chars_of(text.as_str()));
    if trimmed.len() == 0 {
        None
    } else {
        Some(string_of(&trimmed))
    }
}

/// Reads the JSON payload of a `tsrp` atom and returns the transcript it holds.
pub fn parse_tsrp(payload: &[u8]) -> (r: Option<String>)
    ensures
        match r {
            Some(t) => transcript_of_payload(payload@) == Some(t@),
            None => transcript_of_payload(payload@) is None,
        },
{
    match parse_json_bytes(payload) {
        Some(doc) => transcript_from_json(&doc),
        None => None,
    }
}

/// The transcript embedded in an audio file: the one in the payload of its first
/// `tsrp` atom.
pub open spec fn embedded_transcript_of(data: Seq<u8>) -> Option<Seq<char>> {
    match tsrp_payload(data) {
        Some(payload) => transcript_of_payload(payload),
        None => None,
    }
}

/// The transcript embedded in the bytes of an m4a file, if any.
pub fn embedded_transcript(data: &[u8]) -> (r: Option<String>)
    ensures
        match r {
            Some(t) => embedded_transcript_of(data@) == Some(t@),
            None => embedded_transcript_of(data@) is None,
        },
{
    match find_tsrp(data) {
        Some(payload) => parse_tsrp(payload),
        None => None,
    }
}

} // verus!
