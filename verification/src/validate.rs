//! Input hardening: control characters, resource names and the output directory.
use vstd::prelude::*;
use crate::text::{chars_of, decimal, push_char, push_chars, push_decimal, push_str, string_of};

verus! {

broadcast use vstd::string::group_string_axioms;

/// Unicode general category Cc: the C0 codes U+0000..U+001F, DEL, and the C1 codes
/// U+0080..U+009F.
pub open spec fn is_control_code(c: char) -> bool {
    (c as u32) <= 0x1f || (0x7f <= (c as u32) && (c as u32) <= 0x9f)
}

/// `char::is_control`, which holds of the characters of general category Cc.
#[verifier::external_body]
fn is_control(c: char) -> (r: bool)
    ensures
        r == is_control_code(c),
{
    c.is_control()
}

/// A control character other than newline, carriage return and tab.
pub open spec fn is_rejected_control(c: char) -> bool {
    is_control_code(c) && c != '\n' && c != '\r' && c != '\t'
}

/// The upper-case hexadecimal digit for `d`, which is below sixteen.
pub open spec fn hex_digit_char(d: nat) -> char {
    if d < 10 { crate::text::digit_char(d) }
    else if d == 10 { 'A' }
    else if d == 11 { 'B' }
    else if d == 12 { 'C' }
    else if d == 13 { 'D' }
    else if d == 14 { 'E' }
    else { 'F' }
}

/// `n` in upper-case hexadecimal.
pub open spec fn hex_upper(n: nat) -> Seq<char>
    decreases n,
{
    if n < 16 {
        seq![hex_digit_char(n)]
    } else {
        hex_upper(n / 16).push(hex_digit_char(n % 16))
    }
}

/// `s` with zeros in front up to `width` characters.
pub open spec fn zero_padded(s: Seq<char>, width: nat) -> Seq<char> {
    if s.len() < width { crate::text::repeat_char('0', (width - s.len()) as nat) + s } else { s }
}

/// The message for a rejected character `c` at character position `i`.
pub open spec fn control_message(c: char, i: nat) -> Seq<char> {
    "control character U+"@ + zero_padded(hex_upper((c as u32) as nat), 4) + " at position "@ + decimal(i)
}

fn hex_digit(d: u32) -> (c: char)
    requires
        d < 16,
    ensures
        c == hex_digit_char(d as nat),
{
    if d < 10 {
        crate::text::digit_of(d as u64)
    } else if d == 10 { 'A' }
    else if d == 11 { 'B' }
    else if d == 12 { 'C' }
    else if d == 13 { 'D' }
    else if d == 14 { 'E' }
    else { 'F' }
}

fn hex_of(n: u32) -> (v: Vec<char>)
    ensures
        v@ == hex_upper(n as nat),
    decreases n,
{
    if n < 16 {
        let mut v: Vec<char> = Vec::new();
        v.push(hex_digit(n));
        assert(v@ == seq![hex_digit_char(n as nat)]);
        v
    } else {
        let mut v = hex_of(n / 16);
        v.push(hex_digit(n % 16));
        v
    }
}

/// Refuses text that holds a control character other than newline, carriage return
/// or tab; the error names the first such character and its position.
pub fn reject_control_chars(input: &str) -> (r: Result<(), String>)
    ensures
        r is Ok <==> forall|i: int| 0 <= i < input@.len() ==> !is_rejected_control(input@[i]),
        r matches Err(e) ==> exists|i: int|
            0 <= i < input@.len() && is_rejected_control(input@[i])
            && (forall|j: int| 0 <= j < i ==> !is_rejected_control(input@[j]))
            && e@ == control_message(input@[i], i as nat),
{
    let chars = chars_of(input);
    for i in 0..chars.len()
        invariant
            chars@ == input@,
            forall|j: int| 0 <= j < i ==> !is_rejected_control(input@[j]),
    {
        let c = chars[i];
        if is_control(c) && c != '\n' && c != '\r' && c != '\t' {
            let mut msg = String::new();
            push_str(&mut msg, "control character U+");
            let hex = hex_of(c as u32);
            if hex.len() < 4 {
                crate::text::push_repeat(&mut msg, '0', 4 - hex.len());
            }
            push_chars(&mut msg, &hex);
            push_str(&mut msg, " at position ");
            push_decimal(&mut msg, i as u64);
            assert(msg@ == control_message(input@[i as int], i as nat));
            return Err(msg);
        }
    }
    Ok(())
}

/// Two consecutive dots somewhere in `s`.
pub open spec fn has_double_dot(s: Seq<char>) -> bool {
    exists|i: int| #[trigger] dots_at(s, i)
}

/// Two dots at positions `i` and `i + 1` of `s`.
pub open spec fn dots_at(s: Seq<char>, i: int) -> bool {
    0 <= i && i + 1 < s.len() && s[i] == '.' && s[i + 1] == '.'
}

/// Whether `s` holds `c`.
fn has_char(s: &Vec<char>, c: char) -> (r: bool)
    ensures
        r == s@.contains(c),
{
    for i in 0..s.len()
        invariant
            forall|j: int| 0 <= j < i ==> s@[j] != c,
    {
        if s[i] == c {
            assert(s@[i as int] == c);
            return true;
        }
    }
    false
}

/// Whether `s` holds two consecutive dots.
fn has_dots(s: &Vec<char>) -> (r: bool)
    ensures
        r == has_double_dot(s@),
{
    if s.len() < 2 {
        return false;
    }
    for i in 0..s.len() - 1
        invariant
            s@.len() >= 2,
            forall|j: int| 0 <= j < i ==> !dots_at(s@, j),
    {
        if s[i] == '.' && s[i + 1] == '.' {
            assert(dots_at(s@, i as int));
            return true;
        }
    }
    false
}

/// The verdict on a resource name (such as a recording id): the first rule it breaks.
pub open spec fn resource_name_verdict(name: Seq<char>) -> Result<(), Seq<char>> {
    if name.len() == 0 {
        Err("resource name cannot be empty"@)
    } else if name.contains('?') {
        Err("resource name contains '?' (possible embedded query params)"@)
    } else if name.contains('#') {
        Err("resource name contains '#' (possible fragment)"@)
    } else if name.contains('%') {
        Err("resource name contains '%' (possible pre-encoded string)"@)
    } else if has_double_dot(name) {
        Err("resource name contains '..' (possible path traversal)"@)
    } else {
        Ok(())
    }
}

/// Refuses an empty resource name and one holding `?`, `#`, `%` or `..`.
pub fn validate_resource_name(name: &str) -> (r: Result<(), String>)
    ensures
        r is Ok <==> resource_name_verdict(name@) is Ok,
        r matches Err(e) ==> resource_name_verdict(name@) == Err::<(), Seq<char>>(e@),
{
    let chars = chars_of(name);
    if chars.len() == 0 {
        return Err("resource name cannot be empty".to_string());
    }
    if has_char(&chars, '?') {
        return Err("resource name contains '?' (possible embedded query params)".to_string());
    }
    if has_char(&chars, '#') {
        return Err("resource name contains '#' (possible fragment)".to_string());
    }
    if has_char(&chars, '%') {
        return Err("resource name contains '%' (possible pre-encoded string)".to_string());
    }
    if has_dots(&chars) {
        return Err("resource name contains '..' (possible path traversal)".to_string());
    }
    Ok(())
}

/// What `Path::starts_with` returns for the paths spelled `path` and `base`: whether
/// the components of `base` are the leading components of `path`.
pub uninterp spec fn path_starts_with(path: Seq<char>, base: Seq<char>) -> bool;

/// `Path::starts_with` on two paths given as text; the result is named `path_starts_with`.
#[verifier::external_body]
fn starts_with_path(path: &str, base: &str) -> (r: bool)
    ensures
        r == path_starts_with(path@, base@),
{
    std::path::Path::new(path).starts_with(std::path::Path::new(base))
}

/// The verdict on an output directory. `home` is the user's home directory, if
/// known; `path` the directory as given; `canonical` is `None` when it does not
/// exist, else the outcome of resolving it (the resolved path, or why that failed).
pub open spec fn output_dir_verdict(
    home: Option<Seq<char>>,
    path: Seq<char>,
    canonical: Option<Result<Seq<char>, Seq<char>>>,
) -> Result<(), Seq<char>> {
    match home {
        None => Err("cannot determine home directory"@),
        Some(h) => match canonical {
            Some(Err(why)) => Err("cannot resolve path: "@ + why),
            Some(Ok(resolved)) => if path_starts_with(resolved, h) {
                Ok(())
            } else {
                Err("output directory must be under home: "@ + resolved)
            },
            None => if has_double_dot(path) {
                Err("path contains traversal: "@ + path)
            } else if path_starts_with(path, h) {
                Ok(())
            } else {
                Err("output directory must be under home: "@ + path)
            },
        },
    }
}

/// For a directory that exists, only where it resolves to counts: the verdict is the
/// same whatever the path was spelled as, and it is `Ok` exactly when the resolved
/// path lies under the home directory. A directory that cannot be resolved is refused.
pub proof fn lemma_existing_dir_judged_by_resolved_path(
    home: Seq<char>,
    path: Seq<char>,
    other_spelling: Seq<char>,
    resolved: Seq<char>,
    why: Seq<char>,
)
    ensures
        output_dir_verdict(Some(home), path, Some(Ok(resolved)))
            == output_dir_verdict(Some(home), other_spelling, Some(Ok(resolved))),
        output_dir_verdict(Some(home), path, Some(Ok(resolved))) is Ok <==> path_starts_with(resolved, home),
        output_dir_verdict(Some(home), path, Some(Err(why))) is Err,
{
}

/// The view of a resolution outcome.
pub open spec fn canonical_view(c: Option<Result<String, String>>) -> Option<Result<Seq<char>, Seq<char>>> {
    match c {
        None => None,
        Some(Ok(p)) => Some(Ok(p@)),
        Some(Err(e)) => Some(Err(e@)),
    }
}

/// Decides whether an output directory may be used: it must lie under the home
/// directory, and a directory that does not exist yet may not hold `..`.
pub fn check_output_dir(home: Option<&str>, path: &str, canonical: Option<Result<String, String>>) -> (r: Result<(), String>)
    ensures
        ({
            let home_view = match home { Some(h) => Some(h@), None => None };
            let verdict = output_dir_verdict(home_view, path@, canonical_view(canonical));
            &&& (r is Ok <==> verdict is Ok)
            &&& (r matches Err(e) ==> verdict == Err::<(), Seq<char>>(e@))
        }),
{
    let h = match home {
        Some(h) => h,
        None => return Err("cannot determine home directory".to_string()),
    };
    match canonical {
        Some(Err(why)) => {
            let mut msg = "cannot resolve path: ".to_string();
            push_str(&mut msg, why.as_str());
            Err(msg)
        },
        Some(Ok(resolved)) => {
            if starts_with_path(resolved.as_str(), h) {
                Ok(())
            } else {
                let mut msg = "output directory must be under home: ".to_string();
                push_str(&mut msg, resolved.as_str());
                Err(msg)
            }
        },
        None => {
            let chars = chars_of(path);
            if has_dots(&chars) {
                let mut msg = "path contains traversal: ".to_string();
                push_str(&mut msg, path);
                Err(msg)
            } else if starts_with_path(path, h) {
                Ok(())
            } else {
                let mut msg = "output directory must be under home: ".to_string();
                push_str(&mut msg, path);
                Err(msg)
            }
        },
    }
}

} // verus!
