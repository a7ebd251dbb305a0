//! File-name slugs and human-readable durations.
use vstd::prelude::*;
use crate::text::{chars_of, decimal, push_char, push_decimal, push_two_digits, string_of, two_digits};

verus! {

/// What `str::to_lowercase` returns for the characters `s` (Unicode lowercase mapping).
pub uninterp spec fn lowercase_text(s: Seq<char>) -> Seq<char>;

/// What `char::is_alphanumeric` returns for `c` (Unicode Alphabetic or Numeric).
pub uninterp spec fn char_alphanumeric(c: char) -> bool;

/// `str::to_lowercase`: the result is the lowercase form of `s`, named `lowercase_text`.
#[verifier::external_body]
pub(crate) fn to_lowercase(s: &str) -> (r: String)
    ensures
        r@ == lowercase_text(s@),
{
    s.to_lowercase()
}

/// `char::is_alphanumeric`: the result is named `char_alphanumeric`.
#[verifier::external_body]
fn is_alphanumeric(c: char) -> (r: bool)
    ensures
        r == char_alphanumeric(c),
{
    c.is_alphanumeric()
}

/// Letters, digits, spaces, hyphens and underscores stay; anything else becomes a space.
pub open spec fn slug_char(c: char) -> char {
    if char_alphanumeric(c) || c == ' ' || c == '-' || c == '_' { c } else { ' ' }
}

/// The space-separated words of `s`, joined by single hyphens: every character but
/// a space is kept, and a hyphen goes before each word that follows another word.
pub open spec fn hyphenate(s: Seq<char>) -> Seq<char>
    decreases s.len(),
{
    if s.len() == 0 {
        seq![]
    } else {
        let prev = hyphenate(s.drop_last());
        let c = s.last();
        if c == ' ' {
            prev
        } else if s.len() >= 2 && s[s.len() - 2] != ' ' {
            prev.push(c)
        } else if prev.len() == 0 {
            prev.push(c)
        } else {
            prev.push('-').push(c)
        }
    }
}

/// The longest a slug gets, in characters.
pub const SLUG_MAX_CHARS: usize = 60;

/// The slug of text already lowercased: every character other than a letter, digit,
/// `-` or `_` turned into a space, the words joined by hyphens, cut to 60 characters.
pub open spec fn slug_text(lower: Seq<char>) -> Seq<char> {
    let s = hyphenate(lower.map_values(|c: char| slug_char(c)));
    if s.len() > 60 { s.take(60) } else { s }
}

/// The slug of a title: the slug of its lowercase form.
pub open spec fn slug_of(title: Seq<char>) -> Seq<char> {
    slug_text(lowercase_text(title))
}

/// Makes the slug of text that is already lowercase.
pub fn slug_from_lowercase(lower: &str) -> (r: String)
    ensures
        r@ == slug_text(lower@),
{
    let chars = chars_of(lower);
    let ghost m = chars@.map_values(|c: char| slug_char(c));
    let mut out: Vec<char> = Vec::new();
    let mut prev: char = ' ';
    for i in 0..chars.len()
        invariant
            m == chars@.map_values(|c: char| slug_char(c)),
            out@ == hyphenate(m.take(i as int)),
            i > 0 ==> prev == m[i - 1],
    {
        let c = chars[i];
        let k = if is_alphanumeric(c) || c == ' ' || c == '-' || c == '_' { c } else { ' ' };
        assert(k == m[i as int]);
        assert(m.take(i + 1).drop_last() == m.take(i as int));
        if k == ' ' {
        } else if i > 0 && prev != ' ' {
            out.push(k);
        } else if out.len() == 0 {
            out.push(k);
        } else {
            out.push('-');
            out.push(k);
        }
        prev = k;
    }
    assert(m.take(chars.len() as int) == m);
    if out.len() > SLUG_MAX_CHARS {
        out.truncate(SLUG_MAX_CHARS);
    }
    string_of(&out)
}

/// Turns a recording title into a file-name slug.
pub fn slugify(title: &str) -> (r: String)
    ensures
        r@ == slug_of(title@),
{
    let lower = to_lowercase(title);
    slug_from_lowercase(lower.as_str())
}

/// `total` seconds as `<h>h<mm>m<ss>s`, or `<m>m<ss>s` below an hour.
pub open spec fn duration_text(total: nat) -> Seq<char> {
    let s = total % 60;
    let m = (total / 60) % 60;
    let h = total / 3600;
    if h > 0 {
        decimal(h) + seq!['h'] + two_digits(m) + seq!['m'] + two_digits(s) + seq!['s']
    } else {
        decimal(m) + seq!['m'] + two_digits(s) + seq!['s']
    }
}

/// Formats a duration given in whole seconds, such as `2m05s` or `1h01m01s`.
pub fn format_duration(total_seconds: u64) -> (r: String)
    ensures
        r@ == duration_text(total_seconds as nat),
{
    let s = total_seconds % 60;
    let m = (total_seconds / 60) % 60;
    let h = total_seconds / 3600;
    let mut out = String::new();
    if h > 0 {
        push_decimal(&mut out, h);
        push_char(&mut out, 'h');
        push_two_digits(&mut out, m);
    } else {
        push_decimal(&mut out, m);
    }
    push_char(&mut out, 'm');
    push_two_digits(&mut out, s);
    push_char(&mut out, 's');
    out
}

/// A character a slug may hold: a letter or digit, `-` or `_`.
pub open spec fn slug_safe(c: char) -> bool {
    char_alphanumeric(c) || c == '-' || c == '_'
}

/// A slug is at most 60 characters long and holds only letters, digits, `-` and `_`
/// (so no space, and nothing that needs quoting in a file name).
pub proof fn lemma_slug_shape(title: Seq<char>)
    ensures
        slug_of(title).len() <= 60,
        forall|i: int| 0 <= i < slug_of(title).len() ==> slug_of(title)[i] != ' ',
        forall|i: int| 0 <= i < slug_of(title).len() ==> slug_safe(#[trigger] slug_of(title)[i]),
{
    let m = lowercase_text(title).map_values(|c: char| slug_char(c));
    assert forall|j: int| 0 <= j < m.len() implies m[j] == ' ' || slug_safe(#[trigger] m[j]) by {}
    lemma_hyphenate_safe(m);
    let h = hyphenate(m);
    if h.len() > 60 {
        assert forall|i: int| 0 <= i < h.take(60).len() implies slug_safe(#[trigger] h.take(60)[i]) && h.take(60)[i] != ' ' by {
            assert(h.take(60)[i] == h[i]);
        }
    }
}

/// Hyphenating text whose characters are spaces or slug-safe keeps only slug-safe ones.
proof fn lemma_hyphenate_safe(s: Seq<char>)
    requires
        forall|j: int| 0 <= j < s.len() ==> s[j] == ' ' || slug_safe(#[trigger] s[j]),
    ensures
        forall|i: int| 0 <= i < hyphenate(s).len() ==> slug_safe(#[trigger] hyphenate(s)[i]) && hyphenate(s)[i] != ' ',
    decreases s.len(),
{
    if s.len() > 0 {
        let prev = hyphenate(s.drop_last());
        assert forall|j: int| 0 <= j < s.drop_last().len() implies s.drop_last()[j] == ' ' || slug_safe(#[trigger] s.drop_last()[j]) by {
            assert(s.drop_last()[j] == s[j]);
        }
        lemma_hyphenate_safe(s.drop_last());
        let c = s.last();
        assert(c == ' ' || slug_safe(c));
        assert forall|i: int| 0 <= i < hyphenate(s).len() implies slug_safe(#[trigger] hyphenate(s)[i]) && hyphenate(s)[i] != ' ' by {
            if i < prev.len() {
                assert(hyphenate(s)[i] == prev[i]);
            }
        }
    }
}

/// Hyphenating text that has no space and no characters turned into spaces
/// changes nothing.
proof fn lemma_hyphenate_fixed(s: Seq<char>)
    requires
        forall|j: int| 0 <= j < s.len() ==> s[j] != ' ',
    ensures
        hyphenate(s) == s,
    decreases s.len(),
{
    if s.len() > 0 {
        assert forall|j: int| 0 <= j < s.drop_last().len() implies s.drop_last()[j] != ' ' by {
            assert(s.drop_last()[j] == s[j]);
        }
        lemma_hyphenate_fixed(s.drop_last());
        if s.len() >= 2 {
            assert(s[s.len() - 2] != ' ');
        }
        assert(s.drop_last().push(s.last()) =~= s);
    }
}

/// Making a slug of a slug changes nothing: its characters are all kept, it has no
/// space to turn into a hyphen, and it is no longer than 60 characters.
pub proof fn lemma_slug_text_idempotent(lower: Seq<char>)
    ensures
        slug_text(slug_text(lower)) == slug_text(lower),
{
    let t = slug_text(lower);
    let m = lower.map_values(|c: char| slug_char(c));
    assert forall|j: int| 0 <= j < m.len() implies m[j] == ' ' || slug_safe(#[trigger] m[j]) by {}
    lemma_hyphenate_safe(m);
    let h = hyphenate(m);
    assert forall|i: int| 0 <= i < t.len() implies slug_safe(#[trigger] t[i]) && t[i] != ' ' by {
        if h.len() > 60 {
            assert(t[i] == h[i]);
        }
    }
    let tm = t.map_values(|c: char| slug_char(c));
    assert(tm =~= t) by {
        assert forall|i: int| 0 <= i < t.len() implies tm[i] == t[i] by {
            assert(slug_safe(t[i]));
        }
    }
    lemma_hyphenate_fixed(t);
}

/// A slug is its own slug, as far as lowercasing leaves it as it is: when the slug
/// of `title` is its own lowercase form, slugifying it again gives it back.
pub proof fn lemma_slug_idempotent(title: Seq<char>)
    requires
        lowercase_text(slug_of(title)) == slug_of(title),
    ensures
        slug_of(slug_of(title)) == slug_of(title),
{
    lemma_slug_text_idempotent(lowercase_text(title));
}

} // verus!
