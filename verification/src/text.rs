//! Character-level string helpers shared by the formatters.
use vstd::prelude::*;

verus! {

broadcast use vstd::string::group_string_axioms;

/// The decimal digit character for `d`, which is below ten.
pub open spec fn digit_char(d: nat) -> char {
    if d == 0 { '0' }
    else if d == 1 { '1' }
    else if d == 2 { '2' }
    else if d == 3 { '3' }
    else if d == 4 { '4' }
    else if d == 5 { '5' }
    else if d == 6 { '6' }
    else if d == 7 { '7' }
    else if d == 8 { '8' }
    else { '9' }
}

/// The decimal notation of `n`, without sign or leading zeros.
pub open spec fn decimal(n: nat) -> Seq<char>
    decreases n,
{
    if n < 10 {
        seq![digit_char(n)]
    } else {
        decimal(n / 10).push(digit_char(n % 10))
    }
}

/// `n` in decimal, left-padded with zeros to at least two digits.
pub open spec fn two_digits(n: nat) -> Seq<char> {
    if n < 10 { seq!['0'].add(decimal(n)) } else { decimal(n) }
}

/// `k` copies of the character `c`.
pub open spec fn repeat_char(c: char, k: nat) -> Seq<char> {
    Seq::new(k, |i: int| c)
}

/// `s` right-aligned in a field of `width` characters (padded with spaces on the left).
pub open spec fn pad_left(s: Seq<char>, width: nat) -> Seq<char> {
    if s.len() < width { repeat_char(' ', (width - s.len()) as nat) + s } else { s }
}

/// `s` left-aligned in a field of `width` characters (padded with spaces on the right).
pub open spec fn pad_right(s: Seq<char>, width: nat) -> Seq<char> {
    if s.len() < width { s + repeat_char(' ', (width - s.len()) as nat) } else { s }
}

/// Appends one character to a string: `String::push`.
#[verifier::external_body]
pub(crate) fn push_char(s: &mut String, c: char)
    ensures
        final(s)@ == old(s)@.push(c),
{
    s.push(c);
}

/// Copies the characters of `s` into a vector.
pub fn chars_of(s: &str) -> (v: Vec<char>)
    ensures
        v@ == s@,
{
    let mut v: Vec<char> = Vec::new();
    for c in it: s.chars()
        invariant
            v@ == it.seq().take(it.index() as int),
            it.seq() == s@,
    {
        v.push(c);
    }
    v
}

/// Appends the characters of `v` to `s`.
pub fn push_chars(s: &mut String, v: &Vec<char>)
    ensures
        final(s)@ == old(s)@ + v@,
{
    let ghost start = s@;
    for i in 0..v.len()
        invariant
            s@ == start + v@.take(i as int),
    {
        push_char(s, v[i]);
        assert(v@.take(i + 1) == v@.take(i as int).push(v@[i as int]));
    }
    assert(v@.take(v.len() as int) == v@);
}

/// A string made of the characters of `v`.
pub fn string_of(v: &Vec<char>) -> (s: String)
    ensures
        s@ == v@,
{
    let mut s = String::new();
    push_chars(&mut s, v);
    s
}

/// Appends the string `t` to `s`.
pub fn push_str(s: &mut String, t: &str)
    ensures
        final(s)@ == old(s)@ + t@,
{
    let v = chars_of(t);
    push_chars(s, &v);
}

/// Appends `k` copies of `c` to `s`.
pub fn push_repeat(s: &mut String, c: char, k: usize)
    ensures
        final(s)@ == old(s)@ + repeat_char(c, k as nat),
{
    let ghost start = s@;
    for i in 0..k
        invariant
            s@ == start + repeat_char(c, i as nat),
    {
        push_char(s, c);
        assert(repeat_char(c, (i + 1) as nat) == repeat_char(c, i as nat).push(c));
    }
}

/// The digit character for `d`.
pub fn digit_of(d: u64) -> (c: char)
    requires
        d < 10,
    ensures
        c == digit_char(d as nat),
{
    if d == 0 { '0' }
    else if d == 1 { '1' }
    else if d == 2 { '2' }
    else if d == 3 { '3' }
    else if d == 4 { '4' }
    else if d == 5 { '5' }
    else if d == 6 { '6' }
    else if d == 7 { '7' }
    else if d == 8 { '8' }
    else { '9' }
}

/// The decimal notation of `n`.
pub fn decimal_of(n: u64) -> (v: Vec<char>)
    ensures
        v@ == decimal(n as nat),
    decreases n,
{
    if n < 10 {
        let mut v: Vec<char> = Vec::new();
        v.push(digit_of(n));
        assert(v@ == seq![digit_char(n as nat)]);
        v
    } else {
        let mut v = decimal_of(n / 10);
        v.push(digit_of(n % 10));
        v
    }
}

/// Appends the decimal notation of `n` to `s`.
pub fn push_decimal(s: &mut String, n: u64)
    ensures
        final(s)@ == old(s)@ + decimal(n as nat),
{
    let v = decimal_of(n);
    push_chars(s, &v);
}

/// Appends `n` in decimal with at least two digits to `s`.
pub fn push_two_digits(s: &mut String, n: u64)
    ensures
        final(s)@ == old(s)@ + two_digits(n as nat),
{
    if n < 10 {
        push_char(s, '0');
        push_decimal(s, n);
        assert(two_digits(n as nat) == seq!['0'] + decimal(n as nat));
    } else {
        push_decimal(s, n);
    }
}

/// Appends `t` to `s`, right-aligned in a field of `width` characters.
pub fn push_padded_left(s: &mut String, t: &Vec<char>, width: usize)
    ensures
        final(s)@ == old(s)@ + pad_left(t@, width as nat),
{
    if t.len() < width {
        push_repeat(s, ' ', width - t.len());
    }
    push_chars(s, t);
}

/// Appends `t` to `s`, left-aligned in a field of `width` characters.
pub fn push_padded_right(s: &mut String, t: &Vec<char>, width: usize)
    ensures
        final(s)@ == old(s)@ + pad_right(t@, width as nat),
{
    push_chars(s, t);
    if t.len() < width {
        push_repeat(s, ' ', width - t.len());
    }
}

/// Whether two strings hold the same characters.
pub fn same_text(a: &str, b: &str) -> (r: bool)
    ensures
        r == (a@ == b@),
{
    let x = chars_of(a);
    let y = chars_of(b);
    if x.len() != y.len() {
        return false;
    }
    for i in 0..x.len()
        invariant
            x@ == a@,
            y@ == b@,
            x@.len() == y@.len(),
            forall|j: int| 0 <= j < i ==> x@[j] == y@[j],
    {
        if x[i] != y[i] {
            return false;
        }
    }
    assert(x@ =~= y@);
    true
}

/// The Unicode White_Space property (PropList.txt): tab through carriage return,
/// space, next line, no-break space, ogham space mark, the spaces U+2000 to U+200A,
/// line and paragraph separators, narrow no-break space, medium mathematical space,
/// and ideographic space.
pub open spec fn char_whitespace(c: char) -> bool {
    let u = c as u32;
    ||| 0x09 <= u <= 0x0d
    ||| u == 0x20
    ||| u == 0x85
    ||| u == 0xa0
    ||| u == 0x1680
    ||| 0x2000 <= u <= 0x200a
    ||| u == 0x2028
    ||| u == 0x2029
    ||| u == 0x202f
    ||| u == 0x205f
    ||| u == 0x3000
}

/// `char::is_whitespace`, which holds of the characters with the White_Space property.
#[verifier::external_body]
pub(crate) fn is_whitespace(c: char) -> (r: bool)
    ensures
        r == char_whitespace(c),
{
    c.is_whitespace()
}

/// `s` without its leading whitespace.
pub open spec fn trim_start(s: Seq<char>) -> Seq<char>
    decreases s.len(),
{
    if s.len() > 0 && char_whitespace(s[0]) { trim_start(s.drop_first()) } else { s }
}

/// `s` without its trailing whitespace.
pub open spec fn trim_end(s: Seq<char>) -> Seq<char>
    decreases s.len(),
{
    if s.len() > 0 && char_whitespace(s.last()) { trim_end(s.drop_last()) } else { s }
}

/// `s` without leading and trailing whitespace, as `str::trim` gives it.
pub open spec fn trim(s: Seq<char>) -> Seq<char> {
    trim_end(trim_start(s))
}

/// The number of whitespace-separated words in `s`, as `split_whitespace().count()`
/// gives it: the characters that are not whitespace and start the text or follow whitespace.
pub open spec fn word_count(s: Seq<char>) -> nat
    decreases s.len(),
{
    if s.len() == 0 {
        0
    } else {
        let starts_word = !char_whitespace(s.last()) && (s.len() == 1 || char_whitespace(s[s.len() - 2]));
        word_count(s.drop_last()) + if starts_word { 1nat } else { 0nat }
    }
}

/// The characters of `s` without leading and trailing whitespace.
pub fn trim_chars(s: &Vec<char>) -> (r: Vec<char>)
    ensures
        r@ == trim(s@),
{
    let n = s.len();
    let mut a: usize = 0;
    assert(s@.subrange(0, n as int) == s@);
    while a < n && is_whitespace(s[a])
        invariant
            a <= n,
            n == s@.len(),
            trim_start(s@) == trim_start(s@.subrange(a as int, n as int)),
        decreases n - a,
    {
        assert(s@.subrange(a as int, n as int).drop_first() == s@.subrange(a + 1, n as int));
        a = a + 1;
    }
    let ghost front = s@.subrange(a as int, n as int);
    assert(trim_start(s@) == front);
    let mut b: usize = n;
    while b > a && is_whitespace(s[b - 1])
        invariant
            a <= b <= n,
            n == s@.len(),
            front == s@.subrange(a as int, n as int),
            trim_end(front) == trim_end(s@.subrange(a as int, b as int)),
        decreases b - a,
    {
        assert(s@.subrange(a as int, b as int).drop_last() == s@.subrange(a as int, b - 1));
        b = b - 1;
    }
    let mut r: Vec<char> = Vec::new();
    let mut i = a;
    while i < b
        invariant
            a <= i <= b <= n,
            n == s@.len(),
            r@ == s@.subrange(a as int, i as int),
        decreases b - i,
    {
        r.push(s[i]);
        i = i + 1;
    }
    r
}

/// The number of whitespace-separated words in `s`.
pub fn count_words(s: &Vec<char>) -> (n: usize)
    ensures
        n == word_count(s@),
{
    let mut n: usize = 0;
    let mut prev_ws = true;
    for i in 0..s.len()
        invariant
            n == word_count(s@.take(i as int)),
            n <= i,
            i > 0 ==> prev_ws == char_whitespace(s@[i - 1]),
            i == 0 ==> prev_ws,
    {
        let ws = is_whitespace(s[i]);
        assert(s@.take(i + 1).drop_last() == s@.take(i as int));
        if !ws && prev_ws {
            n = n + 1;
        }
        prev_ws = ws;
    }
    assert(s@.take(s.len() as int) == s@);
    n
}

/// `needle` occurs in `s` at position `i`.
pub open spec fn occurs_at(s: Seq<char>, needle: Seq<char>, i: int) -> bool {
    0 <= i && i + needle.len() <= s.len() && s.subrange(i, i + needle.len()) == needle
}

/// `needle` occurs in `s`.
pub open spec fn contains_text(s: Seq<char>, needle: Seq<char>) -> bool {
    exists|i: int| #[trigger] occurs_at(s, needle, i)
}

/// The first position at or after `from` where `needle` occurs in `s`, if any.
pub fn find_from(s: &Vec<char>, needle: &Vec<char>, from: usize) -> (r: Option<usize>)
    ensures
        r matches Some(i) ==> from <= i && occurs_at(s@, needle@, i as int)
            && forall|j: int| from <= j < i ==> !occurs_at(s@, needle@, j),
        r is None ==> forall|j: int| from <= j ==> !occurs_at(s@, needle@, j),
{
    let n = s.len();
    let k = needle.len();
    if k > n {
        return None;
    }
    let mut i = from;
    while i <= n - k
        invariant
            n == s@.len(),
            k == needle@.len(),
            k <= n,
            from <= i,
            forall|j: int| from <= j < i ==> !occurs_at(s@, needle@, j),
        decreases n - i,
    {
        let mut m: usize = 0;
        while m < k && s[i + m] == needle[m]
            invariant
                m <= k,
                i + k <= n,
                n == s@.len(),
                k == needle@.len(),
                forall|t: int| 0 <= t < m ==> s@[i + t] == needle@[t],
            decreases k - m,
        {
            m = m + 1;
        }
        if m == k {
            assert(s@.subrange(i as int, i + k) =~= needle@);
            return Some(i);
        }
        assert(s@.subrange(i as int, i + k)[m as int] != needle@[m as int]);
        i = i + 1;
    }
    None
}

/// Every character of `w` is whitespace.
pub open spec fn all_whitespace(w: Seq<char>) -> bool {
    forall|i: int| 0 <= i < w.len() ==> char_whitespace(w[i])
}

/// Leading whitespace goes when trimming the start.
pub proof fn lemma_trim_start_prefix(w: Seq<char>, s: Seq<char>)
    requires
        all_whitespace(w),
    ensures
        trim_start(w + s) == trim_start(s),
    decreases w.len(),
{
    if w.len() > 0 {
        assert((w + s).drop_first() == w.drop_first() + s);
        lemma_trim_start_prefix(w.drop_first(), s);
    } else {
        assert(w + s == s);
    }
}

/// Trailing whitespace goes when trimming the end.
pub proof fn lemma_trim_end_suffix(s: Seq<char>, w: Seq<char>)
    requires
        all_whitespace(w),
    ensures
        trim_end(s + w) == trim_end(s),
    decreases w.len(),
{
    if w.len() > 0 {
        assert((s + w).drop_last() == s + w.drop_last());
        lemma_trim_end_suffix(s, w.drop_last());
    } else {
        assert(s + w == s);
    }
}

/// Whitespace around a text does not change it trimmed.
pub proof fn lemma_trim_surrounded(a: Seq<char>, s: Seq<char>, b: Seq<char>)
    requires
        all_whitespace(a),
        all_whitespace(b),
    ensures
        trim(a + s + b) == trim(s),
    decreases s.len(),
{
    assert(a + s + b == a + (s + b));
    lemma_trim_start_prefix(a, s + b);
    if s.len() == 0 {
        assert(s + b == b);
        lemma_trim_start_prefix(b, seq![]);
        assert(b + Seq::<char>::empty() == b);
    } else if char_whitespace(s[0]) {
        assert((s + b).drop_first() == s.drop_first() + b);
        lemma_trim_surrounded(seq![], s.drop_first(), b);
        assert(Seq::<char>::empty() + s.drop_first() + b == s.drop_first() + b);
        assert(Seq::<char>::empty() + s.drop_first() + Seq::<char>::empty() == s.drop_first());
    } else {
        assert(trim_start(s + b) == s + b);
        assert(trim_start(s) == s);
        lemma_trim_end_suffix(s, b);
    }
}

proof fn lemma_words_whitespace_suffix(s: Seq<char>, w: Seq<char>)
    requires
        all_whitespace(w),
    ensures
        word_count(s + w) == word_count(s),
    decreases w.len(),
{
    if w.len() > 0 {
        assert((s + w).drop_last() == s + w.drop_last());
        lemma_words_whitespace_suffix(s, w.drop_last());
    } else {
        assert(s + w == s);
    }
}

proof fn lemma_words_whitespace_prefix(w: Seq<char>, s: Seq<char>)
    requires
        all_whitespace(w),
    ensures
        word_count(w + s) == word_count(s),
    decreases s.len(),
{
    if s.len() > 0 {
        assert((w + s).drop_last() == w + s.drop_last());
        lemma_words_whitespace_prefix(w, s.drop_last());
        if s.len() == 1 && w.len() > 0 {
            assert((w + s)[(w + s).len() - 2] == w.last());
        }
    } else {
        assert(w + s == w);
        lemma_words_whitespace_suffix(seq![], w);
        assert(Seq::<char>::empty() + w == w);
    }
}

proof fn lemma_trim_start_split(s: Seq<char>) -> (w: Seq<char>)
    ensures
        all_whitespace(w),
        s == w + trim_start(s),
    decreases s.len(),
{
    if s.len() > 0 && char_whitespace(s[0]) {
        let w0 = lemma_trim_start_split(s.drop_first());
        let w = seq![s[0]] + w0;
        assert(trim_start(s) == trim_start(s.drop_first()));
        assert(s =~= seq![s[0]] + s.drop_first());
        assert(w + trim_start(s) =~= seq![s[0]] + (w0 + trim_start(s.drop_first())));
        assert(s =~= w + trim_start(s));
        w
    } else {
        assert(s =~= Seq::<char>::empty() + s);
        seq![]
    }
}

proof fn lemma_trim_end_split(s: Seq<char>) -> (w: Seq<char>)
    ensures
        all_whitespace(w),
        s == trim_end(s) + w,
    decreases s.len(),
{
    if s.len() > 0 && char_whitespace(s.last()) {
        let w0 = lemma_trim_end_split(s.drop_last());
        let w = w0.push(s.last());
        assert(trim_end(s) == trim_end(s.drop_last()));
        assert(s =~= s.drop_last().push(s.last()));
        assert(trim_end(s) + w =~= (trim_end(s.drop_last()) + w0).push(s.last()));
        assert(s =~= trim_end(s) + w);
        w
    } else {
        assert(s =~= s + Seq::<char>::empty());
        seq![]
    }
}

/// Trimming a text does not change how many words it has.
pub proof fn lemma_trim_keeps_words(s: Seq<char>)
    ensures
        word_count(trim(s)) == word_count(s),
{
    let a = lemma_trim_start_split(s);
    let b = lemma_trim_end_split(trim_start(s));
    lemma_words_whitespace_prefix(a, trim_start(s));
    lemma_words_whitespace_suffix(trim(s), b);
}

} // verus!
