//! Character-level matching used by the log line grammar.
use vstd::prelude::*;

verus! {

/// The character classes that the log line grammar distinguishes.
#[derive(Clone, Copy, PartialEq, Eq)]
pub enum CharClass {
    /// `0-9`
    Digit,
    /// `A-Z`, `0-9` and `_`: a build platform token
    Platform,
    /// letters, digits and `_`
    Word,
    /// a word character or `-`
    WordOrHyphen,
    /// a word character or `/`
    WordOrSlash,
}

pub open spec fn is_digit(c: char) -> bool {
    '0' <= c && c <= '9'
}

pub open spec fn is_word(c: char) -> bool {
    is_digit(c) || ('a' <= c && c <= 'z') || ('A' <= c && c <= 'Z') || c == '_'
}

pub open spec fn is_space(c: char) -> bool {
    c == ' ' || c == '\t' || c == '\n' || c == '\r' || c == '\x0B' || c == '\x0C'
}

pub open spec fn in_class(c: char, k: CharClass) -> bool {
    match k {
        CharClass::Digit => is_digit(c),
        CharClass::Platform => is_digit(c) || ('A' <= c && c <= 'Z') || c == '_',
        CharClass::Word => is_word(c),
        CharClass::WordOrHyphen => is_word(c) || c == '-',
        CharClass::WordOrSlash => is_word(c) || c == '/',
    }
}

pub fn class_has(c: char, k: CharClass) -> (r: bool)
    ensures
        r == in_class(c, k),
{
    let digit = '0' <= c && c <= '9';
    let word = digit || ('a' <= c && c <= 'z') || ('A' <= c && c <= 'Z') || c == '_';
    match k {
        CharClass::Digit => digit,
        CharClass::Platform => digit || ('A' <= c && c <= 'Z') || c == '_',
        CharClass::Word => word,
        CharClass::WordOrHyphen => word || c == '-',
        CharClass::WordOrSlash => word || c == '/',
    }
}

pub fn char_is_space(c: char) -> (r: bool)
    ensures
        r == is_space(c),
{
    c == ' ' || c == '\t' || c == '\n' || c == '\r' || c == '\x0B' || c == '\x0C'
}

/// The end of the longest run of characters of class `k` that starts at `i`.
pub open spec fn run_end(s: Seq<char>, i: int, k: CharClass) -> int
    decreases s.len() - i,
{
    if 0 <= i < s.len() && in_class(s[i], k) {
        run_end(s, i + 1, k)
    } else {
        i
    }
}

pub proof fn lemma_run_end_bounds(s: Seq<char>, i: int, k: CharClass)
    requires
        0 <= i <= s.len(),
    ensures
        i <= run_end(s, i, k) <= s.len(),
        forall|j: int| i <= j < run_end(s, i, k) ==> in_class(#[trigger] s[j], k),
        run_end(s, i, k) < s.len() ==> !in_class(s[run_end(s, i, k)], k),
    decreases s.len() - i,
{
    if i < s.len() && in_class(s[i], k) {
        lemma_run_end_bounds(s, i + 1, k);
    }
}

pub fn scan_run(s: &[char], i: usize, k: CharClass) -> (r: usize)
    requires
        i <= s@.len(),
    ensures
        r as int == run_end(s@, i as int, k),
        i <= r <= s@.len(),
{
    proof {
        lemma_run_end_bounds(s@, i as int, k);
    }
    let mut j = i;
    while j < s.len() && class_has(s[j], k)
        invariant
            i <= j <= s@.len(),
            run_end(s@, j as int, k) == run_end(s@, i as int, k),
        decreases s@.len() - j,
    {
        j = j + 1;
    }
    j
}

/// `p` occurs in `s` at position `i`.
pub open spec fn occurs_at(s: Seq<char>, p: Seq<char>, i: int) -> bool {
    0 <= i && i + p.len() <= s.len() && s.subrange(i, i + p.len()) == p
}

pub open spec fn has_prefix(s: Seq<char>, p: Seq<char>) -> bool {
    occurs_at(s, p, 0)
}

/// The first position at or after `i` where `p` occurs in `s`.
pub open spec fn find_from(s: Seq<char>, p: Seq<char>, i: int) -> Option<int>
    decreases s.len() + 1 - i,
{
    if i < 0 || i + p.len() > s.len() {
        None
    } else if occurs_at(s, p, i) {
        Some(i)
    } else {
        find_from(s, p, i + 1)
    }
}

/// The first position where `p` occurs in `s`.
pub open spec fn find(s: Seq<char>, p: Seq<char>) -> Option<int> {
    find_from(s, p, 0)
}

/// The last position at or before `i` where `p` occurs in `s`.
pub open spec fn rfind_below(s: Seq<char>, p: Seq<char>, i: int) -> Option<int>
    decreases i + 1,
{
    if i < 0 {
        None
    } else if occurs_at(s, p, i) {
        Some(i)
    } else {
        rfind_below(s, p, i - 1)
    }
}

/// The last position where `p` occurs in `s`.
pub open spec fn rfind(s: Seq<char>, p: Seq<char>) -> Option<int> {
    rfind_below(s, p, s.len() - p.len())
}

pub proof fn lemma_find_from_bounds(s: Seq<char>, p: Seq<char>, i: int)
    ensures
        find_from(s, p, i) matches Some(n) ==> i <= n && occurs_at(s, p, n),
    decreases s.len() + 1 - i,
{
    if !(i < 0 || i + p.len() > s.len()) && !occurs_at(s, p, i) {
        lemma_find_from_bounds(s, p, i + 1);
    }
}

pub proof fn lemma_rfind_below_bounds(s: Seq<char>, p: Seq<char>, i: int)
    ensures
        rfind_below(s, p, i) matches Some(n) ==> n <= i && occurs_at(s, p, n),
    decreases i + 1,
{
    if i >= 0 && !occurs_at(s, p, i) {
        lemma_rfind_below_bounds(s, p, i - 1);
    }
}

pub fn matches_at(s: &[char], p: &[char], i: usize) -> (r: bool)
    ensures
        r == occurs_at(s@, p@, i as int),
{
    if i > s.len() || p.len() > s.len() - i {
        return false;
    }
    let n = s.len();
    let mut k: usize = 0;
    while k < p.len()
        invariant
            n == s@.len(),
            k <= p@.len(),
            i + p@.len() <= s@.len(),
            forall|j: int| 0 <= j < k ==> s@[i + j] == p@[j],
        decreases p@.len() - k,
    {
        assert(i + k < s@.len());
        if s[i + k] != p[k] {
            assert(s@.subrange(i as int, i + p@.len())[k as int] != p@[k as int]);
            return false;
        }
        k = k + 1;
    }
    assert(s@.subrange(i as int, i + p@.len()) =~= p@);
    true
}

pub fn starts_with(s: &[char], p: &[char]) -> (r: bool)
    ensures
        r == has_prefix(s@, p@),
{
    matches_at(s, p, 0)
}

pub fn eq_chars(a: &[char], b: &[char]) -> (r: bool)
    ensures
        r == (a@ == b@),
{
    if a.len() != b.len() {
        return false;
    }
    let r = starts_with(a, b);
    assert(a@.subrange(0, b@.len() as int) =~= a@);
    if r {
        assert(a@ == b@);
    } else {
        assert(a@ != b@);
    }
    r
}

/// `s` starts with `a + b` exactly when it starts with `a` and `b` follows.
pub proof fn lemma_prefix_concat(s: Seq<char>, a: Seq<char>, b: Seq<char>)
    ensures
        has_prefix(s, a + b) == (has_prefix(s, a) && occurs_at(s, b, a.len() as int)),
{
    if has_prefix(s, a + b) {
        assert(s.subrange(0, a.len() as int) =~= (a + b).subrange(0, a.len() as int));
        assert((a + b).subrange(0, a.len() as int) =~= a);
        assert(s.subrange(a.len() as int, (a.len() + b.len()) as int) =~= (a + b).subrange(
            a.len() as int,
            (a.len() + b.len()) as int,
        ));
        assert((a + b).subrange(a.len() as int, (a.len() + b.len()) as int) =~= b);
    }
    if has_prefix(s, a) && occurs_at(s, b, a.len() as int) {
        assert(s.subrange(0, (a + b).len() as int) =~= a + b);
    }
}

pub fn find_chars(s: &[char], p: &[char]) -> (r: Option<usize>)
    ensures
        r matches Some(n) ==> find(s@, p@) == Some(n as int),
        r is None ==> find(s@, p@) is None,
{
    if p.len() > s.len() {
        return None;
    }
    let mut i: usize = 0;
    let last = s.len() - p.len();
    loop
        invariant
            last == s@.len() - p@.len(),
            i <= last,
            find_from(s@, p@, 0) == find_from(s@, p@, i as int),
        decreases last - i,
    {
        if matches_at(s, p, i) {
            return Some(i);
        }
        if i == last {
            assert(find_from(s@, p@, i + 1) is None);
            return None;
        }
        i = i + 1;
    }
}

pub fn rfind_chars(s: &[char], p: &[char]) -> (r: Option<usize>)
    ensures
        r matches Some(n) ==> rfind(s@, p@) == Some(n as int),
        r is None ==> rfind(s@, p@) is None,
{
    if p.len() > s.len() {
        return None;
    }
    let mut i: usize = s.len() - p.len();
    loop
        invariant
            i + p@.len() <= s@.len(),
            rfind(s@, p@) == rfind_below(s@, p@, i as int),
        decreases i,
    {
        if matches_at(s, p, i) {
            return Some(i);
        }
        if i == 0 {
            assert(rfind_below(s@, p@, -1) is None);
            return None;
        }
        i = i - 1;
    }
}

/// The number written by a string of decimal digits.
pub open spec fn digits_value(s: Seq<char>) -> nat
    decreases s.len(),
{
    if s.len() == 0 {
        0
    } else {
        digits_value(s.drop_last()) * 10 + (s.last() as nat - '0' as nat) as nat
    }
}

/// Reads the digits `s[a..b]` as a `u32`; `None` when the value does not fit.
pub fn parse_u32(s: &[char], a: usize, b: usize) -> (r: Option<u32>)
    requires
        a <= b <= s@.len(),
        forall|j: int| a <= j < b ==> is_digit(#[trigger] s@[j]),
    ensures
        r matches Some(v) ==> v as nat == digits_value(s@.subrange(a as int, b as int)),
        r is None ==> digits_value(s@.subrange(a as int, b as int)) > u32::MAX,
{
    let mut acc: u32 = 0;
    let mut j = a;
    assert(s@.subrange(a as int, a as int) =~= Seq::<char>::empty());
    while j < b
        invariant
            a <= j <= b <= s@.len(),
            forall|t: int| a <= t < b ==> is_digit(#[trigger] s@[t]),
            acc as nat == digits_value(s@.subrange(a as int, j as int)),
        decreases b - j,
    {
        let c = s[j];
        assert(is_digit(s@[j as int]));
        let d: u32 = (c as u32) - ('0' as u32);
        assert(s@.subrange(a as int, j + 1).drop_last() =~= s@.subrange(a as int, j as int));
        assert(s@.subrange(a as int, j + 1).last() == c);
        if acc > 429496729 || (acc == 429496729 && d > 5) {
            assert(s@.subrange(a as int, b as int).subrange(0, j + 1 - a) =~= s@.subrange(a as int, j + 1));
            proof {
                lemma_digits_value_grows(s@.subrange(a as int, j + 1), s@.subrange(a as int, b as int));
            }
            return None;
        }
        acc = acc * 10 + d;
        j = j + 1;
    }
    Some(acc)
}

/// A longer digit string whose prefix is given is worth at least as much.
pub proof fn lemma_digits_value_grows(p: Seq<char>, s: Seq<char>)
    requires
        p.len() <= s.len(),
        s.subrange(0, p.len() as int) == p,
        forall|t: int| 0 <= t < s.len() ==> is_digit(#[trigger] s[t]),
    ensures
        digits_value(p) <= digits_value(s),
    decreases s.len(),
{
    if s.len() > p.len() {
        assert(s.drop_last().subrange(0, p.len() as int) =~= p);
        lemma_digits_value_grows(p, s.drop_last());
    } else {
        assert(s =~= p);
    }
}

/// The longest run of ASCII digits that a text handed to the JSON parser may hold.
pub const MAX_DIGIT_RUN: usize = 32000;

/// The number of ASCII digits just before position `i` of `s`.
pub open spec fn digit_run_before(s: Seq<char>, i: int) -> nat
    decreases i,
{
    if i <= 0 || i > s.len() || !is_digit(s[i - 1]) {
        0
    } else {
        1 + digit_run_before(s, i - 1)
    }
}

/// No run of ASCII digits in `s` reaches `MAX_DIGIT_RUN`.
pub open spec fn short_digit_runs(s: Seq<char>) -> bool {
    forall|i: int| 0 <= i <= s.len() ==> #[trigger] digit_run_before(s, i) < MAX_DIGIT_RUN
}

/// Checks that no run of ASCII digits in `s` reaches `MAX_DIGIT_RUN`.
pub fn has_short_digit_runs(s: &str) -> (r: bool)
    ensures
        r == short_digit_runs(s@),
{
    let cs = chars_of(s);
    let n = cs.len();
    let mut run: usize = 0;
    let mut i: usize = 0;
    assert(digit_run_before(s@, 0) == 0);
    while i < n
        invariant
            n == cs@.len(),
            cs@ == s@,
            i <= n,
            run == digit_run_before(s@, i as int),
            run < MAX_DIGIT_RUN,
            forall|k: int| 0 <= k <= i ==> #[trigger] digit_run_before(s@, k) < MAX_DIGIT_RUN,
        decreases n - i,
    {
        if cs[i] >= '0' && cs[i] <= '9' {
            run = run + 1;
        } else {
            run = 0;
        }
        assert(run == digit_run_before(s@, i + 1));
        if run >= MAX_DIGIT_RUN {
            assert(!short_digit_runs(s@)) by {
                assert(digit_run_before(s@, i + 1) >= MAX_DIGIT_RUN);
            }
            return false;
        }
        i = i + 1;
    }
    true
}

/// Relies on `Iterator::collect` over `str::chars`: the characters of `s`, in order.
#[verifier::external_body]
pub fn chars_of(s: &str) -> (r: Vec<char>)
    ensures
        r@ == s@,
{
    s.chars().collect()
}

/// Relies on `String::from_iter` over `char`: the string made of `cs`, in order.
#[verifier::external_body]
pub fn text_of(cs: &[char]) -> (r: String)
    ensures
        r@ == cs@,
{
    cs.iter().collect()
}

/// The characters that `String::from_utf8_lossy` gives for `b`.
pub uninterp spec fn utf8_lossy(b: Seq<u8>) -> Seq<char>;

/// Relies on `String::from_utf8_lossy`: decodes `b`, replacing invalid sequences.
#[verifier::external_body]
pub fn decode_lossy(b: &[u8]) -> (r: Vec<char>)
    ensures
        r@ == utf8_lossy(b@),
        b@.len() == 0 ==> r@.len() == 0,
{
    String::from_utf8_lossy(b).chars().collect()
}

} // verus!
