//! The shapes of the log lines that carry facts, each as a spec function over
//! characters and a matcher proved to agree with it.
use vstd::prelude::*;

use crate::text::{
    chars_of, char_is_space, class_has, digits_value, has_prefix, is_digit, is_space,
    lemma_run_end_bounds, matches_at, occurs_at, parse_u32, run_end, scan_run, starts_with,
    text_of, CharClass,
};

verus! {

pub open spec fn fits_u32(v: nat) -> bool {
    v <= u32::MAX
}

/// A leading `[H:M:S]: ` marker inside the first 20 characters of `line`:
/// the three numbers and the length of the marker.
pub open spec fn time_prefix(line: Seq<char>) -> Option<(u32, u32, u32, int)> {
    let s = if line.len() > 20 {
        line.subrange(0, 20)
    } else {
        line
    };
    let e1 = run_end(s, 1, CharClass::Digit);
    let e2 = run_end(s, e1 + 1, CharClass::Digit);
    let e3 = run_end(s, e2 + 1, CharClass::Digit);
    if s.len() > 0 && s[0] == '[' && e1 > 1 && e1 < s.len() && s[e1] == ':' && e2 > e1 + 1
        && e2 < s.len() && s[e2] == ':' && e3 > e2 + 1 && e3 + 2 < s.len() && s[e3] == ']'
        && s[e3 + 1] == ':' && is_space(s[e3 + 2]) && fits_u32(digits_value(s.subrange(1, e1)))
        && fits_u32(digits_value(s.subrange(e1 + 1, e2))) && fits_u32(
        digits_value(s.subrange(e2 + 1, e3)),
    ) {
        Some(
            (
                digits_value(s.subrange(1, e1)) as u32,
                digits_value(s.subrange(e1 + 1, e2)) as u32,
                digits_value(s.subrange(e2 + 1, e3)) as u32,
                e3 + 3,
            ),
        )
    } else {
        None
    }
}

/// `Don't Starve[ Together]: <digits> <PLATFORM>`: the build id and the platform.
pub open spec fn version_line(line: Seq<char>) -> Option<(Seq<char>, Seq<char>)> {
    let d = "Don't Starve"@;
    let t = " Together"@;
    let i = if occurs_at(line, t, d.len() as int) {
        (d.len() + t.len()) as int
    } else {
        d.len() as int
    };
    let a = i + 2;
    let b = run_end(line, a, CharClass::Digit);
    let c = run_end(line, b + 1, CharClass::Platform);
    if has_prefix(line, d) && occurs_at(line, ": "@, i) && b > a && b < line.len() && line[b]
        == ' ' && c > b + 1 {
        Some((line.subrange(a, b), line.subrange(b + 1, c)))
    } else {
        None
    }
}

/// `Mode: <word-and-hyphen token>`: the architecture.
pub open spec fn arch_line(line: Seq<char>) -> Option<Seq<char>> {
    let a = "Mode: "@.len() as int;
    let b = run_end(line, a, CharClass::WordOrHyphen);
    if has_prefix(line, "Mode: "@) && b > a {
        Some(line.subrange(a, b))
    } else {
        None
    }
}

/// `Mounting file system databundles/<name>.zip <successful|skipped>.`:
/// the bundle's file name, and whether it was mounted from the archive.
pub open spec fn bundle_line(line: Seq<char>) -> Option<(Seq<char>, bool)> {
    let p = "Mounting file system databundles/"@;
    let a = p.len() as int;
    let b = run_end(line, a, CharClass::Word);
    let rest = line.subrange(b + 5, line.len() as int);
    if has_prefix(line, p) && b > a && occurs_at(line, ".zip "@, b) {
        if rest == "successful."@ {
            Some((line.subrange(a, b + 4), true))
        } else if rest == "skipped."@ {
            Some((line.subrange(a, b + 4), false))
        } else {
            None
        }
    } else {
        None
    }
}

/// The length of a leading `scripts/<path>.lua(<line>,<col>) ` source marker.
pub open spec fn lua_source_prefix(line: Seq<char>) -> Option<int> {
    let a = "scripts/"@.len() as int;
    let b = run_end(line, a, CharClass::WordOrSlash);
    let c = b + 5;
    let d = run_end(line, c, CharClass::Digit);
    let e = run_end(line, d + 1, CharClass::Digit);
    if has_prefix(line, "scripts/"@) && b > a && occurs_at(line, ".lua("@, b) && d > c && d
        < line.len() && line[d] == ',' && e > d + 1 && e + 1 < line.len() && line[e] == ')'
        && is_space(line[e + 1]) {
        Some(e + 2)
    } else {
        None
    }
}

/// The length of a leading `[Frontend-|Fontend-]Loading mod: ` marker.
pub open spec fn loading_mod_prefix(line: Seq<char>) -> Option<int> {
    if has_prefix(line, "Fontend-Loading mod:"@) && line.len() > 20 && is_space(line[20]) {
        Some(21)
    } else if has_prefix(line, "Frontend-Loading mod:"@) && line.len() > 21 && is_space(
        line[21],
    ) {
        Some(22)
    } else if has_prefix(line, "Loading mod:"@) && line.len() > 12 && is_space(line[12]) {
        Some(13)
    } else {
        None
    }
}

/// `workshop-<digits>` occurs at `i`.
pub open spec fn workshop_at(s: Seq<char>, i: int) -> bool {
    occurs_at(s, "workshop-"@, i) && i + 9 < s.len() && is_digit(s[i + 9])
}

/// The first position at or after `i` where a `workshop-<digits>` token starts.
pub open spec fn workshop_from(s: Seq<char>, i: int) -> Option<int>
    decreases s.len() - i,
{
    if i < 0 || i >= s.len() {
        None
    } else if workshop_at(s, i) {
        Some(i)
    } else {
        workshop_from(s, i + 1)
    }
}

pub open spec fn lua_source_stripped(line: Seq<char>) -> Seq<char> {
    match lua_source_prefix(line) {
        Some(n) => line.subrange(n, line.len() as int),
        None => line,
    }
}

/// The characters of `s` from `a` up to, not including, its last one; empty
/// where there are none.
pub open spec fn inner_name(s: Seq<char>, a: int) -> Seq<char> {
    if 0 <= a && a + 1 <= s.len() {
        s.subrange(a, s.len() - 1)
    } else {
        Seq::empty()
    }
}

pub fn time_prefix_exec(line: &[char]) -> (r: Option<(u32, u32, u32, usize)>)
    ensures
        match r {
            Some((h, m, s, n)) => time_prefix(line@) == Some((h, m, s, n as int)),
            None => time_prefix(line@) is None,
        },
{
    let lim: usize = if line.len() > 20 {
        20
    } else {
        line.len()
    };
    let s = &line[0..lim];
    assert(s@ =~= (if line@.len() > 20 {
        line@.subrange(0, 20)
    } else {
        line@
    }));
    if s.len() == 0 || s[0] != '[' {
        return None;
    }
    let e1 = scan_run(s, 1, CharClass::Digit);
    if !(e1 > 1 && e1 < s.len() && s[e1] == ':') {
        return None;
    }
    let e2 = scan_run(s, e1 + 1, CharClass::Digit);
    if !(e2 > e1 + 1 && e2 < s.len() && s[e2] == ':') {
        return None;
    }
    let e3 = scan_run(s, e2 + 1, CharClass::Digit);
    if !(e3 > e2 + 1 && e3 + 2 < s.len() && s[e3] == ']' && s[e3 + 1] == ':' && char_is_space(
        s[e3 + 2],
    )) {
        return None;
    }
    proof {
        lemma_run_end_bounds(s@, 1, CharClass::Digit);
        lemma_run_end_bounds(s@, e1 + 1, CharClass::Digit);
        lemma_run_end_bounds(s@, e2 + 1, CharClass::Digit);
    }
    let h = parse_u32(s, 1, e1);
    let m = parse_u32(s, e1 + 1, e2);
    let sec = parse_u32(s, e2 + 1, e3);
    match (h, m, sec) {
        (Some(h), Some(m), Some(sec)) => Some((h, m, sec, e3 + 3)),
        _ => None,
    }
}

pub fn version_line_exec(line: &[char]) -> (r: Option<(String, String)>)
    ensures
        match r {
            Some((v, p)) => version_line(line@) == Some((v@, p@)),
            None => version_line(line@) is None,
        },
{
    let d = chars_of("Don't Starve");
    let t = chars_of(" Together");
    let sep = chars_of(": ");
    proof {
        reveal_strlit("Don't Starve");
        reveal_strlit(" Together");
        reveal_strlit(": ");
    }
    if !starts_with(line, d.as_slice()) {
        return None;
    }
    let i: usize = if matches_at(line, t.as_slice(), d.len()) {
        d.len() + t.len()
    } else {
        d.len()
    };
    if !matches_at(line, sep.as_slice(), i) {
        return None;
    }
    let a = i + 2;
    let b = scan_run(line, a, CharClass::Digit);
    if !(b > a && b < line.len() && line[b] == ' ') {
        return None;
    }
    let c = scan_run(line, b + 1, CharClass::Platform);
    if c <= b + 1 {
        return None;
    }
    Some((text_of(&line[a..b]), text_of(&line[b + 1..c])))
}

pub fn arch_line_exec(line: &[char]) -> (r: Option<String>)
    ensures
        match r {
            Some(v) => arch_line(line@) == Some(v@),
            None => arch_line(line@) is None,
        },
{
    let p = chars_of("Mode: ");
    proof {
        reveal_strlit("Mode: ");
    }
    if !starts_with(line, p.as_slice()) {
        return None;
    }
    let a = p.len();
    let b = scan_run(line, a, CharClass::WordOrHyphen);
    if b <= a {
        return None;
    }
    Some(text_of(&line[a..b]))
}

pub fn bundle_line_exec(line: &[char]) -> (r: Option<(String, bool)>)
    ensures
        match r {
            Some((n, m)) => bundle_line(line@) == Some((n@, m)),
            None => bundle_line(line@) is None,
        },
{
    let p = chars_of("Mounting file system databundles/");
    let z = chars_of(".zip ");
    let ok = chars_of("successful.");
    let skip = chars_of("skipped.");
    proof {
        reveal_strlit(".zip ");
    }
    if !starts_with(line, p.as_slice()) {
        return None;
    }
    let a = p.len();
    let b = scan_run(line, a, CharClass::Word);
    if !(b > a && matches_at(line, z.as_slice(), b)) {
        return None;
    }
    let n = line.len();
    assert(b + 5 <= n);
    let rest = &line[b + 5..n];
    if rest.len() == ok.len() && starts_with(rest, ok.as_slice()) {
        assert(rest@ =~= ok@);
        Some((text_of(&line[a..b + 4]), true))
    } else if rest.len() == skip.len() && starts_with(rest, skip.as_slice()) {
        assert(rest@ =~= skip@);
        Some((text_of(&line[a..b + 4]), false))
    } else {
        proof {
            if rest@ == ok@ {
                assert(rest@.subrange(0, ok@.len() as int) =~= rest@);
            }
            if rest@ == skip@ {
                assert(rest@.subrange(0, skip@.len() as int) =~= rest@);
            }
        }
        None
    }
}

pub fn lua_source_prefix_exec(line: &[char]) -> (r: Option<usize>)
    ensures
        match r {
            Some(n) => lua_source_prefix(line@) == Some(n as int) && n <= line@.len(),
            None => lua_source_prefix(line@) is None,
        },
{
    let p = chars_of("scripts/");
    let l = chars_of(".lua(");
    proof {
        reveal_strlit("scripts/");
        reveal_strlit(".lua(");
    }
    if !starts_with(line, p.as_slice()) {
        return None;
    }
    let a = p.len();
    let b = scan_run(line, a, CharClass::WordOrSlash);
    if !(b > a && matches_at(line, l.as_slice(), b)) {
        return None;
    }
    let n = line.len();
    assert(b + 5 <= n);
    let c = b + 5;
    let d = scan_run(line, c, CharClass::Digit);
    if !(d > c && d < line.len() && line[d] == ',') {
        return None;
    }
    let e = scan_run(line, d + 1, CharClass::Digit);
    if !(e > d + 1 && e < line.len() && e + 1 < line.len() && line[e] == ')' && char_is_space(
        line[e + 1],
    )) {
        return None;
    }
    Some(e + 2)
}

pub fn loading_mod_prefix_exec(line: &[char]) -> (r: Option<usize>)
    ensures
        match r {
            Some(n) => loading_mod_prefix(line@) == Some(n as int) && n <= line@.len(),
            None => loading_mod_prefix(line@) is None,
        },
{
    let f1 = chars_of("Fontend-Loading mod:");
    let f2 = chars_of("Frontend-Loading mod:");
    let f3 = chars_of("Loading mod:");
    proof {
        reveal_strlit("Fontend-Loading mod:");
        reveal_strlit("Frontend-Loading mod:");
        reveal_strlit("Loading mod:");
    }
    if starts_with(line, f1.as_slice()) && line.len() > 20 && char_is_space(line[20]) {
        Some(21)
    } else if starts_with(line, f2.as_slice()) && line.len() > 21 && char_is_space(line[21]) {
        Some(22)
    } else if starts_with(line, f3.as_slice()) && line.len() > 12 && char_is_space(line[12]) {
        Some(13)
    } else {
        None
    }
}

pub fn workshop_exec(s: &[char]) -> (r: Option<usize>)
    ensures
        match r {
            Some(i) => workshop_from(s@, 0) == Some(i as int) && workshop_at(s@, i as int),
            None => workshop_from(s@, 0) is None,
        },
{
    let w = chars_of("workshop-");
    proof {
        reveal_strlit("workshop-");
    }
    let mut i: usize = 0;
    while i < s.len()
        invariant
            w@ == "workshop-"@,
            i <= s@.len(),
            workshop_from(s@, 0) == workshop_from(s@, i as int),
        decreases s@.len() - i,
    {
        if matches_at(s, w.as_slice(), i) && s.len() - i > 9 && class_has(s[i + 9], CharClass::Digit) {
            return Some(i);
        }
        i = i + 1;
    }
    None
}

/// The characters of `s` from `a` up to, not including, its last one.
pub fn inner_name_exec(s: &[char], a: usize) -> (r: String)
    ensures
        r@ == inner_name(s@, a as int),
{
    if a < s.len() {
        text_of(&s[a..s.len() - 1])
    } else {
        text_of(&s[0..0])
    }
}

} // verus!
