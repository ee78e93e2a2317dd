//! The names that log discovery looks for on disk and inside save archives.
use vstd::prelude::*;

use crate::text::{chars_of, has_prefix, is_digit, starts_with};

verus! {

/// `s[a..b]` are all decimal digits.
pub open spec fn digits_in(s: Seq<char>, a: int, b: int) -> bool {
    forall|i: int| a <= i < b ==> is_digit(#[trigger] s[i])
}

/// A backup log name: `<prefix>YYYY-MM-DD-hh-mm-ss.txt`.
pub open spec fn backup_name(s: Seq<char>, prefix: Seq<char>) -> bool {
    let p = prefix.len() as int;
    &&& has_prefix(s, prefix)
    &&& s.len() == p + 23
    &&& digits_in(s, p, p + 4) && s[p + 4] == '-'
    &&& digits_in(s, p + 5, p + 7) && s[p + 7] == '-'
    &&& digits_in(s, p + 8, p + 10) && s[p + 10] == '-'
    &&& digits_in(s, p + 11, p + 13) && s[p + 13] == '-'
    &&& digits_in(s, p + 14, p + 16) && s[p + 16] == '-'
    &&& digits_in(s, p + 17, p + 19)
    &&& s.subrange(p + 19, p + 23) == ".txt"@
}

fn all_digits(s: &[char], a: usize, b: usize) -> (r: bool)
    requires
        a <= b <= s@.len(),
    ensures
        r == digits_in(s@, a as int, b as int),
{
    let mut i = a;
    while i < b
        invariant
            a <= i <= b <= s@.len(),
            digits_in(s@, a as int, i as int),
        decreases b - i,
    {
        if !(s[i] >= '0' && s[i] <= '9') {
            return false;
        }
        i = i + 1;
    }
    true
}

fn backup_name_chars(s: &[char], prefix: &[char]) -> (r: bool)
    ensures
        r == backup_name(s@, prefix@),
{
    let txt = chars_of(".txt");
    proof {
        reveal_strlit(".txt");
    }
    if !starts_with(s, prefix) {
        return false;
    }
    let p = prefix.len();
    if s.len() - p != 23 {
        return false;
    }
    let ok = all_digits(s, p, p + 4) && s[p + 4] == '-' && all_digits(s, p + 5, p + 7) && s[p
        + 7] == '-' && all_digits(s, p + 8, p + 10) && s[p + 10] == '-' && all_digits(
        s,
        p + 11,
        p + 13,
    ) && s[p + 13] == '-' && all_digits(s, p + 14, p + 16) && s[p + 16] == '-' && all_digits(
        s,
        p + 17,
        p + 19,
    );
    if !ok {
        return false;
    }
    let tail = &s[p + 19..p + 23];
    let r = crate::text::eq_chars(tail, txt.as_slice());
    r
}

/// A backup client log: `client_log_YYYY-MM-DD-hh-mm-ss.txt`.
pub fn is_client_backup_name(name: &str) -> (r: bool)
    ensures
        r == backup_name(name@, "client_log_"@),
{
    let s = chars_of(name);
    let p = chars_of("client_log_");
    backup_name_chars(s.as_slice(), p.as_slice())
}

/// A backup server log: `server_log_YYYY-MM-DD-hh-mm-ss.txt`.
pub fn is_server_backup_name(name: &str) -> (r: bool)
    ensures
        r == backup_name(name@, "server_log_"@),
{
    let s = chars_of(name);
    let p = chars_of("server_log_");
    backup_name_chars(s.as_slice(), p.as_slice())
}

/// A log entry of a save archive: `server_log.txt`, or a backup server log
/// under `backup/server_log/`.
pub open spec fn archive_log_entry(s: Seq<char>) -> bool {
    s == "server_log.txt"@ || backup_name(s, "backup/server_log/server_log_"@)
}

pub fn is_archive_log_entry(name: &str) -> (r: bool)
    ensures
        r == archive_log_entry(name@),
{
    let s = chars_of(name);
    let plain = chars_of("server_log.txt");
    let p = chars_of("backup/server_log/server_log_");
    crate::text::eq_chars(s.as_slice(), plain.as_slice()) || backup_name_chars(
        s.as_slice(),
        p.as_slice(),
    )
}

/// A user directory: one or more decimal digits.
pub open spec fn user_dir_name(s: Seq<char>) -> bool {
    s.len() > 0 && digits_in(s, 0, s.len() as int)
}

pub fn is_user_dir_name(name: &str) -> (r: bool)
    ensures
        r == user_dir_name(name@),
{
    let s = chars_of(name);
    s.len() > 0 && all_digits(s.as_slice(), 0, s.len())
}

pub open spec fn is_upper_hex(c: char) -> bool {
    is_digit(c) || ('A' <= c && c <= 'F')
}

/// A cloud save directory: 16 upper-case hexadecimal digits.
pub open spec fn cloud_dir_name(s: Seq<char>) -> bool {
    s.len() == 16 && forall|i: int| 0 <= i < 16 ==> is_upper_hex(#[trigger] s[i])
}

pub fn is_cloud_dir_name(name: &str) -> (r: bool)
    ensures
        r == cloud_dir_name(name@),
{
    let s = chars_of(name);
    if s.len() != 16 {
        return false;
    }
    let mut i: usize = 0;
    while i < 16
        invariant
            s@.len() == 16,
            s@ == name@,
            i <= 16,
            forall|j: int| 0 <= j < i ==> is_upper_hex(#[trigger] s@[j]),
        decreases 16 - i,
    {
        let c = s[i];
        if !((c >= '0' && c <= '9') || (c >= 'A' && c <= 'F')) {
            assert(!is_upper_hex(name@[i as int]));
            return false;
        }
        i = i + 1;
    }
    true
}

/// A local save directory: a name that starts with `Cluster_`.
pub fn is_cluster_dir_name(name: &str) -> (r: bool)
    ensures
        r == has_prefix(name@, "Cluster_"@),
{
    let s = chars_of(name);
    let p = chars_of("Cluster_");
    starts_with(s.as_slice(), p.as_slice())
}

} // verus!
