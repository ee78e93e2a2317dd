//! A quick summary of a log: the last elapsed time it shows and whether it
//! holds a script error.
use vstd::prelude::*;

use crate::annotation::{lemma_line_end, line_end};
use crate::ipc::{append_bool, bool_text, json_quoted, quote};
use crate::text::{
    char_is_space, chars_of, decode_lossy, has_prefix, is_space, run_end, scan_run, starts_with,
    text_of, utf8_lossy, CharClass,
};

verus! {

/// The three digit strings of a leading `[H:M:S]: ` marker of `line`.
pub open spec fn time_fields(line: Seq<char>) -> Option<(Seq<char>, Seq<char>, Seq<char>)> {
    let e1 = run_end(line, 1, CharClass::Digit);
    let e2 = run_end(line, e1 + 1, CharClass::Digit);
    let e3 = run_end(line, e2 + 1, CharClass::Digit);
    if line.len() > 0 && line[0] == '[' && e1 > 1 && e1 < line.len() && line[e1] == ':' && e2 > e1
        + 1 && e2 < line.len() && line[e2] == ':' && e3 > e2 + 1 && e3 + 2 < line.len() && line[e3]
        == ']' && line[e3 + 1] == ':' && is_space(line[e3 + 2]) {
        Some((line.subrange(1, e1), line.subrange(e1 + 1, e2), line.subrange(e2 + 1, e3)))
    } else {
        None
    }
}

/// What the summary knows: a script error was seen, and the last time fields.
pub struct SummaryView {
    pub has_lua_crash: bool,
    pub total_time: (Seq<char>, Seq<char>, Seq<char>),
}

pub open spec fn summary_step(s: SummaryView, line: Seq<char>) -> SummaryView {
    let c = if has_prefix(line, "LUA ERROR stack traceback:"@) {
        SummaryView { has_lua_crash: true, ..s }
    } else {
        s
    };
    match time_fields(line) {
        Some(t) => SummaryView { total_time: t, ..c },
        None => c,
    }
}

/// The summary after every line of `b` from position `i` on, each line read
/// with its terminator.
pub open spec fn summarize_from(s: SummaryView, b: Seq<u8>, i: int) -> SummaryView
    decreases b.len() - i,
    via summarize_from_decreases
{
    if 0 <= i < b.len() {
        summarize_from(summary_step(s, utf8_lossy(b.subrange(i, line_end(b, i)))), b, line_end(b, i))
    } else {
        s
    }
}

#[via_fn]
proof fn summarize_from_decreases(s: SummaryView, b: Seq<u8>, i: int) {
    if 0 <= i < b.len() {
        lemma_line_end(b, i);
    }
}

pub open spec fn empty_summary() -> SummaryView {
    SummaryView { has_lua_crash: false, total_time: (Seq::empty(), Seq::empty(), Seq::empty()) }
}

/// The summary as a JSON object.
pub open spec fn summary_json(
    filename: Seq<char>,
    filepath: Seq<char>,
    is_zip: bool,
    s: SummaryView,
) -> Seq<char> {
    "{\"filename\":"@ + json_quoted(filename) + ",\"filepath\":"@ + json_quoted(filepath)
        + ",\"is_zip\":"@ + bool_text(is_zip) + ",\"total_time\":["@ + json_quoted(s.total_time.0)
        + ","@ + json_quoted(s.total_time.1) + ","@ + json_quoted(s.total_time.2)
        + "],\"has_lua_crash\":"@ + bool_text(s.has_lua_crash) + "}"@
}

/// A quick summary of a log.
pub struct LogAbstract {
    pub has_lua_crash: bool,
    pub total_time: (String, String, String),
}

impl View for LogAbstract {
    type V = SummaryView;

    open spec fn view(&self) -> SummaryView {
        SummaryView {
            has_lua_crash: self.has_lua_crash,
            total_time: (self.total_time.0@, self.total_time.1@, self.total_time.2@),
        }
    }
}

fn time_fields_exec(line: &[char]) -> (r: Option<(String, String, String)>)
    ensures
        match r {
            Some((h, m, s)) => time_fields(line@) == Some((h@, m@, s@)),
            None => time_fields(line@) is None,
        },
{
    let n = line.len();
    if n == 0 || line[0] != '[' {
        return None;
    }
    let e1 = scan_run(line, 1, CharClass::Digit);
    if !(e1 > 1 && e1 < n && line[e1] == ':') {
        return None;
    }
    let e2 = scan_run(line, e1 + 1, CharClass::Digit);
    if !(e2 > e1 + 1 && e2 < n && line[e2] == ':') {
        return None;
    }
    let e3 = scan_run(line, e2 + 1, CharClass::Digit);
    if !(e3 > e2 + 1 && e3 < n && n - e3 > 2 && line[e3] == ']' && line[e3 + 1] == ':'
        && char_is_space(line[e3 + 2])) {
        return None;
    }
    Some((text_of(&line[1..e1]), text_of(&line[e1 + 1..e2]), text_of(&line[e2 + 1..e3])))
}

impl LogAbstract {
    /// Summarizes a whole log: a line that starts with a script error marker
    /// sets the flag; the last line that starts with a time marker gives the time.
    pub fn of_content(content: &[u8]) -> (r: LogAbstract)
        ensures
            r@ == summarize_from(empty_summary(), content@, 0),
    {
        let mut r = LogAbstract {
            has_lua_crash: false,
            total_time: (String::new(), String::new(), String::new()),
        };
        let marker = chars_of("LUA ERROR stack traceback:");
        let n = content.len();
        let mut i: usize = 0;
        assert(r@ == empty_summary());
        while i < n
            invariant
                n == content@.len(),
                i <= n,
                marker@ == "LUA ERROR stack traceback:"@,
                summarize_from(r@, content@, i as int) == summarize_from(
                    empty_summary(),
                    content@,
                    0,
                ),
            decreases n - i,
        {
            let mut j = i;
            while j < n && content[j] != 10u8
                invariant
                    n == content@.len(),
                    i <= j <= n,
                    i < n,
                    line_end(content@, j as int) == line_end(content@, i as int),
                decreases n - j,
            {
                j = j + 1;
            }
            let e = if j < n {
                j + 1
            } else {
                j
            };
            proof {
                lemma_line_end(content@, i as int);
            }
            let line = decode_lossy(&content[i..e]);
            if starts_with(line.as_slice(), marker.as_slice()) {
                r.has_lua_crash = true;
            }
            if let Some(t) = time_fields_exec(line.as_slice()) {
                r.total_time = t;
            }
            i = e;
        }
        r
    }

    /// The summary as a JSON object, with the log's name, path and kind.
    pub fn to_ipc(&self, filename: &str, filepath: &str, is_zip: bool) -> (r: String)
        ensures
            r@ == summary_json(filename@, filepath@, is_zip, self@),
    {
        let mut out = String::from_str("{\"filename\":");
        out.append(quote(filename).as_str());
        out.append(",\"filepath\":");
        out.append(quote(filepath).as_str());
        out.append(",\"is_zip\":");
        append_bool(&mut out, is_zip);
        out.append(",\"total_time\":[");
        out.append(quote(self.total_time.0.as_str()).as_str());
        out.append(",");
        out.append(quote(self.total_time.1.as_str()).as_str());
        out.append(",");
        out.append(quote(self.total_time.2.as_str()).as_str());
        out.append("],\"has_lua_crash\":");
        append_bool(&mut out, self.has_lua_crash);
        out.append("}");
        out
    }
}

} // verus!
