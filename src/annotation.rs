//! The annotator: a line-by-line state machine that collects the facts a log
//! holds.
use vstd::prelude::*;

use crate::grammar::{
    arch_line, arch_line_exec, bundle_line, bundle_line_exec, inner_name, inner_name_exec,
    loading_mod_prefix, loading_mod_prefix_exec, lua_source_prefix_exec, lua_source_stripped,
    time_prefix, time_prefix_exec, version_line, version_line_exec, workshop_exec, workshop_from,
};
use crate::ipc::{
    append_bool, append_opt, bool_text, decimal, decimal_text, json_quoted, opt_json, quote,
};
use crate::text::{
    chars_of, decode_lossy, eq_chars, find, find_chars, has_prefix, lemma_find_from_bounds,
    lemma_prefix_concat, lemma_rfind_below_bounds, lemma_run_end_bounds, matches_at, rfind,
    rfind_chars, run_end, scan_run, starts_with, text_of, utf8_lossy, CharClass,
};

verus! {

/// Lines longer than this many bytes are counted but not interpreted.
pub const MAX_LINE_LEN: usize = 2000;

/// What is known of an add-on that a log shows loaded.
pub struct ModView {
    pub moddir: Seq<char>,
    pub name: Seq<char>,
    pub version: Option<Seq<char>>,
    pub workshop_id: Option<Seq<char>>,
}

/// The facts collected from a log, and the parser's own position.
pub struct Annotation {
    pub has_stacktrace: bool,
    pub has_lua_crash: bool,
    pub has_c_crash: bool,
    pub build_version: Seq<char>,
    pub build_platform: Seq<char>,
    pub build_arch: Seq<char>,
    /// bundle file name and whether it was mounted from its archive, one entry per name
    pub bundles: Seq<(Seq<char>, bool)>,
    /// add-on directories announced as to be loaded, each once
    pub registered: Seq<Seq<char>>,
    /// add-ons confirmed loaded, one per directory, in the order first seen
    pub mods: Seq<ModView>,
    pub total_time: (u32, u32, u32),
    pub is_launching: bool,
    pub current_line: nat,
}

pub open spec fn opt_view(o: Option<String>) -> Option<Seq<char>> {
    match o {
        Some(s) => Some(s@),
        None => None,
    }
}

/// An add-on confirmed loaded by a log.
#[derive(Clone)]
pub struct Mod {
    moddir: String,
    name: String,
    version: Option<String>,
    workshop_id: Option<String>,
}

impl View for Mod {
    type V = ModView;

    closed spec fn view(&self) -> ModView {
        ModView {
            moddir: self.moddir@,
            name: self.name@,
            version: opt_view(self.version),
            workshop_id: opt_view(self.workshop_id),
        }
    }
}

impl Mod {
    /// The add-on as a JSON object.
    pub fn to_json(&self) -> (r: String)
        ensures
            r@ == mod_json(self@),
    {
        let mut out = String::new();
        out.append("{\"moddir\":");
        out.append(quote(self.moddir.as_str()).as_str());
        out.append(",\"name\":");
        out.append(quote(self.name.as_str()).as_str());
        out.append(",\"version\":");
        append_opt(&mut out, &self.version);
        out.append(",\"workshop_id\":");
        append_opt(&mut out, &self.workshop_id);
        out.append("}");
        assert(out@ =~= mod_json(self@));
        out
    }

    pub fn copy(&self) -> (r: Mod)
        ensures
            r@ == self@,
    {
        Mod {
            moddir: self.moddir.clone(),
            name: self.name.clone(),
            version: self.version.clone(),
            workshop_id: self.workshop_id.clone(),
        }
    }

    pub fn moddir(&self) -> (r: String)
        ensures
            r@ == self@.moddir,
    {
        self.moddir.clone()
    }

    pub fn name(&self) -> (r: String)
        ensures
            r@ == self@.name,
    {
        self.name.clone()
    }

    pub fn version(&self) -> (r: Option<String>)
        ensures
            opt_view(r) == self@.version,
    {
        match &self.version {
            Some(v) => Some(v.clone()),
            None => None,
        }
    }

    pub fn workshop_id(&self) -> (r: Option<String>)
        ensures
            opt_view(r) == self@.workshop_id,
    {
        match &self.workshop_id {
            Some(v) => Some(v.clone()),
            None => None,
        }
    }
}

/// The parser's own position in a log.
pub struct LogState {
    is_launching: bool,
    current_line: usize,
}

impl LogState {
    /// The state before the first line: still launching, no line read.
    pub fn default() -> (r: Self)
        ensures
            r.is_launching(),
            r.current_line() == 0,
    {
        LogState { is_launching: true, current_line: 0 }
    }

    pub closed spec fn is_launching(&self) -> bool {
        self.is_launching
    }

    pub closed spec fn current_line(&self) -> nat {
        self.current_line as nat
    }

    pub fn line_count(&self) -> (r: usize)
        ensures
            r == self.current_line(),
    {
        self.current_line
    }
}

/// The annotation of the important parts of a log.
pub struct LogComment {
    has_stacktrace: bool,
    has_lua_crash: bool,
    has_c_crash: bool,
    build_version: String,
    build_platform: String,
    build_arch: String,
    databundles_mounting_state: Vec<(String, bool)>,
    mods_registed: Vec<Vec<char>>,
    mods: Vec<Mod>,
    total_time: (u32, u32, u32),
    state: LogState,
}

impl View for LogComment {
    type V = Annotation;

    closed spec fn view(&self) -> Annotation {
        Annotation {
            has_stacktrace: self.has_stacktrace,
            has_lua_crash: self.has_lua_crash,
            has_c_crash: self.has_c_crash,
            build_version: self.build_version@,
            build_platform: self.build_platform@,
            build_arch: self.build_arch@,
            bundles: entries_view(self.databundles_mounting_state@),
            registered: self.mods_registed@.map_values(|v: Vec<char>| v@),
            mods: self.mods@.map_values(|m: Mod| m@),
            total_time: self.total_time,
            is_launching: self.state.is_launching,
            current_line: self.state.current_line as nat,
        }
    }
}

/// Each bundle name, registered directory and loaded add-on directory appears
/// once.
pub open spec fn well_formed(a: Annotation) -> bool {
    &&& forall|i: int, j: int|
        0 <= i < j < a.bundles.len() ==> (#[trigger] a.bundles[i]).0 != (#[trigger] a.bundles[j]).0
    &&& forall|i: int, j: int|
        0 <= i < j < a.registered.len() ==> #[trigger] a.registered[i] != #[trigger] a.registered[j]
    &&& forall|i: int, j: int|
        0 <= i < j < a.mods.len() ==> (#[trigger] a.mods[i]).moddir != (#[trigger] a.mods[j]).moddir
}

pub proof fn lemma_bundles_put_unique(s: Seq<(Seq<char>, bool)>, k: Seq<char>, v: bool)
    requires
        forall|i: int, j: int| 0 <= i < j < s.len() ==> (#[trigger] s[i]).0 != (#[trigger] s[j]).0,
    ensures
        ({
            let t = bundles_put(s, k, v);
            forall|i: int, j: int| 0 <= i < j < t.len() ==> (#[trigger] t[i]).0 != (#[trigger] t[j]).0
        }),
{
    let t = bundles_put(s, k, v);
    if exists|i: int| 0 <= i < s.len() && #[trigger] s[i].0 == k {
        assert forall|i: int, j: int| 0 <= i < j < t.len() implies (#[trigger] t[i]).0 != (
        #[trigger] t[j]).0 by {
            assert(t[i].0 == s[i].0 && t[j].0 == s[j].0);
        }
    } else {
        assert forall|i: int, j: int| 0 <= i < j < t.len() implies (#[trigger] t[i]).0 != (
        #[trigger] t[j]).0 by {
            if j == s.len() {
                assert(t[i] == s[i]);
            } else {
                assert(t[i] == s[i] && t[j] == s[j]);
            }
        }
    }
}

pub proof fn lemma_registered_add_unique(s: Seq<Seq<char>>, d: Seq<char>)
    requires
        forall|i: int, j: int| 0 <= i < j < s.len() ==> #[trigger] s[i] != #[trigger] s[j],
    ensures
        ({
            let t = registered_add(s, d);
            forall|i: int, j: int| 0 <= i < j < t.len() ==> #[trigger] t[i] != #[trigger] t[j]
        }),
{
    let t = registered_add(s, d);
    if !s.contains(d) {
        assert forall|i: int, j: int| 0 <= i < j < t.len() implies #[trigger] t[i] != #[trigger] t[j] by {
            if j == s.len() {
                assert(t[i] == s[i]);
            } else {
                assert(t[i] == s[i] && t[j] == s[j]);
            }
        }
    }
}

pub proof fn lemma_mods_add_unique(s: Seq<ModView>, m: ModView)
    requires
        forall|i: int, j: int| 0 <= i < j < s.len() ==> (#[trigger] s[i]).moddir != (#[trigger] s[j]).moddir,
    ensures
        ({
            let t = mods_add(s, m);
            forall|i: int, j: int|
                0 <= i < j < t.len() ==> (#[trigger] t[i]).moddir != (#[trigger] t[j]).moddir
        }),
{
    let t = mods_add(s, m);
    if !(exists|i: int| 0 <= i < s.len() && #[trigger] s[i].moddir == m.moddir) {
        assert forall|i: int, j: int| 0 <= i < j < t.len() implies (#[trigger] t[i]).moddir != (
        #[trigger] t[j]).moddir by {
            if j == s.len() {
                assert(t[i] == s[i]);
            } else {
                assert(t[i] == s[i] && t[j] == s[j]);
            }
        }
    }
}

/// One line keeps the annotation well formed.
pub proof fn lemma_step_line_well_formed(c: Annotation, line: Seq<char>)
    requires
        well_formed(c),
    ensures
        well_formed(step_line(c, line)),
{
    let (c1, l1) = match time_prefix(line) {
        Some((h, m, s, n)) => (
            Annotation { total_time: (h, m, s), ..c },
            line.subrange(n, line.len() as int),
        ),
        None => (c, line),
    };
    assert(well_formed(c1));
    if let Some((name, z)) = bundle_line(l1) {
        lemma_bundles_put_unique(c1.bundles, name, z);
    }
    let lb = lua_source_stripped(l1);
    if let Some(n) = find(lb, moddir_marker()) {
        lemma_registered_add_unique(
            c1.registered,
            lb.subrange(n + moddir_marker().len(), lb.len() as int),
        );
    }
    if let Some(m) = loaded_mod(c1.registered, lb) {
        lemma_mods_add_unique(c1.mods, m);
    }
    assert(well_formed(message_step(c1, l1)));
}

/// One raw line keeps the annotation well formed.
pub proof fn lemma_raw_line_well_formed(c: Annotation, b: Seq<u8>)
    requires
        well_formed(c),
    ensures
        well_formed(raw_line_step(c, b)),
{
    assert(well_formed(counted(c)));
    if b.len() <= MAX_LINE_LEN {
        lemma_step_line_well_formed(counted(c), utf8_lossy(strip_terminators(b)));
    }
}

/// The annotation of every log is well formed.
pub proof fn lemma_annotate_well_formed(b: Seq<u8>)
    ensures
        well_formed(annotate(b)),
{
    lemma_annotate_from_well_formed(fresh(), b, 0);
}

proof fn lemma_annotate_from_well_formed(c: Annotation, b: Seq<u8>, i: int)
    requires
        well_formed(c),
    ensures
        well_formed(annotate_from(c, b, i)),
    decreases b.len() - i,
{
    if 0 <= i < b.len() {
        lemma_line_end(b, i);
        lemma_raw_line_well_formed(c, b.subrange(i, line_end(b, i)));
        lemma_annotate_from_well_formed(
            raw_line_step(c, b.subrange(i, line_end(b, i))),
            b,
            line_end(b, i),
        );
    }
}

/// An over-long line only moves the line counter on by one (below the largest
/// `usize`, where the counter stays).
pub proof fn lemma_overlong_line_counted_only(c: Annotation, b: Seq<u8>)
    requires
        b.len() > MAX_LINE_LEN,
        c.current_line < usize::MAX,
    ensures
        raw_line_step(c, b) == (Annotation { current_line: c.current_line + 1, ..c }),
{
}

/// The line counter moves on by one, up to the largest `usize`.
pub open spec fn counted(c: Annotation) -> Annotation {
    Annotation {
        current_line: if c.current_line < usize::MAX {
            c.current_line + 1
        } else {
            c.current_line
        },
        ..c
    }
}

pub open spec fn strip_one(b: Seq<u8>, x: u8) -> Seq<u8> {
    if b.len() > 0 && b.last() == x {
        b.drop_last()
    } else {
        b
    }
}

/// A trailing `\n`, then `\r`, then `\t`, each removed where present.
pub open spec fn strip_terminators(b: Seq<u8>) -> Seq<u8> {
    strip_one(strip_one(strip_one(b, 10), 13), 9)
}

/// What one raw line does: it is counted; unless it is over the length limit,
/// its text is interpreted.
pub open spec fn raw_line_step(c: Annotation, b: Seq<u8>) -> Annotation {
    if b.len() > MAX_LINE_LEN {
        counted(c)
    } else {
        step_line(counted(c), utf8_lossy(strip_terminators(b)))
    }
}

/// The length of `line` without its trailing terminators.
fn stripped_len(line: &[u8]) -> (r: usize)
    ensures
        r <= line@.len(),
        line@.subrange(0, r as int) == strip_terminators(line@),
{
    let mut end = line.len();
    let ghost b0 = line@;
    if end > 0 && line[end - 1] == 10u8 {
        end = end - 1;
    }
    assert(line@.subrange(0, end as int) =~= strip_one(b0, 10));
    let ghost b1 = line@.subrange(0, end as int);
    if end > 0 && line[end - 1] == 13u8 {
        end = end - 1;
    }
    assert(line@.subrange(0, end as int) =~= strip_one(b1, 13));
    let ghost b2 = line@.subrange(0, end as int);
    if end > 0 && line[end - 1] == 9u8 {
        end = end - 1;
    }
    assert(line@.subrange(0, end as int) =~= strip_one(b2, 9));
    end
}

/// The end of the line that starts at `i`: just after its `\n`, or the end of `b`.
pub open spec fn line_end(b: Seq<u8>, i: int) -> int
    decreases b.len() - i,
{
    if i < 0 || i >= b.len() {
        b.len() as int
    } else if b[i] == 10 {
        i + 1
    } else {
        line_end(b, i + 1)
    }
}

pub proof fn lemma_line_end(b: Seq<u8>, i: int)
    requires
        0 <= i < b.len(),
    ensures
        i < line_end(b, i) <= b.len(),
    decreases b.len() - i,
{
    if b[i] != 10 {
        if i + 1 < b.len() {
            lemma_line_end(b, i + 1);
        } else {
            assert(line_end(b, i + 1) == b.len());
        }
    }
}

/// The annotation after every line of `b` from position `i` on.
pub open spec fn annotate_from(c: Annotation, b: Seq<u8>, i: int) -> Annotation
    decreases b.len() - i,
    via annotate_from_decreases
{
    if 0 <= i < b.len() {
        annotate_from(raw_line_step(c, b.subrange(i, line_end(b, i))), b, line_end(b, i))
    } else {
        c
    }
}

#[via_fn]
proof fn annotate_from_decreases(c: Annotation, b: Seq<u8>, i: int) {
    if 0 <= i < b.len() {
        lemma_line_end(b, i);
    }
}

/// The annotation of a whole log.
pub open spec fn annotate(b: Seq<u8>) -> Annotation {
    annotate_from(fresh(), b, 0)
}

/// The catalog ids, where present and not empty, of `mods`, in order.
pub open spec fn catalog_ids(mods: Seq<ModView>) -> Seq<Seq<char>>
    decreases mods.len(),
{
    if mods.len() == 0 {
        Seq::empty()
    } else {
        let rest = catalog_ids(mods.drop_last());
        match mods.last().workshop_id {
            Some(id) => if id.len() > 0 {
                rest.push(id)
            } else {
                rest
            },
            None => rest,
        }
    }
}

/// One loaded add-on as a JSON object.
pub open spec fn mod_json(m: ModView) -> Seq<char> {
    "{\"moddir\":"@ + json_quoted(m.moddir) + ",\"name\":"@ + json_quoted(m.name)
        + ",\"version\":"@ + opt_json(m.version) + ",\"workshop_id\":"@ + opt_json(m.workshop_id)
        + "}"@
}

pub open spec fn join_mods(s: Seq<ModView>) -> Seq<char>
    decreases s.len(),
{
    if s.len() == 0 {
        Seq::empty()
    } else if s.len() == 1 {
        mod_json(s[0])
    } else {
        join_mods(s.drop_last()) + ","@ + mod_json(s.last())
    }
}

/// One bundle as a JSON object member.
pub open spec fn bundle_json(e: (Seq<char>, bool)) -> Seq<char> {
    json_quoted(e.0) + ":"@ + bool_text(e.1)
}

pub open spec fn join_bundles(s: Seq<(Seq<char>, bool)>) -> Seq<char>
    decreases s.len(),
{
    if s.len() == 0 {
        Seq::empty()
    } else if s.len() == 1 {
        bundle_json(s[0])
    } else {
        join_bundles(s.drop_last()) + ","@ + bundle_json(s.last())
    }
}

/// The annotation as a JSON object; `fields` is reserved and always empty.
pub open spec fn comment_json(a: Annotation) -> Seq<char> {
    "{\"fields\":[],\"has_stacktrace\":"@ + bool_text(a.has_stacktrace) + ",\"has_lua_crash\":"@
        + bool_text(a.has_lua_crash) + ",\"has_c_crash\":"@ + bool_text(a.has_c_crash)
        + ",\"build_version\":"@ + json_quoted(a.build_version) + ",\"build_platform\":"@
        + json_quoted(a.build_platform) + ",\"build_arch\":"@ + json_quoted(a.build_arch)
        + ",\"databundles_mounting_state\":{"@ + join_bundles(a.bundles) + "},\"mods\":["@
        + join_mods(a.mods) + "],\"total_time\":["@ + decimal(a.total_time.0 as nat) + ","@
        + decimal(a.total_time.1 as nat) + ","@ + decimal(a.total_time.2 as nat) + "]}"@
}

/// The annotation of an empty log.
pub open spec fn fresh() -> Annotation {
    Annotation {
        has_stacktrace: false,
        has_lua_crash: false,
        has_c_crash: false,
        build_version: Seq::empty(),
        build_platform: Seq::empty(),
        build_arch: Seq::empty(),
        bundles: Seq::empty(),
        registered: Seq::empty(),
        mods: Seq::empty(),
        total_time: (0, 0, 0),
        is_launching: true,
        current_line: 0,
    }
}

/// Records that bundle `name` was mounted (`from_zip`), replacing an earlier entry.
pub open spec fn bundles_put(s: Seq<(Seq<char>, bool)>, name: Seq<char>, from_zip: bool) -> Seq<
    (Seq<char>, bool),
> {
    if exists|i: int| 0 <= i < s.len() && #[trigger] s[i].0 == name {
        s.map_values(|e: (Seq<char>, bool)| if e.0 == name { (name, from_zip) } else { e })
    } else {
        s.push((name, from_zip))
    }
}

/// Adds `d` to the registered directories unless it is there.
pub open spec fn registered_add(s: Seq<Seq<char>>, d: Seq<char>) -> Seq<Seq<char>> {
    if s.contains(d) {
        s
    } else {
        s.push(d)
    }
}

/// Adds `m` to the loaded add-ons unless one of its directory is there.
pub open spec fn mods_add(s: Seq<ModView>, m: ModView) -> Seq<ModView> {
    if exists|i: int| 0 <= i < s.len() && #[trigger] s[i].moddir == m.moddir {
        s
    } else {
        s.push(m)
    }
}

pub open spec fn entries_view(v: Seq<(String, bool)>) -> Seq<(Seq<char>, bool)> {
    v.map_values(|e: (String, bool)| (e.0@, e.1))
}

fn put_entry(v: &mut Vec<(String, bool)>, name: String, from_zip: bool)
    ensures
        entries_view(final(v)@) == bundles_put(entries_view(old(v)@), name@, from_zip),
{
    let ghost old_b = entries_view(v@);
    let ghost nv = name@;
    let mut found = false;
    let mut i: usize = 0;
    let n = v.len();
    while i < n
        invariant
            n == v@.len(),
            old_b.len() == n,
            i <= n,
            name@ == nv,
            found == (exists|j: int| 0 <= j < i && #[trigger] old_b[j].0 == nv),
            forall|j: int|
                0 <= j < i ==> #[trigger] entries_view(v@)[j] == (if old_b[j].0 == nv {
                    (nv, from_zip)
                } else {
                    old_b[j]
                }),
            forall|j: int| i <= j < n ==> #[trigger] entries_view(v@)[j] == old_b[j],
        decreases n - i,
    {
        assert(entries_view(v@)[i as int] == old_b[i as int]);
        let ghost prev = v@;
        if v[i].0 == name {
            v.set(i, (name.clone(), from_zip));
            found = true;
            assert forall|j: int| 0 <= j < n && j != i implies #[trigger] entries_view(v@)[j]
                == entries_view(prev)[j] by {
                assert(v@[j] == prev[j]);
            }
        }
        assert(entries_view(v@)[i as int] == (if old_b[i as int].0 == nv {
            (nv, from_zip)
        } else {
            old_b[i as int]
        }));
        i = i + 1;
    }
    if !found {
        assert forall|j: int| 0 <= j < n implies #[trigger] entries_view(v@)[j] == old_b[j] by {
            if old_b[j].0 == nv {
                assert(exists|k: int| 0 <= k < n && #[trigger] old_b[k].0 == nv);
            }
        }
        let ghost prev = v@;
        v.push((name, from_zip));
        assert forall|j: int| 0 <= j < n implies #[trigger] entries_view(v@)[j] == old_b[j] by {
            assert(v@[j] == prev[j]);
            assert(entries_view(prev)[j] == old_b[j]);
        }
        assert(entries_view(v@) =~= old_b.push((nv, from_zip)));
    } else {
        assert(entries_view(v@) =~= old_b.map_values(
            |e: (Seq<char>, bool)|
                if e.0 == nv {
                    (nv, from_zip)
                } else {
                    e
                },
        ));
    }
}

/// The first registered directory at or after `i` that `line` starts with,
/// followed by ` (`.
pub open spec fn local_match_from(regs: Seq<Seq<char>>, line: Seq<char>, i: int) -> Option<int>
    decreases regs.len() - i,
{
    if i < 0 || i >= regs.len() {
        None
    } else if has_prefix(line, regs[i] + " ("@) {
        Some(i)
    } else {
        local_match_from(regs, line, i + 1)
    }
}

pub open spec fn moddir_marker() -> Seq<char> {
    "ModIndex:GetModsToLoad inserting moddir, \t"@
}

pub open spec fn version_marker() -> Seq<char> {
    " Version:"@
}

/// A trailing ` Version:<value>` taken off: what is left, and the value.
pub open spec fn split_version(s: Seq<char>) -> (Seq<char>, Option<Seq<char>>) {
    match rfind(s, version_marker()) {
        Some(k) => (s.subrange(0, k), Some(s.subrange(k + version_marker().len(), s.len() as int))),
        None => (s, None),
    }
}

/// The add-on that a `Loading mod: ` line names, if it names one.
pub open spec fn loaded_mod(regs: Seq<Seq<char>>, line: Seq<char>) -> Option<ModView> {
    match loading_mod_prefix(line) {
        None => None,
        Some(n) => {
            let (rest, version) = split_version(line.subrange(n, line.len() as int));
            match workshop_from(rest, 0) {
                Some(i) => {
                    let end = run_end(rest, i + 9, CharClass::Digit);
                    Some(
                        ModView {
                            moddir: rest.subrange(i, end),
                            name: inner_name(rest, end + 2),
                            version,
                            workshop_id: Some(rest.subrange(i + 9, end)),
                        },
                    )
                },
                None => match local_match_from(regs, rest, 0) {
                    Some(j) => Some(
                        ModView {
                            moddir: regs[j],
                            name: inner_name(rest, regs[j].len() + 2 as int),
                            version,
                            workshop_id: None,
                        },
                    ),
                    None => None,
                },
            }
        },
    }
}

/// Launch ends: whatever build fact is still missing becomes `unknown`.
pub open spec fn finish_launch(c: Annotation) -> Annotation {
    Annotation {
        build_version: if c.build_version.len() == 0 {
            "unknown"@
        } else {
            c.build_version
        },
        build_platform: if c.build_platform.len() == 0 {
            "unknown"@
        } else {
            c.build_platform
        },
        build_arch: if c.build_arch.len() == 0 {
            "unknown"@
        } else {
            c.build_arch
        },
        ..c
    }
}

/// The rules for a message body, once markers are stripped.
pub open spec fn body_step(c: Annotation, line: Seq<char>) -> Annotation {
    match find(line, moddir_marker()) {
        Some(n) => Annotation {
            registered: registered_add(
                c.registered,
                line.subrange(n + moddir_marker().len(), line.len() as int),
            ),
            ..c
        },
        None => match loaded_mod(c.registered, line) {
            Some(m) => Annotation { mods: mods_add(c.mods, m), ..c },
            None => {
                let c1 = if line == "stack traceback:"@ {
                    Annotation { has_stacktrace: true, ..c }
                } else {
                    c
                };
                if find(line, "LUA ERROR stack traceback:"@) is Some {
                    Annotation { has_lua_crash: true, ..c1 }
                } else {
                    c1
                }
            },
        },
    }
}

/// The rules after the time marker, first match wins.
pub open spec fn message_step(c: Annotation, line: Seq<char>) -> Annotation {
    if c.build_version.len() == 0 && version_line(line) is Some {
        let (v, p) = version_line(line)->Some_0;
        Annotation { build_version: c.build_version + v, build_platform: c.build_platform + p, ..c }
    } else if c.build_arch.len() == 0 && arch_line(line) is Some {
        Annotation { build_arch: c.build_arch + arch_line(line)->Some_0, ..c }
    } else if bundle_line(line) is Some {
        let (name, from_zip) = bundle_line(line)->Some_0;
        Annotation { bundles: bundles_put(c.bundles, name, from_zip), ..c }
    } else if line == "cGame::StartPlaying"@ {
        finish_launch(c)
    } else {
        body_step(c, lua_source_stripped(line))
    }
}

/// What one decoded line, terminators stripped, does to the annotation.
pub open spec fn step_line(c: Annotation, line: Seq<char>) -> Annotation {
    match time_prefix(line) {
        Some((h, m, s, n)) => message_step(
            Annotation { total_time: (h, m, s), ..c },
            line.subrange(n, line.len() as int),
        ),
        None => message_step(c, line),
    }
}

impl LogComment {
    /// The annotation of an empty log.
    pub fn new() -> (r: Self)
        ensures
            r@ == fresh(),
            well_formed(r@),
    {
        let r = LogComment {
            has_stacktrace: false,
            has_lua_crash: false,
            has_c_crash: false,
            build_version: String::new(),
            build_platform: String::new(),
            build_arch: String::new(),
            databundles_mounting_state: Vec::new(),
            mods_registed: Vec::new(),
            mods: Vec::new(),
            total_time: (0, 0, 0),
            state: LogState::default(),
        };
        assert(r@.bundles =~= Seq::<(Seq<char>, bool)>::empty());
        assert(r@.registered =~= Seq::<Seq<char>>::empty());
        assert(r@.mods =~= Seq::<ModView>::empty());
        r
    }

    /// Reads one raw line: counts it and, unless it is longer than
    /// `MAX_LINE_LEN` bytes, strips its terminators, decodes it and applies the rules.
    pub fn parse_line_u8(&mut self, line: &[u8])
        ensures
            final(self)@ == raw_line_step(old(self)@, line@),
            line@.len() > MAX_LINE_LEN ==> final(self)@ == counted(old(self)@),
            well_formed(old(self)@) ==> well_formed(final(self)@),
    {
        proof {
            if well_formed(self@) {
                lemma_raw_line_well_formed(self@, line@);
            }
        }
        if self.state.current_line < usize::MAX {
            self.state.current_line = self.state.current_line + 1;
        }
        if line.len() > MAX_LINE_LEN {
            return;
        }
        let end = stripped_len(line);
        let text = decode_lossy(&line[0..end]);
        self.parse_line_chars(text.as_slice());
    }

    /// Applies the rules to one decoded line whose terminators are stripped.
    pub fn parse_line_chars(&mut self, line: &[char])
        ensures
            final(self)@ == step_line(old(self)@, line@),
            well_formed(old(self)@) ==> well_formed(final(self)@),
    {
        proof {
            if well_formed(self@) {
                lemma_step_line_well_formed(self@, line@);
            }
        }
        match time_prefix_exec(line) {
            Some((h, m, s, n)) => {
                self.total_time = (h, m, s);
                self.message_step(&line[n..line.len()]);
            },
            None => {
                self.message_step(line);
            },
        }
    }

    fn message_step(&mut self, line: &[char])
        ensures
            final(self)@ == message_step(old(self)@, line@),
    {
        if self.build_version.as_str().is_empty() {
            if let Some((v, p)) = version_line_exec(line) {
                self.build_version.append(v.as_str());
                self.build_platform.append(p.as_str());
                return;
            }
        }
        if self.build_arch.as_str().is_empty() {
            if let Some(a) = arch_line_exec(line) {
                self.build_arch.append(a.as_str());
                return;
            }
        }
        if let Some((name, from_zip)) = bundle_line_exec(line) {
            self.put_bundle(name, from_zip);
            return;
        }
        let start = chars_of("cGame::StartPlaying");
        if eq_chars(line, start.as_slice()) {
            self.finish_launch();
            return;
        }
        match lua_source_prefix_exec(line) {
            Some(n) => self.body_step(&line[n..line.len()]),
            None => self.body_step(line),
        }
    }

    fn body_step(&mut self, line: &[char])
        ensures
            final(self)@ == body_step(old(self)@, line@),
    {
        let marker = chars_of("ModIndex:GetModsToLoad inserting moddir, \t");
        if let Some(n) = find_chars(line, marker.as_slice()) {
            proof {
                lemma_find_from_bounds(line@, marker@, 0);
            }
            let ln = line.len();
            assert(n + marker@.len() <= ln);
            let dir = vstd::slice::slice_to_vec(&line[n + marker.len()..ln]);
            self.register_dir(dir);
            return;
        }
        if let Some(m) = self.loaded_mod_exec(line) {
            self.add_mod(m);
            return;
        }
        let trace = chars_of("stack traceback:");
        if eq_chars(line, trace.as_slice()) {
            self.has_stacktrace = true;
        }
        let lua = chars_of("LUA ERROR stack traceback:");
        if find_chars(line, lua.as_slice()).is_some() {
            self.has_lua_crash = true;
        }
    }

    fn loaded_mod_exec(&self, line: &[char]) -> (r: Option<Mod>)
        ensures
            match r {
                Some(m) => loaded_mod(self@.registered, line@) == Some(m@),
                None => loaded_mod(self@.registered, line@) is None,
            },
    {
        let n = match loading_mod_prefix_exec(line) {
            Some(n) => n,
            None => return None,
        };
        let rest0 = &line[n..line.len()];
        let vm = chars_of(" Version:");
        proof {
            reveal_strlit(" Version:");
            lemma_rfind_below_bounds(rest0@, vm@, rest0@.len() - vm@.len());
        }
        let (rest, version) = match rfind_chars(rest0, vm.as_slice()) {
            Some(k) => (&rest0[0..k], Some(text_of(&rest0[k + 9..rest0.len()]))),
            None => (rest0, None),
        };
        assert(split_version(rest0@) == (rest@, opt_view(version)));
        if let Some(i) = workshop_exec(rest) {
            let end = scan_run(rest, i + 9, CharClass::Digit);
            let name = if rest.len() - end >= 3 {
                inner_name_exec(rest, end + 2)
            } else {
                String::new()
            };
            proof {
                lemma_run_end_bounds(rest@, i + 9, CharClass::Digit);
            }
            let m = Mod {
                moddir: text_of(&rest[i..end]),
                name,
                version,
                workshop_id: Some(text_of(&rest[i + 9..end])),
            };
            assert(inner_name(rest@, end + 2) =~= m.name@);
            return Some(m);
        }
        let sep = chars_of(" (");
        proof {
            reveal_strlit(" (");
        }
        let mut j: usize = 0;
        while j < self.mods_registed.len()
            invariant
                j <= self@.registered.len(),
                sep@ == " ("@,
                sep@.len() == 2,
                loading_mod_prefix(line@) == Some(n as int),
                rest0@ == line@.subrange(n as int, line@.len() as int),
                split_version(rest0@) == (rest@, opt_view(version)),
                workshop_from(rest@, 0) is None,
                local_match_from(self@.registered, rest@, 0) == local_match_from(
                    self@.registered,
                    rest@,
                    j as int,
                ),
            decreases self@.registered.len() - j,
        {
            let d = &self.mods_registed[j];
            assert(self@.registered[j as int] == d@);
            proof {
                lemma_prefix_concat(rest@, d@, sep@);
            }
            if starts_with(rest, d.as_slice()) && matches_at(rest, sep.as_slice(), d.len()) {
                let rl = rest.len();
                assert(d@.len() + 2 <= rl);
                assert(local_match_from(self@.registered, rest@, j as int) == Some(j as int));
                let m = Mod {
                    moddir: text_of(d.as_slice()),
                    name: inner_name_exec(rest, d.len() + 2),
                    version,
                    workshop_id: None,
                };
                return Some(m);
            }
            j = j + 1;
        }
        None
    }

    /// The getters below expose the collected facts.
    pub fn has_stacktrace(&self) -> (r: bool)
        ensures
            r == self@.has_stacktrace,
    {
        self.has_stacktrace
    }

    pub fn has_lua_crash(&self) -> (r: bool)
        ensures
            r == self@.has_lua_crash,
    {
        self.has_lua_crash
    }

    pub fn has_c_crash(&self) -> (r: bool)
        ensures
            r == self@.has_c_crash,
    {
        self.has_c_crash
    }

    pub fn build_version(&self) -> (r: String)
        ensures
            r@ == self@.build_version,
    {
        self.build_version.clone()
    }

    pub fn build_platform(&self) -> (r: String)
        ensures
            r@ == self@.build_platform,
    {
        self.build_platform.clone()
    }

    pub fn build_arch(&self) -> (r: String)
        ensures
            r@ == self@.build_arch,
    {
        self.build_arch.clone()
    }

    pub fn total_time(&self) -> (r: (u32, u32, u32))
        ensures
            r == self@.total_time,
    {
        self.total_time
    }

    pub fn line_count(&self) -> (r: usize)
        ensures
            r == self@.current_line,
    {
        self.state.current_line
    }

    /// Whether bundle `name` was mounted from its archive, if the log says.
    pub fn bundle_state(&self, name: &str) -> (r: Option<bool>)
        ensures
            r is None <==> forall|i: int|
                0 <= i < self@.bundles.len() ==> #[trigger] self@.bundles[i].0 != name@,
            r matches Some(b) ==> exists|i: int|
                0 <= i < self@.bundles.len() && #[trigger] self@.bundles[i] == (name@, b),
    {
        let key = name.to_owned();
        let mut i: usize = 0;
        while i < self.databundles_mounting_state.len()
            invariant
                i <= self@.bundles.len(),
                key@ == name@,
                forall|j: int| 0 <= j < i ==> #[trigger] self@.bundles[j].0 != name@,
            decreases self@.bundles.len() - i,
        {
            let e = &self.databundles_mounting_state[i];
            if e.0 == key {
                assert(self@.bundles[i as int] == (name@, e.1));
                assert(self@.bundles[i as int].0 == name@);
                return Some(e.1);
            }
            i = i + 1;
        }
        None
    }

    /// The loaded add-on whose directory is `moddir`, if the log shows one.
    pub fn loaded_mod(&self, moddir: &str) -> (r: Option<Mod>)
        ensures
            r is None <==> forall|i: int|
                0 <= i < self@.mods.len() ==> #[trigger] self@.mods[i].moddir != moddir@,
            r matches Some(m) ==> exists|i: int|
                0 <= i < self@.mods.len() && #[trigger] self@.mods[i] == m@,
    {
        let key = moddir.to_owned();
        let mut i: usize = 0;
        while i < self.mods.len()
            invariant
                i <= self@.mods.len(),
                key@ == moddir@,
                forall|j: int| 0 <= j < i ==> #[trigger] self@.mods[j].moddir != moddir@,
            decreases self@.mods.len() - i,
        {
            let m = &self.mods[i];
            if m.moddir == key {
                let c = m.copy();
                assert(self@.mods[i as int] == c@);
                assert(self@.mods[i as int].moddir == moddir@);
                return Some(c);
            }
            i = i + 1;
        }
        None
    }

    /// The catalog ids of the loaded add-ons that have one, in load order.
    pub fn workshop_ids(&self) -> (r: Vec<String>)
        ensures
            r@.map_values(|s: String| s@) == catalog_ids(self@.mods),
    {
        let mut out: Vec<String> = Vec::new();
        let mut i: usize = 0;
        while i < self.mods.len()
            invariant
                i <= self@.mods.len(),
                out@.map_values(|s: String| s@) == catalog_ids(self@.mods.subrange(0, i as int)),
            decreases self@.mods.len() - i,
        {
            let ghost before = out@;
            assert(self@.mods.subrange(0, i + 1).drop_last() =~= self@.mods.subrange(0, i as int));
            assert(self@.mods.subrange(0, i + 1).last() == self.mods@[i as int]@);
            if let Some(id) = &self.mods[i].workshop_id {
                if !id.as_str().is_empty() {
                    out.push(id.clone());
                    assert(out@.map_values(|s: String| s@) =~= before.map_values(|s: String| s@).push(id@));
                }
            }
            i = i + 1;
        }
        assert(self@.mods.subrange(0, self@.mods.len() as int) =~= self@.mods);
        out
    }

    /// The annotation as a JSON object.
    pub fn to_ipc(&self) -> (r: String)
        ensures
            r@ == comment_json(self@),
    {
        let mut out = String::new();
        out.append("{\"fields\":[],\"has_stacktrace\":");
        append_bool(&mut out, self.has_stacktrace);
        out.append(",\"has_lua_crash\":");
        append_bool(&mut out, self.has_lua_crash);
        out.append(",\"has_c_crash\":");
        append_bool(&mut out, self.has_c_crash);
        out.append(",\"build_version\":");
        out.append(quote(self.build_version.as_str()).as_str());
        out.append(",\"build_platform\":");
        out.append(quote(self.build_platform.as_str()).as_str());
        out.append(",\"build_arch\":");
        out.append(quote(self.build_arch.as_str()).as_str());
        out.append(",\"databundles_mounting_state\":{");
        self.append_bundles(&mut out);
        out.append("},\"mods\":[");
        self.append_mods(&mut out);
        out.append("],\"total_time\":[");
        out.append(decimal_text(self.total_time.0 as u64).as_str());
        out.append(",");
        out.append(decimal_text(self.total_time.1 as u64).as_str());
        out.append(",");
        out.append(decimal_text(self.total_time.2 as u64).as_str());
        out.append("]}");
        out
    }

    fn append_bundles(&self, out: &mut String)
        ensures
            final(out)@ == old(out)@ + join_bundles(self@.bundles),
    {
        let ghost start = out@;
        let n = self.databundles_mounting_state.len();
        let mut i: usize = 0;
        assert(self@.bundles.subrange(0, 0) =~= Seq::<(Seq<char>, bool)>::empty());
        assert(start + join_bundles(Seq::empty()) =~= start);
        while i < n
            invariant
                n == self@.bundles.len(),
                i <= n,
                out@ == start + join_bundles(self@.bundles.subrange(0, i as int)),
            decreases n - i,
        {
            let ghost sub = self@.bundles.subrange(0, i + 1);
            assert(sub.drop_last() =~= self@.bundles.subrange(0, i as int));
            assert(sub.last() == self@.bundles[i as int]);
            let e = &self.databundles_mounting_state[i];
            if i > 0 {
                out.append(",");
            }
            out.append(quote(e.0.as_str()).as_str());
            out.append(":");
            append_bool(out, e.1);
            proof {
                if i == 0 {
                    assert(sub.len() == 1);
                    assert(sub[0] == sub.last());
                }
            }
            assert(out@ =~= start + join_bundles(sub));
            i = i + 1;
        }
        assert(self@.bundles.subrange(0, n as int) =~= self@.bundles);
    }

    fn append_mods(&self, out: &mut String)
        ensures
            final(out)@ == old(out)@ + join_mods(self@.mods),
    {
        let ghost start = out@;
        let n = self.mods.len();
        let mut i: usize = 0;
        assert(self@.mods.subrange(0, 0) =~= Seq::<ModView>::empty());
        assert(start + join_mods(Seq::empty()) =~= start);
        while i < n
            invariant
                n == self@.mods.len(),
                i <= n,
                out@ == start + join_mods(self@.mods.subrange(0, i as int)),
            decreases n - i,
        {
            let ghost sub = self@.mods.subrange(0, i + 1);
            assert(sub.drop_last() =~= self@.mods.subrange(0, i as int));
            assert(sub.last() == self@.mods[i as int]);
            let m = &self.mods[i];
            assert(self@.mods[i as int] == m@);
            if i > 0 {
                out.append(",");
            }
            let piece = m.to_json();
            out.append(piece.as_str());
            proof {
                if i == 0 {
                    assert(sub.len() == 1);
                    assert(sub[0] == sub.last());
                }
            }
            assert(out@ =~= start + join_mods(sub));
            i = i + 1;
        }
        assert(self@.mods.subrange(0, n as int) =~= self@.mods);
    }

    fn put_bundle(&mut self, name: String, from_zip: bool)
        ensures
            final(self)@ == (Annotation {
                bundles: bundles_put(old(self)@.bundles, name@, from_zip),
                ..old(self)@
            }),
    {
        let ghost nv = name@;
        put_entry(&mut self.databundles_mounting_state, name, from_zip);
        assert(self@.bundles =~= bundles_put(old(self)@.bundles, nv, from_zip));
    }

    fn register_dir(&mut self, dir: Vec<char>)
        ensures
            final(self)@ == (Annotation {
                registered: registered_add(old(self)@.registered, dir@),
                ..old(self)@
            }),
    {
        let mut i: usize = 0;
        while i < self.mods_registed.len()
            invariant
                i <= self@.registered.len(),
                self == old(self),
                forall|j: int| 0 <= j < i ==> #[trigger] self@.registered[j] != dir@,
            decreases self@.registered.len() - i,
        {
            if self.mods_registed[i].len() == dir.len() && starts_with(
                self.mods_registed[i].as_slice(),
                dir.as_slice(),
            ) {
                assert(self@.registered[i as int] =~= dir@);
                assert(self@.registered[i as int] == dir@);
                return;
            }
            assert(self@.registered[i as int] == self.mods_registed@[i as int]@);
            assert(self@.registered[i as int] != dir@) by {
                if self@.registered[i as int] == dir@ {
                    assert(self@.registered[i as int].subrange(0, dir@.len() as int) =~= dir@);
                }
            }
            i = i + 1;
        }
        let ghost d = dir@;
        self.mods_registed.push(dir);
        assert(self@.registered =~= old(self)@.registered.push(d));
    }

    fn add_mod(&mut self, m: Mod)
        ensures
            final(self)@ == (Annotation { mods: mods_add(old(self)@.mods, m@), ..old(self)@ }),
    {
        let mut i: usize = 0;
        while i < self.mods.len()
            invariant
                i <= self@.mods.len(),
                self == old(self),
                forall|j: int| 0 <= j < i ==> #[trigger] self@.mods[j].moddir != m@.moddir,
            decreases self@.mods.len() - i,
        {
            if self.mods[i].moddir == m.moddir {
                assert(self@.mods[i as int].moddir == m@.moddir);
                return;
            }
            i = i + 1;
        }
        let ghost mv = m@;
        self.mods.push(m);
        assert(self@.mods =~= old(self)@.mods.push(mv));
    }

    fn finish_launch(&mut self)
        ensures
            final(self)@ == finish_launch(old(self)@),
    {
        proof {
            reveal_strlit("unknown");
        }
        if self.build_version.as_str().is_empty() {
            self.build_version.append("unknown");
        }
        if self.build_platform.as_str().is_empty() {
            self.build_platform.append("unknown");
        }
        if self.build_arch.as_str().is_empty() {
            self.build_arch.append("unknown");
        }
        assert(self@.build_version =~= finish_launch(old(self)@).build_version);
        assert(self@.build_platform =~= finish_launch(old(self)@).build_platform);
        assert(self@.build_arch =~= finish_launch(old(self)@).build_arch);
    }
}

/// Annotates a whole log: every line, as split after each `\n`, in order.
pub fn parse_log_content(content: &[u8]) -> (r: LogComment)
    ensures
        r@ == annotate(content@),
        well_formed(r@),
{
    proof {
        lemma_annotate_well_formed(content@);
    }
    let mut c = LogComment::new();
    let n = content.len();
    let mut i: usize = 0;
    while i < n
        invariant
            n == content@.len(),
            i <= n,
            annotate_from(c@, content@, i as int) == annotate(content@),
        decreases n - i,
    {
        let mut j = i;
        while j < n && content[j] != 10u8
            invariant
                n == content@.len(),
                i <= j <= n,
                i < n,
                line_end(content@, j as int) == line_end(content@, i as int),
            decreases n - j,
        {
            j = j + 1;
        }
        let e = if j < n {
            j + 1
        } else {
            j
        };
        proof {
            lemma_line_end(content@, i as int);
        }
        c.parse_line_u8(&content[i..e]);
        i = e;
    }
    c
}

/// No rule reads a native crash from a line: the flag keeps its value.
pub proof fn lemma_line_keeps_native_crash(c: Annotation, b: Seq<u8>)
    ensures
        raw_line_step(c, b).has_c_crash == c.has_c_crash,
{
}

/// The native crash flag of every log's annotation is false.
pub proof fn lemma_no_native_crash(b: Seq<u8>)
    ensures
        !annotate(b).has_c_crash,
{
    lemma_annotate_from_keeps_native_crash(fresh(), b, 0);
}

proof fn lemma_annotate_from_keeps_native_crash(c: Annotation, b: Seq<u8>, i: int)
    ensures
        annotate_from(c, b, i).has_c_crash == c.has_c_crash,
    decreases b.len() - i,
{
    if 0 <= i < b.len() {
        lemma_line_end(b, i);
        lemma_line_keeps_native_crash(c, b.subrange(i, line_end(b, i)));
        lemma_annotate_from_keeps_native_crash(
            raw_line_step(c, b.subrange(i, line_end(b, i))),
            b,
            line_end(b, i),
        );
    }
}

} // verus!
