//! Where a log's bytes live: a typed locator with stable naming.
use vstd::prelude::*;

use crate::annotation::opt_view;
use crate::ipc::{
    append_bool, append_seconds, bool_text, decimal, decimal_text, json_parses, json_quoted,
    json_str_at, parse_check, quote, seconds_text, str_member_of,
};
use crate::text::{
    chars_of, has_prefix, has_short_digit_runs, short_digit_runs, starts_with, text_of,
};

verus! {

/// What a locator says, as plain text.
pub enum LocatorView {
    Ds(Seq<char>),
    DstLocal(Seq<char>),
    DstCloud(Seq<char>, Seq<char>),
    External(Seq<char>),
}

/// Where a log lives.
pub enum LogPath {
    /// The single-player title's log file.
    Ds(String),
    /// A multiplayer log file, backup or shard log, on disk.
    DstLocal(String),
    /// A log that is an entry (second field) of a save archive (first field).
    DstCloud(String, String),
    /// A log the user opened by hand.
    External(String),
}

impl View for LogPath {
    type V = LocatorView;

    open spec fn view(&self) -> LocatorView {
        match self {
            LogPath::Ds(p) => LocatorView::Ds(p@),
            LogPath::DstLocal(p) => LocatorView::DstLocal(p@),
            LogPath::DstCloud(p, n) => LocatorView::DstCloud(p@, n@),
            LogPath::External(p) => LocatorView::External(p@),
        }
    }
}

impl Clone for LogPath {
    fn clone(&self) -> (r: Self)
        ensures
            r@ == self@,
    {
        match self {
            LogPath::Ds(p) => LogPath::Ds(p.clone()),
            LogPath::DstLocal(p) => LogPath::DstLocal(p.clone()),
            LogPath::DstCloud(p, n) => LogPath::DstCloud(p.clone(), n.clone()),
            LogPath::External(p) => LogPath::External(p.clone()),
        }
    }
}

impl PartialEq for LogPath {
    fn eq(&self, o: &LogPath) -> (r: bool) {
        match (self, o) {
            (LogPath::Ds(a), LogPath::Ds(b)) => a.eq(b),
            (LogPath::DstLocal(a), LogPath::DstLocal(b)) => a.eq(b),
            (LogPath::DstCloud(a, x), LogPath::DstCloud(b, y)) => a.eq(b) && x.eq(y),
            (LogPath::External(a), LogPath::External(b)) => a.eq(b),
            _ => false,
        }
    }
}

impl vstd::std_specs::cmp::PartialEqSpecImpl for LogPath {
    open spec fn obeys_eq_spec() -> bool {
        true
    }

    open spec fn eq_spec(&self, o: &LogPath) -> bool {
        self@ == o@
    }
}

impl Default for LogPath {
    fn default() -> (r: Self)
        ensures
            r@ == LocatorView::External(Seq::empty()),
    {
        LogPath::External(String::new())
    }
}

/// The name of the file or directory that `p` ends with, as `Path::file_name`
/// reads it on the target the crate is built for.
pub uninterp spec fn file_name_of(p: Seq<char>) -> Seq<char>;

/// Relies on `Path::file_name`: the last component of `p`, empty where there is none.
/// Components are split at the target's path separators (`/`, and on Windows
/// also `\`), so the result depends on the target the crate is built for.
#[verifier::external_body]
fn file_name(p: &str) -> (r: String)
    ensures
        r@ == file_name_of(p@),
{
    std::path::Path::new(p).file_name().unwrap_or_default().to_string_lossy().into_owned()
}

/// The hyphenated text of the version 5 UUID of `s` in the URL namespace.
pub uninterp spec fn uuid_v5_url(s: Seq<char>) -> Seq<char>;

/// Relies on `uuid::Uuid::new_v5` with `NAMESPACE_URL`, written hyphenated (36 characters).
#[verifier::external_body]
fn uuid_text(s: &str) -> (r: String)
    ensures
        r@ == uuid_v5_url(s@),
        r@.len() == 36,
{
    uuid::Uuid::new_v5(&uuid::Uuid::NAMESPACE_URL, s.as_bytes()).hyphenated().to_string()
}

/// The game a locator belongs to: `ds`, `dst`, or `dyn` for a log opened by hand.
pub open spec fn game_of(l: LocatorView) -> Seq<char> {
    match l {
        LocatorView::Ds(_) => "ds"@,
        LocatorView::DstLocal(_) => "dst"@,
        LocatorView::DstCloud(_, _) => "dst"@,
        LocatorView::External(_) => "dyn"@,
    }
}

/// The descriptor a viewer starts from: game, name, plain file, modification
/// time in seconds, size in bytes, and whether the log is an archive entry.
pub open spec fn locator_json(l: LocatorView, mtime_ms: u64, filesize: u64) -> Seq<char> {
    "{\"game\":"@ + json_quoted(game_of(l)) + ",\"filename\":"@ + json_quoted(name_of(l))
        + ",\"filepath\":"@ + json_quoted(path_of(l)) + ",\"mtime\":"@ + seconds_text(
        mtime_ms as nat,
    ) + ",\"filesize\":"@ + decimal(filesize as nat) + ",\"is_zip\":"@ + bool_text(
        l is DstCloud,
    ) + "}"@
}

/// The family tag of a locator's label.
pub open spec fn family_tag(l: LocatorView) -> Seq<char> {
    match l {
        LocatorView::Ds(_) => "ds"@,
        LocatorView::DstLocal(_) => "dst"@,
        LocatorView::External(_) => "dst"@,
        LocatorView::DstCloud(_, _) => "dstcloud"@,
    }
}

/// The stable label of a locator.
pub open spec fn label_of(l: LocatorView) -> Seq<char> {
    match l {
        LocatorView::Ds(p) => "ds-"@ + uuid_v5_url(p),
        LocatorView::DstLocal(p) => "dst-"@ + uuid_v5_url(p),
        LocatorView::External(p) => "dst-"@ + uuid_v5_url(p),
        LocatorView::DstCloud(p, n) => "dstcloud-"@ + uuid_v5_url(p) + "-"@ + uuid_v5_url(n),
    }
}

pub open spec fn path_of(l: LocatorView) -> Seq<char> {
    match l {
        LocatorView::Ds(p) => p,
        LocatorView::DstLocal(p) => p,
        LocatorView::External(p) => p,
        LocatorView::DstCloud(p, _) => p,
    }
}

pub open spec fn name_of(l: LocatorView) -> Seq<char> {
    match l {
        LocatorView::DstCloud(_, n) => n,
        _ => file_name_of(path_of(l)),
    }
}

/// The persisted fields of a locator: its type tag, its path, and the entry
/// name of an archived log.
pub open spec fn fields_of(l: LocatorView) -> (Seq<char>, Seq<char>, Option<Seq<char>>) {
    match l {
        LocatorView::Ds(p) => ("ds"@, p, None),
        LocatorView::DstLocal(p) => ("dst"@, p, None),
        LocatorView::DstCloud(p, n) => ("dstcloud"@, p, Some(n)),
        LocatorView::External(p) => ("external"@, p, None),
    }
}

/// The locator that persisted fields describe; the error says what is wrong.
pub open spec fn locator_from(
    kind: Option<Seq<char>>,
    path: Option<Seq<char>>,
    name: Option<Seq<char>>,
) -> Result<LocatorView, Seq<char>> {
    match path {
        None => Err("path not found"@),
        Some(p) => match kind {
            None => Err("type not found"@),
            Some(k) => if k == "ds"@ {
                Ok(LocatorView::Ds(p))
            } else if k == "dst"@ {
                Ok(LocatorView::DstLocal(p))
            } else if k == "dstcloud"@ {
                match name {
                    Some(n) => Ok(LocatorView::DstCloud(p, n)),
                    None => Err("name not found"@),
                }
            } else if k == "external"@ {
                Ok(LocatorView::External(p))
            } else {
                Err("unknown type"@)
            },
        },
    }
}

/// The locator that the fields of the persisted text `s` describe.
pub open spec fn fields_read(s: Seq<char>) -> Result<LocatorView, Seq<char>> {
    locator_from(json_str_at(s, "type"@), json_str_at(s, "path"@), json_str_at(s, "name"@))
}

/// Every error that persisted fields can give has a message.
pub proof fn lemma_locator_errors_not_empty(
    kind: Option<Seq<char>>,
    path: Option<Seq<char>>,
    name: Option<Seq<char>>,
)
    ensures
        locator_from(kind, path, name) matches Err(e) ==> e.len() > 0,
{
    reveal_strlit("path not found");
    reveal_strlit("type not found");
    reveal_strlit("name not found");
    reveal_strlit("unknown type");
}

/// The locator that the persisted text `s` reads back as, if any.
pub open spec fn read_back(s: Seq<char>) -> Option<LocatorView> {
    if short_digit_runs(s) && json_parses(s) {
        match fields_read(s) {
            Ok(l) => Some(l),
            Err(_) => None,
        }
    } else {
        None
    }
}

/// The persisted form: a JSON object with `type`, `path` and, for an archived
/// log, `name`.
pub open spec fn serialized(l: LocatorView) -> Seq<char> {
    let (k, p, n) = fields_of(l);
    match n {
        Some(n) => "{\"type\":"@ + json_quoted(k) + ",\"path\":"@ + json_quoted(p) + ",\"name\":"@
            + json_quoted(n) + "}"@,
        None => "{\"type\":"@ + json_quoted(k) + ",\"path\":"@ + json_quoted(p) + "}"@,
    }
}

/// `s` with a leading `home` replaced by `~`.
pub open spec fn strip_home(s: Seq<char>, home: Option<Seq<char>>) -> Seq<char> {
    match home {
        Some(h) => if has_prefix(s, h) {
            "~"@ + s.subrange(h.len() as int, s.len() as int)
        } else {
            s
        },
        None => s,
    }
}

/// The text a menu shows for a locator.
pub open spec fn menu_path_of(l: LocatorView, home: Option<Seq<char>>) -> Seq<char> {
    match l {
        LocatorView::DstCloud(p, n) => strip_home(p + ":"@ + n, home),
        _ => strip_home(path_of(l), home),
    }
}

impl LogPath {
    /// `ds` for the single-player title, `dst` for the multiplayer one, `dyn` for a
    /// log opened by hand.
    pub fn get_game_type(&self) -> (r: String)
        ensures
            r@ == game_of(self@),
    {
        match self {
            LogPath::Ds(_) => String::from_str("ds"),
            LogPath::DstLocal(_) => String::from_str("dst"),
            LogPath::DstCloud(_, _) => String::from_str("dst"),
            LogPath::External(_) => String::from_str("dyn"),
        }
    }

    pub fn is_cloud(&self) -> (r: bool)
        ensures
            r == self@ is DstCloud,
    {
        match self {
            LogPath::DstCloud(_, _) => true,
            _ => false,
        }
    }

    /// Whether the log is an entry of an archive.
    pub fn is_zip(&self) -> (r: bool)
        ensures
            r == self@ is DstCloud,
    {
        self.is_cloud()
    }

    /// The plain file to look at: the log itself, or the archive that holds it.
    pub fn get_path(&self) -> (r: &str)
        ensures
            r@ == path_of(self@),
    {
        match self {
            LogPath::Ds(p) => p.as_str(),
            LogPath::DstLocal(p) => p.as_str(),
            LogPath::External(p) => p.as_str(),
            LogPath::DstCloud(p, _) => p.as_str(),
        }
    }

    /// The name to show: the file name, or the archive entry's name.
    pub fn get_name(&self) -> (r: String)
        ensures
            r@ == name_of(self@),
    {
        match self {
            LogPath::DstCloud(_, n) => n.clone(),
            _ => file_name(self.get_path()),
        }
    }

    /// The stable label: a family tag and the UUID v5 of the path (and entry name).
    pub fn to_label(&self) -> (r: String)
        ensures
            r@ == label_of(self@),
    {
        match self {
            LogPath::Ds(p) => String::from_str("ds-").concat(uuid_text(p.as_str()).as_str()),
            LogPath::DstLocal(p) => String::from_str("dst-").concat(
                uuid_text(p.as_str()).as_str(),
            ),
            LogPath::External(p) => String::from_str("dst-").concat(
                uuid_text(p.as_str()).as_str(),
            ),
            LogPath::DstCloud(p, n) => String::from_str("dstcloud-").concat(
                uuid_text(p.as_str()).as_str(),
            ).concat("-").concat(uuid_text(n.as_str()).as_str()),
        }
    }

    /// The persisted fields: type tag, path, and the entry name of an archived log.
    pub fn to_fields(&self) -> (r: (String, String, Option<String>))
        ensures
            (r.0@, r.1@, opt_view(r.2)) == fields_of(self@),
    {
        match self {
            LogPath::Ds(p) => (String::from_str("ds"), p.clone(), None),
            LogPath::DstLocal(p) => (String::from_str("dst"), p.clone(), None),
            LogPath::DstCloud(p, n) => (String::from_str("dstcloud"), p.clone(), Some(n.clone())),
            LogPath::External(p) => (String::from_str("external"), p.clone(), None),
        }
    }

    /// The locator that persisted fields describe, or why there is none.
    pub fn from_fields(kind: Option<String>, path: Option<String>, name: Option<String>) -> (r:
        Result<LogPath, String>)
        ensures
            match r {
                Ok(l) => locator_from(opt_view(kind), opt_view(path), opt_view(name))
                    == Ok::<LocatorView, Seq<char>>(l@),
                Err(e) => locator_from(
                    opt_view(kind),
                    opt_view(path),
                    opt_view(name),
                ) == Err::<LocatorView, Seq<char>>(e@),
            },
    {
        let p = match path {
            Some(p) => p,
            None => return Err(String::from_str("path not found")),
        };
        let k = match kind {
            Some(k) => k,
            None => return Err(String::from_str("type not found")),
        };
        if k == String::from_str("ds") {
            Ok(LogPath::Ds(p))
        } else if k == String::from_str("dst") {
            Ok(LogPath::DstLocal(p))
        } else if k == String::from_str("dstcloud") {
            match name {
                Some(n) => Ok(LogPath::DstCloud(p, n)),
                None => Err(String::from_str("name not found")),
            }
        } else if k == String::from_str("external") {
            Ok(LogPath::External(p))
        } else {
            Err(String::from_str("unknown type"))
        }
    }

    /// Reads a persisted locator back; a malformed text, a missing field, an
    /// unknown type tag or a run of `MAX_DIGIT_RUN` digits or more is an error
    /// with a message, never a panic.
    pub fn deserialize(s: &str) -> (r: Result<LogPath, String>)
        ensures
            !short_digit_runs(s@) ==> r is Err,
            !json_parses(s@) ==> r is Err,
            short_digit_runs(s@) && json_parses(s@) ==> match r {
                Ok(l) => fields_read(s@) == Ok::<LocatorView, Seq<char>>(l@),
                Err(e) => fields_read(s@) == Err::<LocatorView, Seq<char>>(e@),
            },
            r matches Err(e) ==> e@.len() > 0,
    {
        proof {
            reveal_strlit("digit run too long");
        }
        if !has_short_digit_runs(s) {
            return Err(String::from_str("digit run too long"));
        }
        if let Err(e) = parse_check(s) {
            return Err(e);
        }
        let kind = str_member_of(s, "type");
        let path = str_member_of(s, "path");
        let name = str_member_of(s, "name");
        let r = LogPath::from_fields(kind, path, name);
        proof {
            lemma_locator_errors_not_empty(opt_view(kind), opt_view(path), opt_view(name));
        }
        r
    }

    /// The descriptor a viewer starts from, given the plain file's modification
    /// time (milliseconds since the epoch) and size.
    pub fn to_ipc(&self, mtime_ms: u64, filesize: u64) -> (r: String)
        ensures
            r@ == locator_json(self@, mtime_ms, filesize),
    {
        let mut out = String::from_str("{\"game\":");
        out.append(quote(self.get_game_type().as_str()).as_str());
        out.append(",\"filename\":");
        out.append(quote(self.get_name().as_str()).as_str());
        out.append(",\"filepath\":");
        out.append(quote(self.get_path()).as_str());
        out.append(",\"mtime\":");
        append_seconds(&mut out, mtime_ms);
        out.append(",\"filesize\":");
        out.append(decimal_text(filesize).as_str());
        out.append(",\"is_zip\":");
        append_bool(&mut out, self.is_zip());
        out.append("}");
        out
    }

    /// The persisted form, a JSON object.
    pub fn serialize(&self) -> (r: String)
        ensures
            r@ == serialized(self@),
    {
        let (k, p, n) = self.to_fields();
        let mut out = String::from_str("{\"type\":");
        out.append(quote(k.as_str()).as_str());
        out.append(",\"path\":");
        out.append(quote(p.as_str()).as_str());
        if let Some(n) = n {
            out.append(",\"name\":");
            out.append(quote(n.as_str()).as_str());
        }
        out.append("}");
        out
    }

    /// The text a menu shows: the path (with `:entry` for an archived log), with a
    /// leading `home` directory written `~`.
    pub fn get_menu_path(&self, home: Option<&str>) -> (r: String)
        ensures
            r@ == menu_path_of(
                self@,
                match home {
                    Some(h) => Some(h@),
                    None => None,
                },
            ),
    {
        let full = match self {
            LogPath::DstCloud(p, n) => p.clone().concat(":").concat(n.as_str()),
            _ => String::from_str(self.get_path()),
        };
        match home {
            Some(h) => {
                let s = chars_of(full.as_str());
                let hc = chars_of(h);
                if starts_with(s.as_slice(), hc.as_slice()) {
                    String::from_str("~").concat(text_of(&s.as_slice()[hc.len()..s.len()]).as_str())
                } else {
                    full
                }
            },
            None => full,
        }
    }
}

/// Reading back the fields that a locator is persisted with gives that locator.
pub proof fn lemma_fields_round_trip(l: LocatorView)
    ensures
        locator_from(Some(fields_of(l).0), Some(fields_of(l).1), fields_of(l).2) == Ok::<
            LocatorView,
            Seq<char>,
        >(l),
{
    reveal_strlit("ds");
    reveal_strlit("dst");
    reveal_strlit("dstcloud");
    reveal_strlit("external");
    assert("dst"@.len() != "ds"@.len());
    assert("dstcloud"@.len() != "ds"@.len());
    assert("dstcloud"@.len() != "dst"@.len());
    assert("external"@[0] != "ds"@[0]);
    assert("external"@ != "ds"@);
    assert("external"@ != "dst"@);
    assert("external"@ != "dstcloud"@);
}

/// Locators of different families never share a label.
pub proof fn lemma_label_families_differ(a: LocatorView, b: LocatorView)
    requires
        family_tag(a) != family_tag(b),
    ensures
        label_of(a) != label_of(b),
{
    reveal_strlit("ds-");
    reveal_strlit("dst-");
    reveal_strlit("dstcloud-");
    reveal_strlit("-");
    reveal_strlit("ds");
    reveal_strlit("dst");
    reveal_strlit("dstcloud");
    let la = label_of(a);
    let lb = label_of(b);
    assert(la.len() >= 3 && lb.len() >= 3);
    assert(la[2] != lb[2] || la[3] != lb[3]) by {
        match a {
            LocatorView::DstCloud(p, n) => {
                assert(la[2] == 't' && la[3] == 'c');
            },
            LocatorView::Ds(p) => {
                assert(la[2] == '-');
            },
            _ => {
                assert(la[2] == 't' && la[3] == '-');
            },
        }
        match b {
            LocatorView::DstCloud(p, n) => {
                assert(lb[2] == 't' && lb[3] == 'c');
            },
            LocatorView::Ds(p) => {
                assert(lb[2] == '-');
            },
            _ => {
                assert(lb[2] == 't' && lb[3] == '-');
            },
        }
    }
}

} // verus!
