//! Live models of open logs, and the registry that holds them.
//!
//! A live model is refreshed by polling: each tick the caller reports whether
//! the log's file is there and its modification time, and the model says what
//! to do; when it asks for a refresh the caller reads the log and hands the
//! bytes back.
use vstd::prelude::*;

use crate::annotation::{annotate, comment_json, parse_log_content, Annotation, LogComment};
use crate::ipc::{append_bool, append_seconds, bool_text, json_quoted, quote, seconds_text};
use crate::locator::{label_of, path_of, LocatorView, LogPath};
use crate::text::{decode_lossy, text_of, utf8_lossy};

verus! {

/// How many leading bytes of a log a model keeps as its head.
pub const HEAD_LEN: usize = 4096;

/// What a poll asks the caller to do.
#[derive(Clone, Copy, PartialEq, Eq, Debug, Structural)]
pub enum PollAction {
    /// The model is inactive: nothing to do.
    Idle,
    /// The file is gone: nothing to read.
    Missing,
    /// The file has not changed since the last refresh.
    Unchanged,
    /// The file changed: read it and hand the bytes to `apply_content`.
    Refresh,
}

/// What a live model holds.
pub struct ModelView {
    pub label: Seq<char>,
    pub path: LocatorView,
    pub active: bool,
    pub file_exists: bool,
    /// modification time, in milliseconds, of the content last parsed
    pub mtime: Option<u64>,
    pub comment: Annotation,
    pub head: Seq<u8>,
    pub debug_content: Seq<char>,
}

/// The model of a freshly registered log.
pub open spec fn fresh_model(path: LocatorView) -> ModelView {
    ModelView {
        label: label_of(path),
        path,
        active: true,
        file_exists: false,
        mtime: None,
        comment: crate::annotation::fresh(),
        head: Seq::empty(),
        debug_content: Seq::empty(),
    }
}

/// What a poll decides.
pub open spec fn poll_action(m: ModelView, is_file: bool, mtime: u64) -> PollAction {
    if !m.active {
        PollAction::Idle
    } else if !is_file {
        PollAction::Missing
    } else if m.mtime == Some(mtime) {
        PollAction::Unchanged
    } else {
        PollAction::Refresh
    }
}

/// The model after a poll: an active model records whether its file is there.
pub open spec fn polled(m: ModelView, is_file: bool) -> ModelView {
    if m.active {
        ModelView { file_exists: is_file, ..m }
    } else {
        m
    }
}

/// The model after the content read at modification time `mtime` is parsed.
pub open spec fn refreshed(m: ModelView, mtime: u64, content: Seq<u8>) -> ModelView {
    ModelView {
        file_exists: true,
        mtime: Some(mtime),
        comment: annotate(content),
        head: if content.len() > HEAD_LEN {
            content.subrange(0, HEAD_LEN as int)
        } else {
            content
        },
        debug_content: utf8_lossy(content),
        ..m
    }
}

/// A poll and, where it asks for one, a refresh with `content`.
pub open spec fn tick(m: ModelView, is_file: bool, mtime: u64, content: Seq<u8>) -> ModelView {
    if poll_action(m, is_file, mtime) == PollAction::Refresh {
        refreshed(polled(m, is_file), mtime, content)
    } else {
        polled(m, is_file)
    }
}

/// The model as a JSON object; `mtime` is in seconds, 0 before the first refresh.
pub open spec fn model_json(m: ModelView) -> Seq<char> {
    "{\"label\":"@ + json_quoted(m.label) + ",\"active\":"@ + bool_text(m.active) + ",\"exists\":"@
        + bool_text(m.file_exists) + ",\"mtime\":"@ + seconds_text(
        match m.mtime {
            Some(t) => t as nat,
            None => 0,
        },
    ) + ",\"comment\":"@ + comment_json(m.comment) + ",\"debug_content\":"@ + json_quoted(
        m.debug_content,
    ) + "}"@
}

/// The live state of one open log.
pub struct LogModel {
    path: LogPath,
    label: String,
    active: bool,
    file_exists: bool,
    mtime: Option<u64>,
    comment: LogComment,
    head: Vec<u8>,
    debug_content: String,
}

impl View for LogModel {
    type V = ModelView;

    closed spec fn view(&self) -> ModelView {
        ModelView {
            label: self.label@,
            path: self.path@,
            active: self.active,
            file_exists: self.file_exists,
            mtime: self.mtime,
            comment: self.comment@,
            head: self.head@,
            debug_content: self.debug_content@,
        }
    }
}

impl LogModel {
    /// A model for `path`: active, not yet seen on disk, with an empty snapshot.
    pub fn new(path: LogPath) -> (r: Self)
        ensures
            r@ == fresh_model(path@),
    {
        let label = path.to_label();
        LogModel {
            path,
            label,
            active: true,
            file_exists: false,
            mtime: None,
            comment: LogComment::new(),
            head: Vec::new(),
            debug_content: String::new(),
        }
    }

    pub fn label(&self) -> (r: String)
        ensures
            r@ == self@.label,
    {
        self.label.clone()
    }

    pub fn path(&self) -> (r: &LogPath)
        ensures
            r@ == self@.path,
    {
        &self.path
    }

    pub fn is_active(&self) -> (r: bool)
        ensures
            r == self@.active,
    {
        self.active
    }

    pub fn file_exists(&self) -> (r: bool)
        ensures
            r == self@.file_exists,
    {
        self.file_exists
    }

    pub fn comment(&self) -> (r: &LogComment)
        ensures
            r@ == self@.comment,
    {
        &self.comment
    }

    pub fn head(&self) -> (r: &[u8])
        ensures
            r@ == self@.head,
    {
        self.head.as_slice()
    }

    /// Stops further refreshes; the last snapshot stays.
    pub fn deactivate(&mut self)
        ensures
            final(self)@ == (ModelView { active: false, ..old(self)@ }),
    {
        self.active = false;
    }

    /// The catalog ids of the add-ons the current annotation shows loaded.
    pub fn get_mod_id_list(&self) -> (r: Vec<String>)
        ensures
            r@.map_values(|s: String| s@) == crate::annotation::catalog_ids(self@.comment.mods),
    {
        self.comment.workshop_ids()
    }

    /// One poll: records whether the file is there and says what to do next.
    pub fn poll(&mut self, is_file: bool, mtime: u64) -> (r: PollAction)
        ensures
            r == poll_action(old(self)@, is_file, mtime),
            final(self)@ == polled(old(self)@, is_file),
    {
        if !self.active {
            return PollAction::Idle;
        }
        self.file_exists = is_file;
        if !is_file {
            PollAction::Missing
        } else if self.mtime == Some(mtime) {
            PollAction::Unchanged
        } else {
            PollAction::Refresh
        }
    }

    /// Publishes what a refresh read: the log's bytes at modification time `mtime`.
    pub fn apply_content(&mut self, mtime: u64, content: &[u8])
        ensures
            final(self)@ == refreshed(old(self)@, mtime, content@),
    {
        let n = content.len();
        let h: usize = if n > HEAD_LEN {
            HEAD_LEN
        } else {
            n
        };
        let head = vstd::slice::slice_to_vec(&content[0..h]);
        let comment = parse_log_content(content);
        let text = decode_lossy(content);
        self.file_exists = true;
        self.mtime = Some(mtime);
        self.comment = comment;
        self.head = head;
        self.debug_content = text_of(text.as_slice());
        assert(self@.head =~= refreshed(old(self)@, mtime, content@).head);
    }

    /// The snapshot as a JSON object.
    pub fn to_ipc(&self) -> (r: String)
        ensures
            r@ == model_json(self@),
    {
        let mut out = String::from_str("{\"label\":");
        out.append(quote(self.label.as_str()).as_str());
        out.append(",\"active\":");
        append_bool(&mut out, self.active);
        out.append(",\"exists\":");
        append_bool(&mut out, self.file_exists);
        out.append(",\"mtime\":");
        let t: u64 = match self.mtime {
            Some(t) => t,
            None => 0,
        };
        append_seconds(&mut out, t);
        out.append(",\"comment\":");
        out.append(self.comment.to_ipc().as_str());
        out.append(",\"debug_content\":");
        out.append(quote(self.debug_content.as_str()).as_str());
        out.append("}");
        out
    }
}

/// Once a refresh has parsed the content of modification time `mtime`, a
/// second poll that sees the same time does not ask for another parse.
pub proof fn lemma_unchanged_time_parses_once(m: ModelView, mtime: u64, content: Seq<u8>)
    ensures
        poll_action(tick(m, true, mtime, content), true, mtime) != PollAction::Refresh,
{
}

/// The first model at or after `i` whose label is `label`.
pub open spec fn find_label(s: Seq<ModelView>, label: Seq<char>, i: int) -> Option<int>
    decreases s.len() - i,
{
    if i < 0 || i >= s.len() {
        None
    } else if s[i].label == label {
        Some(i)
    } else {
        find_label(s, label, i + 1)
    }
}

pub proof fn lemma_find_label(s: Seq<ModelView>, label: Seq<char>, i: int)
    requires
        0 <= i,
    ensures
        find_label(s, label, i) matches Some(j) ==> i <= j < s.len() && s[j].label == label,
        find_label(s, label, i) is None ==> forall|j: int|
            i <= j < s.len() ==> #[trigger] s[j].label != label,
    decreases s.len() - i,
{
    if i < s.len() && s[i].label != label {
        lemma_find_label(s, label, i + 1);
    }
}

/// No two models share a label.
pub open spec fn labels_unique(s: Seq<ModelView>) -> bool {
    forall|i: int, j: int| 0 <= i < j < s.len() ==> #[trigger] s[i].label != #[trigger] s[j].label
}

/// Replacing a model by one with the same label keeps labels unique.
pub proof fn lemma_update_keeps_labels_unique(s: Seq<ModelView>, i: int, m: ModelView)
    requires
        labels_unique(s),
        0 <= i < s.len(),
        m.label == s[i].label,
    ensures
        labels_unique(s.update(i, m)),
{
    let t = s.update(i, m);
    assert forall|a: int, b: int| 0 <= a < b < t.len() implies #[trigger] t[a].label
        != #[trigger] t[b].label by {
        assert(t[a].label == s[a].label && t[b].label == s[b].label);
    }
}

/// Registering keeps at most one model per label: the registry after
/// `register(path)`, as its contract gives it, has unique labels if it had them.
pub proof fn lemma_register_keeps_labels_unique(s: Seq<ModelView>, path: LocatorView)
    requires
        labels_unique(s),
    ensures
        labels_unique(
            if find_label(s, label_of(path), 0) is Some {
                s
            } else {
                s.push(fresh_model(path))
            },
        ),
{
    lemma_find_label(s, label_of(path), 0);
    if find_label(s, label_of(path), 0) is None {
        let t = s.push(fresh_model(path));
        assert forall|i: int, j: int| 0 <= i < j < t.len() implies #[trigger] t[i].label
            != #[trigger] t[j].label by {
            if j == s.len() {
                assert(t[i] == s[i]);
            } else {
                assert(t[i] == s[i] && t[j] == s[j]);
            }
        }
    }
}

/// The models of `s` that are active, in order.
pub open spec fn keep_active(s: Seq<ModelView>) -> Seq<ModelView>
    decreases s.len(),
{
    if s.len() == 0 {
        s
    } else if s.last().active {
        keep_active(s.drop_last()).push(s.last())
    } else {
        keep_active(s.drop_last())
    }
}

/// The registry after `clear_inactive(threshold)`.
pub open spec fn cleared(s: Seq<ModelView>, threshold: nat) -> Seq<ModelView> {
    if s.len() > threshold {
        keep_active(s)
    } else {
        s
    }
}

pub open spec fn models_view(v: Seq<LogModel>) -> Seq<ModelView> {
    v.map_values(|m: LogModel| m@)
}

/// The live models of the open logs, keyed by label.
pub struct LogModelState {
    logs: Vec<LogModel>,
}

impl View for LogModelState {
    type V = Seq<ModelView>;

    closed spec fn view(&self) -> Seq<ModelView> {
        models_view(self.logs@)
    }
}

impl LogModelState {
    /// An empty registry.
    pub fn new() -> (r: Self)
        ensures
            r@ == Seq::<ModelView>::empty(),
            labels_unique(r@),
    {
        let r = LogModelState { logs: Vec::new() };
        assert(r@ =~= Seq::<ModelView>::empty());
        r
    }

    fn index_of(&self, label: &str) -> (r: Option<usize>)
        ensures
            match r {
                Some(i) => find_label(self@, label@, 0) == Some(i as int) && i < self@.len(),
                None => find_label(self@, label@, 0) is None,
            },
    {
        let key = label.to_owned();
        let mut i: usize = 0;
        while i < self.logs.len()
            invariant
                i <= self@.len(),
                key@ == label@,
                find_label(self@, label@, 0) == find_label(self@, label@, i as int),
            decreases self@.len() - i,
        {
            assert(self@[i as int] == self.logs@[i as int]@);
            if self.logs[i].label == key {
                return Some(i);
            }
            i = i + 1;
        }
        None
    }

    /// Adds a model for `path` unless one with its label is there.
    pub fn register(&mut self, path: &LogPath)
        ensures
            find_label(old(self)@, label_of(path@), 0) is Some ==> final(self)@ == old(self)@,
            find_label(old(self)@, label_of(path@), 0) is None ==> final(self)@ == old(self)@.push(
                fresh_model(path@),
            ),
            labels_unique(old(self)@) ==> labels_unique(final(self)@),
    {
        proof {
            if labels_unique(self@) {
                lemma_register_keeps_labels_unique(self@, path@);
            }
        }
        let label = path.to_label();
        if self.index_of(label.as_str()).is_some() {
            return;
        }
        let m = LogModel::new(path.clone());
        let ghost mv = m@;
        self.logs.push(m);
        assert(self@ =~= old(self)@.push(mv));
    }

    /// The snapshot of the model labelled `id` as JSON, or empty text if there is none.
    pub fn to_ipc(&self, id: &str) -> (r: String)
        ensures
            match find_label(self@, id@, 0) {
                Some(i) => r@ == model_json(self@[i]),
                None => r@ == Seq::<char>::empty(),
            },
    {
        match self.index_of(id) {
            Some(i) => {
                assert(self@[i as int] == self.logs@[i as int]@);
                self.logs[i].to_ipc()
            },
            None => String::new(),
        }
    }

    /// The catalog ids that the model labelled `id` shows loaded, or none.
    pub fn get_mod_id_list(&self, id: &str) -> (r: Vec<String>)
        ensures
            match find_label(self@, id@, 0) {
                Some(i) => r@.map_values(|s: String| s@) == crate::annotation::catalog_ids(
                    self@[i].comment.mods,
                ),
                None => r@.len() == 0,
            },
    {
        match self.index_of(id) {
            Some(i) => {
                assert(self@[i as int] == self.logs@[i as int]@);
                self.logs[i].get_mod_id_list()
            },
            None => Vec::new(),
        }
    }

    pub fn len(&self) -> (r: usize)
        ensures
            r == self@.len(),
    {
        self.logs.len()
    }

    /// The plain file of the model labelled `label`, if there is one.
    pub fn get_path(&self, label: &str) -> (r: Option<String>)
        ensures
            match find_label(self@, label@, 0) {
                Some(i) => r matches Some(p) && p@ == path_of(self@[i].path),
                None => r is None,
            },
    {
        match self.index_of(label) {
            Some(i) => {
                assert(self@[i as int] == self.logs@[i as int]@);
                Some(String::from_str(self.logs[i].path.get_path()))
            },
            None => None,
        }
    }

    /// Marks the model labelled `label` inactive; its snapshot stays.
    pub fn set_inactive(&mut self, label: &str)
        ensures
            match find_label(old(self)@, label@, 0) {
                Some(i) => final(self)@ == old(self)@.update(
                    i,
                    ModelView { active: false, ..old(self)@[i] },
                ),
                None => final(self)@ == old(self)@,
            },
            labels_unique(old(self)@) ==> labels_unique(final(self)@),
    {
        proof {
            lemma_find_label(self@, label@, 0);
            if let Some(i) = find_label(self@, label@, 0) {
                if labels_unique(self@) {
                    lemma_update_keeps_labels_unique(self@, i, ModelView { active: false, ..self@[i] });
                }
            }
        }
        if let Some(i) = self.index_of(label) {
            let mut m = self.logs.remove(i);
            m.deactivate();
            let ghost mv = m@;
            self.logs.insert(i, m);
            assert(self@ =~= old(self)@.update(i as int, mv));
        }
    }

    /// One poll of the model labelled `label`; `None` when there is no such model,
    /// which tells its poller to stop.
    pub fn poll(&mut self, label: &str, is_file: bool, mtime: u64) -> (r: Option<PollAction>)
        ensures
            match find_label(old(self)@, label@, 0) {
                Some(i) => r == Some(poll_action(old(self)@[i], is_file, mtime)) && final(self)@
                    == old(self)@.update(i, polled(old(self)@[i], is_file)),
                None => r is None && final(self)@ == old(self)@,
            },
            labels_unique(old(self)@) ==> labels_unique(final(self)@),
    {
        proof {
            lemma_find_label(self@, label@, 0);
            if let Some(i) = find_label(self@, label@, 0) {
                if labels_unique(self@) {
                    lemma_update_keeps_labels_unique(self@, i, polled(self@[i], is_file));
                }
            }
        }
        match self.index_of(label) {
            Some(i) => {
                let mut m = self.logs.remove(i);
                assert(m@ == old(self)@[i as int]);
                let a = m.poll(is_file, mtime);
                let ghost mv = m@;
                self.logs.insert(i, m);
                assert(self@ =~= old(self)@.update(i as int, mv));
                Some(a)
            },
            None => None,
        }
    }

    /// Publishes what a refresh of the model labelled `label` read.
    pub fn apply_content(&mut self, label: &str, mtime: u64, content: &[u8])
        ensures
            match find_label(old(self)@, label@, 0) {
                Some(i) => final(self)@ == old(self)@.update(
                    i,
                    refreshed(old(self)@[i], mtime, content@),
                ),
                None => final(self)@ == old(self)@,
            },
            labels_unique(old(self)@) ==> labels_unique(final(self)@),
    {
        proof {
            lemma_find_label(self@, label@, 0);
            if let Some(i) = find_label(self@, label@, 0) {
                if labels_unique(self@) {
                    lemma_update_keeps_labels_unique(self@, i, refreshed(self@[i], mtime, content@));
                }
            }
        }
        if let Some(i) = self.index_of(label) {
            let mut m = self.logs.remove(i);
            assert(m@ == old(self)@[i as int]);
            m.apply_content(mtime, content);
            let ghost mv = m@;
            self.logs.insert(i, m);
            assert(self@ =~= old(self)@.update(i as int, mv));
        }
    }

    /// If more than `threshold` models are open, removes every inactive one;
    /// returns how many remain.
    pub fn clear_inactive(&mut self, threshold: usize) -> (r: usize)
        ensures
            final(self)@ == cleared(old(self)@, threshold as nat),
            r == final(self)@.len(),
            labels_unique(old(self)@) ==> labels_unique(final(self)@),
    {
        proof {
            if labels_unique(self@) {
                lemma_clear_keeps_labels_unique(self@, threshold as nat);
            }
        }
        if self.logs.len() <= threshold {
            return self.logs.len();
        }
        let ghost old_v = self@;
        let ghost n = old_v.len();
        let mut i: usize = 0;
        let ghost mut k: int = 0;
        assert(old_v.subrange(0, 0) =~= Seq::<ModelView>::empty());
        assert(old_v.subrange(0, n as int) =~= old_v);
        while i < self.logs.len()
            invariant
                0 <= k <= n,
                n == old_v.len(),
                i == keep_active(old_v.subrange(0, k)).len(),
                self@ == keep_active(old_v.subrange(0, k)) + old_v.subrange(k, n as int),
            decreases self@.len() - i,
        {
            let ghost front = keep_active(old_v.subrange(0, k));
            assert(self@[i as int] == old_v[k]);
            assert(old_v.subrange(0, k + 1).drop_last() =~= old_v.subrange(0, k));
            assert(old_v.subrange(0, k + 1).last() == old_v[k]);
            if self.logs[i].is_active() {
                assert(self@[i as int] == self.logs@[i as int]@);
                assert(self@ =~= front.push(old_v[k]) + old_v.subrange(k + 1, n as int));
                i = i + 1;
            } else {
                assert(self@[i as int] == self.logs@[i as int]@);
                let ghost before = self.logs@;
                let ghost before_v = self@;
                let _gone = self.logs.remove(i);
                assert(self.logs@ == before.remove(i as int));
                assert forall|j: int| 0 <= j < self@.len() implies #[trigger] self@[j] == (if j < i {
                    before_v[j]
                } else {
                    before_v[j + 1]
                }) by {
                    if j < i {
                        assert(self.logs@[j] == before[j]);
                    } else {
                        assert(self.logs@[j] == before[j + 1]);
                    }
                }
                assert(self@ =~= front + old_v.subrange(k + 1, n as int));
            }
            proof {
                k = k + 1;
            }
        }
        assert(old_v.subrange(k, n as int) =~= Seq::<ModelView>::empty());
        assert(old_v.subrange(0, k) =~= old_v);
        assert(self@ =~= keep_active(old_v));
        self.logs.len()
    }
}

impl LogModelState {
    /// Whether one more log may be opened under a cap of `max` open logs: once
    /// more than half the cap is open the inactive models are cleared, and
    /// there is room while fewer than `max` remain.
    pub fn make_room(&mut self, max: usize) -> (r: bool)
        ensures
            final(self)@ == cleared(old(self)@, (max / 2) as nat),
            r == (final(self)@.len() < max),
            labels_unique(old(self)@) ==> labels_unique(final(self)@),
    {
        self.clear_inactive(max / 2) < max
    }
}

/// Where more than `threshold` models are open, `clear_inactive` leaves exactly
/// the active ones, in order: none inactive stays and no active one goes.
pub proof fn lemma_clear_keeps_exactly_active(s: Seq<ModelView>, threshold: nat)
    requires
        s.len() > threshold,
    ensures
        forall|i: int|
            0 <= i < cleared(s, threshold).len() ==> (#[trigger] cleared(s, threshold)[i]).active,
        forall|i: int|
            0 <= i < s.len() && (#[trigger] s[i]).active ==> cleared(s, threshold).contains(s[i]),
{
    lemma_keep_active(s);
}

/// Every model that `keep_active` keeps comes from `s`.
pub proof fn lemma_keep_active_from(s: Seq<ModelView>)
    ensures
        forall|i: int|
            0 <= i < keep_active(s).len() ==> s.contains(#[trigger] keep_active(s)[i]),
        keep_active(s).len() <= s.len(),
    decreases s.len(),
{
    if s.len() > 0 {
        let p = s.drop_last();
        lemma_keep_active_from(p);
        assert forall|i: int| 0 <= i < keep_active(s).len() implies s.contains(
            #[trigger] keep_active(s)[i],
        ) by {
            if i < keep_active(p).len() {
                assert(keep_active(s)[i] == keep_active(p)[i]);
                let k = choose|k: int| 0 <= k < p.len() && p[k] == keep_active(p)[i];
                assert(s[k] == p[k]);
            } else {
                assert(keep_active(s)[i] == s[s.len() - 1]);
            }
        }
    }
}

/// Clearing inactive models keeps labels unique.
pub proof fn lemma_clear_keeps_labels_unique(s: Seq<ModelView>, threshold: nat)
    requires
        labels_unique(s),
    ensures
        labels_unique(cleared(s, threshold)),
{
    lemma_keep_active_unique(s);
}

pub proof fn lemma_keep_active_unique(s: Seq<ModelView>)
    requires
        labels_unique(s),
    ensures
        labels_unique(keep_active(s)),
    decreases s.len(),
{
    if s.len() > 0 {
        let p = s.drop_last();
        assert(labels_unique(p)) by {
            assert forall|i: int, j: int| 0 <= i < j < p.len() implies #[trigger] p[i].label
                != #[trigger] p[j].label by {
                assert(p[i] == s[i] && p[j] == s[j]);
            }
        }
        lemma_keep_active_unique(p);
        lemma_keep_active_from(p);
        if s.last().active {
            let t = keep_active(s);
            let kp = keep_active(p);
            assert forall|i: int, j: int| 0 <= i < j < t.len() implies #[trigger] t[i].label
                != #[trigger] t[j].label by {
                if j == t.len() - 1 {
                    assert(t[i] == kp[i]);
                    assert(p.contains(kp[i]));
                    let k = choose|k: int| 0 <= k < p.len() && p[k] == kp[i];
                    assert(s[k] == p[k]);
                    assert(t[j] == s[s.len() - 1]);
                    assert(s[k].label != s[s.len() - 1].label);
                } else {
                    assert(t[i] == kp[i] && t[j] == kp[j]);
                }
            }
        }
    }
}

pub proof fn lemma_keep_active(s: Seq<ModelView>)
    ensures
        forall|i: int| 0 <= i < keep_active(s).len() ==> (#[trigger] keep_active(s)[i]).active,
        forall|i: int| 0 <= i < s.len() && (#[trigger] s[i]).active ==> keep_active(s).contains(s[i]),
    decreases s.len(),
{
    if s.len() > 0 {
        let p = s.drop_last();
        lemma_keep_active(p);
        assert forall|i: int| 0 <= i < s.len() && (#[trigger] s[i]).active implies keep_active(
            s,
        ).contains(s[i]) by {
            if i < s.len() - 1 {
                assert(p[i] == s[i]);
                let j = choose|j: int| 0 <= j < keep_active(p).len() && keep_active(p)[j] == p[i];
                if s.last().active {
                    assert(keep_active(s)[j] == s[i]);
                }
            } else {
                assert(keep_active(s).last() == s[i]);
                assert(keep_active(s)[keep_active(s).len() - 1] == s[i]);
            }
        }
    }
}

} // verus!
