//! The list of recently opened logs.
use vstd::prelude::*;

use crate::locator::{read_back, LocatorView, LogPath};

verus! {

/// How many recent logs are kept.
pub const MAX_RECENT_FILES: usize = 10;

/// `s` without the entries equal to `l`.
pub open spec fn without(s: Seq<LocatorView>, l: LocatorView) -> Seq<LocatorView>
    decreases s.len(),
{
    if s.len() == 0 {
        s
    } else if s.last() == l {
        without(s.drop_last(), l)
    } else {
        without(s.drop_last(), l).push(s.last())
    }
}

/// The list after `l` is opened: `l` first, then the others in order, at most
/// `MAX_RECENT_FILES` in all.
pub open spec fn opened(s: Seq<LocatorView>, l: LocatorView) -> Seq<LocatorView> {
    let t = seq![l] + without(s, l);
    if t.len() > MAX_RECENT_FILES {
        t.subrange(0, MAX_RECENT_FILES as int)
    } else {
        t
    }
}

/// The locators that persisted entries read back as, in order; entries that do
/// not read back are skipped.
pub open spec fn read_entries(es: Seq<Seq<char>>) -> Seq<LocatorView>
    decreases es.len(),
{
    if es.len() == 0 {
        Seq::empty()
    } else {
        match read_back(es.last()) {
            Some(l) => read_entries(es.drop_last()).push(l),
            None => read_entries(es.drop_last()),
        }
    }
}

pub open spec fn texts_view(v: Seq<String>) -> Seq<Seq<char>> {
    v.map_values(|s: String| s@)
}

pub open spec fn locators_view(v: Seq<LogPath>) -> Seq<LocatorView> {
    v.map_values(|l: LogPath| l@)
}

/// Recently opened logs, the latest first.
pub struct RecentFileList {
    files: Vec<LogPath>,
}

impl View for RecentFileList {
    type V = Seq<LocatorView>;

    closed spec fn view(&self) -> Seq<LocatorView> {
        locators_view(self.files@)
    }
}

impl RecentFileList {
    pub fn new() -> (r: Self)
        ensures
            r@ == Seq::<LocatorView>::empty(),
    {
        let r = RecentFileList { files: Vec::new() };
        assert(r@ =~= Seq::<LocatorView>::empty());
        r
    }

    /// The list read back from persisted entries; entries that do not read back
    /// as locators are skipped, one by one.
    pub fn from_entries(entries: &Vec<String>) -> (r: Self)
        ensures
            r@ == read_entries(texts_view(entries@)),
    {
        let ghost ev = texts_view(entries@);
        let mut files: Vec<LogPath> = Vec::new();
        let mut i: usize = 0;
        assert(ev.subrange(0, 0) =~= Seq::<Seq<char>>::empty());
        assert(locators_view(files@) =~= Seq::<LocatorView>::empty());
        while i < entries.len()
            invariant
                i <= entries@.len(),
                ev == texts_view(entries@),
                locators_view(files@) == read_entries(ev.subrange(0, i as int)),
            decreases entries@.len() - i,
        {
            let ghost sub = ev.subrange(0, i + 1);
            assert(sub.drop_last() =~= ev.subrange(0, i as int));
            assert(sub.last() == entries@[i as int]@);
            let ghost before = locators_view(files@);
            if let Ok(l) = LogPath::deserialize(entries[i].as_str()) {
                let ghost lv = l@;
                files.push(l);
                assert(locators_view(files@) =~= before.push(lv));
            }
            i = i + 1;
        }
        assert(ev.subrange(0, entries@.len() as int) =~= ev);
        RecentFileList { files }
    }

    /// The persisted entries, one per log, in order.
    pub fn to_entries(&self) -> (r: Vec<String>)
        ensures
            r@.len() == self@.len(),
            forall|i: int|
                0 <= i < r@.len() ==> #[trigger] r@[i]@ == crate::locator::serialized(self@[i]),
    {
        let mut out: Vec<String> = Vec::new();
        let mut i: usize = 0;
        while i < self.files.len()
            invariant
                i <= self@.len(),
                out@.len() == i,
                forall|j: int|
                    0 <= j < i ==> #[trigger] out@[j]@ == crate::locator::serialized(self@[j]),
            decreases self@.len() - i,
        {
            assert(self@[i as int] == self.files@[i as int]@);
            out.push(self.files[i].serialize());
            i = i + 1;
        }
        out
    }

    pub fn len(&self) -> (r: usize)
        ensures
            r == self@.len(),
    {
        self.files.len()
    }

    /// The log at position `i`, the latest first.
    pub fn get(&self, i: usize) -> (r: LogPath)
        requires
            i < self@.len(),
        ensures
            r@ == self@[i as int],
    {
        self.files[i].clone()
    }

    /// Puts `path` first, drops its other occurrences, and keeps at most
    /// `MAX_RECENT_FILES` entries.
    pub fn on_open_file(&mut self, path: &LogPath)
        ensures
            final(self)@ == opened(old(self)@, path@),
    {
        let ghost old_v = self@;
        let mut kept: Vec<LogPath> = Vec::new();
        kept.push(path.clone());
        let mut i: usize = 0;
        while i < self.files.len()
            invariant
                i <= old_v.len(),
                self@ == old_v,
                locators_view(kept@) == seq![path@] + without(old_v.subrange(0, i as int), path@),
            decreases old_v.len() - i,
        {
            let ghost sub = old_v.subrange(0, i + 1);
            assert(sub.drop_last() =~= old_v.subrange(0, i as int));
            assert(sub.last() == self.files@[i as int]@);
            let ghost before = locators_view(kept@);
            if !(self.files[i] == *path) {
                kept.push(self.files[i].clone());
                assert(locators_view(kept@) =~= before.push(self.files@[i as int]@));
            }
            i = i + 1;
        }
        assert(old_v.subrange(0, old_v.len() as int) =~= old_v);
        if kept.len() > MAX_RECENT_FILES {
            kept.truncate(MAX_RECENT_FILES);
        }
        self.files = kept;
        assert(self@ =~= opened(old_v, path@));
    }
}

} // verus!
