//! Bookkeeping of add-on icon URLs fetched from the external catalog.
//!
//! The fetching itself happens outside: when an update starts, the manager
//! holds the batch of ids to fetch; the caller takes it, queries the catalog,
//! and hands the answer back with `finish_update`.
use vstd::prelude::*;

use crate::ipc::{decimal, decimal_text, json_elements, json_member, str_member};
use crate::text::is_digit;

verus! {

/// How long, in seconds, a fetched icon URL stays fresh.
pub const ICON_TTL: u64 = 3600;

/// How long, in seconds, to wait after an update before starting another.
pub const UPDATE_GAP: u64 = 10;

/// The most ids fetched in one update.
pub const BATCH_LEN: usize = 50;

pub struct IconView {
    /// catalog id, when its icon was fetched, icon URL; one entry per id
    pub data: Seq<(Seq<char>, u64, Seq<char>)>,
    /// ids waiting to be fetched, each once
    pub queue: Seq<Seq<char>>,
    pub last_update: u64,
    pub is_updating: bool,
    /// the ids of the update in progress, until the caller takes them
    pub batch: Option<Seq<Seq<char>>>,
}

/// An entry fetched at `mtime` is stale at `now` (a clock that went back counts
/// as stale too).
pub open spec fn is_stale(mtime: u64, now: u64) -> bool {
    mtime > now || now - mtime > ICON_TTL
}

/// A catalog id: under 16 characters that read as a `u64` (digits, with an
/// optional leading `+`).
pub open spec fn valid_id(s: Seq<char>) -> bool {
    &&& s.len() < 16
    &&& (s.len() >= 1 && forall|i: int| 0 <= i < s.len() ==> is_digit(#[trigger] s[i]))
        || (s.len() >= 2 && s[0] == '+' && forall|i: int|
        1 <= i < s.len() ==> is_digit(#[trigger] s[i]))
}

/// The first entry of `data` for `id`.
pub open spec fn find_icon(data: Seq<(Seq<char>, u64, Seq<char>)>, id: Seq<char>, i: int) -> Option<
    int,
>
    decreases data.len() - i,
{
    if i < 0 || i >= data.len() {
        None
    } else if data[i].0 == id {
        Some(i)
    } else {
        find_icon(data, id, i + 1)
    }
}

/// `id` needs fetching: unknown, or known but stale.
pub open spec fn wants_fetch(data: Seq<(Seq<char>, u64, Seq<char>)>, id: Seq<char>, now: u64) -> bool {
    match find_icon(data, id, 0) {
        Some(i) => is_stale(data[i].1, now),
        None => true,
    }
}

pub open spec fn queue_add(q: Seq<Seq<char>>, id: Seq<char>) -> Seq<Seq<char>> {
    if q.contains(id) {
        q
    } else {
        q.push(id)
    }
}

/// The manager after `id` is queued at `now`: an update starts when none is
/// running and the last one is more than `UPDATE_GAP` seconds old.
pub open spec fn enqueued(s: IconView, id: Seq<char>, now: u64) -> IconView {
    let q = queue_add(s.queue, id);
    if s.last_update as int + UPDATE_GAP < now as int && !s.is_updating {
        IconView {
            queue: q,
            is_updating: true,
            batch: Some(
                if q.len() > BATCH_LEN {
                    q.subrange(0, BATCH_LEN as int)
                } else {
                    q
                },
            ),
            ..s
        }
    } else {
        IconView { queue: q, ..s }
    }
}

/// The ids of `list` that are valid and need fetching, in order.
pub open spec fn to_fetch(data: Seq<(Seq<char>, u64, Seq<char>)>, list: Seq<Seq<char>>, now: u64) -> Seq<
    Seq<char>,
>
    decreases list.len(),
{
    if list.len() == 0 {
        Seq::empty()
    } else {
        let r = to_fetch(data, list.drop_last(), now);
        if valid_id(list.last()) && wants_fetch(data, list.last(), now) {
            r.push(list.last())
        } else {
            r
        }
    }
}

/// `q` with every id of `ids` added, in order.
pub open spec fn queue_extend(q: Seq<Seq<char>>, ids: Seq<Seq<char>>) -> Seq<Seq<char>>
    decreases ids.len(),
{
    if ids.len() == 0 {
        q
    } else {
        queue_add(queue_extend(q, ids.drop_last()), ids.last())
    }
}

/// The manager after the ids of `list` that need fetching at `now` are queued:
/// unchanged when there are none; else they join the queue, and the first is
/// enqueued as by `enqueued`.
pub open spec fn listed(s: IconView, list: Seq<Seq<char>>, now: u64) -> IconView {
    let f = to_fetch(s.data, list, now);
    if f.len() == 0 {
        s
    } else {
        enqueued(IconView { queue: queue_extend(s.queue, f), ..s }, f[0], now)
    }
}

/// Records the icon of `id` fetched at `now`, replacing an earlier one.
pub open spec fn data_put(data: Seq<(Seq<char>, u64, Seq<char>)>, id: Seq<char>, now: u64, icon: Seq<char>) -> Seq<
    (Seq<char>, u64, Seq<char>),
> {
    match find_icon(data, id, 0) {
        Some(i) => data.update(i, (id, now, icon)),
        None => data.push((id, now, icon)),
    }
}

pub open spec fn queue_remove(q: Seq<Seq<char>>, id: Seq<char>) -> Seq<Seq<char>> {
    q.filter(|x: Seq<char>| x != id)
}

/// The manager after the fetched `(id, icon)` pairs are recorded at `now`, in
/// order: each id takes its icon and leaves the queue.
pub open spec fn recorded(s: IconView, pairs: Seq<(Seq<char>, Seq<char>)>, now: u64) -> IconView
    decreases pairs.len(),
{
    if pairs.len() == 0 {
        s
    } else {
        let r = recorded(s, pairs.drop_last(), now);
        let (id, icon) = pairs.last();
        IconView { data: data_put(r.data, id, now, icon), queue: queue_remove(r.queue, id), ..r }
    }
}

pub open spec fn pairs_view(v: Seq<(String, String)>) -> Seq<(Seq<char>, Seq<char>)> {
    v.map_values(|e: (String, String)| (e.0@, e.1@))
}

/// Icon URLs of catalog add-ons, and the queue of ids to fetch.
pub struct SteamWorkshopIconManager {
    data: Vec<(String, u64, String)>,
    queue: Vec<String>,
    last_update: u64,
    is_updating: bool,
    batch: Option<Vec<String>>,
}

pub open spec fn strings_view(v: Seq<String>) -> Seq<Seq<char>> {
    v.map_values(|s: String| s@)
}

pub open spec fn data_view(v: Seq<(String, u64, String)>) -> Seq<(Seq<char>, u64, Seq<char>)> {
    v.map_values(|e: (String, u64, String)| (e.0@, e.1, e.2@))
}

impl View for SteamWorkshopIconManager {
    type V = IconView;

    closed spec fn view(&self) -> IconView {
        IconView {
            data: data_view(self.data@),
            queue: strings_view(self.queue@),
            last_update: self.last_update,
            is_updating: self.is_updating,
            batch: match self.batch {
                Some(b) => Some(strings_view(b@)),
                None => None,
            },
        }
    }
}

/// The `&publishedfileids[i]=<id>` parts for the ids of `ids`, in order.
pub open spec fn id_params(ids: Seq<Seq<char>>) -> Seq<char>
    decreases ids.len(),
{
    if ids.len() == 0 {
        Seq::empty()
    } else {
        id_params(ids.drop_last()) + "&publishedfileids["@ + decimal((ids.len() - 1) as nat)
            + "]="@ + ids.last()
    }
}

/// The form body of a catalog query for `ids`.
pub open spec fn query_body_of(ids: Seq<Seq<char>>) -> Seq<char> {
    "itemcount="@ + decimal(ids.len()) + id_params(ids)
}

/// The form body that asks the catalog about `ids`.
pub fn query_body(ids: &Vec<String>) -> (r: String)
    ensures
        r@ == query_body_of(strings_view(ids@)),
{
    let ghost iv = strings_view(ids@);
    let mut out = String::from_str("itemcount=");
    out.append(decimal_text(ids.len() as u64).as_str());
    let ghost start = out@;
    let mut i: usize = 0;
    assert(iv.subrange(0, 0) =~= Seq::<Seq<char>>::empty());
    assert(start + id_params(Seq::empty()) =~= start);
    while i < ids.len()
        invariant
            i <= ids@.len(),
            iv == strings_view(ids@),
            out@ == start + id_params(iv.subrange(0, i as int)),
        decreases ids@.len() - i,
    {
        let ghost sub = iv.subrange(0, i + 1);
        assert(sub.drop_last() =~= iv.subrange(0, i as int));
        assert(sub.last() == ids@[i as int]@);
        out.append("&publishedfileids[");
        out.append(decimal_text(i as u64).as_str());
        out.append("]=");
        out.append(ids[i].as_str());
        assert(out@ =~= start + id_params(sub));
        i = i + 1;
    }
    assert(iv.subrange(0, ids@.len() as int) =~= iv);
    out
}

/// Reads a catalog answer: for each entry of `response.publishedfiledetails`,
/// its id and preview URL (empty where missing).
pub fn parse_response(data: &json::JsonValue) -> (r: Result<Vec<(String, String)>, String>)
    ensures
        r matches Err(e) ==> e@ == "`response.publishedfiledetails` is not an array"@,
{
    let response = json_member(data, "response");
    let items = json_member(&response, "publishedfiledetails");
    let elements = match json_elements(&items) {
        Some(v) => v,
        None => return Err(String::from_str("`response.publishedfiledetails` is not an array")),
    };
    let mut out: Vec<(String, String)> = Vec::new();
    let mut i: usize = 0;
    while i < elements.len()
        invariant
            i <= elements@.len(),
        decreases elements@.len() - i,
    {
        let id = match str_member(&elements[i], "publishedfileid") {
            Some(s) => s,
            None => String::new(),
        };
        let icon = match str_member(&elements[i], "preview_url") {
            Some(s) => s,
            None => String::new(),
        };
        out.push((id, icon));
        i = i + 1;
    }
    Ok(out)
}

/// Checks the shape of a catalog id.
pub fn is_valid_id(s: &str) -> (r: bool)
    ensures
        r == valid_id(s@),
{
    let cs = crate::text::chars_of(s);
    let n = cs.len();
    if n >= 16 || n == 0 {
        return false;
    }
    let start: usize = if cs[0] == '+' {
        1
    } else {
        0
    };
    if start == n {
        return false;
    }
    let mut i = start;
    while i < n
        invariant
            start <= i <= n,
            n == cs@.len(),
            cs@ == s@,
            n < 16,
            start == 1 ==> cs@[0] == '+' && n >= 2,
            start == 0 ==> cs@[0] != '+' && n >= 1,
            forall|j: int| start <= j < i ==> is_digit(#[trigger] cs@[j]),
        decreases n - i,
    {
        if !(cs[i] >= '0' && cs[i] <= '9') {
            assert(!is_digit(s@[i as int]));
            proof {
                if start == 1 {
                    assert(!is_digit(s@[0]));
                }
            }
            return false;
        }
        i = i + 1;
    }
    proof {
        if start == 0 {
            assert(forall|j: int| 0 <= j < s@.len() ==> is_digit(#[trigger] s@[j]));
        } else {
            assert(forall|j: int| 1 <= j < s@.len() ==> is_digit(#[trigger] s@[j]));
        }
    }
    true
}

impl SteamWorkshopIconManager {
    pub fn new() -> (r: Self)
        ensures
            r@ == (IconView {
                data: Seq::empty(),
                queue: Seq::empty(),
                last_update: 0,
                is_updating: false,
                batch: None,
            }),
    {
        let r = SteamWorkshopIconManager {
            data: Vec::new(),
            queue: Vec::new(),
            last_update: 0,
            is_updating: false,
            batch: None,
        };
        assert(r@.data =~= Seq::<(Seq<char>, u64, Seq<char>)>::empty());
        assert(r@.queue =~= Seq::<Seq<char>>::empty());
        r
    }

    fn index_of(&self, id: &String) -> (r: Option<usize>)
        ensures
            match r {
                Some(i) => find_icon(self@.data, id@, 0) == Some(i as int) && i < self@.data.len(),
                None => find_icon(self@.data, id@, 0) is None,
            },
    {
        let mut i: usize = 0;
        while i < self.data.len()
            invariant
                i <= self@.data.len(),
                find_icon(self@.data, id@, 0) == find_icon(self@.data, id@, i as int),
            decreases self@.data.len() - i,
        {
            assert(self@.data[i as int].0 == self.data@[i as int].0@);
            if self.data[i].0 == *id {
                return Some(i);
            }
            i = i + 1;
        }
        None
    }

    fn queue_has(&self, id: &String) -> (r: bool)
        ensures
            r == self@.queue.contains(id@),
    {
        let mut i: usize = 0;
        while i < self.queue.len()
            invariant
                i <= self@.queue.len(),
                forall|j: int| 0 <= j < i ==> #[trigger] self@.queue[j] != id@,
            decreases self@.queue.len() - i,
        {
            assert(self@.queue[i as int] == self.queue@[i as int]@);
            if self.queue[i] == *id {
                return true;
            }
            i = i + 1;
        }
        false
    }

    fn queue_push(&mut self, id: String)
        ensures
            final(self)@ == (IconView { queue: queue_add(old(self)@.queue, id@), ..old(self)@ }),
    {
        if !self.queue_has(&id) {
            let ghost iv = id@;
            self.queue.push(id);
            assert(self@.queue =~= old(self)@.queue.push(iv));
        }
    }

    /// The icon URL of `id`, if known; queues `id` when it is unknown or stale at `now`.
    pub fn get_icon_url(&mut self, id: &str, now: u64) -> (r: Option<String>)
        ensures
            match find_icon(old(self)@.data, id@, 0) {
                Some(i) => r matches Some(u) && u@ == old(self)@.data[i].2,
                None => r is None,
            },
            final(self)@ == if wants_fetch(old(self)@.data, id@, now) {
                enqueued(old(self)@, id@, now)
            } else {
                old(self)@
            },
    {
        let key = id.to_owned();
        let (icon, stale) = match self.index_of(&key) {
            Some(i) => {
                let e = &self.data[i];
                (Some(e.2.clone()), e.1 > now || now - e.1 > ICON_TTL)
            },
            None => (None, true),
        };
        if stale {
            self.enqueue(key, now);
        }
        icon
    }

    /// Queues `id`; starts an update when none runs and the last is old enough.
    pub fn enqueue(&mut self, id: String, now: u64)
        ensures
            final(self)@ == enqueued(old(self)@, id@, now),
    {
        self.queue_push(id);
        if self.last_update < now && now - self.last_update > UPDATE_GAP && !self.is_updating {
            self.is_updating = true;
            let n = if self.queue.len() > BATCH_LEN {
                BATCH_LEN
            } else {
                self.queue.len()
            };
            let mut batch: Vec<String> = Vec::new();
            let mut i: usize = 0;
            while i < n
                invariant
                    n <= self@.queue.len(),
                    i <= n,
                    strings_view(batch@) == self@.queue.subrange(0, i as int),
                decreases n - i,
            {
                assert(self@.queue[i as int] == self.queue@[i as int]@);
                let ghost before = strings_view(batch@);
                batch.push(self.queue[i].clone());
                assert(strings_view(batch@) =~= before.push(self@.queue[i as int]));
                assert(strings_view(batch@) =~= self@.queue.subrange(0, i + 1));
                i = i + 1;
            }
            self.batch = Some(batch);
            assert(self@.queue.subrange(0, self@.queue.len() as int) =~= self@.queue);
        }
    }

    /// Queues the valid ids of `list` that need fetching at `now`, and tries to
    /// start an update.
    pub fn enqueue_list(&mut self, list: Vec<String>, now: u64)
        ensures
            final(self)@ == listed(old(self)@, strings_view(list@), now),
    {
        let ghost lv = strings_view(list@);
        let mut picked: Vec<String> = Vec::new();
        let mut i: usize = 0;
        while i < list.len()
            invariant
                i <= list@.len(),
                lv == strings_view(list@),
                self@ == old(self)@,
                strings_view(picked@) == to_fetch(self@.data, lv.subrange(0, i as int), now),
            decreases list@.len() - i,
        {
            let ghost sub = lv.subrange(0, i + 1);
            assert(sub.drop_last() =~= lv.subrange(0, i as int));
            assert(sub.last() == list@[i as int]@);
            let id = &list[i];
            let fetch = match self.index_of(id) {
                Some(k) => {
                    let e = &self.data[k];
                    e.1 > now || now - e.1 > ICON_TTL
                },
                None => true,
            };
            if is_valid_id(id.as_str()) && fetch {
                let ghost before = strings_view(picked@);
                picked.push(id.clone());
                assert(strings_view(picked@) =~= before.push(id@));
            }
            i = i + 1;
        }
        assert(lv.subrange(0, list@.len() as int) =~= lv);
        if picked.len() == 0 {
            return;
        }
        let first = picked[0].clone();
        let ghost pv = strings_view(picked@);
        let mut j: usize = 0;
        while j < picked.len()
            invariant
                j <= picked@.len(),
                pv == strings_view(picked@),
                self@ == (IconView {
                    queue: queue_extend(old(self)@.queue, pv.subrange(0, j as int)),
                    ..old(self)@
                }),
            decreases picked@.len() - j,
        {
            assert(pv.subrange(0, j + 1).drop_last() =~= pv.subrange(0, j as int));
            self.queue_push(picked[j].clone());
            j = j + 1;
        }
        assert(pv.subrange(0, picked@.len() as int) =~= pv);
        self.enqueue(first, now);
    }

    /// Hands out the batch of the update that just started, if any.
    pub fn take_batch(&mut self) -> (r: Option<Vec<String>>)
        ensures
            match r {
                Some(b) => old(self)@.batch == Some(strings_view(b@)),
                None => old(self)@.batch is None,
            },
            final(self)@ == (IconView { batch: None, ..old(self)@ }),
    {
        let b = self.batch.take();
        b
    }

    fn put_icon(&mut self, id: String, now: u64, icon: String)
        ensures
            final(self)@ == (IconView { data: data_put(old(self)@.data, id@, now, icon@), ..old(self)@ }),
    {
        let ghost e = (id@, now, icon@);
        match self.index_of(&id) {
            Some(i) => {
                self.data.set(i, (id, now, icon));
                assert(self@.data =~= old(self)@.data.update(i as int, e));
            },
            None => {
                self.data.push((id, now, icon));
                assert(self@.data =~= old(self)@.data.push(e));
            },
        }
    }

    fn queue_drop(&mut self, id: &String)
        ensures
            final(self)@ == (IconView { queue: queue_remove(old(self)@.queue, id@), ..old(self)@ }),
    {
        let ghost q = old(self)@.queue;
        let mut kept: Vec<String> = Vec::new();
        let mut i: usize = 0;
        while i < self.queue.len()
            invariant
                i <= q.len(),
                self@ == old(self)@,
                q == old(self)@.queue,
                self.queue@.len() == q.len(),
                strings_view(kept@) == q.subrange(0, i as int).filter(|x: Seq<char>| x != id@),
            decreases q.len() - i,
        {
            let ghost sub = q.subrange(0, i + 1);
            assert(sub.drop_last() =~= q.subrange(0, i as int));
            assert(sub.last() == self.queue@[i as int]@);
            reveal(Seq::filter);
            let ghost before = strings_view(kept@);
            if !(self.queue[i] == *id) {
                kept.push(self.queue[i].clone());
                assert(strings_view(kept@) =~= before.push(self.queue@[i as int]@));
            }
            i = i + 1;
        }
        assert(q.subrange(0, q.len() as int) =~= q);
        self.queue = kept;
        assert(self@.queue =~= queue_remove(q, id@));
    }

    /// Ends the update started earlier: records the fetched icons (if the fetch
    /// worked) at `now`, takes their ids off the queue, and allows the next update.
    pub fn finish_update(&mut self, now: u64, fetched: Option<Vec<(String, String)>>)
        ensures
            final(self)@.last_update == now,
            !final(self)@.is_updating,
            final(self)@.batch == old(self)@.batch,
            fetched is None ==> final(self)@.data == old(self)@.data && final(self)@.queue == old(
                self,
            )@.queue,
            fetched matches Some(f) ==> final(self)@.data == recorded(
                old(self)@,
                pairs_view(f@),
                now,
            ).data && final(self)@.queue == recorded(old(self)@, pairs_view(f@), now).queue,
            fetched matches Some(f) ==> forall|i: int|
                0 <= i < f@.len() ==> #[trigger] find_icon(final(self)@.data, f@[i].0@, 0) is Some,
    {
        if let Some(pairs) = fetched {
            self.record_all(&pairs, now);
        }
        self.last_update = now;
        self.is_updating = false;
    }

    fn record_all(&mut self, pairs: &Vec<(String, String)>, now: u64)
        ensures
            final(self)@.last_update == old(self)@.last_update,
            final(self)@.is_updating == old(self)@.is_updating,
            final(self)@.batch == old(self)@.batch,
            final(self)@ == recorded(old(self)@, pairs_view(pairs@), now),
            forall|j: int|
                0 <= j < pairs@.len() ==> #[trigger] find_icon(final(self)@.data, pairs@[j].0@, 0) is Some,
    {
        let ghost pv = pairs_view(pairs@);
        let mut i: usize = 0;
        assert(pv.subrange(0, 0) =~= Seq::<(Seq<char>, Seq<char>)>::empty());
        while i < pairs.len()
            invariant
                i <= pairs@.len(),
                pv == pairs_view(pairs@),
                self@ == recorded(old(self)@, pv.subrange(0, i as int), now),
                self@.batch == old(self)@.batch,
                self@.last_update == old(self)@.last_update,
                self@.is_updating == old(self)@.is_updating,
                forall|j: int|
                    0 <= j < i ==> #[trigger] find_icon(self@.data, pairs@[j].0@, 0) is Some,
            decreases pairs@.len() - i,
        {
            let ghost sub = pv.subrange(0, i + 1);
            assert(sub.drop_last() =~= pv.subrange(0, i as int));
            assert(sub.last() == (pairs@[i as int].0@, pairs@[i as int].1@));
            let (id, icon) = (pairs[i].0.clone(), pairs[i].1.clone());
            let ghost d0 = self@.data;
            self.queue_drop(&id);
            self.put_icon(id, now, icon);
            proof {
                assert forall|j: int| 0 <= j < i + 1 implies #[trigger] find_icon(
                    self@.data,
                    pairs@[j].0@,
                    0,
                ) is Some by {
                    lemma_put_keeps(d0, pairs@[i as int].0@, now, pairs@[i as int].1@, pairs@[j].0@);
                }
            }
            assert(self@ == recorded(old(self)@, sub, now));
            i = i + 1;
        }
        assert(pv.subrange(0, pairs@.len() as int) =~= pv);
    }

    /// Adds an entry read back from storage; entries with an empty id or icon are
    /// skipped.
    pub fn load_entry(&mut self, id: String, mtime: u64, icon: String)
        ensures
            (id@.len() == 0 || icon@.len() == 0) ==> final(self)@ == old(self)@,
            (id@.len() > 0 && icon@.len() > 0) ==> final(self)@ == (IconView {
                data: data_put(old(self)@.data, id@, mtime, icon@),
                ..old(self)@
            }),
    {
        if id.as_str().is_empty() || icon.as_str().is_empty() {
            return;
        }
        self.put_icon(id, mtime, icon);
    }

    /// The entries to store: id, fetch time, icon URL.
    pub fn entries(&self) -> (r: Vec<(String, u64, String)>)
        ensures
            data_view(r@) == self@.data,
    {
        let mut out: Vec<(String, u64, String)> = Vec::new();
        let mut i: usize = 0;
        while i < self.data.len()
            invariant
                i <= self@.data.len(),
                data_view(out@) == self@.data.subrange(0, i as int),
            decreases self@.data.len() - i,
        {
            let e = &self.data[i];
            assert(self@.data[i as int] == (e.0@, e.1, e.2@));
            let ghost before = data_view(out@);
            out.push((e.0.clone(), e.1, e.2.clone()));
            assert(data_view(out@) =~= before.push(self@.data[i as int]));
            assert(data_view(out@) =~= self@.data.subrange(0, i + 1));
            i = i + 1;
        }
        assert(self@.data.subrange(0, self@.data.len() as int) =~= self@.data);
        out
    }
}

pub proof fn lemma_find_icon_some(data: Seq<(Seq<char>, u64, Seq<char>)>, id: Seq<char>, i: int, k: int)
    requires
        0 <= i <= k < data.len(),
        data[k].0 == id,
    ensures
        find_icon(data, id, i) is Some,
    decreases k - i,
{
    if data[i].0 != id {
        lemma_find_icon_some(data, id, i + 1, k);
    }
}

pub proof fn lemma_find_icon_index(data: Seq<(Seq<char>, u64, Seq<char>)>, id: Seq<char>, i: int)
    requires
        0 <= i,
    ensures
        find_icon(data, id, i) matches Some(k) ==> i <= k < data.len() && data[k].0 == id,
    decreases data.len() - i,
{
    if i < data.len() && data[i].0 != id {
        lemma_find_icon_index(data, id, i + 1);
    }
}

/// An id found before a put is still found after it, and so is the id put.
pub proof fn lemma_put_keeps(
    data: Seq<(Seq<char>, u64, Seq<char>)>,
    id: Seq<char>,
    now: u64,
    icon: Seq<char>,
    other: Seq<char>,
)
    ensures
        (find_icon(data, other, 0) is Some || other == id) ==> find_icon(
            data_put(data, id, now, icon),
            other,
            0,
        ) is Some,
{
    lemma_find_icon_index(data, id, 0);
    lemma_find_icon_index(data, other, 0);
    let d2 = data_put(data, id, now, icon);
    if other == id {
        match find_icon(data, id, 0) {
            Some(k) => lemma_find_icon_some(d2, other, 0, k),
            None => lemma_find_icon_some(d2, other, 0, data.len() as int),
        }
    } else if find_icon(data, other, 0) is Some {
        let k = find_icon(data, other, 0)->Some_0;
        assert(d2[k].0 == other);
        lemma_find_icon_some(d2, other, 0, k);
    }
}

} // verus!
