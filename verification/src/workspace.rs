//! Change detection for the workspace's source files. The file system is
//! read by the caller; this module decides which files were created,
//! modified or deleted.
use vstd::prelude::*;
use crate::config::NeodosConfig;

verus! {

/// What happened to a file.
#[derive(Debug, Clone)]
pub enum FileEvent {
    Created(String),
    Modified(String),
    Deleted(String),
    FullRescan,
}

/// Modification time (nanoseconds relative to the Unix epoch) and size of a file.
#[derive(Debug, Clone, Copy, PartialEq, Eq, Structural)]
pub struct FileMeta {
    pub modified: i128,
    pub size: u64,
}

/// The files known to the workspace with their last recorded metadata and versions.
pub struct WorkspaceManager {
    config: NeodosConfig,
    known_files: Vec<(String, FileMeta)>,
    file_versions: Vec<(String, u64)>,
    rescan_requested: bool,
}

/// A poll's outcome, as paths and event kinds.
pub enum EventView {
    Created(Seq<char>),
    Modified(Seq<char>),
    Deleted(Seq<char>),
    FullRescan,
}

pub open spec fn event_view(e: (String, FileEvent)) -> (Seq<char>, EventView) {
    (
        e.0@,
        match e.1 {
            FileEvent::Created(p) => EventView::Created(p@),
            FileEvent::Modified(p) => EventView::Modified(p@),
            FileEvent::Deleted(p) => EventView::Deleted(p@),
            FileEvent::FullRescan => EventView::FullRescan,
        },
    )
}

pub open spec fn events_view(v: Seq<(String, FileEvent)>) -> Seq<(Seq<char>, EventView)> {
    v.map_values(|e: (String, FileEvent)| event_view(e))
}

pub open spec fn key_index<V>(m: Seq<(Seq<char>, V)>, p: Seq<char>) -> Option<int>
    decreases m.len(),
{
    if m.len() == 0 {
        None
    } else if m.last().0 == p {
        Some(m.len() - 1)
    } else {
        key_index(m.drop_last(), p)
    }
}

/// `m` with `p` set to `v` (appended when absent).
pub open spec fn set_key<V>(m: Seq<(Seq<char>, V)>, p: Seq<char>, v: V) -> Seq<(Seq<char>, V)> {
    match key_index(m, p) {
        Some(k) => m.update(k, (p, v)),
        None => m.push((p, v)),
    }
}

/// `m` with `p` set to `v` only when absent.
pub open spec fn set_key_if_absent<V>(m: Seq<(Seq<char>, V)>, p: Seq<char>, v: V) -> Seq<(Seq<char>, V)> {
    match key_index(m, p) {
        Some(k) => m,
        None => m.push((p, v)),
    }
}

/// `m` without the entry of `p`.
pub open spec fn drop_key<V>(m: Seq<(Seq<char>, V)>, p: Seq<char>) -> Seq<(Seq<char>, V)> {
    match key_index(m, p) {
        Some(k) => m.remove(k),
        None => m,
    }
}

pub struct WorkspaceView {
    pub known: Seq<(Seq<char>, FileMeta)>,
    pub versions: Seq<(Seq<char>, u64)>,
    pub rescan_requested: bool,
}

pub open spec fn keyed<V>(v: Seq<(String, V)>) -> Seq<(Seq<char>, V)> {
    v.map_values(|e: (String, V)| (e.0@, e.1))
}

/// Registration of `files` with their metadata: each is recorded (replacing
/// an older record) and gets version 0 unless it has one.
pub open spec fn register_all(w: WorkspaceView, files: Seq<(Seq<char>, FileMeta)>) -> WorkspaceView
    decreases files.len(),
{
    if files.len() == 0 {
        w
    } else {
        let w1 = register_all(w, files.drop_last());
        let f = files.last();
        WorkspaceView {
            known: set_key(w1.known, f.0, f.1),
            versions: set_key_if_absent(w1.versions, f.0, 0u64),
            ..w1
        }
    }
}

/// A known file changed when its current metadata is readable and differs.
pub open spec fn modified_events(known: Seq<(Seq<char>, FileMeta)>, current: Seq<Option<FileMeta>>) -> Seq<(Seq<char>, EventView)>
    decreases known.len(),
{
    if known.len() == 0 {
        seq![]
    } else {
        let rest = modified_events(known.drop_last(), current);
        let i = known.len() - 1;
        match current[i] {
            Some(m) => if m != known[i].1 {
                rest.push((known[i].0, EventView::Modified(known[i].0)))
            } else {
                rest
            },
            None => rest,
        }
    }
}

pub open spec fn in_keys<V>(m: Seq<(Seq<char>, V)>, p: Seq<char>) -> bool {
    exists|i: int| 0 <= i < m.len() && m[i].0 == p
}

/// The state and events after the discovered files not known before the poll are recorded.
pub open spec fn created(
    w: WorkspaceView,
    evs: Seq<(Seq<char>, EventView)>,
    before: Seq<(Seq<char>, FileMeta)>,
    found: Seq<(Seq<char>, FileMeta)>,
) -> (WorkspaceView, Seq<(Seq<char>, EventView)>)
    decreases found.len(),
{
    if found.len() == 0 {
        (w, evs)
    } else {
        let (w1, e1) = created(w, evs, before, found.drop_last());
        let f = found.last();
        if in_keys(before, f.0) {
            (w1, e1)
        } else {
            (
                WorkspaceView {
                    known: set_key(w1.known, f.0, f.1),
                    versions: set_key(w1.versions, f.0, 0u64),
                    ..w1
                },
                e1.push((f.0, EventView::Created(f.0))),
            )
        }
    }
}

/// The state and events after the files known before the poll and no longer found are dropped.
pub open spec fn deleted(
    w: WorkspaceView,
    evs: Seq<(Seq<char>, EventView)>,
    before: Seq<(Seq<char>, FileMeta)>,
    found: Seq<(Seq<char>, FileMeta)>,
) -> (WorkspaceView, Seq<(Seq<char>, EventView)>)
    decreases before.len(),
{
    if before.len() == 0 {
        (w, evs)
    } else {
        let (w1, e1) = deleted(w, evs, before.drop_last(), found);
        let p = before.last().0;
        if in_keys(found, p) {
            (w1, e1)
        } else {
            (
                WorkspaceView {
                    known: drop_key(w1.known, p),
                    versions: drop_key(w1.versions, p),
                    ..w1
                },
                e1.push((p, EventView::Deleted(p))),
            )
        }
    }
}

/// One poll: a pending rescan request is answered alone; otherwise changed,
/// new and vanished files are reported in that order.
pub open spec fn spec_poll(
    w: WorkspaceView,
    current: Seq<Option<FileMeta>>,
    found: Seq<(Seq<char>, FileMeta)>,
) -> (WorkspaceView, Seq<(Seq<char>, EventView)>) {
    if w.rescan_requested {
        (WorkspaceView { rescan_requested: false, ..w }, seq![(seq![], EventView::FullRescan)])
    } else {
        let evs = modified_events(w.known, current);
        let (w1, e1) = created(w, evs, w.known, found);
        deleted(w1, e1, w.known, found)
    }
}

impl WorkspaceManager {
    pub closed spec fn view(&self) -> WorkspaceView {
        WorkspaceView {
            known: keyed(self.known_files@),
            versions: keyed(self.file_versions@),
            rescan_requested: self.rescan_requested,
        }
    }

    /// The configuration the manager discovers files with.
    pub closed spec fn configuration(&self) -> NeodosConfig {
        self.config
    }

    pub fn new(config: NeodosConfig) -> (r: WorkspaceManager)
        ensures
            r.configuration() == config,
            r.view().known.len() == 0,
            r.view().versions.len() == 0,
            !r.view().rescan_requested,
    {
        let r = WorkspaceManager {
            config,
            known_files: Vec::new(),
            file_versions: Vec::new(),
            rescan_requested: false,
        };
        assert(r.view().known =~= seq![]);
        assert(r.view().versions =~= seq![]);
        r
    }

    /// The configuration (its roots and exclude patterns drive discovery).
    pub fn config(&self) -> (r: &NeodosConfig)
        ensures
            *r == self.configuration(),
    {
        &self.config
    }

    /// The paths of the known files, in the order the poll expects their metadata.
    pub fn known_paths(&self) -> (r: Vec<String>)
        ensures
            r@.len() == self.view().known.len(),
            forall|i: int| 0 <= i < r@.len() ==> #[trigger] r@[i]@ == self.view().known[i].0,
    {
        let mut r: Vec<String> = Vec::new();
        let mut i: usize = 0;
        while i < self.known_files.len()
            invariant
                i <= self.known_files@.len(),
                r@.len() == i,
                forall|q: int| 0 <= q < i ==> #[trigger] r@[q]@ == self.known_files@[q].0@,
            decreases self.known_files@.len() - i,
        {
            r.push(self.known_files[i].0.clone());
            i = i + 1;
        }
        r
    }
}

} // verus!

verus! {

fn find_key<V: Copy>(m: &Vec<(String, V)>, p: &str) -> (r: Option<usize>)
    ensures
        match r {
            Some(k) => key_index(keyed(m@), p@) == Some(k as int),
            None => key_index(keyed(m@), p@) is None,
        },
{
    let pc = crate::text::chars_of(p);
    let mut i = m.len();
    assert(keyed(m@).subrange(0, i as int) =~= keyed(m@));
    while i > 0
        invariant
            i <= m@.len(),
            pc@ == p@,
            key_index(keyed(m@), p@) == key_index(keyed(m@).subrange(0, i as int), p@),
        decreases i,
    {
        let ghost e = keyed(m@).subrange(0, i as int);
        assert(e.drop_last() =~= keyed(m@).subrange(0, i - 1));
        let here = crate::text::chars_of(m[i - 1].0.as_str());
        if crate::indexer::chars_eq(here.as_slice(), pc.as_slice()) {
            return Some(i - 1);
        }
        i = i - 1;
    }
    None
}

fn set_entry<V: Copy>(m: &mut Vec<(String, V)>, p: &str, v: V)
    ensures
        keyed(final(m)@) == set_key(keyed(old(m)@), p@, v),
{
    match find_key(m, p) {
        Some(k) => {
            proof {
                lemma_key_index_bound(keyed(old(m)@), p@);
            }
            m.set(k, (String::from_str(p), v));
            assert(keyed(m@) =~= keyed(old(m)@).update(k as int, (p@, v)));
        },
        None => {
            m.push((String::from_str(p), v));
            assert(keyed(m@) =~= keyed(old(m)@).push((p@, v)));
        },
    }
}

fn set_entry_if_absent<V: Copy>(m: &mut Vec<(String, V)>, p: &str, v: V)
    ensures
        keyed(final(m)@) == set_key_if_absent(keyed(old(m)@), p@, v),
{
    match find_key(m, p) {
        Some(_) => {},
        None => {
            m.push((String::from_str(p), v));
            assert(keyed(m@) =~= keyed(old(m)@).push((p@, v)));
        },
    }
}

fn drop_entry<V: Copy>(m: &mut Vec<(String, V)>, p: &str)
    ensures
        keyed(final(m)@) == drop_key(keyed(old(m)@), p@),
{
    match find_key(m, p) {
        Some(k) => {
            proof {
                lemma_key_index_bound(keyed(old(m)@), p@);
            }
            m.remove(k);
            assert(keyed(m@) =~= keyed(old(m)@).remove(k as int));
        },
        None => {},
    }
}

pub proof fn lemma_key_index_bound<V>(m: Seq<(Seq<char>, V)>, p: Seq<char>)
    ensures
        key_index(m, p) matches Some(k) ==> 0 <= k < m.len() && m[k].0 == p,
        key_index(m, p) is None ==> !in_keys(m, p),
    decreases m.len(),
{
    if m.len() > 0 {
        lemma_key_index_bound(m.drop_last(), p);
        if key_index(m, p) is None {
            assert forall|i: int| 0 <= i < m.len() implies m[i].0 != p by {
                if i < m.len() - 1 {
                    assert(m.drop_last()[i] == m[i]);
                }
            }
        }
    }
}

fn copy_entries<V: Copy>(m: &Vec<(String, V)>) -> (r: Vec<(String, V)>)
    ensures
        keyed(r@) == keyed(m@),
{
    let mut r: Vec<(String, V)> = Vec::new();
    let mut i: usize = 0;
    while i < m.len()
        invariant
            i <= m@.len(),
            keyed(r@) == keyed(m@).subrange(0, i as int),
        decreases m@.len() - i,
    {
        let ghost r0 = r@;
        r.push((m[i].0.clone(), m[i].1));
        assert(keyed(r@) =~= keyed(r0).push(keyed(m@)[i as int]));
        assert(keyed(m@).subrange(0, i + 1) =~= keyed(m@).subrange(0, i as int).push(keyed(m@)[i as int]));
        i = i + 1;
    }
    assert(keyed(m@).subrange(0, m@.len() as int) =~= keyed(m@));
    r
}

fn contains_key_of<V: Copy>(m: &Vec<(String, V)>, p: &str) -> (r: bool)
    ensures
        r == in_keys(keyed(m@), p@),
{
    proof {
        lemma_key_index_bound(keyed(m@), p@);
    }
    find_key(m, p).is_some()
}

impl WorkspaceManager {
    /// Records `files` with their current metadata; new ones get version 0.
    pub fn register_files(&mut self, files: &Vec<(String, FileMeta)>)
        ensures
            final(self).view() == register_all(old(self).view(), keyed(files@)),
            final(self).configuration() == old(self).configuration(),
    {
        let mut i: usize = 0;
        while i < files.len()
            invariant
                i <= files@.len(),
                self.view() == register_all(old(self).view(), keyed(files@).subrange(0, i as int)),
                self.configuration() == old(self).configuration(),
            decreases files@.len() - i,
        {
            assert(keyed(files@).subrange(0, i + 1).drop_last() =~= keyed(files@).subrange(0, i as int));
            let (p, m) = (&files[i].0, files[i].1);
            set_entry(&mut self.known_files, p.as_str(), m);
            set_entry_if_absent(&mut self.file_versions, p.as_str(), 0u64);
            i = i + 1;
        }
        assert(keyed(files@).subrange(0, files@.len() as int) =~= keyed(files@));
    }

    /// Asks the next poll for a full rescan.
    pub fn request_rescan(&mut self)
        ensures
            final(self).view() == (WorkspaceView { rescan_requested: true, ..old(self).view() }),
            final(self).configuration() == old(self).configuration(),
    {
        self.rescan_requested = true;
    }

    /// One poll. `current[i]` is the metadata now read for the `i`-th known
    /// file (`None` when it cannot be read); `found` are the source files
    /// discovered now, with their metadata.
    pub fn poll_for_changes(
        &mut self,
        current: &Vec<Option<FileMeta>>,
        found: &Vec<(String, FileMeta)>,
    ) -> (r: Vec<(String, FileEvent)>)
        requires
            current@.len() == old(self).view().known.len(),
        ensures
            (final(self).view(), events_view(r@)) == spec_poll(old(self).view(), current@, keyed(found@)),
            final(self).configuration() == old(self).configuration(),
    {
        let mut events: Vec<(String, FileEvent)> = Vec::new();
        if self.rescan_requested {
            self.rescan_requested = false;
            events.push((String::new(), FileEvent::FullRescan));
            assert(events_view(events@) =~= seq![(seq![], EventView::FullRescan)]);
            return events;
        }
        let ghost w0 = self.view();
        let ghost before = w0.known;
        let mut i: usize = 0;
        while i < self.known_files.len()
            invariant
                i <= self.known_files@.len(),
                self.view() == w0,
                self.configuration() == old(self).configuration(),
                current@.len() == w0.known.len(),
                events_view(events@) == modified_events(w0.known.subrange(0, i as int), current@),
            decreases self.known_files@.len() - i,
        {
            assert(w0.known.subrange(0, i + 1).drop_last() =~= w0.known.subrange(0, i as int));
            let ghost ev0 = events@;
            if let Some(m) = current[i] {
                if m != self.known_files[i].1 {
                    let p = self.known_files[i].0.clone();
                    events.push((p.clone(), FileEvent::Modified(p)));
                    assert(events_view(events@) =~= events_view(ev0).push(
                        (w0.known[i as int].0, EventView::Modified(w0.known[i as int].0)),
                    ));
                }
            }
            i = i + 1;
        }
        assert(w0.known.subrange(0, w0.known.len() as int) =~= w0.known);
        let known_paths: Vec<(String, FileMeta)> = copy_entries(&self.known_files);
        let ghost e_mod = events_view(events@);
        let mut j: usize = 0;
        while j < found.len()
            invariant
                j <= found@.len(),
                keyed(known_paths@) == before,
                self.configuration() == old(self).configuration(),
                (self.view(), events_view(events@)) == created(w0, e_mod, before, keyed(found@).subrange(0, j as int)),
            decreases found@.len() - j,
        {
            assert(keyed(found@).subrange(0, j + 1).drop_last() =~= keyed(found@).subrange(0, j as int));
            let ghost ev0 = events@;
            let (p, m) = (&found[j].0, found[j].1);
            if !contains_key_of(&known_paths, p.as_str()) {
                set_entry(&mut self.known_files, p.as_str(), m);
                set_entry(&mut self.file_versions, p.as_str(), 0u64);
                events.push((p.clone(), FileEvent::Created(p.clone())));
                assert(events_view(events@) =~= events_view(ev0).push((p@, EventView::Created(p@))));
            }
            j = j + 1;
        }
        assert(keyed(found@).subrange(0, found@.len() as int) =~= keyed(found@));
        let ghost w1 = self.view();
        let ghost e1 = events_view(events@);
        let mut k: usize = 0;
        while k < known_paths.len()
            invariant
                k <= known_paths@.len(),
                keyed(known_paths@) == before,
                self.configuration() == old(self).configuration(),
                (self.view(), events_view(events@)) == deleted(w1, e1, before.subrange(0, k as int), keyed(found@)),
            decreases known_paths@.len() - k,
        {
            assert(before.subrange(0, k + 1).drop_last() =~= before.subrange(0, k as int));
            assert(before[k as int].0 == known_paths@[k as int].0@);
            let ghost ev0 = events@;
            let p = &known_paths[k].0;
            if !contains_key_of(found, p.as_str()) {
                drop_entry(&mut self.known_files, p.as_str());
                drop_entry(&mut self.file_versions, p.as_str());
                events.push((p.clone(), FileEvent::Deleted(p.clone())));
                assert(events_view(events@) =~= events_view(ev0).push((p@, EventView::Deleted(p@))));
            }
            k = k + 1;
        }
        assert(before.subrange(0, before.len() as int) =~= before);
        events
    }
}

} // verus!

verus! {

/// Every known path is among the keys.
pub proof fn lemma_own_keys<V>(m: Seq<(Seq<char>, V)>, k: int)
    requires
        0 <= k < m.len(),
    ensures
        in_keys(m, m[k].0),
{
}

/// Without changed metadata, no file is reported modified.
pub proof fn lemma_no_modified(known: Seq<(Seq<char>, FileMeta)>, current: Seq<Option<FileMeta>>)
    requires
        known.len() <= current.len(),
        forall|i: int| 0 <= i < known.len() ==> #[trigger] current[i] == Some(known[i].1),
    ensures
        modified_events(known, current) == Seq::<(Seq<char>, EventView)>::empty(),
    decreases known.len(),
{
    if known.len() > 0 {
        lemma_no_modified(known.drop_last(), current);
        assert(current[known.len() - 1] == Some(known[known.len() - 1].1));
    }
}

/// Files that were all known before are not reported created.
pub proof fn lemma_none_created(
    w: WorkspaceView,
    evs: Seq<(Seq<char>, EventView)>,
    before: Seq<(Seq<char>, FileMeta)>,
    found: Seq<(Seq<char>, FileMeta)>,
)
    requires
        forall|i: int| 0 <= i < found.len() ==> in_keys(before, #[trigger] found[i].0),
    ensures
        created(w, evs, before, found) == (w, evs),
    decreases found.len(),
{
    if found.len() > 0 {
        lemma_none_created(w, evs, before, found.drop_last());
        assert(in_keys(before, found[found.len() - 1].0));
    }
}

/// Files that are all found again are not reported deleted.
pub proof fn lemma_none_deleted(
    w: WorkspaceView,
    evs: Seq<(Seq<char>, EventView)>,
    before: Seq<(Seq<char>, FileMeta)>,
    found: Seq<(Seq<char>, FileMeta)>,
)
    requires
        forall|i: int| 0 <= i < before.len() ==> in_keys(found, #[trigger] before[i].0),
    ensures
        deleted(w, evs, before, found) == (w, evs),
    decreases before.len(),
{
    if before.len() > 0 {
        lemma_none_deleted(w, evs, before.drop_last(), found);
        assert(in_keys(found, before[before.len() - 1].0));
    }
}

/// A poll that finds exactly the known files, each with the metadata
/// recorded for it, and that has no rescan pending, reports nothing and
/// changes nothing.
pub proof fn lemma_poll_without_changes(w: WorkspaceView, current: Seq<Option<FileMeta>>)
    requires
        !w.rescan_requested,
        current.len() == w.known.len(),
        forall|i: int| 0 <= i < w.known.len() ==> #[trigger] current[i] == Some(w.known[i].1),
    ensures
        spec_poll(w, current, w.known) == (w, Seq::<(Seq<char>, EventView)>::empty()),
{
    lemma_no_modified(w.known, current);
    assert forall|i: int| 0 <= i < w.known.len() implies in_keys(w.known, #[trigger] w.known[i].0) by {
        lemma_own_keys(w.known, i);
    }
    lemma_none_created(w, seq![], w.known, w.known);
    lemma_none_deleted(w, seq![], w.known, w.known);
}

/// A pending rescan request is answered alone, and only once.
pub proof fn lemma_rescan_answered_once(w: WorkspaceView, current: Seq<Option<FileMeta>>, found: Seq<(Seq<char>, FileMeta)>)
    requires
        w.rescan_requested,
    ensures
        spec_poll(w, current, found).1 == seq![(Seq::<char>::empty(), EventView::FullRescan)],
        !spec_poll(w, current, found).0.rescan_requested,
        spec_poll(w, current, found).0.known == w.known,
{
}

} // verus!

verus! {

/// No path occurs twice.
pub open spec fn distinct_keys<V>(m: Seq<(Seq<char>, V)>) -> bool {
    forall|i: int, j: int| 0 <= i < j < m.len() ==> #[trigger] m[i].0 != #[trigger] m[j].0
}

pub proof fn lemma_set_key_distinct<V>(m: Seq<(Seq<char>, V)>, p: Seq<char>, v: V)
    requires
        distinct_keys(m),
    ensures
        distinct_keys(set_key(m, p, v)),
        distinct_keys(set_key_if_absent(m, p, v)),
        distinct_keys(drop_key(m, p)),
{
    lemma_key_index_bound(m, p);
    match key_index(m, p) {
        Some(k) => {
            let u = m.update(k, (p, v));
            assert forall|i: int, j: int| 0 <= i < j < u.len() implies #[trigger] u[i].0 != #[trigger] u[j].0 by {
                assert(m[i].0 != m[j].0);
            }
            let r = m.remove(k);
            assert forall|i: int, j: int| 0 <= i < j < r.len() implies #[trigger] r[i].0 != #[trigger] r[j].0 by {
                let i2 = if i < k { i } else { i + 1 };
                let j2 = if j < k { j } else { j + 1 };
                assert(r[i] == m[i2] && r[j] == m[j2]);
            }
        },
        None => {
            let u = m.push((p, v));
            assert forall|i: int, j: int| 0 <= i < j < u.len() implies #[trigger] u[i].0 != #[trigger] u[j].0 by {
                if j == m.len() {
                    assert(u[i] == m[i]);
                }
            }
        },
    }
}

/// Registration keeps every known path and version recorded once.
pub proof fn lemma_register_all_distinct(w: WorkspaceView, files: Seq<(Seq<char>, FileMeta)>)
    requires
        distinct_keys(w.known),
        distinct_keys(w.versions),
    ensures
        distinct_keys(register_all(w, files).known),
        distinct_keys(register_all(w, files).versions),
    decreases files.len(),
{
    if files.len() > 0 {
        lemma_register_all_distinct(w, files.drop_last());
        let w1 = register_all(w, files.drop_last());
        lemma_set_key_distinct(w1.known, files.last().0, files.last().1);
        lemma_set_key_distinct(w1.versions, files.last().0, 0u64);
    }
}

proof fn lemma_created_distinct(
    w: WorkspaceView,
    evs: Seq<(Seq<char>, EventView)>,
    before: Seq<(Seq<char>, FileMeta)>,
    found: Seq<(Seq<char>, FileMeta)>,
)
    requires
        distinct_keys(w.known),
        distinct_keys(w.versions),
    ensures
        distinct_keys(created(w, evs, before, found).0.known),
        distinct_keys(created(w, evs, before, found).0.versions),
    decreases found.len(),
{
    if found.len() > 0 {
        lemma_created_distinct(w, evs, before, found.drop_last());
        let w1 = created(w, evs, before, found.drop_last()).0;
        lemma_set_key_distinct(w1.known, found.last().0, found.last().1);
        lemma_set_key_distinct(w1.versions, found.last().0, 0u64);
    }
}

proof fn lemma_deleted_distinct(
    w: WorkspaceView,
    evs: Seq<(Seq<char>, EventView)>,
    before: Seq<(Seq<char>, FileMeta)>,
    found: Seq<(Seq<char>, FileMeta)>,
)
    requires
        distinct_keys(w.known),
        distinct_keys(w.versions),
    ensures
        distinct_keys(deleted(w, evs, before, found).0.known),
        distinct_keys(deleted(w, evs, before, found).0.versions),
    decreases before.len(),
{
    if before.len() > 0 {
        lemma_deleted_distinct(w, evs, before.drop_last(), found);
        let w1 = deleted(w, evs, before.drop_last(), found).0;
        lemma_set_key_distinct(w1.known, before.last().0, before.last().1);
        lemma_set_key_distinct(w1.versions, before.last().0, 0u64);
    }
}

/// A poll keeps every known path and version recorded once.
pub proof fn lemma_poll_distinct(w: WorkspaceView, current: Seq<Option<FileMeta>>, found: Seq<(Seq<char>, FileMeta)>)
    requires
        distinct_keys(w.known),
        distinct_keys(w.versions),
    ensures
        distinct_keys(spec_poll(w, current, found).0.known),
        distinct_keys(spec_poll(w, current, found).0.versions),
{
    if !w.rescan_requested {
        let evs = modified_events(w.known, current);
        lemma_created_distinct(w, evs, w.known, found);
        let (w1, e1) = created(w, evs, w.known, found);
        lemma_deleted_distinct(w1, e1, w.known, found);
    }
}

} // verus!
