use vstd::prelude::*;
use crate::paths::{path_components, same_path, same_path_spec};

verus! {

/// A file's modification time: whole seconds and nanoseconds after the Unix
/// epoch.
pub type Mtime = (u64, u32);

/// The modification time recorded among `entries` for the path whose
/// components are `key`, looking from index `i` on (the first entry for the
/// path counts).
pub open spec fn recorded_from(entries: Seq<(Seq<char>, Mtime)>, key: Seq<Seq<char>>, i: int) -> Option<
    Mtime,
>
    decreases entries.len() - i,
{
    if i < 0 || i >= entries.len() {
        None
    } else if path_components(entries[i].0) == key {
        Some(entries[i].1)
    } else {
        recorded_from(entries, key, i + 1)
    }
}

/// Whether a file whose modification time on disk is `on_disk` (`None` when
/// it cannot be read) changed behind the editor's back, given the time
/// `known` that the editor last wrote or saw: a time that cannot be read is
/// no change; a file never seen before has changed.
pub open spec fn external_change(known: Option<Mtime>, on_disk: Option<Mtime>) -> bool {
    match on_disk {
        None => false,
        Some(m) => match known {
            Some(k) => k != m,
            None => true,
        },
    }
}

/// The modification times that the editor last wrote or saw, by path (paths
/// with the same components are one path), so that the change events of its
/// own saves are not taken for outside edits.
pub struct FileWatcher {
    known_mtimes: Vec<(String, Mtime)>,
}

impl FileWatcher {
    /// The time recorded for `path`, if any.
    pub closed spec fn known(&self, path: Seq<char>) -> Option<Mtime> {
        recorded_from(self.known_mtimes.deep_view(), path_components(path), 0)
    }

    /// A watcher that knows no file.
    pub fn new() -> (w: Self)
        ensures
            forall|p: Seq<char>| #[trigger] w.known(p) is None,
    {
        FileWatcher { known_mtimes: Vec::new() }
    }

    /// The index of the first entry for `path`.
    fn index_of(&self, path: &str) -> (found: Option<usize>)
        ensures
            match found {
                Some(i) => i < self.known_mtimes@.len() && same_path_spec(
                    self.known_mtimes@[i as int].0@,
                    path@,
                ) && forall|k: int|
                    0 <= k < i ==> !same_path_spec(#[trigger] self.known_mtimes@[k].0@, path@),
                None => forall|k: int|
                    0 <= k < self.known_mtimes@.len() ==> !same_path_spec(
                        #[trigger] self.known_mtimes@[k].0@,
                        path@,
                    ),
            },
    {
        let mut i: usize = 0;
        while i < self.known_mtimes.len()
            invariant
                i <= self.known_mtimes@.len(),
                forall|k: int| 0 <= k < i ==> !same_path_spec(#[trigger] self.known_mtimes@[k].0@, path@),
            decreases self.known_mtimes.len() - i,
        {
            if same_path(self.known_mtimes[i].0.as_str(), path) {
                return Some(i);
            }
            i = i + 1;
        }
        None
    }

    /// The time recorded for `path`.
    pub fn known_mtime(&self, path: &str) -> (m: Option<Mtime>)
        ensures
            m == self.known(path@),
    {
        let ghost e = self.known_mtimes.deep_view();
        match self.index_of(path) {
            Some(i) => {
                proof {
                    lemma_recorded_first(e, path_components(path@), i as int, 0);
                }
                Some(self.known_mtimes[i].1)
            },
            None => {
                proof {
                    lemma_recorded_none(e, path_components(path@), 0);
                }
                None
            },
        }
    }

    /// Records `modified` for `path`: in place of the known time when
    /// `replace` holds, else only when no time is known.
    fn record(&mut self, path: &str, modified: Mtime, replace: bool)
        ensures
            final(self).known(path@) == (if replace || old(self).known(path@) is None {
                Some(modified)
            } else {
                old(self).known(path@)
            }),
            forall|q: Seq<char>|
                !same_path_spec(q, path@) ==> #[trigger] final(self).known(q) == old(self).known(q),
    {
        let ghost e = self.known_mtimes.deep_view();
        match self.index_of(path) {
            Some(i) => {
                proof {
                    lemma_recorded_first(e, path_components(path@), i as int, 0);
                }
                if replace {
                    let key = self.known_mtimes[i].0.clone();
                    self.known_mtimes.set(i, (key, modified));
                    proof {
                        let e2 = self.known_mtimes.deep_view();
                        assert(e2 =~= e.update(i as int, (e[i as int].0, modified)));
                        lemma_recorded_first(e2, path_components(path@), i as int, 0);
                        assert forall|q: Seq<char>| !same_path_spec(q, path@) implies #[trigger] recorded_from(
                            e2,
                            path_components(q),
                            0,
                        ) == recorded_from(e, path_components(q), 0) by {
                            lemma_recorded_other_key(e, e2, i as int, path_components(q), 0);
                        }
                    }
                }
            },
            None => {
                proof {
                    lemma_recorded_none(e, path_components(path@), 0);
                }
                self.known_mtimes.push((path.to_string(), modified));
                proof {
                    let e2 = self.known_mtimes.deep_view();
                    assert(e2 =~= e.push((path@, modified)));
                    lemma_push_from(e, path@, modified, path_components(path@), 0);
                    assert forall|q: Seq<char>| !same_path_spec(q, path@) implies #[trigger] recorded_from(
                        e2,
                        path_components(q),
                        0,
                    ) == recorded_from(e, path_components(q), 0) by {
                        lemma_push_from(e, path@, modified, path_components(q), 0);
                    }
                }
            },
        }
    }

    /// Records the time of a file the editor just wrote, so that the change
    /// event of that save is not taken for an outside edit.
    pub fn update_mtime(&mut self, path: &str, modified: Option<Mtime>)
        ensures
            final(self).known(path@) == match modified {
                Some(m) => Some(m),
                None => old(self).known(path@),
            },
            forall|q: Seq<char>|
                !same_path_spec(q, path@) ==> #[trigger] final(self).known(q) == old(self).known(q),
            modified is Some ==> !external_change(final(self).known(path@), modified),
    {
        if let Some(m) = modified {
            self.record(path, m, true);
        }
    }

    /// Records the time of a file when watching starts, keeping a time
    /// already known, so that the first event after opening is no change.
    pub fn note_current_mtime(&mut self, path: &str, modified: Option<Mtime>)
        ensures
            final(self).known(path@) == match old(self).known(path@) {
                Some(k) => Some(k),
                None => modified,
            },
            forall|q: Seq<char>|
                !same_path_spec(q, path@) ==> #[trigger] final(self).known(q) == old(self).known(q),
    {
        if let Some(m) = modified {
            self.record(path, m, false);
        }
    }

    /// Whether the file at `path`, whose time on disk is `modified`, changed
    /// behind the editor's back (see `external_change`).
    pub fn is_external_change(&self, path: &str, modified: Option<Mtime>) -> (changed: bool)
        ensures
            changed == external_change(self.known(path@), modified),
    {
        match modified {
            None => false,
            Some(m) => match self.known_mtime(path) {
                Some(k) => k.0 != m.0 || k.1 != m.1,
                None => true,
            },
        }
    }

    /// Records the time on disk as seen, so that the same outside change is
    /// reported once.
    pub fn mark_seen(&mut self, path: &str, modified: Option<Mtime>)
        ensures
            final(self).known(path@) == match modified {
                Some(m) => Some(m),
                None => old(self).known(path@),
            },
            forall|q: Seq<char>|
                !same_path_spec(q, path@) ==> #[trigger] final(self).known(q) == old(self).known(q),
            modified is Some ==> !external_change(final(self).known(path@), modified),
    {
        self.update_mtime(path, modified);
    }
}

/// When no entry from `j` up to `i` has the components `key` and the one at
/// `i` has, the time recorded for `key` from `j` on is the one at `i`.
proof fn lemma_recorded_first(e: Seq<(Seq<char>, Mtime)>, key: Seq<Seq<char>>, i: int, j: int)
    requires
        0 <= j <= i < e.len(),
        path_components(e[i].0) == key,
        forall|k: int| j <= k < i ==> path_components(#[trigger] e[k].0) != key,
    ensures
        recorded_from(e, key, j) == Some(e[i].1),
    decreases i - j,
{
    if j < i {
        lemma_recorded_first(e, key, i, j + 1);
    }
}

/// When no entry from `j` on has the components `key`, nothing is recorded
/// for it.
proof fn lemma_recorded_none(e: Seq<(Seq<char>, Mtime)>, key: Seq<Seq<char>>, j: int)
    requires
        0 <= j,
        forall|k: int| j <= k < e.len() ==> path_components(#[trigger] e[k].0) != key,
    ensures
        recorded_from(e, key, j) is None,
    decreases e.len() - j,
{
    if j < e.len() {
        lemma_recorded_none(e, key, j + 1);
    }
}

/// Changing the time at index `i` (an entry for another path than the one
/// with components `key`) does not change what is recorded for `key`.
proof fn lemma_recorded_other_key(
    e: Seq<(Seq<char>, Mtime)>,
    e2: Seq<(Seq<char>, Mtime)>,
    i: int,
    key: Seq<Seq<char>>,
    j: int,
)
    requires
        0 <= j,
        0 <= i < e.len(),
        e2.len() == e.len(),
        forall|k: int| 0 <= k < e.len() && k != i ==> e2[k] == e[k],
        e2[i].0 == e[i].0,
        path_components(e[i].0) != key,
    ensures
        recorded_from(e2, key, j) == recorded_from(e, key, j),
    decreases e.len() - j,
{
    if j < e.len() {
        lemma_recorded_other_key(e, e2, i, key, j + 1);
    }
}

/// Appending an entry for `path`, when nothing is recorded for it, records
/// its time and changes nothing else.
proof fn lemma_push_from(
    e: Seq<(Seq<char>, Mtime)>,
    path: Seq<char>,
    m: Mtime,
    key: Seq<Seq<char>>,
    j: int,
)
    requires
        0 <= j <= e.len(),
        key == path_components(path) ==> recorded_from(e, key, j) is None,
    ensures
        recorded_from(e.push((path, m)), key, j) == if key == path_components(path) {
            Some(m)
        } else {
            recorded_from(e, key, j)
        },
    decreases e.len() - j,
{
    let e2 = e.push((path, m));
    if j < e.len() {
        assert(e2[j] == e[j]);
        lemma_push_from(e, path, m, key, j + 1);
    } else {
        assert(e2[j] == (path, m));
        assert(recorded_from(e2, key, j + 1) is None);
    }
}

} // verus!
