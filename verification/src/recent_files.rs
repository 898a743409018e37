use vstd::prelude::*;

use crate::paths::{same_path, same_path_spec};

verus! {

broadcast use vstd::string::group_string_axioms;

/// How many files the recent-files list remembers when loaded from disk.
pub const MAX_RECENT_FILES: usize = 20;

/// Holds of the paths that name another file than `path` (see
/// `same_path_spec`).
pub open spec fn differs_from(path: Seq<char>) -> spec_fn(Seq<char>) -> bool {
    |p: Seq<char>| !same_path_spec(p, path)
}

/// The entries that name another file than `path`, in order.
pub open spec fn without(entries: Seq<Seq<char>>, path: Seq<char>) -> Seq<Seq<char>> {
    entries.filter(differs_from(path))
}

/// The list after opening `path`: `path` first, then the entries that name
/// other files in their order, cut to `max` entries.
pub open spec fn added(entries: Seq<Seq<char>>, path: Seq<char>, max: nat) -> Seq<Seq<char>> {
    let e = seq![path] + without(entries, path);
    if e.len() > max {
        e.take(max as int)
    } else {
        e
    }
}

/// No file is named twice.
pub open spec fn no_duplicates(entries: Seq<Seq<char>>) -> bool {
    forall|i: int, j: int| 0 <= i < j < entries.len() ==> !same_path_spec(entries[i], entries[j])
}

/// The files opened most recently, most recent first.
pub struct RecentFiles {
    pub entries: Vec<String>,
    pub max_entries: usize,
}

impl RecentFiles {
    /// An empty list that keeps at most `max_entries` files.
    pub fn new(max_entries: usize) -> (r: Self)
        ensures
            r.entries@.len() == 0,
            r.max_entries == max_entries,
    {
        RecentFiles { entries: Vec::new(), max_entries }
    }

    /// A list holding the given entries as they are (they are cut only at the
    /// next `add`).
    pub fn from_entries(entries: Vec<String>, max_entries: usize) -> (r: Self)
        ensures
            r.entries.deep_view() == entries.deep_view(),
            r.max_entries == max_entries,
    {
        RecentFiles { entries, max_entries }
    }

    /// Puts `path` first, drops the older entries that name the same file and
    /// keeps at most the list's capacity of entries.
    pub fn add(&mut self, path: &str)
        ensures
            final(self).entries.deep_view() == added(
                old(self).entries.deep_view(),
                path@,
                old(self).max_entries as nat,
            ),
            final(self).max_entries == old(self).max_entries,
    {
        let ghost e = self.entries.deep_view();
        let mut kept: Vec<String> = Vec::new();
        let mut i: usize = 0;
        proof {
            assert(e.take(0) =~= Seq::<Seq<char>>::empty());
            reveal(Seq::filter);
        }
        while i < self.entries.len()
            invariant
                e == self.entries.deep_view(),
                i <= self.entries@.len(),
                kept.deep_view() == without(e.take(i as int), path@),
            decreases self.entries.len() - i,
        {
            proof {
                assert(e.take(i + 1) =~= e.take(i as int).push(e[i as int]));
                e.take(i as int).lemma_filter_push(e[i as int], differs_from(path@));
                assert(e[i as int] == self.entries@[i as int]@);
            }
            if !same_path(self.entries[i].as_str(), path) {
                let ghost before = kept.deep_view();
                kept.push(self.entries[i].clone());
                proof {
                    assert(kept.deep_view() =~= before.push(e[i as int]));
                }
            }
            i = i + 1;
        }
        proof {
            assert(e.take(self.entries@.len() as int) =~= e);
        }
        let ghost rest = kept.deep_view();
        kept.insert(0, path.to_string());
        proof {
            assert(kept.deep_view() =~= seq![path@] + rest);
        }
        kept.truncate(self.max_entries);
        proof {
            let full = seq![path@] + rest;
            if full.len() > self.max_entries {
                assert(kept.deep_view() =~= full.take(self.max_entries as int));
            } else {
                assert(kept.deep_view() =~= full);
            }
        }
        self.entries = kept;
    }
}

/// Entries that all name other files than `path` are left as they are by
/// `without`.
proof fn lemma_without_none(s: Seq<Seq<char>>, path: Seq<char>)
    requires
        forall|i: int| 0 <= i < s.len() ==> !same_path_spec(s[i], path),
    ensures
        without(s, path) == s,
    decreases s.len(),
{
    reveal(Seq::filter);
    if s.len() > 0 {
        lemma_without_none(s.drop_last(), path);
        assert(s.drop_last().push(s.last()) =~= s);
    }
}

/// Every entry kept by `without` names another file than `path` and was an
/// entry.
proof fn lemma_without_members(s: Seq<Seq<char>>, path: Seq<char>)
    ensures
        forall|i: int|
            0 <= i < without(s, path).len() ==> !same_path_spec(#[trigger] without(s, path)[i], path),
        forall|i: int| 0 <= i < without(s, path).len() ==> s.contains(#[trigger] without(s, path)[i]),
        no_duplicates(s) ==> no_duplicates(without(s, path)),
    decreases s.len(),
{
    reveal(Seq::filter);
    if s.len() > 0 {
        lemma_without_members(s.drop_last(), path);
        let w = without(s.drop_last(), path);
        assert forall|i: int| 0 <= i < w.len() implies s.contains(#[trigger] w[i]) by {
            let k = choose|k: int| 0 <= k < s.drop_last().len() && s.drop_last()[k] == w[i];
            assert(s[k] == w[i]);
        }
        if !same_path_spec(s.last(), path) {
            assert(s.contains(s.last())) by {
                assert(s[s.len() - 1] == s.last());
            }
            if no_duplicates(s) {
                assert forall|i: int| 0 <= i < w.len() implies !same_path_spec(
                    #[trigger] w[i],
                    s.last(),
                ) by {
                    let k = choose|k: int| 0 <= k < s.drop_last().len() && s.drop_last()[k] == w[i];
                    assert(s[k] == w[i]);
                }
            }
        }
    }
}

/// Opening a file puts it first, never grows the list past its capacity,
/// keeps the list free of two entries for one file, brings in no path but
/// the opened one,
/// and opening the same file again right after changes nothing.
pub proof fn lemma_add_laws(entries: Seq<Seq<char>>, path: Seq<char>, max: nat)
    ensures
        max > 0 ==> added(entries, path, max)[0] == path,
        added(entries, path, max).len() <= max,
        no_duplicates(entries) ==> no_duplicates(added(entries, path, max)),
        forall|i: int|
            0 <= i < added(entries, path, max).len() ==> #[trigger] added(entries, path, max)[i]
                == path || entries.contains(added(entries, path, max)[i]),
        added(added(entries, path, max), path, max) == added(entries, path, max),
{
    let w = without(entries, path);
    lemma_without_members(entries, path);
    let full = seq![path] + w;
    let a = added(entries, path, max);
    assert forall|i: int| 0 <= i < a.len() implies #[trigger] a[i] == path || entries.contains(
        a[i],
    ) by {
        if i > 0 {
            assert(a[i] == w[i - 1]);
        }
    }
    if no_duplicates(entries) {
        assert forall|i: int, j: int| 0 <= i < j < a.len() implies !same_path_spec(a[i], a[j]) by {
            assert(a[j] == w[j - 1]);
            if i > 0 {
                assert(a[i] == w[i - 1]);
            }
        }
    }
    // Adding `path` again: dropping `path` from `a` leaves the tail of `a`.
    if a.len() > 0 {
        let tail = a.drop_first();
        assert(a =~= seq![path] + tail);
        assert forall|i: int| 0 <= i < tail.len() implies !same_path_spec(tail[i], path) by {
            assert(tail[i] == w[i]);
        }
        Seq::filter_distributes_over_add(seq![path], tail, differs_from(path));
        reveal(Seq::filter);
        Seq::<Seq<char>>::empty().lemma_filter_push(path, differs_from(path));
        assert(Seq::<Seq<char>>::empty().push(path) =~= seq![path]);
        assert(Seq::<Seq<char>>::empty().filter(differs_from(path)) =~= Seq::<
            Seq<char>,
        >::empty());
        assert(without(seq![path], path) =~= Seq::<Seq<char>>::empty());
        lemma_without_none(tail, path);
        assert(without(a, path) =~= tail);
        assert(seq![path] + tail =~= a);
    } else {
        reveal(Seq::filter);
        assert(without(a, path) =~= Seq::<Seq<char>>::empty());
        assert(max == 0);
    }
}

} // verus!

verus! {

/// Names the JSON text that `serde_json::to_string` writes for a list of strings.
pub uninterp spec fn json_of_strings(items: Seq<Seq<char>>) -> Seq<char>;

/// Names the list of strings that `serde_json::from_str` reads from a text
/// (`None` when the text is not a JSON array of strings).
pub uninterp spec fn strings_of_json(text: Seq<char>) -> Option<Seq<Seq<char>>>;

/// Calls `serde_json::to_string` on a list of strings. Its documentation
/// names the only ways it fails, a `Serialize` impl that chooses to fail or a
/// map with non-string keys, and neither occurs for a list of strings, so the
/// contract claims that it succeeds.
#[verifier::external_body]
fn strings_to_json(items: &Vec<String>) -> (json: Option<String>)
    ensures
        json is Some,
        json matches Some(j) ==> j@ == json_of_strings(items.deep_view()),
{
    serde_json::to_string(items).ok()
}

/// Calls `serde_json::from_str::<Vec<String>>`.
#[verifier::external_body]
fn strings_from_json(text: &str) -> (items: Option<Vec<String>>)
    ensures
        items.deep_view() == strings_of_json(text@),
{
    serde_json::from_str::<Vec<String>>(text).ok()
}

impl RecentFiles {
    /// The JSON text that the list is saved as.
    pub fn to_json(&self) -> (json: String)
        ensures
            json@ == json_of_strings(self.entries.deep_view()),
    {
        match strings_to_json(&self.entries) {
            Some(j) => j,
            None => String::new(),
        }
    }

    /// The list read back from the saved file's text (`None` when the file
    /// could not be read); unreadable or malformed contents give an empty
    /// list. It keeps at most `MAX_RECENT_FILES` entries from the next `add`.
    pub fn load(content: Option<&str>) -> (r: Self)
        ensures
            r.max_entries == MAX_RECENT_FILES,
            r.entries.deep_view() == match content {
                Some(text) => match strings_of_json(text@) {
                    Some(items) => items,
                    None => Seq::empty(),
                },
                None => Seq::<Seq<char>>::empty(),
            },
    {
        let entries = match content {
            Some(text) => match strings_from_json(text) {
                Some(items) => items,
                None => Vec::new(),
            },
            None => Vec::new(),
        };
        proof {
            if entries@.len() == 0 {
                assert(entries.deep_view() =~= Seq::<Seq<char>>::empty());
            }
        }
        RecentFiles { entries, max_entries: MAX_RECENT_FILES }
    }
}


/// How many recent files the recent-files menu lists.
pub const RECENT_MENU_ENTRIES: usize = 15;

/// Names the parent directory that `std::path::Path::parent` finds for a
/// path, as `Path::display` writes it (`None` for a root or an empty path).
pub uninterp spec fn path_parent(path: Seq<char>) -> Option<Seq<char>>;

/// Calls `Path::new(path).parent()` and writes the parent with `display()`.
#[verifier::external_body]
fn parent_of(path: &str) -> (parent: Option<String>)
    ensures
        parent.deep_view() == path_parent(path@),
{
    std::path::Path::new(path).parent().map(|p| p.display().to_string())
}

/// The directory line of a recent-files menu entry: the parent directory,
/// or nothing when the path has none.
pub open spec fn parent_text(path: Seq<char>) -> Seq<char> {
    match path_parent(path) {
        Some(d) => d,
        None => Seq::empty(),
    }
}

/// The entries of the recent-files menu: the first `RECENT_MENU_ENTRIES`
/// recent files, each as (path, file name, parent directory).
pub fn recent_menu_entries(recent: &Vec<String>) -> (entries: Vec<(String, String, String)>)
    ensures
        entries@.len() == if recent@.len() < RECENT_MENU_ENTRIES {
            recent@.len()
        } else {
            RECENT_MENU_ENTRIES as nat
        },
        forall|i: int|
            0 <= i < entries@.len() ==> {
                let e = #[trigger] entries@[i];
                &&& e.0@ == recent@[i]@
                &&& e.1@ == crate::session::path_title(recent@[i]@)
                &&& e.2@ == parent_text(recent@[i]@)
            },
{
    let limit = if recent.len() < RECENT_MENU_ENTRIES {
        recent.len()
    } else {
        RECENT_MENU_ENTRIES
    };
    let mut entries: Vec<(String, String, String)> = Vec::new();
    let mut i: usize = 0;
    while i < limit
        invariant
            limit <= recent@.len(),
            limit == if recent@.len() < RECENT_MENU_ENTRIES {
                recent@.len()
            } else {
                RECENT_MENU_ENTRIES as nat
            },
            i <= limit,
            entries@.len() == i,
            forall|j: int|
                0 <= j < i ==> {
                    let e = #[trigger] entries@[j];
                    &&& e.0@ == recent@[j]@
                    &&& e.1@ == crate::session::path_title(recent@[j]@)
                    &&& e.2@ == parent_text(recent@[j]@)
                },
        decreases limit - i,
    {
        let path = recent[i].as_str();
        let name = crate::names::file_name_from_path(path);
        let dir = match parent_of(path) {
            Some(d) => d,
            None => String::new(),
        };
        entries.push((recent[i].clone(), name, dir));
        i = i + 1;
    }
    entries
}

} // verus!
