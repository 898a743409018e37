use vstd::prelude::*;

verus! {

/// An open tab: the editor that shows it (opaque here), the file it belongs
/// to, its title, group, encoding label and whether it is pinned.
pub struct Tab<E> {
    pub editor: E,
    pub path: Option<String>,
    pub title: String,
    pub group: Option<String>,
    pub encoding: String,
    pub pinned: bool,
}

/// The open tabs in sidebar order and the index of the active one.
pub struct TabList<E> {
    pub tabs: Vec<Tab<E>>,
    pub active: usize,
}

/// A tab with file `tab_path` shows the file at `path`.
pub open spec fn shows_path(tab_path: Option<String>, path: Seq<char>) -> bool {
    match tab_path {
        Some(p) => crate::paths::same_path_spec(p@, path),
        None => false,
    }
}

/// The tabs that are pinned, in order.
pub open spec fn pinned_tabs<E>(tabs: Seq<Tab<E>>) -> Seq<Tab<E>> {
    tabs.filter(|t: Tab<E>| t.pinned)
}

/// The tabs that are not pinned, in order.
pub open spec fn unpinned_tabs<E>(tabs: Seq<Tab<E>>) -> Seq<Tab<E>> {
    tabs.filter(|t: Tab<E>| !t.pinned)
}

/// Number of pinned tabs among the first `i`.
pub open spec fn pinned_before<E>(tabs: Seq<Tab<E>>, i: int) -> nat {
    pinned_tabs(tabs.take(i)).len()
}

/// Where the tab at `i` ends up when the pinned tabs are moved before the
/// others, each group keeping its order.
pub open spec fn pinned_first_position<E>(tabs: Seq<Tab<E>>, i: int) -> int {
    if tabs[i].pinned {
        pinned_before(tabs, i) as int
    } else {
        pinned_tabs(tabs).len() + (i - pinned_before(tabs, i))
    }
}

/// Number of pinned tabs at the head of the list, before the first unpinned one.
pub open spec fn leading_pinned<E>(tabs: Seq<Tab<E>>) -> nat
    decreases tabs.len(),
{
    if tabs.len() > 0 && tabs[0].pinned {
        1 + leading_pinned(tabs.drop_first())
    } else {
        0
    }
}

/// Whether dragging the tab at `from` onto the tab at `to` moves it: both
/// exist, they differ, and both lie in the leading pinned block or both lie
/// after it.
pub open spec fn drag_allowed<E>(tabs: Seq<Tab<E>>, from: int, to: int) -> bool {
    &&& from != to
    &&& 0 <= from < tabs.len()
    &&& 0 <= to < tabs.len()
    &&& (from < leading_pinned(tabs)) == (to < leading_pinned(tabs))
}

/// Where the tab at `i` ends up when the tab at `from` is moved to `to`.
pub open spec fn moved_position(i: int, from: int, to: int) -> int {
    if i == from {
        to
    } else if from < i <= to {
        i - 1
    } else if to <= i < from {
        i + 1
    } else {
        i
    }
}

/// The tab list after moving the tab at `from` to index `to`.
pub open spec fn moved<E>(tabs: Seq<Tab<E>>, from: int, to: int) -> Seq<Tab<E>> {
    tabs.remove(from).insert(to, tabs[from])
}

/// Whether the tab at `index` may be closed: it exists, is not pinned, and is
/// not the only tab.
pub open spec fn closable<E>(tabs: Seq<Tab<E>>, index: int) -> bool {
    tabs.len() > 1 && 0 <= index < tabs.len() && !tabs[index].pinned
}

/// The active index after closing the tab at `index` of a list of `len` tabs
/// whose active index was `active`.
pub open spec fn active_after_close(active: int, index: int, len: int) -> int {
    if active >= len - 1 {
        len - 2
    } else if index <= active && active > 0 {
        active - 1
    } else {
        active
    }
}

proof fn lemma_filter_push<E>(s: Seq<Tab<E>>, t: Tab<E>, keep_pinned: bool)
    ensures
        keep_pinned ==> pinned_tabs(s.push(t)) == (if t.pinned {
            pinned_tabs(s).push(t)
        } else {
            pinned_tabs(s)
        }),
        !keep_pinned ==> unpinned_tabs(s.push(t)) == (if !t.pinned {
            unpinned_tabs(s).push(t)
        } else {
            unpinned_tabs(s)
        }),
{
    reveal(Seq::filter);
    assert(s.push(t).drop_last() =~= s);
}

proof fn lemma_take_push<E>(s: Seq<Tab<E>>, i: int)
    requires
        0 <= i < s.len(),
    ensures
        s.take(i + 1) == s.take(i).push(s[i]),
{
    assert(s.take(i + 1) =~= s.take(i).push(s[i]));
}

proof fn lemma_filter_len_le<E>(s: Seq<Tab<E>>, i: int)
    requires
        0 <= i <= s.len(),
    ensures
        pinned_tabs(s.take(i)).len() + unpinned_tabs(s.take(i)).len() == i,
    decreases i,
{
    if i > 0 {
        lemma_filter_len_le(s, i - 1);
        lemma_take_push(s, i - 1);
        lemma_filter_push(s.take(i - 1), s[i - 1], true);
        lemma_filter_push(s.take(i - 1), s[i - 1], false);
    } else {
        reveal(Seq::filter);
        assert(s.take(0) =~= Seq::<Tab<E>>::empty());
    }
}

proof fn lemma_filter_mono<E>(s: Seq<Tab<E>>, i: int, j: int)
    requires
        0 <= i <= j <= s.len(),
    ensures
        pinned_tabs(s.take(i)).len() <= pinned_tabs(s.take(j)).len(),
        unpinned_tabs(s.take(i)).len() <= unpinned_tabs(s.take(j)).len(),
    decreases j - i,
{
    if i < j {
        lemma_filter_mono(s, i, j - 1);
        lemma_take_push(s, j - 1);
        lemma_filter_push(s.take(j - 1), s[j - 1], true);
        lemma_filter_push(s.take(j - 1), s[j - 1], false);
    }
}

proof fn lemma_filter_prefix<E>(s: Seq<Tab<E>>, i: int, j: int)
    requires
        0 <= i <= j <= s.len(),
    ensures
        pinned_tabs(s.take(i)) == pinned_tabs(s.take(j)).take(pinned_tabs(s.take(i)).len() as int),
        unpinned_tabs(s.take(i)) == unpinned_tabs(s.take(j)).take(
            unpinned_tabs(s.take(i)).len() as int,
        ),
    decreases j - i,
{
    if i < j {
        lemma_filter_prefix(s, i, j - 1);
        lemma_filter_mono(s, i, j - 1);
        lemma_take_push(s, j - 1);
        lemma_filter_push(s.take(j - 1), s[j - 1], true);
        lemma_filter_push(s.take(j - 1), s[j - 1], false);
        let p = pinned_tabs(s.take(j - 1));
        let u = unpinned_tabs(s.take(j - 1));
        assert(p.push(s[j - 1]).take(pinned_tabs(s.take(i)).len() as int) =~= p.take(
            pinned_tabs(s.take(i)).len() as int,
        ));
        assert(u.push(s[j - 1]).take(unpinned_tabs(s.take(i)).len() as int) =~= u.take(
            unpinned_tabs(s.take(i)).len() as int,
        ));
    } else {
        assert(pinned_tabs(s.take(i)).take(pinned_tabs(s.take(i)).len() as int) =~= pinned_tabs(
            s.take(i),
        ));
        assert(unpinned_tabs(s.take(i)).take(unpinned_tabs(s.take(i)).len() as int)
            =~= unpinned_tabs(s.take(i)));
    }
}

/// Moving the pinned tabs first puts the tab at `a` where
/// `pinned_first_position` says.
pub proof fn lemma_pinned_first_position<E>(s: Seq<Tab<E>>, a: int)
    requires
        0 <= a < s.len(),
    ensures
        0 <= pinned_first_position(s, a) < s.len(),
        (pinned_tabs(s) + unpinned_tabs(s))[pinned_first_position(s, a)] == s[a],
{
    lemma_take_push(s, a);
    lemma_filter_push(s.take(a), s[a], true);
    lemma_filter_push(s.take(a), s[a], false);
    lemma_filter_prefix(s, a + 1, s.len() as int);
    lemma_filter_mono(s, a + 1, s.len() as int);
    lemma_filter_len_le(s, a);
    lemma_filter_len_le(s, s.len() as int);
    assert(s.take(s.len() as int) =~= s);
    let p = pinned_tabs(s);
    let u = unpinned_tabs(s);
    if s[a].pinned {
        assert(p.take(pinned_tabs(s.take(a + 1)).len() as int)[pinned_before(s, a) as int] == s[a]);
    } else {
        assert(u.take(unpinned_tabs(s.take(a + 1)).len() as int)[a - pinned_before(s, a)] == s[a]);
    }
}

impl<E> TabList<E> {
    /// The active index points at a tab whenever there is one.
    pub open spec fn well_formed(&self) -> bool {
        self.tabs@.len() > 0 ==> self.active < self.tabs@.len()
    }

    /// Moves all pinned tabs before the unpinned ones, keeping the order
    /// within each group; the same tab stays active.
    pub fn sort_tabs_pinned_first(&mut self)
        requires
            old(self).active < old(self).tabs@.len(),
        ensures
            final(self).tabs@ == pinned_tabs(old(self).tabs@) + unpinned_tabs(old(self).tabs@),
            final(self).active == pinned_first_position(old(self).tabs@, old(self).active as int),
            final(self).active < final(self).tabs@.len(),
            final(self).tabs@[final(self).active as int] == old(self).tabs@[old(self).active as int],
    {
        proof {
            lemma_pinned_first_position(self.tabs@, self.active as int);
        }
        let ghost orig = self.tabs@;
        let ghost n = orig.len();
        let total = self.tabs.len();
        let old_active = self.active;
        let ghost a = old_active as int;
        let mut rest: Vec<Tab<E>> = Vec::new();
        std::mem::swap(&mut rest, &mut self.tabs);
        proof {
            assert(orig.skip(0) =~= orig);
            reveal(Seq::filter);
            assert(orig.take(0) =~= Seq::<Tab<E>>::empty());
        }
        let mut pinned: Vec<Tab<E>> = Vec::new();
        let mut unpinned: Vec<Tab<E>> = Vec::new();
        let mut new_active: usize = 0;
        let mut active_pinned = false;
        let mut i: usize = 0;
        while rest.len() > 0
            invariant
                n == orig.len(),
                n == total,
                a == old_active,
                a < n,
                i + rest@.len() == n,
                rest@ == orig.skip(i as int),
                pinned@ == pinned_tabs(orig.take(i as int)),
                unpinned@ == unpinned_tabs(orig.take(i as int)),
                i > a ==> active_pinned == orig[a].pinned,
                i > a ==> new_active == (if orig[a].pinned {
                    pinned_before(orig, a) as int
                } else {
                    a - pinned_before(orig, a)
                }),
            decreases rest.len(),
        {
            let t = rest.remove(0);
            proof {
                assert(t == orig[i as int]);
                assert(rest@ =~= orig.skip(i + 1));
                lemma_take_push(orig, i as int);
                lemma_filter_push(orig.take(i as int), orig[i as int], true);
                lemma_filter_push(orig.take(i as int), orig[i as int], false);
                lemma_filter_len_le(orig, i as int);
            }
            if i == old_active {
                active_pinned = t.pinned;
                new_active = if t.pinned {
                    pinned.len()
                } else {
                    unpinned.len()
                };
            }
            if t.pinned {
                pinned.push(t);
            } else {
                unpinned.push(t);
            }
            i = i + 1;
        }
        proof {
            assert(orig.take(n as int) =~= orig);
            lemma_filter_mono(orig, a + 1, n as int);
            lemma_filter_len_le(orig, a);
            lemma_filter_len_le(orig, n as int);
            lemma_filter_len_le(orig, a + 1);
            lemma_take_push(orig, a);
            lemma_filter_push(orig.take(a), orig[a], true);
            lemma_filter_push(orig.take(a), orig[a], false);
        }
        let pinned_count = pinned.len();
        let final_active = if active_pinned {
            new_active
        } else {
            pinned_count + new_active
        };
        pinned.append(&mut unpinned);
        self.tabs = pinned;
        self.active = final_active;
    }
}

} // verus!

verus! {

impl<E> TabList<E> {
    /// An empty list.
    pub fn new() -> (l: Self)
        ensures
            l.tabs@.len() == 0,
            l.active == 0,
    {
        TabList { tabs: Vec::new(), active: 0 }
    }

    /// Number of open tabs.
    pub fn len(&self) -> (n: usize)
        ensures
            n == self.tabs@.len(),
    {
        self.tabs.len()
    }

    /// Adds a tab at the end and makes it active.
    pub fn push_active(&mut self, tab: Tab<E>)
        requires
            old(self).tabs@.len() < usize::MAX,
        ensures
            final(self).tabs@ == old(self).tabs@.push(tab),
            final(self).active == old(self).tabs@.len(),
            final(self).well_formed(),
    {
        self.tabs.push(tab);
        self.active = self.tabs.len() - 1;
    }

    /// Makes the tab at `index` active if it exists; gives whether it does.
    pub fn switch_to(&mut self, index: usize) -> (switched: bool)
        ensures
            switched == (index < old(self).tabs@.len()),
            final(self).tabs@ == old(self).tabs@,
            final(self).active == (if switched {
                index
            } else {
                old(self).active
            }),
    {
        if index < self.tabs.len() {
            self.active = index;
            true
        } else {
            false
        }
    }

    /// The index of the first tab that shows the file `path` (a path with the
    /// same components, see `same_path_spec`), if any.
    pub fn position_of_path(&self, path: &str) -> (found: Option<usize>)
        ensures
            match found {
                Some(i) => i < self.tabs@.len() && shows_path(self.tabs@[i as int].path, path@)
                    && forall|j: int| 0 <= j < i ==> !shows_path(#[trigger] self.tabs@[j].path, path@),
                None => forall|j: int|
                    0 <= j < self.tabs@.len() ==> !shows_path(#[trigger] self.tabs@[j].path, path@),
            },
    {
        let mut i: usize = 0;
        while i < self.tabs.len()
            invariant
                i <= self.tabs@.len(),
                forall|j: int| 0 <= j < i ==> !shows_path(#[trigger] self.tabs@[j].path, path@),
            decreases self.tabs.len() - i,
        {
            let same = match &self.tabs[i].path {
                Some(p) => crate::paths::same_path(p.as_str(), path),
                None => false,
            };
            if same {
                return Some(i);
            }
            i = i + 1;
        }
        None
    }

    /// Whether the tab at `index` may be closed.
    pub fn can_close(&self, index: usize) -> (r: bool)
        ensures
            r == closable(self.tabs@, index as int),
    {
        self.tabs.len() > 1 && index < self.tabs.len() && !self.tabs[index].pinned
    }

    /// Closes the tab at `index` unless it is missing, pinned or the last
    /// one; the active index then moves to keep pointing into the list.
    /// Gives whether the tab was closed.
    pub fn close_tab_at(&mut self, index: usize) -> (closed: bool)
        ensures
            closed == closable(old(self).tabs@, index as int),
            closed ==> final(self).tabs@ == old(self).tabs@.remove(index as int)
                && final(self).active == active_after_close(
                old(self).active as int,
                index as int,
                old(self).tabs@.len() as int,
            ),
            !closed ==> final(self).tabs@ == old(self).tabs@ && final(self).active == old(self).active,
    {
        if !self.can_close(index) {
            return false;
        }
        let _closed_tab = self.tabs.remove(index);
        if self.active >= self.tabs.len() {
            self.active = self.tabs.len() - 1;
        } else if index <= self.active && self.active > 0 {
            self.active = self.active - 1;
        }
        true
    }

    /// Number of pinned tabs at the head of the list.
    pub fn leading_pinned_count(&self) -> (n: usize)
        ensures
            n == leading_pinned(self.tabs@),
    {
        let mut n: usize = 0;
        proof {
            assert(self.tabs@.skip(0) =~= self.tabs@);
        }
        while n < self.tabs.len() && self.tabs[n].pinned
            invariant
                n <= self.tabs@.len(),
                leading_pinned(self.tabs@) == n + leading_pinned(self.tabs@.skip(n as int)),
            decreases self.tabs.len() - n,
        {
            proof {
                assert(self.tabs@.skip(n as int).drop_first() =~= self.tabs@.skip(n + 1));
            }
            n = n + 1;
        }
        proof {
            assert(leading_pinned(self.tabs@.skip(n as int)) == 0);
        }
        n
    }

    /// Brings an active index past the end back to the last tab, as drawing
    /// the window does (an empty list keeps index 0).
    pub fn clamp_active(&mut self)
        ensures
            final(self).tabs@ == old(self).tabs@,
            final(self).active == (if old(self).active >= old(self).tabs@.len() {
                if old(self).tabs@.len() > 0 {
                    (old(self).tabs@.len() - 1) as usize
                } else {
                    0usize
                }
            } else {
                old(self).active
            }),
    {
        if self.active >= self.tabs.len() {
            self.active = if self.tabs.len() > 0 {
                self.tabs.len() - 1
            } else {
                0
            };
        }
    }

    /// Moves the tab dragged from `from` to the place of the tab at `to`,
    /// when both lie in the same (pinned or unpinned) block; the same tab
    /// stays active. Gives whether the tab moved.
    pub fn move_tab(&mut self, from: usize, to: usize) -> (did_move: bool)
        requires
            drag_allowed(old(self).tabs@, from as int, to as int) ==> old(self).active < old(
                self,
            ).tabs@.len(),
        ensures
            did_move == drag_allowed(old(self).tabs@, from as int, to as int),
            did_move ==> final(self).tabs@ == moved(old(self).tabs@, from as int, to as int)
                && final(self).active == moved_position(
                old(self).active as int,
                from as int,
                to as int,
            ),
            !did_move ==> final(self).tabs@ == old(self).tabs@ && final(self).active == old(
                self,
            ).active,
            did_move ==> final(self).active < final(self).tabs@.len(),
            did_move ==> final(self).tabs@[final(self).active as int] == old(self).tabs@[old(
                self,
            ).active as int],
    {
        if from == to || from >= self.tabs.len() || to >= self.tabs.len() {
            return false;
        }
        let pinned_count = self.leading_pinned_count();
        if (from < pinned_count) != (to < pinned_count) {
            return false;
        }
        let ghost before = self.tabs@;
        let t = self.tabs.remove(from);
        self.tabs.insert(to, t);
        let a = self.active;
        proof {
            let m = moved_position(a as int, from as int, to as int);
            assert(self.tabs@ == before.remove(from as int).insert(to as int, before[from as int]));
            assert(self.tabs@[m] == before[a as int]);
        }
        self.active = if a == from {
            to
        } else if from < a && a <= to {
            a - 1
        } else if to <= a && a < from {
            a + 1
        } else {
            a
        };
        true
    }

    /// Removes the tab at `index` from the list and gives it.
    fn take_tab(&mut self, index: usize) -> (tab: Tab<E>)
        requires
            index < old(self).tabs@.len(),
        ensures
            tab == old(self).tabs@[index as int],
            final(self).tabs@ == old(self).tabs@.remove(index as int),
            final(self).active == old(self).active,
    {
        self.tabs.remove(index)
    }

    /// Unpins the tab at `index`, if it exists, without reordering.
    pub fn unpin(&mut self, index: usize) -> (done: bool)
        ensures
            done == (index < old(self).tabs@.len()),
            done ==> final(self).tabs@ == old(self).tabs@.update(
                index as int,
                Tab { pinned: false, ..old(self).tabs@[index as int] },
            ),
            !done ==> final(self).tabs@ == old(self).tabs@,
            final(self).active == old(self).active,
    {
        if index >= self.tabs.len() {
            return false;
        }
        let mut t = self.take_tab(index);
        t.pinned = false;
        self.tabs.insert(index, t);
        proof {
            assert(self.tabs@ =~= old(self).tabs@.update(
                index as int,
                Tab { pinned: false, ..old(self).tabs@[index as int] },
            ));
        }
        true
    }

    /// Pins or unpins the tab at `index` (if it exists) and moves the pinned
    /// tabs before the others; the same tab stays active.
    pub fn toggle_pin(&mut self, index: usize) -> (done: bool)
        requires
            index < old(self).tabs@.len() ==> old(self).active < old(self).tabs@.len(),
        ensures
            done == (index < old(self).tabs@.len()),
            done ==> {
                let flipped = old(self).tabs@.update(
                    index as int,
                    Tab { pinned: !old(self).tabs@[index as int].pinned, ..old(self).tabs@[index as int] },
                );
                &&& final(self).tabs@ == pinned_tabs(flipped) + unpinned_tabs(flipped)
                &&& final(self).active == pinned_first_position(flipped, old(self).active as int)
            },
            !done ==> final(self).tabs@ == old(self).tabs@ && final(self).active == old(self).active,
    {
        if index >= self.tabs.len() {
            return false;
        }
        let mut t = self.take_tab(index);
        t.pinned = !t.pinned;
        self.tabs.insert(index, t);
        proof {
            assert(self.tabs@ =~= old(self).tabs@.update(
                index as int,
                Tab { pinned: !old(self).tabs@[index as int].pinned, ..old(self).tabs@[index as int] },
            ));
        }
        self.sort_tabs_pinned_first();
        true
    }

    /// Records the encoding the active tab's file was (re)read with.
    pub fn set_active_encoding(&mut self, encoding: String)
        requires
            old(self).active < old(self).tabs@.len(),
        ensures
            final(self).tabs@ == old(self).tabs@.update(
                old(self).active as int,
                Tab { encoding, ..old(self).tabs@[old(self).active as int] },
            ),
            final(self).active == old(self).active,
    {
        let index = self.active;
        let mut t = self.take_tab(index);
        t.encoding = encoding;
        self.tabs.insert(index, t);
        proof {
            assert(self.tabs@ =~= old(self).tabs@.update(
                index as int,
                Tab { encoding, ..old(self).tabs@[index as int] },
            ));
        }
    }
}

} // verus!

verus! {

/// Closing a tab other than the active one keeps the same tab active, and
/// the active index stays inside the list.
pub proof fn lemma_close_keeps_active<E>(tabs: Seq<Tab<E>>, active: int, index: int)
    requires
        closable(tabs, index),
        0 <= active < tabs.len(),
    ensures
        0 <= active_after_close(active, index, tabs.len() as int) < tabs.len() - 1,
        index != active ==> tabs.remove(index)[active_after_close(active, index, tabs.len() as int)]
            == tabs[active],
{
}

/// Closing the active tab hands the focus to its left neighbour: the tab
/// just before it becomes active, or, when the first tab is closed, the tab
/// that followed it (now first).
pub proof fn lemma_close_active_moves_left<E>(tabs: Seq<Tab<E>>, index: int)
    requires
        closable(tabs, index),
    ensures
        index > 0 ==> tabs.remove(index)[active_after_close(index, index, tabs.len() as int)]
            == tabs[index - 1],
        index == 0 ==> tabs.remove(index)[active_after_close(index, index, tabs.len() as int)]
            == tabs[1],
{
}

} // verus!

verus! {

/// The group that "move to group" puts a tab in next: the first of `A`,
/// `B`, `C` that sorts after the tab's group (after the empty name for a tab
/// in no group), or no group after the last.
pub open spec fn next_group(current: Option<Seq<char>>) -> Option<Seq<char>> {
    let cur = match current {
        Some(g) => g,
        None => Seq::empty(),
    };
    if crate::text::text_less_spec(cur, seq!['A']) {
        Some(seq!['A'])
    } else if crate::text::text_less_spec(cur, seq!['B']) {
        Some(seq!['B'])
    } else if crate::text::text_less_spec(cur, seq!['C']) {
        Some(seq!['C'])
    } else {
        None
    }
}

/// The group after `current` (see `next_group`).
pub fn following_group(current: &Option<String>) -> (next: Option<String>)
    ensures
        next.deep_view() == next_group(current.deep_view()),
{
    let cur = match current {
        Some(g) => g.clone(),
        None => String::new(),
    };
    let candidates = ['A', 'B', 'C'];
    let mut i: usize = 0;
    while i < 3
        invariant
            i <= 3,
            cur@ == match current.deep_view() {
                Some(g) => g,
                None => Seq::empty(),
            },
            candidates@ == seq!['A', 'B', 'C'],
            forall|k: int| 0 <= k < i ==> !crate::text::text_less_spec(cur@, seq![#[trigger] candidates@[k]]),
        decreases 3 - i,
    {
        let name = crate::text::string_of(&[candidates[i]]);
        proof {
            assert(name@ =~= seq![candidates@[i as int]]);
        }
        if crate::text::text_less(cur.as_str(), name.as_str()) {
            proof {
                assert(candidates@[0] == 'A' && candidates@[1] == 'B' && candidates@[2] == 'C');
            }
            return Some(name);
        }
        i = i + 1;
    }
    proof {
        assert(candidates@[0] == 'A' && candidates@[1] == 'B' && candidates@[2] == 'C');
    }
    None
}

impl<E> TabList<E> {
    /// Moves the active tab to the next group (see `next_group`).
    pub fn move_active_to_next_group(&mut self)
        requires
            old(self).active < old(self).tabs@.len(),
        ensures
            final(self).active == old(self).active,
            final(self).tabs@.len() == old(self).tabs@.len(),
            forall|i: int|
                0 <= i < old(self).tabs@.len() && i != old(self).active ==> final(self).tabs@[i]
                    == old(self).tabs@[i],
            final(self).tabs@[old(self).active as int].group.deep_view() == next_group(
                old(self).tabs@[old(self).active as int].group.deep_view(),
            ),
            final(self).tabs@[old(self).active as int].path == old(self).tabs@[old(
                self,
            ).active as int].path,
            final(self).tabs@[old(self).active as int].pinned == old(self).tabs@[old(
                self,
            ).active as int].pinned,
    {
        let index = self.active;
        let mut t = self.take_tab(index);
        t.group = following_group(&t.group);
        self.tabs.insert(index, t);
    }

    /// After a saved tab has been restored (or skipped): pins the last tab if
    /// the saved one was pinned, and makes the last tab active if the saved
    /// one was active.
    pub fn restore_entry_done(&mut self, pinned: bool, was_active: bool)
        requires
            was_active ==> old(self).tabs@.len() > 0,
        ensures
            final(self).tabs@.len() == old(self).tabs@.len(),
            forall|i: int|
                0 <= i < old(self).tabs@.len() - 1 ==> final(self).tabs@[i] == old(self).tabs@[i],
            old(self).tabs@.len() > 0 ==> {
                let last = old(self).tabs@.len() - 1;
                &&& final(self).tabs@[last].pinned == (old(self).tabs@[last].pinned || pinned)
                &&& final(self).tabs@[last].path == old(self).tabs@[last].path
                &&& final(self).tabs@[last].title == old(self).tabs@[last].title
                &&& final(self).tabs@[last].group == old(self).tabs@[last].group
                &&& final(self).tabs@[last].encoding == old(self).tabs@[last].encoding
                &&& final(self).tabs@[last].editor == old(self).tabs@[last].editor
            },
            final(self).active == (if was_active {
                (old(self).tabs@.len() - 1) as usize
            } else {
                old(self).active
            }),
    {
        if pinned && self.tabs.len() > 0 {
            let last = self.tabs.len() - 1;
            let mut t = self.take_tab(last);
            t.pinned = true;
            self.tabs.push(t);
        }
        if was_active {
            self.active = self.tabs.len() - 1;
        }
    }

    /// After all saved tabs are restored: when none could be restored (no
    /// session, an empty one, or every tab skipped) the list falls back to
    /// the single tab `fallback`; otherwise the active index is brought back
    /// into the list and the pinned tabs are moved first.
    pub fn finish_restore(&mut self, fallback: Tab<E>)
        ensures
            old(self).tabs@.len() == 0 ==> final(self).tabs@ == seq![fallback] && final(self).active
                == 0,
            old(self).tabs@.len() > 0 ==> ({
                let a = if old(self).active >= old(self).tabs@.len() {
                    old(self).tabs@.len() - 1
                } else {
                    old(self).active as int
                };
                &&& final(self).tabs@ == pinned_tabs(old(self).tabs@) + unpinned_tabs(old(self).tabs@)
                &&& final(self).active == pinned_first_position(old(self).tabs@, a)
                &&& final(self).tabs@[final(self).active as int] == old(self).tabs@[a]
            }),
    {
        if self.tabs.len() == 0 {
            self.tabs.push(fallback);
            self.active = 0;
            return;
        }
        if self.active >= self.tabs.len() {
            self.active = self.tabs.len() - 1;
        }
        self.sort_tabs_pinned_first();
    }
}

/// The icon drawn for a tab, by its file's (lower-cased) extension.
pub open spec fn icon_for_extension(ext: Option<Seq<char>>) -> Seq<char> {
    match ext {
        Some(e) => if e == "rs"@ {
            "icons/file_rust.svg"@
        } else if e == "md"@ || e == "mdx"@ {
            "icons/file_markdown.svg"@
        } else if e == "toml"@ {
            "icons/file_toml.svg"@
        } else if e == "js"@ || e == "ts"@ || e == "jsx"@ || e == "tsx"@ || e == "py"@ || e
            == "go"@ || e == "c"@ || e == "h"@ || e == "cpp"@ || e == "java"@ || e == "rb"@ {
            "icons/file_code.svg"@
        } else if e == "json"@ || e == "yaml"@ || e == "yml"@ || e == "xml"@ || e == "ini"@ || e
            == "cfg"@ {
            "icons/file_generic.svg"@
        } else if e == "txt"@ || e == "log"@ {
            "icons/file_text_outlined.svg"@
        } else if e == "diff"@ || e == "patch"@ {
            "icons/file_diff.svg"@
        } else {
            "icons/file.svg"@
        },
        None => "icons/file.svg"@,
    }
}

/// Whether `e` is one of the `names`.
fn one_of(e: &str, names: &[&str]) -> (r: bool)
    ensures
        r == exists|i: int| 0 <= i < names@.len() && e@ == (#[trigger] names@[i])@,
{
    let mut i: usize = 0;
    while i < names.len()
        invariant
            i <= names@.len(),
            forall|k: int| 0 <= k < i ==> e@ != (#[trigger] names@[k])@,
        decreases names.len() - i,
    {
        if crate::text::same_text(e, names[i]) {
            return true;
        }
        i = i + 1;
    }
    false
}

/// The icon drawn for a tab whose file has the extension `ext`.
pub fn icon_path_for_extension(ext: Option<&str>) -> (icon: &'static str)
    ensures
        icon@ == icon_for_extension(
            match ext {
                Some(e) => Some(e@),
                None => None,
            },
        ),
{
    let e = match ext {
        Some(e) => e,
        None => {
            return "icons/file.svg";
        },
    };
    if one_of(e, &["rs"]) {
        "icons/file_rust.svg"
    } else if one_of(e, &["md", "mdx"]) {
        "icons/file_markdown.svg"
    } else if one_of(e, &["toml"]) {
        "icons/file_toml.svg"
    } else if one_of(e, &["js", "ts", "jsx", "tsx", "py", "go", "c", "h", "cpp", "java", "rb"]) {
        "icons/file_code.svg"
    } else if one_of(e, &["json", "yaml", "yml", "xml", "ini", "cfg"]) {
        "icons/file_generic.svg"
    } else if one_of(e, &["txt", "log"]) {
        "icons/file_text_outlined.svg"
    } else if one_of(e, &["diff", "patch"]) {
        "icons/file_diff.svg"
    } else {
        "icons/file.svg"
    }
}

} // verus!
