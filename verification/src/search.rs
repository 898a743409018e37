use vstd::prelude::*;
use vstd::utf8::encode_utf8;

verus! {

broadcast use vstd::string::group_string_axioms;

/// `q` occurs in `t` at byte offset `p`.
pub open spec fn occurs_at(t: Seq<u8>, q: Seq<u8>, p: int) -> bool {
    0 <= p && p + q.len() <= t.len() && t.subrange(p, p + q.len()) == q
}

/// The first offset at or after `s` at which `q` occurs in `t`.
pub open spec fn find_from(t: Seq<u8>, q: Seq<u8>, s: int) -> Option<int>
    decreases t.len() + 1 - s,
{
    if s < 0 || s + q.len() > t.len() {
        None
    } else if occurs_at(t, q, s) {
        Some(s)
    } else {
        find_from(t, q, s + 1)
    }
}

/// A found occurrence lies at or after the offset the search started from.
pub proof fn lemma_find_from_bounds(t: Seq<u8>, q: Seq<u8>, s: int)
    ensures
        find_from(t, q, s) matches Some(p) ==> s <= p && occurs_at(t, q, p),
    decreases t.len() + 1 - s,
{
    if s >= 0 && s + q.len() <= t.len() && !occurs_at(t, q, s) {
        lemma_find_from_bounds(t, q, s + 1);
    }
}

/// The byte ranges of the successive non-overlapping occurrences of a
/// non-empty `q` in `t`, scanning from offset `s`: each search starts where
/// the previous occurrence ends.
pub open spec fn literal_matches_from(t: Seq<u8>, q: Seq<u8>, s: int) -> Seq<(usize, usize)>
    decreases t.len() - s,
{
    if q.len() == 0 {
        Seq::empty()
    } else {
        match find_from(t, q, s) {
            None => Seq::empty(),
            Some(p) => {
                proof {
                    lemma_find_from_bounds(t, q, s);
                }
                seq![(p as usize, (p + q.len()) as usize)] + literal_matches_from(
                    t,
                    q,
                    p + q.len(),
                )
            },
        }
    }
}

/// The byte ranges of the successive non-overlapping occurrences of `q` in `t`
/// (none for an empty `q`).
pub open spec fn literal_matches(t: Seq<u8>, q: Seq<u8>) -> Seq<(usize, usize)> {
    literal_matches_from(t, q, 0)
}

/// No occurrence lies between the start of a search and what it finds (or
/// after the start, when it finds nothing).
proof fn lemma_find_from_first(t: Seq<u8>, q: Seq<u8>, s: int, x: int)
    requires
        0 <= s <= x,
        occurs_at(t, q, x),
    ensures
        find_from(t, q, s) matches Some(p) && p <= x,
    decreases x - s,
{
    if !occurs_at(t, q, s) {
        lemma_find_from_first(t, q, s + 1, x);
    }
}

/// The ranges found from offset `s` are occurrences, in increasing order and
/// without overlap, that start at or after `s`; every occurrence at or after
/// `s` lies inside one of them.
proof fn lemma_literal_matches_from(t: Seq<u8>, q: Seq<u8>, s: int)
    requires
        0 <= s,
        t.len() <= usize::MAX,
    ensures
        ({
            let r = literal_matches_from(t, q, s);
            &&& forall|j: int|
                0 <= j < r.len() ==> s <= (#[trigger] r[j]).0 && occurs_at(t, q, r[j].0 as int)
                    && r[j].1 == r[j].0 + q.len()
            &&& forall|j: int, k: int|
                0 <= j < k < r.len() ==> (#[trigger] r[j]).1 <= (#[trigger] r[k]).0
            &&& q.len() > 0 ==> forall|x: int|
                s <= x && #[trigger] occurs_at(t, q, x) ==> exists|j: int|
                    0 <= j < r.len() && (#[trigger] r[j]).0 <= x < r[j].1
        }),
    decreases t.len() - s,
{
    let r = literal_matches_from(t, q, s);
    if q.len() > 0 {
        lemma_find_from_bounds(t, q, s);
        match find_from(t, q, s) {
            None => {
                assert forall|x: int| s <= x && #[trigger] occurs_at(t, q, x) implies exists|j: int|
                    0 <= j < r.len() && (#[trigger] r[j]).0 <= x < r[j].1 by {
                    lemma_find_from_first(t, q, s, x);
                }
            },
            Some(p) => {
                let e = p + q.len();
                lemma_literal_matches_from(t, q, e);
                let rest = literal_matches_from(t, q, e);
                assert(r == seq![(p as usize, e as usize)] + rest);
                assert forall|j: int| 0 <= j < r.len() implies s <= (#[trigger] r[j]).0 && occurs_at(
                    t,
                    q,
                    r[j].0 as int,
                ) && r[j].1 == r[j].0 + q.len() by {
                    if j > 0 {
                        assert(r[j] == rest[j - 1]);
                    }
                }
                assert forall|j: int, k: int| 0 <= j < k < r.len() implies (#[trigger] r[j]).1 <= (
                #[trigger] r[k]).0 by {
                    assert(r[k] == rest[k - 1]);
                    if j > 0 {
                        assert(r[j] == rest[j - 1]);
                    }
                }
                assert forall|x: int| s <= x && #[trigger] occurs_at(t, q, x) implies exists|j: int|
                    0 <= j < r.len() && (#[trigger] r[j]).0 <= x < r[j].1 by {
                    lemma_find_from_first(t, q, s, x);
                    if x < e {
                        assert(r[0].0 <= x < r[0].1);
                    } else {
                        let j = choose|j: int| 0 <= j < rest.len() && (#[trigger] rest[j]).0 <= x < rest[j].1;
                        assert(r[j + 1] == rest[j]);
                    }
                }
            },
        }
    }
}

/// What a plain search finds: each range is an occurrence of the query, the
/// ranges come in increasing order without overlapping, and every occurrence
/// of a non-empty query lies inside one of them.
pub proof fn lemma_literal_matches(t: Seq<u8>, q: Seq<u8>)
    requires
        t.len() <= usize::MAX,
    ensures
        ({
            let r = literal_matches(t, q);
            &&& forall|j: int|
                0 <= j < r.len() ==> occurs_at(t, q, (#[trigger] r[j]).0 as int) && r[j].1 == r[j].0
                    + q.len()
            &&& forall|j: int, k: int|
                0 <= j < k < r.len() ==> (#[trigger] r[j]).1 <= (#[trigger] r[k]).0
            &&& q.len() > 0 ==> forall|x: int|
                #[trigger] occurs_at(t, q, x) ==> exists|j: int|
                    0 <= j < r.len() && (#[trigger] r[j]).0 <= x < r[j].1
        }),
{
    lemma_literal_matches_from(t, q, 0);
    let r = literal_matches(t, q);
    assert forall|x: int| #[trigger] occurs_at(t, q, x) && q.len() > 0 implies exists|j: int|
        0 <= j < r.len() && (#[trigger] r[j]).0 <= x < r[j].1 by {
        assert(0 <= x);
    }
}

/// Whether `q` occurs in `t` at `p`, for `p + q.len() <= t.len()`.
fn bytes_occur_at(t: &[u8], q: &[u8], p: usize) -> (r: bool)
    requires
        p + q.len() <= t.len(),
    ensures
        r == occurs_at(t@, q@, p as int),
{
    let mut j: usize = 0;
    while j < q.len()
        invariant
            p + q.len() <= t.len(),
            j <= q.len(),
            forall|k: int| 0 <= k < j ==> t@[p + k] == q@[k],
        decreases q.len() - j,
    {
        if t[p + j] != q[j] {
            proof {
                assert(t@.subrange(p as int, p + q@.len())[j as int] != q@[j as int]);
            }
            return false;
        }
        j = j + 1;
    }
    proof {
        assert(t@.subrange(p as int, p + q@.len()) =~= q@);
    }
    true
}

/// The byte ranges of the successive non-overlapping occurrences of `query`
/// in `text`, as a plain (non-regex) search finds them.
pub fn find_literal_matches(text: &str, query: &str) -> (ranges: Vec<(usize, usize)>)
    ensures
        ranges@ == literal_matches(encode_utf8(text@), encode_utf8(query@)),
{
    let t = text.as_bytes();
    let q = query.as_bytes();
    let ghost tb = t@;
    let ghost qb = q@;
    let mut ranges: Vec<(usize, usize)> = Vec::new();
    if q.len() == 0 {
        return ranges;
    }
    let mut i: usize = 0;
    while i <= t.len() && q.len() <= t.len() - i
        invariant
            tb == t@,
            qb == q@,
            q@.len() > 0,
            i <= t@.len(),
            ranges@ + literal_matches_from(tb, qb, i as int) == literal_matches(tb, qb),
        decreases t.len() - i,
    {
        if bytes_occur_at(t, q, i) {
            let end = i + q.len();
            let ghost before = ranges@;
            ranges.push((i, end));
            proof {
                assert(literal_matches_from(tb, qb, i as int) == seq![(i, end)]
                    + literal_matches_from(tb, qb, end as int));
                assert(before.push((i, end)) + literal_matches_from(tb, qb, end as int) =~= before
                    + literal_matches_from(tb, qb, i as int));
            }
            i = end;
        } else {
            proof {
                assert(find_from(tb, qb, i as int) == find_from(tb, qb, i + 1));
            }
            i = i + 1;
        }
    }
    proof {
        assert(find_from(tb, qb, i as int) is None);
        assert(ranges@ + literal_matches_from(tb, qb, i as int) =~= ranges@);
    }
    ranges
}

} // verus!

verus! {

/// Names the error message that `regex::Regex::new` gives for a pattern it
/// refuses (`None` when it accepts the pattern).
pub uninterp spec fn regex_error_message(pattern: Seq<char>) -> Option<Seq<char>>;

/// Names the byte ranges of the matches that a compiled pattern finds in a text.
pub uninterp spec fn regex_match_ranges(pattern: Seq<char>, text: Seq<char>) -> Seq<(usize, usize)>;

/// Calls `regex::Regex::new(pattern)` and gives the `Display` text of its error,
/// or `None` when the pattern compiles.
#[verifier::external_body]
pub(crate) fn regex_error(pattern: &str) -> (message: Option<String>)
    ensures
        message.deep_view() == regex_error_message(pattern@),
{
    match regex::Regex::new(pattern) {
        Ok(_) => None,
        Err(err) => Some(err.to_string()),
    }
}

/// Calls `regex::Regex::new(pattern)` and, when it compiles, `find_iter(text)`,
/// giving each match as `(start, end)` byte offsets. The contract claims that
/// the result is `None` exactly when the pattern does not compile, that it is a
/// function of the pattern and the text, and what the crate documents of
/// `find_iter`: successive non-overlapping matches, each with
/// `start <= end <= text.len()`.
#[verifier::external_body]
fn regex_find_all(pattern: &str, text: &str) -> (ranges: Option<Vec<(usize, usize)>>)
    ensures
        ranges is None <==> regex_error_message(pattern@) is Some,
        ranges matches Some(v) ==> v@ == regex_match_ranges(pattern@, text@),
        ranges matches Some(v) ==> forall|i: int|
            0 <= i < v@.len() ==> #[trigger] v@[i].0 <= v@[i].1 <= encode_utf8(text@).len(),
        ranges matches Some(v) ==> forall|i: int, j: int|
            0 <= i < j < v@.len() ==> #[trigger] v@[i].1 <= #[trigger] v@[j].0,
{
    let re = match regex::Regex::new(pattern) {
        Ok(re) => re,
        Err(_) => return None,
    };
    let mut ranges = Vec::new();
    for m in re.find_iter(text) {
        ranges.push((m.start(), m.end()));
    }
    Some(ranges)
}

/// The byte ranges that a search for `query` in `text` highlights: none for an
/// empty query or a pattern that does not compile, the regex matches in regex
/// mode, and the literal occurrences otherwise.
pub open spec fn search_ranges(use_regex: bool, query: Seq<char>, text: Seq<char>) -> Seq<
    (usize, usize),
> {
    if query.len() == 0 {
        Seq::empty()
    } else if use_regex {
        if regex_error_message(query) is Some {
            Seq::empty()
        } else {
            regex_match_ranges(query, text)
        }
    } else {
        literal_matches(encode_utf8(text), encode_utf8(query))
    }
}

/// The ranges a search finds in one text (see `search_ranges`).
pub fn find_matches(use_regex: bool, query: &str, text: &str) -> (ranges: Vec<(usize, usize)>)
    ensures
        ranges@ == search_ranges(use_regex, query@, text@),
        use_regex ==> forall|i: int|
            0 <= i < ranges@.len() ==> #[trigger] ranges@[i].0 <= ranges@[i].1 <= encode_utf8(
                text@,
            ).len(),
{
    if query.is_empty() {
        Vec::new()
    } else if use_regex {
        match regex_find_all(query, text) {
            Some(v) => v,
            None => Vec::new(),
        }
    } else {
        find_literal_matches(text, query)
    }
}

/// The match that `navigate_match` moves to from match `current` of `count`
/// matches, `direction` steps forward (backward when negative).
pub open spec fn navigated_index(current: int, count: int, direction: int) -> int {
    if direction > 0 {
        (current + direction) % count
    } else {
        (current + count - (-direction) % count) % count
    }
}

/// One tab's line in the results of a search over all tabs.
pub struct TabSearchResult {
    pub tab_index: usize,
    pub title: String,
    pub match_count: usize,
    pub first_line: String,
}

/// The abstract value of a tab's search result.
pub type TabResultView = (usize, Seq<char>, usize, Seq<char>);

impl View for TabSearchResult {
    type V = TabResultView;

    open spec fn view(&self) -> TabResultView {
        (self.tab_index, self.title@, self.match_count, self.first_line@)
    }
}

/// The abstract values of a list of tab search results.
pub open spec fn tab_results_view(rs: Seq<TabSearchResult>) -> Seq<TabResultView> {
    rs.map_values(|r: TabSearchResult| r@)
}

/// State of the find/replace bar: what is shown and the matches found in the
/// active tab.
pub struct SearchState {
    pub visible: bool,
    pub show_replace: bool,
    pub use_regex: bool,
    pub search_all_tabs: bool,
    pub matches: Vec<(usize, usize)>,
    pub current_match: Option<usize>,
    pub tab_results: Vec<TabSearchResult>,
    pub last_error: Option<String>,
}

impl SearchState {
    /// The current match exists whenever one is selected.
    pub open spec fn well_formed(&self) -> bool {
        self.current_match matches Some(i) ==> i < self.matches@.len()
    }

    /// The options and results that the bar keeps apart from the active
    /// tab's matches.
    pub open spec fn same_options(&self, other: &SearchState) -> bool {
        &&& self.visible == other.visible
        &&& self.show_replace == other.show_replace
        &&& self.use_regex == other.use_regex
        &&& self.search_all_tabs == other.search_all_tabs
        &&& tab_results_view(self.tab_results@) == tab_results_view(other.tab_results@)
        &&& self.last_error.deep_view() == other.last_error.deep_view()
    }

    /// A hidden bar with no query results.
    pub fn new() -> (s: Self)
        ensures
            !s.visible,
            !s.show_replace,
            !s.use_regex,
            !s.search_all_tabs,
            s.matches@.len() == 0,
            s.current_match is None,
            s.tab_results@.len() == 0,
            s.last_error is None,
            s.well_formed(),
    {
        SearchState {
            visible: false,
            show_replace: false,
            use_regex: false,
            search_all_tabs: false,
            matches: Vec::new(),
            current_match: None,
            tab_results: Vec::new(),
            last_error: None,
        }
    }

    /// Searches the active tab's text for `query`; the first match, if any,
    /// becomes the current one.
    pub fn run_search(&mut self, text: &str, query: &str)
        ensures
            final(self).matches@ == search_ranges(old(self).use_regex, query@, text@),
            final(self).current_match == (if final(self).matches@.len() == 0 {
                None::<usize>
            } else {
                Some(0usize)
            }),
            final(self).same_options(old(self)),
            final(self).well_formed(),
    {
        let matches = find_matches(self.use_regex, query, text);
        self.current_match = if matches.len() == 0 {
            None
        } else {
            Some(0)
        };
        self.matches = matches;
    }

    /// Moves the current match `direction` steps (wrapping around) and gives
    /// the range to select, or does nothing when there are no matches.
    pub fn navigate_match(&mut self, direction: isize) -> (selected: Option<(usize, usize)>)
        requires
            direction > 0 ==> old(self).current_match.unwrap_or(0) + direction <= usize::MAX,
            direction <= 0 ==> direction > isize::MIN && old(self).current_match.unwrap_or(0)
                + old(self).matches@.len() <= usize::MAX,
        ensures
            old(self).matches@.len() == 0 ==> selected is None && *final(self) == *old(self),
            old(self).matches@.len() > 0 ==> {
                let i = navigated_index(
                    old(self).current_match.unwrap_or(0) as int,
                    old(self).matches@.len() as int,
                    direction as int,
                );
                &&& final(self).current_match == Some(i as usize)
                &&& selected == Some(old(self).matches@[i])
            },
            final(self).matches@ == old(self).matches@,
            final(self).same_options(old(self)),
            old(self).matches@.len() > 0 ==> final(self).well_formed(),
    {
        let match_count = self.matches.len();
        if match_count == 0 {
            return None;
        }
        let current = match self.current_match {
            Some(c) => c,
            None => 0,
        };
        let new_index = if direction > 0 {
            (current + direction as usize) % match_count
        } else {
            (current + match_count - ((-direction) as usize) % match_count) % match_count
        };
        self.current_match = Some(new_index);
        Some(self.matches[new_index])
    }

    /// The range that "replace" rewrites: the current match, if it exists.
    pub fn replace_target(&self) -> (target: Option<(usize, usize)>)
        ensures
            target == (match self.current_match {
                Some(i) => if i < self.matches@.len() {
                    Some(self.matches@[i as int])
                } else {
                    None
                },
                None => None,
            }),
    {
        match self.current_match {
            Some(i) => if i < self.matches.len() {
                Some(self.matches[i])
            } else {
                None
            },
            None => None,
        }
    }

    /// Hands out every match for "replace all" and forgets them; does nothing
    /// when there are none.
    pub fn replace_all(&mut self) -> (targets: Vec<(usize, usize)>)
        ensures
            targets@ == old(self).matches@,
            final(self).matches@.len() == 0,
            final(self).current_match == (if old(self).matches@.len() == 0 {
                old(self).current_match
            } else {
                None
            }),
            final(self).same_options(old(self)),
    {
        if self.matches.len() == 0 {
            return Vec::new();
        }
        let mut targets = Vec::new();
        std::mem::swap(&mut targets, &mut self.matches);
        self.current_match = None;
        targets
    }

    /// Hides the bar and forgets the active tab's matches.
    pub fn close(&mut self)
        ensures
            !final(self).visible,
            final(self).matches@.len() == 0,
            final(self).current_match is None,
            final(self).show_replace == old(self).show_replace,
            final(self).use_regex == old(self).use_regex,
            final(self).search_all_tabs == old(self).search_all_tabs,
            tab_results_view(final(self).tab_results@) == tab_results_view(old(self).tab_results@),
            final(self).last_error.deep_view() == old(self).last_error.deep_view(),
    {
        self.visible = false;
        self.matches = Vec::new();
        self.current_match = None;
    }

    /// What Escape does: when a diff view is shown it is the one to close
    /// (the result is true and the bar is left as it is); else a visible bar
    /// is hidden and its matches forgotten.
    pub fn dismiss(&mut self, diff_shown: bool) -> (close_diff: bool)
        ensures
            close_diff == diff_shown,
            diff_shown || !old(self).visible ==> final(self).visible == old(self).visible
                && final(self).matches@ == old(self).matches@ && final(self).current_match
                == old(self).current_match,
            !diff_shown && old(self).visible ==> !final(self).visible
                && final(self).matches@.len() == 0 && final(self).current_match is None,
            final(self).show_replace == old(self).show_replace,
            final(self).use_regex == old(self).use_regex,
            final(self).search_all_tabs == old(self).search_all_tabs,
    {
        if diff_shown {
            return true;
        }
        if self.visible {
            self.close();
        }
        false
    }

    /// Shows the bar, or hides it (forgetting the matches) when it is shown.
    /// Gives whether the bar is now shown.
    pub fn toggle_find(&mut self) -> (shown: bool)
        ensures
            shown == !old(self).visible,
            final(self).visible == shown,
            old(self).visible ==> final(self).matches@.len() == 0 && final(self).current_match is None,
            !old(self).visible ==> final(self).matches@ == old(self).matches@
                && final(self).current_match == old(self).current_match,
            final(self).show_replace == old(self).show_replace,
            final(self).use_regex == old(self).use_regex,
            final(self).search_all_tabs == old(self).search_all_tabs,
    {
        if self.visible {
            self.close();
            false
        } else {
            self.visible = true;
            true
        }
    }

    /// Shows the bar and shows or hides its replace row.
    pub fn toggle_replace(&mut self)
        ensures
            final(self).visible,
            final(self).show_replace == !old(self).show_replace,
            final(self).use_regex == old(self).use_regex,
            final(self).search_all_tabs == old(self).search_all_tabs,
            final(self).matches@ == old(self).matches@,
            final(self).current_match == old(self).current_match,
    {
        self.visible = true;
        self.show_replace = !self.show_replace;
    }

    /// The counter shown in the find bar: the current match's number
    /// (counting from 1, 0 when none is selected) and the number of matches.
    pub fn match_counter(&self) -> (counter: (usize, usize))
        requires
            self.current_match != Some(usize::MAX),
        ensures
            counter == (
                match self.current_match {
                    Some(i) => (i + 1) as usize,
                    None => 0usize,
                },
                self.matches@.len() as usize,
            ),
    {
        let total = self.matches.len();
        let current = match self.current_match {
            Some(i) => i + 1,
            None => 0,
        };
        (current, total)
    }

    /// Switches between literal and regex search and searches the active
    /// tab's text again.
    pub fn toggle_regex(&mut self, text: &str, query: &str)
        ensures
            final(self).use_regex == !old(self).use_regex,
            final(self).matches@ == search_ranges(!old(self).use_regex, query@, text@),
            final(self).current_match == (if final(self).matches@.len() == 0 {
                None::<usize>
            } else {
                Some(0usize)
            }),
            final(self).visible == old(self).visible,
            final(self).show_replace == old(self).show_replace,
            final(self).search_all_tabs == old(self).search_all_tabs,
    {
        self.use_regex = !self.use_regex;
        self.run_search(text, query);
    }
}

} // verus!

verus! {

/// Moving to the next match and then to the previous one comes back to the
/// match one started from, and so does moving back first and then forward.
pub proof fn lemma_next_then_previous(current: int, count: int)
    requires
        0 <= current < count,
    ensures
        navigated_index(navigated_index(current, count, 1), count, -1) == current,
        navigated_index(navigated_index(current, count, -1), count, 1) == current,
        0 <= navigated_index(current, count, 1) < count,
        0 <= navigated_index(current, count, -1) < count,
{
    let n = count;
    if n == 1 {
        assert(navigated_index(current, n, 1) == 0) by (nonlinear_arith)
            requires
                n == 1,
                current == 0,
        ;
        assert(navigated_index(current, n, -1) == 0) by (nonlinear_arith)
            requires
                n == 1,
                current == 0,
        ;
        assert(navigated_index(0, n, -1) == 0) by (nonlinear_arith)
            requires
                n == 1,
        ;
        assert(navigated_index(0, n, 1) == 0) by (nonlinear_arith)
            requires
                n == 1,
        ;
    } else {
        assert(1int % n == 1) by (nonlinear_arith)
            requires
                n >= 2,
        ;
        let nx = navigated_index(current, n, 1);
        let pv = navigated_index(current, n, -1);
        if current + 1 < n {
            assert((current + 1) % n == current + 1) by (nonlinear_arith)
                requires
                    0 <= current + 1 < n,
            ;
            assert((current + 1 + n - 1) % n == current) by (nonlinear_arith)
                requires
                    0 <= current < n,
            ;
        } else {
            assert((current + 1) % n == 0) by (nonlinear_arith)
                requires
                    current + 1 == n,
                    n >= 2,
            ;
            assert((0 + n - 1) % n == current) by (nonlinear_arith)
                requires
                    current == n - 1,
                    n >= 2,
            ;
        }
        if current >= 1 {
            assert((current + n - 1) % n == current - 1) by (nonlinear_arith)
                requires
                    1 <= current < n,
            ;
            assert((current - 1 + 1) % n == current) by (nonlinear_arith)
                requires
                    1 <= current < n,
            ;
        } else {
            assert((current + n - 1) % n == n - 1) by (nonlinear_arith)
                requires
                    current == 0,
                    n >= 2,
            ;
            assert((n - 1 + 1) % n == 0) by (nonlinear_arith)
                requires
                    n >= 2,
            ;
        }
    }
}

} // verus!
