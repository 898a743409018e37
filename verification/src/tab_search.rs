use vstd::prelude::*;
use vstd::utf8::{decode_utf8, encode_utf8, valid_utf8};

use crate::search::{
    find_matches, regex_error, regex_error_message, search_ranges, tab_results_view, SearchState,
    TabResultView, TabSearchResult,
};
use crate::text::{chars_of, find_newline, lemma_next_newline_bounds, next_newline, string_of_range};

verus! {

broadcast use vstd::string::group_string_axioms;

/// Most characters of a line that a tab's search result shows.
pub const PREVIEW_CHARS: usize = 80;

/// The first `PREVIEW_CHARS` characters of `s`.
pub open spec fn preview(s: Seq<char>) -> Seq<char> {
    if s.len() <= PREVIEW_CHARS {
        s
    } else {
        s.take(PREVIEW_CHARS as int)
    }
}

/// The line of `t` that starts at `s`, as `str::lines` yields it: up to the
/// next `'\n'`, without a `'\r'` that directly precedes that `'\n'`.
pub open spec fn line_at(t: Seq<char>, s: int) -> Seq<char> {
    let e = next_newline(t, s);
    let raw = t.subrange(s, e);
    if e < t.len() && raw.len() > 0 && raw.last() == '\r' {
        raw.drop_last()
    } else {
        raw
    }
}

/// `n` occurs in `h`.
pub open spec fn contains_chars(h: Seq<char>, n: Seq<char>) -> bool {
    exists|p: int| 0 <= p && p + n.len() <= h.len() && #[trigger] h.subrange(p, p + n.len()) == n
}

/// The first line of `t` at or after offset `s` that contains `q`, or the
/// empty line when none does.
pub open spec fn first_line_containing_from(t: Seq<char>, q: Seq<char>, s: int) -> Seq<char>
    decreases t.len() + 1 - s,
{
    if s < 0 || s >= t.len() {
        Seq::empty()
    } else if contains_chars(line_at(t, s), q) {
        line_at(t, s)
    } else {
        proof {
            lemma_next_newline_bounds(t, s);
        }
        first_line_containing_from(t, q, next_newline(t, s) + 1)
    }
}

/// Offset just after the last `'\n'` byte before `pos`, or 0.
pub open spec fn line_start_before(b: Seq<u8>, pos: int) -> int
    decreases pos,
{
    if pos <= 0 {
        0
    } else if b[pos - 1] == 10u8 {
        pos
    } else {
        line_start_before(b, pos - 1)
    }
}

/// Offset of the first `'\n'` byte at or after `s`, or the length of `b`.
pub open spec fn next_newline_byte(b: Seq<u8>, s: int) -> int
    decreases b.len() - s,
{
    if s < 0 || s >= b.len() {
        b.len() as int
    } else if b[s] == 10u8 {
        s
    } else {
        next_newline_byte(b, s + 1)
    }
}

/// The preview of the line of the UTF-8 text `b` that holds byte offset
/// `pos`, or the empty line when those bytes are not valid UTF-8.
pub open spec fn line_preview_at_byte(b: Seq<u8>, pos: int) -> Seq<char> {
    let ls = line_start_before(b, pos);
    let line = b.subrange(ls, next_newline_byte(b, ls));
    if valid_utf8(line) {
        preview(decode_utf8(line))
    } else {
        Seq::empty()
    }
}

/// The result line for one tab, if the search finds anything in it: the
/// tab's index and title, how many matches, and a preview of the line of the
/// first match (regex mode) or of the first line that contains the query.
pub open spec fn tab_result(
    use_regex: bool,
    query: Seq<char>,
    text: Seq<char>,
    title: Seq<char>,
    index: int,
) -> Option<TabResultView> {
    let ranges = search_ranges(use_regex, query, text);
    if ranges.len() == 0 {
        None
    } else {
        Some(
            (
                index as usize,
                title,
                ranges.len() as usize,
                if use_regex {
                    line_preview_at_byte(encode_utf8(text), ranges[0].0 as int)
                } else {
                    preview(first_line_containing_from(text, query, 0))
                },
            ),
        )
    }
}

/// The result lines for the first `n` tabs (each tab is its text and title).
pub open spec fn tab_results_upto(
    use_regex: bool,
    query: Seq<char>,
    tabs: Seq<(Seq<char>, Seq<char>)>,
    n: int,
) -> Seq<TabResultView>
    decreases n,
{
    if n <= 0 {
        Seq::empty()
    } else {
        let prev = tab_results_upto(use_regex, query, tabs, n - 1);
        match tab_result(use_regex, query, tabs[n - 1].0, tabs[n - 1].1, n - 1) {
            Some(r) => prev.push(r),
            None => prev,
        }
    }
}

/// The result lines of a search over all tabs.
pub open spec fn all_tab_results(
    use_regex: bool,
    query: Seq<char>,
    tabs: Seq<(Seq<char>, Seq<char>)>,
) -> Seq<TabResultView> {
    tab_results_upto(use_regex, query, tabs, tabs.len() as int)
}

/// Calls `std::str::from_utf8` and copies the text it accepts.
/// What the results for the first `n` tabs say of the tabs.
proof fn lemma_results_upto(
    use_regex: bool,
    query: Seq<char>,
    tabs: Seq<(Seq<char>, Seq<char>)>,
    n: int,
)
    requires
        0 <= n <= tabs.len(),
        tabs.len() <= usize::MAX,
    ensures
        ({
            let rs = tab_results_upto(use_regex, query, tabs, n);
            &&& forall|k: int|
                0 <= k < rs.len() ==> {
                    let r = #[trigger] rs[k];
                    &&& r.0 < n
                    &&& r.1 == tabs[r.0 as int].1
                    &&& search_ranges(use_regex, query, tabs[r.0 as int].0).len() > 0
                    &&& r.2 == search_ranges(use_regex, query, tabs[r.0 as int].0).len() as usize
                }
            &&& forall|a: int, b: int| 0 <= a < b < rs.len() ==> (#[trigger] rs[a]).0 < (#[trigger] rs[b]).0
            &&& forall|t: int|
                0 <= t < n && search_ranges(use_regex, query, #[trigger] tabs[t].0).len() > 0
                    ==> exists|k: int| 0 <= k < rs.len() && rs[k].0 == t
        }),
    decreases n,
{
    if n > 0 {
        lemma_results_upto(use_regex, query, tabs, n - 1);
        let prev = tab_results_upto(use_regex, query, tabs, n - 1);
        let rs = tab_results_upto(use_regex, query, tabs, n);
        match tab_result(use_regex, query, tabs[n - 1].0, tabs[n - 1].1, n - 1) {
            Some(r) => {
                assert(rs == prev.push(r));
                assert(r.0 == (n - 1) as usize);
                assert forall|k: int| 0 <= k < rs.len() implies {
                    let x = #[trigger] rs[k];
                    &&& x.0 < n
                    &&& x.1 == tabs[x.0 as int].1
                    &&& search_ranges(use_regex, query, tabs[x.0 as int].0).len() > 0
                    &&& x.2 == search_ranges(use_regex, query, tabs[x.0 as int].0).len() as usize
                } by {
                    if k < prev.len() {
                        assert(rs[k] == prev[k]);
                    }
                }
                assert forall|a: int, b: int| 0 <= a < b < rs.len() implies (#[trigger] rs[a]).0 < (
                #[trigger] rs[b]).0 by {
                    assert(rs[a] == prev[a]);
                    if b < prev.len() {
                        assert(rs[b] == prev[b]);
                    }
                }
                assert forall|t: int|
                    0 <= t < n && search_ranges(use_regex, query, #[trigger] tabs[t].0).len() > 0 implies exists|
                    k: int,
                | 0 <= k < rs.len() && rs[k].0 == t by {
                    if t < n - 1 {
                        let k = choose|k: int| 0 <= k < prev.len() && prev[k].0 == t;
                        assert(rs[k] == prev[k]);
                    } else {
                        assert(rs[prev.len() as int].0 == t);
                    }
                }
            },
            None => {
                assert(rs == prev);
            },
        }
    }
}

/// A search over all tabs lists each tab that has matches, once, in tab
/// order, and nothing else: every result names a tab by its index, carries
/// that tab's title and the number of matches the search finds in that tab's
/// text (at least one); results come in increasing tab order; and every tab
/// whose text has a match has a result.
pub proof fn lemma_tab_results(use_regex: bool, query: Seq<char>, tabs: Seq<(Seq<char>, Seq<char>)>)
    requires
        tabs.len() <= usize::MAX,
    ensures
        ({
            let rs = all_tab_results(use_regex, query, tabs);
            &&& forall|k: int|
                0 <= k < rs.len() ==> {
                    let r = #[trigger] rs[k];
                    &&& r.0 < tabs.len()
                    &&& r.1 == tabs[r.0 as int].1
                    &&& search_ranges(use_regex, query, tabs[r.0 as int].0).len() > 0
                    &&& r.2 == search_ranges(use_regex, query, tabs[r.0 as int].0).len() as usize
                }
            &&& forall|a: int, b: int| 0 <= a < b < rs.len() ==> (#[trigger] rs[a]).0 < (#[trigger] rs[b]).0
            &&& forall|t: int|
                0 <= t < tabs.len() && search_ranges(use_regex, query, #[trigger] tabs[t].0).len() > 0
                    ==> exists|k: int| 0 <= k < rs.len() && rs[k].0 == t
        }),
{
    lemma_results_upto(use_regex, query, tabs, tabs.len() as int);
}

#[verifier::external_body]
fn utf8_to_string(bytes: &[u8]) -> (s: Option<String>)
    ensures
        s is Some <==> valid_utf8(bytes@),
        s matches Some(v) ==> v@ == decode_utf8(bytes@),
{
    match std::str::from_utf8(bytes) {
        Ok(v) => Some(v.to_string()),
        Err(_) => None,
    }
}

/// The preview string of the characters `cs[start..end]`.
fn preview_of_range(cs: &Vec<char>, start: usize, end: usize) -> (r: String)
    requires
        start <= end <= cs@.len(),
    ensures
        r@ == preview(cs@.subrange(start as int, end as int)),
{
    let stop = if end - start <= PREVIEW_CHARS {
        end
    } else {
        start + PREVIEW_CHARS
    };
    let r = string_of_range(cs, start, stop);
    proof {
        if end - start > PREVIEW_CHARS {
            assert(cs@.subrange(start as int, end as int).take(PREVIEW_CHARS as int)
                =~= cs@.subrange(start as int, stop as int));
        }
    }
    r
}

/// Whether `q` occurs in `t[s..e]`.
pub(crate) fn range_contains(t: &Vec<char>, s: usize, e: usize, q: &Vec<char>) -> (r: bool)
    requires
        s <= e <= t@.len(),
    ensures
        r == contains_chars(t@.subrange(s as int, e as int), q@),
{
    let ghost h = t@.subrange(s as int, e as int);
    let n = q.len();
    if n > e - s {
        proof {
            assert forall|p: int| 0 <= p && p + n <= h.len() implies #[trigger] h.subrange(
                p,
                p + n,
            ) != q@ by {}
        }
        return false;
    }
    let mut p: usize = s;
    while p <= e - n
        invariant
            s <= p <= e - n + 1,
            n == q@.len(),
            n <= e - s,
            e <= t@.len(),
            h == t@.subrange(s as int, e as int),
            forall|p2: int| 0 <= p2 < p - s ==> #[trigger] h.subrange(p2, p2 + n) != q@,
        decreases e - n + 1 - p,
    {
        let mut j: usize = 0;
        let mut same = true;
        while j < n && same
            invariant
                s <= p <= e - n,
                n == q@.len(),
                e <= t@.len(),
                j <= n,
                same ==> forall|k: int| 0 <= k < j ==> t@[p + k] == q@[k],
                !same ==> t@[p + j - 1] != q@[j - 1] && j >= 1,
            decreases n - j,
        {
            if t[p + j] != q[j] {
                same = false;
            }
            j = j + 1;
        }
        if same {
            proof {
                assert(h.subrange(p - s, p - s + n) =~= q@);
            }
            return true;
        }
        proof {
            assert(h.subrange(p - s, p - s + n)[j - 1] != q@[j - 1]);
        }
        p = p + 1;
    }
    false
}

/// The first line of the text `t` that contains `q`, shortened to its preview.
fn literal_first_line(t: &Vec<char>, q: &Vec<char>) -> (r: String)
    ensures
        r@ == preview(first_line_containing_from(t@, q@, 0)),
{
    let mut s: usize = 0;
    while s < t.len()
        invariant
            s <= t@.len(),
            first_line_containing_from(t@, q@, 0) == first_line_containing_from(t@, q@, s as int),
        decreases t.len() - s,
    {
        let e = find_newline(t, s);
        let end = if e < t.len() && e > s && t[e - 1] == '\r' {
            e - 1
        } else {
            e
        };
        proof {
            assert(line_at(t@, s as int) =~= t@.subrange(s as int, end as int));
        }
        if range_contains(t, s, end, q) {
            return preview_of_range(t, s, end);
        }
        if e >= t.len() {
            proof {
                assert(first_line_containing_from(t@, q@, s as int) == first_line_containing_from(
                    t@,
                    q@,
                    e + 1,
                ));
                assert(preview(Seq::<char>::empty()) =~= Seq::<char>::empty());
            }
            return String::new();
        }
        s = e + 1;
    }
    String::new()
}

/// The preview of the line of `text` holding byte offset `pos`.
fn line_preview_at(text: &str, pos: usize) -> (r: String)
    requires
        pos <= encode_utf8(text@).len(),
    ensures
        r@ == line_preview_at_byte(encode_utf8(text@), pos as int),
{
    let b = text.as_bytes();
    let ghost bs = b@;
    let mut ls = pos;
    while ls > 0 && b[ls - 1] != 10u8
        invariant
            bs == b@,
            ls <= pos <= b@.len(),
            line_start_before(bs, pos as int) == line_start_before(bs, ls as int),
        decreases ls,
    {
        ls = ls - 1;
    }
    let mut le = ls;
    while le < b.len() && b[le] != 10u8
        invariant
            bs == b@,
            ls <= le <= b@.len(),
            next_newline_byte(bs, ls as int) == next_newline_byte(bs, le as int),
        decreases b.len() - le,
    {
        le = le + 1;
    }
    let line = &b[ls..le];
    match utf8_to_string(line) {
        Some(s) => {
            let cs = chars_of(s.as_str());
            preview_of_range(&cs, 0, cs.len())
        },
        None => String::new(),
    }
}

impl SearchState {
    /// Searches every tab (its text and title) for `query` and lists the tabs
    /// with matches. An empty query clears the list; a regex that does not
    /// compile leaves the list as it was and records the error.
    pub fn run_multi_tab_search(&mut self, tabs: &Vec<(String, String)>, query: &str)
        ensures
            query@.len() == 0 ==> final(self).tab_results@.len() == 0
                && final(self).last_error.deep_view() == old(self).last_error.deep_view(),
            query@.len() > 0 && old(self).use_regex && regex_error_message(query@) is Some
                ==> tab_results_view(final(self).tab_results@) == tab_results_view(
                old(self).tab_results@,
            ) && final(self).last_error.deep_view() == Some(
                "Invalid regex: "@ + regex_error_message(query@)->0,
            ),
            query@.len() > 0 && !(old(self).use_regex && regex_error_message(query@) is Some)
                ==> tab_results_view(final(self).tab_results@) == all_tab_results(
                old(self).use_regex,
                query@,
                tabs.deep_view(),
            ) && final(self).last_error.deep_view() == old(self).last_error.deep_view(),
            final(self).visible == old(self).visible,
            final(self).show_replace == old(self).show_replace,
            final(self).use_regex == old(self).use_regex,
            final(self).search_all_tabs == old(self).search_all_tabs,
            final(self).matches@ == old(self).matches@,
            final(self).current_match == old(self).current_match,
    {
        if query.is_empty() {
            self.tab_results = Vec::new();
            return;
        }
        if self.use_regex {
            if let Some(message) = regex_error(query) {
                let mut error = "Invalid regex: ".to_string();
                error.append(message.as_str());
                self.last_error = Some(error);
                return;
            }
        }
        let ghost tv = tabs.deep_view();
        let query_chars = chars_of(query);
        let mut results: Vec<TabSearchResult> = Vec::new();
        let mut i: usize = 0;
        while i < tabs.len()
            invariant
                tv == tabs.deep_view(),
                query@.len() > 0,
                query_chars@ == query@,
                self.use_regex ==> regex_error_message(query@) is None,
                i <= tabs@.len(),
                tab_results_view(results@) == tab_results_upto(self.use_regex, query@, tv, i as int),
            decreases tabs.len() - i,
        {
            let text = tabs[i].0.as_str();
            let ranges = find_matches(self.use_regex, query, text);
            if ranges.len() > 0 {
                let first_line = if self.use_regex {
                    line_preview_at(text, ranges[0].0)
                } else {
                    let text_chars = chars_of(text);
                    literal_first_line(&text_chars, &query_chars)
                };
                let ghost before = results@;
                results.push(
                    TabSearchResult {
                        tab_index: i,
                        title: tabs[i].1.clone(),
                        match_count: ranges.len(),
                        first_line,
                    },
                );
                proof {
                    assert(tab_results_view(results@) =~= tab_results_view(before).push(
                        results@.last()@,
                    ));
                }
            }
            i = i + 1;
        }
        self.tab_results = results;
    }

    /// Switches the search over all tabs on (showing the bar and searching
    /// every tab) or off (clearing its results).
    pub fn toggle_search_all_tabs(&mut self, tabs: &Vec<(String, String)>, query: &str)
        ensures
            final(self).search_all_tabs == !old(self).search_all_tabs,
            final(self).search_all_tabs ==> final(self).visible,
            !final(self).search_all_tabs ==> final(self).tab_results@.len() == 0
                && final(self).visible == old(self).visible,
            final(self).use_regex == old(self).use_regex,
            final(self).matches@ == old(self).matches@,
            final(self).current_match == old(self).current_match,
    {
        self.search_all_tabs = !self.search_all_tabs;
        if self.search_all_tabs {
            self.visible = true;
            self.run_multi_tab_search(tabs, query);
        } else {
            self.tab_results = Vec::new();
        }
    }
}

} // verus!
