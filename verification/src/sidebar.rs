use vstd::prelude::*;
use crate::commands::{lowercase, to_lowercase};
use crate::tabs::{icon_for_extension, icon_path_for_extension, Tab, TabList};
use crate::text::{push_char, same_text};

verus! {

/// A row of the tab sidebar.
pub enum SidebarRow {
    /// The line between the pinned tabs and the others.
    Divider,
    /// The name of a group, above the first tab of a run of tabs in it.
    GroupHeader(String),
    /// The tab at this index.
    Tab(usize),
}

/// The abstract value of a sidebar row.
pub enum SidebarRowView {
    Divider,
    GroupHeader(Seq<char>),
    Tab(usize),
}

impl View for SidebarRow {
    type V = SidebarRowView;

    open spec fn view(&self) -> SidebarRowView {
        match self {
            SidebarRow::Divider => SidebarRowView::Divider,
            SidebarRow::GroupHeader(g) => SidebarRowView::GroupHeader(g@),
            SidebarRow::Tab(i) => SidebarRowView::Tab(*i),
        }
    }
}

/// The rows drawn for the tab at `i`: a divider when it is the first
/// unpinned tab after a pinned one, its group's name when its group differs
/// from the previous tab's, then the tab itself.
pub open spec fn rows_of_tab<E>(tabs: Seq<Tab<E>>, i: int) -> Seq<SidebarRowView> {
    let divider = if i > 0 && tabs[i - 1].pinned && !tabs[i].pinned {
        seq![SidebarRowView::Divider]
    } else {
        Seq::empty()
    };
    let header = match tabs[i].group {
        Some(g) => if i == 0 || tabs[i - 1].group.deep_view() != Some(g@) {
            seq![SidebarRowView::GroupHeader(g@)]
        } else {
            Seq::empty()
        },
        None => Seq::empty(),
    };
    divider + header + seq![SidebarRowView::Tab(i as usize)]
}

/// The sidebar rows of the first `n` tabs.
pub open spec fn rows_upto<E>(tabs: Seq<Tab<E>>, n: int) -> Seq<SidebarRowView>
    decreases n,
{
    if n <= 0 {
        Seq::empty()
    } else {
        rows_upto(tabs, n - 1) + rows_of_tab(tabs, n - 1)
    }
}

/// The abstract rows of a list of rows.
pub open spec fn rows_view(rows: Seq<SidebarRow>) -> Seq<SidebarRowView> {
    rows.map_values(|r: SidebarRow| r@)
}

/// Whether two optional group names are the same.
fn same_group(a: &Option<String>, b: &Option<String>) -> (r: bool)
    ensures
        r == (a.deep_view() == b.deep_view()),
{
    match (a, b) {
        (Some(x), Some(y)) => same_text(x.as_str(), y.as_str()),
        (None, None) => true,
        _ => false,
    }
}

/// The rows of the tab sidebar, and the index of the active tab's row (the
/// row to scroll to; 0 when the active index is past the end).
pub fn sidebar_rows<E>(list: &TabList<E>) -> (result: (Vec<SidebarRow>, usize))
    ensures
        rows_view(result.0@) == rows_upto(list.tabs@, list.tabs@.len() as int),
        list.active < list.tabs@.len() ==> result.1 + 1 == rows_upto(
            list.tabs@,
            list.active + 1,
        ).len() && result.0@[result.1 as int]@ == SidebarRowView::Tab(list.active),
        list.active >= list.tabs@.len() ==> result.1 == 0,
{
    let ghost tabs = list.tabs@;
    let mut rows: Vec<SidebarRow> = Vec::new();
    let mut active_row: usize = 0;
    let mut i: usize = 0;
    while i < list.tabs.len()
        invariant
            tabs == list.tabs@,
            i <= tabs.len(),
            rows_view(rows@) == rows_upto(tabs, i as int),
            rows@.len() <= 3 * i,
            list.active < i ==> active_row < rows@.len() && active_row + 1 == rows_upto(
                tabs,
                list.active + 1,
            ).len() && rows@[active_row as int]@ == SidebarRowView::Tab(list.active),
            list.active >= i ==> active_row == 0,
        decreases list.tabs.len() - i,
    {
        let ghost before = rows_view(rows@);
        let tab = &list.tabs[i];
        if i > 0 && list.tabs[i - 1].pinned && !tab.pinned {
            rows.push(SidebarRow::Divider);
        }
        if let Some(g) = &tab.group {
            if i == 0 || !same_group(&list.tabs[i - 1].group, &tab.group) {
                rows.push(SidebarRow::GroupHeader(g.clone()));
            }
        }
        rows.push(SidebarRow::Tab(i));
        if i == list.active {
            active_row = rows.len() - 1;
        }
        proof {
            assert(rows_view(rows@) =~= before + rows_of_tab(tabs, i as int));
            assert(rows_view(rows@).len() == rows@.len());
            assert(rows_upto(tabs, i + 1) == rows_upto(tabs, i as int) + rows_of_tab(tabs, i as int));
        }
        i = i + 1;
    }
    (rows, active_row)
}

/// Names the extension that `std::path::Path::extension` finds in a path.
pub uninterp spec fn path_extension(path: Seq<char>) -> Option<Seq<char>>;

/// Calls `Path::new(path).extension()` and copies the extension it finds.
#[verifier::external_body]
fn extension_of(path: &str) -> (ext: Option<String>)
    ensures
        ext.deep_view() == path_extension(path@),
{
    std::path::Path::new(path).extension().map(|e| e.to_string_lossy().into_owned())
}

/// The icon of a tab showing the file at `path`: by its lower-cased
/// extension, the plain file icon when it has none.
pub open spec fn tab_icon_spec(path: Option<Seq<char>>) -> Seq<char> {
    icon_for_extension(
        match path {
            Some(p) => match path_extension(p) {
                Some(e) => Some(lowercase(e)),
                None => None,
            },
            None => None,
        },
    )
}

/// The icon drawn for a tab showing the file at `path`.
pub fn tab_icon(path: &Option<String>) -> (icon: &'static str)
    ensures
        icon@ == tab_icon_spec(path.deep_view()),
{
    match path {
        Some(p) => match extension_of(p.as_str()) {
            Some(e) => {
                let lower = to_lowercase(e.as_str());
                icon_path_for_extension(Some(lower.as_str()))
            },
            None => icon_path_for_extension(None),
        },
        None => icon_path_for_extension(None),
    }
}


/// The decimal digit `d` (for `d < 10`).
pub open spec fn digit_char(d: nat) -> char {
    ((48 + d) as u32) as char
}

/// The decimal writing of `n`.
pub open spec fn decimal(n: nat) -> Seq<char>
    decreases n,
{
    if n < 10 {
        seq![digit_char(n)]
    } else {
        decimal(n / 10).push(digit_char(n % 10))
    }
}

/// Appends the decimal writing of `n` to `out`.
pub(crate) fn push_decimal(out: &mut String, n: usize)
    ensures
        final(out)@ == old(out)@ + decimal(n as nat),
    decreases n,
{
    if n >= 10 {
        push_decimal(out, n / 10);
    }
    let d = (n % 10) as u8;
    let c = (48u8 + d) as char;
    proof {
        assert(c == digit_char((n % 10) as nat));
    }
    push_char(out, c);
    proof {
        assert(out@ =~= old(out)@ + decimal(n as nat));
    }
}

/// Appends the characters of `t` to `out`.
pub(crate) fn push_str_chars(out: &mut String, t: &str)
    ensures
        final(out)@ == old(out)@ + t@,
{
    let cs = crate::text::chars_of(t);
    let mut i: usize = 0;
    while i < cs.len()
        invariant
            i <= cs@.len(),
            cs@ == t@,
            out@ == old(out)@ + cs@.take(i as int),
        decreases cs.len() - i,
    {
        push_char(out, cs[i]);
        proof {
            assert(cs@.take(i + 1) =~= cs@.take(i as int).push(cs@[i as int]));
        }
        i = i + 1;
    }
    proof {
        assert(cs@.take(cs@.len() as int) =~= cs@);
    }
}

/// The position shown in the status bar: `Tab <active + 1> of <count>`.
pub open spec fn tab_position_text(active: nat, count: nat) -> Seq<char> {
    "Tab "@ + decimal(active + 1) + " of "@ + decimal(count)
}

/// The tab shown as active: the active index, or the last tab when the
/// index lies past the end.
pub open spec fn shown_active(active: nat, count: nat) -> nat {
    if active >= count && count > 0 {
        (count - 1) as nat
    } else {
        active
    }
}

/// The status bar of the tab shown as active (see `shown_active`): its
/// title, its encoding's label and its position among the tabs.
pub fn status_bar_text<E>(list: &TabList<E>) -> (status: (String, String, String))
    requires
        list.tabs@.len() > 0,
    ensures
        ({
            let a = shown_active(list.active as nat, list.tabs@.len());
            &&& status.0@ == list.tabs@[a as int].title@
            &&& status.1@ == list.tabs@[a as int].encoding@
            &&& status.2@ == tab_position_text(a, list.tabs@.len())
        }),
{
    let count = list.tabs.len();
    let active = if list.active >= count {
        count - 1
    } else {
        list.active
    };
    let tab = &list.tabs[active];
    let mut position = String::new();
    push_str_chars(&mut position, "Tab ");
    push_decimal(&mut position, active + 1);
    push_str_chars(&mut position, " of ");
    push_decimal(&mut position, count);
    (tab.title.clone(), tab.encoding.clone(), position)
}

/// Where the sidebar scrolls when it is drawn: to the active tab's row when
/// the active tab changed since the last drawing, else nowhere.
pub fn scroll_target(active_row: usize, active: usize, last_scrolled_active: usize) -> (target: Option<
    usize,
>)
    ensures
        target == if active != last_scrolled_active {
            Some(active_row)
        } else {
            None::<usize>
        },
{
    if active != last_scrolled_active {
        Some(active_row)
    } else {
        None
    }
}

} // verus!
