use vstd::prelude::*;

use crate::encoding::{encoding_for_label, encoding_from_label, supported_encoding, supported_label, SUPPORTED_ENCODING_COUNT};
use crate::ipc::has_prefix;
use crate::names::{action_display_name, editor_namespace};
use crate::tab_search::contains_chars;
use crate::text::{chars_of, sort_by_text_key, sorted_by_key};

verus! {

broadcast use vstd::string::group_string_axioms;

/// The pickers that the command center can open in place of its command list.
#[derive(Clone, Copy, PartialEq, Eq, Structural, Debug)]
pub enum CommandSubmenu {
    SwitchBuffer,
    ChangeEncoding,
    ChangeFileType,
    RecentFiles,
}

/// A line of the command center: an action to run, or a picker to open.
pub struct CommandEntry {
    pub action_name: String,
    pub display_name: String,
    pub submenu_kind: Option<CommandSubmenu>,
}

/// The abstract value of a command center line.
pub type CommandEntryView = (Seq<char>, Seq<char>, Option<CommandSubmenu>);

impl View for CommandEntry {
    type V = CommandEntryView;

    open spec fn view(&self) -> CommandEntryView {
        (self.action_name@, self.display_name@, self.submenu_kind)
    }
}

/// Number of languages the file-type picker offers.
pub const GRAMMAR_COUNT: usize = 15;

/// The grammar identifier of the `index`-th entry of the file-type picker.
pub fn grammar_name(index: usize) -> (name: Option<&'static str>)
    ensures
        name is Some <==> index < GRAMMAR_COUNT,
        name matches Some(n) ==> n@ == grammar_label(index as int),
{
    match index {
        0 => Some("bash"),
        1 => Some("c"),
        2 => Some("cpp"),
        3 => Some("css"),
        4 => Some("diff"),
        5 => Some("go"),
        6 => Some("json"),
        7 => Some("jsonc"),
        8 => Some("markdown"),
        9 => Some("python"),
        10 => Some("regex"),
        11 => Some("rust"),
        12 => Some("tsx"),
        13 => Some("typescript"),
        14 => Some("yaml"),
        _ => None,
    }
}

/// The display name of the `index`-th file type of the picker.
pub open spec fn grammar_display_label(index: int) -> Seq<char> {
    if index == 0 {
        "Bash"@
    } else if index == 1 {
        "C"@
    } else if index == 2 {
        "C++"@
    } else if index == 3 {
        "CSS"@
    } else if index == 4 {
        "Diff"@
    } else if index == 5 {
        "Go"@
    } else if index == 6 {
        "JSON"@
    } else if index == 7 {
        "JSONC"@
    } else if index == 8 {
        "Markdown"@
    } else if index == 9 {
        "Python"@
    } else if index == 10 {
        "Regex"@
    } else if index == 11 {
        "Rust"@
    } else if index == 12 {
        "TSX"@
    } else if index == 13 {
        "TypeScript"@
    } else {
        "YAML"@
    }
}

/// The name shown for the `index`-th entry of the file-type picker.
pub fn grammar_display_name(index: usize) -> (name: Option<&'static str>)
    ensures
        name is Some <==> index < GRAMMAR_COUNT,
        name matches Some(n) ==> n@ == grammar_display_label(index as int),
{
    match index {
        0 => Some("Bash"),
        1 => Some("C"),
        2 => Some("C++"),
        3 => Some("CSS"),
        4 => Some("Diff"),
        5 => Some("Go"),
        6 => Some("JSON"),
        7 => Some("JSONC"),
        8 => Some("Markdown"),
        9 => Some("Python"),
        10 => Some("Regex"),
        11 => Some("Rust"),
        12 => Some("TSX"),
        13 => Some("TypeScript"),
        14 => Some("YAML"),
        _ => None,
    }
}

/// The display names of the four picker lines of the command center.
pub open spec fn submenu_line_name(kind: CommandSubmenu) -> Seq<char> {
    match kind {
        CommandSubmenu::SwitchBuffer => "switch-buffer"@,
        CommandSubmenu::ChangeEncoding => "switch-encoding"@,
        CommandSubmenu::ChangeFileType => "change-file-type"@,
        CommandSubmenu::RecentFiles => "recent-files"@,
    }
}

/// Some line of `cs` opens the picker `kind`.
pub open spec fn has_submenu_line(cs: Seq<CommandEntry>, kind: CommandSubmenu) -> bool {
    exists|i: int| 0 <= i < cs.len() && (#[trigger] cs[i]).submenu_kind == Some(kind)
}

/// The command center line that opens a picker.
fn submenu_entry(kind: CommandSubmenu) -> (entry: CommandEntry)
    ensures
        entry@ == (Seq::<char>::empty(), submenu_line_name(kind), Some(kind)),
{
    let display = match kind {
        CommandSubmenu::SwitchBuffer => "switch-buffer".to_string(),
        CommandSubmenu::ChangeEncoding => "switch-encoding".to_string(),
        CommandSubmenu::ChangeFileType => "change-file-type".to_string(),
        CommandSubmenu::RecentFiles => "recent-files".to_string(),
    };
    CommandEntry { action_name: String::new(), display_name: display, submenu_kind: Some(kind) }
}

/// What holds of each line of the command center: a picker line shows the
/// picker's name and runs no action; an action line runs a registered
/// `lite_editor::` action and shows its display name.
pub open spec fn entry_ok(e: CommandEntry, action_names: Seq<String>) -> bool {
    match e.submenu_kind {
        Some(kind) => e.display_name@ == submenu_line_name(kind) && e.action_name@.len() == 0,
        None => has_prefix(e.action_name@, editor_namespace()) && e.display_name@
            == action_display_name(e.action_name@) && exists|j: int|
            0 <= j < action_names.len() && action_names[j]@ == e.action_name@,
    }
}

/// A line keyed by its display name is a good line.
pub open spec fn line_ok(p: (String, CommandEntry), action_names: Seq<String>) -> bool {
    p.0@ == p.1.display_name@ && entry_ok(p.1, action_names)
}

/// Sorting keeps every line good, and good keyed lines sorted by key give
/// entries sorted by display name.
proof fn lemma_sorted_lines(
    unsorted: Seq<(String, CommandEntry)>,
    sorted: Seq<(String, CommandEntry)>,
    names: Seq<String>,
)
    requires
        unsorted.to_multiset() == sorted.to_multiset(),
        forall|k: int| 0 <= k < unsorted.len() ==> #[trigger] line_ok(unsorted[k], names),
        crate::text::sorted_by_key(sorted),
    ensures
        forall|k: int| 0 <= k < sorted.len() ==> #[trigger] line_ok(sorted[k], names),
        forall|i: int, j: int|
            0 <= i < j < sorted.len() ==> !crate::text::text_less_spec(
                sorted[j].1.display_name@,
                sorted[i].1.display_name@,
            ),
        forall|k: int| 0 <= k < unsorted.len() ==> sorted.contains(#[trigger] unsorted[k]),
{
    lemma_same_items(sorted, unsorted);
    lemma_same_items(unsorted, sorted);
    assert forall|k: int| 0 <= k < sorted.len() implies #[trigger] line_ok(sorted[k], names) by {
        let a = choose|a: int| 0 <= a < unsorted.len() && unsorted[a] == sorted[k];
        assert(line_ok(unsorted[a], names));
    }
    assert forall|i: int, j: int| 0 <= i < j < sorted.len() implies !crate::text::text_less_spec(
        sorted[j].1.display_name@,
        sorted[i].1.display_name@,
    ) by {
        assert(line_ok(sorted[i], names));
        assert(line_ok(sorted[j], names));
    }
}

/// The lines for the listed actions, keyed by display name.
fn action_lines(listing: &Vec<(String, String)>, action_names: &Vec<String>) -> (keyed: Vec<
    (String, CommandEntry),
>)
    requires
        forall|i: int|
            0 <= i < listing@.len() ==> has_prefix(#[trigger] listing@[i].1@, editor_namespace())
                && listing@[i].0@ == action_display_name(listing@[i].1@) && exists|j: int|
                0 <= j < action_names@.len() && action_names@[j]@ == listing@[i].1@,
    ensures
        keyed@.len() == listing@.len(),
        forall|k: int| 0 <= k < keyed@.len() ==> #[trigger] line_ok(keyed@[k], action_names@),
        forall|k: int|
            0 <= k < keyed@.len() ==> (#[trigger] keyed@[k]).1.submenu_kind is None
                && keyed@[k].1.action_name@ == listing@[k].1@,
{
    let mut keyed: Vec<(String, CommandEntry)> = Vec::new();
    let mut i: usize = 0;
    while i < listing.len()
        invariant
            i <= listing@.len(),
            keyed@.len() == i,
            forall|i: int|
                0 <= i < listing@.len() ==> has_prefix(#[trigger] listing@[i].1@, editor_namespace())
                    && listing@[i].0@ == action_display_name(listing@[i].1@) && exists|j: int|
                    0 <= j < action_names@.len() && action_names@[j]@ == listing@[i].1@,
            forall|k: int| 0 <= k < i ==> #[trigger] line_ok(keyed@[k], action_names@),
            forall|k: int|
                0 <= k < i ==> (#[trigger] keyed@[k]).1.submenu_kind is None
                    && keyed@[k].1.action_name@ == listing@[k].1@,
        decreases listing.len() - i,
    {
        let entry = CommandEntry {
            action_name: listing[i].1.clone(),
            display_name: listing[i].0.clone(),
            submenu_kind: None,
        };
        let ghost before = keyed@;
        keyed.push((listing[i].0.clone(), entry));
        proof {
            assert(has_prefix(listing@[i as int].1@, editor_namespace()));
            assert(line_ok(keyed@[i as int], action_names@));
            assert forall|k: int| 0 <= k < i + 1 implies #[trigger] line_ok(keyed@[k], action_names@) by {
                if k < i {
                    assert(keyed@[k] == before[k]);
                }
            }
        }
        i = i + 1;
    }
    keyed
}

/// Appends the line that opens the picker `kind`.
fn push_picker_line(keyed: &mut Vec<(String, CommandEntry)>, kind: CommandSubmenu, names: Ghost<Seq<String>>)
    ensures
        final(keyed)@.len() == old(keyed)@.len() + 1,
        forall|k: int| 0 <= k < old(keyed)@.len() ==> final(keyed)@[k] == old(keyed)@[k],
        line_ok(final(keyed)@[old(keyed)@.len() as int], names@),
        final(keyed)@[old(keyed)@.len() as int].1.submenu_kind == Some(kind),
{
    let entry = submenu_entry(kind);
    let key = entry.display_name.clone();
    keyed.push((key, entry));
}

/// The entries of keyed lines, in order.
fn entries_of(keyed: Vec<(String, CommandEntry)>) -> (entries: Vec<CommandEntry>)
    ensures
        entries@.len() == keyed@.len(),
        forall|m: int| 0 <= m < keyed@.len() ==> entries@[m] == #[trigger] keyed@[m].1,
{
    let ghost all = keyed@;
    let total = keyed.len();
    let mut rest = keyed;
    let mut entries: Vec<CommandEntry> = Vec::new();
    let mut t: usize = 0;
    while rest.len() > 0
        invariant
            total == all.len(),
            t + rest@.len() == all.len(),
            rest@ == all.skip(t as int),
            entries@.len() == t,
            forall|m: int| 0 <= m < t ==> entries@[m] == #[trigger] all[m].1,
        decreases rest.len(),
    {
        let (_key, entry) = rest.remove(0);
        proof {
            assert(all.skip(t as int)[0] == all[t as int]);
            assert(rest@ =~= all.skip(t + 1));
        }
        entries.push(entry);
        t = t + 1;
    }
    entries
}

/// The same items occur in two sequences with equal multisets.
proof fn lemma_same_items<A>(a: Seq<A>, b: Seq<A>)
    requires
        a.to_multiset() == b.to_multiset(),
    ensures
        forall|i: int| 0 <= i < a.len() ==> b.contains(#[trigger] a[i]),
{
    broadcast use vstd::seq_lib::group_to_multiset_ensures;

    assert forall|i: int| 0 <= i < a.len() implies b.contains(#[trigger] a[i]) by {
        assert(a.contains(a[i]));
        assert(a.to_multiset().count(a[i]) > 0);
    }
}

/// The command center's lines: one for each `lite_editor::` action and one
/// for each picker, sorted by display name.
pub fn collect_commands(action_names: &Vec<String>) -> (commands: Vec<CommandEntry>)
    ensures
        forall|i: int, j: int|
            0 <= i < j < commands@.len() ==> !crate::text::text_less_spec(
                commands@[j].display_name@,
                commands@[i].display_name@,
            ),
        forall|i: int| 0 <= i < commands@.len() ==> #[trigger] entry_ok(commands@[i], action_names@),
        forall|kind: CommandSubmenu| #[trigger] has_submenu_line(commands@, kind),
        forall|j: int|
            0 <= j < action_names@.len() && has_prefix(#[trigger] action_names@[j]@, editor_namespace())
                ==> exists|i: int|
                0 <= i < commands@.len() && commands@[i].submenu_kind is None
                    && commands@[i].action_name@ == action_names@[j]@,
        commands@.len() == crate::names::listed_count(
            action_names.deep_view(),
            action_names@.len() as int,
        ) + 4,
        crate::names::distinct_names(action_names@) ==> forall|i: int, j: int|
            0 <= i < j < commands@.len() ==> (commands@[i].submenu_kind, commands@[i].action_name@)
                != (commands@[j].submenu_kind, commands@[j].action_name@),
{
    let listing = crate::names::command_listing(action_names);
    let mut keyed = action_lines(&listing, action_names);
    let ghost n = keyed@.len();
    let ghost names = action_names@;
    push_picker_line(&mut keyed, CommandSubmenu::SwitchBuffer, Ghost(names));
    push_picker_line(&mut keyed, CommandSubmenu::ChangeEncoding, Ghost(names));
    push_picker_line(&mut keyed, CommandSubmenu::ChangeFileType, Ghost(names));
    push_picker_line(&mut keyed, CommandSubmenu::RecentFiles, Ghost(names));
    let ghost unsorted = keyed@;
    proof {
        assert forall|k: int| 0 <= k < unsorted.len() implies #[trigger] line_ok(unsorted[k], names) by {
            if k < n {
                assert(line_ok(unsorted[k], names));
            }
        }
    }
    let sorted = sort_by_text_key(keyed);
    let ghost sorted_view = sorted@;
    let commands = entries_of(sorted);
    proof {
        lemma_sorted_lines(unsorted, sorted_view, names);
        assert forall|i: int| 0 <= i < commands@.len() implies #[trigger] entry_ok(commands@[i], names) by {
            assert(commands@[i] == sorted_view[i].1);
            assert(line_ok(sorted_view[i], names));
        }
        assert forall|kind: CommandSubmenu| #[trigger] has_submenu_line(commands@, kind) by {
            let m: int = match kind {
                CommandSubmenu::SwitchBuffer => 0,
                CommandSubmenu::ChangeEncoding => 1,
                CommandSubmenu::ChangeFileType => 2,
                CommandSubmenu::RecentFiles => 3,
            };
            assert(unsorted[n + m].1.submenu_kind == Some(kind));
            assert(sorted_view.contains(unsorted[n + m]));
            let i = choose|i: int| 0 <= i < sorted_view.len() && sorted_view[i] == unsorted[n + m];
            assert(commands@[i] == sorted_view[i].1);
        }
        assert forall|j: int|
            0 <= j < action_names@.len() && has_prefix(
                #[trigger] action_names@[j]@,
                editor_namespace(),
            ) implies exists|i: int|
            0 <= i < commands@.len() && commands@[i].submenu_kind is None
                && commands@[i].action_name@ == action_names@[j]@ by {
            let a = choose|a: int| 0 <= a < listing@.len() && listing@[a].1@ == action_names@[j]@;
            assert(unsorted[a].1.submenu_kind is None && unsorted[a].1.action_name@ == listing@[a].1@);
            assert(sorted_view.contains(unsorted[a]));
            let i = choose|i: int| 0 <= i < sorted_view.len() && sorted_view[i] == unsorted[a];
            assert(commands@[i] == sorted_view[i].1);
        }
        assert forall|i: int, j: int| 0 <= i < j < commands@.len() implies !crate::text::text_less_spec(
            commands@[j].display_name@,
            commands@[i].display_name@,
        ) by {
            assert(commands@[i] == sorted_view[i].1);
            assert(commands@[j] == sorted_view[j].1);
        }
        if crate::names::distinct_names(action_names@) {
            let f = |p: (String, CommandEntry)| (p.1.submenu_kind, p.1.action_name@);
            assert forall|a: int, b: int| 0 <= a < b < unsorted.len() implies f(unsorted[a]) != f(
                unsorted[b],
            ) by {
                if b < n {
                    assert(listing@[a].1@ != listing@[b].1@);
                } else if a < n {
                    assert(unsorted[a].1.submenu_kind is None);
                } else {
                    assert(unsorted[(n + 0) as int].1.submenu_kind == Some(CommandSubmenu::SwitchBuffer));
                    assert(unsorted[(n + 1) as int].1.submenu_kind == Some(CommandSubmenu::ChangeEncoding));
                    assert(unsorted[(n + 2) as int].1.submenu_kind == Some(CommandSubmenu::ChangeFileType));
                    assert(unsorted[(n + 3) as int].1.submenu_kind == Some(CommandSubmenu::RecentFiles));
                }
            }
            crate::text::lemma_reorder_keeps_distinct(unsorted, sorted_view, f);
            assert forall|i: int, j: int| 0 <= i < j < commands@.len() implies (
                commands@[i].submenu_kind,
                commands@[i].action_name@,
            ) != (commands@[j].submenu_kind, commands@[j].action_name@) by {
                assert(commands@[i] == sorted_view[i].1);
                assert(commands@[j] == sorted_view[j].1);
                assert(f(sorted_view[i]) != f(sorted_view[j]));
            }
        }
    }
    commands
}

} // verus!

verus! {

/// Names the result of `str::to_lowercase` (Unicode lower-casing).
pub uninterp spec fn lowercase(s: Seq<char>) -> Seq<char>;

/// Calls `str::to_lowercase`.
#[verifier::external_body]
pub(crate) fn to_lowercase(s: &str) -> (r: String)
    ensures
        r@ == lowercase(s@),
{
    s.to_lowercase()
}

/// Whether a menu line is shown for the typed query: always for an empty
/// query, else when its lower-cased text contains the lower-cased query.
pub open spec fn shown_for(item: Seq<char>, query: Seq<char>) -> bool {
    query.len() == 0 || contains_chars(lowercase(item), lowercase(query))
}

/// The lines among the first `n` of `items` that are shown for `query`,
/// each with its index in `items`, in order.
pub open spec fn menu_matches_from(items: Seq<Seq<char>>, query: Seq<char>, n: int) -> Seq<
    (usize, Seq<char>),
>
    decreases n,
{
    if n <= 0 {
        Seq::empty()
    } else {
        let prev = menu_matches_from(items, query, n - 1);
        if shown_for(items[n - 1], query) {
            prev.push(((n - 1) as usize, items[n - 1]))
        } else {
            prev
        }
    }
}

/// Whether `q` occurs in `h`.
fn text_contains(h: &Vec<char>, q: &Vec<char>) -> (r: bool)
    ensures
        r == contains_chars(h@, q@),
{
    let r = crate::tab_search::range_contains(h, 0, h.len(), q);
    proof {
        assert(h@.subrange(0, h@.len() as int) =~= h@);
    }
    r
}

/// The menu lines shown for `query`, each with its index among `items`.
pub fn menu_matches(items: &Vec<String>, query: &str) -> (shown: Vec<(usize, String)>)
    ensures
        shown.deep_view() == menu_matches_from(items.deep_view(), query@, items@.len() as int),
{
    let query_empty = query.is_empty();
    let query_lower = chars_of(to_lowercase(query).as_str());
    let mut shown: Vec<(usize, String)> = Vec::new();
    let mut i: usize = 0;
    while i < items.len()
        invariant
            i <= items@.len(),
            query_empty == (query@.len() == 0),
            query_lower@ == lowercase(query@),
            shown.deep_view() == menu_matches_from(items.deep_view(), query@, i as int),
        decreases items.len() - i,
    {
        let keep = if query_empty {
            true
        } else {
            let item_lower = chars_of(to_lowercase(items[i].as_str()).as_str());
            text_contains(&item_lower, &query_lower)
        };
        proof {
            assert(items.deep_view()[i as int] == items@[i as int]@);
        }
        if keep {
            let ghost before = shown.deep_view();
            shown.push((i, items[i].clone()));
            proof {
                assert(shown.deep_view() =~= before.push((i, items@[i as int]@)));
            }
        }
        i = i + 1;
    }
    shown
}

/// The menu line drawn as selected: the selection, but no further than the
/// last line.
pub fn clamp_selection(selected: usize, line_count: usize) -> (shown: usize)
    ensures
        shown == (if line_count == 0 {
            0
        } else if selected < line_count {
            selected
        } else {
            (line_count - 1) as usize
        }),
{
    let last = if line_count == 0 {
        0
    } else {
        line_count - 1
    };
    if selected < last {
        selected
    } else {
        last
    }
}

/// The command center: whether it is open, which line is selected and which
/// picker (if any) it shows.
pub struct CommandCenter {
    pub visible: bool,
    pub selected: usize,
    pub submenu: Option<CommandSubmenu>,
}

/// What choosing a command center line asks the editor to do.
pub enum CommandChoice {
    /// Nothing (the line no longer exists).
    Nothing,
    /// Dispatch the named action.
    Dispatch(String),
    /// Show the picker (the query is cleared).
    OpenPicker(CommandSubmenu),
}

impl CommandCenter {
    /// A closed command center.
    pub fn new() -> (c: Self)
        ensures
            !c.visible,
            c.selected == 0,
            c.submenu is None,
    {
        CommandCenter { visible: false, selected: 0, submenu: None }
    }

    /// Opens or closes the command center, back on its command list with
    /// the first line selected.
    pub fn toggle(&mut self)
        ensures
            final(self).visible == !old(self).visible,
            final(self).selected == 0,
            final(self).submenu is None,
    {
        self.visible = !self.visible;
        self.selected = 0;
        self.submenu = None;
    }

    /// Escape: leaves a picker for the command list, or closes the command
    /// center.
    pub fn escape(&mut self)
        ensures
            old(self).submenu is Some ==> final(self).visible == old(self).visible
                && final(self).submenu is None && final(self).selected == 0,
            old(self).submenu is None ==> !final(self).visible && final(self).submenu is None
                && final(self).selected == old(self).selected,
    {
        if self.submenu.is_some() {
            self.submenu = None;
            self.selected = 0;
        } else {
            self.visible = false;
        }
    }

    /// Up: selects the line above, stopping at the first.
    pub fn select_previous(&mut self)
        ensures
            final(self).selected == (if old(self).selected > 0 {
                (old(self).selected - 1) as usize
            } else {
                0
            }),
            final(self).visible == old(self).visible,
            final(self).submenu == old(self).submenu,
    {
        self.selected = if self.selected > 0 {
            self.selected - 1
        } else {
            0
        };
    }

    /// Down: selects the next line (drawing clamps it to the last line).
    pub fn select_next(&mut self)
        requires
            old(self).selected < usize::MAX,
        ensures
            final(self).selected == old(self).selected + 1,
            final(self).visible == old(self).visible,
            final(self).submenu == old(self).submenu,
    {
        self.selected = self.selected + 1;
    }

    /// The query was edited: the first line becomes selected.
    pub fn query_edited(&mut self)
        ensures
            final(self).selected == 0,
            final(self).visible == old(self).visible,
            final(self).submenu == old(self).submenu,
    {
        self.selected = 0;
    }

    /// Chooses a line of the command list: a picker line opens its picker
    /// (first line selected); an action line closes the command center and
    /// asks for the action to be dispatched.
    pub fn execute_command(&mut self, entry: &CommandEntry) -> (choice: CommandChoice)
        ensures
            match entry.submenu_kind {
                Some(kind) => choice == CommandChoice::OpenPicker(kind) && final(self).submenu
                    == Some(kind) && final(self).selected == 0 && final(self).visible
                    == old(self).visible,
                None => (choice matches CommandChoice::Dispatch(a) && a@ == entry.action_name@)
                    && !final(self).visible && final(self).submenu is None
                    && final(self).selected == old(self).selected,
            },
    {
        match entry.submenu_kind {
            Some(kind) => {
                self.submenu = Some(kind);
                self.selected = 0;
                CommandChoice::OpenPicker(kind)
            },
            None => {
                self.visible = false;
                self.submenu = None;
                CommandChoice::Dispatch(entry.action_name.clone())
            },
        }
    }

    /// Enter on the command list: the index among all lines of the selected
    /// shown line, if the selection is on one.
    pub fn chosen_command(&self, shown: &Vec<(usize, String)>) -> (index: Option<usize>)
        ensures
            index == (if self.selected < shown@.len() {
                Some(shown@[self.selected as int].0)
            } else {
                None
            }),
    {
        if self.selected < shown.len() {
            Some(shown[self.selected].0)
        } else {
            None
        }
    }

    /// Enter in a picker: the index among the picker's items of the selected
    /// shown line, or the first item when the selection is past the end.
    pub fn chosen_item(&self, shown: &Vec<(usize, String)>) -> (index: usize)
        ensures
            index == (if self.selected < shown@.len() {
                shown@[self.selected as int].0
            } else {
                0
            }),
    {
        if self.selected < shown.len() {
            shown[self.selected].0
        } else {
            0
        }
    }

    /// Chooses a picker item: the command center closes.
    pub fn close_for_item(&mut self)
        ensures
            !final(self).visible,
            final(self).submenu is None,
            final(self).selected == old(self).selected,
    {
        self.visible = false;
        self.submenu = None;
    }
}

} // verus!

verus! {

/// What choosing an item of a picker asks the editor to do.
pub enum SubmenuAction {
    /// Nothing (no such item).
    Nothing,
    /// Make the tab with this index active.
    SwitchTo(usize),
    /// Show this message and change nothing.
    Notify(String),
    /// Read the active tab's file again with this encoding (canonical name).
    ReloadWith(String),
    /// Give the active tab's buffer the language with this grammar name.
    SetLanguage(String),
    /// Open this recently used file.
    Open(String),
}

/// The abstract value of a picker's request.
pub enum SubmenuActionView {
    Nothing,
    SwitchTo(usize),
    Notify(Seq<char>),
    ReloadWith(Seq<char>),
    SetLanguage(Seq<char>),
    Open(Seq<char>),
}

impl View for SubmenuAction {
    type V = SubmenuActionView;

    open spec fn view(&self) -> SubmenuActionView {
        match self {
            SubmenuAction::Nothing => SubmenuActionView::Nothing,
            SubmenuAction::SwitchTo(i) => SubmenuActionView::SwitchTo(*i),
            SubmenuAction::Notify(m) => SubmenuActionView::Notify(m@),
            SubmenuAction::ReloadWith(e) => SubmenuActionView::ReloadWith(e@),
            SubmenuAction::SetLanguage(g) => SubmenuActionView::SetLanguage(g@),
            SubmenuAction::Open(p) => SubmenuActionView::Open(p@),
        }
    }
}

/// What choosing item `index` of picker `kind` does, given the number of
/// tabs, whether the active tab has a file and unsaved changes, whether the
/// user confirmed reloading over those changes, and the recent files. A
/// reload over unsaved changes is refused with a warning until confirmed.
pub open spec fn submenu_choice(
    kind: CommandSubmenu,
    index: int,
    tab_count: int,
    has_path: bool,
    dirty: bool,
    confirmed: bool,
    recent: Seq<Seq<char>>,
) -> SubmenuActionView {
    match kind {
        CommandSubmenu::SwitchBuffer => if 0 <= index < tab_count {
            SubmenuActionView::SwitchTo(index as usize)
        } else {
            SubmenuActionView::Nothing
        },
        CommandSubmenu::ChangeEncoding => if !(0 <= index < SUPPORTED_ENCODING_COUNT) {
            SubmenuActionView::Nothing
        } else {
            match encoding_for_label(supported_label(index)) {
                None => SubmenuActionView::Nothing,
                Some(encoding) => if !has_path {
                    SubmenuActionView::Notify("No file to reload"@)
                } else if dirty && !confirmed {
                    SubmenuActionView::Notify("Save changes before switching encoding"@)
                } else {
                    SubmenuActionView::ReloadWith(encoding)
                },
            }
        },
        CommandSubmenu::ChangeFileType => if 0 <= index < GRAMMAR_COUNT {
            SubmenuActionView::SetLanguage(grammar_label(index))
        } else {
            SubmenuActionView::Nothing
        },
        CommandSubmenu::RecentFiles => if 0 <= index < recent.len() {
            SubmenuActionView::Open(recent[index])
        } else {
            SubmenuActionView::Nothing
        },
    }
}

/// The grammar identifier of the `index`-th file-type picker entry.
pub open spec fn grammar_label(index: int) -> Seq<char> {
    if index == 0 {
        "bash"@
    } else if index == 1 {
        "c"@
    } else if index == 2 {
        "cpp"@
    } else if index == 3 {
        "css"@
    } else if index == 4 {
        "diff"@
    } else if index == 5 {
        "go"@
    } else if index == 6 {
        "json"@
    } else if index == 7 {
        "jsonc"@
    } else if index == 8 {
        "markdown"@
    } else if index == 9 {
        "python"@
    } else if index == 10 {
        "regex"@
    } else if index == 11 {
        "rust"@
    } else if index == 12 {
        "tsx"@
    } else if index == 13 {
        "typescript"@
    } else {
        "yaml"@
    }
}

/// What choosing item `index` of picker `kind` asks the editor to do (see
/// `submenu_choice`).
pub fn submenu_action(
    kind: CommandSubmenu,
    index: usize,
    tab_count: usize,
    has_path: bool,
    dirty: bool,
    confirmed: bool,
    recent: &Vec<String>,
) -> (action: SubmenuAction)
    ensures
        action@ == submenu_choice(
            kind,
            index as int,
            tab_count as int,
            has_path,
            dirty,
            confirmed,
            recent.deep_view(),
        ),
{
    match kind {
        CommandSubmenu::SwitchBuffer => if index < tab_count {
            SubmenuAction::SwitchTo(index)
        } else {
            SubmenuAction::Nothing
        },
        CommandSubmenu::ChangeEncoding => {
            let label = match supported_encoding(index) {
                Some(l) => l,
                None => {
                    return SubmenuAction::Nothing;
                },
            };
            let encoding = match encoding_from_label(label) {
                Some(e) => e,
                None => {
                    return SubmenuAction::Nothing;
                },
            };
            if !has_path {
                SubmenuAction::Notify("No file to reload".to_string())
            } else if dirty && !confirmed {
                SubmenuAction::Notify("Save changes before switching encoding".to_string())
            } else {
                SubmenuAction::ReloadWith(encoding)
            }
        },
        CommandSubmenu::ChangeFileType => match grammar_name(index) {
            Some(g) => SubmenuAction::SetLanguage(g.to_string()),
            None => SubmenuAction::Nothing,
        },
        CommandSubmenu::RecentFiles => if index < recent.len() {
            proof {
                assert(recent.deep_view()[index as int] == recent@[index as int]@);
            }
            SubmenuAction::Open(recent[index].clone())
        } else {
            SubmenuAction::Nothing
        },
    }
}

/// The items a picker lists: the tab titles, the encoding labels, the
/// language names, or the first (at most) 20 recent files.
pub fn submenu_items(kind: CommandSubmenu, tab_titles: &Vec<String>, recent: &Vec<String>) -> (items: Vec<String>)
    ensures
        kind == CommandSubmenu::SwitchBuffer ==> items.deep_view() == tab_titles.deep_view(),
        kind == CommandSubmenu::ChangeEncoding ==> items@.len() == SUPPORTED_ENCODING_COUNT
            && forall|i: int| 0 <= i < items@.len() ==> #[trigger] items@[i]@ == supported_label(i),
        kind == CommandSubmenu::ChangeFileType ==> items@.len() == GRAMMAR_COUNT
            && forall|i: int| 0 <= i < items@.len() ==> #[trigger] items@[i]@ == grammar_display_label(i),
        kind == CommandSubmenu::RecentFiles ==> items.deep_view() == (if recent@.len() <= 20 {
            recent.deep_view()
        } else {
            recent.deep_view().take(20)
        }),
{
    let mut items: Vec<String> = Vec::new();
    match kind {
        CommandSubmenu::SwitchBuffer => {
            let mut i: usize = 0;
            while i < tab_titles.len()
                invariant
                    i <= tab_titles@.len(),
                    items.deep_view() == tab_titles.deep_view().take(i as int),
                decreases tab_titles.len() - i,
            {
                let ghost before = items.deep_view();
                items.push(tab_titles[i].clone());
                proof {
                    assert(items.deep_view() =~= before.push(tab_titles@[i as int]@));
                    assert(tab_titles.deep_view().take(i + 1) =~= tab_titles.deep_view().take(
                        i as int,
                    ).push(tab_titles@[i as int]@));
                }
                i = i + 1;
            }
            proof {
                assert(tab_titles.deep_view().take(tab_titles@.len() as int) =~= tab_titles.deep_view());
            }
        },
        CommandSubmenu::ChangeEncoding => {
            let mut i: usize = 0;
            while i < SUPPORTED_ENCODING_COUNT
                invariant
                    i <= SUPPORTED_ENCODING_COUNT,
                    items@.len() == i,
                    forall|k: int| 0 <= k < i ==> #[trigger] items@[k]@ == supported_label(k),
                decreases SUPPORTED_ENCODING_COUNT - i,
            {
                if let Some(label) = supported_encoding(i) {
                    items.push(label.to_string());
                }
                i = i + 1;
            }
        },
        CommandSubmenu::ChangeFileType => {
            let mut i: usize = 0;
            while i < GRAMMAR_COUNT
                invariant
                    i <= GRAMMAR_COUNT,
                    items@.len() == i,
                    forall|k: int| 0 <= k < i ==> #[trigger] items@[k]@ == grammar_display_label(k),
                decreases GRAMMAR_COUNT - i,
            {
                if let Some(name) = grammar_display_name(i) {
                    items.push(name.to_string());
                }
                i = i + 1;
            }
        },
        CommandSubmenu::RecentFiles => {
            let limit = if recent.len() <= 20 {
                recent.len()
            } else {
                20
            };
            let mut i: usize = 0;
            while i < limit
                invariant
                    limit <= recent@.len(),
                    i <= limit,
                    items.deep_view() == recent.deep_view().take(i as int),
                decreases limit - i,
            {
                let ghost before = items.deep_view();
                items.push(recent[i].clone());
                proof {
                    assert(items.deep_view() =~= before.push(recent@[i as int]@));
                    assert(recent.deep_view().take(i + 1) =~= recent.deep_view().take(i as int).push(
                        recent@[i as int]@,
                    ));
                }
                i = i + 1;
            }
            proof {
                if recent@.len() <= 20 {
                    assert(recent.deep_view().take(recent@.len() as int) =~= recent.deep_view());
                }
            }
        },
    }
    items
}


/// The text of a picker line: in the encoding picker, the line whose label
/// stands for the active tab's encoding (see `label_names`) is marked with
/// `● `; every other line is shown as it is.
pub open spec fn marked_line(
    submenu: Option<CommandSubmenu>,
    current_encoding: Option<Seq<char>>,
    item: Seq<char>,
) -> Seq<char> {
    if submenu == Some(CommandSubmenu::ChangeEncoding) && (current_encoding matches Some(e)
        && crate::encoding::label_names(item, e)) {
        seq!['●', ' '] + item
    } else {
        item
    }
}

/// The text drawn for a picker line (see `marked_line`).
pub fn picker_line_text(submenu: Option<CommandSubmenu>, current_encoding: &Option<String>, item: &str) -> (text:
    String)
    ensures
        text@ == marked_line(submenu, current_encoding.deep_view(), item@),
{
    let is_current = match (submenu, current_encoding) {
        (Some(CommandSubmenu::ChangeEncoding), Some(e)) => crate::encoding::label_names_encoding(
            item,
            e.as_str(),
        ),
        _ => false,
    };
    let mut cs = vec!['●', ' '];
    let item_chars = chars_of(item);
    if !is_current {
        return crate::text::string_of(item_chars.as_slice());
    }
    let mut i: usize = 0;
    while i < item_chars.len()
        invariant
            i <= item_chars@.len(),
            cs@ == seq!['●', ' '] + item_chars@.take(i as int),
        decreases item_chars.len() - i,
    {
        cs.push(item_chars[i]);
        proof {
            assert(item_chars@.take(i + 1) =~= item_chars@.take(i as int).push(item_chars@[i as int]));
        }
        i = i + 1;
    }
    proof {
        assert(item_chars@.take(item_chars@.len() as int) =~= item_chars@);
    }
    crate::text::string_of(cs.as_slice())
}


/// The grammar identifier a display name stands for: the name in lower case,
/// with a `+` written as `p` (`C++` is `cpp`).
pub open spec fn identifier_of(display: Seq<char>) -> Seq<char> {
    display.map_values(|c: char| if c == '+' {
        'p'
    } else {
        crate::names::ascii_lower(c)
    })
}

/// Each entry of the file-type picker sets the grammar that its shown name
/// stands for: the grammar identifier at position `i` is the identifier of
/// the display name at `i` (so choosing "Python" sets `python`).
pub proof fn lemma_file_types_match_their_names(i: int)
    requires
        0 <= i < GRAMMAR_COUNT,
    ensures
        grammar_label(i) == identifier_of(grammar_display_label(i)),
{
    reveal_strlit("bash");
    reveal_strlit("c");
    reveal_strlit("cpp");
    reveal_strlit("css");
    reveal_strlit("diff");
    reveal_strlit("go");
    reveal_strlit("json");
    reveal_strlit("jsonc");
    reveal_strlit("markdown");
    reveal_strlit("python");
    reveal_strlit("regex");
    reveal_strlit("rust");
    reveal_strlit("tsx");
    reveal_strlit("typescript");
    reveal_strlit("yaml");
    reveal_strlit("Bash");
    reveal_strlit("C");
    reveal_strlit("C++");
    reveal_strlit("CSS");
    reveal_strlit("Diff");
    reveal_strlit("Go");
    reveal_strlit("JSON");
    reveal_strlit("JSONC");
    reveal_strlit("Markdown");
    reveal_strlit("Python");
    reveal_strlit("Regex");
    reveal_strlit("Rust");
    reveal_strlit("TSX");
    reveal_strlit("TypeScript");
    reveal_strlit("YAML");
    assert(grammar_label(i) =~= identifier_of(grammar_display_label(i)));
}

} // verus!
