use vstd::prelude::*;
use crate::encoding::{encoding_for_label, encoding_from_label};
use crate::names::{file_name_from_path, path_file_name, untitled};
use crate::tabs::TabList;

verus! {

/// What the session file keeps of one open tab: its file, the text that was
/// not saved to it, whether it was pinned, and the encoding it was read with.
pub struct SessionTab {
    pub path: Option<String>,
    pub unsaved_content: Option<String>,
    pub pinned: bool,
    pub encoding: Option<String>,
}

/// The canonical name of UTF-8, the encoding of a tab with no other known.
pub open spec fn utf8_name() -> Seq<char> {
    "UTF-8"@
}

/// The saved session: the tabs in order, the index of the active one, and
/// whether the toolbar is shown.
pub struct SessionState {
    pub tabs: Vec<SessionTab>,
    pub active: usize,
    pub show_toolbar: bool,
}

/// The session entry of a tab showing `path`, with editor text `text` and
/// encoding `encoding`: the text is kept when the tab has no file or has
/// unsaved changes; the encoding is always kept, so that a file read as
/// UTF-8 on purpose is read so again.
pub open spec fn saved_tab(
    path: Option<String>,
    dirty: bool,
    text: String,
    pinned: bool,
    encoding: String,
) -> SessionTab {
    SessionTab {
        path,
        unsaved_content: if path is None || dirty {
            Some(text)
        } else {
            None
        },
        pinned,
        encoding: Some(encoding),
    }
}

/// The session entry of one tab (see `saved_tab`).
pub fn session_tab(path: Option<String>, dirty: bool, text: String, pinned: bool, encoding: String) -> (t:
    SessionTab)
    ensures
        t == saved_tab(path, dirty, text, pinned, encoding),
{
    let keep = path.is_none() || dirty;
    SessionTab {
        path,
        unsaved_content: if keep {
            Some(text)
        } else {
            None
        },
        pinned,
        encoding: Some(encoding),
    }
}

/// A copy of an optional string.
fn copy_path(p: &Option<String>) -> (r: Option<String>)
    ensures
        r == *p,
{
    match p {
        Some(s) => Some(s.clone()),
        None => None,
    }
}

/// The session of the open tabs, where `dirty[i]` says whether tab `i` has
/// unsaved changes and `texts[i]` is its editor text, and of the toolbar.
pub fn session_of<E>(
    list: &TabList<E>,
    dirty: &Vec<bool>,
    texts: &Vec<String>,
    show_toolbar: bool,
) -> (s: SessionState)
    requires
        dirty@.len() == list.tabs@.len(),
        texts@.len() == list.tabs@.len(),
    ensures
        s.active == list.active,
        s.show_toolbar == show_toolbar,
        s.tabs@.len() == list.tabs@.len(),
        forall|i: int|
            0 <= i < s.tabs@.len() ==> s.tabs@[i] == saved_tab(
                list.tabs@[i].path,
                dirty@[i],
                texts@[i],
                list.tabs@[i].pinned,
                list.tabs@[i].encoding,
            ),
{
    let mut tabs: Vec<SessionTab> = Vec::new();
    let mut i: usize = 0;
    while i < list.tabs.len()
        invariant
            i <= list.tabs@.len(),
            dirty@.len() == list.tabs@.len(),
            texts@.len() == list.tabs@.len(),
            tabs@.len() == i,
            forall|j: int|
                0 <= j < i ==> tabs@[j] == saved_tab(
                    list.tabs@[j].path,
                    dirty@[j],
                    texts@[j],
                    list.tabs@[j].pinned,
                    list.tabs@[j].encoding,
                ),
        decreases list.tabs.len() - i,
    {
        let t = &list.tabs[i];
        let entry = session_tab(
            copy_path(&t.path),
            dirty[i],
            texts[i].clone(),
            t.pinned,
            t.encoding.clone(),
        );
        tabs.push(entry);
        i = i + 1;
    }
    SessionState { tabs, active: list.active, show_toolbar }
}

/// The title of a tab recreated for `path`: the path's file name, or
/// `untitled` when it has none.
pub open spec fn path_title(path: Seq<char>) -> Seq<char> {
    match path_file_name(path) {
        Some(n) => n,
        None => untitled(),
    }
}

/// What restoring one saved tab does.
pub enum RestoreAction {
    /// Open the file from disk; then, if `encoding` is given, read it again
    /// with that encoding; then, if `text` is given, replace the editor's
    /// text with it.
    Open { path: String, text: Option<String>, encoding: Option<String> },
    /// Create a tab with encoding `encoding` for a file that no longer
    /// exists, holding its saved text.
    Recreate { path: String, title: String, text: String, encoding: String },
    /// Create an untitled tab holding `text`.
    Untitled { text: String },
    /// Create no tab.
    Nothing,
}

/// The abstract value of a `RestoreAction`.
pub enum RestoreView {
    Open { path: Seq<char>, text: Option<Seq<char>>, encoding: Option<Seq<char>> },
    Recreate { path: Seq<char>, title: Seq<char>, text: Seq<char>, encoding: Seq<char> },
    Untitled { text: Seq<char> },
    Nothing,
}

impl View for RestoreAction {
    type V = RestoreView;

    open spec fn view(&self) -> RestoreView {
        match self {
            RestoreAction::Open { path, text, encoding } => RestoreView::Open {
                path: path@,
                text: text.deep_view(),
                encoding: encoding.deep_view(),
            },
            RestoreAction::Recreate { path, title, text, encoding } => RestoreView::Recreate {
                path: path@,
                title: title@,
                text: text@,
                encoding: encoding@,
            },
            RestoreAction::Untitled { text } => RestoreView::Untitled { text: text@ },
            RestoreAction::Nothing => RestoreView::Nothing,
        }
    }
}

/// The encoding (canonical name) that a saved encoding label resolves to,
/// if it is given and names one.
pub open spec fn stored_encoding(label: Option<Seq<char>>) -> Option<Seq<char>> {
    match label {
        Some(l) => encoding_for_label(l),
        None => None,
    }
}

/// What restoring a saved tab with file `path`, saved text `content` and
/// saved encoding label `label` does, given whether the file exists: an
/// existing file is opened (read again with the saved encoding when that
/// resolves, and given the saved text, if any); a missing file with saved
/// text becomes a tab of that text titled by the file name, with the saved
/// encoding when it resolves and UTF-8 otherwise; a missing file without
/// text gives no tab; a tab without a file becomes an untitled tab of its
/// saved text (empty if none).
pub open spec fn restore_view(
    path: Option<Seq<char>>,
    content: Option<Seq<char>>,
    label: Option<Seq<char>>,
    path_exists: bool,
) -> RestoreView {
    match path {
        Some(p) => if path_exists {
            RestoreView::Open { path: p, text: content, encoding: stored_encoding(label) }
        } else {
            match content {
                Some(c) => RestoreView::Recreate {
                    path: p,
                    title: path_title(p),
                    text: c,
                    encoding: match stored_encoding(label) {
                        Some(e) => e,
                        None => utf8_name(),
                    },
                },
                None => RestoreView::Nothing,
            }
        },
        None => RestoreView::Untitled {
            text: match content {
                Some(c) => c,
                None => Seq::empty(),
            },
        },
    }
}

/// The encoding that a saved label resolves to.
fn resolve_stored(label: &Option<String>) -> (e: Option<String>)
    ensures
        e.deep_view() == stored_encoding(label.deep_view()),
{
    match label {
        Some(l) => encoding_from_label(l.as_str()),
        None => None,
    }
}

/// What restoring `tab` does (see `restore_view`).
pub fn restore_action(tab: SessionTab, path_exists: bool) -> (a: RestoreAction)
    ensures
        a@ == restore_view(
            tab.path.deep_view(),
            tab.unsaved_content.deep_view(),
            tab.encoding.deep_view(),
            path_exists,
        ),
{
    let encoding = resolve_stored(&tab.encoding);
    match tab.path {
        Some(p) => {
            if path_exists {
                RestoreAction::Open { path: p, text: tab.unsaved_content, encoding }
            } else {
                match tab.unsaved_content {
                    Some(c) => {
                        let title = file_name_from_path(p.as_str());
                        let encoding = match encoding {
                            Some(e) => e,
                            None => {
                                proof {
                                    reveal_strlit("UTF-8");
                                }
                                "UTF-8".to_string()
                            },
                        };
                        RestoreAction::Recreate { path: p, title, text: c, encoding }
                    },
                    None => RestoreAction::Nothing,
                }
            }
        },
        None => {
            let text = match tab.unsaved_content {
                Some(c) => c,
                None => String::new(),
            };
            RestoreAction::Untitled { text }
        },
    }
}

/// Saving a tab and restoring it gives it back: a tab without a file comes
/// back untitled with its text; a tab whose file exists reopens that file,
/// read again with its encoding (when its name resolves), with its unsaved text
/// put back when it had changes; a changed tab whose file is gone comes back
/// with its text and encoding under the file's name; a clean tab whose file
/// is gone is dropped. The pinned mark is kept.
pub proof fn lemma_session_round_trip(
    path: Option<String>,
    dirty: bool,
    text: String,
    pinned: bool,
    encoding: String,
    path_exists: bool,
)
    ensures
        ({
            let t = saved_tab(path, dirty, text, pinned, encoding);
            let again = encoding_for_label(encoding@);
            &&& t.pinned == pinned
            &&& t.path == path
            &&& restore_view(
                t.path.deep_view(),
                t.unsaved_content.deep_view(),
                t.encoding.deep_view(),
                path_exists,
            ) == match path {
                None => RestoreView::Untitled { text: text@ },
                Some(p) => if path_exists {
                    RestoreView::Open {
                        path: p@,
                        text: if dirty {
                            Some(text@)
                        } else {
                            None
                        },
                        encoding: again,
                    }
                } else if dirty {
                    RestoreView::Recreate {
                        path: p@,
                        title: path_title(p@),
                        text: text@,
                        encoding: match again {
                            Some(e) => e,
                            None => utf8_name(),
                        },
                    }
                } else {
                    RestoreView::Nothing
                },
            }
        }),
{
}

} // verus!
