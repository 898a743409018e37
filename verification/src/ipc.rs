use vstd::prelude::*;

use crate::text::{chars_of, find_newline, next_newline, push_char, string_of, string_of_range};

verus! {

/// A request that a second launch of the editor hands to the running one.
pub enum IpcMessage {
    OpenFiles(Vec<String>),
    ExecuteCommand(String),
    SetText(String),
    SaveAs(String),
    SwitchTab(usize),
}

/// The abstract value of a request.
pub enum IpcMessageView {
    OpenFiles(Seq<Seq<char>>),
    ExecuteCommand(Seq<char>),
    SetText(Seq<char>),
    SaveAs(Seq<char>),
    SwitchTab(usize),
}

impl View for IpcMessage {
    type V = IpcMessageView;

    open spec fn view(&self) -> IpcMessageView {
        match self {
            IpcMessage::OpenFiles(paths) => IpcMessageView::OpenFiles(paths.deep_view()),
            IpcMessage::ExecuteCommand(c) => IpcMessageView::ExecuteCommand(c@),
            IpcMessage::SetText(t) => IpcMessageView::SetText(t@),
            IpcMessage::SaveAs(p) => IpcMessageView::SaveAs(p@),
            IpcMessage::SwitchTab(i) => IpcMessageView::SwitchTab(*i),
        }
    }
}

/// Wire prefix of a command request.
pub open spec fn cmd_tag() -> Seq<char> {
    seq!['C', 'M', 'D', ':']
}

/// Wire prefix of a set-text request.
pub open spec fn set_tag() -> Seq<char> {
    seq!['S', 'E', 'T', ':']
}

/// Wire prefix of a save-as request.
pub open spec fn save_as_tag() -> Seq<char> {
    seq!['S', 'A', 'V', 'E', 'A', 'S', ':']
}

/// Wire prefix of a switch-tab request.
pub open spec fn switch_tab_tag() -> Seq<char> {
    seq!['S', 'W', 'I', 'T', 'C', 'H', 'T', 'A', 'B', ':']
}

/// Command-line prefix of a set-text command.
pub open spec fn set_text_arg() -> Seq<char> {
    seq!['s', 'e', 't', '-', 't', 'e', 'x', 't', ':']
}

/// Command-line prefix of a save-as command.
pub open spec fn save_as_arg() -> Seq<char> {
    seq!['s', 'a', 'v', 'e', '-', 'a', 's', ':']
}

/// Command-line prefix of a switch-tab command.
pub open spec fn switch_tab_arg() -> Seq<char> {
    seq!['s', 'w', 'i', 't', 'c', 'h', '-', 't', 'a', 'b', ':']
}

/// `t` starts with `p`.
pub open spec fn has_prefix(t: Seq<char>, p: Seq<char>) -> bool {
    p.len() <= t.len() && t.take(p.len() as int) == p
}

/// `c` is an ASCII decimal digit.
pub open spec fn is_digit(c: char) -> bool {
    '0' <= c <= '9'
}

/// The number that a string of decimal digits denotes.
pub open spec fn digits_value(s: Seq<char>) -> int
    decreases s.len(),
{
    if s.len() == 0 {
        0
    } else {
        digits_value(s.drop_last()) * 10 + (s.last() as int - '0' as int)
    }
}

/// Every character of `d` is a decimal digit.
pub open spec fn all_digits(d: Seq<char>) -> bool {
    forall|i: int| 0 <= i < d.len() ==> is_digit(#[trigger] d[i])
}

/// The index that `str::parse::<usize>` reads from `s`: an optional `+`
/// followed by one or more decimal digits whose value fits in `usize`.
pub open spec fn parsed_index(s: Seq<char>) -> Option<usize> {
    let d = if s.len() > 0 && s[0] == '+' {
        s.drop_first()
    } else {
        s
    };
    if d.len() > 0 && all_digits(d) && digits_value(d) <= usize::MAX {
        Some(digits_value(d) as usize)
    } else {
        None
    }
}

/// The non-empty pieces of `t` between `'\n'` characters, from offset `s` on.
pub open spec fn pieces_from(t: Seq<char>, s: int) -> Seq<Seq<char>>
    decreases t.len() + 1 - s,
{
    if s < 0 || s > t.len() {
        Seq::empty()
    } else {
        let e = next_newline(t, s);
        let piece = t.subrange(s, e);
        proof {
            crate::text::lemma_next_newline_bounds(t, s);
        }
        (if piece.len() > 0 {
            seq![piece]
        } else {
            Seq::empty()
        }) + (if e < t.len() {
            pieces_from(t, e + 1)
        } else {
            Seq::empty()
        })
    }
}

/// The non-empty lines of `t`.
pub open spec fn nonempty_lines(t: Seq<char>) -> Seq<Seq<char>> {
    pieces_from(t, 0)
}

/// What the running editor makes of a received text: a command, new text,
/// a save-as path or a tab index when it starts with the matching prefix
/// (an index that does not parse falls through), else the files named on its
/// non-empty lines, else nothing.
pub open spec fn parse_ipc_spec(t: Seq<char>) -> Option<IpcMessageView> {
    if has_prefix(t, cmd_tag()) {
        Some(IpcMessageView::ExecuteCommand(t.skip(cmd_tag().len() as int)))
    } else if has_prefix(t, set_tag()) {
        Some(IpcMessageView::SetText(t.skip(set_tag().len() as int)))
    } else if has_prefix(t, save_as_tag()) {
        Some(IpcMessageView::SaveAs(t.skip(save_as_tag().len() as int)))
    } else if has_prefix(t, switch_tab_tag()) && parsed_index(
        t.skip(switch_tab_tag().len() as int),
    ) is Some {
        Some(
            IpcMessageView::SwitchTab(parsed_index(t.skip(switch_tab_tag().len() as int))->0),
        )
    } else if nonempty_lines(t).len() > 0 {
        Some(IpcMessageView::OpenFiles(nonempty_lines(t)))
    } else {
        None
    }
}

/// Whether the characters `t` start with the characters `p`.
pub(crate) fn starts_with_chars(t: &Vec<char>, p: &Vec<char>) -> (r: bool)
    ensures
        r == has_prefix(t@, p@),
{
    if p.len() > t.len() {
        return false;
    }
    let mut i: usize = 0;
    while i < p.len()
        invariant
            p@.len() <= t@.len(),
            i <= p@.len(),
            forall|k: int| 0 <= k < i ==> t@[k] == p@[k],
        decreases p.len() - i,
    {
        if t[i] != p[i] {
            proof {
                assert(t@.take(p@.len() as int)[i as int] != p@[i as int]);
            }
            return false;
        }
        i = i + 1;
    }
    proof {
        assert(t@.take(p@.len() as int) =~= p@);
    }
    true
}

/// Reads a tab index as `str::parse::<usize>` does.
pub fn parse_index(s: &str) -> (r: Option<usize>)
    ensures
        r == parsed_index(s@),
{
    let cs = chars_of(s);
    let start: usize = if cs.len() > 0 && cs[0] == '+' {
        1
    } else {
        0
    };
    let ghost d = cs@.skip(start as int);
    proof {
        if cs@.len() > 0 && cs@[0] == '+' {
            assert(d =~= cs@.drop_first());
        } else {
            assert(d =~= cs@);
        }
    }
    if start >= cs.len() {
        return None;
    }
    let mut value: usize = 0;
    let mut i: usize = start;
    while i < cs.len()
        invariant
            start <= i <= cs@.len(),
            start < cs@.len(),
            cs@ == s@,
            d == cs@.skip(start as int),
            d == (if s@.len() > 0 && s@[0] == '+' {
                s@.drop_first()
            } else {
                s@
            }),
            forall|k: int| start <= k < i ==> is_digit(#[trigger] cs@[k]),
            value == digits_value(cs@.subrange(start as int, i as int)),
        decreases cs.len() - i,
    {
        let c = cs[i];
        if !('0' <= c && c <= '9') {
            proof {
                assert(d[i - start] == cs@[i as int]);
                assert(!is_digit(d[i - start]));
                assert(!(forall|k: int| 0 <= k < d.len() ==> is_digit(#[trigger] d[k])));
            }
            return None;
        }
        proof {
            assert(cs@.subrange(start as int, i + 1).drop_last() =~= cs@.subrange(
                start as int,
                i as int,
            ));
        }
        let digit = (c as u32 - '0' as u32) as usize;
        let ghost next = digits_value(cs@.subrange(start as int, i + 1));
        proof {
            assert(cs@.subrange(start as int, i + 1).last() == c);
            assert(next == value * 10 + digit);
            assert forall|k: int| 0 <= k < i + 1 - start implies is_digit(#[trigger] d[k]) by {
                assert(d[k] == cs@[start + k]);
            }
        }
        match value.checked_mul(10) {
            Some(v10) => match v10.checked_add(digit) {
                Some(v) => {
                    value = v;
                },
                None => {
                    proof {
                        lemma_prefix_value_bounds(d, i + 1 - start);
                        assert(d.take(i + 1 - start) =~= cs@.subrange(start as int, i + 1));
                        assert(next > usize::MAX);
                    }
                    return None;
                },
            },
            None => {
                proof {
                    lemma_prefix_value_bounds(d, i + 1 - start);
                    assert(d.take(i + 1 - start) =~= cs@.subrange(start as int, i + 1));
                    assert(next > usize::MAX);
                }
                return None;
            },
        }
        i = i + 1;
    }
    proof {
        assert(cs@.subrange(start as int, cs@.len() as int) =~= d);
    }
    Some(value)
}

/// A prefix of a digit string never denotes more than the whole string.
proof fn lemma_prefix_value_bounds(d: Seq<char>, n: int)
    requires
        0 <= n <= d.len(),
        forall|i: int| 0 <= i < n ==> is_digit(#[trigger] d[i]),
    ensures
        (forall|i: int| 0 <= i < d.len() ==> is_digit(#[trigger] d[i])) ==> digits_value(d.take(n))
            <= digits_value(d),
        digits_value(d.take(n)) >= 0,
    decreases d.len() - n,
{
    lemma_digits_nonneg(d.take(n));
    if n < d.len() && (forall|i: int| 0 <= i < d.len() ==> is_digit(#[trigger] d[i])) {
        lemma_prefix_value_bounds(d, n + 1);
        assert(d.take(n + 1).drop_last() =~= d.take(n));
    } else if n == d.len() {
        assert(d.take(n) =~= d);
    }
}

proof fn lemma_digits_nonneg(s: Seq<char>)
    requires
        forall|i: int| 0 <= i < s.len() ==> is_digit(#[trigger] s[i]),
    ensures
        digits_value(s) >= 0,
    decreases s.len(),
{
    if s.len() > 0 {
        lemma_digits_nonneg(s.drop_last());
    }
}

/// The files named on the non-empty lines of `cs`.
fn nonempty_lines_of(cs: &Vec<char>) -> (lines: Vec<String>)
    ensures
        lines.deep_view() == nonempty_lines(cs@),
{
    let mut lines: Vec<String> = Vec::new();
    let mut s: usize = 0;
    loop
        invariant
            s <= cs@.len(),
            lines.deep_view() + pieces_from(cs@, s as int) == nonempty_lines(cs@),
        decreases cs@.len() - s,
    {
        let e = find_newline(cs, s);
        let ghost before = lines.deep_view();
        if e > s {
            let piece = string_of_range(cs, s, e);
            lines.push(piece);
            proof {
                assert(lines.deep_view() =~= before.push(cs@.subrange(s as int, e as int)));
            }
        }
        proof {
            let piece = cs@.subrange(s as int, e as int);
            let head: Seq<Seq<char>> = if piece.len() > 0 {
                seq![piece]
            } else {
                Seq::empty()
            };
            assert(lines.deep_view() =~= before + head);
        }
        if e >= cs.len() {
            proof {
                assert(lines.deep_view() + Seq::<Seq<char>>::empty() =~= lines.deep_view());
            }
            return lines;
        }
        proof {
            let piece = cs@.subrange(s as int, e as int);
            let head: Seq<Seq<char>> = if piece.len() > 0 {
                seq![piece]
            } else {
                Seq::empty()
            };
            assert(before + (head + pieces_from(cs@, e + 1)) =~= lines.deep_view() + pieces_from(
                cs@,
                e + 1,
            ));
        }
        s = e + 1;
    }
}

/// Reads a request received from another launch of the editor.
pub fn parse_ipc_message(text: &str) -> (message: Option<IpcMessage>)
    ensures
        match message {
            Some(m) => parse_ipc_spec(text@) == Some(m@),
            None => parse_ipc_spec(text@) is None,
        },
{
    let cs = chars_of(text);
    let cmd = vec!['C', 'M', 'D', ':'];
    let set = vec!['S', 'E', 'T', ':'];
    let save_as = vec!['S', 'A', 'V', 'E', 'A', 'S', ':'];
    let switch_tab = vec!['S', 'W', 'I', 'T', 'C', 'H', 'T', 'A', 'B', ':'];
    proof {
        assert(cmd@ =~= cmd_tag());
        assert(set@ =~= set_tag());
        assert(save_as@ =~= save_as_tag());
        assert(switch_tab@ =~= switch_tab_tag());
        assert(cs@.subrange(cs@.len() as int, cs@.len() as int) =~= Seq::<char>::empty());
    }
    if starts_with_chars(&cs, &cmd) {
        let rest = string_of_range(&cs, cmd.len(), cs.len());
        proof {
            assert(cs@.subrange(4, cs@.len() as int) =~= text@.skip(4));
        }
        return Some(IpcMessage::ExecuteCommand(rest));
    }
    if starts_with_chars(&cs, &set) {
        let rest = string_of_range(&cs, set.len(), cs.len());
        proof {
            assert(cs@.subrange(4, cs@.len() as int) =~= text@.skip(4));
        }
        return Some(IpcMessage::SetText(rest));
    }
    if starts_with_chars(&cs, &save_as) {
        let rest = string_of_range(&cs, save_as.len(), cs.len());
        proof {
            assert(cs@.subrange(7, cs@.len() as int) =~= text@.skip(7));
        }
        return Some(IpcMessage::SaveAs(rest));
    }
    if starts_with_chars(&cs, &switch_tab) {
        let rest = string_of_range(&cs, switch_tab.len(), cs.len());
        proof {
            assert(cs@.subrange(10, cs@.len() as int) =~= text@.skip(10));
        }
        if let Some(index) = parse_index(rest.as_str()) {
            return Some(IpcMessage::SwitchTab(index));
        }
    }
    let paths = nonempty_lines_of(&cs);
    if paths.len() > 0 {
        Some(IpcMessage::OpenFiles(paths))
    } else {
        None
    }
}

/// The text sent for a command given on the command line: `set-text:`,
/// `save-as:` and `switch-tab:` arguments become the matching request with
/// the rest of the argument, anything else a command request.
pub open spec fn command_message_spec(c: Seq<char>) -> Seq<char> {
    if has_prefix(c, set_text_arg()) {
        set_tag() + c.skip(set_text_arg().len() as int)
    } else if has_prefix(c, save_as_arg()) {
        save_as_tag() + c.skip(save_as_arg().len() as int)
    } else if has_prefix(c, switch_tab_arg()) {
        switch_tab_tag() + c.skip(switch_tab_arg().len() as int)
    } else {
        cmd_tag() + c
    }
}

/// The string made of `tag` followed by `cs[start..]`.
fn tagged(tag: &Vec<char>, cs: &Vec<char>, start: usize) -> (r: String)
    requires
        start <= cs@.len(),
    ensures
        r@ == tag@ + cs@.skip(start as int),
{
    let mut r = string_of(tag.as_slice());
    let mut i = start;
    while i < cs.len()
        invariant
            start <= i <= cs@.len(),
            r@ == tag@ + cs@.subrange(start as int, i as int),
        decreases cs.len() - i,
    {
        push_char(&mut r, cs[i]);
        proof {
            assert(tag@ + cs@.subrange(start as int, i + 1) =~= (tag@ + cs@.subrange(
                start as int,
                i as int,
            )).push(cs@[i as int]));
        }
        i = i + 1;
    }
    proof {
        assert(cs@.subrange(start as int, cs@.len() as int) =~= cs@.skip(start as int));
    }
    r
}

/// The text to send to the running editor for a command-line command.
pub fn format_command_message(command: &str) -> (message: String)
    ensures
        message@ == command_message_spec(command@),
{
    let cs = chars_of(command);
    let set_text = vec!['s', 'e', 't', '-', 't', 'e', 'x', 't', ':'];
    let save_as = vec!['s', 'a', 'v', 'e', '-', 'a', 's', ':'];
    let switch_tab = vec!['s', 'w', 'i', 't', 'c', 'h', '-', 't', 'a', 'b', ':'];
    proof {
        assert(set_text@ =~= set_text_arg());
        assert(save_as@ =~= save_as_arg());
        assert(switch_tab@ =~= switch_tab_arg());
    }
    if starts_with_chars(&cs, &set_text) {
        let tag = vec!['S', 'E', 'T', ':'];
        proof {
            assert(tag@ =~= set_tag());
        }
        tagged(&tag, &cs, set_text.len())
    } else if starts_with_chars(&cs, &save_as) {
        let tag = vec!['S', 'A', 'V', 'E', 'A', 'S', ':'];
        proof {
            assert(tag@ =~= save_as_tag());
        }
        tagged(&tag, &cs, save_as.len())
    } else if starts_with_chars(&cs, &switch_tab) {
        let tag = vec!['S', 'W', 'I', 'T', 'C', 'H', 'T', 'A', 'B', ':'];
        proof {
            assert(tag@ =~= switch_tab_tag());
        }
        tagged(&tag, &cs, switch_tab.len())
    } else {
        let tag = vec!['C', 'M', 'D', ':'];
        proof {
            assert(tag@ =~= cmd_tag());
            assert(cs@.skip(0) =~= cs@);
        }
        tagged(&tag, &cs, 0)
    }
}

/// The paths of a file-open request joined by `'\n'`.
pub open spec fn joined_lines(paths: Seq<Seq<char>>) -> Seq<char>
    decreases paths.len(),
{
    if paths.len() == 0 {
        Seq::empty()
    } else if paths.len() == 1 {
        paths[0]
    } else {
        joined_lines(paths.drop_last()) + seq!['\n'] + paths.last()
    }
}

/// The text to send to the running editor to open `paths`.
pub fn format_open_files_message(paths: &Vec<String>) -> (message: String)
    ensures
        message@ == joined_lines(paths.deep_view()),
{
    let mut message = String::new();
    let mut i: usize = 0;
    while i < paths.len()
        invariant
            i <= paths@.len(),
            message@ == joined_lines(paths.deep_view().take(i as int)),
        decreases paths.len() - i,
    {
        let ghost before = message@;
        if i > 0 {
            push_char(&mut message, '\n');
        }
        let cs = chars_of(paths[i].as_str());
        let mut j: usize = 0;
        while j < cs.len()
            invariant
                j <= cs@.len(),
                message@ == (if i > 0 {
                    before + seq!['\n']
                } else {
                    before
                }) + cs@.take(j as int),
            decreases cs.len() - j,
        {
            push_char(&mut message, cs[j]);
            proof {
                assert(cs@.take(j + 1) =~= cs@.take(j as int).push(cs@[j as int]));
            }
            j = j + 1;
        }
        proof {
            let dv = paths.deep_view();
            assert(cs@.take(cs@.len() as int) =~= cs@);
            assert(dv.take(i + 1).drop_last() =~= dv.take(i as int));
            assert(dv[i as int] == paths@[i as int]@);
            if i == 0 {
                assert(before =~= Seq::<char>::empty());
            }
        }
        i = i + 1;
    }
    proof {
        assert(paths.deep_view().take(paths@.len() as int) =~= paths.deep_view());
    }
    message
}

} // verus!

verus! {

/// The request that a command-line command stands for.
pub open spec fn command_request(c: Seq<char>) -> IpcMessageView {
    if has_prefix(c, set_text_arg()) {
        IpcMessageView::SetText(c.skip(set_text_arg().len() as int))
    } else if has_prefix(c, save_as_arg()) {
        IpcMessageView::SaveAs(c.skip(save_as_arg().len() as int))
    } else if has_prefix(c, switch_tab_arg()) {
        IpcMessageView::SwitchTab(parsed_index(c.skip(switch_tab_arg().len() as int))->0)
    } else {
        IpcMessageView::ExecuteCommand(c)
    }
}

proof fn lemma_tagged_prefix(tag: Seq<char>, rest: Seq<char>)
    ensures
        has_prefix(tag + rest, tag),
        (tag + rest).skip(tag.len() as int) == rest,
{
    assert((tag + rest).take(tag.len() as int) =~= tag);
    assert((tag + rest).skip(tag.len() as int) =~= rest);
}

/// The running editor reads the text a command-line command is sent as back
/// into the request the command stands for; the one exception is a
/// `switch-tab:` whose index does not parse.
pub proof fn lemma_command_round_trip(c: Seq<char>)
    requires
        !(has_prefix(c, switch_tab_arg()) && parsed_index(
            c.skip(switch_tab_arg().len() as int),
        ) is None),
    ensures
        parse_ipc_spec(command_message_spec(c)) == Some(command_request(c)),
{
    let m = command_message_spec(c);
    if has_prefix(c, set_text_arg()) {
        lemma_tagged_prefix(set_tag(), c.skip(9));
        assert(m[0] == 'S');
        assert(!has_prefix(m, cmd_tag())) by {
            assert(m.take(4)[0] != cmd_tag()[0]);
        }
    } else if has_prefix(c, save_as_arg()) {
        lemma_tagged_prefix(save_as_tag(), c.skip(8));
        assert(!has_prefix(m, cmd_tag())) by {
            assert(m.take(4)[0] != cmd_tag()[0]);
        }
        assert(!has_prefix(m, set_tag())) by {
            assert(m.take(4)[1] != set_tag()[1]);
        }
    } else if has_prefix(c, switch_tab_arg()) {
        lemma_tagged_prefix(switch_tab_tag(), c.skip(11));
        assert(!has_prefix(m, cmd_tag())) by {
            assert(m.take(4)[0] != cmd_tag()[0]);
        }
        assert(!has_prefix(m, set_tag())) by {
            assert(m.take(4)[1] != set_tag()[1]);
        }
        assert(!has_prefix(m, save_as_tag())) by {
            assert(m.take(7)[1] != save_as_tag()[1]);
        }
    } else {
        lemma_tagged_prefix(cmd_tag(), c);
    }
}

/// `next_newline` over a text with a prefix in front, from a point past
/// the prefix.
proof fn lemma_next_newline_shift(p: Seq<char>, y: Seq<char>, k: int)
    requires
        0 <= k <= y.len(),
    ensures
        next_newline(p + y, p.len() + k) == p.len() + next_newline(y, k),
    decreases y.len() - k,
{
    if k < y.len() {
        assert((p + y)[p.len() + k] == y[k]);
        if y[k] != '\n' {
            lemma_next_newline_shift(p, y, k + 1);
        }
    }
}

/// `pieces_from` over a text with a prefix in front, from a point past the
/// prefix.
proof fn lemma_pieces_shift(p: Seq<char>, y: Seq<char>, k: int)
    requires
        0 <= k <= y.len(),
    ensures
        pieces_from(p + y, p.len() + k) == pieces_from(y, k),
    decreases y.len() + 1 - k,
{
    let t = p + y;
    lemma_next_newline_shift(p, y, k);
    crate::text::lemma_next_newline_bounds(y, k);
    let e = next_newline(y, k);
    assert(t.subrange(p.len() + k, p.len() + e) =~= y.subrange(k, e));
    if e < y.len() {
        lemma_pieces_shift(p, y, e + 1);
    }
}

/// Splitting `x`, a line break and `y` gives the pieces of `x` followed by
/// the pieces of `y`.
proof fn lemma_pieces_concat(x: Seq<char>, y: Seq<char>, s: int)
    requires
        0 <= s <= x.len(),
    ensures
        pieces_from(x + seq!['\n'] + y, s) == pieces_from(x, s) + pieces_from(y, 0),
    decreases x.len() + 1 - s,
{
    let t = x + seq!['\n'] + y;
    let xn = x + seq!['\n'];
    assert(t =~= xn + y);
    crate::text::lemma_next_newline_bounds(x, s);
    crate::text::lemma_next_newline_bounds(t, s);
    let ex = next_newline(x, s);
    lemma_next_newline_prefix(x, seq!['\n'] + y, s);
    assert(t =~= x + (seq!['\n'] + y));
    let et = next_newline(t, s);
    if ex < x.len() {
        assert(et == ex);
        assert(t.subrange(s, et) =~= x.subrange(s, ex));
        lemma_pieces_concat(x, y, ex + 1);
        let head: Seq<Seq<char>> = if x.subrange(s, ex).len() > 0 {
            seq![x.subrange(s, ex)]
        } else {
            Seq::empty()
        };
        assert(head + (pieces_from(x, ex + 1) + pieces_from(y, 0)) =~= (head + pieces_from(
            x,
            ex + 1,
        )) + pieces_from(y, 0));
    } else {
        assert(et == x.len());
        assert(t.subrange(s, et) =~= x.subrange(s, ex));
        lemma_pieces_shift(xn, y, 0);
        let head: Seq<Seq<char>> = if x.subrange(s, ex).len() > 0 {
            seq![x.subrange(s, ex)]
        } else {
            Seq::empty()
        };
        assert(pieces_from(x, s) =~= head + Seq::<Seq<char>>::empty());
    }
}

/// `next_newline` over `x + z` agrees with `x` until `x` runs out, and then
/// finds a line break that starts `z` at once.
proof fn lemma_next_newline_prefix(x: Seq<char>, z: Seq<char>, s: int)
    requires
        0 <= s <= x.len(),
        z.len() > 0 && z[0] == '\n',
    ensures
        next_newline(x + z, s) == next_newline(x, s),
    decreases x.len() - s,
{
    if s < x.len() {
        assert((x + z)[s] == x[s]);
        if x[s] != '\n' {
            lemma_next_newline_prefix(x, z, s + 1);
        }
    } else {
        assert((x + z)[s] == z[0]);
    }
}

/// A piece without line breaks splits into itself.
proof fn lemma_pieces_single(x: Seq<char>)
    requires
        x.len() > 0,
        forall|i: int| 0 <= i < x.len() ==> x[i] != '\n',
    ensures
        nonempty_lines(x) == seq![x],
{
    assert forall|k: int| 0 <= k <= x.len() implies next_newline(x, k) == x.len() by {
        lemma_no_newline(x, k);
    }
    assert(x.subrange(0, x.len() as int) =~= x);
    assert(seq![x] + Seq::<Seq<char>>::empty() =~= seq![x]);
}

proof fn lemma_no_newline(x: Seq<char>, k: int)
    requires
        0 <= k <= x.len(),
        forall|i: int| 0 <= i < x.len() ==> x[i] != '\n',
    ensures
        next_newline(x, k) == x.len(),
    decreases x.len() - k,
{
    if k < x.len() {
        lemma_no_newline(x, k + 1);
    }
}

/// The non-empty lines of joined paths are the paths, when none is empty or
/// holds a line break.
proof fn lemma_lines_of_joined(paths: Seq<Seq<char>>)
    requires
        paths.len() > 0,
        forall|i: int|
            0 <= i < paths.len() ==> #[trigger] paths[i].len() > 0 && forall|j: int|
                0 <= j < paths[i].len() ==> paths[i][j] != '\n',
    ensures
        nonempty_lines(joined_lines(paths)) == paths,
    decreases paths.len(),
{
    if paths.len() == 1 {
        assert(paths[0].len() > 0);
        lemma_pieces_single(paths[0]);
        assert(seq![paths[0]] =~= paths);
    } else {
        let init = paths.drop_last();
        assert forall|i: int| 0 <= i < init.len() implies #[trigger] init[i].len() > 0 && forall|
            j: int,
        | 0 <= j < init[i].len() ==> init[i][j] != '\n' by {
            assert(init[i] == paths[i]);
        }
        lemma_lines_of_joined(init);
        lemma_pieces_concat(joined_lines(init), paths.last(), 0);
        assert(paths.last() == paths[paths.len() - 1]);
        lemma_pieces_single(paths.last());
        assert(init + seq![paths.last()] =~= paths);
    }
}

/// A file-open request sent for some paths is read back as a request to
/// open exactly those paths, when none is empty or holds a line break and
/// the first does not start with a request prefix.
pub proof fn lemma_open_files_round_trip(paths: Seq<Seq<char>>)
    requires
        paths.len() > 0,
        forall|i: int|
            0 <= i < paths.len() ==> #[trigger] paths[i].len() > 0 && forall|j: int|
                0 <= j < paths[i].len() ==> paths[i][j] != '\n',
        !has_prefix(paths[0], cmd_tag()),
        !has_prefix(paths[0], set_tag()),
        !has_prefix(paths[0], save_as_tag()),
        !has_prefix(paths[0], switch_tab_tag()),
    ensures
        parse_ipc_spec(joined_lines(paths)) == Some(IpcMessageView::OpenFiles(paths)),
{
    lemma_lines_of_joined(paths);
    lemma_joined_starts_with_first(paths);
    let t = joined_lines(paths);
    let p0 = paths[0];
    assert forall|tag: Seq<char>|
        tag.len() > 0 && (forall|j: int| 0 <= j < tag.len() ==> tag[j] != '\n') && !has_prefix(
            p0,
            tag,
        ) implies !#[trigger] has_prefix(t, tag) by {
        if has_prefix(t, tag) {
            if tag.len() <= p0.len() {
                assert(p0.take(tag.len() as int) =~= t.take(tag.len() as int));
            } else {
                if paths.len() == 1 {
                    assert(t == p0);
                } else {
                    assert(t[p0.len() as int] == '\n');
                    assert(t.take(tag.len() as int)[p0.len() as int] == tag[p0.len() as int]);
                }
            }
        }
    }
}

/// Joined paths start with the first path, followed by a line break when
/// there are more.
proof fn lemma_joined_starts_with_first(paths: Seq<Seq<char>>)
    requires
        paths.len() > 0,
    ensures
        joined_lines(paths).len() >= paths[0].len(),
        joined_lines(paths).take(paths[0].len() as int) == paths[0],
        paths.len() > 1 ==> joined_lines(paths).len() > paths[0].len() && joined_lines(
            paths,
        )[paths[0].len() as int] == '\n',
    decreases paths.len(),
{
    if paths.len() == 1 {
        assert(joined_lines(paths).take(paths[0].len() as int) =~= paths[0]);
    } else {
        let init = paths.drop_last();
        lemma_joined_starts_with_first(init);
        let j = joined_lines(init);
        let t = joined_lines(paths);
        assert(t == j + seq!['\n'] + paths.last());
        assert(t.take(paths[0].len() as int) =~= j.take(paths[0].len() as int));
        if init.len() > 1 {
            assert(t[paths[0].len() as int] == j[paths[0].len() as int]);
        } else {
            assert(j == paths[0]);
            assert(t[paths[0].len() as int] == '\n');
        }
    }
}

} // verus!
