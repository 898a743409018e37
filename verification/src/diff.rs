use vstd::prelude::*;

verus! {

/// Change code of a line that both files share.
pub const CHANGE_EQUAL: u8 = 0;

/// Change code of a line that only the left (old) file has.
pub const CHANGE_DELETE: u8 = 1;

/// Change code of a line that only the right (new) file has.
pub const CHANGE_INSERT: u8 = 2;

/// How one side of a row of the side-by-side view relates to the other file.
#[derive(Clone, Copy, PartialEq, Eq, Structural, Debug)]
pub enum DiffLineKind {
    Normal,
    Added,
    Removed,
}

/// One side (left or right) of a row of the side-by-side view.
pub struct DiffLineSide {
    pub line_number: Option<usize>,
    pub content: String,
    pub kind: DiffLineKind,
}

/// The abstract value of a row side: its line number, text and kind.
pub type SideView = (Option<usize>, Seq<char>, DiffLineKind);

/// The abstract value of a row of the side-by-side view.
pub type RowView = (SideView, SideView);

impl View for DiffLineSide {
    type V = SideView;

    open spec fn view(&self) -> SideView {
        (self.line_number, self.content@, self.kind)
    }
}

/// A side-by-side comparison of two texts.
pub struct DiffState {
    pub left_title: String,
    pub right_title: String,
    pub lines: Vec<(DiffLineSide, DiffLineSide)>,
}

/// The abstract rows of a list of exec rows.
pub open spec fn rows_view(rows: Seq<(DiffLineSide, DiffLineSide)>) -> Seq<RowView> {
    rows.map_values(|r: (DiffLineSide, DiffLineSide)| (r.0@, r.1@))
}

/// The side shown opposite a line that the other file lacks.
pub open spec fn blank_side() -> SideView {
    (None, Seq::empty(), DiffLineKind::Normal)
}

/// Number of consecutive changes with code `code` starting at index `i`.
pub open spec fn run_length(ch: Seq<(u8, Seq<char>)>, i: int, code: u8) -> nat
    decreases ch.len() - i,
{
    if 0 <= i < ch.len() && ch[i].0 == code {
        1 + run_length(ch, i + 1, code)
    } else {
        0
    }
}

/// The rows that a block of `d` deleted lines at `i`, followed by `k` inserted
/// lines, is shown as: the i-th deleted line beside the i-th inserted line,
/// the shorter side padded with blank sides.
pub open spec fn block_rows(
    ch: Seq<(u8, Seq<char>)>,
    i: int,
    d: nat,
    k: nat,
    ln: nat,
    rn: nat,
) -> Seq<RowView> {
    Seq::new(
        if d >= k { d } else { k },
        |j: int|
            (
                if j < d {
                    (Some((ln + j + 1) as usize), ch[i + j].1, DiffLineKind::Removed)
                } else {
                    blank_side()
                },
                if j < k {
                    (Some((rn + j + 1) as usize), ch[i + d + j].1, DiffLineKind::Added)
                } else {
                    blank_side()
                },
            ),
    )
}

/// The rows shown for the changes from index `i` on, when `ln` left lines and
/// `rn` right lines have been numbered before.
pub open spec fn rows_from(ch: Seq<(u8, Seq<char>)>, i: int, ln: nat, rn: nat) -> Seq<RowView>
    decreases ch.len() - i,
{
    if i < 0 || i >= ch.len() {
        Seq::empty()
    } else if ch[i].0 == CHANGE_EQUAL {
        seq![
            (
                (Some((ln + 1) as usize), ch[i].1, DiffLineKind::Normal),
                (Some((rn + 1) as usize), ch[i].1, DiffLineKind::Normal),
            ),
        ] + rows_from(ch, i + 1, ln + 1, rn + 1)
    } else if ch[i].0 == CHANGE_DELETE {
        let d = run_length(ch, i, CHANGE_DELETE);
        let k = run_length(ch, i + d, CHANGE_INSERT);
        proof {
            lemma_run_bounds(ch, i, CHANGE_DELETE);
            lemma_run_bounds(ch, i + d, CHANGE_INSERT);
        }
        block_rows(ch, i, d, k, ln, rn) + rows_from(ch, i + d + k, ln + d, rn + k)
    } else {
        seq![(blank_side(), (Some((rn + 1) as usize), ch[i].1, DiffLineKind::Added))] + rows_from(
            ch,
            i + 1,
            ln,
            rn + 1,
        )
    }
}

/// The rows of the side-by-side view of a whole list of line changes.
pub open spec fn diff_rows(ch: Seq<(u8, Seq<char>)>) -> Seq<RowView> {
    rows_from(ch, 0, 0, 0)
}

/// A run of changes never reaches past the end of the list.
pub proof fn lemma_run_bounds(ch: Seq<(u8, Seq<char>)>, i: int, code: u8)
    requires
        0 <= i <= ch.len(),
    ensures
        i + run_length(ch, i, code) <= ch.len(),
    decreases ch.len() - i,
{
    if i < ch.len() && ch[i].0 == code {
        lemma_run_bounds(ch, i + 1, code);
    }
}

/// Collects the lines of the run of changes with code `code` that starts at
/// `*i`, numbering them after `*num`.
fn collect_run(
    changes: &Vec<(u8, String)>,
    i: &mut usize,
    num: &mut usize,
    code: u8,
) -> (run: Vec<(usize, String)>)
    requires
        *old(i) <= changes.len(),
        *old(num) <= *old(i),
    ensures
        *final(i) == *old(i) + run_length(changes.deep_view(), *old(i) as int, code),
        *final(num) == *old(num) + run_length(changes.deep_view(), *old(i) as int, code),
        *final(i) <= changes.len(),
        run@.len() == run_length(changes.deep_view(), *old(i) as int, code),
        forall|j: int|
            0 <= j < run@.len() ==> #[trigger] run@[j].0 == *old(num) + j + 1 && run@[j].1@
                == changes.deep_view()[*old(i) + j].1,
{
    let ghost ch = changes.deep_view();
    let ghost i0 = *i as int;
    let ghost n0 = *num as int;
    let mut run: Vec<(usize, String)> = Vec::new();
    proof {
        lemma_run_bounds(ch, i0, code);
    }
    while *i < changes.len() && changes[*i].0 == code
        invariant
            ch == changes.deep_view(),
            i0 <= *i <= changes.len(),
            *num == n0 + (*i - i0),
            n0 <= i0,
            run_length(ch, i0, code) == (*i - i0) + run_length(ch, *i as int, code),
            i0 + run_length(ch, i0, code) <= ch.len(),
            run@.len() == *i - i0,
            forall|j: int|
                0 <= j < run@.len() ==> #[trigger] run@[j].0 == n0 + j + 1 && run@[j].1@ == ch[i0
                    + j].1,
        decreases changes.len() - *i,
    {
        *num = *num + 1;
        let line = changes[*i].1.clone();
        run.push((*num, line));
        *i = *i + 1;
    }
    run
}

/// The rows showing collected runs of deleted and inserted lines side by side.
pub open spec fn run_block(deletes: Seq<(usize, String)>, inserts: Seq<(usize, String)>) -> Seq<
    RowView,
> {
    Seq::new(
        if deletes.len() >= inserts.len() {
            deletes.len()
        } else {
            inserts.len()
        },
        |j: int|
            (
                if j < deletes.len() {
                    (Some(deletes[j].0), deletes[j].1@, DiffLineKind::Removed)
                } else {
                    blank_side()
                },
                if j < inserts.len() {
                    (Some(inserts[j].0), inserts[j].1@, DiffLineKind::Added)
                } else {
                    blank_side()
                },
            ),
    )
}

/// Appends the rows that show `deletes` beside `inserts`.
fn push_block(
    lines: &mut Vec<(DiffLineSide, DiffLineSide)>,
    deletes: &Vec<(usize, String)>,
    inserts: &Vec<(usize, String)>,
)
    ensures
        rows_view(final(lines)@) == rows_view(old(lines)@) + run_block(deletes@, inserts@),
{
    let ghost before = rows_view(lines@);
    let ghost block = run_block(deletes@, inserts@);
    let max_len = if deletes.len() >= inserts.len() {
        deletes.len()
    } else {
        inserts.len()
    };
    let mut j: usize = 0;
    while j < max_len
        invariant
            block == run_block(deletes@, inserts@),
            max_len == block.len(),
            j <= max_len,
            rows_view(lines@) == before + block.take(j as int),
        decreases max_len - j,
    {
        let left = if j < deletes.len() {
            DiffLineSide {
                line_number: Some(deletes[j].0),
                content: deletes[j].1.clone(),
                kind: DiffLineKind::Removed,
            }
        } else {
            DiffLineSide { line_number: None, content: String::new(), kind: DiffLineKind::Normal }
        };
        let right = if j < inserts.len() {
            DiffLineSide {
                line_number: Some(inserts[j].0),
                content: inserts[j].1.clone(),
                kind: DiffLineKind::Added,
            }
        } else {
            DiffLineSide { line_number: None, content: String::new(), kind: DiffLineKind::Normal }
        };
        let ghost prev = rows_view(lines@);
        lines.push((left, right));
        proof {
            assert(rows_view(lines@) =~= prev.push(block[j as int]));
            assert(block.take(j as int).push(block[j as int]) =~= block.take(j + 1));
        }
        j = j + 1;
    }
    proof {
        assert(block.take(max_len as int) =~= block);
    }
}

/// Lays out a list of line changes as rows of a side-by-side view: shared
/// lines side by side, a run of deleted lines beside the run of inserted lines
/// that follows it, and every other line beside a blank side. Left and right
/// lines are numbered from 1 in the order of their files.
pub fn pair_changes(changes: &Vec<(u8, String)>) -> (rows: Vec<(DiffLineSide, DiffLineSide)>)
    ensures
        rows_view(rows@) == diff_rows(changes.deep_view()),
{
    let ghost ch = changes.deep_view();
    let mut lines: Vec<(DiffLineSide, DiffLineSide)> = Vec::new();
    let mut left_num: usize = 0;
    let mut right_num: usize = 0;
    let mut i: usize = 0;
    while i < changes.len()
        invariant
            ch == changes.deep_view(),
            i <= changes.len(),
            left_num <= i,
            right_num <= i,
            rows_view(lines@) + rows_from(ch, i as int, left_num as nat, right_num as nat)
                == diff_rows(ch),
        decreases changes.len() - i,
    {
        let ghost before = rows_view(lines@);
        let code = changes[i].0;
        if code == CHANGE_EQUAL {
            left_num = left_num + 1;
            right_num = right_num + 1;
            let left = DiffLineSide {
                line_number: Some(left_num),
                content: changes[i].1.clone(),
                kind: DiffLineKind::Normal,
            };
            let right = DiffLineSide {
                line_number: Some(right_num),
                content: changes[i].1.clone(),
                kind: DiffLineKind::Normal,
            };
            lines.push((left, right));
            proof {
                assert(rows_view(lines@) =~= before.push(rows_view(lines@).last()));
                assert(before.push(rows_view(lines@).last()) + rows_from(
                    ch,
                    i + 1,
                    left_num as nat,
                    right_num as nat,
                ) =~= before + rows_from(ch, i as int, (left_num - 1) as nat, (right_num - 1) as nat));
            }
            i = i + 1;
        } else if code == CHANGE_DELETE {
            let ghost i0 = i as int;
            let ghost ln0 = left_num as nat;
            let ghost rn0 = right_num as nat;
            let deletes = collect_run(changes, &mut i, &mut left_num, CHANGE_DELETE);
            let inserts = collect_run(changes, &mut i, &mut right_num, CHANGE_INSERT);
            let ghost d = deletes@.len();
            let ghost k = inserts@.len();
            let ghost block = block_rows(ch, i0, d, k, ln0, rn0);
            push_block(&mut lines, &deletes, &inserts);
            proof {
                assert(run_block(deletes@, inserts@) =~= block);
            }
            proof {
                assert(rows_from(ch, i0, ln0, rn0) == block + rows_from(
                    ch,
                    i0 + d + k,
                    ln0 + d,
                    rn0 + k,
                ));
                assert(before + block + rows_from(ch, i as int, left_num as nat, right_num as nat)
                    =~= before + (block + rows_from(
                    ch,
                    i as int,
                    left_num as nat,
                    right_num as nat,
                )));
            }
        } else {
            right_num = right_num + 1;
            let left = DiffLineSide { line_number: None, content: String::new(), kind: DiffLineKind::Normal };
            let right = DiffLineSide {
                line_number: Some(right_num),
                content: changes[i].1.clone(),
                kind: DiffLineKind::Added,
            };
            lines.push((left, right));
            proof {
                assert(rows_view(lines@) =~= before.push(rows_view(lines@).last()));
                assert(before.push(rows_view(lines@).last()) + rows_from(
                    ch,
                    i + 1,
                    left_num as nat,
                    right_num as nat,
                ) =~= before + rows_from(ch, i as int, left_num as nat, (right_num - 1) as nat));
            }
            i = i + 1;
        }
    }
    proof {
        assert(rows_view(lines@) + rows_from(ch, i as int, left_num as nat, right_num as nat)
            =~= rows_view(lines@));
    }
    lines
}


/// The sides among `sides` that show a line (those with a line number), as
/// (number, text), in order.
pub open spec fn shown_lines(sides: Seq<SideView>) -> Seq<(Option<usize>, Seq<char>)>
    decreases sides.len(),
{
    if sides.len() == 0 {
        Seq::empty()
    } else {
        let rest = shown_lines(sides.drop_first());
        if sides[0].0 is Some {
            seq![(sides[0].0, sides[0].1)] + rest
        } else {
            rest
        }
    }
}

/// The left sides of a list of rows.
pub open spec fn left_sides(rows: Seq<RowView>) -> Seq<SideView> {
    rows.map_values(|r: RowView| r.0)
}

/// The right sides of a list of rows.
pub open spec fn right_sides(rows: Seq<RowView>) -> Seq<SideView> {
    rows.map_values(|r: RowView| r.1)
}

/// The texts of the changes from index `i` on that are lines of the old
/// (left) file: shared and deleted lines.
pub open spec fn old_lines_from(ch: Seq<(u8, Seq<char>)>, i: int) -> Seq<Seq<char>>
    decreases ch.len() - i,
{
    if i < 0 || i >= ch.len() {
        Seq::empty()
    } else if ch[i].0 == CHANGE_EQUAL || ch[i].0 == CHANGE_DELETE {
        seq![ch[i].1] + old_lines_from(ch, i + 1)
    } else {
        old_lines_from(ch, i + 1)
    }
}

/// The texts of the changes from index `i` on that are lines of the new
/// (right) file: every change but a deleted line.
pub open spec fn new_lines_from(ch: Seq<(u8, Seq<char>)>, i: int) -> Seq<Seq<char>>
    decreases ch.len() - i,
{
    if i < 0 || i >= ch.len() {
        Seq::empty()
    } else if ch[i].0 != CHANGE_DELETE {
        seq![ch[i].1] + new_lines_from(ch, i + 1)
    } else {
        new_lines_from(ch, i + 1)
    }
}

/// `lines` numbered from `from + 1` on.
pub open spec fn numbered(lines: Seq<Seq<char>>, from: nat) -> Seq<(Option<usize>, Seq<char>)> {
    Seq::new(lines.len(), |k: int| (Some((from + k + 1) as usize), lines[k]))
}

/// The texts of the `n` changes starting at index `i`.
pub open spec fn change_texts(ch: Seq<(u8, Seq<char>)>, i: int, n: nat) -> Seq<Seq<char>> {
    Seq::new(n, |j: int| ch[i + j].1)
}

proof fn lemma_shown_lines_add(a: Seq<SideView>, b: Seq<SideView>)
    ensures
        shown_lines(a + b) == shown_lines(a) + shown_lines(b),
    decreases a.len(),
{
    if a.len() == 0 {
        assert(a + b =~= b);
        assert(shown_lines(a) =~= Seq::<(Option<usize>, Seq<char>)>::empty());
        assert(shown_lines(a) + shown_lines(b) =~= shown_lines(b));
    } else {
        assert((a + b).drop_first() =~= a.drop_first() + b);
        lemma_shown_lines_add(a.drop_first(), b);
        assert((a + b)[0] == a[0]);
        if a[0].0 is Some {
            assert(seq![(a[0].0, a[0].1)] + (shown_lines(a.drop_first()) + shown_lines(b)) =~= (
            seq![(a[0].0, a[0].1)] + shown_lines(a.drop_first())) + shown_lines(b));
        }
    }
}

proof fn lemma_numbered_add(x: Seq<Seq<char>>, y: Seq<Seq<char>>, n: nat)
    ensures
        numbered(x, n) + numbered(y, n + x.len()) == numbered(x + y, n),
{
    assert(numbered(x, n) + numbered(y, n + x.len()) =~= numbered(x + y, n));
}

/// Sides whose first `texts.len()` entries show `texts` numbered from
/// `ln + 1`, and whose other entries show no line, show exactly those lines.
proof fn lemma_shown_prefix(s: Seq<SideView>, texts: Seq<Seq<char>>, ln: nat)
    requires
        texts.len() <= s.len(),
        forall|j: int|
            0 <= j < texts.len() ==> (#[trigger] s[j]).0 == Some((ln + j + 1) as usize) && s[j].1
                == texts[j],
        forall|j: int| texts.len() <= j < s.len() ==> (#[trigger] s[j]).0 is None,
    ensures
        shown_lines(s) == numbered(texts, ln),
    decreases s.len(),
{
    if s.len() == 0 {
        assert(numbered(texts, ln) =~= Seq::<(Option<usize>, Seq<char>)>::empty());
    } else if texts.len() == 0 {
        assert forall|j: int| 0 <= j < s.drop_first().len() implies s.drop_first()[j].0 is None by {
            assert(s.drop_first()[j] == s[j + 1]);
        }
        lemma_shown_prefix(s.drop_first(), texts, ln);
        assert(s[0].0 is None);
    } else {
        let rest = s.drop_first();
        let more = texts.drop_first();
        assert forall|j: int| 0 <= j < more.len() implies rest[j].0 == Some(((ln + 1) + j + 1) as usize)
            && rest[j].1 == more[j] by {
            assert(rest[j] == s[j + 1]);
            assert(more[j] == texts[j + 1]);
        }
        assert forall|j: int| more.len() <= j < rest.len() implies rest[j].0 is None by {
            assert(rest[j] == s[j + 1]);
        }
        lemma_shown_prefix(rest, more, ln + 1);
        assert(s[0].0 == Some((ln + 0 + 1) as usize) && s[0].1 == texts[0]);
        assert(numbered(texts, ln) =~= seq![(s[0].0, s[0].1)] + numbered(more, ln + 1));
    }
}

/// A run of deleted lines belongs to the old file only, a run of inserted
/// lines to the new file only.
proof fn lemma_run_lines(ch: Seq<(u8, Seq<char>)>, i: int, code: u8)
    requires
        0 <= i <= ch.len(),
        code == CHANGE_DELETE || code == CHANGE_INSERT,
    ensures
        i + run_length(ch, i, code) <= ch.len(),
        code == CHANGE_DELETE ==> old_lines_from(ch, i) == change_texts(ch, i, run_length(ch, i, code))
            + old_lines_from(ch, i + run_length(ch, i, code)),
        code == CHANGE_DELETE ==> new_lines_from(ch, i) == new_lines_from(ch, i + run_length(ch, i, code)),
        code == CHANGE_INSERT ==> new_lines_from(ch, i) == change_texts(ch, i, run_length(ch, i, code))
            + new_lines_from(ch, i + run_length(ch, i, code)),
        code == CHANGE_INSERT ==> old_lines_from(ch, i) == old_lines_from(ch, i + run_length(ch, i, code)),
    decreases ch.len() - i,
{
    lemma_run_bounds(ch, i, code);
    let r = run_length(ch, i, code);
    if i < ch.len() && ch[i].0 == code {
        lemma_run_lines(ch, i + 1, code);
        assert(change_texts(ch, i, r) =~= seq![ch[i].1] + change_texts(ch, i + 1, (r - 1) as nat));
    } else {
        assert(change_texts(ch, i, r) =~= Seq::<Seq<char>>::empty());
    }
}

/// The rows shown for the changes from index `i` on: their left sides that
/// show a line are the old file's lines numbered after `ln`, their right
/// sides that show a line are the new file's lines numbered after `rn`; a
/// side without a line number is blank; no left side is marked added and no
/// right side removed.
proof fn lemma_rows_columns(ch: Seq<(u8, Seq<char>)>, i: int, ln: nat, rn: nat)
    requires
        0 <= i <= ch.len(),
    ensures
        shown_lines(left_sides(rows_from(ch, i, ln, rn))) == numbered(old_lines_from(ch, i), ln),
        shown_lines(right_sides(rows_from(ch, i, ln, rn))) == numbered(new_lines_from(ch, i), rn),
        forall|j: int|
            0 <= j < rows_from(ch, i, ln, rn).len() ==> {
                let r = #[trigger] rows_from(ch, i, ln, rn)[j];
                &&& r.0.2 != DiffLineKind::Added
                &&& r.1.2 != DiffLineKind::Removed
                &&& r.0.0 is None ==> r.0 == blank_side()
                &&& r.1.0 is None ==> r.1 == blank_side()
            },
    decreases ch.len() - i,
{
    let rows = rows_from(ch, i, ln, rn);
    if i >= ch.len() {
        assert(left_sides(rows) =~= Seq::<SideView>::empty());
        assert(right_sides(rows) =~= Seq::<SideView>::empty());
        assert(numbered(old_lines_from(ch, i), ln) =~= Seq::<(Option<usize>, Seq<char>)>::empty());
        assert(numbered(new_lines_from(ch, i), rn) =~= Seq::<(Option<usize>, Seq<char>)>::empty());
    } else if ch[i].0 == CHANGE_EQUAL {
        let head: Seq<RowView> = seq![
            (
                (Some((ln + 1) as usize), ch[i].1, DiffLineKind::Normal),
                (Some((rn + 1) as usize), ch[i].1, DiffLineKind::Normal),
            ),
        ];
        let tail = rows_from(ch, i + 1, ln + 1, rn + 1);
        lemma_rows_columns(ch, i + 1, ln + 1, rn + 1);
        assert(rows == head + tail);
        assert(left_sides(rows) =~= left_sides(head) + left_sides(tail));
        assert(right_sides(rows) =~= right_sides(head) + right_sides(tail));
        lemma_shown_lines_add(left_sides(head), left_sides(tail));
        lemma_shown_lines_add(right_sides(head), right_sides(tail));
        lemma_shown_prefix(left_sides(head), seq![ch[i].1], ln);
        lemma_shown_prefix(right_sides(head), seq![ch[i].1], rn);
        lemma_numbered_add(seq![ch[i].1], old_lines_from(ch, i + 1), ln);
        lemma_numbered_add(seq![ch[i].1], new_lines_from(ch, i + 1), rn);
        assert forall|j: int| 0 <= j < rows.len() implies {
            let r = #[trigger] rows[j];
            &&& r.0.2 != DiffLineKind::Added
            &&& r.1.2 != DiffLineKind::Removed
            &&& r.0.0 is None ==> r.0 == blank_side()
            &&& r.1.0 is None ==> r.1 == blank_side()
        } by {
            if j > 0 {
                assert(rows[j] == tail[j - 1]);
            }
        }
    } else if ch[i].0 == CHANGE_DELETE {
        lemma_run_lines(ch, i, CHANGE_DELETE);
        let d = run_length(ch, i, CHANGE_DELETE);
        lemma_run_lines(ch, i + d, CHANGE_INSERT);
        let k = run_length(ch, i + d, CHANGE_INSERT);
        let block = block_rows(ch, i, d, k, ln, rn);
        let tail = rows_from(ch, i + d + k, ln + d, rn + k);
        lemma_rows_columns(ch, i + d + k, ln + d, rn + k);
        assert(rows == block + tail);
        assert(left_sides(rows) =~= left_sides(block) + left_sides(tail));
        assert(right_sides(rows) =~= right_sides(block) + right_sides(tail));
        lemma_shown_lines_add(left_sides(block), left_sides(tail));
        lemma_shown_lines_add(right_sides(block), right_sides(tail));
        lemma_shown_prefix(left_sides(block), change_texts(ch, i, d), ln);
        lemma_shown_prefix(right_sides(block), change_texts(ch, i + d, k), rn);
        lemma_numbered_add(change_texts(ch, i, d), old_lines_from(ch, i + d + k), ln);
        lemma_numbered_add(change_texts(ch, i + d, k), new_lines_from(ch, i + d + k), rn);
        assert forall|j: int| 0 <= j < rows.len() implies {
            let r = #[trigger] rows[j];
            &&& r.0.2 != DiffLineKind::Added
            &&& r.1.2 != DiffLineKind::Removed
            &&& r.0.0 is None ==> r.0 == blank_side()
            &&& r.1.0 is None ==> r.1 == blank_side()
        } by {
            if j >= block.len() {
                assert(rows[j] == tail[j - block.len()]);
            }
        }
    } else {
        let head: Seq<RowView> = seq![
            (blank_side(), (Some((rn + 1) as usize), ch[i].1, DiffLineKind::Added)),
        ];
        let tail = rows_from(ch, i + 1, ln, rn + 1);
        lemma_rows_columns(ch, i + 1, ln, rn + 1);
        assert(rows == head + tail);
        assert(left_sides(rows) =~= left_sides(head) + left_sides(tail));
        assert(right_sides(rows) =~= right_sides(head) + right_sides(tail));
        lemma_shown_lines_add(left_sides(head), left_sides(tail));
        lemma_shown_lines_add(right_sides(head), right_sides(tail));
        lemma_shown_prefix(left_sides(head), Seq::empty(), ln);
        lemma_shown_prefix(right_sides(head), seq![ch[i].1], rn);
        lemma_numbered_add(Seq::empty(), old_lines_from(ch, i + 1), ln);
        assert(Seq::<Seq<char>>::empty() + old_lines_from(ch, i + 1) =~= old_lines_from(ch, i + 1));
        lemma_numbered_add(seq![ch[i].1], new_lines_from(ch, i + 1), rn);
        assert forall|j: int| 0 <= j < rows.len() implies {
            let r = #[trigger] rows[j];
            &&& r.0.2 != DiffLineKind::Added
            &&& r.1.2 != DiffLineKind::Removed
            &&& r.0.0 is None ==> r.0 == blank_side()
            &&& r.1.0 is None ==> r.1 == blank_side()
        } by {
            if j > 0 {
                assert(rows[j] == tail[j - 1]);
            }
        }
    }
}

/// The side-by-side view keeps both files whole and in order: read from top
/// to bottom, the left sides that show a line are exactly the old file's
/// lines (shared and deleted ones) numbered 1, 2, ..., and the right sides
/// that show a line are exactly the new file's lines (shared and inserted
/// ones) numbered 1, 2, ...; every other side is blank, no left side is
/// marked added and no right side removed.
pub proof fn lemma_diff_columns(ch: Seq<(u8, Seq<char>)>)
    ensures
        shown_lines(left_sides(diff_rows(ch))) == numbered(old_lines_from(ch, 0), 0),
        shown_lines(right_sides(diff_rows(ch))) == numbered(new_lines_from(ch, 0), 0),
        forall|j: int|
            0 <= j < diff_rows(ch).len() ==> {
                let r = #[trigger] diff_rows(ch)[j];
                &&& r.0.2 != DiffLineKind::Added
                &&& r.1.2 != DiffLineKind::Removed
                &&& r.0.0 is None ==> r.0 == blank_side()
                &&& r.1.0 is None ==> r.1 == blank_side()
            },
{
    lemma_rows_columns(ch, 0, 0, 0);
}

} // verus!

verus! {

/// Names the list of line changes that `similar` finds between two texts:
/// each change is a change code and the line's text, in the order of
/// `TextDiff::iter_all_changes`.
pub uninterp spec fn line_changes(old: Seq<char>, new: Seq<char>) -> Seq<(u8, Seq<char>)>;

/// The lines `lines` written one after the other.
pub open spec fn joined(lines: Seq<Seq<char>>) -> Seq<char>
    decreases lines.len(),
{
    if lines.len() == 0 {
        Seq::empty()
    } else {
        joined(lines.drop_last()) + lines.last()
    }
}

/// `t` with a `'\n'` added when it is not empty and does not already end with
/// a line break (`'\n'` or `'\r'`).
pub open spec fn terminated(t: Seq<char>) -> Seq<char> {
    if t.len() == 0 || t.last() == '\n' || t.last() == '\r' {
        t
    } else {
        t + seq!['\n']
    }
}

/// Calls `similar::TextDiff::from_lines(old, new).iter_all_changes()` and turns
/// each change into its code (`ChangeTag::Equal`, `Delete`, `Insert` become
/// `CHANGE_EQUAL`, `CHANGE_DELETE`, `CHANGE_INSERT`) and its `Display` text.
/// Besides naming the result, the contract claims what the diff's operations
/// cover: `from_lines` cuts each text into lines that keep their line breaks,
/// the operations walk both line lists in order, so the shared and deleted
/// lines give back the old text and the shared and inserted lines the new
/// one; `Display` adds a `'\n'` to a line without a line break, which only a
/// text's last line can be.
#[verifier::external_body]
fn diff_lines(old: &str, new: &str) -> (changes: Vec<(u8, String)>)
    ensures
        changes.deep_view() == line_changes(old@, new@),
        joined(old_lines_from(changes.deep_view(), 0)) == terminated(old@),
        joined(new_lines_from(changes.deep_view(), 0)) == terminated(new@),
{
    let diff = similar::TextDiff::from_lines(old, new);
    let mut changes = Vec::new();
    for c in diff.iter_all_changes() {
        let code = match c.tag() {
            similar::ChangeTag::Equal => CHANGE_EQUAL,
            similar::ChangeTag::Delete => CHANGE_DELETE,
            similar::ChangeTag::Insert => CHANGE_INSERT,
        };
        changes.push((code, c.to_string()));
    }
    changes
}

/// The texts of the sides that show a line, in order.
pub open spec fn shown_texts(sides: Seq<SideView>) -> Seq<Seq<char>> {
    shown_lines(sides).map_values(|l: (Option<usize>, Seq<char>)| l.1)
}

/// Compares two texts line by line and lays the result out side by side.
pub fn compute_diff(
    left_text: &str,
    right_text: &str,
    left_title: String,
    right_title: String,
) -> (state: DiffState)
    ensures
        rows_view(state.lines@) == diff_rows(line_changes(left_text@, right_text@)),
        joined(shown_texts(left_sides(rows_view(state.lines@)))) == terminated(left_text@),
        joined(shown_texts(right_sides(rows_view(state.lines@)))) == terminated(right_text@),
        state.left_title@ == left_title@,
        state.right_title@ == right_title@,
{
    let changes = diff_lines(left_text, right_text);
    let lines = pair_changes(&changes);
    proof {
        let ch = changes.deep_view();
        lemma_diff_columns(ch);
        assert(shown_texts(left_sides(diff_rows(ch))) =~= old_lines_from(ch, 0));
        assert(shown_texts(right_sides(diff_rows(ch))) =~= new_lines_from(ch, 0));
    }
    DiffState { left_title, right_title, lines }
}


/// How many of the first `n` rows show a removed line on the left.
pub open spec fn removed_upto(rows: Seq<RowView>, n: int) -> nat
    decreases n,
{
    if n <= 0 {
        0
    } else {
        removed_upto(rows, n - 1) + if rows[n - 1].0.2 == DiffLineKind::Removed {
            1nat
        } else {
            0nat
        }
    }
}

/// How many of the first `n` rows show an added line on the right.
pub open spec fn added_upto(rows: Seq<RowView>, n: int) -> nat
    decreases n,
{
    if n <= 0 {
        0
    } else {
        added_upto(rows, n - 1) + if rows[n - 1].1.2 == DiffLineKind::Added {
            1nat
        } else {
            0nat
        }
    }
}

/// How many changes from index `i` on are deleted lines.
pub open spec fn deleted_from(ch: Seq<(u8, Seq<char>)>, i: int) -> nat
    decreases ch.len() - i,
{
    if i < 0 || i >= ch.len() {
        0
    } else {
        (if ch[i].0 == CHANGE_DELETE {
            1nat
        } else {
            0nat
        }) + deleted_from(ch, i + 1)
    }
}

/// How many changes from index `i` on are inserted lines (neither shared
/// nor deleted).
pub open spec fn inserted_from(ch: Seq<(u8, Seq<char>)>, i: int) -> nat
    decreases ch.len() - i,
{
    if i < 0 || i >= ch.len() {
        0
    } else {
        (if ch[i].0 != CHANGE_EQUAL && ch[i].0 != CHANGE_DELETE {
            1nat
        } else {
            0nat
        }) + inserted_from(ch, i + 1)
    }
}

proof fn lemma_counts_prefix(a: Seq<RowView>, b: Seq<RowView>, n: int)
    requires
        0 <= n <= a.len(),
    ensures
        removed_upto(a + b, n) == removed_upto(a, n),
        added_upto(a + b, n) == added_upto(a, n),
    decreases n,
{
    if n > 0 {
        lemma_counts_prefix(a, b, n - 1);
        assert((a + b)[n - 1] == a[n - 1]);
    }
}

proof fn lemma_counts_add(a: Seq<RowView>, b: Seq<RowView>, m: int)
    requires
        0 <= m <= b.len(),
    ensures
        removed_upto(a + b, a.len() + m) == removed_upto(a, a.len() as int) + removed_upto(b, m),
        added_upto(a + b, a.len() + m) == added_upto(a, a.len() as int) + added_upto(b, m),
    decreases m,
{
    if m == 0 {
        lemma_counts_prefix(a, b, a.len() as int);
    } else {
        lemma_counts_add(a, b, m - 1);
        assert((a + b)[a.len() + m - 1] == b[m - 1]);
    }
}

proof fn lemma_block_counts(
    ch: Seq<(u8, Seq<char>)>,
    i: int,
    d: nat,
    k: nat,
    ln: nat,
    rn: nat,
    n: int,
)
    requires
        0 <= n <= block_rows(ch, i, d, k, ln, rn).len(),
    ensures
        removed_upto(block_rows(ch, i, d, k, ln, rn), n) == if n <= d {
            n
        } else {
            d as int
        },
        added_upto(block_rows(ch, i, d, k, ln, rn), n) == if n <= k {
            n
        } else {
            k as int
        },
    decreases n,
{
    if n > 0 {
        lemma_block_counts(ch, i, d, k, ln, rn, n - 1);
    }
}

/// Counting over runs: a run of deleted lines adds its length to the
/// deleted count and nothing to the inserted count, a run of inserted lines
/// the other way round.
proof fn lemma_run_counts(ch: Seq<(u8, Seq<char>)>, i: int, code: u8)
    requires
        0 <= i <= ch.len(),
        code == CHANGE_DELETE || code == CHANGE_INSERT,
    ensures
        code == CHANGE_DELETE ==> deleted_from(ch, i) == run_length(ch, i, code) + deleted_from(
            ch,
            i + run_length(ch, i, code),
        ) && inserted_from(ch, i) == inserted_from(ch, i + run_length(ch, i, code)),
        code == CHANGE_INSERT ==> inserted_from(ch, i) == run_length(ch, i, code) + inserted_from(
            ch,
            i + run_length(ch, i, code),
        ) && deleted_from(ch, i) == deleted_from(ch, i + run_length(ch, i, code)),
    decreases ch.len() - i,
{
    if i < ch.len() && ch[i].0 == code {
        lemma_run_counts(ch, i + 1, code);
    }
}

proof fn lemma_rows_counts(ch: Seq<(u8, Seq<char>)>, i: int, ln: nat, rn: nat)
    requires
        0 <= i <= ch.len(),
    ensures
        removed_upto(rows_from(ch, i, ln, rn), rows_from(ch, i, ln, rn).len() as int)
            == deleted_from(ch, i),
        added_upto(rows_from(ch, i, ln, rn), rows_from(ch, i, ln, rn).len() as int)
            == inserted_from(ch, i),
    decreases ch.len() - i,
{
    let rows = rows_from(ch, i, ln, rn);
    if i >= ch.len() {
    } else if ch[i].0 == CHANGE_EQUAL {
        let head: Seq<RowView> = seq![
            (
                (Some((ln + 1) as usize), ch[i].1, DiffLineKind::Normal),
                (Some((rn + 1) as usize), ch[i].1, DiffLineKind::Normal),
            ),
        ];
        let tail = rows_from(ch, i + 1, ln + 1, rn + 1);
        lemma_rows_counts(ch, i + 1, ln + 1, rn + 1);
        assert(rows == head + tail);
        lemma_counts_add(head, tail, tail.len() as int);
        assert(removed_upto(head, 0) == 0 && added_upto(head, 0) == 0);
        assert(removed_upto(head, 1) == 0 && added_upto(head, 1) == 0);
    } else if ch[i].0 == CHANGE_DELETE {
        lemma_run_lines(ch, i, CHANGE_DELETE);
        lemma_run_counts(ch, i, CHANGE_DELETE);
        let d = run_length(ch, i, CHANGE_DELETE);
        lemma_run_lines(ch, i + d, CHANGE_INSERT);
        lemma_run_counts(ch, i + d, CHANGE_INSERT);
        let k = run_length(ch, i + d, CHANGE_INSERT);
        let block = block_rows(ch, i, d, k, ln, rn);
        let tail = rows_from(ch, i + d + k, ln + d, rn + k);
        lemma_rows_counts(ch, i + d + k, ln + d, rn + k);
        assert(rows == block + tail);
        lemma_counts_add(block, tail, tail.len() as int);
        lemma_block_counts(ch, i, d, k, ln, rn, block.len() as int);
    } else {
        let head: Seq<RowView> = seq![
            (blank_side(), (Some((rn + 1) as usize), ch[i].1, DiffLineKind::Added)),
        ];
        let tail = rows_from(ch, i + 1, ln, rn + 1);
        lemma_rows_counts(ch, i + 1, ln, rn + 1);
        assert(rows == head + tail);
        lemma_counts_add(head, tail, tail.len() as int);
        assert(removed_upto(head, 0) == 0 && added_upto(head, 0) == 0);
        assert(removed_upto(head, 1) == 0 && added_upto(head, 1) == 1);
    }
}

/// The diff view marks exactly the changed lines: as many left sides are
/// marked removed as there are deleted lines, and as many right sides are
/// marked added as there are inserted lines. Together with
/// `lemma_diff_columns` (the left sides that show a line are the shared and
/// deleted lines, none marked added), every deleted line shows as removed
/// and every shared line as unchanged; the footer's counts are these.
pub proof fn lemma_diff_counts(ch: Seq<(u8, Seq<char>)>)
    ensures
        removed_upto(diff_rows(ch), diff_rows(ch).len() as int) == deleted_from(ch, 0),
        added_upto(diff_rows(ch), diff_rows(ch).len() as int) == inserted_from(ch, 0),
{
    lemma_rows_counts(ch, 0, 0, 0);
}

/// The counts in the diff view's footer: (added lines, removed lines).
pub fn change_counts(lines: &Vec<(DiffLineSide, DiffLineSide)>) -> (counts: (usize, usize))
    ensures
        counts.0 == added_upto(rows_view(lines@), lines@.len() as int),
        counts.1 == removed_upto(rows_view(lines@), lines@.len() as int),
{
    let ghost rows = rows_view(lines@);
    let mut added: usize = 0;
    let mut removed: usize = 0;
    let mut i: usize = 0;
    while i < lines.len()
        invariant
            rows == rows_view(lines@),
            i <= lines@.len(),
            added == added_upto(rows, i as int),
            removed == removed_upto(rows, i as int),
            added <= i,
            removed <= i,
        decreases lines.len() - i,
    {
        proof {
            assert(rows[i as int] == (lines@[i as int].0@, lines@[i as int].1@));
        }
        if lines[i].0.kind == DiffLineKind::Removed {
            removed = removed + 1;
        }
        if lines[i].1.kind == DiffLineKind::Added {
            added = added + 1;
        }
        i = i + 1;
    }
    (added, removed)
}


/// Names the result of `str::trim_end` (trailing Unicode white space removed).
pub uninterp spec fn trimmed_end(s: Seq<char>) -> Seq<char>;

/// Calls `str::trim_end`. Besides naming its result, the contract claims
/// what its documentation says: the result is the string with a tail cut
/// off, so a start of it.
#[verifier::external_body]
fn trim_end_of(s: &str) -> (r: String)
    ensures
        r@ == trimmed_end(s@),
        r@.len() <= s@.len(),
        r@ == s@.subrange(0, r@.len() as int),
{
    s.trim_end().to_string()
}

/// The line-number column of a row side: the number, or nothing for a
/// blank side.
pub open spec fn number_text(n: Option<usize>) -> Seq<char> {
    match n {
        Some(k) => crate::sidebar::decimal(k as nat),
        None => Seq::empty(),
    }
}

/// What the diff view writes for a row: the left number and text, the
/// right number and text, each text without its trailing white space.
pub open spec fn row_texts(row: RowView) -> (Seq<char>, Seq<char>, Seq<char>, Seq<char>) {
    (number_text(row.0.0), trimmed_end(row.0.1), number_text(row.1.0), trimmed_end(row.1.1))
}

/// The text of a number column.
fn number_string(n: Option<usize>) -> (t: String)
    ensures
        t@ == number_text(n),
{
    let mut t = String::new();
    if let Some(k) = n {
        crate::sidebar::push_decimal(&mut t, k);
    }
    t
}

/// The texts of each row of the diff view (see `row_texts`), in order.
pub fn diff_row_texts(lines: &Vec<(DiffLineSide, DiffLineSide)>) -> (texts: Vec<
    (String, String, String, String),
>)
    ensures
        texts@.len() == lines@.len(),
        forall|i: int|
            0 <= i < texts@.len() ==> {
                let t = #[trigger] texts@[i];
                (t.0@, t.1@, t.2@, t.3@) == row_texts((lines@[i].0@, lines@[i].1@))
            },
{
    let mut texts: Vec<(String, String, String, String)> = Vec::new();
    let mut i: usize = 0;
    while i < lines.len()
        invariant
            i <= lines@.len(),
            texts@.len() == i,
            forall|j: int|
                0 <= j < i ==> {
                    let t = #[trigger] texts@[j];
                    (t.0@, t.1@, t.2@, t.3@) == row_texts((lines@[j].0@, lines@[j].1@))
                },
        decreases lines.len() - i,
    {
        let (left, right) = &lines[i];
        let row = (
            number_string(left.line_number),
            trim_end_of(left.content.as_str()),
            number_string(right.line_number),
            trim_end_of(right.content.as_str()),
        );
        texts.push(row);
        i = i + 1;
    }
    texts
}

/// The footer of the diff view: `<rows> lines`, `+<added>` and `-<removed>`
/// (see `change_counts`).
pub fn diff_footer(lines: &Vec<(DiffLineSide, DiffLineSide)>) -> (footer: (String, String, String))
    ensures
        footer.0@ == crate::sidebar::decimal(lines@.len()) + " lines"@,
        footer.1@ == seq!['+'] + crate::sidebar::decimal(
            added_upto(rows_view(lines@), lines@.len() as int),
        ),
        footer.2@ == seq!['-'] + crate::sidebar::decimal(
            removed_upto(rows_view(lines@), lines@.len() as int),
        ),
{
    let (added, removed) = change_counts(lines);
    let mut total = String::new();
    crate::sidebar::push_decimal(&mut total, lines.len());
    crate::sidebar::push_str_chars(&mut total, " lines");
    let mut plus = String::new();
    crate::text::push_char(&mut plus, '+');
    crate::sidebar::push_decimal(&mut plus, added);
    let mut minus = String::new();
    crate::text::push_char(&mut minus, '-');
    crate::sidebar::push_decimal(&mut minus, removed);
    proof {
        assert(plus@ =~= seq!['+'] + crate::sidebar::decimal(added as nat));
        assert(minus@ =~= seq!['-'] + crate::sidebar::decimal(removed as nat));
    }
    (total, plus, minus)
}

} // verus!
