use vstd::prelude::*;

use crate::ipc::has_prefix;
use crate::text::{chars_of, push_char, string_of};

verus! {

broadcast use vstd::string::group_string_axioms;

/// Names the result of `char::is_uppercase` (the Unicode `Uppercase` property).
pub uninterp spec fn is_uppercase(c: char) -> bool;

/// Calls `char::is_uppercase`. Besides naming its result, the contract claims
/// what the Unicode property gives for ASCII: exactly `'A'..='Z'` are upper case.
#[verifier::external_body]
fn char_is_uppercase(c: char) -> (r: bool)
    ensures
        r == is_uppercase(c),
        (c as u32) < 128 ==> (r <==> 'A' <= c <= 'Z'),
{
    c.is_uppercase()
}

/// `c` with ASCII upper-case letters made lower case.
pub open spec fn ascii_lower(c: char) -> char {
    if 'A' <= c <= 'Z' {
        ((c as u32) + 32) as char
    } else {
        c
    }
}

/// `char::to_ascii_lowercase`.
pub fn to_ascii_lower(c: char) -> (r: char)
    ensures
        r == ascii_lower(c),
{
    if 'A' <= c && c <= 'Z' {
        let u = (c as u8) + 32;
        proof {
            assert(u as u32 == (c as u32) + 32);
        }
        u as char
    } else {
        c
    }
}

/// `::` occurs in `t` at `p`.
pub open spec fn path_sep_at(t: Seq<char>, p: int) -> bool {
    0 <= p && p + 2 <= t.len() && t[p] == ':' && t[p + 1] == ':'
}

/// Start of the last `::` in `t` that starts before `p`, if any.
pub open spec fn last_sep_before(t: Seq<char>, p: int) -> Option<int>
    decreases p,
{
    if p <= 0 {
        None
    } else if path_sep_at(t, p - 1) {
        Some(p - 1)
    } else {
        last_sep_before(t, p - 1)
    }
}

/// The part of an action name after its last `::` (all of it when there is none).
pub open spec fn unqualified(t: Seq<char>) -> Seq<char> {
    match last_sep_before(t, t.len() as int) {
        Some(p) => t.skip(p + 2),
        None => t,
    }
}

/// The kebab-case form of a name: each upper-case character but the first
/// gets a `-` before it, and ASCII letters become lower case.
pub open spec fn kebab(u: Seq<char>) -> Seq<char>
    decreases u.len(),
{
    if u.len() == 0 {
        Seq::empty()
    } else {
        let c = u.last();
        kebab(u.drop_last()) + (if is_uppercase(c) && u.len() > 1 {
            seq!['-', ascii_lower(c)]
        } else {
            seq![ascii_lower(c)]
        })
    }
}

/// The kebab-case form of an ASCII name: each letter `'A'..='Z'` but the
/// first character gets a `-` before it, and letters become lower case.
pub open spec fn ascii_kebab(u: Seq<char>) -> Seq<char>
    decreases u.len(),
{
    if u.len() == 0 {
        Seq::empty()
    } else {
        let c = u.last();
        ascii_kebab(u.drop_last()) + (if 'A' <= c <= 'Z' && u.len() > 1 {
            seq!['-', ascii_lower(c)]
        } else {
            seq![ascii_lower(c)]
        })
    }
}

/// Every character of `t` is ASCII.
pub open spec fn all_ascii(t: Seq<char>) -> bool {
    forall|i: int| 0 <= i < t.len() ==> (#[trigger] t[i] as u32) < 128
}

/// The display name of an action: the kebab-case form of its unqualified name.
pub open spec fn action_display_name(name: Seq<char>) -> Seq<char> {
    kebab(unqualified(name))
}

/// The display name of an action, such as `save-file` for `lite_editor::SaveFile`.
pub fn format_action_name(name: &str) -> (display: String)
    ensures
        display@ == action_display_name(name@),
        all_ascii(name@) ==> display@ == ascii_kebab(unqualified(name@)),
{
    let cs = chars_of(name);
    let mut p = cs.len();
    while p > 0 && !(p < cs.len() && cs[p - 1] == ':' && cs[p] == ':')
        invariant
            p <= cs@.len(),
            last_sep_before(cs@, cs@.len() as int) == last_sep_before(cs@, p as int),
        decreases p,
    {
        p = p - 1;
    }
    let start: usize = if p > 0 {
        p + 1
    } else {
        0
    };
    proof {
        if start > 0 {
            assert(last_sep_before(cs@, cs@.len() as int) == Some((start - 2) as int));
        } else {
            assert(last_sep_before(cs@, cs@.len() as int) is None);
            assert(cs@.skip(0) =~= cs@);
        }
    }
    let ghost u = cs@.skip(start as int);
    let mut out = String::new();
    let mut i = start;
    while i < cs.len()
        invariant
            start <= i <= cs@.len(),
            u == cs@.skip(start as int),
            out@ == kebab(cs@.subrange(start as int, i as int)),
            all_ascii(cs@) ==> out@ == ascii_kebab(cs@.subrange(start as int, i as int)),
        decreases cs.len() - i,
    {
        let c = cs[i];
        proof {
            assert(cs@.subrange(start as int, i + 1).drop_last() =~= cs@.subrange(
                start as int,
                i as int,
            ));
            assert(cs@.subrange(start as int, i + 1).last() == c);
        }
        let ghost out0 = out@;
        let upper = char_is_uppercase(c);
        if upper && i > start {
            push_char(&mut out, '-');
        }
        push_char(&mut out, to_ascii_lower(c));
        proof {
            let prev = kebab(cs@.subrange(start as int, i as int));
            if all_ascii(cs@) {
                assert((cs@[i as int] as u32) < 128);
                let aprev = ascii_kebab(cs@.subrange(start as int, i as int));
                assert(out0 == aprev);
                if 'A' <= c <= 'Z' && i > start {
                    assert(out@ =~= aprev + seq!['-', ascii_lower(c)]);
                } else {
                    assert(out@ =~= aprev + seq![ascii_lower(c)]);
                }
                assert(ascii_kebab(cs@.subrange(start as int, i + 1)) == aprev + (if 'A' <= c <= 'Z'
                    && cs@.subrange(start as int, i + 1).len() > 1 {
                    seq!['-', ascii_lower(c)]
                } else {
                    seq![ascii_lower(c)]
                }));
            }
            if is_uppercase(c) && i > start {
                assert(out@ =~= prev + seq!['-', ascii_lower(c)]);
            } else {
                assert(out@ =~= prev + seq![ascii_lower(c)]);
            }
        }
        i = i + 1;
    }
    proof {
        assert(cs@.subrange(start as int, cs@.len() as int) =~= u);
    }
    out
}

} // verus!

verus! {

/// The namespace of this editor's own actions, `lite_editor::`.
pub open spec fn editor_namespace() -> Seq<char> {
    seq!['l', 'i', 't', 'e', '_', 'e', 'd', 'i', 't', 'o', 'r', ':', ':']
}

/// The characters of `lite_editor::`.
fn editor_namespace_chars() -> (cs: Vec<char>)
    ensures
        cs@ == editor_namespace(),
{
    let cs = vec!['l', 'i', 't', 'e', '_', 'e', 'd', 'i', 't', 'o', 'r', ':', ':'];
    proof {
        assert(cs@ =~= editor_namespace());
    }
    cs
}

/// `t` holds `::` somewhere.
pub open spec fn has_path_sep(t: Seq<char>) -> bool {
    exists|p: int| path_sep_at(t, p)
}

/// `a` and `b` are equal once ASCII letters are made lower case.
pub open spec fn eq_ignore_ascii_case(a: Seq<char>, b: Seq<char>) -> bool {
    a.len() == b.len() && forall|i: int| 0 <= i < a.len() ==> ascii_lower(a[i]) == ascii_lower(b[i])
}

/// The action name that a command-line command names, looking from index
/// `i` on, where `fallback` is the last match outside `lite_editor::` so far.
pub open spec fn qualified_from(
    names: Seq<Seq<char>>,
    input: Seq<char>,
    i: int,
    fallback: Option<Seq<char>>,
) -> Seq<char>
    decreases names.len() - i,
{
    if i < 0 || i >= names.len() {
        match fallback {
            Some(n) => n,
            None => editor_namespace() + input,
        }
    } else if eq_ignore_ascii_case(action_display_name(names[i]), input) {
        if has_prefix(names[i], editor_namespace()) {
            names[i]
        } else {
            qualified_from(names, input, i + 1, Some(names[i]))
        }
    } else {
        qualified_from(names, input, i + 1, fallback)
    }
}

/// The action that a command-line command names: a name with `::` as it is;
/// else the first `lite_editor::` action whose display name matches ignoring
/// ASCII case, else the last other action that matches, else the name in the
/// `lite_editor::` namespace.
pub open spec fn qualified_name(input: Seq<char>, names: Seq<Seq<char>>) -> Seq<char> {
    if has_path_sep(input) {
        input
    } else {
        qualified_from(names, input, 0, None)
    }
}

/// The `j`-th registered action lies in the `lite_editor::` namespace and
/// its display name equals `input` ignoring ASCII case.
pub open spec fn editor_action_matches(names: Seq<Seq<char>>, input: Seq<char>, j: int) -> bool {
    0 <= j < names.len() && has_prefix(names[j], editor_namespace()) && eq_ignore_ascii_case(
        action_display_name(names[j]),
        input,
    )
}

proof fn lemma_editor_match_from(
    names: Seq<Seq<char>>,
    input: Seq<char>,
    j: int,
    i: int,
    fallback: Option<Seq<char>>,
)
    requires
        0 <= i <= j,
        editor_action_matches(names, input, j),
        forall|k: int| 0 <= k < j ==> !editor_action_matches(names, input, k),
    ensures
        qualified_from(names, input, i, fallback) == names[j],
    decreases j - i,
{
    if i < j {
        assert(!editor_action_matches(names, input, i));
        if eq_ignore_ascii_case(action_display_name(names[i]), input) {
            lemma_editor_match_from(names, input, j, i + 1, Some(names[i]));
        } else {
            lemma_editor_match_from(names, input, j, i + 1, fallback);
        }
    }
}

/// A command-line name that names an action of this editor resolves to that
/// action: when some `lite_editor::` action's display name equals the input
/// ignoring ASCII case, the result is the first such action, whatever
/// actions of other namespaces with that display name come before it.
pub proof fn lemma_editor_action_wins(input: Seq<char>, names: Seq<Seq<char>>, j: int)
    requires
        !has_path_sep(input),
        editor_action_matches(names, input, j),
        forall|k: int| 0 <= k < j ==> !editor_action_matches(names, input, k),
    ensures
        qualified_name(input, names) == names[j],
        has_prefix(qualified_name(input, names), editor_namespace()),
{
    lemma_editor_match_from(names, input, j, 0, None);
}

/// Whether two strings are equal ignoring ASCII case.
pub(crate) fn same_ignoring_ascii_case(a: &Vec<char>, b: &Vec<char>) -> (r: bool)
    ensures
        r == eq_ignore_ascii_case(a@, b@),
{
    if a.len() != b.len() {
        return false;
    }
    let mut i: usize = 0;
    while i < a.len()
        invariant
            a@.len() == b@.len(),
            i <= a@.len(),
            forall|k: int| 0 <= k < i ==> ascii_lower(a@[k]) == ascii_lower(b@[k]),
        decreases a.len() - i,
    {
        if to_ascii_lower(a[i]) != to_ascii_lower(b[i]) {
            return false;
        }
        i = i + 1;
    }
    true
}

/// Whether the characters `t` start with the characters `p`.
fn starts_with(t: &Vec<char>, p: &Vec<char>) -> (r: bool)
    ensures
        r == has_prefix(t@, p@),
{
    if p.len() > t.len() {
        return false;
    }
    let mut i: usize = 0;
    while i < p.len()
        invariant
            p@.len() <= t@.len(),
            i <= p@.len(),
            forall|k: int| 0 <= k < i ==> t@[k] == p@[k],
        decreases p.len() - i,
    {
        if t[i] != p[i] {
            proof {
                assert(t@.take(p@.len() as int)[i as int] != p@[i as int]);
            }
            return false;
        }
        i = i + 1;
    }
    proof {
        assert(t@.take(p@.len() as int) =~= p@);
    }
    true
}

/// Whether `t` holds `::`.
fn contains_path_sep(t: &Vec<char>) -> (r: bool)
    ensures
        r == has_path_sep(t@),
{
    if t.len() < 2 {
        return false;
    }
    let mut p: usize = 0;
    while p < t.len() - 1
        invariant
            t@.len() >= 2,
            p <= t@.len() - 1,
            forall|q: int| 0 <= q < p ==> !path_sep_at(t@, q),
        decreases t.len() - p,
    {
        if t[p] == ':' && t[p + 1] == ':' {
            proof {
                assert(path_sep_at(t@, p as int));
            }
            return true;
        }
        p = p + 1;
    }
    false
}

/// The fully qualified action that a command-line command names, given the
/// names of all registered actions.
pub fn friendly_name_to_qualified(input: &str, action_names: &Vec<String>) -> (name: String)
    ensures
        name@ == qualified_name(input@, action_names.deep_view()),
{
    let input_chars = chars_of(input);
    if contains_path_sep(&input_chars) {
        return string_of(input_chars.as_slice());
    }
    let ghost names = action_names.deep_view();
    let namespace = editor_namespace_chars();
    let mut fallback: Option<usize> = None;
    let mut i: usize = 0;
    while i < action_names.len()
        invariant
            names == action_names.deep_view(),
            input_chars@ == input@,
            !has_path_sep(input@),
            namespace@ == editor_namespace(),
            i <= names.len(),
            fallback matches Some(f) ==> f < i,
            qualified_from(names, input@, 0, None) == qualified_from(
                names,
                input@,
                i as int,
                match fallback {
                    Some(f) => Some(names[f as int]),
                    None => None,
                },
            ),
        decreases action_names.len() - i,
    {
        let display = format_action_name(action_names[i].as_str());
        let display_chars = chars_of(display.as_str());
        proof {
            assert(names[i as int] == action_names@[i as int]@);
        }
        if same_ignoring_ascii_case(&display_chars, &input_chars) {
            let name_chars = chars_of(action_names[i].as_str());
            if starts_with(&name_chars, &namespace) {
                return action_names[i].clone();
            }
            fallback = Some(i);
        }
        i = i + 1;
    }
    match fallback {
        Some(f) => action_names[f].clone(),
        None => {
            let mut r = string_of(namespace.as_slice());
            let mut j: usize = 0;
            while j < input_chars.len()
                invariant
                    j <= input_chars@.len(),
                    r@ == namespace@ + input_chars@.take(j as int),
                decreases input_chars.len() - j,
            {
                push_char(&mut r, input_chars[j]);
                proof {
                    assert(input_chars@.take(j + 1) =~= input_chars@.take(j as int).push(
                        input_chars@[j as int],
                    ));
                }
                j = j + 1;
            }
            proof {
                assert(input_chars@.take(input_chars@.len() as int) =~= input_chars@);
            }
            r
        },
    }
}

/// No two of `names` hold the same text.
pub open spec fn distinct_names(names: Seq<String>) -> bool {
    forall|i: int, j: int| 0 <= i < j < names.len() ==> names[i]@ != names[j]@
}

/// What holds of the listing of the first `i` action names.
#[verifier::opaque]
pub open spec fn listing_upto(entries: Seq<(String, String)>, names: Seq<String>, i: int) -> bool {
    &&& forall|k: int|
        0 <= k < entries.len() ==> has_prefix(#[trigger] entries[k].1@, editor_namespace())
            && entries[k].0@ == action_display_name(entries[k].1@) && exists|j: int|
            0 <= j < i && names[j]@ == entries[k].1@
    &&& distinct_names(names) ==> forall|a: int, b: int|
        0 <= a < b < entries.len() ==> entries[a].1@ != entries[b].1@
    &&& forall|j: int|
        0 <= j < i && has_prefix(#[trigger] names[j]@, editor_namespace()) ==> exists|k: int|
            0 <= k < entries.len() && entries[k].1@ == names[j]@
}

/// Passing over an action name outside the editor's namespace keeps
/// `listing_upto`.
proof fn lemma_listing_skip(entries: Seq<(String, String)>, names: Seq<String>, i: int)
    requires
        0 <= i < names.len(),
        !has_prefix(names[i]@, editor_namespace()),
        listing_upto(entries, names, i),
    ensures
        listing_upto(entries, names, i + 1),
{
    reveal(listing_upto);
    assert forall|k: int| 0 <= k < entries.len() implies has_prefix(
        #[trigger] entries[k].1@,
        editor_namespace(),
    ) && entries[k].0@ == action_display_name(entries[k].1@) && exists|j: int|
        0 <= j < i + 1 && names[j]@ == entries[k].1@ by {
        assert(has_prefix(entries[k].1@, editor_namespace()));
        let j = choose|j: int| 0 <= j < i && names[j]@ == entries[k].1@;
        assert(0 <= j < i + 1 && names[j]@ == entries[k].1@);
    }
}

/// What `listing_upto` says of the listing of all action names.
proof fn lemma_listing_done(entries: Seq<(String, String)>, names: Seq<String>)
    requires
        listing_upto(entries, names, names.len() as int),
    ensures
        forall|k: int|
            0 <= k < entries.len() ==> has_prefix(#[trigger] entries[k].1@, editor_namespace())
                && entries[k].0@ == action_display_name(entries[k].1@) && exists|j: int|
                0 <= j < names.len() && names[j]@ == entries[k].1@,
        distinct_names(names) ==> forall|a: int, b: int|
            0 <= a < b < entries.len() ==> entries[a].1@ != entries[b].1@,
        forall|j: int|
            0 <= j < names.len() && has_prefix(#[trigger] names[j]@, editor_namespace()) ==> exists|
                k: int,
            | 0 <= k < entries.len() && entries[k].1@ == names[j]@,
{
    reveal(listing_upto);
}

/// Listing the action name at `i` keeps `listing_upto`.
proof fn lemma_listing_push(before: Seq<(String, String)>, x: (String, String), names: Seq<String>, i: int)
    requires
        0 <= i < names.len(),
        x.1@ == names[i]@,
        has_prefix(x.1@, editor_namespace()),
        x.0@ == action_display_name(x.1@),
        listing_upto(before, names, i),
    ensures
        listing_upto(before.push(x), names, i + 1),
{
    reveal(listing_upto);
    let after = before.push(x);
    assert forall|k: int| 0 <= k < after.len() implies has_prefix(
        #[trigger] after[k].1@,
        editor_namespace(),
    ) && after[k].0@ == action_display_name(after[k].1@) && exists|j: int|
        0 <= j < i + 1 && names[j]@ == after[k].1@ by {
        if k < before.len() {
            assert(after[k] == before[k]);
            assert(has_prefix(before[k].1@, editor_namespace()));
            let j = choose|j: int| 0 <= j < i && names[j]@ == before[k].1@;
            assert(0 <= j < i + 1 && names[j]@ == after[k].1@);
        } else {
            assert(after[k] == x);
        }
    }
    if distinct_names(names) {
        assert forall|a: int, b: int| 0 <= a < b < after.len() implies after[a].1@ != after[b].1@ by {
            assert(after[a] == before[a]);
            if b < before.len() {
                assert(after[b] == before[b]);
            } else {
                assert(has_prefix(before[a].1@, editor_namespace()));
                let j = choose|j: int| 0 <= j < i && names[j]@ == before[a].1@;
                assert(names[j]@ != names[i]@);
            }
        }
    }
    assert forall|j: int| 0 <= j < i + 1 && has_prefix(#[trigger] names[j]@, editor_namespace()) implies exists|
        k: int,
    | 0 <= k < after.len() && after[k].1@ == names[j]@ by {
        if j < i {
            let k = choose|k: int| 0 <= k < before.len() && before[k].1@ == names[j]@;
            assert(after[k] == before[k]);
        } else {
            assert(after[before.len() as int].1@ == names[j]@);
        }
    }
}

/// The lines that `--list-commands` prints, as (display name, action name):
/// the `lite_editor::` actions, sorted by display name.
pub fn command_listing(action_names: &Vec<String>) -> (entries: Vec<(String, String)>)
    ensures
        crate::text::sorted_by_key(entries@),
        forall|i: int|
            0 <= i < entries@.len() ==> has_prefix(#[trigger] entries@[i].1@, editor_namespace())
                && entries@[i].0@ == action_display_name(entries@[i].1@) && exists|j: int|
                0 <= j < action_names@.len() && action_names@[j]@ == entries@[i].1@,
        entries@.len() == listed_count(action_names.deep_view(), action_names@.len() as int),
        forall|j: int|
            0 <= j < action_names@.len() && has_prefix(#[trigger] action_names@[j]@, editor_namespace())
                ==> exists|i: int| 0 <= i < entries@.len() && entries@[i].1@ == action_names@[j]@,
        distinct_names(action_names@) ==> forall|i: int, j: int|
            0 <= i < j < entries@.len() ==> entries@[i].1@ != entries@[j].1@,
{
    let namespace = editor_namespace_chars();
    let mut entries: Vec<(String, String)> = Vec::new();
    let mut i: usize = 0;
    proof {
        assert(listing_upto(entries@, action_names@, 0)) by {
            reveal(listing_upto);
        }
    }
    while i < action_names.len()
        invariant
            namespace@ == editor_namespace(),
            i <= action_names@.len(),
            entries@.len() == listed_count(action_names.deep_view(), i as int),
            listing_upto(entries@, action_names@, i as int),
        decreases action_names.len() - i,
    {
        let name_chars = chars_of(action_names[i].as_str());
        proof {
            assert(action_names.deep_view()[i as int] == action_names@[i as int]@);
        }
        if starts_with(&name_chars, &namespace) {
            let display = format_action_name(action_names[i].as_str());
            let ghost before = entries@;
            let entry = (display, action_names[i].clone());
            proof {
                lemma_listing_push(before, entry, action_names@, i as int);
            }
            entries.push(entry);
        } else {
            proof {
                lemma_listing_skip(entries@, action_names@, i as int);
            }
        }
        i = i + 1;
    }
    proof {
        lemma_listing_done(entries@, action_names@);
    }
    let ghost unsorted = entries@;
    let sorted = crate::text::sort_by_text_key(entries);
    proof {
        assert forall|i: int|
            0 <= i < sorted@.len() implies has_prefix(#[trigger] sorted@[i].1@, editor_namespace())
            && sorted@[i].0@ == action_display_name(sorted@[i].1@) && exists|j: int|
            0 <= j < action_names@.len() && action_names@[j]@ == sorted@[i].1@ by {
            assert(sorted@.to_multiset().count(sorted@[i]) > 0) by {
                broadcast use vstd::seq_lib::group_to_multiset_ensures;

                assert(sorted@.contains(sorted@[i]));
            }
            assert(unsorted.contains(sorted@[i])) by {
                broadcast use vstd::seq_lib::group_to_multiset_ensures;

            }
            let k = choose|k: int| 0 <= k < unsorted.len() && unsorted[k] == sorted@[i];
            assert(unsorted[k] == sorted@[i]);
        }
        assert forall|j: int|
            0 <= j < action_names@.len() && has_prefix(
                #[trigger] action_names@[j]@,
                editor_namespace(),
            ) implies exists|i: int| 0 <= i < sorted@.len() && sorted@[i].1@ == action_names@[j]@ by {
            let k = choose|k: int| 0 <= k < unsorted.len() && unsorted[k].1@ == action_names@[j]@;
            assert(unsorted.to_multiset().count(unsorted[k]) > 0) by {
                broadcast use vstd::seq_lib::group_to_multiset_ensures;

                assert(unsorted.contains(unsorted[k]));
            }
            assert(sorted@.contains(unsorted[k])) by {
                broadcast use vstd::seq_lib::group_to_multiset_ensures;

            }
            let i = choose|i: int| 0 <= i < sorted@.len() && sorted@[i] == unsorted[k];
            assert(sorted@[i].1@ == action_names@[j]@);
        }
        if distinct_names(action_names@) {
            crate::text::lemma_reorder_keeps_distinct(
                unsorted,
                sorted@,
                |p: (String, String)| p.1@,
            );
        }
    }
    sorted
}

/// How many of the first `n` action names lie in the `lite_editor::` namespace.
pub open spec fn listed_count(names: Seq<Seq<char>>, n: int) -> nat
    decreases n,
{
    if n <= 0 {
        0
    } else {
        listed_count(names, n - 1) + (if has_prefix(names[n - 1], editor_namespace()) {
            1nat
        } else {
            0nat
        })
    }
}

} // verus!

verus! {

/// The title of a tab without a file name, `untitled`.
pub open spec fn untitled() -> Seq<char> {
    seq!['u', 'n', 't', 'i', 't', 'l', 'e', 'd']
}

/// Names the last component that `std::path::Path::file_name` finds in a path.
pub uninterp spec fn path_file_name(path: Seq<char>) -> Option<Seq<char>>;

/// Calls `Path::new(path).file_name()` and copies the name it finds.
#[verifier::external_body]
fn file_name_of(path: &str) -> (name: Option<String>)
    ensures
        name.deep_view() == path_file_name(path@),
{
    match std::path::Path::new(path).file_name() {
        Some(n) => Some(n.to_string_lossy().into_owned()),
        None => None,
    }
}

/// The title shown for a file name that `Path::file_name` found, or
/// `untitled` when it found none.
pub fn display_file_name(name: Option<String>) -> (title: String)
    ensures
        title@ == match name {
            Some(n) => n@,
            None => untitled(),
        },
{
    match name {
        Some(n) => n,
        None => {
            let cs = vec!['u', 'n', 't', 'i', 't', 'l', 'e', 'd'];
            proof {
                assert(cs@ =~= untitled());
            }
            string_of(cs.as_slice())
        },
    }
}

/// The title of the tab that shows the file at `path`: its last component,
/// or `untitled` when the path has none (such as `/`).
pub fn file_name_from_path(path: &str) -> (title: String)
    ensures
        title@ == match path_file_name(path@) {
            Some(n) => n,
            None => untitled(),
        },
{
    display_file_name(file_name_of(path))
}

/// A time stamp as `chrono` writes `%Y%m%d-%H%M%S` for a time after 1969:
/// the year (four digits, or more after a sign), month and day as eight
/// digits at the end of the date, a `-`, then six digits of hour, minute and
/// second.
pub open spec fn stamp_shape(s: Seq<char>) -> bool {
    &&& s.len() >= 15
    &&& s[s.len() - 7] == '-'
    &&& forall|k: int| s.len() - 6 <= k < s.len() ==> crate::ipc::is_digit(#[trigger] s[k])
    &&& forall|k: int| s.len() - 15 <= k < s.len() - 7 ==> crate::ipc::is_digit(#[trigger] s[k])
}

/// Reads the clock as whole seconds since the Unix epoch with
/// `UNIX_EPOCH.elapsed()`; `None` when the clock reads before 1970. The
/// result depends on the clock, so the contract claims nothing of it.
#[verifier::external_body]
fn seconds_since_epoch() -> (secs: Option<u64>) {
    std::time::UNIX_EPOCH.elapsed().ok().map(|d| d.as_secs())
}

/// Writes the local time at `secs` seconds after the Unix epoch with
/// `chrono::Local.timestamp_opt(secs, 0)` and `format("%Y%m%d-%H%M%S")`;
/// `None` when `chrono` has no single local time for it. The local time
/// depends on the machine's time zone, so the contract claims only the shape
/// that `chrono`'s documentation gives for that pattern (each field
/// zero-padded; years of more than four digits carry a sign in front).
#[verifier::external_body]
fn local_stamp(secs: u64) -> (stamp: Option<String>)
    requires
        secs <= i64::MAX,
    ensures
        stamp matches Some(s) ==> stamp_shape(s@),
{
    chrono::TimeZone::timestamp_opt(&chrono::Local, secs as i64, 0)
        .single()
        .map(|t| t.format("%Y%m%d-%H%M%S").to_string())
}

/// The name of a new tab created at the time written as `stamp`:
/// `untitled-` followed by the stamp.
pub fn untitled_name_at(stamp: &str) -> (name: String)
    ensures
        name@ == untitled() + seq!['-'] + stamp@,
{
    let prefix = vec!['u', 'n', 't', 'i', 't', 'l', 'e', 'd', '-'];
    let mut name = string_of(prefix.as_slice());
    let cs = chars_of(stamp);
    let mut i: usize = 0;
    while i < cs.len()
        invariant
            i <= cs@.len(),
            name@ == prefix@ + cs@.take(i as int),
        decreases cs.len() - i,
    {
        push_char(&mut name, cs[i]);
        proof {
            assert(cs@.take(i + 1) =~= cs@.take(i as int).push(cs@[i as int]));
        }
        i = i + 1;
    }
    proof {
        assert(cs@.take(cs@.len() as int) =~= cs@);
        assert(prefix@ =~= untitled() + seq!['-']);
    }
    name
}

/// The name of a new tab: `untitled-` and the local time as
/// `YYYYMMDD-HHMMSS`; `None` when the clock reads before 1970 or its time has
/// no single local time.
pub fn untitled_name() -> (name: Option<String>)
    ensures
        name matches Some(n) ==> exists|s: Seq<char>|
            stamp_shape(s) && n@ == untitled() + seq!['-'] + s,
{
    let secs = match seconds_since_epoch() {
        Some(s) => s,
        None => {
            return None;
        },
    };
    if secs > i64::MAX as u64 {
        return None;
    }
    match local_stamp(secs) {
        Some(stamp) => {
            let name = untitled_name_at(stamp.as_str());
            proof {
                assert(stamp_shape(stamp@) && name@ == untitled() + seq!['-'] + stamp@);
            }
            Some(name)
        },
        None => None,
    }
}

} // verus!
