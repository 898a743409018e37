use vstd::prelude::*;

verus! {

broadcast use vstd::string::group_string_axioms;

/// The characters of a string slice, in order.
pub fn chars_of(s: &str) -> (r: Vec<char>)
    ensures
        r@ == s@,
{
    let mut r: Vec<char> = Vec::new();
    for c in it: s.chars()
        invariant
            r@ == it.seq().take(it.index() as int),
            it.seq() == s@,
    {
        r.push(c);
    }
    r
}

/// Appends one character to a string.
#[verifier::external_body]
pub(crate) fn push_char(s: &mut String, c: char)
    ensures
        final(s)@ == old(s)@.push(c),
{
    s.push(c);
}

/// A string made of the given characters.
pub fn string_of(cs: &[char]) -> (r: String)
    ensures
        r@ == cs@,
{
    let mut r = String::new();
    let mut i: usize = 0;
    while i < cs.len()
        invariant
            i <= cs.len(),
            r@ == cs@.take(i as int),
        decreases cs.len() - i,
    {
        push_char(&mut r, cs[i]);
        assert(cs@.take(i as int).push(cs@[i as int]) =~= cs@.take(i + 1));
        i += 1;
    }
    assert(cs@.take(cs.len() as int) =~= cs@);
    r
}

} // verus!

verus! {

/// A string made of the characters `cs[start..end]`.
pub fn string_of_range(cs: &Vec<char>, start: usize, end: usize) -> (r: String)
    requires
        start <= end <= cs@.len(),
    ensures
        r@ == cs@.subrange(start as int, end as int),
{
    let mut r = String::new();
    let mut i: usize = start;
    while i < end
        invariant
            start <= i <= end <= cs@.len(),
            r@ == cs@.subrange(start as int, i as int),
        decreases end - i,
    {
        push_char(&mut r, cs[i]);
        assert(cs@.subrange(start as int, i as int).push(cs@[i as int]) =~= cs@.subrange(
            start as int,
            i + 1,
        ));
        i += 1;
    }
    r
}

} // verus!

verus! {

/// Whether two strings hold the same text.
pub fn same_text(a: &str, b: &str) -> (r: bool)
    ensures
        r == (a@ == b@),
{
    let x = a.as_bytes();
    let y = b.as_bytes();
    proof {
        vstd::utf8::encode_utf8_decode_utf8(a@);
        vstd::utf8::encode_utf8_decode_utf8(b@);
    }
    if x.len() != y.len() {
        return false;
    }
    let mut i: usize = 0;
    while i < x.len()
        invariant
            x@.len() == y@.len(),
            (a@ == b@) ==> x@ == y@,
            i <= x@.len(),
            forall|k: int| 0 <= k < i ==> x@[k] == y@[k],
        decreases x.len() - i,
    {
        if x[i] != y[i] {
            return false;
        }
        i = i + 1;
    }
    proof {
        assert(x@ =~= y@);
    }
    true
}

/// `a` sorts strictly before `b` in the byte-wise lexicographic order that
/// `Ord` for `str` uses.
pub open spec fn bytes_less(a: Seq<u8>, b: Seq<u8>) -> bool
    decreases a.len(),
{
    if b.len() == 0 {
        false
    } else if a.len() == 0 {
        true
    } else if a[0] != b[0] {
        a[0] < b[0]
    } else {
        bytes_less(a.drop_first(), b.drop_first())
    }
}

/// `a` sorts strictly before `b` as strings.
pub open spec fn text_less_spec(a: Seq<char>, b: Seq<char>) -> bool {
    bytes_less(vstd::utf8::encode_utf8(a), vstd::utf8::encode_utf8(b))
}

/// Whether `a` sorts strictly before `b` as strings.
pub fn text_less(a: &str, b: &str) -> (r: bool)
    ensures
        r == text_less_spec(a@, b@),
{
    let x = a.as_bytes();
    let y = b.as_bytes();
    let mut i: usize = 0;
    proof {
        assert(x@.skip(0) =~= x@);
        assert(y@.skip(0) =~= y@);
    }
    while i < x.len() && i < y.len()
        invariant
            x@ == vstd::utf8::encode_utf8(a@),
            y@ == vstd::utf8::encode_utf8(b@),
            i <= x@.len(),
            i <= y@.len(),
            bytes_less(x@, y@) == bytes_less(x@.skip(i as int), y@.skip(i as int)),
        decreases x.len() - i,
    {
        if x[i] != y[i] {
            proof {
                assert(x@.skip(i as int)[0] == x@[i as int]);
                assert(y@.skip(i as int)[0] == y@[i as int]);
            }
            return x[i] < y[i];
        }
        proof {
            assert(x@.skip(i as int).drop_first() =~= x@.skip(i + 1));
            assert(y@.skip(i as int).drop_first() =~= y@.skip(i + 1));
        }
        i = i + 1;
    }
    i < y.len()
}

} // verus!

verus! {

/// Offset of the first `'\n'` at or after `s`, or the length of `t`.
pub open spec fn next_newline(t: Seq<char>, s: int) -> int
    decreases t.len() - s,
{
    if s < 0 || s >= t.len() {
        t.len() as int
    } else if t[s] == '\n' {
        s
    } else {
        next_newline(t, s + 1)
    }
}

/// The next line break lies at or after the start of the line.
pub proof fn lemma_next_newline_bounds(t: Seq<char>, s: int)
    requires
        0 <= s <= t.len(),
    ensures
        s <= next_newline(t, s) <= t.len(),
    decreases t.len() - s,
{
    if s < t.len() && t[s] != '\n' {
        lemma_next_newline_bounds(t, s + 1);
    }
}

/// Offset of the next `'\n'` in `t` at or after `s`.
pub fn find_newline(t: &Vec<char>, s: usize) -> (e: usize)
    requires
        s <= t@.len(),
    ensures
        e == next_newline(t@, s as int),
        s <= e <= t@.len(),
{
    let mut e = s;
    while e < t.len() && t[e] != '\n'
        invariant
            s <= e <= t@.len(),
            next_newline(t@, s as int) == next_newline(t@, e as int),
        decreases t.len() - e,
    {
        e = e + 1;
    }
    e
}

} // verus!

verus! {

/// `bytes_less` never holds both ways, and it is transitive.
pub proof fn lemma_bytes_less_order(a: Seq<u8>, b: Seq<u8>, c: Seq<u8>)
    ensures
        bytes_less(a, b) ==> !bytes_less(b, a),
        bytes_less(a, b) && bytes_less(b, c) ==> bytes_less(a, c),
        !bytes_less(a, b) && !bytes_less(b, c) ==> !bytes_less(a, c),
    decreases a.len(),
{
    lemma_bytes_less_asym(a, b);
    if a.len() > 0 && b.len() > 0 && c.len() > 0 {
        lemma_bytes_less_order(a.drop_first(), b.drop_first(), c.drop_first());
    }
}

proof fn lemma_bytes_less_asym(a: Seq<u8>, b: Seq<u8>)
    ensures
        bytes_less(a, b) ==> !bytes_less(b, a),
    decreases a.len(),
{
    if a.len() > 0 && b.len() > 0 {
        lemma_bytes_less_asym(a.drop_first(), b.drop_first());
    }
}

/// The keys of `s` never decrease.
pub open spec fn sorted_by_key<T>(s: Seq<(String, T)>) -> bool {
    forall|i: int, j: int| 0 <= i < j < s.len() ==> !text_less_spec(s[j].0@, s[i].0@)
}

/// Sorts pairs by their text keys (byte-wise, as `str` orders), keeping pairs
/// with equal keys in their order.
pub fn sort_by_text_key<T>(v: Vec<(String, T)>) -> (r: Vec<(String, T)>)
    ensures
        sorted_by_key(r@),
        r@.to_multiset() == v@.to_multiset(),
        r@.len() == v@.len(),
{
    let mut input = v;
    let ghost orig = input@;
    let mut out: Vec<(String, T)> = Vec::new();
    proof {
        assert(out@.to_multiset() =~= vstd::multiset::Multiset::empty()) by {
            broadcast use vstd::seq_lib::group_to_multiset_ensures;
        }
    }
    while input.len() > 0
        invariant
            sorted_by_key(out@),
            out@.to_multiset().add(input@.to_multiset()) == orig.to_multiset(),
            out@.len() + input@.len() == orig.len(),
        decreases input.len(),
    {
        let ghost before_in = input@;
        let item = input.remove(0);
        let mut k: usize = 0;
        while k < out.len() && !text_less(item.0.as_str(), out[k].0.as_str())
            invariant
                k <= out@.len(),
                forall|i: int| 0 <= i < k ==> !text_less_spec(item.0@, #[trigger] out@[i].0@),
            decreases out.len() - k,
        {
            k = k + 1;
        }
        let ghost before_out = out@;
        out.insert(k, item);
        proof {
            assert forall|i: int, j: int| 0 <= i < j < out@.len() implies !text_less_spec(
                out@[j].0@,
                out@[i].0@,
            ) by {
                let kk = k as int;
                if j == kk {
                    assert(out@[i] == before_out[i]);
                } else if i == kk {
                    assert(out@[j] == before_out[j - 1]);
                    if kk < before_out.len() {
                        assert(text_less_spec(item.0@, before_out[kk].0@));
                        if j - 1 > kk {
                            assert(!text_less_spec(before_out[j - 1].0@, before_out[kk].0@));
                        }
                        lemma_bytes_less_order(
                            vstd::utf8::encode_utf8(before_out[j - 1].0@),
                            vstd::utf8::encode_utf8(item.0@),
                            vstd::utf8::encode_utf8(before_out[kk].0@),
                        );
                    }
                } else {
                    let ii = if i < kk { i } else { i - 1 };
                    let jj = if j < kk { j } else { j - 1 };
                    assert(out@[i] == before_out[ii]);
                    assert(out@[j] == before_out[jj]);
                }
            }
            assert(input@ == before_in.remove(0));
            assert(out@ == before_out.insert(k as int, item));
            vstd::seq_lib::to_multiset_insert(before_out, k as int, item);
            vstd::seq_lib::to_multiset_remove(before_in, 0);
            assert(out@.to_multiset() == before_out.to_multiset().insert(item));
            assert(input@.to_multiset() == before_in.to_multiset().remove(before_in[0]));
            assert(before_in[0] == item);
            assert(out@.to_multiset().add(input@.to_multiset()) =~= before_out.to_multiset().add(
                before_in.to_multiset(),
            )) by {
                broadcast use vstd::multiset::group_multiset_axioms;

                assert(before_in.to_multiset().count(item) > 0) by {
                    broadcast use vstd::seq_lib::group_to_multiset_ensures;

                    assert(before_in.contains(item)) by {
                        assert(before_in[0] == item);
                    }
                }
            }
        }
    }
    proof {
        assert(input@.to_multiset() =~= vstd::multiset::Multiset::empty()) by {
            broadcast use vstd::seq_lib::group_to_multiset_ensures;

            assert(input@.len() == 0);
        }
        assert(out@.to_multiset().add(input@.to_multiset()) =~= out@.to_multiset()) by {
            broadcast use vstd::multiset::group_multiset_axioms;
        }
    }
    out
}


/// Reordering keeps items apart: when no two items of `a` agree on `f`,
/// neither do two items of a sequence with the same multiset of items.
pub proof fn lemma_reorder_keeps_distinct<T, K>(a: Seq<T>, b: Seq<T>, f: spec_fn(T) -> K)
    requires
        a.to_multiset() == b.to_multiset(),
        forall|i: int, j: int| 0 <= i < j < a.len() ==> f(a[i]) != f(a[j]),
    ensures
        forall|i: int, j: int| 0 <= i < j < b.len() ==> f(b[i]) != f(b[j]),
{
    broadcast use vstd::seq_lib::group_to_multiset_ensures;

    assert(a.no_duplicates()) by {
        assert forall|i: int, j: int| 0 <= i < a.len() && 0 <= j < a.len() && i != j implies a[i]
            != a[j] by {
            if i < j {
                assert(f(a[i]) != f(a[j]));
            } else {
                assert(f(a[j]) != f(a[i]));
            }
        }
    }
    a.lemma_multiset_has_no_duplicates();
    b.lemma_multiset_has_no_duplicates_conv();
    assert forall|i: int, j: int| 0 <= i < j < b.len() implies f(b[i]) != f(b[j]) by {
        assert(b.contains(b[i]) && b.contains(b[j]));
        assert(a.to_multiset().count(b[i]) > 0);
        assert(a.to_multiset().count(b[j]) > 0);
        assert(a.contains(b[i]) && a.contains(b[j]));
        let x = choose|x: int| 0 <= x < a.len() && a[x] == b[i];
        let y = choose|y: int| 0 <= y < a.len() && a[y] == b[j];
        assert(b[i] != b[j]);
        if x < y {
            assert(f(a[x]) != f(a[y]));
        } else {
            assert(x != y);
            assert(f(a[y]) != f(a[x]));
        }
    }
}

} // verus!
