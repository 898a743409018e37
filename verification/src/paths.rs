use vstd::prelude::*;
use crate::text::same_text;

verus! {

/// Names the components that `std::path::Path::components` finds in a path,
/// each written as its `as_os_str` text (a root is `/`, a current directory
/// `.`, a parent directory `..`).
pub uninterp spec fn path_components(path: Seq<char>) -> Seq<Seq<char>>;

/// Calls `Path::new(path).components()` and copies the text of each component.
#[verifier::external_body]
fn components_of(path: &str) -> (parts: Vec<String>)
    ensures
        parts.deep_view() == path_components(path@),
{
    std::path::Path::new(path).components().map(|c| c.as_os_str().to_string_lossy().into_owned()).collect()
}

/// Two paths name the same file as `Path`'s `==` sees it: they have the same
/// components, so `/a/` and `/a`, or `a//b` and `a/./b`, are the same path.
pub open spec fn same_path_spec(a: Seq<char>, b: Seq<char>) -> bool {
    path_components(a) == path_components(b)
}

/// Whether two paths have the same components.
pub fn same_path(a: &str, b: &str) -> (r: bool)
    ensures
        r == same_path_spec(a@, b@),
{
    let x = components_of(a);
    let y = components_of(b);
    if x.len() != y.len() {
        proof {
            assert(x.deep_view().len() != y.deep_view().len());
        }
        return false;
    }
    let mut i: usize = 0;
    while i < x.len()
        invariant
            x.deep_view() == path_components(a@),
            y.deep_view() == path_components(b@),
            x@.len() == y@.len(),
            i <= x@.len(),
            forall|k: int| 0 <= k < i ==> x@[k]@ == y@[k]@,
        decreases x.len() - i,
    {
        if !same_text(x[i].as_str(), y[i].as_str()) {
            proof {
                assert(x.deep_view()[i as int] == x@[i as int]@);
                assert(y.deep_view()[i as int] == y@[i as int]@);
                assert(x.deep_view()[i as int] != y.deep_view()[i as int]);
                assert(x.deep_view() != y.deep_view());
            }
            return false;
        }
        i = i + 1;
    }
    proof {
        assert(x.deep_view() =~= y.deep_view());
    }
    true
}

} // verus!
